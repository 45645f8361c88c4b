//! Rust project metadata: the package name read from a manifest and the
//! dependency list read from a lockfile, both by line.

use vstd::prelude::*;
use crate::strutil;

verus! {

/// A resolved dependency from a lockfile.
#[derive(Debug, Clone)]
pub struct Dependency {
    pub name: String,
    pub version: String,
}

/// A discovered Rust project.
#[derive(Debug)]
pub struct RustProject {
    pub root: String,
    pub name: String,
    pub deps: Vec<Dependency>,
}

impl RustProject {
    /// Assembles a project from its manifest and lockfile contents; the name
    /// falls back to `unknown`, a missing lockfile to no dependencies.
    pub fn from_manifest(root: String, manifest: &str, lockfile: Option<&str>) -> (r: RustProject)
        ensures
            r.root == root,
            r.name@ == match package_name_spec(strutil::split_lines(manifest@), 0) {
                Some(n) => n,
                None => "unknown"@,
            },
            match lockfile {
                Some(lock) => r.deps@.map_values(|d: Dependency| (d.name@, d.version@))
                    == lock_deps_spec(strutil::split_lines(lock@), 0, None, None),
                None => r.deps@.len() == 0,
            },
    {
        proof {
            reveal_strlit("unknown");
        }
        let name = match parse_package_name(manifest) {
            Some(n) => n,
            None => "unknown".to_owned(),
        };
        let deps = match lockfile {
            Some(lock) => parse_cargo_lock(lock),
            None => Vec::new(),
        };
        RustProject { root, name, deps }
    }
}

/// Whether a manifest line carries the package name: it opens with `name`
/// and has an `=` sign.
pub open spec fn name_line(t: Seq<char>) -> bool {
    "name"@.is_prefix_of(t) && strutil::first_occ(t, "="@) >= 0
}

/// The value of a `name = "..."` manifest line: what stands between the first
/// `=` and the second one or the end, whitespace and quotes stripped.
pub open spec fn name_line_value(t: Seq<char>) -> Seq<char> {
    let i = strutil::first_occ(t, "="@);
    let rest = t.subrange(i + 1, t.len() as int);
    let j = strutil::first_occ(rest, "="@);
    let piece = if j < 0 {
        rest
    } else {
        rest.subrange(0, j)
    };
    strutil::trim_matches_spec(strutil::trim_spec(piece), '"')
}

/// The package name carried by the first name line at or after line `k`.
pub open spec fn package_name_spec(lines: Seq<Seq<char>>, k: int) -> Option<Seq<char>>
    decreases lines.len() - k,
{
    if k < 0 || k >= lines.len() {
        None
    } else if name_line(strutil::trim_spec(lines[k])) {
        Some(name_line_value(strutil::trim_spec(lines[k])))
    } else {
        package_name_spec(lines, k + 1)
    }
}

/// Finds the first `=` of a line.
fn find_eq(t: &str) -> (r: Option<usize>)
    ensures
        match r {
            Some(i) => strutil::first_occ(t@, "="@) == i as int && strutil::occurs_at(
                t@,
                "="@,
                i as int,
            ),
            None => strutil::first_occ(t@, "="@) < 0,
        },
{
    proof {
        reveal_strlit("=");
    }
    match strutil::find_sub(t, "=") {
        Some(i) => {
            proof {
                strutil::lemma_first_occ_some(t@, "="@, 0, i as int);
            }
            Some(i)
        },
        None => {
            proof {
                assert(forall|j: int| 0 <= j ==> !strutil::occurs_at(t@, "="@, j));
                strutil::lemma_first_occ_none(t@, "="@, 0);
            }
            None
        },
    }
}

/// Reads the package name out of manifest text: the value of the first line
/// that opens with `name` and has an `=` sign.
pub fn parse_package_name(content: &str) -> (r: Option<String>)
    ensures
        match r {
            Some(n) => package_name_spec(strutil::split_lines(content@), 0) == Some(n@),
            None => package_name_spec(strutil::split_lines(content@), 0) is None,
        },
{
    proof {
        reveal_strlit("name");
    }
    let lines = strutil::lines_of(content);
    let ghost lview = strutil::split_lines(content@);
    let mut k: usize = 0;
    while k < lines.len()
        invariant
            lview == strutil::split_lines(content@),
            lines@.map_values(|l: String| l@) == lview,
            k <= lines@.len(),
            package_name_spec(lview, 0) == package_name_spec(lview, k as int),
        decreases lines@.len() - k,
    {
        proof {
            reveal_strlit("name");
            assert(lview[k as int] == lines@[k as int]@);
        }
        let t = strutil::trim_copy(lines[k].as_str());
        if strutil::starts_with(t.as_str(), "name") {
            match find_eq(t.as_str()) {
                Some(i) => {
                    let tl = t.as_str().unicode_len();
                    proof {
                        reveal_strlit("=");
                        assert(strutil::occurs_at(t@, "="@, i as int));
                    }
                    let rest = strutil::substring_copy(t.as_str(), i + 1, tl);
                    let piece = match find_eq(rest.as_str()) {
                        Some(j) => strutil::substring_copy(rest.as_str(), 0, j),
                        None => rest,
                    };
                    let trimmed = strutil::trim_copy(piece.as_str());
                    let value = strutil::trim_matches_copy(trimmed.as_str(), '"');
                    proof {
                        assert(name_line(t@));
                        assert(value@ == name_line_value(t@));
                        assert(package_name_spec(lview, k as int) == Some(name_line_value(t@)));
                    }
                    return Some(value);
                },
                None => {},
            }
        }
        k += 1;
    }
    None
}

/// The dependencies that a lockfile's lines carry from line `k` on, given the
/// name and version already read of the entry being assembled: a
/// `[[package]]` opener flushes a complete entry, `name = ` and `version = `
/// lines fill it, and the end of input flushes the last one.
pub open spec fn lock_deps_spec(
    lines: Seq<Seq<char>>,
    k: int,
    cur_name: Option<Seq<char>>,
    cur_ver: Option<Seq<char>>,
) -> Seq<(Seq<char>, Seq<char>)>
    decreases lines.len() - k,
{
    if k < 0 || k >= lines.len() {
        match (cur_name, cur_ver) {
            (Some(n), Some(v)) => seq![(n, v)],
            _ => seq![],
        }
    } else {
        let t = strutil::trim_spec(lines[k]);
        if t == "[[package]]"@ {
            (match (cur_name, cur_ver) {
                (Some(n), Some(v)) => seq![(n, v)],
                _ => seq![],
            }) + lock_deps_spec(lines, k + 1, None, None)
        } else if "name = "@.is_prefix_of(t) {
            lock_deps_spec(
                lines,
                k + 1,
                Some(strutil::trim_matches_spec(t.subrange(7, t.len() as int), '"')),
                cur_ver,
            )
        } else if "version = "@.is_prefix_of(t) {
            lock_deps_spec(
                lines,
                k + 1,
                cur_name,
                Some(strutil::trim_matches_spec(t.subrange(10, t.len() as int), '"')),
            )
        } else {
            lock_deps_spec(lines, k + 1, cur_name, cur_ver)
        }
    }
}

/// Reads the `(name, version)` entries out of lockfile text.
pub fn parse_cargo_lock(content: &str) -> (r: Vec<Dependency>)
    ensures
        r@.map_values(|d: Dependency| (d.name@, d.version@)) == lock_deps_spec(
            strutil::split_lines(content@),
            0,
            None,
            None,
        ),
{
    proof {
        reveal_strlit("[[package]]");
        reveal_strlit("name = ");
        reveal_strlit("version = ");
    }
    let lines = strutil::lines_of(content);
    let ghost lview = strutil::split_lines(content@);
    let mut deps: Vec<Dependency> = Vec::new();
    let mut cur_name: Option<String> = None;
    let mut cur_ver: Option<String> = None;
    let mut k: usize = 0;
    while k < lines.len()
        invariant
            lview == strutil::split_lines(content@),
            lines@.map_values(|l: String| l@) == lview,
            k <= lines@.len(),
            deps@.map_values(|d: Dependency| (d.name@, d.version@)) + lock_deps_spec(
                lview,
                k as int,
                match cur_name {
                    Some(n) => Some(n@),
                    None => None,
                },
                match cur_ver {
                    Some(v) => Some(v@),
                    None => None,
                },
            ) == lock_deps_spec(lview, 0, None, None),
        decreases lines@.len() - k,
    {
        proof {
            reveal_strlit("[[package]]");
            reveal_strlit("name = ");
            reveal_strlit("version = ");
            assert(lview[k as int] == lines@[k as int]@);
        }
        let t = strutil::trim_copy(lines[k].as_str());
        let tl = t.as_str().unicode_len();
        if strutil::str_eq(t.as_str(), "[[package]]") {
            let flush_name = cur_name;
            let flush_ver = cur_ver;
            cur_name = None;
            cur_ver = None;
            match (flush_name, flush_ver) {
                (Some(n), Some(v)) => {
                    deps.push(Dependency { name: n, version: v });
                    proof {
                        assert(deps@.map_values(|d: Dependency| (d.name@, d.version@))
                            =~= deps@.drop_last().map_values(|d: Dependency| (d.name@, d.version@))
                            + seq![(deps@.last().name@, deps@.last().version@)]);
                    }
                },
                _ => {},
            }
        } else if strutil::starts_with(t.as_str(), "name = ") {
            let raw = strutil::substring_copy(t.as_str(), 7, tl);
            cur_name = Some(strutil::trim_matches_copy(raw.as_str(), '"'));
        } else if strutil::starts_with(t.as_str(), "version = ") {
            let raw = strutil::substring_copy(t.as_str(), 10, tl);
            cur_ver = Some(strutil::trim_matches_copy(raw.as_str(), '"'));
        }
        k += 1;
    }
    match (cur_name, cur_ver) {
        (Some(n), Some(v)) => {
            deps.push(Dependency { name: n, version: v });
            proof {
                assert(deps@.map_values(|d: Dependency| (d.name@, d.version@))
                    =~= deps@.drop_last().map_values(|d: Dependency| (d.name@, d.version@))
                    + seq![(deps@.last().name@, deps@.last().version@)]);
            }
        },
        _ => {},
    }
    deps
}

} // verus!
