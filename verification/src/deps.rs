//! Resolved dependencies: the packages of a project's closure, each with the
//! directory its sources were unpacked to, and the pure selection logic over
//! them.

use vstd::prelude::*;
use crate::strutil;
use crate::version;

verus! {

/// A package available on disk: its name, version and unpacked root.
#[derive(Debug, Clone)]
pub struct RegistryCrate {
    pub name: String,
    pub version: String,
    pub path: String,
}

/// Splits a registry directory name such as `serde-1.0.200` at the last
/// hyphen followed by a digit; -1 when there is none.
pub open spec fn crate_dir_split(dir: Seq<char>, k: int) -> int
    decreases k,
{
    if k <= 0 {
        -1
    } else if 0 <= k - 1 < dir.len() && dir[k - 1] == '-' && k < dir.len() && '0' <= dir[k]
        && dir[k] <= '9' {
        k - 1
    } else {
        crate_dir_split(dir, k - 1)
    }
}

/// Parses a registry directory path such as
/// `/registry/src/index/serde-1.0.200` into name `serde`, version `1.0.200`
/// and the path itself; the split is at the last hyphen followed by a digit.
pub fn parse_crate_dir(path: &str) -> (r: Option<RegistryCrate>)
    ensures
        match r {
            Some(c) => {
                let dir = crate::modpath::after_last_slash(path@, path@.len() as int);
                let cut = crate_dir_split(dir, dir.len() as int);
                &&& cut >= 0
                &&& c.name@ == dir.subrange(0, cut)
                &&& c.version@ == dir.subrange(cut + 1, dir.len() as int)
                &&& c.path@ == path@
            },
            None => {
                let dir = crate::modpath::after_last_slash(path@, path@.len() as int);
                crate_dir_split(dir, dir.len() as int) < 0
            },
        },
{
    let dir = crate::modpath::file_name_part(path);
    let d = dir.as_str();
    let len = d.unicode_len();
    let mut k: usize = len;
    while k > 0
        invariant
            d@ == crate::modpath::after_last_slash(path@, path@.len() as int),
            len == d@.len(),
            k <= len,
            crate_dir_split(d@, len as int) == crate_dir_split(d@, k as int),
        decreases k,
    {
        if d.get_char(k - 1) == '-' && k < len && '0' <= d.get_char(k) && d.get_char(k) <= '9' {
            let name = strutil::substring_copy(d, 0, k - 1);
            let ver = strutil::substring_copy(d, k, len);
            return Some(RegistryCrate { name, version: ver, path: path.to_owned() });
        }
        k -= 1;
    }
    None
}

/// A dependency read from a lockfile, with the on-disk root for a path
/// dependency.
#[derive(Debug, Clone)]
pub struct LockedDep {
    pub name: String,
    pub version: String,
    /// None for registry dependencies, the project-local root otherwise.
    pub path: Option<String>,
}

/// The locked list holds an entry with the given name and version.
pub open spec fn in_locked(l: Seq<LockedDep>, name: Seq<char>, ver: Seq<char>) -> bool {
    exists|j: int| 0 <= j < l.len() && (#[trigger] l[j]).name@ == name && l[j].version@ == ver
}

/// The name list holds the given name.
pub open spec fn name_in(names: Seq<String>, name: Seq<char>) -> bool {
    exists|j: int| 0 <= j < names.len() && (#[trigger] names[j])@ == name
}

/// The filter admits the dependency: no filter, or its name is listed.
pub open spec fn direct_admits(direct: Option<Vec<String>>, name: Seq<char>) -> bool {
    match direct {
        Some(names) => name_in(names@, name),
        None => true,
    }
}

/// The dependency can be resolved to a root on disk: it carries its own
/// path, or the registry holds its exact version.
pub open spec fn resolvable(reg: Seq<RegistryCrate>, dep: LockedDep) -> bool {
    match dep.path {
        Some(_) => true,
        None => exists|m: int|
            0 <= m < reg.len() && (#[trigger] reg[m]).name@ == dep.name@ && reg[m].version@
                == dep.version@,
    }
}

/// Some resolved crate carries the key.
pub open spec fn resolved_has(r: Seq<RegistryCrate>, name: Seq<char>, ver: Seq<char>) -> bool {
    exists|i: int|
        0 <= i < r.len() && (#[trigger] r[i]).name@ == name && r[i].version@ == ver
}

/// Joins locked dependencies against the unpacked registry: a path dependency
/// resolves to its own root, a registry dependency to the first unpacked copy
/// of its exact version, and a dependency that is nowhere on disk is dropped.
/// With `direct` given, only dependencies named in it are kept; every
/// admitted, resolvable dependency appears in the result.
pub fn resolve_deps(
    locked: &Vec<LockedDep>,
    registry: &Vec<RegistryCrate>,
    direct: &Option<Vec<String>>,
) -> (r: Vec<RegistryCrate>)
    ensures
        forall|i: int|
            0 <= i < r@.len() ==> in_locked(
                locked@,
                (#[trigger] r@[i]).name@,
                r@[i].version@,
            ),
        forall|i: int|
            0 <= i < r@.len() ==> (direct matches Some(names) ==> name_in(
                names@,
                (#[trigger] r@[i]).name@,
            )),
        forall|j: int|
            0 <= j < locked@.len() && direct_admits(*direct, (#[trigger] locked@[j]).name@)
                && resolvable(registry@, locked@[j]) ==> resolved_has(
                r@,
                locked@[j].name@,
                locked@[j].version@,
            ),
{
    let mut out: Vec<RegistryCrate> = Vec::new();
    let mut k: usize = 0;
    while k < locked.len()
        invariant
            k <= locked@.len(),
            forall|i: int|
                0 <= i < out@.len() ==> in_locked(
                    locked@,
                    (#[trigger] out@[i]).name@,
                    out@[i].version@,
                ),
            forall|i: int|
                0 <= i < out@.len() ==> (direct matches Some(names) ==> name_in(
                    names@,
                    (#[trigger] out@[i]).name@,
                )),
            forall|j: int|
                0 <= j < k && direct_admits(*direct, (#[trigger] locked@[j]).name@)
                    && resolvable(registry@, locked@[j]) ==> resolved_has(
                    out@,
                    locked@[j].name@,
                    locked@[j].version@,
                ),
        decreases locked@.len() - k,
    {
        let ghost out_before = out@;
        let dep = &locked[k];
        let keep = match direct {
            Some(names) => {
                let mut found = false;
                let mut m: usize = 0;
                while m < names.len()
                    invariant
                        m <= names@.len(),
                        found == exists|j: int|
                            0 <= j < m && (#[trigger] names@[j])@ == dep.name@,
                    decreases names@.len() - m,
                {
                    if !found && strutil::str_eq(names[m].as_str(), dep.name.as_str()) {
                        found = true;
                        proof {
                            assert(names@[m as int]@ == dep.name@);
                        }
                    }
                    m += 1;
                }
                proof {
                    assert(found == name_in(names@, dep.name@));
                }
                found
            },
            None => true,
        };
        proof {
            assert(keep == direct_admits(*direct, locked@[k as int].name@));
        }
        let ghost dep_view = locked@[k as int];
        if keep {
            match &dep.path {
                Some(p) => {
                    out.push(
                        RegistryCrate {
                            name: dep.name.clone(),
                            version: dep.version.clone(),
                            path: p.clone(),
                        },
                    );
                    proof {
                        let n = out@.len() - 1;
                        assert(out@[n].name@ == locked@[k as int].name@);
                        assert(out@[n].version@ == locked@[k as int].version@);
                        assert(in_locked(locked@, out@[n].name@, out@[n].version@));
                    }
                },
                None => {
                    let mut m: usize = 0;
                    let mut hit: Option<usize> = None;
                    while m < registry.len()
                        invariant
                            m <= registry@.len(),
                            match hit {
                                Some(h) => h < registry@.len() && registry@[h as int].name@
                                    == dep.name@ && registry@[h as int].version@ == dep.version@,
                                None => forall|w: int|
                                    0 <= w < m ==> !((#[trigger] registry@[w]).name@ == dep.name@
                                        && registry@[w].version@ == dep.version@),
                            },
                        decreases registry@.len() - m,
                    {
                        if hit.is_none() && strutil::str_eq(
                            registry[m].name.as_str(),
                            dep.name.as_str(),
                        ) && strutil::str_eq(registry[m].version.as_str(), dep.version.as_str()) {
                            hit = Some(m);
                        }
                        m += 1;
                    }
                    match hit {
                        Some(h) => {
                            out.push(
                                RegistryCrate {
                                    name: registry[h].name.clone(),
                                    version: registry[h].version.clone(),
                                    path: registry[h].path.clone(),
                                },
                            );
                            proof {
                                let n = out@.len() - 1;
                                assert(out@[n].name@ == locked@[k as int].name@);
                                assert(out@[n].version@ == locked@[k as int].version@);
                                assert(in_locked(locked@, out@[n].name@, out@[n].version@));
                            }
                        },
                        None => {},
                    }
                },
            }
        }
        proof {
            assert forall|j: int|
                0 <= j < k + 1 && direct_admits(*direct, (#[trigger] locked@[j]).name@)
                    && resolvable(registry@, locked@[j]) implies resolved_has(
                out@,
                locked@[j].name@,
                locked@[j].version@,
            ) by {
                if j < k {
                    let w = choose|w: int|
                        0 <= w < out_before.len() && (#[trigger] out_before[w]).name@
                            == locked@[j].name@ && out_before[w].version@ == locked@[j].version@;
                    assert(out@[w] == out_before[w]);
                } else {
                    let n = out@.len() - 1;
                    assert(out@[n].name@ == locked@[k as int].name@ && out@[n].version@
                        == locked@[k as int].version@);
                }
            }
        }
        k += 1;
    }
    out
}

/// Picks the requested version of a crate from the copies on disk, or the
/// newest by numeric version components when no version was requested.
pub fn select_crate(crates: Vec<RegistryCrate>, ver: Option<&str>) -> (r: Option<RegistryCrate>)
    ensures
        crates@.len() == 0 ==> r is None,
        match r {
            Some(c) => {
                &&& exists|i: int|
                    0 <= i < crates@.len() && (#[trigger] crates@[i]).name@ == c.name@
                        && crates@[i].version@ == c.version@ && crates@[i].path@ == c.path@
                &&& match ver {
                    Some(v) => c.version@ == v@,
                    None => forall|i: int|
                        0 <= i < crates@.len() ==> !version::key_lt(
                            version::version_key(c.version@),
                            version::version_key((#[trigger] crates@[i]).version@),
                        ),
                }
            },
            None => match ver {
                Some(v) => forall|i: int|
                    0 <= i < crates@.len() ==> (#[trigger] crates@[i]).version@ != v@,
                None => crates@.len() == 0,
            },
        },
{
    match ver {
        Some(v) => {
            let mut k: usize = 0;
            while k < crates.len()
                invariant
                    ver == Some(v),
                    k <= crates@.len(),
                    forall|i: int| 0 <= i < k ==> (#[trigger] crates@[i]).version@ != v@,
                decreases crates@.len() - k,
            {
                if strutil::str_eq(crates[k].version.as_str(), v) {
                    let c = &crates[k];
                    return Some(
                        RegistryCrate {
                            name: c.name.clone(),
                            version: c.version.clone(),
                            path: c.path.clone(),
                        },
                    );
                }
                k += 1;
            }
            None
        },
        None => {
            if crates.len() == 0 {
                return None;
            }
            let mut best: usize = 0;
            let mut k: usize = 1;
            proof {
                lemma_key_order(
                    version::version_key(crates@[0].version@),
                    version::version_key(crates@[0].version@),
                );
            }
            while k < crates.len()
                invariant
                    ver is None,
                    best < crates@.len(),
                    k <= crates@.len(),
                    forall|i: int|
                        0 <= i < k ==> !version::key_lt(
                            version::version_key(crates@[best as int].version@),
                            version::version_key((#[trigger] crates@[i]).version@),
                        ),
                decreases crates@.len() - k,
            {
                if version::version_newer(crates[k].version.as_str(), crates[best].version.as_str())
                {
                    proof {
                        let key_k = version::version_key(crates@[k as int].version@);
                        let key_best = version::version_key(crates@[best as int].version@);
                        assert forall|i: int| 0 <= i < k + 1 implies !version::key_lt(
                            key_k,
                            version::version_key((#[trigger] crates@[i]).version@),
                        ) by {
                            let key_i = version::version_key(crates@[i].version@);
                            if i < k && version::key_lt(key_k, key_i) {
                                lemma_key_trans(key_best, key_k, key_i);
                            }
                            if i == k {
                                lemma_key_order(key_k, key_k);
                            }
                        }
                    }
                    best = k;
                } else {
                    proof {
                        let key_k = version::version_key(crates@[k as int].version@);
                        let key_best = version::version_key(crates@[best as int].version@);
                        assert forall|i: int| 0 <= i < k + 1 implies !version::key_lt(
                            key_best,
                            version::version_key((#[trigger] crates@[i]).version@),
                        ) by {
                        }
                    }
                }
                k += 1;
            }
            let c = &crates[best];
            Some(
                RegistryCrate {
                    name: c.name.clone(),
                    version: c.version.clone(),
                    path: c.path.clone(),
                },
            )
        },
    }
}

/// The version-key order never holds both ways.
pub proof fn lemma_key_order(a: Seq<nat>, b: Seq<nat>)
    ensures
        !(version::key_lt(a, b) && version::key_lt(b, a)),
    decreases a.len(),
{
    if a.len() != 0 && b.len() != 0 && a[0] == b[0] {
        lemma_key_order(a.subrange(1, a.len() as int), b.subrange(1, b.len() as int));
    }
}

/// The version-key order is transitive.
pub proof fn lemma_key_trans(a: Seq<nat>, b: Seq<nat>, c: Seq<nat>)
    requires
        version::key_lt(a, b),
        version::key_lt(b, c),
    ensures
        version::key_lt(a, c),
    decreases a.len(),
{
    if a.len() != 0 && b.len() != 0 && c.len() != 0 && a[0] == b[0] && b[0] == c[0] {
        lemma_key_trans(
            a.subrange(1, a.len() as int),
            b.subrange(1, b.len() as int),
            c.subrange(1, c.len() as int),
        );
    }
}

} // verus!
