//! Module-path derivation: mapping a source file's location inside a package
//! to the dotted or `::`-separated key of the namespace it defines.

use vstd::prelude::*;
use crate::strutil;

verus! {

/// The module path of a Rust source file: `src/` and `.rs` stripped, a root
/// file (`lib`, `main`) mapping to the bare crate name, a trailing `/mod`
/// folded into its directory, and `/` rewritten to `::`.
pub open spec fn rust_module_of(name: Seq<char>, path: Seq<char>) -> Seq<char> {
    let p1 = strutil::strip_prefix_spec(path, "src/"@);
    let p2 = strutil::strip_suffix_spec(p1, ".rs"@);
    if p2 == "lib"@ || p2 == "main"@ {
        name
    } else {
        let p3 = strutil::strip_suffix_spec(p2, "/mod"@);
        name + strutil::path_sep() + strutil::replace_char_spec(p3, '/', strutil::path_sep())
    }
}

/// Converts a file path such as `src/ser/mod.rs` to a module path such as
/// `serde::ser`.
pub fn path_to_module(crate_name: &str, path: &str) -> (r: String)
    ensures
        r@ == rust_module_of(crate_name@, path@),
{
    proof {
        reveal_strlit("src/");
        reveal_strlit(".rs");
        reveal_strlit("lib");
        reveal_strlit("main");
        reveal_strlit("/mod");
        reveal_strlit("::");
    }
    let p1 = strutil::strip_prefix_copy(path, "src/");
    let p2 = strutil::strip_suffix_copy(p1.as_str(), ".rs");
    if strutil::str_eq(p2.as_str(), "lib") || strutil::str_eq(p2.as_str(), "main") {
        return crate_name.to_owned();
    }
    let p3 = strutil::strip_suffix_copy(p2.as_str(), "/mod");
    let rewritten = strutil::replace_char(p3.as_str(), '/', "::");
    let mut out = crate_name.to_owned();
    out.append("::");
    out.append(rewritten.as_str());
    out
}

/// The module path of a file inside an npm package: a `src/` or `lib/` prefix
/// and the script extension stripped, an `index` file folding into its parent,
/// and `/` rewritten to `.`.
pub open spec fn npm_module_of(name: Seq<char>, path: Seq<char>) -> Seq<char> {
    let p0 = strutil::strip_prefix_spec(path, "src/"@);
    let p1 = if p0 == path {
        strutil::strip_prefix_spec(path, "lib/"@)
    } else {
        p0
    };
    let p2 = npm_strip_ext(p1);
    let p3 = strutil::strip_suffix_spec(p2, "/index"@);
    if p3 == "index"@ {
        name
    } else {
        name + "."@ + strutil::replace_char_spec(p3, '/', "."@)
    }
}

/// Strips the first matching script extension, trying the same order the
/// engine tries.
pub open spec fn npm_strip_ext(p: Seq<char>) -> Seq<char> {
    let e1 = ".ts"@;
    let e2 = ".tsx"@;
    let e3 = ".js"@;
    let e4 = ".jsx"@;
    let e5 = ".mts"@;
    let e6 = ".cts"@;
    if e1.is_suffix_of(p) {
        strutil::strip_suffix_spec(p, e1)
    } else if e2.is_suffix_of(p) {
        strutil::strip_suffix_spec(p, e2)
    } else if e3.is_suffix_of(p) {
        strutil::strip_suffix_spec(p, e3)
    } else if e4.is_suffix_of(p) {
        strutil::strip_suffix_spec(p, e4)
    } else if e5.is_suffix_of(p) {
        strutil::strip_suffix_spec(p, e5)
    } else if e6.is_suffix_of(p) {
        strutil::strip_suffix_spec(p, e6)
    } else {
        p
    }
}

/// The stem of a path: the part after the last `/`, with a trailing `.rs`
/// removed.
pub open spec fn stem_of(path: Seq<char>) -> Seq<char> {
    strutil::strip_suffix_spec(after_last_slash(path, path.len() as int), ".rs"@)
}

/// The part of `path` after the last `/` at or before position `k`.
pub open spec fn after_last_slash(path: Seq<char>, k: int) -> Seq<char>
    decreases k,
{
    if k <= 0 {
        path.subrange(0, path.len() as int)
    } else if 0 <= k - 1 < path.len() && path[k - 1] == '/' {
        path.subrange(k, path.len() as int)
    } else {
        after_last_slash(path, k - 1)
    }
}

/// The part of `path` up to (excluding) the last `/` at or before `k`; empty
/// when there is no `/`.
pub open spec fn before_last_slash(path: Seq<char>, k: int) -> Seq<char>
    decreases k,
{
    if k <= 0 {
        seq![]
    } else if 0 <= k - 1 < path.len() && path[k - 1] == '/' {
        path.subrange(0, k - 1)
    } else {
        before_last_slash(path, k - 1)
    }
}

/// Copies the part of `path` after its last `/`.
pub fn file_name_part(path: &str) -> (r: String)
    ensures
        r@ == after_last_slash(path@, path@.len() as int),
{
    let len = path.unicode_len();
    let mut k: usize = len;
    while k > 0
        invariant
            len == path@.len(),
            k <= len,
            after_last_slash(path@, len as int) == after_last_slash(path@, k as int),
        decreases k,
    {
        if path.get_char(k - 1) == '/' {
            return strutil::substring_copy(path, k, len);
        }
        k -= 1;
    }
    proof {
        assert(path@.subrange(0, path@.len() as int) =~= path@);
    }
    path.to_owned()
}

/// Copies the part of `path` before its last `/`, or the empty string.
pub fn dir_part(path: &str) -> (r: String)
    ensures
        r@ == before_last_slash(path@, path@.len() as int),
{
    let len = path.unicode_len();
    let mut k: usize = len;
    while k > 0
        invariant
            len == path@.len(),
            k <= len,
            before_last_slash(path@, len as int) == before_last_slash(path@, k as int),
        decreases k,
    {
        if path.get_char(k - 1) == '/' {
            return strutil::substring_copy(path, 0, k - 1);
        }
        k -= 1;
    }
    String::new()
}

/// The module path that the richer extraction pass assigns to a file: the
/// stem, with `lib` and `main` mapping to the crate root, a `mod` file to its
/// directory's name (unless that directory is `src`), and anything else to
/// `crate::stem`.
pub open spec fn file_module_of(name: Seq<char>, path: Seq<char>) -> Seq<char> {
    let stem = stem_of(path);
    if stem == "lib"@ || stem == "main"@ {
        name
    } else if stem == "mod"@ {
        let dir = before_last_slash(path, path.len() as int);
        let dirname = after_last_slash(dir, dir.len() as int);
        if dirname.len() > 0 && dirname != "src"@ {
            name + strutil::path_sep() + dirname
        } else {
            name
        }
    } else {
        name + strutil::path_sep() + stem
    }
}

/// Converts a file path to a module path by its stem, folding `mod.rs` into
/// the directory that holds it.
pub fn file_to_module_path(path: &str, crate_name: &str) -> (r: String)
    ensures
        r@ == file_module_of(crate_name@, path@),
{
    proof {
        reveal_strlit(".rs");
        reveal_strlit("lib");
        reveal_strlit("main");
        reveal_strlit("mod");
        reveal_strlit("src");
        reveal_strlit("::");
    }
    let fname = file_name_part(path);
    let stem = strutil::strip_suffix_copy(fname.as_str(), ".rs");
    if strutil::str_eq(stem.as_str(), "lib") || strutil::str_eq(stem.as_str(), "main") {
        return crate_name.to_owned();
    }
    if strutil::str_eq(stem.as_str(), "mod") {
        let dir = dir_part(path);
        let dirname = file_name_part(dir.as_str());
        if dirname.unicode_len() > 0 && !strutil::str_eq(dirname.as_str(), "src") {
            let mut out = crate_name.to_owned();
            out.append("::");
            out.append(dirname.as_str());
            return out;
        }
        return crate_name.to_owned();
    }
    let mut out = crate_name.to_owned();
    out.append("::");
    out.append(stem.as_str());
    out
}

} // verus!
