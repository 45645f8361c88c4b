//! npm package helpers: module-path derivation for TypeScript/JavaScript
//! sources and cleanup of version requirements.

use vstd::prelude::*;
use crate::strutil;
use crate::modpath;

verus! {

/// Converts a file path such as `src/license/api.ts` to a module path such
/// as `package.license.api`; an `index` file folds into its parent module.
pub fn path_to_module(package_name: &str, path: &str) -> (r: String)
    ensures
        r@ == modpath::npm_module_of(package_name@, path@),
{
    proof {
        reveal_strlit("src/");
        reveal_strlit("lib/");
        reveal_strlit(".ts");
        reveal_strlit(".tsx");
        reveal_strlit(".js");
        reveal_strlit(".jsx");
        reveal_strlit(".mts");
        reveal_strlit(".cts");
        reveal_strlit("/index");
        reveal_strlit("index");
        reveal_strlit(".");
    }
    let p0 = strutil::strip_prefix_copy(path, "src/");
    let p1 = if strutil::str_eq(p0.as_str(), path) {
        strutil::strip_prefix_copy(path, "lib/")
    } else {
        p0
    };
    let p2 = strip_script_ext(p1.as_str());
    let p3 = strutil::strip_suffix_copy(p2.as_str(), "/index");
    if strutil::str_eq(p3.as_str(), "index") {
        return package_name.to_owned();
    }
    let rewritten = strutil::replace_char(p3.as_str(), '/', ".");
    let mut out = package_name.to_owned();
    out.append(".");
    out.append(rewritten.as_str());
    out
}

/// Strips the first matching script extension from a path.
fn strip_script_ext(p: &str) -> (r: String)
    ensures
        r@ == modpath::npm_strip_ext(p@),
{
    proof {
        reveal_strlit(".ts");
        reveal_strlit(".tsx");
        reveal_strlit(".js");
        reveal_strlit(".jsx");
        reveal_strlit(".mts");
        reveal_strlit(".cts");
    }
    if strutil::ends_with(p, ".ts") {
        strutil::strip_suffix_copy(p, ".ts")
    } else if strutil::ends_with(p, ".tsx") {
        strutil::strip_suffix_copy(p, ".tsx")
    } else if strutil::ends_with(p, ".js") {
        strutil::strip_suffix_copy(p, ".js")
    } else if strutil::ends_with(p, ".jsx") {
        strutil::strip_suffix_copy(p, ".jsx")
    } else if strutil::ends_with(p, ".mts") {
        strutil::strip_suffix_copy(p, ".mts")
    } else if strutil::ends_with(p, ".cts") {
        strutil::strip_suffix_copy(p, ".cts")
    } else {
        p.to_owned()
    }
}

/// A version requirement without one leading `^` or `~`.
pub open spec fn clean_req_spec(v: Seq<char>) -> Seq<char> {
    if v.len() > 0 && (v[0] == '^' || v[0] == '~') {
        v.subrange(1, v.len() as int)
    } else {
        v
    }
}

/// Drops one leading `^` or `~` from a version requirement.
pub fn clean_version_req(v: &str) -> (r: String)
    ensures
        r@ == clean_req_spec(v@),
{
    let len = v.unicode_len();
    if len > 0 {
        let c = v.get_char(0);
        if c == '^' || c == '~' {
            return strutil::substring_copy(v, 1, len);
        }
    }
    v.to_owned()
}

} // verus!
