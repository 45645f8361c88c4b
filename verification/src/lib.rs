//! A local code-intelligence engine over a project's dependency closure.
//!
//! The crate turns parsed dependency sources into a stream of normalized API
//! items, keeps them in a symbol store whose invariants are machine-checked,
//! and answers ranked symbol searches with exact, prefix, substring and fuzzy
//! matching.

pub mod strutil;
pub mod version;
pub mod modpath;
pub mod npm;
pub mod schema;
pub mod symdoc;
pub mod project;
pub mod store;
pub mod deps;
pub mod search;
pub mod extract;
pub mod crossing;
pub mod pipeline;
pub mod usage;
pub mod metrics;
pub mod tsextract;

use vstd::prelude::*;

verus! {

/// Joins a module path and a declaration name with the Rust path separator.
pub fn format_path(prefix: &str, name: &str) -> (r: String)
    ensures
        prefix@.len() == 0 ==> r@ == name@,
        prefix@.len() > 0 ==> r@ == prefix@ + strutil::path_sep() + name@,
{
    if prefix.unicode_len() == 0 {
        name.to_owned()
    } else {
        let mut out = prefix.to_owned();
        out.append("::");
        out.append(name);
        proof {
            reveal_strlit("::");
            assert(out@ == prefix@ + strutil::path_sep() + name@);
        }
        out
    }
}

} // verus!
