//! Raw per-crate metrics from static analysis, and the manifest line count
//! that feeds them.

use vstd::prelude::*;
use crate::strutil;

verus! {

/// Raw metrics extracted from static analysis of one crate.
#[derive(Debug, Clone)]
pub struct RawMetrics {
    /// Total downloads.
    pub downloads: u64,
    /// Age in days since the first version.
    pub age_days: u32,
    /// Number of versions published.
    pub version_count: u32,
    /// Count of Send/Sync implementations.
    pub send_sync_count: u32,
    /// Number of unsafe blocks.
    pub unsafe_blocks: u32,
    /// Total lines of code.
    pub total_loc: u32,
    /// Number of asynchronous functions.
    pub async_fns: u32,
    /// Total functions.
    pub total_fns: u32,
    /// Whether the crate forgoes the standard library.
    pub is_no_std: bool,
    /// Direct dependency count.
    pub dep_count: u32,
    /// Heap-allocating type usage count.
    pub heap_types: u32,
}

impl Default for RawMetrics {
    /// All counts at zero.
    fn default() -> (r: Self)
        ensures
            r.downloads == 0 && r.age_days == 0 && r.version_count == 0 && r.send_sync_count == 0
                && r.unsafe_blocks == 0 && r.total_loc == 0 && r.async_fns == 0 && r.total_fns
                == 0 && !r.is_no_std && r.dep_count == 0 && r.heap_types == 0,
    {
        RawMetrics {
            downloads: 0,
            age_days: 0,
            version_count: 0,
            send_sync_count: 0,
            unsafe_blocks: 0,
            total_loc: 0,
            async_fns: 0,
            total_fns: 0,
            is_no_std: false,
            dep_count: 0,
            heap_types: 0,
        }
    }
}

/// The dependency count a manifest's lines carry from line `k` on, given
/// whether the cursor stands inside a dependency table: a dependency-table
/// header opens counting, any other table header closes it, and a non-empty
/// non-comment line with an `=` inside a dependency table counts one.
pub open spec fn dep_count_spec(lines: Seq<Seq<char>>, k: int, in_deps: bool) -> int
    decreases lines.len() - k,
{
    if k < 0 || k >= lines.len() {
        0
    } else {
        let t = strutil::trim_spec(lines[k]);
        if "[dependencies]"@.is_prefix_of(t) || "[dev-dependencies]"@.is_prefix_of(t)
            || "[build-dependencies]"@.is_prefix_of(t) {
            dep_count_spec(lines, k + 1, true)
        } else if "["@.is_prefix_of(t) {
            dep_count_spec(lines, k + 1, false)
        } else if in_deps && t.len() > 0 && !"#"@.is_prefix_of(t) && strutil::contains_seq(
            t,
            "="@,
        ) {
            1 + dep_count_spec(lines, k + 1, in_deps)
        } else {
            dep_count_spec(lines, k + 1, in_deps)
        }
    }
}

/// Counts the dependencies a manifest declares, by a line heuristic over its
/// dependency tables.
pub fn count_dependencies(manifest: &str) -> (r: u32)
    ensures
        r as int == if dep_count_spec(strutil::split_lines(manifest@), 0, false) <= u32::MAX {
            dep_count_spec(strutil::split_lines(manifest@), 0, false)
        } else {
            u32::MAX as int
        },
{
    proof {
        reveal_strlit("[dependencies]");
        reveal_strlit("[dev-dependencies]");
        reveal_strlit("[build-dependencies]");
        reveal_strlit("[");
        reveal_strlit("#");
        reveal_strlit("=");
    }
    let lines = strutil::lines_of(manifest);
    let ghost lview = strutil::split_lines(manifest@);
    let mut count: u32 = 0;
    let mut in_deps = false;
    let mut k: usize = 0;
    proof {
        lemma_dep_count_bounds(lview, 0, false);
    }
    while k < lines.len()
        invariant
            lview == strutil::split_lines(manifest@),
            lines@.map_values(|l: String| l@) == lview,
            k <= lines@.len(),
            count as int + dep_count_spec(lview, k as int, in_deps) == dep_count_spec(
                lview,
                0,
                false,
            ) || (count == u32::MAX && dep_count_spec(lview, 0, false) > u32::MAX),
        decreases lines@.len() - k,
    {
        proof {
            reveal_strlit("[dependencies]");
            reveal_strlit("[dev-dependencies]");
            reveal_strlit("[build-dependencies]");
            reveal_strlit("[");
            reveal_strlit("#");
            reveal_strlit("=");
            assert(lview[k as int] == lines@[k as int]@);
            lemma_dep_count_bounds(lview, k as int, in_deps);
            lemma_dep_count_bounds(lview, k + 1, true);
            lemma_dep_count_bounds(lview, k + 1, false);
            lemma_dep_count_bounds(lview, k + 1, in_deps);
        }
        let t = strutil::trim_copy(lines[k].as_str());
        if strutil::starts_with(t.as_str(), "[dependencies]") || strutil::starts_with(
            t.as_str(),
            "[dev-dependencies]",
        ) || strutil::starts_with(t.as_str(), "[build-dependencies]") {
            in_deps = true;
        } else if strutil::starts_with(t.as_str(), "[") {
            in_deps = false;
        } else if in_deps && t.as_str().unicode_len() > 0 && !strutil::starts_with(
            t.as_str(),
            "#",
        ) && strutil::contains(t.as_str(), "=") {
            if count < u32::MAX {
                count += 1;
            }
        }
        k += 1;
    }
    count
}

/// The count from line `k` on is non-negative.
proof fn lemma_dep_count_bounds(lines: Seq<Seq<char>>, k: int, in_deps: bool)
    ensures
        dep_count_spec(lines, k, in_deps) >= 0,
    decreases lines.len() - k,
{
    if 0 <= k < lines.len() {
        lemma_dep_count_bounds(lines, k + 1, true);
        lemma_dep_count_bounds(lines, k + 1, false);
    }
}

} // verus!
