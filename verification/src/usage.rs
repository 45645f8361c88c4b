//! Usage analysis over a project's own sources: the sites where a crate is
//! imported, derived or implemented, and the summary drawn from them. The
//! host scans the source files; the aggregation and rendering live here.

use vstd::prelude::*;
use crate::strutil;

verus! {

/// A usage site in the project's code.
#[derive(Debug, Clone)]
pub struct UsageSite {
    /// File where the usage occurs.
    pub file: String,
    /// Line number, 1-indexed.
    pub line: usize,
    /// The imported or used path, such as `serde::Deserialize`.
    pub path: String,
    /// Kind of usage.
    pub kind: UsageKind,
    /// Context around the usage.
    pub context: Option<String>,
}

/// How a crate is used at a site.
#[derive(Debug, Clone, Copy, PartialEq, Eq, Structural)]
pub enum UsageKind {
    /// A `use` of the crate.
    Import,
    /// A derive of one of the crate's macros.
    Derive,
    /// An `impl` of one of the crate's traits.
    TraitImpl,
    /// An attribute macro of the crate.
    AttributeMacro,
    /// A macro invocation.
    MacroCall,
}

/// Summary of how a crate is used in the project.
#[derive(Debug)]
pub struct UsageSummary {
    pub crate_name: String,
    pub sites: Vec<UsageSite>,
    /// Most commonly imported items, with their counts, falling.
    pub top_imports: Vec<(String, usize)>,
    /// Derives used.
    pub derives_used: Vec<String>,
}

/// Some site imports the path `p`.
pub open spec fn import_path(sites: Seq<UsageSite>, p: Seq<char>) -> bool {
    exists|s: int|
        0 <= s < sites.len() && (#[trigger] sites[s]).kind == UsageKind::Import && sites[s].path@
            == p
}

/// How many sites import the path `p`.
pub open spec fn import_count(sites: Seq<UsageSite>, p: Seq<char>) -> int {
    sites.filter(|s: UsageSite| s.kind == UsageKind::Import && s.path@ == p).len() as int
}

/// The entry's tally is the number of import sites of its path, saturated at
/// the machine bound.
pub open spec fn import_count_ok(sites: Seq<UsageSite>, e: (String, usize)) -> bool {
    if import_count(sites, e.0@) <= usize::MAX {
        e.1 as int == import_count(sites, e.0@)
    } else {
        e.1 == usize::MAX
    }
}

/// Some tally entry carries the path `p`.
pub open spec fn path_in_counts(counts: Seq<(String, usize)>, p: Seq<char>) -> bool {
    exists|i: int| 0 <= i < counts.len() && (#[trigger] counts[i]).0@ == p
}

/// Scanning one more site raises its own path's tally by one and no other.
proof fn lemma_import_count_step(sites: Seq<UsageSite>, k: int, p: Seq<char>)
    requires
        0 <= k < sites.len(),
    ensures
        import_count(sites.take(k + 1), p) == import_count(sites.take(k), p) + (
            if sites[k].kind == UsageKind::Import && sites[k].path@ == p {
                1int
            } else {
                0int
            }
        ),
{
    reveal(Seq::filter);
    assert(sites.take(k + 1).drop_last() =~= sites.take(k));
    assert(sites.take(k + 1).last() == sites[k]);
}

/// A path no scanned site imports has a tally of zero.
proof fn lemma_import_count_zero(sites: Seq<UsageSite>, k: int, p: Seq<char>)
    requires
        0 <= k <= sites.len(),
        forall|s: int|
            0 <= s < k ==> !((#[trigger] sites[s]).kind == UsageKind::Import && sites[s].path@
                == p),
    ensures
        import_count(sites.take(k), p) == 0,
    decreases k,
{
    if k == 0 {
        reveal(Seq::filter);
        assert(sites.take(0).len() == 0);
    } else {
        lemma_import_count_zero(sites, k - 1, p);
        lemma_import_count_step(sites, k - 1, p);
    }
}

/// Some site derives the path `p`.
pub open spec fn derive_path(sites: Seq<UsageSite>, p: Seq<char>) -> bool {
    exists|s: int|
        0 <= s < sites.len() && (#[trigger] sites[s]).kind == UsageKind::Derive && sites[s].path@
            == p
}

/// Aggregates scanned sites into a summary: import counts per path, the ten
/// most imported paths in falling order, and the set of derives used.
pub fn summarize_sites(crate_name: String, sites: Vec<UsageSite>) -> (r: UsageSummary)
    ensures
        r.crate_name == crate_name,
        r.sites == sites,
        r.top_imports@.len() <= 10,
        forall|i: int, j: int|
            0 <= i < j < r.top_imports@.len() ==> (#[trigger] r.top_imports@[j]).1 <= (
            #[trigger] r.top_imports@[i]).1,
        forall|i: int|
            0 <= i < r.top_imports@.len() ==> import_path(sites@, (#[trigger] r.top_imports@[i]).0@),
        forall|i: int|
            0 <= i < r.top_imports@.len() ==> import_count_ok(sites@, #[trigger] r.top_imports@[i]),
        forall|i: int|
            0 <= i < r.derives_used@.len() ==> derive_path(sites@, (#[trigger] r.derives_used@[i])@),
        forall|i: int, j: int|
            0 <= i < j < r.derives_used@.len() ==> (#[trigger] r.derives_used@[i])@ != (
            #[trigger] r.derives_used@[j])@,
{
    let mut counts: Vec<(String, usize)> = Vec::new();
    let mut derives: Vec<String> = Vec::new();
    let mut k: usize = 0;
    while k < sites.len()
        invariant
            k <= sites@.len(),
            forall|i: int|
                0 <= i < counts@.len() ==> import_path(sites@, (#[trigger] counts@[i]).0@),
            forall|i: int, j: int|
                0 <= i < j < counts@.len() ==> (#[trigger] counts@[i]).0@ != (
                #[trigger] counts@[j]).0@,
            forall|i: int|
                0 <= i < counts@.len() ==> import_count_ok(
                    sites@.take(k as int),
                    #[trigger] counts@[i],
                ),
            forall|s: int|
                0 <= s < k && (#[trigger] sites@[s]).kind == UsageKind::Import ==> path_in_counts(
                    counts@,
                    sites@[s].path@,
                ),
            forall|i: int|
                0 <= i < derives@.len() ==> derive_path(sites@, (#[trigger] derives@[i])@),
            forall|i: int, j: int|
                0 <= i < j < derives@.len() ==> (#[trigger] derives@[i])@ != (
                #[trigger] derives@[j])@,
        decreases sites@.len() - k,
    {
        let site = &sites[k];
        match site.kind {
            UsageKind::Import => {
                let mut m: usize = 0;
                let mut found = false;
                let mut at: usize = 0;
                while m < counts.len()
                    invariant
                        k < sites@.len(),
                        site.path@ == sites@[k as int].path@,
                        m <= counts@.len(),
                        found ==> at < counts@.len() && (counts@[at as int]).0@ == sites@[
                            k as int
                        ].path@,
                        !found ==> forall|i: int|
                            0 <= i < m ==> (#[trigger] counts@[i]).0@ != sites@[k as int].path@,
                    decreases counts@.len() - m,
                {
                    if !found && strutil::str_eq(counts[m].0.as_str(), site.path.as_str()) {
                        found = true;
                        at = m;
                    }
                    m += 1;
                }
                let ghost before = counts@;
                if found {
                    let c = counts[at].1;
                    let p = counts[at].0.clone();
                    let newc = if c < usize::MAX {
                        c + 1
                    } else {
                        c
                    };
                    counts.remove(at);
                    counts.insert(at, (p, newc));
                    proof {
                        assert(counts@.len() == before.len());
                        assert forall|i: int| 0 <= i < counts@.len() implies #[trigger] counts@[
                            i
                        ].0@ == before[i].0@ by {
                            if i != at {
                                assert(counts@[i] == before[i]);
                            }
                        }
                        assert forall|i: int| 0 <= i < counts@.len() implies import_count_ok(
                            sites@.take(k as int + 1),
                            #[trigger] counts@[i],
                        ) by {
                            lemma_import_count_step(sites@, k as int, counts@[i].0@);
                            if i != at {
                                assert(counts@[i] == before[i]);
                                assert(counts@[i].0@ != before[at as int].0@);
                            } else {
                                assert(before[at as int].0@ == sites@[k as int].path@);
                            }
                        }
                        assert forall|s: int|
                            0 <= s < k + 1 && (#[trigger] sites@[s]).kind
                                == UsageKind::Import implies path_in_counts(
                            counts@,
                            sites@[s].path@,
                        ) by {
                            if s < k {
                                let w = choose|i: int|
                                    0 <= i < before.len() && (#[trigger] before[i]).0@ == sites@[
                                        s
                                    ].path@;
                                assert(counts@[w].0@ == sites@[s].path@);
                            } else {
                                assert(counts@[at as int].0@ == sites@[s].path@);
                            }
                        }
                        assert forall|i: int, j: int|
                            0 <= i < j < counts@.len() implies (#[trigger] counts@[i]).0@ != (
                        #[trigger] counts@[j]).0@ by {
                            assert(counts@[i].0@ == before[i].0@);
                            assert(counts@[j].0@ == before[j].0@);
                        }
                    }
                } else {
                    counts.push((site.path.clone(), 1));
                    proof {
                        let n = counts@.len() - 1;
                        assert(counts@[n].0@ == sites@[k as int].path@);
                        assert(sites@[k as int].kind == UsageKind::Import);
                        assert(import_path(sites@, counts@[n].0@));
                        assert forall|s: int|
                            0 <= s < k && (#[trigger] sites@[s]).kind
                                == UsageKind::Import implies !(sites@[s].path@ == sites@[
                            k as int
                        ].path@) by {
                            if sites@[s].path@ == sites@[k as int].path@ {
                                assert(path_in_counts(before, sites@[s].path@));
                                let w = choose|i: int|
                                    0 <= i < before.len() && (#[trigger] before[i]).0@ == sites@[
                                        s
                                    ].path@;
                                assert(before[w].0@ != sites@[k as int].path@);
                            }
                        }
                        lemma_import_count_zero(sites@, k as int, sites@[k as int].path@);
                        assert forall|i: int| 0 <= i < counts@.len() implies import_count_ok(
                            sites@.take(k as int + 1),
                            #[trigger] counts@[i],
                        ) by {
                            lemma_import_count_step(sites@, k as int, counts@[i].0@);
                            if i < n {
                                assert(counts@[i] == before[i]);
                                assert(counts@[i].0@ != sites@[k as int].path@);
                            }
                        }
                        assert forall|s: int|
                            0 <= s < k + 1 && (#[trigger] sites@[s]).kind
                                == UsageKind::Import implies path_in_counts(
                            counts@,
                            sites@[s].path@,
                        ) by {
                            if s < k {
                                let w = choose|i: int|
                                    0 <= i < before.len() && (#[trigger] before[i]).0@ == sites@[
                                        s
                                    ].path@;
                                assert(counts@[w].0@ == sites@[s].path@);
                            } else {
                                assert(counts@[n].0@ == sites@[s].path@);
                            }
                        }
                        assert forall|i: int, j: int|
                            0 <= i < j < counts@.len() implies (#[trigger] counts@[i]).0@ != (
                        #[trigger] counts@[j]).0@ by {
                            if j < counts@.len() - 1 {
                                assert(counts@[i] == before[i]);
                                assert(counts@[j] == before[j]);
                            } else {
                                assert(counts@[i] == before[i]);
                                assert(counts@[i].0@ != sites@[k as int].path@);
                            }
                        }
                    }
                }
            },
            UsageKind::Derive => {
                let mut m: usize = 0;
                let mut present = false;
                while m < derives.len()
                    invariant
                        k < sites@.len(),
                        site.path@ == sites@[k as int].path@,
                        m <= derives@.len(),
                        present == exists|j: int|
                            0 <= j < m && (#[trigger] derives@[j])@ == sites@[k as int].path@,
                    decreases derives@.len() - m,
                {
                    if !present && strutil::str_eq(derives[m].as_str(), site.path.as_str()) {
                        present = true;
                        proof {
                            assert(derives@[m as int]@ == sites@[k as int].path@);
                        }
                    }
                    m += 1;
                }
                if !present {
                    derives.push(site.path.clone());
                    proof {
                        let n = derives@.len() - 1;
                        assert(derives@[n]@ == sites@[k as int].path@);
                        assert(sites@[k as int].kind == UsageKind::Derive);
                        assert(derive_path(sites@, derives@[n]@));
                    }
                }
            },
            _ => {},
        }
        proof {
            assert forall|i: int| 0 <= i < counts@.len() implies import_count_ok(
                sites@.take(k as int + 1),
                #[trigger] counts@[i],
            ) by {
                lemma_import_count_step(sites@, k as int, counts@[i].0@);
            }
            assert forall|s: int|
                0 <= s < k + 1 && (#[trigger] sites@[s]).kind
                    == UsageKind::Import implies path_in_counts(counts@, sites@[s].path@) by {}
        }
        k += 1;
    }
    proof {
        assert(sites@.take(sites@.len() as int) =~= sites@);
    }
    // order the counts, largest first, and keep the top ten
    let mut top: Vec<(String, usize)> = Vec::new();
    while counts.len() > 0
        invariant
            forall|i: int, j: int|
                0 <= i < j < top@.len() ==> (#[trigger] top@[j]).1 <= (#[trigger] top@[i]).1,
            forall|i: int|
                0 <= i < top@.len() ==> import_path(sites@, (#[trigger] top@[i]).0@),
            forall|i: int|
                0 <= i < top@.len() ==> import_count_ok(sites@, #[trigger] top@[i]),
            forall|i: int|
                0 <= i < counts@.len() ==> import_path(sites@, (#[trigger] counts@[i]).0@),
            forall|i: int|
                0 <= i < counts@.len() ==> import_count_ok(sites@, #[trigger] counts@[i]),
        decreases counts@.len(),
    {
        let ghost before = counts@;
        let entry = counts.remove(0);
        proof {
            assert(entry == before[0]);
            assert(forall|i: int| 0 <= i < counts@.len() ==> counts@[i] == before[i + 1]);
        }
        insert_count_sorted(&mut top, entry, Ghost(sites@));
    }
    if top.len() > 10 {
        let mut trimmed: Vec<(String, usize)> = Vec::new();
        let mut t: usize = 0;
        while t < 10 && t < top.len()
            invariant
                t <= 10,
                t <= top@.len(),
                trimmed@.len() == t,
                forall|i: int| 0 <= i < t ==> trimmed@[i] == top@[i],
            decreases 10 - t,
        {
            let p = top[t].0.clone();
            let c = top[t].1;
            trimmed.push((p, c));
            proof {
                assert(trimmed@[t as int] == top@[t as int]);
            }
            t += 1;
        }
        top = trimmed;
    }
    UsageSummary { crate_name, sites, top_imports: top, derives_used: derives }
}

/// Inserts a count into a list kept sorted by falling count.
fn insert_count_sorted(top: &mut Vec<(String, usize)>, entry: (String, usize), Ghost(sites): Ghost<
    Seq<UsageSite>,
>)
    requires
        forall|i: int, j: int|
            0 <= i < j < old(top)@.len() ==> (#[trigger] old(top)@[j]).1 <= (#[trigger] old(
                top,
            )@[i]).1,
        forall|i: int|
            0 <= i < old(top)@.len() ==> import_path(sites, (#[trigger] old(top)@[i]).0@),
        forall|i: int|
            0 <= i < old(top)@.len() ==> import_count_ok(sites, #[trigger] old(top)@[i]),
        import_path(sites, entry.0@),
        import_count_ok(sites, entry),
    ensures
        forall|i: int, j: int|
            0 <= i < j < final(top)@.len() ==> (#[trigger] final(top)@[j]).1
                <= (#[trigger] final(top)@[i]).1,
        forall|i: int|
            0 <= i < final(top)@.len() ==> import_path(sites, (#[trigger] final(top)@[i]).0@),
        forall|i: int|
            0 <= i < final(top)@.len() ==> import_count_ok(sites, #[trigger] final(top)@[i]),
{
    let ghost olds = top@;
    let mut k: usize = 0;
    while k < top.len() && top[k].1 >= entry.1
        invariant
            top@ == olds,
            k <= top@.len(),
            forall|i: int| 0 <= i < k ==> (#[trigger] olds[i]).1 >= entry.1,
        decreases top@.len() - k,
    {
        k += 1;
    }
    let ghost kk = k as int;
    out_insert(top, k, entry);
    proof {
        let news = final(top)@;
        assert(news =~= olds.insert(kk, entry));
        assert forall|i: int, j: int| 0 <= i < j < news.len() implies (#[trigger] news[j]).1 <= (
        #[trigger] news[i]).1 by {
            if i < kk && j == kk {
                assert(news[i] == olds[i]);
            } else if i == kk && j > kk {
                assert(news[j] == olds[j - 1]);
                if j - 1 > kk {
                    assert(olds[j - 1].1 <= olds[kk].1);
                }
            } else if i < kk && j > kk {
                assert(news[i] == olds[i] && news[j] == olds[j - 1]);
            } else if i < kk && j < kk {
                assert(news[i] == olds[i] && news[j] == olds[j]);
            } else if i > kk {
                assert(news[i] == olds[i - 1] && news[j] == olds[j - 1]);
            }
        }
        assert forall|i: int| 0 <= i < news.len() implies import_path(
            sites,
            (#[trigger] news[i]).0@,
        ) by {
            if i < kk {
                assert(news[i] == olds[i]);
            } else if i > kk {
                assert(news[i] == olds[i - 1]);
            } else {
                assert(news[i] == entry);
            }
        }
    }
}

/// Inserts at a position.
fn out_insert(top: &mut Vec<(String, usize)>, k: usize, entry: (String, usize))
    requires
        k <= old(top)@.len(),
    ensures
        final(top)@ == old(top)@.insert(k as int, entry),
{
    top.insert(k, entry);
}

impl UsageSummary {
    /// Renders the summary for a human reader; the text opens by naming the
    /// crate.
    pub fn format(&self) -> (r: String)
        ensures
            ("Usage of '"@ + self.crate_name@ + "' in this project:"@).is_prefix_of(r@),
    {
        proof {
            reveal_strlit("Usage of '");
            reveal_strlit("' in this project:");
            reveal_strlit("\n\nImports:\n");
            reveal_strlit("  ");
            reveal_strlit(" (used ");
            reveal_strlit(" times)\n");
            reveal_strlit("\nDerives: ");
            reveal_strlit(", ");
            reveal_strlit("\nUsage sites: ");
            reveal_strlit("\n");
        }
        let mut out = "Usage of '".to_owned();
        out.append(self.crate_name.as_str());
        out.append("' in this project:");
        let ghost head = out@;
        if self.top_imports.len() > 0 {
            out.append("\n\nImports:\n");
            let mut k: usize = 0;
            while k < self.top_imports.len()
                invariant
                    head.is_prefix_of(out@),
                    k <= self.top_imports@.len(),
                decreases self.top_imports@.len() - k,
            {
                proof {
                    reveal_strlit("  ");
                    reveal_strlit(" (used ");
                    reveal_strlit(" times)\n");
                }
                out.append("  ");
                out.append(self.top_imports[k].0.as_str());
                out.append(" (used ");
                let c = self.top_imports[k].1;
                let cs = strutil::u64_to_string(c as u64);
                out.append(cs.as_str());
                out.append(" times)\n");
                proof {
                    lemma_prefix_chain(head, out@);
                }
                k += 1;
            }
        }
        if self.derives_used.len() > 0 {
            out.append("\nDerives: ");
            let mut k: usize = 0;
            while k < self.derives_used.len()
                invariant
                    head.is_prefix_of(out@),
                    k <= self.derives_used@.len(),
                decreases self.derives_used@.len() - k,
            {
                proof {
                    reveal_strlit(", ");
                }
                if k > 0 {
                    out.append(", ");
                }
                out.append(self.derives_used[k].as_str());
                proof {
                    lemma_prefix_chain(head, out@);
                }
                k += 1;
            }
        }
        out.append("\nUsage sites: ");
        let n = strutil::u64_to_string(self.sites.len() as u64);
        out.append(n.as_str());
        proof {
            lemma_prefix_chain(head, out@);
        }
        out
    }
}

/// A prefix of a string stays a prefix of its extensions.
proof fn lemma_prefix_chain(head: Seq<char>, s: Seq<char>)
    requires
        head.is_prefix_of(s),
    ensures
        forall|tail: Seq<char>| head.is_prefix_of(#[trigger] (s + tail)),
{
    assert forall|tail: Seq<char>| head.is_prefix_of(#[trigger] (s + tail)) by {
        assert((s + tail).subrange(0, head.len() as int) =~= s.subrange(0, head.len() as int));
    }
}

/// The first line, 1-indexed, that contains the needle; nothing when none
/// does.
pub fn find_line_containing(lines: &Vec<String>, needle: &str) -> (r: Option<usize>)
    ensures
        match r {
            Some(n) => 1 <= n <= lines@.len() && strutil::contains_seq(
                lines@[n - 1]@,
                needle@,
            ) && forall|j: int|
                0 <= j < n - 1 ==> !strutil::contains_seq((#[trigger] lines@[j])@, needle@),
            None => forall|j: int|
                0 <= j < lines@.len() ==> !strutil::contains_seq((#[trigger] lines@[j])@, needle@),
        },
{
    let mut k: usize = 0;
    while k < lines.len()
        invariant
            k <= lines@.len(),
            forall|j: int|
                0 <= j < k ==> !strutil::contains_seq((#[trigger] lines@[j])@, needle@),
        decreases lines@.len() - k,
    {
        if strutil::contains(lines[k].as_str(), needle) {
            return Some(k + 1);
        }
        k += 1;
    }
    None
}

} // verus!
