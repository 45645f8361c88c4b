//! Ranked symbol search: exact, prefix and substring scoring over simple
//! names, typo-tolerant fuzzy matching by edit distance, direct-dependency
//! weighting, crate-cluster expansion and pagination.

use vstd::prelude::*;
use crate::strutil;
use crate::deps::RegistryCrate;
use vstd::multiset::Multiset;

verus! {

/// How a result matched the query.
#[derive(Debug, Clone, Copy, PartialEq, Eq, Structural)]
pub enum MatchType {
    /// The simple name equals the query.
    Exact,
    /// The simple name starts with the query.
    Prefix,
    /// The simple name or path contains the query.
    Contains,
    /// The simple name is within the given edit distance of the query.
    Fuzzy { distance: usize },
    /// The crate name itself matched a crate-level query.
    CrateName,
    /// The crate name extends a crate-level query, as `foo` does `foo_core`.
    CratePrefix,
}

impl MatchType {
    /// The short text of the tag.
    pub open spec fn label(self) -> Seq<char> {
        match self {
            MatchType::Exact => "exact"@,
            MatchType::Prefix => "prefix"@,
            MatchType::Contains => "contains"@,
            MatchType::Fuzzy { distance } => "fuzzy"@,
            MatchType::CrateName => "crate"@,
            MatchType::CratePrefix => "crate_prefix"@,
        }
    }

    /// Writes the bare tag out.
    pub fn as_text(&self) -> (r: &'static str)
        ensures
            r@ == self.label(),
    {
        match self {
            MatchType::Exact => "exact",
            MatchType::Prefix => "prefix",
            MatchType::Contains => "contains",
            MatchType::Fuzzy { .. } => "fuzzy",
            MatchType::CrateName => "crate",
            MatchType::CratePrefix => "crate_prefix",
        }
    }

    /// Writes the tag out; a fuzzy match carries its distance, as `fuzzy~1`.
    pub fn describe(&self) -> (r: String)
        ensures
            match self {
                MatchType::Fuzzy { distance } => r@ == "fuzzy~"@ + strutil::dec_spec(
                    *distance as nat,
                ),
                _ => r@ == self.label(),
            },
    {
        proof {
            reveal_strlit("fuzzy~");
        }
        match self {
            MatchType::Fuzzy { distance } => {
                let mut s = "fuzzy~".to_owned();
                s.append(strutil::u64_to_string(*distance as u64).as_str());
                s
            },
            _ => self.as_text().to_owned(),
        }
    }
}

/// A scored search result with its origin.
#[derive(Debug, Clone)]
pub struct ScoredResult {
    pub crate_name: String,
    pub crate_version: String,
    pub path: String,
    pub kind: String,
    pub signature: Option<String>,
    pub score: u32,
    pub is_direct_dep: bool,
    pub match_type: MatchType,
}

/// The abstract value of a scored result.
pub ghost struct ScoredView {
    pub name: Seq<char>,
    pub version: Seq<char>,
    pub path: Seq<char>,
    pub kind: Seq<char>,
    pub signature: Option<Seq<char>>,
    pub score: u32,
    pub is_direct: bool,
    pub mt: MatchType,
}

impl View for ScoredResult {
    type V = ScoredView;

    open spec fn view(&self) -> ScoredView {
        ScoredView {
            name: self.crate_name@,
            version: self.crate_version@,
            path: self.path@,
            kind: self.kind@,
            signature: crate::store::opt_view(self.signature),
            score: self.score,
            is_direct: self.is_direct_dep,
            mt: self.match_type,
        }
    }
}

/// Pagination info for results.
#[derive(Debug, Clone)]
pub struct Pagination {
    pub offset: usize,
    pub limit: usize,
    pub total: usize,
}

impl Pagination {
    /// Whether another page follows this one.
    pub fn has_more(&self) -> (r: bool)
        ensures
            r == (self.offset + self.limit < self.total),
    {
        self.offset < self.total && self.limit < self.total - self.offset
    }

    /// The offset of the next page.
    pub fn next_offset(&self) -> (r: usize)
        requires
            self.offset + self.limit <= usize::MAX,
        ensures
            r == self.offset + self.limit,
    {
        self.offset + self.limit
    }
}

/// Search options.
#[derive(Debug, Clone)]
pub struct SearchOptions {
    /// Restrict the search to one crate.
    pub crate_filter: Option<String>,
    /// Maximum results to return.
    pub limit: usize,
    /// Offset for pagination.
    pub offset: usize,
    /// Enable fuzzy matching.
    pub fuzzy: bool,
    /// Maximum edit distance for fuzzy matching.
    pub max_edit_distance: usize,
    /// Only results from direct dependencies.
    pub direct_only: bool,
    /// Restrict to one item kind.
    pub kind_filter: Option<String>,
}

impl Default for SearchOptions {
    /// All options off and no paging window.
    fn default() -> (r: Self)
        ensures
            r.crate_filter is None,
            r.limit == 0,
            r.offset == 0,
            !r.fuzzy,
            r.max_edit_distance == 0,
            !r.direct_only,
            r.kind_filter is None,
    {
        SearchOptions {
            crate_filter: None,
            limit: 0,
            offset: 0,
            fuzzy: false,
            max_edit_distance: 0,
            direct_only: false,
            kind_filter: None,
        }
    }
}

impl SearchOptions {
    /// The defaults: 25 results per page, fuzzy matching within distance 2.
    pub fn new() -> (r: Self)
        ensures
            r.crate_filter is None,
            r.limit == 25,
            r.offset == 0,
            r.fuzzy,
            r.max_edit_distance == 2,
            !r.direct_only,
            r.kind_filter is None,
    {
        SearchOptions {
            crate_filter: None,
            limit: 25,
            offset: 0,
            fuzzy: true,
            max_edit_distance: 2,
            direct_only: false,
            kind_filter: None,
        }
    }

    /// Sets the page size.
    pub fn with_limit(self, limit: usize) -> (r: Self)
        ensures
            r == (SearchOptions { limit, ..self }),
    {
        SearchOptions { limit, ..self }
    }

    /// Sets the page offset.
    pub fn with_offset(self, offset: usize) -> (r: Self)
        ensures
            r == (SearchOptions { offset, ..self }),
    {
        SearchOptions { offset, ..self }
    }

    /// Restricts the search to one crate.
    pub fn with_crate(self, crate_name: &str) -> (r: Self)
        ensures
            r.crate_filter matches Some(f) && f@ == crate_name@,
            r.limit == self.limit && r.offset == self.offset && r.fuzzy == self.fuzzy
                && r.max_edit_distance == self.max_edit_distance && r.direct_only
                == self.direct_only && r.kind_filter == self.kind_filter,
    {
        SearchOptions { crate_filter: Some(crate_name.to_owned()), ..self }
    }

    /// Keeps only direct dependencies.
    pub fn direct_only(self) -> (r: Self)
        ensures
            r == (SearchOptions { direct_only: true, ..self }),
    {
        SearchOptions { direct_only: true, ..self }
    }
}

/// The edit distance between the first `i` characters of `a` and the first
/// `j` characters of `b`: deletions, insertions and substitutions each cost
/// one.
pub open spec fn lev(a: Seq<char>, b: Seq<char>, i: nat, j: nat) -> nat
    decreases i + j,
{
    if i == 0 {
        j
    } else if j == 0 {
        i
    } else {
        let del = lev(a, b, (i - 1) as nat, j) + 1;
        let ins = lev(a, b, i, (j - 1) as nat) + 1;
        let sub = lev(a, b, (i - 1) as nat, (j - 1) as nat) + if a[i - 1] == b[j - 1] {
            0nat
        } else {
            1nat
        };
        min3(del, ins, sub as nat)
    }
}

/// The least of three naturals.
pub open spec fn min3(x: nat, y: nat, z: nat) -> nat {
    if x <= y && x <= z {
        x
    } else if y <= z {
        y
    } else {
        z
    }
}

/// The edit distance never exceeds the two lengths together.
pub proof fn lemma_lev_bound(a: Seq<char>, b: Seq<char>, i: nat, j: nat)
    ensures
        lev(a, b, i, j) <= i + j,
    decreases i + j,
{
    if i > 0 && j > 0 {
        lemma_lev_bound(a, b, (i - 1) as nat, j);
        lemma_lev_bound(a, b, i, (j - 1) as nat);
        lemma_lev_bound(a, b, (i - 1) as nat, (j - 1) as nat);
    }
}

/// Computes the edit distance between two strings.
pub fn levenshtein(a: &str, b: &str) -> (r: usize)
    requires
        a@.len() + b@.len() < usize::MAX,
    ensures
        r as nat == lev(a@, b@, a@.len(), b@.len()),
{
    let m = a.unicode_len();
    let n = b.unicode_len();
    if m == 0 {
        return n;
    }
    if n == 0 {
        return m;
    }
    let mut prev: Vec<usize> = Vec::new();
    let mut j: usize = 0;
    while j <= n
        invariant
            m == a@.len(),
            n == b@.len(),
            1 <= m,
            m + n < usize::MAX,
            prev@.len() == j,
            j <= n + 1,
            forall|q: int| 0 <= q < j ==> prev@[q] as nat == lev(a@, b@, 0, q as nat),
        decreases n + 1 - j,
    {
        prev.push(j);
        j += 1;
    }
    let mut i: usize = 1;
    while i <= m
        invariant
            m == a@.len(),
            n == b@.len(),
            m + n < usize::MAX,
            1 <= i <= m + 1,
            prev@.len() == n + 1,
            forall|q: int| 0 <= q <= n ==> prev@[q] as nat == lev(a@, b@, (i - 1) as nat, q as nat),
        decreases m + 1 - i,
    {
        let mut cur: Vec<usize> = Vec::new();
        cur.push(i);
        proof {
            assert(cur@[0] as nat == lev(a@, b@, i as nat, 0));
        }
        let mut jj: usize = 1;
        while jj <= n
            invariant
                m == a@.len(),
                n == b@.len(),
                m + n < usize::MAX,
                1 <= i <= m,
                1 <= jj <= n + 1,
                prev@.len() == n + 1,
                cur@.len() == jj,
                forall|q: int|
                    0 <= q <= n ==> prev@[q] as nat == lev(a@, b@, (i - 1) as nat, q as nat),
                forall|q: int| 0 <= q < jj ==> cur@[q] as nat == lev(a@, b@, i as nat, q as nat),
            decreases n + 1 - jj,
        {
            let cost: usize = if a.get_char(i - 1) == b.get_char(jj - 1) {
                0
            } else {
                1
            };
            proof {
                lemma_lev_bound(a@, b@, (i - 1) as nat, jj as nat);
                lemma_lev_bound(a@, b@, i as nat, (jj - 1) as nat);
                lemma_lev_bound(a@, b@, (i - 1) as nat, (jj - 1) as nat);
            }
            let del = prev[jj] + 1;
            let ins = cur[jj - 1] + 1;
            let sub = prev[jj - 1] + cost;
            let mut d = del;
            if ins < d {
                d = ins;
            }
            if sub < d {
                d = sub;
            }
            cur.push(d);
            proof {
                assert(cur@[jj as int] as nat == lev(a@, b@, i as nat, jj as nat));
            }
            jj += 1;
        }
        prev = cur;
        i += 1;
    }
    prev[n]
}

/// The scoring of one candidate path against a case-folded query, together
/// with the reason it matched: an exact simple-name match scores 100, a
/// prefix 80 less the length excess capped at 20, a simple-name substring 50,
/// a full-path substring 30, anything else zero.
pub open spec fn score_of(path: Seq<char>, q: Seq<char>) -> int {
    let p = strutil::to_lower(path);
    let sname = strutil::simple_name_of(p);
    if sname == q {
        100
    } else if q.is_prefix_of(sname) {
        80 - if sname.len() - q.len() <= 20 {
            sname.len() - q.len()
        } else {
            20
        }
    } else if strutil::contains_seq(sname, q) {
        50
    } else if strutil::contains_seq(p, q) {
        30
    } else {
        0
    }
}

/// The tag under which a candidate path matches a case-folded query.
pub open spec fn match_of(path: Seq<char>, q: Seq<char>) -> MatchType {
    let p = strutil::to_lower(path);
    let sname = strutil::simple_name_of(p);
    if sname == q {
        MatchType::Exact
    } else if q.is_prefix_of(sname) {
        MatchType::Prefix
    } else {
        MatchType::Contains
    }
}

/// The score of a fuzzy hit at the given edit distance: 100 less 25 per
/// edit, never below 10.
pub open spec fn fuzzy_score(d: nat) -> int {
    if 25 * d <= 90 {
        100 - 25 * d
    } else {
        10
    }
}

/// The kind filter admits this kind: no filter, or equal ignoring ASCII case.
pub open spec fn kind_ok(kind: Seq<char>, filter: Option<Seq<char>>) -> bool {
    match filter {
        Some(k) => strutil::to_lower(kind) == strutil::to_lower(k),
        None => true,
    }
}

/// The dependency closure holds the `(name, version)` pair.
pub open spec fn in_closure_spec(deps: Seq<RegistryCrate>, name: Seq<char>, ver: Seq<char>) -> bool {
    exists|j: int|
        0 <= j < deps.len() && (#[trigger] deps[j]).name@ == name && deps[j].version@ == ver
}

/// The scored result a full-text hit produces under a case-folded query.
pub open spec fn scored_of(v: crate::store::SrView, q: Seq<char>, is_direct: bool) -> ScoredView {
    ScoredView {
        name: v.name,
        version: v.version,
        path: v.path,
        kind: v.kind,
        signature: v.signature,
        score: (score_of(v.path, q) + if is_direct {
            10int
        } else {
            0int
        }) as u32,
        is_direct,
        mt: match_of(v.path, q),
    }
}

/// The closure-wide search admits a hit: the pair is in the closure and the
/// direct-only and kind filters pass.
pub open spec fn all_keep(eng: SearchEngine, opts: SearchOptions, v: crate::store::SrView) -> bool {
    &&& in_closure_spec(eng.all_deps@, v.name, v.version)
    &&& (opts.direct_only ==> crate::deps::name_in(eng.direct_deps@, v.name))
    &&& kind_ok(v.kind, crate::store::opt_view(opts.kind_filter))
}

/// Exactly what the closure-wide primary search returns: every full-text hit
/// of the store that the filters admit, scored.
pub open spec fn search_all_model(
    eng: SearchEngine,
    store: crate::store::Store,
    q: Seq<char>,
    opts: SearchOptions,
) -> Multiset<ScoredView> {
    store.rows().filter(|w: crate::store::RowView| crate::store::fts_match(q, w.path)).map_values(
        |w: crate::store::RowView| store.sr_view_of(w),
    ).filter(|v: crate::store::SrView| all_keep(eng, opts, v)).map_values(
        |v: crate::store::SrView| scored_of(v, q, crate::deps::name_in(eng.direct_deps@, v.name)),
    ).to_multiset()
}

/// The scored result an item of one named crate produces.
pub open spec fn in_crate_scored(
    w: crate::store::CachedView,
    cname: Seq<char>,
    q: Seq<char>,
    direct: bool,
) -> ScoredView {
    ScoredView {
        name: cname,
        version: Seq::<char>::empty(),
        path: w.path,
        kind: w.kind,
        signature: w.signature,
        score: (score_of(w.path, q) + if direct {
            10int
        } else {
            0int
        }) as u32,
        is_direct: direct,
        mt: match_of(w.path, q),
    }
}

/// Exactly what the crate-filtered primary search returns: every item of the
/// crate's newest indexed version that the kind filter admits and that
/// matches at all, scored; nothing when the crate is transitive under a
/// direct-only search, or not indexed.
pub open spec fn in_crate_model(
    eng: SearchEngine,
    store: crate::store::Store,
    cname: Seq<char>,
    q: Seq<char>,
    opts: SearchOptions,
) -> Multiset<ScoredView> {
    let direct = crate::deps::name_in(eng.direct_deps@, cname);
    if opts.direct_only && !direct {
        Multiset::empty()
    } else {
        match crate::store::latest_ver_from(store.pkgs(), cname, 0) {
            None => Multiset::empty(),
            Some(vv) => if store.find_pkg(cname, vv) < 0 {
                Multiset::empty()
            } else {
                let pid = store.pkg_id(cname, vv);
                store.rows_of(pid).map_values(
                    |w: crate::store::RowView| crate::store::cached_of(w),
                ).filter(
                    |w: crate::store::CachedView| kind_ok(
                        w.kind,
                        crate::store::opt_view(opts.kind_filter),
                    ) && score_of(w.path, q) > 0,
                ).map_values(|w: crate::store::CachedView| in_crate_scored(w, cname, q, direct))
                    .to_multiset()
            },
        }
    }
}

/// The primary pipeline's exact result: crate-filtered or closure-wide.
pub open spec fn primary_model(
    eng: SearchEngine,
    store: crate::store::Store,
    q: Seq<char>,
    opts: SearchOptions,
) -> Multiset<ScoredView> {
    match opts.crate_filter {
        Some(f) => in_crate_model(eng, store, f@, q, opts),
        None => search_all_model(eng, store, q, opts),
    }
}

/// The fuzzy result one item yields for a case-folded query.
pub open spec fn fuzzy_scored(
    w: crate::store::CachedView,
    dep: RegistryCrate,
    q: Seq<char>,
    direct: bool,
) -> ScoredView {
    let sname = strutil::to_lower(strutil::simple_name_of(w.path));
    let d = lev(q, sname, q.len(), sname.len());
    ScoredView {
        name: dep.name@,
        version: dep.version@,
        path: w.path,
        kind: w.kind,
        signature: w.signature,
        score: fuzzy_score(d) as u32,
        is_direct: direct,
        mt: MatchType::Fuzzy { distance: d as usize },
    }
}

/// The fuzzy scan admits an item: the kind filter passes, the lengths leave
/// room to compute the distance, and the distance is within the allowance.
pub open spec fn fuzzy_keep(w: crate::store::CachedView, q: Seq<char>, opts: SearchOptions) -> bool {
    let sname = strutil::to_lower(strutil::simple_name_of(w.path));
    &&& kind_ok(w.kind, crate::store::opt_view(opts.kind_filter))
    &&& q.len() + sname.len() < usize::MAX
    &&& lev(q, sname, q.len(), sname.len()) <= opts.max_edit_distance
}

/// Exactly what one dependency contributes to the fuzzy scan: nothing when
/// the direct-only or crate filter skips it or its exact version is not
/// indexed, otherwise its admitted items scored by edit distance.
pub open spec fn fuzzy_dep_model(
    eng: SearchEngine,
    store: crate::store::Store,
    q: Seq<char>,
    opts: SearchOptions,
    dep: RegistryCrate,
) -> Multiset<ScoredView> {
    let direct = crate::deps::name_in(eng.direct_deps@, dep.name@);
    let skip = (opts.direct_only && !direct) || (opts.crate_filter matches Some(f) && f@
        != dep.name@);
    if skip {
        Multiset::empty()
    } else if store.find_pkg(dep.name@, dep.version@) < 0 {
        Multiset::empty()
    } else {
        let pid = store.pkg_id(dep.name@, dep.version@);
        store.rows_of(pid).map_values(|w: crate::store::RowView| crate::store::cached_of(w)).filter(
            |w: crate::store::CachedView| fuzzy_keep(w, q, opts),
        ).map_values(|w: crate::store::CachedView| fuzzy_scored(w, dep, q, direct)).to_multiset()
    }
}

/// Exactly what the fuzzy scan over the closure from dependency `d` on
/// returns.
pub open spec fn fuzzy_model(
    eng: SearchEngine,
    store: crate::store::Store,
    q: Seq<char>,
    opts: SearchOptions,
    d: int,
) -> Multiset<ScoredView>
    decreases eng.all_deps@.len() - d,
{
    if d < 0 || d >= eng.all_deps@.len() {
        Multiset::empty()
    } else {
        fuzzy_dep_model(eng, store, q, opts, eng.all_deps@[d]).add(
            fuzzy_model(eng, store, q, opts, d + 1),
        )
    }
}

/// Some primary result already carries this `(package, path)` key.
pub open spec fn key_in(prim: Seq<ScoredView>, v: ScoredView) -> bool {
    exists|i: int|
        0 <= i < prim.len() && (#[trigger] prim[i]).name == v.name && prim[i].path == v.path
}

/// The scoring stays within its table.
pub proof fn lemma_score_bounds(path: Seq<char>, q: Seq<char>)
    ensures
        0 <= score_of(path, q) <= 100,
{
}

/// A sound scored hit for the case-folded query `q`: its tag is the one the
/// scoring derives and so names a relation that holds of the path, its score
/// is the scoring's value plus ten for a direct dependency, the scoring
/// found a real match, and the filters admitted it.
pub open spec fn sound_scored(
    r: ScoredView,
    q: Seq<char>,
    d_only: bool,
    filter: Option<Seq<char>>,
) -> bool {
    &&& r.mt == match_of(r.path, q)
    &&& r.score as int == score_of(r.path, q) + if r.is_direct {
        10int
    } else {
        0int
    }
    &&& score_of(r.path, q) > 0
    &&& kind_ok(r.kind, filter)
    &&& (d_only ==> r.is_direct)
}

/// A sound fuzzy hit for the case-folded query `q`: its tag carries the true
/// edit distance between the query and the case-folded simple name, that
/// distance is within the allowance, and the filters admitted it.
pub open spec fn sound_fuzzy(
    r: ScoredView,
    q: Seq<char>,
    maxd: nat,
    d_only: bool,
    filter: Option<Seq<char>>,
) -> bool {
    &&& r.mt matches MatchType::Fuzzy { distance } && {
        let sname = strutil::to_lower(strutil::simple_name_of(r.path));
        &&& distance <= maxd
        &&& distance as nat == lev(q, sname, q.len(), sname.len())
        &&& r.score as int == fuzzy_score(distance as nat)
    }
    &&& kind_ok(r.kind, filter)
    &&& (d_only ==> r.is_direct)
}

/// Strict rank order of results: higher score first, ties by ascending path,
/// then package name, then version.
pub open spec fn rank_lt(a: ScoredView, b: ScoredView) -> bool {
    a.score > b.score || (a.score == b.score && (strutil::lex_lt(a.path, b.path) || (a.path
        == b.path && (strutil::lex_lt(a.name, b.name) || (a.name == b.name && strutil::lex_lt(
        a.version,
        b.version,
    ))))))
}

/// The matching non-strict order.
pub open spec fn rank_le(a: ScoredView, b: ScoredView) -> bool {
    !rank_lt(b, a)
}

proof fn lemma_rank_trans(a: ScoredView, b: ScoredView, c: ScoredView)
    requires
        rank_lt(a, b),
        rank_lt(b, c),
    ensures
        rank_lt(a, c),
{
    strutil::lemma_lex_asym(a.path, b.path);
    strutil::lemma_lex_asym(b.path, c.path);
    strutil::lemma_lex_asym(a.name, b.name);
    strutil::lemma_lex_asym(b.name, c.name);
    if a.score == b.score && b.score == c.score {
        if strutil::lex_lt(a.path, b.path) && strutil::lex_lt(b.path, c.path) {
            strutil::lemma_lex_trans(a.path, b.path, c.path);
        } else if a.path == b.path && b.path == c.path {
            if strutil::lex_lt(a.name, b.name) && strutil::lex_lt(b.name, c.name) {
                strutil::lemma_lex_trans(a.name, b.name, c.name);
            } else if a.name == b.name && b.name == c.name {
                strutil::lemma_lex_trans(a.version, b.version, c.version);
            }
        }
    }
}

proof fn lemma_rank_below(a: ScoredView, b: ScoredView, c: ScoredView)
    requires
        rank_lt(a, b),
        !rank_lt(c, b),
    ensures
        rank_lt(a, c),
{
    strutil::lemma_lex_connected(b.path, c.path);
    strutil::lemma_lex_asym(b.path, c.path);
    strutil::lemma_lex_connected(b.name, c.name);
    strutil::lemma_lex_asym(b.name, c.name);
    strutil::lemma_lex_connected(b.version, c.version);
    strutil::lemma_lex_asym(b.version, c.version);
    if rank_lt(b, c) {
        lemma_rank_trans(a, b, c);
    } else {
        assert(b.score == c.score && b.path == c.path && b.name == c.name && b.version
            == c.version);
    }
}

/// Decides the strict rank order.
fn rank_lt_exec(a: &ScoredResult, b: &ScoredResult) -> (r: bool)
    ensures
        r == rank_lt(a@, b@),
{
    if a.score > b.score {
        true
    } else if a.score == b.score {
        if strutil::str_lt(a.path.as_str(), b.path.as_str()) {
            true
        } else if strutil::str_eq(a.path.as_str(), b.path.as_str()) {
            if strutil::str_lt(a.crate_name.as_str(), b.crate_name.as_str()) {
                true
            } else if strutil::str_eq(a.crate_name.as_str(), b.crate_name.as_str()) {
                strutil::str_lt(a.crate_version.as_str(), b.crate_version.as_str())
            } else {
                false
            }
        } else {
            false
        }
    } else {
        false
    }
}

/// Inserts a result into a list kept sorted by rank.
fn insert_ranked(out: &mut Vec<ScoredResult>, c: ScoredResult)
    requires
        vstd::relations::sorted_by(
            old(out)@.map_values(|x: ScoredResult| x@),
            |a: ScoredView, b: ScoredView| rank_le(a, b),
        ),
    ensures
        final(out)@.map_values(|x: ScoredResult| x@).to_multiset() == old(out)@.map_values(
            |x: ScoredResult| x@,
        ).to_multiset().insert(c@),
        vstd::relations::sorted_by(
            final(out)@.map_values(|x: ScoredResult| x@),
            |a: ScoredView, b: ScoredView| rank_le(a, b),
        ),
{
    let ghost olds = out@.map_values(|x: ScoredResult| x@);
    let ghost leq = |a: ScoredView, b: ScoredView| rank_le(a, b);
    let mut k: usize = 0;
    while k < out.len() && rank_lt_exec(&out[k], &c)
        invariant
            out@.map_values(|x: ScoredResult| x@) == olds,
            k <= out@.len(),
            forall|i: int| 0 <= i < k ==> rank_lt(#[trigger] olds[i], c@),
        decreases out@.len() - k,
    {
        proof {
            assert(olds[k as int] == out@[k as int]@);
        }
        k += 1;
    }
    proof {
        if k < out@.len() {
            assert(olds[k as int] == out@[k as int]@);
        }
    }
    let ghost kk = k as int;
    out.insert(k, c);
    proof {
        let news = final(out)@.map_values(|x: ScoredResult| x@);
        assert(news =~= olds.insert(kk, c@));
        assert forall|i: int, j: int| 0 <= i < j < news.len() implies leq(news[i], news[j]) by {
            if i < kk && j == kk {
                assert(news[i] == olds[i]);
                strutil::lemma_lex_asym(olds[i].path, c@.path);
                strutil::lemma_lex_asym(olds[i].name, c@.name);
                strutil::lemma_lex_asym(olds[i].version, c@.version);
            } else if i == kk && j > kk {
                assert(news[j] == olds[j - 1]);
                if j - 1 > kk {
                    assert(leq(olds[kk], olds[j - 1]));
                }
                if rank_lt(news[j], c@) {
                    lemma_rank_below(olds[j - 1], c@, olds[kk]);
                }
            } else if i < kk && j > kk {
                assert(news[i] == olds[i] && news[j] == olds[j - 1]);
                assert(leq(olds[i], olds[j - 1]));
            } else if i < kk && j < kk {
                assert(news[i] == olds[i] && news[j] == olds[j]);
                assert(leq(olds[i], olds[j]));
            } else if i > kk {
                assert(news[i] == olds[i - 1] && news[j] == olds[j - 1]);
                assert(leq(olds[i - 1], olds[j - 1]));
            }
        }
        crate::store::lemma_multiset_insert(olds, kk, c@);
    }
}

/// The smart search engine: the resolved dependency closure and the set of
/// direct dependency names, as the caller resolved them.
pub struct SearchEngine {
    pub project_dir: String,
    pub direct_deps: Vec<String>,
    pub all_deps: Vec<RegistryCrate>,
}

impl SearchEngine {
    /// Builds an engine over a resolved dependency closure.
    pub fn new(project_dir: String, direct_deps: Vec<String>, all_deps: Vec<RegistryCrate>) -> (r:
        SearchEngine)
        ensures
            r.project_dir == project_dir,
            r.direct_deps == direct_deps,
            r.all_deps == all_deps,
    {
        SearchEngine { project_dir, direct_deps, all_deps }
    }

    /// Whether `name` is a direct dependency.
    fn is_direct(&self, name: &str) -> (r: bool)
        ensures
            r == crate::deps::name_in(self.direct_deps@, name@),
    {
        let mut k: usize = 0;
        while k < self.direct_deps.len()
            invariant
                k <= self.direct_deps@.len(),
                forall|j: int| 0 <= j < k ==> (#[trigger] self.direct_deps@[j])@ != name@,
            decreases self.direct_deps@.len() - k,
        {
            if strutil::str_eq(self.direct_deps[k].as_str(), name) {
                return true;
            }
            k += 1;
        }
        false
    }

    /// Whether the dependency closure holds the `(name, version)` pair.
    fn in_closure(&self, name: &str, ver: &str) -> (r: bool)
        ensures
            r == in_closure_spec(self.all_deps@, name@, ver@),
    {
        let mut k: usize = 0;
        while k < self.all_deps.len()
            invariant
                k <= self.all_deps@.len(),
                forall|j: int|
                    0 <= j < k ==> !((#[trigger] self.all_deps@[j]).name@ == name@
                        && self.all_deps@[j].version@ == ver@),
            decreases self.all_deps@.len() - k,
        {
            if strutil::str_eq(self.all_deps[k].name.as_str(), name) && strutil::str_eq(
                self.all_deps[k].version.as_str(),
                ver,
            ) {
                proof {
                    assert(in_closure_spec(self.all_deps@, name@, ver@));
                }
                return true;
            }
            k += 1;
        }
        false
    }

    /// Whether the kind filter admits a kind.
    fn kind_passes(kind: &str, filter: &Option<String>) -> (r: bool)
        ensures
            r == kind_ok(kind@, crate::store::opt_view(*filter)),
    {
        match filter {
            Some(k) => {
                let a = strutil::lower(kind);
                let b = strutil::lower(k.as_str());
                strutil::str_eq(a.as_str(), b.as_str())
            },
            None => true,
        }
    }

    /// Scores every item of one crate against the case-folded query; items
    /// whose kind the filter rejects or that do not match at all are dropped.
    /// With `direct_only` set, a transitive crate yields nothing. The result
    /// is exactly the crate-filtered model over the store.
    fn search_in_crate(
        &self,
        store: &crate::store::Store,
        crate_name: &str,
        q: &str,
        options: &SearchOptions,
    ) -> (out: Vec<ScoredResult>)
        requires
            store.wf(),
            strutil::to_lower(q@) == q@,
        ensures
            out@.map_values(|x: ScoredResult| x@).to_multiset() == in_crate_model(
                *self,
                *store,
                crate_name@,
                q@,
                *options,
            ),
            forall|i: int|
                0 <= i < out@.len() ==> sound_scored(
                    (#[trigger] out@[i])@,
                    q@,
                    options.direct_only,
                    crate::store::opt_view(options.kind_filter),
                ),
    {
        broadcast use vstd::multiset::group_multiset_axioms;

        let is_direct = self.is_direct(crate_name);
        if options.direct_only && !is_direct {
            let out: Vec<ScoredResult> = Vec::new();
            proof {
                broadcast use vstd::seq_lib::group_to_multiset_ensures;

                assert(out@.map_values(|x: ScoredResult| x@).to_multiset()
                    =~= Multiset::<ScoredView>::empty());
            }
            return out;
        }
        let items = store.search_crate(crate_name, None);
        let ghost itemsv = items@.map_values(|c: crate::store::CachedItem| c@);
        let mut out: Vec<ScoredResult> = Vec::new();
        let mut k: usize = 0;
        proof {
            reveal(Seq::filter);
            assert(out@.map_values(|x: ScoredResult| x@) =~= itemsv.subrange(0, 0).filter(
                |w: crate::store::CachedView| kind_ok(
                    w.kind,
                    crate::store::opt_view(options.kind_filter),
                ) && score_of(w.path, q@) > 0,
            ).map_values(
                |w: crate::store::CachedView| in_crate_scored(w, crate_name@, q@, is_direct),
            ));
        }
        while k < items.len()
            invariant
                store.wf(),
                itemsv == items@.map_values(|c: crate::store::CachedItem| c@),
                k <= items@.len(),
                out@.map_values(|x: ScoredResult| x@).to_multiset() == itemsv.subrange(
                    0,
                    k as int,
                ).filter(
                    |w: crate::store::CachedView| kind_ok(
                        w.kind,
                        crate::store::opt_view(options.kind_filter),
                    ) && score_of(w.path, q@) > 0,
                ).map_values(
                    |w: crate::store::CachedView| in_crate_scored(w, crate_name@, q@, is_direct),
                ).to_multiset(),
                options.direct_only ==> is_direct,
                is_direct == crate::deps::name_in(self.direct_deps@, crate_name@),
                forall|i: int|
                    0 <= i < out@.len() ==> sound_scored(
                        (#[trigger] out@[i])@,
                        q@,
                        options.direct_only,
                        crate::store::opt_view(options.kind_filter),
                    ),
            decreases items@.len() - k,
        {
            let ghost keepf = |w: crate::store::CachedView| kind_ok(
                w.kind,
                crate::store::opt_view(options.kind_filter),
            ) && score_of(w.path, q@) > 0;
            let ghost mapf = |w: crate::store::CachedView| in_crate_scored(
                w,
                crate_name@,
                q@,
                is_direct,
            );
            let item = &items[k];
            proof {
                assert(itemsv[k as int] == item@);
            }
            let kind_fits = Self::kind_passes(item.kind.as_str(), &options.kind_filter);
            let (score, mt) = score_path(item.path.as_str(), q);
            let ghost before = out@.map_values(|x: ScoredResult| x@);
            if kind_fits && score > 0 {
                let bonus: u32 = if is_direct {
                    10
                } else {
                    0
                };
                proof {
                    lemma_score_bounds(item.path@, q@);
                }
                out.push(
                    ScoredResult {
                        crate_name: crate_name.to_owned(),
                        crate_version: String::new(),
                        path: item.path.clone(),
                        kind: item.kind.clone(),
                        signature: strutil::clone_opt_string(&item.signature),
                        score: score + bonus,
                        is_direct_dep: is_direct,
                        match_type: mt,
                    },
                );
                proof {
                    assert(out@.last()@ == mapf(itemsv[k as int]));
                    assert(out@.map_values(|x: ScoredResult| x@) =~= before.push(
                        mapf(itemsv[k as int]),
                    ));
                }
            }
            proof {
                broadcast use vstd::seq_lib::group_to_multiset_ensures;
                broadcast use vstd::multiset::group_multiset_axioms;

                reveal(Seq::filter);
                let pre = itemsv.subrange(0, k + 1);
                assert(pre.drop_last() =~= itemsv.subrange(0, k as int));
                assert(pre.last() == itemsv[k as int]);
                let fl = pre.filter(keepf);
                let flp = itemsv.subrange(0, k as int).filter(keepf);
                if keepf(itemsv[k as int]) {
                    assert(fl == flp.push(itemsv[k as int]));
                    assert(fl.map_values(mapf) =~= flp.map_values(mapf).push(
                        mapf(itemsv[k as int]),
                    ));
                    assert(out@.map_values(|x: ScoredResult| x@).to_multiset() =~= before.push(
                        mapf(itemsv[k as int]),
                    ).to_multiset());
                    assert(out@.map_values(|x: ScoredResult| x@).to_multiset() == fl.map_values(
                        mapf,
                    ).to_multiset());
                } else {
                    assert(fl == flp);
                    assert(out@.map_values(|x: ScoredResult| x@).to_multiset() == fl.map_values(
                        mapf,
                    ).to_multiset());
                }
            }
            k += 1;
        }
        proof {
            broadcast use vstd::seq_lib::group_to_multiset_ensures;
            broadcast use vstd::multiset::group_multiset_axioms;

            reveal(Seq::filter);
            let keepf = |w: crate::store::CachedView| kind_ok(
                w.kind,
                crate::store::opt_view(options.kind_filter),
            ) && score_of(w.path, q@) > 0;
            let mapf = |w: crate::store::CachedView| in_crate_scored(
                w,
                crate_name@,
                q@,
                is_direct,
            );
            assert(itemsv.subrange(0, itemsv.len() as int) =~= itemsv);
            match crate::store::latest_ver_from(store.pkgs(), crate_name@, 0) {
                None => {
                    assert(itemsv.len() == 0);
                    assert(itemsv.filter(keepf).map_values(mapf).to_multiset()
                        =~= Multiset::<ScoredView>::empty());
                },
                Some(vv) => {
                    if store.find_pkg(crate_name@, vv) < 0 {
                        assert(itemsv.len() == 0);
                        assert(itemsv.filter(keepf).map_values(mapf).to_multiset()
                            =~= Multiset::<ScoredView>::empty());
                    } else {
                        let pid = store.pkg_id(crate_name@, vv);
                        let base = store.rows_of(pid).map_values(
                            |w: crate::store::RowView| crate::store::cached_of(w),
                        );
                        crate::store::lemma_filter_permutes(itemsv, base, keepf);
                        crate::store::lemma_map_permutes(
                            itemsv.filter(keepf),
                            base.filter(keepf),
                            mapf,
                        );
                    }
                },
            }
        }
        out
    }

    /// Scores every full-text hit across the closure against the case-folded
    /// query, keeping only hits from the dependency closure that pass the
    /// direct-only and kind filters. The result is exactly the closure-wide
    /// model over the store.
    fn search_all(
        &self,
        store: &crate::store::Store,
        q: &str,
        options: &SearchOptions,
    ) -> (out: Vec<ScoredResult>)
        requires
            store.wf(),
            strutil::to_lower(q@) == q@,
        ensures
            out@.map_values(|x: ScoredResult| x@).to_multiset() == search_all_model(
                *self,
                *store,
                q@,
                *options,
            ),
            forall|i: int|
                0 <= i < out@.len() ==> sound_scored(
                    (#[trigger] out@[i])@,
                    q@,
                    options.direct_only,
                    crate::store::opt_view(options.kind_filter),
                ),
    {
        let raw = store.search(q);
        let ghost rawv = raw@.map_values(|s: crate::store::SearchResult| s@);
        let ghost cand = store.rows().filter(
            |w: crate::store::RowView| crate::store::fts_match(q@, w.path),
        ).map_values(|w: crate::store::RowView| store.sr_view_of(w));
        proof {
            assert(rawv.to_multiset() == cand.to_multiset());
        }
        let mut out: Vec<ScoredResult> = Vec::new();
        let mut k: usize = 0;
        proof {
            reveal(Seq::filter);
            assert(out@.map_values(|x: ScoredResult| x@) =~= rawv.subrange(0, 0).filter(
                |v: crate::store::SrView| all_keep(*self, *options, v),
            ).map_values(
                |v: crate::store::SrView| scored_of(
                    v,
                    q@,
                    crate::deps::name_in(self.direct_deps@, v.name),
                ),
            ));
        }
        while k < raw.len()
            invariant
                store.wf(),
                rawv == raw@.map_values(|s: crate::store::SearchResult| s@),
                cand == store.rows().filter(
                    |w: crate::store::RowView| crate::store::fts_match(q@, w.path),
                ).map_values(|w: crate::store::RowView| store.sr_view_of(w)),
                rawv.to_multiset() == cand.to_multiset(),
                k <= raw@.len(),
                out@.map_values(|x: ScoredResult| x@).to_multiset() == rawv.subrange(
                    0,
                    k as int,
                ).filter(|v: crate::store::SrView| all_keep(*self, *options, v)).map_values(
                    |v: crate::store::SrView| scored_of(
                        v,
                        q@,
                        crate::deps::name_in(self.direct_deps@, v.name),
                    ),
                ).to_multiset(),
                forall|i: int|
                    0 <= i < out@.len() ==> sound_scored(
                        (#[trigger] out@[i])@,
                        q@,
                        options.direct_only,
                        crate::store::opt_view(options.kind_filter),
                    ),
            decreases raw@.len() - k,
        {
            let ghost keepf = |v: crate::store::SrView| all_keep(*self, *options, v);
            let ghost mapf = |v: crate::store::SrView| scored_of(
                v,
                q@,
                crate::deps::name_in(self.direct_deps@, v.name),
            );
            let hit = &raw[k];
            proof {
                assert(rawv[k as int] == hit@);
            }
            let in_deps = self.in_closure(hit.crate_name.as_str(), hit.crate_version.as_str());
            let is_direct = self.is_direct(hit.crate_name.as_str());
            let keep = in_deps && (!options.direct_only || is_direct) && Self::kind_passes(
                hit.kind.as_str(),
                &options.kind_filter,
            );
            proof {
                assert(keep == keepf(rawv[k as int]));
            }
            let ghost before = out@.map_values(|x: ScoredResult| x@);
            if keep {
                // the hit came from the full-text table, so its path contains
                // the query and the scoring cannot come up empty
                proof {
                    broadcast use vstd::seq_lib::group_to_multiset_ensures;

                    assert(rawv.contains(rawv[k as int]));
                    assert(rawv.to_multiset().count(rawv[k as int]) > 0);
                    assert(cand.to_multiset().count(rawv[k as int]) > 0);
                    assert(cand.contains(rawv[k as int]));
                    let w = choose|w: int| 0 <= w < cand.len() && cand[w] == rawv[k as int];
                    let fts_rows = store.rows().filter(
                        |w: crate::store::RowView| crate::store::fts_match(q@, w.path),
                    );
                    assert(cand[w] == store.sr_view_of(fts_rows[w]));
                    store.rows().lemma_filter_pred(
                        |w: crate::store::RowView| crate::store::fts_match(q@, w.path),
                        w,
                    );
                    assert(crate::store::fts_match(q@, rawv[k as int].path));
                    assert(score_of(hit.path@, q@) > 0);
                    lemma_score_bounds(hit.path@, q@);
                }
                let (score, mt) = score_path(hit.path.as_str(), q);
                let bonus: u32 = if is_direct {
                    10
                } else {
                    0
                };
                out.push(
                    ScoredResult {
                        crate_name: hit.crate_name.clone(),
                        crate_version: hit.crate_version.clone(),
                        path: hit.path.clone(),
                        kind: hit.kind.clone(),
                        signature: strutil::clone_opt_string(&hit.signature),
                        score: score + bonus,
                        is_direct_dep: is_direct,
                        match_type: mt,
                    },
                );
                proof {
                    assert(out@.last()@ == mapf(rawv[k as int]));
                    assert(out@.map_values(|x: ScoredResult| x@) =~= before.push(
                        mapf(rawv[k as int]),
                    ));
                }
            }
            proof {
                broadcast use vstd::seq_lib::group_to_multiset_ensures;
                broadcast use vstd::multiset::group_multiset_axioms;

                reveal(Seq::filter);
                let pre = rawv.subrange(0, k + 1);
                assert(pre.drop_last() =~= rawv.subrange(0, k as int));
                assert(pre.last() == rawv[k as int]);
                let fl = pre.filter(keepf);
                let flp = rawv.subrange(0, k as int).filter(keepf);
                if keepf(rawv[k as int]) {
                    assert(fl == flp.push(rawv[k as int]));
                    assert(fl.map_values(mapf) =~= flp.map_values(mapf).push(
                        mapf(rawv[k as int]),
                    ));
                    assert(out@.map_values(|x: ScoredResult| x@).to_multiset() =~= before.push(
                        mapf(rawv[k as int]),
                    ).to_multiset());
                    assert(out@.map_values(|x: ScoredResult| x@).to_multiset() == fl.map_values(
                        mapf,
                    ).to_multiset());
                } else {
                    assert(fl == flp);
                    assert(out@.map_values(|x: ScoredResult| x@).to_multiset() == fl.map_values(
                        mapf,
                    ).to_multiset());
                }
            }
            k += 1;
        }
        proof {
            let keepf = |v: crate::store::SrView| all_keep(*self, *options, v);
            let mapf = |v: crate::store::SrView| scored_of(
                v,
                q@,
                crate::deps::name_in(self.direct_deps@, v.name),
            );
            assert(rawv.subrange(0, rawv.len() as int) =~= rawv);
            crate::store::lemma_filter_permutes(rawv, cand, keepf);
            crate::store::lemma_map_permutes(rawv.filter(keepf), cand.filter(keepf), mapf);
        }
        out
    }
}

/// A related crate: the queried crate itself or one extending its name.
#[derive(Debug, Clone)]
pub struct RelatedCrate {
    pub name: String,
    pub version: String,
    pub item_count: usize,
    pub relationship: CrateRelationship,
}

/// How a crate relates to a crate-level query.
#[derive(Debug, Clone, Copy, PartialEq, Eq, Structural)]
pub enum CrateRelationship {
    /// The crate itself.
    Direct,
    /// A crate whose name extends the query, as `foo_core` extends `foo`.
    Prefix,
    /// A crate the queried one re-exports.
    ReExport,
}

impl CrateRelationship {
    /// The short text of the relationship.
    pub open spec fn label(self) -> Seq<char> {
        match self {
            CrateRelationship::Direct => "direct"@,
            CrateRelationship::Prefix => "prefix"@,
            CrateRelationship::ReExport => "re-export"@,
        }
    }

    /// Writes the relationship out.
    pub fn as_text(&self) -> (r: &'static str)
        ensures
            r@ == self.label(),
    {
        match self {
            CrateRelationship::Direct => "direct",
            CrateRelationship::Prefix => "prefix",
            CrateRelationship::ReExport => "re-export",
        }
    }
}

/// A search response: one page of ranked results with its pagination window,
/// plus suggestions and related crates when the results are thin.
#[derive(Debug)]
pub struct SearchResponse {
    pub results: Vec<ScoredResult>,
    pub pagination: Pagination,
    /// Suggested alternative queries when few or no results matched.
    pub suggestions: Vec<String>,
    /// Related crates, for crate-level queries.
    pub related_crates: Vec<RelatedCrate>,
}

/// Information about one crate of the closure.
#[derive(Debug)]
pub struct CrateInfo {
    pub name: String,
    pub version: String,
    pub path: String,
    pub item_count: usize,
    pub is_reexport: bool,
    pub is_direct_dep: bool,
    pub related_crates: Vec<RelatedCrate>,
}

/// A line that counts as code: trimmed, it is non-empty and opens with
/// neither a comment marker nor an attribute.
pub open spec fn code_line(l: Seq<char>) -> bool {
    let t = strutil::trim_spec(l);
    &&& !"//"@.is_prefix_of(t)
    &&& !"#"@.is_prefix_of(t)
    &&& t.len() > 0
}

/// A line that republishes another crate's items.
pub open spec fn reexport_line(l: Seq<char>) -> bool {
    strutil::contains_seq(l, "pub use"@) || strutil::contains_seq(l, "pub ext"@ + "ern crate"@)
}

/// The advisory re-export classification of a root source file: fewer than
/// twenty code lines, at least half of them re-export statements.
pub open spec fn is_reexport_spec(content: Seq<char>) -> bool {
    let lines = strutil::split_lines(content);
    let code = lines.filter(|l: Seq<char>| code_line(l));
    let re = code.filter(|l: Seq<char>| reexport_line(l));
    code.len() < 20 && re.len() > 0 && re.len() >= code.len() / 2
}

/// Classifies a package root file as a re-export umbrella: short, and mostly
/// made of re-export statements.
pub fn is_reexport_source(content: &str) -> (r: bool)
    ensures
        r == is_reexport_spec(content@),
{
    proof {
        reveal_strlit("//");
        reveal_strlit("#");
        reveal_strlit("pub use");
        reveal_strlit("pub ext");
        reveal_strlit("ern crate");
    }
    let mut extpat = "pub ext".to_owned();
    extpat.append("ern crate");
    let lines = strutil::lines_of(content);
    let ghost lview = strutil::split_lines(content@);
    let mut code_count: usize = 0;
    let mut re_count: usize = 0;
    let mut k: usize = 0;
    proof {
        reveal(Seq::filter);
        assert(lview.subrange(0, 0).filter(|l: Seq<char>| code_line(l)) =~= Seq::<
            Seq<char>,
        >::empty());
    }
    while k < lines.len()
        invariant
            extpat@ == "pub ext"@ + "ern crate"@,
            lview == strutil::split_lines(content@),
            lines@.map_values(|l: String| l@) == lview,
            k <= lines@.len(),
            code_count == lview.subrange(0, k as int).filter(|l: Seq<char>| code_line(l)).len(),
            re_count == lview.subrange(0, k as int).filter(|l: Seq<char>| code_line(l)).filter(
                |l: Seq<char>| reexport_line(l),
            ).len(),
            re_count <= code_count <= k,
        decreases lines@.len() - k,
    {
        proof {
            reveal_strlit("//");
            reveal_strlit("#");
            reveal_strlit("pub use");
            assert(lview[k as int] == lines@[k as int]@);
        }
        let t = strutil::trim_copy(lines[k].as_str());
        let is_code = !strutil::starts_with(t.as_str(), "//") && !strutil::starts_with(
            t.as_str(),
            "#",
        ) && t.as_str().unicode_len() > 0;
        let is_re = is_code && (strutil::contains(lines[k].as_str(), "pub use")
            || strutil::contains(lines[k].as_str(), extpat.as_str()));
        proof {
            reveal(Seq::filter);
            let pre = lview.subrange(0, k + 1);
            assert(pre.drop_last() =~= lview.subrange(0, k as int));
            assert(pre.last() == lview[k as int]);
            let codepre = pre.filter(|l: Seq<char>| code_line(l));
            let code = lview.subrange(0, k as int).filter(|l: Seq<char>| code_line(l));
            assert(is_code == code_line(lview[k as int]));
            if is_code {
                assert(codepre == code.push(lview[k as int]));
                assert(codepre.drop_last() =~= code);
                assert(codepre.last() == lview[k as int]);
                assert(codepre.filter(|l: Seq<char>| reexport_line(l)) == code.filter(
                    |l: Seq<char>| reexport_line(l),
                ) + if reexport_line(lview[k as int]) {
                    seq![lview[k as int]]
                } else {
                    Seq::<Seq<char>>::empty()
                }) by {
                    if reexport_line(lview[k as int]) {
                        assert(codepre.filter(|l: Seq<char>| reexport_line(l)) =~= code.filter(
                            |l: Seq<char>| reexport_line(l),
                        ).push(lview[k as int]));
                    } else {
                        assert(codepre.filter(|l: Seq<char>| reexport_line(l)) =~= code.filter(
                            |l: Seq<char>| reexport_line(l),
                        ));
                    }
                }
            } else {
                assert(codepre == code);
            }
        }
        if is_code {
            code_count += 1;
        }
        if is_re {
            re_count += 1;
        }
        k += 1;
    }
    proof {
        assert(lview.subrange(0, lview.len() as int) =~= lview);
    }
    code_count < 20 && re_count > 0 && re_count >= code_count / 2
}

/// `s` suggests a dependency: it is `crate:` followed by the name of some
/// dependency that contains the query without being it.
pub open spec fn suggestion_ok(deps: Seq<RegistryCrate>, s: Seq<char>, q: Seq<char>) -> bool {
    exists|j: int|
        0 <= j < deps.len() && s == "crate:"@ + (#[trigger] deps[j]).name@
            && strutil::contains_seq(deps[j].name@, q) && deps[j].name@ != q
}

/// An identifier character of a crate-name query.
pub open spec fn is_ident_char(c: char) -> bool {
    ('a' <= c && c <= 'z') || ('A' <= c && c <= 'Z') || ('0' <= c && c <= '9') || c == '_' || c
        == '-'
}

/// A dependency is related to a crate-level query: it is the crate itself or
/// extends its name.
pub open spec fn related_to(dep: RegistryCrate, q: Seq<char>) -> bool {
    dep.name@ == q || (q + "_"@).is_prefix_of(dep.name@)
}

/// How many of the first `k` dependencies relate to the query.
pub open spec fn related_count(deps: Seq<RegistryCrate>, q: Seq<char>, k: int) -> int
    decreases k,
{
    if k <= 0 {
        0
    } else if k > deps.len() {
        related_count(deps, q, deps.len() as int)
    } else if related_to(deps[k - 1], q) {
        related_count(deps, q, k - 1) + 1
    } else {
        related_count(deps, q, k - 1)
    }
}

/// The number of items the store holds for the exact `(name, version)` pair.
pub open spec fn pkg_item_count(store: crate::store::Store, name: Seq<char>, ver: Seq<char>) -> int {
    if store.find_pkg(name, ver) < 0 {
        0
    } else {
        store.rows_of(store.pkg_id(name, ver)).len() as int
    }
}

/// Strict order of related crates: the crate itself first, then falling item
/// count.
pub open spec fn rel_lt(a: RelatedCrate, b: RelatedCrate) -> bool {
    (a.relationship == CrateRelationship::Direct && b.relationship != CrateRelationship::Direct)
        || (a.relationship != CrateRelationship::Direct && b.relationship
        != CrateRelationship::Direct && a.item_count > b.item_count)
}

/// A related-crate record faithfully describes a dependency against the
/// store and the query.
pub open spec fn related_ok(
    rc: RelatedCrate,
    store: crate::store::Store,
    q: Seq<char>,
) -> bool {
    &&& (rc.relationship == CrateRelationship::Direct && rc.name@ == q) || (rc.relationship
        == CrateRelationship::Prefix && (q + "_"@).is_prefix_of(rc.name@))
    &&& rc.item_count as int == pkg_item_count(store, rc.name@, rc.version@)
}

/// Inserts a related crate into a list kept sorted by the relation order.
fn insert_related(out: &mut Vec<RelatedCrate>, c: RelatedCrate, Ghost(store): Ghost<
    crate::store::Store,
>, Ghost(q): Ghost<Seq<char>>)
    requires
        forall|i: int, j: int|
            0 <= i < j < old(out)@.len() ==> !rel_lt(old(out)@[j], old(out)@[i]),
        forall|i: int| 0 <= i < old(out)@.len() ==> related_ok(#[trigger] old(out)@[i], store, q),
        related_ok(c, store, q),
    ensures
        final(out)@.len() == old(out)@.len() + 1,
        forall|i: int, j: int|
            0 <= i < j < final(out)@.len() ==> !rel_lt(final(out)@[j], final(out)@[i]),
        forall|i: int| 0 <= i < final(out)@.len() ==> related_ok(#[trigger] final(out)@[i], store, q),
        forall|i: int|
            0 <= i < old(out)@.len() ==> exists|j: int|
                0 <= j < final(out)@.len() && final(out)@[j] == #[trigger] old(out)@[i],
        exists|j: int| 0 <= j < final(out)@.len() && final(out)@[j] == c,
{
    let ghost olds = out@;
    let mut k: usize = 0;
    while k < out.len() && rel_lt_exec(&out[k], &c)
        invariant
            out@ == olds,
            k <= out@.len(),
            forall|i: int| 0 <= i < k ==> rel_lt(#[trigger] olds[i], c),
        decreases out@.len() - k,
    {
        k += 1;
    }
    let ghost kk = k as int;
    out.insert(k, c);
    proof {
        let news = final(out)@;
        assert(news =~= olds.insert(kk, c));
        assert forall|i: int, j: int| 0 <= i < j < news.len() implies !rel_lt(
            news[j],
            news[i],
        ) by {
            if i < kk && j == kk {
                assert(news[i] == olds[i]);
            } else if i == kk && j > kk {
                assert(news[j] == olds[j - 1]);
                if j - 1 > kk {
                    assert(!rel_lt(olds[j - 1], olds[kk]));
                }
            } else if i < kk && j > kk {
                assert(news[i] == olds[i] && news[j] == olds[j - 1]);
            } else if i < kk && j < kk {
                assert(news[i] == olds[i] && news[j] == olds[j]);
            } else if i > kk {
                assert(news[i] == olds[i - 1] && news[j] == olds[j - 1]);
            }
        }
        assert forall|i: int| 0 <= i < news.len() implies related_ok(
            #[trigger] news[i],
            store,
            q,
        ) by {
            if i < kk {
                assert(news[i] == olds[i]);
            } else if i > kk {
                assert(news[i] == olds[i - 1]);
            } else {
                assert(news[i] == c);
            }
        }
        assert forall|i: int| 0 <= i < olds.len() implies exists|j: int|
            0 <= j < news.len() && news[j] == #[trigger] olds[i] by {
            if i < kk {
                assert(news[i] == olds[i]);
            } else {
                assert(news[i + 1] == olds[i]);
            }
        }
        assert(news[kk] == c);
    }
}

/// Decides the relation order.
fn rel_lt_exec(a: &RelatedCrate, b: &RelatedCrate) -> (r: bool)
    ensures
        r == rel_lt(*a, *b),
{
    let a_direct = match a.relationship {
        CrateRelationship::Direct => true,
        _ => false,
    };
    let b_direct = match b.relationship {
        CrateRelationship::Direct => true,
        _ => false,
    };
    (a_direct && !b_direct) || (!a_direct && !b_direct && a.item_count > b.item_count)
}

impl SearchEngine {
    /// Whether the query has the shape of a crate name and some dependency
    /// carries it or extends it.
    pub open spec fn crate_query_spec(self, q: Seq<char>) -> bool {
        &&& !strutil::contains_seq(q, "::"@)
        &&& forall|i: int| 0 <= i < q.len() ==> is_ident_char(q[i])
        &&& exists|j: int|
            0 <= j < self.all_deps@.len() && ((#[trigger] self.all_deps@[j]).name@ == q || (q
                + "_"@).is_prefix_of(self.all_deps@[j].name@))
    }

    /// Decides whether a case-folded query is a crate-level query.
    fn is_crate_query(&self, q: &str) -> (r: bool)
        ensures
            r == self.crate_query_spec(q@),
    {
        proof {
            reveal_strlit("::");
            reveal_strlit("_");
        }
        if strutil::contains(q, "::") {
            return false;
        }
        let len = q.unicode_len();
        let mut i: usize = 0;
        while i < len
            invariant
                len == q@.len(),
                i <= len,
                forall|j: int| 0 <= j < i ==> is_ident_char(q@[j]),
            decreases len - i,
        {
            let c = q.get_char(i);
            if !(('a' <= c && c <= 'z') || ('A' <= c && c <= 'Z') || ('0' <= c && c <= '9') || c
                == '_' || c == '-') {
                return false;
            }
            i += 1;
        }
        let mut qp = q.to_owned();
        qp.append("_");
        let mut j: usize = 0;
        while j < self.all_deps.len()
            invariant
                qp@ == q@ + "_"@,
                !strutil::contains_seq(q@, "::"@),
                forall|m: int| 0 <= m < q@.len() ==> is_ident_char(q@[m]),
                j <= self.all_deps@.len(),
                forall|m: int|
                    0 <= m < j ==> !((#[trigger] self.all_deps@[m]).name@ == q@ || (q@
                        + "_"@).is_prefix_of(self.all_deps@[m].name@)),
            decreases self.all_deps@.len() - j,
        {
            if strutil::str_eq(self.all_deps[j].name.as_str(), q) || strutil::starts_with(
                self.all_deps[j].name.as_str(),
                qp.as_str(),
            ) {
                return true;
            }
            j += 1;
        }
        false
    }

    /// Collects the crates related to a crate-level query: every dependency
    /// equal to the query or extending its name appears, once per closure
    /// entry, carrying its true item count under its exact version; the
    /// crate itself first, the others by falling item count.
    pub fn find_related_crates(&self, store: &crate::store::Store, q: &str) -> (out: Vec<
        RelatedCrate,
    >)
        requires
            store.wf(),
        ensures
            out@.len() == related_count(self.all_deps@, q@, self.all_deps@.len() as int),
            forall|i: int| 0 <= i < out@.len() ==> related_ok(#[trigger] out@[i], *store, q@),
            forall|j: int|
                0 <= j < self.all_deps@.len() && related_to(#[trigger] self.all_deps@[j], q@)
                    ==> exists|i: int|
                    0 <= i < out@.len() && (#[trigger] out@[i]).name@ == self.all_deps@[j].name@
                        && out@[i].version@ == self.all_deps@[j].version@,
            forall|i: int, j: int| 0 <= i < j < out@.len() ==> !rel_lt(out@[j], out@[i]),
    {
        proof {
            reveal_strlit("_");
        }
        let mut qp = q.to_owned();
        qp.append("_");
        let mut out: Vec<RelatedCrate> = Vec::new();
        let mut d: usize = 0;
        while d < self.all_deps.len()
            invariant
                store.wf(),
                qp@ == q@ + "_"@,
                d <= self.all_deps@.len(),
                out@.len() == related_count(self.all_deps@, q@, d as int),
                forall|i: int| 0 <= i < out@.len() ==> related_ok(#[trigger] out@[i], *store, q@),
                forall|j: int|
                    0 <= j < d && related_to(#[trigger] self.all_deps@[j], q@) ==> exists|i: int|
                        0 <= i < out@.len() && (#[trigger] out@[i]).name@
                            == self.all_deps@[j].name@ && out@[i].version@
                            == self.all_deps@[j].version@,
                forall|i: int, j: int| 0 <= i < j < out@.len() ==> !rel_lt(out@[j], out@[i]),
            decreases self.all_deps@.len() - d,
        {
            let dep = &self.all_deps[d];
            let rel: Option<CrateRelationship> = if strutil::str_eq(dep.name.as_str(), q) {
                Some(CrateRelationship::Direct)
            } else if strutil::starts_with(dep.name.as_str(), qp.as_str()) {
                Some(CrateRelationship::Prefix)
            } else {
                None
            };
            let ghost outs_before = out@;
            match rel {
                Some(relationship) => {
                    let items = store.search_crate(dep.name.as_str(), Some(dep.version.as_str()));
                    proof {
                        broadcast use vstd::seq_lib::group_to_multiset_ensures;

                        if store.find_pkg(dep.name@, dep.version@) >= 0 {
                            let pid = store.pkg_id(dep.name@, dep.version@);
                            assert(items@.map_values(|c: crate::store::CachedItem| c@).to_multiset().len()
                                == store.rows_of(pid).map_values(
                                |w: crate::store::RowView| crate::store::cached_of(w),
                            ).to_multiset().len());
                        }
                    }
                    let rc = RelatedCrate {
                        name: dep.name.clone(),
                        version: dep.version.clone(),
                        item_count: items.len(),
                        relationship,
                    };
                    proof {
                        assert(related_ok(rc, *store, q@));
                    }
                    insert_related(&mut out, rc, Ghost(*store), Ghost(q@));
                    proof {
                        assert forall|j: int|
                            0 <= j < d + 1 && related_to(
                                #[trigger] self.all_deps@[j],
                                q@,
                            ) implies exists|i: int|
                            0 <= i < out@.len() && (#[trigger] out@[i]).name@
                                == self.all_deps@[j].name@ && out@[i].version@
                                == self.all_deps@[j].version@ by {
                            if j < d {
                                let w = choose|w: int|
                                    0 <= w < outs_before.len() && (#[trigger] outs_before[w]).name@
                                        == self.all_deps@[j].name@ && outs_before[w].version@
                                        == self.all_deps@[j].version@;
                                assert(exists|i: int|
                                    0 <= i < out@.len() && (#[trigger] out@[i]) == outs_before[w]);
                                let w2 = choose|i: int|
                                    0 <= i < out@.len() && (#[trigger] out@[i]) == outs_before[w];
                                assert(out@[w2].name@ == self.all_deps@[j].name@);
                            } else {
                                let w = choose|i: int|
                                    0 <= i < out@.len() && (#[trigger] out@[i]) == rc;
                                assert(out@[w].name@ == self.all_deps@[j].name@);
                            }
                        }
                    }
                },
                None => {},
            }
            d += 1;
        }
        out
    }

    /// Suggests crate-scoped queries: dependencies whose name contains the
    /// query but is not the query, at most five.
    fn build_suggestions(&self, q: &str) -> (out: Vec<String>)
        ensures
            out@.len() <= 5,
            forall|i: int|
                0 <= i < out@.len() ==> suggestion_ok(
                    self.all_deps@,
                    (#[trigger] out@[i])@,
                    q@,
                ),
    {
        proof {
            reveal_strlit("crate:");
        }
        let mut out: Vec<String> = Vec::new();
        let mut d: usize = 0;
        while d < self.all_deps.len()
            invariant
                d <= self.all_deps@.len(),
                out@.len() <= 5,
                forall|i: int|
                    0 <= i < out@.len() ==> suggestion_ok(
                        self.all_deps@,
                        (#[trigger] out@[i])@,
                        q@,
                    ),
            decreases self.all_deps@.len() - d,
        {
            let dep = &self.all_deps[d];
            if out.len() < 5 && strutil::contains(dep.name.as_str(), q) && !strutil::str_eq(
                dep.name.as_str(),
                q,
            ) {
                let mut s = "crate:".to_owned();
                s.append(dep.name.as_str());
                out.push(s);
                proof {
                    let n = out@.len() - 1;
                    assert(0 <= d < self.all_deps@.len() && out@[n]@ == "crate:"@
                        + self.all_deps@[d as int].name@ && strutil::contains_seq(
                        self.all_deps@[d as int].name@,
                        q@,
                    ) && self.all_deps@[d as int].name@ != q@);
                    assert(suggestion_ok(self.all_deps@, out@[n]@, q@));
                }
            }
            d += 1;
        }
        out
    }

    /// Scores an item path against a query, case folded.
    pub fn score_item(&self, path: &str, query: &str) -> (r: (u32, MatchType))
        ensures
            r.0 as int == score_of(path@, strutil::to_lower(query@)),
            r.1 == match_of(path@, strutil::to_lower(query@)),
    {
        let q = strutil::lower(query);
        score_path(path, q.as_str())
    }
}

/// `x` clipped from above to `hi`.
pub open spec fn clip(x: int, hi: int) -> int {
    if x <= hi {
        x
    } else {
        hi
    }
}

/// The witness of a completed search: `full` is the whole ranked list, drawn
/// together from the primary hits `prim` — exactly the primary model over the
/// store — and the fuzzy additions `fz`, which exist exactly when fuzzy
/// matching was on and the primary pipeline returned fewer than five hits,
/// and then hold exactly the fuzzy model minus the `(package, path)` keys the
/// primary hits already carry: on a key collision the primary result with its
/// original score wins. The returned page is the requested window of `full`.
pub open spec fn search_witness(
    eng: SearchEngine,
    store: crate::store::Store,
    q: Seq<char>,
    options: SearchOptions,
    page: Seq<ScoredResult>,
    total: int,
    full: Seq<ScoredView>,
    prim: Seq<ScoredView>,
    fz: Seq<ScoredView>,
) -> bool {
    let results = page.map_values(|x: ScoredResult| x@);
    &&& prim.to_multiset() == primary_model(eng, store, q, options)
    &&& if prim.len() < 5 && options.fuzzy {
        fz.to_multiset() == fuzzy_model(eng, store, q, options, 0).filter(
            |v: ScoredView| !key_in(prim, v),
        )
    } else {
        fz.len() == 0
    }
    &&& full.to_multiset() == (prim + fz).to_multiset()
    &&& vstd::relations::sorted_by(full, |a: ScoredView, b: ScoredView| rank_le(a, b))
    &&& total == full.len()
    &&& results == full.subrange(
        clip(options.offset as int, full.len() as int),
        clip(options.offset + options.limit, full.len() as int),
    )
    &&& forall|i: int|
        0 <= i < prim.len() ==> sound_scored(
            #[trigger] prim[i],
            q,
            options.direct_only,
            crate::store::opt_view(options.kind_filter),
        )
    &&& forall|i: int|
        0 <= i < fz.len() ==> sound_fuzzy(
            #[trigger] fz[i],
            q,
            options.max_edit_distance as nat,
            options.direct_only,
            crate::store::opt_view(options.kind_filter),
        )
    &&& forall|i: int|
        0 <= i < results.len() ==> sound_scored(
            #[trigger] results[i],
            q,
            options.direct_only,
            crate::store::opt_view(options.kind_filter),
        ) || sound_fuzzy(
            results[i],
            q,
            options.max_edit_distance as nat,
            options.direct_only,
            crate::store::opt_view(options.kind_filter),
        )
}

/// A completed search has a witness.
pub open spec fn search_post(
    eng: SearchEngine,
    store: crate::store::Store,
    q: Seq<char>,
    options: SearchOptions,
    page: Seq<ScoredResult>,
    total: int,
) -> bool {
    exists|full: Seq<ScoredView>, prim: Seq<ScoredView>, fz: Seq<ScoredView>|
        #[trigger] search_witness(eng, store, q, options, page, total, full, prim, fz)
}

/// The ordering keys of two results agree.
pub open spec fn same_keys(a: ScoredView, b: ScoredView) -> bool {
    a.name == b.name && a.version == b.version && a.path == b.path
}

/// Ranking law: a ranked list is determined by what it holds. Two lists that
/// are sorted by rank, drawn from the same collection of results, and free of
/// repeated `(package, version, path)` keys are equal — so any two searches
/// over one store rank their common results identically, and pages taken at
/// different times line up.
pub proof fn lemma_ranked_unique(x: Seq<ScoredView>, y: Seq<ScoredView>)
    requires
        vstd::relations::sorted_by(x, |a: ScoredView, b: ScoredView| rank_le(a, b)),
        vstd::relations::sorted_by(y, |a: ScoredView, b: ScoredView| rank_le(a, b)),
        x.to_multiset() == y.to_multiset(),
        forall|i: int, j: int| 0 <= i < j < x.len() ==> !same_keys(x[i], x[j]),
        forall|i: int, j: int| 0 <= i < j < y.len() ==> !same_keys(y[i], y[j]),
    ensures
        x =~= y,
    decreases x.len(),
{
    broadcast use vstd::seq_lib::group_to_multiset_ensures;
    broadcast use vstd::multiset::group_multiset_axioms;

    if x.len() == 0 {
        assert(y.to_multiset().len() == 0);
    } else if y.len() == 0 {
        assert(x.to_multiset().len() == 0);
    } else {
        let leq = |a: ScoredView, b: ScoredView| rank_le(a, b);
        assert(x.to_multiset().contains(x[0]));
        assert(y.contains(x[0]));
        let k = choose|k: int| 0 <= k < y.len() && y[k] == x[0];
        assert(y.to_multiset().contains(y[0]));
        assert(x.contains(y[0]));
        let m = choose|m: int| 0 <= m < x.len() && x[m] == y[0];
        if k > 0 {
            // x[0] sits below y[0] and above it at once, so their keys agree,
            // and a later copy of that key inside y is ruled out
            assert(leq(y[0], y[k]));
            if m > 0 {
                assert(leq(x[0], x[m]));
            }
            assert(rank_le(y[0], x[0]) && rank_le(x[0], y[0]));
            strutil::lemma_lex_connected(x[0].path, y[0].path);
            strutil::lemma_lex_connected(x[0].name, y[0].name);
            strutil::lemma_lex_connected(x[0].version, y[0].version);
            assert(same_keys(x[0], y[0]));
            assert(same_keys(y[0], y[k]));
            assert(false);
        }
        assert(y[0] == x[0]);
        let xt = x.drop_first();
        let yt = y.drop_first();
        assert(xt.to_multiset() =~= x.to_multiset().remove(x[0])) by {
            assert(x.remove(0) =~= xt);
        }
        assert(yt.to_multiset() =~= y.to_multiset().remove(y[0])) by {
            assert(y.remove(0) =~= yt);
        }
        assert(forall|i: int, j: int| 0 <= i < j < xt.len() ==> !same_keys(xt[i], xt[j])) by {
            assert(forall|i: int| 0 <= i < xt.len() ==> xt[i] == x[i + 1]);
        }
        assert(forall|i: int, j: int| 0 <= i < j < yt.len() ==> !same_keys(yt[i], yt[j])) by {
            assert(forall|i: int| 0 <= i < yt.len() ==> yt[i] == y[i + 1]);
        }
        assert(vstd::relations::sorted_by(xt, leq)) by {
            assert(forall|i: int| 0 <= i < xt.len() ==> xt[i] == x[i + 1]);
        }
        assert(vstd::relations::sorted_by(yt, leq)) by {
            assert(forall|i: int| 0 <= i < yt.len() ==> yt[i] == y[i + 1]);
        }
        lemma_ranked_unique(xt, yt);
        assert forall|i: int| 0 <= i < x.len() implies x[i] == y[i] by {
            if i > 0 {
                assert(x[i] == xt[i - 1] && y[i] == yt[i - 1]);
            }
        }
    }
}

/// Takes the page `[offset, offset+limit)` out of a ranked list.
fn paginate(v: Vec<ScoredResult>, offset: usize, limit: usize) -> (out: Vec<ScoredResult>)
    ensures
        out@.map_values(|x: ScoredResult| x@) == v@.map_values(|x: ScoredResult| x@).subrange(
            clip(offset as int, v@.len() as int),
            clip(offset + limit, v@.len() as int),
        ),
{
    let ghost orig = v@.map_values(|x: ScoredResult| x@);
    let mut v = v;
    let mut out: Vec<ScoredResult> = Vec::new();
    let mut t: usize = 0;
    if offset >= v.len() {
        proof {
            assert(out@.map_values(|x: ScoredResult| x@) =~= orig.subrange(
                clip(offset as int, orig.len() as int),
                clip(offset + limit, orig.len() as int),
            ));
        }
        return out;
    }
    while t < limit && offset < v.len()
        invariant
            offset <= orig.len(),
            t <= limit,
            out@.len() == t,
            v@.map_values(|x: ScoredResult| x@) == orig.subrange(0, offset as int) + orig.subrange(
                offset + t,
                orig.len() as int,
            ),
            out@.map_values(|x: ScoredResult| x@) == orig.subrange(
                offset as int,
                clip(offset + t, orig.len() as int),
            ),
            offset + t <= orig.len(),
        decreases limit - t,
    {
        let ghost before = v@.map_values(|x: ScoredResult| x@);
        let x = v.remove(offset);
        proof {
            assert(x@ == before[offset as int]);
            assert(before[offset as int] == orig[offset + t]);
            assert(v@.map_values(|x: ScoredResult| x@) =~= orig.subrange(0, offset as int)
                + orig.subrange(offset + t + 1, orig.len() as int)) by {
                assert(v@.map_values(|y: ScoredResult| y@) =~= before.remove(offset as int));
            }
        }
        out.push(x);
        proof {
            assert(out@.map_values(|y: ScoredResult| y@) =~= orig.subrange(
                offset as int,
                clip(offset + t + 1, orig.len() as int),
            ));
        }
        t += 1;
    }
    proof {
        assert(out@.map_values(|x: ScoredResult| x@) =~= orig.subrange(
            clip(offset as int, orig.len() as int),
            clip(offset + limit, orig.len() as int),
        ));
    }
    out
}

/// Pagination law: the pages of a ranked list tile it, so walking the list a
/// window at a time yields exactly the single unpaginated list.
pub proof fn lemma_pages_tile(full: Seq<ScoredView>, a: int, b: int, c: int)
    requires
        0 <= a <= b <= c <= full.len(),
    ensures
        full.subrange(a, b) + full.subrange(b, c) == full.subrange(a, c),
{
    assert(full.subrange(a, b) + full.subrange(b, c) =~= full.subrange(a, c));
}

impl SearchEngine {
    /// Scores the whole closure against the query by edit distance on simple
    /// names, admitting hits within the allowed distance. The result is
    /// exactly the fuzzy model over the store: every dependency the filters
    /// admit contributes its admitted items.
    fn fuzzy_search(
        &self,
        store: &crate::store::Store,
        q: &str,
        options: &SearchOptions,
    ) -> (out: Vec<ScoredResult>)
        requires
            store.wf(),
            strutil::to_lower(q@) == q@,
        ensures
            out@.map_values(|x: ScoredResult| x@).to_multiset() == fuzzy_model(
                *self,
                *store,
                q@,
                *options,
                0,
            ),
            forall|i: int|
                0 <= i < out@.len() ==> sound_fuzzy(
                    (#[trigger] out@[i])@,
                    q@,
                    options.max_edit_distance as nat,
                    options.direct_only,
                    crate::store::opt_view(options.kind_filter),
                ),
    {
        let mut out: Vec<ScoredResult> = Vec::new();
        let mut d: usize = 0;
        proof {
            broadcast use vstd::seq_lib::group_to_multiset_ensures;
            broadcast use vstd::multiset::group_multiset_axioms;

            assert(out@.map_values(|x: ScoredResult| x@).to_multiset().add(
                fuzzy_model(*self, *store, q@, *options, 0),
            ) =~= fuzzy_model(*self, *store, q@, *options, 0));
        }
        while d < self.all_deps.len()
            invariant
                store.wf(),
                strutil::to_lower(q@) == q@,
                d <= self.all_deps@.len(),
                out@.map_values(|x: ScoredResult| x@).to_multiset().add(
                    fuzzy_model(*self, *store, q@, *options, d as int),
                ) == fuzzy_model(*self, *store, q@, *options, 0),
                forall|i: int|
                    0 <= i < out@.len() ==> sound_fuzzy(
                        (#[trigger] out@[i])@,
                        q@,
                        options.max_edit_distance as nat,
                        options.direct_only,
                        crate::store::opt_view(options.kind_filter),
                    ),
            decreases self.all_deps@.len() - d,
        {
            let ghost base = out@.map_values(|x: ScoredResult| x@).to_multiset();
            let ghost depv = self.all_deps@[d as int];
            let ghost dm = fuzzy_dep_model(*self, *store, q@, *options, depv);
            let dep_name = self.all_deps[d].name.clone();
            let dep_version = self.all_deps[d].version.clone();
            let is_direct = self.is_direct(dep_name.as_str());
            let skip_direct = options.direct_only && !is_direct;
            let skip_filter = match &options.crate_filter {
                Some(f) => !strutil::str_eq(f.as_str(), dep_name.as_str()),
                None => false,
            };
            if !skip_direct && !skip_filter {
                let items = store.search_crate(dep_name.as_str(), Some(dep_version.as_str()));
                let ghost itemsv = items@.map_values(|c: crate::store::CachedItem| c@);
                let mut k: usize = 0;
                proof {
                    reveal(Seq::filter);
                    broadcast use vstd::seq_lib::group_to_multiset_ensures;
                    broadcast use vstd::multiset::group_multiset_axioms;

                    assert(itemsv.subrange(0, 0).filter(
                        |w: crate::store::CachedView| fuzzy_keep(w, q@, *options),
                    ).map_values(
                        |w: crate::store::CachedView| fuzzy_scored(w, depv, q@, is_direct),
                    ) =~= Seq::<ScoredView>::empty());
                    assert(out@.map_values(|x: ScoredResult| x@).to_multiset() =~= base.add(
                        itemsv.subrange(0, 0).filter(
                            |w: crate::store::CachedView| fuzzy_keep(w, q@, *options),
                        ).map_values(
                            |w: crate::store::CachedView| fuzzy_scored(w, depv, q@, is_direct),
                        ).to_multiset(),
                    ));
                }
                while k < items.len()
                    invariant
                        store.wf(),
                        strutil::to_lower(q@) == q@,
                        options.direct_only ==> is_direct,
                        is_direct == crate::deps::name_in(self.direct_deps@, depv.name@),
                        dep_name@ == depv.name@,
                        dep_version@ == depv.version@,
                        itemsv == items@.map_values(|c: crate::store::CachedItem| c@),
                        k <= items@.len(),
                        out@.map_values(|x: ScoredResult| x@).to_multiset() == base.add(
                            itemsv.subrange(0, k as int).filter(
                                |w: crate::store::CachedView| fuzzy_keep(w, q@, *options),
                            ).map_values(
                                |w: crate::store::CachedView| fuzzy_scored(w, depv, q@, is_direct),
                            ).to_multiset(),
                        ),
                        forall|i: int|
                            0 <= i < out@.len() ==> sound_fuzzy(
                                (#[trigger] out@[i])@,
                                q@,
                                options.max_edit_distance as nat,
                                options.direct_only,
                                crate::store::opt_view(options.kind_filter),
                            ),
                    decreases items@.len() - k,
                {
                    let ghost keepf = |w: crate::store::CachedView| fuzzy_keep(w, q@, *options);
                    let ghost mapf = |w: crate::store::CachedView| fuzzy_scored(
                        w,
                        depv,
                        q@,
                        is_direct,
                    );
                    let item = &items[k];
                    proof {
                        assert(itemsv[k as int] == item@);
                    }
                    let ghost before = out@.map_values(|x: ScoredResult| x@);
                    let kind_fits = Self::kind_passes(item.kind.as_str(), &options.kind_filter);
                    let mut kept = false;
                    if kind_fits {
                        let sname = strutil::simple_name(item.path.as_str());
                        let low = strutil::lower(sname.as_str());
                        let ql = q.unicode_len();
                        let nl = low.as_str().unicode_len();
                        if nl < usize::MAX && ql < usize::MAX - nl {
                            let dist = levenshtein(q, low.as_str());
                            if dist <= options.max_edit_distance {
                                kept = true;
                                let score: u32 = if dist <= 3 {
                                    100 - 25 * (dist as u32)
                                } else {
                                    10
                                };
                                out.push(
                                    ScoredResult {
                                        crate_name: dep_name.clone(),
                                        crate_version: dep_version.clone(),
                                        path: item.path.clone(),
                                        kind: item.kind.clone(),
                                        signature: strutil::clone_opt_string(&item.signature),
                                        score,
                                        is_direct_dep: is_direct,
                                        match_type: MatchType::Fuzzy { distance: dist },
                                    },
                                );
                                proof {
                                    assert(out@.last()@ == mapf(itemsv[k as int]));
                                    assert(out@.map_values(|x: ScoredResult| x@) =~= before.push(
                                        mapf(itemsv[k as int]),
                                    ));
                                    assert(keepf(itemsv[k as int]));
                                }
                            } else {
                                proof {
                                    assert(!keepf(itemsv[k as int]));
                                }
                            }
                        } else {
                            proof {
                                assert(!keepf(itemsv[k as int]));
                            }
                        }
                    } else {
                        proof {
                            assert(!keepf(itemsv[k as int]));
                        }
                    }
                    proof {
                        broadcast use vstd::seq_lib::group_to_multiset_ensures;
                        broadcast use vstd::multiset::group_multiset_axioms;

                        reveal(Seq::filter);
                        let pre = itemsv.subrange(0, k + 1);
                        assert(pre.drop_last() =~= itemsv.subrange(0, k as int));
                        assert(pre.last() == itemsv[k as int]);
                        let fl = pre.filter(keepf);
                        let flp = itemsv.subrange(0, k as int).filter(keepf);
                        if kept {
                            assert(fl == flp.push(itemsv[k as int]));
                            assert(fl.map_values(mapf) =~= flp.map_values(mapf).push(
                                mapf(itemsv[k as int]),
                            ));
                            assert(out@.map_values(|x: ScoredResult| x@).to_multiset()
                                =~= before.push(mapf(itemsv[k as int])).to_multiset());
                            assert(out@.map_values(|x: ScoredResult| x@).to_multiset()
                                == base.add(fl.map_values(mapf).to_multiset()));
                        } else {
                            assert(fl == flp);
                            assert(out@.map_values(|x: ScoredResult| x@).to_multiset()
                                == base.add(fl.map_values(mapf).to_multiset()));
                        }
                    }
                    k += 1;
                }
                proof {
                    broadcast use vstd::seq_lib::group_to_multiset_ensures;
                    broadcast use vstd::multiset::group_multiset_axioms;

                    reveal(Seq::filter);
                    let keepf = |w: crate::store::CachedView| fuzzy_keep(w, q@, *options);
                    let mapf = |w: crate::store::CachedView| fuzzy_scored(w, depv, q@, is_direct);
                    assert(itemsv.subrange(0, itemsv.len() as int) =~= itemsv);
                    if store.find_pkg(depv.name@, depv.version@) < 0 {
                        assert(itemsv.len() == 0);
                        assert(itemsv.filter(keepf).map_values(mapf).to_multiset()
                            =~= Multiset::<ScoredView>::empty());
                        assert(dm =~= Multiset::<ScoredView>::empty());
                        assert(out@.map_values(|x: ScoredResult| x@).to_multiset() =~= base.add(
                            dm,
                        ));
                    } else {
                        let pid = store.pkg_id(depv.name@, depv.version@);
                        let rows = store.rows_of(pid).map_values(
                            |w: crate::store::RowView| crate::store::cached_of(w),
                        );
                        crate::store::lemma_filter_permutes(itemsv, rows, keepf);
                        crate::store::lemma_map_permutes(
                            itemsv.filter(keepf),
                            rows.filter(keepf),
                            mapf,
                        );
                        assert(out@.map_values(|x: ScoredResult| x@).to_multiset() == base.add(
                            dm,
                        ));
                    }
                }
            } else {
                proof {
                    broadcast use vstd::multiset::group_multiset_axioms;

                    assert(dm =~= Multiset::<ScoredView>::empty());
                    assert(out@.map_values(|x: ScoredResult| x@).to_multiset() =~= base.add(dm));
                }
            }
            proof {
                broadcast use vstd::multiset::group_multiset_axioms;

                assert(fuzzy_model(*self, *store, q@, *options, d as int) == dm.add(
                    fuzzy_model(*self, *store, q@, *options, d + 1),
                ));
                assert(base.add(dm).add(fuzzy_model(*self, *store, q@, *options, d + 1))
                    =~= base.add(fuzzy_model(*self, *store, q@, *options, d as int)));
            }
            d += 1;
        }
        proof {
            broadcast use vstd::multiset::group_multiset_axioms;

            assert(fuzzy_model(*self, *store, q@, *options, d as int)
                =~= Multiset::<ScoredView>::empty());
            assert(out@.map_values(|x: ScoredResult| x@).to_multiset().add(
                Multiset::<ScoredView>::empty(),
            ) =~= out@.map_values(|x: ScoredResult| x@).to_multiset());
        }
        out
    }
}

impl SearchEngine {
    /// Searches for symbols with scoring, fuzzy fallback, crate-cluster
    /// expansion and pagination. An empty query returns nothing at all; any
    /// other query returns a window of the ranked list drawn from exactly the
    /// primary model over the store, extended by the fuzzy model only when
    /// the primary hits number under five.
    pub fn search(
        &self,
        store: &crate::store::Store,
        query: &str,
        options: &SearchOptions,
    ) -> (r: SearchResponse)
        requires
            store.wf(),
        ensures
            r.pagination.offset == options.offset,
            r.pagination.limit == options.limit,
            query@.len() == 0 ==> r.results@.len() == 0 && r.pagination.total == 0
                && r.suggestions@.len() == 0 && r.related_crates@.len() == 0,
            query@.len() > 0 ==> search_post(
                *self,
                *store,
                strutil::to_lower(query@),
                *options,
                r.results@,
                r.pagination.total as int,
            ),
            r.pagination.total >= 3 ==> r.suggestions@.len() == 0,
            r.suggestions@.len() <= 5,
            forall|i: int|
                0 <= i < r.suggestions@.len() ==> suggestion_ok(
                    self.all_deps@,
                    (#[trigger] r.suggestions@[i])@,
                    strutil::to_lower(query@),
                ),
            forall|i: int|
                0 <= i < r.related_crates@.len() ==> related_ok(
                    #[trigger] r.related_crates@[i],
                    *store,
                    strutil::to_lower(query@),
                ),
            query@.len() > 0 && self.crate_query_spec(strutil::to_lower(query@)) ==> forall|j: int|
                0 <= j < self.all_deps@.len() && related_to(
                    #[trigger] self.all_deps@[j],
                    strutil::to_lower(query@),
                ) ==> exists|i: int|
                    0 <= i < r.related_crates@.len() && (#[trigger] r.related_crates@[i]).name@
                        == self.all_deps@[j].name@,
    {
        let qlen = query.unicode_len();
        if qlen == 0 {
            return SearchResponse {
                results: Vec::new(),
                pagination: Pagination { offset: options.offset, limit: options.limit, total: 0 },
                suggestions: Vec::new(),
                related_crates: Vec::new(),
            };
        }
        let qlow = strutil::lower(query);
        let is_cq = self.is_crate_query(qlow.as_str());
        let related = if is_cq {
            self.find_related_crates(store, qlow.as_str())
        } else {
            Vec::new()
        };
        proof {
            strutil::lemma_to_lower_idempotent(query@);
        }
        let primary = match &options.crate_filter {
            Some(f) => self.search_in_crate(store, f.as_str(), qlow.as_str(), options),
            None => self.search_all(store, qlow.as_str(), options),
        };
        let ghost primv = primary@.map_values(|x: ScoredResult| x@);
        proof {
            assert(primv.to_multiset() == primary_model(
                *self,
                *store,
                strutil::to_lower(query@),
                *options,
            ));
        }
        let prim_count = primary.len();
        let mut all = primary;
        let ghost mut fzv = Seq::<ScoredView>::empty();
        proof {
            assert(all@.map_values(|x: ScoredResult| x@) =~= primv + fzv);
        }
        if prim_count < 5 && options.fuzzy {
            // remember the keys the primary pipeline produced; on a key
            // collision the primary result keeps its place and score
            let mut keys: Vec<(String, String)> = Vec::new();
            let mut k: usize = 0;
            while k < all.len()
                invariant
                    all@.map_values(|x: ScoredResult| x@) == primv + fzv,
                    fzv == Seq::<ScoredView>::empty(),
                    k <= all@.len(),
                    keys@.len() == k,
                    forall|i: int|
                        0 <= i < k ==> (#[trigger] keys@[i]).0@ == primv[i].name
                            && keys@[i].1@ == primv[i].path,
                decreases all@.len() - k,
        {
                proof {
                    assert(all@[k as int]@ == primv[k as int]);
                }
                keys.push((all[k].crate_name.clone(), all[k].path.clone()));
                k += 1;
            }
            let fuzzy = self.fuzzy_search(store, qlow.as_str(), options);
            let ghost fuzzyv = fuzzy@.map_values(|x: ScoredResult| x@);
            let ghost mut done = Seq::<ScoredView>::empty();
            let mut f = fuzzy;
            proof {
                reveal(Seq::filter);
                assert(done + f@.map_values(|x: ScoredResult| x@) =~= fuzzyv);
                assert(fzv =~= done.filter(|x: ScoredView| !key_in(primv, x)));
            }
            while f.len() > 0
                invariant
                    prim_count < 5,
                    prim_count == primv.len(),
                    options.fuzzy,
                    keys@.len() == primv.len(),
                    forall|i: int|
                        0 <= i < keys@.len() ==> (#[trigger] keys@[i]).0@ == primv[i].name
                            && keys@[i].1@ == primv[i].path,
                    all@.map_values(|x: ScoredResult| x@) == primv + fzv,
                    done + f@.map_values(|x: ScoredResult| x@) == fuzzyv,
                    fzv == done.filter(|x: ScoredView| !key_in(primv, x)),
                    forall|i: int|
                        0 <= i < fzv.len() ==> sound_fuzzy(
                            #[trigger] fzv[i],
                            strutil::to_lower(query@),
                            options.max_edit_distance as nat,
                            options.direct_only,
                            crate::store::opt_view(options.kind_filter),
                        ),
                    forall|i: int|
                        0 <= i < f@.len() ==> sound_fuzzy(
                            (#[trigger] f@[i])@,
                            strutil::to_lower(query@),
                            options.max_edit_distance as nat,
                            options.direct_only,
                            crate::store::opt_view(options.kind_filter),
                        ),
                decreases f@.len(),
            {
                let ghost fbefore = f@.map_values(|x: ScoredResult| x@);
                let cand = f.remove(0);
                proof {
                    assert(cand@ == fbefore[0]);
                    assert(f@.map_values(|x: ScoredResult| x@) =~= fbefore.subrange(
                        1,
                        fbefore.len() as int,
                    ));
                    assert(done.push(cand@) + f@.map_values(|x: ScoredResult| x@) =~= fuzzyv);
                }
                let mut seen = false;
                let mut m: usize = 0;
                while m < keys.len()
                    invariant
                        keys@.len() == primv.len(),
                        forall|i: int|
                            0 <= i < keys@.len() ==> (#[trigger] keys@[i]).0@ == primv[i].name
                                && keys@[i].1@ == primv[i].path,
                        m <= keys@.len(),
                        seen == exists|j: int|
                            0 <= j < m && (#[trigger] primv[j]).name == cand.crate_name@
                                && primv[j].path == cand.path@,
                    decreases keys@.len() - m,
                {
                    if !seen && strutil::str_eq(keys[m].0.as_str(), cand.crate_name.as_str())
                        && strutil::str_eq(keys[m].1.as_str(), cand.path.as_str()) {
                        seen = true;
                        proof {
                            assert(primv[m as int].name == cand.crate_name@);
                            assert(primv[m as int].path == cand.path@);
                        }
                    }
                    m += 1;
                }
                proof {
                    assert(seen == key_in(primv, cand@));
                }
                let ghost done0 = done;
                proof {
                    done = done.push(cand@);
                }
                if !seen {
                    let ghost fzv0 = fzv;
                    let ghost allv0 = all@.map_values(|x: ScoredResult| x@);
                    proof {
                        fzv = fzv.push(cand@);
                    }
                    all.push(cand);
                    proof {
                        reveal(Seq::filter);
                        assert(all@.map_values(|x: ScoredResult| x@) =~= allv0.push(cand@));
                        assert(allv0.push(cand@) =~= primv + fzv0.push(cand@));
                        assert(all@.map_values(|x: ScoredResult| x@) == primv + fzv);
                        assert(done.drop_last() =~= done0);
                        assert(done.last() == cand@);
                        assert(done.filter(|x: ScoredView| !key_in(primv, x)) =~= done0.filter(
                            |x: ScoredView| !key_in(primv, x),
                        ).push(cand@));
                    }
                } else {
                    proof {
                        reveal(Seq::filter);
                        assert(done.drop_last() =~= done0);
                        assert(done.last() == cand@);
                        assert(done.filter(|x: ScoredView| !key_in(primv, x)) =~= done0.filter(
                            |x: ScoredView| !key_in(primv, x),
                        ));
                    }
                }
            }
            proof {
                assert(f@.map_values(|x: ScoredResult| x@) =~= Seq::<ScoredView>::empty());
                assert(done =~= fuzzyv);
                crate::store::lemma_filter_to_multiset(
                    fuzzyv,
                    |x: ScoredView| !key_in(primv, x),
                );
                assert(fzv.to_multiset() == fuzzy_model(
                    *self,
                    *store,
                    strutil::to_lower(query@),
                    *options,
                    0,
                ).filter(|x: ScoredView| !key_in(primv, x)));
            }
        }
        // rank the union
        let ghost unionv = all@.map_values(|x: ScoredResult| x@);
        let mut sorted: Vec<ScoredResult> = Vec::new();
        let mut rest = all;
        proof {
            vstd::seq_lib::lemma_multiset_commutative(
                sorted@.map_values(|x: ScoredResult| x@),
                rest@.map_values(|x: ScoredResult| x@),
            );
            assert(sorted@.map_values(|x: ScoredResult| x@) + rest@.map_values(
                |x: ScoredResult| x@,
            ) =~= unionv);
        }
        while rest.len() > 0
            invariant
                sorted@.map_values(|x: ScoredResult| x@).to_multiset().add(
                    rest@.map_values(|x: ScoredResult| x@).to_multiset(),
                ) == unionv.to_multiset(),
                vstd::relations::sorted_by(
                    sorted@.map_values(|x: ScoredResult| x@),
                    |a: ScoredView, b: ScoredView| rank_le(a, b),
                ),
            decreases rest@.len(),
        {
            let ghost restv = rest@.map_values(|x: ScoredResult| x@);
            let x = rest.pop().unwrap();
            proof {
                assert(rest@.map_values(|y: ScoredResult| y@) =~= restv.drop_last());
                restv.drop_last().to_multiset_ensures();
                assert(restv =~= restv.drop_last().push(x@));
                assert(restv.to_multiset() =~= restv.drop_last().to_multiset().insert(x@));
            }
            insert_ranked(&mut sorted, x);
            proof {
                broadcast use vstd::multiset::group_multiset_axioms;

            }
        }
        let total = sorted.len();
        let suggestions = if total < 3 {
            self.build_suggestions(qlow.as_str())
        } else {
            Vec::new()
        };
        let ghost fullv = sorted@.map_values(|x: ScoredResult| x@);
        proof {
            rest@.map_values(|x: ScoredResult| x@).to_multiset_ensures();
            assert(rest@.map_values(|x: ScoredResult| x@).to_multiset()
                =~= Multiset::<ScoredView>::empty());
            broadcast use vstd::multiset::group_multiset_axioms;

            assert(fullv.to_multiset() == unionv.to_multiset());
            vstd::seq_lib::lemma_multiset_commutative(primv, fzv);
            assert(unionv.to_multiset() == (primv + fzv).to_multiset());
        }
        let results = paginate(sorted, options.offset, options.limit);
        let ghost relatedv = related@;
        let response = SearchResponse {
            results,
            pagination: Pagination { offset: options.offset, limit: options.limit, total },
            suggestions,
            related_crates: related,
        };
        proof {
            assert(qlow@ == strutil::to_lower(query@));
            if is_cq {
                assert forall|j: int|
                    0 <= j < self.all_deps@.len() && related_to(
                        #[trigger] self.all_deps@[j],
                        strutil::to_lower(query@),
                    ) implies exists|i: int|
                    0 <= i < response.related_crates@.len() && (
                    #[trigger] response.related_crates@[i]).name@ == self.all_deps@[j].name@ by {
                    let w = choose|i: int|
                        0 <= i < relatedv.len() && (#[trigger] relatedv[i]).name@
                            == self.all_deps@[j].name@ && relatedv[i].version@
                            == self.all_deps@[j].version@;
                    assert(response.related_crates@[w].name@ == self.all_deps@[j].name@);
                }
            }
        }
        proof {
            let q = strutil::to_lower(query@);
            let rv = response.results@.map_values(|x: ScoredResult| x@);
            let opts = *options;
            broadcast use vstd::seq_lib::group_to_multiset_ensures;

            assert forall|i: int| 0 <= i < rv.len() implies sound_scored(
                #[trigger] rv[i],
                q,
                opts.direct_only,
                crate::store::opt_view(opts.kind_filter),
            ) || sound_fuzzy(
                rv[i],
                q,
                opts.max_edit_distance as nat,
                opts.direct_only,
                crate::store::opt_view(opts.kind_filter),
            ) by {
                let s = clip(opts.offset as int, fullv.len() as int);
                assert(rv[i] == fullv[s + i]);
                assert(fullv.contains(fullv[s + i]));
                assert(fullv.to_multiset().count(rv[i]) > 0);
                assert((primv + fzv).contains(rv[i]));
                let w = choose|w: int| 0 <= w < (primv + fzv).len() && (primv + fzv)[w] == rv[i];
                if w < primv.len() {
                    assert(primv[w] == rv[i]);
                } else {
                    assert(fzv[w - primv.len()] == rv[i]);
                }
            }
            assert(search_post(*self, *store, q, *options, response.results@, total as int)) by {
                assert(search_witness(
                    *self,
                    *store,
                    q,
                    *options,
                    response.results@,
                    total as int,
                    fullv,
                    primv,
                    fzv,
                ));
            }
        }
        response
    }

    /// Describes one crate of the closure: its version and root, how many
    /// items the store holds for it under that version, whether its root file
    /// reads as a re-export umbrella, whether it is a direct dependency, and
    /// its related crates — every dependency equal to the name or extending
    /// it, the crate itself first, the rest by falling item count. The caller
    /// hands in the root file's text when it could be read. A name outside
    /// the closure is an error.
    pub fn get_crate_info(
        &self,
        store: &crate::store::Store,
        crate_name: &str,
        root_source: Option<&str>,
    ) -> (r: Result<CrateInfo, String>)
        requires
            store.wf(),
        ensures
            match r {
                Ok(info) => {
                    &&& info.name@ == crate_name@
                    &&& exists|j: int|
                        0 <= j < self.all_deps@.len() && (#[trigger] self.all_deps@[j]).name@
                            == crate_name@ && self.all_deps@[j].version@ == info.version@
                            && self.all_deps@[j].path@ == info.path@
                    &&& info.item_count as int == pkg_item_count(*store, crate_name@, info.version@)
                    &&& info.is_reexport == match root_source {
                        Some(src) => is_reexport_spec(src@),
                        None => false,
                    }
                    &&& info.is_direct_dep == crate::deps::name_in(self.direct_deps@, crate_name@)
                    &&& info.related_crates@.len() == related_count(
                        self.all_deps@,
                        crate_name@,
                        self.all_deps@.len() as int,
                    )
                    &&& forall|i: int|
                        0 <= i < info.related_crates@.len() ==> related_ok(
                            #[trigger] info.related_crates@[i],
                            *store,
                            crate_name@,
                        )
                    &&& forall|i: int, j: int|
                        0 <= i < j < info.related_crates@.len() ==> !rel_lt(
                            info.related_crates@[j],
                            info.related_crates@[i],
                        )
                },
                Err(_) => forall|j: int|
                    0 <= j < self.all_deps@.len() ==> (#[trigger] self.all_deps@[j]).name@
                        != crate_name@,
            },
    {
        proof {
            reveal_strlit("Crate '");
            reveal_strlit("' not found");
        }
        let mut d: usize = 0;
        let mut hit: Option<usize> = None;
        while d < self.all_deps.len()
            invariant
                d <= self.all_deps@.len(),
                match hit {
                    Some(h) => h < self.all_deps@.len() && self.all_deps@[h as int].name@
                        == crate_name@,
                    None => forall|j: int|
                        0 <= j < d ==> (#[trigger] self.all_deps@[j]).name@ != crate_name@,
                },
            decreases self.all_deps@.len() - d,
        {
            if hit.is_none() && strutil::str_eq(self.all_deps[d].name.as_str(), crate_name) {
                hit = Some(d);
            }
            d += 1;
        }
        let h = match hit {
            Some(h) => h,
            None => {
                let mut msg = "Crate '".to_owned();
                msg.append(crate_name);
                msg.append("' not found");
                return Err(msg);
            },
        };
        let dep_version = self.all_deps[h].version.clone();
        let dep_path = self.all_deps[h].path.clone();
        let is_reexport = match root_source {
            Some(src) => is_reexport_source(src),
            None => false,
        };
        let items = store.search_crate(crate_name, Some(dep_version.as_str()));
        proof {
            broadcast use vstd::seq_lib::group_to_multiset_ensures;

            if store.find_pkg(crate_name@, dep_version@) >= 0 {
                let pid = store.pkg_id(crate_name@, dep_version@);
                assert(items@.map_values(|c: crate::store::CachedItem| c@).to_multiset().len()
                    == store.rows_of(pid).map_values(
                    |w: crate::store::RowView| crate::store::cached_of(w),
                ).to_multiset().len());
            }
        }
        let related = self.find_related_crates(store, crate_name);
        let is_direct = self.is_direct(crate_name);
        Ok(
            CrateInfo {
                name: crate_name.to_owned(),
                version: dep_version,
                path: dep_path,
                item_count: items.len(),
                is_reexport,
                is_direct_dep: is_direct,
                related_crates: related,
            },
        )
    }
}


/// The witness of a completed peek: `full` is the crate's whole item list —
/// exactly the rows the store holds for the chosen version, those the kind
/// filter admits, in path order — and the returned page is the requested
/// window of it.
pub open spec fn peek_witness(
    store: crate::store::Store,
    cname: Seq<char>,
    ver: Option<Seq<char>>,
    limit: int,
    offset: int,
    kind: Option<Seq<char>>,
    page: Seq<crate::store::CachedItem>,
    total: int,
    full: Seq<crate::store::CachedView>,
) -> bool {
    let vsel = match ver {
        Some(v) => Some(v),
        None => crate::store::latest_ver_from(store.pkgs(), cname, 0),
    };
    &&& match vsel {
        None => full.len() == 0,
        Some(vv) => if store.find_pkg(cname, vv) < 0 {
            full.len() == 0
        } else {
            full.to_multiset() == store.rows_of(store.pkg_id(cname, vv)).map_values(
                |w: crate::store::RowView| crate::store::cached_of(w),
            ).filter(|w: crate::store::CachedView| kind_ok(w.kind, kind)).to_multiset()
        },
    }
    &&& vstd::relations::sorted_by(
        full,
        |a: crate::store::CachedView, b: crate::store::CachedView| !strutil::lex_lt(
            b.path,
            a.path,
        ),
    )
    &&& total == full.len()
    &&& page.map_values(|c: crate::store::CachedItem| c@) == full.subrange(
        clip(offset, full.len() as int),
        clip(offset + limit, full.len() as int),
    )
}

/// A completed peek has a witness.
pub open spec fn peek_post(
    store: crate::store::Store,
    cname: Seq<char>,
    ver: Option<Seq<char>>,
    limit: int,
    offset: int,
    kind: Option<Seq<char>>,
    page: Seq<crate::store::CachedItem>,
    total: int,
) -> bool {
    exists|full: Seq<crate::store::CachedView>|
        #[trigger] peek_witness(store, cname, ver, limit, offset, kind, page, total, full)
}

/// Copies a returned item.
fn clone_cached(c: &crate::store::CachedItem) -> (r: crate::store::CachedItem)
    ensures
        r == *c,
{
    crate::store::CachedItem {
        path: c.path.clone(),
        kind: c.kind.clone(),
        signature: strutil::clone_opt_string(&c.signature),
        doc: strutil::clone_opt_string(&c.doc),
        visibility: c.visibility.clone(),
    }
}

/// Peeks at a crate's API surface: the items of the requested version — or
/// the newest indexed one — that the kind filter admits, in path order,
/// windowed by offset and limit, with the full count alongside.
pub fn peek(
    store: &crate::store::Store,
    crate_name: &str,
    crate_version: Option<&str>,
    limit: usize,
    offset: usize,
    kind: Option<&str>,
) -> (r: (Vec<crate::store::CachedItem>, usize))
    requires
        store.wf(),
    ensures
        peek_post(
            *store,
            crate_name@,
            match crate_version {
                Some(v) => Some(v@),
                None => None,
            },
            limit as int,
            offset as int,
            match kind {
                Some(k) => Some(k@),
                None => None,
            },
            r.0@,
            r.1 as int,
        ),
{
    let ghost kv = match kind {
        Some(k) => Some(k@),
        None => None,
    };
    let items = store.search_crate(crate_name, crate_version);
    let ghost itemsv = items@.map_values(|c: crate::store::CachedItem| c@);
    let mut kept: Vec<crate::store::CachedItem> = Vec::new();
    let mut k: usize = 0;
    proof {
        reveal(Seq::filter);
        assert(kept@.map_values(|c: crate::store::CachedItem| c@) =~= itemsv.subrange(
            0,
            0,
        ).filter(|w: crate::store::CachedView| kind_ok(w.kind, kv)));
    }
    while k < items.len()
        invariant
            kv == match kind {
                Some(kk) => Some(kk@),
                None => None,
            },
            itemsv == items@.map_values(|c: crate::store::CachedItem| c@),
            k <= items@.len(),
            kept@.map_values(|c: crate::store::CachedItem| c@) == itemsv.subrange(
                0,
                k as int,
            ).filter(|w: crate::store::CachedView| kind_ok(w.kind, kv)),
        decreases items@.len() - k,
    {
        proof {
            assert(itemsv[k as int] == items@[k as int]@);
        }
        let admits = match kind {
            Some(kf) => {
                let a = strutil::lower(items[k].kind.as_str());
                let b = strutil::lower(kf);
                strutil::str_eq(a.as_str(), b.as_str())
            },
            None => true,
        };
        let ghost before = kept@.map_values(|c: crate::store::CachedItem| c@);
        if admits {
            let c = clone_cached(&items[k]);
            kept.push(c);
            proof {
                assert(kept@.map_values(|x: crate::store::CachedItem| x@) =~= before.push(
                    itemsv[k as int],
                ));
            }
        }
        proof {
            reveal(Seq::filter);
            let pre = itemsv.subrange(0, k + 1);
            assert(pre.drop_last() =~= itemsv.subrange(0, k as int));
            assert(pre.last() == itemsv[k as int]);
            assert(admits == kind_ok(itemsv[k as int].kind, kv));
            if admits {
                assert(pre.filter(|w: crate::store::CachedView| kind_ok(w.kind, kv))
                    == itemsv.subrange(0, k as int).filter(
                    |w: crate::store::CachedView| kind_ok(w.kind, kv),
                ).push(itemsv[k as int]));
            } else {
                assert(pre.filter(|w: crate::store::CachedView| kind_ok(w.kind, kv))
                    == itemsv.subrange(0, k as int).filter(
                    |w: crate::store::CachedView| kind_ok(w.kind, kv),
                ));
            }
        }
        k += 1;
    }
    let total = kept.len();
    let ghost fullv = kept@.map_values(|c: crate::store::CachedItem| c@);
    proof {
        assert(itemsv.subrange(0, itemsv.len() as int) =~= itemsv);
        let pred = |w: crate::store::CachedView| kind_ok(w.kind, kv);
        let leq = |a: crate::store::CachedView, b: crate::store::CachedView| !strutil::lex_lt(
            b.path,
            a.path,
        );
        let vsel = match crate_version {
            Some(v) => Some(v@),
            None => crate::store::latest_ver_from(store.pkgs(), crate_name@, 0),
        };
        match vsel {
            None => {
                assert(fullv.len() == 0);
            },
            Some(vv) => {
                if store.find_pkg(crate_name@, vv) < 0 {
                    assert(fullv.len() == 0);
                } else {
                    let rows = store.rows_of(store.pkg_id(crate_name@, vv)).map_values(
                        |w: crate::store::RowView| crate::store::cached_of(w),
                    );
                    crate::store::lemma_filter_permutes(itemsv, rows, pred);
                }
            },
        }
        crate::store::lemma_filter_sorted(itemsv, pred, leq);
    }
    // take the requested window
    let mut page: Vec<crate::store::CachedItem> = Vec::new();
    let mut t: usize = 0;
    let start = if offset <= total {
        offset
    } else {
        total
    };
    while t < limit && start + t < total
        invariant
            total == kept@.len(),
            fullv == kept@.map_values(|c: crate::store::CachedItem| c@),
            start == clip(offset as int, fullv.len() as int),
            t <= limit,
            start + t <= total,
            page@.map_values(|c: crate::store::CachedItem| c@) == fullv.subrange(
                start as int,
                start + t,
            ),
        decreases limit - t,
    {
        let ghost before = page@.map_values(|c: crate::store::CachedItem| c@);
        let c = clone_cached(&kept[start + t]);
        page.push(c);
        proof {
            assert(page@.map_values(|x: crate::store::CachedItem| x@) =~= before.push(
                fullv[start + t],
            ));
            assert(page@.map_values(|x: crate::store::CachedItem| x@) =~= fullv.subrange(
                start as int,
                start + t + 1,
            ));
        }
        t += 1;
    }
    proof {
        assert(page@.map_values(|c: crate::store::CachedItem| c@) =~= fullv.subrange(
            clip(offset as int, fullv.len() as int),
            clip(offset + limit, fullv.len() as int),
        ));
        let kv2 = match kind {
            Some(kk) => Some(kk@),
            None => None,
        };
        let vv2 = match crate_version {
            Some(v) => Some(v@),
            None => None,
        };
        assert(peek_witness(
            *store,
            crate_name@,
            vv2,
            limit as int,
            offset as int,
            kv2,
            page@,
            total as int,
            fullv,
        ));
        assert(peek_post(
            *store,
            crate_name@,
            vv2,
            limit as int,
            offset as int,
            kv2,
            page@,
            total as int,
        ));
    }
    (page, total)
}

/// Scores an item path against a case-folded query.
pub fn score_path(path: &str, q: &str) -> (r: (u32, MatchType))
    ensures
        r.0 as int == score_of(path@, q@),
        r.1 == match_of(path@, q@),
{
    let p = strutil::lower(path);
    let sname = strutil::simple_name(p.as_str());
    if strutil::str_eq(sname.as_str(), q) {
        return (100, MatchType::Exact);
    }
    if strutil::starts_with(sname.as_str(), q) {
        let excess = sname.as_str().unicode_len() - q.unicode_len();
        let capped: u32 = if excess <= 20 {
            excess as u32
        } else {
            20
        };
        return (80 - capped, MatchType::Prefix);
    }
    if strutil::contains(sname.as_str(), q) {
        return (50, MatchType::Contains);
    }
    if strutil::contains(p.as_str(), q) {
        return (30, MatchType::Contains);
    }
    (0, MatchType::Contains)
}

} // verus!
