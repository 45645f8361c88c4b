//! The persistent symbol store, modeled row for row: a package table, an item
//! table, and the full-text shadow table that mirrors item paths. The store's
//! invariants — unique package keys, unique `(package, path)` item keys, item
//! rows always referencing a package, and the shadow table in lock-step with
//! the item table — are stated here and preserved by every operation.

use vstd::prelude::*;
use crate::schema::Item;
use crate::strutil;
use crate::version;

verus! {

/// The schema version the store writes into its metadata.
pub const SCHEMA_VERSION: u64 = 2;

/// A package row.
pub struct PackageRow {
    pub id: u64,
    pub name: String,
    pub version: String,
    pub root_path: String,
    pub indexed_at: u64,
}

/// An item row.
pub struct ItemRow {
    pub id: u64,
    pub package_id: u64,
    pub path: String,
    pub kind: String,
    pub signature: Option<String>,
    pub doc: Option<String>,
    pub visibility: String,
}

/// A row of the full-text shadow table: the item row id and its path.
pub struct FtsRow {
    pub rowid: u64,
    pub path: String,
}

/// The abstract value of a package row.
pub ghost struct PkgView {
    pub id: u64,
    pub name: Seq<char>,
    pub version: Seq<char>,
    pub root_path: Seq<char>,
    pub indexed_at: u64,
}

/// The abstract value of an item row, without its row id.
pub ghost struct RowView {
    pub pid: u64,
    pub path: Seq<char>,
    pub kind: Seq<char>,
    pub signature: Option<Seq<char>>,
    pub doc: Option<Seq<char>>,
    pub visibility: Seq<char>,
}

impl View for PackageRow {
    type V = PkgView;

    open spec fn view(&self) -> PkgView {
        PkgView {
            id: self.id,
            name: self.name@,
            version: self.version@,
            root_path: self.root_path@,
            indexed_at: self.indexed_at,
        }
    }
}

impl View for ItemRow {
    type V = RowView;

    open spec fn view(&self) -> RowView {
        RowView {
            pid: self.package_id,
            path: self.path@,
            kind: self.kind@,
            signature: match self.signature {
                Some(s) => Some(s@),
                None => None,
            },
            doc: match self.doc {
                Some(s) => Some(s@),
                None => None,
            },
            visibility: self.visibility@,
        }
    }
}

/// The store: package and item tables plus the full-text shadow table.
pub struct Store {
    pub packages: Vec<PackageRow>,
    pub items: Vec<ItemRow>,
    pub fts: Vec<FtsRow>,
    pub next_id: u64,
    pub schema_version: u64,
}

impl Store {
    /// The abstract package table.
    pub open spec fn pkgs(self) -> Seq<PkgView> {
        self.packages@.map_values(|p: PackageRow| p@)
    }

    /// The abstract item table.
    pub open spec fn rows(self) -> Seq<RowView> {
        self.items@.map_values(|r: ItemRow| r@)
    }

    /// Package keys `(name, version)` are unique and ids are unique and fresh.
    pub open spec fn pkgs_wf(self) -> bool {
        &&& forall|i: int, j: int|
            0 <= i < j < self.pkgs().len() ==> !(self.pkgs()[i].name == self.pkgs()[j].name
                && self.pkgs()[i].version == self.pkgs()[j].version)
        &&& forall|i: int, j: int|
            0 <= i < j < self.pkgs().len() ==> self.pkgs()[i].id != self.pkgs()[j].id
        &&& forall|i: int| 0 <= i < self.pkgs().len() ==> self.pkgs()[i].id < self.next_id
    }

    /// Some package row has id `pid`.
    pub open spec fn has_pkg_id(self, pid: u64) -> bool {
        exists|k: int| 0 <= k < self.pkgs().len() && self.pkgs()[k].id == pid
    }

    /// Every item row has a non-empty path, references an existing package,
    /// and `(package, path)` keys are unique; row ids are unique and fresh.
    pub open spec fn items_wf(self) -> bool {
        &&& forall|i: int|
            0 <= i < self.rows().len() ==> (#[trigger] self.rows()[i]).path.len() > 0
        &&& forall|i: int| 0 <= i < self.rows().len() ==> self.has_pkg_id(self.rows()[i].pid)
        &&& forall|i: int, j: int|
            0 <= i < j < self.rows().len() ==> !(self.rows()[i].pid == self.rows()[j].pid
                && self.rows()[i].path == self.rows()[j].path)
        &&& forall|i: int, j: int|
            0 <= i < j < self.items@.len() ==> self.items@[i].id != self.items@[j].id
        &&& forall|i: int| 0 <= i < self.items@.len() ==> (#[trigger] self.items@[i]).id
            < self.next_id
    }

    /// The full-text shadow table mirrors the item table row for row.
    pub open spec fn fts_wf(self) -> bool {
        &&& self.fts@.len() == self.items@.len()
        &&& forall|i: int|
            0 <= i < self.fts@.len() ==> (#[trigger] self.fts@[i]).rowid == self.items@[i].id
                && self.fts@[i].path@ == self.items@[i].path@
    }

    /// The store invariant.
    pub open spec fn wf(self) -> bool {
        self.pkgs_wf() && self.items_wf() && self.fts_wf()
    }

    /// A freshly initialized store: empty tables at the current schema.
    pub fn new() -> (r: Store)
        ensures
            r.wf(),
            r.pkgs().len() == 0,
            r.rows().len() == 0,
            r.next_id == 1,
            r.schema_version == SCHEMA_VERSION,
    {
        Store {
            packages: Vec::new(),
            items: Vec::new(),
            fts: Vec::new(),
            next_id: 1,
            schema_version: SCHEMA_VERSION,
        }
    }

    /// Empties the item and package tables; the schema remains.
    pub fn clear(&mut self)
        requires
            old(self).wf(),
        ensures
            final(self).wf(),
            final(self).pkgs().len() == 0,
            final(self).rows().len() == 0,
            final(self).schema_version == old(self).schema_version,
    {
        self.packages = Vec::new();
        self.items = Vec::new();
        self.fts = Vec::new();
    }

    /// The index of the package row keyed `(name, version)` at or after `k`,
    /// or -1.
    pub open spec fn find_pkg_from(self, name: Seq<char>, ver: Seq<char>, k: int) -> int
        decreases self.pkgs().len() - k,
    {
        if k < 0 || k >= self.pkgs().len() {
            -1
        } else if self.pkgs()[k].name == name && self.pkgs()[k].version == ver {
            k
        } else {
            self.find_pkg_from(name, ver, k + 1)
        }
    }

    /// The index of the package row keyed `(name, version)`, or -1.
    pub open spec fn find_pkg(self, name: Seq<char>, ver: Seq<char>) -> int {
        self.find_pkg_from(name, ver, 0)
    }

    /// The store holds a package keyed `(name, version)`.
    pub open spec fn is_indexed_spec(self, name: Seq<char>, ver: Seq<char>) -> bool {
        self.find_pkg(name, ver) >= 0
    }

    proof fn lemma_find_pkg_in_range(self, name: Seq<char>, ver: Seq<char>, k: int)
        requires
            0 <= k,
        ensures
            self.find_pkg_from(name, ver, k) == -1 || (k <= self.find_pkg_from(name, ver, k)
                < self.pkgs().len() && self.pkgs()[self.find_pkg_from(name, ver, k)].name == name
                && self.pkgs()[self.find_pkg_from(name, ver, k)].version == ver),
        decreases self.pkgs().len() - k,
    {
        if k < self.pkgs().len() {
            self.lemma_find_pkg_in_range(name, ver, k + 1);
        }
    }

    /// Distinct package keys of a well-formed store carry distinct ids.
    pub proof fn lemma_pkg_ids_distinct(
        self,
        n1: Seq<char>,
        v1: Seq<char>,
        n2: Seq<char>,
        v2: Seq<char>,
    )
        requires
            self.wf(),
            self.is_indexed_spec(n1, v1),
            self.is_indexed_spec(n2, v2),
            !(n1 == n2 && v1 == v2),
        ensures
            self.pkg_id(n1, v1) != self.pkg_id(n2, v2),
    {
        self.lemma_find_pkg_in_range(n1, v1, 0);
        self.lemma_find_pkg_in_range(n2, v2, 0);
        let f1 = self.find_pkg(n1, v1);
        let f2 = self.find_pkg(n2, v2);
        assert(f1 != f2);
        if f1 < f2 {
            assert(self.pkgs()[f1].id != self.pkgs()[f2].id);
        } else {
            assert(self.pkgs()[f2].id != self.pkgs()[f1].id);
        }
    }

    /// Locates the package row keyed `(name, version)`.
    fn find_pkg_exec(&self, name: &str, ver: &str) -> (r: Option<usize>)
        ensures
            match r {
                Some(k) => self.find_pkg(name@, ver@) == k as int && k < self.packages@.len(),
                None => self.find_pkg(name@, ver@) == -1,
            },
    {
        let mut k: usize = 0;
        while k < self.packages.len()
            invariant
                k <= self.packages@.len(),
                self.find_pkg(name@, ver@) == self.find_pkg_from(name@, ver@, k as int),
            decreases self.packages@.len() - k,
        {
            proof {
                assert(self.pkgs()[k as int] == self.packages@[k as int]@);
            }
            if strutil::str_eq(self.packages[k].name.as_str(), name) && strutil::str_eq(
                self.packages[k].version.as_str(),
                ver,
            ) {
                return Some(k);
            }
            k += 1;
        }
        None
    }

    /// Whether the package `(name, version)` is already indexed.
    pub fn is_indexed(&self, name: &str, ver: &str) -> (r: bool)
        ensures
            r == self.is_indexed_spec(name@, ver@),
    {
        proof {
            self.lemma_find_pkg_in_range(name@, ver@, 0);
        }
        match self.find_pkg_exec(name, ver) {
            Some(_) => true,
            None => false,
        }
    }

    /// The `name@version` keys of all indexed packages, in table order.
    pub fn get_indexed_set(&self) -> (r: Vec<String>)
        ensures
            r@.len() == self.pkgs().len(),
            forall|k: int|
                0 <= k < r@.len() ==> (#[trigger] r@[k])@ == self.pkgs()[k].name + "@"@
                    + self.pkgs()[k].version,
    {
        let mut out: Vec<String> = Vec::new();
        let mut k: usize = 0;
        while k < self.packages.len()
            invariant
                k <= self.packages@.len(),
                out@.len() == k,
                forall|j: int|
                    0 <= j < k ==> (#[trigger] out@[j])@ == self.pkgs()[j].name + "@"@
                        + self.pkgs()[j].version,
            decreases self.packages@.len() - k,
        {
            let mut s = self.packages[k].name.clone();
            s.append("@");
            s.append(self.packages[k].version.as_str());
            proof {
                assert(self.pkgs()[k as int] == self.packages@[k as int]@);
            }
            out.push(s);
            k += 1;
        }
        out
    }

    /// All indexed `(name, version)` pairs, sorted by name then version text.
    pub fn list_indexed(&self) -> (r: Vec<(String, String)>)
        ensures
            r@.map_values(|p: (String, String)| (p.0@, p.1@)).to_multiset()
                == self.pkgs().map_values(|p: PkgView| (p.name, p.version)).to_multiset(),
            vstd::relations::sorted_by(
                r@.map_values(|p: (String, String)| (p.0@, p.1@)),
                |a: (Seq<char>, Seq<char>), b: (Seq<char>, Seq<char>)| pair_le(a, b),
            ),
    {
        let mut out: Vec<(String, String)> = Vec::new();
        let mut k: usize = 0;
        proof {
            assert(out@.map_values(|p: (String, String)| (p.0@, p.1@)) =~= self.pkgs().subrange(
                0,
                0,
            ).map_values(|p: PkgView| (p.name, p.version)));
        }
        while k < self.packages.len()
            invariant
                k <= self.packages@.len(),
                out@.map_values(|p: (String, String)| (p.0@, p.1@)).to_multiset()
                    == self.pkgs().subrange(0, k as int).map_values(
                    |p: PkgView| (p.name, p.version),
                ).to_multiset(),
                vstd::relations::sorted_by(
                    out@.map_values(|p: (String, String)| (p.0@, p.1@)),
                    |a: (Seq<char>, Seq<char>), b: (Seq<char>, Seq<char>)| pair_le(a, b),
                ),
            decreases self.packages@.len() - k,
        {
            proof {
                assert(self.pkgs()[k as int] == self.packages@[k as int]@);
            }
            let name = self.packages[k].name.clone();
            let ver = self.packages[k].version.clone();
            insert_pair_sorted(&mut out, name, ver);
            proof {
                let head = self.pkgs().subrange(0, k as int).map_values(
                    |p: PkgView| (p.name, p.version),
                );
                let full = self.pkgs().subrange(0, k + 1).map_values(
                    |p: PkgView| (p.name, p.version),
                );
                let kth = self.pkgs()[k as int];
                assert(full =~= head.push((kth.name, kth.version)));
                full.to_multiset_ensures();
                head.to_multiset_ensures();
            }
            k += 1;
        }
        proof {
            assert(self.pkgs().subrange(0, self.pkgs().len() as int) =~= self.pkgs());
        }
        out
    }

    /// Counts of packages and items.
    pub fn stats(&self) -> (r: (usize, usize))
        ensures
            r.0 == self.pkgs().len(),
            r.1 == self.rows().len(),
    {
        (self.packages.len(), self.items.len())
    }
}

/// An item row as a per-package query returns it.
pub struct CachedItem {
    pub path: String,
    pub kind: String,
    pub signature: Option<String>,
    pub doc: Option<String>,
    pub visibility: String,
}

/// The abstract value of a returned item.
pub ghost struct CachedView {
    pub path: Seq<char>,
    pub kind: Seq<char>,
    pub signature: Option<Seq<char>>,
    pub doc: Option<Seq<char>>,
    pub visibility: Seq<char>,
}

impl View for CachedItem {
    type V = CachedView;

    open spec fn view(&self) -> CachedView {
        CachedView {
            path: self.path@,
            kind: self.kind@,
            signature: opt_view(self.signature),
            doc: opt_view(self.doc),
            visibility: self.visibility@,
        }
    }
}

/// The projection of a stored row to a returned item.
pub open spec fn cached_of(r: RowView) -> CachedView {
    CachedView {
        path: r.path,
        kind: r.kind,
        signature: r.signature,
        doc: r.doc,
        visibility: r.visibility,
    }
}

/// A full-text hit joined with its package row.
pub struct SearchResult {
    pub crate_name: String,
    pub crate_version: String,
    pub path: String,
    pub kind: String,
    pub signature: Option<String>,
}

/// The abstract value of a full-text hit.
pub ghost struct SrView {
    pub name: Seq<char>,
    pub version: Seq<char>,
    pub path: Seq<char>,
    pub kind: Seq<char>,
    pub signature: Option<Seq<char>>,
}

impl View for SearchResult {
    type V = SrView;

    open spec fn view(&self) -> SrView {
        SrView {
            name: self.crate_name@,
            version: self.crate_version@,
            path: self.path@,
            kind: self.kind@,
            signature: opt_view(self.signature),
        }
    }
}

/// The full-text match relation over an already case-folded query: at least
/// three characters that occur inside the case-folded item path. A shorter
/// query yields no trigram and matches nothing.
pub open spec fn fts_match(q: Seq<char>, path: Seq<char>) -> bool {
    q.len() >= 3 && strutil::contains_seq(strutil::to_lower(path), q)
}

/// The first position in `ps` of the package row with id `pid`, or -1.
pub open spec fn find_pid_idx(ps: Seq<PkgView>, pid: u64, k: int) -> int
    decreases ps.len() - k,
{
    if k < 0 || k >= ps.len() {
        -1
    } else if ps[k].id == pid {
        k
    } else {
        find_pid_idx(ps, pid, k + 1)
    }
}

/// The newest version, by numeric components, under which `name` is indexed
/// at or after row `k`; an earlier row wins a tie.
pub open spec fn latest_ver_from(ps: Seq<PkgView>, name: Seq<char>, k: int) -> Option<Seq<char>>
    decreases ps.len() - k,
{
    if k < 0 || k >= ps.len() {
        None
    } else {
        let rest = latest_ver_from(ps, name, k + 1);
        if ps[k].name != name {
            rest
        } else {
            match rest {
                None => Some(ps[k].version),
                Some(v) => if version::key_lt(
                    version::version_key(ps[k].version),
                    version::version_key(v),
                ) {
                    Some(v)
                } else {
                    Some(ps[k].version)
                },
            }
        }
    }
}

/// Strict order of full-text hits: package name, then version text, then
/// item path.
pub open spec fn sr_lt(a: SrView, b: SrView) -> bool {
    strutil::lex_lt(a.name, b.name) || (a.name == b.name && (strutil::lex_lt(a.version, b.version)
        || (a.version == b.version && strutil::lex_lt(a.path, b.path))))
}

/// The matching non-strict order.
pub open spec fn sr_le(a: SrView, b: SrView) -> bool {
    !sr_lt(b, a)
}

/// The hit order never holds both ways, is transitive, and whatever is below
/// one value is below everything not below it.
pub proof fn lemma_sr_props()
    ensures
        forall|a: SrView, b: SrView| !(#[trigger] sr_lt(a, b) && sr_lt(b, a)),
        forall|a: SrView, b: SrView, c: SrView|
            #[trigger] sr_lt(a, b) && #[trigger] sr_lt(b, c) ==> sr_lt(a, c),
        forall|a: SrView, b: SrView, c: SrView|
            #[trigger] sr_lt(a, b) && !(#[trigger] sr_lt(c, b)) ==> sr_lt(a, c),
{
    assert forall|a: SrView, b: SrView| !(#[trigger] sr_lt(a, b) && sr_lt(b, a)) by {
        strutil::lemma_lex_asym(a.name, b.name);
        strutil::lemma_lex_asym(a.version, b.version);
        strutil::lemma_lex_asym(a.path, b.path);
    }
    assert forall|a: SrView, b: SrView, c: SrView|
        #[trigger] sr_lt(a, b) && #[trigger] sr_lt(b, c) implies sr_lt(a, c) by {
        lemma_sr_trans(a, b, c);
    }
    assert forall|a: SrView, b: SrView, c: SrView|
        #[trigger] sr_lt(a, b) && !(#[trigger] sr_lt(c, b)) implies sr_lt(a, c) by {
        lemma_sr_below(a, b, c);
    }
}

proof fn lemma_sr_trans(a: SrView, b: SrView, c: SrView)
    requires
        sr_lt(a, b),
        sr_lt(b, c),
    ensures
        sr_lt(a, c),
{
    strutil::lemma_lex_asym(a.name, b.name);
    strutil::lemma_lex_asym(b.name, c.name);
    strutil::lemma_lex_asym(a.version, b.version);
    strutil::lemma_lex_asym(b.version, c.version);
    if strutil::lex_lt(a.name, b.name) && strutil::lex_lt(b.name, c.name) {
        strutil::lemma_lex_trans(a.name, b.name, c.name);
    } else if a.name == b.name && b.name == c.name {
        if strutil::lex_lt(a.version, b.version) && strutil::lex_lt(b.version, c.version) {
            strutil::lemma_lex_trans(a.version, b.version, c.version);
        } else if a.version == b.version && b.version == c.version {
            strutil::lemma_lex_trans(a.path, b.path, c.path);
        }
    }
}

proof fn lemma_sr_below(a: SrView, b: SrView, c: SrView)
    requires
        sr_lt(a, b),
        !sr_lt(c, b),
    ensures
        sr_lt(a, c),
{
    strutil::lemma_lex_connected(b.name, c.name);
    strutil::lemma_lex_asym(b.name, c.name);
    strutil::lemma_lex_connected(b.version, c.version);
    strutil::lemma_lex_asym(b.version, c.version);
    strutil::lemma_lex_connected(b.path, c.path);
    strutil::lemma_lex_asym(b.path, c.path);
    if sr_lt(b, c) {
        lemma_sr_trans(a, b, c);
    } else {
        // b and c agree on every ordering key
        assert(b.name == c.name && b.version == c.version && b.path == c.path);
    }
}

impl Store {
    /// The package row with id `pid`; meaningful when some row has it.
    pub open spec fn pkg_by_id(self, pid: u64) -> PkgView {
        self.pkgs()[find_pid_idx(self.pkgs(), pid, 0)]
    }

    /// The full-text hit a stored row produces.
    pub open spec fn sr_view_of(self, r: RowView) -> SrView {
        SrView {
            name: self.pkg_by_id(r.pid).name,
            version: self.pkg_by_id(r.pid).version,
            path: r.path,
            kind: r.kind,
            signature: r.signature,
        }
    }

    proof fn lemma_find_pid_in_range(self, pid: u64, k: int)
        requires
            0 <= k,
        ensures
            find_pid_idx(self.pkgs(), pid, k) == -1 || (k <= find_pid_idx(self.pkgs(), pid, k)
                < self.pkgs().len() && self.pkgs()[find_pid_idx(self.pkgs(), pid, k)].id == pid),
        decreases self.pkgs().len() - k,
    {
        if k < self.pkgs().len() {
            self.lemma_find_pid_in_range(pid, k + 1);
        }
    }

    /// Locates the package row with id `pid`.
    fn find_pid_exec(&self, pid: u64) -> (r: usize)
        requires
            self.has_pkg_id(pid),
        ensures
            r < self.packages@.len(),
            find_pid_idx(self.pkgs(), pid, 0) == r as int,
            self.pkgs()[r as int].id == pid,
    {
        let mut k: usize = 0;
        while k < self.packages.len()
            invariant
                self.has_pkg_id(pid),
                k <= self.packages@.len(),
                find_pid_idx(self.pkgs(), pid, 0) == find_pid_idx(self.pkgs(), pid, k as int),
            decreases self.packages@.len() - k,
        {
            proof {
                assert(self.pkgs()[k as int] == self.packages@[k as int]@);
            }
            if self.packages[k].id == pid {
                return k;
            }
            k += 1;
        }
        proof {
            let g = choose|g: int| 0 <= g < self.pkgs().len() && self.pkgs()[g].id == pid;
            self.lemma_find_pid_in_range(pid, 0);
            self.lemma_find_pid_none(pid, 0);
            assert(false);
        }
        vstd::pervasive::unreached()
    }

    proof fn lemma_find_pid_none(self, pid: u64, k: int)
        requires
            0 <= k,
            find_pid_idx(self.pkgs(), pid, k) == -1,
        ensures
            forall|j: int| k <= j < self.pkgs().len() ==> (#[trigger] self.pkgs()[j]).id != pid,
        decreases self.pkgs().len() - k,
    {
        if k < self.pkgs().len() {
            self.lemma_find_pid_none(pid, k + 1);
        }
    }

    /// The newest indexed version of a package, by numeric version
    /// components.
    pub fn latest_version(&self, name: &str) -> (r: Option<String>)
        ensures
            match r {
                Some(v) => latest_ver_from(self.pkgs(), name@, 0) == Some(v@),
                None => latest_ver_from(self.pkgs(), name@, 0) is None,
            },
    {
        let mut best: Option<String> = None;
        let mut k: usize = self.packages.len();
        while k > 0
            invariant
                k <= self.packages@.len(),
                match best {
                    Some(b) => latest_ver_from(self.pkgs(), name@, k as int) == Some(b@),
                    None => latest_ver_from(self.pkgs(), name@, k as int) is None,
                },
            decreases k,
        {
            k -= 1;
            proof {
                assert(self.pkgs()[k as int] == self.packages@[k as int]@);
            }
            if strutil::str_eq(self.packages[k].name.as_str(), name) {
                let cur = &self.packages[k].version;
                best = match best {
                    Some(b) => {
                        if version::version_newer(b.as_str(), cur.as_str()) {
                            Some(b)
                        } else {
                            Some(cur.clone())
                        }
                    },
                    None => Some(cur.clone()),
                };
            }
        }
        best
    }

    /// All items of one package: the requested version's, or the newest
    /// indexed version's when none is requested; sorted by item path.
    pub fn search_crate(&self, crate_name: &str, crate_version: Option<&str>) -> (r: Vec<
        CachedItem,
    >)
        requires
            self.wf(),
        ensures
            ({
                let vsel = match crate_version {
                    Some(v) => Some(v@),
                    None => latest_ver_from(self.pkgs(), crate_name@, 0),
                };
                match vsel {
                    None => r@.len() == 0,
                    Some(vv) => {
                        if self.find_pkg(crate_name@, vv) < 0 {
                            r@.len() == 0
                        } else {
                            let pid = self.pkg_id(crate_name@, vv);
                            &&& r@.map_values(|c: CachedItem| c@).to_multiset()
                                == self.rows_of(pid).map_values(
                                |w: RowView| cached_of(w),
                            ).to_multiset()
                            &&& vstd::relations::sorted_by(
                                r@.map_values(|c: CachedItem| c@),
                                |a: CachedView, b: CachedView| !strutil::lex_lt(b.path, a.path),
                            )
                        }
                    },
                }
            }),
    {
        let vsel: Option<String> = match crate_version {
            Some(v) => Some(v.to_owned()),
            None => self.latest_version(crate_name),
        };
        let ver = match vsel {
            Some(v) => v,
            None => {
                return Vec::new();
            },
        };
        let kidx = match self.find_pkg_exec(crate_name, ver.as_str()) {
            Some(k) => k,
            None => {
                return Vec::new();
            },
        };
        let pid = self.packages[kidx].id;
        proof {
            self.lemma_find_pkg_in_range(crate_name@, ver@, 0);
            assert(self.pkgs()[kidx as int] == self.packages@[kidx as int]@);
            assert(self.pkg_id(crate_name@, ver@) == pid);
        }
        let mut out: Vec<CachedItem> = Vec::new();
        let ghost rws = self.rows();
        let mut i: usize = 0;
        proof {
            reveal(Seq::filter);
            assert(out@.map_values(|c: CachedItem| c@) =~= rws.subrange(0, 0).filter(
                |w: RowView| w.pid == pid,
            ).map_values(|w: RowView| cached_of(w)));
        }
        while i < self.items.len()
            invariant
                self.wf(),
                rws == self.rows(),
                i <= rws.len(),
                out@.map_values(|c: CachedItem| c@).to_multiset() == rws.subrange(
                    0,
                    i as int,
                ).filter(|w: RowView| w.pid == pid).map_values(
                    |w: RowView| cached_of(w),
                ).to_multiset(),
                vstd::relations::sorted_by(
                    out@.map_values(|c: CachedItem| c@),
                    |a: CachedView, b: CachedView| !strutil::lex_lt(b.path, a.path),
                ),
            decreases rws.len() - i,
        {
            proof {
                assert(rws[i as int] == self.items@[i as int]@);
            }
            if self.items[i].package_id == pid {
                let c = CachedItem {
                    path: self.items[i].path.clone(),
                    kind: self.items[i].kind.clone(),
                    signature: strutil::clone_opt_string(&self.items[i].signature),
                    doc: strutil::clone_opt_string(&self.items[i].doc),
                    visibility: self.items[i].visibility.clone(),
                };
                proof {
                    assert(c@ == cached_of(rws[i as int]));
                }
                insert_cached_sorted(&mut out, c);
            }
            proof {
                reveal(Seq::filter);
                let pre = rws.subrange(0, i + 1);
                assert(pre.drop_last() =~= rws.subrange(0, i as int));
                assert(pre.last() == rws[i as int]);
                let fl = pre.filter(|w: RowView| w.pid == pid);
                let flp = rws.subrange(0, i as int).filter(|w: RowView| w.pid == pid);
                if rws[i as int].pid == pid {
                    assert(fl == flp.push(rws[i as int]));
                    assert(fl.map_values(|w: RowView| cached_of(w)) =~= flp.map_values(
                        |w: RowView| cached_of(w),
                    ).push(cached_of(rws[i as int])));
                    flp.map_values(|w: RowView| cached_of(w)).to_multiset_ensures();
                } else {
                    assert(fl == flp);
                }
            }
            i += 1;
        }
        proof {
            assert(rws.subrange(0, rws.len() as int) =~= rws);
        }
        out
    }

    /// All full-text hits of a query across the store, each joined with its
    /// package, ordered by package name, version and path. The shadow table
    /// only accelerates this join; by the store invariant it mirrors the item
    /// table, so the result is stated over the item table itself.
    pub fn search(&self, query: &str) -> (r: Vec<SearchResult>)
        requires
            self.wf(),
        ensures
            r@.map_values(|s: SearchResult| s@).to_multiset() == self.rows().filter(
                |w: RowView| fts_match(strutil::to_lower(query@), w.path),
            ).map_values(|w: RowView| self.sr_view_of(w)).to_multiset(),
            vstd::relations::sorted_by(
                r@.map_values(|s: SearchResult| s@),
                |a: SrView, b: SrView| sr_le(a, b),
            ),
    {
        let q = strutil::lower(query);
        let qlen = q.as_str().unicode_len();
        let ghost qv = strutil::to_lower(query@);
        let mut out: Vec<SearchResult> = Vec::new();
        let ghost rws = self.rows();
        let mut i: usize = 0;
        proof {
            reveal(Seq::filter);
            assert(out@.map_values(|s: SearchResult| s@) =~= rws.subrange(0, 0).filter(
                |w: RowView| fts_match(qv, w.path),
            ).map_values(|w: RowView| self.sr_view_of(w)));
        }
        while i < self.items.len()
            invariant
                self.wf(),
                rws == self.rows(),
                q@ == qv,
                qlen == qv.len(),
                i <= rws.len(),
                out@.map_values(|s: SearchResult| s@).to_multiset() == rws.subrange(
                    0,
                    i as int,
                ).filter(|w: RowView| fts_match(qv, w.path)).map_values(
                    |w: RowView| self.sr_view_of(w),
                ).to_multiset(),
                vstd::relations::sorted_by(
                    out@.map_values(|s: SearchResult| s@),
                    |a: SrView, b: SrView| sr_le(a, b),
                ),
            decreases rws.len() - i,
        {
            proof {
                assert(rws[i as int] == self.items@[i as int]@);
            }
            let lowpath = strutil::lower(self.items[i].path.as_str());
            let is_hit = qlen >= 3 && strutil::contains(lowpath.as_str(), q.as_str());
            proof {
                assert(lowpath@ == strutil::to_lower(rws[i as int].path));
                assert(is_hit == fts_match(qv, rws[i as int].path));
            }
            if is_hit {
                proof {
                    assert(self.rows()[i as int].pid == self.items@[i as int].package_id);
                    assert(self.has_pkg_id(self.items@[i as int].package_id));
                }
                let pk = self.find_pid_exec(self.items[i].package_id);
                let sr = SearchResult {
                    crate_name: self.packages[pk].name.clone(),
                    crate_version: self.packages[pk].version.clone(),
                    path: self.items[i].path.clone(),
                    kind: self.items[i].kind.clone(),
                    signature: strutil::clone_opt_string(&self.items[i].signature),
                };
                proof {
                    assert(self.pkgs()[pk as int] == self.packages@[pk as int]@);
                    assert(sr@ == self.sr_view_of(rws[i as int]));
                }
                insert_sr_sorted(&mut out, sr);
            }
            proof {
                reveal(Seq::filter);
                let pre = rws.subrange(0, i + 1);
                assert(pre.drop_last() =~= rws.subrange(0, i as int));
                assert(pre.last() == rws[i as int]);
                let fl = pre.filter(|w: RowView| fts_match(qv, w.path));
                let flp = rws.subrange(0, i as int).filter(|w: RowView| fts_match(qv, w.path));
                if fts_match(qv, rws[i as int].path) {
                    assert(fl == flp.push(rws[i as int]));
                    assert(fl.map_values(|w: RowView| self.sr_view_of(w)) =~= flp.map_values(
                        |w: RowView| self.sr_view_of(w),
                    ).push(self.sr_view_of(rws[i as int])));
                    flp.map_values(|w: RowView| self.sr_view_of(w)).to_multiset_ensures();
                    assert(fl.map_values(|w: RowView| self.sr_view_of(w)).to_multiset()
                        == flp.map_values(|w: RowView| self.sr_view_of(w)).to_multiset().insert(
                        self.sr_view_of(rws[i as int]),
                    ));
                    assert(out@.map_values(|s: SearchResult| s@).to_multiset() == fl.map_values(
                        |w: RowView| self.sr_view_of(w),
                    ).to_multiset());
                } else {
                    assert(fl == flp);
                    assert(out@.map_values(|s: SearchResult| s@).to_multiset() == fl.map_values(
                        |w: RowView| self.sr_view_of(w),
                    ).to_multiset());
                }
            }
            i += 1;
        }
        proof {
            assert(rws.subrange(0, rws.len() as int) =~= rws);
        }
        out
    }
}

/// Inserts an item into a list kept sorted by path.
fn insert_cached_sorted(out: &mut Vec<CachedItem>, c: CachedItem)
    requires
        vstd::relations::sorted_by(
            old(out)@.map_values(|x: CachedItem| x@),
            |a: CachedView, b: CachedView| !strutil::lex_lt(b.path, a.path),
        ),
    ensures
        final(out)@.map_values(|x: CachedItem| x@).to_multiset() == old(out)@.map_values(
            |x: CachedItem| x@,
        ).to_multiset().insert(c@),
        vstd::relations::sorted_by(
            final(out)@.map_values(|x: CachedItem| x@),
            |a: CachedView, b: CachedView| !strutil::lex_lt(b.path, a.path),
        ),
{
    let ghost olds = out@.map_values(|x: CachedItem| x@);
    let ghost leq = |a: CachedView, b: CachedView| !strutil::lex_lt(b.path, a.path);
    let mut k: usize = 0;
    while k < out.len() && strutil::str_lt(out[k].path.as_str(), c.path.as_str())
        invariant
            out@.map_values(|x: CachedItem| x@) == olds,
            k <= out@.len(),
            forall|i: int| 0 <= i < k ==> strutil::lex_lt((#[trigger] olds[i]).path, c@.path),
        decreases out@.len() - k,
    {
        proof {
            assert(olds[k as int] == out@[k as int]@);
        }
        k += 1;
    }
    proof {
        if k < out@.len() {
            assert(olds[k as int] == out@[k as int]@);
        }
    }
    let ghost kk = k as int;
    out.insert(k, c);
    proof {
        let news = final(out)@.map_values(|x: CachedItem| x@);
        assert(news =~= olds.insert(kk, c@));
        assert forall|i: int, j: int| 0 <= i < j < news.len() implies leq(news[i], news[j]) by {
            strutil::lemma_lex_asym(news[i].path, news[j].path);
            if i < kk && j == kk {
                assert(news[i] == olds[i]);
            } else if i == kk && j > kk {
                assert(news[j] == olds[j - 1]);
                if j - 1 > kk {
                    assert(leq(olds[kk], olds[j - 1]));
                }
                if strutil::lex_lt(news[j].path, c@.path) {
                    strutil::lemma_lex_connected(c@.path, olds[kk].path);
                    if c@.path == olds[kk].path {
                    } else {
                        strutil::lemma_lex_trans(olds[j - 1].path, c@.path, olds[kk].path);
                    }
                }
            } else if i < kk && j > kk {
                assert(news[i] == olds[i] && news[j] == olds[j - 1]);
                assert(leq(olds[i], olds[j - 1]));
            } else if i < kk && j < kk {
                assert(news[i] == olds[i] && news[j] == olds[j]);
                assert(leq(olds[i], olds[j]));
            } else if i > kk {
                assert(news[i] == olds[i - 1] && news[j] == olds[j - 1]);
                assert(leq(olds[i - 1], olds[j - 1]));
            }
        }
        lemma_multiset_insert(olds, kk, c@);
    }
}

/// Inserts a full-text hit into a list kept sorted by the hit order.
fn insert_sr_sorted(out: &mut Vec<SearchResult>, c: SearchResult)
    requires
        vstd::relations::sorted_by(
            old(out)@.map_values(|x: SearchResult| x@),
            |a: SrView, b: SrView| sr_le(a, b),
        ),
    ensures
        final(out)@.map_values(|x: SearchResult| x@).to_multiset() == old(out)@.map_values(
            |x: SearchResult| x@,
        ).to_multiset().insert(c@),
        vstd::relations::sorted_by(
            final(out)@.map_values(|x: SearchResult| x@),
            |a: SrView, b: SrView| sr_le(a, b),
        ),
{
    let ghost olds = out@.map_values(|x: SearchResult| x@);
    let ghost leq = |a: SrView, b: SrView| sr_le(a, b);
    let mut k: usize = 0;
    while k < out.len() && sr_lt_exec(&out[k], &c)
        invariant
            out@.map_values(|x: SearchResult| x@) == olds,
            k <= out@.len(),
            forall|i: int| 0 <= i < k ==> sr_lt(#[trigger] olds[i], c@),
        decreases out@.len() - k,
    {
        proof {
            assert(olds[k as int] == out@[k as int]@);
        }
        k += 1;
    }
    proof {
        if k < out@.len() {
            assert(olds[k as int] == out@[k as int]@);
        }
    }
    let ghost kk = k as int;
    out.insert(k, c);
    proof {
        lemma_sr_props();
        let news = final(out)@.map_values(|x: SearchResult| x@);
        assert(news =~= olds.insert(kk, c@));
        assert forall|i: int, j: int| 0 <= i < j < news.len() implies leq(news[i], news[j]) by {
            if i < kk && j == kk {
                assert(news[i] == olds[i]);
            } else if i == kk && j > kk {
                assert(news[j] == olds[j - 1]);
                if j - 1 > kk {
                    assert(leq(olds[kk], olds[j - 1]));
                }
                if kk < olds.len() && sr_lt(news[j], c@) {
                    lemma_sr_below(olds[j - 1], c@, olds[kk]);
                }
            } else if i < kk && j > kk {
                assert(news[i] == olds[i] && news[j] == olds[j - 1]);
                assert(leq(olds[i], olds[j - 1]));
            } else if i < kk && j < kk {
                assert(news[i] == olds[i] && news[j] == olds[j]);
                assert(leq(olds[i], olds[j]));
            } else if i > kk {
                assert(news[i] == olds[i - 1] && news[j] == olds[j - 1]);
                assert(leq(olds[i - 1], olds[j - 1]));
            }
        }
        lemma_multiset_insert(olds, kk, c@);
    }
}

/// Decides the strict hit order.
fn sr_lt_exec(a: &SearchResult, b: &SearchResult) -> (r: bool)
    ensures
        r == sr_lt(a@, b@),
{
    if strutil::str_lt(a.crate_name.as_str(), b.crate_name.as_str()) {
        true
    } else if strutil::str_eq(a.crate_name.as_str(), b.crate_name.as_str()) {
        if strutil::str_lt(a.crate_version.as_str(), b.crate_version.as_str()) {
            true
        } else if strutil::str_eq(a.crate_version.as_str(), b.crate_version.as_str()) {
            strutil::str_lt(a.path.as_str(), b.path.as_str())
        } else {
            false
        }
    } else {
        false
    }
}

/// Strict order on `(name, version)` string pairs.
pub open spec fn pair_lt(a: (Seq<char>, Seq<char>), b: (Seq<char>, Seq<char>)) -> bool {
    strutil::lex_lt(a.0, b.0) || (a.0 == b.0 && strutil::lex_lt(a.1, b.1))
}

/// The matching non-strict order.
pub open spec fn pair_le(a: (Seq<char>, Seq<char>), b: (Seq<char>, Seq<char>)) -> bool {
    !pair_lt(b, a)
}

/// The strict pair order never holds both ways, orders every two distinct
/// pairs, and is transitive.
pub proof fn lemma_pair_props()
    ensures
        forall|a: (Seq<char>, Seq<char>), b: (Seq<char>, Seq<char>)|
            !(#[trigger] pair_lt(a, b) && pair_lt(b, a)),
        forall|a: (Seq<char>, Seq<char>), b: (Seq<char>, Seq<char>)|
            a != b ==> #[trigger] pair_lt(a, b) || pair_lt(b, a),
        forall|a: (Seq<char>, Seq<char>), b: (Seq<char>, Seq<char>), c: (Seq<char>, Seq<char>)|
            #[trigger] pair_lt(a, b) && #[trigger] pair_lt(b, c) ==> pair_lt(a, c),
{
    assert forall|a: (Seq<char>, Seq<char>), b: (Seq<char>, Seq<char>)|
        !(#[trigger] pair_lt(a, b) && pair_lt(b, a)) by {
        strutil::lemma_lex_asym(a.0, b.0);
        strutil::lemma_lex_asym(a.1, b.1);
    }
    assert forall|a: (Seq<char>, Seq<char>), b: (Seq<char>, Seq<char>)|
        a != b implies #[trigger] pair_lt(a, b) || pair_lt(b, a) by {
        strutil::lemma_lex_connected(a.0, b.0);
        strutil::lemma_lex_connected(a.1, b.1);
    }
    assert forall|a: (Seq<char>, Seq<char>), b: (Seq<char>, Seq<char>), c: (Seq<char>, Seq<char>)|
        #[trigger] pair_lt(a, b) && #[trigger] pair_lt(b, c) implies pair_lt(a, c) by {
        if strutil::lex_lt(a.0, b.0) && strutil::lex_lt(b.0, c.0) {
            strutil::lemma_lex_trans(a.0, b.0, c.0);
        }
        if a.0 == b.0 && b.0 == c.0 {
            strutil::lemma_lex_trans(a.1, b.1, c.1);
        }
    }
}

/// Decides the strict pair order.
fn pair_lt_exec(a0: &str, a1: &str, b0: &str, b1: &str) -> (r: bool)
    ensures
        r == pair_lt((a0@, a1@), (b0@, b1@)),
{
    if strutil::str_lt(a0, b0) {
        true
    } else if strutil::str_eq(a0, b0) {
        strutil::str_lt(a1, b1)
    } else {
        false
    }
}

/// Inserts a pair into a list kept sorted by the pair order.
fn insert_pair_sorted(out: &mut Vec<(String, String)>, name: String, ver: String)
    requires
        vstd::relations::sorted_by(
            old(out)@.map_values(|p: (String, String)| (p.0@, p.1@)),
            |a: (Seq<char>, Seq<char>), b: (Seq<char>, Seq<char>)| pair_le(a, b),
        ),
    ensures
        final(out)@.map_values(|p: (String, String)| (p.0@, p.1@)).to_multiset() == old(
            out,
        )@.map_values(|p: (String, String)| (p.0@, p.1@)).to_multiset().insert((name@, ver@)),
        vstd::relations::sorted_by(
            final(out)@.map_values(|p: (String, String)| (p.0@, p.1@)),
            |a: (Seq<char>, Seq<char>), b: (Seq<char>, Seq<char>)| pair_le(a, b),
        ),
{
    let ghost olds = out@.map_values(|p: (String, String)| (p.0@, p.1@));
    let ghost leq = |a: (Seq<char>, Seq<char>), b: (Seq<char>, Seq<char>)| pair_le(a, b);
    let mut k: usize = 0;
    while k < out.len() && pair_lt_exec(
        out[k].0.as_str(),
        out[k].1.as_str(),
        name.as_str(),
        ver.as_str(),
    )
        invariant
            out@.map_values(|p: (String, String)| (p.0@, p.1@)) == olds,
            k <= out@.len(),
            forall|i: int| 0 <= i < k ==> pair_lt(#[trigger] olds[i], (name@, ver@)),
        decreases out@.len() - k,
    {
        proof {
            assert(olds[k as int] == (out@[k as int].0@, out@[k as int].1@));
        }
        k += 1;
    }
    proof {
        if k < out@.len() {
            assert(olds[k as int] == (out@[k as int].0@, out@[k as int].1@));
        }
    }
    let ghost kk = k as int;
    out.insert(k, (name, ver));
    proof {
        lemma_pair_props();
        let news = final(out)@.map_values(|p: (String, String)| (p.0@, p.1@));
        assert(news =~= olds.insert(kk, (name@, ver@)));
        assert(news =~= olds.subrange(0, kk).push((name@, ver@)) + olds.subrange(
            kk,
            olds.len() as int,
        ));
        assert forall|i: int, j: int| 0 <= i < j < news.len() implies leq(news[i], news[j]) by {
            if i < kk && j == kk {
                assert(news[i] == olds[i]);
            } else if i == kk && j > kk {
                assert(news[j] == olds[j - 1]);
                if kk < olds.len() && j - 1 > kk {
                    assert(leq(olds[kk], olds[j - 1]));
                }
            } else if i < kk && j > kk {
                assert(news[i] == olds[i] && news[j] == olds[j - 1]);
                assert(leq(olds[i], olds[j - 1]));
            } else if i < kk && j < kk {
                assert(news[i] == olds[i] && news[j] == olds[j]);
                assert(leq(olds[i], olds[j]));
            } else if i > kk {
                assert(news[i] == olds[i - 1] && news[j] == olds[j - 1]);
                assert(leq(olds[i - 1], olds[j - 1]));
            }
        }
        assert(vstd::relations::sorted_by(news, leq));
        lemma_multiset_insert(olds, kk, (name@, ver@));
    }
}

/// The value of an optional string.
pub open spec fn opt_view(o: Option<String>) -> Option<Seq<char>> {
    match o {
        Some(s) => Some(s@),
        None => None,
    }
}

/// The abstract row that indexing an item under package `pid` produces.
pub open spec fn row_view_of(pid: u64, item: Item) -> RowView {
    RowView {
        pid,
        path: item.path@,
        kind: item.kind.label(),
        signature: opt_view(item.signature),
        doc: opt_view(item.doc),
        visibility: item.visibility.label(),
    }
}

/// The item table without the rows of package `pid`.
pub open spec fn drop_pkg_rows(rows: Seq<RowView>, pid: u64) -> Seq<RowView> {
    rows.filter(|r: RowView| r.pid != pid)
}

/// Insert-or-replace of one row: any row with the same `(package, path)` key
/// leaves, the new row goes to the end.
pub open spec fn replace_row(rows: Seq<RowView>, row: RowView) -> Seq<RowView> {
    rows.filter(|r: RowView| !(r.pid == row.pid && r.path == row.path)).push(row)
}

/// Insert-or-replace of a batch of items, in order.
pub open spec fn insert_rows(rows: Seq<RowView>, pid: u64, items: Seq<Item>) -> Seq<RowView>
    decreases items.len(),
{
    if items.len() == 0 {
        rows
    } else {
        insert_rows(
            replace_row(rows, row_view_of(pid, items[0])),
            pid,
            items.subrange(1, items.len() as int),
        )
    }
}

/// Filtering keeps only elements of the original sequence.
pub proof fn lemma_filter_elems<A>(s: Seq<A>, pred: spec_fn(A) -> bool)
    ensures
        forall|i: int|
            0 <= i < s.filter(pred).len() ==> s.contains(#[trigger] s.filter(pred)[i]),
    decreases s.len(),
{
    reveal(Seq::filter);
    if s.len() > 0 {
        lemma_filter_elems(s.drop_last(), pred);
        assert forall|i: int| 0 <= i < s.filter(pred).len() implies s.contains(
            #[trigger] s.filter(pred)[i],
        ) by {
            let f = s.filter(pred);
            let fd = s.drop_last().filter(pred);
            if i < fd.len() {
                assert(fd[i] == f[i]);
                let m = choose|m: int| 0 <= m < s.drop_last().len() && s.drop_last()[m] == fd[i];
                assert(s[m] == fd[i]);
            } else {
                assert(f[i] == s.last());
                assert(s[s.len() - 1] == s.last());
            }
        }
    }
}

/// Filtering preserves the absence of a bad pair.
pub proof fn lemma_filter_pairwise<A>(s: Seq<A>, pred: spec_fn(A) -> bool, bad: spec_fn(A, A) -> bool)
    requires
        forall|i: int, j: int| 0 <= i < j < s.len() ==> !bad(s[i], s[j]),
    ensures
        forall|i: int, j: int|
            0 <= i < j < s.filter(pred).len() ==> !bad(s.filter(pred)[i], s.filter(pred)[j]),
    decreases s.len(),
{
    reveal(Seq::filter);
    if s.len() > 0 {
        let d = s.drop_last();
        assert(forall|i: int, j: int| 0 <= i < j < d.len() ==> !bad(d[i], d[j])) by {
            assert(forall|i: int| 0 <= i < d.len() ==> d[i] == s[i]);
        }
        lemma_filter_pairwise(d, pred, bad);
        lemma_filter_elems(d, pred);
        assert forall|i: int, j: int| 0 <= i < j < s.filter(pred).len() implies !bad(
            s.filter(pred)[i],
            s.filter(pred)[j],
        ) by {
            let f = s.filter(pred);
            let fd = d.filter(pred);
            if j < fd.len() {
                assert(f[i] == fd[i] && f[j] == fd[j]);
            } else {
                assert(f[j] == s.last());
                assert(f[i] == fd[i]);
                let m = choose|m: int| 0 <= m < d.len() && d[m] == fd[i];
                assert(s[m] == fd[i]);
                assert(!bad(s[m], s[s.len() - 1]));
            }
        }
    }
}

/// A sequence whose elements all pass the filter comes out unchanged.
pub proof fn lemma_filter_all<A>(s: Seq<A>, pred: spec_fn(A) -> bool)
    requires
        forall|i: int| 0 <= i < s.len() ==> pred(#[trigger] s[i]),
    ensures
        s.filter(pred) == s,
    decreases s.len(),
{
    reveal(Seq::filter);
    if s.len() > 0 {
        let d = s.drop_last();
        assert(forall|i: int| 0 <= i < d.len() ==> pred(#[trigger] d[i])) by {
            assert(forall|i: int| 0 <= i < d.len() ==> d[i] == s[i]);
        }
        lemma_filter_all(d, pred);
        assert(s.filter(pred) =~= s);
    }
}

/// Filtering out a single failing element is removing it.
pub proof fn lemma_filter_unique_remove<A>(s: Seq<A>, pred: spec_fn(A) -> bool, idx: int)
    requires
        0 <= idx < s.len(),
        !pred(s[idx]),
        forall|j: int| 0 <= j < s.len() && j != idx ==> pred(#[trigger] s[j]),
    ensures
        s.filter(pred) == s.remove(idx),
    decreases s.len(),
{
    reveal(Seq::filter);
    let d = s.drop_last();
    if idx == s.len() - 1 {
        assert(forall|i: int| 0 <= i < d.len() ==> pred(#[trigger] d[i])) by {
            assert(forall|i: int| 0 <= i < d.len() ==> d[i] == s[i]);
        }
        lemma_filter_all(d, pred);
        assert(s.filter(pred) =~= s.remove(idx));
    } else {
        assert(d[idx] == s[idx]);
        assert(forall|j: int| 0 <= j < d.len() && j != idx ==> pred(#[trigger] d[j])) by {
            assert(forall|i: int| 0 <= i < d.len() ==> d[i] == s[i]);
        }
        lemma_filter_unique_remove(d, pred, idx);
        assert(pred(s.last()));
        assert(s.filter(pred) =~= s.remove(idx)) by {
            assert(s.filter(pred) == d.remove(idx).push(s.last()));
            assert forall|i: int| 0 <= i < s.remove(idx).len() implies s.remove(idx)[i]
                == d.remove(idx).push(s.last())[i] by {
            }
        }
    }
}

/// Mapping a filtered item table to views is filtering the viewed table.
proof fn lemma_rows_filter(items: Seq<ItemRow>, pid: u64)
    ensures
        items.filter(|r: ItemRow| r.package_id != pid).map_values(|r: ItemRow| r@)
            == items.map_values(|r: ItemRow| r@).filter(|v: RowView| v.pid != pid),
    decreases items.len(),
{
    reveal(Seq::filter);
    if items.len() == 0 {
        assert(items.filter(|r: ItemRow| r.package_id != pid).map_values(|r: ItemRow| r@)
            =~= items.map_values(|r: ItemRow| r@).filter(|v: RowView| v.pid != pid));
    } else {
        let d = items.drop_last();
        lemma_rows_filter(d, pid);
        assert(items.map_values(|r: ItemRow| r@).drop_last() =~= d.map_values(
            |r: ItemRow| r@,
        ));
        assert(items.map_values(|r: ItemRow| r@).last() == items.last()@);
        if items.last().package_id != pid {
            assert(items.filter(|r: ItemRow| r.package_id != pid).map_values(|r: ItemRow| r@)
                =~= items.map_values(|r: ItemRow| r@).filter(|v: RowView| v.pid != pid));
        } else {
            assert(items.filter(|r: ItemRow| r.package_id != pid).map_values(|r: ItemRow| r@)
                =~= items.map_values(|r: ItemRow| r@).filter(|v: RowView| v.pid != pid));
        }
    }
}

/// Mapping a key-filtered item table to views is filtering the viewed table.
proof fn lemma_rows_filter_key(items: Seq<ItemRow>, pid: u64, path: Seq<char>)
    ensures
        items.filter(|r: ItemRow| !(r.package_id == pid && r.path@ == path)).map_values(
            |r: ItemRow| r@,
        ) == items.map_values(|r: ItemRow| r@).filter(
            |v: RowView| !(v.pid == pid && v.path == path),
        ),
    decreases items.len(),
{
    reveal(Seq::filter);
    if items.len() == 0 {
        assert(items.filter(|r: ItemRow| !(r.package_id == pid && r.path@ == path)).map_values(
            |r: ItemRow| r@,
        ) =~= items.map_values(|r: ItemRow| r@).filter(
            |v: RowView| !(v.pid == pid && v.path == path),
        ));
    } else {
        let d = items.drop_last();
        lemma_rows_filter_key(d, pid, path);
        assert(items.map_values(|r: ItemRow| r@).drop_last() =~= d.map_values(|r: ItemRow| r@));
        assert(items.map_values(|r: ItemRow| r@).last() == items.last()@);
        assert(items.filter(|r: ItemRow| !(r.package_id == pid && r.path@ == path)).map_values(
            |r: ItemRow| r@,
        ) =~= items.map_values(|r: ItemRow| r@).filter(
            |v: RowView| !(v.pid == pid && v.path == path),
        ));
    }
}

/// Copies an item row.
fn clone_item_row(r: &ItemRow) -> (c: ItemRow)
    ensures
        c == *r,
{
    ItemRow {
        id: r.id,
        package_id: r.package_id,
        path: r.path.clone(),
        kind: r.kind.clone(),
        signature: strutil::clone_opt_string(&r.signature),
        doc: strutil::clone_opt_string(&r.doc),
        visibility: strutil::clone_opt_string(&Some(r.visibility.clone())).unwrap(),
    }
}

impl Store {
    /// The id of the package keyed `(name, version)`; meaningful only when
    /// `find_pkg` succeeds.
    pub open spec fn pkg_id(self, name: Seq<char>, ver: Seq<char>) -> u64 {
        self.pkgs()[self.find_pkg(name, ver)].id
    }

    /// The rows of package `pid`, in table order.
    pub open spec fn rows_of(self, pid: u64) -> Seq<RowView> {
        self.rows().filter(|r: RowView| r.pid == pid)
    }

    /// A key is found exactly when a row holds it.
    pub proof fn lemma_find_pkg_exists(self, name: Seq<char>, ver: Seq<char>)
        ensures
            (self.find_pkg(name, ver) >= 0) <==> exists|k: int|
                0 <= k < self.pkgs().len() && (#[trigger] self.pkgs()[k]).name == name
                    && self.pkgs()[k].version == ver,
    {
        self.lemma_find_pkg_exists_from(name, ver, 0);
    }

    proof fn lemma_find_pkg_exists_from(self, name: Seq<char>, ver: Seq<char>, k: int)
        requires
            0 <= k,
        ensures
            (self.find_pkg_from(name, ver, k) >= 0) <==> exists|j: int|
                k <= j < self.pkgs().len() && (#[trigger] self.pkgs()[j]).name == name
                    && self.pkgs()[j].version == ver,
        decreases self.pkgs().len() - k,
    {
        if k < self.pkgs().len() {
            self.lemma_find_pkg_exists_from(name, ver, k + 1);
        }
    }

    /// Indexes one package: upserts its package row, drops all its item rows,
    /// and inserts the given items, later duplicates replacing earlier ones.
    /// The rows of every other package stay untouched, so a package is always
    /// either fully replaced or fully kept.
    pub fn index_crate(&mut self, name: &str, ver: &str, root_path: &str, now: u64, items: &Vec<Item>)
        requires
            old(self).wf(),
            name@.len() > 0,
            forall|i: int| 0 <= i < items@.len() ==> (#[trigger] items@[i]).path@.len() > 0,
            old(self).next_id + items@.len() + 1 < u64::MAX,
        ensures
            final(self).wf(),
            final(self).schema_version == old(self).schema_version,
            final(self).next_id <= old(self).next_id + items@.len() + 1,
            final(self).is_indexed_spec(name@, ver@),
            forall|n: Seq<char>, v: Seq<char>|
                old(self).is_indexed_spec(n, v) ==> final(self).is_indexed_spec(n, v),
            forall|n: Seq<char>, v: Seq<char>|
                old(self).is_indexed_spec(n, v) ==> final(self).find_pkg(n, v) == old(
                    self,
                ).find_pkg(n, v) && final(self).pkg_id(n, v) == old(self).pkg_id(n, v),
            ({
                let k = old(self).find_pkg(name@, ver@);
                if k >= 0 {
                    final(self).pkgs() == old(self).pkgs().update(
                        k,
                        PkgView {
                            id: old(self).pkgs()[k].id,
                            name: name@,
                            version: ver@,
                            root_path: root_path@,
                            indexed_at: now,
                        },
                    )
                } else {
                    final(self).pkgs() == old(self).pkgs().push(
                        PkgView {
                            id: old(self).next_id,
                            name: name@,
                            version: ver@,
                            root_path: root_path@,
                            indexed_at: now,
                        },
                    )
                }
            }),
            ({
                let pid = if old(self).find_pkg(name@, ver@) >= 0 {
                    old(self).pkg_id(name@, ver@)
                } else {
                    old(self).next_id
                };
                &&& final(self).find_pkg(name@, ver@) >= 0
                &&& final(self).pkg_id(name@, ver@) == pid
                &&& final(self).rows() == insert_rows(
                    drop_pkg_rows(old(self).rows(), pid),
                    pid,
                    items@,
                )
            }),
    {
        proof {
            old(self).lemma_find_pkg_in_range(name@, ver@, 0);
        }
        // upsert the package row
        let pid: u64;
        let ghost oldpkgs = self.pkgs();
        match self.find_pkg_exec(name, ver) {
            Some(k) => {
                pid = self.packages[k].id;
                let row = PackageRow {
                    id: pid,
                    name: name.to_owned(),
                    version: ver.to_owned(),
                    root_path: root_path.to_owned(),
                    indexed_at: now,
                };
                self.packages.remove(k);
                self.packages.insert(k, row);
                proof {
                    assert(self.pkgs() =~= oldpkgs.update(
                        k as int,
                        PkgView {
                            id: pid,
                            name: name@,
                            version: ver@,
                            root_path: root_path@,
                            indexed_at: now,
                        },
                    ));
                }
            },
            None => {
                pid = self.next_id;
                let row = PackageRow {
                    id: pid,
                    name: name.to_owned(),
                    version: ver.to_owned(),
                    root_path: root_path.to_owned(),
                    indexed_at: now,
                };
                self.packages.push(row);
                self.next_id = self.next_id + 1;
                proof {
                    assert(self.pkgs() =~= oldpkgs.push(
                        PkgView {
                            id: pid,
                            name: name@,
                            version: ver@,
                            root_path: root_path@,
                            indexed_at: now,
                        },
                    ));
                    old(self).lemma_find_pkg_none(name@, ver@, 0);
                }
            },
        }
        proof {
            assert(self.pkgs_wf());
            assert(self.has_pkg_id(pid)) by {
                if old(self).find_pkg(name@, ver@) >= 0 {
                    let k = old(self).find_pkg(name@, ver@);
                    assert(self.pkgs()[k].id == pid);
                } else {
                    assert(self.pkgs()[self.pkgs().len() - 1].id == pid);
                }
            }
            assert forall|p: u64| old(self).has_pkg_id(p) implies self.has_pkg_id(p) by {
                let k = choose|k: int|
                    0 <= k < old(self).pkgs().len() && old(self).pkgs()[k].id == p;
                assert(self.pkgs()[k].id == p);
            }
            self.lemma_find_pkg_exists(name@, ver@);
            assert forall|n: Seq<char>, v: Seq<char>|
                old(self).is_indexed_spec(n, v) implies self.is_indexed_spec(n, v) by {
                old(self).lemma_find_pkg_in_range(n, v, 0);
                let k = old(self).find_pkg(n, v);
                old(self).lemma_find_pkg_exists(n, v);
                self.lemma_find_pkg_exists(n, v);
                if old(self).find_pkg(name@, ver@) >= 0 && k == old(self).find_pkg(name@, ver@) {
                    assert(self.pkgs()[k].name == n && self.pkgs()[k].version == v);
                } else {
                    assert(self.pkgs()[k].name == n && self.pkgs()[k].version == v);
                }
            }
        }
        // drop every item row of this package
        let ghost orig_items = self.items@;
        let mut kept: Vec<ItemRow> = Vec::new();
        let mut i: usize = 0;
        proof {
            assert(kept@ =~= orig_items.subrange(0, 0).filter(
                |r: ItemRow| r.package_id != pid,
            )) by {
                reveal(Seq::filter);
            }
        }
        while i < self.items.len()
            invariant
                self.items@ == orig_items,
                i <= orig_items.len(),
                kept@ == orig_items.subrange(0, i as int).filter(
                    |r: ItemRow| r.package_id != pid,
                ),
            decreases orig_items.len() - i,
        {
            let keep_it = self.items[i].package_id != pid;
            if keep_it {
                let c = clone_item_row(&self.items[i]);
                kept.push(c);
            }
            proof {
                reveal(Seq::filter);
                let pre = orig_items.subrange(0, i + 1);
                assert(pre.drop_last() =~= orig_items.subrange(0, i as int));
                assert(pre.last() == orig_items[i as int]);
                assert(kept@ =~= pre.filter(|r: ItemRow| r.package_id != pid));
            }
            i += 1;
        }
        proof {
            assert(orig_items.subrange(0, orig_items.len() as int) =~= orig_items);
        }
        self.items = kept;
        rebuild_fts(self);
        proof {
            lemma_rows_filter(orig_items, pid);
            assert(self.rows() == drop_pkg_rows(old(self).rows(), pid));
            lemma_filter_elems(orig_items, |r: ItemRow| r.package_id != pid);
            let ids_bad = |a: ItemRow, b: ItemRow| a.id == b.id;
            let key_bad = |a: ItemRow, b: ItemRow| a.package_id == b.package_id && a.path@
                == b.path@;
            assert forall|a: int, b: int| 0 <= a < b < orig_items.len() implies !ids_bad(
                orig_items[a],
                orig_items[b],
            ) by {
                assert(old(self).items@[a].id != old(self).items@[b].id);
            }
            assert forall|a: int, b: int| 0 <= a < b < orig_items.len() implies !key_bad(
                orig_items[a],
                orig_items[b],
            ) by {
                assert(old(self).rows()[a] == orig_items[a]@);
                assert(old(self).rows()[b] == orig_items[b]@);
                assert(!(old(self).rows()[a].pid == old(self).rows()[b].pid && old(
                    self,
                ).rows()[a].path == old(self).rows()[b].path));
            }
            lemma_filter_pairwise(orig_items, |r: ItemRow| r.package_id != pid, ids_bad);
            lemma_filter_pairwise(orig_items, |r: ItemRow| r.package_id != pid, key_bad);
            assert(self.items_wf()) by {
                assert forall|m: int| 0 <= m < self.items@.len() implies {
                    &&& (#[trigger] self.items@[m]).path@.len() > 0
                    &&& self.has_pkg_id(self.items@[m].package_id)
                    &&& self.items@[m].id < self.next_id
                } by {
                    assert(orig_items.contains(self.items@[m]));
                    let w = choose|w: int|
                        0 <= w < orig_items.len() && orig_items[w] == self.items@[m];
                    assert(old(self).rows()[w] == orig_items[w]@);
                    assert(old(self).rows()[w].path.len() > 0);
                    assert(old(self).has_pkg_id(old(self).rows()[w].pid));
                    let g = choose|g: int|
                        0 <= g < old(self).pkgs().len() && old(self).pkgs()[g].id == old(
                            self,
                        ).rows()[w].pid;
                    if old(self).find_pkg(name@, ver@) >= 0 {
                        assert(self.pkgs()[g].id == old(self).pkgs()[g].id);
                    } else {
                        assert(self.pkgs()[g].id == old(self).pkgs()[g].id);
                    }
                    assert(self.has_pkg_id(self.items@[m].package_id));
                    assert(old(self).items@[w].id < old(self).next_id);
                }
                assert forall|m: int, n: int| 0 <= m < n < self.rows().len() implies !(
                    self.rows()[m].pid == self.rows()[n].pid && self.rows()[m].path
                        == self.rows()[n].path) by {
                    assert(self.rows()[m] == self.items@[m]@);
                    assert(self.rows()[n] == self.items@[n]@);
                }
            }
        }
        // insert the new items, later duplicates replacing earlier ones
        let ghost base = self.rows();
        let ghost pkgs_after = self.pkgs();
        let ghost nid_base = self.next_id;
        let mut t: usize = 0;
        proof {
            assert(items@.subrange(0, items@.len() as int) =~= items@);
        }
        while t < items.len()
            invariant
                self.wf(),
                self.pkgs() == pkgs_after,
                self.has_pkg_id(pid),
                self.schema_version == old(self).schema_version,
                t <= items@.len(),
                nid_base <= old(self).next_id + 1,
                self.next_id == nid_base + t,
                self.next_id + (items@.len() - t) < u64::MAX,
                forall|q: int| 0 <= q < items@.len() ==> (#[trigger] items@[q]).path@.len() > 0,
                insert_rows(self.rows(), pid, items@.subrange(t as int, items@.len() as int))
                    == insert_rows(base, pid, items@),
            decreases items@.len() - t,
        {
            let ghost stv = *self;
            let ghost prev = self.rows();
            let item = &items[t];
            let ghost key_path = items@[t as int].path@;
            let ghost rv = row_view_of(pid, items@[t as int]);
            // rebuild the table without the row this one replaces
            let ghost orig2 = self.items@;
            let mut kept2: Vec<ItemRow> = Vec::new();
            let mut m: usize = 0;
            proof {
                reveal(Seq::filter);
                assert(kept2@ =~= orig2.subrange(0, 0).filter(
                    |r: ItemRow| !(r.package_id == pid && r.path@ == key_path),
                ));
            }
            while m < self.items.len()
                invariant
                    self.items@ == orig2,
                    m <= orig2.len(),
                    key_path == items@[t as int].path@,
                    t < items@.len(),
                    kept2@ == orig2.subrange(0, m as int).filter(
                        |r: ItemRow| !(r.package_id == pid && r.path@ == key_path),
                    ),
                decreases orig2.len() - m,
            {
                let keep_it = !(self.items[m].package_id == pid && strutil::str_eq(
                    self.items[m].path.as_str(),
                    items[t].path.as_str(),
                ));
                if keep_it {
                    let c = clone_item_row(&self.items[m]);
                    kept2.push(c);
                }
                proof {
                    reveal(Seq::filter);
                    let pre = orig2.subrange(0, m + 1);
                    assert(pre.drop_last() =~= orig2.subrange(0, m as int));
                    assert(pre.last() == orig2[m as int]);
                    assert(kept2@ =~= pre.filter(
                        |r: ItemRow| !(r.package_id == pid && r.path@ == key_path),
                    ));
                }
                m += 1;
            }
            proof {
                assert(orig2.subrange(0, orig2.len() as int) =~= orig2);
            }
            self.items = kept2;
            // append the new row and mirror it in the shadow table
            let rid = self.next_id;
            self.next_id = self.next_id + 1;
            let newrow = ItemRow {
                id: rid,
                package_id: pid,
                path: item.path.clone(),
                kind: item.kind.as_text().to_owned(),
                signature: strutil::clone_opt_string(&item.signature),
                doc: strutil::clone_opt_string(&item.doc),
                visibility: item.visibility.as_text().to_owned(),
            };
            self.items.push(newrow);
            rebuild_fts(self);
            proof {
                lemma_rows_filter_key(orig2, pid, key_path);
                let kp = |r: ItemRow| !(r.package_id == pid && r.path@ == key_path);
                let kpv = |r: RowView| !(r.pid == rv.pid && r.path == rv.path);
                assert(self.items@.drop_last() == orig2.filter(kp));
                assert(self.rows() =~= prev.filter(kpv).push(rv)) by {
                    assert(self.rows().drop_last() =~= orig2.filter(kp).map_values(
                        |r: ItemRow| r@,
                    ));
                    assert(self.rows().last() == rv);
                    assert(self.rows() =~= self.rows().drop_last().push(self.rows().last()));
                }
                assert(self.rows() == replace_row(prev, rv));
                let remaining = items@.subrange(t as int, items@.len() as int);
                assert(remaining[0] == items@[t as int]);
                assert(remaining.subrange(1, remaining.len() as int) =~= items@.subrange(
                    t + 1,
                    items@.len() as int,
                ));
                assert(insert_rows(prev, pid, remaining) == insert_rows(
                    replace_row(prev, rv),
                    pid,
                    items@.subrange(t + 1, items@.len() as int),
                ));
                // well-formedness of the rebuilt table
                lemma_filter_elems(orig2, kp);
                let ids_bad = |a: ItemRow, b: ItemRow| a.id == b.id;
                let key_bad = |a: ItemRow, b: ItemRow| a.package_id == b.package_id && a.path@
                    == b.path@;
                assert forall|a: int, b: int| 0 <= a < b < orig2.len() implies !ids_bad(
                    orig2[a],
                    orig2[b],
                ) by {
                    assert(stv.items@[a].id != stv.items@[b].id);
                }
                assert forall|a: int, b: int| 0 <= a < b < orig2.len() implies !key_bad(
                    orig2[a],
                    orig2[b],
                ) by {
                    assert(stv.rows()[a] == orig2[a]@);
                    assert(stv.rows()[b] == orig2[b]@);
                    assert(!(stv.rows()[a].pid == stv.rows()[b].pid && stv.rows()[a].path
                        == stv.rows()[b].path));
                }
                lemma_filter_pairwise(orig2, kp, ids_bad);
                lemma_filter_pairwise(orig2, kp, key_bad);
                let kept_rows = orig2.filter(kp);
                assert(self.packages == stv.packages);
                assert forall|p: u64| stv.has_pkg_id(p) implies self.has_pkg_id(p) by {
                    let g = choose|g: int|
                        0 <= g < stv.pkgs().len() && stv.pkgs()[g].id == p;
                    assert(self.pkgs()[g].id == p);
                }
                assert forall|q: int| 0 <= q < kept_rows.len() implies {
                    &&& (#[trigger] kept_rows[q]).path@.len() > 0
                    &&& self.has_pkg_id(kept_rows[q].package_id)
                    &&& kept_rows[q].id < rid
                } by {
                    assert(orig2.contains(kept_rows[q]));
                    let w = choose|w: int| 0 <= w < orig2.len() && orig2[w] == kept_rows[q];
                    assert(prev[w] == orig2[w]@);
                    assert(prev[w].path.len() > 0);
                    assert(stv.has_pkg_id(prev[w].pid));
                    assert(stv.items@[w].id < stv.next_id);
                }
                assert forall|q: int| 0 <= q < kept_rows.len() implies !((
                #[trigger] kept_rows[q]).package_id == pid && kept_rows[q].path@ == key_path) by {
                    orig2.lemma_filter_pred(kp, q);
                }
                assert(self.items_wf()) by {
                    assert forall|a: int, b: int| 0 <= a < b < self.items@.len() implies
                        self.items@[a].id != self.items@[b].id by {
                        if b < self.items@.len() - 1 {
                            assert(self.items@[a] == kept_rows[a] && self.items@[b]
                                == kept_rows[b]);
                        } else {
                            assert(self.items@[a] == kept_rows[a]);
                        }
                    }
                    assert forall|a: int, b: int| 0 <= a < b < self.rows().len() implies !(
                        self.rows()[a].pid == self.rows()[b].pid && self.rows()[a].path
                            == self.rows()[b].path) by {
                        if b < self.rows().len() - 1 {
                            assert(self.items@[a] == kept_rows[a] && self.items@[b]
                                == kept_rows[b]);
                            assert(self.rows()[a] == kept_rows[a]@ && self.rows()[b]
                                == kept_rows[b]@);
                        } else {
                            assert(self.items@[a] == kept_rows[a]);
                            assert(self.rows()[a] == kept_rows[a]@);
                            assert(self.rows()[b] == rv);
                        }
                    }
                    assert forall|q: int| 0 <= q < self.rows().len() implies {
                        &&& (#[trigger] self.rows()[q]).path.len() > 0
                        &&& self.has_pkg_id(self.rows()[q].pid)
                    } by {
                        if q < self.rows().len() - 1 {
                            assert(self.items@[q] == kept_rows[q]);
                            assert(self.rows()[q] == kept_rows[q]@);
                        } else {
                            assert(self.rows()[q] == rv);
                        }
                    }
                    assert forall|q: int| 0 <= q < self.items@.len() implies (
                    #[trigger] self.items@[q]).id < self.next_id by {
                        if q < self.items@.len() - 1 {
                            assert(self.items@[q] == kept_rows[q]);
                        }
                    }
                }
            }
            t += 1;
        }
        proof {
            assert(items@.subrange(items@.len() as int, items@.len() as int)
                =~= Seq::<Item>::empty());
            assert(self.rows() == insert_rows(base, pid, items@));
            self.lemma_find_pkg_exists(name@, ver@);
            let k = if old(self).find_pkg(name@, ver@) >= 0 {
                old(self).find_pkg(name@, ver@)
            } else {
                self.pkgs().len() - 1
            };
            assert(self.pkgs()[k].name == name@ && self.pkgs()[k].version == ver@
                && self.pkgs()[k].id == pid);
            assert(self.is_indexed_spec(name@, ver@));
            self.lemma_find_pkg_in_range(name@, ver@, 0);
            let kf = self.find_pkg(name@, ver@);
            assert(kf == k) by {
                let ps = self.pkgs();
                if kf < k {
                    assert(!(ps[kf].name == ps[k].name && ps[kf].version == ps[k].version));
                } else if kf > k {
                    assert(!(ps[k].name == ps[kf].name && ps[k].version == ps[kf].version));
                }
            }
            assert(self.pkg_id(name@, ver@) == pid);
            assert forall|n: Seq<char>, v: Seq<char>|
                old(self).is_indexed_spec(n, v) implies self.is_indexed_spec(n, v) by {
                old(self).lemma_find_pkg_exists(n, v);
                self.lemma_find_pkg_exists(n, v);
                let g = choose|g: int|
                    0 <= g < old(self).pkgs().len() && (#[trigger] old(self).pkgs()[g]).name
                        == n && old(self).pkgs()[g].version == v;
                if old(self).find_pkg(name@, ver@) >= 0 && g == old(self).find_pkg(
                    name@,
                    ver@,
                ) {
                    assert(self.pkgs()[k].name == n && self.pkgs()[k].version == v);
                } else {
                    assert(self.pkgs()[g].name == n && self.pkgs()[g].version == v);
                }
            }
            assert forall|n: Seq<char>, v: Seq<char>|
                old(self).is_indexed_spec(n, v) implies self.find_pkg(n, v) == old(
                self,
            ).find_pkg(n, v) && self.pkg_id(n, v) == old(self).pkg_id(n, v) by {
                old(self).lemma_find_pkg_in_range(n, v, 0);
                old(self).lemma_find_pkg_congruent(*self, n, v, 0);
                let f = old(self).find_pkg(n, v);
                assert(self.pkgs()[f].id == old(self).pkgs()[f].id);
            }
        }
    }

    /// Indexes a batch of parsed packages in one go; each package in the
    /// batch is fully replaced, every package indexed before stays indexed.
    /// When the batch names each package once, every batch entry leaves its
    /// package holding exactly the proposed paths: a path proposed twice (as
    /// re-export duplicates are) survives as the one row the later proposal
    /// wrote, and no other package moves.
    pub fn batch_index(&mut self, batch: &Vec<(crate::deps::RegistryCrate, Vec<Item>)>, now: u64)
        requires
            old(self).wf(),
            forall|b: int|
                0 <= b < batch@.len() ==> (#[trigger] batch@[b]).0.name@.len() > 0,
            forall|b: int, i: int|
                0 <= b < batch@.len() && 0 <= i < batch@[b].1@.len()
                    ==> (#[trigger] batch@[b].1@[i]).path@.len() > 0,
            old(self).next_id + batch_size(batch@, batch@.len() as int) + 2 * batch@.len()
                < u64::MAX,
        ensures
            final(self).wf(),
            final(self).schema_version == old(self).schema_version,
            forall|b: int|
                0 <= b < batch@.len() ==> final(self).is_indexed_spec(
                    (#[trigger] batch@[b]).0.name@,
                    batch@[b].0.version@,
                ),
            forall|n: Seq<char>, v: Seq<char>|
                old(self).is_indexed_spec(n, v) ==> final(self).is_indexed_spec(n, v),
            batch_keys_distinct(batch@) ==> forall|b: int|
                0 <= b < batch@.len() ==> batch_pkg_paths_exact(
                    *final(self),
                    (#[trigger] batch@[b]).0,
                    batch@[b].1@,
                ),
            batch_keys_distinct(batch@) ==> forall|b: int|
                0 <= b < batch@.len() ==> batch_pkg_rows_exact(
                    *final(self),
                    (#[trigger] batch@[b]).0,
                    batch@[b].1@,
                ),
    {
        let mut b: usize = 0;
        while b < batch.len()
            invariant
                self.wf(),
                self.schema_version == old(self).schema_version,
                b <= batch@.len(),
                forall|q: int|
                    0 <= q < batch@.len() ==> (#[trigger] batch@[q]).0.name@.len() > 0,
                forall|q: int, i: int|
                    0 <= q < batch@.len() && 0 <= i < batch@[q].1@.len()
                        ==> (#[trigger] batch@[q].1@[i]).path@.len() > 0,
                self.next_id + batch_size(batch@, batch@.len() as int) - batch_size(
                    batch@,
                    b as int,
                ) + 2 * (batch@.len() - b) < u64::MAX,
                forall|q: int|
                    0 <= q < b ==> self.is_indexed_spec(
                        (#[trigger] batch@[q]).0.name@,
                        batch@[q].0.version@,
                    ),
                forall|n: Seq<char>, v: Seq<char>|
                    old(self).is_indexed_spec(n, v) ==> self.is_indexed_spec(n, v),
                batch_keys_distinct(batch@) ==> forall|q: int|
                    0 <= q < b ==> batch_pkg_paths_exact(
                        *self,
                        (#[trigger] batch@[q]).0,
                        batch@[q].1@,
                    ),
                batch_keys_distinct(batch@) ==> forall|q: int|
                    0 <= q < b ==> batch_pkg_rows_exact(
                        *self,
                        (#[trigger] batch@[q]).0,
                        batch@[q].1@,
                    ),
            decreases batch@.len() - b,
        {
            proof {
                lemma_batch_size_step(batch@, b as int);
                lemma_batch_size_mono(batch@, b as int, batch@.len() as int);
                lemma_batch_size_mono(batch@, b + 1, batch@.len() as int);
            }
            let ghost prev = *self;
            let entry = &batch[b];
            self.index_crate(
                entry.0.name.as_str(),
                entry.0.version.as_str(),
                entry.0.path.as_str(),
                now,
                &entry.1,
            );
            proof {
                if batch_keys_distinct(batch@) {
                    let key2 = batch@[b as int].0;
                    let pid2 = self.pkg_id(key2.name@, key2.version@);
                    // the fresh entry holds exactly its proposed paths
                    lemma_round_trip(drop_pkg_rows(prev.rows(), pid2), pid2, batch@[b as int].1@);
                    assert forall|p: Seq<char>|
                        #[trigger] pid_has_path(self.rows(), pid2, p) <==> item_has_path(
                        batch@[b as int].1@,
                        p,
                    ) by {
                        lemma_drop_pid_clears(prev.rows(), pid2, p);
                    }
                    assert(batch_pkg_paths_exact(*self, key2, batch@[b as int].1@));
                    // earlier entries stand untouched: their packages differ
                    assert forall|q: int| 0 <= q < b + 1 implies batch_pkg_paths_exact(
                        *self,
                        (#[trigger] batch@[q]).0,
                        batch@[q].1@,
                    ) by {
                        if q < b {
                            let key1 = batch@[q].0;
                            assert(prev.is_indexed_spec(key1.name@, key1.version@));
                            assert(self.pkg_id(key1.name@, key1.version@) == prev.pkg_id(
                                key1.name@,
                                key1.version@,
                            ));
                            let pid1 = self.pkg_id(key1.name@, key1.version@);
                            assert(pid1 != pid2) by {
                                self.lemma_find_pkg_in_range(key1.name@, key1.version@, 0);
                                self.lemma_find_pkg_in_range(key2.name@, key2.version@, 0);
                                let f1 = self.find_pkg(key1.name@, key1.version@);
                                let f2 = self.find_pkg(key2.name@, key2.version@);
                                assert(!(key1.name@ == key2.name@ && key1.version@
                                    == key2.version@));
                                assert(f1 != f2);
                                if f1 < f2 {
                                    assert(self.pkgs()[f1].id != self.pkgs()[f2].id);
                                } else {
                                    assert(self.pkgs()[f2].id != self.pkgs()[f1].id);
                                }
                            }
                            assert forall|p: Seq<char>|
                                #[trigger] pid_has_path(self.rows(), pid1, p) <==> item_has_path(
                                batch@[q].1@,
                                p,
                            ) by {
                                lemma_other_pid_paths(
                                    prev.rows(),
                                    pid2,
                                    batch@[b as int].1@,
                                    pid1,
                                    p,
                                );
                            }
                        }
                    }
                    // the ordered row lists: the fresh entry's is the fold of
                    // its items, the earlier entries' stand untouched
                    lemma_fresh_pkg_rows(prev.rows(), pid2, batch@[b as int].1@);
                    assert(batch_pkg_rows_exact(*self, key2, batch@[b as int].1@));
                    assert forall|q: int| 0 <= q < b + 1 implies batch_pkg_rows_exact(
                        *self,
                        (#[trigger] batch@[q]).0,
                        batch@[q].1@,
                    ) by {
                        if q < b {
                            let key1 = batch@[q].0;
                            assert(prev.is_indexed_spec(key1.name@, key1.version@));
                            assert(self.pkg_id(key1.name@, key1.version@) == prev.pkg_id(
                                key1.name@,
                                key1.version@,
                            ));
                            let pid1 = self.pkg_id(key1.name@, key1.version@);
                            assert(pid1 != pid2) by {
                                self.lemma_find_pkg_in_range(key1.name@, key1.version@, 0);
                                self.lemma_find_pkg_in_range(key2.name@, key2.version@, 0);
                                let f1 = self.find_pkg(key1.name@, key1.version@);
                                let f2 = self.find_pkg(key2.name@, key2.version@);
                                assert(!(key1.name@ == key2.name@ && key1.version@
                                    == key2.version@));
                                assert(f1 != f2);
                                if f1 < f2 {
                                    assert(self.pkgs()[f1].id != self.pkgs()[f2].id);
                                } else {
                                    assert(self.pkgs()[f2].id != self.pkgs()[f1].id);
                                }
                            }
                            lemma_other_pid_rows(prev.rows(), pid2, batch@[b as int].1@, pid1);
                            assert(self.rows_of(pid1) == prev.rows_of(pid1));
                        }
                    }
                }
            }
            b += 1;
        }
    }

    /// A store whose package keys and ids extend this one's finds every key
    /// this one finds, at the same place.
    proof fn lemma_find_pkg_congruent(self, other: Store, name: Seq<char>, ver: Seq<char>, k: int)
        requires
            0 <= k,
            self.pkgs().len() <= other.pkgs().len(),
            forall|i: int|
                0 <= i < self.pkgs().len() ==> (#[trigger] other.pkgs()[i]).name
                    == self.pkgs()[i].name && other.pkgs()[i].version == self.pkgs()[i].version
                    && other.pkgs()[i].id == self.pkgs()[i].id,
            self.find_pkg_from(name, ver, k) >= 0,
        ensures
            other.find_pkg_from(name, ver, k) == self.find_pkg_from(name, ver, k),
        decreases self.pkgs().len() - k,
    {
        if k < self.pkgs().len() && !(self.pkgs()[k].name == name && self.pkgs()[k].version
            == ver) {
            self.lemma_find_pkg_congruent(other, name, ver, k + 1);
        }
    }

    proof fn lemma_find_pkg_none(self, name: Seq<char>, ver: Seq<char>, k: int)
        requires
            0 <= k,
            self.find_pkg_from(name, ver, k) == -1,
        ensures
            forall|j: int|
                k <= j < self.pkgs().len() ==> !((#[trigger] self.pkgs()[j]).name == name
                    && self.pkgs()[j].version == ver),
        decreases self.pkgs().len() - k,
    {
        if k < self.pkgs().len() {
            self.lemma_find_pkg_none(name, ver, k + 1);
        }
    }
}

/// Total number of items in the first `k` entries of a batch.
pub open spec fn batch_size(batch: Seq<(crate::deps::RegistryCrate, Vec<Item>)>, k: int) -> int
    decreases k,
{
    if k <= 0 {
        0
    } else if k > batch.len() {
        batch_size(batch, batch.len() as int)
    } else {
        batch_size(batch, k - 1) + batch[k - 1].1@.len()
    }
}

proof fn lemma_batch_size_step(batch: Seq<(crate::deps::RegistryCrate, Vec<Item>)>, k: int)
    requires
        0 <= k < batch.len(),
    ensures
        batch_size(batch, k + 1) == batch_size(batch, k) + batch[k].1@.len(),
{
}

proof fn lemma_batch_size_mono(batch: Seq<(crate::deps::RegistryCrate, Vec<Item>)>, a: int, b: int)
    requires
        0 <= a <= b,
    ensures
        batch_size(batch, a) <= batch_size(batch, b),
    decreases b - a,
{
    if a < b {
        lemma_batch_size_mono(batch, a, b - 1);
        if b <= batch.len() {
            assert(batch_size(batch, b) == batch_size(batch, b - 1) + batch[b - 1].1@.len());
        }
    }
}

/// Rebuilds the full-text shadow table from the item table.
fn rebuild_fts(store: &mut Store)
    ensures
        final(store).packages == old(store).packages,
        final(store).items == old(store).items,
        final(store).next_id == old(store).next_id,
        final(store).schema_version == old(store).schema_version,
        final(store).fts_wf(),
{
    let mut nf: Vec<FtsRow> = Vec::new();
    let mut j: usize = 0;
    while j < store.items.len()
        invariant
            nf@.len() == j,
            j <= store.items@.len(),
            forall|m: int|
                0 <= m < j ==> (#[trigger] nf@[m]).rowid == store.items@[m].id && nf@[m].path@
                    == store.items@[m].path@,
        decreases store.items@.len() - j,
    {
        let rid = store.items[j].id;
        let p = store.items[j].path.clone();
        nf.push(FtsRow { rowid: rid, path: p });
        j += 1;
    }
    store.fts = nf;
}

/// Shadow row `i` stands for an item row of package `pid`.
pub open spec fn fts_row_of_pkg(s: Store, i: int, pid: u64) -> bool {
    exists|j: int|
        0 <= j < s.items@.len() && (#[trigger] s.items@[j]).id == s.fts@[i].rowid
            && s.items@[j].package_id == pid
}

/// Coherence law: for every package of a well-formed store, the full-text
/// shadow table holds exactly as many rows as the item table holds for that
/// package — the shadow table never runs ahead of or behind the items it
/// accelerates.
pub proof fn lemma_fts_coherence(s: Store, pid: u64)
    requires
        s.wf(),
    ensures
        Seq::new(s.fts@.len(), |i: int| i).filter(|i: int| fts_row_of_pkg(s, i, pid)).len()
            == s.items@.filter(|r: ItemRow| r.package_id == pid).len(),
{
    let idxs = Seq::new(s.fts@.len(), |i: int| i);
    assert forall|i: int| 0 <= i < idxs.len() implies (fts_row_of_pkg(s, idxs[i], pid) <==> (
    s.items@[i].package_id == pid)) by {
        assert(s.fts@[i].rowid == s.items@[i].id);
        if s.items@[i].package_id == pid {
            assert(s.items@[i].id == s.fts@[i].rowid);
            assert(fts_row_of_pkg(s, i, pid));
        }
        if fts_row_of_pkg(s, i, pid) {
            let j = choose|j: int|
                0 <= j < s.items@.len() && (#[trigger] s.items@[j]).id == s.fts@[i].rowid
                    && s.items@[j].package_id == pid;
            if j != i {
                assert(s.items@[j].id != s.items@[i].id);
            }
        }
    }
    lemma_filter_len_pointwise(
        idxs,
        s.items@,
        |i: int| fts_row_of_pkg(s, i, pid),
        |r: ItemRow| r.package_id == pid,
    );
}

/// Two sequences of one length whose filters agree index for index produce
/// filters of one length.
proof fn lemma_filter_len_pointwise<A, B>(
    a: Seq<A>,
    b: Seq<B>,
    pa: spec_fn(A) -> bool,
    pb: spec_fn(B) -> bool,
)
    requires
        a.len() == b.len(),
        forall|i: int| 0 <= i < a.len() ==> (pa(a[i]) <==> pb(b[i])),
    ensures
        a.filter(pa).len() == b.filter(pb).len(),
    decreases a.len(),
{
    reveal(Seq::filter);
    if a.len() > 0 {
        let da = a.drop_last();
        let db = b.drop_last();
        assert(forall|i: int| 0 <= i < da.len() ==> da[i] == a[i]);
        assert(forall|i: int| 0 <= i < db.len() ==> db[i] == b[i]);
        lemma_filter_len_pointwise(da, db, pa, pb);
        assert(a.last() == a[a.len() - 1] && b.last() == b[b.len() - 1]);
    }
}

/// Some row of package `pid` carries the path `p`.
pub open spec fn pid_has_path(rows: Seq<RowView>, pid: u64, p: Seq<char>) -> bool {
    exists|i: int| 0 <= i < rows.len() && (#[trigger] rows[i]).pid == pid && rows[i].path == p
}

/// Some item carries the path `p`.
pub open spec fn item_has_path(items: Seq<Item>, p: Seq<char>) -> bool {
    exists|i: int| 0 <= i < items.len() && (#[trigger] items[i]).path@ == p
}

/// Insert-or-replace of one row adds exactly its path to the package's path
/// set.
proof fn lemma_replace_row_paths(rows: Seq<RowView>, rv: RowView, pid: u64, p: Seq<char>)
    requires
        rv.pid == pid,
    ensures
        pid_has_path(replace_row(rows, rv), pid, p) <==> (pid_has_path(rows, pid, p) || p
            == rv.path),
{
    let pred = |r: RowView| !(r.pid == rv.pid && r.path == rv.path);
    let kept = rows.filter(pred);
    lemma_filter_elems(rows, pred);
    if pid_has_path(replace_row(rows, rv), pid, p) {
        let i = choose|i: int|
            0 <= i < replace_row(rows, rv).len() && (#[trigger] replace_row(rows, rv)[i]).pid
                == pid && replace_row(rows, rv)[i].path == p;
        if i < kept.len() {
            assert(replace_row(rows, rv)[i] == kept[i]);
            assert(rows.contains(kept[i]));
            let w = choose|w: int| 0 <= w < rows.len() && rows[w] == kept[i];
            assert(pid_has_path(rows, pid, p));
        } else {
            assert(replace_row(rows, rv)[i] == rv);
        }
    }
    if p == rv.path {
        assert(replace_row(rows, rv)[replace_row(rows, rv).len() - 1] == rv);
        assert(pid_has_path(replace_row(rows, rv), pid, p));
    } else if pid_has_path(rows, pid, p) {
        let i = choose|i: int|
            0 <= i < rows.len() && (#[trigger] rows[i]).pid == pid && rows[i].path == p;
        assert(pred(rows[i]));
        rows.lemma_filter_contains(pred, i);
        let w = choose|w: int| 0 <= w < kept.len() && kept[w] == rows[i];
        assert(replace_row(rows, rv)[w] == rows[i]);
        assert(pid_has_path(replace_row(rows, rv), pid, p));
    }
}

/// Dropping a package's rows leaves it with no paths at all.
pub proof fn lemma_drop_pid_clears(rows: Seq<RowView>, pid: u64, p: Seq<char>)
    ensures
        !pid_has_path(drop_pkg_rows(rows, pid), pid, p),
{
    let kept = drop_pkg_rows(rows, pid);
    if pid_has_path(kept, pid, p) {
        let i = choose|i: int|
            0 <= i < kept.len() && (#[trigger] kept[i]).pid == pid && kept[i].path == p;
        rows.lemma_filter_pred(|r: RowView| r.pid != pid, i);
    }
}

/// Replacing one row of another package does not move this package's paths.
proof fn lemma_replace_other_paths(rows: Seq<RowView>, rv: RowView, pid: u64, p: Seq<char>)
    requires
        rv.pid != pid,
    ensures
        pid_has_path(replace_row(rows, rv), pid, p) == pid_has_path(rows, pid, p),
{
    let pred = |r: RowView| !(r.pid == rv.pid && r.path == rv.path);
    let kept = rows.filter(pred);
    lemma_filter_elems(rows, pred);
    if pid_has_path(replace_row(rows, rv), pid, p) {
        let i = choose|i: int|
            0 <= i < replace_row(rows, rv).len() && (#[trigger] replace_row(rows, rv)[i]).pid
                == pid && replace_row(rows, rv)[i].path == p;
        if i < kept.len() {
            assert(replace_row(rows, rv)[i] == kept[i]);
            assert(rows.contains(kept[i]));
            let w = choose|w: int| 0 <= w < rows.len() && rows[w] == kept[i];
            assert(pid_has_path(rows, pid, p));
        } else {
            assert(replace_row(rows, rv)[i] == rv);
        }
    }
    if pid_has_path(rows, pid, p) {
        let i = choose|i: int|
            0 <= i < rows.len() && (#[trigger] rows[i]).pid == pid && rows[i].path == p;
        assert(pred(rows[i]));
        rows.lemma_filter_contains(pred, i);
        let w = choose|w: int| 0 <= w < kept.len() && kept[w] == rows[i];
        assert(replace_row(rows, rv)[w] == rows[i]);
        assert(pid_has_path(replace_row(rows, rv), pid, p));
    }
}

/// Re-indexing one package does not move any other package's paths.
pub proof fn lemma_other_pid_paths(
    rows: Seq<RowView>,
    pid2: u64,
    items: Seq<Item>,
    pid: u64,
    p: Seq<char>,
)
    requires
        pid != pid2,
    ensures
        pid_has_path(insert_rows(drop_pkg_rows(rows, pid2), pid2, items), pid, p) == pid_has_path(
            rows,
            pid,
            p,
        ),
{
    lemma_insert_other_paths(drop_pkg_rows(rows, pid2), pid2, items, pid, p);
    // dropping another package's rows keeps this package's paths
    let kept = drop_pkg_rows(rows, pid2);
    let pred = |r: RowView| r.pid != pid2;
    lemma_filter_elems(rows, pred);
    if pid_has_path(kept, pid, p) {
        let i = choose|i: int|
            0 <= i < kept.len() && (#[trigger] kept[i]).pid == pid && kept[i].path == p;
        assert(rows.contains(kept[i]));
        let w = choose|w: int| 0 <= w < rows.len() && rows[w] == kept[i];
        assert(pid_has_path(rows, pid, p));
    }
    if pid_has_path(rows, pid, p) {
        let i = choose|i: int|
            0 <= i < rows.len() && (#[trigger] rows[i]).pid == pid && rows[i].path == p;
        assert(pred(rows[i]));
        rows.lemma_filter_contains(pred, i);
        let w = choose|w: int| 0 <= w < kept.len() && kept[w] == rows[i];
        assert(pid_has_path(kept, pid, p));
    }
}

proof fn lemma_insert_other_paths(
    rows: Seq<RowView>,
    pid2: u64,
    items: Seq<Item>,
    pid: u64,
    p: Seq<char>,
)
    requires
        pid != pid2,
    ensures
        pid_has_path(insert_rows(rows, pid2, items), pid, p) == pid_has_path(rows, pid, p),
    decreases items.len(),
{
    if items.len() > 0 {
        let rv = row_view_of(pid2, items[0]);
        lemma_replace_other_paths(rows, rv, pid, p);
        lemma_insert_other_paths(
            replace_row(rows, rv),
            pid2,
            items.subrange(1, items.len() as int),
            pid,
            p,
        );
    }
}

/// The keys of a batch are pairwise distinct.
pub open spec fn batch_keys_distinct(batch: Seq<(crate::deps::RegistryCrate, Vec<Item>)>) -> bool {
    forall|b1: int, b2: int|
        0 <= b1 < b2 < batch.len() ==> !((#[trigger] batch[b1]).0.name@ == (
        #[trigger] batch[b2]).0.name@ && batch[b1].0.version@ == batch[b2].0.version@)
}

/// A package's stored path set is exactly the paths its batch entry
/// proposed: duplicates folded, nothing else surviving.
pub open spec fn batch_pkg_paths_exact(
    s: Store,
    krate: crate::deps::RegistryCrate,
    items: Seq<Item>,
) -> bool {
    forall|p: Seq<char>|
        #[trigger] pid_has_path(s.rows(), s.pkg_id(krate.name@, krate.version@), p)
            <==> item_has_path(items, p)
}

/// Round-trip law: indexing a batch of items for one package leaves the
/// store holding, for that package, exactly the paths the extractor emitted
/// — identical duplicate paths folded into one — on top of whatever paths
/// the package already had. Starting, as a re-index does, from a table
/// cleared of the package, the stored path set and the emitted path set are
/// one and the same.
pub proof fn lemma_round_trip(rows: Seq<RowView>, pid: u64, items: Seq<Item>)
    ensures
        forall|p: Seq<char>|
            #[trigger] pid_has_path(insert_rows(rows, pid, items), pid, p) <==> (pid_has_path(
                rows,
                pid,
                p,
            ) || item_has_path(items, p)),
    decreases items.len(),
{
    if items.len() == 0 {
        assert forall|p: Seq<char>| !item_has_path(items, p) by {}
    } else {
        let rv = row_view_of(pid, items[0]);
        let rest = items.subrange(1, items.len() as int);
        lemma_round_trip(replace_row(rows, rv), pid, rest);
        assert forall|p: Seq<char>|
            #[trigger] pid_has_path(insert_rows(rows, pid, items), pid, p) <==> (pid_has_path(
                rows,
                pid,
                p,
            ) || item_has_path(items, p)) by {
            lemma_replace_row_paths(rows, rv, pid, p);
            assert(insert_rows(rows, pid, items) == insert_rows(replace_row(rows, rv), pid, rest));
            assert((item_has_path(items, p)) <==> (p == items[0].path@ || item_has_path(
                rest,
                p,
            ))) by {
                if item_has_path(items, p) {
                    let i = choose|i: int|
                        0 <= i < items.len() && (#[trigger] items[i]).path@ == p;
                    if i > 0 {
                        assert(rest[i - 1].path@ == p);
                    }
                }
                if item_has_path(rest, p) {
                    let i = choose|i: int|
                        0 <= i < rest.len() && (#[trigger] rest[i]).path@ == p;
                    assert(items[i + 1].path@ == p);
                }
                if p == items[0].path@ {
                    assert(items[0].path@ == p);
                }
            }
        }
    }
}

/// Two filters commute.
proof fn lemma_filter_comm<A>(s: Seq<A>, p: spec_fn(A) -> bool, q: spec_fn(A) -> bool)
    ensures
        s.filter(p).filter(q) == s.filter(q).filter(p),
    decreases s.len(),
{
    reveal(Seq::filter);
    if s.len() > 0 {
        let d = s.drop_last();
        let e = s.last();
        lemma_filter_comm(d, p, q);
        lemma_filter_push(d.filter(p), q, e);
        lemma_filter_push(d.filter(q), p, e);
    }
}

/// Nothing survives a filter that rejects every element.
proof fn lemma_filter_none<A>(s: Seq<A>, p: spec_fn(A) -> bool)
    requires
        forall|i: int| 0 <= i < s.len() ==> !p(s[i]),
    ensures
        s.filter(p) == Seq::<A>::empty(),
    decreases s.len(),
{
    reveal(Seq::filter);
    if s.len() > 0 {
        let d = s.drop_last();
        assert(forall|i: int| 0 <= i < d.len() ==> d[i] == s[i]);
        lemma_filter_none(d, p);
        assert(s.last() == s[s.len() - 1]);
    }
}

/// Filtering slides past a push: the pushed element survives exactly when
/// the predicate accepts it.
proof fn lemma_filter_push<A>(s: Seq<A>, p: spec_fn(A) -> bool, e: A)
    ensures
        p(e) ==> s.push(e).filter(p) == s.filter(p).push(e),
        !p(e) ==> s.push(e).filter(p) == s.filter(p),
{
    reveal(Seq::filter);
    assert(s.push(e).drop_last() =~= s);
    assert(s.push(e).last() == e);
}

/// Inserting a package's items commutes with keeping only that package's
/// rows.
proof fn lemma_insert_rows_own(rows: Seq<RowView>, pid: u64, items: Seq<Item>)
    ensures
        insert_rows(rows, pid, items).filter(|r: RowView| r.pid == pid) == insert_rows(
            rows.filter(|r: RowView| r.pid == pid),
            pid,
            items,
        ),
    decreases items.len(),
{
    if items.len() > 0 {
        let rv = row_view_of(pid, items[0]);
        let rest = items.subrange(1, items.len() as int);
        let keep = |r: RowView| !(r.pid == rv.pid && r.path == rv.path);
        let own = |r: RowView| r.pid == pid;
        lemma_insert_rows_own(replace_row(rows, rv), pid, rest);
        assert(replace_row(rows, rv).filter(own) == replace_row(rows.filter(own), rv)) by {
            lemma_filter_push(rows.filter(keep), own, rv);
            lemma_filter_comm(rows, keep, own);
        }
    }
}

/// Inserting one package's items never touches another package's rows.
proof fn lemma_insert_rows_other(rows: Seq<RowView>, pid2: u64, items: Seq<Item>, pid: u64)
    requires
        pid != pid2,
    ensures
        insert_rows(rows, pid2, items).filter(|r: RowView| r.pid == pid) == rows.filter(
            |r: RowView| r.pid == pid,
        ),
    decreases items.len(),
{
    if items.len() > 0 {
        let rv = row_view_of(pid2, items[0]);
        let keep = |r: RowView| !(r.pid == rv.pid && r.path == rv.path);
        let own = |r: RowView| r.pid == pid;
        assert(replace_row(rows, rv).filter(own) == rows.filter(own)) by {
            lemma_filter_push(rows.filter(keep), own, rv);
            lemma_filter_comm(rows, keep, own);
            assert forall|i: int| 0 <= i < rows.filter(own).len() implies keep(
                #[trigger] rows.filter(own)[i],
            ) by {
                rows.lemma_filter_pred(own, i);
            }
            lemma_filter_all(rows.filter(own), keep);
        }
        lemma_insert_rows_other(
            replace_row(rows, rv),
            pid2,
            items.subrange(1, items.len() as int),
            pid,
        );
    }
}

/// Re-indexing one package leaves the ordered row list of every other
/// package exactly as it was.
pub proof fn lemma_other_pid_rows(rows: Seq<RowView>, pid2: u64, items: Seq<Item>, pid: u64)
    requires
        pid != pid2,
    ensures
        insert_rows(drop_pkg_rows(rows, pid2), pid2, items).filter(|r: RowView| r.pid == pid)
            == rows.filter(|r: RowView| r.pid == pid),
{
    lemma_insert_rows_other(drop_pkg_rows(rows, pid2), pid2, items, pid);
    let neq = |r: RowView| r.pid != pid2;
    let own = |r: RowView| r.pid == pid;
    lemma_filter_comm(rows, neq, own);
    assert forall|i: int| 0 <= i < rows.filter(own).len() implies neq(
        #[trigger] rows.filter(own)[i],
    ) by {
        rows.lemma_filter_pred(own, i);
    }
    lemma_filter_all(rows.filter(own), neq);
}

/// The freshly re-indexed package's ordered row list is exactly the
/// insert-or-replace fold of its items over an empty table.
pub proof fn lemma_fresh_pkg_rows(rows: Seq<RowView>, pid: u64, items: Seq<Item>)
    ensures
        insert_rows(drop_pkg_rows(rows, pid), pid, items).filter(|r: RowView| r.pid == pid)
            == insert_rows(Seq::<RowView>::empty(), pid, items),
{
    lemma_insert_rows_own(drop_pkg_rows(rows, pid), pid, items);
    let own = |r: RowView| r.pid == pid;
    assert forall|i: int| 0 <= i < drop_pkg_rows(rows, pid).len() implies !own(
        #[trigger] drop_pkg_rows(rows, pid)[i],
    ) by {
        rows.lemma_filter_pred(|r: RowView| r.pid != pid, i);
    }
    lemma_filter_none(drop_pkg_rows(rows, pid), own);
    assert(drop_pkg_rows(rows, pid).filter(own) == Seq::<RowView>::empty());
}

/// Insert-or-replace adds at most one row per item.
pub proof fn lemma_insert_rows_len(rows: Seq<RowView>, pid: u64, items: Seq<Item>)
    ensures
        insert_rows(rows, pid, items).len() <= rows.len() + items.len(),
    decreases items.len(),
{
    if items.len() > 0 {
        let rv = row_view_of(pid, items[0]);
        rows.lemma_filter_len(|r: RowView| !(r.pid == rv.pid && r.path == rv.path));
        lemma_insert_rows_len(replace_row(rows, rv), pid, items.subrange(1, items.len() as int));
    }
}

/// A package's stored row list is exactly the ordered insert-or-replace
/// fold of its batch entry's items over an empty table: source order kept,
/// a path proposed twice surviving as the later proposal's row.
pub open spec fn batch_pkg_rows_exact(
    s: Store,
    krate: crate::deps::RegistryCrate,
    items: Seq<Item>,
) -> bool {
    s.rows_of(s.pkg_id(krate.name@, krate.version@)) == insert_rows(
        Seq::<RowView>::empty(),
        s.pkg_id(krate.name@, krate.version@),
        items,
    )
}

/// Filtering a sequence is filtering its multiset.
pub proof fn lemma_filter_to_multiset<A>(s: Seq<A>, pred: spec_fn(A) -> bool)
    ensures
        s.filter(pred).to_multiset() == s.to_multiset().filter(pred),
    decreases s.len(),
{
    broadcast use vstd::seq_lib::group_to_multiset_ensures;
    broadcast use vstd::multiset::group_multiset_axioms;

    reveal(Seq::filter);
    if s.len() == 0 {
        assert(s.filter(pred).to_multiset() =~= s.to_multiset().filter(pred));
    } else {
        let d = s.drop_last();
        let x = s.last();
        lemma_filter_to_multiset(d, pred);
        assert(s =~= d.push(x));
        assert(s.to_multiset() =~= d.to_multiset().insert(x));
        if pred(x) {
            assert(s.filter(pred) == d.filter(pred).push(x));
            assert(s.filter(pred).to_multiset() =~= d.filter(pred).to_multiset().insert(x));
            assert(s.filter(pred).to_multiset() =~= s.to_multiset().filter(pred));
        } else {
            assert(s.filter(pred) == d.filter(pred));
            assert(s.filter(pred).to_multiset() =~= s.to_multiset().filter(pred));
        }
    }
}

/// Two sequences of one multiset filter to one multiset.
pub proof fn lemma_filter_permutes<A>(a: Seq<A>, b: Seq<A>, pred: spec_fn(A) -> bool)
    requires
        a.to_multiset() == b.to_multiset(),
    ensures
        a.filter(pred).to_multiset() == b.filter(pred).to_multiset(),
{
    lemma_filter_to_multiset(a, pred);
    lemma_filter_to_multiset(b, pred);
}

/// Removing one element takes its image out of the mapped multiset.
proof fn lemma_map_remove_ms<A, B>(s: Seq<A>, i: int, f: spec_fn(A) -> B)
    requires
        0 <= i < s.len(),
    ensures
        s.map_values(f).to_multiset() == s.remove(i).map_values(f).to_multiset().insert(f(s[i])),
{
    broadcast use vstd::seq_lib::group_to_multiset_ensures;
    broadcast use vstd::multiset::group_multiset_axioms;

    let left = s.subrange(0, i);
    let right = s.subrange(i + 1, s.len() as int);
    assert(s =~= left.push(s[i]) + right);
    assert(s.remove(i) =~= left + right);
    assert(s.map_values(f) =~= left.map_values(f).push(f(s[i])) + right.map_values(f));
    assert(s.remove(i).map_values(f) =~= left.map_values(f) + right.map_values(f));
    vstd::seq_lib::lemma_multiset_commutative(left.map_values(f).push(f(s[i])), right.map_values(f));
    vstd::seq_lib::lemma_multiset_commutative(left.map_values(f), right.map_values(f));
    assert(left.map_values(f).push(f(s[i])).to_multiset() =~= left.map_values(
        f,
    ).to_multiset().insert(f(s[i])));
    assert(s.map_values(f).to_multiset() =~= s.remove(i).map_values(f).to_multiset().insert(
        f(s[i]),
    ));
}

/// Two sequences of one multiset map to one multiset.
pub proof fn lemma_map_permutes<A, B>(a: Seq<A>, b: Seq<A>, f: spec_fn(A) -> B)
    requires
        a.to_multiset() == b.to_multiset(),
    ensures
        a.map_values(f).to_multiset() == b.map_values(f).to_multiset(),
    decreases a.len(),
{
    broadcast use vstd::seq_lib::group_to_multiset_ensures;
    broadcast use vstd::multiset::group_multiset_axioms;

    if a.len() == 0 {
        assert(b.to_multiset().len() == 0);
        assert(b.len() == 0);
        assert(a.map_values(f).to_multiset() =~= b.map_values(f).to_multiset());
    } else {
        let x = a.last();
        assert(a.contains(x));
        assert(a.to_multiset().contains(x));
        assert(b.contains(x));
        let i = choose|i: int| 0 <= i < b.len() && b[i] == x;
        let b2 = b.remove(i);
        assert(b2.to_multiset() =~= b.to_multiset().remove(x));
        let d = a.drop_last();
        assert(a =~= d.push(x));
        assert(a.to_multiset() =~= d.to_multiset().insert(x));
        assert(d.to_multiset() =~= b2.to_multiset());
        lemma_map_permutes(d, b2, f);
        lemma_map_remove_ms(b, i, f);
        assert(a.map_values(f) =~= d.map_values(f).push(f(x)));
        assert(a.map_values(f).to_multiset() =~= d.map_values(f).to_multiset().insert(f(x)));
        assert(a.map_values(f).to_multiset() =~= b.map_values(f).to_multiset());
    }
}

/// Filtering a sorted sequence keeps it sorted.
pub proof fn lemma_filter_sorted<A>(s: Seq<A>, pred: spec_fn(A) -> bool, leq: spec_fn(A, A) -> bool)
    requires
        vstd::relations::sorted_by(s, leq),
    ensures
        vstd::relations::sorted_by(s.filter(pred), leq),
    decreases s.len(),
{
    reveal(Seq::filter);
    if s.len() > 0 {
        let d = s.drop_last();
        assert(vstd::relations::sorted_by(d, leq)) by {
            assert(forall|i: int| 0 <= i < d.len() ==> d[i] == s[i]);
        }
        lemma_filter_sorted(d, pred, leq);
        lemma_filter_elems(d, pred);
        if pred(s.last()) {
            let f = s.filter(pred);
            assert(f == d.filter(pred).push(s.last()));
            assert forall|i: int, j: int| 0 <= i < j < f.len() implies leq(f[i], f[j]) by {
                if j < f.len() - 1 {
                    assert(f[i] == d.filter(pred)[i] && f[j] == d.filter(pred)[j]);
                } else {
                    assert(f[i] == d.filter(pred)[i]);
                    assert(d.contains(d.filter(pred)[i]));
                    let w = choose|w: int| 0 <= w < d.len() && d[w] == d.filter(pred)[i];
                    assert(s[w] == d[w]);
                    assert(leq(s[w], s[s.len() - 1]));
                }
            }
        }
    }
}

/// Inserting into a sequence adds one copy to its multiset.
pub proof fn lemma_multiset_insert<A>(s: Seq<A>, k: int, x: A)
    requires
        0 <= k <= s.len(),
    ensures
        s.insert(k, x).to_multiset() == s.to_multiset().insert(x),
{
    broadcast use vstd::seq_lib::group_to_multiset_ensures;

    let left = s.subrange(0, k);
    let right = s.subrange(k, s.len() as int);
    assert(s.insert(k, x) =~= left.push(x) + right);
    assert(s =~= left + right);
    vstd::seq_lib::lemma_multiset_commutative(left.push(x), right);
    vstd::seq_lib::lemma_multiset_commutative(left, right);
    assert(left.push(x).to_multiset() =~= left.to_multiset().insert(x));
    assert(s.insert(k, x).to_multiset() =~= left.to_multiset().insert(x).add(
        right.to_multiset(),
    ));
    assert(s.to_multiset().insert(x) =~= left.to_multiset().add(right.to_multiset()).insert(x));
    assert(left.to_multiset().insert(x).add(right.to_multiset()) =~= left.to_multiset().add(
        right.to_multiset(),
    ).insert(x)) by {
        broadcast use vstd::multiset::group_multiset_axioms;

    }
}

} // verus!
