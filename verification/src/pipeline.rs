//! The indexing pipeline's decision core: which packages to (re)index under
//! the skip policy, extraction of their parsed files into items, and the
//! transactional hand-off into the store, with the resulting counts.
//!
//! The host runs the parallel plumbing — one extractor per worker, a single
//! writer draining a bounded channel — and hands each package's parsed trees
//! in here; this sequential core fixes what every schedule must produce.

use vstd::prelude::*;
use crate::deps::RegistryCrate;
use crate::extract::{
    has_decl, lemma_tree_decls_concat, lemma_tree_decls_grow, lemma_tree_decls_mono, listed_in,
    node_size, tree_decls, RustParser, SourceNode,
};
use crate::modpath;
use crate::schema::{Item, ItemKind};
use crate::store::{
    item_has_path, lemma_fresh_pkg_rows, lemma_insert_rows_len, lemma_other_pid_paths,
    lemma_other_pid_rows, lemma_round_trip, pid_has_path, RowView, Store,
};

verus! {

/// One package handed to the indexer: its descriptor and its source files,
/// each parsed and paired with its path relative to the package root.
pub struct PackageInput {
    pub krate: RegistryCrate,
    pub files: Vec<(String, SourceNode)>,
}

/// Counts of one indexing run.
#[derive(Debug, Clone, Copy, PartialEq, Eq, Structural)]
pub struct IndexStats {
    pub indexed: usize,
    pub skipped: usize,
    pub failed: usize,
    pub total_items: usize,
}

/// A parsed package, ready for insertion.
pub struct ParsedCrate {
    pub krate: RegistryCrate,
    pub items: Vec<Item>,
}

/// The number of tree nodes of the first `k` files of a package.
pub open spec fn files_size(files: Seq<(String, SourceNode)>, k: int) -> nat
    decreases k,
{
    if k <= 0 {
        0
    } else if k > files.len() {
        files_size(files, files.len() as int)
    } else {
        files_size(files, k - 1) + node_size(files[k - 1].1)
    }
}

/// The number of items extraction emits for the first `k` files of a
/// package: one per named declaration.
pub open spec fn files_decl_count(files: Seq<(String, SourceNode)>, k: int) -> int
    decreases k,
{
    if k <= 0 {
        0
    } else if k > files.len() {
        files_decl_count(files, files.len() as int)
    } else {
        files_decl_count(files, k - 1) + crate::extract::decl_count(files[k - 1].1)
    }
}

/// The number of tree nodes of the first `k` packages of a run.
pub open spec fn packages_size(pkgs: Seq<PackageInput>, k: int) -> nat
    decreases k,
{
    if k <= 0 {
        0
    } else if k > pkgs.len() {
        packages_size(pkgs, pkgs.len() as int)
    } else {
        packages_size(pkgs, k - 1) + files_size(pkgs[k - 1].files@, pkgs[k - 1].files@.len() as int)
    }
}

proof fn lemma_packages_size_mono(pkgs: Seq<PackageInput>, a: int, b: int)
    requires
        0 <= a <= b,
    ensures
        packages_size(pkgs, a) <= packages_size(pkgs, b),
    decreases b - a,
{
    if a < b {
        lemma_packages_size_mono(pkgs, a, b - 1);
    }
}

/// One prefix extends to another.
pub proof fn lemma_prefix_trans(a: Seq<char>, b: Seq<char>, c: Seq<char>)
    requires
        a.is_prefix_of(b),
        b.is_prefix_of(c),
    ensures
        a.is_prefix_of(c),
{
    assert(c.subrange(0, a.len() as int) =~= b.subrange(0, a.len() as int));
}

/// The module path of a file always begins with the package name.
proof fn lemma_module_prefixed(name: Seq<char>, path: Seq<char>)
    ensures
        name.is_prefix_of(modpath::rust_module_of(name, path)),
        name.len() > 0 ==> modpath::rust_module_of(name, path).len() > 0,
{
    let m = modpath::rust_module_of(name, path);
    if m != name {
        assert(m.subrange(0, name.len() as int) =~= name);
    } else {
        assert(name.is_prefix_of(m)) by {
            assert(m.subrange(0, name.len() as int) =~= name);
        }
    }
}

/// Every named declaration of every file of the package is listed among
/// `items` — nested modules included — under the module path the file's
/// location derives, with its path and kind.
pub open spec fn files_decls_listed(
    items: Seq<Item>,
    files: Seq<(String, SourceNode)>,
    name: Seq<char>,
) -> bool {
    forall|f: int|
        0 <= f < files.len() ==> tree_decls(
            listed_in(items),
            (#[trigger] files[f]).1,
            modpath::rust_module_of(name, files[f].0@),
        )
}

/// Extracts one package: every parsed file contributes its items under the
/// module path its location derives. Every item is well formed and carries
/// the package name as path prefix, and every named declaration of every
/// file — nested modules included — yields an item with its path and kind.
pub fn parse_crate(parser: &RustParser, input: &PackageInput) -> (r: ParsedCrate)
    requires
        input.krate.name@.len() > 0,
    ensures
        r.krate.name@ == input.krate.name@,
        r.krate.version@ == input.krate.version@,
        r.items@.len() <= files_size(input.files@, input.files@.len() as int),
        r.items@.len() == files_decl_count(input.files@, input.files@.len() as int),
        forall|i: int|
            0 <= i < r.items@.len() ==> (#[trigger] r.items@[i]).wf()
                && input.krate.name@.is_prefix_of(r.items@[i].path@) && r.items@[i].path@.len()
                > 0,
        files_decls_listed(r.items@, input.files@, input.krate.name@),
{
    let mut all_items: Vec<Item> = Vec::new();
    let name = input.krate.name.as_str();
    let mut f: usize = 0;
    while f < input.files.len()
        invariant
            input.krate.name@.len() > 0,
            name@ == input.krate.name@,
            f <= input.files@.len(),
            all_items@.len() <= files_size(input.files@, f as int),
            all_items@.len() == files_decl_count(input.files@, f as int),
            forall|i: int|
                0 <= i < all_items@.len() ==> (#[trigger] all_items@[i]).wf()
                    && input.krate.name@.is_prefix_of(all_items@[i].path@)
                    && all_items@[i].path@.len() > 0,
            forall|f2: int|
                0 <= f2 < f ==> tree_decls(
                    listed_in(all_items@),
                    (#[trigger] input.files@[f2]).1,
                    modpath::rust_module_of(input.krate.name@, input.files@[f2].0@),
                ),
        decreases input.files@.len() - f,
    {
        let prefix = modpath::path_to_module(name, input.files[f].0.as_str());
        proof {
            lemma_module_prefixed(name@, input.files@[f as int].0@);
        }
        let mut items = parser.extract_items(&input.files[f].1, prefix.as_str());
        let ghost base = all_items@;
        let ghost extracted = items@;
        all_items.append(&mut items);
        proof {
            assert(all_items@ == base + extracted);
            assert forall|i: int| 0 <= i < all_items@.len() implies (#[trigger] all_items@[i]).wf()
                && input.krate.name@.is_prefix_of(all_items@[i].path@)
                && all_items@[i].path@.len() > 0 by {
                if i < base.len() {
                    assert(all_items@[i] == base[i]);
                } else {
                    let x = extracted[i - base.len()];
                    assert(all_items@[i] == x);
                    assert(x.wf() && prefix@.is_prefix_of(x.path@) && x.path@.len() > 0);
                    lemma_prefix_trans(input.krate.name@, prefix@, x.path@);
                }
            }
            lemma_tree_decls_concat(base, extracted, input.files@[f as int].1, prefix@);
            assert forall|f2: int| 0 <= f2 < f + 1 implies tree_decls(
                listed_in(all_items@),
                (#[trigger] input.files@[f2]).1,
                modpath::rust_module_of(input.krate.name@, input.files@[f2].0@),
            ) by {
                if f2 < f {
                    assert(base.is_prefix_of(all_items@)) by {
                        assert(all_items@.subrange(0, base.len() as int) =~= base);
                    }
                    lemma_tree_decls_grow(
                        base,
                        all_items@,
                        input.files@[f2].1,
                        modpath::rust_module_of(input.krate.name@, input.files@[f2].0@),
                    );
                }
            }
            assert(files_size(input.files@, f + 1) == files_size(input.files@, f as int)
                + node_size(input.files@[f as int].1));
            assert(files_decl_count(input.files@, f + 1) == files_decl_count(
                input.files@,
                f as int,
            ) + crate::extract::decl_count(input.files@[f as int].1));
        }
        f += 1;
    }
    proof {
        assert(files_size(input.files@, input.files@.len() as int) >= files_size(
            input.files@,
            f as int,
        ));
        assert(files_decl_count(input.files@, input.files@.len() as int) == files_decl_count(
            input.files@,
            f as int,
        ));
    }
    ParsedCrate {
        krate: RegistryCrate {
            name: input.krate.name.clone(),
            version: input.krate.version.clone(),
            path: input.krate.path.clone(),
        },
        items: all_items,
    }
}

/// How many of the first `k` packages the store already holds.
pub open spec fn count_indexed(s: Store, pkgs: Seq<PackageInput>, k: int) -> int
    decreases k,
{
    if k <= 0 {
        0
    } else if k > pkgs.len() {
        count_indexed(s, pkgs, pkgs.len() as int)
    } else if s.is_indexed_spec(pkgs[k - 1].krate.name@, pkgs[k - 1].krate.version@) {
        count_indexed(s, pkgs, k - 1) + 1
    } else {
        count_indexed(s, pkgs, k - 1)
    }
}

/// The package keys of a run are pairwise distinct.
pub open spec fn packages_keys_distinct(pkgs: Seq<PackageInput>) -> bool {
    forall|a: int, b: int|
        0 <= a < b < pkgs.len() ==> !((#[trigger] pkgs[a]).krate.name@ == (
        #[trigger] pkgs[b]).krate.name@ && pkgs[a].krate.version@ == pkgs[b].krate.version@)
}

/// A row of package `pid` carries the path, as a predicate on a path and
/// kind, for quantifying over a tree of declarations.
pub open spec fn covered_in(rows: Seq<RowView>, pid: u64) -> spec_fn(Seq<char>, ItemKind) -> bool {
    |p: Seq<char>, k: ItemKind| pid_has_path(rows, pid, p)
}

/// The store covers a freshly indexed package: every named declaration of
/// every file — nested modules included — stands as a row of the package
/// under its path, and the package holds no more rows than its trees have
/// nodes (an empty source tree leaves it with no rows at all).
pub open spec fn package_rows_cover(s: Store, input: PackageInput) -> bool {
    let pid = s.pkg_id(input.krate.name@, input.krate.version@);
    &&& forall|f: int|
        0 <= f < input.files@.len() ==> tree_decls(
            covered_in(s.rows(), pid),
            (#[trigger] input.files@[f]).1,
            modpath::rust_module_of(input.krate.name@, input.files@[f].0@),
        )
    &&& s.rows_of(pid).len() <= files_size(input.files@, input.files@.len() as int)
}

/// The number of items the run proposes for the first `k` packages: the
/// declaration count of every package the skip policy lets through.
pub open spec fn run_decl_count(s: Store, pkgs: Seq<PackageInput>, force: bool, k: int) -> int
    decreases k,
{
    if k <= 0 {
        0
    } else if k > pkgs.len() {
        run_decl_count(s, pkgs, force, pkgs.len() as int)
    } else if !force && s.is_indexed_spec(pkgs[k - 1].krate.name@, pkgs[k - 1].krate.version@) {
        run_decl_count(s, pkgs, force, k - 1)
    } else {
        run_decl_count(s, pkgs, force, k - 1) + files_decl_count(
            pkgs[k - 1].files@,
            pkgs[k - 1].files@.len() as int,
        )
    }
}

/// Builds the index over a package list. Without `force`, a package the
/// store already holds is skipped, so running the build twice in sequence
/// indexes nothing the second time and leaves the store untouched. With
/// `force`, every package is replaced. Each package lands atomically: its
/// items are fully replaced or fully kept, never mixed. Every package that
/// is not skipped is indexed: the host absorbs unreadable or unparseable
/// files before the trees arrive, so nothing fails here and the count of
/// failures is zero.
pub fn build_index(store: &mut Store, parser: &RustParser, packages: &Vec<PackageInput>, force:
    bool, now: u64) -> (r: IndexStats)
    requires
        old(store).wf(),
        forall|i: int|
            0 <= i < packages@.len() ==> (#[trigger] packages@[i]).krate.name@.len() > 0,
        packages@.len() < usize::MAX,
        old(store).next_id + packages_size(packages@, packages@.len() as int) + 2 * packages@.len()
            < u64::MAX,
    ensures
        final(store).wf(),
        final(store).schema_version == old(store).schema_version,
        r.failed == 0,
        r.indexed + r.skipped == packages@.len(),
        force ==> r.skipped == 0,
        !force ==> r.skipped == count_indexed(*old(store), packages@, packages@.len() as int),
        (!force && count_indexed(*old(store), packages@, packages@.len() as int)
            == packages@.len()) ==> *final(store) == *old(store) && r.indexed == 0
            && r.total_items == 0,
        forall|n: Seq<char>, v: Seq<char>|
            old(store).is_indexed_spec(n, v) ==> final(store).is_indexed_spec(n, v),
        forall|i: int|
            0 <= i < packages@.len() ==> final(store).is_indexed_spec(
                (#[trigger] packages@[i]).krate.name@,
                packages@[i].krate.version@,
            ),
        r.total_items <= packages_size(packages@, packages@.len() as int),
        ({
            let total = run_decl_count(*old(store), packages@, force, packages@.len() as int);
            &&& total <= usize::MAX ==> r.total_items == total
            &&& total > usize::MAX ==> r.total_items == usize::MAX
        }),
        packages_keys_distinct(packages@) ==> forall|i: int|
            0 <= i < packages@.len() && (force || !old(store).is_indexed_spec(
                (#[trigger] packages@[i]).krate.name@,
                packages@[i].krate.version@,
            )) ==> package_rows_cover(*final(store), packages@[i]),
{
    let ghost st0 = *old(store);
    // the skip policy is fixed against the store as it stood at the start
    let mut already: Vec<bool> = Vec::new();
    let mut a: usize = 0;
    while a < packages.len()
        invariant
            *store == st0,
            a <= packages@.len(),
            already@.len() == a,
            forall|j: int|
                0 <= j < a ==> already@[j] == st0.is_indexed_spec(
                    (#[trigger] packages@[j]).krate.name@,
                    packages@[j].krate.version@,
                ),
        decreases packages@.len() - a,
    {
        let input = &packages[a];
        already.push(store.is_indexed(input.krate.name.as_str(), input.krate.version.as_str()));
        a += 1;
    }
    let mut indexed: usize = 0;
    let mut skipped: usize = 0;
    let mut total_items: usize = 0;
    let mut k: usize = 0;
    while k < packages.len()
        invariant
            store.wf(),
            store.schema_version == st0.schema_version,
            st0.wf(),
            st0.next_id + packages_size(packages@, packages@.len() as int) + 2 * packages@.len()
                < u64::MAX,
            forall|i: int|
                0 <= i < packages@.len() ==> (#[trigger] packages@[i]).krate.name@.len() > 0,
            packages@.len() < usize::MAX,
            k <= packages@.len(),
            already@.len() == packages@.len(),
            forall|j: int|
                0 <= j < packages@.len() ==> already@[j] == st0.is_indexed_spec(
                    (#[trigger] packages@[j]).krate.name@,
                    packages@[j].krate.version@,
                ),
            store.next_id <= st0.next_id + packages_size(packages@, k as int) + 2 * k,
            indexed + skipped == k,
            force ==> skipped == 0,
            !force ==> skipped == count_indexed(st0, packages@, k as int),
            (!force && skipped == k) ==> *store == st0 && indexed == 0 && total_items == 0,
            forall|n: Seq<char>, v: Seq<char>|
                st0.is_indexed_spec(n, v) ==> store.is_indexed_spec(n, v),
            forall|i: int|
                0 <= i < k ==> store.is_indexed_spec(
                    (#[trigger] packages@[i]).krate.name@,
                    packages@[i].krate.version@,
                ),
            total_items <= packages_size(packages@, k as int),
            ({
                let total = run_decl_count(st0, packages@, force, k as int);
                &&& total <= usize::MAX ==> total_items == total
                &&& total > usize::MAX ==> total_items == usize::MAX
            }),
            packages_keys_distinct(packages@) ==> forall|i: int|
                0 <= i < k && (force || !st0.is_indexed_spec(
                    (#[trigger] packages@[i]).krate.name@,
                    packages@[i].krate.version@,
                )) ==> package_rows_cover(*store, packages@[i]),
        decreases packages@.len() - k,
    {
        let input = &packages[k];
        if !force && already[k] {
            skipped += 1;
            proof {
                if skipped == k + 1 {
                    assert(*store == st0);
                }
                lemma_packages_size_mono(packages@, k as int, k + 1);
            }
        } else {
            let parsed = parse_crate(parser, input);
            let n_items = parsed.items.len();
            proof {
                lemma_packages_size_mono(packages@, k + 1, packages@.len() as int);
                assert(packages_size(packages@, k + 1) == packages_size(packages@, k as int)
                    + files_size(input.files@, input.files@.len() as int));
                assert(store.next_id + n_items + 1 < u64::MAX);
            }
            let ghost prev = *store;
            store.index_crate(
                input.krate.name.as_str(),
                input.krate.version.as_str(),
                input.krate.path.as_str(),
                now,
                &parsed.items,
            );
            indexed += 1;
            if n_items <= usize::MAX - total_items {
                total_items += n_items;
            } else {
                total_items = usize::MAX;
            }
            proof {
                lemma_packages_size_mono(packages@, k as int, k + 1);
                if packages_keys_distinct(packages@) {
                    let key = packages@[k as int].krate;
                    let pid = store.pkg_id(key.name@, key.version@);
                    // the fresh package: every extracted declaration's path
                    // now stands as one of its rows
                    assert forall|p: Seq<char>, kk: ItemKind| #[trigger] has_decl(
                        parsed.items@,
                        p,
                        kk,
                    ) implies pid_has_path(store.rows(), pid, p) by {
                        let w = choose|w: int|
                            0 <= w < parsed.items@.len() && (#[trigger] parsed.items@[w]).path@
                                == p && parsed.items@[w].kind == kk;
                        assert(item_has_path(parsed.items@, p));
                        lemma_round_trip(
                            crate::store::drop_pkg_rows(prev.rows(), pid),
                            pid,
                            parsed.items@,
                        );
                    }
                    assert forall|f: int| 0 <= f < input.files@.len() implies tree_decls(
                        covered_in(store.rows(), pid),
                        (#[trigger] input.files@[f]).1,
                        modpath::rust_module_of(key.name@, input.files@[f].0@),
                    ) by {
                        assert(tree_decls(
                            listed_in(parsed.items@),
                            input.files@[f].1,
                            modpath::rust_module_of(key.name@, input.files@[f].0@),
                        ));
                        lemma_tree_decls_mono(
                            listed_in(parsed.items@),
                            covered_in(store.rows(), pid),
                            input.files@[f].1,
                            modpath::rust_module_of(key.name@, input.files@[f].0@),
                        );
                    }
                    lemma_fresh_pkg_rows(prev.rows(), pid, parsed.items@);
                    lemma_insert_rows_len(Seq::<RowView>::empty(), pid, parsed.items@);
                    assert(store.rows_of(pid).len() <= parsed.items@.len());
                    assert(package_rows_cover(*store, packages@[k as int]));
                    // the packages indexed before this one stand untouched
                    assert forall|i: int|
                        0 <= i < k + 1 && (force || !st0.is_indexed_spec(
                            (#[trigger] packages@[i]).krate.name@,
                            packages@[i].krate.version@,
                        )) implies package_rows_cover(*store, packages@[i]) by {
                        if i < k {
                            let key1 = packages@[i].krate;
                            assert(prev.is_indexed_spec(key1.name@, key1.version@));
                            assert(store.pkg_id(key1.name@, key1.version@) == prev.pkg_id(
                                key1.name@,
                                key1.version@,
                            ));
                            let pid1 = store.pkg_id(key1.name@, key1.version@);
                            assert(!(key1.name@ == key.name@ && key1.version@ == key.version@));
                            store.lemma_pkg_ids_distinct(
                                key1.name@,
                                key1.version@,
                                key.name@,
                                key.version@,
                            );
                            assert(pid1 != pid);
                            assert forall|p: Seq<char>| #[trigger] pid_has_path(
                                prev.rows(),
                                pid1,
                                p,
                            ) implies pid_has_path(store.rows(), pid1, p) by {
                                lemma_other_pid_paths(prev.rows(), pid, parsed.items@, pid1, p);
                            }
                            assert forall|f: int|
                                0 <= f < packages@[i].files@.len() implies tree_decls(
                                covered_in(store.rows(), pid1),
                                (#[trigger] packages@[i].files@[f]).1,
                                modpath::rust_module_of(key1.name@, packages@[i].files@[f].0@),
                            ) by {
                                lemma_tree_decls_mono(
                                    covered_in(prev.rows(), pid1),
                                    covered_in(store.rows(), pid1),
                                    packages@[i].files@[f].1,
                                    modpath::rust_module_of(
                                        key1.name@,
                                        packages@[i].files@[f].0@,
                                    ),
                                );
                            }
                            lemma_other_pid_rows(prev.rows(), pid, parsed.items@, pid1);
                            assert(store.rows_of(pid1) == prev.rows_of(pid1));
                            assert(package_rows_cover(*store, packages@[i]));
                        }
                    }
                }
            }
        }
        k += 1;
    }
    proof {
        assert(count_indexed(st0, packages@, packages@.len() as int) == count_indexed(
            st0,
            packages@,
            k as int,
        ));
    }
    IndexStats { indexed, skipped, failed: 0, total_items }
}

} // verus!
