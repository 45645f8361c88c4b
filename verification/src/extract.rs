//! The tree-walking extractor: turns a parsed Rust syntax tree into the
//! normalized `Item` records of the interchange format.
//!
//! The walk works on `SourceNode`, the library's own value of a parsed tree:
//! each node carries its grammar kind, the source text it spans, the grammar
//! field it fills under its parent, and its children in source order. The
//! host parses source text with its syntax library of choice and hands the
//! tree over in this shape; every extraction decision after that point is
//! verified. Extraction runs in two passes, so methods and trait names attach
//! to their types no matter where the `impl` block stands relative to the
//! type's declaration.

use vstd::prelude::*;
use crate::schema::{Field, Item, ItemKind, Method, Variant, Visibility};
use crate::strutil;
use crate::format_path;

verus! {

/// A node of a parsed source tree, in the library's own shape.
pub struct SourceNode {
    /// The grammar kind, such as `struct_item` or `line_comment`.
    pub kind: String,
    /// The source text this node spans.
    pub text: String,
    /// The grammar field this node fills under its parent, if any.
    pub field: Option<String>,
    /// The children, in source order.
    pub children: Vec<SourceNode>,
}

/// Why a source file produced no tree.
#[derive(Debug, Clone, Copy, PartialEq, Eq, Structural)]
pub enum ParseError {
    /// The syntax library could not be initialized.
    TreeSitterInit,
    /// The source could not be parsed.
    ParseFailed,
}

/// The number of nodes of a tree: the node itself and all below it.
pub open spec fn node_size(n: SourceNode) -> nat
    decreases n, 0int,
{
    1 + children_size(n.children@, n.children@.len() as int)
}

/// The number of nodes of the first `k` trees of a list.
pub open spec fn children_size(cs: Seq<SourceNode>, k: int) -> nat
    decreases cs, k,
{
    if k <= 0 || k > cs.len() {
        0
    } else {
        children_size(cs, k - 1) + node_size(cs[k - 1])
    }
}

/// Two items agree on everything the first pass fixed: only methods and
/// trait names may differ.
pub open spec fn same_decl(a: Item, b: Item) -> bool {
    &&& a.path == b.path
    &&& a.kind == b.kind
    &&& a.signature == b.signature
    &&& a.doc == b.doc
    &&& a.visibility == b.visibility
    &&& a.fields == b.fields
    &&& a.variants == b.variants
    &&& a.related == b.related
    &&& a.since == b.since
    &&& a.until == b.until
    &&& a.moved_from == b.moved_from
    &&& a.deprecated == b.deprecated
}

/// The first child of the given grammar kind at or after `k`, or -1.
pub open spec fn first_kind(cs: Seq<SourceNode>, kind: Seq<char>, k: int) -> int
    decreases cs.len() - k,
{
    if k < 0 || k >= cs.len() {
        -1
    } else if cs[k].kind@ == kind {
        k
    } else {
        first_kind(cs, kind, k + 1)
    }
}

/// The text of the first child of the given grammar kind, if any.
pub open spec fn name_of_kind(n: SourceNode, kind: Seq<char>) -> Option<Seq<char>> {
    let i = first_kind(n.children@, kind, 0);
    if i < 0 {
        None
    } else {
        Some(n.children@[i].text@)
    }
}

/// The name a declaration node carries, read the way the walk reads it.
pub open spec fn decl_name(n: SourceNode) -> Option<Seq<char>> {
    if n.kind@ == "struct_item"@ || n.kind@ == "enum_item"@ || n.kind@ == "trait_item"@ {
        name_of_kind(n, "type_identifier"@)
    } else if n.kind@ == "function_item"@ || n.kind@ == "mod_item"@ || n.kind@
        == "macro_definition"@ {
        name_of_kind(n, "identifier"@)
    } else if n.kind@ == "type_item"@ || n.kind@ == "const_item"@ || n.kind@ == "static_item"@ {
        match name_of_kind(n, "identifier"@) {
            Some(t) => Some(t),
            None => name_of_kind(n, "type_identifier"@),
        }
    } else {
        None
    }
}

/// The item kind a declaration node produces.
pub open spec fn decl_kind(n: SourceNode) -> ItemKind {
    if n.kind@ == "struct_item"@ {
        ItemKind::Struct
    } else if n.kind@ == "enum_item"@ {
        ItemKind::Enum
    } else if n.kind@ == "trait_item"@ {
        ItemKind::Trait
    } else if n.kind@ == "function_item"@ {
        ItemKind::Function
    } else if n.kind@ == "type_item"@ {
        ItemKind::TypeAlias
    } else if n.kind@ == "const_item"@ || n.kind@ == "static_item"@ {
        ItemKind::Constant
    } else if n.kind@ == "mod_item"@ {
        ItemKind::Module
    } else {
        ItemKind::Macro
    }
}

/// The declaration kind names are pairwise distinct.
proof fn lemma_decl_kinds_distinct()
    ensures
        "struct_item"@ != "enum_item"@,
        "struct_item"@ != "trait_item"@,
        "struct_item"@ != "function_item"@,
        "struct_item"@ != "type_item"@,
        "struct_item"@ != "const_item"@,
        "struct_item"@ != "static_item"@,
        "struct_item"@ != "mod_item"@,
        "struct_item"@ != "macro_definition"@,
        "enum_item"@ != "trait_item"@,
        "enum_item"@ != "function_item"@,
        "enum_item"@ != "type_item"@,
        "enum_item"@ != "const_item"@,
        "enum_item"@ != "static_item"@,
        "enum_item"@ != "mod_item"@,
        "enum_item"@ != "macro_definition"@,
        "trait_item"@ != "function_item"@,
        "trait_item"@ != "type_item"@,
        "trait_item"@ != "const_item"@,
        "trait_item"@ != "static_item"@,
        "trait_item"@ != "mod_item"@,
        "trait_item"@ != "macro_definition"@,
        "function_item"@ != "type_item"@,
        "function_item"@ != "const_item"@,
        "function_item"@ != "static_item"@,
        "function_item"@ != "mod_item"@,
        "function_item"@ != "macro_definition"@,
        "type_item"@ != "const_item"@,
        "type_item"@ != "static_item"@,
        "type_item"@ != "mod_item"@,
        "type_item"@ != "macro_definition"@,
        "const_item"@ != "static_item"@,
        "const_item"@ != "mod_item"@,
        "const_item"@ != "macro_definition"@,
        "static_item"@ != "mod_item"@,
        "static_item"@ != "macro_definition"@,
        "mod_item"@ != "macro_definition"@,
{
    reveal_strlit("struct_item");
    reveal_strlit("enum_item");
    reveal_strlit("trait_item");
    reveal_strlit("function_item");
    reveal_strlit("type_item");
    reveal_strlit("const_item");
    reveal_strlit("static_item");
    reveal_strlit("mod_item");
    reveal_strlit("macro_definition");
    assert("struct_item"@.len() == 11);
    assert("enum_item"@.len() == 9);
    assert("trait_item"@.len() == 10);
    assert("function_item"@.len() == 13);
    assert("type_item"@.len() == 9);
    assert("const_item"@.len() == 10);
    assert("static_item"@.len() == 11);
    assert("mod_item"@.len() == 8);
    assert("macro_definition"@.len() == 16);
    assert("enum_item"@[0] == 'e' && "type_item"@[0] == 't');
    assert("trait_item"@[0] == 't' && "const_item"@[0] == 'c');
    assert("struct_item"@[0] == 's' && "static_item"@[1] == 't' && "struct_item"@[1] == 't');
    assert("struct_item"@[2] == 'r' && "static_item"@[2] == 'a');
}

/// The path and kind of the item a named top-level declaration node yields.
pub open spec fn decl_of(n: SourceNode, prefix: Seq<char>) -> Option<(Seq<char>, ItemKind)> {
    match decl_name(n) {
        Some(nm) => Some((prefix + strutil::path_sep() + nm, decl_kind(n))),
        None => None,
    }
}

/// Some item carries the path and kind.
pub open spec fn has_decl(items: Seq<Item>, path: Seq<char>, kind: ItemKind) -> bool {
    exists|i: int|
        0 <= i < items.len() && (#[trigger] items[i]).path@ == path && items[i].kind == kind
}

/// Every item is well formed and placed under the module prefix.
pub open spec fn items_ok(items: Seq<Item>, prefix: Seq<char>) -> bool {
    forall|i: int|
        0 <= i < items.len() ==> (#[trigger] items[i]).wf() && prefix.is_prefix_of(items[i].path@)
            && items[i].path@.len() > 0
}

/// `has_decl` as a predicate on a path and kind, for quantifying over a
/// whole tree.
pub open spec fn listed_in(items: Seq<Item>) -> spec_fn(Seq<char>, ItemKind) -> bool {
    |p: Seq<char>, k: ItemKind| has_decl(items, p, k)
}

/// `pred` holds of the path and kind of every named declaration among `n`'s
/// children — declarations inside nested modules included, under their
/// extended prefixes.
pub open spec fn tree_decls(
    pred: spec_fn(Seq<char>, ItemKind) -> bool,
    n: SourceNode,
    prefix: Seq<char>,
) -> bool
    decreases n,
{
    forall|j: int|
        0 <= j < n.children@.len() ==> child_decls(pred, #[trigger] n.children@[j], prefix)
}

/// `pred` holds of this child's declaration, if it makes one, and of every
/// declaration inside its block when it is a module.
pub open spec fn child_decls(
    pred: spec_fn(Seq<char>, ItemKind) -> bool,
    c: SourceNode,
    prefix: Seq<char>,
) -> bool
    decreases c,
{
    match decl_of(c, prefix) {
        None => true,
        Some(pk) => pred(pk.0, pk.1) && (c.kind@ == "mod_item"@ ==> forall|m: int|
            0 <= m < c.children@.len() && (#[trigger] c.children@[m]).kind@
                == "declaration_list"@ ==> tree_decls(pred, c.children@[m], pk.0)),
    }
}

/// Whatever a tree's declarations satisfy, they satisfy any weaker
/// predicate too.
pub proof fn lemma_tree_decls_mono(
    p1: spec_fn(Seq<char>, ItemKind) -> bool,
    p2: spec_fn(Seq<char>, ItemKind) -> bool,
    n: SourceNode,
    prefix: Seq<char>,
)
    requires
        forall|p: Seq<char>, k: ItemKind| #[trigger] p1(p, k) ==> p2(p, k),
        tree_decls(p1, n, prefix),
    ensures
        tree_decls(p2, n, prefix),
    decreases n,
{
    assert forall|j: int| 0 <= j < n.children@.len() implies child_decls(
        p2,
        #[trigger] n.children@[j],
        prefix,
    ) by {
        lemma_child_decls_mono(p1, p2, n.children@[j], prefix);
    }
}

proof fn lemma_child_decls_mono(
    p1: spec_fn(Seq<char>, ItemKind) -> bool,
    p2: spec_fn(Seq<char>, ItemKind) -> bool,
    c: SourceNode,
    prefix: Seq<char>,
)
    requires
        forall|p: Seq<char>, k: ItemKind| #[trigger] p1(p, k) ==> p2(p, k),
        child_decls(p1, c, prefix),
    ensures
        child_decls(p2, c, prefix),
    decreases c,
{
    if decl_of(c, prefix) is Some {
        let pk = decl_of(c, prefix).unwrap();
        assert(p1(pk.0, pk.1));
        if c.kind@ == "mod_item"@ {
            assert forall|m: int|
                0 <= m < c.children@.len() && (#[trigger] c.children@[m]).kind@
                    == "declaration_list"@ implies tree_decls(p2, c.children@[m], pk.0) by {
                lemma_tree_decls_mono(p1, p2, c.children@[m], pk.0);
            }
        }
    }
}

/// A tree's declarations stay listed when the item list only grows at the
/// end.
pub proof fn lemma_tree_decls_grow(a: Seq<Item>, b: Seq<Item>, n: SourceNode, prefix: Seq<char>)
    requires
        a.is_prefix_of(b),
        tree_decls(listed_in(a), n, prefix),
    ensures
        tree_decls(listed_in(b), n, prefix),
{
    assert forall|p: Seq<char>, k: ItemKind| #[trigger] has_decl(a, p, k) implies has_decl(
        b,
        p,
        k,
    ) by {
        lemma_has_decl_prefix(a, b, p, k);
    }
    lemma_tree_decls_mono(listed_in(a), listed_in(b), n, prefix);
}

/// One child's declarations stay listed when the item list only grows at
/// the end.
pub proof fn lemma_child_decls_grow(a: Seq<Item>, b: Seq<Item>, c: SourceNode, prefix: Seq<char>)
    requires
        a.is_prefix_of(b),
        child_decls(listed_in(a), c, prefix),
    ensures
        child_decls(listed_in(b), c, prefix),
{
    assert forall|p: Seq<char>, k: ItemKind| #[trigger] has_decl(a, p, k) implies has_decl(
        b,
        p,
        k,
    ) by {
        lemma_has_decl_prefix(a, b, p, k);
    }
    lemma_child_decls_mono(listed_in(a), listed_in(b), c, prefix);
}

/// A tree's declarations stay listed under pointwise agreement on path and
/// kind.
pub proof fn lemma_tree_decls_same(a: Seq<Item>, b: Seq<Item>, n: SourceNode, prefix: Seq<char>)
    requires
        a.len() == b.len(),
        forall|i: int| 0 <= i < a.len() ==> same_decl(#[trigger] b[i], a[i]),
        tree_decls(listed_in(a), n, prefix),
    ensures
        tree_decls(listed_in(b), n, prefix),
{
    assert forall|p: Seq<char>, k: ItemKind| #[trigger] has_decl(a, p, k) implies has_decl(
        b,
        p,
        k,
    ) by {
        let w = choose|w: int| 0 <= w < a.len() && (#[trigger] a[w]).path@ == p && a[w].kind == k;
        assert(b[w].path@ == p && b[w].kind == k);
    }
    lemma_tree_decls_mono(listed_in(a), listed_in(b), n, prefix);
}

/// A tree's declarations stay listed when the list is extended at the
/// front.
pub proof fn lemma_tree_decls_concat(a: Seq<Item>, b: Seq<Item>, n: SourceNode, prefix: Seq<char>)
    requires
        tree_decls(listed_in(b), n, prefix),
    ensures
        tree_decls(listed_in(a + b), n, prefix),
{
    assert forall|p: Seq<char>, k: ItemKind| #[trigger] has_decl(b, p, k) implies has_decl(
        a + b,
        p,
        k,
    ) by {
        let w = choose|w: int| 0 <= w < b.len() && (#[trigger] b[w]).path@ == p && b[w].kind == k;
        assert((a + b)[a.len() + w].path@ == p && (a + b)[a.len() + w].kind == k);
    }
    lemma_tree_decls_mono(listed_in(b), listed_in(a + b), n, prefix);
}

/// The number of items the first pass emits for the first `k` children.
pub open spec fn kids_decl_count(cs: Seq<SourceNode>, k: int) -> nat
    decreases cs, k,
{
    if k <= 0 || k > cs.len() {
        0
    } else {
        kids_decl_count(cs, k - 1) + child_decl_count(cs[k - 1])
    }
}

/// The number of items one child contributes: one for a named declaration,
/// plus everything inside its block when it is a module.
pub open spec fn child_decl_count(c: SourceNode) -> nat
    decreases c, 1int,
{
    if decl_name(c) is None {
        0
    } else if c.kind@ == "mod_item"@ {
        1 + mod_lists_count(c.children@, c.children@.len() as int)
    } else {
        1
    }
}

/// The items contributed by the declaration lists among the first `k`
/// children of a module node.
pub open spec fn mod_lists_count(cs: Seq<SourceNode>, k: int) -> nat
    decreases cs, k,
{
    if k <= 0 || k > cs.len() {
        0
    } else {
        mod_lists_count(cs, k - 1) + (if cs[k - 1].kind@ == "declaration_list"@ {
            kids_decl_count(cs[k - 1].children@, cs[k - 1].children@.len() as int)
        } else {
            0
        })
    }
}

/// The number of items extraction emits for a whole tree: one per named
/// declaration, however deeply nested in modules; `impl` blocks add none.
pub open spec fn decl_count(n: SourceNode) -> nat {
    kids_decl_count(n.children@, n.children@.len() as int)
}

/// The attachment invariants the second pass maintains: an item's trait
/// names stay pairwise distinct, and methods land on anything but a trait
/// only when public (a trait's own headers may be private).
pub open spec fn item_attach_ok(it: Item) -> bool {
    &&& forall|t1: int, t2: int|
        0 <= t1 < t2 < it.traits@.len() ==> (#[trigger] it.traits@[t1])@ != (
        #[trigger] it.traits@[t2])@
    &&& it.kind != ItemKind::Trait ==> forall|m: int|
        0 <= m < it.methods@.len() ==> (#[trigger] it.methods@[m]).visibility
            == Visibility::Public
}

/// Every item satisfies the attachment invariants.
pub open spec fn items_attach_ok(items: Seq<Item>) -> bool {
    forall|i: int| 0 <= i < items.len() ==> item_attach_ok(#[trigger] items[i])
}

/// The visibility a declaration node carries, read the way the walk reads
/// it: the first `visibility_modifier` child decides — bare `pub` is
/// public, `pub(crate)` crate-wide, anything else (or none) private.
pub open spec fn vis_of(n: SourceNode) -> Visibility {
    let i = first_kind(n.children@, "visibility_modifier"@, 0);
    if i < 0 {
        Visibility::Private
    } else if n.children@[i].text@ == "pub"@ {
        Visibility::Public
    } else if "pub(crate)"@.is_prefix_of(n.children@[i].text@) {
        Visibility::Crate
    } else {
        Visibility::Private
    }
}

/// The view of an optional text.
pub open spec fn text_view(o: Option<String>) -> Option<Seq<char>> {
    match o {
        Some(s) => Some(s@),
        None => None,
    }
}

/// A declaration's header text: everything before its first body brace,
/// trimmed; its whole text when it has no brace.
pub open spec fn sig_of(s: Seq<char>) -> Seq<char> {
    if strutil::contains_seq(s, "{"@) {
        strutil::trim_spec(s.subrange(0, strutil::first_occ(s, "{"@)))
    } else {
        s
    }
}

/// The documentation lines above the child at `k`, top to bottom, read the
/// way the walk reads them: the contiguous run of `///` line comments (each
/// stripped of its marker and trimmed) or one `/** */` block comment (its
/// inside trimmed) immediately above, attributes stepped over.
pub open spec fn doc_run(cs: Seq<SourceNode>, k: int) -> Seq<Seq<char>>
    decreases k,
{
    if k <= 0 || k > cs.len() {
        seq![]
    } else {
        let sib = cs[k - 1];
        if sib.kind@ == "line_comment"@ {
            if "///"@.is_prefix_of(sib.text@) {
                doc_run(cs, k - 1).push(
                    strutil::trim_spec(strutil::strip_prefix_spec(sib.text@, "///"@)),
                )
            } else {
                seq![]
            }
        } else if sib.kind@ == "block_comment"@ {
            if "/**"@.is_prefix_of(sib.text@) && "*/"@.is_suffix_of(
                strutil::strip_prefix_spec(sib.text@, "/**"@),
            ) {
                seq![
                    strutil::trim_spec(
                        strutil::strip_suffix_spec(
                            strutil::strip_prefix_spec(sib.text@, "/**"@),
                            "*/"@,
                        ),
                    ),
                ]
            } else {
                seq![]
            }
        } else if sib.kind@ == "attribute_item"@ {
            doc_run(cs, k - 1)
        } else {
            seq![]
        }
    }
}

/// Lines joined by line breaks, top to bottom.
pub open spec fn join_nl(lines: Seq<Seq<char>>) -> Seq<char>
    decreases lines.len(),
{
    if lines.len() == 0 {
        seq![]
    } else if lines.len() == 1 {
        lines[0]
    } else {
        join_nl(lines.drop_last()) + "\n"@ + lines.last()
    }
}

/// The documentation of the child at `k`: its lines joined, or nothing when
/// no documentation stands above it.
pub open spec fn doc_of(cs: Seq<SourceNode>, k: int) -> Option<Seq<char>> {
    if doc_run(cs, k).len() == 0 {
        None
    } else {
        Some(join_nl(doc_run(cs, k)))
    }
}

/// The header text an item of the given declaration carries: a function or
/// trait contributes its header line, a module none, a macro its
/// `macro_rules!` banner, everything else its whole text.
pub open spec fn decl_sig_of(c: SourceNode) -> Option<Seq<char>> {
    if c.kind@ == "function_item"@ || c.kind@ == "trait_item"@ {
        Some(sig_of(c.text@))
    } else if c.kind@ == "mod_item"@ {
        None
    } else if c.kind@ == "macro_definition"@ {
        Some("macro_rules! "@ + decl_name(c).unwrap())
    } else {
        Some(c.text@)
    }
}

/// The visibility an item of the given declaration carries: what its
/// modifier says, except that a `macro_rules!` definition reads as public.
pub open spec fn decl_vis_of(c: SourceNode) -> Visibility {
    if c.kind@ == "macro_definition"@ {
        Visibility::Public
    } else {
        vis_of(c)
    }
}

/// The index of the first child filling grammar field `f` at or after `k`,
/// or -1.
pub open spec fn first_field(cs: Seq<SourceNode>, f: Seq<char>, k: int) -> int
    decreases cs.len() - k,
{
    if k < 0 || k >= cs.len() {
        -1
    } else if (cs[k].field matches Some(g) && g@ == f) {
        k
    } else {
        first_field(cs, f, k + 1)
    }
}

/// The text of a field declaration's `type` grammar field, if any.
pub open spec fn field_type_of(n: SourceNode) -> Option<Seq<char>> {
    let i = first_field(n.children@, "type"@, 0);
    if i < 0 {
        None
    } else {
        Some(n.children@[i].text@)
    }
}

/// One field read from its declaration node among its siblings: its name,
/// its `type` grammar field, its leading docs and its modifier.
pub open spec fn field_matches(f: Field, cs: Seq<SourceNode>, m: int) -> bool {
    &&& name_of_kind(cs[m], "field_identifier"@) == Some(f.name@)
    &&& text_view(f.ty) == field_type_of(cs[m])
    &&& text_view(f.doc) == doc_of(cs, m)
    &&& f.visibility == vis_of(cs[m])
}

/// The positions of the named field declarations the first `k` children
/// carry: each as the sibling list it sits in and its index there, in
/// source order.
pub open spec fn field_slots(cs: Seq<SourceNode>, k: int) -> Seq<(Seq<SourceNode>, int)>
    decreases cs, k,
{
    if k <= 0 || k > cs.len() {
        seq![]
    } else {
        field_slots(cs, k - 1) + (if cs[k - 1].kind@ == "field_declaration_list"@ {
            list_slots(cs[k - 1].children@, cs[k - 1].children@.len() as int)
        } else {
            seq![]
        })
    }
}

/// The named field declarations among the first `m` entries of one field
/// declaration list.
pub open spec fn list_slots(cs: Seq<SourceNode>, m: int) -> Seq<(Seq<SourceNode>, int)>
    decreases cs, m,
{
    if m <= 0 || m > cs.len() {
        seq![]
    } else {
        list_slots(cs, m - 1) + (if cs[m - 1].kind@ == "field_declaration"@ && name_of_kind(
            cs[m - 1],
            "field_identifier"@,
        ) is Some {
            seq![(cs, m - 1)]
        } else {
            seq![]
        })
    }
}

/// The field list reads off the node's named field declarations, one field
/// per declaration, in source order, each with its name, type, docs and
/// visibility.
pub open spec fn fields_match(fields: Seq<Field>, n: SourceNode) -> bool {
    let slots = field_slots(n.children@, n.children@.len() as int);
    &&& fields.len() == slots.len()
    &&& forall|i: int|
        0 <= i < fields.len() ==> field_matches(#[trigger] fields[i], slots[i].0, slots[i].1)
}

/// One enum variant read from its node among its siblings: its name, its
/// leading docs, and its own field declarations.
pub open spec fn variant_matches(v: Variant, cs: Seq<SourceNode>, m: int) -> bool {
    &&& name_of_kind(cs[m], "identifier"@) == Some(v.name@)
    &&& text_view(v.doc) == doc_of(cs, m)
    &&& fields_match(v.fields@, cs[m])
}

/// The positions of the named variants the first `k` children of an enum
/// node carry, in source order.
pub open spec fn variant_slots(cs: Seq<SourceNode>, k: int) -> Seq<(Seq<SourceNode>, int)>
    decreases cs, k,
{
    if k <= 0 || k > cs.len() {
        seq![]
    } else {
        variant_slots(cs, k - 1) + (if cs[k - 1].kind@ == "enum_variant_list"@ {
            vlist_slots(cs[k - 1].children@, cs[k - 1].children@.len() as int)
        } else {
            seq![]
        })
    }
}

/// The named variants among the first `m` entries of one variant list.
pub open spec fn vlist_slots(cs: Seq<SourceNode>, m: int) -> Seq<(Seq<SourceNode>, int)>
    decreases cs, m,
{
    if m <= 0 || m > cs.len() {
        seq![]
    } else {
        vlist_slots(cs, m - 1) + (if cs[m - 1].kind@ == "enum_variant"@ && name_of_kind(
            cs[m - 1],
            "identifier"@,
        ) is Some {
            seq![(cs, m - 1)]
        } else {
            seq![]
        })
    }
}

/// The variant list reads off the enum node's named variants, one per
/// declaration, in source order, each with its name, docs and fields.
pub open spec fn variants_match(vs: Seq<Variant>, n: SourceNode) -> bool {
    let slots = variant_slots(n.children@, n.children@.len() as int);
    &&& vs.len() == slots.len()
    &&& forall|i: int|
        0 <= i < vs.len() ==> variant_matches(#[trigger] vs[i], slots[i].0, slots[i].1)
}

/// The item fixes everything its declaration alone determines: path, kind,
/// header text, documentation and visibility.
pub open spec fn item_matches_decl(
    it: Item,
    cs: Seq<SourceNode>,
    j: int,
    prefix: Seq<char>,
) -> bool {
    &&& decl_of(cs[j], prefix) == Some((it.path@, it.kind))
    &&& text_view(it.signature) == decl_sig_of(cs[j])
    &&& text_view(it.doc) == doc_of(cs, j)
    &&& it.visibility == decl_vis_of(cs[j])
    &&& (cs[j].kind@ == "struct_item"@ ==> fields_match(it.fields@, cs[j]))
    &&& (cs[j].kind@ != "struct_item"@ ==> it.fields@.len() == 0)
    &&& (cs[j].kind@ == "enum_item"@ ==> variants_match(it.variants@, cs[j]))
    &&& (cs[j].kind@ != "enum_item"@ ==> it.variants@.len() == 0)
}

/// The declaration at `j`, if named, yields an item that carries its path,
/// kind, header text, documentation and visibility.
pub open spec fn decl_item_listed(
    items: Seq<Item>,
    cs: Seq<SourceNode>,
    j: int,
    prefix: Seq<char>,
) -> bool {
    match decl_of(cs[j], prefix) {
        None => true,
        Some(pk) => exists|i: int|
            0 <= i < items.len() && item_matches_decl(#[trigger] items[i], cs, j, prefix),
    }
}

/// A declaration's item stays listed when the item list only grows at the
/// end.
pub proof fn lemma_decl_item_listed_grow(
    a: Seq<Item>,
    b: Seq<Item>,
    cs: Seq<SourceNode>,
    j: int,
    prefix: Seq<char>,
)
    requires
        0 <= j < cs.len(),
        a.is_prefix_of(b),
        decl_item_listed(a, cs, j, prefix),
    ensures
        decl_item_listed(b, cs, j, prefix),
{
    if decl_of(cs[j], prefix) is Some {
        let i = choose|i: int|
            0 <= i < a.len() && item_matches_decl(#[trigger] a[i], cs, j, prefix);
        assert(b[i] == a.subrange(0, a.len() as int)[i]);
        assert(b[i] == b.subrange(0, a.len() as int)[i]);
        assert(item_matches_decl(b[i], cs, j, prefix));
    }
}

/// A declaration's item stays listed under pointwise agreement on
/// everything but methods and traits.
pub proof fn lemma_decl_item_listed_same(
    a: Seq<Item>,
    b: Seq<Item>,
    cs: Seq<SourceNode>,
    j: int,
    prefix: Seq<char>,
)
    requires
        0 <= j < cs.len(),
        a.len() == b.len(),
        forall|i: int| 0 <= i < a.len() ==> same_decl(#[trigger] b[i], a[i]),
        decl_item_listed(a, cs, j, prefix),
    ensures
        decl_item_listed(b, cs, j, prefix),
{
    if decl_of(cs[j], prefix) is Some {
        let i = choose|i: int|
            0 <= i < a.len() && item_matches_decl(#[trigger] a[i], cs, j, prefix);
        assert(same_decl(b[i], a[i]));
        assert(item_matches_decl(b[i], cs, j, prefix));
    }
}

/// A declaration's item stays listed when the covering list is appended
/// whole at the back of another.
pub proof fn lemma_decl_item_listed_concat(
    a: Seq<Item>,
    b: Seq<Item>,
    cs: Seq<SourceNode>,
    j: int,
    prefix: Seq<char>,
)
    requires
        0 <= j < cs.len(),
        decl_item_listed(b, cs, j, prefix),
    ensures
        decl_item_listed(a + b, cs, j, prefix),
{
    if decl_of(cs[j], prefix) is Some {
        let i = choose|i: int|
            0 <= i < b.len() && item_matches_decl(#[trigger] b[i], cs, j, prefix);
        assert((a + b)[a.len() + i] == b[i]);
        assert(item_matches_decl((a + b)[a.len() + i], cs, j, prefix));
    }
}

/// Every named declaration of the subtree under `n`'s children yields an
/// item with its full declaration content — path, kind, header text,
/// documentation, visibility, fields and variants — nested modules
/// included under their extended prefixes.
pub open spec fn tree_items_listed(items: Seq<Item>, n: SourceNode, prefix: Seq<char>) -> bool
    decreases n, 2int,
{
    forall|j: int|
        #![trigger n.children@[j]]
        0 <= j < n.children@.len() ==> child_items_listed(items, n.children@, j, prefix)
}

/// The declaration at `j` among the siblings `cs` yields its item, and a
/// module's block carries its own declarations' items under the extended
/// prefix.
pub open spec fn child_items_listed(
    items: Seq<Item>,
    cs: Seq<SourceNode>,
    j: int,
    prefix: Seq<char>,
) -> bool
    decreases cs, 1int,
{
    &&& decl_item_listed(items, cs, j, prefix)
    &&& (0 <= j < cs.len() ==> match decl_of(cs[j], prefix) {
        Some(pk) => cs[j].kind@ == "mod_item"@ ==> mod_blocks_listed(items, cs[j], pk.0),
        None => true,
    })
}

/// Every declaration list of a module node carries its declarations' items
/// under the module's path.
pub open spec fn mod_blocks_listed(items: Seq<Item>, c: SourceNode, np: Seq<char>) -> bool
    decreases c, 0int,
{
    forall|m: int|
        0 <= m < c.children@.len() && (#[trigger] c.children@[m]).kind@ == "declaration_list"@
            ==> tree_items_listed(items, c.children@[m], np)
}

/// Tree content stays listed when the item list only grows at the end.
pub proof fn lemma_tree_items_grow(a: Seq<Item>, b: Seq<Item>, n: SourceNode, prefix: Seq<char>)
    requires
        a.is_prefix_of(b),
        tree_items_listed(a, n, prefix),
    ensures
        tree_items_listed(b, n, prefix),
    decreases n, 2int,
{
    assert forall|j: int| #![trigger n.children@[j]]
        0 <= j < n.children@.len() implies child_items_listed(b, n.children@, j, prefix) by {
        assert(child_items_listed(a, n.children@, j, prefix));
        lemma_child_items_grow(a, b, n.children@, j, prefix);
    }
}

proof fn lemma_child_items_grow(
    a: Seq<Item>,
    b: Seq<Item>,
    cs: Seq<SourceNode>,
    j: int,
    prefix: Seq<char>,
)
    requires
        0 <= j < cs.len(),
        a.is_prefix_of(b),
        child_items_listed(a, cs, j, prefix),
    ensures
        child_items_listed(b, cs, j, prefix),
    decreases cs, 1int,
{
    lemma_decl_item_listed_grow(a, b, cs, j, prefix);
    if decl_of(cs[j], prefix) is Some {
        let pk = decl_of(cs[j], prefix).unwrap();
        if cs[j].kind@ == "mod_item"@ {
            assert forall|m: int|
                0 <= m < cs[j].children@.len() && (#[trigger] cs[j].children@[m]).kind@
                    == "declaration_list"@ implies tree_items_listed(
                b,
                cs[j].children@[m],
                pk.0,
            ) by {
                lemma_tree_items_grow(a, b, cs[j].children@[m], pk.0);
            }
        }
    }
}

/// Tree content stays listed under pointwise agreement on everything but
/// methods and traits.
pub proof fn lemma_tree_items_same(a: Seq<Item>, b: Seq<Item>, n: SourceNode, prefix: Seq<char>)
    requires
        a.len() == b.len(),
        forall|i: int| 0 <= i < a.len() ==> same_decl(#[trigger] b[i], a[i]),
        tree_items_listed(a, n, prefix),
    ensures
        tree_items_listed(b, n, prefix),
    decreases n, 2int,
{
    assert forall|j: int| #![trigger n.children@[j]]
        0 <= j < n.children@.len() implies child_items_listed(b, n.children@, j, prefix) by {
        assert(child_items_listed(a, n.children@, j, prefix));
        lemma_child_items_same(a, b, n.children@, j, prefix);
    }
}

proof fn lemma_child_items_same(
    a: Seq<Item>,
    b: Seq<Item>,
    cs: Seq<SourceNode>,
    j: int,
    prefix: Seq<char>,
)
    requires
        0 <= j < cs.len(),
        a.len() == b.len(),
        forall|i: int| 0 <= i < a.len() ==> same_decl(#[trigger] b[i], a[i]),
        child_items_listed(a, cs, j, prefix),
    ensures
        child_items_listed(b, cs, j, prefix),
    decreases cs, 1int,
{
    lemma_decl_item_listed_same(a, b, cs, j, prefix);
    if decl_of(cs[j], prefix) is Some {
        let pk = decl_of(cs[j], prefix).unwrap();
        if cs[j].kind@ == "mod_item"@ {
            assert forall|m: int|
                0 <= m < cs[j].children@.len() && (#[trigger] cs[j].children@[m]).kind@
                    == "declaration_list"@ implies tree_items_listed(
                b,
                cs[j].children@[m],
                pk.0,
            ) by {
                lemma_tree_items_same(a, b, cs[j].children@[m], pk.0);
            }
        }
    }
}

/// Tree content stays listed when the covering list is appended whole.
pub proof fn lemma_tree_items_concat(a: Seq<Item>, b: Seq<Item>, n: SourceNode, prefix: Seq<char>)
    requires
        tree_items_listed(b, n, prefix),
    ensures
        tree_items_listed(a + b, n, prefix),
    decreases n, 2int,
{
    assert forall|j: int| #![trigger n.children@[j]]
        0 <= j < n.children@.len() implies child_items_listed(a + b, n.children@, j, prefix) by {
        assert(child_items_listed(b, n.children@, j, prefix));
        lemma_child_items_concat(a, b, n.children@, j, prefix);
    }
}

proof fn lemma_child_items_concat(
    a: Seq<Item>,
    b: Seq<Item>,
    cs: Seq<SourceNode>,
    j: int,
    prefix: Seq<char>,
)
    requires
        0 <= j < cs.len(),
        child_items_listed(b, cs, j, prefix),
    ensures
        child_items_listed(a + b, cs, j, prefix),
    decreases cs, 1int,
{
    lemma_decl_item_listed_concat(a, b, cs, j, prefix);
    if decl_of(cs[j], prefix) is Some {
        let pk = decl_of(cs[j], prefix).unwrap();
        if cs[j].kind@ == "mod_item"@ {
            assert forall|m: int|
                0 <= m < cs[j].children@.len() && (#[trigger] cs[j].children@[m]).kind@
                    == "declaration_list"@ implies tree_items_listed(
                a + b,
                cs[j].children@[m],
                pk.0,
            ) by {
                lemma_tree_items_concat(a, b, cs[j].children@[m], pk.0);
            }
        }
    }
}

/// The Rust extractor: walks a parsed tree and emits normalized items.
pub struct RustParser {
    /// Each worker owns its extractor; the state is not shared.
    pub ready: bool,
}

impl RustParser {
    /// Builds an extractor.
    pub fn new() -> (r: Result<RustParser, ParseError>)
        ensures
            r matches Ok(p) && p.ready,
    {
        Ok(RustParser { ready: true })
    }

    /// Extracts every exported declaration reachable from the root, in two
    /// passes: declarations first, then `impl` blocks, whose methods and
    /// trait names attach to the already-collected types. Exactly one item
    /// comes out per named declaration — `impl` blocks, known targets or
    /// not, add none — and every declaration of the tree, nested modules
    /// included, is listed under its path and kind.
    pub fn extract_items(&self, root: &SourceNode, prefix: &str) -> (items: Vec<Item>)
        requires
            prefix@.len() > 0,
        ensures
            items_ok(items@, prefix@),
            items@.len() <= node_size(*root),
            items@.len() == decl_count(*root),
            tree_decls(listed_in(items@), *root, prefix@),
            tree_items_listed(items@, *root, prefix@),
            items_attach_ok(items@),
    {
        let mut items: Vec<Item> = Vec::new();
        collect_definitions(root, prefix, &mut items);
        let ghost mid = items@;
        process_impls(root, prefix, &mut items);
        proof {
            lemma_tree_decls_same(mid, items@, *root, prefix@);
            lemma_tree_items_same(mid, items@, *root, prefix@);
        }
        items
    }
}

/// Reads the visibility of a declaration from its `visibility_modifier`
/// child: bare `pub` is public, `pub(crate)` is crate-wide, anything else —
/// including no modifier at all — is private.
fn get_visibility(node: &SourceNode) -> (r: Visibility)
    ensures
        r == vis_of(*node),
{
    proof {
        reveal_strlit("visibility_modifier");
        reveal_strlit("pub");
        reveal_strlit("pub(crate)");
        reveal_strlit("pub(super)");
        reveal_strlit("pub(self)");
    }
    let mut k: usize = 0;
    while k < node.children.len()
        invariant
            k <= node.children@.len(),
            first_kind(node.children@, "visibility_modifier"@, 0) == first_kind(
                node.children@,
                "visibility_modifier"@,
                k as int,
            ),
        decreases node.children@.len() - k,
    {
        proof {
            reveal_strlit("visibility_modifier");
            reveal_strlit("pub");
            reveal_strlit("pub(crate)");
        }
        if strutil::str_eq(node.children[k].kind.as_str(), "visibility_modifier") {
            proof {
                assert(first_kind(node.children@, "visibility_modifier"@, k as int) == k as int);
            }
            let t = &node.children[k].text;
            if strutil::str_eq(t.as_str(), "pub") {
                return Visibility::Public;
            } else if strutil::starts_with(t.as_str(), "pub(crate)") {
                return Visibility::Crate;
            } else {
                return Visibility::Private;
            }
        }
        k += 1;
    }
    Visibility::Private
}

/// The text of the first child of the given grammar kind, if any.
fn get_child_text(node: &SourceNode, kind: &str) -> (r: Option<String>)
    ensures
        match r {
            Some(t) => name_of_kind(*node, kind@) == Some(t@),
            None => name_of_kind(*node, kind@) is None,
        },
{
    let mut k: usize = 0;
    while k < node.children.len()
        invariant
            k <= node.children@.len(),
            first_kind(node.children@, kind@, 0) == first_kind(node.children@, kind@, k as int),
        decreases node.children@.len() - k,
    {
        if strutil::str_eq(node.children[k].kind.as_str(), kind) {
            let t = node.children[k].text.clone();
            proof {
                assert(first_kind(node.children@, kind@, k as int) == k as int);
            }
            return Some(t);
        }
        k += 1;
    }
    None
}

/// The first child filling the given grammar field, if any.
fn find_child_by_field<'a>(node: &'a SourceNode, field: &str) -> (r: Option<&'a SourceNode>)
    ensures
        match r {
            Some(c) => ({
                let i = first_field(node.children@, field@, 0);
                &&& 0 <= i < node.children@.len()
                &&& *c == node.children@[i]
            }),
            None => first_field(node.children@, field@, 0) == -1,
        },
{
    let mut k: usize = 0;
    while k < node.children.len()
        invariant
            k <= node.children@.len(),
            first_field(node.children@, field@, 0) == first_field(node.children@, field@, k as int),
        decreases node.children@.len() - k,
    {
        match &node.children[k].field {
            Some(f) => {
                if strutil::str_eq(f.as_str(), field) {
                    proof {
                        assert(first_field(node.children@, field@, k as int) == k as int);
                    }
                    return Some(&node.children[k]);
                }
            },
            None => {},
        }
        k += 1;
    }
    None
}

/// The declaration's header: its text up to the body brace, trimmed.
fn get_signature_line(node: &SourceNode) -> (r: String)
    ensures
        r@ == sig_of(node.text@),
{
    proof {
        reveal_strlit("{");
    }
    match strutil::find_sub(node.text.as_str(), "{") {
        Some(i) => {
            proof {
                assert("{"@.len() == 1);
                strutil::lemma_first_occ_some(node.text@, "{"@, 0, i as int);
                assert(strutil::contains_seq(node.text@, "{"@));
            }
            let head = strutil::substring_copy(node.text.as_str(), 0, i);
            strutil::trim_copy(head.as_str())
        },
        None => node.text.clone(),
    }
}

/// The documentation block above the child at `idx`: the contiguous run of
/// `///` line comments or one `/** */` block comment immediately before it,
/// attributes skipped, joined top to bottom by line breaks.
fn get_doc_comment(parent: &SourceNode, idx: usize) -> (r: Option<String>)
    requires
        idx <= parent.children@.len(),
    ensures
        text_view(r) == doc_of(parent.children@, idx as int),
{
    proof {
        reveal_strlit("line_comment");
        reveal_strlit("block_comment");
        reveal_strlit("attribute_item");
        reveal_strlit("///");
        reveal_strlit("//!");
        reveal_strlit("/**");
        reveal_strlit("*/");
        reveal_strlit("\n");
    }
    let ghost cs = parent.children@;
    let mut docs: Vec<String> = Vec::new();
    let mut done = false;
    let mut k: usize = idx;
    while !done && k > 0
        invariant
            idx <= parent.children@.len(),
            cs == parent.children@,
            k <= idx,
            !done ==> doc_run(cs, idx as int) == doc_run(cs, k as int) + docs@.map_values(
                |d: String| d@,
            ).reverse(),
            done ==> doc_run(cs, idx as int) == docs@.map_values(|d: String| d@).reverse(),
        decreases k, (if done { 0int } else { 1int }),
    {
        proof {
            reveal_strlit("line_comment");
            reveal_strlit("block_comment");
            reveal_strlit("attribute_item");
            reveal_strlit("///");
            reveal_strlit("/**");
            reveal_strlit("*/");
        }
        let ghost dv0 = docs@.map_values(|d: String| d@);
        let sib = &parent.children[k - 1];
        if strutil::str_eq(sib.kind.as_str(), "line_comment") {
            if strutil::starts_with(sib.text.as_str(), "///") {
                let body = strutil::strip_prefix_copy(sib.text.as_str(), "///");
                docs.push(strutil::trim_copy(body.as_str()));
                proof {
                    let t = strutil::trim_spec(strutil::strip_prefix_spec(sib.text@, "///"@));
                    let dv1 = docs@.map_values(|d: String| d@);
                    assert(dv1 =~= dv0.push(t));
                    assert(dv1.reverse() =~= seq![t] + dv0.reverse());
                    assert(doc_run(cs, k as int) == doc_run(cs, k - 1).push(t));
                    assert(doc_run(cs, k - 1).push(t) + dv0.reverse() =~= doc_run(cs, k - 1)
                        + dv1.reverse());
                }
                k -= 1;
            } else {
                proof {
                    assert(doc_run(cs, k as int) =~= Seq::<Seq<char>>::empty());
                    assert(Seq::<Seq<char>>::empty() + dv0.reverse() =~= dv0.reverse());
                }
                done = true;
            }
        } else if strutil::str_eq(sib.kind.as_str(), "block_comment") {
            if strutil::starts_with(sib.text.as_str(), "/**") {
                let body = strutil::strip_prefix_copy(sib.text.as_str(), "/**");
                if strutil::ends_with(body.as_str(), "*/") {
                    let inner = strutil::strip_suffix_copy(body.as_str(), "*/");
                    docs.push(strutil::trim_copy(inner.as_str()));
                    proof {
                        let t = strutil::trim_spec(
                            strutil::strip_suffix_spec(
                                strutil::strip_prefix_spec(sib.text@, "/**"@),
                                "*/"@,
                            ),
                        );
                        let dv1 = docs@.map_values(|d: String| d@);
                        assert(dv1 =~= dv0.push(t));
                        assert(dv1.reverse() =~= seq![t] + dv0.reverse());
                        assert(doc_run(cs, k as int) =~= seq![t]);
                        assert(seq![t] + dv0.reverse() =~= dv1.reverse());
                    }
                } else {
                    proof {
                        assert(doc_run(cs, k as int) =~= Seq::<Seq<char>>::empty());
                        assert(Seq::<Seq<char>>::empty() + dv0.reverse() =~= dv0.reverse());
                    }
                }
            } else {
                proof {
                    assert(doc_run(cs, k as int) =~= Seq::<Seq<char>>::empty());
                    assert(Seq::<Seq<char>>::empty() + dv0.reverse() =~= dv0.reverse());
                }
            }
            done = true;
        } else if strutil::str_eq(sib.kind.as_str(), "attribute_item") {
            // attributes sit between the docs and the declaration
            proof {
                assert(doc_run(cs, k as int) == doc_run(cs, k - 1));
            }
            k -= 1;
        } else {
            proof {
                assert(doc_run(cs, k as int) =~= Seq::<Seq<char>>::empty());
                assert(Seq::<Seq<char>>::empty() + dv0.reverse() =~= dv0.reverse());
            }
            done = true;
        }
    }
    let ghost dv = docs@.map_values(|d: String| d@);
    proof {
        if !done {
            assert(doc_run(cs, 0) =~= Seq::<Seq<char>>::empty());
            assert(Seq::<Seq<char>>::empty() + dv.reverse() =~= dv.reverse());
        }
        assert(doc_run(cs, idx as int) == dv.reverse());
    }
    if docs.len() == 0 {
        proof {
            assert(dv.reverse().len() == 0);
        }
        return None;
    }
    // the scan collected bottom-up; join top to bottom
    let ghost rl = dv.reverse();
    let mut out = String::new();
    proof {
        assert(rl.subrange(0, 0) =~= Seq::<Seq<char>>::empty());
        assert(out@ =~= join_nl(rl.subrange(0, 0)));
    }
    let mut k: usize = docs.len();
    let mut first = true;
    while k > 0
        invariant
            dv == docs@.map_values(|d: String| d@),
            rl == dv.reverse(),
            rl.len() == docs@.len(),
            k <= docs@.len(),
            first == (k == docs@.len()),
            out@ == join_nl(rl.subrange(0, docs@.len() - k)),
        decreases k,
    {
        proof {
            reveal_strlit("\n");
        }
        let ghost l = docs@.len() as int;
        let ghost t0 = rl.subrange(0, l - k);
        if !first {
            out.append("\n");
        }
        out.append(docs[k - 1].as_str());
        proof {
            let t1 = rl.subrange(0, l - k + 1);
            assert(t1.drop_last() =~= t0);
            assert(t1.last() == rl[l - k]);
            assert(rl[l - k] == dv[k - 1]);
            assert(dv[k - 1] == docs@[k - 1]@);
            if k == l {
                assert(t0 =~= Seq::<Seq<char>>::empty());
                assert(out@ =~= t1[0]);
                assert(join_nl(t1) == t1[0]);
            } else {
                assert(t1.len() >= 2);
                assert(join_nl(t1) == join_nl(t0) + "\n"@ + t1.last());
            }
        }
        first = false;
        k -= 1;
    }
    proof {
        assert(rl.subrange(0, docs@.len() as int) =~= rl);
        assert(out@ == join_nl(doc_run(cs, idx as int)));
    }
    Some(out)
}

/// One scanned child either pushed exactly its one item or pushed nothing,
/// so the count and the listing advance together.
proof fn lemma_step_decl(
    before: Seq<Item>,
    after: Seq<Item>,
    pushed: Option<Item>,
    cs: Seq<SourceNode>,
    j: int,
    prefix: Seq<char>,
)
    requires
        0 <= j < cs.len(),
        cs[j].kind@ != "mod_item"@,
        match decl_of(cs[j], prefix) {
            Some(pk) => pushed matches Some(it) && after == before.push(it) && it.path@ == pk.0
                && it.kind == pk.1 && item_matches_decl(it, cs, j, prefix),
            None => pushed is None && after == before,
        },
    ensures
        after.len() == before.len() + child_decl_count(cs[j]),
        child_decls(listed_in(after), cs[j], prefix),
        decl_item_listed(after, cs, j, prefix),
        before.is_prefix_of(after),
{
    if decl_of(cs[j], prefix) is Some {
        let pk = decl_of(cs[j], prefix).unwrap();
        assert(decl_name(cs[j]) is Some);
        assert(child_decl_count(cs[j]) == 1);
        assert(has_decl(after, pk.0, pk.1)) by {
            assert(after[after.len() - 1].path@ == pk.0 && after[after.len() - 1].kind == pk.1);
        }
        assert(decl_item_listed(after, cs, j, prefix)) by {
            assert(item_matches_decl(after[after.len() - 1], cs, j, prefix));
        }
        assert(before.is_prefix_of(after)) by {
            assert(after.subrange(0, before.len() as int) =~= before);
        }
    } else {
        assert(child_decl_count(cs[j]) == 0);
        assert(before.is_prefix_of(after)) by {
            assert(after.subrange(0, before.len() as int) =~= before);
        }
    }
}

/// First pass: collects struct, enum, trait, function, type alias, constant,
/// module and macro declarations, descending into module blocks.
fn collect_definitions(node: &SourceNode, prefix: &str, items: &mut Vec<Item>)
    requires
        prefix@.len() > 0,
        items_ok(old(items)@, prefix@),
        items_attach_ok(old(items)@),
    ensures
        items_ok(final(items)@, prefix@),
        items_attach_ok(final(items)@),
        final(items)@.len() <= old(items)@.len() + node_size(*node),
        final(items)@.len() == old(items)@.len() + decl_count(*node),
        old(items)@.is_prefix_of(final(items)@),
        tree_decls(listed_in(final(items)@), *node, prefix@),
        tree_items_listed(final(items)@, *node, prefix@),
    decreases *node,
{
    let ghost items0 = items@;
    proof {
        reveal_strlit("struct_item");
        reveal_strlit("enum_item");
        reveal_strlit("trait_item");
        reveal_strlit("function_item");
        reveal_strlit("type_item");
        reveal_strlit("const_item");
        reveal_strlit("static_item");
        reveal_strlit("mod_item");
        reveal_strlit("macro_definition");
        lemma_decl_kinds_distinct();
    }
    let mut k: usize = 0;
    while k < node.children.len()
        invariant
            items0 == old(items)@,
            prefix@.len() > 0,
            k <= node.children@.len(),
            items_ok(items@, prefix@),
            items_attach_ok(items@),
            items@.len() <= items0.len() + children_size(node.children@, k as int),
            items@.len() == items0.len() + kids_decl_count(node.children@, k as int),
            items0.is_prefix_of(items@),
            forall|j: int|
                0 <= j < k ==> child_decls(
                    listed_in(items@),
                    #[trigger] node.children@[j],
                    prefix@,
                ),
            forall|j: int|
                #![trigger node.children@[j]]
                0 <= j < k ==> child_items_listed(items@, node.children@, j, prefix@),
        decreases node.children@.len() - k,
    {
        proof {
            reveal_strlit("struct_item");
            reveal_strlit("enum_item");
            reveal_strlit("trait_item");
            reveal_strlit("function_item");
            reveal_strlit("type_item");
            reveal_strlit("const_item");
            reveal_strlit("static_item");
            reveal_strlit("mod_item");
            reveal_strlit("macro_definition");
            lemma_decl_kinds_distinct();
        }
        let ghost before_child = items@;
        let child = &node.children[k];
        let ck = child.kind.as_str();
        if strutil::str_eq(ck, "struct_item") {
            match parse_struct(node, k, prefix) {
                Some(item) => {
                    let ghost pushed = item;
                    push_ok(items, item, Ghost(prefix@));
                    proof {
                        lemma_step_decl(
                            before_child,
                            items@,
                            Some(pushed),
                            node.children@,
                            k as int,
                            prefix@,
                        );
                    }
                },
                None => {
                    proof {
                        lemma_step_decl(
                            before_child,
                            items@,
                            None::<Item>,
                            node.children@,
                            k as int,
                            prefix@,
                        );
                    }
                },
            }
        } else if strutil::str_eq(ck, "enum_item") {
            match parse_enum(node, k, prefix) {
                Some(item) => {
                    let ghost pushed = item;
                    push_ok(items, item, Ghost(prefix@));
                    proof {
                        lemma_step_decl(
                            before_child,
                            items@,
                            Some(pushed),
                            node.children@,
                            k as int,
                            prefix@,
                        );
                    }
                },
                None => {
                    proof {
                        lemma_step_decl(
                            before_child,
                            items@,
                            None::<Item>,
                            node.children@,
                            k as int,
                            prefix@,
                        );
                    }
                },
            }
        } else if strutil::str_eq(ck, "trait_item") {
            match parse_trait(node, k, prefix) {
                Some(item) => {
                    let ghost pushed = item;
                    push_ok(items, item, Ghost(prefix@));
                    proof {
                        lemma_step_decl(
                            before_child,
                            items@,
                            Some(pushed),
                            node.children@,
                            k as int,
                            prefix@,
                        );
                    }
                },
                None => {
                    proof {
                        lemma_step_decl(
                            before_child,
                            items@,
                            None::<Item>,
                            node.children@,
                            k as int,
                            prefix@,
                        );
                    }
                },
            }
        } else if strutil::str_eq(ck, "function_item") {
            match parse_plain(node, k, prefix, ItemKind::Function) {
                Some(item) => {
                    let ghost pushed = item;
                    push_ok(items, item, Ghost(prefix@));
                    proof {
                        lemma_step_decl(
                            before_child,
                            items@,
                            Some(pushed),
                            node.children@,
                            k as int,
                            prefix@,
                        );
                    }
                },
                None => {
                    proof {
                        lemma_step_decl(
                            before_child,
                            items@,
                            None::<Item>,
                            node.children@,
                            k as int,
                            prefix@,
                        );
                    }
                },
            }
        } else if strutil::str_eq(ck, "type_item") {
            match parse_plain(node, k, prefix, ItemKind::TypeAlias) {
                Some(item) => {
                    let ghost pushed = item;
                    push_ok(items, item, Ghost(prefix@));
                    proof {
                        lemma_step_decl(
                            before_child,
                            items@,
                            Some(pushed),
                            node.children@,
                            k as int,
                            prefix@,
                        );
                    }
                },
                None => {
                    proof {
                        lemma_step_decl(
                            before_child,
                            items@,
                            None::<Item>,
                            node.children@,
                            k as int,
                            prefix@,
                        );
                    }
                },
            }
        } else if strutil::str_eq(ck, "const_item") || strutil::str_eq(ck, "static_item") {
            match parse_plain(node, k, prefix, ItemKind::Constant) {
                Some(item) => {
                    let ghost pushed = item;
                    push_ok(items, item, Ghost(prefix@));
                    proof {
                        lemma_step_decl(
                            before_child,
                            items@,
                            Some(pushed),
                            node.children@,
                            k as int,
                            prefix@,
                        );
                    }
                },
                None => {
                    proof {
                        lemma_step_decl(
                            before_child,
                            items@,
                            None::<Item>,
                            node.children@,
                            k as int,
                            prefix@,
                        );
                    }
                },
            }
        } else if strutil::str_eq(ck, "mod_item") {
            proof {
                assert(decreases_to!(*node => node.children@[k as int]));
            }
            parse_mod(node, k, prefix, items);
        } else if strutil::str_eq(ck, "macro_definition") {
            match parse_macro(node, k, prefix) {
                Some(item) => {
                    let ghost pushed = item;
                    push_ok(items, item, Ghost(prefix@));
                    proof {
                        lemma_step_decl(
                            before_child,
                            items@,
                            Some(pushed),
                            node.children@,
                            k as int,
                            prefix@,
                        );
                    }
                },
                None => {
                    proof {
                        lemma_step_decl(
                            before_child,
                            items@,
                            None::<Item>,
                            node.children@,
                            k as int,
                            prefix@,
                        );
                    }
                },
            }
        } else {
            proof {
                assert(decl_name(node.children@[k as int]) is None);
                assert(child_decl_count(node.children@[k as int]) == 0);
                assert(child_decls(listed_in(items@), node.children@[k as int], prefix@));
                assert(decl_item_listed(items@, node.children@, k as int, prefix@));
                assert(child_items_listed(items@, node.children@, k as int, prefix@));
                assert(items@.subrange(0, before_child.len() as int) =~= before_child);
                assert(before_child.is_prefix_of(items@));
            }
        }
        proof {
            assert(node_size(node.children@[k as int]) >= 1);
            assert(children_size(node.children@, k + 1) == children_size(node.children@, k as int)
                + node_size(node.children@[k as int]));
            assert(kids_decl_count(node.children@, k + 1) == kids_decl_count(
                node.children@,
                k as int,
            ) + child_decl_count(node.children@[k as int]));
            lemma_prefix_of_trans(items0, before_child, items@);
            assert forall|j: int| 0 <= j < k + 1 implies child_decls(
                listed_in(items@),
                #[trigger] node.children@[j],
                prefix@,
            ) by {
                if j < k {
                    lemma_child_decls_grow(before_child, items@, node.children@[j], prefix@);
                }
            }
            assert forall|j: int| #![trigger node.children@[j]]
                0 <= j < k + 1 implies child_items_listed(
                items@,
                node.children@,
                j,
                prefix@,
            ) by {
                if j < k {
                    lemma_child_items_grow(before_child, items@, node.children@, j, prefix@);
                } else if node.children@[k as int].kind@ != "mod_item"@ {
                    assert(decl_item_listed(items@, node.children@, k as int, prefix@));
                    assert(child_items_listed(items@, node.children@, k as int, prefix@));
                }
            }
        }
        k += 1;
    }
}

/// Sequence prefixes chain.
pub proof fn lemma_prefix_of_trans(a: Seq<Item>, b: Seq<Item>, c: Seq<Item>)
    requires
        a.is_prefix_of(b),
        b.is_prefix_of(c),
    ensures
        a.is_prefix_of(c),
{
    assert(c.subrange(0, a.len() as int) =~= b.subrange(0, a.len() as int));
}

/// Appends one well-formed item.
fn push_ok(items: &mut Vec<Item>, item: Item, Ghost(prefix): Ghost<Seq<char>>)
    requires
        items_ok(old(items)@, prefix),
        items_attach_ok(old(items)@),
        item.wf(),
        item_attach_ok(item),
        prefix.is_prefix_of(item.path@),
        item.path@.len() > 0,
    ensures
        items_ok(final(items)@, prefix),
        items_attach_ok(final(items)@),
        final(items)@ == old(items)@.push(item),
        final(items)@.len() == old(items)@.len() + 1,
        old(items)@.is_prefix_of(final(items)@),
    {
    let ghost it = item;
    items.push(item);
    proof {
        assert(final(items)@.subrange(0, old(items)@.len() as int) =~= old(items)@);
        assert forall|i: int| 0 <= i < items@.len() implies item_attach_ok(
            #[trigger] items@[i],
        ) by {
            if i < old(items)@.len() {
                assert(items@[i] == old(items)@[i]);
            } else {
                assert(items@[i] == it);
            }
        }
    }
}

/// Second pass: walks `impl` blocks and attaches their public methods and
/// implemented-trait names to the types collected in the first pass.
fn process_impls(node: &SourceNode, prefix: &str, items: &mut Vec<Item>)
    requires
        prefix@.len() > 0,
        items_ok(old(items)@, prefix@),
        items_attach_ok(old(items)@),
    ensures
        items_ok(final(items)@, prefix@),
        items_attach_ok(final(items)@),
        final(items)@.len() == old(items)@.len(),
        forall|i: int|
            0 <= i < final(items)@.len() ==> same_decl(#[trigger] final(items)@[i], old(items)@[i]),
    decreases *node,
{
    proof {
        reveal_strlit("impl_item");
    }
    let ghost items0 = items@;
    let mut k: usize = 0;
    while k < node.children.len()
        invariant
            items0 == old(items)@,
            prefix@.len() > 0,
            k <= node.children@.len(),
            items_ok(items@, prefix@),
            items_attach_ok(items@),
            items@.len() == items0.len(),
            forall|i: int| 0 <= i < items@.len() ==> same_decl(#[trigger] items@[i], items0[i]),
        decreases node.children@.len() - k,
    {
        proof {
            reveal_strlit("impl_item");
        }
        if strutil::str_eq(node.children[k].kind.as_str(), "impl_item") {
            parse_impl(&node.children[k], prefix, items);
        }
        k += 1;
    }
}

/// Builds the item of a struct declaration: name, header text as signature,
/// leading docs, visibility and fields.
fn parse_struct(parent: &SourceNode, idx: usize, prefix: &str) -> (r: Option<Item>)
    requires
        idx < parent.children@.len(),
        prefix@.len() > 0,
        parent.children@[idx as int].kind@ == "struct_item"@,
    ensures
        r matches Some(item) ==> item.wf() && prefix@.is_prefix_of(item.path@) && item.path@.len()
            > 0 && item_attach_ok(item),
        match decl_of(parent.children@[idx as int], prefix@) {
            Some(pk) => r matches Some(item) && item.path@ == pk.0 && item.kind == pk.1
                && item_matches_decl(item, parent.children@, idx as int, prefix@),
            None => r is None,
        },
{
    proof {
        reveal_strlit("type_identifier");
        reveal_strlit("struct_item");
        reveal_strlit("enum_item");
        reveal_strlit("trait_item");
        reveal_strlit("function_item");
        reveal_strlit("type_item");
        reveal_strlit("const_item");
        reveal_strlit("static_item");
        reveal_strlit("mod_item");
        reveal_strlit("macro_definition");
        lemma_decl_kinds_distinct();
    }
    let node = &parent.children[idx];
    let vis = get_visibility(node);
    let name = match get_child_text(node, "type_identifier") {
        Some(n) => n,
        None => {
            return None;
        },
    };
    let doc = get_doc_comment(parent, idx);
    let signature = node.text.clone();
    let fields = parse_field_list(node);
    let mut item = Item::bare(
        format_path(prefix, name.as_str()),
        ItemKind::Struct,
        Some(signature),
        doc,
        vis,
    );
    item.fields = fields;
    proof {
        reveal_strlit("struct_item");
        reveal_strlit("enum_item");
        reveal_strlit("trait_item");
        reveal_strlit("function_item");
        reveal_strlit("type_item");
        reveal_strlit("const_item");
        reveal_strlit("static_item");
        reveal_strlit("mod_item");
        reveal_strlit("macro_definition");
        lemma_decl_kinds_distinct();
        lemma_format_path_prefixed(prefix@, name@);
        assert(decl_name(parent.children@[idx as int]) == Some(name@));
        assert(decl_of(parent.children@[idx as int], prefix@) == Some(
            (prefix@ + strutil::path_sep() + name@, ItemKind::Struct),
        ));
    }
    Some(item)
}

/// A formatted path keeps its module prefix and is never empty.
proof fn lemma_format_path_prefixed(prefix: Seq<char>, name: Seq<char>)
    requires
        prefix.len() > 0,
    ensures
        prefix.is_prefix_of(prefix + strutil::path_sep() + name),
        (prefix + strutil::path_sep() + name).len() > 0,
{
    let p = prefix + strutil::path_sep() + name;
    assert(p.subrange(0, prefix.len() as int) =~= prefix);
}

/// Collects the fields of a record-like declaration list.
fn parse_field_list(node: &SourceNode) -> (r: Vec<Field>)
    ensures
        fields_match(r@, *node),
{
    proof {
        reveal_strlit("field_declaration_list");
        reveal_strlit("field_declaration");
    }
    let ghost cs = node.children@;
    let mut fields: Vec<Field> = Vec::new();
    let mut k: usize = 0;
    while k < node.children.len()
        invariant
            cs == node.children@,
            k <= node.children@.len(),
            fields@.len() == field_slots(cs, k as int).len(),
            forall|i: int|
                0 <= i < fields@.len() ==> field_matches(
                    #[trigger] fields@[i],
                    field_slots(cs, k as int)[i].0,
                    field_slots(cs, k as int)[i].1,
                ),
        decreases node.children@.len() - k,
    {
        proof {
            reveal_strlit("field_declaration_list");
            reveal_strlit("field_declaration");
        }
        let ghost base = field_slots(cs, k as int);
        if strutil::str_eq(node.children[k].kind.as_str(), "field_declaration_list") {
            let list = &node.children[k];
            let ghost ls = list.children@;
            let mut m: usize = 0;
            while m < list.children.len()
                invariant
                    cs == node.children@,
                    k < node.children@.len(),
                    list == &node.children@[k as int],
                    ls == list.children@,
                    base == field_slots(cs, k as int),
                    m <= list.children@.len(),
                    fields@.len() == base.len() + list_slots(ls, m as int).len(),
                    forall|i: int|
                        0 <= i < fields@.len() ==> field_matches(
                            #[trigger] fields@[i],
                            (base + list_slots(ls, m as int))[i].0,
                            (base + list_slots(ls, m as int))[i].1,
                        ),
                decreases list.children@.len() - m,
            {
                proof {
                    reveal_strlit("field_declaration");
                }
                let ghost before = fields@;
                let ghost slots0 = base + list_slots(ls, m as int);
                if strutil::str_eq(list.children[m].kind.as_str(), "field_declaration") {
                    match parse_field(list, m) {
                        Some(f) => {
                            let ghost pf = f;
                            fields.push(f);
                            proof {
                                assert(list_slots(ls, m + 1) =~= list_slots(ls, m as int)
                                    + seq![(ls, m as int)]);
                                let slots1 = base + list_slots(ls, m + 1);
                                assert(slots1 =~= slots0.push((ls, m as int)));
                                assert forall|i: int| 0 <= i < fields@.len() implies field_matches(
                                    #[trigger] fields@[i],
                                    slots1[i].0,
                                    slots1[i].1,
                                ) by {
                                    if i < before.len() {
                                        assert(fields@[i] == before[i]);
                                        assert(slots1[i] == slots0[i]);
                                    } else {
                                        assert(fields@[i] == pf);
                                        assert(slots1[i] == (ls, m as int));
                                    }
                                }
                            }
                        },
                        None => {
                            proof {
                                assert(list_slots(ls, m + 1) =~= list_slots(ls, m as int));
                            }
                        },
                    }
                } else {
                    proof {
                        assert(list_slots(ls, m + 1) =~= list_slots(ls, m as int));
                    }
                }
                m += 1;
            }
            proof {
                assert(field_slots(cs, k + 1) =~= base + list_slots(ls, ls.len() as int));
            }
        } else {
            proof {
                assert(field_slots(cs, k + 1) =~= base);
            }
        }
        k += 1;
    }
    proof {
        assert(field_slots(cs, node.children@.len() as int) == field_slots(cs, k as int));
    }
    fields
}

/// Builds one field: name, its `type` grammar field, docs and visibility.
fn parse_field(parent: &SourceNode, idx: usize) -> (r: Option<Field>)
    requires
        idx < parent.children@.len(),
    ensures
        match r {
            Some(f) => name_of_kind(parent.children@[idx as int], "field_identifier"@) == Some(
                f.name@,
            ) && field_matches(f, parent.children@, idx as int),
            None => name_of_kind(parent.children@[idx as int], "field_identifier"@) is None,
        },
{
    proof {
        reveal_strlit("field_identifier");
        reveal_strlit("type");
    }
    let node = &parent.children[idx];
    let vis = get_visibility(node);
    let name = match get_child_text(node, "field_identifier") {
        Some(n) => n,
        None => {
            return None;
        },
    };
    let ty = match find_child_by_field(node, "type") {
        Some(t) => Some(t.text.clone()),
        None => None,
    };
    let doc = get_doc_comment(parent, idx);
    Some(Field { name, ty, doc, visibility: vis })
}

/// Builds the item of an enum declaration, with its variants.
fn parse_enum(parent: &SourceNode, idx: usize, prefix: &str) -> (r: Option<Item>)
    requires
        idx < parent.children@.len(),
        prefix@.len() > 0,
        parent.children@[idx as int].kind@ == "enum_item"@,
    ensures
        r matches Some(item) ==> item.wf() && prefix@.is_prefix_of(item.path@) && item.path@.len()
            > 0 && item_attach_ok(item),
        match decl_of(parent.children@[idx as int], prefix@) {
            Some(pk) => r matches Some(item) && item.path@ == pk.0 && item.kind == pk.1
                && item_matches_decl(item, parent.children@, idx as int, prefix@),
            None => r is None,
        },
{
    proof {
        reveal_strlit("type_identifier");
        reveal_strlit("enum_variant_list");
        reveal_strlit("enum_variant");
        reveal_strlit("struct_item");
        reveal_strlit("enum_item");
        reveal_strlit("trait_item");
        reveal_strlit("function_item");
        reveal_strlit("type_item");
        reveal_strlit("const_item");
        reveal_strlit("static_item");
        reveal_strlit("mod_item");
        reveal_strlit("macro_definition");
        lemma_decl_kinds_distinct();
    }
    let node = &parent.children[idx];
    let vis = get_visibility(node);
    let name = match get_child_text(node, "type_identifier") {
        Some(n) => n,
        None => {
            return None;
        },
    };
    let doc = get_doc_comment(parent, idx);
    let signature = node.text.clone();
    let mut variants: Vec<Variant> = Vec::new();
    let ghost vcs = node.children@;
    let mut k: usize = 0;
    while k < node.children.len()
        invariant
            vcs == node.children@,
            k <= node.children@.len(),
            variants@.len() == variant_slots(vcs, k as int).len(),
            forall|i: int|
                0 <= i < variants@.len() ==> variant_matches(
                    #[trigger] variants@[i],
                    variant_slots(vcs, k as int)[i].0,
                    variant_slots(vcs, k as int)[i].1,
                ),
        decreases node.children@.len() - k,
    {
        proof {
            reveal_strlit("enum_variant_list");
            reveal_strlit("enum_variant");
        }
        let ghost base = variant_slots(vcs, k as int);
        if strutil::str_eq(node.children[k].kind.as_str(), "enum_variant_list") {
            let list = &node.children[k];
            let ghost ls = list.children@;
            let mut m: usize = 0;
            while m < list.children.len()
                invariant
                    vcs == node.children@,
                    k < node.children@.len(),
                    list == &node.children@[k as int],
                    ls == list.children@,
                    base == variant_slots(vcs, k as int),
                    m <= list.children@.len(),
                    variants@.len() == base.len() + vlist_slots(ls, m as int).len(),
                    forall|i: int|
                        0 <= i < variants@.len() ==> variant_matches(
                            #[trigger] variants@[i],
                            (base + vlist_slots(ls, m as int))[i].0,
                            (base + vlist_slots(ls, m as int))[i].1,
                        ),
                decreases list.children@.len() - m,
            {
                proof {
                    reveal_strlit("enum_variant");
                }
                let ghost before = variants@;
                let ghost slots0 = base + vlist_slots(ls, m as int);
                if strutil::str_eq(list.children[m].kind.as_str(), "enum_variant") {
                    match parse_variant(list, m) {
                        Some(v) => {
                            let ghost pv = v;
                            variants.push(v);
                            proof {
                                assert(vlist_slots(ls, m + 1) =~= vlist_slots(ls, m as int)
                                    + seq![(ls, m as int)]);
                                let slots1 = base + vlist_slots(ls, m + 1);
                                assert(slots1 =~= slots0.push((ls, m as int)));
                                assert forall|i: int|
                                    0 <= i < variants@.len() implies variant_matches(
                                    #[trigger] variants@[i],
                                    slots1[i].0,
                                    slots1[i].1,
                                ) by {
                                    if i < before.len() {
                                        assert(variants@[i] == before[i]);
                                        assert(slots1[i] == slots0[i]);
                                    } else {
                                        assert(variants@[i] == pv);
                                        assert(slots1[i] == (ls, m as int));
                                    }
                                }
                            }
                        },
                        None => {
                            proof {
                                assert(vlist_slots(ls, m + 1) =~= vlist_slots(ls, m as int));
                            }
                        },
                    }
                } else {
                    proof {
                        assert(vlist_slots(ls, m + 1) =~= vlist_slots(ls, m as int));
                    }
                }
                m += 1;
            }
            proof {
                assert(variant_slots(vcs, k + 1) =~= base + vlist_slots(ls, ls.len() as int));
            }
        } else {
            proof {
                assert(variant_slots(vcs, k + 1) =~= base);
            }
        }
        k += 1;
    }
    proof {
        assert(variant_slots(vcs, node.children@.len() as int) == variant_slots(vcs, k as int));
    }
    let mut item = Item::bare(
        format_path(prefix, name.as_str()),
        ItemKind::Enum,
        Some(signature),
        doc,
        vis,
    );
    item.variants = variants;
    proof {
        reveal_strlit("struct_item");
        reveal_strlit("enum_item");
        reveal_strlit("trait_item");
        reveal_strlit("function_item");
        reveal_strlit("type_item");
        reveal_strlit("const_item");
        reveal_strlit("static_item");
        reveal_strlit("mod_item");
        reveal_strlit("macro_definition");
        lemma_decl_kinds_distinct();
        lemma_format_path_prefixed(prefix@, name@);
        assert(decl_name(parent.children@[idx as int]) == Some(name@));
        assert(decl_of(parent.children@[idx as int], prefix@) == Some(
            (prefix@ + strutil::path_sep() + name@, ItemKind::Enum),
        ));
    }
    Some(item)
}

/// Builds one enum variant: its name, docs, and struct-variant fields.
fn parse_variant(parent: &SourceNode, idx: usize) -> (r: Option<Variant>)
    requires
        idx < parent.children@.len(),
    ensures
        match r {
            Some(v) => name_of_kind(parent.children@[idx as int], "identifier"@) == Some(v.name@)
                && variant_matches(v, parent.children@, idx as int),
            None => name_of_kind(parent.children@[idx as int], "identifier"@) is None,
        },
{
    proof {
        reveal_strlit("identifier");
    }
    let node = &parent.children[idx];
    let name = match get_child_text(node, "identifier") {
        Some(n) => n,
        None => {
            return None;
        },
    };
    let doc = get_doc_comment(parent, idx);
    let fields = parse_field_list(node);
    Some(Variant { name, doc, fields })
}

/// Builds the item of a trait declaration, with its method headers.
fn parse_trait(parent: &SourceNode, idx: usize, prefix: &str) -> (r: Option<Item>)
    requires
        idx < parent.children@.len(),
        prefix@.len() > 0,
        parent.children@[idx as int].kind@ == "trait_item"@,
    ensures
        r matches Some(item) ==> item.wf() && prefix@.is_prefix_of(item.path@) && item.path@.len()
            > 0 && item_attach_ok(item),
        match decl_of(parent.children@[idx as int], prefix@) {
            Some(pk) => r matches Some(item) && item.path@ == pk.0 && item.kind == pk.1
                && item_matches_decl(item, parent.children@, idx as int, prefix@),
            None => r is None,
        },
{
    proof {
        reveal_strlit("type_identifier");
        reveal_strlit("declaration_list");
        reveal_strlit("function_signature_item");
        reveal_strlit("struct_item");
        reveal_strlit("enum_item");
        reveal_strlit("trait_item");
        reveal_strlit("function_item");
        reveal_strlit("type_item");
        reveal_strlit("const_item");
        reveal_strlit("static_item");
        reveal_strlit("mod_item");
        reveal_strlit("macro_definition");
        lemma_decl_kinds_distinct();
    }
    let node = &parent.children[idx];
    let vis = get_visibility(node);
    let name = match get_child_text(node, "type_identifier") {
        Some(n) => n,
        None => {
            return None;
        },
    };
    let doc = get_doc_comment(parent, idx);
    let signature = get_signature_line(node);
    let mut methods: Vec<Method> = Vec::new();
    let mut k: usize = 0;
    while k < node.children.len()
        invariant
            k <= node.children@.len(),
        decreases node.children@.len() - k,
    {
        proof {
            reveal_strlit("declaration_list");
            reveal_strlit("function_signature_item");
            reveal_strlit("function_item");
        }
        if strutil::str_eq(node.children[k].kind.as_str(), "declaration_list") {
            let list = &node.children[k];
            let mut m: usize = 0;
            while m < list.children.len()
                invariant
                    m <= list.children@.len(),
                decreases list.children@.len() - m,
            {
                proof {
                    reveal_strlit("function_signature_item");
                    reveal_strlit("function_item");
                }
                let mk = list.children[m].kind.as_str();
                if strutil::str_eq(mk, "function_signature_item") || strutil::str_eq(
                    mk,
                    "function_item",
                ) {
                    match parse_method(list, m) {
                        Some(method) => methods.push(method),
                        None => {},
                    }
                }
                m += 1;
            }
        }
        k += 1;
    }
    let mut item = Item::bare(
        format_path(prefix, name.as_str()),
        ItemKind::Trait,
        Some(signature),
        doc,
        vis,
    );
    item.methods = methods;
    proof {
        reveal_strlit("struct_item");
        reveal_strlit("enum_item");
        reveal_strlit("trait_item");
        reveal_strlit("function_item");
        reveal_strlit("type_item");
        reveal_strlit("const_item");
        reveal_strlit("static_item");
        reveal_strlit("mod_item");
        reveal_strlit("macro_definition");
        lemma_decl_kinds_distinct();
        lemma_format_path_prefixed(prefix@, name@);
        assert(decl_name(parent.children@[idx as int]) == Some(name@));
        assert(decl_of(parent.children@[idx as int], prefix@) == Some(
            (prefix@ + strutil::path_sep() + name@, ItemKind::Trait),
        ));
    }
    Some(item)
}

/// Builds one method record: name, header, docs, visibility.
fn parse_method(parent: &SourceNode, idx: usize) -> (r: Option<Method>)
    requires
        idx < parent.children@.len(),
    ensures
        r matches Some(m) ==> m.visibility == vis_of(parent.children@[idx as int]),
{
    proof {
        reveal_strlit("identifier");
    }
    let node = &parent.children[idx];
    let name = match get_child_text(node, "identifier") {
        Some(n) => n,
        None => {
            return None;
        },
    };
    let vis = get_visibility(node);
    let doc = get_doc_comment(parent, idx);
    let signature = get_signature_line(node);
    Some(Method { name, signature: Some(signature), doc, visibility: vis })
}

/// Builds the item of a function, type alias or constant declaration.
fn parse_plain(parent: &SourceNode, idx: usize, prefix: &str, kind: ItemKind) -> (r: Option<Item>)
    requires
        idx < parent.children@.len(),
        prefix@.len() > 0,
        kind == ItemKind::Function || kind == ItemKind::TypeAlias || kind == ItemKind::Constant,
        kind == decl_kind(parent.children@[idx as int]),
        kind == ItemKind::Function ==> parent.children@[idx as int].kind@ == "function_item"@,
        kind == ItemKind::TypeAlias ==> parent.children@[idx as int].kind@ == "type_item"@,
        kind == ItemKind::Constant ==> parent.children@[idx as int].kind@ == "const_item"@
            || parent.children@[idx as int].kind@ == "static_item"@,
    ensures
        r matches Some(item) ==> item.wf() && prefix@.is_prefix_of(item.path@) && item.path@.len()
            > 0 && item_attach_ok(item),
        match decl_of(parent.children@[idx as int], prefix@) {
            Some(pk) => r matches Some(item) && item.path@ == pk.0 && item.kind == pk.1
                && item_matches_decl(item, parent.children@, idx as int, prefix@),
            None => r is None,
        },
{
    proof {
        reveal_strlit("identifier");
        reveal_strlit("type_identifier");
        reveal_strlit("struct_item");
        reveal_strlit("enum_item");
        reveal_strlit("trait_item");
        reveal_strlit("function_item");
        reveal_strlit("type_item");
        reveal_strlit("const_item");
        reveal_strlit("static_item");
        reveal_strlit("mod_item");
        reveal_strlit("macro_definition");
        lemma_decl_kinds_distinct();
    }
    let node = &parent.children[idx];
    let vis = get_visibility(node);
    let is_function = match kind {
        ItemKind::Function => true,
        _ => false,
    };
    let name = match get_child_text(node, "identifier") {
        Some(n) => Some(n),
        None => if is_function {
            None
        } else {
            get_child_text(node, "type_identifier")
        },
    };
    let name = match name {
        Some(n) => n,
        None => {
            return None;
        },
    };
    let doc = get_doc_comment(parent, idx);
    let signature = match kind {
        ItemKind::Function => get_signature_line(node),
        _ => node.text.clone(),
    };
    let item = Item::bare(
        format_path(prefix, name.as_str()),
        kind,
        Some(signature),
        doc,
        vis,
    );
    proof {
        reveal_strlit("struct_item");
        reveal_strlit("enum_item");
        reveal_strlit("trait_item");
        reveal_strlit("function_item");
        reveal_strlit("type_item");
        reveal_strlit("const_item");
        reveal_strlit("static_item");
        reveal_strlit("mod_item");
        reveal_strlit("macro_definition");
        lemma_decl_kinds_distinct();
        lemma_format_path_prefixed(prefix@, name@);
        assert(decl_name(parent.children@[idx as int]) == Some(name@));
        assert(decl_of(parent.children@[idx as int], prefix@) == Some(
            (prefix@ + strutil::path_sep() + name@, kind),
        ));
    }
    Some(item)
}

/// Builds the item of a `macro_rules!` definition; exported macros read as
/// public.
fn parse_macro(parent: &SourceNode, idx: usize, prefix: &str) -> (r: Option<Item>)
    requires
        idx < parent.children@.len(),
        prefix@.len() > 0,
        parent.children@[idx as int].kind@ == "macro_definition"@,
    ensures
        r matches Some(item) ==> item.wf() && prefix@.is_prefix_of(item.path@) && item.path@.len()
            > 0 && item_attach_ok(item),
        match decl_of(parent.children@[idx as int], prefix@) {
            Some(pk) => r matches Some(item) && item.path@ == pk.0 && item.kind == pk.1
                && item_matches_decl(item, parent.children@, idx as int, prefix@),
            None => r is None,
        },
{
    proof {
        reveal_strlit("identifier");
        reveal_strlit("macro_rules! ");
        reveal_strlit("struct_item");
        reveal_strlit("enum_item");
        reveal_strlit("trait_item");
        reveal_strlit("function_item");
        reveal_strlit("type_item");
        reveal_strlit("const_item");
        reveal_strlit("static_item");
        reveal_strlit("mod_item");
        reveal_strlit("macro_definition");
        lemma_decl_kinds_distinct();
    }
    let node = &parent.children[idx];
    let name = match get_child_text(node, "identifier") {
        Some(n) => n,
        None => {
            return None;
        },
    };
    let doc = get_doc_comment(parent, idx);
    let mut sig = "macro_rules! ".to_owned();
    sig.append(name.as_str());
    let item = Item::bare(
        format_path(prefix, name.as_str()),
        ItemKind::Macro,
        Some(sig),
        doc,
        Visibility::Public,
    );
    proof {
        reveal_strlit("struct_item");
        reveal_strlit("enum_item");
        reveal_strlit("trait_item");
        reveal_strlit("function_item");
        reveal_strlit("type_item");
        reveal_strlit("const_item");
        reveal_strlit("static_item");
        reveal_strlit("mod_item");
        reveal_strlit("macro_definition");
        lemma_decl_kinds_distinct();
        lemma_format_path_prefixed(prefix@, name@);
        assert(decl_name(parent.children@[idx as int]) == Some(name@));
        assert(decl_of(parent.children@[idx as int], prefix@) == Some(
            (prefix@ + strutil::path_sep() + name@, ItemKind::Macro),
        ));
    }
    Some(item)
}

/// Walks a module declaration: emits the module itself, then runs both
/// passes over its block under the extended prefix. It contributes exactly
/// one item per named declaration of the module, itself included.
fn parse_mod(parent: &SourceNode, idx: usize, prefix: &str, items: &mut Vec<Item>)
    requires
        idx < parent.children@.len(),
        prefix@.len() > 0,
        parent.children@[idx as int].kind@ == "mod_item"@,
        items_ok(old(items)@, prefix@),
        items_attach_ok(old(items)@),
    ensures
        items_ok(final(items)@, prefix@),
        items_attach_ok(final(items)@),
        final(items)@.len() <= old(items)@.len() + node_size(parent.children@[idx as int]),
        final(items)@.len() == old(items)@.len() + child_decl_count(parent.children@[idx as int]),
        old(items)@.is_prefix_of(final(items)@),
        child_decls(listed_in(final(items)@), parent.children@[idx as int], prefix@),
        decl_item_listed(final(items)@, parent.children@, idx as int, prefix@),
        child_items_listed(final(items)@, parent.children@, idx as int, prefix@),
    decreases parent.children@[idx as int],
{
    let ghost items0 = items@;
    proof {
        reveal_strlit("identifier");
        reveal_strlit("declaration_list");
        reveal_strlit("struct_item");
        reveal_strlit("enum_item");
        reveal_strlit("trait_item");
        reveal_strlit("function_item");
        reveal_strlit("type_item");
        reveal_strlit("const_item");
        reveal_strlit("static_item");
        reveal_strlit("mod_item");
        reveal_strlit("macro_definition");
        lemma_decl_kinds_distinct();
    }
    let node = &parent.children[idx];
    let vis = get_visibility(node);
    let name = match get_child_text(node, "identifier") {
        Some(n) => n,
        None => {
            proof {
                assert(decl_name(parent.children@[idx as int]) is None);
                assert(child_decl_count(parent.children@[idx as int]) == 0);
                assert(child_decls(listed_in(items@), parent.children@[idx as int], prefix@));
                assert(decl_item_listed(items@, parent.children@, idx as int, prefix@));
                assert(child_items_listed(items@, parent.children@, idx as int, prefix@));
                assert(items@.subrange(0, items0.len() as int) =~= items0);
            }
            return ;
        },
    };
    let new_prefix = format_path(prefix, name.as_str());
    let doc = get_doc_comment(parent, idx);
    let item = Item::bare(new_prefix.clone(), ItemKind::Module, None, doc, vis);
    proof {
        reveal_strlit("struct_item");
        reveal_strlit("enum_item");
        reveal_strlit("trait_item");
        reveal_strlit("function_item");
        reveal_strlit("type_item");
        reveal_strlit("const_item");
        reveal_strlit("static_item");
        reveal_strlit("mod_item");
        reveal_strlit("macro_definition");
        lemma_decl_kinds_distinct();
        lemma_format_path_prefixed(prefix@, name@);
        assert(decl_name(parent.children@[idx as int]) == Some(name@));
        assert(decl_of(parent.children@[idx as int], prefix@) == Some(
            (prefix@ + strutil::path_sep() + name@, ItemKind::Module),
        ));
        assert(item_attach_ok(item));
    }
    push_ok(items, item, Ghost(prefix@));
    proof {
        assert(items@.last().path@ == prefix@ + strutil::path_sep() + name@);
        assert(items@.last().kind == ItemKind::Module);
        assert(has_decl(
            items@,
            prefix@ + strutil::path_sep() + name@,
            ItemKind::Module,
        )) by {
            assert(items@[items@.len() - 1].path@ == prefix@ + strutil::path_sep() + name@);
        }
        assert(decl_item_listed(items@, parent.children@, idx as int, prefix@)) by {
            assert(item_matches_decl(
                items@[items@.len() - 1],
                parent.children@,
                idx as int,
                prefix@,
            ));
        }
    }
    let mut k: usize = 0;
    while k < node.children.len()
        invariant
            items0 == old(items)@,
            idx < parent.children@.len(),
            node == &parent.children@[idx as int],
            prefix@.len() > 0,
            prefix@.is_prefix_of(new_prefix@),
            new_prefix@.len() > 0,
            new_prefix@ == prefix@ + strutil::path_sep() + decl_name(
                parent.children@[idx as int],
            ).unwrap(),
            decl_name(parent.children@[idx as int]) is Some,
            has_decl(items@, new_prefix@, ItemKind::Module),
            decl_item_listed(items@, parent.children@, idx as int, prefix@),
            k <= node.children@.len(),
            items_ok(items@, prefix@),
            items_attach_ok(items@),
            items@.len() <= items0.len() + 1 + children_size(node.children@, k as int),
            items@.len() == items0.len() + 1 + mod_lists_count(node.children@, k as int),
            items0.is_prefix_of(items@),
            forall|m: int|
                0 <= m < k && (#[trigger] node.children@[m]).kind@ == "declaration_list"@
                    ==> tree_decls(listed_in(items@), node.children@[m], new_prefix@),
            forall|m: int|
                0 <= m < k && (#[trigger] node.children@[m]).kind@ == "declaration_list"@
                    ==> tree_items_listed(items@, node.children@[m], new_prefix@),
        decreases node.children@.len() - k,
    {
        proof {
            reveal_strlit("declaration_list");
        }
        let ghost before_child = items@;
        if strutil::str_eq(node.children[k].kind.as_str(), "declaration_list") {
            proof {
                assert(decreases_to!(parent.children@[idx as int] => node.children@[k as int]));
            }
            let mut inner: Vec<Item> = Vec::new();
            collect_definitions(&node.children[k], new_prefix.as_str(), &mut inner);
            let ghost mid = inner@;
            process_impls(&node.children[k], new_prefix.as_str(), &mut inner);
            proof {
                lemma_tree_decls_same(mid, inner@, node.children@[k as int], new_prefix@);
                lemma_tree_items_same(mid, inner@, node.children@[k as int], new_prefix@);
            }
            let ghost inner_final = inner@;
            append_nested(items, inner, Ghost(prefix@), Ghost(new_prefix@));
            proof {
                assert(items@ == before_child + inner_final);
                lemma_tree_decls_concat(
                    before_child,
                    inner_final,
                    node.children@[k as int],
                    new_prefix@,
                );
                lemma_tree_items_concat(
                    before_child,
                    inner_final,
                    node.children@[k as int],
                    new_prefix@,
                );
            }
        }
        proof {
            assert(node_size(node.children@[k as int]) >= 1);
            assert(children_size(node.children@, k + 1) == children_size(node.children@, k as int)
                + node_size(node.children@[k as int]));
            assert(mod_lists_count(node.children@, k + 1) == mod_lists_count(
                node.children@,
                k as int,
            ) + (if node.children@[k as int].kind@ == "declaration_list"@ {
                kids_decl_count(
                    node.children@[k as int].children@,
                    node.children@[k as int].children@.len() as int,
                )
            } else {
                0
            }));
            if items@ == before_child {
                assert(items@.subrange(0, before_child.len() as int) =~= before_child);
            }
            lemma_prefix_of_trans(items0, before_child, items@);
            lemma_has_decl_prefix(before_child, items@, new_prefix@, ItemKind::Module);
            lemma_decl_item_listed_grow(before_child, items@, parent.children@, idx as int, prefix@);
            assert forall|m: int|
                0 <= m < k + 1 && (#[trigger] node.children@[m]).kind@
                    == "declaration_list"@ implies tree_decls(
                listed_in(items@),
                node.children@[m],
                new_prefix@,
            ) by {
                if m < k {
                    lemma_tree_decls_grow(before_child, items@, node.children@[m], new_prefix@);
                }
            }
            assert forall|m: int|
                0 <= m < k + 1 && (#[trigger] node.children@[m]).kind@
                    == "declaration_list"@ implies tree_items_listed(
                items@,
                node.children@[m],
                new_prefix@,
            ) by {
                if m < k {
                    lemma_tree_items_grow(before_child, items@, node.children@[m], new_prefix@);
                }
            }
        }
        k += 1;
    }
    proof {
        assert(node_size(parent.children@[idx as int]) == 1 + children_size(
            node.children@,
            node.children@.len() as int,
        ));
        assert(child_decl_count(parent.children@[idx as int]) == 1 + mod_lists_count(
            node.children@,
            node.children@.len() as int,
        ));
        assert(child_decls(listed_in(items@), parent.children@[idx as int], prefix@));
        assert(child_items_listed(items@, parent.children@, idx as int, prefix@));
    }
}

/// A declaration stays present when the list only grows at the end.
pub proof fn lemma_has_decl_prefix(a: Seq<Item>, b: Seq<Item>, path: Seq<char>, kind: ItemKind)
    requires
        a.is_prefix_of(b),
        has_decl(a, path, kind),
    ensures
        has_decl(b, path, kind),
{
    let i = choose|i: int|
        0 <= i < a.len() && (#[trigger] a[i]).path@ == path && a[i].kind == kind;
    assert(b[i] == a.subrange(0, a.len() as int)[i]);
    assert(b[i] == b.subrange(0, a.len() as int)[i]);
}

/// Moves items collected under a nested prefix into the outer list; the
/// nested prefix extends the outer one, so every moved item stays under it.
fn append_nested(
    items: &mut Vec<Item>,
    inner: Vec<Item>,
    Ghost(prefix): Ghost<Seq<char>>,
    Ghost(nested): Ghost<Seq<char>>,
)
    requires
        items_ok(old(items)@, prefix),
        items_ok(inner@, nested),
        items_attach_ok(old(items)@),
        items_attach_ok(inner@),
        prefix.is_prefix_of(nested),
    ensures
        items_ok(final(items)@, prefix),
        items_attach_ok(final(items)@),
        final(items)@ == old(items)@ + inner@,
        final(items)@.len() == old(items)@.len() + inner@.len(),
        old(items)@.is_prefix_of(final(items)@),
{
    let ghost inner0 = inner@;
    let mut rest = inner;
    items.append(&mut rest);
    proof {
        assert forall|i: int| 0 <= i < items@.len() implies (#[trigger] items@[i]).wf()
            && prefix.is_prefix_of(items@[i].path@) && items@[i].path@.len() > 0
            && item_attach_ok(items@[i]) by {
            if i < old(items)@.len() {
                assert(items@[i] == old(items)@[i]);
            } else {
                let x = inner0[i - old(items)@.len()];
                assert(items@[i] == x);
                assert(x.wf() && nested.is_prefix_of(x.path@) && item_attach_ok(x));
                assert(prefix.is_prefix_of(x.path@)) by {
                    assert(x.path@.subrange(0, prefix.len() as int) =~= nested.subrange(
                        0,
                        prefix.len() as int,
                    ));
                }
            }
        }
        assert(old(items)@.is_prefix_of(items@)) by {
            assert(items@.subrange(0, old(items)@.len() as int) =~= old(items)@);
        }
    }
}

/// Attaches one `impl` block: an inherent block's public methods append to
/// the target type's methods, a trait block's trait name joins the target's
/// trait list. A block whose target is not among the collected items is
/// dropped, as it likely names a foreign type.
fn parse_impl(node: &SourceNode, prefix: &str, items: &mut Vec<Item>)
    requires
        prefix@.len() > 0,
        items_ok(old(items)@, prefix@),
        items_attach_ok(old(items)@),
    ensures
        items_ok(final(items)@, prefix@),
        items_attach_ok(final(items)@),
        final(items)@.len() == old(items)@.len(),
        forall|i: int|
            0 <= i < final(items)@.len() ==> same_decl(#[trigger] final(items)@[i], old(items)@[i]),
{
    let ghost items0 = items@;
    proof {
        reveal_strlit("declaration_list");
        reveal_strlit("function_item");
    }
    let target_name = find_impl_type(node);
    let trait_name = find_impl_trait(node);
    let is_trait_impl = match &trait_name {
        Some(_) => true,
        None => false,
    };
    match &target_name {
        Some(tn) => {
            let type_path = format_path(prefix, tn.as_str());
            if !is_trait_impl {
                // inherent impl: append the public methods to the type
                let mut k: usize = 0;
                while k < node.children.len()
                    invariant
                        items0 == old(items)@,
                        prefix@.len() > 0,
                        k <= node.children@.len(),
                        items_ok(items@, prefix@),
                        items_attach_ok(items@),
                        items@.len() == items0.len(),
                        forall|i: int|
                            0 <= i < items@.len() ==> same_decl(#[trigger] items@[i], items0[i]),
                    decreases node.children@.len() - k,
                {
                    proof {
                        reveal_strlit("declaration_list");
                        reveal_strlit("function_item");
                    }
                    if strutil::str_eq(node.children[k].kind.as_str(), "declaration_list") {
                        let list = &node.children[k];
                        let mut m: usize = 0;
                        while m < list.children.len()
                            invariant
                                items0 == old(items)@,
                                prefix@.len() > 0,
                                m <= list.children@.len(),
                                items_ok(items@, prefix@),
                                items_attach_ok(items@),
                                items@.len() == items0.len(),
                                forall|i: int|
                                    0 <= i < items@.len() ==> same_decl(
                                        #[trigger] items@[i],
                                        items0[i],
                                    ),
                            decreases list.children@.len() - m,
                        {
                            proof {
                                reveal_strlit("function_item");
                            }
                            if strutil::str_eq(list.children[m].kind.as_str(), "function_item") {
                                let vis = get_visibility(&list.children[m]);
                                if vis.is_public() {
                                    match parse_method(list, m) {
                                        Some(method) => {
                                            proof {
                                                assert(method.visibility == vis_of(
                                                    list.children@[m as int],
                                                ));
                                            }
                                            attach_method(items, type_path.as_str(), method, Ghost(prefix@));
                                        },
                                        None => {},
                                    }
                                }
                            }
                            m += 1;
                        }
                    }
                    k += 1;
                }
            } else {
                match &trait_name {
                    Some(tr) => {
                        attach_trait(items, type_path.as_str(), tr.as_str(), Ghost(prefix@));
                    },
                    None => {},
                }
            }
        },
        None => {},
    }
}

/// Appends a method to the item whose path matches, if any.
fn attach_method(items: &mut Vec<Item>, type_path: &str, method: Method, Ghost(prefix): Ghost<
    Seq<char>,
>)
    requires
        items_ok(old(items)@, prefix),
        items_attach_ok(old(items)@),
        method.visibility == Visibility::Public,
    ensures
        items_ok(final(items)@, prefix),
        items_attach_ok(final(items)@),
        final(items)@.len() == old(items)@.len(),
        forall|i: int|
            0 <= i < final(items)@.len() ==> same_decl(#[trigger] final(items)@[i], old(items)@[i]),
{
    let ghost items0 = items@;
    let ghost mth = method;
    let mut k: usize = 0;
    while k < items.len()
        invariant
            items0 == old(items)@,
            mth == method,
            k <= items@.len(),
            items_ok(items@, prefix),
            items_attach_ok(items@),
            method.visibility == Visibility::Public,
            items@ == items0,
        decreases items@.len() - k,
    {
        if strutil::str_eq(items[k].path.as_str(), type_path) {
            let ghost before = items@;
            let mut it = items.remove(k);
            it.methods.push(method);
            items.insert(k, it);
            proof {
                assert forall|i: int| 0 <= i < items@.len() implies (#[trigger] items@[i]).wf()
                    && prefix.is_prefix_of(items@[i].path@) && items@[i].path@.len() > 0 by {
                    if i < k {
                        assert(items@[i] == before[i]);
                    } else if i > k {
                        assert(items@[i] == before[i]);
                    } else {
                        assert(items@[i].path@ == before[k as int].path@);
                        assert(items@[i].variants@ == before[k as int].variants@);
                        assert(items@[i].fields@ == before[k as int].fields@);
                        assert(items@[i].kind == before[k as int].kind);
                    }
                }
                assert forall|i: int| 0 <= i < items@.len() implies same_decl(
                    #[trigger] items@[i],
                    items0[i],
                ) by {
                    if i != k {
                        assert(items@[i] == before[i]);
                    } else {
                        assert(items@[k as int].signature == before[k as int].signature);
                        assert(items@[k as int].doc == before[k as int].doc);
                        assert(items@[k as int].visibility == before[k as int].visibility);
                        assert(items@[k as int].related == before[k as int].related);
                        assert(items@[k as int].since == before[k as int].since);
                        assert(items@[k as int].until == before[k as int].until);
                        assert(items@[k as int].moved_from == before[k as int].moved_from);
                        assert(items@[k as int].deprecated == before[k as int].deprecated);
                        assert(items@[k as int].path == before[k as int].path);
                        assert(items@[k as int].fields == before[k as int].fields);
                        assert(items@[k as int].variants == before[k as int].variants);
                    }
                }
                assert(items@.len() == items0.len());
                assert forall|i: int| 0 <= i < items@.len() implies item_attach_ok(
                    #[trigger] items@[i],
                ) by {
                    if i != k {
                        assert(items@[i] == before[i]);
                    } else {
                        assert(items@[k as int].traits@ == before[k as int].traits@);
                        assert(items@[k as int].methods@ == before[k as int].methods@.push(mth));
                        assert(item_attach_ok(before[k as int]));
                    }
                }
            }
            return ;
        }
        k += 1;
    }
}

/// Adds a trait name to the item whose path matches, unless already present.
fn attach_trait(items: &mut Vec<Item>, type_path: &str, trait_name: &str, Ghost(prefix): Ghost<
    Seq<char>,
>)
    requires
        items_ok(old(items)@, prefix),
        items_attach_ok(old(items)@),
    ensures
        items_ok(final(items)@, prefix),
        items_attach_ok(final(items)@),
        final(items)@.len() == old(items)@.len(),
        forall|i: int|
            0 <= i < final(items)@.len() ==> same_decl(#[trigger] final(items)@[i], old(items)@[i]),
{
    let ghost items0 = items@;
    let mut k: usize = 0;
    while k < items.len()
        invariant
            items0 == old(items)@,
            k <= items@.len(),
            items_ok(items@, prefix),
            items_attach_ok(items@),
            items@ == items0,
        decreases items@.len() - k,
    {
        if strutil::str_eq(items[k].path.as_str(), type_path) {
            let mut present = false;
            let mut m: usize = 0;
            while m < items[k].traits.len()
                invariant
                    k < items@.len(),
                    m <= items@[k as int].traits@.len(),
                    !present ==> forall|m2: int|
                        0 <= m2 < m ==> (#[trigger] items@[k as int].traits@[m2])@
                            != trait_name@,
                decreases items@[k as int].traits@.len() - m,
            {
                if strutil::str_eq(items[k].traits[m].as_str(), trait_name) {
                    present = true;
                }
                m += 1;
            }
            if !present {
                let ghost before = items@;
                let mut it = items.remove(k);
                it.traits.push(trait_name.to_owned());
                items.insert(k, it);
                proof {
                    assert forall|i: int| 0 <= i < items@.len() implies (#[trigger] items@[i]).wf()
                        && prefix.is_prefix_of(items@[i].path@) && items@[i].path@.len() > 0 by {
                        if i < k {
                            assert(items@[i] == before[i]);
                        } else if i > k {
                            assert(items@[i] == before[i]);
                        } else {
                            assert(items@[i].path@ == before[k as int].path@);
                            assert(items@[i].variants@ == before[k as int].variants@);
                            assert(items@[i].fields@ == before[k as int].fields@);
                            assert(items@[i].kind == before[k as int].kind);
                        }
                    }
                    assert forall|i: int| 0 <= i < items@.len() implies same_decl(
                        #[trigger] items@[i],
                        items0[i],
                    ) by {
                        if i != k {
                            assert(items@[i] == before[i]);
                        } else {
                            assert(items@[k as int].signature == before[k as int].signature);
                            assert(items@[k as int].doc == before[k as int].doc);
                            assert(items@[k as int].visibility == before[k as int].visibility);
                            assert(items@[k as int].related == before[k as int].related);
                            assert(items@[k as int].since == before[k as int].since);
                            assert(items@[k as int].until == before[k as int].until);
                            assert(items@[k as int].moved_from == before[k as int].moved_from);
                            assert(items@[k as int].deprecated == before[k as int].deprecated);
                            assert(items@[k as int].path == before[k as int].path);
                            assert(items@[k as int].fields == before[k as int].fields);
                            assert(items@[k as int].variants == before[k as int].variants);
                        }
                    }
                    assert(items@.len() == items0.len());
                    assert forall|i: int| 0 <= i < items@.len() implies item_attach_ok(
                        #[trigger] items@[i],
                    ) by {
                        if i != k {
                            assert(items@[i] == before[i]);
                        } else {
                            assert(items@[k as int].methods@ == before[k as int].methods@);
                            assert(items@[k as int].kind == before[k as int].kind);
                            assert(item_attach_ok(before[k as int]));
                            let nt = items@[k as int].traits@;
                            assert(nt.len() == before[k as int].traits@.len() + 1);
                            assert(nt.last()@ == trait_name@);
                            assert forall|t1: int, t2: int|
                                0 <= t1 < t2 < nt.len() implies (#[trigger] nt[t1])@ != (
                            #[trigger] nt[t2])@ by {
                                if t2 < nt.len() - 1 {
                                    assert(nt[t1] == before[k as int].traits@[t1]);
                                    assert(nt[t2] == before[k as int].traits@[t2]);
                                } else {
                                    assert(nt[t1] == before[k as int].traits@[t1]);
                                }
                            }
                        }
                    }
                }
            }
            return ;
        }
        k += 1;
    }
}

/// The target type of an `impl` block: the type after `for` in a trait
/// block, the first type otherwise.
fn find_impl_type(node: &SourceNode) -> (r: Option<String>) {
    proof {
        reveal_strlit("for");
        reveal_strlit("type_identifier");
        reveal_strlit("generic_type");
    }
    let mut found_for = false;
    let mut first_type: Option<String> = None;
    let mut k: usize = 0;
    while k < node.children.len()
        invariant
            k <= node.children@.len(),
        decreases node.children@.len() - k,
    {
        proof {
            reveal_strlit("for");
            reveal_strlit("type_identifier");
            reveal_strlit("generic_type");
        }
        let ck = node.children[k].kind.as_str();
        if strutil::str_eq(ck, "for") {
            found_for = true;
        } else if strutil::str_eq(ck, "type_identifier") || strutil::str_eq(ck, "generic_type") {
            if found_for {
                return Some(get_type_name(&node.children[k]));
            } else if first_type.is_none() {
                first_type = Some(get_type_name(&node.children[k]));
            }
        }
        k += 1;
    }
    if !found_for {
        first_type
    } else {
        None
    }
}

/// The trait an `impl` block implements: the first type before `for`, when a
/// `for` is present at all.
fn find_impl_trait(node: &SourceNode) -> (r: Option<String>) {
    proof {
        reveal_strlit("for");
        reveal_strlit("type_identifier");
        reveal_strlit("generic_type");
        reveal_strlit("scoped_type_identifier");
    }
    let mut has_for = false;
    let mut k: usize = 0;
    while k < node.children.len()
        invariant
            k <= node.children@.len(),
        decreases node.children@.len() - k,
    {
        proof {
            reveal_strlit("for");
        }
        if strutil::str_eq(node.children[k].kind.as_str(), "for") {
            has_for = true;
        }
        k += 1;
    }
    if !has_for {
        return None;
    }
    let mut m: usize = 0;
    while m < node.children.len()
        invariant
            m <= node.children@.len(),
        decreases node.children@.len() - m,
    {
        proof {
            reveal_strlit("for");
            reveal_strlit("type_identifier");
            reveal_strlit("generic_type");
            reveal_strlit("scoped_type_identifier");
        }
        let ck = node.children[m].kind.as_str();
        if strutil::str_eq(ck, "for") {
            return None;
        }
        if strutil::str_eq(ck, "type_identifier") || strutil::str_eq(ck, "generic_type")
            || strutil::str_eq(ck, "scoped_type_identifier") {
            return Some(get_type_name(&node.children[m]));
        }
        m += 1;
    }
    None
}

/// The simple name of a type node: a generic type contributes its base
/// identifier, anything else its full text.
fn get_type_name(node: &SourceNode) -> (r: String) {
    proof {
        reveal_strlit("generic_type");
        reveal_strlit("type_identifier");
    }
    if strutil::str_eq(node.kind.as_str(), "generic_type") {
        match get_child_text(node, "type_identifier") {
            Some(n) => n,
            None => node.text.clone(),
        }
    } else {
        node.text.clone()
    }
}

} // verus!
