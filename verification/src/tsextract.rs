//! The TypeScript/JavaScript extractor: walks a parsed tree in the library's
//! `SourceNode` shape and emits normalized items for every exported
//! declaration. Namespaces extend the dotted module path for their children;
//! non-exported declarations are private implementation details and stay out.

use vstd::prelude::*;
use crate::extract::{first_kind, name_of_kind, ParseError, SourceNode};
use crate::extract::{has_decl, items_ok, lemma_has_decl_prefix, lemma_prefix_of_trans};
use crate::schema::{Field, Item, ItemKind, Method, Variant, Visibility};
use crate::strutil;

verus! {

/// The name an exported declaration node carries, read the way the walk
/// reads it. A `const` declaration may carry several declarators and stays
/// outside this single-name model.
pub open spec fn ts_decl_name(n: SourceNode) -> Option<Seq<char>> {
    if n.kind@ == "class_declaration"@ || n.kind@ == "abstract_class_declaration"@ || n.kind@
        == "interface_declaration"@ || n.kind@ == "type_alias_declaration"@ {
        name_of_kind(n, "type_identifier"@)
    } else if n.kind@ == "function_declaration"@ || n.kind@ == "enum_declaration"@ {
        name_of_kind(n, "identifier"@)
    } else {
        None
    }
}

/// The item kind an exported declaration node produces.
pub open spec fn ts_decl_kind(n: SourceNode) -> ItemKind {
    if n.kind@ == "class_declaration"@ || n.kind@ == "abstract_class_declaration"@ {
        ItemKind::Struct
    } else if n.kind@ == "interface_declaration"@ {
        ItemKind::Trait
    } else if n.kind@ == "type_alias_declaration"@ {
        ItemKind::TypeAlias
    } else if n.kind@ == "function_declaration"@ {
        ItemKind::Function
    } else {
        ItemKind::Enum
    }
}

/// The path and kind of the item a named exported declaration yields.
pub open spec fn ts_decl_of(n: SourceNode, prefix: Seq<char>) -> Option<(Seq<char>, ItemKind)> {
    match ts_decl_name(n) {
        Some(nm) => Some((prefix + "."@ + nm, ts_decl_kind(n))),
        None => None,
    }
}

/// The declaration kind names of the TypeScript grammar are pairwise
/// distinct.
proof fn lemma_ts_kinds_distinct()
    ensures
        "class_declaration"@ != "abstract_class_declaration"@,
        "class_declaration"@ != "interface_declaration"@,
        "class_declaration"@ != "type_alias_declaration"@,
        "class_declaration"@ != "function_declaration"@,
        "class_declaration"@ != "enum_declaration"@,
        "abstract_class_declaration"@ != "interface_declaration"@,
        "abstract_class_declaration"@ != "type_alias_declaration"@,
        "abstract_class_declaration"@ != "function_declaration"@,
        "abstract_class_declaration"@ != "enum_declaration"@,
        "interface_declaration"@ != "type_alias_declaration"@,
        "interface_declaration"@ != "function_declaration"@,
        "interface_declaration"@ != "enum_declaration"@,
        "type_alias_declaration"@ != "function_declaration"@,
        "type_alias_declaration"@ != "enum_declaration"@,
        "function_declaration"@ != "enum_declaration"@,
        "lexical_declaration"@ != "class_declaration"@,
        "lexical_declaration"@ != "abstract_class_declaration"@,
        "lexical_declaration"@ != "interface_declaration"@,
        "lexical_declaration"@ != "type_alias_declaration"@,
        "lexical_declaration"@ != "function_declaration"@,
        "lexical_declaration"@ != "enum_declaration"@,
{
    reveal_strlit("lexical_declaration");
    reveal_strlit("class_declaration");
    reveal_strlit("abstract_class_declaration");
    reveal_strlit("interface_declaration");
    reveal_strlit("type_alias_declaration");
    reveal_strlit("function_declaration");
    reveal_strlit("enum_declaration");
    assert("class_declaration"@.len() == 17);
    assert("abstract_class_declaration"@.len() == 26);
    assert("interface_declaration"@.len() == 21);
    assert("type_alias_declaration"@.len() == 22);
    assert("function_declaration"@.len() == 20);
    assert("enum_declaration"@.len() == 16);
    assert("lexical_declaration"@.len() == 19);
    assert("interface_declaration"@[0] == 'i' && "type_alias_declaration"@[0] == 't');
}

/// Every named declaration an export statement carries is present in the
/// item list under its dotted path and kind.
pub open spec fn ts_exports_in(items: Seq<Item>, exp: SourceNode, prefix: Seq<char>) -> bool {
    forall|m: int|
        0 <= m < exp.children@.len() ==> match ts_decl_of(#[trigger] exp.children@[m], prefix) {
            Some(pk) => has_decl(items, pk.0, pk.1),
            None => true,
        }
}

/// A freshly appended item witnesses its declaration's presence.
proof fn ts_decl_witness(items: Seq<Item>, n: SourceNode, prefix: Seq<char>, pushed: Item)
    requires
        items.len() > 0,
        items[items.len() - 1].path@ == pushed.path@,
        items[items.len() - 1].kind == pushed.kind,
        match ts_decl_of(n, prefix) {
            Some(pk) => pushed.path@ == pk.0 && pushed.kind == pk.1,
            None => true,
        },
    ensures
        match ts_decl_of(n, prefix) {
            Some(pk) => has_decl(items, pk.0, pk.1),
            None => true,
        },
{
    match ts_decl_of(n, prefix) {
        Some(pk) => {
            assert(items[items.len() - 1].path@ == pk.0);
            assert(items[items.len() - 1].kind == pk.1);
            assert(has_decl(items, pk.0, pk.1));
        },
        None => {},
    }
}

/// The index of the first identifier or quoted-string child at or after
/// `k`, or -1.
pub open spec fn ts_first_name(cs: Seq<SourceNode>, k: int) -> int
    decreases cs.len() - k,
{
    if k < 0 || k >= cs.len() {
        -1
    } else if cs[k].kind@ == "identifier"@ || cs[k].kind@ == "string"@ {
        k
    } else {
        ts_first_name(cs, k + 1)
    }
}

/// The namespace name a module node carries, read the way the walk reads
/// it: its first identifier or quoted-string child, quotes trimmed.
pub open spec fn ts_module_name_of(n: SourceNode) -> Option<Seq<char>> {
    let i = ts_first_name(n.children@, 0);
    if i < 0 {
        None
    } else {
        Some(
            strutil::trim_matches_spec(
                strutil::trim_matches_spec(n.children@[i].text@, '"'),
                '\'',
            ),
        )
    }
}

/// Every exported declaration of the subtree under `n`'s children is
/// present, nested namespaces included under their dotted prefixes.
pub open spec fn ts_tree_decls(items: Seq<Item>, n: SourceNode, prefix: Seq<char>) -> bool
    decreases n,
{
    forall|j: int|
        0 <= j < n.children@.len() ==> ts_stmt_decls(items, #[trigger] n.children@[j], prefix)
}

/// One statement's exports are present: an export statement contributes its
/// declarations, a named namespace its own item and everything inside its
/// block under the extended prefix.
pub open spec fn ts_stmt_decls(items: Seq<Item>, c: SourceNode, prefix: Seq<char>) -> bool
    decreases c,
{
    if c.kind@ == "export_statement"@ {
        ts_exports_in(items, c, prefix)
    } else if c.kind@ == "module"@ || c.kind@ == "internal_module"@ {
        match ts_module_name_of(c) {
            None => true,
            Some(nm) => nm.len() == 0 || (has_decl(items, prefix + "."@ + nm, ItemKind::Module)
                && forall|m: int|
                0 <= m < c.children@.len() && (#[trigger] c.children@[m]).kind@
                    == "statement_block"@ ==> ts_tree_decls(items, c.children@[m], prefix + "."@
                    + nm)),
        }
    } else {
        true
    }
}

/// Whatever declarations a list covers stay covered by any list with at
/// least the same declarations.
proof fn lemma_ts_tree_mono(a: Seq<Item>, b: Seq<Item>, n: SourceNode, prefix: Seq<char>)
    requires
        forall|p: Seq<char>, kk: ItemKind| #[trigger] has_decl(a, p, kk) ==> has_decl(b, p, kk),
        ts_tree_decls(a, n, prefix),
    ensures
        ts_tree_decls(b, n, prefix),
    decreases n,
{
    assert forall|j: int| 0 <= j < n.children@.len() implies ts_stmt_decls(
        b,
        #[trigger] n.children@[j],
        prefix,
    ) by {
        lemma_ts_stmt_mono(a, b, n.children@[j], prefix);
    }
}

proof fn lemma_ts_stmt_mono(a: Seq<Item>, b: Seq<Item>, c: SourceNode, prefix: Seq<char>)
    requires
        forall|p: Seq<char>, kk: ItemKind| #[trigger] has_decl(a, p, kk) ==> has_decl(b, p, kk),
        ts_stmt_decls(a, c, prefix),
    ensures
        ts_stmt_decls(b, c, prefix),
    decreases c,
{
    if c.kind@ == "export_statement"@ {
        assert forall|m: int| 0 <= m < c.children@.len() implies match ts_decl_of(
            #[trigger] c.children@[m],
            prefix,
        ) {
            Some(pk) => has_decl(b, pk.0, pk.1),
            None => true,
        } by {
            match ts_decl_of(c.children@[m], prefix) {
                Some(pk) => {
                    assert(has_decl(a, pk.0, pk.1));
                },
                None => {},
            }
        }
    } else if c.kind@ == "module"@ || c.kind@ == "internal_module"@ {
        if ts_module_name_of(c) is Some {
            let nm = ts_module_name_of(c).unwrap();
            if nm.len() > 0 && has_decl(a, prefix + "."@ + nm, ItemKind::Module) {
                assert forall|m: int|
                    0 <= m < c.children@.len() && (#[trigger] c.children@[m]).kind@
                        == "statement_block"@ implies ts_tree_decls(
                    b,
                    c.children@[m],
                    prefix + "."@ + nm,
                ) by {
                    lemma_ts_tree_mono(a, b, c.children@[m], prefix + "."@ + nm);
                }
            }
        }
    }
}

/// Tree coverage is stable when the item list only grows at the end.
proof fn lemma_ts_tree_grow(a: Seq<Item>, b: Seq<Item>, n: SourceNode, prefix: Seq<char>)
    requires
        a.is_prefix_of(b),
        ts_tree_decls(a, n, prefix),
    ensures
        ts_tree_decls(b, n, prefix),
{
    assert forall|p: Seq<char>, kk: ItemKind| #[trigger] has_decl(a, p, kk) implies has_decl(
        b,
        p,
        kk,
    ) by {
        lemma_has_decl_prefix(a, b, p, kk);
    }
    lemma_ts_tree_mono(a, b, n, prefix);
}

/// One statement's coverage is stable when the item list only grows.
proof fn lemma_ts_stmt_grow(a: Seq<Item>, b: Seq<Item>, c: SourceNode, prefix: Seq<char>)
    requires
        a.is_prefix_of(b),
        ts_stmt_decls(a, c, prefix),
    ensures
        ts_stmt_decls(b, c, prefix),
{
    assert forall|p: Seq<char>, kk: ItemKind| #[trigger] has_decl(a, p, kk) implies has_decl(
        b,
        p,
        kk,
    ) by {
        lemma_has_decl_prefix(a, b, p, kk);
    }
    lemma_ts_stmt_mono(a, b, c, prefix);
}

/// Tree coverage is stable when the covering list is appended whole.
proof fn lemma_ts_tree_concat(a: Seq<Item>, b: Seq<Item>, n: SourceNode, prefix: Seq<char>)
    requires
        ts_tree_decls(b, n, prefix),
    ensures
        ts_tree_decls(a + b, n, prefix),
{
    assert forall|p: Seq<char>, kk: ItemKind| #[trigger] has_decl(b, p, kk) implies has_decl(
        a + b,
        p,
        kk,
    ) by {
        let w = choose|w: int|
            0 <= w < b.len() && (#[trigger] b[w]).path@ == p && b[w].kind == kk;
        assert((a + b)[a.len() + w].path@ == p && (a + b)[a.len() + w].kind == kk);
    }
    lemma_ts_tree_mono(b, a + b, n, prefix);
}

proof fn lemma_ts_stmt_kinds()
    ensures
        "module"@ != "export_statement"@,
        "internal_module"@ != "export_statement"@,
{
    reveal_strlit("module");
    reveal_strlit("internal_module");
    reveal_strlit("export_statement");
    assert("module"@.len() == 6);
    assert("internal_module"@.len() == 15);
    assert("export_statement"@.len() == 16);
}

/// The language flavors the TypeScript grammar covers.
#[derive(Debug, Clone, Copy, PartialEq, Eq, Structural)]
pub enum TsLanguage {
    TypeScript,
    Tsx,
    JavaScript,
}

/// The TypeScript extractor.
pub struct TypeScriptParser {
    /// The flavor the host parsed the sources under.
    pub language: TsLanguage,
}

impl TypeScriptParser {
    /// Builds an extractor for one language flavor.
    pub fn new(language: TsLanguage) -> (r: Result<TypeScriptParser, ParseError>)
        ensures
            r matches Ok(p) && p.language == language,
    {
        Ok(TypeScriptParser { language })
    }

    /// Extracts every exported declaration reachable from the root.
    pub fn extract_items(&self, root: &SourceNode, prefix: &str) -> (items: Vec<Item>)
        requires
            prefix@.len() > 0,
        ensures
            items_ok(items@, prefix@),
            ts_tree_decls(items@, *root, prefix@),
            forall|j: int|
                0 <= j < root.children@.len() && (#[trigger] root.children@[j]).kind@
                    == "export_statement"@ ==> ts_exports_in(items@, root.children@[j], prefix@),
    {
        let mut items: Vec<Item> = Vec::new();
        ts_collect(root, prefix, &mut items);
        items
    }
}

/// Joins a dotted module path and a declaration name.
pub fn ts_format_path(prefix: &str, name: &str) -> (r: String)
    ensures
        prefix@.len() == 0 ==> r@ == name@,
        prefix@.len() > 0 ==> r@ == prefix@ + "."@ + name@,
{
    if prefix.unicode_len() == 0 {
        name.to_owned()
    } else {
        let mut out = prefix.to_owned();
        out.append(".");
        out.append(name);
        out
    }
}

/// A dotted path keeps its module prefix and is never empty.
proof fn lemma_ts_path_prefixed(prefix: Seq<char>, name: Seq<char>)
    requires
        prefix.len() > 0,
    ensures
        prefix.is_prefix_of(prefix + "."@ + name),
        (prefix + "."@ + name).len() > 0,
{
    let p = prefix + "."@ + name;
    assert(p.subrange(0, prefix.len() as int) =~= prefix);
}

/// Walks a block: export statements carry the API surface, namespaces extend
/// the path.
fn ts_collect(node: &SourceNode, prefix: &str, items: &mut Vec<Item>)
    requires
        prefix@.len() > 0,
        items_ok(old(items)@, prefix@),
    ensures
        items_ok(final(items)@, prefix@),
        old(items)@.is_prefix_of(final(items)@),
        ts_tree_decls(final(items)@, *node, prefix@),
        forall|j: int|
            0 <= j < node.children@.len() && (#[trigger] node.children@[j]).kind@
                == "export_statement"@ ==> ts_exports_in(final(items)@, node.children@[j], prefix@),
    decreases *node,
{
    proof {
        reveal_strlit("export_statement");
        reveal_strlit("module");
        reveal_strlit("internal_module");
        lemma_ts_stmt_kinds();
    }
    let mut k: usize = 0;
    while k < node.children.len()
        invariant
            prefix@.len() > 0,
            k <= node.children@.len(),
            items_ok(items@, prefix@),
            old(items)@.is_prefix_of(items@),
            forall|j: int|
                0 <= j < k ==> ts_stmt_decls(items@, #[trigger] node.children@[j], prefix@),
        decreases node.children@.len() - k,
    {
        proof {
            reveal_strlit("export_statement");
            reveal_strlit("module");
            reveal_strlit("internal_module");
            lemma_ts_stmt_kinds();
        }
        let ghost before_child = items@;
        let ck = node.children[k].kind.as_str();
        if strutil::str_eq(ck, "export_statement") {
            proof {
                assert(decreases_to!(*node => node.children@[k as int]));
            }
            ts_export_statement(node, k, prefix, items);
            proof {
                assert(ts_stmt_decls(items@, node.children@[k as int], prefix@));
            }
        } else if strutil::str_eq(ck, "module") || strutil::str_eq(ck, "internal_module") {
            proof {
                assert(decreases_to!(*node => node.children@[k as int]));
            }
            ts_module(node, k, prefix, items);
        } else {
            proof {
                assert(ts_stmt_decls(items@, node.children@[k as int], prefix@));
            }
        }
        proof {
            if items@ == before_child {
                assert(items@.subrange(0, before_child.len() as int) =~= before_child);
            }
            lemma_prefix_of_trans(old(items)@, before_child, items@);
            assert forall|j: int| 0 <= j < k + 1 implies ts_stmt_decls(
                items@,
                #[trigger] node.children@[j],
                prefix@,
            ) by {
                if j < k {
                    lemma_ts_stmt_grow(before_child, items@, node.children@[j], prefix@);
                }
            }
        }
        k += 1;
    }
    proof {
        assert forall|j: int|
            0 <= j < node.children@.len() && (#[trigger] node.children@[j]).kind@
                == "export_statement"@ implies ts_exports_in(
            items@,
            node.children@[j],
            prefix@,
        ) by {
            assert(ts_stmt_decls(items@, node.children@[j], prefix@));
        }
    }
}

/// Appends one well-formed item, falling back to the export statement's own
/// doc comment when the declaration carries none.
fn ts_push(items: &mut Vec<Item>, item: Item, export_doc: &Option<String>, Ghost(prefix): Ghost<
    Seq<char>,
>)
    requires
        items_ok(old(items)@, prefix),
        item.wf(),
        prefix.is_prefix_of(item.path@),
        item.path@.len() > 0,
    ensures
        items_ok(final(items)@, prefix),
        final(items)@.len() == old(items)@.len() + 1,
        old(items)@.is_prefix_of(final(items)@),
        final(items)@[old(items)@.len() as int].path@ == item.path@,
        final(items)@[old(items)@.len() as int].kind == item.kind,
{
    let mut entry = item;
    if entry.doc.is_none() {
        entry.doc = strutil::clone_opt_string(export_doc);
    }
    items.push(entry);
    proof {
        assert(items@.subrange(0, old(items)@.len() as int) =~= old(items)@);
    }
}

/// Walks one export statement: the exported class, interface, type alias,
/// function, constant or enum it carries becomes an item.
fn ts_export_statement(parent: &SourceNode, idx: usize, prefix: &str, items: &mut Vec<Item>)
    requires
        idx < parent.children@.len(),
        prefix@.len() > 0,
        items_ok(old(items)@, prefix@),
    ensures
        items_ok(final(items)@, prefix@),
        old(items)@.is_prefix_of(final(items)@),
        ts_exports_in(final(items)@, parent.children@[idx as int], prefix@),
    decreases parent.children@[idx as int],
{
    proof {
        reveal_strlit("class_declaration");
        reveal_strlit("abstract_class_declaration");
        reveal_strlit("interface_declaration");
        reveal_strlit("type_alias_declaration");
        reveal_strlit("function_declaration");
        reveal_strlit("lexical_declaration");
        reveal_strlit("enum_declaration");
    }
    let export_doc = ts_doc_comment(parent, idx);
    let node = &parent.children[idx];
    let mut k: usize = 0;
    while k < node.children.len()
        invariant
            idx < parent.children@.len(),
            node == &parent.children@[idx as int],
            prefix@.len() > 0,
            k <= node.children@.len(),
            items_ok(items@, prefix@),
            old(items)@.is_prefix_of(items@),
            forall|m: int|
                0 <= m < k ==> match ts_decl_of(#[trigger] node.children@[m], prefix@) {
                    Some(pk) => has_decl(items@, pk.0, pk.1),
                    None => true,
                },
        decreases node.children@.len() - k,
    {
        proof {
            reveal_strlit("class_declaration");
            reveal_strlit("abstract_class_declaration");
            reveal_strlit("interface_declaration");
            reveal_strlit("type_alias_declaration");
            reveal_strlit("function_declaration");
            reveal_strlit("lexical_declaration");
            reveal_strlit("enum_declaration");
        }
        let ghost before_child = items@;
        let ck = node.children[k].kind.as_str();
        if strutil::str_eq(ck, "class_declaration") || strutil::str_eq(
            ck,
            "abstract_class_declaration",
        ) {
            match ts_class(node, k, prefix) {
                Some(item) => {
                    let ghost pushed = item;
                    ts_push(items, item, &export_doc, Ghost(prefix@));
                    proof {
                        assert(items@[items@.len() - 1].path@ == pushed.path@);
                        ts_decl_witness(items@, node.children@[k as int], prefix@, pushed);
                    }
                },
                None => {},
            }
        } else if strutil::str_eq(ck, "interface_declaration") {
            match ts_interface(node, k, prefix) {
                Some(item) => {
                    let ghost pushed = item;
                    ts_push(items, item, &export_doc, Ghost(prefix@));
                    proof {
                        assert(items@[items@.len() - 1].path@ == pushed.path@);
                        ts_decl_witness(items@, node.children@[k as int], prefix@, pushed);
                    }
                },
                None => {},
            }
        } else if strutil::str_eq(ck, "type_alias_declaration") {
            match ts_plain(node, k, prefix, ItemKind::TypeAlias) {
                Some(item) => {
                    let ghost pushed = item;
                    ts_push(items, item, &export_doc, Ghost(prefix@));
                    proof {
                        assert(items@[items@.len() - 1].path@ == pushed.path@);
                        ts_decl_witness(items@, node.children@[k as int], prefix@, pushed);
                    }
                },
                None => {},
            }
        } else if strutil::str_eq(ck, "function_declaration") {
            match ts_plain(node, k, prefix, ItemKind::Function) {
                Some(item) => {
                    let ghost pushed = item;
                    ts_push(items, item, &export_doc, Ghost(prefix@));
                    proof {
                        assert(items@[items@.len() - 1].path@ == pushed.path@);
                        ts_decl_witness(items@, node.children@[k as int], prefix@, pushed);
                    }
                },
                None => {},
            }
        } else if strutil::str_eq(ck, "lexical_declaration") {
            ts_lexical(node, k, prefix, &export_doc, items);
            proof {
                lemma_ts_kinds_distinct();
            }
        } else if strutil::str_eq(ck, "enum_declaration") {
            match ts_enum(node, k, prefix) {
                Some(item) => {
                    let ghost pushed = item;
                    ts_push(items, item, &export_doc, Ghost(prefix@));
                    proof {
                        assert(items@[items@.len() - 1].path@ == pushed.path@);
                        ts_decl_witness(items@, node.children@[k as int], prefix@, pushed);
                    }
                },
                None => {},
            }
        }
        proof {
            lemma_prefix_of_trans(old(items)@, before_child, items@);
            assert forall|m: int| 0 <= m < k + 1 implies match ts_decl_of(
                #[trigger] node.children@[m],
                prefix@,
            ) {
                Some(pk) => has_decl(items@, pk.0, pk.1),
                None => true,
            } by {
                match ts_decl_of(node.children@[m], prefix@) {
                    Some(pk) => {
                        if m < k {
                            lemma_has_decl_prefix(before_child, items@, pk.0, pk.1);
                        }
                    },
                    None => {},
                }
            }
        }
        k += 1;
    }
    proof {
        assert(ts_exports_in(items@, parent.children@[idx as int], prefix@));
    }
}

/// The first child's text of the given kind.
fn ts_child_text(node: &SourceNode, kind: &str) -> (r: Option<String>)
    ensures
        match r {
            Some(t) => name_of_kind(*node, kind@) == Some(t@),
            None => name_of_kind(*node, kind@) is None,
        },
{
    let mut k: usize = 0;
    while k < node.children.len()
        invariant
            k <= node.children@.len(),
            first_kind(node.children@, kind@, 0) == first_kind(node.children@, kind@, k as int),
        decreases node.children@.len() - k,
    {
        if strutil::str_eq(node.children[k].kind.as_str(), kind) {
            let t = node.children[k].text.clone();
            proof {
                assert(first_kind(node.children@, kind@, k as int) == k as int);
            }
            return Some(t);
        }
        k += 1;
    }
    None
}

/// One line of a JSDoc body: trimmed, its leading stars dropped.
fn jsdoc_line(l: &str) -> (r: String) {
    let t = strutil::trim_copy(l);
    let stripped = strutil::trim_matches_copy(t.as_str(), '*');
    strutil::trim_copy(stripped.as_str())
}

/// The documentation above the child at `idx`: one JSDoc block or a
/// contiguous run of line comments immediately before it. Only comment
/// siblings directly above the declaration are read: with none there, there
/// is no documentation.
fn ts_doc_comment(parent: &SourceNode, idx: usize) -> (r: Option<String>)
    requires
        idx <= parent.children@.len(),
    ensures
        idx == 0 ==> r is None,
        idx >= 1 && parent.children@[idx - 1].kind@ != "comment"@ ==> r is None,
{
    proof {
        reveal_strlit("comment");
        reveal_strlit("/**");
        reveal_strlit("*/");
        reveal_strlit("//");
        reveal_strlit("\n");
    }
    let mut docs: Vec<String> = Vec::new();
    let mut k: usize = idx;
    while k > 0
        invariant
            idx <= parent.children@.len(),
            k <= idx,
            docs@.len() > 0 ==> idx >= 1 && parent.children@[idx - 1].kind@ == "comment"@,
            k < idx ==> idx >= 1 && parent.children@[idx - 1].kind@ == "comment"@,
        decreases k,
    {
        let sib = &parent.children[k - 1];
        if strutil::str_eq(sib.kind.as_str(), "comment") {
            if strutil::starts_with(sib.text.as_str(), "/**") {
                let body = strutil::strip_prefix_copy(sib.text.as_str(), "/**");
                if strutil::ends_with(body.as_str(), "*/") {
                    let inner = strutil::strip_suffix_copy(body.as_str(), "*/");
                    let lines = strutil::lines_of(inner.as_str());
                    let mut cleaned = String::new();
                    let mut first = true;
                    let mut m: usize = 0;
                    while m < lines.len()
                        invariant
                            m <= lines@.len(),
                        decreases lines@.len() - m,
                    {
                        proof {
                            reveal_strlit("\n");
                        }
                        let line = jsdoc_line(lines[m].as_str());
                        if line.as_str().unicode_len() > 0 {
                            if !first {
                                cleaned.append("\n");
                            }
                            cleaned.append(line.as_str());
                            first = false;
                        }
                        m += 1;
                    }
                    docs.push(cleaned);
                }
                break ;
            } else if strutil::starts_with(sib.text.as_str(), "//") {
                let body = strutil::strip_prefix_copy(sib.text.as_str(), "//");
                docs.push(strutil::trim_copy(body.as_str()));
            } else {
                break ;
            }
        } else {
            break ;
        }
        k -= 1;
    }
    if docs.len() == 0 {
        return None;
    }
    let mut out = String::new();
    let mut k: usize = docs.len();
    let mut first = true;
    while k > 0
        invariant
            k <= docs@.len(),
        decreases k,
    {
        proof {
            reveal_strlit("\n");
        }
        if !first {
            out.append("\n");
        }
        out.append(docs[k - 1].as_str());
        first = false;
        k -= 1;
    }
    Some(out)
}

/// The member's accessibility: `public`, `protected` (mapped to crate-wide)
/// or `private`; unstated members are public.
fn ts_member_visibility(node: &SourceNode) -> (r: Visibility) {
    proof {
        reveal_strlit("accessibility_modifier");
        reveal_strlit("public");
        reveal_strlit("protected");
        reveal_strlit("private");
    }
    let mut k: usize = 0;
    while k < node.children.len()
        invariant
            k <= node.children@.len(),
        decreases node.children@.len() - k,
    {
        if strutil::str_eq(node.children[k].kind.as_str(), "accessibility_modifier") {
            let t = node.children[k].text.as_str();
            if strutil::str_eq(t, "public") {
                return Visibility::Public;
            } else if strutil::str_eq(t, "protected") {
                return Visibility::Crate;
            } else if strutil::str_eq(t, "private") {
                return Visibility::Private;
            } else {
                return Visibility::Public;
            }
        }
        k += 1;
    }
    Visibility::Public
}

/// The header of a declaration: its text up to the body brace, trimmed.
fn ts_signature_line(node: &SourceNode) -> (r: String) {
    proof {
        reveal_strlit("{");
    }
    match strutil::find_sub(node.text.as_str(), "{") {
        Some(i) => {
            let head = strutil::substring_copy(node.text.as_str(), 0, i);
            strutil::trim_copy(head.as_str())
        },
        None => node.text.clone(),
    }
}

/// A property or method name: the first identifier-like child.
fn ts_property_name(node: &SourceNode) -> (r: Option<String>) {
    proof {
        reveal_strlit("property_identifier");
        reveal_strlit("identifier");
        reveal_strlit("computed_property_name");
    }
    let mut k: usize = 0;
    while k < node.children.len()
        invariant
            k <= node.children@.len(),
        decreases node.children@.len() - k,
    {
        proof {
            reveal_strlit("property_identifier");
            reveal_strlit("identifier");
            reveal_strlit("computed_property_name");
        }
        let ck = node.children[k].kind.as_str();
        if strutil::str_eq(ck, "property_identifier") || strutil::str_eq(ck, "identifier")
            || strutil::str_eq(ck, "computed_property_name") {
            return Some(node.children[k].text.clone());
        }
        k += 1;
    }
    None
}

/// The declared type of a member, without the leading colon.
fn ts_type_annotation(node: &SourceNode) -> (r: Option<String>) {
    proof {
        reveal_strlit("type_annotation");
        reveal_strlit(":");
    }
    let mut k: usize = 0;
    while k < node.children.len()
        invariant
            k <= node.children@.len(),
        decreases node.children@.len() - k,
    {
        if strutil::str_eq(node.children[k].kind.as_str(), "type_annotation") {
            let t = strutil::trim_matches_copy(node.children[k].text.as_str(), ':');
            return Some(strutil::trim_copy(t.as_str()));
        }
        k += 1;
    }
    None
}

/// Builds the item of an exported class: its members, fields and heritage.
fn ts_class(parent: &SourceNode, idx: usize, prefix: &str) -> (r: Option<Item>)
    requires
        idx < parent.children@.len(),
        prefix@.len() > 0,
        parent.children@[idx as int].kind@ == "class_declaration"@ || parent.children@[
            idx as int
        ].kind@ == "abstract_class_declaration"@,
    ensures
        r matches Some(item) ==> item.wf() && prefix@.is_prefix_of(item.path@) && item.path@.len()
            > 0,
        match ts_decl_of(parent.children@[idx as int], prefix@) {
            Some(pk) => r matches Some(item) && item.path@ == pk.0 && item.kind == pk.1,
            None => r is None,
        },
{
    proof {
        reveal_strlit("type_identifier");
        reveal_strlit("abstract_class_declaration");
        reveal_strlit("abstract class ");
        reveal_strlit("class ");
        reveal_strlit("class_body");
        reveal_strlit("method_definition");
        reveal_strlit("property_signature");
        reveal_strlit("public_field_definition");
        reveal_strlit("class_heritage");
        reveal_strlit("extends_clause");
        reveal_strlit("implements_clause");
        reveal_strlit("generic_type");
        reveal_strlit("member_expression");
        reveal_strlit("nested_type_identifier");
    }
    let node = &parent.children[idx];
    let name = match ts_child_text(node, "type_identifier") {
        Some(n) => n,
        None => {
            return None;
        },
    };
    let doc = ts_doc_comment(parent, idx);
    let is_abstract = strutil::str_eq(node.kind.as_str(), "abstract_class_declaration");
    let mut signature = if is_abstract {
        "abstract class ".to_owned()
    } else {
        "class ".to_owned()
    };
    let head = ts_signature_line(node);
    signature.append(head.as_str());
    // members
    let mut methods: Vec<Method> = Vec::new();
    let mut fields: Vec<Field> = Vec::new();
    let mut k: usize = 0;
    while k < node.children.len()
        invariant
            k <= node.children@.len(),
        decreases node.children@.len() - k,
    {
        proof {
            reveal_strlit("class_body");
            reveal_strlit("method_definition");
            reveal_strlit("property_signature");
            reveal_strlit("public_field_definition");
        }
        if strutil::str_eq(node.children[k].kind.as_str(), "class_body") {
            let body = &node.children[k];
            let mut m: usize = 0;
            while m < body.children.len()
                invariant
                    m <= body.children@.len(),
                decreases body.children@.len() - m,
            {
                proof {
                    reveal_strlit("method_definition");
                    reveal_strlit("property_signature");
                    reveal_strlit("public_field_definition");
                }
                let mk = body.children[m].kind.as_str();
                if strutil::str_eq(mk, "method_definition") {
                    match ts_method(body, m) {
                        Some(method) => methods.push(method),
                        None => {},
                    }
                } else if strutil::str_eq(mk, "property_signature") || strutil::str_eq(
                    mk,
                    "public_field_definition",
                ) {
                    match ts_field(body, m) {
                        Some(f) => fields.push(f),
                        None => {},
                    }
                }
                m += 1;
            }
        }
        k += 1;
    }
    let traits = ts_class_heritage(node);
    // a class reads as a record-like item
    let mut item = Item::bare(
        ts_format_path(prefix, name.as_str()),
        ItemKind::Struct,
        Some(signature),
        doc,
        Visibility::Public,
    );
    item.methods = methods;
    item.fields = fields;
    item.traits = traits;
    proof {
        lemma_ts_path_prefixed(prefix@, name@);
    }
    Some(item)
}

/// Builds one class or interface method record.
fn ts_method(parent: &SourceNode, idx: usize) -> (r: Option<Method>)
    requires
        idx < parent.children@.len(),
{
    let node = &parent.children[idx];
    let name = match ts_property_name(node) {
        Some(n) => n,
        None => {
            return None;
        },
    };
    let vis = ts_member_visibility(node);
    let doc = ts_doc_comment(parent, idx);
    let signature = ts_signature_line(node);
    Some(Method { name, signature: Some(signature), doc, visibility: vis })
}

/// Builds one class field or interface property.
fn ts_field(parent: &SourceNode, idx: usize) -> (r: Option<Field>)
    requires
        idx < parent.children@.len(),
{
    let node = &parent.children[idx];
    let name = match ts_property_name(node) {
        Some(n) => n,
        None => {
            return None;
        },
    };
    let vis = ts_member_visibility(node);
    let ty = ts_type_annotation(node);
    let doc = ts_doc_comment(parent, idx);
    Some(Field { name, ty, doc, visibility: vis })
}

/// The names a class extends or implements.
fn ts_class_heritage(node: &SourceNode) -> (r: Vec<String>) {
    proof {
        reveal_strlit("class_heritage");
        reveal_strlit("extends_clause");
        reveal_strlit("implements_clause");
        reveal_strlit("type_identifier");
        reveal_strlit("generic_type");
        reveal_strlit("member_expression");
        reveal_strlit("nested_type_identifier");
    }
    let mut traits: Vec<String> = Vec::new();
    let mut k: usize = 0;
    while k < node.children.len()
        invariant
            k <= node.children@.len(),
        decreases node.children@.len() - k,
    {
        proof {
            reveal_strlit("class_heritage");
            reveal_strlit("extends_clause");
            reveal_strlit("implements_clause");
            reveal_strlit("type_identifier");
            reveal_strlit("generic_type");
            reveal_strlit("member_expression");
            reveal_strlit("nested_type_identifier");
        }
        if strutil::str_eq(node.children[k].kind.as_str(), "class_heritage") {
            let heritage = &node.children[k];
            let mut h: usize = 0;
            while h < heritage.children.len()
                invariant
                    h <= heritage.children@.len(),
                decreases heritage.children@.len() - h,
            {
                proof {
                    reveal_strlit("extends_clause");
                    reveal_strlit("implements_clause");
                    reveal_strlit("type_identifier");
                    reveal_strlit("generic_type");
                    reveal_strlit("member_expression");
                    reveal_strlit("nested_type_identifier");
                }
                let hk = heritage.children[h].kind.as_str();
                if strutil::str_eq(hk, "extends_clause") || strutil::str_eq(
                    hk,
                    "implements_clause",
                ) {
                    let clause = &heritage.children[h];
                    let mut t: usize = 0;
                    while t < clause.children.len()
                        invariant
                            t <= clause.children@.len(),
                        decreases clause.children@.len() - t,
                    {
                        proof {
                            reveal_strlit("type_identifier");
                            reveal_strlit("generic_type");
                            reveal_strlit("member_expression");
                            reveal_strlit("nested_type_identifier");
                        }
                        let tk = clause.children[t].kind.as_str();
                        if strutil::str_eq(tk, "type_identifier") || strutil::str_eq(
                            tk,
                            "generic_type",
                        ) || strutil::str_eq(tk, "member_expression") || strutil::str_eq(
                            tk,
                            "nested_type_identifier",
                        ) {
                            traits.push(clause.children[t].text.clone());
                        }
                        t += 1;
                    }
                }
                h += 1;
            }
        }
        k += 1;
    }
    traits
}

/// Builds the item of an exported interface, with its methods, properties
/// and extended names.
fn ts_interface(parent: &SourceNode, idx: usize, prefix: &str) -> (r: Option<Item>)
    requires
        idx < parent.children@.len(),
        prefix@.len() > 0,
        parent.children@[idx as int].kind@ == "interface_declaration"@,
    ensures
        r matches Some(item) ==> item.wf() && prefix@.is_prefix_of(item.path@) && item.path@.len()
            > 0,
        match ts_decl_of(parent.children@[idx as int], prefix@) {
            Some(pk) => r matches Some(item) && item.path@ == pk.0 && item.kind == pk.1,
            None => r is None,
        },
{
    proof {
        lemma_ts_kinds_distinct();
        reveal_strlit("type_identifier");
        reveal_strlit("interface ");
        reveal_strlit("object_type");
        reveal_strlit("interface_body");
        reveal_strlit("method_signature");
        reveal_strlit("call_signature");
        reveal_strlit("property_signature");
        reveal_strlit("extends_type_clause");
        reveal_strlit("generic_type");
        reveal_strlit("call");
    }
    let node = &parent.children[idx];
    let name = match ts_child_text(node, "type_identifier") {
        Some(n) => n,
        None => {
            return None;
        },
    };
    let doc = ts_doc_comment(parent, idx);
    let mut signature = "interface ".to_owned();
    let head = ts_signature_line(node);
    signature.append(head.as_str());
    let mut methods: Vec<Method> = Vec::new();
    let mut fields: Vec<Field> = Vec::new();
    let mut k: usize = 0;
    while k < node.children.len()
        invariant
            k <= node.children@.len(),
        decreases node.children@.len() - k,
    {
        proof {
            reveal_strlit("object_type");
            reveal_strlit("interface_body");
            reveal_strlit("method_signature");
            reveal_strlit("call_signature");
            reveal_strlit("property_signature");
            reveal_strlit("call");
        }
        let ck = node.children[k].kind.as_str();
        if strutil::str_eq(ck, "object_type") || strutil::str_eq(ck, "interface_body") {
            let body = &node.children[k];
            let mut m: usize = 0;
            while m < body.children.len()
                invariant
                    m <= body.children@.len(),
                decreases body.children@.len() - m,
            {
                proof {
                    reveal_strlit("method_signature");
                    reveal_strlit("call_signature");
                    reveal_strlit("property_signature");
                    reveal_strlit("call");
                }
                let mk = body.children[m].kind.as_str();
                if strutil::str_eq(mk, "method_signature") || strutil::str_eq(
                    mk,
                    "call_signature",
                ) {
                    let member = &body.children[m];
                    let name = match ts_property_name(member) {
                        Some(n) => n,
                        None => "call".to_owned(),
                    };
                    let mdoc = ts_doc_comment(body, m);
                    methods.push(
                        Method {
                            name,
                            signature: Some(member.text.clone()),
                            doc: mdoc,
                            visibility: Visibility::Public,
                        },
                    );
                } else if strutil::str_eq(mk, "property_signature") {
                    let member = &body.children[m];
                    match ts_property_name(member) {
                        Some(n) => {
                            let ty = ts_type_annotation(member);
                            let fdoc = ts_doc_comment(body, m);
                            fields.push(
                                Field { name: n, ty, doc: fdoc, visibility: Visibility::Public },
                            );
                        },
                        None => {},
                    }
                }
                m += 1;
            }
        }
        k += 1;
    }
    let traits = ts_interface_extends(node);
    let mut item = Item::bare(
        ts_format_path(prefix, name.as_str()),
        ItemKind::Trait,
        Some(signature),
        doc,
        Visibility::Public,
    );
    item.methods = methods;
    item.fields = fields;
    item.traits = traits;
    proof {
        lemma_ts_path_prefixed(prefix@, name@);
    }
    Some(item)
}

/// The names an interface extends.
fn ts_interface_extends(node: &SourceNode) -> (r: Vec<String>) {
    proof {
        reveal_strlit("extends_type_clause");
        reveal_strlit("type_identifier");
        reveal_strlit("generic_type");
    }
    let mut extends: Vec<String> = Vec::new();
    let mut k: usize = 0;
    while k < node.children.len()
        invariant
            k <= node.children@.len(),
        decreases node.children@.len() - k,
    {
        proof {
            reveal_strlit("extends_type_clause");
            reveal_strlit("type_identifier");
            reveal_strlit("generic_type");
        }
        if strutil::str_eq(node.children[k].kind.as_str(), "extends_type_clause") {
            let clause = &node.children[k];
            let mut t: usize = 0;
            while t < clause.children.len()
                invariant
                    t <= clause.children@.len(),
                decreases clause.children@.len() - t,
            {
                proof {
                    reveal_strlit("type_identifier");
                    reveal_strlit("generic_type");
                }
                let tk = clause.children[t].kind.as_str();
                if strutil::str_eq(tk, "type_identifier") || strutil::str_eq(tk, "generic_type") {
                    extends.push(clause.children[t].text.clone());
                }
                t += 1;
            }
        }
        k += 1;
    }
    extends
}

/// Builds the item of an exported type alias or function declaration.
fn ts_plain(parent: &SourceNode, idx: usize, prefix: &str, kind: ItemKind) -> (r: Option<Item>)
    requires
        idx < parent.children@.len(),
        prefix@.len() > 0,
        kind == ItemKind::TypeAlias || kind == ItemKind::Function,
        kind == ItemKind::TypeAlias ==> parent.children@[idx as int].kind@
            == "type_alias_declaration"@,
        kind == ItemKind::Function ==> parent.children@[idx as int].kind@
            == "function_declaration"@,
    ensures
        r matches Some(item) ==> item.wf() && prefix@.is_prefix_of(item.path@) && item.path@.len()
            > 0,
        match ts_decl_of(parent.children@[idx as int], prefix@) {
            Some(pk) => r matches Some(item) && item.path@ == pk.0 && item.kind == pk.1,
            None => r is None,
        },
{
    proof {
        lemma_ts_kinds_distinct();
        reveal_strlit("type_identifier");
        reveal_strlit("identifier");
    }
    let node = &parent.children[idx];
    let name = match kind {
        ItemKind::TypeAlias => ts_child_text(node, "type_identifier"),
        _ => ts_child_text(node, "identifier"),
    };
    let name = match name {
        Some(n) => n,
        None => {
            return None;
        },
    };
    let doc = ts_doc_comment(parent, idx);
    let signature = match kind {
        ItemKind::Function => ts_signature_line(node),
        _ => node.text.clone(),
    };
    let item = Item::bare(
        ts_format_path(prefix, name.as_str()),
        kind,
        Some(signature),
        doc,
        Visibility::Public,
    );
    proof {
        lemma_ts_path_prefixed(prefix@, name@);
    }
    Some(item)
}

/// Walks an exported `const` declaration: an arrow function or function
/// expression reads as a function, anything else as a constant.
fn ts_lexical(
    parent: &SourceNode,
    idx: usize,
    prefix: &str,
    export_doc: &Option<String>,
    items: &mut Vec<Item>,
)
    requires
        idx < parent.children@.len(),
        prefix@.len() > 0,
        items_ok(old(items)@, prefix@),
    ensures
        items_ok(final(items)@, prefix@),
        old(items)@.is_prefix_of(final(items)@),
{
    proof {
        reveal_strlit("variable_declarator");
    }
    let node = &parent.children[idx];
    let doc = ts_doc_comment(parent, idx);
    let mut k: usize = 0;
    while k < node.children.len()
        invariant
            prefix@.len() > 0,
            k <= node.children@.len(),
            items_ok(items@, prefix@),
            old(items)@.is_prefix_of(items@),
        decreases node.children@.len() - k,
    {
        proof {
            reveal_strlit("variable_declarator");
        }
        let ghost before = items@;
        if strutil::str_eq(node.children[k].kind.as_str(), "variable_declarator") {
            match ts_declarator(&node.children[k], prefix, &doc) {
                Some(item) => ts_push(items, item, export_doc, Ghost(prefix@)),
                None => {},
            }
        }
        proof {
            lemma_prefix_of_trans(old(items)@, before, items@);
        }
        k += 1;
    }
}

/// Builds the item of one `const` declarator.
fn ts_declarator(node: &SourceNode, prefix: &str, doc: &Option<String>) -> (r: Option<Item>)
    requires
        prefix@.len() > 0,
    ensures
        r matches Some(item) ==> item.wf() && prefix@.is_prefix_of(item.path@) && item.path@.len()
            > 0,
{
    proof {
        reveal_strlit("identifier");
        reveal_strlit("arrow_function");
        reveal_strlit("function");
        reveal_strlit("function_expression");
        reveal_strlit("type_annotation");
        reveal_strlit("formal_parameters");
        reveal_strlit("const ");
        reveal_strlit(" = ");
        reveal_strlit(": ");
        reveal_strlit(":");
    }
    let name = match ts_child_text(node, "identifier") {
        Some(n) => n,
        None => {
            return None;
        },
    };
    let mut is_function = false;
    let mut signature: Option<String> = None;
    let mut k: usize = 0;
    while k < node.children.len()
        invariant
            k <= node.children@.len(),
        decreases node.children@.len() - k,
    {
        proof {
            reveal_strlit("arrow_function");
            reveal_strlit("function");
            reveal_strlit("function_expression");
            reveal_strlit("type_annotation");
            reveal_strlit("formal_parameters");
            reveal_strlit("const ");
            reveal_strlit(" = ");
            reveal_strlit(": ");
            reveal_strlit(":");
        }
        let ck = node.children[k].kind.as_str();
        if strutil::str_eq(ck, "arrow_function") || strutil::str_eq(ck, "function")
            || strutil::str_eq(ck, "function_expression") {
            is_function = true;
            let f = &node.children[k];
            let mut params = String::new();
            let mut ret = String::new();
            let mut m: usize = 0;
            while m < f.children.len()
                invariant
                    m <= f.children@.len(),
                decreases f.children@.len() - m,
            {
                proof {
                    reveal_strlit("formal_parameters");
                    reveal_strlit("type_annotation");
                    reveal_strlit(":");
                }
                let fk = f.children[m].kind.as_str();
                if strutil::str_eq(fk, "formal_parameters") {
                    params = f.children[m].text.clone();
                } else if strutil::str_eq(fk, "type_annotation") {
                    let t = strutil::trim_matches_copy(f.children[m].text.as_str(), ':');
                    ret = strutil::trim_copy(t.as_str());
                }
                m += 1;
            }
            let mut sig = "const ".to_owned();
            sig.append(name.as_str());
            sig.append(" = ");
            sig.append(params.as_str());
            if ret.as_str().unicode_len() > 0 {
                sig.append(": ");
                sig.append(ret.as_str());
            }
            signature = Some(sig);
        } else if strutil::str_eq(ck, "type_annotation") {
            if !is_function {
                let t = strutil::trim_matches_copy(node.children[k].text.as_str(), ':');
                let ty = strutil::trim_copy(t.as_str());
                let mut sig = "const ".to_owned();
                sig.append(name.as_str());
                sig.append(": ");
                sig.append(ty.as_str());
                signature = Some(sig);
            }
        }
        k += 1;
    }
    let kind = if is_function {
        ItemKind::Function
    } else {
        ItemKind::Constant
    };
    let signature = match signature {
        Some(s) => s,
        None => {
            let mut s = "const ".to_owned();
            s.append(name.as_str());
            s
        },
    };
    let item = Item::bare(
        ts_format_path(prefix, name.as_str()),
        kind,
        Some(signature),
        strutil::clone_opt_string(doc),
        Visibility::Public,
    );
    proof {
        lemma_ts_path_prefixed(prefix@, name@);
    }
    Some(item)
}

/// Builds the item of an exported enum, with its variants.
fn ts_enum(parent: &SourceNode, idx: usize, prefix: &str) -> (r: Option<Item>)
    requires
        idx < parent.children@.len(),
        prefix@.len() > 0,
        parent.children@[idx as int].kind@ == "enum_declaration"@,
    ensures
        r matches Some(item) ==> item.wf() && prefix@.is_prefix_of(item.path@) && item.path@.len()
            > 0,
        match ts_decl_of(parent.children@[idx as int], prefix@) {
            Some(pk) => r matches Some(item) && item.path@ == pk.0 && item.kind == pk.1,
            None => r is None,
        },
{
    proof {
        lemma_ts_kinds_distinct();
        reveal_strlit("identifier");
        reveal_strlit("enum ");
        reveal_strlit("enum_body");
        reveal_strlit("enum_assignment");
        reveal_strlit("property_identifier");
    }
    let node = &parent.children[idx];
    let name = match ts_child_text(node, "identifier") {
        Some(n) => n,
        None => {
            return None;
        },
    };
    let doc = ts_doc_comment(parent, idx);
    let mut variants: Vec<Variant> = Vec::new();
    let mut k: usize = 0;
    while k < node.children.len()
        invariant
            k <= node.children@.len(),
        decreases node.children@.len() - k,
    {
        proof {
            reveal_strlit("enum_body");
            reveal_strlit("enum_assignment");
            reveal_strlit("property_identifier");
        }
        if strutil::str_eq(node.children[k].kind.as_str(), "enum_body") {
            let body = &node.children[k];
            let mut m: usize = 0;
            while m < body.children.len()
                invariant
                    m <= body.children@.len(),
                decreases body.children@.len() - m,
            {
                proof {
                    reveal_strlit("enum_assignment");
                    reveal_strlit("property_identifier");
                }
                let mk = body.children[m].kind.as_str();
                let vname = if strutil::str_eq(mk, "enum_assignment") {
                    ts_child_text(&body.children[m], "property_identifier")
                } else if strutil::str_eq(mk, "property_identifier") {
                    Some(body.children[m].text.clone())
                } else {
                    None
                };
                match vname {
                    Some(n) => {
                        let vdoc = ts_doc_comment(body, m);
                        variants.push(Variant { name: n, doc: vdoc, fields: Vec::new() });
                    },
                    None => {},
                }
                m += 1;
            }
        }
        k += 1;
    }
    let mut sig = "enum ".to_owned();
    sig.append(name.as_str());
    let mut item = Item::bare(
        ts_format_path(prefix, name.as_str()),
        ItemKind::Enum,
        Some(sig),
        doc,
        Visibility::Public,
    );
    item.variants = variants;
    proof {
        lemma_ts_path_prefixed(prefix@, name@);
    }
    Some(item)
}

fn ts_module(parent: &SourceNode, idx: usize, prefix: &str, items: &mut Vec<Item>)
    requires
        idx < parent.children@.len(),
        prefix@.len() > 0,
        parent.children@[idx as int].kind@ == "module"@ || parent.children@[idx as int].kind@
            == "internal_module"@,
        items_ok(old(items)@, prefix@),
    ensures
        items_ok(final(items)@, prefix@),
        old(items)@.is_prefix_of(final(items)@),
        ts_stmt_decls(final(items)@, parent.children@[idx as int], prefix@),
    decreases parent.children@[idx as int],
{
    proof {
        reveal_strlit("identifier");
        reveal_strlit("string");
        reveal_strlit("namespace ");
        reveal_strlit("statement_block");
        lemma_ts_stmt_kinds();
    }
    let node = &parent.children[idx];
    let name = match ts_module_name(node) {
        Some(n) => n,
        None => {
            proof {
                assert(ts_stmt_decls(items@, parent.children@[idx as int], prefix@));
                assert(items@.subrange(0, old(items)@.len() as int) =~= old(items)@);
            }
            return ;
        },
    };
    if name.as_str().unicode_len() == 0 {
        proof {
            assert(ts_stmt_decls(items@, parent.children@[idx as int], prefix@));
            assert(items@.subrange(0, old(items)@.len() as int) =~= old(items)@);
        }
        return ;
    }
    let new_prefix = ts_format_path(prefix, name.as_str());
    let doc = ts_doc_comment(parent, idx);
    let mut sig = "namespace ".to_owned();
    sig.append(name.as_str());
    let item = Item::bare(new_prefix.clone(), ItemKind::Module, Some(sig), doc, Visibility::Public);
    proof {
        lemma_ts_path_prefixed(prefix@, name@);
    }
    ts_push(items, item, &None, Ghost(prefix@));
    proof {
        assert(has_decl(items@, prefix@ + "."@ + name@, ItemKind::Module)) by {
            assert(items@[items@.len() - 1].path@ == prefix@ + "."@ + name@);
            assert(items@[items@.len() - 1].kind == ItemKind::Module);
        }
    }
    let mut k: usize = 0;
    while k < node.children.len()
        invariant
            idx < parent.children@.len(),
            node == &parent.children@[idx as int],
            prefix@.len() > 0,
            name@.len() > 0,
            prefix@.is_prefix_of(new_prefix@),
            new_prefix@ == prefix@ + "."@ + name@,
            new_prefix@.len() > 0,
            has_decl(items@, prefix@ + "."@ + name@, ItemKind::Module),
            k <= node.children@.len(),
            items_ok(items@, prefix@),
            old(items)@.is_prefix_of(items@),
            forall|m: int|
                0 <= m < k && (#[trigger] node.children@[m]).kind@ == "statement_block"@
                    ==> ts_tree_decls(items@, node.children@[m], new_prefix@),
        decreases node.children@.len() - k,
    {
        proof {
            reveal_strlit("statement_block");
        }
        let ghost before = items@;
        if strutil::str_eq(node.children[k].kind.as_str(), "statement_block") {
            proof {
                assert(decreases_to!(parent.children@[idx as int] => node.children@[k as int]));
            }
            let mut inner: Vec<Item> = Vec::new();
            ts_collect(&node.children[k], new_prefix.as_str(), &mut inner);
            let ghost inner_final = inner@;
            ts_append_nested(items, inner, Ghost(prefix@), Ghost(new_prefix@));
            proof {
                assert(items@ == before + inner_final);
                lemma_ts_tree_concat(before, inner_final, node.children@[k as int], new_prefix@);
            }
        }
        proof {
            if items@ == before {
                assert(items@.subrange(0, before.len() as int) =~= before);
            }
            lemma_prefix_of_trans(old(items)@, before, items@);
            lemma_has_decl_prefix(before, items@, prefix@ + "."@ + name@, ItemKind::Module);
            assert forall|m: int|
                0 <= m < k + 1 && (#[trigger] node.children@[m]).kind@
                    == "statement_block"@ implies ts_tree_decls(
                items@,
                node.children@[m],
                new_prefix@,
            ) by {
                if m < k {
                    lemma_ts_tree_grow(before, items@, node.children@[m], new_prefix@);
                }
            }
        }
        k += 1;
    }
    proof {
        assert(ts_module_name_of(parent.children@[idx as int]) == Some(name@));
        assert(ts_stmt_decls(items@, parent.children@[idx as int], prefix@));
    }
}

/// The name of a namespace: its identifier or quoted string child.
fn ts_module_name(node: &SourceNode) -> (r: Option<String>)
    ensures
        match r {
            Some(t) => ts_module_name_of(*node) == Some(t@),
            None => ts_module_name_of(*node) is None,
        },
{
    proof {
        reveal_strlit("identifier");
        reveal_strlit("string");
    }
    let mut k: usize = 0;
    while k < node.children.len()
        invariant
            k <= node.children@.len(),
            ts_first_name(node.children@, 0) == ts_first_name(node.children@, k as int),
        decreases node.children@.len() - k,
    {
        proof {
            reveal_strlit("identifier");
            reveal_strlit("string");
        }
        let ck = node.children[k].kind.as_str();
        if strutil::str_eq(ck, "identifier") || strutil::str_eq(ck, "string") {
            proof {
                assert(ts_first_name(node.children@, k as int) == k as int);
            }
            let t = strutil::trim_matches_copy(node.children[k].text.as_str(), '"');
            let t = strutil::trim_matches_copy(t.as_str(), '\'');
            return Some(t);
        }
        k += 1;
    }
    None
}

/// Moves items collected under a nested prefix into the outer list.
fn ts_append_nested(
    items: &mut Vec<Item>,
    inner: Vec<Item>,
    Ghost(prefix): Ghost<Seq<char>>,
    Ghost(nested): Ghost<Seq<char>>,
)
    requires
        items_ok(old(items)@, prefix),
        items_ok(inner@, nested),
        prefix.is_prefix_of(nested),
    ensures
        items_ok(final(items)@, prefix),
        final(items)@ == old(items)@ + inner@,
        old(items)@.is_prefix_of(final(items)@),
{
    let ghost inner0 = inner@;
    let mut rest = inner;
    items.append(&mut rest);
    proof {
        assert(items@ == old(items)@ + inner0);
        assert forall|i: int| 0 <= i < items@.len() implies (#[trigger] items@[i]).wf()
            && prefix.is_prefix_of(items@[i].path@) && items@[i].path@.len() > 0 by {
            if i < old(items)@.len() {
                assert(items@[i] == old(items)@[i]);
            } else {
                let x = inner0[i - old(items)@.len()];
                assert(items@[i] == x);
                assert(x.wf() && nested.is_prefix_of(x.path@));
                assert(prefix.is_prefix_of(x.path@)) by {
                    assert(x.path@.subrange(0, prefix.len() as int) =~= nested.subrange(
                        0,
                        prefix.len() as int,
                    ));
                }
            }
        }
        assert(old(items)@.is_prefix_of(items@)) by {
            assert(items@.subrange(0, old(items)@.len() as int) =~= old(items)@);
        }
    }
}

} // verus!
