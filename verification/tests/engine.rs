//! Tests of the extractor, the store, the indexing pipeline and the ranked
//! search, end to end over real parsed trees.

use fastdeps::deps::RegistryCrate;
use fastdeps::extract::{RustParser, SourceNode};
use fastdeps::pipeline::{build_index, PackageInput};
use fastdeps::schema::{Item, ItemKind, Visibility};
use fastdeps::search::{MatchType, SearchEngine, SearchOptions};
use fastdeps::store::Store;

/// Parses Rust source with tree-sitter and hands the tree over in the
/// library's shape.
fn parse_tree(source: &str) -> SourceNode {
    let mut parser = tree_sitter::Parser::new();
    parser
        .set_language(&tree_sitter_rust::LANGUAGE.into())
        .expect("rust grammar");
    let tree = parser.parse(source, None).expect("parse");
    convert(tree.root_node(), source, None)
}

fn convert(node: tree_sitter::Node<'_>, source: &str, field: Option<String>) -> SourceNode {
    let mut children = Vec::new();
    for i in 0..node.child_count() {
        let child = node.child(i as u32).unwrap();
        let f = node
            .field_name_for_child(i as u32)
            .map(|s| s.to_string());
        children.push(convert(child, source, f));
    }
    SourceNode {
        kind: node.kind().to_string(),
        text: source[node.byte_range()].to_string(),
        field,
        children,
    }
}

fn extract(source: &str, prefix: &str) -> Vec<Item> {
    let parser = RustParser::new().unwrap();
    let root = parse_tree(source);
    parser.extract_items(&root, prefix)
}

#[test]
fn test_parse_struct() {
    let source = r#"
/// A simple struct.
pub struct Foo {
    /// The value.
    pub value: i32,
    private: String,
}
"#;
    let items = extract(source, "crate");

    assert_eq!(items.len(), 1);
    let item = &items[0];
    assert_eq!(item.path, "crate::Foo");
    assert_eq!(item.kind, ItemKind::Struct);
    assert_eq!(item.doc, Some("A simple struct.".into()));
    assert_eq!(item.visibility, Visibility::Public);
    assert_eq!(item.fields.len(), 2);
    assert_eq!(item.fields[0].name, "value");
    assert_eq!(item.fields[0].visibility, Visibility::Public);
    assert_eq!(item.fields[1].name, "private");
    assert_eq!(item.fields[1].visibility, Visibility::Private);
}

#[test]
fn test_parse_enum() {
    let source = r#"
/// Result type.
pub enum MyResult<T, E> {
    /// Success.
    Ok(T),
    /// Error.
    Err(E),
}
"#;
    let items = extract(source, "crate");

    assert_eq!(items.len(), 1);
    let item = &items[0];
    assert_eq!(item.path, "crate::MyResult");
    assert_eq!(item.kind, ItemKind::Enum);
    assert_eq!(item.variants.len(), 2);
    assert_eq!(item.variants[0].name, "Ok");
    assert_eq!(item.variants[1].name, "Err");
}

#[test]
fn test_parse_impl_methods() {
    let source = r#"
pub struct Foo;

impl Foo {
    pub fn new() -> Self {
        Foo
    }

    fn private_method(&self) {}
}
"#;
    let items = extract(source, "crate");

    assert_eq!(items.len(), 1);
    let item = &items[0];
    assert_eq!(item.methods.len(), 1);
    assert_eq!(item.methods[0].name, "new");
}

#[test]
fn test_parse_trait_impl() {
    let source = r#"
pub struct Foo;

impl Default for Foo {
    fn default() -> Self {
        Foo
    }
}

impl Clone for Foo {
    fn clone(&self) -> Self {
        Foo
    }
}
"#;
    let items = extract(source, "crate");

    assert_eq!(items.len(), 1);
    let item = &items[0];
    assert!(item.traits.contains(&"Default".to_string()));
    assert!(item.traits.contains(&"Clone".to_string()));
}

#[test]
fn test_single_struct_with_docs() {
    let source = r#"
/// The timeout in seconds.
pub struct Config {
    pub timeout: u64,
}
"#;
    let items = extract(source, "pkg");
    assert_eq!(items.len(), 1);
    let item = &items[0];
    assert_eq!(item.path, "pkg::Config");
    assert_eq!(item.kind, ItemKind::Struct);
    assert_eq!(item.doc, Some("The timeout in seconds.".into()));
    assert_eq!(item.fields.len(), 1);
    assert_eq!(item.fields[0].name, "timeout");
    assert_eq!(item.fields[0].ty, Some("u64".into()));
    assert_eq!(item.fields[0].visibility, Visibility::Public);
}

fn pkg_input(name: &str, version: &str, files: Vec<(&str, &str)>) -> PackageInput {
    PackageInput {
        krate: RegistryCrate {
            name: name.to_string(),
            version: version.to_string(),
            path: format!("/deps/{}-{}", name, version),
        },
        files: files
            .into_iter()
            .map(|(p, src)| (p.to_string(), parse_tree(src)))
            .collect(),
    }
}

fn engine_for(deps: &[(&str, &str)], direct: &[&str]) -> SearchEngine {
    SearchEngine::new(
        ".".to_string(),
        direct.iter().map(|s| s.to_string()).collect(),
        deps.iter()
            .map(|(n, v)| RegistryCrate {
                name: n.to_string(),
                version: v.to_string(),
                path: format!("/deps/{}-{}", n, v),
            })
            .collect(),
    )
}

#[test]
fn test_build_index_empty_package() {
    let mut store = Store::new();
    let parser = RustParser::new().unwrap();
    let packages = vec![pkg_input("empty", "1.0.0", vec![])];
    let stats = build_index(&mut store, &parser, &packages, false, 7);
    assert_eq!(stats.indexed, 1);
    assert_eq!(stats.skipped, 0);
    assert_eq!(stats.failed, 0);
    assert_eq!(stats.total_items, 0);
    let items = store.search_crate("empty", None);
    assert!(items.is_empty());
}

#[test]
fn test_build_index_idempotent() {
    let mut store = Store::new();
    let parser = RustParser::new().unwrap();
    let packages = vec![pkg_input(
        "pkg",
        "1.0.0",
        vec![("src/lib.rs", "pub struct Alpha;\npub fn beta() {}\n")],
    )];
    let first = build_index(&mut store, &parser, &packages, false, 7);
    assert_eq!(first.indexed, 1);
    assert_eq!(first.skipped, 0);
    let (pkgs_before, items_before) = store.stats();

    let second = build_index(&mut store, &parser, &packages, false, 8);
    assert_eq!(second.indexed, 0);
    assert_eq!(second.skipped, 1);
    assert_eq!(second.failed, 0);
    assert_eq!(second.total_items, 0);
    let (pkgs_after, items_after) = store.stats();
    assert_eq!((pkgs_before, items_before), (pkgs_after, items_after));
}

#[test]
fn test_force_reindex_replaces() {
    let mut store = Store::new();
    let parser = RustParser::new().unwrap();
    let v1 = vec![pkg_input("pkg", "1.0.0", vec![("src/lib.rs", "pub struct Old;\n")])];
    build_index(&mut store, &parser, &v1, false, 1);
    let v2 = vec![pkg_input("pkg", "1.0.0", vec![("src/lib.rs", "pub struct New;\n")])];
    let stats = build_index(&mut store, &parser, &v2, true, 2);
    assert_eq!(stats.indexed, 1);
    let items = store.search_crate("pkg", Some("1.0.0"));
    let paths: Vec<String> = items.iter().map(|i| i.path.clone()).collect();
    assert_eq!(paths, vec!["pkg::New".to_string()]);
    // coherence: the shadow table mirrors the item table
    assert_eq!(store.fts.len(), store.items.len());
}

#[test]
fn test_round_trip_paths() {
    let mut store = Store::new();
    let parser = RustParser::new().unwrap();
    let packages = vec![pkg_input(
        "pkg",
        "1.0.0",
        vec![("src/lib.rs", "pub struct A;\npub struct B;\npub fn c() {}\n")],
    )];
    build_index(&mut store, &parser, &packages, false, 1);
    let items = store.search_crate("pkg", Some("1.0.0"));
    let mut paths: Vec<String> = items.iter().map(|i| i.path.clone()).collect();
    paths.sort();
    assert_eq!(paths, vec!["pkg::A".to_string(), "pkg::B".to_string(), "pkg::c".to_string()]);
}

#[test]
fn test_search_crate_latest_version() {
    let mut store = Store::new();
    store.index_crate("pkg", "1.2.0", "/p", 1, &vec![Item::bare(
        "pkg::FromOld".to_string(),
        ItemKind::Struct,
        None,
        None,
        Visibility::Public,
    )]);
    store.index_crate("pkg", "1.10.0", "/p", 2, &vec![Item::bare(
        "pkg::FromNew".to_string(),
        ItemKind::Struct,
        None,
        None,
        Visibility::Public,
    )]);
    // the newest version by numeric components wins, not the longest text
    let items = store.search_crate("pkg", None);
    assert_eq!(items.len(), 1);
    assert_eq!(items[0].path, "pkg::FromNew");
}

fn seeded_store() -> Store {
    let mut store = Store::new();
    let items = vec![
        Item::bare("pkg::Serialize".to_string(), ItemKind::Trait, None, None, Visibility::Public),
        Item::bare("pkg::Serializer".to_string(), ItemKind::Trait, None, None, Visibility::Public),
        Item::bare(
            "pkg::de::Deserializer".to_string(),
            ItemKind::Trait,
            None,
            None,
            Visibility::Public,
        ),
    ];
    store.index_crate("pkg", "1.0.0", "/p", 1, &items);
    store
}

#[test]
fn test_exact_vs_prefix_ranking() {
    let store = seeded_store();
    let engine = engine_for(&[("pkg", "1.0.0")], &[]);
    let response = engine.search(&store, "Serialize", &SearchOptions::new());
    assert_eq!(response.results.len(), 3);
    assert_eq!(response.results[0].path, "pkg::Serialize");
    assert_eq!(response.results[0].score, 100);
    assert_eq!(response.results[0].match_type, MatchType::Exact);
    assert_eq!(response.results[1].path, "pkg::Serializer");
    assert_eq!(response.results[1].score, 79);
    assert_eq!(response.results[1].match_type, MatchType::Prefix);
    assert_eq!(response.results[2].path, "pkg::de::Deserializer");
    assert_eq!(response.results[2].score, 50);
    assert_eq!(response.results[2].match_type, MatchType::Contains);
}

#[test]
fn test_score_item() {
    let engine = engine_for(&[], &[]);
    let (score, match_type) = engine.score_item("serde::Serialize", "serialize");
    assert_eq!(match_type, MatchType::Exact);
    assert_eq!(score, 100);

    let (score, match_type) = engine.score_item("serde::Serializer", "serial");
    assert_eq!(match_type, MatchType::Prefix);
    assert!(score > 50);

    let (_score, match_type) = engine.score_item("serde::de::Deserialize", "serial");
    assert_eq!(match_type, MatchType::Contains);
}

#[test]
fn test_fuzzy_fallback() {
    let mut store = Store::new();
    store.index_crate("pkg", "1.0.0", "/p", 1, &vec![Item::bare(
        "pkg::DistanceFog".to_string(),
        ItemKind::Struct,
        None,
        None,
        Visibility::Public,
    )]);
    let engine = engine_for(&[("pkg", "1.0.0")], &[]);
    let response = engine.search(&store, "DistnceFog", &SearchOptions::new());
    assert_eq!(response.results.len(), 1);
    assert_eq!(response.results[0].path, "pkg::DistanceFog");
    assert_eq!(response.results[0].match_type, MatchType::Fuzzy { distance: 1 });
    assert_eq!(response.results[0].match_type.describe(), "fuzzy~1");
    assert_eq!(response.results[0].score, 75);
}

#[test]
fn test_fuzzy_only_when_primary_thin() {
    // five or more primary hits leave the fuzzy fallback idle
    let mut store = Store::new();
    let mut items = Vec::new();
    for n in ["getter1", "getter2", "getter3", "getter4", "getter5"] {
        items.push(Item::bare(
            format!("pkg::{}", n),
            ItemKind::Function,
            None,
            None,
            Visibility::Public,
        ));
    }
    // a near-miss that only fuzzy matching would admit
    items.push(Item::bare(
        "pkg::gettex".to_string(),
        ItemKind::Function,
        None,
        None,
        Visibility::Public,
    ));
    store.index_crate("pkg", "1.0.0", "/p", 1, &items);
    let engine = engine_for(&[("pkg", "1.0.0")], &[]);
    let response = engine.search(&store, "getter", &SearchOptions::new());
    for r in &response.results {
        assert!(!matches!(r.match_type, MatchType::Fuzzy { .. }));
    }
}

#[test]
fn test_direct_only_filter() {
    let mut store = Store::new();
    let mk = |p: &str| {
        Item::bare(p.to_string(), ItemKind::Struct, None, None, Visibility::Public)
    };
    store.index_crate("direct_dep", "1.0.0", "/a", 1, &vec![mk("direct_dep::Widget")]);
    store.index_crate("transitive_dep", "1.0.0", "/b", 2, &vec![mk("transitive_dep::Widget")]);
    let engine = engine_for(&[("direct_dep", "1.0.0"), ("transitive_dep", "1.0.0")], &["direct_dep"]);
    let response = engine.search(
        &store,
        "Widget",
        &SearchOptions::new().direct_only(),
    );
    assert!(!response.results.is_empty());
    for r in &response.results {
        assert!(r.is_direct_dep);
        assert_eq!(r.crate_name, "direct_dep");
    }
    // the direct bonus: exact match from a direct dependency scores 110
    assert_eq!(response.results[0].score, 110);
}

#[test]
fn test_pagination_consistency() {
    let mut store = Store::new();
    let mut items = Vec::new();
    for i in 0..30 {
        items.push(Item::bare(
            format!("pkg::item{:02}", i),
            ItemKind::Function,
            None,
            None,
            Visibility::Public,
        ));
    }
    store.index_crate("pkg", "1.0.0", "/p", 1, &items);
    let engine = engine_for(&[("pkg", "1.0.0")], &[]);

    let all = engine.search(&store, "item", &SearchOptions::new().with_limit(30));
    assert_eq!(all.results.len(), 30);
    assert_eq!(all.pagination.total, 30);

    let mut gathered = Vec::new();
    for offset in [0usize, 10, 20] {
        let page = engine.search(
            &store,
            "item",
            &SearchOptions::new().with_limit(10).with_offset(offset),
        );
        assert_eq!(page.results.len(), 10);
        assert_eq!(page.pagination.total, 30);
        for r in page.results {
            gathered.push(r.path);
        }
    }
    let full: Vec<String> = all.results.into_iter().map(|r| r.path).collect();
    assert_eq!(gathered, full);
}

#[test]
fn test_boundary_queries() {
    let store = seeded_store();
    let engine = engine_for(&[("pkg", "1.0.0")], &[]);
    // empty query: nothing at all
    let empty = engine.search(&store, "", &SearchOptions::new());
    assert!(empty.results.is_empty());
    assert_eq!(empty.pagination.total, 0);
    // zero limit: no results, the total still populated
    let zero = engine.search(&store, "Serialize", &SearchOptions::new().with_limit(0));
    assert!(zero.results.is_empty());
    assert_eq!(zero.pagination.total, 3);
    // offset past the total: no results
    let past = engine.search(&store, "Serialize", &SearchOptions::new().with_offset(50));
    assert!(past.results.is_empty());
    assert_eq!(past.pagination.total, 3);
}

#[test]
fn test_crate_info_and_reexport() {
    let store = seeded_store();
    let engine = engine_for(&[("pkg", "1.0.0"), ("pkg_extra", "0.2.0")], &["pkg"]);
    let umbrella = "pub use pkg_core::*;\npub use pkg_extra::*;\npub use pkg_io::*;\npub use pkg_net::*;\nfn keep() {}\n";
    let info = engine
        .get_crate_info(&store, "pkg", Some(umbrella))
        .unwrap();
    assert_eq!(info.name, "pkg");
    assert_eq!(info.version, "1.0.0");
    assert!(info.is_reexport);
    assert!(info.is_direct_dep);
    assert_eq!(info.item_count, 3);
    assert_eq!(info.related_crates.len(), 2);
    assert_eq!(info.related_crates[0].name, "pkg");

    let missing = engine.get_crate_info(&store, "nosuch", None);
    assert!(missing.is_err());
}

#[test]
fn test_suggestions_on_thin_results() {
    let store = Store::new();
    let engine = engine_for(&[("serde_json", "1.0.0")], &[]);
    let response = engine.search(&store, "serde", &SearchOptions::new());
    assert!(response.results.is_empty());
    assert!(response.suggestions.contains(&"crate:serde_json".to_string()));
}

#[test]
fn test_store_search_orders_hits() {
    let mut store = Store::new();
    let mk = |p: &str| {
        Item::bare(p.to_string(), ItemKind::Struct, None, None, Visibility::Public)
    };
    store.index_crate("bbb", "1.0.0", "/b", 1, &vec![mk("bbb::Parser")]);
    store.index_crate("aaa", "1.0.0", "/a", 2, &vec![mk("aaa::Parser"), mk("aaa::Parse")]);
    let hits = store.search("parse");
    let got: Vec<(String, String)> = hits
        .into_iter()
        .map(|h| (h.crate_name, h.path))
        .collect();
    assert_eq!(
        got,
        vec![
            ("aaa".to_string(), "aaa::Parse".to_string()),
            ("aaa".to_string(), "aaa::Parser".to_string()),
            ("bbb".to_string(), "bbb::Parser".to_string()),
        ]
    );
    // a query under three characters yields no trigram and no hits
    assert!(store.search("pa").is_empty());
}

/// Parses TypeScript source with tree-sitter and hands the tree over in the
/// library's shape.
fn parse_ts_tree(source: &str) -> SourceNode {
    let mut parser = tree_sitter::Parser::new();
    parser
        .set_language(&tree_sitter_typescript::LANGUAGE_TYPESCRIPT.into())
        .expect("typescript grammar");
    let tree = parser.parse(source, None).expect("parse");
    convert(tree.root_node(), source, None)
}

fn extract_ts(source: &str, prefix: &str) -> Vec<Item> {
    let parser =
        fastdeps::tsextract::TypeScriptParser::new(fastdeps::tsextract::TsLanguage::TypeScript)
            .unwrap();
    let root = parse_ts_tree(source);
    parser.extract_items(&root, prefix)
}

#[test]
fn test_parse_interface() {
    let source = r#"
/** A license key from the API. */
export interface LemonSqueezyLicenseKey {
    id: number;
    status: 'active' | 'inactive' | 'expired';
    key: string;
}
"#;
    let items = extract_ts(source, "license");

    assert_eq!(items.len(), 1);
    let item = &items[0];
    assert_eq!(item.path, "license.LemonSqueezyLicenseKey");
    assert_eq!(item.kind, ItemKind::Trait);
    assert_eq!(item.visibility, Visibility::Public);
    assert_eq!(item.fields.len(), 3);
}

#[test]
fn test_parse_class() {
    let source = r#"
export class MenuItem {
    constructor(
        public readonly label: string,
        public readonly commandId: string
    ) {}

    public activate(): void {}
}
"#;
    let items = extract_ts(source, "extension");

    assert_eq!(items.len(), 1);
    let item = &items[0];
    assert_eq!(item.path, "extension.MenuItem");
    assert_eq!(item.kind, ItemKind::Struct);
}

#[test]
fn test_parse_function() {
    let source = r#"
export async function checkToolExists(tool: string): Promise<boolean> {
    return true;
}
"#;
    let items = extract_ts(source, "utils");

    assert_eq!(items.len(), 1);
    let item = &items[0];
    assert_eq!(item.path, "utils.checkToolExists");
    assert_eq!(item.kind, ItemKind::Function);
}

#[test]
fn test_parse_type_alias() {
    let source = r#"
export type OutputFormat = 'markdown' | 'json' | 'xml';
"#;
    let items = extract_ts(source, "types");

    assert_eq!(items.len(), 1);
    let item = &items[0];
    assert_eq!(item.path, "types.OutputFormat");
    assert_eq!(item.kind, ItemKind::TypeAlias);
}

#[test]
fn test_parse_const_arrow_function() {
    let source = r#"
export const execFileAsync = promisify(execFile);

export const runArchmapAi = async (root: string): Promise<string> => {
    return "";
};
"#;
    let items = extract_ts(source, "extension");

    assert_eq!(items.len(), 2);
}

#[test]
fn test_peek_window_and_kind_filter() {
    let mut store = Store::new();
    let items = vec![
        Item::bare("pkg::Alpha".to_string(), ItemKind::Struct, None, None, Visibility::Public),
        Item::bare("pkg::beta".to_string(), ItemKind::Function, None, None, Visibility::Public),
        Item::bare("pkg::Gamma".to_string(), ItemKind::Struct, None, None, Visibility::Public),
        Item::bare("pkg::delta".to_string(), ItemKind::Function, None, None, Visibility::Public),
    ];
    store.index_crate("pkg", "1.0.0", "/p", 1, &items);

    // the whole listing comes in path order
    let (page, total) = fastdeps::search::peek(&store, "pkg", None, 10, 0, None);
    assert_eq!(total, 4);
    let paths: Vec<&str> = page.iter().map(|c| c.path.as_str()).collect();
    assert_eq!(paths, vec!["pkg::Alpha", "pkg::Gamma", "pkg::beta", "pkg::delta"]);

    // offset and limit cut a window of it
    let (page, total) = fastdeps::search::peek(&store, "pkg", Some("1.0.0"), 2, 1, None);
    assert_eq!(total, 4);
    let paths: Vec<&str> = page.iter().map(|c| c.path.as_str()).collect();
    assert_eq!(paths, vec!["pkg::Gamma", "pkg::beta"]);

    // the kind filter keeps only matching rows and counts only them
    let (page, total) = fastdeps::search::peek(&store, "pkg", None, 10, 0, Some("Function"));
    assert_eq!(total, 2);
    let paths: Vec<&str> = page.iter().map(|c| c.path.as_str()).collect();
    assert_eq!(paths, vec!["pkg::beta", "pkg::delta"]);

    // an unindexed crate yields an empty listing
    let (page, total) = fastdeps::search::peek(&store, "nosuch", None, 10, 0, None);
    assert_eq!(total, 0);
    assert!(page.is_empty());
}

#[test]
fn test_ts_export_completeness_scenario() {
    let source = r#"
/** A point. */
export class Point { x: number; y: number; }
export interface Shape { area(): number; }
export type Pair = [number, number];
export function make(): Point { return new Point(); }
export enum Color { Red, Green }
"#;
    let tree = parse_ts_tree(source);
    let parser = fastdeps::tsextract::TypeScriptParser::new(
        fastdeps::tsextract::TsLanguage::TypeScript,
    )
    .expect("parser");
    let items = parser.extract_items(&tree, "mylib");
    let got: Vec<(String, ItemKind)> =
        items.iter().map(|i| (i.path.clone(), i.kind)).collect();
    assert!(got.contains(&("mylib.Point".to_string(), ItemKind::Struct)));
    assert!(got.contains(&("mylib.Shape".to_string(), ItemKind::Trait)));
    assert!(got.contains(&("mylib.Pair".to_string(), ItemKind::TypeAlias)));
    assert!(got.contains(&("mylib.make".to_string(), ItemKind::Function)));
    assert!(got.contains(&("mylib.Color".to_string(), ItemKind::Enum)));
}

#[test]
fn test_nested_module_impl_position_invariance() {
    let before = r#"
pub mod inner {
    /// Nested.
    pub struct Deep;

    impl Deep {
        pub fn get(&self) -> u8 { 0 }
    }
}
"#;
    let after = r#"
pub mod inner {
    impl Deep {
        pub fn get(&self) -> u8 { 0 }
    }

    /// Nested.
    pub struct Deep;
}
"#;
    let a = extract(before, "crate");
    let b = extract(after, "crate");

    // one item per named declaration: the module and the nested struct
    assert_eq!(a.len(), 2);
    assert_eq!(b.len(), 2);
    assert!(a
        .iter()
        .any(|i| i.path == "crate::inner" && i.kind == ItemKind::Module));
    let da = a
        .iter()
        .find(|i| i.path == "crate::inner::Deep")
        .expect("nested struct");
    let db = b
        .iter()
        .find(|i| i.path == "crate::inner::Deep")
        .expect("nested struct");
    assert_eq!(da.kind, ItemKind::Struct);
    assert_eq!(da.doc, Some("Nested.".into()));
    // attachment does not depend on where the impl block stands
    assert_eq!(da.methods.len(), 1);
    assert_eq!(da.methods[0].name, "get");
    assert_eq!(db.methods.len(), 1);
    assert_eq!(db.methods[0].name, "get");
}

#[test]
fn test_foreign_impl_adds_nothing() {
    let source = r#"
pub struct Foo;

impl ForeignType {
    pub fn helper(&self) {}
}
"#;
    let items = extract(source, "crate");
    // the unknown impl target creates no item and attaches nowhere
    assert_eq!(items.len(), 1);
    assert_eq!(items[0].path, "crate::Foo");
    assert_eq!(items[0].methods.len(), 0);
}
