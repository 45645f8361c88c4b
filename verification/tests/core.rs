//! Tests of the string, version, path and crossing logic.

use fastdeps::crossing::{Crossing, CrossingKind, ExtractedBounds, ManifoldConflict, Ternary, TypeCharge};
use fastdeps::modpath;
use fastdeps::npm;
use fastdeps::project;
use fastdeps::search;
use fastdeps::strutil;
use fastdeps::symdoc::SymbolDoc;
use fastdeps::usage::{summarize_sites, UsageKind, UsageSite};
use fastdeps::version;

#[test]
fn test_ternary_conflicts() {
    assert!(Ternary::Yes.conflicts(&Ternary::No));
    assert!(!Ternary::Yes.conflicts(&Ternary::Yes));
    assert!(!Ternary::Yes.conflicts(&Ternary::Unknown));
    assert!(!Ternary::Unknown.conflicts(&Ternary::Unknown));
}

#[test]
fn test_marker_conflict_detection() {
    let charge_send = TypeCharge { send: Ternary::Yes, ..Default::default() };
    let charge_no_send = TypeCharge { send: Ternary::No, ..Default::default() };

    let crossing = Crossing::marker_conflict(
        "test:1".to_string(),
        0,
        1,
        &charge_send,
        &charge_no_send,
    );
    assert!(crossing.is_some());

    let c = crossing.unwrap();
    match c.kind {
        CrossingKind::MarkerConflict { send_mismatch, .. } => {
            assert!(send_mismatch);
        }
        _ => panic!("Expected marker conflict"),
    }
}

#[test]
fn test_crossing_describe() {
    let crossing = Crossing::trait_conflict(
        "src/lib.rs:42".to_string(),
        0,
        1,
        "AsyncRead".to_string(),
        "tokio::io::AsyncRead".to_string(),
        "smol::io::AsyncRead".to_string(),
    );

    let desc = crossing.describe();
    assert!(desc.contains("AsyncRead"));
    assert!(desc.contains("tokio"));
    assert!(desc.contains("smol"));
}

#[test]
fn test_extracted_bounds_conflict() {
    let mut bounds_a = ExtractedBounds::default();
    bounds_a.trait_bounds.push("tokio::io::AsyncRead".to_string());
    bounds_a.markers.send = Ternary::Yes;

    let mut bounds_b = ExtractedBounds::default();
    bounds_b.trait_bounds.push("smol::io::AsyncRead".to_string());
    bounds_b.markers.send = Ternary::Yes;

    let conflicts = bounds_a.find_conflicts(&bounds_b);
    assert!(!conflicts.is_empty());
}

#[test]
fn test_suggest_reproject() {
    let c = ManifoldConflict::new(3, 3, "competing runtimes".to_string());
    assert_eq!(c.suggest_reproject(), "Feature-gate one runtime, or use async-compat bridge");
    let c2 = ManifoldConflict::new(5, 7, "odd pairing".to_string());
    assert_eq!(
        c2.suggest_reproject(),
        "Dimensions e5 and e7 conflict - manual intervention required"
    );
}

#[test]
fn test_parse_crate_spec() {
    assert_eq!(version::parse_crate_spec("serde"), ("serde", None));
    assert_eq!(version::parse_crate_spec("serde@1.0.200"), ("serde", Some("1.0.200")));
}

#[test]
fn test_version_cmp() {
    assert_eq!(version::version_cmp("1.0.0", "1.0.1"), std::cmp::Ordering::Less);
    assert_eq!(version::version_cmp("1.0.10", "1.0.9"), std::cmp::Ordering::Greater);
    assert_eq!(version::version_cmp("2.0.0", "1.9.9"), std::cmp::Ordering::Greater);
}

#[test]
fn test_version_cmp_multidigit() {
    // numeric components order versions where plain text comparison fails
    assert_eq!(version::version_cmp("1.10.0", "1.2.0"), std::cmp::Ordering::Greater);
    assert_eq!(version::version_cmp("0.9", "0.10"), std::cmp::Ordering::Less);
}

#[test]
fn test_path_to_module() {
    assert_eq!(modpath::path_to_module("serde", "src/lib.rs"), "serde");
    assert_eq!(modpath::path_to_module("serde", "src/ser/mod.rs"), "serde::ser");
    assert_eq!(modpath::path_to_module("serde", "src/de/value.rs"), "serde::de::value");
}

#[test]
fn npm_test_path_to_module() {
    assert_eq!(npm::path_to_module("lesstokens", "src/index.ts"), "lesstokens");
    assert_eq!(npm::path_to_module("lesstokens", "src/license/api.ts"), "lesstokens.license.api");
    assert_eq!(npm::path_to_module("lesstokens", "src/license/index.ts"), "lesstokens.license");
}

#[test]
fn test_file_to_module_path() {
    assert_eq!(modpath::file_to_module_path("src/lib.rs", "serde"), "serde");
    assert_eq!(modpath::file_to_module_path("src/de/mod.rs", "serde"), "serde::de");
    assert_eq!(modpath::file_to_module_path("src/value.rs", "serde"), "serde::value");
}

#[test]
fn test_levenshtein() {
    assert_eq!(search::levenshtein("kitten", "sitting"), 3);
    assert_eq!(search::levenshtein("", "abc"), 3);
    assert_eq!(search::levenshtein("abc", "abc"), 0);
    assert_eq!(search::levenshtein("DistnceFog", "DistanceFog"), 1);
}

#[test]
fn test_simple_name() {
    assert_eq!(strutil::simple_name("serde::de::Deserialize"), "Deserialize");
    assert_eq!(strutil::simple_name("plain"), "plain");
    assert_eq!(strutil::simple_name(""), "");
}

#[test]
fn test_parse_crate_dir() {
    let krate =
        fastdeps::deps::parse_crate_dir("/home/user/.cargo/registry/src/index/serde-1.0.200")
            .unwrap();
    assert_eq!(krate.name, "serde");
    assert_eq!(krate.version, "1.0.200");
}

#[test]
fn test_parse_crate_dir_with_hyphen() {
    let krate =
        fastdeps::deps::parse_crate_dir("/home/user/.cargo/registry/src/index/proc-macro2-1.0.86")
            .unwrap();
    assert_eq!(krate.name, "proc-macro2");
    assert_eq!(krate.version, "1.0.86");
}

#[test]
fn test_parse_package_name() {
    let manifest = "[package]\nname = \"fastdeps\"\nversion = \"0.1.0\"\n";
    assert_eq!(project::parse_package_name(manifest), Some("fastdeps".to_string()));
    assert_eq!(project::parse_package_name("[package]\nversion = \"1\"\n"), None);
}

#[test]
fn test_parse_cargo_lock_lines() {
    let lock = "[[package]]\nname = \"serde\"\nversion = \"1.0.200\"\n\n[[package]]\nname = \"syn\"\nversion = \"2.0.0\"\n";
    let deps = project::parse_cargo_lock(lock);
    assert_eq!(deps.len(), 2);
    assert_eq!(deps[0].name, "serde");
    assert_eq!(deps[0].version, "1.0.200");
    assert_eq!(deps[1].name, "syn");
    assert_eq!(deps[1].version, "2.0.0");
}

#[test]
fn test_count_dependencies() {
    let manifest = "[package]\nname = \"x\"\n[dependencies]\nserde = \"1\"\ntoml = \"0.8\"\n# a comment\n\n[dev-dependencies]\ntempfile = \"3\"\n[profile.release]\nopt-level = 3\n";
    assert_eq!(fastdeps::metrics::count_dependencies(manifest), 3);
}

#[test]
fn test_is_reexport_source() {
    // a root file of five code lines, four of them re-exports
    let src = "// umbrella crate\npub use core_a::*;\npub use core_b::*;\npub use core_c::*;\npub use core_d::*;\nfn tiny() {}\n";
    assert!(search::is_reexport_source(src));
    let real = "pub struct A;\npub struct B;\npub struct C;\nfn work() {}\n";
    assert!(!search::is_reexport_source(real));
}

#[test]
fn test_trim_and_lower() {
    assert_eq!(strutil::trim_copy("  hello \t"), "hello");
    assert_eq!(strutil::lower("MiXeD_Case9"), "mixed_case9");
}

#[test]
fn test_summarize_usage() {
    let sites = vec![
        UsageSite {
            file: "src/main.rs".to_string(),
            line: 1,
            path: "serde::Deserialize".to_string(),
            kind: UsageKind::Import,
            context: None,
        },
        UsageSite {
            file: "src/lib.rs".to_string(),
            line: 3,
            path: "serde::Deserialize".to_string(),
            kind: UsageKind::Import,
            context: None,
        },
        UsageSite {
            file: "src/lib.rs".to_string(),
            line: 9,
            path: "Serialize".to_string(),
            kind: UsageKind::Derive,
            context: None,
        },
    ];
    let summary = summarize_sites("serde".to_string(), sites);
    assert_eq!(summary.top_imports.len(), 1);
    assert_eq!(summary.top_imports[0].0, "serde::Deserialize");
    assert_eq!(summary.top_imports[0].1, 2);
    assert_eq!(summary.derives_used, vec!["Serialize".to_string()]);
    let text = summary.format();
    assert!(text.starts_with("Usage of 'serde' in this project:"));
    assert!(text.contains("used 2 times"));
}

#[test]
fn test_find_line_containing() {
    let lines = vec!["alpha".to_string(), "beta".to_string(), "gamma beta".to_string()];
    assert_eq!(fastdeps::usage::find_line_containing(&lines, "beta"), Some(2));
    assert_eq!(fastdeps::usage::find_line_containing(&lines, "delta"), None);
}

#[test]
fn test_embedding_text() {
    let doc = SymbolDoc {
        path: "serde::Serialize".to_string(),
        kind: "trait".to_string(),
        signature: Some("trait Serialize".to_string()),
        doc: Some("A serializable value.\n\nLong details follow.".to_string()),
    };
    assert_eq!(
        doc.embedding_text(),
        "serde::Serialize trait Serialize A serializable value."
    );
    let sym = doc.to_symbol();
    assert_eq!(sym.path, "serde::Serialize");
    assert_eq!(sym.kind, "trait");
}

#[test]
fn test_summarize_import_counts_exact() {
    let mk = |path: &str, line: usize, kind: UsageKind| UsageSite {
        file: "src/lib.rs".to_string(),
        line,
        path: path.to_string(),
        kind,
        context: None,
    };
    let sites = vec![
        mk("pkg::Reader", 1, UsageKind::Import),
        mk("pkg::Writer", 2, UsageKind::Import),
        mk("pkg::Reader", 3, UsageKind::Import),
        mk("pkg::Reader", 4, UsageKind::Import),
        mk("pkg::Writer", 5, UsageKind::MacroCall),
    ];
    let summary = summarize_sites("pkg".to_string(), sites);
    assert_eq!(summary.top_imports.len(), 2);
    assert_eq!(summary.top_imports[0], ("pkg::Reader".to_string(), 3));
    assert_eq!(summary.top_imports[1], ("pkg::Writer".to_string(), 1));
}

#[test]
fn test_detect_crossings_composition() {
    let mut bounds_a = ExtractedBounds::default();
    bounds_a.wrappers.push("MutexGuard".to_string());
    bounds_a.wrappers.push("Plain".to_string());
    bounds_a.trait_bounds.push("tokio::io::AsyncRead".to_string());

    let mut bounds_b = ExtractedBounds::default();
    bounds_b.wrappers.push("ArcWrapper".to_string());
    bounds_b.wrappers.push("BoxAdapter".to_string());
    bounds_b.wrappers.push("Helper".to_string());
    bounds_b.trait_bounds.push("futures::Stream".to_string());

    let out = fastdeps::crossing::detect_crossings_heuristic(
        "alpha",
        &bounds_a,
        "beta",
        &bounds_b,
    );

    // one non-commuting nesting crossing per pair of outer wrappers:
    // MutexGuard against each of ArcWrapper and BoxAdapter
    let nestings: Vec<_> = out
        .iter()
        .filter_map(|c| match &c.kind {
            CrossingKind::WrapperNesting { outer, inner, can_commute } => {
                Some((outer.clone(), inner.clone(), *can_commute))
            }
            _ => None,
        })
        .collect();
    assert_eq!(nestings.len(), 2);
    assert!(nestings.contains(&("MutexGuard".to_string(), "ArcWrapper".to_string(), false)));
    assert!(nestings.contains(&("MutexGuard".to_string(), "BoxAdapter".to_string(), false)));

    // both sides are async, so exactly one generic crossing closes the list
    let last = out.last().expect("crossings");
    assert!(matches!(last.kind, CrossingKind::Generic { .. }));
    assert!(last.involves_pin);
    let generics = out
        .iter()
        .filter(|c| matches!(c.kind, CrossingKind::Generic { .. }))
        .count();
    assert_eq!(generics, 1);
}

#[test]
fn test_detect_crossings_no_async_no_generic() {
    let mut bounds_a = ExtractedBounds::default();
    bounds_a.wrappers.push("MutexGuard".to_string());
    let bounds_b = ExtractedBounds::default();

    let out = fastdeps::crossing::detect_crossings_heuristic(
        "alpha",
        &bounds_a,
        "beta",
        &bounds_b,
    );
    // no outer wrapper on the other side and no async bounds: nothing at all
    assert!(out
        .iter()
        .all(|c| !matches!(c.kind, CrossingKind::Generic { .. })));
    assert!(out
        .iter()
        .all(|c| !matches!(c.kind, CrossingKind::WrapperNesting { .. })));
}
