use rustdoc_json::classify::classify;
use rustdoc_json::error::DocError;
use rustdoc_json::graph::{GraphNode, SymbolGraph};
use rustdoc_json::json::{create_json, DocHost};
use rustdoc_json::symbol::{Symbol, SymbolKind};

fn sym(kind: SymbolKind, qualname: &str, name: &str, docs: &str) -> Symbol {
    Symbol {
        kind,
        qualname: qualname.to_string(),
        name: name.to_string(),
        docs: docs.to_string(),
    }
}

fn node(symbol: Symbol, children: Vec<usize>) -> GraphNode {
    GraphNode { symbol, children }
}

/// The scenario graph: crate `demo` with root children `mod a` and
/// `struct a::X`, and `struct a::Y` inside `mod a`.
fn demo_graph() -> SymbolGraph {
    SymbolGraph {
        nodes: vec![
            node(sym(SymbolKind::Mod, "demo", "demo", "demo docs"), vec![1, 2]),
            node(sym(SymbolKind::Mod, "a", "a", "module a"), vec![3]),
            node(sym(SymbolKind::Struct, "a::X", "X", "struct X"), vec![]),
            node(sym(SymbolKind::Struct, "a::Y", "Y", "struct Y"), vec![]),
        ],
        roots: vec![(0, "demo".to_string())],
    }
}

fn parse(s: &str) -> serde_json::Value {
    serde_json::from_str(s).expect("output must be valid JSON")
}

#[test]
fn demo_crate_walk() {
    let g = demo_graph();
    let out = rustdoc_json::graph::build_docs(&g, "demo").unwrap();
    let v = parse(&out);

    assert_eq!(v["data"]["type"], serde_json::Value::String("crate".to_string()));
    assert_eq!(v["data"]["id"].as_str().unwrap(), "demo");
    assert_eq!(v["data"]["attributes"]["docs"].as_str().unwrap(), "demo docs");

    let modules = v["data"]["relationships"]["modules"]["data"].as_array().unwrap();
    assert_eq!(modules.len(), 1);
    assert_eq!(modules[0]["type"].as_str().unwrap(), "module");
    assert_eq!(modules[0]["id"].as_str().unwrap(), "a");

    let structs = v["data"]["relationships"]["structs"]["data"].as_array().unwrap();
    assert_eq!(structs.len(), 2);
    assert_eq!(structs[0]["id"].as_str().unwrap(), "a::X");
    assert_eq!(structs[1]["id"].as_str().unwrap(), "a::Y");

    let included = v["included"].as_array().unwrap();
    assert_eq!(included.len(), 3);
    assert_eq!(included[0]["id"].as_str().unwrap(), "a");
    assert_eq!(included[0]["type"].as_str().unwrap(), "module");
    assert_eq!(included[0]["attributes"]["name"].as_str().unwrap(), "a");
    assert_eq!(included[0]["attributes"]["docs"].as_str().unwrap(), "module a");
    assert_eq!(included[1]["id"].as_str().unwrap(), "a::X");
    assert_eq!(included[2]["id"].as_str().unwrap(), "a::Y");
}

#[test]
fn missing_crate_not_found() {
    let g = demo_graph();
    let err = rustdoc_json::graph::build_docs(&g, "nope").unwrap_err();
    match &err {
        DocError::CrateNotFound(name) => assert_eq!(name, "nope"),
        other => panic!("expected CrateNotFound, got {:?}", other),
    }
    assert_eq!(err.describe(), "crate not found: nope");
}

#[test]
fn unclassified_enum_skipped_but_child_struct_kept() {
    let g = SymbolGraph {
        nodes: vec![
            node(sym(SymbolKind::Mod, "demo", "demo", ""), vec![1]),
            node(sym(SymbolKind::Enum, "e", "e", "an enum"), vec![2]),
            node(sym(SymbolKind::Struct, "e::S", "S", "inner struct"), vec![]),
        ],
        roots: vec![(0, "demo".to_string())],
    };
    let out = rustdoc_json::graph::build_docs(&g, "demo").unwrap();
    let v = parse(&out);
    let included = v["included"].as_array().unwrap();
    assert_eq!(included.len(), 1);
    assert_eq!(included[0]["id"].as_str().unwrap(), "e::S");
    assert!(v["data"]["relationships"].get("modules").is_none());
    let structs = v["data"]["relationships"]["structs"]["data"].as_array().unwrap();
    assert_eq!(structs.len(), 1);
    assert_eq!(structs[0]["id"].as_str().unwrap(), "e::S");
}

#[test]
fn repeated_builds_are_byte_identical() {
    let g = demo_graph();
    let a = rustdoc_json::graph::build_docs(&g, "demo").unwrap();
    let b = rustdoc_json::graph::build_docs(&g, "demo").unwrap();
    assert_eq!(a, b);
    assert_eq!(a.as_bytes(), b.as_bytes());
}

#[test]
fn round_trip_reconstructs_envelope() {
    let g = demo_graph();
    let out = rustdoc_json::graph::build_docs(&g, "demo").unwrap();
    let v = parse(&out);

    let mut x_attrs = serde_json::Map::new();
    x_attrs.insert("name".to_string(), serde_json::Value::String("X".to_string()));
    x_attrs.insert("docs".to_string(), serde_json::Value::String("struct X".to_string()));
    let mut x_doc = serde_json::Map::new();
    x_doc.insert("type".to_string(), serde_json::Value::String("struct".to_string()));
    x_doc.insert("id".to_string(), serde_json::Value::String("a::X".to_string()));
    x_doc.insert("attributes".to_string(), serde_json::Value::Object(x_attrs));
    assert_eq!(v["included"][1], serde_json::Value::Object(x_doc));
}

#[test]
fn special_characters_in_docs_survive_the_round_trip() {
    let docs = "quote \" backslash \\ newline \n tab \t carriage \r bell \u{7} accent é";
    let g = SymbolGraph {
        nodes: vec![
            node(sym(SymbolKind::Mod, "demo", "demo", docs), vec![1]),
            node(sym(SymbolKind::Struct, "s", "s", docs), vec![]),
        ],
        roots: vec![(0, "demo".to_string())],
    };
    let out = rustdoc_json::graph::build_docs(&g, "demo").unwrap();
    let v = parse(&out);
    assert_eq!(v["data"]["attributes"]["docs"].as_str().unwrap(), docs);
    assert_eq!(v["included"][0]["attributes"]["docs"].as_str().unwrap(), docs);
}

#[test]
fn crate_without_children_renders_exactly() {
    let g = SymbolGraph {
        nodes: vec![node(sym(SymbolKind::Mod, "empty", "empty", ""), vec![])],
        roots: vec![(0, "empty".to_string())],
    };
    let out = rustdoc_json::graph::build_docs(&g, "empty").unwrap();
    assert_eq!(
        out,
        "{\"data\":{\"type\":\"crate\",\"id\":\"empty\",\"attributes\":{\"docs\":\"\"}},\"included\":[]}"
    );
}

#[test]
fn shared_child_is_included_once() {
    let g = SymbolGraph {
        nodes: vec![
            node(sym(SymbolKind::Mod, "demo", "demo", ""), vec![1, 2]),
            node(sym(SymbolKind::Mod, "m1", "m1", ""), vec![3]),
            node(sym(SymbolKind::Mod, "m2", "m2", ""), vec![3]),
            node(sym(SymbolKind::Struct, "s", "s", ""), vec![]),
        ],
        roots: vec![(0, "demo".to_string())],
    };
    let out = rustdoc_json::graph::build_docs(&g, "demo").unwrap();
    let v = parse(&out);
    let included = v["included"].as_array().unwrap();
    assert_eq!(included.len(), 3);
    let structs = v["data"]["relationships"]["structs"]["data"].as_array().unwrap();
    assert_eq!(structs.len(), 1);
}

#[test]
fn cyclic_graph_terminates_with_each_node_once() {
    let g = SymbolGraph {
        nodes: vec![
            node(sym(SymbolKind::Mod, "demo", "demo", ""), vec![1]),
            node(sym(SymbolKind::Mod, "a", "a", ""), vec![2]),
            node(sym(SymbolKind::Mod, "b", "b", ""), vec![1]),
        ],
        roots: vec![(0, "demo".to_string())],
    };
    let out = rustdoc_json::graph::build_docs(&g, "demo").unwrap();
    let v = parse(&out);
    let modules = v["data"]["relationships"]["modules"]["data"].as_array().unwrap();
    assert_eq!(modules.len(), 2);
    assert_eq!(modules[0]["id"].as_str().unwrap(), "a");
    assert_eq!(modules[1]["id"].as_str().unwrap(), "b");
}

#[test]
fn classifier_vocabulary() {
    let m = classify(SymbolKind::Mod).unwrap();
    assert_eq!(m.0, "module");
    assert_eq!(m.1, "modules");
    let s = classify(SymbolKind::Struct).unwrap();
    assert_eq!(s.0, "struct");
    assert_eq!(s.1, "structs");
    assert!(classify(SymbolKind::Enum).is_none());
    assert!(classify(SymbolKind::Other).is_none());
}

#[test]
fn error_messages_name_the_condition() {
    assert_eq!(DocError::Resolution.describe(), "could not resolve symbol metadata");
    assert_eq!(
        DocError::Enumeration.describe(),
        "could not enumerate the children of a symbol"
    );
    assert_eq!(
        DocError::TraversalLimit.describe(),
        "symbol graph exceeds the traversal bound"
    );
}

#[test]
fn unloaded_host_fails_resolution() {
    let host = DocHost::new_host();
    let err = create_json(&host, "demo").unwrap_err();
    assert!(matches!(err, DocError::Resolution));
}

#[test]
fn data_record_never_among_included() {
    let g = demo_graph();
    let out = rustdoc_json::graph::build_docs(&g, "demo").unwrap();
    let v = parse(&out);
    assert_eq!(v["data"]["id"].as_str().unwrap(), "demo");
    let data = &v["data"];
    for record in v["included"].as_array().unwrap() {
        assert_ne!(record, data);
        assert_ne!(record["type"].as_str().unwrap(), "crate");
    }
}
