use server_actions::action_map::ActionMap;
use server_actions::manifest::{build_manifest, NextRuntime, ServerReferenceManifest};
use server_actions::page::create_server_actions_manifest;
use server_actions::scan::{
    get_actions, parse_actions, Extraction, ModuleActionMap, ModuleGraph, ModuleNode, ScanError,
};
use server_actions::loader::build_server_actions_loader;

fn actions(pairs: &[(&str, &str)]) -> Extraction {
    let mut m = ActionMap::new();
    for (id, name) in pairs {
        m.insert(id.to_string(), name.to_string());
    }
    Extraction::Actions(m)
}

fn node(name: &str, references: Vec<usize>, extraction: Extraction) -> ModuleNode {
    ModuleNode { name: name.to_string(), references, extraction }
}

fn modules_of(m: &ModuleActionMap) -> Vec<usize> {
    m.entries.iter().map(|e| e.0).collect()
}

fn pairs_of(m: &ActionMap) -> Vec<(String, String)> {
    (0..m.len()).map(|i| m.get(i)).collect()
}

fn workers(
    section: &[(String, server_actions::manifest::ActionManifestEntry)],
    id: &str,
) -> Vec<(String, String)> {
    let found: Vec<_> = section.iter().filter(|e| e.0 == id).collect();
    assert_eq!(found.len(), 1);
    found[0].1.workers.clone()
}

#[test]
fn end_to_end_single_action() {
    let g = ModuleGraph {
        modules: vec![
            node("M", vec![1], Extraction::NoActions),
            node("N", vec![], actions(&[("abc123", "myAction")])),
        ],
    };
    let found = get_actions(&g, 0).unwrap();
    assert_eq!(modules_of(&found), vec![1]);
    assert_eq!(
        pairs_of(&found.entries[0].1),
        vec![("abc123".to_string(), "myAction".to_string())]
    );
    let loader = build_server_actions_loader(&found);
    assert_eq!(
        loader.source,
        "__turbopack_export_value__({\n  'abc123': (...args) => import('ACTIONS_MODULE0')\n  .then(mod => (0, mod['myAction'])(...args)),\n\n});"
    );
    assert_eq!(loader.imports, vec![("ACTIONS_MODULE0".to_string(), 1)]);
    let mut manifest = ServerReferenceManifest::new();
    build_manifest(
        &mut manifest,
        &"/dashboard".to_string(),
        NextRuntime::NodeJs,
        &found,
        &"chunk_42".to_string(),
    );
    assert!(manifest.edge.is_empty());
    assert_eq!(manifest.node.len(), 1);
    assert_eq!(
        workers(&manifest.node, "abc123"),
        vec![("/dashboard".to_string(), "chunk_42".to_string())]
    );
}

#[test]
fn cycle_is_scanned_once() {
    let g = ModuleGraph {
        modules: vec![
            node("A", vec![1], actions(&[("a", "fa")])),
            node("B", vec![0], actions(&[("b", "fb")])),
        ],
    };
    let found = get_actions(&g, 0).unwrap();
    assert_eq!(modules_of(&found), vec![0, 1]);
}

#[test]
fn self_reference_is_scanned_once() {
    let g = ModuleGraph { modules: vec![node("A", vec![0, 0], actions(&[("a", "fa")]))] };
    let found = get_actions(&g, 0).unwrap();
    assert_eq!(modules_of(&found), vec![0]);
}

#[test]
fn breadth_first_order() {
    let g = ModuleGraph {
        modules: vec![
            node("root", vec![2, 1], actions(&[("r", "fr")])),
            node("one", vec![3], actions(&[("o", "fo")])),
            node("two", vec![3, 1], actions(&[("t", "ft")])),
            node("three", vec![], actions(&[("h", "fh")])),
        ],
    };
    let found = get_actions(&g, 0).unwrap();
    assert_eq!(modules_of(&found), vec![0, 2, 1, 3]);
}

#[test]
fn scanning_twice_gives_the_same_loader() {
    let g = ModuleGraph {
        modules: vec![
            node("A", vec![1, 2], actions(&[("x1", "one"), ("x2", "two")])),
            node("B", vec![2], Extraction::NoActions),
            node("C", vec![0], actions(&[("y", "three")])),
        ],
    };
    let first = build_server_actions_loader(&get_actions(&g, 0).unwrap());
    let second = build_server_actions_loader(&get_actions(&g, 0).unwrap());
    assert_eq!(first.source, second.source);
    assert_eq!(first.imports, second.imports);
}

#[test]
fn one_import_slot_for_many_actions() {
    let g = ModuleGraph {
        modules: vec![node("A", vec![], actions(&[("h1", "f1"), ("h2", "f2"), ("h3", "f3")]))],
    };
    let loader = build_server_actions_loader(&get_actions(&g, 0).unwrap());
    assert_eq!(loader.imports, vec![("ACTIONS_MODULE0".to_string(), 0)]);
    assert_eq!(loader.source.matches("import('ACTIONS_MODULE0')").count(), 3);
    assert!(!loader.source.contains("ACTIONS_MODULE1"));
    for (id, name) in [("h1", "f1"), ("h2", "f2"), ("h3", "f3")] {
        assert!(loader.source.contains(&format!("'{id}': (...args)")));
        assert!(loader.source.contains(&format!("mod['{name}']")));
    }
}

#[test]
fn slot_numbers_past_nine() {
    let mut modules = Vec::new();
    for i in 0..11usize {
        let refs = if i < 10 { vec![i + 1] } else { vec![] };
        let id = format!("id{i}");
        let name = format!("fn{i}");
        modules.push(node("m", refs, actions(&[(id.as_str(), name.as_str())])));
    }
    let g = ModuleGraph { modules };
    let loader = build_server_actions_loader(&get_actions(&g, 0).unwrap());
    assert_eq!(loader.imports.len(), 11);
    assert_eq!(loader.imports[10], ("ACTIONS_MODULE10".to_string(), 10));
    assert!(loader.source.contains("'id10': (...args) => import('ACTIONS_MODULE10')"));
}

#[test]
fn page_without_actions_gets_no_loader() {
    let g = ModuleGraph {
        modules: vec![
            node("A", vec![1], Extraction::NoActions),
            node("B", vec![], actions(&[])),
        ],
    };
    let page = create_server_actions_manifest(&g, 0, true).unwrap();
    assert_eq!(page.actions.len(), 0);
    assert!(page.loader.is_none());
    let mut manifest = ServerReferenceManifest::new();
    build_manifest(
        &mut manifest,
        &"/page".to_string(),
        NextRuntime::Edge,
        &page.actions,
        &"chunk".to_string(),
    );
    assert!(manifest.edge.is_empty());
    assert!(manifest.node.is_empty());
}

#[test]
fn disabled_actions_skip_the_scan() {
    let g = ModuleGraph { modules: vec![node("A", vec![], Extraction::Failed)] };
    let page = create_server_actions_manifest(&g, 0, false).unwrap();
    assert_eq!(page.actions.len(), 0);
    assert!(page.loader.is_none());
}

#[test]
fn page_with_actions_gets_a_loader() {
    let g = ModuleGraph {
        modules: vec![node("A", vec![1], Extraction::NoActions), node("B", vec![], actions(&[("k", "v")]))],
    };
    let page = create_server_actions_manifest(&g, 0, true).unwrap();
    assert_eq!(modules_of(&page.actions), vec![1]);
    let loader = page.loader.unwrap();
    assert_eq!(loader.imports, vec![("ACTIONS_MODULE0".to_string(), 1)]);
}

#[test]
fn extraction_failure_fails_the_scan() {
    let g = ModuleGraph {
        modules: vec![
            node("A", vec![1, 2], actions(&[("a", "fa")])),
            node("B", vec![], Extraction::NoActions),
            node("C", vec![], Extraction::Failed),
        ],
    };
    assert_eq!(get_actions(&g, 0).err(), Some(ScanError::ParseFailed(2)));
    assert_eq!(create_server_actions_manifest(&g, 0, true).err(), Some(ScanError::ParseFailed(2)));
}

#[test]
fn unreachable_failure_is_not_seen() {
    let g = ModuleGraph {
        modules: vec![node("A", vec![], actions(&[("a", "fa")])), node("B", vec![], Extraction::Failed)],
    };
    assert_eq!(modules_of(&get_actions(&g, 0).unwrap()), vec![0]);
}

#[test]
fn parse_actions_reports_each_kind() {
    let g = ModuleGraph {
        modules: vec![
            node("A", vec![], Extraction::NoActions),
            node("B", vec![], actions(&[("a", "fa")])),
            node("C", vec![], Extraction::Failed),
        ],
    };
    assert!(parse_actions(&g, 0).unwrap().actions.is_none());
    let b = parse_actions(&g, 1).unwrap().actions.unwrap();
    assert_eq!(pairs_of(&b), vec![("a".to_string(), "fa".to_string())]);
    assert_eq!(parse_actions(&g, 2).err(), Some(ScanError::ParseFailed(2)));
}

#[test]
fn two_routes_share_one_entry() {
    let g = ModuleGraph { modules: vec![node("A", vec![], actions(&[("a1", "act")]))] };
    let found = get_actions(&g, 0).unwrap();
    let mut manifest = ServerReferenceManifest::new();
    build_manifest(&mut manifest, &"/x".to_string(), NextRuntime::NodeJs, &found, &"cx".to_string());
    build_manifest(&mut manifest, &"/y".to_string(), NextRuntime::NodeJs, &found, &"cy".to_string());
    assert_eq!(manifest.node.len(), 1);
    assert_eq!(
        workers(&manifest.node, "a1"),
        vec![("/x".to_string(), "cx".to_string()), ("/y".to_string(), "cy".to_string())]
    );
}

#[test]
fn same_route_is_overwritten() {
    let g = ModuleGraph { modules: vec![node("A", vec![], actions(&[("a1", "act")]))] };
    let found = get_actions(&g, 0).unwrap();
    let mut manifest = ServerReferenceManifest::new();
    build_manifest(&mut manifest, &"/x".to_string(), NextRuntime::Edge, &found, &"old".to_string());
    build_manifest(&mut manifest, &"/x".to_string(), NextRuntime::Edge, &found, &"new".to_string());
    assert_eq!(workers(&manifest.edge, "a1"), vec![("/x".to_string(), "new".to_string())]);
}

#[test]
fn runtimes_are_kept_apart() {
    let g = ModuleGraph { modules: vec![node("A", vec![], actions(&[("a1", "act")]))] };
    let found = get_actions(&g, 0).unwrap();
    let mut manifest = ServerReferenceManifest::new();
    build_manifest(&mut manifest, &"/x".to_string(), NextRuntime::Edge, &found, &"ce".to_string());
    build_manifest(&mut manifest, &"/y".to_string(), NextRuntime::NodeJs, &found, &"cn".to_string());
    assert_eq!(workers(&manifest.edge, "a1"), vec![("/x".to_string(), "ce".to_string())]);
    assert_eq!(workers(&manifest.node, "a1"), vec![("/y".to_string(), "cn".to_string())]);
}

#[test]
fn action_map_insert_keeps_order_and_replaces() {
    let mut m = ActionMap::new();
    assert_eq!(m.len(), 0);
    m.insert("b".to_string(), "one".to_string());
    m.insert("a".to_string(), "two".to_string());
    m.insert("b".to_string(), "three".to_string());
    assert_eq!(
        pairs_of(&m),
        vec![("b".to_string(), "three".to_string()), ("a".to_string(), "two".to_string())]
    );
    let copy = m.duplicate();
    assert_eq!(pairs_of(&copy), pairs_of(&m));
}

#[test]
fn empty_module_action_map() {
    let m = ModuleActionMap::empty();
    assert_eq!(m.len(), 0);
    let loader = build_server_actions_loader(&m);
    assert_eq!(loader.source, "__turbopack_export_value__({\n});");
    assert!(loader.imports.is_empty());
}
