use buckal::apply::{parse_package_id, plan_change, ChangeAction};
use buckal::cache::{diff, from_hex, to_hex, BuckalNode, Change, ChangeType, NodeKind, SnapshotEntry};
use buckal::resolve::BuckalResolve;

fn make_pkg_id(name: &str) -> String {
    format!("registry+https://github.com/rust-lang/crates.io-index#{}@1.0.0", name)
}

fn make_node(name: &str, version: &str, dep_ids: Vec<String>) -> BuckalNode {
    BuckalNode {
        package_id: make_pkg_id(name),
        name: name.to_string(),
        version: version.to_string(),
        features: vec![],
        kind: NodeKind::ThirdParty,
        edition: "2021".to_string(),
        dep_ids,
    }
}

#[test]
fn test_fingerprint_stability_and_sensitivity() {
    let node1 = make_node("foo", "1.0.0", vec![]);
    let node2 = make_node("foo", "1.0.0", vec![]);
    let node3 = make_node("foo", "1.1.0", vec![]);

    assert_eq!(node1.fingerprint(), node2.fingerprint());
    assert_ne!(node1.fingerprint(), node3.fingerprint());
}

#[test]
fn test_first_party_relative_path() {
    let node = BuckalNode {
        package_id: make_pkg_id("my-crate"),
        name: "my-crate".to_string(),
        version: "0.1.0".to_string(),
        features: vec![],
        kind: NodeKind::FirstParty { relative_path: "crates/my-crate".to_string() },
        edition: "2021".to_string(),
        dep_ids: vec![],
    };

    match &node.kind {
        NodeKind::FirstParty { relative_path } => {
            assert_eq!(relative_path, "crates/my-crate");
        }
        _ => panic!("expected FirstParty"),
    }
}

#[test]
fn fingerprint_ignores_order_and_repetition_of_sets() {
    let mut a = make_node("foo", "1.0.0", vec![make_pkg_id("x"), make_pkg_id("y")]);
    a.features = vec!["std".to_string(), "alloc".to_string()];
    let mut b = make_node("foo", "1.0.0", vec![make_pkg_id("y"), make_pkg_id("x"), make_pkg_id("y")]);
    b.features = vec!["alloc".to_string(), "std".to_string(), "std".to_string()];
    assert_eq!(a.fingerprint(), b.fingerprint());
    assert_eq!(a.encode(), b.encode());
    assert_eq!(a.fingerprint().len(), 32);
}

#[test]
fn fingerprint_changes_with_each_semantic_field() {
    let base = make_node("foo", "1.0.0", vec![make_pkg_id("x")]);
    let mut feature = make_node("foo", "1.0.0", vec![make_pkg_id("x")]);
    feature.features = vec!["std".to_string()];
    let mut edition = make_node("foo", "1.0.0", vec![make_pkg_id("x")]);
    edition.edition = "2018".to_string();
    let deps = make_node("foo", "1.0.0", vec![make_pkg_id("z")]);
    assert_ne!(base.fingerprint(), feature.fingerprint());
    assert_ne!(base.fingerprint(), edition.fingerprint());
    assert_ne!(base.fingerprint(), deps.fingerprint());
}

#[test]
fn fingerprint_is_blake3_of_the_encoding() {
    let node = make_node("foo", "1.0.0", vec![]);
    let expected: [u8; 32] = blake3::hash(&node.encode()).into();
    assert_eq!(node.fingerprint(), expected.to_vec());
}

#[test]
fn encoding_is_length_prefixed_code_points() {
    let node = BuckalNode {
        package_id: "i".to_string(),
        name: "n".to_string(),
        version: "v".to_string(),
        features: vec![],
        kind: NodeKind::ThirdParty,
        edition: "e".to_string(),
        dep_ids: vec![],
    };
    let mut expected = Vec::new();
    for c in ['i', 'n', 'v', 'e'] {
        expected.extend_from_slice(&[1, 0, 0, 0]);
        expected.extend_from_slice(&(c as u32).to_le_bytes());
    }
    expected.push(0);
    expected.extend_from_slice(&[0, 0, 0, 0]);
    expected.extend_from_slice(&[0, 0, 0, 0]);
    assert_eq!(node.encode(), expected);
}

fn entry(id: &str, fp: u8) -> SnapshotEntry {
    SnapshotEntry { id: id.to_string(), fingerprint: vec![fp; 32] }
}

fn find(changes: &[Change], id: &str) -> Option<ChangeType> {
    changes.iter().find(|c| c.id == id).map(|c| c.change)
}

#[test]
fn diff_tags_added_changed_removed_and_omits_unchanged() {
    let previous = vec![entry("a", 1), entry("b", 2), entry("c", 3)];
    let current = vec![entry("b", 2), entry("c", 4), entry("d", 5)];
    let changes = diff(&current, &previous);
    assert_eq!(changes.len(), 3);
    assert_eq!(find(&changes, "a"), Some(ChangeType::Removed));
    assert_eq!(find(&changes, "b"), None);
    assert_eq!(find(&changes, "c"), Some(ChangeType::Changed));
    assert_eq!(find(&changes, "d"), Some(ChangeType::Added));
}

#[test]
fn diff_against_empty_snapshot_adds_everything() {
    let current = vec![entry("a", 1), entry("b", 2)];
    let changes = diff(&current, &vec![]);
    assert_eq!(changes.len(), 2);
    assert!(changes.iter().all(|c| c.change == ChangeType::Added));
    assert!(diff(&current, &current).is_empty());
}


#[test]
fn test_three_node_chain() {
    let node_a = make_node("a", "1.0.0", vec![make_pkg_id("b")]);
    let node_b = make_node("b", "1.0.0", vec![make_pkg_id("c")]);
    let node_c = make_node("c", "1.0.0", vec![]);
    let resolve = BuckalResolve::from_nodes(vec![node_a, node_b, node_c]).unwrap();

    let b_dependents = resolve.dependents(&make_pkg_id("b"));
    assert_eq!(b_dependents.len(), 1);
    assert_eq!(b_dependents[0].name, "a");

    let a_deps = resolve.dependencies(&make_pkg_id("a"));
    assert_eq!(a_deps.len(), 1);
    assert_eq!(a_deps[0].name, "b");

    let c_dependents = resolve.dependents(&make_pkg_id("c"));
    assert_eq!(c_dependents.len(), 1);
    assert_eq!(c_dependents[0].name, "b");
}

#[test]
fn test_find_by_name() {
    let resolve = BuckalResolve::from_nodes(vec![
        make_node("serde", "1.0.0", vec![]),
        make_node("tokio", "1.0.0", vec![]),
    ])
    .unwrap();

    assert!(resolve.find_by_name("serde", None).is_some());
    assert!(resolve.find_by_name("serde", Some("1.0.0")).is_some());
    assert!(resolve.find_by_name("serde", Some("2.0.0")).is_none());
    assert!(resolve.find_by_name("nonexistent", None).is_none());
}

#[test]
fn cycles_are_dropped_and_snapshots_follow_the_nodes() {
    let a = make_node("a", "1.0.0", vec![make_pkg_id("b")]);
    let b = make_node("b", "1.0.0", vec![make_pkg_id("a")]);
    let resolve = BuckalResolve::from_nodes(vec![a, b]).unwrap();
    assert_eq!(resolve.dependencies(&make_pkg_id("a")).len(), 1);
    assert!(resolve.dependencies(&make_pkg_id("b")).is_empty());
    assert!(resolve.dependents(&make_pkg_id("missing")).is_empty());
    assert!(resolve.get_node(&make_pkg_id("b")).is_some());
    let snapshot = resolve.snapshot();
    assert_eq!(snapshot.len(), 2);
    assert_eq!(snapshot[0].id, make_pkg_id("a"));
    assert_eq!(snapshot[1].fingerprint, resolve.nodes()[1].fingerprint());
}


#[test]
fn package_ids_give_name_and_version() {
    let (name, version) =
        parse_package_id("registry+https://github.com/rust-lang/crates.io-index#serde@1.0.200").unwrap();
    assert_eq!(name, "serde");
    assert_eq!(version, "1.0.200");
    let (name, version) = parse_package_id("git+https://example.com/x#foo@0.1.0+extra").unwrap();
    assert_eq!(name, "foo");
    assert_eq!(version, "0.1.0");
    assert!(parse_package_id("no-plus-here").is_none());
    assert!(parse_package_id("a+b#c").is_none());
    assert!(parse_package_id("a+b#c@1.0#x").is_none());
}

#[test]
fn planning_changes() {
    let added = Change { id: make_pkg_id("a"), change: ChangeType::Added };
    assert!(matches!(plan_change(&added, &make_pkg_id("a"), "/ws", false, Some(false)), ChangeAction::Skip));
    assert!(matches!(
        plan_change(&added, "root", "/ws", false, Some(false)),
        ChangeAction::Regenerate { first_party: false }
    ));
    assert!(matches!(plan_change(&added, "root", "/ws", true, Some(true)), ChangeAction::Skip));
    let removed = Change { id: make_pkg_id("gone"), change: ChangeType::Removed };
    match plan_change(&removed, "root", "/ws", false, None) {
        ChangeAction::RemoveVendored { name, version } => {
            assert_eq!(name, "gone");
            assert_eq!(version, "1.0.0");
        }
        _ => panic!("expected removal"),
    }
    let local = Change { id: "path+file:///ws/crates/x#0.1.0".to_string(), change: ChangeType::Removed };
    assert!(matches!(plan_change(&local, "root", "/ws", false, None), ChangeAction::Skip));
}

#[test]
fn encodings_differ_in_name_version_and_edition() {
    let base = make_node("foo", "1.0.0", vec![]);
    let mut renamed = make_node("foo", "1.0.0", vec![]);
    renamed.name = "bar".to_string();
    let mut other_edition = make_node("foo", "1.0.0", vec![]);
    other_edition.edition = "2024".to_string();
    assert_ne!(base.encode(), renamed.encode());
    assert_ne!(base.encode(), make_node("foo", "1.0.1", vec![]).encode());
    assert_ne!(base.encode(), other_edition.encode());
}

#[test]
fn fingerprints_as_text_round_trip() {
    assert_eq!(to_hex(&vec![0x00, 0x0f, 0xa5, 0xff]), "000fa5ff");
    assert_eq!(from_hex("000fa5ff").unwrap(), vec![0x00, 0x0f, 0xa5, 0xff]);
    assert!(from_hex("abc").is_none());
    assert!(from_hex("zz").is_none());
    assert!(from_hex("AB").is_none());
    let fp = make_node("foo", "1.0.0", vec![]).fingerprint();
    assert_eq!(from_hex(&to_hex(&fp)).unwrap(), fp);
}
