use std::collections::HashMap;
use zot::api::connector::SaveTarget;
use zot::api::models::ZoteroCollection;
use zot::api::models::ZoteroCollectionData;
use zot::api::models::ZoteroCollectionMeta;
use zot::api::models::ZoteroItem;
use zot::api::models::ZoteroItemData;
use zot::api::models::ZoteroMeta;
use zot::collections::counts::roll_up_counts;
use zot::collections::lookup::resolve_collection_ref;
use zot::collections::lookup::sibling_named;
use zot::collections::lookup::sibling_named_ignoring_case;
use zot::collections::pairing::attach_connector_ids;
use zot::collections::tree::build_tree;
use zot::collections::tree::CollectionNode;

fn blank_item(key: &str, item_type: &str) -> ZoteroItem {
    ZoteroItem {
        key: key.to_string(),
        version: 1,
        meta: ZoteroMeta { creator_summary: None, parsed_date: None, num_children: None },
        data: ZoteroItemData {
            key: key.to_string(),
            version: 1,
            item_type: item_type.to_string(),
            title: String::new(),
            short_title: String::new(),
            date: String::new(),
            abstract_note: String::new(),
            creators: Vec::new(),
            tags: Vec::new(),
            collections: Vec::new(),
            publication_title: String::new(),
            doi: String::new(),
            url: String::new(),
            date_added: String::new(),
            date_modified: String::new(),
            language: String::new(),
            volume: String::new(),
            pages: String::new(),
            citation_key: String::new(),
            content_type: String::new(),
            parent_item: String::new(),
            note: String::new(),
            extra: String::new(),
        },
    }
}

fn collection(key: &str, name: &str, parent: Option<&str>) -> ZoteroCollection {
    ZoteroCollection {
        key: key.to_string(),
        version: 1,
        meta: ZoteroCollectionMeta { num_items: 0, num_collections: 0 },
        data: ZoteroCollectionData {
            key: key.to_string(),
            name: name.to_string(),
            parent_collection: parent.map(String::from),
        },
    }
}

fn item(key: &str, collections: &[&str]) -> ZoteroItem {
    let mut item = blank_item(key, "journalArticle");
    item.data.collections = collections.iter().map(|c| c.to_string()).collect();
    item
}

fn target(id: &str, name: &str, level: u32) -> SaveTarget {
    SaveTarget { id: id.to_string(), name: name.to_string(), level }
}

fn keys(nodes: &[CollectionNode]) -> Vec<&str> {
    nodes.iter().map(|n| n.key.as_str()).collect()
}

/// Root -> child -> grandchild, with siblings out of alphabetical order in
/// the input.
fn nested() -> Vec<ZoteroCollection> {
    vec![
        collection("GRAND1", "Deep", Some("CHILD1")),
        collection("CHILD2", "Beta", Some("ROOT1")),
        collection("ROOT1", "Alpha", None),
        collection("CHILD1", "apple", Some("ROOT1")),
        collection("ROOT2", "Zed", None),
    ]
}

#[test]
fn build_tree_nests_and_sorts_siblings() {
    let nodes = build_tree(&nested());
    // Preorder, siblings case-insensitively by name: "apple" < "Beta".
    // Byte-wise Ord would put "Beta" first, so this pins the lowercasing.
    assert_eq!(
        keys(&nodes),
        vec!["ROOT1", "CHILD1", "GRAND1", "CHILD2", "ROOT2"]
    );
    let depths: Vec<usize> = nodes.iter().map(|n| n.depth).collect();
    assert_eq!(depths, vec![0, 1, 2, 1, 0]);
    assert_eq!(nodes[0].children, vec!["CHILD1", "CHILD2"]);
    assert_eq!(nodes[0].parent, None);
    assert_eq!(nodes[1].parent.as_deref(), Some("ROOT1"));
    assert!(nodes[2].children.is_empty());
}

#[test]
fn build_tree_promotes_orphans_to_roots() {
    let collections = vec![
        collection("ORPHAN", "Missing parent", Some("GONE")),
        collection("ROOT1", "Alpha", None),
    ];
    let nodes = build_tree(&collections);
    assert_eq!(keys(&nodes), vec!["ROOT1", "ORPHAN"]);
    assert_eq!(nodes[1].parent, None);
    assert_eq!(nodes[1].depth, 0);
}

#[test]
fn build_tree_breaks_parent_cycles() {
    let collections = vec![
        collection("A", "A", Some("B")),
        collection("B", "B", Some("A")),
        collection("SELF", "Self", Some("SELF")),
    ];
    let nodes = build_tree(&collections);
    assert_eq!(nodes.len(), 3, "no collection may be dropped");
    assert!(nodes.iter().any(|n| n.key == "SELF" && n.parent.is_none()));
}

#[test]
fn build_tree_handles_empty_input() {
    assert!(build_tree(&[]).is_empty());
}

#[test]
fn build_tree_reads_meta_counts() {
    let mut raw = collection("K1", "N", None);
    raw.version = 3;
    raw.meta = ZoteroCollectionMeta { num_items: 7, num_collections: 2 };
    let nodes = build_tree(&[raw]);
    assert_eq!(nodes[0].meta_num_items, 7);
    assert_eq!(nodes[0].meta_num_collections, 2);
}

#[test]
fn roll_up_counts_does_not_double_count_items_in_parent_and_child() {
    let collections = vec![
        collection("ROOT1", "Alpha", None),
        collection("CHILD1", "Child", Some("ROOT1")),
    ];
    let mut nodes = build_tree(&collections);
    let items = vec![
        // Filed in both the parent and the child: one distinct item.
        item("SHARED", &["ROOT1", "CHILD1"]),
        item("PARENTONLY", &["ROOT1"]),
        item("CHILDONLY", &["CHILD1"]),
    ];
    roll_up_counts(&mut nodes, &items);

    let root = &nodes[0];
    let child = &nodes[1];
    assert_eq!(child.count_direct, 2);
    assert_eq!(child.count_tree, 2);
    assert_eq!(root.count_direct, 2);
    // Summing direct counts would give 4; there are only 3 distinct items.
    assert_eq!(root.count_tree, 3);
}

#[test]
fn roll_up_counts_unions_across_sibling_subtrees() {
    let collections = vec![
        collection("ROOT1", "Alpha", None),
        collection("CHILD1", "A child", Some("ROOT1")),
        collection("CHILD2", "B child", Some("ROOT1")),
        collection("GRAND1", "Grand", Some("CHILD1")),
    ];
    let mut nodes = build_tree(&collections);
    let items = vec![
        item("I1", &["GRAND1", "CHILD2"]),
        item("I2", &["CHILD1"]),
        item("I3", &["CHILD2"]),
        // Filed nowhere in this tree.
        item("I4", &["ELSEWHERE"]),
    ];
    roll_up_counts(&mut nodes, &items);
    let by_key: HashMap<&str, &CollectionNode> =
        nodes.iter().map(|n| (n.key.as_str(), n)).collect();

    assert_eq!(by_key["ROOT1"].count_direct, 0);
    assert_eq!(by_key["ROOT1"].count_tree, 3);
    assert_eq!(by_key["CHILD1"].count_tree, 2);
    assert_eq!(by_key["GRAND1"].count_tree, 1);
    assert_eq!(by_key["CHILD2"].count_tree, 2);
}

/// Tree plus connector targets that mirror it, as the live API reports them.
fn resolvable() -> (Vec<CollectionNode>, Vec<SaveTarget>) {
    let nodes = build_tree(&[
        collection("ROOT1", "Alpha", None),
        collection("CHILD1", "Shared", Some("ROOT1")),
        collection("ROOT2", "Beta", None),
        collection("CHILD2", "Shared", Some("ROOT2")),
        collection("ROOT3", "Unique", None),
    ]);
    let targets = vec![
        target("L1", "My Library", 0),
        target("C1", "Alpha", 1),
        target("C2", "Shared", 2),
        target("C3", "Beta", 1),
        target("C4", "Shared", 2),
        target("C5", "Unique", 1),
        target("L2", "Group Library", 0),
        target("C9", "Group Only", 1),
    ];
    (nodes, targets)
}

#[test]
fn resolve_collection_ref_by_key() {
    let (nodes, targets) = resolvable();
    let r = resolve_collection_ref("CHILD2", &nodes, &targets).unwrap();
    assert_eq!(r.key.as_deref(), Some("CHILD2"));
    // Paired by path, so the second "Shared" gets C4 rather than C2.
    assert_eq!(r.connector_id.as_deref(), Some("C4"));
    assert_eq!(r.name, "Shared");
}

#[test]
fn resolve_collection_ref_by_name() {
    let (nodes, targets) = resolvable();
    let r = resolve_collection_ref("Unique", &nodes, &targets).unwrap();
    assert_eq!(r.key.as_deref(), Some("ROOT3"));
    assert_eq!(r.connector_id.as_deref(), Some("C5"));
}

#[test]
fn resolve_collection_ref_by_connector_id() {
    let (nodes, targets) = resolvable();
    let r = resolve_collection_ref("C2", &nodes, &targets).unwrap();
    assert_eq!(r.key.as_deref(), Some("CHILD1"));
    assert_eq!(r.connector_id.as_deref(), Some("C2"));

    let root = resolve_collection_ref("L1", &nodes, &targets).unwrap();
    assert_eq!(root.key, None);
    assert_eq!(root.connector_id.as_deref(), Some("L1"));
}

#[test]
fn resolve_collection_ref_by_group_library_name() {
    let (nodes, targets) = resolvable();
    let r = resolve_collection_ref("Group Only", &nodes, &targets).unwrap();
    assert_eq!(r.key, None);
    assert_eq!(r.connector_id.as_deref(), Some("C9"));
}

#[test]
fn resolve_collection_ref_rejects_ambiguous_name() {
    let (nodes, targets) = resolvable();
    let err = resolve_collection_ref("Shared", &nodes, &targets).unwrap_err();
    let msg = err.message;
    assert!(msg.contains("ambiguous"), "{msg}");
    assert!(msg.contains("CHILD1 (C2)"), "{msg}");
    assert!(msg.contains("CHILD2 (C4)"), "{msg}");
}

#[test]
fn resolve_collection_ref_reports_not_found() {
    let (nodes, targets) = resolvable();
    let err = resolve_collection_ref("Nope", &nodes, &targets).unwrap_err();
    assert!(err.message.contains("Collection not found: Nope"));

    let empty = resolve_collection_ref("   ", &nodes, &targets).unwrap_err();
    assert!(empty.message.contains("Empty collection reference"));
}

#[test]
fn attach_connector_ids_pairs_every_node_by_path() {
    let (mut nodes, targets) = resolvable();
    attach_connector_ids(&mut nodes, &targets);
    let by_key: HashMap<&str, Option<&str>> = nodes
        .iter()
        .map(|n| (n.key.as_str(), n.tree_id.as_deref()))
        .collect();
    // Same pairing as `resolve_collection_ref`, in one pass: the two
    // "Shared" collections are told apart by their parent path.
    assert_eq!(by_key["ROOT1"], Some("C1"));
    assert_eq!(by_key["CHILD1"], Some("C2"));
    assert_eq!(by_key["ROOT2"], Some("C3"));
    assert_eq!(by_key["CHILD2"], Some("C4"));
    assert_eq!(by_key["ROOT3"], Some("C5"));
}

#[test]
fn attach_connector_ids_leaves_tree_ids_unset_without_targets() {
    let (mut nodes, _) = resolvable();
    attach_connector_ids(&mut nodes, &[]);
    assert!(nodes.iter().all(|n| n.tree_id.is_none()));

    // A node the connector does not report stays unpaired even when other
    // nodes pair.
    let mut nodes = build_tree(&[
        collection("ROOT1", "Alpha", None),
        collection("ROOT2", "Unreported", None),
    ]);
    attach_connector_ids(
        &mut nodes,
        &[target("L1", "My Library", 0), target("C1", "Alpha", 1)],
    );
    assert_eq!(nodes[0].tree_id.as_deref(), Some("C1"));
    assert_eq!(nodes[1].tree_id, None);
}

#[test]
fn sibling_named_finds_a_duplicate_only_under_the_same_parent() {
    let (nodes, _) = resolvable();
    // "Shared" exists under both ROOT1 and ROOT2.
    assert_eq!(
        sibling_named(&nodes, Some("ROOT1"), "Shared").map(|n| n.key.as_str()),
        Some("CHILD1")
    );
    assert_eq!(
        sibling_named(&nodes, Some("ROOT2"), "Shared").map(|n| n.key.as_str()),
        Some("CHILD2")
    );
    // A third parent may hold its own "Shared", and the top level too.
    assert!(sibling_named(&nodes, Some("ROOT3"), "Shared").is_none());
    assert!(sibling_named(&nodes, None, "Shared").is_none());
}

#[test]
fn sibling_named_finds_a_top_level_duplicate() {
    let (nodes, _) = resolvable();
    assert_eq!(
        sibling_named(&nodes, None, "Alpha").map(|n| n.key.as_str()),
        Some("ROOT1")
    );
    // A name that only exists one level down is not a top-level duplicate.
    assert!(sibling_named(&nodes, None, "Shared").is_none());
}

#[test]
fn sibling_named_is_case_sensitive_and_the_fold_is_reported_separately() {
    let (nodes, _) = resolvable();
    assert!(sibling_named(&nodes, None, "alpha").is_none());
    assert_eq!(
        sibling_named_ignoring_case(&nodes, None, "alpha").map(|n| n.key.as_str()),
        Some("ROOT1")
    );
    // An exact match is not also a case-fold match.
    assert!(sibling_named_ignoring_case(&nodes, None, "Alpha").is_none());
    assert!(sibling_named_ignoring_case(&nodes, Some("ROOT1"), "shared").is_some());
    assert!(sibling_named_ignoring_case(&nodes, Some("ROOT3"), "shared").is_none());
}

#[test]
fn resolve_collection_ref_without_connector_targets() {
    let (nodes, _) = resolvable();
    let r = resolve_collection_ref("ROOT1", &nodes, &[]).unwrap();
    assert_eq!(r.key.as_deref(), Some("ROOT1"));
    assert_eq!(r.connector_id, None);
}

#[test]
fn an_item_that_names_a_collection_twice_counts_once() {
    let mut nodes = build_tree(&[collection("K", "N", None)]);
    roll_up_counts(&mut nodes, &[item("I1", &["K", "K"])]);
    assert_eq!(nodes[0].count_direct, 1);
    assert_eq!(nodes[0].count_tree, 1);
    roll_up_counts(&mut nodes, &[item("I1", &["K"]), item("I1", &["K"])]);
    assert_eq!(nodes[0].count_direct, 1);
    assert_eq!(nodes[0].count_tree, 1);
}

#[test]
fn no_targets_leave_every_node_untouched() {
    let mut nodes = build_tree(&[collection("K", "N", None)]);
    nodes[0].tree_id = Some("C7".to_string());
    attach_connector_ids(&mut nodes, &[]);
    assert_eq!(nodes[0].tree_id.as_deref(), Some("C7"));
    attach_connector_ids(&mut nodes, &[target("L1", "My Library", 0)]);
    assert_eq!(nodes[0].tree_id, None);
}

#[test]
fn children_are_the_nodes_that_name_their_parent_in_tree_order() {
    let tree = build_tree(&[
        collection("C3", "zeta", Some("P")),
        collection("P", "Parent", None),
        collection("C1", "Alpha", Some("P")),
        collection("G", "below", Some("C1")),
        collection("C2", "beta", Some("P")),
        collection("O", "orphan", Some("GONE")),
    ]);
    for node in &tree {
        let named: Vec<String> = tree
            .iter()
            .filter(|n| n.parent.as_ref() == Some(&node.key))
            .map(|n| n.key.clone())
            .collect();
        assert_eq!(node.children, named);
    }
    let parent = tree.iter().find(|n| n.key == "P").unwrap();
    assert_eq!(parent.children, vec!["C1", "C2", "C3"]);
}

#[test]
fn collections_that_share_a_key_are_each_returned_once() {
    let mut tree = build_tree(&[
        collection("P", "parent", None),
        collection("K", "second", None),
        collection("C", "child", Some("K")),
        collection("K", "first", Some("P")),
    ]);
    let names: Vec<(&str, usize)> = tree.iter().map(|n| (n.name.as_str(), n.depth)).collect();
    assert_eq!(names, vec![("parent", 0), ("first", 1), ("child", 2), ("second", 1)]);
    assert_eq!(tree[0].children, vec!["K", "K"]);
    assert_eq!(tree[1].children, vec!["C"]);
    assert!(tree[3].children.is_empty());
    roll_up_counts(&mut tree, &[item("I1", &["C"]), item("I2", &["K"])]);
    assert_eq!(tree[0].count_tree, 2);
    assert_eq!(tree[1].count_tree, 2);
}
