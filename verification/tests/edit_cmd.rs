use zot::api::connector::SaveTarget;
use zot::api::models::ZoteroCollection;
use zot::api::models::ZoteroCollectionData;
use zot::api::models::ZoteroCollectionMeta;
use zot::collections::tree::build_tree;
use zot::collections::tree::CollectionNode;
use zot::commands::edit_cmd::merge_collections;
use zot::commands::edit_cmd::ResolvedCollections;
use zot::failure::Failure;

fn v(items: &[&str]) -> Vec<String> {
    items.iter().map(|s| (*s).to_string()).collect()
}

fn collection(key: &str, name: &str, parent: Option<&str>) -> ZoteroCollection {
    ZoteroCollection {
        key: key.to_string(),
        version: 1,
        meta: ZoteroCollectionMeta { num_items: 0, num_collections: 0 },
        data: ZoteroCollectionData {
            key: key.to_string(),
            name: name.to_string(),
            parent_collection: parent.map(String::from),
        },
    }
}

fn target(id: &str, name: &str, level: u32) -> SaveTarget {
    SaveTarget { id: id.to_string(), name: name.to_string(), level }
}

/// A tree plus the connector targets that mirror it, with one extra target
/// (`C9`, under the group library `L2`) that no key backs.
fn resolvable() -> (Vec<CollectionNode>, Vec<SaveTarget>) {
    let nodes = build_tree(&[
        collection("ROOT1", "Alpha", None),
        collection("CHILD1", "Inbox", Some("ROOT1")),
        collection("ROOT2", "Beta", None),
    ]);
    let targets = vec![
        target("L1", "My Library", 0),
        target("C1", "Alpha", 1),
        target("C2", "Inbox", 2),
        target("C3", "Beta", 1),
        target("L2", "Group Library", 0),
        target("C9", "Group Only", 1),
    ];
    (nodes, targets)
}

fn resolved(add: &[&str], rm: &[&str]) -> Result<ResolvedCollections, Failure> {
    let (nodes, targets) = resolvable();
    ResolvedCollections::from_parts(&v(add), &v(rm), &nodes, &targets)
}

#[test]
fn adding_and_removing_the_same_collection_is_rejected() {
    // The same collection reached two ways: by key on one flag, by name on
    // the other.
    let err = resolved(&["CHILD1"], &["Inbox"]).err().unwrap().message;
    assert!(err.contains("both added and removed"), "{err}");
    assert!(err.contains("Inbox (CHILD1)"), "{err}");
}

#[test]
fn library_root_is_rejected() {
    let err = resolved(&["L1"], &[]).err().unwrap().message;
    assert!(err.contains("is the library root, not a collection"), "{err}");
}

#[test]
fn connector_only_collection_is_rejected() {
    let err = resolved(&[], &["Group Only"]).err().unwrap().message;
    assert!(err.contains("only known to the connector"), "{err}");
    assert!(err.contains("group library"), "{err}");
}

#[test]
fn a_repeated_value_yields_one_key() {
    let r = resolved(&["CHILD1", "Inbox", "C2"], &[]).ok().unwrap();
    assert_eq!(r.add, v(&["CHILD1"]));
    assert!(r.rm.is_empty());
}

#[test]
fn render_names_known_keys_and_falls_back_to_the_bare_key() {
    let r = resolved(&["CHILD1"], &[]).ok().unwrap();
    assert_eq!(
        r.render(&v(&["CHILD1", "ROOT2"])),
        "[Inbox (CHILD1), Beta (ROOT2)]"
    );
    assert_eq!(r.render(&[]), "[]");
    assert_eq!(r.render(&v(&["ZZZZZZZZ"])), "[ZZZZZZZZ]");
}

#[test]
fn add_to_empty_membership() {
    assert_eq!(merge_collections(&[], &v(&["AAA"]), &[]), v(&["AAA"]));
    assert_eq!(
        merge_collections(&[], &v(&["AAA", "BBB"]), &[]),
        v(&["AAA", "BBB"])
    );
}

#[test]
fn adding_a_duplicate_is_a_no_op() {
    let current = v(&["AAA", "BBB"]);
    assert_eq!(merge_collections(&current, &v(&["AAA"]), &[]), current);
}

#[test]
fn remove_one_of_several() {
    let current = v(&["AAA", "BBB", "CCC"]);
    assert_eq!(
        merge_collections(&current, &[], &v(&["BBB"])),
        v(&["AAA", "CCC"])
    );
}

#[test]
fn removing_a_non_member_is_a_no_op() {
    let current = v(&["AAA", "BBB"]);
    assert_eq!(merge_collections(&current, &[], &v(&["ZZZ"])), current);
}

#[test]
fn add_and_remove_in_one_call() {
    let current = v(&["AAA", "BBB"]);
    assert_eq!(
        merge_collections(&current, &v(&["CCC"]), &v(&["AAA"])),
        v(&["BBB", "CCC"])
    );
}

#[test]
fn existing_order_is_preserved_and_additions_append() {
    let current = v(&["CCC", "AAA", "BBB"]);
    assert_eq!(
        merge_collections(&current, &v(&["AAA", "DDD"]), &[]),
        v(&["CCC", "AAA", "BBB", "DDD"])
    );
}

#[test]
fn removing_everything_leaves_an_empty_array() {
    let current = v(&["AAA", "BBB"]);
    assert!(merge_collections(&current, &[], &v(&["AAA", "BBB"])).is_empty());
}
