use zot::api::models::ZoteroCollection;
use zot::api::models::ZoteroCollectionData;
use zot::api::models::ZoteroCollectionMeta;
use zot::api::models::ZoteroItem;
use zot::api::models::ZoteroItemData;
use zot::api::models::ZoteroMeta;
use zot::collections::lookup::CollectionRef;
use zot::collections::tree::build_tree;
use zot::collections::tree::CollectionNode;
use zot::commands::collections_cmd::create_parent;
use zot::commands::collections_cmd::subtree;
use zot::commands::delete_cmd::child_counts_agree;
use zot::commands::delete_cmd::confirmed;
use zot::commands::delete_cmd::delete_gate;
use zot::commands::delete_cmd::delete_requests;
use zot::commands::delete_cmd::delete_scope;
use zot::commands::delete_cmd::delete_summary;
use zot::commands::delete_cmd::delete_target;
use zot::commands::delete_cmd::prompt_line;
use zot::commands::delete_cmd::DeleteScope;
use zot::commands::delete_cmd::Gate;

fn blank_item(key: &str, item_type: &str) -> ZoteroItem {
    ZoteroItem {
        key: key.to_string(),
        version: 1,
        meta: ZoteroMeta { creator_summary: None, parsed_date: None, num_children: None },
        data: ZoteroItemData {
            key: key.to_string(),
            version: 1,
            item_type: item_type.to_string(),
            title: String::new(),
            short_title: String::new(),
            date: String::new(),
            abstract_note: String::new(),
            creators: Vec::new(),
            tags: Vec::new(),
            collections: Vec::new(),
            publication_title: String::new(),
            doi: String::new(),
            url: String::new(),
            date_added: String::new(),
            date_modified: String::new(),
            language: String::new(),
            volume: String::new(),
            pages: String::new(),
            citation_key: String::new(),
            content_type: String::new(),
            parent_item: String::new(),
            note: String::new(),
            extra: String::new(),
        },
    }
}

fn collection(key: &str, name: &str, parent: Option<&str>) -> ZoteroCollection {
    ZoteroCollection {
        key: key.to_string(),
        version: 1,
        meta: ZoteroCollectionMeta { num_items: 0, num_collections: 0 },
        data: ZoteroCollectionData {
            key: key.to_string(),
            name: name.to_string(),
            parent_collection: parent.map(String::from),
        },
    }
}

/// Preorder of the assembled tree (siblings sort case-insensitively):
/// ROOT1, MID, DEEP, DEEPER, ELM, BETA, ROOT2, LAST.
fn tree() -> Vec<CollectionNode> {
    build_tree(&[
        collection("ROOT1", "Alpha", None),
        collection("MID", "apple", Some("ROOT1")),
        collection("DEEP", "Deep", Some("MID")),
        collection("DEEPER", "Deeper", Some("DEEP")),
        collection("ELM", "Elm", Some("MID")),
        collection("BETA", "Beta", Some("ROOT1")),
        collection("ROOT2", "Zed", None),
        collection("LAST", "Only child", Some("ROOT2")),
    ])
}

fn keys<'a>(nodes: &[&'a CollectionNode]) -> Vec<&'a str> {
    nodes.iter().map(|n| n.key.as_str()).collect()
}

fn item(key: &str, collections: &[&str]) -> ZoteroItem {
    let mut item = blank_item(key, "journalArticle");
    item.data.collections = collections.iter().map(|c| c.to_string()).collect();
    item
}

fn scope_of(key: &str, items: &[ZoteroItem]) -> DeleteScope {
    delete_scope(&tree(), items, key).expect("scope")
}

fn reference(key: Option<&str>, connector_id: Option<&str>, name: &str) -> CollectionRef {
    CollectionRef {
        key: key.map(str::to_string),
        connector_id: connector_id.map(str::to_string),
        name: name.to_string(),
    }
}

#[test]
fn parent_flag_pointing_at_a_collection_yields_its_key() {
    let parent = create_parent(&reference(Some("ROOT1"), Some("C1"), "Alpha")).unwrap();
    assert_eq!(parent.as_deref(), Some("ROOT1"));
}

#[test]
fn parent_flag_pointing_at_the_library_root_is_the_top_level() {
    // L1 is a valid --parent, not an error: it means "no parent", the same
    // place omitting --parent creates in.
    let parent = create_parent(&reference(None, Some("L1"), "My Library")).unwrap();
    assert_eq!(parent, None);
}

#[test]
fn parent_flag_rejects_what_the_read_api_cannot_address() {
    let group_root = create_parent(&reference(None, Some("L2"), "Group Library"))
        .unwrap_err()
        .message;
    assert!(group_root.contains("another library's root"), "{group_root}");

    let group_collection = create_parent(&reference(None, Some("C9"), "Group Only"))
        .unwrap_err()
        .message;
    assert!(group_collection.contains("group library"), "{group_collection}");

    let nothing = create_parent(&reference(None, None, "Nowhere"))
        .unwrap_err()
        .message;
    assert!(nothing.contains("nothing to create under"), "{nothing}");
}

#[test]
fn subtree_of_mid_tree_node_stops_before_the_next_sibling() {
    let nodes = tree();
    let preorder: Vec<&str> = nodes.iter().map(|n| n.key.as_str()).collect();
    assert_eq!(
        preorder,
        vec![
            "ROOT1", "MID", "DEEP", "DEEPER", "ELM", "BETA", "ROOT2", "LAST"
        ],
        "fixture preorder"
    );
    // BETA sits right after MID's last descendant, at MID's own depth.
    assert_eq!(
        keys(&subtree(&nodes, "MID")),
        vec!["MID", "DEEP", "DEEPER", "ELM"]
    );
}

#[test]
fn subtree_of_leaf_is_the_leaf_alone() {
    let nodes = tree();
    assert_eq!(keys(&subtree(&nodes, "DEEPER")), vec!["DEEPER"]);
    assert_eq!(keys(&subtree(&nodes, "ELM")), vec!["ELM"]);
}

#[test]
fn subtree_of_last_node_in_preorder_does_not_run_off_the_end() {
    let nodes = tree();
    assert_eq!(nodes.last().unwrap().key, "LAST");
    assert_eq!(keys(&subtree(&nodes, "LAST")), vec!["LAST"]);
}

#[test]
fn subtree_of_root_covers_the_whole_nesting() {
    let nodes = tree();
    assert_eq!(
        keys(&subtree(&nodes, "ROOT1")),
        vec!["ROOT1", "MID", "DEEP", "DEEPER", "ELM", "BETA"]
    );
    assert_eq!(keys(&subtree(&nodes, "ROOT2")), vec!["ROOT2", "LAST"]);
}

#[test]
fn rm_flag_rejects_what_cannot_be_deleted() {
    assert_eq!(
        delete_target(&reference(Some("MID"), Some("C3"), "apple")).unwrap(),
        "MID"
    );

    // L1 is a valid --parent but never a valid --rm: there is no
    // "delete the library".
    let root = delete_target(&reference(None, Some("L1"), "My Library"))
        .unwrap_err()
        .message;
    assert!(root.contains("library root"), "{root}");

    let group = delete_target(&reference(None, Some("C9"), "Group Only"))
        .unwrap_err()
        .message;
    assert!(group.contains("group library"), "{group}");

    let nothing = delete_target(&reference(None, None, "Nowhere"))
        .unwrap_err()
        .message;
    assert!(nothing.contains("nothing to delete"), "{nothing}");
}

#[test]
fn delete_scope_of_a_leaf_covers_the_leaf_alone() {
    let scope = scope_of("DEEPER", &[]);
    assert_eq!(scope.key, "DEEPER");
    assert_eq!(scope.name, "Deeper");
    assert_eq!(scope.parent.as_deref(), Some("DEEP"));
    assert_eq!(scope.descendant_count(), 0);
    assert_eq!(scope.removed.len(), 1);
    assert_eq!(scope.removed[0].depth, 0);
}

#[test]
fn delete_scope_of_a_parent_lists_its_descendants_in_preorder_rebased_to_zero() {
    let scope = scope_of("MID", &[]);
    let listed: Vec<(&str, usize)> = scope
        .removed
        .iter()
        .map(|c| (c.key.as_str(), c.depth))
        .collect();
    assert_eq!(
        listed,
        vec![("MID", 0), ("DEEP", 1), ("DEEPER", 2), ("ELM", 1)]
    );
    assert_eq!(scope.descendant_count(), 3);
}

#[test]
fn delete_scope_counts_each_item_once_and_separates_those_left_unfiled() {
    let items = [
        // Filed in two doomed collections: one item, and nothing survives
        // to hold it.
        item("I1", &["MID", "DEEP"]),
        // Filed in a doomed collection and a surviving one: counted, but
        // it keeps a home.
        item("I2", &["DEEPER", "BETA"]),
        // Filed only outside the subtree.
        item("I3", &["BETA"]),
        // Filed nowhere at all: already unfiled, so not this delete's doing.
        item("I4", &[]),
    ];
    let scope = scope_of("MID", &items);
    assert_eq!(scope.item_count, 2);
    assert_eq!(scope.unfiled_count, 1);
}

#[test]
fn delete_scope_rejects_a_key_the_local_library_does_not_have() {
    let err = delete_scope(&tree(), &[], "NOPE").unwrap_err().message;
    assert!(err.contains("nothing to delete"), "{err}");
}

#[test]
fn delete_requests_is_the_named_collection_alone_because_the_server_cascades() {
    // Four collections go, one DELETE goes out: api.zotero.org removes the
    // descendants itself (probed 2026-09-16).
    let scope = scope_of("MID", &[]);
    assert_eq!(scope.removed.len(), 4);
    assert_eq!(delete_requests(&scope), vec!["MID"]);

    let leaf = scope_of("DEEPER", &[]);
    assert_eq!(delete_requests(&leaf), vec!["DEEPER"]);
}

#[test]
fn delete_gate_asks_for_yes_on_a_leaf_and_for_the_name_on_a_parent() {
    let leaf = delete_gate(&scope_of("DEEPER", &[]), false, true).unwrap();
    assert_eq!(leaf, Gate::Prompt("yes".to_string()));

    let parent = delete_gate(&scope_of("MID", &[]), false, true).unwrap();
    assert_eq!(parent, Gate::Prompt("apple".to_string()));

    assert!(prompt_line("yes").contains("Type yes"));
    assert!(prompt_line("apple").contains("\"apple\""));
}

#[test]
fn delete_gate_refuses_when_there_is_no_terminal_to_confirm_at() {
    let items = [item("I1", &["MID"])];
    let err = delete_gate(&scope_of("MID", &items), false, false)
        .unwrap_err()
        .message;
    assert!(err.contains("stdin is not a terminal"), "{err}");
    assert!(err.contains("4 collection(s)"), "{err}");
    assert!(err.contains("unfile 1 item(s)"), "{err}");
    assert!(err.contains("--force"), "{err}");
}

#[test]
fn delete_gate_skips_the_prompt_under_force_with_or_without_a_terminal() {
    assert_eq!(delete_gate(&scope_of("MID", &[]), true, false).unwrap(), Gate::Forced);
    assert_eq!(delete_gate(&scope_of("MID", &[]), true, true).unwrap(), Gate::Forced);
}

#[test]
fn delete_summary_of_an_empty_leaf_says_there_is_nothing_below_it() {
    let summary = delete_summary(&scope_of("DEEPER", &[]));
    assert!(summary.contains("\"Deeper\" [DEEPER]"), "{summary}");
    assert!(summary.contains("no subcollections"), "{summary}");
    assert!(summary.contains("No items are filed there"), "{summary}");
}

#[test]
fn delete_summary_of_a_parent_names_every_descendant_and_both_item_counts() {
    let items = [item("I1", &["MID", "DEEP"]), item("I2", &["DEEPER", "BETA"])];
    let summary = delete_summary(&scope_of("MID", &items));
    assert!(summary.contains("3 descendant collection(s)"), "{summary}");
    for key in ["DEEP", "DEEPER", "ELM"] {
        assert!(summary.contains(&format!("[{key}]")), "missing {key}: {summary}");
    }
    assert!(
        summary.contains("2 item(s) are filed there; 1 of them would end up in no collection"),
        "{summary}"
    );
}

#[test]
fn delete_summary_indents_each_descendant_under_its_own_parent() {
    // Depth is rebased to the deleted collection, so MID's children sit at
    // the base indent and DEEPER, one level below DEEP, sits two columns
    // further in. Flattening the subtree would still name every key, so the
    // shape is what has to be asserted.
    let summary = delete_summary(&scope_of("MID", &[]));
    assert!(summary.contains("\n    Deep [DEEP]\n"), "{summary}");
    assert!(summary.contains("\n      Deeper [DEEPER]\n"), "{summary}");
    assert!(summary.contains("\n    Elm [ELM]\n"), "{summary}");

    // From ROOT1 the same three collections are each one level deeper.
    let from_root = delete_summary(&scope_of("ROOT1", &[]));
    assert!(from_root.contains("\n    apple [MID]\n"), "{from_root}");
    assert!(from_root.contains("\n      Deep [DEEP]\n"), "{from_root}");
    assert!(from_root.contains("\n        Deeper [DEEPER]\n"), "{from_root}");
}

#[test]
fn confirmed_accepts_only_the_demanded_token_once_whitespace_is_stripped() {
    // What `read_line` hands over.
    assert!(confirmed("yes\n", "yes"));
    assert!(confirmed("yes\r\n", "yes"));
    assert!(confirmed("  yes  \n", "yes"));

    // Near-misses of an irreversible delete abort.
    assert!(!confirmed("YES\n", "yes"));
    assert!(!confirmed("Yes\n", "yes"));
    assert!(!confirmed("y\n", "yes"));
    assert!(!confirmed("yes please\n", "yes"));
    assert!(!confirmed("", "yes"));
    assert!(!confirmed("\n", "yes"));
}

#[test]
fn confirmed_treats_a_typed_collection_name_the_same_way() {
    // A trailing space is the prompt's own noise, not a different answer.
    assert!(confirmed("apple ", "apple"));
    assert!(confirmed("apple\n", "apple"));
    assert!(!confirmed("Apple\n", "apple"));
    assert!(!confirmed("apples\n", "apple"));

    // Whitespace inside the name is part of it, and only the ends are
    // forgiven.
    assert!(confirmed("  Reading list\n", "Reading list"));
    assert!(!confirmed("Reading  list\n", "Reading list"));
    assert!(!confirmed("Readinglist\n", "Reading list"));

    // A name padded with whitespace cannot be confirmed at all, because
    // the answer is trimmed and the name is not. That direction keeps the
    // collection; --force is the way out.
    assert!(!confirmed("Padded \n", "Padded "));
}

#[test]
fn child_counts_agree_only_when_the_server_sees_what_the_local_tree_shows() {
    // (local children, server meta.numCollections).
    assert!(child_counts_agree(0, 0));
    assert!(child_counts_agree(3, 3));
    // The case that made this necessary: a child created upstream that the
    // local library has not synced down, so the summary would list none.
    assert!(!child_counts_agree(0, 1));
    assert!(!child_counts_agree(2, 3));
    // The other direction is no better a state to delete from.
    assert!(!child_counts_agree(1, 0));
}

#[test]
fn delete_summary_always_states_that_items_survive_and_nothing_can_be_undone() {
    for key in ["DEEPER", "MID", "ROOT1"] {
        let summary = delete_summary(&scope_of(key, &[item("I1", &["DEEP"])]));
        assert!(summary.contains("NOT deleted, only unfiled"), "{key}: {summary}");
        assert!(summary.contains("cannot be undone"), "{key}: {summary}");
    }
}
