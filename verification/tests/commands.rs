use zot::api::client::TagInfo;
use zot::api::client::TagMeta;
use zot::api::connector::SaveTarget;
use zot::api::models::Creator;
use zot::api::models::Tag;
use zot::api::models::ZoteroCollection;
use zot::api::models::ZoteroCollectionData;
use zot::api::models::ZoteroCollectionMeta;
use zot::api::models::ZoteroItem;
use zot::api::models::ZoteroItemData;
use zot::api::models::ZoteroMeta;
use zot::collections::lookup::resolve_collection_ref;
use zot::collections::pairing::pair_connector_ids;
use zot::collections::tree::build_tree;
use zot::collections::tree::CollectionNode;
use zot::commands::attach_cmd;
use zot::commands::bibtex_fields::strip_bibtex_fields;
use zot::commands::collections_cmd;
use zot::commands::collections_cmd::CollectionsArgs;
use zot::commands::collections_cmd::CollectionsMode;
use zot::commands::collections_cmd::PollStep;
use zot::commands::delete_cmd;
use zot::commands::edit_cmd;
use zot::commands::edit_cmd::merge_collections;
use zot::commands::edit_cmd::EditArgs;
use zot::commands::edit_cmd::EditStep;
use zot::commands::edit_cmd::ResolvedCollections;
use zot::commands::export_cmd;
use zot::commands::export_cmd::ExportArgs;
use zot::commands::export_cmd::ExportFormat;
use zot::commands::find_cmd;
use zot::commands::fulltext_cmd::fulltext_output;
use zot::commands::fulltext_cmd::no_fulltext;
use zot::commands::tags_cmd;
use zot::output::CollectionRemovedOutput;
use zot::output::DroppedItemOutput;
use zot::output::HumanDisplay;

fn blank_item(key: &str, item_type: &str) -> ZoteroItem {
    ZoteroItem {
        key: key.to_string(),
        version: 1,
        meta: ZoteroMeta { creator_summary: None, parsed_date: None, num_children: None },
        data: ZoteroItemData {
            key: key.to_string(),
            version: 1,
            item_type: item_type.to_string(),
            title: String::new(),
            short_title: String::new(),
            date: String::new(),
            abstract_note: String::new(),
            creators: Vec::new(),
            tags: Vec::new(),
            collections: Vec::new(),
            publication_title: String::new(),
            doi: String::new(),
            url: String::new(),
            date_added: String::new(),
            date_modified: String::new(),
            language: String::new(),
            volume: String::new(),
            pages: String::new(),
            citation_key: String::new(),
            content_type: String::new(),
            parent_item: String::new(),
            note: String::new(),
            extra: String::new(),
        },
    }
}

fn collection(key: &str, name: &str, parent: Option<&str>) -> ZoteroCollection {
    ZoteroCollection {
        key: key.to_string(),
        version: 1,
        meta: ZoteroCollectionMeta { num_items: 0, num_collections: 0 },
        data: ZoteroCollectionData {
            key: key.to_string(),
            name: name.to_string(),
            parent_collection: parent.map(String::from),
        },
    }
}

fn target(id: &str, name: &str, level: u32) -> SaveTarget {
    SaveTarget { id: id.to_string(), name: name.to_string(), level }
}

fn json(text: &str) -> serde_json::Value {
    serde_json::from_str(text).unwrap()
}

fn v(items: &[&str]) -> Vec<String> {
    items.iter().map(|s| s.to_string()).collect()
}

fn library() -> Vec<ZoteroCollection> {
    vec![
        collection("ROOT1", "Alpha", None),
        collection("CHILD1", "Inbox", Some("ROOT1")),
        collection("ROOT2", "Beta", None),
    ]
}

fn targets() -> Vec<SaveTarget> {
    vec![
        target("L1", "My Library", 0),
        target("C1", "Alpha", 1),
        target("C2", "Inbox", 2),
        target("C3", "Beta", 1),
    ]
}

fn filed(key: &str, collections: &[&str]) -> ZoteroItem {
    let mut item = blank_item(key, "journalArticle");
    item.data.collections = v(collections);
    item
}

#[test]
fn a_listing_holds_one_subtree_or_everything() {
    let items = [filed("I1", &["CHILD1"]), filed("I2", &["ROOT1"])];
    let all =
        collections_cmd::list_collections(&library(), &items, &targets(), None, false, true).unwrap();
    let keys: Vec<&str> = all.collections.iter().map(|c| c.key.as_str()).collect();
    assert_eq!(keys, vec!["ROOT1", "CHILD1", "ROOT2"]);
    assert_eq!(all.collections[0].count_direct, 1);
    assert_eq!(all.collections[0].count_tree, 2);
    assert_eq!(all.collections[1].tree_id.as_deref(), Some("C2"));

    let one =
        collections_cmd::list_collections(&library(), &items, &targets(), Some("Alpha"), true, false)
            .unwrap();
    assert_eq!(one.count, 2);
    assert!(one.human_display().contains("Inbox"));
    assert!(collections_cmd::list_collections(&library(), &items, &targets(), Some("X"), true, false)
        .is_err());
}

#[test]
fn a_flag_decides_what_collections_does() {
    let args = CollectionsArgs {
        collection: None,
        create: Some("N"),
        parent: None,
        rm: None,
        force: false,
        flat: false,
        tree_ids: false,
        json: false,
    };
    assert_eq!(args.mode(), CollectionsMode::Create);
    assert!(!args.needs_targets());
    let args = CollectionsArgs { create: None, rm: Some("N"), ..args };
    assert_eq!(args.mode(), CollectionsMode::Delete);
    let args = CollectionsArgs { rm: None, tree_ids: true, ..args };
    assert_eq!(args.mode(), CollectionsMode::List);
    assert!(args.needs_targets());
}

#[test]
fn a_duplicate_sibling_is_not_created() {
    let nodes = build_tree(&library());
    let plan = collections_cmd::plan_create(&nodes, &targets(), Some("Alpha"), "Papers").unwrap();
    assert_eq!(plan.parent, Some(("ROOT1".to_string(), "Alpha".to_string())));
    assert_eq!(plan.warning, None);
    let out = collections_cmd::created_output(plan, "NEW".to_string(), true);
    assert_eq!(out.parent.as_deref(), Some("ROOT1"));
    assert!(collections_cmd::plan_create(&nodes, &targets(), Some("Alpha"), "Inbox").is_err());
    let folded = collections_cmd::plan_create(&nodes, &targets(), Some("Alpha"), "inbox").unwrap();
    assert!(folded.warning.is_some());
    assert!(collections_cmd::collection_name("  ").is_err());
    assert_eq!(collections_cmd::collection_name(" N ").unwrap(), "N");
}

#[test]
fn waiting_for_the_local_library_ends() {
    assert_eq!(collections_cmd::poll_step(true, true, 0), PollStep::Synced);
    assert_eq!(collections_cmd::poll_step(false, true, 0), PollStep::Wait(true));
    assert_eq!(collections_cmd::poll_step(false, true, 4_000), PollStep::Wait(false));
    assert_eq!(collections_cmd::poll_step(false, true, 18_000), PollStep::TimedOut);
    assert_eq!(collections_cmd::poll_step(false, false, 18_000), PollStep::Synced);
    assert!(collections_cmd::has_collection(&library(), &"ROOT2".to_string()));
    assert!(!collections_cmd::has_collection(&library(), &"NOPE".to_string()));
    assert!(collections_cmd::wait_line("K", false).contains("remove of [K]"));
    assert!(collections_cmd::connector_warning(true, "off").ends_with("omitted: off"));
    assert!(collections_cmd::is_library_id("L1") && !collections_cmd::is_library_id("C1"));
}

#[test]
fn a_path_that_two_collections_share_is_not_paired() {
    let nodes = build_tree(&[collection("A1", "Same", None), collection("A2", "Same", None)]);
    let ids = pair_connector_ids(&nodes, &[target("L1", "My Library", 0), target("C1", "Same", 1)]);
    assert_eq!(ids, vec![None, None]);
    // No two nodes are paired with one target.
    let nodes: Vec<CollectionNode> = build_tree(&library());
    let mut ids: Vec<String> =
        pair_connector_ids(&nodes, &targets()).into_iter().flatten().collect();
    ids.sort();
    ids.dedup();
    assert_eq!(ids.len(), 3);
    assert_eq!(resolve_collection_ref("Beta", &nodes, &targets()).unwrap().key.as_deref(), Some("ROOT2"));
}

#[test]
fn a_delete_is_reconciled_with_the_server() {
    let nodes = build_tree(&library());
    let scope = delete_cmd::delete_scope(&nodes, &[filed("I1", &["CHILD1"])], "ROOT1").unwrap();
    assert_eq!(delete_cmd::reconcile_start(&scope).unwrap(), None);
    let doomed = CollectionRemovedOutput { key: "ROOT1".to_string(), name: "Alpha".to_string(), depth: 0 };
    let agrees = json(r#"{"version": 3, "meta": {"numCollections": 1}}"#);
    assert!(delete_cmd::reconcile_one(&nodes, &doomed, &agrees).is_ok());
    let differs = json(r#"{"version": 3, "meta": {"numCollections": 2}}"#);
    assert!(delete_cmd::reconcile_one(&nodes, &doomed, &differs).is_err());
    assert!(delete_cmd::reconcile_one(&nodes, &doomed, &json("{}")).is_err());
    assert_eq!(delete_cmd::collection_version(&agrees).unwrap(), 3);
    assert!(delete_cmd::collection_version(&json("{}")).is_err());
    assert!(delete_cmd::delete_conflict("ROOT1", 3).message.contains("(version 3)"));
    let out = delete_cmd::deleted_output(scope, false);
    assert_eq!(out.descendant_count, 1);
    assert_eq!(out.item_count, 1);
    assert_eq!(out.unfiled_count, 1);
}

#[test]
fn an_edit_without_a_change_is_refused_or_left_alone() {
    let none: [String; 0] = [];
    let args = EditArgs {
        key: "K",
        sets: &none,
        add_tags: &none,
        rm_tags: &none,
        add_collections: &none,
        rm_collections: &none,
        patch: None,
        json: false,
    };
    assert!(args.check().unwrap_err().message.starts_with("Nothing to change."));
    assert!(!args.changes_collections());
    let nodes = build_tree(&library());
    let edit = ResolvedCollections::from_parts(&v(&["Alpha"]), &[], &nodes, &targets()).ok().unwrap();
    let item = json(r#"{"version": 1, "data": {"collections": ["ROOT1"]}}"#);
    match edit_cmd::plan_edit(edit_cmd::edit_fields(None, &[]).unwrap(), &item, &[], &[], Some(&edit)) {
        Ok(EditStep::Untouched(note)) => assert_eq!(
            note,
            "Collection membership already matches the request, left untouched: [Alpha (ROOT1)]. Nothing was written."
        ),
        _ => panic!("nothing was to be written"),
    }
    assert!(edit_cmd::plan_edit(edit_cmd::edit_fields(None, &[]).unwrap(), &item, &[], &[], None).is_err());
}

#[test]
fn an_edit_layers_fields_tags_and_collections() {
    let nodes = build_tree(&library());
    let edit = ResolvedCollections::from_parts(&v(&["Beta"]), &v(&["Alpha"]), &nodes, &targets())
        .ok()
        .unwrap();
    let item = json(r#"{"data": {"collections": ["ROOT1"], "tags": [{"tag": "a"}, {"tag": "b"}]}}"#);
    let fields = edit_cmd::edit_fields(Some(r#"{"volume": "3", "title": "x"}"#), &v(&["title=T = U"])).unwrap();
    match edit_cmd::plan_edit(fields, &item, &v(&["c"]), &v(&["a"]), Some(&edit)) {
        Ok(EditStep::Write(body, changed)) => {
            assert_eq!(
                body.to_string(),
                r#"{"collections":["ROOT2"],"tags":[{"tag":"b"},{"tag":"c"}],"title":"T = U","volume":"3"}"#
            );
            assert_eq!(
                changed,
                v(&["collections: [Alpha (ROOT1)] -> [Beta (ROOT2)]", "tags", "title", "volume"])
            );
        }
        _ => panic!("there was something to write"),
    }
    assert!(edit_cmd::edit_fields(Some("[]"), &[]).is_err());
    let err = edit_cmd::edit_fields(Some("x"), &[]).unwrap_err();
    assert_eq!(err.message, "--patch is not valid JSON: expected value at line 1 column 1");
    assert!(edit_cmd::edit_fields(None, &v(&["no assignment"])).is_err());
    assert_eq!(edit_cmd::untouched_output("K", 3, "n".to_string()).version, 3);
    assert!(edit_cmd::edited_output("K", 3, v(&["title"])).note.contains("next Zotero sync"));
}

#[test]
fn a_repeated_membership_change_changes_nothing() {
    let once = merge_collections(&v(&["A", "B"]), &v(&["C"]), &v(&["A"]));
    let twice = merge_collections(&once, &v(&["C"]), &v(&["A"]));
    assert_eq!(once, twice);
}

#[test]
fn stripping_twice_is_stripping_once() {
    let input = "@article{k,\n\tabstract = {a\nb},\n\ttitle = {Kept},\n\tfile = {f},\n}\n";
    let once = strip_bibtex_fields(input, &["abstract", "file"]);
    assert_eq!(strip_bibtex_fields(&once, &["abstract", "file"]), once);
    assert_eq!(strip_bibtex_fields(input, &["missing"]), input);
}

#[test]
fn an_export_needs_keys_or_a_collection() {
    let none: [String; 0] = [];
    let args = ExportArgs { keys: &none, collection: None, format: "ris", output: None, raw: false, json: false };
    assert!(args.format().is_err());
    let args = ExportArgs { collection: Some("Alpha"), ..args };
    assert_eq!(args.format().unwrap(), ExportFormat::Ris);
    let args = ExportArgs { format: "docx", ..args };
    assert!(args.format().unwrap_err().message.contains("docx"));
}

#[test]
fn keys_that_are_not_in_the_library_are_dropped_from_an_export() {
    let mut item = blank_item("A", "book");
    item.data.title = "Title A".to_string();
    let titles = export_cmd::title_map(&[item]);
    let (known, dropped) = export_cmd::split_known(&v(&["A", "X"]), &titles);
    assert_eq!(known, v(&["A"]));
    assert_eq!(dropped[0].key, "X");
    let refused = export_cmd::refused_item(&"A".to_string(), &titles);
    assert_eq!(refused.title, "Title A");
    assert!(export_cmd::drop_warning(&refused, ExportFormat::Ris).starts_with("Warning: no ris entry for \"Title A\" (A)"));
    let out = export_cmd::export_for_keys(&v(&["A"]), "ris", &v(&["TY  - BOOK\nER  - \n"]), dropped).unwrap();
    assert_eq!(out.exported, 1);
    assert!(export_cmd::export_for_keys(&[], "docx", &[], Vec::new()).is_err());
    let row = |title: &str| DroppedItemOutput { key: String::new(), title: title.to_string(), reason: String::new() };
    let sorted = export_cmd::sort_dropped(vec![row("b"), row("a")]);
    assert_eq!(sorted[0].title, "a");
}

#[test]
fn batches_that_come_back_short_are_probed() {
    assert_eq!(export_cmd::batch_end(0, 120), 50);
    assert_eq!(export_cmd::batch_end(100, 120), 120);
    let (short, filled) = export_cmd::read_batch("TY  - BOOK\nER  - \n", ExportFormat::Ris, 2).unwrap();
    assert!(short && filled);
    assert!(export_cmd::read_batch("nope", ExportFormat::CslJson, 1).is_err());
    assert!(export_cmd::rendered_nothing("", ExportFormat::Bibtex).unwrap());
    assert!(export_cmd::bodies_came_back_short(&v(&["[]"]), ExportFormat::CslJson, 1).unwrap());
    assert_eq!(export_cmd::file_body("x"), "x\n");
    assert_eq!(export_cmd::file_body("x\n"), "x\n");
    let err = export_cmd::merge_bodies(&v(&["{}"]), ExportFormat::CslJson).unwrap_err();
    assert!(
        err.message.starts_with(
            "Failed to parse CSL JSON from Zotero: invalid type: map, expected a sequence"
        ),
        "{}",
        err.message
    );
    let nodes = build_tree(&library());
    assert_eq!(export_cmd::collection_to_export("Beta", &nodes, &targets()).unwrap(), "ROOT2");
    assert!(export_cmd::collection_to_export("L1", &nodes, &targets()).is_err());
}

#[test]
fn found_items_are_listed_with_their_authors_and_tags() {
    let mut item = blank_item("K", "book");
    item.data.title = "T".to_string();
    item.data.creators = vec![
        Creator {
            first_name: "Ada".to_string(),
            last_name: "Lovelace".to_string(),
            creator_type: "author".to_string(),
            name: None,
        },
        Creator {
            first_name: String::new(),
            last_name: String::new(),
            creator_type: "editor".to_string(),
            name: Some("Press".to_string()),
        },
    ];
    item.data.tags = vec![Tag { tag: "t1".to_string(), tag_type: None }];
    let out = find_cmd::find_output("q", &[item.clone()]);
    assert_eq!(out.results[0].creators, "Lovelace, Ada");
    assert_eq!(out.results[0].tags, v(&["t1"]));
    let shown = find_cmd::item_output(&item);
    assert_eq!(shown.creators.len(), 2);
    assert_eq!(shown.creators[1].name, "Press");
    assert!(shown.human_display().contains('T'));
    assert_eq!(find_cmd::effective_query("q", None), "q");
    assert!(find_cmd::effective_query("q", Some("Ada")).contains("Ada"));
    let authors = tags_cmd::authors_output(&[item.clone(), item], None);
    assert_eq!(authors.authors, v(&["Lovelace, Ada", "Press"]));
}

#[test]
fn a_pdf_path_is_that_of_the_first_pdf_child_with_a_file() {
    let child = |content_type: &str| {
        let mut c = blank_item("C", "attachment");
        c.data.content_type = content_type.to_string();
        c
    };
    let children = [child("text/html"), child("application/pdf"), child("application/pdf")];
    let paths = [Some("/a".to_string()), None, Some("/c".to_string())];
    let out = find_cmd::pdf_output("K", &children, &paths);
    assert_eq!(out.path.as_deref(), Some("/c"));
    assert_eq!(find_cmd::pdf_output("K", &[], &[]).path, None);
    assert_eq!(find_cmd::trash_body().to_string(), r#"{"deleted":true}"#);
    assert_eq!(find_cmd::rm_output(v(&["K"])).trashed, v(&["K"]));
}

#[test]
fn tags_are_filtered_and_sorted_without_regard_to_case() {
    let tag = |name: &str, n: u32| TagInfo {
        tag: name.to_string(),
        tag_type: None,
        meta: TagMeta { num_items: n },
    };
    let tags = [tag("beta", 1), tag("Alpha", 2), tag("\u{dc}ber", 3)];
    let all = tags_cmd::tags_output(&tags, None);
    assert_eq!(all.tags[0].tag, "Alpha");
    assert_eq!(all.tags[1].tag, "beta");
    let some = tags_cmd::tags_output(&tags, Some("\u{fc}BER"));
    assert_eq!(some.count, 1);
    assert_eq!(some.tags[0].num_items, 3);
    assert!(tags_cmd::contains_folded("ABC", "bc"));
}

#[test]
fn a_fulltext_window_is_cut_by_characters() {
    let out = fulltext_output("K", "T", "\u{fc}bcdef", Some(1), None, Some(2)).unwrap();
    assert_eq!(out.text, "bc");
    assert_eq!((out.start, out.end, out.total_chars), (1, 3, 6));
    let err = fulltext_output("K", "T", "abc", Some(9), None, None).unwrap_err();
    assert_eq!(err.message, "Start position 3 exceeds fulltext length 3");
    assert_eq!(no_fulltext("K").message, "No fulltext found for item K. Is it indexed?");
}

#[test]
fn an_attachment_is_typed_by_its_extension() {
    assert_eq!(attach_cmd::guess_content_type("A.PDF"), "application/pdf");
    assert_eq!(attach_cmd::guess_content_type("noext"), "application/octet-stream");
    assert_eq!(
        attach_cmd::attachment_body("P", None, "f.pdf").to_string(),
        r#"[{"contentType":"application/pdf","filename":"f.pdf","itemType":"attachment","linkMode":"imported_file","parentItem":"P","title":"f.pdf"}]"#
    );
    assert_eq!(attach_cmd::parent_title(&json(r#"{"data": {"title": "T"}}"#)), "T");
    assert_eq!(attach_cmd::attachment_key(&json(r#"{"success": {"0": "K"}}"#)).unwrap(), "K");
    assert!(attach_cmd::attachment_key(&json("{}")).is_err());
    let out = attach_cmd::attach_output("P", "T".to_string(), "K".to_string(), "f.pdf");
    assert!(out.human_display().contains("f.pdf"));
    assert!(attach_cmd::file_not_found("f.pdf").message.contains("f.pdf"));
}
