use zot::api::connector::SaveTarget;
use zot::api::models::ZoteroCollection;
use zot::api::models::ZoteroCollectionData;
use zot::api::models::ZoteroCollectionMeta;
use zot::api::models::ZoteroItem;
use zot::api::models::ZoteroItemData;
use zot::api::models::ZoteroMeta;
use zot::api::resolve::Identifier;
use zot::collections::tree::build_tree;
use zot::collections::tree::CollectionNode;
use zot::commands::add_cmd::added_rows;
use zot::commands::add_cmd::check_duplicates;
use zot::commands::add_cmd::check_pdf;
use zot::commands::add_cmd::filed_item;
use zot::commands::add_cmd::filing_body;
use zot::commands::add_cmd::filing_report;
use zot::commands::add_cmd::new_keys;
use zot::commands::add_cmd::nothing_found;
use zot::commands::add_cmd::pdf_follow_up;
use zot::commands::add_cmd::resolve_target;
use zot::commands::add_cmd::sync_up_step;
use zot::commands::add_cmd::unfiled_warning;
use zot::commands::add_cmd::AddArgs;
use zot::commands::collections_cmd::PollStep;
use zot::index::table::Table;
use zot::output::AddOutput;
use zot::output::HumanDisplay;

fn blank_item(key: &str, item_type: &str) -> ZoteroItem {
    ZoteroItem {
        key: key.to_string(),
        version: 1,
        meta: ZoteroMeta { creator_summary: None, parsed_date: None, num_children: None },
        data: ZoteroItemData {
            key: key.to_string(),
            version: 1,
            item_type: item_type.to_string(),
            title: String::new(),
            short_title: String::new(),
            date: String::new(),
            abstract_note: String::new(),
            creators: Vec::new(),
            tags: Vec::new(),
            collections: Vec::new(),
            publication_title: String::new(),
            doi: String::new(),
            url: String::new(),
            date_added: String::new(),
            date_modified: String::new(),
            language: String::new(),
            volume: String::new(),
            pages: String::new(),
            citation_key: String::new(),
            content_type: String::new(),
            parent_item: String::new(),
            note: String::new(),
            extra: String::new(),
        },
    }
}

fn collection(key: &str, name: &str, parent: Option<&str>) -> ZoteroCollection {
    ZoteroCollection {
        key: key.to_string(),
        version: 1,
        meta: ZoteroCollectionMeta { num_items: 0, num_collections: 0 },
        data: ZoteroCollectionData {
            key: key.to_string(),
            name: name.to_string(),
            parent_collection: parent.map(String::from),
        },
    }
}

fn target(id: &str, name: &str, level: u32) -> SaveTarget {
    SaveTarget { id: id.to_string(), name: name.to_string(), level }
}

fn v(items: &[&str]) -> Vec<String> {
    items.iter().map(|s| s.to_string()).collect()
}

fn args(collections: &[&str], no_collection: bool) -> AddArgs<'static> {
    AddArgs {
        identifier: Some("10.1/x"),
        pdf: None,
        collections: v(collections),
        no_collection,
        tags: Vec::new(),
        force: false,
        no_index: false,
        json: false,
    }
}

fn library() -> (Vec<CollectionNode>, Vec<SaveTarget>) {
    let nodes = build_tree(&[
        collection("ROOT1", "Alpha", None),
        collection("CHILD1", "Inbox", Some("ROOT1")),
        collection("LONE", "Unlisted", None),
    ]);
    let targets = vec![
        target("L1", "My Library", 0),
        target("C1", "Alpha", 1),
        target("C2", "Inbox", 2),
        target("L2", "Group Library", 0),
        target("C9", "Group Only", 1),
    ];
    (nodes, targets)
}

#[test]
fn arguments_name_something_to_add_and_do_not_contradict_each_other() {
    assert!(args(&["A"], false).check().is_ok());
    assert!(args(&[], true).check().is_ok());
    assert!(args(&["A"], true).check().is_err());
    let mut nothing = args(&[], false);
    nothing.identifier = None;
    let err = nothing.check().unwrap_err();
    assert_eq!(err.message, "Nothing to add: pass an identifier (DOI/arXiv) and/or --pdf <file>.");
    nothing.pdf = Some("f.pdf");
    assert!(nothing.check().is_ok());
    assert_eq!(nothing.tags_text(), None);
    nothing.tags = v(&["a", "b"]);
    assert_eq!(nothing.tags_text().as_deref(), Some("a,b"));
}

#[test]
fn a_work_that_is_there_is_not_added_again() {
    let id = Identifier::Doi("10.1/ABC".to_string());
    let mut same = blank_item("SAME1234", "journalArticle");
    same.data.title = "The paper".to_string();
    same.data.doi = "10.1/abc".to_string();
    let mut citing = blank_item("CITING12", "journalArticle");
    citing.data.abstract_note = "see 10.1/abc".to_string();
    let mut note = blank_item("NOTE1234", "note");
    note.data.extra = "10.1/abc".to_string();
    assert!(check_duplicates(&id, &[citing.clone(), note]).is_ok());
    let err = check_duplicates(&id, &[citing, same]).unwrap_err();
    assert!(err.message.contains("already appears to be in the library"), "{}", err.message);
    assert!(err.message.contains("  [SAME1234] The paper\n"), "{}", err.message);
    assert!(!err.message.contains("CITING12"), "{}", err.message);
}

#[test]
fn only_a_pdf_is_saved_as_one() {
    assert!(check_pdf("f.pdf", b"%PDF-1.7").is_ok());
    assert!(check_pdf("f.pdf", b"%PD").is_err());
    assert_eq!(check_pdf("f.html", b"<html>").unwrap_err().message, "f.html does not look like a PDF file");
}

#[test]
fn every_collection_is_resolved_before_anything_is_written() {
    let (nodes, targets) = library();
    let root = resolve_target(&[], &nodes, &targets).unwrap();
    assert_eq!(root.connector_id, "L1");
    assert_eq!(root.first, None);

    let several = resolve_target(&v(&["Alpha", "Inbox", "ROOT1", "CHILD1"]), &nodes, &targets).unwrap();
    assert_eq!(several.connector_id, "C1");
    assert_eq!(several.first.as_deref(), Some("Alpha (ROOT1)"));
    // Each collection once, however it is named.
    let rest: Vec<&str> = several.rest.iter().map(|f| f.key.as_str()).collect();
    assert_eq!(rest, vec!["CHILD1"]);

    let typo = resolve_target(&v(&["Alpha", "Nope"]), &nodes, &targets).unwrap_err();
    assert!(typo.message.contains("Collection not found: Nope"), "{}", typo.message);
    let group = resolve_target(&v(&["C9"]), &nodes, &targets).unwrap();
    assert_eq!(group.connector_id, "C9");
    assert!(resolve_target(&v(&["Alpha", "C9"]), &nodes, &targets).is_err());
    assert!(resolve_target(&v(&["L1", "Alpha"]), &nodes, &targets).is_err());
    let unlisted = resolve_target(&v(&["LONE"]), &nodes, &targets).unwrap_err();
    assert!(unlisted.message.contains("no connector save target"), "{}", unlisted.message);
}

#[test]
fn a_pdf_without_metadata_is_followed_up() {
    let id = Identifier::Doi("10.1/x".to_string());
    let (import, warning) = pdf_follow_up(false, Some(&id));
    assert!(import && warning.unwrap().contains("recognition failed"));
    let (import, warning) = pdf_follow_up(false, None);
    assert!(!import && warning.unwrap().contains("standalone attachment"));
    let (import, warning) = pdf_follow_up(true, Some(&id));
    assert!(!import && warning.unwrap().contains("verify it matches"));
    assert_eq!(pdf_follow_up(true, None), (false, None));
}

#[test]
fn new_items_are_the_keys_that_were_not_there() {
    let mut before = Table::new();
    before.insert("A".to_string(), 1u64);
    let mut after = Table::new();
    after.insert("A".to_string(), 2u64);
    after.insert("B".to_string(), 3u64);
    assert_eq!(new_keys(&after, &before), v(&["B"]));
    assert!(new_keys(&before, &before).is_empty());
    let mut item = blank_item("B", "book");
    item.data.title = "T".to_string();
    let rows = added_rows(&[item]);
    assert_eq!(rows[0].key, "B");
    assert_eq!(rows[0].title, "T");
    assert!(nothing_found().contains("no new top-level keys"));
}

#[test]
fn a_partial_filing_is_reported_with_the_command_that_finishes_it() {
    let (nodes, targets) = library();
    let target = resolve_target(&v(&["Alpha", "Inbox"]), &nodes, &targets).unwrap();
    let done = filing_report(&target, "NEW", true).unwrap();
    assert_eq!(done.filed, v(&["Alpha (ROOT1)", "Inbox (CHILD1)"]));
    assert!(done.pending.is_empty() && done.fix_command.is_none());
    let partial = filing_report(&target, "NEW", false).unwrap();
    assert_eq!(partial.filed, v(&["Alpha (ROOT1)"]));
    assert_eq!(partial.pending, v(&["Inbox (CHILD1)"]));
    assert_eq!(partial.fix_command.as_deref(), Some("zot edit NEW --add-collection CHILD1"));
    let out = AddOutput { added: Vec::new(), collections: Some(partial), warnings: Vec::new() };
    assert!(out.human_display().contains("zot edit NEW --add-collection CHILD1"));
    let item: serde_json::Value =
        serde_json::from_str(r#"{"data": {"collections": ["ROOT1"]}}"#).unwrap();
    assert_eq!(
        filing_body(&item, &target.rest).to_string(),
        r#"{"collections":["ROOT1","CHILD1"]}"#
    );
}

#[test]
fn the_sync_up_wait_ends_within_a_minute() {
    assert_eq!(sync_up_step(true, 59_999), PollStep::Synced);
    assert_eq!(sync_up_step(false, 0), PollStep::Wait(true));
    assert_eq!(sync_up_step(false, 2_000), PollStep::Wait(false));
    assert_eq!(sync_up_step(false, 58_000), PollStep::TimedOut);
}

#[test]
fn an_item_in_no_collection_is_warned_about_once() {
    let item = blank_item("NEW", "book");
    let stray = blank_item("PDF", "attachment");
    let warned = unfiled_warning(&args(&[], false), &[stray.clone(), item.clone()]).unwrap();
    assert!(warned.contains("zot edit NEW --add-collection"), "{warned}");
    let warned = unfiled_warning(&args(&[], false), &[stray]).unwrap();
    assert!(warned.contains("zot attach"), "{warned}");
    assert_eq!(unfiled_warning(&args(&[], true), &[item.clone()]), None);
    assert_eq!(unfiled_warning(&args(&["A"], false), &[item]), None);
    assert_eq!(unfiled_warning(&args(&[], false), &[]), None);
}

#[test]
fn the_first_regular_item_is_filed() {
    let book = blank_item("BOOK", "book");
    let stray = blank_item("PDF", "attachment");
    assert_eq!(filed_item(&[stray.clone(), book.clone(), book]), Some(1));
    assert_eq!(filed_item(&[stray.clone(), stray]), Some(0));
    assert_eq!(filed_item(&[]), None);
}
