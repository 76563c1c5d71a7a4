use zot::api::models::ZoteroItem;
use zot::api::models::ZoteroItemData;
use zot::api::models::ZoteroMeta;
use zot::commands::fulltext_cmd::build_output;
use zot::commands::fulltext_cmd::is_unfiled;
use zot::commands::fulltext_cmd::partition_unfiled;
use zot::output::HumanDisplay;

fn blank_item(key: &str, item_type: &str) -> ZoteroItem {
    ZoteroItem {
        key: key.to_string(),
        version: 1,
        meta: ZoteroMeta { creator_summary: None, parsed_date: None, num_children: None },
        data: ZoteroItemData {
            key: key.to_string(),
            version: 1,
            item_type: item_type.to_string(),
            title: String::new(),
            short_title: String::new(),
            date: String::new(),
            abstract_note: String::new(),
            creators: Vec::new(),
            tags: Vec::new(),
            collections: Vec::new(),
            publication_title: String::new(),
            doi: String::new(),
            url: String::new(),
            date_added: String::new(),
            date_modified: String::new(),
            language: String::new(),
            volume: String::new(),
            pages: String::new(),
            citation_key: String::new(),
            content_type: String::new(),
            parent_item: String::new(),
            note: String::new(),
            extra: String::new(),
        },
    }
}

/// `collections` and `parentItem` are the two fields the partition reads.
fn item(key: &str, item_type: &str, collections: &[&str], parent: &str) -> ZoteroItem {
    let mut item = blank_item(key, item_type);
    item.data.title = format!("Title of {key}");
    item.data.collections = collections.iter().map(|c| c.to_string()).collect();
    item.data.parent_item = parent.to_string();
    item
}

fn keys(items: &[&ZoteroItem]) -> Vec<String> {
    items.iter().map(|i| i.key.clone()).collect()
}

#[test]
fn an_item_is_unfiled_exactly_when_it_is_in_no_collection() {
    assert!(is_unfiled(&item("AAAA1111", "journalArticle", &[], "")));
    assert!(!is_unfiled(&item(
        "BBBB2222",
        "journalArticle",
        &["KMHNIPDA"],
        ""
    )));
    // Membership in several collections is no less filed than one.
    assert!(!is_unfiled(&item(
        "CCCC3333",
        "journalArticle",
        &["KMHNIPDA", "ABCD1234"],
        ""
    )));
}

#[test]
fn a_standalone_attachment_or_note_is_stray_rather_than_filable() {
    let items = vec![
        item("AAAA1111", "journalArticle", &[], ""),
        item("SLJFJADB", "attachment", &[], ""),
        item("NOTE0001", "note", &[], ""),
    ];
    let (filable, stray) = partition_unfiled(&items);
    assert_eq!(keys(&filable), vec!["AAAA1111"]);
    assert_eq!(keys(&stray), vec!["SLJFJADB", "NOTE0001"]);
}

#[test]
fn a_child_attachment_appears_in_neither_list() {
    // A child's own `collections` is empty, so only the parent check keeps
    // it out. `fetch_top_items` does not return children, but the
    // classification must not depend on that.
    let items = vec![
        item("AAAA1111", "journalArticle", &[], ""),
        item("CHILDPDF", "attachment", &[], "AAAA1111"),
        item("CHILDNOT", "note", &[], "AAAA1111"),
        item("ANNOT001", "annotation", &[], "CHILDPDF"),
    ];
    let (filable, stray) = partition_unfiled(&items);
    assert_eq!(keys(&filable), vec!["AAAA1111"]);
    assert!(stray.is_empty(), "{:?}", keys(&stray));
}

#[test]
fn a_filed_attachment_is_not_reported_either() {
    // Stray is about being unfiled first; an attachment someone deliberately
    // filed is not this command's business.
    let items = vec![item("SLJFJADB", "attachment", &["KMHNIPDA"], "")];
    let (filable, stray) = partition_unfiled(&items);
    assert!(filable.is_empty());
    assert!(stray.is_empty());
}

#[test]
fn all_filable_all_stray_and_empty_inputs_each_partition_cleanly() {
    let all_filable = vec![
        item("AAAA1111", "journalArticle", &[], ""),
        item("BBBB2222", "conferencePaper", &[], ""),
    ];
    let (filable, stray) = partition_unfiled(&all_filable);
    assert_eq!(keys(&filable), vec!["AAAA1111", "BBBB2222"]);
    assert!(stray.is_empty());

    let all_stray = vec![
        item("SLJFJADB", "attachment", &[], ""),
        item("NOTE0001", "note", &[], ""),
    ];
    let (filable, stray) = partition_unfiled(&all_stray);
    assert!(filable.is_empty());
    assert_eq!(keys(&stray), vec!["SLJFJADB", "NOTE0001"]);

    let (filable, stray) = partition_unfiled(&[]);
    assert!(filable.is_empty());
    assert!(stray.is_empty());
}

#[test]
fn count_mode_omits_the_listings() {
    let items = vec![
        item("AAAA1111", "journalArticle", &[], ""),
        item("SLJFJADB", "attachment", &[], ""),
    ];
    let counted = build_output(&items, true);
    assert!(counted.items.is_none());
    assert!(counted.stray.is_none());
    assert_eq!(counted.count, 1);
    assert_eq!(counted.stray_count, 1);
    // Human `--count` is the bare filable number, so `N=$(zot unfiled
    // --count)` needs no parsing.
    assert_eq!(counted.human_display(), "1");

    let listed = build_output(&items, false);
    assert_eq!(listed.count, 1);
    assert_eq!(listed.stray_count, 1);
    assert_eq!(listed.items.as_ref().unwrap()[0].key, "AAAA1111");
    assert_eq!(listed.stray.as_ref().unwrap()[0].key, "SLJFJADB");
    assert_eq!(listed.stray.as_ref().unwrap()[0].item_type, "attachment");

    let human = listed.human_display();
    assert!(human.contains("Unfiled items: 1"), "{human}");
    assert!(human.contains("[AAAA1111]"), "{human}");
    assert!(
        human.contains("Stray top-level attachments and notes: 1"),
        "{human}"
    );
    assert!(human.contains("[SLJFJADB]"), "{human}");
}

#[test]
fn a_regular_item_with_a_parent_appears_in_neither_list() {
    let items = vec![item("CHILD001", "journalArticle", &[], "AAAA1111")];
    let (filable, stray) = partition_unfiled(&items);
    assert!(filable.is_empty());
    assert!(stray.is_empty());
}
