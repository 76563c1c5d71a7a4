use zot::api::models::ZoteroItem;
use zot::api::models::ZoteroItemData;
use zot::api::models::ZoteroMeta;
use zot::commands::fulltext_cmd::char_slice;
use zot::commands::index_cmd::checkpoint_due;
use zot::commands::index_cmd::childless_outcome;
use zot::commands::index_cmd::fulltext_source;
use zot::commands::index_cmd::is_indexable;
use zot::commands::index_cmd::issues_output;
use zot::commands::index_cmd::item_step;
use zot::commands::index_cmd::outcome_warning;
use zot::commands::index_cmd::own_file_outcome;
use zot::commands::index_cmd::pick_child;
use zot::commands::index_cmd::plan_index;
use zot::commands::index_cmd::record_skipped;
use zot::commands::index_cmd::status_output;
use zot::commands::index_cmd::tag_source;
use zot::commands::index_cmd::ChildChoice;
use zot::commands::index_cmd::FileState;
use zot::commands::index_cmd::FulltextSource;
use zot::commands::index_cmd::ItemStep;
use zot::commands::note_text::truncate;
use zot::index::chunker::chunk_item;
use zot::index::chunker::split_into_chunks;
use zot::index::chunker::ChunkType;
use zot::index::documents::document;
use zot::index::documents::indexable_item;
use zot::index::documents::item_text;
use zot::index::documents::split_tags;
use zot::index::html;
use zot::index::pdf;
use zot::index::pdf::ExtractOutcome;
use zot::index::pdf::ExtractStatus;
use zot::index::store::chunk_belongs_to;
use zot::index::store::text_hash;
use zot::index::store::IndexStore;
use zot::index::store::ItemStatusRecord;
use zot::index::table::Table;
use zot::output::HumanDisplay;

fn blank_item(key: &str, item_type: &str) -> ZoteroItem {
    ZoteroItem {
        key: key.to_string(),
        version: 1,
        meta: ZoteroMeta { creator_summary: None, parsed_date: None, num_children: None },
        data: ZoteroItemData {
            key: key.to_string(),
            version: 1,
            item_type: item_type.to_string(),
            title: String::new(),
            short_title: String::new(),
            date: String::new(),
            abstract_note: String::new(),
            creators: Vec::new(),
            tags: Vec::new(),
            collections: Vec::new(),
            publication_title: String::new(),
            doi: String::new(),
            url: String::new(),
            date_added: String::new(),
            date_modified: String::new(),
            language: String::new(),
            volume: String::new(),
            pages: String::new(),
            citation_key: String::new(),
            content_type: String::new(),
            parent_item: String::new(),
            note: String::new(),
            extra: String::new(),
        },
    }
}

fn v(items: &[&str]) -> Vec<String> {
    items.iter().map(|s| s.to_string()).collect()
}

fn empty_store() -> IndexStore {
    IndexStore::open(None, Vec::new(), Vec::new(), "M", 2).unwrap()
}

fn record(status: ExtractStatus, hash: u64) -> ItemStatusRecord {
    ItemStatusRecord { status, detail: String::new(), version: 1, text_hash: hash, status_version: 0 }
}

fn outcome(status: ExtractStatus, text: &str, detail: &str) -> ExtractOutcome {
    ExtractOutcome { status, text: text.to_string(), detail: detail.to_string() }
}

#[test]
fn an_index_of_another_model_is_refused() {
    let mut store = empty_store();
    store.meta.items.insert("A".to_string(), 1);
    let meta = store.meta;
    let err = IndexStore::open(Some(meta.clone()), Vec::new(), Vec::new(), "N", 2).unwrap_err();
    assert_eq!(
        err.message,
        "Index was built with model 'M' but current model is 'N'. Run `zot index --force` to rebuild."
    );
    let same = IndexStore::open(Some(meta), Vec::new(), Vec::new(), "M", 2).unwrap();
    assert_eq!(same.item_versions().get("A"), Some(&1));
    assert_eq!(same.consistency_warning(0), None);
    assert!(same.consistency_warning(3).unwrap().contains("3 search docs vs 0 vectors"));
}

#[test]
fn a_run_takes_changes_and_retries_each_once() {
    let mut store = empty_store();
    for (key, version) in [("SAME", 1), ("OLD", 1), ("GONE", 1), ("BAD", 1)] {
        store.meta.items.insert(key.to_string(), version);
    }
    store.record_status("BAD", record(ExtractStatus::Failed, 0));
    store.record_status("OLD", record(ExtractStatus::Failed, 0));
    store.record_status("GONE", record(ExtractStatus::Partial, 0));
    let mut remote = Table::new();
    for (key, version) in [("SAME", 1), ("OLD", 2), ("BAD", 1), ("NEW", 1)] {
        remote.insert(key.to_string(), version);
    }
    let plan = plan_index(&store, &remote, &v(&["SAME", "BAD"]), &v(&["SAME", "GONE"]));
    assert_eq!(plan.to_add, v(&["OLD", "NEW", "BAD", "SAME"]));
    assert_eq!(plan.retry_count, 2);
    assert_eq!(plan.to_delete, v(&["GONE"]));
    assert_eq!(
        plan.summary(4),
        "Library: 4 items. To index: 2 new/updated, 2 retry (prev. failed), 1 deleted, 2 unchanged."
    );
}

#[test]
fn a_run_that_indexed_everything_leaves_nothing_to_do() {
    let mut store = empty_store();
    store.meta.items.insert("OLD".to_string(), 1);
    let mut remote = Table::new();
    remote.insert("OLD".to_string(), 2u64);
    remote.insert("NEW".to_string(), 1u64);
    store.finalize(&remote, &remote, "now".to_string());
    let plan = plan_index(&store, &remote, &[], &[]);
    assert!(plan.to_add.is_empty() && plan.to_delete.is_empty());
    assert_eq!(store.meta().item_count, 2);
    assert_eq!(store.meta().last_sync, "now");
    store.clear();
    assert_eq!(store.item_versions().len(), 0);
    assert_eq!(store.meta().item_count, 0);
}

#[test]
fn text_that_is_indexed_is_never_wiped() {
    let none = outcome(ExtractStatus::Failed, "", "broken");
    let some = outcome(ExtractStatus::Complete, "text", "");
    match item_step(&none, 5, 11, Some(&record(ExtractStatus::Complete, 7)), true, true) {
        ItemStep::Keep(r) => {
            assert_eq!(r.status, ExtractStatus::Failed);
            assert_eq!(r.text_hash, 7);
            assert_eq!(r.version, 5);
            assert_eq!(r.status_version, 0);
        }
        other => panic!("{other:?}"),
    }
    assert!(matches!(
        item_step(&some, 5, 7, Some(&record(ExtractStatus::Complete, 7)), true, true),
        ItemStep::Refresh(_)
    ));
    assert!(matches!(
        item_step(&some, 5, 7, Some(&record(ExtractStatus::Complete, 7)), false, true),
        ItemStep::Reindex(_)
    ));
    assert!(matches!(item_step(&none, 5, 7, None, false, false), ItemStep::Reindex(_)));
    assert_eq!(text_hash("a"), text_hash("a"));
    assert_ne!(text_hash("a"), text_hash("b"));
}

#[test]
fn warnings_name_the_item_and_what_is_wrong() {
    assert_eq!(
        outcome_warning("K", &outcome(ExtractStatus::Partial, "", "2/3 pages")).as_deref(),
        Some("Warning: K (partial): 2/3 pages")
    );
    assert_eq!(
        outcome_warning("K", &outcome(ExtractStatus::Failed, "", "bad")).as_deref(),
        Some("Warning: K: bad")
    );
    assert_eq!(outcome_warning("K", &outcome(ExtractStatus::Complete, "", "x")), None);
    assert_eq!(outcome_warning("K", &outcome(ExtractStatus::Failed, "", "")), None);
    assert!(checkpoint_due(19, 40) && !checkpoint_due(20, 40) && !checkpoint_due(39, 40));
}

#[test]
fn every_item_has_a_source_for_its_text() {
    let mut pdf = blank_item("K", "attachment");
    pdf.data.content_type = "application/pdf".to_string();
    assert!(matches!(fulltext_source(&pdf), FulltextSource::OwnPdf));
    pdf.data.content_type = "text/html".to_string();
    assert!(matches!(fulltext_source(&pdf), FulltextSource::OwnHtml));
    pdf.data.content_type = String::new();
    match fulltext_source(&pdf) {
        FulltextSource::Known(o) => {
            assert_eq!(o.detail, "standalone attachment (unknown): not extractable")
        }
        other => panic!("{other:?}"),
    }
    let mut note = blank_item("N", "note");
    note.data.note = "<p>x</p>".to_string();
    assert!(matches!(fulltext_source(&note), FulltextSource::Known(_)));
    assert!(matches!(fulltext_source(&blank_item("B", "book")), FulltextSource::Children));
    assert!(is_indexable(&note) && is_indexable(&pdf) && is_indexable(&blank_item("B", "book")));
    note.data.parent_item = "B".to_string();
    assert!(!is_indexable(&note));
    let mut remote = Table::new();
    remote.insert("N".to_string(), 4u64);
    let mut indexed = Table::new();
    record_skipped(&mut indexed, &[note, blank_item("B", "book")], &remote);
    assert_eq!(indexed.get("N"), Some(&4));
    assert_eq!(indexed.len(), 1);
}

#[test]
fn a_pdf_is_preferred_to_a_saved_page() {
    let child = |content_type: &str| {
        let mut c = blank_item("C", "attachment");
        c.data.content_type = content_type.to_string();
        c
    };
    let children = [child("text/html"), child("application/pdf")];
    let (missing, present, unresolved) = (FileState::Missing, FileState::Present, FileState::Unresolved);
    assert_eq!(pick_child(&children, &[present, present]), ChildChoice::Pdf(1));
    assert_eq!(pick_child(&children, &[present, missing]), ChildChoice::Html(0));
    assert_eq!(pick_child(&children, &[missing, missing]), ChildChoice::HtmlMissing);
    assert_eq!(pick_child(&children, &[unresolved, missing]), ChildChoice::Nothing);
    assert_eq!(
        childless_outcome(ChildChoice::HtmlMissing).unwrap().detail,
        "html snapshot: file missing on disk"
    );
    assert_eq!(
        childless_outcome(ChildChoice::Nothing).unwrap().detail,
        "no PDF or HTML attachment found"
    );
    assert!(childless_outcome(ChildChoice::Pdf(0)).is_none());
    assert!(own_file_outcome("standalone PDF", true, present).is_none());
    assert_eq!(
        own_file_outcome("standalone PDF", true, missing).unwrap().detail,
        "standalone PDF: file missing on disk"
    );
    assert_eq!(
        own_file_outcome("standalone PDF", false, missing).unwrap().detail,
        "standalone PDF: could not resolve file path"
    );
    let tagged = tag_source(outcome(ExtractStatus::Complete, "t", ""), "standalone PDF");
    assert_eq!(tagged.detail, "standalone PDF: extracted");
}

#[test]
fn the_state_of_the_index_is_broken_down() {
    let mut store = empty_store();
    for key in ["A", "B", "C", "D"] {
        store.meta.items.insert(key.to_string(), 1);
    }
    store.record_status("A", record(ExtractStatus::Complete, 0));
    store.record_status("B", record(ExtractStatus::Failed, 0));
    store.record_status("C", record(ExtractStatus::Partial, 0));
    store.stamp("now".to_string());
    let out = status_output(&store, 2, "/data");
    assert_eq!(
        out.status_breakdown,
        vec![
            ("ok".to_string(), 1),
            ("partial".to_string(), 1),
            ("failed".to_string(), 1),
            ("unknown".to_string(), 1)
        ]
    );
    assert!(out.human_display().contains("/data"));
    let mut titles = Table::new();
    titles.insert("B".to_string(), "Title B".to_string());
    let issues = issues_output(&store, &titles);
    assert_eq!(issues.count, 2);
    assert_eq!(issues.issues[0].key, "B");
    assert_eq!(issues.issues[0].title, "Title B");
    assert_eq!(issues.issues[1].status, "partial");
}

#[test]
fn chunks_cover_the_text_and_overlap() {
    let text: String = (0..50).map(|i| char::from(b'a' + (i % 26) as u8)).collect();
    let chunks = split_into_chunks(&text, 10, 3);
    assert_eq!(chunks[0].1, 0);
    assert_eq!(chunks.last().unwrap().2, 50);
    for pair in chunks.windows(2) {
        assert_eq!(pair[0].2 - pair[1].1, 3);
    }
    // Positions are characters, not bytes.
    let wide = split_into_chunks("\u{fc}\u{fc}\u{fc}", 2, 0);
    assert_eq!(wide[0].0, "\u{fc}\u{fc}");
    assert_eq!(wide[1], ("\u{fc}".to_string(), 2, 3));
}

#[test]
fn chunk_ids_belong_to_their_item_alone() {
    let mut item = blank_item("ABC", "book");
    item.data.title = "T".to_string();
    let text = item_text(&item, &Some("x".repeat(2000)));
    let chunks = chunk_item(&text);
    assert_eq!(chunks.len(), 3);
    assert_eq!(chunks[1].chunk_type, ChunkType::Fulltext);
    for chunk in &chunks {
        assert!(chunk_belongs_to(&chunk.chunk_id, "ABC"));
        assert!(!chunk_belongs_to(&chunk.chunk_id, "AB"));
        assert!(!chunk_belongs_to(&chunk.chunk_id, "ABCD"));
    }
    let indexable = indexable_item(&item, &None);
    let doc = document(&indexable, &chunks[0], "whole text");
    assert_eq!(doc.fulltext.as_deref(), Some("whole text"));
    let doc = document(&indexable, &chunks[1], "whole text");
    assert_eq!(doc.fulltext, None);
    assert_eq!(split_tags("a, b,c"), v(&["a", "b,c"]));
}

#[test]
fn files_that_are_too_large_are_not_read() {
    assert!(pdf::oversized(pdf::MAX_PDF_BYTES).is_none());
    let big = pdf::oversized(pdf::MAX_PDF_BYTES + 1_048_576).unwrap();
    assert_eq!(big.status, ExtractStatus::Failed);
    assert!(html::oversized(html::MAX_HTML_BYTES, "s").is_none());
    let big = html::oversized(html::MAX_HTML_BYTES + 1, "s").unwrap();
    assert_eq!(big.detail, "s: too large (12 MB > 12 MB limit)");
    assert_eq!(html::blank(" \n", "s").unwrap().detail, "s: empty file");
    assert!(html::blank("x", "s").is_none());
}

#[test]
fn pages_are_assembled_with_the_failed_ones_listed() {
    let report = pdf::assemble_report(vec![
        Some(" one \0\n\n".to_string()),
        None,
        Some("three".to_string()),
    ]);
    assert_eq!(report.page_count, 3);
    assert_eq!(report.failed_pages, vec![2]);
    assert_eq!(report.text, "one\nthree");
    let unopened = pdf::build_outcome(pdf::unopened_report("bad xref".to_string()));
    assert_eq!(unopened.status, ExtractStatus::Failed);
    assert_eq!(pdf::clean_text("a\0 \n\n b"), "a\nb");
    assert!(pdf::describe_exit_failure(Some(9), "").contains('9'));
}

#[test]
fn an_error_text_is_cut_at_a_character() {
    assert_eq!(truncate("abc", 10), "abc");
    let cut = truncate("\u{fc}\u{fc}\u{fc}", 3);
    assert!(cut.starts_with('\u{fc}'));
    assert!(!cut.starts_with("\u{fc}\u{fc}"), "{cut}");
}

#[test]
fn a_chunk_is_the_window_its_positions_name() {
    let fulltext: String = (0..4000).map(|i| if i % 7 == 0 { '\u{fc}' } else { 'x' }).collect();
    let text = item_text(&blank_item("K", "book"), &Some(fulltext.clone()));
    let chunks = chunk_item(&text);
    assert_eq!(chunks.len(), 4);
    for chunk in &chunks[1..] {
        assert_eq!(char_slice(&fulltext, chunk.char_start, chunk.char_end), chunk.text);
    }
}
