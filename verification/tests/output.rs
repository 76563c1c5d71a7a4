use zot::output::truncate_display;
use zot::output::CollectionCreatedOutput;
use zot::output::CollectionDeletedOutput;
use zot::output::CollectionRemovedOutput;
use zot::output::ExportOutput;
use zot::output::HumanDisplay;

fn export(exported: usize, path: Option<&str>, content: Option<&str>) -> ExportOutput {
    ExportOutput {
        format: "bibtex".to_string(),
        requested: exported,
        exported,
        dropped: Vec::new(),
        path: path.map(str::to_string),
        content: content.map(str::to_string),
    }
}

fn created(parent: Option<(&str, &str)>, synced_local: bool) -> CollectionCreatedOutput {
    CollectionCreatedOutput {
        key: "NEWKEY12".to_string(),
        name: "Papers".to_string(),
        parent: parent.map(|(key, _)| key.to_string()),
        parent_name: parent.map(|(_, name)| name.to_string()),
        synced_local,
    }
}

#[test]
fn created_collection_names_its_parent_or_the_top_level() {
    let child = created(Some(("ROOT1234", "Reading")), true).human_display();
    assert!(child.contains("Created collection: Papers [NEWKEY12]"), "{child}");
    assert!(child.contains("Parent: Reading [ROOT1234]"), "{child}");
    assert!(child.contains("shows it now"), "{child}");

    let root = created(None, false).human_display();
    assert!(root.contains("Parent: none (top level)"), "{root}");
    // The sync state is never left implied: the collection exists upstream
    // either way, and only this line says whether it is visible locally.
    assert!(root.contains("not synced down yet"), "{root}");
    // And it says so without reading as failure, which would invite a
    // re-run that the local-library duplicate check cannot catch yet.
    assert!(root.contains("re-running --create would duplicate it"), "{root}");
}

fn deleted(descendants: &[(&str, &str, usize)], parent: Option<&str>) -> CollectionDeletedOutput
{
    let mut removed = vec![CollectionRemovedOutput {
        key: "OLDKEY12".to_string(),
        name: "Papers".to_string(),
        depth: 0,
    }];
    removed.extend(descendants.iter().map(|(key, name, depth)| {
        CollectionRemovedOutput {
            key: (*key).to_string(),
            name: (*name).to_string(),
            depth: *depth,
        }
    }));
    CollectionDeletedOutput {
        key: "OLDKEY12".to_string(),
        name: "Papers".to_string(),
        parent: parent.map(str::to_string),
        descendant_count: removed.len() - 1,
        removed,
        item_count: 7,
        unfiled_count: 3,
        synced_local: true,
        note: "Permanent: Zotero has no trash for collections, so unlike `zot rm` this \
               cannot be undone."
            .to_string(),
    }
}

#[test]
fn deleted_collection_lists_every_collection_that_went_with_it() {
    let out = deleted(&[("SUB1", "Drafts", 1), ("SUB2", "Old", 2)], Some("ROOT1234"))
        .human_display();
    assert!(out.contains("Deleted collection: Papers [OLDKEY12]"), "{out}");
    assert!(out.contains("3 collections (2 descendants)"), "{out}");
    assert!(out.contains("Drafts [SUB1]"), "{out}");
    assert!(out.contains("Old [SUB2]"), "{out}");
    // The items are the thing a reader fears for, so the count says plainly
    // that none of them went.
    assert!(out.contains("7 were filed there, 3 are now in no collection"), "{out}");
    assert!(out.contains("none was deleted"), "{out}");
    assert!(out.contains("cannot be undone"), "{out}");
}

#[test]
fn deleted_leaf_collection_reports_one_collection_and_no_descendants() {
    let out = deleted(&[], None).human_display();
    assert!(out.contains("1 collection (0 descendants)"), "{out}");
}

#[test]
fn short_string_is_unchanged() {
    assert_eq!(truncate_display("Hello", 60), "Hello");
    assert_eq!(truncate_display("", 60), "");
}

#[test]
fn long_string_is_cut_and_marked() {
    assert_eq!(truncate_display("abcdef", 3), "abc...");
}

#[test]
fn exact_length_is_not_marked() {
    assert_eq!(truncate_display("abc", 3), "abc");
}

#[test]
fn cut_inside_multibyte_char_does_not_panic() {
    // Regression: byte slicing panicked with "byte index 60 is not a char
    // boundary" on titles like this one (github.com/sylvainHellin/zot#2).
    let title = "Bauüberwachung und Qualitätssicherung für Grünflächen in München";
    let out = truncate_display(title, 60);
    assert_eq!(out.chars().count(), 63); // 60 chars + "..."
    assert!(title.starts_with(out.trim_end_matches('.')));
}

#[test]
fn counts_characters_not_bytes() {
    // 4 chars, 8 bytes: a byte-based limit would cut this in half.
    assert_eq!(truncate_display("üäöß", 4), "üäöß");
    assert_eq!(truncate_display("üäöß", 2), "üä...");
}

#[test]
fn an_export_to_a_file_reports_the_path() {
    let out = export(11, Some("/tmp/acc.bib"), None);
    assert_eq!(out.human_display(), "Wrote 11 entries to /tmp/acc.bib");
}

#[test]
fn a_single_entry_export_is_not_pluralized() {
    let out = export(1, Some("/tmp/one.bib"), None);
    assert_eq!(out.human_display(), "Wrote 1 entry to /tmp/one.bib");
}

#[test]
fn an_export_to_stdout_is_the_bibliography_itself() {
    let out = export(1, None, Some("@book{k,\n\ttitle = {A},\n}"));
    assert_eq!(out.human_display(), "@book{k,\n\ttitle = {A},\n}");
}
