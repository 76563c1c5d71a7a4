use zot::commands::search_cmd::check_index;
use zot::commands::search_cmd::search_output;
use zot::commands::search_cmd::sync_note;
use zot::index::documents::ChunkData;
use zot::index::store::FilterField;
use zot::index::store::SearchFilters;
use zot::index::store::SyncDiff;
use zot::output::HumanDisplay;
use zot::search::hybrid::best;
use zot::search::hybrid::candidate_limit;
use zot::search::hybrid::collapse;
use zot::search::hybrid::rank;
use zot::search::hybrid::rrf_ranks;
use zot::search::hybrid::search_hits;
use zot::search::hybrid::searchable;
use zot::search::hybrid::top_results;

fn v(items: &[&str]) -> Vec<String> {
    items.iter().map(|s| s.to_string()).collect()
}

fn candidates(items: &[(&str, i64)]) -> Vec<(String, i64)> {
    items.iter().map(|(k, s)| (k.to_string(), *s)).collect()
}

#[test]
fn ranking_is_stable_and_descending() {
    assert_eq!(rank(&[1, 3, 2, 3]), vec![1, 3, 2, 0]);
    assert_eq!(best(&[1, 3, 2, 3], 2), vec![1, 3]);
    assert_eq!(best(&[1], 5), vec![0]);
    assert_eq!(candidate_limit(10), 50);
}

#[test]
fn fusion_notes_the_ranks_of_both_lists() {
    let fused = rrf_ranks(&v(&["a", "b"]), &v(&["b", "c"]));
    let shown: Vec<(&str, Vec<usize>)> =
        fused.iter().map(|f| (f.id.as_str(), f.ranks.clone())).collect();
    assert_eq!(shown, vec![("a", vec![0]), ("b", vec![1, 0]), ("c", vec![1])]);
}

#[test]
fn a_filter_leaves_the_allowed_chunks() {
    let ids = v(&["a", "b", "c"]);
    assert_eq!(searchable(&ids, None), vec![0, 1, 2]);
    assert_eq!(searchable(&ids, Some(&v(&["c", "a"]))), vec![0, 2]);
}

#[test]
fn no_item_has_two_results_and_each_has_its_best() {
    let c = candidates(&[("A", 5), ("B", 4), ("A", 9), ("B", 1)]);
    assert_eq!(collapse(&c, -1, None), vec![1, 2]);
    assert_eq!(top_results(&c, -1, false, 10), vec![2, 1]);
    assert_eq!(top_results(&c, -1, false, 1), vec![2]);
    // Once there are enough items, later candidates are not looked at.
    assert_eq!(top_results(&c, -1, true, 2), vec![0, 1]);
    assert!(top_results(&c, -1, true, 0).is_empty());
    // A score at the floor does not count.
    assert!(collapse(&candidates(&[("A", -1)]), -1, None).is_empty());
}

#[test]
fn the_reranker_decides_where_it_answers() {
    let c = candidates(&[("A", 5), ("B", 4)]);
    let hits = search_hits(&c, Some(&[(1, 8), (0, 7), (9, 99)]), -1, 10);
    let shown: Vec<(usize, Option<usize>)> = hits.iter().map(|h| (h.candidate, h.reranked)).collect();
    assert_eq!(shown, vec![(1, Some(0)), (0, Some(1))]);
    // An answer that names nothing leaves the fused scores to decide.
    let hits = search_hits(&c, Some(&[]), -1, 10);
    let shown: Vec<(usize, Option<usize>)> = hits.iter().map(|h| (h.candidate, h.reranked)).collect();
    assert_eq!(shown, vec![(0, None), (1, None)]);
    assert_eq!(search_hits(&c, None, -1, 1).len(), 1);
}

#[test]
fn filters_become_exact_terms() {
    let mut f = SearchFilters { tag: None, creator: Some("x".to_string()), item_type: None, collection: None };
    assert!(!f.has_any());
    f.tag = Some("t".to_string());
    f.collection = Some("C".to_string());
    assert!(f.has_any());
    assert_eq!(
        f.terms(),
        vec![(FilterField::Tags, "t".to_string()), (FilterField::Collections, "C".to_string())]
    );
}

#[test]
fn the_note_says_how_fresh_the_index_is() {
    assert!(check_index(1).is_ok());
    assert_eq!(check_index(0).unwrap_err().message, "Index is empty. Run `zot index` first.");
    assert_eq!(
        sync_note(None).as_deref(),
        Some("Note: Zotero not reachable -- cannot verify the index is up to date.")
    );
    let stale = SyncDiff { to_add: v(&["a", "b"]), to_delete: v(&["c"]) };
    assert_eq!(
        sync_note(Some(&stale)).as_deref(),
        Some("Note: index may be out of date -- 2 new/updated, 1 removed since last sync. Run `zot index` to update.")
    );
    assert_eq!(sync_note(Some(&SyncDiff { to_add: Vec::new(), to_delete: Vec::new() })), None);
}

#[test]
fn results_are_shown_with_their_scores() {
    let chunk = ChunkData {
        chunk_id: "K_0".to_string(),
        item_key: "K".to_string(),
        chunk_type: "fulltext".to_string(),
        text: "some\ntext".to_string(),
        title: "T".to_string(),
        creators: "Smith, J.".to_string(),
        tags: String::new(),
        item_type: "book".to_string(),
        date: "2020".to_string(),
        doi: String::new(),
        abstract_note: String::new(),
        publication_title: String::new(),
        char_start: 3,
        char_end: 12,
    };
    let out = search_output("q", &[(chunk, "0.500".to_string())], None, None);
    assert_eq!(out.result_count, 1);
    let shown = out.human_display();
    assert!(shown.contains("1. [K] T (score: 0.500)"), "{shown}");
    assert!(shown.contains("some text"), "{shown}");
    assert!(shown.contains("chars 3-12"), "{shown}");
}
