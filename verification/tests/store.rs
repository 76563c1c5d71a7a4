use zot::index::chunker::Chunk;
use zot::index::chunker::ChunkType;
use zot::index::pdf::ExtractStatus;
use zot::index::store::chunk_belongs_to;
use zot::index::store::compute_sync_diff;
use zot::index::store::IndexStore;
use zot::index::store::ItemStatusRecord;
use zot::index::store::STATUS_VERSION;
use zot::index::table::Table;

fn empty_store(dim: usize) -> IndexStore {
    IndexStore::open(None, Vec::new(), Vec::new(), "TestModel", dim).unwrap()
}

fn bits(v: [f32; 3]) -> Vec<u32> {
    v.iter().map(|x| x.to_bits()).collect()
}

fn make_chunks(key: &str, n: usize) -> Vec<Chunk> {
    let mut chunks = vec![Chunk {
        chunk_id: format!("{key}_meta"),
        item_key: key.to_string(),
        chunk_type: ChunkType::Metadata,
        text: "meta".to_string(),
        char_start: 0,
        char_end: 0,
    }];
    for i in 0..n {
        chunks.push(Chunk {
            chunk_id: format!("{key}_{i}"),
            item_key: key.to_string(),
            chunk_type: ChunkType::Fulltext,
            text: format!("chunk {i}"),
            char_start: 0,
            char_end: 0,
        });
    }
    chunks
}

// compute_sync_diff classifies keys into new/updated (to_add) and removed
// (to_delete), and is_stale() reflects whether either is non-empty.
#[test]
fn compute_sync_diff_classifies_keys() {
    let mut local = Table::new();
    local.insert("SAME".to_string(), 3u64);
    local.insert("CHANGED".to_string(), 3u64);
    local.insert("GONE".to_string(), 9u64);

    let mut remote = Table::new();
    remote.insert("SAME".to_string(), 3u64); // unchanged
    remote.insert("CHANGED".to_string(), 4u64); // version bumped
    remote.insert("NEW".to_string(), 1u64); // new remotely
    // GONE absent remotely -> removed.

    let diff = compute_sync_diff(&remote, &local);

    let mut add = diff.to_add.clone();
    add.sort();
    assert_eq!(add, vec!["CHANGED".to_string(), "NEW".to_string()]);
    assert_eq!(diff.to_delete, vec!["GONE".to_string()]);
    assert!(diff.is_stale());

    // Identical maps -> not stale.
    let clean = compute_sync_diff(&local, &local);
    assert!(!clean.is_stale());
    assert!(clean.to_add.is_empty() && clean.to_delete.is_empty());
}

// Regression test for vector-store duplication on re-ingest (issue #1, bug 2).
// Re-adding the same item_key must purge its stale vectors, so vector_count
// equals the chunk count of the latest add, not the sum of both adds.
#[test]
fn add_item_dedups_vectors_on_reingest() {
    let dim = 3;
    let mut store = empty_store(dim);

    let key = "ITEMKEY1";

    // First add: metadata + 2 fulltext chunks = 3 vectors.
    let chunks1 = make_chunks(key, 2);
    let emb1: Vec<Vec<u32>> = (0..chunks1.len()).map(|_| bits([0.1, 0.2, 0.3])).collect();
    store.add_item(key, &chunks1, &emb1);
    assert_eq!(store.vector_count(), 3);

    // Second add (re-ingest with changed/fewer chunks): metadata + 1 fulltext = 2.
    let chunks2 = make_chunks(key, 1);
    let emb2: Vec<Vec<u32>> = (0..chunks2.len()).map(|_| bits([0.4, 0.5, 0.6])).collect();
    store.add_item(key, &chunks2, &emb2);

    // Must equal the second add's chunk count (2), not the sum (5).
    assert_eq!(store.vector_count(), 2);
    assert!(store.chunk_ids.iter().all(|c| c.starts_with(key)));
}

// finalize must not blindly record the full remote map: only items that were
// indexed this run (passed in indexed_versions) plus previously-known items
// still present remotely get a recorded version. Zero-chunk/never-fetched
// items are left out for retry; deleted items are dropped.
#[test]
fn finalize_only_records_indexed_and_known_present() {
    let dim = 3;
    let mut store = empty_store(dim);

    // Seed a previously-known item.
    store.meta.items.insert("OLD_PRESENT".to_string(), 5);
    store.meta.items.insert("OLD_DELETED".to_string(), 7);

    let mut remote = Table::new();
    remote.insert("OLD_PRESENT".to_string(), 5); // unchanged, still remote
    remote.insert("NEW_OK".to_string(), 10); // indexed this run
    remote.insert("NEW_FAILED".to_string(), 11); // queued but zero chunks, must retry
    // OLD_DELETED absent from remote -> dropped.

    let mut indexed = Table::new();
    indexed.insert("NEW_OK".to_string(), 10);

    store.finalize(&remote, &indexed, "now".to_string());

    let items = &store.meta.items;
    assert_eq!(items.get("OLD_PRESENT"), Some(&5));
    assert_eq!(items.get("NEW_OK"), Some(&10));
    assert!(!items.contains_key("NEW_FAILED"), "failed item must be retried");
    assert!(!items.contains_key("OLD_DELETED"), "deleted item must be dropped");
    assert_eq!(items.len(), 2);
}

// Direct checks for the chunk_belongs_to predicate. Keys that share a
// strict prefix (e.g. "ABC" and "ABCD") must NOT be cross-matched: a chunk
// emitted for "ABCD" starts with "ABCD_" but not with "ABC_".
#[test]
fn chunk_belongs_to_handles_prefix_keys() {
    // Owns: exact id or "{key}_...".
    assert!(chunk_belongs_to("ABC", "ABC"));
    assert!(chunk_belongs_to("ABC_meta", "ABC"));
    assert!(chunk_belongs_to("ABC_0", "ABC"));
    assert!(chunk_belongs_to("ABC_42", "ABC"));

    // Foreign: id starts with the candidate key but the next char is not '_'.
    assert!(!chunk_belongs_to("ABCD_meta", "ABC"));
    assert!(!chunk_belongs_to("ABCD_0", "ABC"));
    assert!(!chunk_belongs_to("ABCMeta", "ABC"));
    assert!(!chunk_belongs_to("ABCMeta_0", "ABC"));

    // Reverse direction: shorter key is a prefix of a longer candidate.
    assert!(!chunk_belongs_to("ABC", "AB"));
    assert!(!chunk_belongs_to("ABC_meta", "AB"));

    // Empty key and unrelated ids.
    assert!(!chunk_belongs_to("", "ABC"));
    assert!(!chunk_belongs_to("XYZ_meta", "ABC"));
}

// Regression: add_item must not purge vectors belonging to another item
// whose key has this item's key as a strict prefix. Bug would have wiped
// ABCD's vectors when adding ABC, leaving ABCD unsearchable until a force
// rebuild.
#[test]
fn add_item_does_not_purge_prefixed_other_item_vectors() {
    let dim = 3;
    let mut store = empty_store(dim);

    let key_long = "ABCD";
    let key_short = "ABC"; // strict prefix of key_long

    // Add the longer (ABCD) item first: meta + 2 fulltext = 3 vectors.
    let chunks_long = make_chunks(key_long, 2);
    let emb_long: Vec<Vec<u32>> = (0..chunks_long.len())
        .map(|_| bits([0.1, 0.2, 0.3]))
        .collect();
    store.add_item(key_long, &chunks_long, &emb_long);
    assert_eq!(store.vector_count(), 3);

    // Now add the shorter (ABC) item: meta + 1 fulltext = 2 vectors. The
    // old `starts_with(key)` predicate would have purged all of ABCD's
    // vectors here (they all start with "ABC"). The fix leaves them alone.
    let chunks_short = make_chunks(key_short, 1);
    let emb_short: Vec<Vec<u32>> = (0..chunks_short.len())
        .map(|_| bits([0.4, 0.5, 0.6]))
        .collect();
    store.add_item(key_short, &chunks_short, &emb_short);

    // ABCD's 3 vectors survive + ABC's 2 vectors are added = 5 total.
    // Pre-fix this would have been 2 (only ABC's after the bad purge).
    assert_eq!(store.vector_count(), 5);
    let abcd_count = store.chunk_ids.iter().filter(|c| c.starts_with("ABCD")).count();
    let abc_count = store.chunk_ids.iter().filter(|c| c.starts_with("ABC")).count();
    assert_eq!(abcd_count, 3, "ABCD's vectors must not be purged by ABC");
    assert_eq!(abc_count, 5, "ABC's chunks (3 ABCD + 2 ABC) all start with ABC");
}

// has_fulltext reflects whether an item's metadata chunk carries non-empty
// fulltext. This is the guard that keeps previously-good text from being wiped
// by a transient (empty) retry extraction.
#[test]
fn has_fulltext_reflects_stored_fulltext() {
    // Not indexed yet.
    assert!(!IndexStore::has_fulltext(&None));
    // Item indexed with non-empty fulltext.
    assert!(IndexStore::has_fulltext(&Some("real text".to_string())));
    // Item indexed with empty fulltext (extraction failed).
    assert!(!IndexStore::has_fulltext(&Some(String::new())));
}

// keys_without_metadata_chunk finds version-recorded items with no metadata
// chunk (standalone attachments/notes skipped before v0.2.1) so they are
// re-queued once instead of requiring a --force rebuild.
#[test]
fn keys_without_metadata_chunk_finds_unchunked_items() {
    let dim = 3;
    let mut store = empty_store(dim);

    // INDEXED has a metadata chunk; SKIPPED only has a recorded version.
    let chunks = make_chunks("INDEXED", 1);
    let emb: Vec<Vec<u32>> = (0..chunks.len()).map(|_| bits([0.1, 0.2, 0.3])).collect();
    store.add_item("INDEXED", &chunks, &emb);
    store.meta.items.insert("INDEXED".to_string(), 1);
    store.meta.items.insert("SKIPPED".to_string(), 2);

    let keys = store.keys_without_metadata_chunk(&["INDEXED".to_string()]);
    assert_eq!(keys, vec!["SKIPPED".to_string()]);
}

// Regression: delete_items must not purge vectors belonging to another item
// whose key has this item's key as a strict prefix.
#[test]
fn delete_items_does_not_purge_prefixed_other_item_vectors() {
    let dim = 3;
    let mut store = empty_store(dim);

    // Add two items with prefix-sharing keys (meta + 1 fulltext = 2 each).
    for key in ["ABCD", "ABC"] {
        let chunks = make_chunks(key, 1);
        let emb: Vec<Vec<u32>> = (0..chunks.len())
            .map(|_| bits([0.1, 0.2, 0.3]))
            .collect();
        store.add_item(key, &chunks, &emb);
    }
    assert_eq!(store.vector_count(), 4);

    // Delete only the shorter (prefix) key.
    store.delete_items(&["ABC".to_string()]);

    // ABC's 2 vectors gone, ABCD's 2 vectors remain.
    assert_eq!(store.vector_count(), 2);
    assert!(
        store.chunk_ids.iter().all(|c| c.starts_with("ABCD")),
        "ABCD's vectors must not be purged when deleting ABC",
    );
}

// stale_no_attachment_keys must return exactly the no-attachment items
// recorded under an older status version: not current-version ones, and
// not other statuses regardless of version.
#[test]
fn stale_no_attachment_keys_selects_only_outdated_no_attachment() {
    let dim = 3;
    let mut store = empty_store(dim);

    let rec = |status: ExtractStatus, sv: u32| ItemStatusRecord {
        status,
        detail: String::new(),
        version: 1,
        text_hash: 0,
        status_version: sv,
    };

    // Old-version no-attachment (pre-field records deserialize as 0): stale.
    store
        .meta
        .item_status
        .insert("OLD_NA".to_string(), rec(ExtractStatus::NoAttachment, 0));
    // Current-version no-attachment: not stale.
    store.meta.item_status.insert(
        "CUR_NA".to_string(),
        rec(ExtractStatus::NoAttachment, STATUS_VERSION),
    );
    // Old-version but not no-attachment: handled by retry_keys, not here.
    store
        .meta
        .item_status
        .insert("OLD_OK".to_string(), rec(ExtractStatus::Complete, 0));

    let keys = store.stale_no_attachment_keys();
    assert_eq!(keys, vec!["OLD_NA".to_string()]);
}

// record_status must stamp the current STATUS_VERSION, so a re-attempted
// item stops appearing in stale_no_attachment_keys afterwards.
#[test]
fn record_status_stamps_current_status_version() {
    let dim = 3;
    let mut store = empty_store(dim);

    store.record_status(
        "KEY1",
        ItemStatusRecord {
            status: ExtractStatus::NoAttachment,
            detail: String::new(),
            version: 1,
            text_hash: 0,
            status_version: 0, // caller value is overridden by record_status
        },
    );

    let rec = store.status_of("KEY1").unwrap();
    assert_eq!(rec.status_version, STATUS_VERSION);
    assert!(store.stale_no_attachment_keys().is_empty());
}
