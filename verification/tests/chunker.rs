use zot::index::chunker::chunk_item;
use zot::index::chunker::split_into_chunks;
use zot::index::chunker::ChunkType;
use zot::index::chunker::ItemText;

#[test]
fn test_split_short_text() {
    let chunks = split_into_chunks("hello world", 100, 20);
    assert_eq!(chunks.len(), 1);
    assert_eq!(chunks[0].0, "hello world");
    assert_eq!(chunks[0].1, 0);
    assert_eq!(chunks[0].2, 11);
}

#[test]
fn test_split_with_overlap() {
    // 20 chars, chunk size 10, overlap 3 => step=7
    // chunks: [0..10], [7..17], [14..20]
    let text = "01234567890123456789";
    let chunks = split_into_chunks(text, 10, 3);
    assert_eq!(chunks.len(), 3);
    assert_eq!(chunks[0].0, "0123456789");
    assert_eq!(chunks[0].1, 0);
    assert_eq!(chunks[0].2, 10);
    assert_eq!(chunks[1].0, "7890123456");
    assert_eq!(chunks[1].1, 7);
    assert_eq!(chunks[1].2, 17);
    assert_eq!(chunks[2].0, "456789");
    assert_eq!(chunks[2].1, 14);
    assert_eq!(chunks[2].2, 20);
}

#[test]
fn test_chunk_item_no_fulltext() {
    let item = ItemText {
        item_key: "ABC123".to_string(),
        title: "Test Title".to_string(),
        authors: "Smith, J.".to_string(),
        abstract_note: "An abstract.".to_string(),
        tags: "tag1, tag2".to_string(),
        fulltext: None,
    };
    let chunks = chunk_item(&item);
    assert_eq!(chunks.len(), 1);
    assert_eq!(chunks[0].chunk_type, ChunkType::Metadata);
    assert!(chunks[0].text.contains("Test Title"));
}
