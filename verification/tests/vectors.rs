use zot::index::vectors::load_vectors;
use zot::index::vectors::save_vectors;

#[test]
fn vectors_read_back_as_they_were_written() {
    let vectors = vec![vec![1.5f32.to_bits(), 0.0f32.to_bits()], vec![7, u32::MAX]];
    let ids = vec!["A_meta".to_string(), "\u{fc}_0".to_string()];
    let bytes = save_vectors(&vectors, &ids, 2);
    let (read, read_ids) = load_vectors(&bytes, 2).unwrap();
    assert_eq!(read, vectors);
    assert_eq!(read_ids, ids);
    assert_eq!(&bytes[..8], &[2, 0, 0, 0, 2, 0, 0, 0]);
}

#[test]
fn vectors_of_another_dimension_are_refused() {
    let bytes = save_vectors(&[vec![1, 2]], &["A".to_string()], 2);
    let err = load_vectors(&bytes, 3).unwrap_err();
    assert_eq!(err.message(), "Vector dimension mismatch: file has 2, expected 3");
}

#[test]
fn a_cut_file_is_refused() {
    let bytes = save_vectors(&[vec![1, 2]], &["A".to_string()], 2);
    for n in 0..bytes.len() {
        assert!(load_vectors(&bytes[..n], 2).is_err(), "{n} bytes");
    }
}

#[test]
fn an_id_that_is_no_text_is_refused() {
    let mut bytes = save_vectors(&[vec![1]], &["A".to_string()], 1);
    let at = bytes.iter().position(|b| *b == b'A').unwrap();
    bytes[at] = 0xff;
    let err = load_vectors(&bytes, 1).unwrap_err();
    assert_eq!(err.message(), "invalid utf-8 sequence of 1 bytes from index 0");
}
