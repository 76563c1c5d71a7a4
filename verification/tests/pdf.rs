use zot::index::pdf::build_outcome;
use zot::index::pdf::format_page_list;
use zot::index::pdf::ExtractStatus;
use zot::index::pdf::WorkerReport;

fn report(pages: u32, failed: &[u32], text: &str) -> WorkerReport {
    WorkerReport {
        page_count: pages,
        failed_pages: failed.to_vec(),
        text: text.to_string(),
        document_error: None,
    }
}

#[test]
fn ok_when_all_pages_extract_enough_text() {
    let body = "word ".repeat(1000); // ~5000 chars over 3 pages
    let outcome = build_outcome(report(3, &[], &body));
    assert_eq!(outcome.status, ExtractStatus::Complete);
    assert!(outcome.detail.is_empty());
    assert!(!outcome.text.is_empty());
}

#[test]
fn failed_when_document_will_not_open() {
    let r = WorkerReport {
        page_count: 0,
        failed_pages: Vec::new(),
        text: String::new(),
        document_error: Some("bad xref".to_string()),
    };
    let outcome = build_outcome(r);
    assert_eq!(outcome.status, ExtractStatus::Failed);
    assert!(outcome.detail.contains("malformed PDF"));
    assert!(outcome.text.is_empty());
}

#[test]
fn failed_when_all_pages_fail() {
    let outcome = build_outcome(report(3, &[1, 2, 3], ""));
    assert_eq!(outcome.status, ExtractStatus::Failed);
    assert!(outcome.text.is_empty());
}

#[test]
fn partial_when_some_pages_fail() {
    let body = "word ".repeat(500);
    let outcome = build_outcome(report(29, &[9, 24], &body));
    assert_eq!(outcome.status, ExtractStatus::Partial);
    assert!(outcome.detail.contains("27/29"));
    assert!(outcome.detail.contains("9, 24"));
    assert!(!outcome.text.is_empty());
}

#[test]
fn suspicious_when_under_extracted() {
    // 10 pages, tiny text: far below 200 chars/page.
    let outcome = build_outcome(report(10, &[], "a tiny bit of text here"));
    assert_eq!(outcome.status, ExtractStatus::Suspicious);
    assert!(outcome.detail.contains("low text volume"));
}

#[test]
fn short_document_not_flagged_suspicious() {
    // 2 pages is at/under the min-pages threshold: never suspicious.
    let outcome = build_outcome(report(2, &[], "short note"));
    assert_eq!(outcome.status, ExtractStatus::Complete);
}

#[test]
fn page_list_caps_long_lists() {
    let pages: Vec<u32> = (1..=20).collect();
    let s = format_page_list(&pages);
    assert!(s.contains("+12 more"));
}
