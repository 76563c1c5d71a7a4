use zot::commands::note_text::note_outcome;
use zot::commands::note_text::strip_html;
use zot::index::pdf::ExtractStatus;

#[test]
fn strip_html_removes_tags_and_collapses_whitespace() {
    let html = "<div data-schema-version=\"9\"><h1>Title</h1>\n<p>Hello <b>world</b>.</p></div>";
    assert_eq!(strip_html(html), "Title Hello world .");
}

#[test]
fn strip_html_decodes_common_entities() {
    let html = "<p>Tom &amp; Jerry &lt;3 caf&#233;</p>";
    // &#233; is not in the decoded set, so it is left as-is (rare in notes).
    assert_eq!(strip_html(html), "Tom & Jerry <3 caf&#233;");
    assert_eq!(strip_html("a&nbsp;b"), "a b");
}

#[test]
fn strip_html_amp_decoded_before_entity_bodies() {
    // A literally-escaped entity (&amp;lt;) must survive as text, not become <.
    assert_eq!(strip_html("x &amp;lt; y"), "x &lt; y");
}

#[test]
fn note_outcome_ok_for_nonempty_note() {
    let outcome = note_outcome("<p>Some note body.</p>");
    assert_eq!(outcome.status, ExtractStatus::Complete);
    assert_eq!(outcome.text, "Some note body.");
    assert_eq!(outcome.detail, "note content");
}

#[test]
fn note_outcome_empty_note_is_no_attachment() {
    let outcome = note_outcome("<div></div>");
    assert_eq!(outcome.status, ExtractStatus::NoAttachment);
    assert!(outcome.text.is_empty());
    assert_eq!(outcome.detail, "empty note");
}
