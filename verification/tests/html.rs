use zot::index::html::outcome_for_article;
use zot::index::html::strip_html;
use zot::index::html::MAX_ELEMENTS_TO_PARSE;
use zot::index::pdf::ExtractStatus;

/// The article that is found in a page.
fn article(html: &str) -> Option<String> {
    let config = dom_smoothie::Config {
        text_mode: dom_smoothie::TextMode::Formatted,
        max_elements_to_parse: MAX_ELEMENTS_TO_PARSE,
        ..Default::default()
    };
    let mut reader = dom_smoothie::Readability::new(html, None, Some(config)).ok()?;
    Some(reader.parse().ok()?.text_content.to_string())
}

#[test]
fn readability_extracts_article_body() {
    let html = r#"<html><head><title>My Post</title></head><body>
        <nav>Home About Contact</nav>
        <article><h1>Real Title</h1>
        <p>This is the first substantial paragraph of the article body. It is long
        enough to be picked up by the readability scorer as the main content, well
        past the two hundred and fifty character plausibility threshold that guards
        against nav-only extractions. More sentences here to add weight to it.</p>
        <p>A second paragraph continues the article with additional detail so the
        candidate clearly wins over the surrounding navigation and footer noise.</p>
        </article>
        <footer>Copyright 2026</footer></body></html>"#;
    let outcome = outcome_for_article(html, article(html), "html snapshot");
    assert_eq!(outcome.status, ExtractStatus::Complete);
    assert!(outcome.detail.contains("readability"));
    assert!(outcome.text.contains("first substantial paragraph"));
    // Nav/footer boilerplate should be dropped by readability.
    assert!(!outcome.text.contains("Home About Contact"));
}

#[test]
fn falls_back_to_strip_when_readability_finds_little() {
    // All body text sits in elements readability discards as boilerplate
    // (footer with an unlikely-candidate class), so readability yields
    // nothing plausible and we strip the whole body instead. The stripped
    // text is long enough to be plausible.
    let body = "word ".repeat(200);
    let html = format!(
        "<html><body><footer class=\"footer\">{body}</footer>\
         <script>var x = 1; ignore_this_script_text();</script>\
         <style>.a {{ color: red; }}</style></body></html>"
    );
    let outcome = outcome_for_article(&html, article(&html), "html snapshot");
    assert_eq!(outcome.status, ExtractStatus::Complete);
    assert!(outcome.detail.contains("fallback strip"));
    // Script/style contents must not leak into the text.
    assert!(!outcome.text.contains("ignore_this_script_text"));
    assert!(!outcome.text.contains("color: red"));
    assert!(outcome.text.contains("word"));
}

#[test]
fn suspicious_when_no_plausible_text_anywhere() {
    let html = "<html><body><nav>Menu</nav></body></html>";
    let outcome = outcome_for_article(html, article(html), "html snapshot");
    assert_eq!(outcome.status, ExtractStatus::Suspicious);
    assert!(outcome.detail.contains("low text volume"));
}

#[test]
fn strip_html_drops_script_and_style_and_decodes() {
    let html = "<p>Tom &amp; Jerry</p><script>bad()</script><style>x{}</style><p>end</p>";
    let text = strip_html(html);
    assert!(text.contains("Tom & Jerry"));
    assert!(text.contains("end"));
    assert!(!text.contains("bad()"));
    assert!(!text.contains("x{}"));
}

#[test]
fn a_page_without_an_article_is_stripped() {
    let html = format!("<p>{}</p>", "word ".repeat(100));
    let outcome = outcome_for_article(&html, None, "html snapshot");
    assert_eq!(outcome.status, ExtractStatus::Complete);
    assert_eq!(outcome.detail, "html snapshot: extracted (fallback strip)");
    assert!(outcome.text.starts_with("word word"));
    // An article that holds only whitespace counts as none.
    let blank = outcome_for_article("<p>x</p>", Some(" \n ".to_string()), "html snapshot");
    assert_eq!(blank.status, ExtractStatus::Suspicious);
    assert_eq!(blank.detail, "html snapshot: low text volume (1 chars, fallback strip)");
}
