//! Text extracted from saved web pages.
use crate::index::pdf::clean_text;
use crate::index::pdf::cleaned;
use crate::index::pdf::failed;
use crate::index::pdf::failure;
use crate::index::pdf::ExtractOutcome;
use crate::index::pdf::ExtractStatus;
use crate::index::pdf::OutcomeView;
use crate::lines::join_runs;
use crate::lines::joined;
use crate::lines::split_whitespace;
use crate::lines::words_of;
use crate::text::ascii_lowercase;
use crate::text::chars_of;
use crate::text::concat2;
use crate::text::decimal;
use crate::text::find_from;
use crate::text::found_from;
use crate::text::is_white;
use crate::text::is_whitespace;
use crate::text::lower_ascii;
use crate::text::opt_int;
use crate::text::opt_text;
use crate::text::push_decimal;
use crate::text::starts_with;
use crate::text::string_of;
use crate::text::trim;
use crate::text::trimmed;
use vstd::prelude::*;
use vstd::slice::slice_subrange;

verus! {

/// Saved pages larger than this are not read: 12 MB.
pub const MAX_HTML_BYTES: u64 = 12_582_912;

/// Cap on the characters kept when a page is stripped of its markup.
pub const MAX_STRIP_CHARS: usize = 2_097_152;

/// Cap on the elements that are parsed to find the article in a page.
pub const MAX_ELEMENTS_TO_PARSE: usize = 500_000;

/// Below this many characters a text found by reading the page is implausible, and so is a page
/// stripped of its markup.
pub const MIN_PLAUSIBLE_CHARS: usize = 250;

/// The entity that a text starts with: how long it is and what it stands for.
pub open spec fn entity(s: Seq<char>, dash: bool) -> Option<(int, char)> {
    if "&nbsp;"@.is_prefix_of(s) {
        Some((6, ' '))
    } else if "&amp;"@.is_prefix_of(s) {
        Some((5, '&'))
    } else if "&lt;"@.is_prefix_of(s) {
        Some((4, '<'))
    } else if "&gt;"@.is_prefix_of(s) {
        Some((4, '>'))
    } else if "&quot;"@.is_prefix_of(s) {
        Some((6, '"'))
    } else if "&#39;"@.is_prefix_of(s) {
        Some((5, '\''))
    } else if "&apos;"@.is_prefix_of(s) {
        Some((6, '\''))
    } else if dash && "&mdash;"@.is_prefix_of(s) {
        Some((7, '-'))
    } else {
        None
    }
}

proof fn lemma_entity(s: Seq<char>, dash: bool)
    ensures
        match entity(s, dash) {
            Some((n, _)) => 0 < n <= s.len(),
            None => true,
        },
{
    reveal_strlit("&nbsp;");
    reveal_strlit("&amp;");
    reveal_strlit("&lt;");
    reveal_strlit("&gt;");
    reveal_strlit("&quot;");
    reveal_strlit("&#39;");
    reveal_strlit("&apos;");
    reveal_strlit("&mdash;");
}

/// A text with its entities replaced by what they stand for, in one pass from left to right, so
/// that what an entity stands for is never taken for an entity again.
pub open spec fn decoded(s: Seq<char>, dash: bool) -> Seq<char>
    decreases s.len(),
    via decoded_decreases
{
    if s.len() == 0 {
        Seq::empty()
    } else {
        match entity(s, dash) {
            Some((n, c)) => seq![c] + decoded(s.skip(n), dash),
            None => seq![s[0]] + decoded(s.drop_first(), dash),
        }
    }
}

#[via_fn]
proof fn decoded_decreases(s: Seq<char>, dash: bool) {
    lemma_entity(s, dash);
}

fn entity_at(s: &[char], dash: bool) -> (r: Option<(usize, char)>)
    ensures
        match r {
            Some((n, c)) => entity(s@, dash) == Some((n as int, c)) && 0 < n <= s.len(),
            None => entity(s@, dash) is None,
        },
{
    proof {
        lemma_entity(s@, dash);
    }
    if starts_with(s, "&nbsp;") {
        Some((6, ' '))
    } else if starts_with(s, "&amp;") {
        Some((5, '&'))
    } else if starts_with(s, "&lt;") {
        Some((4, '<'))
    } else if starts_with(s, "&gt;") {
        Some((4, '>'))
    } else if starts_with(s, "&quot;") {
        Some((6, '"'))
    } else if starts_with(s, "&#39;") {
        Some((5, '\''))
    } else if starts_with(s, "&apos;") {
        Some((6, '\''))
    } else if dash && starts_with(s, "&mdash;") {
        Some((7, '-'))
    } else {
        None
    }
}

proof fn lemma_entity_starts(s: Seq<char>, dash: bool)
    requires
        s.len() > 0,
        s[0] != '&',
    ensures
        entity(s, dash) is None,
{
    lemma_entity(s, dash);
    reveal_strlit("&nbsp;");
    reveal_strlit("&amp;");
    reveal_strlit("&lt;");
    reveal_strlit("&gt;");
    reveal_strlit("&quot;");
    reveal_strlit("&#39;");
    reveal_strlit("&apos;");
    reveal_strlit("&mdash;");
    assert(forall|p: Seq<char>| p.len() > 0 && p[0] == '&' ==> !#[trigger] p.is_prefix_of(s)) by {
        assert forall|p: Seq<char>| p.len() > 0 && p[0] == '&' implies !#[trigger] p.is_prefix_of(
            s,
        ) by {
            if p.is_prefix_of(s) {
                assert(s.subrange(0, p.len() as int)[0] == s[0]);
            }
        }
    }
}

/// Decodes the handful of HTML entities that are common in text; `dash` adds `&mdash;`.
pub fn decode_entities(s: &[char], dash: bool) -> (r: Vec<char>)
    ensures
        r@ == decoded(s@, dash),
{
    let mut out: Vec<char> = Vec::new();
    let mut i: usize = 0;
    assert(s@.skip(0) =~= s@);
    assert(out@ + decoded(s@, dash) =~= decoded(s@, dash));
    while i < s.len()
        invariant
            i <= s.len(),
            out@ + decoded(s@.skip(i as int), dash) == decoded(s@, dash),
        decreases s.len() - i,
    {
        let ghost t = s@.skip(i as int);
        let ghost before = out@;
        assert(t[0] == s@[i as int]);
        let found = if s[i] == '&' {
            let rest = slice_subrange(s, i, s.len());
            assert(rest@ =~= t);
            entity_at(rest, dash)
        } else {
            proof {
                lemma_entity_starts(t, dash);
            }
            None
        };
        match found {
            Some((n, c)) => {
                out.push(c);
                assert(t.skip(n as int) =~= s@.skip(i + n));
                assert(out@ + decoded(s@.skip(i + n), dash) =~= before + decoded(t, dash));
                i += n;
            },
            None => {
                out.push(s[i]);
                assert(t.drop_first() =~= s@.skip(i + 1));
                assert(out@ + decoded(s@.skip(i + 1), dash) =~= before + decoded(t, dash));
                i += 1;
            },
        }
    }
    assert(s@.skip(s@.len() as int) =~= Seq::empty());
    assert(out@ + decoded(Seq::<char>::empty(), dash) =~= out@);
    out
}

/// The words of a text with one space between two.
pub open spec fn spaced(s: Seq<char>) -> Seq<char> {
    joined(words_of(s), seq![' '])
}

/// Collapses runs of whitespace into single spaces and trims.
pub fn collapse(s: &[char]) -> (r: Vec<char>)
    ensures
        r@ == spaced(s@),
{
    let words = split_whitespace(s);
    let mut sep: Vec<char> = Vec::new();
    sep.push(' ');
    assert(sep@ =~= seq![' ']);
    join_runs(words.as_slice(), sep.as_slice())
}

/// Where a `<tag ...>` block that starts at `pos` ends: behind its closing tag, or at the end of
/// the text. None where no such tag starts there.
pub open spec fn raw_block_end(
    lower: Seq<char>,
    pos: int,
    open: Seq<char>,
    close: Seq<char>,
) -> Option<int> {
    let rest = lower.skip(pos);
    if !open.is_prefix_of(rest) {
        None
    } else if rest.len() > open.len() && !(is_white(rest[open.len() as int]) || rest[open.len() as int]
        == '>' || rest[open.len() as int] == '/') {
        None
    } else {
        match found_from(lower, close, pos) {
            Some(at) => Some(at + close.len()),
            None => Some(lower.len() as int),
        }
    }
}

/// Where a script or style block that starts at `pos` ends.
pub open spec fn skipped_block(lower: Seq<char>, pos: int) -> Option<int> {
    match raw_block_end(lower, pos, "<script"@, "</script>"@) {
        Some(e) => Some(e),
        None => raw_block_end(lower, pos, "<style"@, "</style>"@),
    }
}

/// A page from `i` on without tags and without the contents of scripts and styles; each of them
/// leaves a space. An unterminated tag ends the text.
pub open spec fn untagged(s: Seq<char>, lower: Seq<char>, i: int) -> Seq<char>
    decreases s.len() - i,
{
    if i < 0 || i >= s.len() {
        Seq::empty()
    } else if s[i] != '<' {
        seq![s[i]] + untagged(s, lower, i + 1)
    } else {
        match skipped_block(lower, i) {
            Some(e) => if i < e <= s.len() {
                seq![' '] + untagged(s, lower, e)
            } else {
                Seq::empty()
            },
            None => match found_from(s, seq!['>'], i) {
                Some(at) => if i <= at < s.len() {
                    seq![' '] + untagged(s, lower, at + 1)
                } else {
                    Seq::empty()
                },
                None => Seq::empty(),
            },
        }
    }
}

/// The text of a page, stripped of its markup.
pub open spec fn stripped(s: Seq<char>) -> Seq<char> {
    spaced(decoded(untagged(s, ascii_lowercase(s), 0), true))
}

/// Where a `<tag ...>` block that starts at `pos` ends. Used to drop the whole body of a script
/// or a style.
pub fn skip_raw_block(lower: &[char], pos: usize, open: &str, close: &str) -> (r: Option<usize>)
    requires
        pos < lower.len(),
        close@.len() > 0,
    ensures
        opt_int(r) == raw_block_end(lower@, pos as int, open@, close@),
        r is Some ==> pos < r.unwrap() <= lower.len(),
{
    let rest = slice_subrange(lower, pos, lower.len());
    assert(rest@ =~= lower@.skip(pos as int));
    if !starts_with(rest, open) {
        return None;
    }
    let n: usize = chars_of(open).len();
    if rest.len() > n {
        let c = rest[n];
        if !(is_whitespace(c) || c == '>' || c == '/') {
            return None;
        }
    }
    match find_from(lower, close, pos) {
        Some(at) => {
            let m: usize = chars_of(close).len();
            Some(at + m)
        },
        None => Some(lower.len()),
    }
}

/// Strips a page to text, dropping the contents of scripts and styles entirely. Decodes common
/// entities and collapses whitespace.
pub fn strip_html(html: &str) -> (r: String)
    ensures
        r@ == stripped(html@),
{
    let s = chars_of(html);
    let lower = lower_ascii(s.as_slice());
    let mut out: Vec<char> = Vec::new();
    let mut i: usize = 0;
    proof {
        reveal_strlit("</script>");
        reveal_strlit("</style>");
        reveal_strlit(">");
        assert(">"@ =~= seq!['>']);
        assert(out@ + untagged(s@, lower@, 0) =~= untagged(s@, lower@, 0));
    }
    let mut ended = false;
    while i < s.len() && !ended
        invariant
            i <= s.len(),
            s@ == html@,
            lower@ == ascii_lowercase(s@),
            lower@.len() == s@.len(),
            "</script>"@.len() > 0,
            "</style>"@.len() > 0,
            ">"@ == seq!['>'],
            ended ==> out@ == untagged(s@, lower@, 0),
            !ended ==> out@ + untagged(s@, lower@, i as int) == untagged(s@, lower@, 0),
        decreases s.len() - i + (if ended { 0int } else { 1int }),
    {
        let ghost before = out@;
        if s[i] != '<' {
            out.push(s[i]);
            assert(out@ + untagged(s@, lower@, i + 1) =~= before + untagged(s@, lower@, i as int));
            i += 1;
        } else {
            let block = match skip_raw_block(lower.as_slice(), i, "<script", "</script>") {
                Some(e) => Some(e),
                None => skip_raw_block(lower.as_slice(), i, "<style", "</style>"),
            };
            match block {
                Some(e) => {
                    out.push(' ');
                    assert(out@ + untagged(s@, lower@, e as int) =~= before + untagged(
                        s@,
                        lower@,
                        i as int,
                    ));
                    i = e;
                },
                None => match find_from(s.as_slice(), ">", i) {
                    Some(at) => {
                        out.push(' ');
                        assert(out@ + untagged(s@, lower@, at + 1) =~= before + untagged(
                            s@,
                            lower@,
                            i as int,
                        ));
                        i = at + 1;
                    },
                    None => {
                        assert(before + untagged(s@, lower@, i as int) =~= before);
                        ended = true;
                    },
                },
            }
        }
    }
    assert(!ended ==> out@ + untagged(s@, lower@, s@.len() as int) =~= out@);
    let plain = decode_entities(out.as_slice(), true);
    string_of(collapse(plain.as_slice()).as_slice())
}

/// A stripped page, cut to the characters that are kept.
pub open spec fn stripped_capped(s: Seq<char>) -> Seq<char> {
    let t = stripped(s);
    if t.len() > MAX_STRIP_CHARS {
        t.take(MAX_STRIP_CHARS as int)
    } else {
        t
    }
}

/// Strips a page to text and caps its length.
pub fn strip_and_cap(html: &str) -> (r: String)
    ensures
        r@ == stripped_capped(html@),
{
    let text = strip_html(html);
    let chars = chars_of(text.as_str());
    if chars.len() > MAX_STRIP_CHARS {
        let head = slice_subrange(chars.as_slice(), 0, MAX_STRIP_CHARS);
        assert(head@ =~= text@.take(MAX_STRIP_CHARS as int));
        string_of(head)
    } else {
        text
    }
}

/// The article's text, cleaned up; none where nothing is left.
pub open spec fn readable(article: Option<Seq<char>>) -> Option<Seq<char>> {
    match article {
        Some(text) => if trimmed(cleaned(text)).len() > 0 {
            Some(trimmed(cleaned(text)))
        } else {
            None
        },
        None => None,
    }
}

/// The outcome for a page, given the text of the article that was found in it.
pub open spec fn page_outcome(html: Seq<char>, article: Option<Seq<char>>, source: Seq<char>) -> OutcomeView {
    let fallback = stripped_capped(html);
    match readable(article) {
        Some(text) if text.len() >= MIN_PLAUSIBLE_CHARS => OutcomeView {
            status: ExtractStatus::Complete,
            text,
            detail: source + ": extracted (readability)"@,
        },
        _ => if fallback.len() < MIN_PLAUSIBLE_CHARS {
            OutcomeView {
                status: ExtractStatus::Suspicious,
                text: fallback,
                detail: source + ": low text volume ("@ + decimal(fallback.len())
                    + " chars, fallback strip)"@,
            }
        } else {
            OutcomeView {
                status: ExtractStatus::Complete,
                text: fallback,
                detail: source + ": extracted (fallback strip)"@,
            }
        },
    }
}

/// Classifies a page, given the text of the article that was found in it. If there is none, or
/// implausibly little, the whole page is stripped of its markup instead.
pub fn outcome_for_article(html: &str, article: Option<String>, source: &str) -> (r: ExtractOutcome)
    ensures
        r@ == page_outcome(html@, opt_text(article), source@),
{
    if let Some(text) = article {
        let tidy = clean_text(text.as_str());
        let chars = chars_of(tidy.as_str());
        let kept = trim(chars.as_slice());
        if kept.len() > 0 && kept.len() >= MIN_PLAUSIBLE_CHARS {
            return ExtractOutcome {
                status: ExtractStatus::Complete,
                text: string_of(kept),
                detail: concat2(source, ": extracted (readability)"),
            };
        }
    }
    let fallback = strip_and_cap(html);
    let n: usize = chars_of(fallback.as_str()).len();
    if n < MIN_PLAUSIBLE_CHARS {
        let mut detail = concat2(source, ": low text volume (");
        push_decimal(&mut detail, n as u64);
        detail.push_str(" chars, fallback strip)");
        return ExtractOutcome { status: ExtractStatus::Suspicious, text: fallback, detail };
    }
    ExtractOutcome {
        status: ExtractStatus::Complete,
        text: fallback,
        detail: concat2(source, ": extracted (fallback strip)"),
    }
}

/// The outcome for a saved page that is too large; none for one that is not.
pub fn oversized(bytes: u64, source: &str) -> (r: Option<ExtractOutcome>)
    ensures
        match r {
            Some(o) => bytes > MAX_HTML_BYTES && o@ == failure(
                source@ + ": too large ("@ + decimal((bytes / 1_048_576) as nat)
                    + " MB > 12 MB limit)"@,
            ),
            None => bytes <= MAX_HTML_BYTES,
        },
{
    if bytes > MAX_HTML_BYTES {
        let mut detail = concat2(source, ": too large (");
        push_decimal(&mut detail, bytes / 1_048_576);
        detail.push_str(" MB > 12 MB limit)");
        Some(failed(detail))
    } else {
        None
    }
}

/// The outcome for a saved page that holds nothing; none for one that does.
pub fn blank(html: &str, source: &str) -> (r: Option<ExtractOutcome>)
    ensures
        match r {
            Some(o) => trimmed(html@).len() == 0 && o@ == failure(source@ + ": empty file"@),
            None => trimmed(html@).len() > 0,
        },
{
    let chars = chars_of(html);
    if trim(chars.as_slice()).len() == 0 {
        Some(failed(concat2(source, ": empty file")))
    } else {
        None
    }
}

} // verus!
