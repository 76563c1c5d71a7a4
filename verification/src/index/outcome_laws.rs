//! What is taken out of PDF files, saved pages and notes.
use crate::commands::note_text::cut_to_bytes;
use crate::commands::note_text::tag_state;
use crate::index::html::decoded;
use crate::index::html::entity;
use crate::index::html::page_outcome;
use crate::index::html::raw_block_end;
use crate::index::html::stripped_capped;
use crate::index::html::untagged;
use crate::index::pdf::cleaned;
use crate::index::pdf::full_lines;
use crate::index::pdf::lost_pages;
use crate::index::pdf::outcome_of;
use crate::index::pdf::read_pages;
use crate::index::pdf::within_bytes;
use crate::index::pdf::without_nul;
use crate::index::pdf::ExtractStatus;
use crate::index::pdf::WorkerReport;
use crate::lines::byte_len;
use crate::text::found_from;
use crate::text::trimmed;
use vstd::prelude::*;

verus! {

/// What the pages of a PDF come to: it failed where it did not open or yielded no text; it is partial
/// where some pages were lost; with more than two pages and fewer than 200 characters a page it is
/// suspicious; else it is complete. The text is that of the report, unless it failed.
pub proof fn law_pdf_outcome(report: WorkerReport)
    requires
        report.failed_pages@.len() <= report.page_count,
        byte_len(report.text@) <= 2_097_152,
    ensures
        ({
            let o = outcome_of(report);
            let pages = report.page_count as int;
            let lost = report.failed_pages@.len();
            let hopeless = report.document_error is Some || trimmed(report.text@).len() == 0
                || lost == pages;
            let thin = pages > 2 && report.text@.len() < 200 * pages;
            &&& o.status == ExtractStatus::Failed <==> hopeless
            &&& o.status == ExtractStatus::Partial <==> !hopeless && lost > 0
            &&& o.status == ExtractStatus::Suspicious <==> !hopeless && lost == 0 && thin
            &&& o.status == ExtractStatus::Complete <==> !hopeless && lost == 0 && !thin
            &&& !hopeless ==> o.text == report.text@
            &&& o.detail.len() == 0 <==> o.status == ExtractStatus::Complete
        }),
{
    reveal_strlit("malformed PDF: ");
    reveal_strlit("malformed PDF: no extractable text");
    reveal_strlit("malformed PDF: all ");
    reveal_strlit("extracted ");
    reveal_strlit("low text volume: ");
    assert(within_bytes(report.text@, 2_097_152) == report.text@);
}

/// A text that is cut to a number of bytes is the longest start of it that fits.
pub proof fn law_cut_is_the_longest_that_fits(s: Seq<char>, max: int)
    requires
        max >= 0,
    ensures
        within_bytes(s, max).is_prefix_of(s),
        byte_len(within_bytes(s, max)) <= max,
        within_bytes(s, max).len() < s.len() ==> byte_len(
            s.take(within_bytes(s, max).len() as int + 1),
        ) > max,
    decreases s.len(),
{
    if s.len() > 0 && byte_len(s) > max {
        let t = s.drop_last();
        law_cut_is_the_longest_that_fits(t, max);
        let w = within_bytes(t, max);
        assert(w =~= s.subrange(0, w.len() as int)) by {
            assert(t.subrange(0, w.len() as int) == w);
            assert(t.subrange(0, w.len() as int) =~= s.subrange(0, w.len() as int));
        }
        if w.len() < t.len() {
            assert(s.take(w.len() as int + 1) =~= t.take(w.len() as int + 1));
        } else {
            assert(s.take(w.len() as int + 1) =~= s);
        }
    } else {
        assert(s.subrange(0, s.len() as int) =~= s);
    }
}

/// A text that fits is shown whole; one that does not is cut and marked so.
pub proof fn law_truncation_is_marked(s: Seq<char>, max: int)
    requires
        max >= 0,
    ensures
        byte_len(s) <= max ==> cut_to_bytes(s, max) == s,
        byte_len(s) > max ==> cut_to_bytes(s, max) == within_bytes(s, max) + "..."@,
{
}

/// The pages that are reported as lost are exactly those without a text, counted from one.
pub proof fn law_lost_pages(pages: Seq<Option<String>>, p: int)
    ensures
        lost_pages(pages).contains(p) <==> 1 <= p <= pages.len() && pages[p - 1] is None,
        lost_pages(pages).len() + read_pages(pages).len() == pages.len(),
    decreases pages.len(),
{
    if pages.len() > 0 {
        let t = pages.drop_last();
        law_lost_pages(t, p);
        let head = lost_pages(t);
        let all = lost_pages(pages);
        assert(pages[pages.len() - 1] == pages.last());
        if 1 <= p < pages.len() {
            assert(t[p - 1] == pages[p - 1]);
        }
        if head.contains(p) {
            let k = choose|k: int| 0 <= k < head.len() && head[k] == p;
            assert(all[k] == p);
        }
        if all.contains(p) {
            let k = choose|k: int| 0 <= k < all.len() && all[k] == p;
            if k < head.len() {
                assert(head[k] == p);
            }
        }
        if pages.last() is None {
            assert(all[all.len() - 1] == pages.len());
        }
    }
}

/// The text of every page that was read is among what is put together.
pub proof fn law_read_pages_are_kept(pages: Seq<Option<String>>, p: int)
    requires
        0 <= p < pages.len(),
        pages[p] is Some,
    ensures
        read_pages(pages).contains(pages[p].unwrap()@),
    decreases pages.len(),
{
    let t = pages.drop_last();
    let head = read_pages(t);
    let all = read_pages(pages);
    if p < t.len() {
        law_read_pages_are_kept(t, p);
        let k = choose|k: int| 0 <= k < head.len() && head[k] == t[p].unwrap()@;
        assert(all[k] == pages[p].unwrap()@);
    } else {
        assert(all[all.len() - 1] == pages[p].unwrap()@);
    }
}

/// Cleaning takes out null characters and nothing else of a line.
pub proof fn law_null_characters_go(s: Seq<char>, c: char)
    ensures
        without_nul(s).contains(c) <==> s.contains(c) && c != '\u{0}',
        !s.contains('\u{0}') ==> without_nul(s) == s,
    decreases s.len(),
{
    if s.len() > 0 {
        let t = s.drop_last();
        law_null_characters_go(t, c);
        law_null_characters_go(t, '\u{0}');
        let head = without_nul(t);
        let all = without_nul(s);
        assert(s[s.len() - 1] == s.last());
        if s.contains(c) {
            let i = choose|i: int| 0 <= i < s.len() && s[i] == c;
            if i < t.len() {
                assert(t[i] == c);
            }
        }
        if t.contains(c) {
            let i = choose|i: int| 0 <= i < t.len() && t[i] == c;
            assert(s[i] == c);
        }
        if head.contains(c) {
            let i = choose|i: int| 0 <= i < head.len() && head[i] == c;
            assert(all[i] == c);
        }
        if all.contains(c) {
            let i = choose|i: int| 0 <= i < all.len() && all[i] == c;
            if i < head.len() {
                assert(head[i] == c);
            }
        }
        if c == s.last() && c != '\u{0}' {
            assert(all[all.len() - 1] == c);
        }
        if t.contains('\u{0}') {
            let i = choose|i: int| 0 <= i < t.len() && t[i] == '\u{0}';
            assert(s[i] == '\u{0}');
        }
        if !s.contains('\u{0}') {
            assert(!t.contains('\u{0}'));
            assert(t.push(s.last()) =~= s);
        }
    } else {
        assert(without_nul(s) =~= s);
    }
}

/// Of some lines, every one that is not blank is kept, without the whitespace around it, and no blank
/// one.
pub proof fn law_full_lines_are_kept(l: Seq<Seq<char>>, x: Seq<char>)
    ensures
        full_lines(l).contains(x) <==> x.len() > 0 && exists|i: int|
            0 <= i < l.len() && trimmed(#[trigger] l[i]) == x,
    decreases l.len(),
{
    if l.len() > 0 {
        let t = l.drop_last();
        law_full_lines_are_kept(t, x);
        let head = full_lines(t);
        let all = full_lines(l);
        assert(l[l.len() - 1] == l.last());
        if exists|i: int| 0 <= i < t.len() && trimmed(#[trigger] t[i]) == x {
            let i = choose|i: int| 0 <= i < t.len() && trimmed(#[trigger] t[i]) == x;
            assert(trimmed(l[i]) == x);
        }
        if exists|i: int| 0 <= i < l.len() && trimmed(#[trigger] l[i]) == x {
            let i = choose|i: int| 0 <= i < l.len() && trimmed(#[trigger] l[i]) == x;
            if i < t.len() {
                assert(trimmed(t[i]) == x);
            }
        }
        if head.contains(x) {
            let k = choose|k: int| 0 <= k < head.len() && head[k] == x;
            assert(all[k] == x);
        }
        if all.contains(x) {
            let k = choose|k: int| 0 <= k < all.len() && all[k] == x;
            if k < head.len() {
                assert(head[k] == x);
            }
        }
        if x == trimmed(l.last()) && x.len() > 0 {
            assert(all[all.len() - 1] == x);
        }
    }
}

/// The outcome of a saved page: what the reader makes of it where that has 250 characters, else what
/// is left of the page without its tags, which is suspicious where that has fewer.
pub proof fn law_page_outcome(html: Seq<char>, article: Option<Seq<char>>, source: Seq<char>)
    ensures
        ({
            let o = page_outcome(html, article, source);
            let good = article is Some && trimmed(cleaned(article.unwrap())).len() >= 250;
            &&& good ==> o.status == ExtractStatus::Complete && o.text == trimmed(
                cleaned(article.unwrap()),
            )
            &&& !good ==> o.text == stripped_capped(html)
            &&& !good ==> (o.status == ExtractStatus::Complete <==> stripped_capped(html).len()
                >= 250)
            &&& o.status == ExtractStatus::Complete || o.status == ExtractStatus::Suspicious
            &&& source.is_prefix_of(o.detail)
        }),
{
    let o = page_outcome(html, article, source);
    assert(o.detail.subrange(0, source.len() as int) =~= source);
}

proof fn lemma_entity_first(s: Seq<char>, dash: bool)
    requires
        s.len() > 0,
        s[0] != '&',
    ensures
        entity(s, dash) is None,
{
    reveal_strlit("&nbsp;");
    reveal_strlit("&amp;");
    reveal_strlit("&lt;");
    reveal_strlit("&gt;");
    reveal_strlit("&quot;");
    reveal_strlit("&#39;");
    reveal_strlit("&apos;");
    reveal_strlit("&mdash;");
    crate::api::laws::lemma_no_prefix(s, "&nbsp;"@);
    crate::api::laws::lemma_no_prefix(s, "&amp;"@);
    crate::api::laws::lemma_no_prefix(s, "&lt;"@);
    crate::api::laws::lemma_no_prefix(s, "&gt;"@);
    crate::api::laws::lemma_no_prefix(s, "&quot;"@);
    crate::api::laws::lemma_no_prefix(s, "&#39;"@);
    crate::api::laws::lemma_no_prefix(s, "&apos;"@);
    crate::api::laws::lemma_no_prefix(s, "&mdash;"@);
}

/// A text without `&` is decoded to itself.
pub proof fn law_plain_text_is_not_decoded(s: Seq<char>, dash: bool)
    requires
        !s.contains('&'),
    ensures
        decoded(s, dash) == s,
    decreases s.len(),
{
    if s.len() > 0 {
        assert(s.contains(s[0]));
        lemma_entity_first(s, dash);
        let t = s.drop_first();
        assert(!t.contains('&')) by {
            if t.contains('&') {
                let i = choose|i: int| 0 <= i < t.len() && t[i] == '&';
                assert(s[i + 1] == '&');
            }
        }
        law_plain_text_is_not_decoded(t, dash);
        assert(seq![s[0]] + t =~= s);
    } else {
        assert(decoded(s, dash) =~= s);
    }
}

/// A text without tags is left alone by the removal of tags, in pages and in notes.
pub proof fn law_text_without_tags_stays(s: Seq<char>, lower: Seq<char>, i: int)
    requires
        0 <= i <= s.len(),
        !s.contains('<'),
    ensures
        untagged(s, lower, i) == s.skip(i),
    decreases s.len() - i,
{
    if i < s.len() {
        assert(s.contains(s[i]));
        law_text_without_tags_stays(s, lower, i + 1);
        assert(seq![s[i]] + s.skip(i + 1) =~= s.skip(i));
    } else {
        assert(s.skip(i) =~= Seq::empty());
    }
}

/// Nothing that is left of a page starts a tag.
pub proof fn law_no_tag_is_left(s: Seq<char>, lower: Seq<char>, i: int)
    ensures
        !untagged(s, lower, i).contains('<'),
    decreases s.len() - i,
{
    let all = untagged(s, lower, i);
    if 0 <= i < s.len() {
        if s[i] != '<' {
            law_no_tag_is_left(s, lower, i + 1);
            lemma_no_tag_push(s[i], untagged(s, lower, i + 1));
        } else {
            match crate::index::html::skipped_block(lower, i) {
                Some(e) => {
                    if i < e <= s.len() {
                        law_no_tag_is_left(s, lower, e);
                        lemma_no_tag_push(' ', untagged(s, lower, e));
                    }
                },
                None => {
                    if let Some(at) = found_from(s, seq!['>'], i) {
                        if i <= at < s.len() {
                            law_no_tag_is_left(s, lower, at + 1);
                            lemma_no_tag_push(' ', untagged(s, lower, at + 1));
                        }
                    }
                },
            }
        }
    }
}

proof fn lemma_no_tag_push(c: char, t: Seq<char>)
    requires
        c != '<',
        !t.contains('<'),
    ensures
        !(seq![c] + t).contains('<'),
{
    let all = seq![c] + t;
    if all.contains('<') {
        let k = choose|k: int| 0 <= k < all.len() && all[k] == '<';
        assert(t[k - 1] == '<');
    }
}

/// A script or style block goes up to the end of its closing tag, and to the end of the page where it
/// has none.
pub proof fn law_raw_block_goes_whole(
    lower: Seq<char>,
    pos: int,
    open: Seq<char>,
    close: Seq<char>,
)
    requires
        0 <= pos,
        open.len() > 0,
        pos + open.len() < lower.len(),
        lower.subrange(pos, pos + open.len()) == open,
        lower[pos + open.len()] == '>',
    ensures
        raw_block_end(lower, pos, open, close) == Some(
            match found_from(lower, close, pos) {
                Some(at) => at + close.len(),
                None => lower.len() as int,
            },
        ),
{
    let rest = lower.skip(pos);
    assert(rest.subrange(0, open.len() as int) =~= open);
    assert(rest[open.len() as int] == '>');
}

/// What a note says outside of its tags is kept, and nothing within them is.
pub proof fn law_note_without_tags_stays(s: Seq<char>)
    requires
        !s.contains('<'),
        !s.contains('>'),
    ensures
        tag_state(s) == (s, false),
    decreases s.len(),
{
    if s.len() > 0 {
        let t = s.drop_last();
        assert(s.contains(s[s.len() - 1]));
        assert(!t.contains('<') && !t.contains('>')) by {
            if t.contains('<') {
                let i = choose|i: int| 0 <= i < t.len() && t[i] == '<';
                assert(s[i] == '<');
            }
            if t.contains('>') {
                let i = choose|i: int| 0 <= i < t.len() && t[i] == '>';
                assert(s[i] == '>');
            }
        }
        law_note_without_tags_stays(t);
        assert(t.push(s.last()) =~= s);
    } else {
        assert(tag_state(s).0 =~= s);
    }
}

/// A tag in a note is taken for one space.
pub proof fn law_note_tag_becomes_a_space(a: Seq<char>, tag: Seq<char>)
    requires
        !tag_state(a).1,
        !tag.contains('<'),
        !tag.contains('>'),
    ensures
        tag_state(a.push('<') + tag) == (tag_state(a).0, true),
        tag_state((a.push('<') + tag).push('>')) == (tag_state(a).0.push(' '), false),
    decreases tag.len(),
{
    let s = a.push('<') + tag;
    assert(s.push('>').drop_last() =~= s);
    if tag.len() == 0 {
        assert(s =~= a.push('<'));
        assert(s.drop_last() =~= a);
    } else {
        let t = tag.drop_last();
        assert(!t.contains('<') && !t.contains('>')) by {
            if t.contains('<') {
                let i = choose|i: int| 0 <= i < t.len() && t[i] == '<';
                assert(tag[i] == '<');
            }
            if t.contains('>') {
                let i = choose|i: int| 0 <= i < t.len() && t[i] == '>';
                assert(tag[i] == '>');
            }
        }
        law_note_tag_becomes_a_space(a, t);
        assert(s.drop_last() =~= a.push('<') + t);
        assert(tag.contains(tag[tag.len() - 1]));
        assert(s.last() == tag.last());
    }
}

proof fn lemma_starts(p: Seq<char>, s: Seq<char>)
    ensures
        p.is_prefix_of(p + s),
        (p + s).skip(p.len() as int) == s,
        forall|i: int| 0 <= i < p.len() ==> (p + s)[i] == p[i],
{
    assert((p + s).subrange(0, p.len() as int) =~= p);
    assert((p + s).skip(p.len() as int) =~= s);
}

proof fn lemma_not_start(s: Seq<char>, q: Seq<char>, i: int)
    requires
        0 <= i < q.len(),
        i < s.len() ==> s[i] != q[i],
    ensures
        !q.is_prefix_of(s),
{
    if q.is_prefix_of(s) {
        assert(s.subrange(0, q.len() as int)[i] == s[i]);
    }
}

/// The entities that pages and notes are full of stand for one character each, and what follows them
/// is decoded by itself.
pub proof fn law_entities(s: Seq<char>, dash: bool)
    ensures
        decoded("&amp;"@ + s, dash) == seq!['&'] + decoded(s, dash),
        decoded("&lt;"@ + s, dash) == seq!['<'] + decoded(s, dash),
        decoded("&gt;"@ + s, dash) == seq!['>'] + decoded(s, dash),
        decoded("&nbsp;"@ + s, dash) == seq![' '] + decoded(s, dash),
        decoded("&quot;"@ + s, dash) == seq!['"'] + decoded(s, dash),
{
    reveal_strlit("&nbsp;");
    reveal_strlit("&amp;");
    reveal_strlit("&lt;");
    reveal_strlit("&gt;");
    reveal_strlit("&quot;");
    lemma_starts("&nbsp;"@, s);
    lemma_starts("&amp;"@, s);
    lemma_starts("&lt;"@, s);
    lemma_starts("&gt;"@, s);
    lemma_starts("&quot;"@, s);
    lemma_not_start("&amp;"@ + s, "&nbsp;"@, 1);
    lemma_not_start("&lt;"@ + s, "&nbsp;"@, 1);
    lemma_not_start("&lt;"@ + s, "&amp;"@, 1);
    lemma_not_start("&gt;"@ + s, "&nbsp;"@, 1);
    lemma_not_start("&gt;"@ + s, "&amp;"@, 1);
    lemma_not_start("&gt;"@ + s, "&lt;"@, 1);
    lemma_not_start("&quot;"@ + s, "&nbsp;"@, 1);
    lemma_not_start("&quot;"@ + s, "&amp;"@, 1);
    lemma_not_start("&quot;"@ + s, "&lt;"@, 1);
    lemma_not_start("&quot;"@ + s, "&gt;"@, 1);
}

/// Both ways of writing an apostrophe are decoded.
pub proof fn law_apostrophes(s: Seq<char>, dash: bool)
    ensures
        decoded("&#39;"@ + s, dash) == seq!['\''] + decoded(s, dash),
        decoded("&apos;"@ + s, dash) == seq!['\''] + decoded(s, dash),
{
    reveal_strlit("&nbsp;");
    reveal_strlit("&amp;");
    reveal_strlit("&lt;");
    reveal_strlit("&gt;");
    reveal_strlit("&quot;");
    reveal_strlit("&#39;");
    reveal_strlit("&apos;");
    let a = "&#39;"@ + s;
    let b = "&apos;"@ + s;
    lemma_starts("&#39;"@, s);
    lemma_starts("&apos;"@, s);
    lemma_not_start(a, "&nbsp;"@, 1);
    lemma_not_start(a, "&amp;"@, 1);
    lemma_not_start(a, "&lt;"@, 1);
    lemma_not_start(a, "&gt;"@, 1);
    lemma_not_start(a, "&quot;"@, 1);
    lemma_not_start(b, "&nbsp;"@, 1);
    lemma_not_start(b, "&amp;"@, 2);
    lemma_not_start(b, "&lt;"@, 1);
    lemma_not_start(b, "&gt;"@, 1);
    lemma_not_start(b, "&quot;"@, 1);
    lemma_not_start(b, "&#39;"@, 1);
}

/// What is decoded is not decoded again: an escaped entity comes out as the entity.
pub proof fn law_decoding_is_done_once(s: Seq<char>, dash: bool)
    requires
        !s.contains('&'),
    ensures
        decoded("&amp;"@ + ("lt;"@ + s), dash) == "&lt;"@ + s,
{
    reveal_strlit("lt;");
    reveal_strlit("&lt;");
    let rest = "lt;"@ + s;
    assert(!rest.contains('&')) by {
        if rest.contains('&') {
            let i = choose|i: int| 0 <= i < rest.len() && rest[i] == '&';
            if i >= 3 {
                assert(s[i - 3] == '&');
            }
        }
    }
    law_entities(rest, dash);
    law_plain_text_is_not_decoded(rest, dash);
    assert(seq!['&'] + rest =~= "&lt;"@ + s);
}

} // verus!
