//! The text of notes, and short texts for lists.
use crate::index::html::collapse;
use crate::index::html::decode_entities;
use crate::index::html::decoded;
use crate::index::html::spaced;
use crate::index::pdf::fitting;
use crate::index::pdf::within_bytes;
use crate::index::pdf::ExtractOutcome;
use crate::index::pdf::ExtractStatus;
use crate::index::pdf::OutcomeView;
use crate::lines::byte_len;
use crate::text::chars_of;
use crate::text::is_empty;
use crate::text::string_of;
use vstd::prelude::*;
use vstd::slice::slice_subrange;

verus! {

/// What is kept of a text without its tags, and whether it ends inside a tag. A closed tag leaves
/// a space, so that words do not run together.
pub open spec fn tag_state(s: Seq<char>) -> (Seq<char>, bool)
    decreases s.len(),
{
    if s.len() == 0 {
        (Seq::empty(), false)
    } else {
        let (out, inside) = tag_state(s.drop_last());
        if s.last() == '<' {
            (out, true)
        } else if s.last() == '>' {
            (out.push(' '), false)
        } else if inside {
            (out, true)
        } else {
            (out.push(s.last()), false)
        }
    }
}

/// The text of a note: without tags, with common entities decoded and whitespace collapsed.
pub open spec fn note_text(s: Seq<char>) -> Seq<char> {
    spaced(decoded(tag_state(s).0, false))
}

/// Minimal HTML-to-text: drops tags, decodes a small set of common entities, and collapses
/// whitespace. Good enough for Zotero note bodies, which are simple formatted HTML.
pub fn strip_html(html: &str) -> (r: String)
    ensures
        r@ == note_text(html@),
{
    string_of(plain_note(&chars_of(html)).as_slice())
}

/// The text of a note, as characters.
pub fn plain_note(s: &[char]) -> (r: Vec<char>)
    ensures
        r@ == note_text(s@),
{
    let mut out: Vec<char> = Vec::new();
    let mut inside = false;
    let mut i: usize = 0;
    while i < s.len()
        invariant
            i <= s.len(),
            tag_state(s@.take(i as int)) == (out@, inside),
        decreases s.len() - i,
    {
        assert(s@.take(i as int + 1).drop_last() =~= s@.take(i as int));
        let c = s[i];
        if c == '<' {
            inside = true;
        } else if c == '>' {
            inside = false;
            out.push(' ');
        } else if !inside {
            out.push(c);
        }
        i += 1;
    }
    assert(s@.take(s@.len() as int) =~= s@);
    let plain = decode_entities(out.as_slice(), false);
    collapse(plain.as_slice())
}

/// The outcome for an item that has nothing to extract.
pub open spec fn nothing_attached(detail: Seq<char>) -> OutcomeView {
    OutcomeView { status: ExtractStatus::NoAttachment, text: Seq::empty(), detail }
}

/// The outcome for an item that has nothing to extract.
pub fn no_attachment(detail: &str) -> (r: ExtractOutcome)
    ensures
        r@ == nothing_attached(detail@),
{
    ExtractOutcome {
        status: ExtractStatus::NoAttachment,
        text: String::new(),
        detail: detail.to_string(),
    }
}

/// Turns a note's HTML body into an extraction outcome. An empty note is recorded as having
/// nothing attached, so that it does not remain unknown.
pub fn note_outcome(note_html: &str) -> (r: ExtractOutcome)
    ensures
        r@ == if note_text(note_html@).len() == 0 {
            nothing_attached("empty note"@)
        } else {
            OutcomeView {
                status: ExtractStatus::Complete,
                text: note_text(note_html@),
                detail: "note content"@,
            }
        },
{
    let text = strip_html(note_html);
    if is_empty(text.as_str()) {
        return no_attachment("empty note");
    }
    ExtractOutcome {
        status: ExtractStatus::Complete,
        text,
        detail: "note content".to_string(),
    }
}

/// A text cut to what fits into a number of bytes, with `...` where anything was cut.
pub open spec fn cut_to_bytes(s: Seq<char>, max: int) -> Seq<char> {
    if byte_len(s) > max {
        within_bytes(s, max) + "..."@
    } else {
        s
    }
}

/// Shortens a text that takes more than `max` bytes, never inside a character.
pub fn truncate(s: &str, max: usize) -> (r: String)
    ensures
        r@ == cut_to_bytes(s@, max as int),
{
    let chars = chars_of(s);
    let end: usize = fitting(chars.as_slice(), max);
    if end < chars.len() {
        let head = slice_subrange(chars.as_slice(), 0, end);
        assert(head@ =~= s@.take(end as int));
        let mut out = string_of(head);
        out.push_str("...");
        out
    } else {
        s.to_string()
    }
}

} // verus!
