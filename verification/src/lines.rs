//! Splitting text into lines and words, joining it again, and measuring it in bytes.
use crate::text::index_of;
use crate::text::is_white;
use crate::text::is_whitespace;
use crate::text::lemma_index_of;
use crate::text::position;
use crate::text::texts;
use vstd::prelude::*;
use vstd::slice::slice_subrange;

verus! {

/// The runs of characters that a sequence of slices shows.
pub open spec fn runs(v: Seq<&[char]>) -> Seq<Seq<char>> {
    v.map_values(|s: &[char]| s@)
}

/// A text without one carriage return at its end.
pub open spec fn without_cr(s: Seq<char>) -> Seq<char> {
    if s.len() > 0 && s.last() == '\r' {
        s.drop_last()
    } else {
        s
    }
}

/// The lines of a text, each without its terminator (`\n` or `\r\n`). A final line without a
/// terminator counts; an empty one after the last terminator does not.
pub open spec fn lines_of(s: Seq<char>) -> Seq<Seq<char>>
    decreases s.len(),
{
    let e = index_of(s, '\n') as int;
    if s.len() == 0 {
        Seq::empty()
    } else if e < s.len() {
        seq![without_cr(s.take(e))] + lines_of(s.skip(e + 1))
    } else {
        seq![s]
    }
}

/// Splits a text into its lines.
pub fn lines(s: &[char]) -> (r: Vec<&[char]>)
    ensures
        runs(r@) == lines_of(s@),
{
    let mut out: Vec<&[char]> = Vec::new();
    let mut i: usize = 0;
    assert(s@.skip(0) =~= s@);
    assert(runs(out@) + lines_of(s@) =~= lines_of(s@));
    while i < s.len()
        invariant
            i <= s.len(),
            lines_of(s@) == runs(out@) + lines_of(s@.skip(i as int)),
        decreases s.len() - i,
    {
        let rest = slice_subrange(s, i, s.len());
        let ghost t = s@.skip(i as int);
        assert(rest@ =~= t);
        let e: usize = position(rest, '\n');
        let ghost before = runs(out@);
        if e < rest.len() {
            let end: usize = if e > 0 && rest[e - 1] == '\r' {
                e - 1
            } else {
                e
            };
            let line = slice_subrange(rest, 0, end);
            assert(line@ =~= without_cr(t.take(e as int)));
            out.push(line);
            assert(runs(out@) =~= before.push(line@));
            assert(t.skip(e + 1) =~= s@.skip(i + e + 1));
            assert(runs(out@) + lines_of(s@.skip(i + e + 1)) =~= before + lines_of(t));
            i = i + e + 1;
        } else {
            out.push(rest);
            assert(runs(out@) =~= before.push(t));
            assert(s@.skip(s@.len() as int) =~= Seq::empty());
            assert(lines_of(s@.skip(s@.len() as int)) =~= Seq::empty());
            assert(runs(out@) + lines_of(s@.skip(s@.len() as int)) =~= before + lines_of(t));
            i = s.len();
        }
    }
    assert(s@.skip(s@.len() as int) =~= Seq::empty());
    assert(runs(out@) + lines_of(Seq::<char>::empty()) =~= runs(out@));
    out
}

/// A text cut after each newline, every piece with the newline that ends it.
pub open spec fn pieces_of(s: Seq<char>) -> Seq<Seq<char>>
    decreases s.len(),
{
    let e = index_of(s, '\n') as int;
    if s.len() == 0 {
        Seq::empty()
    } else if e < s.len() {
        seq![s.take(e + 1)] + pieces_of(s.skip(e + 1))
    } else {
        seq![s]
    }
}

/// Splits a text behind every newline.
pub fn split_inclusive(s: &[char]) -> (r: Vec<&[char]>)
    ensures
        runs(r@) == pieces_of(s@),
{
    let mut out: Vec<&[char]> = Vec::new();
    let mut i: usize = 0;
    assert(s@.skip(0) =~= s@);
    assert(runs(out@) + pieces_of(s@) =~= pieces_of(s@));
    while i < s.len()
        invariant
            i <= s.len(),
            pieces_of(s@) == runs(out@) + pieces_of(s@.skip(i as int)),
        decreases s.len() - i,
    {
        let rest = slice_subrange(s, i, s.len());
        let ghost t = s@.skip(i as int);
        assert(rest@ =~= t);
        let e: usize = position(rest, '\n');
        let ghost before = runs(out@);
        if e < rest.len() {
            let piece = slice_subrange(rest, 0, e + 1);
            assert(piece@ =~= t.take(e + 1));
            out.push(piece);
            assert(runs(out@) =~= before.push(piece@));
            assert(t.skip(e + 1) =~= s@.skip(i + e + 1));
            assert(runs(out@) + pieces_of(s@.skip(i + e + 1)) =~= before + pieces_of(t));
            i = i + e + 1;
        } else {
            out.push(rest);
            assert(runs(out@) =~= before.push(t));
            assert(s@.skip(s@.len() as int) =~= Seq::empty());
            assert(pieces_of(s@.skip(s@.len() as int)) =~= Seq::empty());
            assert(runs(out@) + pieces_of(s@.skip(s@.len() as int)) =~= before + pieces_of(t));
            i = s.len();
        }
    }
    assert(s@.skip(s@.len() as int) =~= Seq::empty());
    assert(runs(out@) + pieces_of(Seq::<char>::empty()) =~= runs(out@));
    out
}

/// The pieces one after the other.
pub open spec fn flat(parts: Seq<Seq<char>>) -> Seq<char>
    decreases parts.len(),
{
    if parts.len() == 0 {
        Seq::empty()
    } else {
        parts[0] + flat(parts.drop_first())
    }
}

/// Cutting a text after its newlines loses nothing.
pub proof fn lemma_pieces_flat(s: Seq<char>)
    ensures
        flat(pieces_of(s)) == s,
    decreases s.len(),
{
    lemma_index_of(s, '\n');
    let e = index_of(s, '\n') as int;
    if s.len() > 0 {
        if e < s.len() {
            lemma_pieces_flat(s.skip(e + 1));
            let all = pieces_of(s);
            assert(all.drop_first() =~= pieces_of(s.skip(e + 1)));
            assert(s.take(e + 1) + s.skip(e + 1) =~= s);
        } else {
            assert(seq![s].drop_first() =~= Seq::empty());
            assert(flat(Seq::empty()) =~= Seq::empty());
            assert(s + Seq::<char>::empty() =~= s);
        }
    }
}

/// The words finished so far and the one being read, after reading a text.
pub open spec fn word_state(s: Seq<char>) -> (Seq<Seq<char>>, Seq<char>)
    decreases s.len(),
{
    if s.len() == 0 {
        (Seq::empty(), Seq::empty())
    } else {
        let (done, word) = word_state(s.drop_last());
        if !is_white(s.last()) {
            (done, word.push(s.last()))
        } else if word.len() > 0 {
            (done.push(word), Seq::empty())
        } else {
            (done, word)
        }
    }
}

/// The maximal runs of characters that are not whitespace, in order.
pub open spec fn words_of(s: Seq<char>) -> Seq<Seq<char>> {
    let (done, word) = word_state(s);
    if word.len() > 0 {
        done.push(word)
    } else {
        done
    }
}

/// Splits a text into its words.
pub fn split_whitespace(s: &[char]) -> (r: Vec<&[char]>)
    ensures
        runs(r@) == words_of(s@),
{
    let mut out: Vec<&[char]> = Vec::new();
    let mut start: usize = 0;
    let mut i: usize = 0;
    assert(runs(out@) =~= Seq::empty());
    assert(s@.subrange(0, 0) =~= Seq::empty());
    while i < s.len()
        invariant
            start <= i <= s.len(),
            word_state(s@.take(i as int)) == (runs(out@), s@.subrange(start as int, i as int)),
        decreases s.len() - i,
    {
        assert(s@.take(i as int + 1).drop_last() =~= s@.take(i as int));
        if is_whitespace(s[i]) {
            if start < i {
                let word = slice_subrange(s, start, i);
                let ghost before = runs(out@);
                out.push(word);
                assert(runs(out@) =~= before.push(word@));
            }
            start = i + 1;
            assert(s@.subrange(i as int + 1, i as int + 1) =~= Seq::empty());
            assert(start < i + 1 || s@.subrange(start as int, i as int + 1) =~= Seq::empty());
        } else {
            assert(s@.subrange(start as int, i as int + 1) =~= s@.subrange(
                start as int,
                i as int,
            ).push(s@[i as int]));
        }
        i += 1;
    }
    assert(s@.take(s@.len() as int) =~= s@);
    if start < s.len() {
        let word = slice_subrange(s, start, s.len());
        let ghost before = runs(out@);
        out.push(word);
        assert(runs(out@) =~= before.push(word@));
    }
    out
}

/// Texts one after the other with a separator between two neighbours.
pub open spec fn joined(parts: Seq<Seq<char>>, sep: Seq<char>) -> Seq<char>
    decreases parts.len(),
{
    if parts.len() == 0 {
        Seq::empty()
    } else if parts.len() == 1 {
        parts[0]
    } else {
        joined(parts.drop_last(), sep) + sep + parts.last()
    }
}

/// Joins texts with a separator.
pub fn join(parts: &[String], sep: &str) -> (r: String)
    ensures
        r@ == joined(texts(parts@), sep@),
{
    let mut out = String::new();
    let mut i: usize = 0;
    let ghost all = texts(parts@);
    while i < parts.len()
        invariant
            i <= parts.len(),
            all == texts(parts@),
            out@ == joined(all.take(i as int), sep@),
        decreases parts.len() - i,
    {
        assert(all.take(i as int + 1).drop_last() =~= all.take(i as int));
        assert(all.take(i as int + 1).last() == parts@[i as int]@);
        if i > 0 {
            out.push_str(sep);
        }
        out.push_str(parts[i].as_str());
        assert(i == 0 ==> out@ =~= parts@[0]@);
        i += 1;
    }
    assert(all.take(all.len() as int) =~= all);
    out
}

/// Joins runs of characters with a separator.
pub fn join_runs(parts: &[&[char]], sep: &[char]) -> (r: Vec<char>)
    ensures
        r@ == joined(runs(parts@), sep@),
{
    let mut out: Vec<char> = Vec::new();
    let mut i: usize = 0;
    let ghost all = runs(parts@);
    while i < parts.len()
        invariant
            i <= parts.len(),
            all == runs(parts@),
            out@ == joined(all.take(i as int), sep@),
        decreases parts.len() - i,
    {
        assert(all.take(i as int + 1).drop_last() =~= all.take(i as int));
        assert(all.take(i as int + 1).last() == parts@[i as int]@);
        if i > 0 {
            push_chars(&mut out, sep);
        }
        push_chars(&mut out, parts[i]);
        assert(i == 0 ==> out@ =~= parts@[0]@);
        i += 1;
    }
    assert(all.take(all.len() as int) =~= all);
    out
}

/// Appends a run of characters.
pub fn push_chars(out: &mut Vec<char>, s: &[char])
    ensures
        final(out)@ == old(out)@ + s@,
{
    let mut i: usize = 0;
    assert(out@ =~= old(out)@ + s@.take(0));
    while i < s.len()
        invariant
            i <= s.len(),
            out@ == old(out)@ + s@.take(i as int),
        decreases s.len() - i,
    {
        out.push(s[i]);
        assert(out@ =~= old(out)@ + s@.take(i as int + 1));
        i += 1;
    }
    assert(s@.take(s@.len() as int) =~= s@);
}

/// How many bytes a character takes in UTF-8.
pub open spec fn width(c: char) -> nat {
    if (c as u32) < 0x80 {
        1
    } else if (c as u32) < 0x800 {
        2
    } else if (c as u32) < 0x10000 {
        3
    } else {
        4
    }
}

/// The number of bytes that a character takes.
pub fn char_width(c: char) -> (r: usize)
    ensures
        r == width(c),
{
    let u: u32 = c as u32;
    if u < 0x80 {
        1
    } else if u < 0x800 {
        2
    } else if u < 0x10000 {
        3
    } else {
        4
    }
}

/// How many bytes a text takes in UTF-8.
pub open spec fn byte_len(s: Seq<char>) -> nat
    decreases s.len(),
{
    if s.len() == 0 {
        0
    } else {
        byte_len(s.drop_last()) + width(s.last())
    }
}

/// The byte length of a text is the length of its UTF-8 encoding.
pub proof fn lemma_byte_len_is_encoded_len(s: Seq<char>)
    ensures
        byte_len(s) == vstd::utf8::encode_utf8(s).len(),
    decreases s.len(),
{
    if s.len() > 0 {
        lemma_byte_len_is_encoded_len(s.drop_first());
        lemma_byte_len_front(s);
        vstd::utf8::char_is_scalar(s[0]);
    }
}

/// The byte length counted from the front.
pub proof fn lemma_byte_len_front(s: Seq<char>)
    requires
        s.len() > 0,
    ensures
        byte_len(s) == width(s[0]) + byte_len(s.drop_first()),
    decreases s.len(),
{
    if s.len() > 1 {
        lemma_byte_len_front(s.drop_last());
        assert(s.drop_last().drop_first() =~= s.drop_first().drop_last());
    } else {
        assert(s.drop_first() =~= Seq::empty());
        assert(s.drop_last() =~= Seq::empty());
    }
}

/// A longer prefix takes more bytes.
pub proof fn lemma_byte_len_take(s: Seq<char>, i: int, j: int)
    requires
        0 <= i <= j <= s.len(),
    ensures
        byte_len(s.take(i)) + (j - i) <= byte_len(s.take(j)),
    decreases j - i,
{
    if i < j {
        lemma_byte_len_take(s, i, j - 1);
        assert(s.take(j).drop_last() =~= s.take(j - 1));
    }
}

} // verus!
