//! Cutting an item's text into overlapping chunks.
use crate::lines::join;
use crate::lines::joined;
use crate::text::chars_of;
use crate::text::concat2;
use crate::text::concat3;
use crate::text::decimal;
use crate::text::decimal_text;
use crate::text::is_empty;
use crate::text::string_of;
use crate::text::texts;
use vstd::prelude::*;
use vstd::slice::slice_subrange;

verus! {

/// Characters per chunk.
pub const CHUNK_SIZE: usize = 1500;

/// Characters that two neighbouring chunks share.
pub const CHUNK_OVERLAP: usize = 200;

/// A chunk of text with its metadata and position info.
#[derive(Debug, Clone)]
pub struct Chunk {
    /// Unique ID for this chunk (item_key + chunk index)
    pub chunk_id: String,
    /// The Zotero item key this chunk belongs to
    pub item_key: String,
    /// Whether this is a metadata or fulltext chunk
    pub chunk_type: ChunkType,
    /// The text content of this chunk
    pub text: String,
    /// Start char offset in the original fulltext (only for fulltext chunks)
    pub char_start: usize,
    /// End char offset in the original fulltext (only for fulltext chunks)
    pub char_end: usize,
}

/// What a chunk is cut from.
#[derive(Debug, Clone, Copy, PartialEq, Eq, Structural)]
pub enum ChunkType {
    Metadata,
    Fulltext,
}

impl ChunkType {
    /// The name of a chunk type.
    pub open spec fn name(self) -> Seq<char> {
        match self {
            ChunkType::Metadata => "metadata"@,
            ChunkType::Fulltext => "fulltext"@,
        }
    }

    /// The name of a chunk type.
    pub fn as_str(&self) -> (r: &str)
        ensures
            r@ == self.name(),
    {
        match self {
            ChunkType::Metadata => "metadata",
            ChunkType::Fulltext => "fulltext",
        }
    }
}

/// A chunk as the texts and numbers it holds.
pub struct ChunkView {
    pub chunk_id: Seq<char>,
    pub item_key: Seq<char>,
    pub chunk_type: ChunkType,
    pub text: Seq<char>,
    pub char_start: int,
    pub char_end: int,
}

impl View for Chunk {
    type V = ChunkView;

    open spec fn view(&self) -> ChunkView {
        ChunkView {
            chunk_id: self.chunk_id@,
            item_key: self.item_key@,
            chunk_type: self.chunk_type,
            text: self.text@,
            char_start: self.char_start as int,
            char_end: self.char_end as int,
        }
    }
}

/// The views of some chunks.
pub open spec fn chunk_views(s: Seq<Chunk>) -> Seq<ChunkView> {
    s.map_values(|c: Chunk| c@)
}

/// Metadata fields for building the metadata chunk.
pub struct ItemText {
    pub item_key: String,
    pub title: String,
    pub authors: String,
    pub abstract_note: String,
    pub tags: String,
    pub fulltext: Option<String>,
}

/// How far the next chunk starts behind the one before it: the size less the overlap, but at least
/// one character.
pub open spec fn chunk_step(size: int, overlap: int) -> int {
    if size > overlap {
        size - overlap
    } else {
        1
    }
}

/// Where a chunk that starts at `start` ends.
pub open spec fn chunk_end(len: int, size: int, start: int) -> int {
    if start + size < len {
        start + size
    } else {
        len
    }
}

/// The start and end of each chunk of a text of length `len`, from the one at `start` on.
pub open spec fn spans(len: int, size: int, overlap: int, start: int) -> Seq<(int, int)>
    decreases
            if start < len {
                len - start
            } else {
                0
            },
{
    if start >= len {
        Seq::empty()
    } else {
        let end = chunk_end(len, size, start);
        if end >= len {
            seq![(start, end)]
        } else {
            seq![(start, end)] + spans(
                len,
                size,
                overlap,
                start + chunk_step(size, overlap),
            )
        }
    }
}

/// The positions in a list of chunks.
pub open spec fn spans_in(v: Seq<(String, usize, usize)>) -> Seq<(int, int)> {
    v.map_values(|c: (String, usize, usize)| (c.1 as int, c.2 as int))
}

/// Splits text into fixed-size chunks with overlap. Returns (chunk_text, char_start, char_end)
/// tuples.
pub fn split_into_chunks(text: &str, size: usize, overlap: usize) -> (r: Vec<
    (String, usize, usize),
>)
    ensures
        spans_in(r@) == spans(text@.len() as int, size as int, overlap as int, 0),
        forall|i: int|
            0 <= i < r@.len() ==> 0 <= (#[trigger] r@[i]).1 <= r@[i].2 <= text@.len() && r@[i].0@
                == text@.subrange(r@[i].1 as int, r@[i].2 as int),
{
    let chars = chars_of(text);
    let len: usize = chars.len();
    let mut out: Vec<(String, usize, usize)> = Vec::new();
    let mut start: usize = 0;
    let step: usize = if size > overlap {
        size - overlap
    } else {
        1
    };
    let ghost all = spans(len as int, size as int, overlap as int, 0);
    let mut ended = false;
    assert(spans_in(out@) + all =~= all);
    while start < len && !ended
        invariant
            start <= len,
            len == chars.len(),
            chars@ == text@,
            step == chunk_step(size as int, overlap as int),
            step > 0,
            all == spans(len as int, size as int, overlap as int, 0),
            ended ==> spans_in(out@) == all,
            !ended ==> spans_in(out@) + spans(
                len as int,
                size as int,
                overlap as int,
                start as int,
            ) == all,
            forall|i: int|
                0 <= i < out@.len() ==> 0 <= (#[trigger] out@[i]).1 <= out@[i].2 <= text@.len()
                    && out@[i].0@ == text@.subrange(out@[i].1 as int, out@[i].2 as int),
        decreases len - start + (if ended { 0int } else { 1int }),
    {
        let end: usize = if size < len - start {
            start + size
        } else {
            len
        };
        let ghost before = spans_in(out@);
        let piece = string_of(slice_subrange(chars.as_slice(), start, end));
        out.push((piece, start, end));
        assert(spans_in(out@) =~= before.push((start as int, end as int)));
        if end >= len {
            assert(spans_in(out@) =~= before + spans(
                len as int,
                size as int,
                overlap as int,
                start as int,
            ));
            ended = true;
        } else {
            assert(spans_in(out@) + spans(
                len as int,
                size as int,
                overlap as int,
                start + step,
            ) =~= before + spans(len as int, size as int, overlap as int, start as int));
            if step >= len - start {
                assert(spans(len as int, size as int, overlap as int, start + step)
                    =~= Seq::empty());
                assert(spans_in(out@) =~= all);
                ended = true;
            } else {
                start += step;
            }
        }
    }
    assert(!ended ==> spans_in(out@) + Seq::<(int, int)>::empty() =~= spans_in(out@));
    out
}

/// The texts among some that are not empty.
pub open spec fn non_empty(parts: Seq<Seq<char>>) -> Seq<Seq<char>>
    decreases parts.len(),
{
    if parts.len() == 0 {
        Seq::empty()
    } else if parts.last().len() > 0 {
        non_empty(parts.drop_last()).push(parts.last())
    } else {
        non_empty(parts.drop_last())
    }
}

impl ItemText {
    /// The text of the metadata chunk: title, authors, abstract and tags, one per line, as far as
    /// there are any.
    pub open spec fn metadata(&self) -> Seq<char> {
        joined(
            non_empty(seq![self.title@, self.authors@, self.abstract_note@, self.tags@]),
            "\n"@,
        )
    }
}

fn push_filled(parts: &mut Vec<String>, part: &String)
    ensures
        texts(final(parts)@) == if part@.len() > 0 {
            texts(old(parts)@).push(part@)
        } else {
            texts(old(parts)@)
        },
{
    if !is_empty(part.as_str()) {
        let ghost before = texts(parts@);
        parts.push(part.clone());
        assert(texts(parts@) =~= before.push(part@));
    }
}

/// The text of the metadata chunk.
pub fn build_metadata_text(item: &ItemText) -> (r: String)
    ensures
        r@ == item.metadata(),
{
    let mut parts: Vec<String> = Vec::new();
    assert(texts(parts@) =~= Seq::empty());
    push_filled(&mut parts, &item.title);
    push_filled(&mut parts, &item.authors);
    push_filled(&mut parts, &item.abstract_note);
    push_filled(&mut parts, &item.tags);
    proof {
        let four = seq![item.title@, item.authors@, item.abstract_note@, item.tags@];
        assert(four.drop_last() =~= seq![item.title@, item.authors@, item.abstract_note@]);
        assert(four.drop_last().drop_last() =~= seq![item.title@, item.authors@]);
        assert(four.drop_last().drop_last().drop_last() =~= seq![item.title@]);
        assert(four.drop_last().drop_last().drop_last().drop_last() =~= Seq::empty());
        reveal_with_fuel(non_empty, 5);
        assert(texts(parts@) == non_empty(four));
    }
    join(parts.as_slice(), "\n")
}

/// The metadata chunk of an item.
pub open spec fn metadata_chunk(item: ItemText) -> ChunkView {
    ChunkView {
        chunk_id: item.item_key@ + "_meta"@,
        item_key: item.item_key@,
        chunk_type: ChunkType::Metadata,
        text: item.metadata(),
        char_start: 0,
        char_end: 0,
    }
}

/// The `i`th fulltext chunk of an item, which covers a span of its fulltext.
pub open spec fn fulltext_chunk(key: Seq<char>, fulltext: Seq<char>, i: int, span: (int, int)) -> ChunkView {
    ChunkView {
        chunk_id: key + "_"@ + decimal(i as nat),
        item_key: key,
        chunk_type: ChunkType::Fulltext,
        text: fulltext.subrange(span.0, span.1),
        char_start: span.0,
        char_end: span.1,
    }
}

/// The spans of the fulltext chunks of an item.
pub open spec fn item_spans(item: ItemText) -> Seq<(int, int)> {
    match item.fulltext {
        Some(t) => spans(t@.len() as int, CHUNK_SIZE as int, CHUNK_OVERLAP as int, 0),
        None => Seq::empty(),
    }
}

/// All chunks of an item: one for its metadata, then those of its fulltext.
pub open spec fn chunks_of(item: ItemText) -> Seq<ChunkView> {
    let s = item_spans(item);
    seq![metadata_chunk(item)] + Seq::new(
        s.len(),
        |i: int| fulltext_chunk(item.item_key@, item.fulltext.unwrap()@, i, s[i]),
    )
}

/// Generates all chunks for an item: the metadata chunk, then the fulltext chunks.
pub fn chunk_item(item: &ItemText) -> (r: Vec<Chunk>)
    ensures
        chunk_views(r@) == chunks_of(*item),
{
    let ghost want = chunks_of(*item);
    let mut out: Vec<Chunk> = Vec::new();
    out.push(
        Chunk {
            chunk_id: concat2(item.item_key.as_str(), "_meta"),
            item_key: item.item_key.clone(),
            chunk_type: ChunkType::Metadata,
            text: build_metadata_text(item),
            char_start: 0,
            char_end: 0,
        },
    );
    assert(chunk_views(out@) =~= want.take(1));
    if let Some(fulltext) = &item.fulltext {
        let pieces = split_into_chunks(fulltext.as_str(), CHUNK_SIZE, CHUNK_OVERLAP);
        let ghost s = spans_in(pieces@);
        let mut i: usize = 0;
        while i < pieces.len()
            invariant
                i <= pieces.len(),
                item.fulltext == Some(*fulltext),
                s == spans_in(pieces@),
                s == item_spans(*item),
                want == chunks_of(*item),
                forall|i: int|
                    0 <= i < pieces@.len() ==> 0 <= (#[trigger] pieces@[i]).1 <= pieces@[i].2
                        <= fulltext@.len() && pieces@[i].0@ == fulltext@.subrange(
                        pieces@[i].1 as int,
                        pieces@[i].2 as int,
                    ),
                chunk_views(out@) == want.take(i as int + 1),
            decreases pieces.len() - i,
        {
            let piece = &pieces[i];
            assert(s[i as int] == (piece.1 as int, piece.2 as int));
            let number = decimal_text(i as u64);
            let chunk = Chunk {
                chunk_id: concat3(item.item_key.as_str(), "_", number.as_str()),
                item_key: item.item_key.clone(),
                chunk_type: ChunkType::Fulltext,
                text: piece.0.clone(),
                char_start: piece.1,
                char_end: piece.2,
            };
            let ghost before = chunk_views(out@);
            let ghost shown = chunk@;
            assert(shown == want[i as int + 1]);
            out.push(chunk);
            assert(chunk_views(out@) =~= before.push(shown));
            assert(chunk_views(out@) =~= want.take(i as int + 2));
            i += 1;
        }
    }
    assert(chunk_views(out@) =~= want);
    out
}

/// Every character of a text is in a chunk, whatever the overlap.
pub proof fn law_chunks_cover(len: int, size: int, overlap: int, start: int, i: int) -> (k: int)
    requires
        size > 0,
        overlap >= 0,
        0 <= start <= i < len,
    ensures
        0 <= k < spans(len, size, overlap, start).len(),
        spans(len, size, overlap, start)[k].0 <= i < spans(len, size, overlap, start)[k].1,
    decreases len - start,
{
    let end = chunk_end(len, size, start);
    let all = spans(len, size, overlap, start);
    assert(all[0] == (start, end));
    if i < end {
        0
    } else {
        let next = start + chunk_step(size, overlap);
        let k = law_chunks_cover(len, size, overlap, next, i);
        assert(all[k + 1] == spans(len, size, overlap, next)[k]);
        k + 1
    }
}

/// No chunk is longer than the size, none is empty, and a chunk and the next share exactly the
/// overlap.
pub proof fn law_chunks_overlap(len: int, size: int, overlap: int, start: int, k: int)
    requires
        0 <= overlap < size,
        0 <= start,
        0 <= k < spans(len, size, overlap, start).len(),
    ensures
        ({
            let s = spans(len, size, overlap, start);
            &&& start <= s[k].0 < s[k].1 <= len
            &&& s[k].1 - s[k].0 <= size
            &&& k + 1 < s.len() ==> s[k].1 - s[k + 1].0 == overlap
        }),
    decreases len - start,
{
    let end = chunk_end(len, size, start);
    let all = spans(len, size, overlap, start);
    assert(all[0] == (start, end));
    if end < len {
        let next = start + chunk_step(size, overlap);
        let rest = spans(len, size, overlap, next);
        assert(rest[0] == (next, chunk_end(len, size, next)));
        assert(all[1] == rest[0]);
        if k > 0 {
            law_chunks_overlap(len, size, overlap, next, k - 1);
            assert(all[k] == rest[k - 1]);
            if k + 1 < all.len() {
                assert(all[k + 1] == rest[k]);
            }
        }
    }
}

} // verus!
