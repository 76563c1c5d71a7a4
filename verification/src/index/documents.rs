//! What the search index stores of a chunk.
use crate::api::models::author_names;
use crate::api::models::tag_texts;
use crate::api::models::ZoteroItem;
use crate::index::chunker::Chunk;
use crate::index::chunker::ChunkType;
use crate::index::chunker::ItemText;
use crate::lines::joined;
use crate::text::chars_of;
use crate::text::opt_text;
use crate::text::string_of;
use crate::text::texts;
use vstd::prelude::*;
use vstd::slice::slice_subrange;

verus! {

/// Data needed to index a single item.
#[derive(Debug)]
pub struct IndexableItem {
    pub item_key: String,
    pub title: String,
    pub creators: String,
    pub abstract_note: String,
    pub tags: String,
    pub item_type: String,
    pub collections: Vec<String>,
    pub date: String,
    pub doi: String,
    pub publication_title: String,
    pub fulltext: Option<String>,
}

/// A stored chunk as it is read back.
#[derive(Debug, Clone)]
pub struct ChunkData {
    pub chunk_id: String,
    pub item_key: String,
    pub chunk_type: String,
    pub text: String,
    pub title: String,
    pub creators: String,
    pub tags: String,
    pub item_type: String,
    pub date: String,
    pub doi: String,
    pub abstract_note: String,
    pub publication_title: String,
    pub char_start: u64,
    pub char_end: u64,
}

/// The document that is stored for a chunk.
#[derive(Debug)]
pub struct ChunkDoc {
    pub chunk_id: String,
    pub item_key: String,
    pub chunk_type: String,
    pub text: String,
    pub title: String,
    pub creators: String,
    /// Each tag is a value of its own, to filter by.
    pub tags: Vec<String>,
    pub item_type: String,
    pub collections: Vec<String>,
    pub char_start: u64,
    pub char_end: u64,
    pub date: String,
    pub doi: String,
    pub abstract_note: String,
    pub publication_title: String,
    /// Stored with the metadata chunk only.
    pub fulltext: Option<String>,
}

/// The parts of a text between commas followed by a space, from `i` on, as far as they are not
/// empty. A part starts at `start`.
pub open spec fn tag_parts(s: Seq<char>, start: int, i: int) -> Seq<Seq<char>>
    decreases s.len() - i,
{
    if i < 0 || i >= s.len() {
        if 0 <= start < s.len() {
            seq![s.skip(start)]
        } else {
            Seq::empty()
        }
    } else if i + 2 <= s.len() && s[i] == ',' && s[i + 1] == ' ' {
        let rest = tag_parts(s, i + 2, i + 2);
        if start < i {
            seq![s.subrange(start, i)] + rest
        } else {
            rest
        }
    } else {
        tag_parts(s, start, i + 1)
    }
}

/// Splits a list of tags at its commas.
pub fn split_tags(tags: &str) -> (r: Vec<String>)
    ensures
        texts(r@) == tag_parts(tags@, 0, 0),
{
    let s = chars_of(tags);
    let mut out: Vec<String> = Vec::new();
    let mut start: usize = 0;
    let mut i: usize = 0;
    assert(texts(out@) + tag_parts(s@, 0, 0) =~= tag_parts(s@, 0, 0));
    while i < s.len()
        invariant
            start <= i <= s.len(),
            s@ == tags@,
            texts(out@) + tag_parts(s@, start as int, i as int) == tag_parts(s@, 0, 0),
        decreases s.len() - i,
    {
        if s.len() - i >= 2 && s[i] == ',' && s[i + 1] == ' ' {
            let ghost before = texts(out@);
            if start < i {
                let part = string_of(slice_subrange(s.as_slice(), start, i));
                let ghost shown = part@;
                out.push(part);
                assert(texts(out@) =~= before.push(shown));
                assert(texts(out@) + tag_parts(s@, i + 2, i + 2) =~= before + tag_parts(
                    s@,
                    start as int,
                    i as int,
                ));
            }
            i += 2;
            start = i;
        } else {
            i += 1;
        }
    }
    if start < s.len() {
        let tail = slice_subrange(s.as_slice(), start, s.len());
        assert(tail@ =~= s@.skip(start as int));
        let ghost before = texts(out@);
        let part = string_of(tail);
        let ghost shown = part@;
        out.push(part);
        assert(texts(out@) =~= before + seq![shown]);
    } else {
        assert(texts(out@) + Seq::<Seq<char>>::empty() =~= texts(out@));
    }
    out
}

/// The document for a chunk of an item.
pub open spec fn is_document(d: ChunkDoc, item: IndexableItem, chunk: Chunk, fulltext: Seq<char>) -> bool {
    &&& d.chunk_id@ == chunk.chunk_id@
    &&& d.item_key@ == item.item_key@
    &&& d.chunk_type@ == chunk.chunk_type.name()
    &&& d.text@ == chunk.text@
    &&& d.title@ == item.title@
    &&& d.creators@ == item.creators@
    &&& texts(d.tags@) == tag_parts(item.tags@, 0, 0)
    &&& d.item_type@ == item.item_type@
    &&& texts(d.collections@) == texts(item.collections@)
    &&& d.char_start == chunk.char_start
    &&& d.char_end == chunk.char_end
    &&& d.date@ == item.date@
    &&& d.doi@ == item.doi@
    &&& d.abstract_note@ == item.abstract_note@
    &&& d.publication_title@ == item.publication_title@
    &&& opt_text(d.fulltext) == if chunk.chunk_type == ChunkType::Metadata {
        Some(fulltext)
    } else {
        None
    }
}

fn copy_texts(list: &[String]) -> (r: Vec<String>)
    ensures
        texts(r@) == texts(list@),
{
    let mut out: Vec<String> = Vec::new();
    let mut i: usize = 0;
    while i < list.len()
        invariant
            i <= list.len(),
            texts(out@) == texts(list@).take(i as int),
        decreases list.len() - i,
    {
        let ghost before = texts(out@);
        out.push(list[i].clone());
        assert(texts(out@) =~= before.push(list@[i as int]@));
        assert(texts(out@) =~= texts(list@).take(i as int + 1));
        i += 1;
    }
    assert(texts(out@) =~= texts(list@));
    out
}

/// Builds the document for a chunk. The fulltext goes with the metadata chunk only, so that it is
/// stored once.
pub fn document(item: &IndexableItem, chunk: &Chunk, fulltext: &str) -> (r: ChunkDoc)
    ensures
        is_document(r, *item, *chunk, fulltext@),
{
    ChunkDoc {
        chunk_id: chunk.chunk_id.clone(),
        item_key: item.item_key.clone(),
        chunk_type: chunk.chunk_type.as_str().to_string(),
        text: chunk.text.clone(),
        title: item.title.clone(),
        creators: item.creators.clone(),
        tags: split_tags(item.tags.as_str()),
        item_type: item.item_type.clone(),
        collections: copy_texts(&item.collections),
        char_start: chunk.char_start as u64,
        char_end: chunk.char_end as u64,
        date: item.date.clone(),
        doi: item.doi.clone(),
        abstract_note: item.abstract_note.clone(),
        publication_title: item.publication_title.clone(),
        fulltext: if chunk.chunk_type == ChunkType::Metadata {
            Some(fulltext.to_string())
        } else {
            None
        },
    }
}

/// The data to index an item with, given its fulltext.
pub fn indexable_item(item: &ZoteroItem, fulltext: &Option<String>) -> (r: IndexableItem)
    ensures
        r.item_key@ == item.key@,
        r.title@ == item.data.title@,
        r.creators@ == joined(author_names(item.data.creators@), "; "@),
        r.abstract_note@ == item.data.abstract_note@,
        r.tags@ == joined(tag_texts(item.data.tags@), ", "@),
        r.item_type@ == item.data.item_type@,
        texts(r.collections@) == texts(item.data.collections@),
        r.date@ == item.data.date@,
        r.doi@ == item.data.doi@,
        r.publication_title@ == item.data.publication_title@,
        opt_text(r.fulltext) == opt_text(*fulltext),
{
    IndexableItem {
        item_key: item.key.clone(),
        title: item.data.title.clone(),
        creators: item.creators_string(),
        abstract_note: item.data.abstract_note.clone(),
        tags: item.tags_string(),
        item_type: item.data.item_type.clone(),
        collections: copy_texts(&item.data.collections),
        date: item.data.date.clone(),
        doi: item.data.doi.clone(),
        publication_title: item.data.publication_title.clone(),
        fulltext: fulltext.clone(),
    }
}

/// The texts that an item is cut into chunks from, given its fulltext.
pub fn item_text(item: &ZoteroItem, fulltext: &Option<String>) -> (r: ItemText)
    ensures
        r.item_key@ == item.key@,
        r.title@ == item.data.title@,
        r.authors@ == joined(author_names(item.data.creators@), "; "@),
        r.abstract_note@ == item.data.abstract_note@,
        r.tags@ == joined(tag_texts(item.data.tags@), ", "@),
        opt_text(r.fulltext) == opt_text(*fulltext),
{
    ItemText {
        item_key: item.key.clone(),
        title: item.data.title.clone(),
        authors: item.creators_string(),
        abstract_note: item.data.abstract_note.clone(),
        tags: item.tags_string(),
        fulltext: fulltext.clone(),
    }
}

} // verus!
