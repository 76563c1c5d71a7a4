//! What the chunks of an item hold.
use crate::index::chunker::chunks_of;
use crate::index::chunker::item_spans;
use crate::index::chunker::law_chunks_cover;
use crate::index::chunker::law_chunks_overlap;
use crate::index::chunker::non_empty;
use crate::index::chunker::spans;
use crate::index::chunker::ChunkType;
use crate::index::chunker::ItemText;
use crate::lines::joined;
use vstd::prelude::*;

verus! {

/// The text of the metadata chunk of an item that has all four: the title, the authors, the abstract
/// and the tags, each on lines of its own.
pub proof fn law_metadata_of_a_full_item(item: ItemText)
    requires
        item.title@.len() > 0,
        item.authors@.len() > 0,
        item.abstract_note@.len() > 0,
        item.tags@.len() > 0,
    ensures
        item.metadata() == item.title@ + "\n"@ + item.authors@ + "\n"@ + item.abstract_note@ + "\n"@
            + item.tags@,
        chunks_of(item)[0].text == item.metadata(),
{
    lemma_metadata(item);
    reveal_with_fuel(joined, 5);
    let four = seq![item.title@, item.authors@, item.abstract_note@, item.tags@];
    assert(four.drop_last() =~= seq![item.title@, item.authors@, item.abstract_note@]);
    assert(four.drop_last().drop_last() =~= seq![item.title@, item.authors@]);
    assert(four.drop_last().drop_last().drop_last() =~= seq![item.title@]);
}

/// The metadata text over the four fields, of which the empty ones are left out.
proof fn lemma_metadata(item: ItemText)
    ensures
        ({
            let four = seq![item.title@, item.authors@, item.abstract_note@, item.tags@];
            &&& item.metadata() == joined(non_empty(four), "\n"@)
            &&& (forall|i: int| 0 <= i < 4 ==> (#[trigger] four[i]).len() > 0) ==> non_empty(four)
                == four
        }),
{
    let four = seq![item.title@, item.authors@, item.abstract_note@, item.tags@];
    if forall|i: int| 0 <= i < 4 ==> (#[trigger] four[i]).len() > 0 {
        lemma_non_empty_all(four);
    }
}

proof fn lemma_non_empty_all(parts: Seq<Seq<char>>)
    requires
        forall|i: int| 0 <= i < parts.len() ==> (#[trigger] parts[i]).len() > 0,
    ensures
        non_empty(parts) == parts,
    decreases parts.len(),
{
    if parts.len() > 0 {
        let t = parts.drop_last();
        assert forall|i: int| 0 <= i < t.len() implies (#[trigger] t[i]).len() > 0 by {
            assert(t[i] == parts[i]);
        }
        lemma_non_empty_all(t);
        assert(parts[parts.len() - 1].len() > 0);
        assert(t.push(parts.last()) =~= parts);
    } else {
        assert(non_empty(parts) =~= parts);
    }
}

/// Whether a text stands whole in another, as lines of its own.
pub open spec fn stands_at(whole: Seq<char>, line: Seq<char>, at: int) -> bool {
    &&& 0 <= at && at + line.len() <= whole.len()
    &&& whole.subrange(at, at + line.len()) == line
    &&& at == 0 || whole[at - 1] == '\n'
    &&& at + line.len() == whole.len() || whole[at + line.len()] == '\n'
}

/// Where one of some texts stands when they are joined by newlines.
proof fn lemma_stands(parts: Seq<Seq<char>>, i: int) -> (at: int)
    requires
        0 <= i < parts.len(),
    ensures
        stands_at(joined(parts, "\n"@), parts[i], at),
        i == 0 ==> at == 0,
        i == parts.len() - 1 ==> at + parts[i].len() == joined(parts, "\n"@).len(),
    decreases parts.len(),
{
    reveal_strlit("\n");
    let whole = joined(parts, "\n"@);
    if parts.len() == 1 {
        assert(whole.subrange(0, whole.len() as int) =~= whole);
        0
    } else {
        let t = parts.drop_last();
        let head = joined(t, "\n"@);
        assert(whole == head + "\n"@ + parts.last());
        if i < t.len() {
            let at = lemma_stands(t, i);
            assert(t[i] == parts[i]);
            assert(whole.subrange(at, at + parts[i].len()) =~= head.subrange(
                at,
                at + parts[i].len(),
            ));
            if at > 0 {
                assert(whole[at - 1] == head[at - 1]);
            }
            assert(whole[at + parts[i].len()] == '\n') by {
                if at + parts[i].len() == head.len() {
                    assert(whole[head.len() as int] == "\n"@[0]);
                } else {
                    assert(whole[at + parts[i].len()] == head[at + parts[i].len()]);
                }
            }
            at
        } else {
            let at = head.len() as int + 1;
            assert(whole.subrange(at, at + parts.last().len()) =~= parts.last());
            assert(whole[at - 1] == "\n"@[0]);
            at
        }
    }
}

proof fn lemma_kept(parts: Seq<Seq<char>>, i: int) -> (k: int)
    requires
        0 <= i < parts.len(),
        parts[i].len() > 0,
    ensures
        0 <= k < non_empty(parts).len(),
        non_empty(parts)[k] == parts[i],
    decreases parts.len(),
{
    let t = parts.drop_last();
    if i < parts.len() - 1 {
        let k = lemma_kept(t, i);
        assert(t[i] == parts[i]);
        k
    } else {
        non_empty(parts).len() - 1
    }
}

/// Each of title, authors, abstract and tags that an item has stands, whole and on lines of its own,
/// in the text of its metadata chunk.
pub proof fn law_metadata_holds_every_field(item: ItemText) -> (at: (int, int, int, int))
    ensures
        item.title@.len() > 0 ==> stands_at(item.metadata(), item.title@, at.0),
        item.authors@.len() > 0 ==> stands_at(item.metadata(), item.authors@, at.1),
        item.abstract_note@.len() > 0 ==> stands_at(item.metadata(), item.abstract_note@, at.2),
        item.tags@.len() > 0 ==> stands_at(item.metadata(), item.tags@, at.3),
        item.title@.len() > 0 ==> at.0 == 0,
        item.tags@.len() > 0 ==> at.3 + item.tags@.len() == item.metadata().len(),
{
    let four = seq![item.title@, item.authors@, item.abstract_note@, item.tags@];
    let kept = non_empty(four);
    let mut a = 0int;
    let mut b = 0int;
    let mut c = 0int;
    let mut d = 0int;
    if four[0].len() > 0 {
        lemma_first_kept(four);
        a = lemma_stands(kept, 0);
    }
    if four[1].len() > 0 {
        let k = lemma_kept(four, 1);
        b = lemma_stands(kept, k);
    }
    if four[2].len() > 0 {
        let k = lemma_kept(four, 2);
        c = lemma_stands(kept, k);
    }
    if four[3].len() > 0 {
        assert(kept.last() == four[3]);
        d = lemma_stands(kept, kept.len() - 1);
    }
    (a, b, c, d)
}

proof fn lemma_first_kept(parts: Seq<Seq<char>>)
    requires
        parts.len() > 0,
        parts[0].len() > 0,
    ensures
        non_empty(parts).len() > 0,
        non_empty(parts)[0] == parts[0],
    decreases parts.len(),
{
    if parts.len() > 1 {
        lemma_first_kept(parts.drop_last());
    } else {
        assert(parts.drop_last() =~= Seq::empty());
        assert(non_empty(parts.drop_last()) =~= Seq::empty());
    }
}

/// The metadata text is no longer than its fields and the newlines between them, so that it holds
/// nothing else.
pub proof fn law_metadata_holds_nothing_else(item: ItemText)
    ensures
        item.metadata().len() <= item.title@.len() + item.authors@.len() + item.abstract_note@.len()
            + item.tags@.len() + 3,
        item.title@.len() == 0 && item.authors@.len() == 0 && item.abstract_note@.len() == 0
            && item.tags@.len() == 0 ==> item.metadata().len() == 0,
{
    reveal_strlit("\n");
    let four = seq![item.title@, item.authors@, item.abstract_note@, item.tags@];
    assert(four.drop_last() =~= seq![item.title@, item.authors@, item.abstract_note@]);
    assert(four.drop_last().drop_last() =~= seq![item.title@, item.authors@]);
    assert(four.drop_last().drop_last().drop_last() =~= seq![item.title@]);
    assert(four.drop_last().drop_last().drop_last().drop_last() =~= Seq::empty());
    reveal_with_fuel(non_empty, 5);
    lemma_joined_len(non_empty(four));
    reveal_with_fuel(lengths, 5);
    lemma_lengths(four);
}

spec fn lengths(parts: Seq<Seq<char>>) -> nat
    decreases parts.len(),
{
    if parts.len() == 0 {
        0
    } else {
        lengths(parts.drop_last()) + parts.last().len()
    }
}

proof fn lemma_lengths(parts: Seq<Seq<char>>)
    ensures
        lengths(non_empty(parts)) == lengths(parts),
        non_empty(parts).len() <= parts.len(),
    decreases parts.len(),
{
    if parts.len() > 0 {
        lemma_lengths(parts.drop_last());
        let head = non_empty(parts.drop_last());
        assert(head.push(parts.last()).drop_last() =~= head);
    }
}

proof fn lemma_joined_len(parts: Seq<Seq<char>>)
    ensures
        joined(parts, "\n"@).len() == lengths(parts) + if parts.len() > 0 {
            parts.len() - 1
        } else {
            0
        },
    decreases parts.len(),
{
    reveal_strlit("\n");
    if parts.len() > 0 {
        lemma_joined_len(parts.drop_last());
        if parts.len() == 1 {
            assert(parts.drop_last() =~= Seq::empty());
            assert(lengths(parts.drop_last()) == 0);
        }
    }
}

/// An item has one metadata chunk, first, and then only chunks of its fulltext; without a fulltext
/// it has no other.
pub proof fn law_first_chunk_is_the_metadata(item: ItemText)
    ensures
        chunks_of(item).len() >= 1,
        chunks_of(item)[0].chunk_type == ChunkType::Metadata,
        chunks_of(item)[0].text == item.metadata(),
        forall|k: int|
            1 <= k < chunks_of(item).len() ==> (#[trigger] chunks_of(item)[k]).chunk_type
                == ChunkType::Fulltext,
        item.fulltext is None ==> chunks_of(item).len() == 1,
        item.fulltext is Some && item.fulltext.unwrap()@.len() == 0 ==> chunks_of(item).len() == 1,
        item.fulltext is Some && item.fulltext.unwrap()@.len() > 0 ==> chunks_of(item).len() > 1,
        forall|k: int|
            0 <= k < chunks_of(item).len() ==> (#[trigger] chunks_of(item)[k]).item_key
                == item.item_key@,
{
}

/// Every character of an item's fulltext is in one of its chunks, at the place that the chunk says.
pub proof fn law_every_character_is_in_a_chunk(item: ItemText, i: int) -> (k: int)
    requires
        item.fulltext is Some,
        0 <= i < item.fulltext.unwrap()@.len(),
    ensures
        1 <= k < chunks_of(item).len(),
        chunks_of(item)[k].char_start <= i < chunks_of(item)[k].char_end,
        chunks_of(item)[k].text[i - chunks_of(item)[k].char_start] == item.fulltext.unwrap()@[i],
{
    let t = item.fulltext.unwrap()@;
    let k = law_chunks_cover(t.len() as int, 1500, 200, 0, i);
    law_chunks_overlap(t.len() as int, 1500, 200, 0, k);
    assert(item_spans(item) == spans(t.len() as int, 1500, 200, 0));
    k + 1
}

/// The fulltext chunks are runs of at most 1500 characters; all but the last have as many, and each
/// starts 1300 characters behind the one before, so that two neighbours share 200.
pub proof fn law_fulltext_chunk_sizes(item: ItemText, k: int)
    requires
        item.fulltext is Some,
        1 <= k < chunks_of(item).len(),
    ensures
        ({
            let t = item.fulltext.unwrap()@;
            let all = chunks_of(item);
            let c = all[k];
            &&& c.char_start == (k - 1) * 1300
            &&& c.char_end - c.char_start <= 1500
            &&& k + 1 < all.len() ==> c.char_end - c.char_start == 1500
            &&& k + 1 == all.len() ==> c.char_end == t.len()
            &&& c.text == t.subrange(c.char_start, c.char_end)
        }),
{
    let t = item.fulltext.unwrap()@;
    assert(item_spans(item) == spans(t.len() as int, 1500, 200, 0));
    lemma_span(t.len() as int, 0, k - 1);
}

proof fn lemma_span(len: int, start: int, k: int)
    requires
        0 <= start,
        0 <= k < spans(len, 1500, 200, start).len(),
    ensures
        ({
            let s = spans(len, 1500, 200, start);
            &&& s[k].0 == start + k * 1300
            &&& k + 1 < s.len() ==> s[k].1 == s[k].0 + 1500
            &&& k + 1 == s.len() ==> s[k].1 == len && s[k].1 - s[k].0 <= 1500
        }),
    decreases k,
{
    let s = spans(len, 1500, 200, start);
    if start + 1500 < len {
        let rest = spans(len, 1500, 200, start + 1300);
        assert(s =~= seq![(start, start + 1500)] + rest);
        if k > 0 {
            lemma_span(len, start + 1300, k - 1);
            assert(s[k] == rest[k - 1]);
        } else {
            assert(rest.len() > 0);
        }
    }
}

} // verus!
