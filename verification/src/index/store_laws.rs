//! What the index keeps, drops and looks for.
use crate::commands::search_cmd::note_of;
use crate::index::chunker::Chunk;
use crate::index::documents::tag_parts;
use crate::index::laws::law_purge_is_exact;
use crate::index::store::belongs;
use crate::index::store::embedded;
use crate::index::store::is_changed;
use crate::index::store::missing_keys;
use crate::index::store::purged_all;
use crate::index::store::removed_all;
use crate::index::store::textless;
use crate::index::store::untracked_keys;
use crate::index::store::FilterField;
use crate::index::store::ItemStatusRecord;
use crate::index::store::SearchFilters;
use crate::index::store::Vectors;
use crate::lines::joined;
use vstd::prelude::*;

verus! {

/// An item is new or changed exactly where the index does not have it at the version that the library
/// reports.
pub proof fn law_changed_items(local: Map<Seq<char>, u64>, key: Seq<char>, version: u64)
    ensures
        is_changed(local, key, version) <==> !(local.contains_key(key) && local[key] == version),
{
}

/// Deleting items takes out their records and no other.
pub proof fn law_deleted_records_go<V>(m: Map<Seq<char>, V>, keys: Seq<Seq<char>>, k: Seq<char>)
    ensures
        removed_all(m, keys).contains_key(k) <==> m.contains_key(k) && !keys.contains(k),
        removed_all(m, keys).contains_key(k) ==> removed_all(m, keys)[k] == m[k],
    decreases keys.len(),
{
    if keys.len() > 0 {
        let t = keys.drop_last();
        law_deleted_records_go(m, t, k);
        assert(keys[keys.len() - 1] == keys.last());
        if keys.contains(k) {
            let i = choose|i: int| 0 <= i < keys.len() && keys[i] == k;
            if i < t.len() {
                assert(t[i] == k);
            }
        }
        if t.contains(k) {
            let i = choose|i: int| 0 <= i < t.len() && t[i] == k;
            assert(keys[i] == k);
        }
    }
}

/// Deleting items takes out the vectors of their chunks and no other.
pub proof fn law_deleted_vectors_go(
    v: Vectors,
    keys: Seq<Seq<char>>,
    x: (Seq<char>, Seq<u32>),
)
    ensures
        purged_all(v, keys).contains(x) <==> v.contains(x) && forall|i: int|
            0 <= i < keys.len() ==> !belongs(x.0, #[trigger] keys[i]),
    decreases keys.len(),
{
    if keys.len() > 0 {
        let t = keys.drop_last();
        law_deleted_vectors_go(v, t, x);
        law_purge_is_exact(purged_all(v, t), keys.last(), x);
        assert(keys[keys.len() - 1] == keys.last());
        if forall|i: int| 0 <= i < t.len() ==> !belongs(x.0, #[trigger] t[i]) {
            if !belongs(x.0, keys.last()) {
                assert forall|i: int| 0 <= i < keys.len() implies !belongs(
                    x.0,
                    #[trigger] keys[i],
                ) by {
                    if i < t.len() {
                        assert(t[i] == keys[i]);
                    }
                }
            }
        }
        if forall|i: int| 0 <= i < keys.len() ==> !belongs(x.0, #[trigger] keys[i]) {
            assert forall|i: int| 0 <= i < t.len() implies !belongs(x.0, #[trigger] t[i]) by {
                assert(t[i] == keys[i]);
            }
        }
    }
}

/// Every chunk of an item gets the vector that was made for it.
pub proof fn law_every_chunk_is_stored(chunks: Seq<Chunk>, embeddings: Seq<Vec<u32>>, i: int)
    requires
        chunks.len() == embeddings.len(),
        0 <= i < chunks.len(),
    ensures
        embedded(chunks, embeddings).len() == chunks.len(),
        embedded(chunks, embeddings)[i] == (chunks[i].chunk_id@, embeddings[i]@),
{
}

/// The items that are found to lack chunks are exactly the recorded ones that have none.
pub proof fn law_missing_items(
    entries: Seq<(String, u64)>,
    have: Seq<Seq<char>>,
    k: Seq<char>,
)
    ensures
        missing_keys(entries, have).contains(k) <==> !have.contains(k) && exists|i: int|
            0 <= i < entries.len() && (#[trigger] entries[i]).0@ == k,
    decreases entries.len(),
{
    if entries.len() > 0 {
        let t = entries.drop_last();
        law_missing_items(t, have, k);
        let head = missing_keys(t, have);
        let all = missing_keys(entries, have);
        assert(entries[entries.len() - 1] == entries.last());
        if exists|i: int| 0 <= i < t.len() && (#[trigger] t[i]).0@ == k {
            let i = choose|i: int| 0 <= i < t.len() && (#[trigger] t[i]).0@ == k;
            assert(entries[i].0@ == k);
        }
        if exists|i: int| 0 <= i < entries.len() && (#[trigger] entries[i]).0@ == k {
            let i = choose|i: int| 0 <= i < entries.len() && (#[trigger] entries[i]).0@ == k;
            if i < t.len() {
                assert(t[i].0@ == k);
            }
        }
        if head.contains(k) {
            let i = choose|i: int| 0 <= i < head.len() && head[i] == k;
            assert(all[i] == k);
        }
        if all.contains(k) {
            let i = choose|i: int| 0 <= i < all.len() && all[i] == k;
            if i < head.len() {
                assert(head[i] == k);
            }
        }
        if k == entries.last().0@ && !have.contains(k) {
            assert(all[all.len() - 1] == k);
        }
    }
}

/// The items that are found to be of unknown state are exactly those without a fulltext and without a
/// status.
pub proof fn law_untracked_items(
    docs: Seq<(String, Option<String>)>,
    recorded: Map<Seq<char>, ItemStatusRecord>,
    k: Seq<char>,
)
    ensures
        untracked_keys(docs, recorded).contains(k) <==> !recorded.contains_key(k) && exists|i: int|
            0 <= i < docs.len() && (#[trigger] docs[i]).0@ == k && (docs[i].1 is None
                || docs[i].1.unwrap()@.len() == 0),
    decreases docs.len(),
{
    if docs.len() > 0 {
        let t = docs.drop_last();
        law_untracked_items(t, recorded, k);
        let head = untracked_keys(t, recorded);
        let all = untracked_keys(docs, recorded);
        assert(docs[docs.len() - 1] == docs.last());
        if exists|i: int|
            0 <= i < t.len() && (#[trigger] t[i]).0@ == k && (t[i].1 is None
                || t[i].1.unwrap()@.len() == 0) {
            let i = choose|i: int|
                0 <= i < t.len() && (#[trigger] t[i]).0@ == k && (t[i].1 is None
                    || t[i].1.unwrap()@.len() == 0);
            assert(docs[i].0@ == k);
        }
        if exists|i: int|
            0 <= i < docs.len() && (#[trigger] docs[i]).0@ == k && (docs[i].1 is None
                || docs[i].1.unwrap()@.len() == 0) {
            let i = choose|i: int|
                0 <= i < docs.len() && (#[trigger] docs[i]).0@ == k && (docs[i].1 is None
                    || docs[i].1.unwrap()@.len() == 0);
            if i < t.len() {
                assert(t[i].0@ == k);
            }
        }
        if head.contains(k) {
            let i = choose|i: int| 0 <= i < head.len() && head[i] == k;
            assert(all[i] == k);
        }
        if all.contains(k) {
            let i = choose|i: int| 0 <= i < all.len() && all[i] == k;
            if i < head.len() {
                assert(head[i] == k);
            }
        }
        if all.len() > head.len() {
            assert(all[all.len() - 1] == docs.last().0@);
        }
    }
}

/// The number of items without fulltext counts those whose fulltext is missing or empty.
pub proof fn law_textless_items(docs: Seq<Option<String>>)
    ensures
        textless(docs) == docs.filter(
            |d: Option<String>| d is None || d.unwrap()@.len() == 0,
        ).len(),
    decreases docs.len(),
{
    reveal(Seq::filter);
    if docs.len() > 0 {
        law_textless_items(docs.drop_last());
    }
}

/// A search is confined by every filter that is given, each on its own field, and by nothing else.
pub proof fn law_filters_confine(f: &SearchFilters, field: FilterField, v: Seq<char>)
    ensures
        f.required().contains((field, v)) <==> (field == FilterField::Tags && f.tag is Some
            && f.tag.unwrap()@ == v) || (field == FilterField::ItemType && f.item_type is Some
            && f.item_type.unwrap()@ == v) || (field == FilterField::Collections && f.collection
            is Some && f.collection.unwrap()@ == v),
{
    let a = match f.tag {
        Some(v) => seq![(FilterField::Tags, v@)],
        None => Seq::empty(),
    };
    let b = match f.item_type {
        Some(v) => a.push((FilterField::ItemType, v@)),
        None => a,
    };
    let all = f.required();
    if f.tag is Some {
        assert(all[0] == (FilterField::Tags, f.tag.unwrap()@));
    }
    if f.item_type is Some {
        assert(all[a.len() as int] == (FilterField::ItemType, f.item_type.unwrap()@));
    }
    if f.collection is Some {
        assert(all[b.len() as int] == (FilterField::Collections, f.collection.unwrap()@));
    }
    if all.contains((field, v)) {
        let i = choose|i: int| 0 <= i < all.len() && all[i] == (field, v);
    }
}

/// A note on the state of the index is given wherever anything is new, changed or gone, or the
/// library cannot be asked, and only there.
pub proof fn law_freshness_note(added: nat, removed: nat)
    ensures
        note_of(None) is Some,
        note_of(Some((added, removed))) is None <==> added + removed == 0,
{
}

/// A tag that can be told apart from its neighbours.
pub open spec fn plain_tag(t: Seq<char>) -> bool {
    t.len() > 0 && !t.contains(',')
}

proof fn lemma_tag_scan(s: Seq<char>, start: int, i: int, end: int)
    requires
        0 <= start <= i <= end <= s.len(),
        forall|k: int| i <= k < end ==> #[trigger] s[k] != ',',
    ensures
        tag_parts(s, start, i) == tag_parts(s, start, end),
    decreases end - i,
{
    if i < end {
        assert(s[i] != ',');
        lemma_tag_scan(s, start, i + 1, end);
    }
}

/// Tags that are joined by commas are read back as they were, where none of them holds a comma.
pub proof fn law_tags_read_back(tags: Seq<Seq<char>>)
    requires
        forall|i: int| 0 <= i < tags.len() ==> plain_tag(#[trigger] tags[i]),
    ensures
        tag_parts(joined(tags, ", "@), 0, 0) == tags,
{
    let s = joined(tags, ", "@);
    if tags.len() == 0 {
        assert(s =~= Seq::empty());
        assert(tag_parts(s, 0, 0) =~= tags);
    } else {
        lemma_tags_from(tags, 0);
        assert(tags.skip(0) =~= tags);
        assert(joined(tags.take(0), ", "@) =~= Seq::empty());
    }
}

/// Where the tag at `k` starts in the joined text.
spec fn tag_start(tags: Seq<Seq<char>>, k: int) -> int {
    if k <= 0 {
        0
    } else {
        joined(tags.take(k), ", "@).len() as int + 2
    }
}

proof fn lemma_joined_split(tags: Seq<Seq<char>>, k: int)
    requires
        0 <= k < tags.len(),
    ensures
        ({
            let s = joined(tags, ", "@);
            let a = tag_start(tags, k);
            let e = a + tags[k].len();
            &&& 0 <= a && e <= s.len()
            &&& s.subrange(a, e) == tags[k]
            &&& k + 1 == tags.len() ==> e == s.len()
            &&& k + 1 < tags.len() ==> e + 2 <= s.len() && s[e] == ',' && s[e + 1] == ' '
                && tag_start(tags, k + 1) == e + 2
        }),
    decreases tags.len(),
{
    reveal_strlit(", ");
    let s = joined(tags, ", "@);
    let a = tag_start(tags, k);
    let e = a + tags[k].len();
    if k + 1 == tags.len() {
        if k == 0 {
            assert(s.subrange(0, s.len() as int) =~= s);
        } else {
            assert(tags.take(k) =~= tags.drop_last());
            assert(s.subrange(a, e) =~= tags[k]);
        }
    } else {
        let t = tags.drop_last();
        lemma_joined_split(t, k);
        let h = joined(t, ", "@);
        assert(t.take(k) =~= tags.take(k));
        assert(t[k] == tags[k]);
        assert(s == h + ", "@ + tags.last());
        assert(s.subrange(a, e) =~= h.subrange(a, e));
        assert(tags.take(k + 1).drop_last() =~= tags.take(k));
        if k + 1 < t.len() {
            assert(t.take(k + 1) =~= tags.take(k + 1));
            assert(s[e] == h[e] && s[e + 1] == h[e + 1]);
        } else {
            assert(tags.take(k + 1) =~= t);
            assert(s[e] == ", "@[0] && s[e + 1] == ", "@[1]);
        }
    }
}

proof fn lemma_tags_from(tags: Seq<Seq<char>>, k: int)
    requires
        0 <= k < tags.len(),
        forall|i: int| 0 <= i < tags.len() ==> plain_tag(#[trigger] tags[i]),
    ensures
        tag_parts(joined(tags, ", "@), tag_start(tags, k), tag_start(tags, k)) == tags.skip(k),
    decreases tags.len() - k,
{
    let s = joined(tags, ", "@);
    let a = tag_start(tags, k);
    let e = a + tags[k].len();
    lemma_joined_split(tags, k);
    assert(plain_tag(tags[k]));
    assert forall|i: int| a <= i < e implies #[trigger] s[i] != ',' by {
        assert(s.subrange(a, e)[i - a] == s[i]);
        assert(tags[k].contains(tags[k][i - a]));
    }
    lemma_tag_scan(s, a, a, e);
    if k + 1 == tags.len() {
        assert(s.skip(a) =~= s.subrange(a, e));
        assert(tag_parts(s, a, e) =~= seq![tags[k]]);
        assert(tags.skip(k) =~= seq![tags[k]]);
    } else {
        lemma_tags_from(tags, k + 1);
        assert(tag_parts(s, a, e) =~= seq![tags[k]] + tags.skip(k + 1));
        assert(tags.skip(k) =~= seq![tags[k]] + tags.skip(k + 1));
    }
}

} // verus!
