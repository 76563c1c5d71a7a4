//! What holds of the index across runs.
use crate::commands::fulltext_cmd::part;
use crate::index::chunker::chunks_of;
use crate::index::chunker::law_chunks_overlap;
use crate::index::chunker::CHUNK_OVERLAP;
use crate::index::chunker::CHUNK_SIZE;
use crate::index::chunker::ItemText;
use crate::index::store::belongs;
use crate::index::store::changed_keys;
use crate::index::store::gone_keys;
use crate::index::store::is_changed;
use crate::index::store::is_outdated;
use crate::index::store::purged;
use crate::index::store::ItemStatusRecord;
use crate::index::store::STATUS_VERSION;
use crate::index::store::Vectors;
use crate::index::table::entry_keys;
use crate::index::table::entry_map;
use crate::index::table::lemma_entry_map;
use crate::text::decimal;
use vstd::prelude::*;

verus! {

proof fn lemma_nothing_changed(remote: Seq<(String, u64)>, local: Map<Seq<char>, u64>)
    requires
        forall|i: int|
            0 <= i < remote.len() ==> !is_changed(local, (#[trigger] remote[i]).0@, remote[i].1),
    ensures
        changed_keys(remote, local).len() == 0,
    decreases remote.len(),
{
    if remote.len() > 0 {
        let t = remote.drop_last();
        assert forall|i: int| 0 <= i < t.len() implies !is_changed(
            local,
            (#[trigger] t[i]).0@,
            t[i].1,
        ) by {
            assert(t[i] == remote[i]);
        }
        lemma_nothing_changed(t, local);
        assert(!is_changed(local, remote[remote.len() - 1].0@, remote[remote.len() - 1].1));
    }
}

proof fn lemma_nothing_gone(local: Seq<(String, u64)>, remote: Map<Seq<char>, u64>)
    requires
        forall|i: int| 0 <= i < local.len() ==> remote.contains_key((#[trigger] local[i]).0@),
    ensures
        gone_keys(local, remote).len() == 0,
    decreases local.len(),
{
    if local.len() > 0 {
        let t = local.drop_last();
        assert forall|i: int| 0 <= i < t.len() implies remote.contains_key((#[trigger] t[i]).0@) by {
            assert(t[i] == local[i]);
        }
        lemma_nothing_gone(t, remote);
        assert(remote.contains_key(local[local.len() - 1].0@));
    }
}

/// The keys to add are exactly those that are new or have another version, and the keys to delete
/// exactly those that are gone.
pub proof fn law_diff_is_exact(
    remote: Seq<(String, u64)>,
    local: Seq<(String, u64)>,
    k: Seq<char>,
)
    requires
        entry_keys(remote).no_duplicates(),
        entry_keys(local).no_duplicates(),
    ensures
        changed_keys(remote, entry_map(local)).contains(k) <==> entry_map(remote).contains_key(k)
            && is_changed(entry_map(local), k, entry_map(remote)[k]),
        gone_keys(local, entry_map(remote)).contains(k) <==> entry_map(local).contains_key(k)
            && !entry_map(remote).contains_key(k),
{
    lemma_entry_map(remote);
    lemma_entry_map(local);
    lemma_changed_members(remote, entry_map(local), k);
    lemma_gone_members(local, entry_map(remote), k);
    let rk = entry_keys(remote);
    let lk = entry_keys(local);
    if entry_map(remote).contains_key(k) {
        let i = choose|i: int| 0 <= i < rk.len() && rk[i] == k;
        assert(remote[i].0@ == k);
    }
    if entry_map(local).contains_key(k) {
        let i = choose|i: int| 0 <= i < lk.len() && lk[i] == k;
        assert(local[i].0@ == k);
    }
    if changed_keys(remote, entry_map(local)).contains(k) {
        let i = choose|i: int|
            0 <= i < remote.len() && (#[trigger] remote[i]).0@ == k && is_changed(
                entry_map(local),
                k,
                remote[i].1,
            );
        assert(rk[i] == k);
    }
    if gone_keys(local, entry_map(remote)).contains(k) {
        let i = choose|i: int| 0 <= i < local.len() && (#[trigger] local[i]).0@ == k;
        assert(lk[i] == k);
    }
}

proof fn lemma_changed_members(
    remote: Seq<(String, u64)>,
    local: Map<Seq<char>, u64>,
    k: Seq<char>,
)
    ensures
        changed_keys(remote, local).contains(k) <==> exists|i: int|
            0 <= i < remote.len() && (#[trigger] remote[i]).0@ == k && is_changed(
                local,
                k,
                remote[i].1,
            ),
    decreases remote.len(),
{
    if remote.len() > 0 {
        let t = remote.drop_last();
        let head = changed_keys(t, local);
        let all = changed_keys(remote, local);
        lemma_changed_members(t, local, k);
        let last = remote.last();
        assert(remote[remote.len() - 1] == last);
        if head.contains(k) {
            let i = choose|i: int|
                0 <= i < t.len() && (#[trigger] t[i]).0@ == k && is_changed(local, k, t[i].1);
            assert(remote[i].0@ == k);
            let j = choose|j: int| 0 <= j < head.len() && head[j] == k;
            assert(all[j] == k);
        }
        if all.contains(k) && !head.contains(k) {
            let j = choose|j: int| 0 <= j < all.len() && all[j] == k;
            if j < head.len() {
                assert(head[j] == k);
            }
        }
        if exists|i: int|
            0 <= i < remote.len() && (#[trigger] remote[i]).0@ == k && is_changed(
                local,
                k,
                remote[i].1,
            ) {
            let i = choose|i: int|
                0 <= i < remote.len() && (#[trigger] remote[i]).0@ == k && is_changed(
                    local,
                    k,
                    remote[i].1,
                );
            if i < t.len() {
                assert(t[i].0@ == k);
            } else {
                assert(all[all.len() - 1] == k);
            }
        }
    }
}

proof fn lemma_gone_members(local: Seq<(String, u64)>, remote: Map<Seq<char>, u64>, k: Seq<char>)
    ensures
        gone_keys(local, remote).contains(k) <==> (exists|i: int|
            0 <= i < local.len() && (#[trigger] local[i]).0@ == k) && !remote.contains_key(k),
    decreases local.len(),
{
    if local.len() > 0 {
        let t = local.drop_last();
        let head = gone_keys(t, remote);
        let all = gone_keys(local, remote);
        lemma_gone_members(t, remote, k);
        let last = local.last();
        assert(local[local.len() - 1] == last);
        if head.contains(k) {
            let i = choose|i: int| 0 <= i < t.len() && (#[trigger] t[i]).0@ == k;
            assert(local[i].0@ == k);
            let j = choose|j: int| 0 <= j < head.len() && head[j] == k;
            assert(all[j] == k);
        }
        if all.contains(k) && !head.contains(k) {
            let j = choose|j: int| 0 <= j < all.len() && all[j] == k;
            if j < head.len() {
                assert(head[j] == k);
            }
        }
        if !remote.contains_key(k) && exists|i: int|
            0 <= i < local.len() && (#[trigger] local[i]).0@ == k {
            let i = choose|i: int| 0 <= i < local.len() && (#[trigger] local[i]).0@ == k;
            if i < t.len() {
                assert(t[i].0@ == k);
            } else {
                assert(all[all.len() - 1] == k);
            }
        }
    }
}

/// An index with the versions of the library is not stale.
pub proof fn law_same_versions_not_stale(versions: Seq<(String, u64)>)
    requires
        entry_keys(versions).no_duplicates(),
    ensures
        changed_keys(versions, entry_map(versions)).len() == 0,
        gone_keys(versions, entry_map(versions)).len() == 0,
{
    lemma_entry_map(versions);
    lemma_nothing_changed(versions, entry_map(versions));
    lemma_nothing_gone(versions, entry_map(versions));
}

/// After a run that indexed everything that was new or changed, the index is not stale.
pub proof fn law_complete_run_not_stale(
    remote: Seq<(String, u64)>,
    before: Map<Seq<char>, u64>,
    indexed: Map<Seq<char>, u64>,
    after: Seq<(String, u64)>,
)
    requires
        entry_keys(remote).no_duplicates(),
        entry_keys(after).no_duplicates(),
        entry_map(after) == before.restrict(entry_map(remote).dom()).union_prefer_right(indexed),
        forall|k: Seq<char>| #[trigger]
            indexed.contains_key(k) ==> entry_map(remote).contains_key(k) && indexed[k] == entry_map(
                remote,
            )[k],
        forall|i: int|
            0 <= i < remote.len() && is_changed(before, (#[trigger] remote[i]).0@, remote[i].1)
                ==> indexed.contains_key(remote[i].0@),
    ensures
        changed_keys(remote, entry_map(after)).len() == 0,
        gone_keys(after, entry_map(remote)).len() == 0,
{
    lemma_entry_map(remote);
    lemma_entry_map(after);
    assert forall|i: int| 0 <= i < remote.len() implies !is_changed(
        entry_map(after),
        (#[trigger] remote[i]).0@,
        remote[i].1,
    ) by {
        let k = remote[i].0@;
        assert(entry_map(remote).contains_key(k));
        if !indexed.contains_key(k) {
            assert(!is_changed(before, k, remote[i].1));
        }
    }
    lemma_nothing_changed(remote, entry_map(after));
    assert forall|i: int| 0 <= i < after.len() implies entry_map(remote).contains_key(
        (#[trigger] after[i]).0@,
    ) by {
        assert(entry_map(after).contains_key(after[i].0@));
    }
    lemma_nothing_gone(after, entry_map(remote));
}

/// A status that was recorded now is not queued again for having been recorded by an older logic.
pub proof fn law_recorded_status_is_current(record: ItemStatusRecord)
    ensures
        !is_outdated(ItemStatusRecord { status_version: STATUS_VERSION, ..record }),
{
}

/// The IDs of an item's chunks belong to the item.
pub proof fn law_chunks_belong_to_their_item(item: ItemText, i: int)
    requires
        0 <= i < chunks_of(item).len(),
    ensures
        belongs(chunks_of(item)[i].chunk_id, item.item_key@),
{
    let key = item.item_key@;
    reveal_strlit("_");
    reveal_strlit("_meta");
    if i == 0 {
        let id = key + "_meta"@;
        assert(id.subrange(0, (key + "_"@).len() as int) =~= key + "_"@);
    } else {
        let id = key + "_"@ + decimal((i - 1) as nat);
        assert(id.subrange(0, (key + "_"@).len() as int) =~= key + "_"@);
    }
}

/// No chunk of one item belongs to another, also where one key is a prefix of the other: item keys
/// hold no underscore.
pub proof fn law_chunks_belong_to_no_other_item(item: ItemText, i: int, other: Seq<char>)
    requires
        0 <= i < chunks_of(item).len(),
        other != item.item_key@,
        !other.contains('_'),
        !item.item_key@.contains('_'),
    ensures
        !belongs(chunks_of(item)[i].chunk_id, other),
{
    let key = item.item_key@;
    let id = chunks_of(item)[i].chunk_id;
    law_chunks_belong_to_their_item(item, i);
    reveal_strlit("_");
    reveal_strlit("_meta");
    assert(id.len() > key.len() && id[key.len() as int] == '_') by {
        if i == 0 {
            assert((key + "_meta"@)[key.len() as int] == '_');
        } else {
            assert((key + "_"@ + decimal((i - 1) as nat))[key.len() as int] == '_');
        }
    }
    if belongs(id, other) {
        if id == other {
            assert(other[key.len() as int] == '_');
        } else {
            let p = other + "_"@;
            assert(id.subrange(0, p.len() as int) == p);
            assert(p[other.len() as int] == '_');
            assert(id[other.len() as int] == '_');
            if other.len() < key.len() {
                assert(key[other.len() as int] == id[other.len() as int]) by {
                    if i == 0 {
                        assert((key + "_meta"@)[other.len() as int] == key[other.len() as int]);
                    } else {
                        assert((key + "_"@ + decimal((i - 1) as nat))[other.len() as int]
                            == key[other.len() as int]);
                    }
                }
            } else if other.len() > key.len() {
                assert(p[key.len() as int] == other[key.len() as int]);
                assert(id[key.len() as int] == p[key.len() as int]);
            } else {
                assert(other =~= key) by {
                    assert forall|j: int| 0 <= j < key.len() implies other[j] == key[j] by {
                        assert(p[j] == other[j]);
                        assert(id[j] == p[j]);
                        if i == 0 {
                            assert((key + "_meta"@)[j] == key[j]);
                        } else {
                            assert((key + "_"@ + decimal((i - 1) as nat))[j] == key[j]);
                        }
                    }
                }
            }
        }
    }
}

/// Purging an item keeps every vector of the others and none of its own.
pub proof fn law_purge_is_exact(v: Vectors, key: Seq<char>, x: (Seq<char>, Seq<u32>))
    ensures
        purged(v, key).contains(x) <==> v.contains(x) && !belongs(x.0, key),
    decreases v.len(),
{
    if v.len() > 0 {
        let t = v.drop_last();
        let head = purged(t, key);
        let all = purged(v, key);
        law_purge_is_exact(t, key, x);
        assert(v[v.len() - 1] == v.last());
        if v.contains(x) {
            let i = choose|i: int| 0 <= i < v.len() && v[i] == x;
            if i < t.len() {
                assert(t[i] == x);
            } else if !belongs(x.0, key) {
                assert(all[all.len() - 1] == x);
            }
        }
        if t.contains(x) {
            let i = choose|i: int| 0 <= i < t.len() && t[i] == x;
            assert(v[i] == x);
        }
        if head.contains(x) {
            let i = choose|i: int| 0 <= i < head.len() && head[i] == x;
            assert(all[i] == x);
        }
        if all.contains(x) {
            let i = choose|i: int| 0 <= i < all.len() && all[i] == x;
            if i < head.len() {
                assert(head[i] == x);
            }
        }
    }
}

proof fn lemma_purge_none(v: Vectors, key: Seq<char>)
    requires
        forall|i: int| 0 <= i < v.len() ==> !belongs((#[trigger] v[i]).0, key),
    ensures
        purged(v, key) == v,
    decreases v.len(),
{
    if v.len() > 0 {
        let t = v.drop_last();
        assert forall|i: int| 0 <= i < t.len() implies !belongs((#[trigger] t[i]).0, key) by {
            assert(t[i] == v[i]);
        }
        lemma_purge_none(t, key);
        assert(!belongs(v[v.len() - 1].0, key));
        assert(t.push(v.last()) =~= v);
    }
}

proof fn lemma_purge_tail(v: Vectors, more: Vectors, key: Seq<char>)
    requires
        forall|i: int| 0 <= i < more.len() ==> belongs((#[trigger] more[i]).0, key),
    ensures
        purged(v + more, key) == purged(v, key),
    decreases more.len(),
{
    if more.len() == 0 {
        assert(v + more =~= v);
    } else {
        let t = more.drop_last();
        assert forall|i: int| 0 <= i < t.len() implies belongs((#[trigger] t[i]).0, key) by {
            assert(t[i] == more[i]);
        }
        lemma_purge_tail(v, t, key);
        assert((v + more).drop_last() =~= v + t);
        assert(belongs(more[more.len() - 1].0, key));
    }
}

/// Indexing an item again replaces its vectors: only those of the last time remain.
pub proof fn law_reindexing_replaces(v: Vectors, once: Vectors, again: Vectors, key: Seq<char>)
    requires
        forall|i: int| 0 <= i < once.len() ==> belongs((#[trigger] once[i]).0, key),
    ensures
        purged(purged(v, key) + once, key) + again == purged(v, key) + again,
{
    lemma_purge_tail(purged(v, key), once, key);
    let kept = purged(v, key);
    assert forall|i: int| 0 <= i < kept.len() implies !belongs((#[trigger] kept[i]).0, key) by {
        law_purge_is_exact(v, key, kept[i]);
        assert(kept.contains(kept[i]));
    }
    lemma_purge_none(kept, key);
}

/// The positions that a fulltext chunk carries cut exactly its text out of the item's fulltext.
pub proof fn law_chunk_is_its_window(item: ItemText, i: int)
    requires
        item.fulltext is Some,
        0 < i < chunks_of(item).len(),
    ensures
        part(
            item.fulltext.unwrap()@,
            chunks_of(item)[i].char_start,
            chunks_of(item)[i].char_end,
        ) == chunks_of(item)[i].text,
{
    let len = item.fulltext.unwrap()@.len() as int;
    law_chunks_overlap(len, CHUNK_SIZE as int, CHUNK_OVERLAP as int, 0, i - 1);
}

} // verus!
