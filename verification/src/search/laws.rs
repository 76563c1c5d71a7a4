//! What a search returns, in terms of the candidates it is given.
use crate::search::hybrid::allowed_positions;
use crate::search::hybrid::before;
use crate::search::hybrid::chosen_among;
use crate::search::hybrid::is_best;
use crate::search::hybrid::is_ranking;
use crate::search::hybrid::is_top;
use crate::search::hybrid::kept_without;
use crate::search::hybrid::law_one_result_per_item;
use crate::search::hybrid::lemma_kept_without;
use crate::search::hybrid::lemma_to_beat;
use crate::search::hybrid::one_per_item;
use crate::search::hybrid::reranker_decides;
use crate::search::hybrid::rescored;
use crate::search::hybrid::scores_at;
use crate::search::hybrid::to_beat;
use crate::search::hybrid::top_by_fusion;
use crate::search::hybrid::top_by_reranker;
use crate::search::hybrid::usable;
use crate::search::hybrid::with_rank;
use crate::search::hybrid::with_ranks;
use crate::search::hybrid::Candidate;
use crate::search::hybrid::Hit;
use crate::search::hybrid::Ranked;
use vstd::prelude::*;

verus! {

/// A ranking holds every position.
proof fn lemma_ranking_onto(ranking: Seq<int>, keys: Seq<i64>, p: int) -> (i: int)
    requires
        is_ranking(ranking, keys),
        0 <= p < keys.len(),
    ensures
        0 <= i < ranking.len(),
        ranking[i] == p,
{
    let n = keys.len() as int;
    assert(ranking.no_duplicates()) by {
        assert forall|i: int, j: int|
            0 <= i < ranking.len() && 0 <= j < ranking.len() && i != j implies ranking[i]
            != ranking[j] by {
            if i < j {
                assert(before(keys, ranking[i], ranking[j]));
            } else {
                assert(before(keys, ranking[j], ranking[i]));
            }
        }
    }
    ranking.unique_seq_to_set();
    vstd::set_lib::lemma_int_range(0, n);
    assert(ranking.to_set().subset_of(vstd::set_lib::set_int_range(0, n))) by {
        assert forall|x: int| ranking.to_set().contains(x) implies vstd::set_lib::set_int_range(
            0,
            n,
        ).contains(x) by {
            let j = choose|j: int| 0 <= j < ranking.len() && ranking[j] == x;
        }
    }
    vstd::set_lib::lemma_subset_equality(ranking.to_set(), vstd::set_lib::set_int_range(0, n));
    assert(vstd::set_lib::set_int_range(0, n).contains(p));
    assert(ranking.contains(p));
    choose|i: int| 0 <= i < ranking.len() && ranking[i] == p
}

/// The best positions by key: as many as asked for, as far as there are any, each once, the highest
/// key first and of equal keys the earlier position, and no other position comes before one of them.
pub proof fn law_best_leaves_nothing_better(r: Seq<int>, keys: Seq<i64>, limit: nat)
    requires
        is_best(r, keys, limit),
    ensures
        r.len() <= limit && r.len() <= keys.len(),
        r.len() == limit || r.len() == keys.len(),
        forall|i: int| 0 <= i < r.len() ==> 0 <= #[trigger] r[i] < keys.len(),
        forall|i: int, j: int|
            0 <= i < j < r.len() ==> keys[#[trigger] r[i]] > keys[#[trigger] r[j]] || (keys[r[i]]
                == keys[r[j]] && r[i] < r[j]),
        forall|p: int, i: int|
            0 <= p < keys.len() && !r.contains(p) && 0 <= i < r.len() ==> #[trigger] keys[p]
                < keys[#[trigger] r[i]] || (keys[p] == keys[r[i]] && r[i] < p),
{
    let ranking = choose|ranking: Seq<int>|
        #![trigger is_ranking(ranking, keys)]
        is_ranking(ranking, keys) && r == ranking.take(
            if keys.len() < limit {
                keys.len() as int
            } else {
                limit as int
            },
        );
    assert forall|i: int, j: int| 0 <= i < j < r.len() implies keys[#[trigger] r[i]]
        > keys[#[trigger] r[j]] || (keys[r[i]] == keys[r[j]] && r[i] < r[j]) by {
        assert(before(keys, ranking[i], ranking[j]));
    }
    assert forall|p: int, i: int|
        0 <= p < keys.len() && !r.contains(p) && 0 <= i < r.len() implies #[trigger] keys[p]
        < keys[#[trigger] r[i]] || (keys[p] == keys[r[i]] && r[i] < p) by {
        let q = lemma_ranking_onto(ranking, keys, p);
        if q < r.len() {
            assert(r[q] == p);
        }
        assert(before(keys, ranking[i], ranking[q]));
    }
}

/// A search without a list of allowed IDs looks at every chunk, and one with such a list at exactly
/// the chunks that it names, in order.
pub proof fn law_searchable_chunks(
    ids: Seq<Seq<char>>,
    allowed: Option<Seq<Seq<char>>>,
    n: int,
)
    requires
        0 <= n <= ids.len(),
    ensures
        forall|p: int| #[trigger]
            allowed_positions(ids, allowed, n).contains(p) <==> 0 <= p < n && (allowed is None
                || allowed.unwrap().contains(ids[p])),
        forall|i: int, j: int|
            0 <= i < j < allowed_positions(ids, allowed, n).len() ==> #[trigger] allowed_positions(
                ids,
                allowed,
                n,
            )[i] < #[trigger] allowed_positions(ids, allowed, n)[j],
    decreases n,
{
    let all = allowed_positions(ids, allowed, n);
    if n > 0 {
        law_searchable_chunks(ids, allowed, n - 1);
        let head = allowed_positions(ids, allowed, n - 1);
        assert forall|p: int| #[trigger] all.contains(p) <==> 0 <= p < n && (allowed is None
            || allowed.unwrap().contains(ids[p])) by {
            assert(head.contains(p) <==> 0 <= p < n - 1 && (allowed is None
                || allowed.unwrap().contains(ids[p])));
            if head.contains(p) {
                let k = choose|k: int| 0 <= k < head.len() && head[k] == p;
                assert(all[k] == p);
            }
            if all.contains(p) {
                let k = choose|k: int| 0 <= k < all.len() && all[k] == p;
                if k < head.len() {
                    assert(head[k] == p);
                }
            }
            if all.len() > head.len() {
                assert(all[all.len() - 1] == n - 1);
            }
        }
        assert forall|i: int, j: int| 0 <= i < j < all.len() implies #[trigger] all[i]
            < #[trigger] all[j] by {
            if j < head.len() {
                assert(head[i] < head[j]);
            } else {
                assert(head.contains(head[i]));
            }
        }
    }
}

/// Whether an ID is listed with a rank.
pub open spec fn has_rank(s: Seq<Ranked>, id: Seq<char>, rank: int) -> bool {
    exists|k: int| 0 <= k < s.len() && (#[trigger] s[k]).0 == id && s[k].1.contains(rank)
}

/// Whether no ID is listed twice.
pub open spec fn each_id_once(s: Seq<Ranked>) -> bool {
    forall|i: int, j: int| 0 <= i < j < s.len() ==> (#[trigger] s[i]).0 != (#[trigger] s[j]).0
}

/// How many ranks a list holds in all.
pub open spec fn rank_count(s: Seq<Ranked>) -> nat
    decreases s.len(),
{
    if s.len() == 0 {
        0
    } else {
        s[0].1.len() + rank_count(s.drop_first())
    }
}

proof fn lemma_with_rank(s: Seq<Ranked>, id: Seq<char>, rank: int, other: Seq<char>, o: int)
    ensures
        has_rank(with_rank(s, id, rank), other, o) <==> has_rank(s, other, o) || (other == id && o
            == rank),
        each_id_once(s) ==> each_id_once(with_rank(s, id, rank)),
        rank_count(with_rank(s, id, rank)) == rank_count(s) + 1,
        forall|k: int|
            0 <= k < with_rank(s, id, rank).len() ==> (#[trigger] with_rank(s, id, rank)[k]).0 == id
                || exists|j: int| 0 <= j < s.len() && (#[trigger] s[j]).0 == with_rank(
                s,
                id,
                rank,
            )[k].0,
    decreases s.len(),
{
    let r = with_rank(s, id, rank);
    if s.len() == 0 {
        assert(r[0].1[0] == rank);
        assert(r.drop_first() =~= Seq::empty());
        assert(rank_count(r.drop_first()) == 0);
        if other == id && o == rank {
            assert(r[0].0 == other && r[0].1.contains(o));
        }
        if has_rank(r, other, o) {
            let k = choose|k: int| 0 <= k < r.len() && (#[trigger] r[k]).0 == other && r[k].1.contains(o);
            let m = choose|m: int| 0 <= m < r[k].1.len() && r[k].1[m] == o;
        }
    } else if s[0].0 == id {
        let t = s.drop_first();
        let old = s[0].1;
        assert(r.drop_first() =~= t);
        assert(old.push(rank)[old.len() as int] == rank);
        assert forall|k: int| 1 <= k < s.len() implies #[trigger] r[k] == s[k] by {
            assert(t[k - 1] == s[k]);
        }
        if has_rank(s, other, o) {
            let k = choose|k: int| 0 <= k < s.len() && (#[trigger] s[k]).0 == other && s[k].1.contains(o);
            if k == 0 {
                let m = choose|m: int| 0 <= m < old.len() && old[m] == o;
                assert(old.push(rank)[m] == o);
            }
            assert(r[k].0 == other && r[k].1.contains(o));
        }
        if other == id && o == rank {
            assert(r[0].0 == other && r[0].1.contains(o));
        }
        if has_rank(r, other, o) {
            let k = choose|k: int| 0 <= k < r.len() && (#[trigger] r[k]).0 == other && r[k].1.contains(o);
            if k == 0 {
                let m = choose|m: int| 0 <= m < r[0].1.len() && r[0].1[m] == o;
                if m < old.len() {
                    assert(old[m] == o);
                    assert(s[0].0 == other && s[0].1.contains(o));
                }
            } else {
                assert(s[k].0 == other && s[k].1.contains(o));
            }
        }
        if each_id_once(s) {
            assert forall|i: int, j: int| 0 <= i < j < r.len() implies (#[trigger] r[i]).0 != (
            #[trigger] r[j]).0 by {
                assert(s[i].0 != s[j].0);
            }
        }
        assert forall|k: int| 0 <= k < r.len() implies (#[trigger] r[k]).0 == id || exists|j: int|
            0 <= j < s.len() && (#[trigger] s[j]).0 == r[k].0 by {
            assert(s[k].0 == r[k].0);
        }
    } else {
        let t = s.drop_first();
        let rt = with_rank(t, id, rank);
        lemma_with_rank(t, id, rank, other, o);
        assert(r.drop_first() =~= rt);
        assert(r[0] == s[0]);
        assert forall|k: int| 1 <= k < r.len() implies #[trigger] r[k] == rt[k - 1] by {}
        if has_rank(s, other, o) {
            let k = choose|k: int| 0 <= k < s.len() && (#[trigger] s[k]).0 == other && s[k].1.contains(o);
            if k == 0 {
                assert(r[0].0 == other && r[0].1.contains(o));
            } else {
                assert(t[k - 1].0 == other && t[k - 1].1.contains(o));
            }
        }
        if has_rank(rt, other, o) {
            let k = choose|k: int| 0 <= k < rt.len() && (#[trigger] rt[k]).0 == other && rt[k].1.contains(o);
            assert(r[k + 1].0 == other && r[k + 1].1.contains(o));
        }
        if has_rank(t, other, o) {
            let k = choose|k: int| 0 <= k < t.len() && (#[trigger] t[k]).0 == other && t[k].1.contains(o);
            assert(s[k + 1].0 == other && s[k + 1].1.contains(o));
        }
        if has_rank(r, other, o) {
            let k = choose|k: int| 0 <= k < r.len() && (#[trigger] r[k]).0 == other && r[k].1.contains(o);
            if k == 0 {
                assert(s[0].0 == other && s[0].1.contains(o));
            } else {
                assert(rt[k - 1].0 == other && rt[k - 1].1.contains(o));
            }
        }
        assert forall|k: int| 0 <= k < r.len() implies (#[trigger] r[k]).0 == id || exists|j: int|
            0 <= j < s.len() && (#[trigger] s[j]).0 == r[k].0 by {
            if k == 0 {
                assert(s[0].0 == r[0].0);
            } else if rt[k - 1].0 != id {
                let j = choose|j: int| 0 <= j < t.len() && (#[trigger] t[j]).0 == rt[k - 1].0;
                assert(s[j + 1].0 == r[k].0);
            }
        }
        if each_id_once(s) {
            assert(each_id_once(t)) by {
                assert forall|i: int, j: int| 0 <= i < j < t.len() implies (#[trigger] t[i]).0 != (
                #[trigger] t[j]).0 by {
                    assert(s[i + 1].0 != s[j + 1].0);
                }
            }
            assert forall|i: int, j: int| 0 <= i < j < r.len() implies (#[trigger] r[i]).0 != (
            #[trigger] r[j]).0 by {
                if i > 0 {
                    assert(rt[i - 1].0 != rt[j - 1].0);
                } else if rt[j - 1].0 != id {
                    let m = choose|m: int| 0 <= m < t.len() && (#[trigger] t[m]).0 == rt[j - 1].0;
                    assert(s[0].0 != s[m + 1].0);
                }
            }
        }
    }
}

proof fn lemma_with_ranks(s: Seq<Ranked>, ids: Seq<Seq<char>>, n: int, id: Seq<char>, rank: int)
    requires
        0 <= n <= ids.len(),
    ensures
        has_rank(with_ranks(s, ids, n), id, rank) <==> has_rank(s, id, rank) || (0 <= rank < n
            && ids[rank] == id),
        each_id_once(s) ==> each_id_once(with_ranks(s, ids, n)),
        rank_count(with_ranks(s, ids, n)) == rank_count(s) + n,
    decreases n,
{
    if n > 0 {
        lemma_with_ranks(s, ids, n - 1, id, rank);
        lemma_with_rank(with_ranks(s, ids, n - 1), ids[n - 1], n - 1, id, rank);
    }
}

/// Merging two ranked lists lists every ID once, with exactly the places that it has in the one or
/// the other, and with none of them lost where it has the same place in both.
pub proof fn law_fusion_keeps_every_rank(
    a: Seq<Seq<char>>,
    b: Seq<Seq<char>>,
    id: Seq<char>,
    rank: int,
)
    ensures
        ({
            let fused = with_ranks(
                with_ranks(Seq::empty(), a, a.len() as int),
                b,
                b.len() as int,
            );
            &&& each_id_once(fused)
            &&& has_rank(fused, id, rank) <==> (0 <= rank < a.len() && a[rank] == id) || (0 <= rank
                < b.len() && b[rank] == id)
            &&& rank_count(fused) == a.len() + b.len()
        }),
{
    let none = Seq::<Ranked>::empty();
    lemma_with_ranks(none, a, a.len() as int, id, rank);
    lemma_with_ranks(with_ranks(none, a, a.len() as int), b, b.len() as int, id, rank);
    if has_rank(none, id, rank) {
        let k = choose|k: int| 0 <= k < none.len() && (#[trigger] none[k]).0 == id && none[k].1.contains(rank);
    }
}

/// Whether one of some positions is that of a candidate of an item, with at least a score.
pub open spec fn covers(chosen: Seq<int>, c: Seq<Candidate>, item: Seq<char>, score: i64) -> bool {
    exists|m: int|
        0 <= m < chosen.len() && c[#[trigger] chosen[m]].0 == item && c[chosen[m]].1 >= score
}

/// Whether candidates come with the highest score first.
pub open spec fn descending(c: Seq<Candidate>) -> bool {
    forall|i: int, j: int| 0 <= i < j < c.len() ==> (#[trigger] c[i]).1 >= (#[trigger] c[j]).1
}

proof fn lemma_same_items(s: Seq<int>, c: Seq<Candidate>, item: Seq<char>)
    requires
        one_per_item(s, c),
    ensures
        ({
            let k = kept_without(s, c, item);
            &&& k.len() <= s.len()
            &&& (exists|m: int| 0 <= m < s.len() && c[#[trigger] s[m]].0 == item) ==> k.len() + 1
                == s.len()
            &&& (forall|m: int| 0 <= m < s.len() ==> c[#[trigger] s[m]].0 != item) ==> k == s
        }),
    decreases s.len(),
{
    if s.len() > 0 {
        let t = s.drop_last();
        assert(one_per_item(t, c)) by {
            assert forall|i: int| 0 <= i < t.len() implies 0 <= #[trigger] t[i] < c.len() by {
                assert(t[i] == s[i]);
            }
            assert forall|i: int, j: int| 0 <= i < j < t.len() implies c[#[trigger] t[i]].0
                != c[#[trigger] t[j]].0 by {
                assert(c[s[i]].0 != c[s[j]].0);
            }
        }
        lemma_same_items(t, c, item);
        assert(s[s.len() - 1] == s.last());
        if c[s.last()].0 == item {
            assert forall|m: int| 0 <= m < t.len() implies c[#[trigger] t[m]].0 != item by {
                assert(c[s[m]].0 != c[s[s.len() - 1]].0);
            }
        } else {
            if exists|m: int| 0 <= m < s.len() && c[#[trigger] s[m]].0 == item {
                let m = choose|m: int| 0 <= m < s.len() && c[#[trigger] s[m]].0 == item;
                assert(t[m] == s[m]);
            }
            if forall|m: int| 0 <= m < s.len() ==> c[#[trigger] s[m]].0 != item {
                assert forall|m: int| 0 <= m < t.len() implies c[#[trigger] t[m]].0 != item by {
                    assert(t[m] == s[m]);
                }
                assert(kept_without(s, c, item) =~= s);
            }
        }
    }
}

/// Everything chosen is one of the candidates looked at and above the floor, and is the best of its
/// item among those looked at before the stop. Until as many items are chosen as the stop allows,
/// every item with a candidate above the floor is among them.
pub proof fn law_stop_counts_items(c: Seq<Candidate>, n: int, floor: i64, stop: Option<nat>, i: int)
    requires
        0 <= n <= c.len(),
        0 <= i < n,
    ensures
        ({
            let chosen = chosen_among(c, n, floor, stop);
            &&& forall|m: int| 0 <= m < chosen.len() ==> 0 <= #[trigger] chosen[m] < n
            &&& forall|m: int| 0 <= m < chosen.len() ==> c[#[trigger] chosen[m]].1 > floor
            &&& c[i].1 > floor ==> covers(chosen, c, c[i].0, c[i].1) || (stop is Some
                && chosen.len() >= stop.unwrap())
            &&& stop is Some && stop.unwrap() > 0 ==> chosen.len() <= stop.unwrap()
        }),
{
    lemma_chosen(c, n, floor, stop);
    if c[i].1 > floor {
        lemma_chosen_covers(c, n, floor, stop, i);
    }
}

proof fn lemma_chosen(c: Seq<Candidate>, n: int, floor: i64, stop: Option<nat>)
    requires
        0 <= n <= c.len(),
    ensures
        ({
            let chosen = chosen_among(c, n, floor, stop);
            &&& one_per_item(chosen, c)
            &&& forall|m: int| 0 <= m < chosen.len() ==> 0 <= #[trigger] chosen[m] < n
            &&& forall|m: int| 0 <= m < chosen.len() ==> c[#[trigger] chosen[m]].1 > floor
            &&& stop is Some && stop.unwrap() > 0 ==> chosen.len() <= stop.unwrap()
            &&& chosen.len() <= n
        }),
    decreases n,
{
    law_one_result_per_item(c, n, floor, stop);
    if n > 0 {
        lemma_chosen(c, n - 1, floor, stop);
        let s = chosen_among(c, n - 1, floor, stop);
        let r = chosen_among(c, n, floor, stop);
        let (item, score) = c[n - 1];
        lemma_kept_without(s, c, item);
        lemma_same_items(s, c, item);
        lemma_to_beat(s, c, item, floor);
        let k = kept_without(s, c, item);
        assert(to_beat(s, c, item, floor) >= floor) by {
            if to_beat(s, c, item, floor) != floor {
                let m = choose|m: int|
                    0 <= m < s.len() && c[#[trigger] s[m]].0 == item && c[s[m]].1 == to_beat(
                        s,
                        c,
                        item,
                        floor,
                    );
                assert(c[s[m]].1 > floor);
            }
        }
        assert forall|m: int| 0 <= m < r.len() implies 0 <= #[trigger] r[m] < n && c[r[m]].1
            > floor by {
            if r != s && m < k.len() {
                assert(r[m] == k[m]);
                assert(s.contains(k[m]));
                let j = choose|j: int| 0 <= j < s.len() && s[j] == k[m];
                assert(c[s[j]].1 > floor);
            } else if r == s {
                assert(c[s[m]].1 > floor);
            }
        }
    }
}

proof fn lemma_chosen_covers(c: Seq<Candidate>, n: int, floor: i64, stop: Option<nat>, i: int)
    requires
        0 <= n <= c.len(),
        0 <= i < n,
        c[i].1 > floor,
    ensures
        ({
            let chosen = chosen_among(c, n, floor, stop);
            covers(chosen, c, c[i].0, c[i].1) || (stop is Some && chosen.len() >= stop.unwrap())
        }),
    decreases n,
{
    let s = chosen_among(c, n - 1, floor, stop);
    let r = chosen_among(c, n, floor, stop);
    let (item, score) = c[n - 1];
    lemma_chosen(c, n - 1, floor, stop);
    lemma_to_beat(s, c, item, floor);
    lemma_kept_without(s, c, item);
    lemma_same_items(s, c, item);
    let k = kept_without(s, c, item);
    if i < n - 1 {
        lemma_chosen_covers(c, n - 1, floor, stop, i);
    }
    if stop is Some && n > 1 && s.len() >= stop.unwrap() {
    } else if i == n - 1 {
        if score > to_beat(s, c, item, floor) {
            assert(r[r.len() - 1] == n - 1);
        } else {
            let m = choose|m: int|
                0 <= m < s.len() && c[#[trigger] s[m]].0 == item && c[s[m]].1 == to_beat(
                    s,
                    c,
                    item,
                    floor,
                );
            assert(r[m] == s[m]);
        }
    } else if covers(s, c, c[i].0, c[i].1) {
        let m = choose|m: int|
            0 <= m < s.len() && c[#[trigger] s[m]].0 == c[i].0 && c[s[m]].1 >= c[i].1;
        if score > to_beat(s, c, item, floor) {
            if c[i].0 == item {
                assert(c[s[m]].1 == to_beat(s, c, item, floor));
                assert(r[r.len() - 1] == n - 1);
            } else {
                assert(k.contains(s[m]));
                let j = choose|j: int| 0 <= j < k.len() && k[j] == s[m];
                assert(r[j] == s[m]);
            }
        } else {
            assert(r[m] == s[m]);
        }
    }
}

/// With candidates that come with the highest score first, no item is chosen over a better one: what
/// the stop leaves out scores no higher than anything chosen.
proof fn lemma_chosen_descending(c: Seq<Candidate>, n: int, floor: i64, stop: Option<nat>, i: int)
    requires
        0 <= n <= c.len(),
        0 <= i < n,
        c[i].1 > floor,
        descending(c),
    ensures
        ({
            let chosen = chosen_among(c, n, floor, stop);
            covers(chosen, c, c[i].0, c[i].1) || (stop is Some && chosen.len() >= stop.unwrap()
                && forall|m: int| 0 <= m < chosen.len() ==> c[#[trigger] chosen[m]].1 >= c[i].1)
        }),
    decreases n,
{
    let s = chosen_among(c, n - 1, floor, stop);
    let r = chosen_among(c, n, floor, stop);
    lemma_chosen(c, n - 1, floor, stop);
    lemma_chosen(c, n, floor, stop);
    lemma_chosen_covers(c, n, floor, stop, i);
    if stop is Some && n > 1 && s.len() >= stop.unwrap() {
        if i < n - 1 {
            lemma_chosen_descending(c, n - 1, floor, stop, i);
        } else {
            assert forall|m: int| 0 <= m < r.len() implies c[#[trigger] r[m]].1 >= c[i].1 by {
                assert(0 <= s[m] < n - 1);
            }
        }
    } else if i < n - 1 {
        // Nothing was left out before this candidate.
        lemma_chosen_descending(c, n - 1, floor, stop, i);
        lemma_chosen_step_covers(c, n, floor, stop, i);
    } else {
        lemma_chosen_step_covers(c, n, floor, stop, i);
    }
}

proof fn lemma_chosen_step_covers(c: Seq<Candidate>, n: int, floor: i64, stop: Option<nat>, i: int)
    requires
        0 < n <= c.len(),
        0 <= i < n,
        c[i].1 > floor,
        !(n > 1 && stop is Some && chosen_among(c, n - 1, floor, stop).len() >= stop.unwrap()),
        i < n - 1 ==> covers(chosen_among(c, n - 1, floor, stop), c, c[i].0, c[i].1),
    ensures
        covers(chosen_among(c, n, floor, stop), c, c[i].0, c[i].1),
{
    let s = chosen_among(c, n - 1, floor, stop);
    let r = chosen_among(c, n, floor, stop);
    let (item, score) = c[n - 1];
    lemma_chosen(c, n - 1, floor, stop);
    lemma_to_beat(s, c, item, floor);
    lemma_kept_without(s, c, item);
    let k = kept_without(s, c, item);
    if i == n - 1 {
        if score > to_beat(s, c, item, floor) {
            assert(r[r.len() - 1] == n - 1);
        } else {
            let m = choose|m: int|
                0 <= m < s.len() && c[#[trigger] s[m]].0 == item && c[s[m]].1 == to_beat(
                    s,
                    c,
                    item,
                    floor,
                );
            assert(r[m] == s[m]);
        }
    } else {
        let m = choose|m: int|
            0 <= m < s.len() && c[#[trigger] s[m]].0 == c[i].0 && c[s[m]].1 >= c[i].1;
        if score > to_beat(s, c, item, floor) {
            if c[i].0 == item {
                assert(c[s[m]].1 == to_beat(s, c, item, floor));
                assert(r[r.len() - 1] == n - 1);
            } else {
                assert(k.contains(s[m]));
                let j = choose|j: int| 0 <= j < k.len() && k[j] == s[m];
                assert(r[j] == s[m]);
            }
        } else {
            assert(r[m] == s[m]);
        }
    }
}

/// The top of some chosen candidates: each of them at most once, and whatever is left out scores no
/// higher than anything in it, which is then as long as asked for.
proof fn lemma_top(r: Seq<int>, c: Seq<Candidate>, chosen: Seq<int>, limit: nat)
    requires
        is_top(r, c, chosen, limit),
        one_per_item(chosen, c),
    ensures
        r.len() <= limit && r.len() <= chosen.len(),
        r.len() == limit || r.len() == chosen.len(),
        one_per_item(r, c),
        forall|k: int| 0 <= k < r.len() ==> chosen.contains(#[trigger] r[k]),
        forall|m: int|
            0 <= m < chosen.len() ==> r.contains(#[trigger] chosen[m]) || (r.len() == limit
                && forall|k: int|
                0 <= k < r.len() ==> c[#[trigger] r[k]].1 >= c[chosen[m]].1),
        forall|i: int, j: int|
            0 <= i < j < r.len() ==> c[#[trigger] r[i]].1 >= c[#[trigger] r[j]].1,
{
    let keys = scores_at(c, chosen);
    let ranking = choose|ranking: Seq<int>|
        #![trigger is_ranking(ranking, scores_at(c, chosen))]
        is_ranking(ranking, scores_at(c, chosen)) && r.len() == (if chosen.len() < limit {
            chosen.len()
        } else {
            limit
        }) && forall|k: int| 0 <= k < r.len() ==> #[trigger] r[k] == chosen[ranking[k]];
    assert forall|k: int| 0 <= k < r.len() implies chosen.contains(#[trigger] r[k]) by {
        assert(0 <= ranking[k] < chosen.len());
    }
    assert(one_per_item(r, c)) by {
        assert forall|k: int| 0 <= k < r.len() implies 0 <= #[trigger] r[k] < c.len() by {
            assert(0 <= ranking[k] < chosen.len());
            assert(0 <= chosen[ranking[k]] < c.len());
        }
        assert forall|i: int, j: int| 0 <= i < j < r.len() implies c[#[trigger] r[i]].0
            != c[#[trigger] r[j]].0 by {
            assert(before(keys, ranking[i], ranking[j]));
            let a = ranking[i];
            let b = ranking[j];
            assert(a != b);
            if a < b {
                assert(c[chosen[a]].0 != c[chosen[b]].0);
            } else {
                assert(c[chosen[b]].0 != c[chosen[a]].0);
            }
        }
    }
    assert forall|m: int| 0 <= m < chosen.len() implies r.contains(#[trigger] chosen[m]) || (r.len()
        == limit && forall|k: int| 0 <= k < r.len() ==> c[#[trigger] r[k]].1 >= c[chosen[m]].1) by {
        let q = lemma_ranking_onto(ranking, keys, m);
        if q < r.len() {
            assert(r[q] == chosen[m]);
        } else {
            assert forall|k: int| 0 <= k < r.len() implies c[#[trigger] r[k]].1
                >= c[chosen[m]].1 by {
                assert(before(keys, ranking[k], ranking[q]));
            }
        }
    }
    assert forall|i: int, j: int| 0 <= i < j < r.len() implies c[#[trigger] r[i]].1
        >= c[#[trigger] r[j]].1 by {
        assert(before(keys, ranking[i], ranking[j]));
    }
}

/// The items that have a candidate above the floor.
pub open spec fn items_above(c: Seq<Candidate>, floor: i64) -> Set<Seq<char>> {
    Set::new(|t: Seq<char>| exists|i: int| 0 <= i < c.len() && (#[trigger] c[i]).0 == t && c[i].1 > floor)
}

/// The items that some positions belong to.
spec fn items_at(r: Seq<int>, c: Seq<Candidate>) -> Seq<Seq<char>> {
    r.map_values(|i: int| c[i].0)
}

proof fn lemma_items_above_finite(c: Seq<Candidate>, floor: i64)
    ensures
        items_above(c, floor).finite(),
{
    let all = c.map_values(|p: Candidate| p.0);
    vstd::seq_lib::seq_to_set_is_finite(all);
    assert(items_above(c, floor).subset_of(all.to_set())) by {
        assert forall|t: Seq<char>| items_above(c, floor).contains(t) implies all.to_set().contains(
            t,
        ) by {
            let i = choose|i: int| 0 <= i < c.len() && (#[trigger] c[i]).0 == t && c[i].1 > floor;
            assert(all[i] == t);
        }
    }
    vstd::set_lib::lemma_set_subset_finite(all.to_set(), items_above(c, floor));
}

/// How many results there are: one for every item with a candidate above the floor, and no more than
/// asked for.
proof fn lemma_result_count(r: Seq<int>, c: Seq<Candidate>, floor: i64, limit: nat)
    requires
        one_per_item(r, c),
        r.len() <= limit,
        forall|k: int| 0 <= k < r.len() ==> c[#[trigger] r[k]].1 > floor,
        forall|i: int|
            0 <= i < c.len() && (#[trigger] c[i]).1 > floor ==> covers(r, c, c[i].0, c[i].1)
                || r.len() == limit,
    ensures
        r.len() == if items_above(c, floor).len() < limit {
            items_above(c, floor).len()
        } else {
            limit
        },
{
    let names = items_at(r, c);
    let all = items_above(c, floor);
    lemma_items_above_finite(c, floor);
    assert(names.no_duplicates()) by {
        assert forall|i: int, j: int|
            0 <= i < names.len() && 0 <= j < names.len() && i != j implies names[i] != names[j] by {
            if i < j {
                assert(c[r[i]].0 != c[r[j]].0);
            } else {
                assert(c[r[j]].0 != c[r[i]].0);
            }
        }
    }
    names.unique_seq_to_set();
    assert(names.to_set().subset_of(all)) by {
        assert forall|t: Seq<char>| names.to_set().contains(t) implies all.contains(t) by {
            let k = choose|k: int| 0 <= k < names.len() && names[k] == t;
            assert(c[r[k]].0 == t && c[r[k]].1 > floor);
        }
    }
    vstd::set_lib::lemma_len_subset(names.to_set(), all);
    if r.len() < limit {
        assert(all.subset_of(names.to_set())) by {
            assert forall|t: Seq<char>| all.contains(t) implies names.to_set().contains(t) by {
                let i = choose|i: int| 0 <= i < c.len() && (#[trigger] c[i]).0 == t && c[i].1 > floor;
                let m = choose|m: int|
                    0 <= m < r.len() && c[#[trigger] r[m]].0 == c[i].0 && c[r[m]].1 >= c[i].1;
                assert(names[m] == t);
            }
        }
        assert(all =~= names.to_set());
    }
}

/// The candidates that some hits stand for.
pub open spec fn hit_candidates(hits: Seq<Hit>) -> Seq<int> {
    hits.map_values(|h: Hit| h.candidate as int)
}

/// A search without a reranker returns one candidate for each item that has one above the floor, as
/// many items as there are or as were asked for, the highest score first.
pub proof fn law_search_returns_items(hits: Seq<Hit>, c: Seq<Candidate>, floor: i64, limit: nat)
    requires
        top_by_fusion(hits, c, floor, limit),
    ensures
        hits.len() == if items_above(c, floor).len() < limit {
            items_above(c, floor).len()
        } else {
            limit
        },
        one_per_item(hit_candidates(hits), c),
        forall|k: int| 0 <= k < hits.len() ==> c[(#[trigger] hits[k]).candidate as int].1 > floor,
        forall|i: int|
            0 <= i < c.len() && (#[trigger] c[i]).1 > floor ==> covers(
                hit_candidates(hits),
                c,
                c[i].0,
                c[i].1,
            ) || hits.len() == limit,
        forall|i: int, j: int|
            0 <= i < j < hits.len() ==> c[(#[trigger] hits[i]).candidate as int].1 >= c[(
            #[trigger] hits[j]).candidate as int].1,
{
    let r = hit_candidates(hits);
    let stop = Some(limit);
    let n = c.len() as int;
    let chosen = chosen_among(c, n, floor, stop);
    assert(r =~= hits.map_values(|h: Hit| h.candidate as int));
    lemma_chosen(c, n, floor, stop);
    lemma_top(r, c, chosen, limit);
    assert forall|k: int| 0 <= k < r.len() implies c[#[trigger] r[k]].1 > floor by {
        assert(chosen.contains(r[k]));
        let m = choose|m: int| 0 <= m < chosen.len() && chosen[m] == r[k];
        assert(c[chosen[m]].1 > floor);
    }
    assert forall|k: int| 0 <= k < hits.len() implies c[(#[trigger] hits[k]).candidate as int].1
        > floor by {
        assert(c[r[k]].1 > floor);
    }
    assert forall|i: int| 0 <= i < c.len() && (#[trigger] c[i]).1 > floor implies covers(
        r,
        c,
        c[i].0,
        c[i].1,
    ) || r.len() == limit by {
        lemma_chosen_covers(c, n, floor, stop, i);
        if covers(chosen, c, c[i].0, c[i].1) {
            let m = choose|m: int|
                0 <= m < chosen.len() && c[#[trigger] chosen[m]].0 == c[i].0 && c[chosen[m]].1
                    >= c[i].1;
            if r.contains(chosen[m]) {
                let k = choose|k: int| 0 <= k < r.len() && r[k] == chosen[m];
                assert(c[r[k]].0 == c[i].0 && c[r[k]].1 >= c[i].1);
            }
        }
    }
    lemma_result_count(r, c, floor, limit);
    assert forall|i: int, j: int| 0 <= i < j < hits.len() implies c[(
    #[trigger] hits[i]).candidate as int].1 >= c[(#[trigger] hits[j]).candidate as int].1 by {
        assert(c[r[i]].1 >= c[r[j]].1);
    }
}

/// Where the candidates come with the highest score first, as fusion ranks them, the results are the
/// best: each is the best candidate of its item, and no item that is left out has a candidate that
/// scores higher than a result.
pub proof fn law_search_returns_the_best(
    hits: Seq<Hit>,
    c: Seq<Candidate>,
    floor: i64,
    limit: nat,
    i: int,
)
    requires
        top_by_fusion(hits, c, floor, limit),
        descending(c),
        0 <= i < c.len(),
        c[i].1 > floor,
    ensures
        covers(hit_candidates(hits), c, c[i].0, c[i].1) || forall|k: int|
            0 <= k < hits.len() ==> c[(#[trigger] hits[k]).candidate as int].0 != c[i].0
                && c[hits[k].candidate as int].1 >= c[i].1,
{
    let r = hit_candidates(hits);
    let stop = Some(limit);
    let n = c.len() as int;
    let chosen = chosen_among(c, n, floor, stop);
    assert(r =~= hits.map_values(|h: Hit| h.candidate as int));
    lemma_chosen(c, n, floor, stop);
    lemma_top(r, c, chosen, limit);
    lemma_chosen_descending(c, n, floor, stop, i);
    if !covers(r, c, c[i].0, c[i].1) {
        assert forall|k: int| 0 <= k < hits.len() implies c[(#[trigger] hits[k]).candidate as int].0
            != c[i].0 && c[hits[k].candidate as int].1 >= c[i].1 by {
            assert(r[k] == hits[k].candidate as int);
            assert(chosen.contains(r[k]));
            let j = choose|j: int| 0 <= j < chosen.len() && chosen[j] == r[k];
            if covers(chosen, c, c[i].0, c[i].1) {
                let m = choose|m: int|
                    0 <= m < chosen.len() && c[#[trigger] chosen[m]].0 == c[i].0 && c[chosen[m]].1
                        >= c[i].1;
                if r.contains(chosen[m]) {
                    let q = choose|q: int| 0 <= q < r.len() && r[q] == chosen[m];
                    assert(c[r[q]].0 == c[i].0 && c[r[q]].1 >= c[i].1);
                }
                assert(c[r[k]].1 >= c[chosen[m]].1);
            } else {
                assert(c[chosen[j]].1 >= c[i].1);
            }
        }
    }
}

proof fn lemma_usable(reranked: Seq<(usize, i64)>, candidates: int, n: int)
    requires
        0 <= n <= reranked.len(),
    ensures
        forall|k: int|
            0 <= k < usable(reranked, candidates, n).len() ==> 0 <= #[trigger] usable(
                reranked,
                candidates,
                n,
            )[k] < n && reranked[usable(reranked, candidates, n)[k]].0 < candidates,
        forall|p: int|
            0 <= p < n && (#[trigger] reranked[p]).0 < candidates ==> usable(
                reranked,
                candidates,
                n,
            ).contains(p),
    decreases n,
{
    if n > 0 {
        lemma_usable(reranked, candidates, n - 1);
        let head = usable(reranked, candidates, n - 1);
        let all = usable(reranked, candidates, n);
        assert forall|p: int| 0 <= p < n && (#[trigger] reranked[p]).0
            < candidates implies all.contains(p) by {
            if p < n - 1 {
                assert(head.contains(p));
                let k = choose|k: int| 0 <= k < head.len() && head[k] == p;
                assert(all[k] == p);
            } else {
                assert(all[all.len() - 1] == p);
            }
        }
    }
}

/// The reranker decides where it gives some candidate a score above the floor, and only there.
pub proof fn law_reranker_decides(c: Seq<Candidate>, answer: Seq<(usize, i64)>, floor: i64)
    ensures
        reranker_decides(c, Some(answer), floor) <==> exists|p: int|
            0 <= p < answer.len() && (#[trigger] answer[p]).0 < c.len() && answer[p].1 > floor,
        !reranker_decides(c, None, floor),
{
    let again = rescored(c, answer);
    let places = usable(answer, c.len() as int, answer.len() as int);
    lemma_usable(answer, c.len() as int, answer.len() as int);
    let chosen = chosen_among(again, again.len() as int, floor, None);
    lemma_chosen(again, again.len() as int, floor, None);
    if chosen.len() > 0 {
        assert(again[chosen[0]].1 > floor);
        let p = places[chosen[0]];
        assert(answer[p].0 < c.len() && answer[p].1 > floor);
    }
    if exists|p: int|
        0 <= p < answer.len() && (#[trigger] answer[p]).0 < c.len() && answer[p].1 > floor {
        let p = choose|p: int|
            0 <= p < answer.len() && (#[trigger] answer[p]).0 < c.len() && answer[p].1 > floor;
        assert(places.contains(p));
        let k = choose|k: int| 0 <= k < places.len() && places[k] == p;
        assert(again[k].1 == answer[p].1);
        lemma_chosen_covers(again, again.len() as int, floor, None, k);
    }
}

/// A search with a reranker returns, of each item that the reranker scores above the floor, the
/// candidate it scores highest: as many items as were asked for, the highest of its scores first.
pub proof fn law_reranker_returns_the_best(
    hits: Seq<Hit>,
    c: Seq<Candidate>,
    answer: Seq<(usize, i64)>,
    floor: i64,
    limit: nat,
    p: int,
)
    requires
        top_by_reranker(hits, c, answer, floor, limit),
        answer.len() <= usize::MAX,
        0 <= p < answer.len(),
        answer[p].0 < c.len(),
        answer[p].1 > floor,
    ensures
        hits.len() <= limit,
        forall|k: int|
            0 <= k < hits.len() ==> {
                &&& (#[trigger] hits[k]).reranked is Some
                &&& 0 <= hits[k].reranked.unwrap() < answer.len()
                &&& hits[k].candidate == answer[hits[k].reranked.unwrap() as int].0
                &&& hits[k].candidate < c.len()
                &&& answer[hits[k].reranked.unwrap() as int].1 > floor
            },
        forall|i: int, j: int|
            0 <= i < j < hits.len() ==> {
                &&& c[(#[trigger] hits[i]).candidate as int].0 != c[(
                #[trigger] hits[j]).candidate as int].0
                &&& answer[hits[i].reranked.unwrap() as int].1
                    >= answer[hits[j].reranked.unwrap() as int].1
            },
        (exists|k: int|
            0 <= k < hits.len() && c[(#[trigger] hits[k]).candidate as int].0
                == c[answer[p].0 as int].0 && answer[hits[k].reranked.unwrap() as int].1
                >= answer[p].1) || (hits.len() == limit && forall|k: int|
            0 <= k < hits.len() ==> answer[(#[trigger] hits[k]).reranked.unwrap() as int].1
                >= answer[p].1),
{
    let again = rescored(c, answer);
    let n = again.len() as int;
    let places = usable(answer, c.len() as int, answer.len() as int);
    lemma_usable(answer, c.len() as int, answer.len() as int);
    let chosen = chosen_among(again, n, floor, None);
    let top = choose|top: Seq<int>|
        #![trigger is_top(top, again, chosen_among(again, again.len() as int, floor, None), limit)]
        is_top(top, again, chosen_among(again, again.len() as int, floor, None), limit)
            && hits.len() == top.len() && forall|k: int|
            0 <= k < hits.len() ==> {
                &&& (#[trigger] hits[k]).reranked == Some(places[top[k]] as usize)
                &&& hits[k].candidate == answer[places[top[k]]].0
            };
    lemma_chosen(again, n, floor, None);
    lemma_top(top, again, chosen, limit);
    assert forall|k: int| 0 <= k < top.len() implies again[#[trigger] top[k]].1 > floor && 0
        <= top[k] < places.len() && again[top[k]] == (
        c[answer[places[top[k]]].0 as int].0,
        answer[places[top[k]]].1,
    ) by {
        assert(chosen.contains(top[k]));
        let m = choose|m: int| 0 <= m < chosen.len() && chosen[m] == top[k];
        assert(again[chosen[m]].1 > floor);
    }
    assert forall|k: int| 0 <= k < hits.len() implies {
        &&& (#[trigger] hits[k]).reranked is Some
        &&& 0 <= hits[k].reranked.unwrap() < answer.len()
        &&& hits[k].reranked.unwrap() == places[top[k]]
        &&& hits[k].candidate == answer[hits[k].reranked.unwrap() as int].0
        &&& hits[k].candidate < c.len()
        &&& answer[hits[k].reranked.unwrap() as int].1 > floor
    } by {
        assert(again[top[k]].1 > floor);
        let u = places[top[k]];
        assert(0 <= u < answer.len() && answer[u].0 < c.len());
    }
    assert forall|i: int, j: int| 0 <= i < j < hits.len() implies {
        &&& c[(#[trigger] hits[i]).candidate as int].0 != c[(#[trigger] hits[j]).candidate as int].0
        &&& answer[hits[i].reranked.unwrap() as int].1 >= answer[hits[j].reranked.unwrap() as int].1
    } by {
        assert(again[top[i]].0 != again[top[j]].0);
        assert(again[top[i]].1 >= again[top[j]].1);
    }
    assert(places.contains(p));
    let q = choose|q: int| 0 <= q < places.len() && places[q] == p;
    assert(again[q] == (c[answer[p].0 as int].0, answer[p].1));
    lemma_chosen_covers(again, n, floor, None, q);
    let m = choose|m: int|
        0 <= m < chosen.len() && again[#[trigger] chosen[m]].0 == again[q].0 && again[chosen[m]].1
            >= again[q].1;
    if top.contains(chosen[m]) {
        let k = choose|k: int| 0 <= k < top.len() && top[k] == chosen[m];
        assert(again[top[k]].1 > floor);
        assert(c[hits[k].candidate as int].0 == c[answer[p].0 as int].0);
    } else {
        assert forall|k: int| 0 <= k < hits.len() implies answer[(
        #[trigger] hits[k]).reranked.unwrap() as int].1 >= answer[p].1 by {
            assert(again[top[k]].1 >= again[chosen[m]].1);
        }
    }
}

} // verus!
