//! Hybrid search: merging two ranked lists and reducing chunks to items.
//!
//! Scores are floating-point numbers, which are compared here through integers that are ordered as
//! the scores are.
use crate::text::texts;
use vstd::hash_set::StringHashSet;
use vstd::prelude::*;

verus! {

/// How many candidates are fetched for each result that is asked for, so that several chunks of one
/// item can collapse into one result.
pub const OVER_FETCH: usize = 5;

/// How many candidates to fetch.
pub fn candidate_limit(limit: usize) -> (r: usize)
    requires
        limit * OVER_FETCH <= usize::MAX,
    ensures
        r == limit * OVER_FETCH,
        r == 5 * limit,
{
    limit * OVER_FETCH
}

/// Positions with the higher of two keys first; of equal keys, the earlier position.
pub open spec fn before(keys: Seq<i64>, a: int, b: int) -> bool {
    keys[a] > keys[b] || (keys[a] == keys[b] && a < b)
}

/// Some positions, each once, in order.
pub open spec fn is_ranking(r: Seq<int>, keys: Seq<i64>) -> bool {
    &&& r.len() == keys.len()
    &&& forall|i: int| 0 <= i < r.len() ==> 0 <= #[trigger] r[i] < keys.len()
    &&& forall|i: int, j: int| 0 <= i < j < r.len() ==> before(keys, #[trigger] r[i], #[trigger] r[j])
}

/// The positions that a list holds.
pub open spec fn positions(v: Seq<usize>) -> Seq<int> {
    v.map_values(|i: usize| i as int)
}

/// Some positions are the first `limit` of a ranking by their keys.
pub open spec fn is_best(r: Seq<int>, keys: Seq<i64>, limit: nat) -> bool {
    exists|ranking: Seq<int>|
        #![trigger is_ranking(ranking, keys)]
        is_ranking(ranking, keys) && r == ranking.take(
            if keys.len() < limit {
                keys.len() as int
            } else {
                limit as int
            },
        )
}

/// The positions of the `limit` highest keys, the highest first; equal keys keep their order.
pub fn best(keys: &[i64], limit: usize) -> (r: Vec<usize>)
    ensures
        is_best(positions(r@), keys@, limit as nat),
{
    let mut out: Vec<usize> = Vec::new();
    // The whole ranking of the keys so far, of which `out` is the start.
    let ghost mut full: Seq<int> = Seq::empty();
    let mut i: usize = 0;
    assert(positions(out@) =~= full);
    while i < keys.len()
        invariant
            i <= keys.len(),
            full.len() == i,
            forall|k: int| 0 <= k < full.len() ==> 0 <= #[trigger] full[k] < i,
            forall|a: int, b: int|
                0 <= a < b < full.len() ==> before(keys@, #[trigger] full[a], #[trigger] full[b]),
            out@.len() == if i < limit {
                i
            } else {
                limit
            },
            positions(out@) == full.take(out@.len() as int),
        decreases keys.len() - i,
    {
        let mut at: usize = out.len();
        proof {
            assert(forall|k: int|
                0 <= k < out@.len() ==> (#[trigger] out@[k]) as int == positions(out@)[k]);
        }
        while at > 0 && keys[out[at - 1]] < keys[i]
            invariant
                at <= out@.len(),
                i < keys.len(),
                out@.len() <= full.len(),
                full.len() == i,
                forall|k: int| 0 <= k < full.len() ==> 0 <= #[trigger] full[k] < i,
                forall|k: int| 0 <= k < out@.len() ==> (#[trigger] out@[k]) as int == full[k],
                forall|k: int|
                    at <= k < out@.len() ==> keys@[(#[trigger] out@[k]) as int] < keys@[i as int],
            decreases at,
        {
            at -= 1;
        }
        let ghost old_full = full;
        let ghost old_out = out@;
        let ghost mut place: int = at as int;
        proof {
            if at == out@.len() {
                place = lemma_insertion(keys@, full, i as int, at as int);
            } else {
                assert forall|k: int| at <= k < full.len() implies keys@[#[trigger] full[k]]
                    < keys@[i as int] by {
                    if k < out@.len() {
                        assert(keys@[out@[k] as int] < keys@[i as int]);
                    } else {
                        assert(before(keys@, full[at as int], full[k]));
                        assert(keys@[out@[at as int] as int] < keys@[i as int]);
                    }
                }
            }
            if at > 0 {
                assert(old_out[at - 1] as int == full[at - 1]);
            }
            full = old_full.insert(place, i as int);
            lemma_inserted(keys@, old_full, i as int, place);
        }
        if at < limit {
            out.insert(at, i);
            if out.len() > limit {
                out.truncate(limit);
            }
        }
        proof {
            assert(positions(out@) =~= full.take(out@.len() as int)) by {
                assert forall|k: int| 0 <= k < out@.len() implies positions(out@)[k] == full[k] by {
                    if at < limit {
                        if k < at {
                            assert(out@[k] == old_out[k]);
                        } else if k > at {
                            assert(out@[k] == old_out[k - 1]);
                        }
                    } else {
                        assert(out@[k] == old_out[k]);
                    }
                }
            }
        }
        i += 1;
    }
    assert(is_ranking(full, keys@));
    out
}

/// Ranks positions by their keys, the highest first; equal keys keep their order.
pub fn rank(keys: &[i64]) -> (r: Vec<usize>)
    ensures
        is_ranking(positions(r@), keys@),
{
    let all = best(keys, keys.len());
    proof {
        let ranking = choose|ranking: Seq<int>|
            #![trigger is_ranking(ranking, keys@)]
            is_ranking(ranking, keys@) && positions(all@) == ranking.take(keys@.len() as int);
        assert(ranking.take(keys@.len() as int) =~= ranking);
    }
    all
}

/// Where a new position belongs behind the first `from` of a ranking, all of which come before it.
proof fn lemma_insertion(keys: Seq<i64>, full: Seq<int>, i: int, from: int) -> (place: int)
    requires
        0 <= from <= full.len(),
        0 <= i < keys.len(),
        forall|k: int| 0 <= k < full.len() ==> 0 <= #[trigger] full[k] < i,
        forall|a: int, b: int|
            0 <= a < b < full.len() ==> before(keys, #[trigger] full[a], #[trigger] full[b]),
        from > 0 ==> keys[full[from - 1]] >= keys[i],
    ensures
        from <= place <= full.len(),
        place > 0 ==> keys[full[place - 1]] >= keys[i],
        forall|k: int| place <= k < full.len() ==> keys[#[trigger] full[k]] < keys[i],
    decreases full.len() - from,
{
    if from == full.len() {
        from
    } else if keys[full[from]] >= keys[i] {
        lemma_insertion(keys, full, i, from + 1)
    } else {
        assert forall|k: int| from <= k < full.len() implies keys[#[trigger] full[k]] < keys[i] by {
            if k > from {
                assert(before(keys, full[from], full[k]));
            }
        }
        from
    }
}

/// A ranking with a new position put where it belongs is a ranking.
proof fn lemma_inserted(keys: Seq<i64>, full: Seq<int>, i: int, place: int)
    requires
        0 <= place <= full.len(),
        0 <= i < keys.len(),
        forall|k: int| 0 <= k < full.len() ==> 0 <= #[trigger] full[k] < i,
        forall|a: int, b: int|
            0 <= a < b < full.len() ==> before(keys, #[trigger] full[a], #[trigger] full[b]),
        place > 0 ==> keys[full[place - 1]] >= keys[i],
        forall|k: int| place <= k < full.len() ==> keys[#[trigger] full[k]] < keys[i],
    ensures
        forall|k: int|
            0 <= k < full.insert(place, i).len() ==> 0 <= #[trigger] full.insert(place, i)[k] < i
                + 1,
        forall|a: int, b: int|
            0 <= a < b < full.insert(place, i).len() ==> before(
                keys,
                #[trigger] full.insert(place, i)[a],
                #[trigger] full.insert(place, i)[b],
            ),
{
    let all = full.insert(place, i);
    assert forall|a: int, b: int| 0 <= a < b < all.len() implies before(
        keys,
        #[trigger] all[a],
        #[trigger] all[b],
    ) by {
        if a < place {
            assert(all[a] == full[a]);
            if a < place - 1 {
                assert(before(keys, full[a], full[place - 1]));
            }
            if b < place {
                assert(all[b] == full[b]);
            } else if b > place {
                assert(all[b] == full[b - 1]);
            }
        } else if a == place {
            assert(all[b] == full[b - 1]);
        } else {
            assert(all[a] == full[a - 1]);
            assert(all[b] == full[b - 1]);
        }
    }
    assert forall|k: int| 0 <= k < all.len() implies 0 <= #[trigger] all[k] < i + 1 by {
        if k < place {
            assert(all[k] == full[k]);
        } else if k > place {
            assert(all[k] == full[k - 1]);
        }
    }
}

/// The positions of the chunks that a search may return, among those from the first `n`: all of
/// them, or those whose IDs are allowed.
pub open spec fn allowed_positions(
    ids: Seq<Seq<char>>,
    allowed: Option<Seq<Seq<char>>>,
    n: int,
) -> Seq<int>
    decreases n,
{
    if n <= 0 {
        Seq::empty()
    } else {
        let head = allowed_positions(ids, allowed, n - 1);
        match allowed {
            Some(a) => if a.contains(ids[n - 1]) {
                head.push(n - 1)
            } else {
                head
            },
            None => head.push(n - 1),
        }
    }
}

/// The view of an optional list of IDs.
pub open spec fn opt_texts(o: Option<&[String]>) -> Option<Seq<Seq<char>>> {
    match o {
        Some(v) => Some(texts(v@)),
        None => None,
    }
}

/// The texts of a list as a set, for looking them up.
fn set_of(list: &[String]) -> (r: StringHashSet)
    ensures
        forall|t: Seq<char>| #[trigger] r@.contains(t) <==> texts(list@).contains(t),
{
    let ghost all = texts(list@);
    let mut out = StringHashSet::new();
    let mut i: usize = 0;
    while i < list.len()
        invariant
            i <= list.len(),
            all == texts(list@),
            forall|t: Seq<char>| #[trigger] out@.contains(t) <==> all.take(i as int).contains(t),
        decreases list.len() - i,
    {
        let ghost before = out@;
        out.insert(list[i].clone());
        proof {
            let head = all.take(i as int);
            let more = all.take(i as int + 1);
            assert(more =~= head.push(list@[i as int]@));
            assert forall|t: Seq<char>| #[trigger] out@.contains(t) <==> more.contains(t) by {
                if head.contains(t) {
                    let k = choose|k: int| 0 <= k < head.len() && head[k] == t;
                    assert(more[k] == t);
                }
                if t == list@[i as int]@ {
                    assert(more[i as int] == t);
                }
                if more.contains(t) && t != list@[i as int]@ {
                    let k = choose|k: int| 0 <= k < more.len() && more[k] == t;
                    assert(head[k] == t);
                }
            }
        }
        i += 1;
    }
    assert(all.take(all.len() as int) =~= all);
    out
}

/// Finds the positions of the chunks that a search may return.
pub fn searchable(ids: &[String], allowed: Option<&[String]>) -> (r: Vec<usize>)
    ensures
        positions(r@) == allowed_positions(texts(ids@), opt_texts(allowed), ids@.len() as int),
{
    let set = match allowed {
        Some(list) => set_of(list),
        None => StringHashSet::new(),
    };
    let mut out: Vec<usize> = Vec::new();
    let mut i: usize = 0;
    assert(positions(out@) =~= Seq::empty());
    while i < ids.len()
        invariant
            i <= ids.len(),
            allowed is Some ==> forall|t: Seq<char>| #[trigger]
                set@.contains(t) <==> texts(allowed.unwrap()@).contains(t),
            positions(out@) == allowed_positions(texts(ids@), opt_texts(allowed), i as int),
        decreases ids.len() - i,
    {
        assert(texts(ids@)[i as int] == ids@[i as int]@);
        if allowed.is_none() || set.contains(ids[i].as_str()) {
            let ghost was = positions(out@);
            out.push(i);
            assert(positions(out@) =~= was.push(i as int));
        }
        i += 1;
    }
    out
}

/// An ID with the ranks it has in the lists that are merged.
pub type Ranked = (Seq<char>, Seq<int>);

/// The list with a rank noted for an ID.
pub open spec fn with_rank(s: Seq<Ranked>, id: Seq<char>, rank: int) -> Seq<Ranked>
    decreases s.len(),
{
    if s.len() == 0 {
        seq![(id, seq![rank])]
    } else if s[0].0 == id {
        seq![(id, s[0].1.push(rank))] + s.drop_first()
    } else {
        seq![s[0]] + with_rank(s.drop_first(), id, rank)
    }
}

/// The list with the ranks of the first `n` IDs of another noted.
pub open spec fn with_ranks(s: Seq<Ranked>, ids: Seq<Seq<char>>, n: int) -> Seq<Ranked>
    decreases n,
{
    if n <= 0 {
        s
    } else {
        with_rank(with_ranks(s, ids, n - 1), ids[n - 1], n - 1)
    }
}

/// An ID with the ranks it has in the lists that are merged.
#[derive(Debug)]
pub struct FusedId {
    pub id: String,
    /// Ranks from 0, those of the first list before those of the second.
    pub ranks: Vec<usize>,
}

/// The IDs and ranks of a list.
pub open spec fn fused_views(v: Seq<FusedId>) -> Seq<Ranked> {
    v.map_values(|f: FusedId| (f.id@, positions(f.ranks@)))
}

proof fn lemma_with_rank_at(s: Seq<Ranked>, id: Seq<char>, rank: int, i: int)
    requires
        0 <= i <= s.len(),
        forall|k: int| 0 <= k < i ==> (#[trigger] s[k]).0 != id,
        i < s.len() ==> s[i].0 == id,
    ensures
        with_rank(s, id, rank) == if i < s.len() {
            s.update(i, (id, s[i].1.push(rank)))
        } else {
            s.push((id, seq![rank]))
        },
    decreases s.len(),
{
    if s.len() == 0 {
        assert(with_rank(s, id, rank) =~= s.push((id, seq![rank])));
    } else if i == 0 {
        assert(with_rank(s, id, rank) =~= s.update(0, (id, s[0].1.push(rank))));
    } else {
        let t = s.drop_first();
        assert(s[0].0 != id);
        assert forall|k: int| 0 <= k < i - 1 implies (#[trigger] t[k]).0 != id by {
            assert(t[k] == s[k + 1]);
        }
        lemma_with_rank_at(t, id, rank, i - 1);
        if i < s.len() {
            assert(with_rank(s, id, rank) =~= s.update(i, (id, s[i].1.push(rank))));
        } else {
            assert(with_rank(s, id, rank) =~= s.push((id, seq![rank])));
        }
    }
}

fn note_rank(list: &mut Vec<FusedId>, id: &String, rank: usize)
    ensures
        fused_views(final(list)@) == with_rank(fused_views(old(list)@), id@, rank as int),
{
    let ghost all = fused_views(list@);
    let mut i: usize = 0;
    while i < list.len()
        invariant
            i <= list.len(),
            list@ == old(list)@,
            all == fused_views(list@),
            forall|k: int| 0 <= k < i ==> (#[trigger] all[k]).0 != id@,
        decreases list.len() - i,
    {
        assert(all[i as int].0 == list@[i as int].id@);
        if list[i].id == *id {
            let ghost was = list@[i as int].ranks@;
            list[i].ranks.push(rank);
            proof {
                assert(positions(list@[i as int].ranks@) =~= positions(was).push(rank as int));
                lemma_with_rank_at(all, id@, rank as int, i as int);
                assert(fused_views(list@) =~= all.update(
                    i as int,
                    (id@, all[i as int].1.push(rank as int)),
                ));
            }
            return;
        }
        i += 1;
    }
    let mut ranks: Vec<usize> = Vec::new();
    ranks.push(rank);
    assert(positions(ranks@) =~= seq![rank as int]);
    list.push(FusedId { id: id.clone(), ranks });
    proof {
        lemma_with_rank_at(all, id@, rank as int, i as int);
        assert(fused_views(list@) =~= all.push((id@, seq![rank as int])));
    }
}

/// Merges two ranked lists: every ID once, with the ranks that its fused score is the sum over.
pub fn rrf_ranks(list_a: &[String], list_b: &[String]) -> (r: Vec<FusedId>)
    ensures
        fused_views(r@) == with_ranks(
            with_ranks(Seq::empty(), texts(list_a@), list_a@.len() as int),
            texts(list_b@),
            list_b@.len() as int,
        ),
{
    let mut out: Vec<FusedId> = Vec::new();
    let ghost none = Seq::<Ranked>::empty();
    assert(fused_views(out@) =~= none);
    let mut i: usize = 0;
    while i < list_a.len()
        invariant
            i <= list_a.len(),
            fused_views(out@) == with_ranks(none, texts(list_a@), i as int),
        decreases list_a.len() - i,
    {
        assert(texts(list_a@)[i as int] == list_a@[i as int]@);
        note_rank(&mut out, &list_a[i], i);
        i += 1;
    }
    let ghost half = fused_views(out@);
    let mut j: usize = 0;
    while j < list_b.len()
        invariant
            j <= list_b.len(),
            fused_views(out@) == with_ranks(half, texts(list_b@), j as int),
        decreases list_b.len() - j,
    {
        assert(texts(list_b@)[j as int] == list_b@[j as int]@);
        note_rank(&mut out, &list_b[j], j);
        j += 1;
    }
    out
}

/// A candidate: the item its chunk belongs to, and its score.
pub type Candidate = (Seq<char>, i64);

/// The best candidate of each item so far, by position.
pub open spec fn kept_without(chosen: Seq<int>, c: Seq<Candidate>, item: Seq<char>) -> Seq<int>
    decreases chosen.len(),
{
    if chosen.len() == 0 {
        chosen
    } else if c[chosen.last()].0 == item {
        kept_without(chosen.drop_last(), c, item)
    } else {
        kept_without(chosen.drop_last(), c, item).push(chosen.last())
    }
}

/// The score to beat for an item: that of its chosen candidate, else the floor.
pub open spec fn to_beat(chosen: Seq<int>, c: Seq<Candidate>, item: Seq<char>, floor: i64) -> i64
    decreases chosen.len(),
{
    if chosen.len() == 0 {
        floor
    } else if c[chosen.last()].0 == item {
        c[chosen.last()].1
    } else {
        to_beat(chosen.drop_last(), c, item, floor)
    }
}

/// The chosen candidates after one more: it takes the place of a worse one of its item.
pub open spec fn choose_step(chosen: Seq<int>, c: Seq<Candidate>, i: int, floor: i64) -> Seq<int> {
    let (item, score) = c[i];
    if score > to_beat(chosen, c, item, floor) {
        kept_without(chosen, c, item).push(i)
    } else {
        chosen
    }
}

/// The chosen candidates among the first `n`. With a stop, no further candidate is looked at once
/// there are that many.
pub open spec fn chosen_among(c: Seq<Candidate>, n: int, floor: i64, stop: Option<nat>) -> Seq<int>
    decreases n,
{
    if n <= 0 {
        Seq::empty()
    } else {
        let s = chosen_among(c, n - 1, floor, stop);
        if n > 1 && stop is Some && s.len() >= stop.unwrap() {
            s
        } else {
            choose_step(s, c, n - 1, floor)
        }
    }
}

/// The candidates of a list.
pub open spec fn candidate_views(v: Seq<(String, i64)>) -> Seq<Candidate> {
    v.map_values(|p: (String, i64)| (p.0@, p.1))
}

fn drop_item(chosen: &[usize], c: &[(String, i64)], item: &String) -> (r: Vec<usize>)
    requires
        forall|k: int| 0 <= k < chosen@.len() ==> (#[trigger] chosen@[k]) < c@.len(),
    ensures
        positions(r@) == kept_without(positions(chosen@), candidate_views(c@), item@),
        forall|k: int| 0 <= k < r@.len() ==> (#[trigger] r@[k]) < c@.len(),
{
    let ghost all = positions(chosen@);
    let ghost views = candidate_views(c@);
    let mut out: Vec<usize> = Vec::new();
    let mut i: usize = 0;
    assert(positions(out@) =~= all.take(0));
    while i < chosen.len()
        invariant
            i <= chosen.len(),
            all == positions(chosen@),
            views == candidate_views(c@),
            forall|k: int| 0 <= k < chosen@.len() ==> (#[trigger] chosen@[k]) < c@.len(),
            forall|k: int| 0 <= k < out@.len() ==> (#[trigger] out@[k]) < c@.len(),
            positions(out@) == kept_without(all.take(i as int), views, item@),
        decreases chosen.len() - i,
    {
        assert(all.take(i as int + 1).drop_last() =~= all.take(i as int));
        assert(all.take(i as int + 1).last() == chosen@[i as int] as int);
        let at: usize = chosen[i];
        assert(views[at as int].0 == c@[at as int].0@);
        if c[at].0 != *item {
            let ghost was = positions(out@);
            out.push(at);
            assert(positions(out@) =~= was.push(at as int));
        }
        i += 1;
    }
    assert(all.take(all.len() as int) =~= all);
    out
}

fn score_to_beat(chosen: &[usize], c: &[(String, i64)], item: &String, floor: i64) -> (r: i64)
    requires
        forall|k: int| 0 <= k < chosen@.len() ==> (#[trigger] chosen@[k]) < c@.len(),
    ensures
        r == to_beat(positions(chosen@), candidate_views(c@), item@, floor),
{
    let ghost all = positions(chosen@);
    let ghost views = candidate_views(c@);
    let mut n: usize = chosen.len();
    assert(all.take(n as int) =~= all);
    while n > 0
        invariant
            n <= chosen.len(),
            all == positions(chosen@),
            views == candidate_views(c@),
            forall|k: int| 0 <= k < chosen@.len() ==> (#[trigger] chosen@[k]) < c@.len(),
            to_beat(all, views, item@, floor) == to_beat(all.take(n as int), views, item@, floor),
        decreases n,
    {
        let at: usize = chosen[n - 1];
        assert(all.take(n as int).last() == at as int);
        assert(all.take(n as int).drop_last() =~= all.take(n as int - 1));
        assert(views[at as int] == (c@[at as int].0@, c@[at as int].1));
        if c[at].0 == *item {
            return c[at].1;
        }
        n -= 1;
    }
    floor
}

/// Reduces candidates to one per item, the best of each. A candidate counts only if its score is
/// above the floor. With a stop, no further candidate is looked at once that many items are found.
pub fn collapse(candidates: &[(String, i64)], floor: i64, stop: Option<usize>) -> (r: Vec<usize>)
    ensures
        positions(r@) == chosen_among(
            candidate_views(candidates@),
            candidates@.len() as int,
            floor,
            match stop {
                Some(n) => Some(n as nat),
                None => None,
            },
        ),
        forall|k: int| 0 <= k < r@.len() ==> (#[trigger] r@[k]) < candidates@.len(),
{
    let ghost views = candidate_views(candidates@);
    let ghost limit = match stop {
        Some(n) => Some(n as nat),
        None => None,
    };
    let mut chosen: Vec<usize> = Vec::new();
    let mut i: usize = 0;
    assert(positions(chosen@) =~= Seq::empty());
    while i < candidates.len()
        invariant
            i <= candidates.len(),
            views == candidate_views(candidates@),
            limit == (match stop {
                Some(n) => Some(n as nat),
                None => None,
            }),
            positions(chosen@) == chosen_among(views, i as int, floor, limit),
            forall|k: int| 0 <= k < chosen@.len() ==> (#[trigger] chosen@[k]) < candidates@.len(),
        decreases candidates.len() - i,
    {
        assert(positions(chosen@).len() == chosen@.len());
        let full = match stop {
            Some(n) => i > 0 && chosen.len() >= n,
            None => false,
        };
        if !full {
            let (item, score) = (&candidates[i].0, candidates[i].1);
            assert(views[i as int] == (item@, score));
            if score > score_to_beat(&chosen, candidates, item, floor) {
                let mut kept = drop_item(&chosen, candidates, item);
                let ghost was = positions(kept@);
                kept.push(i);
                assert(positions(kept@) =~= was.push(i as int));
                chosen = kept;
            }
        }
        i += 1;
    }
    chosen
}

/// The results: the best candidate of each item, the highest score first, at most `limit` of them.
pub fn top_results(candidates: &[(String, i64)], floor: i64, stop: bool, limit: usize) -> (r: Vec<
    usize,
>)
    ensures
        ({
            let c = candidate_views(candidates@);
            let chosen = chosen_among(
                c,
                c.len() as int,
                floor,
                if stop {
                    Some(limit as nat)
                } else {
                    None
                },
            );
            is_top(positions(r@), c, chosen, limit as nat)
        }),
{
    let chosen = collapse(
        candidates,
        floor,
        if stop {
            Some(limit)
        } else {
            None
        },
    );
    let ghost c = candidate_views(candidates@);
    let mut keys: Vec<i64> = Vec::new();
    let mut i: usize = 0;
    while i < chosen.len()
        invariant
            i <= chosen.len(),
            keys@.len() == i,
            forall|k: int| 0 <= k < chosen@.len() ==> (#[trigger] chosen@[k]) < candidates@.len(),
            forall|k: int|
                0 <= k < i ==> #[trigger] keys@[k] == candidates@[chosen@[k] as int].1,
        decreases chosen.len() - i,
    {
        keys.push(candidates[chosen[i]].1);
        i += 1;
    }
    let order = rank(keys.as_slice());
    let n: usize = if order.len() < limit {
        order.len()
    } else {
        limit
    };
    let mut out: Vec<usize> = Vec::new();
    let mut j: usize = 0;
    let ghost ranking = positions(order@);
    while j < n
        invariant
            j <= n <= order.len(),
            order@.len() == chosen@.len(),
            ranking == positions(order@),
            is_ranking(ranking, keys@),
            keys@.len() == chosen@.len(),
            out@.len() == j,
            forall|k: int|
                0 <= k < j ==> #[trigger] out@[k] == chosen@[ranking[k]],
        decreases n - j,
    {
        assert(ranking[j as int] == order@[j as int] as int);
        out.push(chosen[order[j]]);
        j += 1;
    }
    proof {
        let ch = positions(chosen@);
        let o = positions(out@);
        assert forall|k: int| 0 <= k < o.len() implies #[trigger] o[k] == ch[ranking[k]] by {
            assert(out@[k] == chosen@[ranking[k]]);
        }
        assert(scores_at(c, ch) =~= keys@) by {
            assert forall|k: int| 0 <= k < ch.len() implies c[ch[k]].1 == keys@[k] by {
                assert(keys@[k] == candidates@[chosen@[k] as int].1);
            }
        }
        assert(is_top(o, c, ch, limit as nat)) by {
            assert(is_ranking(ranking, scores_at(c, ch)));
        }
    }
    out
}

/// The scores of some candidates.
pub open spec fn scores_at(c: Seq<Candidate>, at: Seq<int>) -> Seq<i64> {
    at.map_values(|i: int| c[i].1)
}

/// The first `limit` of the chosen candidates by score; equal scores keep their order.
pub open spec fn is_top(r: Seq<int>, c: Seq<Candidate>, chosen: Seq<int>, limit: nat) -> bool {
    exists|ranking: Seq<int>|
        #![trigger is_ranking(ranking, scores_at(c, chosen))]
        is_ranking(ranking, scores_at(c, chosen)) && r.len() == (if chosen.len() < limit {
            chosen.len()
        } else {
            limit
        }) && forall|k: int| 0 <= k < r.len() ==> #[trigger] r[k] == chosen[ranking[k]]
}

/// Each of some positions is that of a candidate, and no two of them are of one item.
pub open spec fn one_per_item(chosen: Seq<int>, c: Seq<Candidate>) -> bool {
    &&& forall|i: int| 0 <= i < chosen.len() ==> 0 <= #[trigger] chosen[i] < c.len()
    &&& forall|i: int, j: int|
        0 <= i < j < chosen.len() ==> c[#[trigger] chosen[i]].0 != c[#[trigger] chosen[j]].0
}

/// Dropping the candidates of an item keeps all others.
pub proof fn lemma_kept_without(chosen: Seq<int>, c: Seq<Candidate>, item: Seq<char>)
    requires
        one_per_item(chosen, c),
    ensures
        one_per_item(kept_without(chosen, c, item), c),
        forall|i: int|
            0 <= i < kept_without(chosen, c, item).len() ==> c[#[trigger] kept_without(
                chosen,
                c,
                item,
            )[i]].0 != item && chosen.contains(kept_without(chosen, c, item)[i]),
        forall|i: int|
            0 <= i < chosen.len() && c[#[trigger] chosen[i]].0 != item ==> kept_without(
                chosen,
                c,
                item,
            ).contains(chosen[i]),
    decreases chosen.len(),
{
    if chosen.len() > 0 {
        let t = chosen.drop_last();
        assert(one_per_item(t, c)) by {
            assert forall|i: int| 0 <= i < t.len() implies 0 <= #[trigger] t[i] < c.len() by {
                assert(t[i] == chosen[i]);
            }
            assert forall|i: int, j: int| 0 <= i < j < t.len() implies c[#[trigger] t[i]].0
                != c[#[trigger] t[j]].0 by {
                assert(c[chosen[i]].0 != c[chosen[j]].0);
            }
        }
        lemma_kept_without(t, c, item);
        let k = kept_without(t, c, item);
        let all = kept_without(chosen, c, item);
        assert(chosen[chosen.len() - 1] == chosen.last());
        assert forall|i: int| 0 <= i < k.len() implies chosen.contains(#[trigger] k[i]) && c[k[i]].0
            != c[chosen.last()].0 by {
            let m = choose|m: int| 0 <= m < t.len() && t[m] == k[i];
            assert(chosen[m] == k[i]);
            assert(c[chosen[m]].0 != c[chosen[chosen.len() - 1]].0);
        }
        assert forall|i: int| 0 <= i < all.len() implies c[#[trigger] all[i]].0 != item
            && chosen.contains(all[i]) by {
            if i < k.len() {
                assert(all[i] == k[i]);
            }
        }
        assert(one_per_item(all, c)) by {
            assert forall|i: int| 0 <= i < all.len() implies 0 <= #[trigger] all[i] < c.len() by {
                if i < k.len() {
                    assert(all[i] == k[i]);
                }
            }
            assert forall|i: int, j: int| 0 <= i < j < all.len() implies c[#[trigger] all[i]].0
                != c[#[trigger] all[j]].0 by {
                if j < k.len() {
                    assert(c[k[i]].0 != c[k[j]].0);
                } else {
                    assert(all[i] == k[i]);
                }
            }
        }
        assert forall|i: int| 0 <= i < chosen.len() && c[#[trigger] chosen[i]].0
            != item implies all.contains(chosen[i]) by {
            if i < t.len() {
                assert(t[i] == chosen[i]);
                assert(k.contains(t[i]));
                let m = choose|m: int| 0 <= m < k.len() && k[m] == t[i];
                assert(all[m] == chosen[i]);
            } else {
                assert(all[all.len() - 1] == chosen[i]);
            }
        }
    }
}

/// The score to beat for an item is the floor or that of its chosen candidate.
pub proof fn lemma_to_beat(chosen: Seq<int>, c: Seq<Candidate>, item: Seq<char>, floor: i64)
    requires
        one_per_item(chosen, c),
    ensures
        to_beat(chosen, c, item, floor) == floor || exists|i: int|
            0 <= i < chosen.len() && c[#[trigger] chosen[i]].0 == item && c[chosen[i]].1 == to_beat(
                chosen,
                c,
                item,
                floor,
            ),
        forall|i: int|
            0 <= i < chosen.len() && c[#[trigger] chosen[i]].0 == item ==> c[chosen[i]].1
                == to_beat(chosen, c, item, floor),
    decreases chosen.len(),
{
    if chosen.len() > 0 {
        let t = chosen.drop_last();
        assert(one_per_item(t, c)) by {
            assert forall|i: int| 0 <= i < t.len() implies 0 <= #[trigger] t[i] < c.len() by {
                assert(t[i] == chosen[i]);
            }
            assert forall|i: int, j: int| 0 <= i < j < t.len() implies c[#[trigger] t[i]].0
                != c[#[trigger] t[j]].0 by {
                assert(c[chosen[i]].0 != c[chosen[j]].0);
            }
        }
        lemma_to_beat(t, c, item, floor);
        assert(chosen[chosen.len() - 1] == chosen.last());
        assert forall|i: int| 0 <= i < chosen.len() && c[#[trigger] chosen[i]].0
            == item implies c[chosen[i]].1 == to_beat(chosen, c, item, floor) by {
            if i < t.len() {
                assert(t[i] == chosen[i]);
                assert(c[chosen[i]].0 != c[chosen[chosen.len() - 1]].0);
            }
        }
        if c[chosen.last()].0 != item && to_beat(chosen, c, item, floor) != floor {
            let i = choose|i: int|
                0 <= i < t.len() && c[#[trigger] t[i]].0 == item && c[t[i]].1 == to_beat(
                    t,
                    c,
                    item,
                    floor,
                );
            assert(chosen[i] == t[i]);
        }
    }
}

/// However candidates are collapsed, no item has two results.
pub proof fn law_one_result_per_item(c: Seq<Candidate>, n: int, floor: i64, stop: Option<nat>)
    requires
        0 <= n <= c.len(),
    ensures
        one_per_item(chosen_among(c, n, floor, stop), c),
    decreases n,
{
    if n > 0 {
        law_one_result_per_item(c, n - 1, floor, stop);
        let s = chosen_among(c, n - 1, floor, stop);
        let item = c[n - 1].0;
        lemma_kept_without(s, c, item);
        let k = kept_without(s, c, item);
        let r = k.push(n - 1);
        assert(one_per_item(r, c)) by {
            assert forall|i: int, j: int| 0 <= i < j < r.len() implies c[#[trigger] r[i]].0
                != c[#[trigger] r[j]].0 by {
                if j < k.len() {
                    assert(c[k[i]].0 != c[k[j]].0);
                } else {
                    assert(c[k[i]].0 != item);
                }
            }
        }
    }
}

/// Where every candidate is looked at, an item's result has the item's best score, and every item
/// with a score above the floor has a result.
pub proof fn law_result_is_the_best(c: Seq<Candidate>, n: int, floor: i64, i: int)
    requires
        0 <= n <= c.len(),
        0 <= i < n,
        c[i].1 > floor,
    ensures
        exists|m: int|
            0 <= m < chosen_among(c, n, floor, None).len() && c[#[trigger] chosen_among(
                c,
                n,
                floor,
                None,
            )[m]].0 == c[i].0 && c[chosen_among(c, n, floor, None)[m]].1 >= c[i].1,
    decreases n,
{
    let s = chosen_among(c, n - 1, floor, None);
    let r = chosen_among(c, n, floor, None);
    let (item, score) = c[n - 1];
    law_one_result_per_item(c, n - 1, floor, None);
    lemma_to_beat(s, c, item, floor);
    lemma_kept_without(s, c, item);
    let k = kept_without(s, c, item);
    if i == n - 1 {
        if score > to_beat(s, c, item, floor) {
            assert(r[r.len() - 1] == n - 1);
        } else {
            let m = choose|m: int|
                0 <= m < s.len() && c[#[trigger] s[m]].0 == item && c[s[m]].1 == to_beat(
                    s,
                    c,
                    item,
                    floor,
                );
            assert(r[m] == s[m]);
        }
    } else {
        law_result_is_the_best(c, n - 1, floor, i);
        let m = choose|m: int|
            0 <= m < s.len() && c[#[trigger] s[m]].0 == c[i].0 && c[s[m]].1 >= c[i].1;
        if score > to_beat(s, c, item, floor) {
            if c[i].0 == item {
                assert(c[s[m]].1 == to_beat(s, c, item, floor));
                assert(r[r.len() - 1] == n - 1);
            } else {
                assert(k.contains(s[m]));
                let j = choose|j: int| 0 <= j < k.len() && k[j] == s[m];
                assert(r[j] == s[m]);
            }
        } else {
            assert(r[m] == s[m]);
        }
    }
}

/// A result: which candidate it is, and which rank of the reranker its score comes from, if any.
#[derive(Debug, Clone, Copy)]
pub struct Hit {
    pub candidate: usize,
    pub reranked: Option<usize>,
}

/// The places in the reranker's answer, among the first `n`, that name a candidate.
pub open spec fn usable(reranked: Seq<(usize, i64)>, candidates: int, n: int) -> Seq<int>
    decreases n,
{
    if n <= 0 {
        Seq::empty()
    } else if reranked[n - 1].0 < candidates {
        usable(reranked, candidates, n - 1).push(n - 1)
    } else {
        usable(reranked, candidates, n - 1)
    }
}

/// The candidates that the reranker's answer names, with their new scores.
pub open spec fn rescored(c: Seq<Candidate>, reranked: Seq<(usize, i64)>) -> Seq<Candidate> {
    usable(reranked, c.len() as int, reranked.len() as int).map_values(
        |p: int| (c[reranked[p].0 as int].0, reranked[p].1),
    )
}

/// Some hits are the top results by the scores of the reranker.
pub open spec fn top_by_reranker(
    hits: Seq<Hit>,
    c: Seq<Candidate>,
    reranked: Seq<(usize, i64)>,
    floor: i64,
    limit: nat,
) -> bool {
    let again = rescored(c, reranked);
    let places = usable(reranked, c.len() as int, reranked.len() as int);
    exists|top: Seq<int>|
        #![trigger is_top(top, again, chosen_among(again, again.len() as int, floor, None), limit)]
        is_top(top, again, chosen_among(again, again.len() as int, floor, None), limit)
            && hits.len() == top.len() && forall|k: int|
            0 <= k < hits.len() ==> {
                &&& (#[trigger] hits[k]).reranked == Some(places[top[k]] as usize)
                &&& hits[k].candidate == reranked[places[top[k]]].0
            }
}

/// Some hits are the top results by the scores of the candidates themselves.
pub open spec fn top_by_fusion(hits: Seq<Hit>, c: Seq<Candidate>, floor: i64, limit: nat) -> bool {
    let top = hits.map_values(|h: Hit| h.candidate as int);
    is_top(top, c, chosen_among(c, c.len() as int, floor, Some(limit)), limit) && forall|k: int|
        0 <= k < hits.len() ==> (#[trigger] hits[k]).reranked is None
}

/// Whether the reranker's scores decide: there is an answer, and it chooses something.
pub open spec fn reranker_decides(
    c: Seq<Candidate>,
    reranked: Option<Seq<(usize, i64)>>,
    floor: i64,
) -> bool {
    reranked is Some && ({
        let again = rescored(c, reranked.unwrap());
        chosen_among(again, again.len() as int, floor, None).len() > 0
    })
}

fn usable_places(reranked: &[(usize, i64)], candidates: usize) -> (r: Vec<usize>)
    ensures
        positions(r@) == usable(reranked@, candidates as int, reranked@.len() as int),
        forall|k: int|
            0 <= k < r@.len() ==> (#[trigger] r@[k]) < reranked@.len() && reranked@[r@[k] as int].0
                < candidates,
{
    let mut out: Vec<usize> = Vec::new();
    let mut i: usize = 0;
    assert(positions(out@) =~= Seq::empty());
    while i < reranked.len()
        invariant
            i <= reranked.len(),
            positions(out@) == usable(reranked@, candidates as int, i as int),
            forall|k: int|
                0 <= k < out@.len() ==> (#[trigger] out@[k]) < reranked@.len()
                    && reranked@[out@[k] as int].0 < candidates,
        decreases reranked.len() - i,
    {
        if reranked[i].0 < candidates {
            let ghost was = positions(out@);
            out.push(i);
            assert(positions(out@) =~= was.push(i as int));
        }
        i += 1;
    }
    out
}

fn hits_by_reranker(
    candidates: &[(String, i64)],
    reranked: &[(usize, i64)],
    floor: i64,
    limit: usize,
) -> (r: (Vec<Hit>, bool))
    ensures
        top_by_reranker(r.0@, candidate_views(candidates@), reranked@, floor, limit as nat),
        r.1 == reranker_decides(candidate_views(candidates@), Some(reranked@), floor),
{
    let places = usable_places(reranked, candidates.len());
    let ghost c = candidate_views(candidates@);
    let ghost again = rescored(c, reranked@);
    let mut list: Vec<(String, i64)> = Vec::new();
    let mut i: usize = 0;
    while i < places.len()
        invariant
            i <= places.len(),
            c == candidate_views(candidates@),
            forall|k: int|
                0 <= k < places@.len() ==> (#[trigger] places@[k]) < reranked@.len()
                    && reranked@[places@[k] as int].0 < candidates@.len(),
            list@.len() == i,
            forall|k: int|
                0 <= k < i ==> (#[trigger] candidate_views(list@)[k]) == (
                    c[reranked@[places@[k] as int].0 as int].0,
                    reranked@[places@[k] as int].1,
                ),
        decreases places.len() - i,
    {
        let p: usize = places[i];
        let ghost was = candidate_views(list@);
        list.push((candidates[reranked[p].0].0.clone(), reranked[p].1));
        assert(candidate_views(list@) =~= was.push(
            (c[reranked@[p as int].0 as int].0, reranked@[p as int].1),
        ));
        i += 1;
    }
    proof {
        let u = usable(reranked@, c.len() as int, reranked@.len() as int);
        assert(c.len() == candidates@.len());
        assert(candidate_views(list@) =~= again) by {
            assert forall|k: int| 0 <= k < list@.len() implies candidate_views(list@)[k]
                == again[k] by {
                assert(u[k] == places@[k] as int);
            }
        }
    }
    let top = top_results(list.as_slice(), floor, false, limit);
    let any = collapse(list.as_slice(), floor, None).len() > 0;
    let ghost chosen = chosen_among(again, again.len() as int, floor, None);
    let ghost t = positions(top@);
    proof {
        law_one_result_per_item(again, again.len() as int, floor, None);
        lemma_top_in_range(t, again, chosen, limit as nat);
    }
    let mut out: Vec<Hit> = Vec::new();
    let mut j: usize = 0;
    while j < top.len()
        invariant
            j <= top.len(),
            t == positions(top@),
            forall|k: int| 0 <= k < t.len() ==> 0 <= #[trigger] t[k] < places@.len(),
            forall|k: int|
                0 <= k < places@.len() ==> (#[trigger] places@[k]) < reranked@.len()
                    && reranked@[places@[k] as int].0 < candidates@.len(),
            out@.len() == j,
            forall|k: int|
                0 <= k < j ==> (#[trigger] out@[k]).reranked == Some(places@[t[k]])
                    && out@[k].candidate == reranked@[places@[t[k]] as int].0,
        decreases top.len() - j,
    {
        assert(t[j as int] == top@[j as int] as int);
        let p: usize = places[top[j]];
        out.push(Hit { candidate: reranked[p].0, reranked: Some(p) });
        j += 1;
    }
    proof {
        let u = usable(reranked@, c.len() as int, reranked@.len() as int);
        assert(is_top(t, again, chosen, limit as nat));
        assert forall|k: int| 0 <= k < out@.len() implies {
            &&& (#[trigger] out@[k]).reranked == Some(u[t[k]] as usize)
            &&& out@[k].candidate == reranked@[u[t[k]]].0
        } by {
            assert(u[t[k]] == places@[t[k]] as int);
        }
        assert(top_by_reranker(out@, c, reranked@, floor, limit as nat));
    }
    (out, any)
}

proof fn lemma_top_in_range(r: Seq<int>, c: Seq<Candidate>, chosen: Seq<int>, limit: nat)
    requires
        is_top(r, c, chosen, limit),
        one_per_item(chosen, c),
    ensures
        forall|k: int| 0 <= k < r.len() ==> 0 <= #[trigger] r[k] < c.len(),
{
    let ranking = choose|ranking: Seq<int>|
        #![trigger is_ranking(ranking, scores_at(c, chosen))]
        is_ranking(ranking, scores_at(c, chosen)) && r.len() == (if chosen.len() < limit {
            chosen.len()
        } else {
            limit
        }) && forall|k: int| 0 <= k < r.len() ==> #[trigger] r[k] == chosen[ranking[k]];
    assert forall|k: int| 0 <= k < r.len() implies 0 <= #[trigger] r[k] < c.len() by {
        assert(0 <= ranking[k] < scores_at(c, chosen).len());
        assert(0 <= chosen[ranking[k]] < c.len());
    }
}

/// The results of a search: the best candidate of each item. Where the reranker's answer chooses
/// anything, its scores decide, else those of the candidates. Places in its answer that name no
/// candidate are passed over.
pub fn search_hits(
    candidates: &[(String, i64)],
    reranked: Option<&[(usize, i64)]>,
    floor: i64,
    limit: usize,
) -> (r: Vec<Hit>)
    ensures
        ({
            let c = candidate_views(candidates@);
            let answer = match reranked {
                Some(a) => Some(a@),
                None => None,
            };
            if reranker_decides(c, answer, floor) {
                top_by_reranker(r@, c, answer.unwrap(), floor, limit as nat)
            } else {
                top_by_fusion(r@, c, floor, limit as nat)
            }
        }),
{
    if let Some(answer) = reranked {
        let (hits, any) = hits_by_reranker(candidates, answer, floor, limit);
        if any {
            return hits;
        }
    }
    let top = top_results(candidates, floor, true, limit);
    let mut out: Vec<Hit> = Vec::new();
    let mut i: usize = 0;
    while i < top.len()
        invariant
            i <= top.len(),
            out@.len() == i,
            forall|k: int|
                0 <= k < i ==> (#[trigger] out@[k]).candidate == top@[k] && out@[k].reranked is None,
        decreases top.len() - i,
    {
        out.push(Hit { candidate: top[i], reranked: None });
        i += 1;
    }
    assert(out@.map_values(|h: Hit| h.candidate as int) =~= positions(top@));
    out
}

/// Results come with the highest score first, and there are never more than asked for.
pub proof fn law_results_descend(r: Seq<int>, c: Seq<Candidate>, chosen: Seq<int>, limit: nat)
    requires
        is_top(r, c, chosen, limit),
    ensures
        r.len() <= limit,
        forall|i: int, j: int|
            0 <= i < j < r.len() ==> c[#[trigger] r[i]].1 >= c[#[trigger] r[j]].1,
{
    let ranking = choose|ranking: Seq<int>|
        #![trigger is_ranking(ranking, scores_at(c, chosen))]
        is_ranking(ranking, scores_at(c, chosen)) && r.len() == (if chosen.len() < limit {
            chosen.len()
        } else {
            limit
        }) && forall|k: int| 0 <= k < r.len() ==> #[trigger] r[k] == chosen[ranking[k]];
    let keys = scores_at(c, chosen);
    assert forall|i: int, j: int| 0 <= i < j < r.len() implies c[#[trigger] r[i]].1
        >= c[#[trigger] r[j]].1 by {
        assert(before(keys, ranking[i], ranking[j]));
        assert(keys[ranking[i]] == c[chosen[ranking[i]]].1);
        assert(keys[ranking[j]] == c[chosen[ranking[j]]].1);
    }
}

} // verus!
