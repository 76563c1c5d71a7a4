//! Which of several collections with one key comes first in an assembled tree.
use crate::api::models::ZoteroCollection;
use crate::collections::laws::lemma_forest_grounded;
use crate::collections::tree::folds_of;
use crate::collections::tree::forest_of;
use crate::collections::tree::keys_of;
use crate::collections::tree::lead_of;
use crate::collections::tree::leads_of;
use crate::collections::tree::lemma_lead;
use crate::collections::tree::Forest;
use crate::text::lemma_text_le_refl;
use crate::text::lemma_text_le_total;
use crate::text::lemma_text_le_trans;
use crate::text::text_le;
use vstd::prelude::*;

verus! {

/// The leading collection of a key has the least lowercase name, and is the first with that name.
proof fn lemma_lead_least(
    keys: Seq<Seq<char>>,
    folds: Seq<Seq<char>>,
    key: Seq<char>,
    n: int,
    i: int,
)
    requires
        0 <= i < n <= keys.len(),
        keys[i] == key,
    ensures
        ({
            let b = lead_of(keys, folds, key, n);
            &&& 0 <= b < n
            &&& text_le(folds[b], folds[i])
            &&& i < b ==> !text_le(folds[i], folds[b])
        }),
    decreases n,
{
    let b = lead_of(keys, folds, key, n);
    let a = lead_of(keys, folds, key, n - 1);
    lemma_lead(keys, folds, key, n - 1);
    lemma_lead(keys, folds, key, n);
    if i < n - 1 {
        lemma_lead_least(keys, folds, key, n - 1, i);
        if b == n - 1 {
            lemma_text_le_total(folds[a], folds[b]);
            lemma_text_le_trans(folds[b], folds[a], folds[i]);
            if text_le(folds[i], folds[b]) {
                lemma_text_le_trans(folds[a], folds[i], folds[b]);
            }
        }
    } else {
        lemma_text_le_refl(folds[i]);
    }
}

/// Whether one position comes before another in a list.
spec fn comes_before(s: Seq<int>, a: int, b: int) -> bool {
    exists|i: int, j: int| 0 <= i < j < s.len() && #[trigger] s[i] == a && #[trigger] s[j] == b
}

proof fn lemma_before_push(s: Seq<int>, a: int, b: int, c: int)
    ensures
        comes_before(s, a, b) ==> comes_before(s.push(c), a, b),
        s.contains(a) ==> comes_before(s.push(c), a, c),
{
    let t = s.push(c);
    if comes_before(s, a, b) {
        let (i, j) = choose|i: int, j: int|
            0 <= i < j < s.len() && #[trigger] s[i] == a && #[trigger] s[j] == b;
        assert(t[i] == a && t[j] == b);
    }
    if s.contains(a) {
        let i = choose|i: int| 0 <= i < s.len() && s[i] == a;
        assert(t[i] == a && t[t.len() - 1] == c);
    }
}

impl Forest {
    /// A sibling that is put among others comes after those that it does not precede, before the
    /// others, and leaves their order as it is.
    proof fn lemma_inserted_place(self, s: Seq<int>, c: int, a: int, b: int)
        requires
            self.in_order(s),
        ensures
            self.inserted(s, c).contains(c),
            s.contains(a) ==> self.inserted(s, c).contains(a),
            comes_before(s, a, b) ==> comes_before(self.inserted(s, c), a, b),
            s.contains(a) && self.le(a, c) ==> comes_before(self.inserted(s, c), a, c),
            s.contains(a) && !self.le(a, c) ==> comes_before(self.inserted(s, c), c, a),
        decreases s.len(),
    {
        let r = self.inserted(s, c);
        if s.len() == 0 || self.le(s.last(), c) {
            lemma_before_push(s, a, b, c);
            assert(r[r.len() - 1] == c);
            if s.contains(a) {
                let i = choose|i: int| 0 <= i < s.len() && s[i] == a;
                assert(r[i] == a);
                if i < s.len() - 1 {
                    assert(self.le(s[i], s[s.len() - 1]));
                    self.lemma_le_trans(a, s.last(), c);
                }
            }
        } else {
            let t = s.drop_last();
            let z = s.last();
            let rt = self.inserted(t, c);
            assert(self.in_order(t)) by {
                assert forall|i: int, j: int| 0 <= i < j < t.len() implies self.le(
                    #[trigger] t[i],
                    #[trigger] t[j],
                ) by {
                    assert(self.le(s[i], s[j]));
                }
            }
            self.lemma_inserted_place(t, c, a, b);
            lemma_before_push(rt, a, b, z);
            lemma_before_push(rt, a, c, z);
            lemma_before_push(rt, c, a, z);
            assert(r == rt.push(z));
            assert(r[r.len() - 1] == z);
            let k = choose|k: int| 0 <= k < rt.len() && rt[k] == c;
            assert(r[k] == c);
            if rt.contains(a) {
                let i = choose|i: int| 0 <= i < rt.len() && rt[i] == a;
                assert(r[i] == a);
            }
            if s.contains(a) {
                let i = choose|i: int| 0 <= i < s.len() && s[i] == a;
                if i < t.len() {
                    assert(t[i] == a);
                }
            }
            if comes_before(s, a, b) {
                let (i, j) = choose|i: int, j: int|
                    0 <= i < j < s.len() && #[trigger] s[i] == a && #[trigger] s[j] == b;
                assert(t[i] == a);
                if j < t.len() {
                    assert(t[j] == b);
                }
            }
        }
    }

    /// Of two siblings, the one that precedes the other comes first, and the earlier where neither
    /// goes before the other.
    proof fn lemma_kids_place(self, parent: Option<int>, n: int, a: int, b: int)
        requires
            0 <= a < b < n,
            self.par[a] == parent,
            self.par[b] == parent,
        ensures
            self.le(a, b) ==> comes_before(self.kids_among(parent, n), a, b),
            !self.le(a, b) ==> comes_before(self.kids_among(parent, n), b, a),
        decreases n,
    {
        let s = self.kids_among(parent, n - 1);
        self.lemma_kids_in_order(parent, n - 1);
        if b < n - 1 {
            self.lemma_kids_place(parent, n - 1, a, b);
            if self.par[n - 1] == parent {
                self.lemma_inserted_place(s, n - 1, a, b);
                self.lemma_inserted_place(s, n - 1, b, a);
            }
        } else {
            self.lemma_kids_hold(parent, n - 1, a);
            self.lemma_inserted_place(s, n - 1, a, b);
        }
    }

    proof fn lemma_kids_hold(self, parent: Option<int>, n: int, a: int)
        requires
            0 <= a < n,
            self.par[a] == parent,
        ensures
            self.kids_among(parent, n).contains(a),
        decreases n,
    {
        let s = self.kids_among(parent, n - 1);
        self.lemma_kids_in_order(parent, n - 1);
        if a < n - 1 {
            self.lemma_kids_hold(parent, n - 1, a);
        }
        if self.par[n - 1] == parent {
            self.lemma_inserted_place(s, n - 1, a, a);
        }
    }

    /// What a walk visits of some siblings stands in the walk in the same order.
    proof fn lemma_visited_order(
        self,
        walk: Seq<(int, int)>,
        parent: Option<int>,
        a: int,
        b: int,
    )
        requires
            comes_before(self.visited_under(walk, parent), a, b),
        ensures
            exists|i: int, j: int|
                0 <= i < j < walk.len() && (#[trigger] walk[i]).0 == a && (#[trigger] walk[j]).0
                    == b,
        decreases walk.len(),
    {
        let s = self.visited_under(walk, parent);
        let (k, l) = choose|k: int, l: int|
            0 <= k < l < s.len() && #[trigger] s[k] == a && #[trigger] s[l] == b;
        let most = walk.drop_last();
        let t = self.visited_under(most, parent);
        assert(t[k] == a);
        if l < t.len() {
            assert(t[l] == b);
            self.lemma_visited_order(most, parent, a, b);
            let (i, j) = choose|i: int, j: int|
                0 <= i < j < most.len() && (#[trigger] most[i]).0 == a && (#[trigger] most[j]).0
                    == b;
            assert(walk[i].0 == a && walk[j].0 == b);
        } else {
            assert(t.contains(a));
            let i = self.lemma_visited_there(most, parent, a);
            assert(walk[i].0 == a && walk[walk.len() - 1].0 == b);
        }
    }

    proof fn lemma_visited_there(self, walk: Seq<(int, int)>, parent: Option<int>, a: int) -> (i: int)
        requires
            self.visited_under(walk, parent).contains(a),
        ensures
            0 <= i < walk.len(),
            walk[i].0 == a,
        decreases walk.len(),
    {
        let s = self.visited_under(walk, parent);
        let k = choose|k: int| 0 <= k < s.len() && s[k] == a;
        let most = walk.drop_last();
        let t = self.visited_under(most, parent);
        if k < t.len() {
            assert(t[k] == a);
            self.lemma_visited_there(most, parent, a)
        } else {
            walk.len() - 1
        }
    }

    /// The walk visits siblings in their order.
    proof fn lemma_walk_place(self, parent: Option<int>, a: int, b: int)
        requires
            self.grounded(),
            comes_before(self.kids(parent), a, b),
        ensures
            exists|i: int, j: int|
                0 <= i < j < self.walk().len() && (#[trigger] self.walk()[i]).0 == a && (
                #[trigger] self.walk()[j]).0 == b,
    {
        let roots = self.kids(None);
        let n = self.keys.len();
        self.lemma_roots();
        self.lemma_kids(None);
        match parent {
            Some(x) => {
                self.lemma_kids(parent);
                let k = self.kids(parent);
                let (i, j) = choose|i: int, j: int|
                    0 <= i < j < k.len() && #[trigger] k[i] == a && #[trigger] k[j] == b;
                assert(k.contains(k[i]));
                self.lemma_level(a);
                let r = self.lemma_within_root(x);
                assert(roots.contains(r));
                let m = choose|m: int| 0 <= m < roots.len() && roots[m] == r;
                self.lemma_visited_kids(roots, 0, 0, n, m, x);
            },
            None => {
                assert forall|j: int| 0 <= j < roots.len() implies self.par[#[trigger] roots[j]]
                    == parent by {
                    assert(roots.contains(roots[j]));
                }
                self.lemma_visited_siblings(roots, 0, 0, n, None);
            },
        }
        self.lemma_visited_order(self.walk(), parent, a, b);
    }
}

/// Collections with one key have one parent, and the tree holds the leading one first.
pub proof fn lemma_lead_is_first(cs: Seq<ZoteroCollection>, y: int)
    requires
        0 <= y < cs.len(),
    ensures
        ({
            let f = forest_of(cs);
            let l = lead_of(keys_of(cs), folds_of(cs), keys_of(cs)[y], cs.len() as int);
            &&& 0 <= l < cs.len()
            &&& keys_of(cs)[l] == keys_of(cs)[y]
            &&& f.par[l] == f.par[y]
            &&& l == y || exists|i: int, j: int|
                0 <= i < j < f.walk().len() && (#[trigger] f.walk()[i]).0 == l && (
                #[trigger] f.walk()[j]).0 == y
        }),
{
    let f = forest_of(cs);
    let keys = keys_of(cs);
    let folds = folds_of(cs);
    let n = cs.len() as int;
    let l = lead_of(keys, folds, keys[y], n);
    lemma_forest_grounded(cs);
    lemma_lead_least(keys, folds, keys[y], n, y);
    lemma_lead(keys, folds, keys[y], n);
    let leads = leads_of(keys, folds);
    assert(leads[l] == leads[y]);
    assert(f.par[l] == f.par[y]);
    lemma_text_le_refl(keys[y]);
    if l < y {
        assert(f.le(l, y));
        f.lemma_kids_place(f.par[y], n, l, y);
    } else if y < l {
        assert(!f.le(y, l)) by {
            if folds[y] == folds[l] {
                lemma_text_le_refl(folds[y]);
            }
        }
        f.lemma_kids_place(f.par[y], n, y, l);
    }
    if l != y {
        f.lemma_walk_place(f.par[y], l, y);
    }
}

} // verus!
