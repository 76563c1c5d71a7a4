//! What holds of every assembled tree.
use crate::api::models::ZoteroCollection;
use crate::collections::tree::cut_cycles;
use crate::collections::tree::folds_of;
use crate::collections::tree::forest_of;
use crate::collections::tree::keys_of;
use crate::collections::tree::last_index;
use crate::collections::tree::lead_of;
use crate::collections::tree::leads_of;
use crate::collections::tree::lemma_last_index;
use crate::collections::tree::lemma_lead;
use crate::collections::tree::lemma_pigeonhole;
use crate::collections::tree::links_wf;
use crate::collections::tree::loop_entry;
use crate::collections::tree::raw_parents;
use crate::collections::tree::shared_parents;
use crate::collections::tree::tree_of;
use crate::collections::tree::Forest;
use crate::collections::tree::NodeView;
use crate::text::lemma_text_le_antisym;
use crate::text::lemma_text_le_refl;
use crate::text::lemma_text_le_total;
use crate::text::lemma_text_le_trans;
use crate::text::lowercase;
use crate::text::text_le;
use vstd::prelude::*;

verus! {

/// Whether the parents from `i` on end at a root within `k` steps.
pub open spec fn ends(par: Seq<Option<int>>, i: int, k: nat) -> bool
    decreases k,
{
    match par[i] {
        Some(p) => k > 0 && ends(par, p, (k - 1) as nat),
        None => true,
    }
}

/// How many steps lead from `i` to its root, counted up to `k`.
pub open spec fn height(par: Seq<Option<int>>, i: int, k: nat) -> nat
    decreases k,
{
    match par[i] {
        Some(p) => if k > 0 {
            1 + height(par, p, (k - 1) as nat)
        } else {
            0
        },
        None => 0,
    }
}

proof fn lemma_entry_none_ends(par: Seq<Option<int>>, path: Seq<int>, cur: int)
    requires
        links_wf(par),
        0 <= cur < par.len(),
        path.no_duplicates(),
        forall|i: int| 0 <= i < path.len() ==> 0 <= #[trigger] path[i] < par.len(),
        loop_entry(par, path, cur) is None,
    ensures
        path.len() <= par.len(),
        ends(par, cur, (par.len() - path.len()) as nat),
    decreases par.len() + 1 - path.len(),
{
    lemma_pigeonhole(path.push(cur), par.len());
    if let Some(p) = par[cur] {
        lemma_entry_none_ends(par, path.push(cur), p);
    }
}

proof fn lemma_entry_cut_ends(par: Seq<Option<int>>, path: Seq<int>, cur: int, e: int)
    requires
        links_wf(par),
        0 <= cur < par.len(),
        path.no_duplicates(),
        forall|i: int| 0 <= i < path.len() ==> 0 <= #[trigger] path[i] < par.len(),
        loop_entry(par, path, cur) == Some(e),
    ensures
        path.len() <= par.len(),
        0 <= e < par.len(),
        ends(par.update(e, None), cur, (par.len() - path.len()) as nat),
    decreases par.len() + 1 - path.len(),
{
    lemma_pigeonhole(path, par.len());
    if !path.contains(cur) {
        lemma_pigeonhole(path.push(cur), par.len());
        let p = par[cur].unwrap();
        lemma_entry_cut_ends(par, path.push(cur), p, e);
    }
}

proof fn lemma_cut_keeps_ends(par: Seq<Option<int>>, e: int, i: int, k: nat)
    requires
        links_wf(par),
        0 <= i < par.len(),
        0 <= e < par.len(),
        ends(par, i, k),
    ensures
        ends(par.update(e, None), i, k),
    decreases k,
{
    if let Some(p) = par[i] {
        lemma_cut_keeps_ends(par, e, p, (k - 1) as nat);
    }
}

/// After walks from the first `n` collections, the parents of each of them end at a root.
proof fn lemma_cut_cycles(par: Seq<Option<int>>, reps: Seq<int>, n: int)
    requires
        links_wf(par),
        0 <= n <= reps.len(),
        forall|i: int| 0 <= i < reps.len() ==> 0 <= #[trigger] reps[i] < par.len(),
    ensures
        cut_cycles(par, reps, n).len() == par.len(),
        links_wf(cut_cycles(par, reps, n)),
        forall|j: int|
            0 <= j < n ==> ends(cut_cycles(par, reps, n), #[trigger] reps[j], par.len()),
    decreases n,
{
    if n > 0 {
        lemma_cut_cycles(par, reps, n - 1);
        let now = cut_cycles(par, reps, n - 1);
        let next = cut_cycles(par, reps, n);
        let start = reps[n - 1];
        match loop_entry(now, Seq::empty(), start) {
            Some(e) => {
                lemma_entry_cut_ends(now, Seq::empty(), start, e);
                assert forall|j: int| 0 <= j < n implies ends(next, #[trigger] reps[j], par.len()) by {
                    if j < n - 1 {
                        lemma_cut_keeps_ends(now, e, reps[j], par.len());
                    }
                }
                assert(links_wf(next));
            },
            None => {
                lemma_entry_none_ends(now, Seq::empty(), start);
            },
        }
    }
}

proof fn lemma_height_stable(par: Seq<Option<int>>, i: int, k: nat, m: nat)
    requires
        links_wf(par),
        0 <= i < par.len(),
        ends(par, i, k),
        k <= m,
    ensures
        height(par, i, m) == height(par, i, k),
        height(par, i, k) <= k,
        ends(par, i, m),
    decreases k,
{
    if let Some(p) = par[i] {
        lemma_height_stable(par, p, (k - 1) as nat, (m - 1) as nat);
    }
}

impl Forest {
    /// All parents end at a root.
    pub open spec fn grounded(self) -> bool {
        &&& self.wf()
        &&& forall|i: int| 0 <= i < self.keys.len() ==> #[trigger] ends(self.par, i, self.keys.len())
    }

    /// How many steps lead from a collection to its root.
    pub open spec fn level(self, i: int) -> nat {
        height(self.par, i, self.keys.len())
    }

    /// Whether `x` is `c` or lies below it.
    pub open spec fn within(self, x: int, c: int) -> bool
        decreases self.level(x),
        when self.grounded() && 0 <= x < self.keys.len()
        via Self::within_ends
    {
        x == c || match self.par[x] {
            Some(q) => self.within(q, c),
            None => false,
        }
    }

    #[via_fn]
    proof fn within_ends(self, x: int, c: int) {
        self.lemma_level(x);
    }

    /// A collection's level is that of its parent and one.
    pub proof fn lemma_level(self, i: int)
        requires
            self.grounded(),
            0 <= i < self.keys.len(),
        ensures
            self.level(i) <= self.keys.len(),
            match self.par[i] {
                Some(p) => 0 <= p < self.keys.len() && self.level(i) == self.level(p) + 1,
                None => self.level(i) == 0,
            },
    {
        let n = self.keys.len();
        assert(ends(self.par, i, n));
        lemma_height_stable(self.par, i, n, n);
        if let Some(p) = self.par[i] {
            assert(n > 0);
            lemma_height_stable(self.par, p, (n - 1) as nat, n);
        }
    }

    /// What lies within a collection is not above it.
    pub proof fn lemma_within_level(self, x: int, c: int)
        requires
            self.grounded(),
            0 <= x < self.keys.len(),
            0 <= c < self.keys.len(),
            self.within(x, c),
        ensures
            self.level(x) >= self.level(c),
            x != c ==> self.level(x) > self.level(c),
        decreases self.level(x),
    {
        self.lemma_level(x);
        if x != c {
            self.lemma_within_level(self.par[x].unwrap(), c);
        }
    }

    /// Of the collections on one level, only one can have `x` within it.
    pub proof fn lemma_within_unique(self, x: int, a: int, b: int)
        requires
            self.grounded(),
            0 <= x < self.keys.len(),
            0 <= a < self.keys.len(),
            0 <= b < self.keys.len(),
            self.within(x, a),
            self.within(x, b),
            self.level(a) == self.level(b),
        ensures
            a == b,
        decreases self.level(x),
    {
        self.lemma_level(x);
        self.lemma_within_level(x, a);
        self.lemma_within_level(x, b);
        if x != a && x != b {
            self.lemma_within_unique(self.par[x].unwrap(), a, b);
        }
    }

    /// What lies below a collection lies within one of its children.
    pub proof fn lemma_within_child(self, x: int, c: int) -> (k: int)
        requires
            self.grounded(),
            0 <= x < self.keys.len(),
            self.within(x, c),
            x != c,
        ensures
            0 <= k < self.keys.len(),
            self.par[k] == Some(c),
            self.within(x, k),
        decreases self.level(x),
    {
        self.lemma_level(x);
        let q = self.par[x].unwrap();
        if q == c {
            x
        } else {
            self.lemma_within_child(q, c)
        }
    }

    /// What lies within a child lies within its parent.
    pub proof fn lemma_within_parent(self, x: int, k: int)
        requires
            self.grounded(),
            0 <= x < self.keys.len(),
            0 <= k < self.keys.len(),
            self.within(x, k),
            self.par[k] is Some,
        ensures
            self.within(x, self.par[k].unwrap()),
        decreases self.level(x),
    {
        self.lemma_level(x);
        self.lemma_level(k);
        if x != k {
            self.lemma_within_parent(self.par[x].unwrap(), k);
        } else {
            let q = self.par[k].unwrap();
            assert(self.within(q, q));
        }
    }

    /// Every collection lies within a root.
    pub proof fn lemma_within_root(self, x: int) -> (r: int)
        requires
            self.grounded(),
            0 <= x < self.keys.len(),
        ensures
            0 <= r < self.keys.len(),
            self.par[r] is None,
            self.within(x, r),
        decreases self.level(x),
    {
        self.lemma_level(x);
        match self.par[x] {
            Some(q) => self.lemma_within_root(q),
            None => x,
        }
    }

    proof fn lemma_inserted(self, s: Seq<int>, c: int)
        ensures
            self.inserted(s, c).len() == s.len() + 1,
            forall|x: int| #[trigger] self.inserted(s, c).contains(x) <==> s.contains(x) || x == c,
            s.no_duplicates() && !s.contains(c) ==> self.inserted(s, c).no_duplicates(),
        decreases s.len(),
    {
        let r = self.inserted(s, c);
        if s.len() == 0 || self.le(s.last(), c) {
            assert forall|x: int| #[trigger] r.contains(x) <==> s.contains(x) || x == c by {
                if s.contains(x) {
                    let k = choose|k: int| 0 <= k < s.len() && s[k] == x;
                    assert(r[k] == x);
                }
                assert(r[r.len() - 1] == c);
            }
        } else {
            let t = s.drop_last();
            let rt = self.inserted(t, c);
            self.lemma_inserted(t, c);
            assert forall|x: int| #[trigger] r.contains(x) <==> s.contains(x) || x == c by {
                assert(rt.contains(x) <==> t.contains(x) || x == c);
                if r.contains(x) {
                    let k = choose|k: int| 0 <= k < r.len() && r[k] == x;
                    if k < rt.len() {
                        assert(rt[k] == x);
                        if t.contains(x) {
                            let j = choose|j: int| 0 <= j < t.len() && t[j] == x;
                            assert(s[j] == x);
                        }
                    } else {
                        assert(s[s.len() - 1] == x);
                    }
                }
                if s.contains(x) || x == c {
                    if s.contains(x) {
                        let k = choose|k: int| 0 <= k < s.len() && s[k] == x;
                        if k < t.len() {
                            assert(t[k] == x);
                        } else {
                            assert(r[r.len() - 1] == x);
                        }
                    }
                    if rt.contains(x) {
                        let k = choose|k: int| 0 <= k < rt.len() && rt[k] == x;
                        assert(r[k] == x);
                    }
                }
            }
            if s.no_duplicates() && !s.contains(c) {
                assert(!t.contains(c)) by {
                    if t.contains(c) {
                        let k = choose|k: int| 0 <= k < t.len() && t[k] == c;
                        assert(s[k] == c);
                    }
                }
                assert(t.no_duplicates());
                assert(!rt.contains(s.last())) by {
                    assert(rt.contains(s.last()) <==> t.contains(s.last()) || s.last() == c);
                    assert(s.contains(s[s.len() - 1]));
                    if t.contains(s.last()) {
                        let k = choose|k: int| 0 <= k < t.len() && t[k] == s.last();
                        assert(s[k] == s[s.len() - 1]);
                    }
                }
                assert forall|i: int, j: int| 0 <= i < r.len() && 0 <= j < r.len() && i != j implies r[i]
                    != r[j] by {
                    if i < rt.len() && j < rt.len() {
                        assert(rt[i] != rt[j]);
                    } else if i < rt.len() {
                        assert(rt.contains(rt[i]));
                    } else {
                        assert(rt.contains(rt[j]));
                    }
                }
            }
        }
    }

    proof fn lemma_kids_among(self, parent: Option<int>, n: int)
        requires
            self.grounded(),
            0 <= n <= self.keys.len(),
        ensures
            self.kids_among(parent, n).no_duplicates(),
            forall|x: int| #[trigger]
                self.kids_among(parent, n).contains(x) <==> 0 <= x < n && self.par[x] == parent,
        decreases n,
    {
        if n > 0 {
            self.lemma_kids_among(parent, n - 1);
            let k = self.kids_among(parent, n - 1);
            self.lemma_inserted(k, n - 1);
            assert(!k.contains(n - 1));
            assert forall|x: int| #[trigger]
                self.kids_among(parent, n).contains(x) <==> 0 <= x < n && self.par[x] == parent by {
                assert(k.contains(x) <==> 0 <= x < n - 1 && self.par[x] == parent);
                assert(self.inserted(k, n - 1).contains(x) <==> k.contains(x) || x == n - 1);
            }
        }
    }

    /// The children of a parent are the collections that have it as their parent, each once.
    pub proof fn lemma_kids(self, parent: Option<int>)
        requires
            self.grounded(),
        ensures
            self.kids(parent).no_duplicates(),
            forall|x: int| #[trigger]
                self.kids(parent).contains(x) <==> 0 <= x < self.keys.len() && self.par[x]
                    == parent,
    {
        self.lemma_kids_among(parent, self.keys.len() as int);
    }

    /// A list of siblings on one level whose subtrees a walk covers whole.
    pub open spec fn siblings_at(self, kids: Seq<int>, lev: int, limit: nat) -> bool {
        &&& self.grounded()
        &&& kids.no_duplicates()
        &&& forall|j: int|
            0 <= j < kids.len() ==> 0 <= #[trigger] kids[j] < self.keys.len() && self.level(kids[j])
                == lev
        &&& lev + limit >= self.keys.len()
    }

    /// The children of a collection are siblings one level down.
    pub proof fn lemma_kids_below(self, c: int, lev: int, limit: nat)
        requires
            self.grounded(),
            0 <= c < self.keys.len(),
            self.level(c) == lev,
            lev + limit >= self.keys.len(),
            limit > 0,
        ensures
            self.siblings_at(self.kids(Some(c)), lev + 1, (limit - 1) as nat),
    {
        self.lemma_kids(Some(c));
        let k = self.kids(Some(c));
        assert forall|j: int| 0 <= j < k.len() implies 0 <= #[trigger] k[j] < self.keys.len()
            && self.level(k[j]) == lev + 1 by {
            assert(k.contains(k[j]));
            self.lemma_level(k[j]);
        }
    }

    /// A walk over siblings visits what lies within one of them, at its depth.
    pub proof fn lemma_walk_sound(self, kids: Seq<int>, lev: int, depth: int, limit: nat, j: int) -> (m:
        int)
        requires
            self.siblings_at(kids, lev, limit),
            0 <= j < self.preorder(kids, depth, limit).len(),
        ensures
            ({
                let p = self.preorder(kids, depth, limit)[j];
                &&& 0 <= p.0 < self.keys.len()
                &&& 0 <= m < kids.len()
                &&& self.within(p.0, kids[m])
                &&& p.1 == depth + self.level(p.0) - lev
            }),
        decreases limit, kids.len(),
    {
        let all = self.preorder(kids, depth, limit);
        let c = kids.last();
        let head = self.preorder(kids.drop_last(), depth, limit);
        assert(kids[kids.len() - 1] == c);
        if j < head.len() {
            assert(self.siblings_at(kids.drop_last(), lev, limit)) by {
                assert forall|i: int| 0 <= i < kids.drop_last().len() implies 0
                    <= #[trigger] kids.drop_last()[i] < self.keys.len() && self.level(
                    kids.drop_last()[i],
                ) == lev by {
                    assert(kids.drop_last()[i] == kids[i]);
                }
            }
            assert(all[j] == head[j]);
            self.lemma_walk_sound(kids.drop_last(), lev, depth, limit, j)
        } else if j == head.len() {
            assert(all[j] == (c, depth));
            kids.len() - 1
        } else {
            let k = self.kids(Some(c));
            self.lemma_kids_below(c, lev, limit);
            let t = j - head.len() - 1;
            let below = self.preorder(k, depth + 1, (limit - 1) as nat);
            assert(all[j] == below[t]);
            let m = self.lemma_walk_sound(k, lev + 1, depth + 1, (limit - 1) as nat, t);
            self.lemma_kids(Some(c));
            assert(k.contains(k[m]));
            self.lemma_within_parent(below[t].0, k[m]);
            kids.len() - 1
        }
    }

    /// A walk over siblings visits everything that lies within one of them.
    pub proof fn lemma_walk_complete(
        self,
        kids: Seq<int>,
        lev: int,
        depth: int,
        limit: nat,
        m: int,
        x: int,
    ) -> (j: int)
        requires
            self.siblings_at(kids, lev, limit),
            0 <= m < kids.len(),
            0 <= x < self.keys.len(),
            self.within(x, kids[m]),
        ensures
            0 <= j < self.preorder(kids, depth, limit).len(),
            self.preorder(kids, depth, limit)[j].0 == x,
        decreases limit, kids.len(),
    {
        let all = self.preorder(kids, depth, limit);
        let c = kids.last();
        let head = self.preorder(kids.drop_last(), depth, limit);
        assert(kids[kids.len() - 1] == c);
        if m < kids.len() - 1 {
            assert(self.siblings_at(kids.drop_last(), lev, limit)) by {
                assert forall|i: int| 0 <= i < kids.drop_last().len() implies 0
                    <= #[trigger] kids.drop_last()[i] < self.keys.len() && self.level(
                    kids.drop_last()[i],
                ) == lev by {
                    assert(kids.drop_last()[i] == kids[i]);
                }
            }
            let j = self.lemma_walk_complete(kids.drop_last(), lev, depth, limit, m, x);
            assert(all[j] == head[j]);
            j
        } else if x == c {
            assert(all[head.len() as int] == (c, depth));
            head.len() as int
        } else {
            self.lemma_within_level(x, c);
            self.lemma_level(x);
            let k = self.kids(Some(c));
            self.lemma_kids_below(c, lev, limit);
            let child = self.lemma_within_child(x, c);
            self.lemma_kids(Some(c));
            assert(k.contains(child));
            let i = choose|i: int| 0 <= i < k.len() && k[i] == child;
            let t = self.lemma_walk_complete(k, lev + 1, depth + 1, (limit - 1) as nat, i, x);
            let below = self.preorder(k, depth + 1, (limit - 1) as nat);
            assert(all[head.len() + 1 + t] == below[t]);
            head.len() + 1 + t
        }
    }

    /// A walk over siblings visits nothing twice.
    pub proof fn lemma_walk_once(self, kids: Seq<int>, lev: int, depth: int, limit: nat, i: int, j: int)
        requires
            self.siblings_at(kids, lev, limit),
            0 <= i < j < self.preorder(kids, depth, limit).len(),
        ensures
            self.preorder(kids, depth, limit)[i].0 != self.preorder(kids, depth, limit)[j].0,
        decreases limit, kids.len(),
    {
        let all = self.preorder(kids, depth, limit);
        let c = kids.last();
        let most = kids.drop_last();
        let head = self.preorder(most, depth, limit);
        assert(kids[kids.len() - 1] == c);
        assert(self.siblings_at(most, lev, limit)) by {
            assert forall|i: int| 0 <= i < most.len() implies 0 <= #[trigger] most[i]
                < self.keys.len() && self.level(most[i]) == lev by {
                assert(most[i] == kids[i]);
            }
        }
        let k = self.kids(Some(c));
        if limit > 0 {
            self.lemma_kids_below(c, lev, limit);
        }
        let below = if limit > 0 {
            self.preorder(k, depth + 1, (limit - 1) as nat)
        } else {
            Seq::empty()
        };
        if j < head.len() {
            assert(all[i] == head[i] && all[j] == head[j]);
            self.lemma_walk_once(most, lev, depth, limit, i, j);
        } else if i > head.len() {
            let a = i - head.len() - 1;
            let b = j - head.len() - 1;
            assert(all[i] == below[a] && all[j] == below[b]);
            self.lemma_walk_once(k, lev + 1, depth + 1, (limit - 1) as nat, a, b);
        } else {
            if j > head.len() {
                let b = j - head.len() - 1;
                assert(all[j] == below[b]);
                let m = self.lemma_walk_sound(k, lev + 1, depth + 1, (limit - 1) as nat, b);
                self.lemma_kids(Some(c));
                assert(k.contains(k[m]));
                self.lemma_within_level(below[b].0, k[m]);
                self.lemma_within_parent(below[b].0, k[m]);
            } else {
                assert(all[j] == (c, depth));
                assert(self.within(c, c));
            }
            if i < head.len() {
                assert(all[i] == head[i]);
                let m = self.lemma_walk_sound(most, lev, depth, limit, i);
                if all[i].0 == all[j].0 {
                    self.lemma_within_unique(all[i].0, most[m], c);
                    assert(kids[m] == kids[kids.len() - 1]);
                }
            } else {
                assert(all[i] == (c, depth));
            }
        }
    }

    /// In a walk over siblings, whatever is not one of them comes after its parent.
    pub proof fn lemma_walk_parent_first(
        self,
        kids: Seq<int>,
        lev: int,
        depth: int,
        limit: nat,
        j: int,
    ) -> (i: int)
        requires
            self.siblings_at(kids, lev, limit),
            0 <= j < self.preorder(kids, depth, limit).len(),
        ensures
            ({
                let all = self.preorder(kids, depth, limit);
                kids.contains(all[j].0) || (0 <= i < j && self.par[all[j].0] == Some(all[i].0))
            }),
        decreases limit, kids.len(),
    {
        let all = self.preorder(kids, depth, limit);
        let c = kids.last();
        let most = kids.drop_last();
        let head = self.preorder(most, depth, limit);
        assert(kids[kids.len() - 1] == c);
        if j < head.len() {
            assert(self.siblings_at(most, lev, limit)) by {
                assert forall|i: int| 0 <= i < most.len() implies 0 <= #[trigger] most[i]
                    < self.keys.len() && self.level(most[i]) == lev by {
                    assert(most[i] == kids[i]);
                }
            }
            let i = self.lemma_walk_parent_first(most, lev, depth, limit, j);
            assert(all[j] == head[j]);
            if most.contains(all[j].0) {
                let m = choose|m: int| 0 <= m < most.len() && most[m] == all[j].0;
                assert(kids[m] == all[j].0);
            } else {
                assert(all[i] == head[i]);
            }
            i
        } else if j == head.len() {
            assert(all[j] == (c, depth));
            0
        } else {
            let k = self.kids(Some(c));
            self.lemma_kids_below(c, lev, limit);
            self.lemma_kids(Some(c));
            let t = j - head.len() - 1;
            let below = self.preorder(k, depth + 1, (limit - 1) as nat);
            assert(all[j] == below[t]);
            let i = self.lemma_walk_parent_first(k, lev + 1, depth + 1, (limit - 1) as nat, t);
            if k.contains(below[t].0) {
                assert(all[head.len() as int] == (c, depth));
                head.len() as int
            } else {
                assert(all[head.len() + 1 + i] == below[i]);
                head.len() + 1 + i
            }
        }
    }

    proof fn lemma_le_total(self, a: int, b: int)
        ensures
            self.le(a, b) || self.le(b, a),
    {
        lemma_text_le_total(self.keys[a], self.keys[b]);
        lemma_text_le_total(self.folds[a], self.folds[b]);
    }

    /// The order of siblings is transitive.
    pub proof fn lemma_le_trans(self, a: int, b: int, c: int)
        requires
            self.le(a, b),
            self.le(b, c),
        ensures
            self.le(a, c),
    {
        if self.folds[a] == self.folds[b] && self.folds[b] == self.folds[c] {
            lemma_text_le_trans(self.keys[a], self.keys[b], self.keys[c]);
        } else {
            lemma_text_le_refl(self.folds[b]);
            lemma_text_le_trans(self.folds[a], self.folds[b], self.folds[c]);
            if self.folds[a] == self.folds[c] {
                lemma_text_le_antisym(self.folds[a], self.folds[b]);
            }
        }
    }

    /// Each position at most the later ones.
    pub open spec fn in_order(self, s: Seq<int>) -> bool {
        forall|i: int, j: int| 0 <= i < j < s.len() ==> self.le(#[trigger] s[i], #[trigger] s[j])
    }

    proof fn lemma_inserted_in_order(self, s: Seq<int>, c: int)
        requires
            self.in_order(s),
        ensures
            self.in_order(self.inserted(s, c)),
        decreases s.len(),
    {
        let r = self.inserted(s, c);
        if s.len() == 0 || self.le(s.last(), c) {
            assert forall|i: int, j: int| 0 <= i < j < r.len() implies self.le(
                #[trigger] r[i],
                #[trigger] r[j],
            ) by {
                if j == s.len() {
                    if i < s.len() - 1 {
                        assert(self.le(s[i], s[s.len() - 1]));
                        self.lemma_le_trans(s[i], s.last(), c);
                    }
                } else {
                    assert(self.le(s[i], s[j]));
                }
            }
        } else {
            let t = s.drop_last();
            let rt = self.inserted(t, c);
            self.lemma_le_total(s.last(), c);
            assert(self.in_order(t)) by {
                assert forall|i: int, j: int| 0 <= i < j < t.len() implies self.le(
                    #[trigger] t[i],
                    #[trigger] t[j],
                ) by {
                    assert(self.le(s[i], s[j]));
                }
            }
            self.lemma_inserted_in_order(t, c);
            self.lemma_inserted(t, c);
            assert forall|i: int, j: int| 0 <= i < j < r.len() implies self.le(
                #[trigger] r[i],
                #[trigger] r[j],
            ) by {
                if j < rt.len() {
                    assert(self.le(rt[i], rt[j]));
                } else {
                    assert(rt.contains(rt[i]));
                    if rt[i] != c {
                        let k = choose|k: int| 0 <= k < t.len() && t[k] == rt[i];
                        assert(self.le(s[k], s[s.len() - 1]));
                    }
                }
            }
        }
    }

    /// Siblings come in order.
    pub proof fn lemma_kids_in_order(self, parent: Option<int>, n: int)
        ensures
            self.in_order(self.kids_among(parent, n)),
        decreases n,
    {
        if n > 0 {
            self.lemma_kids_in_order(parent, n - 1);
            self.lemma_inserted_in_order(self.kids_among(parent, n - 1), n - 1);
        }
    }

    /// In a walk over sorted siblings, collections with one parent come in order.
    proof fn lemma_walk_in_order(
        self,
        kids: Seq<int>,
        lev: int,
        depth: int,
        limit: nat,
        i: int,
        j: int,
    )
        requires
            self.siblings_at(kids, lev, limit),
            self.in_order(kids),
            0 <= i < j < self.preorder(kids, depth, limit).len(),
            self.par[self.preorder(kids, depth, limit)[i].0] == self.par[self.preorder(
                kids,
                depth,
                limit,
            )[j].0],
        ensures
            self.le(
                self.preorder(kids, depth, limit)[i].0,
                self.preorder(kids, depth, limit)[j].0,
            ),
        decreases limit, kids.len(),
    {
        let all = self.preorder(kids, depth, limit);
        let c = kids.last();
        let most = kids.drop_last();
        let head = self.preorder(most, depth, limit);
        assert(kids[kids.len() - 1] == c);
        let mi = self.lemma_walk_sound(kids, lev, depth, limit, i);
        let mj = self.lemma_walk_sound(kids, lev, depth, limit, j);
        let x = all[i].0;
        let y = all[j].0;
        self.lemma_level(x);
        self.lemma_level(y);
        assert(self.level(x) == self.level(y));
        assert(self.siblings_at(most, lev, limit)) by {
            assert forall|i: int| 0 <= i < most.len() implies 0 <= #[trigger] most[i]
                < self.keys.len() && self.level(most[i]) == lev by {
                assert(most[i] == kids[i]);
            }
        }
        let k = self.kids(Some(c));
        let below = if limit > 0 {
            self.preorder(k, depth + 1, (limit - 1) as nat)
        } else {
            Seq::empty()
        };
        if limit > 0 {
            self.lemma_kids_below(c, lev, limit);
            self.lemma_kids_in_order(Some(c), self.keys.len() as int);
        }
        if j < head.len() {
            assert(all[i] == head[i] && all[j] == head[j]);
            assert(self.in_order(most)) by {
                assert forall|a: int, b: int| 0 <= a < b < most.len() implies self.le(
                    #[trigger] most[a],
                    #[trigger] most[b],
                ) by {
                    assert(self.le(kids[a], kids[b]));
                }
            }
            self.lemma_walk_in_order(most, lev, depth, limit, i, j);
        } else if i > head.len() {
            let a = i - head.len() - 1;
            let b = j - head.len() - 1;
            assert(all[i] == below[a] && all[j] == below[b]);
            self.lemma_walk_in_order(k, lev + 1, depth + 1, (limit - 1) as nat, a, b);
        } else if i == head.len() {
            let b = j - head.len() - 1;
            assert(all[i] == (c, depth));
            assert(all[j] == below[b]);
            let m = self.lemma_walk_sound(k, lev + 1, depth + 1, (limit - 1) as nat, b);
            self.lemma_kids(Some(c));
            assert(k.contains(k[m]));
            self.lemma_within_level(y, k[m]);
        } else {
            assert(all[i] == head[i]);
            let m = self.lemma_walk_sound(most, lev, depth, limit, i);
            assert(most[m] == kids[m]);
            assert(kids[m] != c);
            if j == head.len() {
                assert(all[j] == (c, depth));
                self.lemma_within_level(x, most[m]);
                assert(x == kids[m]);
                assert(self.le(kids[m], kids[kids.len() - 1]));
            } else {
                let b = j - head.len() - 1;
                assert(all[j] == below[b]);
                let mb = self.lemma_walk_sound(k, lev + 1, depth + 1, (limit - 1) as nat, b);
                self.lemma_kids(Some(c));
                assert(k.contains(k[mb]));
                self.lemma_within_level(y, k[mb]);
                self.lemma_within_parent(y, k[mb]);
                assert(x != most[m]);
                assert(y != c);
                let q = self.par[x].unwrap();
                assert(self.within(q, most[m]));
                assert(self.within(q, c));
                self.lemma_within_unique(q, most[m], c);
            }
        }
    }

    /// The collections without a parent are siblings at the top.
    pub proof fn lemma_roots(self)
        requires
            self.grounded(),
        ensures
            self.siblings_at(self.kids(None), 0, self.keys.len()),
    {
        self.lemma_kids(None);
        let k = self.kids(None);
        assert forall|j: int| 0 <= j < k.len() implies 0 <= #[trigger] k[j] < self.keys.len()
            && self.level(k[j]) == 0 by {
            assert(k.contains(k[j]));
            self.lemma_level(k[j]);
        }
    }
}

/// Collections of which no two have the same key.
pub open spec fn distinct_keys(cs: Seq<ZoteroCollection>) -> bool {
    keys_of(cs).no_duplicates()
}

/// Links that go to the leading collection of a key only.
spec fn to_leads(par: Seq<Option<int>>, reps: Seq<int>) -> bool {
    forall|i: int|
        0 <= i < par.len() ==> match #[trigger] par[i] {
            Some(p) => 0 <= p < reps.len() && reps[p] == p,
            None => true,
        }
}

proof fn lemma_cut_to_leads(par: Seq<Option<int>>, reps: Seq<int>, n: int)
    requires
        links_wf(par),
        0 <= n <= reps.len(),
        forall|i: int| 0 <= i < reps.len() ==> 0 <= #[trigger] reps[i] < par.len(),
        to_leads(par, reps),
    ensures
        to_leads(cut_cycles(par, reps, n), reps),
    decreases n,
{
    if n > 0 {
        lemma_cut_to_leads(par, reps, n - 1);
        lemma_cut_cycles(par, reps, n - 1);
        let now = cut_cycles(par, reps, n - 1);
        let next = cut_cycles(par, reps, n);
        if let Some(e) = loop_entry(now, Seq::empty(), reps[n - 1]) {
            lemma_entry_cut_ends(now, Seq::empty(), reps[n - 1], e);
            assert forall|i: int| 0 <= i < next.len() implies match #[trigger] next[i] {
                Some(p) => 0 <= p < reps.len() && reps[p] == p,
                None => true,
            } by {
                if i != e {
                    assert(next[i] == now[i]);
                }
            }
        }
    }
}

/// Sharing the parents of the leading collections ends at roots where theirs do.
proof fn lemma_shared_ends(par: Seq<Option<int>>, reps: Seq<int>, i: int, k: nat)
    requires
        reps.len() == par.len(),
        to_leads(par, reps),
        forall|j: int| 0 <= j < reps.len() ==> 0 <= #[trigger] reps[j] < par.len(),
        0 <= i < reps.len(),
        ends(par, reps[i], k),
    ensures
        ends(shared_parents(par, reps), i, k),
    decreases k,
{
    let all = shared_parents(par, reps);
    assert(all[i] == par[reps[i]]);
    if let Some(p) = par[reps[i]] {
        assert(reps[p] == p);
        lemma_shared_ends(par, reps, p, (k - 1) as nat);
    }
}

/// What some collections say of a tree: the leading collection of each key, and links to such.
proof fn lemma_links(cs: Seq<ZoteroCollection>)
    ensures
        ({
            let n = cs.len() as int;
            let reps = leads_of(keys_of(cs), folds_of(cs));
            let raw = raw_parents(cs);
            let cut = cut_cycles(raw, reps, n);
            &&& reps.len() == n && raw.len() == n && cut.len() == n
            &&& links_wf(raw) && links_wf(cut)
            &&& to_leads(cut, reps)
            &&& forall|i: int|
                0 <= i < n ==> 0 <= #[trigger] reps[i] < n && keys_of(cs)[reps[i]] == keys_of(cs)[i]
            &&& forall|i: int| 0 <= i < n ==> ends(cut, #[trigger] reps[i], cs.len())
        }),
{
    let keys = keys_of(cs);
    let raw = raw_parents(cs);
    let reps = leads_of(keys, folds_of(cs));
    assert forall|i: int| 0 <= i < cs.len() implies 0 <= #[trigger] reps[i] < cs.len()
        && keys[reps[i]] == keys[i] by {
        lemma_lead(keys, folds_of(cs), keys[i], keys.len() as int);
    }
    assert forall|i: int| 0 <= i < raw.len() implies match #[trigger] raw[i] {
        Some(p) => 0 <= p < raw.len() && reps[p] == p,
        None => true,
    } by {
        lemma_last_index(keys, keys[i]);
        let at = last_index(keys, keys[i]);
        if let Some(p) = cs[at].data.parent_collection {
            lemma_lead(keys, folds_of(cs), p@, keys.len() as int);
        }
    }
    lemma_cut_cycles(raw, reps, cs.len() as int);
    lemma_cut_to_leads(raw, reps, cs.len() as int);
}

/// What collections say of the tree has no loops, once those are cut.
pub proof fn lemma_forest_grounded(cs: Seq<ZoteroCollection>)
    ensures
        forest_of(cs).grounded(),
{
    let f = forest_of(cs);
    let reps = leads_of(keys_of(cs), folds_of(cs));
    let cut = cut_cycles(raw_parents(cs), reps, cs.len() as int);
    lemma_links(cs);
    assert forall|i: int| 0 <= i < cs.len() implies #[trigger] ends(f.par, i, cs.len()) by {
        lemma_shared_ends(cut, reps, i, cs.len());
    }
    assert forall|i: int| 0 <= i < cs.len() implies match #[trigger] f.par[i] {
        Some(p) => 0 <= p < cs.len(),
        None => true,
    } by {
        assert(f.par[i] == cut[reps[i]]);
    }
}

/// Only the collection that leads a key is a parent.
pub proof fn lemma_parent_leads(cs: Seq<ZoteroCollection>, i: int)
    requires
        0 <= i < cs.len(),
        forest_of(cs).par[i] is Some,
    ensures
        0 <= forest_of(cs).par[i].unwrap() < cs.len(),
        lead_of(
            keys_of(cs),
            folds_of(cs),
            keys_of(cs)[forest_of(cs).par[i].unwrap()],
            cs.len() as int,
        ) == forest_of(cs).par[i].unwrap(),
{
    let reps = leads_of(keys_of(cs), folds_of(cs));
    let cut = cut_cycles(raw_parents(cs), reps, cs.len() as int);
    lemma_links(cs);
    assert(forest_of(cs).par[i] == cut[reps[i]]);
}

/// Every collection is in the tree exactly once, and nothing else is: the nodes are the collections
/// in another order, `at[j]` being the place of the one that became the node `j`.
pub proof fn law_every_collection_once(cs: Seq<ZoteroCollection>) -> (at: Seq<int>)
    ensures
        tree_of(cs).len() == cs.len(),
        at.len() == cs.len(),
        at.no_duplicates(),
        forall|i: int| 0 <= i < cs.len() ==> #[trigger] at.contains(i),
        forall|j: int|
            0 <= j < cs.len() ==> {
                &&& 0 <= #[trigger] at[j] < cs.len()
                &&& tree_of(cs)[j].key == cs[at[j]].key@
                &&& tree_of(cs)[j].name == cs[at[j]].data.name@
                &&& tree_of(cs)[j].meta_num_items == cs[at[j]].meta.num_items
                &&& tree_of(cs)[j].meta_num_collections == cs[at[j]].meta.num_collections
            },
{
    lemma_forest_grounded(cs);
    let f = forest_of(cs);
    let roots = f.kids(None);
    let walk = f.walk();
    let n = cs.len() as int;
    f.lemma_roots();
    f.lemma_kids(None);
    let at = walk.map_values(|p: (int, int)| p.0);
    assert forall|i: int| 0 <= i < n implies #[trigger] at.contains(i) by {
        let r = f.lemma_within_root(i);
        assert(roots.contains(r));
        let m = choose|m: int| 0 <= m < roots.len() && roots[m] == r;
        let j = f.lemma_walk_complete(roots, 0, 0, f.keys.len(), m, i);
        assert(at[j] == i);
    }
    assert(at.no_duplicates()) by {
        assert forall|i: int, j: int| 0 <= i < at.len() && 0 <= j < at.len() && i != j implies at[i]
            != at[j] by {
            if i < j {
                f.lemma_walk_once(roots, 0, 0, f.keys.len(), i, j);
            } else {
                f.lemma_walk_once(roots, 0, 0, f.keys.len(), j, i);
            }
        }
    }
    assert forall|j: int| 0 <= j < at.len() implies 0 <= #[trigger] at[j] < n by {
        let m = f.lemma_walk_sound(roots, 0, 0, f.keys.len(), j);
    }
    at.unique_seq_to_set();
    vstd::set_lib::lemma_int_range(0, n);
    assert forall|x: int| at.to_set().contains(x) <==> vstd::set_lib::set_int_range(
        0,
        n,
    ).contains(x) by {
        assert(at.to_set().contains(x) <==> at.contains(x));
        if at.contains(x) {
            let j = choose|j: int| 0 <= j < at.len() && at[j] == x;
        }
    }
    assert(at.to_set() =~= vstd::set_lib::set_int_range(0, n));
    at
}

/// Collections with distinct keys become nodes with distinct keys.
pub proof fn law_keys_stay_distinct(cs: Seq<ZoteroCollection>, i: int, j: int)
    requires
        distinct_keys(cs),
        0 <= i < j < tree_of(cs).len(),
    ensures
        tree_of(cs)[i].key != tree_of(cs)[j].key,
{
    let at = law_every_collection_once(cs);
    assert(at[i] != at[j]);
    assert(keys_of(cs)[at[i]] != keys_of(cs)[at[j]]);
}

/// A parent comes before its children, one level above them; a collection without a parent is at
/// the top level.
pub proof fn law_parents_first(cs: Seq<ZoteroCollection>, j: int) -> (i: int)
    requires
        0 <= j < tree_of(cs).len(),
    ensures
        match tree_of(cs)[j].parent {
            Some(p) => 0 <= i < j && tree_of(cs)[i].key == p && tree_of(cs)[i].depth + 1 == tree_of(
                cs,
            )[j].depth,
            None => tree_of(cs)[j].depth == 0,
        },
{
    lemma_forest_grounded(cs);
    let f = forest_of(cs);
    let roots = f.kids(None);
    let walk = f.walk();
    f.lemma_roots();
    f.lemma_kids(None);
    let x = walk[j].0;
    let m = f.lemma_walk_sound(roots, 0, 0, f.keys.len(), j);
    f.lemma_level(x);
    let i = f.lemma_walk_parent_first(roots, 0, 0, f.keys.len(), j);
    if f.par[x] is Some {
        assert(!roots.contains(x));
        let k = f.lemma_walk_sound(roots, 0, 0, f.keys.len(), i);
    }
    i
}

/// Siblings are sorted by lowercase name, then by key.
pub open spec fn sibling_le(a: NodeView, b: NodeView) -> bool {
    if lowercase(a.name) == lowercase(b.name) {
        text_le(a.key, b.key)
    } else {
        text_le(lowercase(a.name), lowercase(b.name))
    }
}

/// Of two collections with one parent, the one that sorts first comes first.
pub proof fn law_siblings_sorted(cs: Seq<ZoteroCollection>, i: int, j: int)
    requires
        0 <= i < j < tree_of(cs).len(),
        tree_of(cs)[i].parent == tree_of(cs)[j].parent,
    ensures
        sibling_le(tree_of(cs)[i], tree_of(cs)[j]),
{
    lemma_forest_grounded(cs);
    let f = forest_of(cs);
    let roots = f.kids(None);
    f.lemma_roots();
    f.lemma_kids_in_order(None, f.keys.len() as int);
    let a = f.lemma_walk_sound(roots, 0, 0, f.keys.len(), i);
    let b = f.lemma_walk_sound(roots, 0, 0, f.keys.len(), j);
    let x = f.walk()[i].0;
    let y = f.walk()[j].0;
    if f.par[x] is Some && f.par[y] is Some {
        let p = f.par[x].unwrap();
        let q = f.par[y].unwrap();
        f.lemma_level(x);
        f.lemma_level(y);
        lemma_parent_leads(cs, x);
        lemma_parent_leads(cs, y);
        assert(keys_of(cs)[p] == keys_of(cs)[q]);
    }
    f.lemma_walk_in_order(roots, 0, 0, f.keys.len(), i, j);
}

/// A collection whose parent is absent, or is itself, is at the top level.
pub proof fn law_orphans_are_roots(cs: Seq<ZoteroCollection>, j: int)
    requires
        0 <= j < tree_of(cs).len(),
        forall|i: int|
            0 <= i < cs.len() && (#[trigger] cs[i]).key@ == tree_of(cs)[j].key ==> match cs[i].data.parent_collection {
                Some(p) => p@ == cs[i].key@ || !keys_of(cs).contains(p@),
                None => true,
            },
    ensures
        tree_of(cs)[j].parent is None,
        tree_of(cs)[j].depth == 0,
{
    lemma_forest_grounded(cs);
    lemma_links(cs);
    let f = forest_of(cs);
    let keys = keys_of(cs);
    let reps = leads_of(keys, folds_of(cs));
    f.lemma_roots();
    let m = f.lemma_walk_sound(f.kids(None), 0, 0, f.keys.len(), j);
    let x = f.walk()[j].0;
    let r = reps[x];
    lemma_last_index(keys, keys[r]);
    let at = last_index(keys, keys[r]);
    if at < 0 {
        assert(keys[r] != keys[r]);
    }
    assert(keys[at] == cs[at].key@);
    assert(keys[x] == cs[x].key@);
    assert(cs[at].key@ == tree_of(cs)[j].key);
    if let Some(p) = cs[at].data.parent_collection {
        lemma_lead(keys, folds_of(cs), p@, keys.len() as int);
    }
    assert(raw_parents(cs)[r] is None);
    lemma_cut_keeps_root(raw_parents(cs), reps, cs.len() as int, r);
    assert(f.par[x] is None);
    let i = law_parents_first(cs, j);
}

proof fn lemma_cut_keeps_root(par: Seq<Option<int>>, reps: Seq<int>, n: int, x: int)
    requires
        links_wf(par),
        0 <= n <= reps.len(),
        forall|i: int| 0 <= i < reps.len() ==> 0 <= #[trigger] reps[i] < par.len(),
        0 <= x < par.len(),
        par[x] is None,
    ensures
        cut_cycles(par, reps, n)[x] is None,
    decreases n,
{
    if n > 0 {
        lemma_cut_keeps_root(par, reps, n - 1, x);
        lemma_cut_cycles(par, reps, n - 1);
        let now = cut_cycles(par, reps, n - 1);
        if let Some(e) = loop_entry(now, Seq::empty(), reps[n - 1]) {
            lemma_entry_cut_ends(now, Seq::empty(), reps[n - 1], e);
        }
    }
}

} // verus!
