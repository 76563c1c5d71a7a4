//! What holds of the children that the nodes of an assembled tree list.
use crate::api::models::ZoteroCollection;
use crate::collections::laws::lemma_forest_grounded;
use crate::collections::laws::lemma_parent_leads;
use crate::collections::lead_laws::lemma_lead_is_first;
use crate::collections::tree::folds_of;
use crate::collections::tree::forest_of;
use crate::collections::tree::keys_of;
use crate::collections::tree::lead_of;
use crate::collections::tree::node_of;
use crate::collections::tree::tree_of;
use crate::collections::tree::Forest;
use crate::collections::tree::NodeView;
use vstd::prelude::*;

verus! {

/// The keys of the nodes that name a collection as their parent, in the order of the nodes.
pub open spec fn keys_under(nodes: Seq<NodeView>, key: Seq<char>) -> Seq<Seq<char>>
    decreases nodes.len(),
{
    if nodes.len() == 0 {
        Seq::empty()
    } else {
        let before = keys_under(nodes.drop_last(), key);
        if nodes.last().parent == Some(key) {
            before.push(nodes.last().key)
        } else {
            before
        }
    }
}

impl Forest {
    /// What a walk visits of the children of a parent, in the order of the walk.
    pub open spec fn visited_under(self, walk: Seq<(int, int)>, parent: Option<int>) -> Seq<int>
        decreases walk.len(),
    {
        if walk.len() == 0 {
            Seq::empty()
        } else {
            let before = self.visited_under(walk.drop_last(), parent);
            if self.par[walk.last().0] == parent {
                before.push(walk.last().0)
            } else {
                before
            }
        }
    }

    proof fn lemma_visited_concat(
        self,
        a: Seq<(int, int)>,
        b: Seq<(int, int)>,
        parent: Option<int>,
    )
        ensures
            self.visited_under(a + b, parent) == self.visited_under(a, parent)
                + self.visited_under(b, parent),
        decreases b.len(),
    {
        if b.len() == 0 {
            assert(a + b =~= a);
            assert(self.visited_under(a, parent) + self.visited_under(b, parent)
                =~= self.visited_under(a, parent));
        } else {
            self.lemma_visited_concat(a, b.drop_last(), parent);
            assert((a + b).drop_last() =~= a + b.drop_last());
            assert((a + b).last() == b.last());
            assert(self.visited_under(a + b, parent) =~= self.visited_under(a, parent)
                + self.visited_under(b, parent));
        }
    }

    proof fn lemma_visited_none(self, walk: Seq<(int, int)>, parent: Option<int>)
        requires
            forall|j: int| 0 <= j < walk.len() ==> self.par[(#[trigger] walk[j]).0] != parent,
        ensures
            self.visited_under(walk, parent) == Seq::<int>::empty(),
        decreases walk.len(),
    {
        if walk.len() > 0 {
            let most = walk.drop_last();
            assert forall|j: int| 0 <= j < most.len() implies self.par[(#[trigger] most[j]).0]
                != parent by {
                assert(most[j] == walk[j]);
            }
            self.lemma_visited_none(most, parent);
            assert(walk[walk.len() - 1] == walk.last());
        }
    }

    /// What lies below one of some siblings, as a walk over them visits it.
    spec fn below(self, c: int, depth: int, limit: nat) -> Seq<(int, int)> {
        if limit > 0 {
            self.preorder(self.kids(Some(c)), depth + 1, (limit - 1) as nat)
        } else {
            Seq::empty()
        }
    }

    proof fn lemma_most(self, kids: Seq<int>, lev: int, limit: nat)
        requires
            self.siblings_at(kids, lev, limit),
            kids.len() > 0,
        ensures
            self.siblings_at(kids.drop_last(), lev, limit),
    {
        let most = kids.drop_last();
        assert forall|i: int| 0 <= i < most.len() implies 0 <= #[trigger] most[i] < self.keys.len()
            && self.level(most[i]) == lev by {
            assert(most[i] == kids[i]);
        }
    }

    proof fn lemma_visited_step(
        self,
        kids: Seq<int>,
        depth: int,
        limit: nat,
        parent: Option<int>,
    )
        requires
            kids.len() > 0,
        ensures
            ({
                let c = kids.last();
                let own = if self.par[c] == parent {
                    seq![c]
                } else {
                    Seq::<int>::empty()
                };
                self.visited_under(self.preorder(kids, depth, limit), parent)
                    == self.visited_under(self.preorder(kids.drop_last(), depth, limit), parent)
                    + own + self.visited_under(self.below(c, depth, limit), parent)
            }),
    {
        let c = kids.last();
        let head = self.preorder(kids.drop_last(), depth, limit);
        let one = seq![(c, depth)];
        self.lemma_visited_concat(head + one, self.below(c, depth, limit), parent);
        self.lemma_visited_concat(head, one, parent);
        assert(one.drop_last() =~= Seq::<(int, int)>::empty());
        assert(self.visited_under(one.drop_last(), parent) =~= Seq::<int>::empty());
        assert(self.visited_under(one, parent) =~= if self.par[c] == parent {
            seq![c]
        } else {
            Seq::<int>::empty()
        });
    }

    /// What lies below a collection lies within it and on a deeper level.
    proof fn lemma_below(self, c: int, lev: int, depth: int, limit: nat, j: int)
        requires
            self.grounded(),
            0 <= c < self.keys.len(),
            self.level(c) == lev,
            lev + limit >= self.keys.len(),
            0 <= j < self.below(c, depth, limit).len(),
        ensures
            ({
                let y = self.below(c, depth, limit)[j].0;
                &&& 0 <= y < self.keys.len()
                &&& self.within(y, c)
                &&& y != c
                &&& self.level(y) > lev
            }),
    {
        let k = self.kids(Some(c));
        let y = self.below(c, depth, limit)[j].0;
        self.lemma_kids_below(c, lev, limit);
        let m = self.lemma_walk_sound(k, lev + 1, depth + 1, (limit - 1) as nat, j);
        self.lemma_kids(Some(c));
        assert(k.contains(k[m]));
        self.lemma_within_level(y, k[m]);
        self.lemma_within_parent(y, k[m]);
    }

    /// A walk over siblings visits these, of their parent's children, and in their order.
    pub proof fn lemma_visited_siblings(
        self,
        kids: Seq<int>,
        lev: int,
        depth: int,
        limit: nat,
        parent: Option<int>,
    )
        requires
            self.siblings_at(kids, lev, limit),
            forall|j: int| 0 <= j < kids.len() ==> self.par[#[trigger] kids[j]] == parent,
        ensures
            self.visited_under(self.preorder(kids, depth, limit), parent) == kids,
        decreases kids.len(),
    {
        if kids.len() > 0 {
            let c = kids.last();
            let most = kids.drop_last();
            assert(kids[kids.len() - 1] == c);
            self.lemma_most(kids, lev, limit);
            assert forall|j: int| 0 <= j < most.len() implies self.par[#[trigger] most[j]]
                == parent by {
                assert(most[j] == kids[j]);
            }
            self.lemma_visited_siblings(most, lev, depth, limit, parent);
            self.lemma_visited_step(kids, depth, limit, parent);
            let below = self.below(c, depth, limit);
            self.lemma_level(c);
            assert forall|j: int| 0 <= j < below.len() implies self.par[(#[trigger] below[j]).0]
                != parent by {
                self.lemma_below(c, lev, depth, limit, j);
                self.lemma_level(below[j].0);
            }
            self.lemma_visited_none(below, parent);
            assert(self.visited_under(self.preorder(kids, depth, limit), parent) =~= kids);
        } else {
            assert(self.visited_under(self.preorder(kids, depth, limit), parent) =~= kids);
        }
    }

    /// A walk over siblings visits all children of whatever lies within one of them, in order.
    pub proof fn lemma_visited_kids(
        self,
        kids: Seq<int>,
        lev: int,
        depth: int,
        limit: nat,
        m: int,
        x: int,
    )
        requires
            self.siblings_at(kids, lev, limit),
            0 <= m < kids.len(),
            0 <= x < self.keys.len(),
            self.within(x, kids[m]),
        ensures
            self.visited_under(self.preorder(kids, depth, limit), Some(x)) == self.kids(Some(x)),
        decreases limit, kids.len(),
    {
        let c = kids.last();
        let most = kids.drop_last();
        let head = self.preorder(most, depth, limit);
        let below = self.below(c, depth, limit);
        let all = self.preorder(kids, depth, limit);
        assert(kids[kids.len() - 1] == c);
        self.lemma_most(kids, lev, limit);
        self.lemma_visited_step(kids, depth, limit, Some(x));
        self.lemma_within_level(x, kids[m]);
        self.lemma_level(c);
        assert(self.par[c] != Some(x));
        if m < kids.len() - 1 {
            self.lemma_visited_kids(most, lev, depth, limit, m, x);
            assert forall|j: int| 0 <= j < below.len() implies self.par[(#[trigger] below[j]).0]
                != Some(x) by {
                self.lemma_below(c, lev, depth, limit, j);
                if self.par[below[j].0] == Some(x) {
                    assert(self.within(x, c));
                    self.lemma_within_unique(x, kids[m], c);
                }
            }
            self.lemma_visited_none(below, Some(x));
            assert(self.visited_under(all, Some(x)) =~= self.kids(Some(x)));
        } else {
            assert forall|j: int| 0 <= j < head.len() implies self.par[(#[trigger] head[j]).0]
                != Some(x) by {
                let i = self.lemma_walk_sound(most, lev, depth, limit, j);
                let y = head[j].0;
                assert(most[i] == kids[i]);
                if self.par[y] == Some(x) {
                    self.lemma_level(y);
                    assert(y != most[i]);
                    assert(self.within(x, most[i]));
                    self.lemma_within_unique(x, most[i], c);
                }
            }
            self.lemma_visited_none(head, Some(x));
            let k = self.kids(Some(c));
            self.lemma_kids(Some(c));
            if limit > 0 {
                self.lemma_kids_below(c, lev, limit);
                if x == c {
                    assert forall|j: int| 0 <= j < k.len() implies self.par[#[trigger] k[j]]
                        == Some(c) by {
                        assert(k.contains(k[j]));
                    }
                    self.lemma_visited_siblings(k, lev + 1, depth + 1, (limit - 1) as nat, Some(c));
                } else {
                    let child = self.lemma_within_child(x, c);
                    assert(k.contains(child));
                    let i = choose|i: int| 0 <= i < k.len() && k[i] == child;
                    self.lemma_visited_kids(k, lev + 1, depth + 1, (limit - 1) as nat, i, x);
                }
            } else {
                self.lemma_level(x);
                assert(x == c);
                if k.len() > 0 {
                    assert(k.contains(k[0]));
                    self.lemma_level(k[0]);
                }
                assert(k =~= Seq::empty());
                assert(self.visited_under(below, Some(x)) =~= Seq::<int>::empty());
            }
            assert(self.visited_under(all, Some(x)) =~= self.kids(Some(x)));
        }
    }
}

proof fn lemma_keys_under(cs: Seq<ZoteroCollection>, walk: Seq<(int, int)>, x: int)
    requires
        0 <= x < cs.len(),
        lead_of(keys_of(cs), folds_of(cs), keys_of(cs)[x], cs.len() as int) == x,
        forall|j: int| 0 <= j < walk.len() ==> 0 <= (#[trigger] walk[j]).0 < cs.len(),
    ensures
        ({
            let f = forest_of(cs);
            keys_under(walk.map_values(|p: (int, int)| node_of(cs, f, p.0, p.1)), cs[x].key@)
                == f.keys_at(f.visited_under(walk, Some(x)))
        }),
    decreases walk.len(),
{
    let f = forest_of(cs);
    lemma_forest_grounded(cs);
    let nodes = walk.map_values(|p: (int, int)| node_of(cs, f, p.0, p.1));
    let keys = keys_of(cs);
    if walk.len() > 0 {
        let most = walk.drop_last();
        assert forall|j: int| 0 <= j < most.len() implies 0 <= (#[trigger] most[j]).0 < cs.len() by {
            assert(most[j] == walk[j]);
        }
        lemma_keys_under(cs, most, x);
        assert(nodes.drop_last() =~= most.map_values(|p: (int, int)| node_of(cs, f, p.0, p.1)));
        let y = walk.last().0;
        assert(walk[walk.len() - 1].0 == y);
        assert(f.keys == keys && keys[x] == cs[x].key@ && keys[y] == cs[y].key@);
        f.lemma_level(y);
        if f.par[y] is Some {
            lemma_parent_leads(cs, y);
        }
        assert(nodes.last().parent == Some(cs[x].key@) <==> f.par[y] == Some(x));
        let seen = f.visited_under(most, Some(x));
        assert(f.keys_at(seen.push(y)) =~= f.keys_at(seen).push(keys[y]));
    } else {
        assert(f.keys_at(f.visited_under(walk, Some(x))) =~= Seq::<Seq<char>>::empty());
    }
}

/// The children that a node lists are exactly the collections that name it as their parent, in the
/// order in which the tree holds them. Of several nodes with one key it is the first that lists
/// them.
pub proof fn law_children_name_their_parent(cs: Seq<ZoteroCollection>, j: int)
    requires
        0 <= j < tree_of(cs).len(),
        forall|i: int| 0 <= i < j ==> (#[trigger] tree_of(cs)[i]).key != tree_of(cs)[j].key,
    ensures
        tree_of(cs)[j].children == keys_under(tree_of(cs), tree_of(cs)[j].key),
{
    lemma_forest_grounded(cs);
    let f = forest_of(cs);
    let roots = f.kids(None);
    let walk = f.walk();
    f.lemma_roots();
    f.lemma_kids(None);
    let x = walk[j].0;
    assert forall|i: int| 0 <= i < walk.len() implies 0 <= (#[trigger] walk[i]).0 < cs.len() by {
        let m = f.lemma_walk_sound(roots, 0, 0, f.keys.len(), i);
    }
    let m = f.lemma_walk_sound(roots, 0, 0, f.keys.len(), j);
    lemma_lead_is_first(cs, x);
    let l = lead_of(keys_of(cs), folds_of(cs), keys_of(cs)[x], cs.len() as int);
    if l != x {
        let (a, b) = choose|a: int, b: int|
            0 <= a < b < walk.len() && (#[trigger] walk[a]).0 == l && (#[trigger] walk[b]).0 == x;
        if b < j {
            f.lemma_walk_once(roots, 0, 0, f.keys.len(), b, j);
        } else if j < b {
            f.lemma_walk_once(roots, 0, 0, f.keys.len(), j, b);
        }
        assert(tree_of(cs)[a].key == tree_of(cs)[j].key);
    }
    f.lemma_visited_kids(roots, 0, 0, f.keys.len(), m, x);
    lemma_keys_under(cs, walk, x);
}

} // verus!
