//! What holds of the counts on an assembled tree.
use crate::api::models::ZoteroCollection;
use crate::api::models::ZoteroItem;
use crate::collections::counts::counted;
use crate::collections::counts::direct_items;
use crate::collections::counts::gathered;
use crate::collections::counts::gathered_from;
use crate::collections::counts::subtree_items;
use crate::collections::counts::ItemSets;
use crate::collections::laws::lemma_forest_grounded;
use crate::collections::laws::lemma_parent_leads;
use crate::collections::lead_laws::lemma_lead_is_first;
use crate::collections::tree::forest_of;
use crate::collections::tree::lead_of;
use crate::collections::tree::tree_of;
use crate::collections::tree::Forest;
use crate::collections::tree::NodeView;
use crate::text::texts;
use vstd::prelude::*;

verus! {

impl Forest {
    /// The items filed anywhere within a collection.
    pub open spec fn items_within(self, items: Seq<ZoteroItem>, x: int) -> Set<Seq<char>> {
        Set::new(
            |k: Seq<char>|
                exists|y: int|
                    0 <= y < self.keys.len() && #[trigger] self.within(y, x) && direct_items(
                        items,
                        self.keys[y],
                    ).contains(k),
        )
    }

    /// Where the walk visits a collection.
    spec fn pos(self, y: int) -> int {
        choose|j: int| 0 <= j < self.walk().len() && (#[trigger] self.walk()[j]).0 == y
    }

    proof fn lemma_pos(self, y: int)
        requires
            self.grounded(),
            0 <= y < self.keys.len(),
        ensures
            0 <= self.pos(y) < self.walk().len(),
            self.walk()[self.pos(y)].0 == y,
            forall|j: int|
                0 <= j < self.walk().len() && (#[trigger] self.walk()[j]).0 == y ==> j == self.pos(
                    y,
                ),
            match self.par[y] {
                Some(p) => self.pos(p) < self.pos(y),
                None => true,
            },
    {
        let roots = self.kids(None);
        let n = self.keys.len();
        self.lemma_roots();
        self.lemma_kids(None);
        let r = self.lemma_within_root(y);
        assert(roots.contains(r));
        let m = choose|m: int| 0 <= m < roots.len() && roots[m] == r;
        let j0 = self.lemma_walk_complete(roots, 0, 0, n, m, y);
        assert(self.walk()[j0].0 == y);
        let j = self.pos(y);
        assert forall|k: int| 0 <= k < self.walk().len() && (#[trigger] self.walk()[k]).0 == y implies k
            == j by {
            if k < j {
                self.lemma_walk_once(roots, 0, 0, n, k, j);
            } else if j < k {
                self.lemma_walk_once(roots, 0, 0, n, j, k);
            }
        }
        if let Some(p) = self.par[y] {
            let i = self.lemma_walk_parent_first(roots, 0, 0, n, j);
            assert(!roots.contains(y));
            assert(self.walk()[i].0 == p);
            let q = self.pos(p);
            assert(self.walk()[q].0 == p);
            if i < q {
                self.lemma_walk_once(roots, 0, 0, n, i, q);
            } else if q < i {
                self.lemma_walk_once(roots, 0, 0, n, q, i);
            }
        }
    }

    /// The leading one of the collections with the key of this one.
    spec fn lead(self, y: int) -> int {
        lead_of(self.keys, self.folds, self.keys[y], self.keys.len() as int)
    }

    /// A collection has the parent of the leading one with its key, which the walk visits no later,
    /// and is itself below a leading one.
    spec fn led_at(self, y: int) -> bool {
        let l = self.lead(y);
        &&& 0 <= l < self.keys.len()
        &&& self.keys[l] == self.keys[y]
        &&& self.par[l] == self.par[y]
        &&& self.pos(l) <= self.pos(y)
        &&& match self.par[y] {
            Some(p) => self.lead(p) == p,
            None => true,
        }
    }

    /// Collections with one key have one parent, and only the leading one, which the walk visits
    /// first, has children.
    spec fn led(self) -> bool {
        forall|y: int| 0 <= y < self.keys.len() ==> #[trigger] self.led_at(y)
    }

    proof fn lemma_gathered(
        self,
        items: Seq<ZoteroItem>,
        own: Set<Seq<char>>,
        m: ItemSets,
        ks: Seq<int>,
    )
        requires
            forall|i: int| 0 <= i < ks.len() ==> 0 <= #[trigger] ks[i] < self.keys.len(),
            forall|i: int|
                0 <= i < ks.len() ==> m.contains_key(self.keys[#[trigger] ks[i]])
                    && m[self.keys[ks[i]]] == self.items_within(items, self.lead(ks[i])),
        ensures
            ({
                let (set, rest) = gathered(own, m, self.keys_at(ks));
                &&& forall|k: Seq<char>| #[trigger]
                    set.contains(k) <==> own.contains(k) || exists|i: int|
                        0 <= i < ks.len() && self.items_within(
                            items,
                            self.lead(#[trigger] ks[i]),
                        ).contains(k)
                &&& forall|key: Seq<char>| #[trigger]
                    rest.contains_key(key) <==> m.contains_key(key) && !self.keys_at(ks).contains(
                        key,
                    )
                &&& forall|key: Seq<char>| #[trigger] rest.contains_key(key) ==> rest[key] == m[key]
            }),
        decreases ks.len(),
    {
        let keys = self.keys_at(ks);
        if ks.len() > 0 {
            let t = ks.drop_last();
            let c = ks.last();
            let kt = self.keys_at(t);
            assert(kt =~= keys.drop_last());
            assert(keys.last() == self.keys[c]);
            assert(ks[ks.len() - 1] == c);
            assert forall|i: int| 0 <= i < t.len() implies 0 <= #[trigger] t[i] < self.keys.len()
                && m.contains_key(self.keys[t[i]]) && m[self.keys[t[i]]] == self.items_within(
                items,
                self.lead(t[i]),
            ) by {
                assert(t[i] == ks[i]);
            }
            self.lemma_gathered(items, own, m, t);
            let (set0, rest0) = gathered(own, m, kt);
            let (set, rest) = gathered(own, m, keys);
            assert(m[self.keys[ks[ks.len() - 1]]] == self.items_within(items, self.lead(c)));
            assert(rest0.contains_key(self.keys[c]) <==> !kt.contains(self.keys[c]));
            assert forall|k: Seq<char>| #[trigger] set.contains(k) <==> own.contains(k) || exists|
                i: int,
            |
                0 <= i < ks.len() && self.items_within(items, self.lead(#[trigger] ks[i])).contains(
                    k,
                ) by {
                if exists|i: int|
                    0 <= i < ks.len() && self.items_within(
                        items,
                        self.lead(#[trigger] ks[i]),
                    ).contains(k) {
                    let i = choose|i: int|
                        0 <= i < ks.len() && self.items_within(
                            items,
                            self.lead(#[trigger] ks[i]),
                        ).contains(k);
                    if i < t.len() {
                        assert(t[i] == ks[i]);
                        assert(set0.contains(k));
                    } else if kt.contains(self.keys[c]) {
                        let j = choose|j: int| 0 <= j < kt.len() && kt[j] == self.keys[c];
                        assert(self.lead(t[j]) == self.lead(c));
                        assert(set0.contains(k));
                    } else {
                        assert(rest0[self.keys[c]] == m[self.keys[c]]);
                    }
                }
                if set0.contains(k) && !own.contains(k) {
                    let i = choose|i: int|
                        0 <= i < t.len() && self.items_within(
                            items,
                            self.lead(#[trigger] t[i]),
                        ).contains(k);
                    assert(ks[i] == t[i]);
                }
                if set.contains(k) && !set0.contains(k) {
                    assert(self.items_within(items, self.lead(ks[ks.len() - 1])).contains(k));
                }
            }
            assert forall|key: Seq<char>| #[trigger] rest.contains_key(key) <==> m.contains_key(key)
                && !keys.contains(key) by {
                if kt.contains(key) {
                    let j = choose|j: int| 0 <= j < kt.len() && kt[j] == key;
                    assert(keys[j] == key);
                }
                if keys.contains(key) && !kt.contains(key) {
                    let j = choose|j: int| 0 <= j < keys.len() && keys[j] == key;
                    if j < kt.len() {
                        assert(kt[j] == key);
                    }
                }
                assert(keys[keys.len() - 1] == self.keys[c]);
            }
        } else {
            assert(keys =~= Seq::empty());
        }
    }

    /// The items within the leading one of some collections with one key are all of theirs.
    proof fn lemma_lead_items(self, items: Seq<ZoteroItem>, y: int, k: Seq<char>)
        requires
            self.grounded(),
            self.led(),
            0 <= y < self.keys.len(),
            self.items_within(items, y).contains(k),
        ensures
            self.items_within(items, self.lead(y)).contains(k),
    {
        let l = self.lead(y);
        let z = choose|z: int|
            0 <= z < self.keys.len() && #[trigger] self.within(z, y) && direct_items(
                items,
                self.keys[z],
            ).contains(k);
        if l != y {
            if z != y {
                let c = self.lemma_within_child(z, y);
                assert(self.led_at(c));
            }
            assert(self.led_at(y));
            assert(self.within(l, l));
            assert(self.keys[l] == self.keys[z]);
        }
    }

    /// Whether one of the collections with the key of this one is among the nodes from `i` on.
    #[verifier::opaque]
    spec fn reached(self, y: int, i: int) -> bool {
        exists|z: int|
            0 <= z < self.keys.len() && #[trigger] self.keys[z] == self.keys[y] && self.pos(z) >= i
    }

    /// Whether a key has been gathered, and not yet by the parent, when the nodes from `i` on are
    /// done.
    spec fn is_open(self, y: int, i: int) -> bool {
        self.reached(y, i) && match self.par[y] {
            Some(p) => self.pos(p) < i,
            None => true,
        }
    }

    /// Whether a map is what has been gathered when the nodes from `i` on are done.
    spec fn knows(self, items: Seq<ZoteroItem>, m: ItemSets, i: int) -> bool {
        &&& forall|y: int|
            0 <= y < self.keys.len() ==> (m.contains_key(#[trigger] self.keys[y]) <==> self.is_open(
                y,
                i,
            ))
        &&& forall|y: int|
            0 <= y < self.keys.len() && m.contains_key(#[trigger] self.keys[y]) && self.pos(
                self.lead(y),
            ) >= i ==> m[self.keys[y]] == self.items_within(items, self.lead(y))
    }

    /// The items within a collection are its own and those within its children.
    proof fn lemma_items_within(self, items: Seq<ZoteroItem>, x: int, k: Seq<char>)
        requires
            self.grounded(),
            0 <= x < self.keys.len(),
        ensures
            self.items_within(items, x).contains(k) <==> direct_items(
                items,
                self.keys[x],
            ).to_set().contains(k) || exists|i: int|
                0 <= i < self.kids(Some(x)).len() && self.items_within(
                    items,
                    #[trigger] self.kids(Some(x))[i],
                ).contains(k),
    {
        let kids = self.kids(Some(x));
        self.lemma_kids(Some(x));
        if self.items_within(items, x).contains(k) {
            let y = choose|y: int|
                0 <= y < self.keys.len() && #[trigger] self.within(y, x) && direct_items(
                    items,
                    self.keys[y],
                ).contains(k);
            if y != x {
                let c = self.lemma_within_child(y, x);
                assert(kids.contains(c));
                let i = choose|i: int| 0 <= i < kids.len() && kids[i] == c;
                assert(self.items_within(items, kids[i]).contains(k));
            }
        }
        if direct_items(items, self.keys[x]).contains(k) {
            assert(self.within(x, x));
        }
        if exists|i: int| 0 <= i < kids.len() && self.items_within(items, #[trigger] kids[i]).contains(k) {
            let i = choose|i: int|
                0 <= i < kids.len() && self.items_within(items, #[trigger] kids[i]).contains(k);
            assert(kids.contains(kids[i]));
            let y = choose|y: int|
                0 <= y < self.keys.len() && #[trigger] self.within(y, kids[i]) && direct_items(
                    items,
                    self.keys[y],
                ).contains(k);
            self.lemma_within_parent(y, kids[i]);
        }
    }
}

proof fn lemma_led(cs: Seq<ZoteroCollection>)
    ensures
        forest_of(cs).led(),
{
    let f = forest_of(cs);
    lemma_forest_grounded(cs);
    assert forall|y: int| 0 <= y < f.keys.len() implies #[trigger] f.led_at(y) by {
        lemma_lead_is_first(cs, y);
        f.lemma_pos(f.lead(y));
        f.lemma_pos(y);
        if f.par[y] is Some {
            lemma_parent_leads(cs, y);
        }
    }
}

/// What is gathered for a collection, given what was gathered for the nodes after it, is what lies
/// within it.
proof fn lemma_gathered_node(f: Forest, items: Seq<ZoteroItem>, m1: ItemSets, x: int)
    requires
        f.grounded(),
        f.led(),
        0 <= x < f.keys.len(),
        f.knows(items, m1, f.pos(x) + 1),
    ensures
        ({
            let own = direct_items(items, f.keys[x]).to_set();
            let (set, rest) = gathered(own, m1, f.keys_at(f.kids(Some(x))));
            &&& set == f.items_within(items, x)
            &&& forall|key: Seq<char>| #[trigger]
                rest.contains_key(key) <==> m1.contains_key(key) && !f.keys_at(
                    f.kids(Some(x)),
                ).contains(key)
            &&& forall|key: Seq<char>| #[trigger] rest.contains_key(key) ==> rest[key] == m1[key]
        }),
{
    let i = f.pos(x);
    let kids = f.kids(Some(x));
    f.lemma_kids(Some(x));
    assert forall|k: int| 0 <= k < kids.len() implies 0 <= #[trigger] kids[k] < f.keys.len()
        && m1.contains_key(f.keys[kids[k]]) && m1[f.keys[kids[k]]] == f.items_within(
        items,
        f.lead(kids[k]),
    ) by {
        let y = kids[k];
        assert(kids.contains(kids[k]));
        assert(f.led_at(y));
        f.lemma_pos(y);
        assert(f.reached(y, i + 1)) by {
            reveal(Forest::reached);
        }
        f.lemma_pos(f.lead(y));
    }
    let own = direct_items(items, f.keys[x]).to_set();
    f.lemma_gathered(items, own, m1, kids);
    let (set, rest) = gathered(own, m1, f.keys_at(kids));
    assert forall|k: Seq<char>| set.contains(k) <==> f.items_within(items, x).contains(k) by {
        f.lemma_items_within(items, x, k);
        if f.items_within(items, x).contains(k) && !own.contains(k) {
            let a = choose|a: int|
                0 <= a < kids.len() && f.items_within(items, #[trigger] kids[a]).contains(k);
            assert(kids.contains(kids[a]));
            f.lemma_lead_items(items, kids[a], k);
        }
        if set.contains(k) && !own.contains(k) {
            let a = choose|a: int|
                0 <= a < kids.len() && f.items_within(items, f.lead(#[trigger] kids[a])).contains(k);
            assert(kids.contains(kids[a]));
            assert(f.led_at(kids[a]));
            let l = f.lead(kids[a]);
            assert(kids.contains(l));
            let b = choose|b: int| 0 <= b < kids.len() && kids[b] == l;
            assert(f.items_within(items, kids[b]).contains(k));
        }
    }
    assert(set =~= f.items_within(items, x));
}

/// Which collections have been gathered once one more is done.
proof fn lemma_known_keys(f: Forest, items: Seq<ZoteroItem>, m1: ItemSets, x: int, y: int)
    requires
        f.grounded(),
        f.led(),
        0 <= x < f.keys.len(),
        0 <= y < f.keys.len(),
        f.knows(items, m1, f.pos(x) + 1),
    ensures
        (f.keys[y] == f.keys[x] || (m1.contains_key(f.keys[y]) && !f.keys_at(
            f.kids(Some(x)),
        ).contains(f.keys[y]))) <==> f.is_open(y, f.pos(x)),
{
    let i = f.pos(x);
    let kids = f.kids(Some(x));
    f.lemma_kids(Some(x));
    f.lemma_pos(x);
    f.lemma_pos(y);
    assert(f.led_at(x) && f.led_at(y));
    if f.keys[y] == f.keys[x] {
        assert(f.lead(y) == f.lead(x));
        assert(f.par[y] == f.par[x]);
        assert(f.reached(y, i)) by {
            reveal(Forest::reached);
        }
    } else {
        lemma_same_reach(f, x, y, i);
        assert(f.keys_at(kids).contains(f.keys[y]) <==> f.par[y] == Some(x)) by {
            if f.keys_at(kids).contains(f.keys[y]) {
                let a = choose|a: int| 0 <= a < kids.len() && f.keys_at(kids)[a] == f.keys[y];
                assert(kids.contains(kids[a]));
                assert(f.led_at(kids[a]));
                assert(f.lead(kids[a]) == f.lead(y));
            }
            if f.par[y] == Some(x) {
                assert(kids.contains(y));
                let a = choose|a: int| 0 <= a < kids.len() && kids[a] == y;
                assert(f.keys_at(kids)[a] == f.keys[y]);
            }
        }
        if let Some(p) = f.par[y] {
            f.lemma_level(y);
            f.lemma_pos(p);
        }
        assert(m1.contains_key(f.keys[y]) <==> f.is_open(y, i + 1));
    }
}

/// One more collection is done.
proof fn lemma_known_step(f: Forest, items: Seq<ZoteroItem>, m1: ItemSets, x: int)
    requires
        f.grounded(),
        f.led(),
        0 <= x < f.keys.len(),
        f.knows(items, m1, f.pos(x) + 1),
    ensures
        ({
            let own = direct_items(items, f.keys[x]).to_set();
            let (set, rest) = gathered(own, m1, f.keys_at(f.kids(Some(x))));
            f.knows(items, rest.insert(f.keys[x], set), f.pos(x))
        }),
{
    let i = f.pos(x);
    let own = direct_items(items, f.keys[x]).to_set();
    let (set, rest) = gathered(own, m1, f.keys_at(f.kids(Some(x))));
    let m = rest.insert(f.keys[x], set);
    lemma_gathered_node(f, items, m1, x);
    assert forall|y: int| 0 <= y < f.keys.len() implies (m.contains_key(#[trigger] f.keys[y])
        <==> f.is_open(y, i)) by {
        lemma_known_keys(f, items, m1, x, y);
        assert(rest.contains_key(f.keys[y]) <==> m1.contains_key(f.keys[y]) && !f.keys_at(
            f.kids(Some(x)),
        ).contains(f.keys[y]));
    }
    assert forall|y: int|
        0 <= y < f.keys.len() && m.contains_key(#[trigger] f.keys[y]) && f.pos(f.lead(y))
            >= i implies m[f.keys[y]] == f.items_within(items, f.lead(y)) by {
        let l = f.lead(y);
        assert(f.led_at(x) && f.led_at(y));
        f.lemma_pos(l);
        f.lemma_pos(x);
        if f.keys[y] == f.keys[x] {
            assert(f.lead(x) == l);
            assert(f.pos(l) <= f.pos(x));
            assert(l == x);
        } else {
            assert(l != x);
            assert(rest.contains_key(f.keys[y]));
            assert(m1.contains_key(f.keys[y]));
        }
    }
}

/// Nothing has been gathered when no node is done.
proof fn lemma_known_nothing(f: Forest, items: Seq<ZoteroItem>)
    requires
        f.grounded(),
    ensures
        f.knows(items, Map::empty(), f.walk().len() as int),
{
    let i = f.walk().len() as int;
    assert forall|y: int| 0 <= y < f.keys.len() implies !#[trigger] f.reached(y, i) by {
        reveal(Forest::reached);
        if f.reached(y, i) {
            let z = choose|z: int|
                0 <= z < f.keys.len() && #[trigger] f.keys[z] == f.keys[y] && f.pos(z) >= i;
            f.lemma_pos(z);
        }
    }
}

/// What has been gathered when the nodes from `i` on are done.
proof fn lemma_gathered_from(cs: Seq<ZoteroCollection>, items: Seq<ZoteroItem>, i: int)
    requires
        0 <= i <= tree_of(cs).len(),
    ensures
        forest_of(cs).knows(items, gathered_from(tree_of(cs), items, i), i),
        i < tree_of(cs).len() ==> subtree_items(tree_of(cs), items, i) == forest_of(
            cs,
        ).items_within(items, forest_of(cs).walk()[i].0),
    decreases tree_of(cs).len() - i,
{
    lemma_forest_grounded(cs);
    lemma_led(cs);
    let f = forest_of(cs);
    let tree = tree_of(cs);
    if i == tree.len() {
        lemma_known_nothing(f, items);
    } else {
        lemma_gathered_from(cs, items, i + 1);
        let m1 = gathered_from(tree, items, i + 1);
        let x = f.walk()[i].0;
        f.lemma_roots();
        let w = f.lemma_walk_sound(f.kids(None), 0, 0, f.keys.len(), i);
        f.lemma_pos(x);
        assert(f.pos(x) == i);
        assert(tree[i].children == f.keys_at(f.kids(Some(x))));
        assert(tree[i].key == f.keys[x]);
        lemma_gathered_node(f, items, m1, x);
        lemma_known_step(f, items, m1, x);
    }
}

proof fn lemma_same_reach(f: Forest, x: int, y: int, i: int)
    requires
        f.grounded(),
        0 <= x < f.keys.len(),
        0 <= y < f.keys.len(),
        f.pos(x) == i,
        f.keys[y] != f.keys[x],
    ensures
        f.reached(y, i) <==> f.reached(y, i + 1),
{
    reveal(Forest::reached);
    f.lemma_pos(x);
    if f.reached(y, i) {
        let z = choose|z: int|
            0 <= z < f.keys.len() && #[trigger] f.keys[z] == f.keys[y] && f.pos(z) >= i;
        f.lemma_pos(z);
        assert(f.pos(z) != i);
        assert(f.keys[z] == f.keys[y] && f.pos(z) >= i + 1);
    }
    if f.reached(y, i + 1) {
        let z = choose|z: int|
            0 <= z < f.keys.len() && #[trigger] f.keys[z] == f.keys[y] && f.pos(z) >= i + 1;
        assert(f.keys[z] == f.keys[y] && f.pos(z) >= i);
    }
}

/// Whether the node at `i` is the one at `j` or lies below it.
pub open spec fn in_subtree(cs: Seq<ZoteroCollection>, i: int, j: int) -> bool {
    let f = forest_of(cs);
    f.within(f.walk()[i].0, f.walk()[j].0)
}

/// The subtree count of a node is the number of distinct items filed in any collection of its
/// subtree.
pub proof fn law_tree_count_is_distinct_items(
    cs: Seq<ZoteroCollection>,
    items: Seq<ZoteroItem>,
    j: int,
)
    requires
        0 <= j < tree_of(cs).len(),
    ensures
        counted(tree_of(cs), items, j).count_tree == Set::new(
            |k: Seq<char>|
                exists|i: int|
                    0 <= i < tree_of(cs).len() && #[trigger] in_subtree(cs, i, j) && direct_items(
                        items,
                        tree_of(cs)[i].key,
                    ).contains(k),
        ).len(),
{
    lemma_gathered_from(cs, items, j);
    lemma_forest_grounded(cs);
    let f = forest_of(cs);
    let tree = tree_of(cs);
    let x = f.walk()[j].0;
    let stated = Set::new(
        |k: Seq<char>|
            exists|i: int|
                0 <= i < tree.len() && #[trigger] in_subtree(cs, i, j) && direct_items(
                    items,
                    tree[i].key,
                ).contains(k),
    );
    assert forall|k: Seq<char>| f.items_within(items, x).contains(k) <==> stated.contains(k) by {
        if f.items_within(items, x).contains(k) {
            let y = choose|y: int|
                0 <= y < f.keys.len() && #[trigger] f.within(y, x) && direct_items(
                    items,
                    f.keys[y],
                ).contains(k);
            f.lemma_pos(y);
            let i = f.pos(y);
            assert(in_subtree(cs, i, j));
            assert(tree[i].key == f.keys[y]);
        }
        if stated.contains(k) {
            let i = choose|i: int|
                0 <= i < tree.len() && #[trigger] in_subtree(cs, i, j) && direct_items(
                    items,
                    tree[i].key,
                ).contains(k);
            f.lemma_roots();
            let w = f.lemma_walk_sound(f.kids(None), 0, 0, f.keys.len(), i);
            let y = f.walk()[i].0;
            assert(f.within(y, x));
        }
    }
    assert(f.items_within(items, x) =~= stated);
}

proof fn lemma_direct_items(items: Seq<ZoteroItem>, key: Seq<char>)
    ensures
        direct_items(items, key).no_duplicates(),
    decreases items.len(),
{
    if items.len() > 0 {
        lemma_direct_items(items.drop_last(), key);
    }
}

/// The items of a collection are exactly those whose collections name it, however often.
pub proof fn law_direct_items_name_the_collection(
    items: Seq<ZoteroItem>,
    key: Seq<char>,
    k: Seq<char>,
)
    ensures
        direct_items(items, key).no_duplicates(),
        direct_items(items, key).contains(k) <==> exists|i: int|
            0 <= i < items.len() && (#[trigger] items[i]).key@ == k && texts(
                items[i].data.collections@,
            ).contains(key),
    decreases items.len(),
{
    lemma_direct_items(items, key);
    if items.len() > 0 {
        let t = items.drop_last();
        let item = items.last();
        let head = direct_items(t, key);
        let all = direct_items(items, key);
        law_direct_items_name_the_collection(t, key, k);
        assert(items[items.len() - 1] == item);
        if head.contains(k) {
            let a = choose|a: int| 0 <= a < head.len() && head[a] == k;
            assert(all[a] == k);
            let i = choose|i: int|
                0 <= i < t.len() && (#[trigger] t[i]).key@ == k && texts(
                    t[i].data.collections@,
                ).contains(key);
            assert(items[i].key@ == k);
        }
        if all.contains(k) && !head.contains(k) {
            let a = choose|a: int| 0 <= a < all.len() && all[a] == k;
            if a < head.len() {
                assert(head[a] == k);
            }
        }
        if exists|i: int|
            0 <= i < items.len() && (#[trigger] items[i]).key@ == k && texts(
                items[i].data.collections@,
            ).contains(key) {
            let i = choose|i: int|
                0 <= i < items.len() && (#[trigger] items[i]).key@ == k && texts(
                    items[i].data.collections@,
                ).contains(key);
            if i < t.len() {
                assert(t[i].key@ == k);
            } else if !head.contains(k) {
                assert(all[all.len() - 1] == k);
            }
        }
    }
}

proof fn lemma_gathered_grows(own: Set<Seq<char>>, m: ItemSets, children: Seq<Seq<char>>)
    ensures
        own.subset_of(gathered(own, m, children).0),
    decreases children.len(),
{
    if children.len() > 0 {
        lemma_gathered_grows(own, m, children.drop_last());
    }
}

proof fn lemma_gathered_finite(own: Set<Seq<char>>, m: ItemSets, children: Seq<Seq<char>>)
    requires
        own.finite(),
        forall|k: Seq<char>| #[trigger] m.contains_key(k) ==> m[k].finite(),
    ensures
        gathered(own, m, children).0.finite(),
        forall|k: Seq<char>| #[trigger]
            gathered(own, m, children).1.contains_key(k) ==> gathered(own, m, children).1[k].finite(),
    decreases children.len(),
{
    if children.len() > 0 {
        lemma_gathered_finite(own, m, children.drop_last());
    }
}

proof fn lemma_gathered_from_finite(nodes: Seq<NodeView>, items: Seq<ZoteroItem>, i: int)
    ensures
        forall|k: Seq<char>| #[trigger]
            gathered_from(nodes, items, i).contains_key(k) ==> gathered_from(
                nodes,
                items,
                i,
            )[k].finite(),
    decreases nodes.len() - i,
{
    if 0 <= i < nodes.len() {
        lemma_gathered_from_finite(nodes, items, i + 1);
        let own = direct_items(items, nodes[i].key);
        vstd::seq_lib::seq_to_set_is_finite(own);
        lemma_gathered_finite(
            own.to_set(),
            gathered_from(nodes, items, i + 1),
            nodes[i].children,
        );
    }
}

/// The subtree count of a node is never below its direct count.
pub proof fn law_tree_count_at_least_direct(
    nodes: Seq<NodeView>,
    items: Seq<ZoteroItem>,
    i: int,
)
    requires
        0 <= i < nodes.len(),
    ensures
        counted(nodes, items, i).count_tree >= counted(nodes, items, i).count_direct,
{
    let own = direct_items(items, nodes[i].key);
    let m = gathered_from(nodes, items, i + 1);
    lemma_direct_items(items, nodes[i].key);
    own.unique_seq_to_set();
    lemma_gathered_grows(own.to_set(), m, nodes[i].children);
    lemma_gathered_from_finite(nodes, items, i + 1);
    lemma_gathered_finite(own.to_set(), m, nodes[i].children);
    vstd::set_lib::lemma_len_subset(own.to_set(), subtree_items(nodes, items, i));
}

} // verus!
