//! What holds of listings, deletions and pairings over every assembled tree.
use crate::api::connector::TargetView;
use crate::api::models::ZoteroCollection;
use crate::api::models::ZoteroItem;
use crate::collections::count_laws::in_subtree;
use crate::collections::laws::lemma_forest_grounded;
use crate::collections::lookup::node_with_key;
use crate::collections::lookup::resolved;
use crate::collections::lookup_laws::distinct_ids;
use crate::collections::lookup_laws::law_root_has_no_key;
use crate::collections::lookup_laws::law_tree_view_id_resolves;
use crate::collections::lookup_laws::lemma_one_id;
use crate::collections::lookup_laws::lemma_target_with_id;
use crate::collections::pairing::id_of_node;
use crate::collections::pairing::key_of_id;
use crate::collections::pairing::node_path;
use crate::collections::pairing::path_shared;
use crate::collections::tree::forest_of;
use crate::collections::tree::tree_of;
use crate::collections::tree::Forest;
use crate::collections::tree::NodeView;
use crate::commands::add_cmd::add_target;
use crate::commands::add_cmd::further_filings;
use crate::commands::collections_cmd::count_filed;
use crate::commands::collections_cmd::lemma_node_with_key;
use crate::commands::collections_cmd::run_end;
use crate::commands::collections_cmd::subtree_of;
use crate::commands::delete_cmd::count_unfiled;
use crate::commands::delete_cmd::doomed_key;
use crate::commands::edit_cmd::flagged_key;
use crate::text::is_white;
use crate::text::trimmed;
use crate::text::trimmed_end;
use crate::text::trimmed_start;
use vstd::prelude::*;

verus! {

impl Forest {
    proof fn lemma_within_trans(self, x: int, y: int, z: int)
        requires
            self.grounded(),
            0 <= x < self.keys.len(),
            0 <= y < self.keys.len(),
            self.within(x, y),
            self.within(y, z),
        ensures
            self.within(x, z),
        decreases self.level(x),
    {
        self.lemma_level(x);
        if x != y {
            self.lemma_within_trans(self.par[x].unwrap(), y, z);
        }
    }

    /// What lies within the collection at `j` of a walk is a run that starts there and ends where
    /// the walk is back at its depth or above it.
    proof fn lemma_run(self, kids: Seq<int>, lev: int, depth: int, limit: nat, j: int) -> (e: int)
        requires
            self.siblings_at(kids, lev, limit),
            0 <= j < self.preorder(kids, depth, limit).len(),
        ensures
            ({
                let all = self.preorder(kids, depth, limit);
                &&& j < e <= all.len()
                &&& forall|i: int| j < i < e ==> (#[trigger] all[i]).1 > all[j].1
                &&& e < all.len() ==> all[e].1 <= all[j].1
                &&& forall|i: int|
                    0 <= i < all.len() ==> (self.within((#[trigger] all[i]).0, all[j].0) <==> j <= i
                        < e)
            }),
        decreases limit, kids.len(),
    {
        let all = self.preorder(kids, depth, limit);
        let c = kids.last();
        let most = kids.drop_last();
        let head = self.preorder(most, depth, limit);
        assert(kids[kids.len() - 1] == c);
        assert(self.siblings_at(most, lev, limit)) by {
            assert forall|i: int| 0 <= i < most.len() implies 0 <= #[trigger] most[i]
                < self.keys.len() && self.level(most[i]) == lev by {
                assert(most[i] == kids[i]);
            }
        }
        let k = self.kids(Some(c));
        let below = if limit > 0 {
            self.preorder(k, depth + 1, (limit - 1) as nat)
        } else {
            Seq::empty()
        };
        if limit > 0 {
            self.lemma_kids_below(c, lev, limit);
            self.lemma_kids(Some(c));
        }
        // Everything from `c` on lies within `c`.
        assert forall|i: int| head.len() <= i < all.len() implies self.within(
            (#[trigger] all[i]).0,
            c,
        ) && all[i].0 >= 0 && all[i].0 < self.keys.len() && (i > head.len() ==> all[i].1
            > depth) by {
            if i == head.len() {
                assert(all[i] == (c, depth));
            } else {
                let b = i - head.len() - 1;
                assert(all[i] == below[b]);
                let m = self.lemma_walk_sound(k, lev + 1, depth + 1, (limit - 1) as nat, b);
                assert(k.contains(k[m]));
                self.lemma_within_level(below[b].0, k[m]);
                self.lemma_within_parent(below[b].0, k[m]);
            }
        }
        // Nothing before it does.
        assert forall|i: int| 0 <= i < head.len() implies !self.within((#[trigger] all[i]).0, c)
            && 0 <= all[i].0 < self.keys.len() && all[i].1 >= depth by {
            assert(all[i] == head[i]);
            let m = self.lemma_walk_sound(most, lev, depth, limit, i);
            self.lemma_within_level(head[i].0, most[m]);
            if self.within(head[i].0, c) {
                self.lemma_within_unique(head[i].0, most[m], c);
                assert(kids[m] == kids[kids.len() - 1]);
            }
        }
        let x = all[j].0;
        if j < head.len() {
            assert(all[j] == head[j]);
            let e = self.lemma_run(most, lev, depth, limit, j);
            let m = self.lemma_walk_sound(most, lev, depth, limit, j);
            assert forall|i: int| j < i < e implies (#[trigger] all[i]).1 > all[j].1 by {
                assert(all[i] == head[i]);
            }
            if e < head.len() {
                assert(all[e] == head[e]);
            } else {
                assert(all[head.len() as int] == (c, depth));
            }
            assert forall|i: int| 0 <= i < all.len() implies (self.within((#[trigger] all[i]).0, x)
                <==> j <= i < e) by {
                if i < head.len() {
                    assert(all[i] == head[i]);
                } else if self.within(all[i].0, x) {
                    self.lemma_within_trans(all[i].0, x, most[m]);
                    self.lemma_within_unique(all[i].0, most[m], c);
                    assert(kids[m] == kids[kids.len() - 1]);
                }
            }
            e
        } else if j == head.len() {
            assert(all[j] == (c, depth));
            all.len() as int
        } else {
            let b = j - head.len() - 1;
            assert(all[j] == below[b]);
            let f = self.lemma_run(k, lev + 1, depth + 1, (limit - 1) as nat, b);
            let e = f + head.len() + 1;
            assert forall|i: int| j < i < e implies (#[trigger] all[i]).1 > all[j].1 by {
                assert(all[i] == below[i - head.len() - 1]);
            }
            if f < below.len() {
                assert(all[e] == below[f]);
            }
            assert forall|i: int| 0 <= i < all.len() implies (self.within((#[trigger] all[i]).0, x)
                <==> j <= i < e) by {
                if i > head.len() {
                    assert(all[i] == below[i - head.len() - 1]);
                } else if i == head.len() {
                    if self.within(c, x) {
                        let m = self.lemma_walk_sound(
                            k,
                            lev + 1,
                            depth + 1,
                            (limit - 1) as nat,
                            b,
                        );
                        assert(k.contains(k[m]));
                        self.lemma_within_level(x, k[m]);
                        self.lemma_within_level(c, x);
                    }
                } else if self.within(all[i].0, x) {
                    self.lemma_within_trans(all[i].0, x, c);
                }
            }
            e
        }
    }
}

proof fn lemma_run_end_is(nodes: Seq<NodeView>, i: int, depth: int, e: int)
    requires
        0 <= i <= e <= nodes.len(),
        forall|k: int| i <= k < e ==> (#[trigger] nodes[k]).depth > depth,
        e < nodes.len() ==> nodes[e].depth <= depth,
    ensures
        run_end(nodes, i, depth) == e,
    decreases e - i,
{
    if i < e {
        lemma_run_end_is(nodes, i + 1, depth, e);
    }
}

/// The subtree that is listed or deleted for a key is exactly the collection and what lies below
/// it: the nodes from its position `j` up to some `e`, and no node outside of those lies below it.
pub proof fn law_subtree_is_descendants(cs: Seq<ZoteroCollection>, key: Seq<char>) -> (r: (int, int))
    requires
        node_with_key(tree_of(cs), key, 0) is Some,
    ensures
        ({
            let (j, e) = r;
            &&& node_with_key(tree_of(cs), key, 0) == Some(j)
            &&& 0 <= j < e <= tree_of(cs).len()
            &&& subtree_of(tree_of(cs), key) == tree_of(cs).subrange(j, e)
            &&& forall|i: int|
                0 <= i < tree_of(cs).len() ==> (#[trigger] in_subtree(cs, i, j) <==> j <= i < e)
        }),
{
    lemma_forest_grounded(cs);
    let f = forest_of(cs);
    let tree = tree_of(cs);
    let walk = f.walk();
    lemma_node_with_key(tree, key, 0);
    let j = node_with_key(tree, key, 0).unwrap();
    f.lemma_roots();
    let e = f.lemma_run(f.kids(None), 0, 0, f.keys.len(), j);
    assert forall|k: int| j + 1 <= k < e implies (#[trigger] tree[k]).depth > tree[j].depth by {
        assert(walk[k].1 > walk[j].1);
    }
    if e < tree.len() {
        assert(walk[e].1 <= walk[j].1);
    }
    lemma_run_end_is(tree, j + 1, tree[j].depth, e);
    assert forall|i: int| 0 <= i < tree.len() implies (#[trigger] in_subtree(cs, i, j) <==> j <= i
        < e) by {
        assert(f.within(walk[i].0, walk[j].0) <==> j <= i < e);
    }
    (j, e)
}

/// A deletion never leaves more items unfiled than are filed in what it removes.
pub proof fn law_unfiled_at_most_filed(items: Seq<ZoteroItem>, keys: Seq<Seq<char>>)
    ensures
        count_unfiled(items, keys) <= count_filed(items, keys) <= items.len(),
    decreases items.len(),
{
    if items.len() > 0 {
        law_unfiled_at_most_filed(items.drop_last(), keys);
    }
}

/// A library root is never deleted.
pub proof fn law_library_root_never_deleted(
    input: Seq<char>,
    nodes: Seq<NodeView>,
    ts: Seq<TargetView>,
    t: int,
)
    requires
        0 <= t < ts.len(),
        ts[t].level <= 0,
        distinct_ids(ts),
        trimmed(input) == ts[t].id,
        ts[t].id.len() > 0,
    ensures
        resolved(input, nodes, ts) is Ok,
        doomed_key(resolved(input, nodes, ts)->Ok_0) is Err,
{
    law_root_has_no_key(input, nodes, ts, t);
}

/// An item is never filed into a library root, nor taken out of one, by an edit.
pub proof fn law_library_root_never_edited(
    input: Seq<char>,
    flag: Seq<char>,
    nodes: Seq<NodeView>,
    ts: Seq<TargetView>,
    t: int,
)
    requires
        0 <= t < ts.len(),
        ts[t].level <= 0,
        distinct_ids(ts),
        trimmed(input) == ts[t].id,
        ts[t].id.len() > 0,
    ensures
        flagged_key(input, flag, nodes, ts) is Err,
{
    law_root_has_no_key(input, nodes, ts, t);
}

proof fn lemma_further_needs_keys(
    inputs: Seq<Seq<char>>,
    first: Seq<char>,
    nodes: Seq<NodeView>,
    ts: Seq<TargetView>,
    i: int,
)
    requires
        0 <= i < inputs.len(),
        further_filings(inputs, first, nodes, ts) is Ok,
    ensures
        resolved(inputs[i], nodes, ts) is Ok,
        resolved(inputs[i], nodes, ts)->Ok_0.key is Some,
    decreases inputs.len(),
{
    if i < inputs.len() - 1 {
        lemma_further_needs_keys(inputs.drop_last(), first, nodes, ts, i);
    }
}

/// Where an item is added to several collections, each of them resolves to a collection with a key:
/// a typo, or a library root among them, is refused before anything is written.
pub proof fn law_several_collections_have_keys(
    inputs: Seq<Seq<char>>,
    nodes: Seq<NodeView>,
    ts: Seq<TargetView>,
    i: int,
)
    requires
        inputs.len() > 1,
        0 <= i < inputs.len(),
        add_target(inputs, nodes, ts) is Ok,
    ensures
        resolved(inputs[i], nodes, ts) is Ok,
        resolved(inputs[i], nodes, ts)->Ok_0.key is Some,
{
    if i > 0 {
        let first = resolved(inputs[0], nodes, ts)->Ok_0.key.unwrap();
        lemma_further_needs_keys(inputs.drop_first(), first, nodes, ts, i - 1);
        assert(inputs.drop_first()[i - 1] == inputs[i]);
    }
}

proof fn lemma_trimmed_start_no_lead(s: Seq<char>)
    ensures
        trimmed_start(s).len() > 0 ==> !is_white(trimmed_start(s)[0]),
    decreases s.len(),
{
    if s.len() > 0 && is_white(s[0]) {
        lemma_trimmed_start_no_lead(s.drop_first());
    }
}

proof fn lemma_trimmed_end_keeps(s: Seq<char>)
    ensures
        trimmed_end(s).len() <= s.len(),
        trimmed_end(s).len() > 0 ==> trimmed_end(s)[0] == s[0] && !is_white(trimmed_end(s).last()),
    decreases s.len(),
{
    if s.len() > 0 && is_white(s.last()) {
        lemma_trimmed_end_keeps(s.drop_last());
    }
}

/// A name with whitespace at one of its ends is never confirmed at the prompt.
pub proof fn law_padded_name_never_confirmed(answer: Seq<char>, expected: Seq<char>)
    requires
        expected.len() > 0,
        is_white(expected[0]) || is_white(expected.last()),
    ensures
        trimmed(answer) != expected,
{
    lemma_trimmed_start_no_lead(answer);
    lemma_trimmed_end_keeps(trimmed_start(answer));
}

/// No two collections share a tree-view ID, as long as no two targets do: neither borrows the
/// other's.
pub proof fn law_pairing_is_one_to_one(nodes: Seq<NodeView>, ts: Seq<TargetView>, i: int, j: int)
    requires
        0 <= i < nodes.len(),
        0 <= j < nodes.len(),
        distinct_ids(ts),
        id_of_node(nodes, ts, i) is Some,
        id_of_node(nodes, ts, i) == id_of_node(nodes, ts, j),
    ensures
        nodes[i].key == nodes[j].key,
{
    let a = lemma_one_id(ts, node_path(nodes, i), ts.len() as int);
    let b = lemma_one_id(ts, node_path(nodes, j), ts.len() as int);
    if a < b {
        assert(ts[a].id != ts[b].id);
    } else if b < a {
        assert(ts[b].id != ts[a].id);
    }
    assert(node_path(nodes, i) == node_path(nodes, j));
    if nodes[i].key != nodes[j].key {
        assert(nodes[j].key != nodes[i].key && node_path(nodes, j) == node_path(nodes, i));
        assert(path_shared(nodes, i));
    }
}

proof fn lemma_key_of_paired(
    nodes: Seq<NodeView>,
    ts: Seq<TargetView>,
    id: Seq<char>,
    i: int,
    n: int,
)
    requires
        0 <= i < n <= nodes.len(),
        distinct_ids(ts),
        id_of_node(nodes, ts, i) == Some(id),
    ensures
        key_of_id(nodes, ts, id, n) == Some(nodes[i].key),
    decreases n,
{
    if id_of_node(nodes, ts, n - 1) == Some(id) {
        law_pairing_is_one_to_one(nodes, ts, i, n - 1);
    } else {
        lemma_key_of_paired(nodes, ts, id, i, n - 1);
    }
}

/// The tree-view ID that a collection is paired with resolves to the collection's key.
pub proof fn law_paired_id_resolves_to_its_key(
    input: Seq<char>,
    nodes: Seq<NodeView>,
    ts: Seq<TargetView>,
    t: int,
    i: int,
)
    requires
        0 <= t < ts.len(),
        0 <= i < nodes.len(),
        distinct_ids(ts),
        trimmed(input) == ts[t].id,
        ts[t].id.len() > 0,
        id_of_node(nodes, ts, i) == Some(ts[t].id),
    ensures
        resolved(input, nodes, ts) is Ok,
        resolved(input, nodes, ts)->Ok_0.key == Some(nodes[i].key),
        resolved(input, nodes, ts)->Ok_0.connector_id == Some(ts[t].id),
{
    law_tree_view_id_resolves(input, nodes, ts, t);
    lemma_target_with_id(ts, t, 0);
    lemma_key_of_paired(nodes, ts, ts[t].id, i, nodes.len() as int);
}

} // verus!
