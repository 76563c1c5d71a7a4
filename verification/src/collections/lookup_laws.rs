//! What holds of collection references, whatever the library looks like.
use crate::api::connector::TargetView;
use crate::collections::lookup::node_ref;
use crate::collections::lookup::node_with_key;
use crate::collections::lookup::nodes_named;
use crate::collections::lookup::resolved;
use crate::collections::lookup::target_with_id;
use crate::collections::lookup::unpaired_named;
use crate::collections::lookup::RefView;
use crate::collections::pairing::id_of_key;
use crate::collections::pairing::id_of_node;
use crate::collections::pairing::ids_at;
use crate::collections::pairing::key_of_id;
use crate::collections::pairing::node_path;
use crate::collections::pairing::target_path;
use crate::collections::tree::NodeView;
use crate::text::trimmed;
use vstd::prelude::*;

verus! {

/// No two targets have the same ID.
pub open spec fn distinct_ids(ts: Seq<TargetView>) -> bool {
    forall|a: int, b: int|
        0 <= a < b < ts.len() ==> (#[trigger] ts[a]).id != (#[trigger] ts[b]).id
}

/// The first ID at a path is that of a target with the path.
pub proof fn lemma_one_id(ts: Seq<TargetView>, path: Seq<char>, n: int) -> (t: int)
    requires
        0 <= n <= ts.len(),
        ids_at(ts, path, n).len() >= 1,
    ensures
        0 <= t < n,
        target_path(ts, t) == Some(path),
        ts[t].id == ids_at(ts, path, n)[0],
    decreases n,
{
    let head = ids_at(ts, path, n - 1);
    if head.len() >= 1 {
        let t = lemma_one_id(ts, path, n - 1);
        t
    } else {
        n - 1
    }
}

proof fn lemma_root_unpaired(nodes: Seq<NodeView>, ts: Seq<TargetView>, t: int, n: int)
    requires
        0 <= t < ts.len(),
        ts[t].level <= 0,
        distinct_ids(ts),
        0 <= n <= nodes.len(),
    ensures
        key_of_id(nodes, ts, ts[t].id, n) is None,
    decreases n,
{
    if n > 0 {
        lemma_root_unpaired(nodes, ts, t, n - 1);
        if id_of_node(nodes, ts, n - 1) == Some(ts[t].id) {
            let u = lemma_one_id(ts, node_path(nodes, n - 1), ts.len() as int);
            if u < t {
                assert(ts[u].id != ts[t].id);
            } else if t < u {
                assert(ts[t].id != ts[u].id);
            }
        }
    }
}

/// A target is found by its ID.
pub proof fn lemma_target_with_id(ts: Seq<TargetView>, t: int, i: int)
    requires
        0 <= i <= t < ts.len(),
        distinct_ids(ts),
    ensures
        target_with_id(ts, ts[t].id, i) == Some(t),
    decreases t - i,
{
    if i < t {
        assert(ts[i].id != ts[t].id);
        lemma_target_with_id(ts, t, i + 1);
    }
}

/// A library root is a place to save to, never a collection: its ID resolves, but to no key.
pub proof fn law_root_has_no_key(
    input: Seq<char>,
    nodes: Seq<NodeView>,
    ts: Seq<TargetView>,
    t: int,
)
    requires
        0 <= t < ts.len(),
        ts[t].level <= 0,
        distinct_ids(ts),
        trimmed(input) == ts[t].id,
        ts[t].id.len() > 0,
    ensures
        resolved(input, nodes, ts) == Ok::<RefView, Seq<char>>(
            RefView { key: None, connector_id: Some(ts[t].id), name: ts[t].name },
        ),
{
    lemma_target_with_id(ts, t, 0);
    lemma_root_unpaired(nodes, ts, t, nodes.len() as int);
}

/// A tree-view ID resolves to its own target, before anything else is looked at.
pub proof fn law_tree_view_id_resolves(
    input: Seq<char>,
    nodes: Seq<NodeView>,
    ts: Seq<TargetView>,
    t: int,
)
    requires
        0 <= t < ts.len(),
        distinct_ids(ts),
        trimmed(input) == ts[t].id,
        ts[t].id.len() > 0,
    ensures
        resolved(input, nodes, ts) is Ok,
        resolved(input, nodes, ts)->Ok_0.connector_id == Some(ts[t].id),
        resolved(input, nodes, ts)->Ok_0.name == ts[t].name,
{
    lemma_target_with_id(ts, t, 0);
}

proof fn lemma_node_with_key(nodes: Seq<NodeView>, key: Seq<char>, i: int, j: int)
    requires
        0 <= j <= i < nodes.len(),
        nodes[i].key == key,
        forall|k: int| 0 <= k < i ==> (#[trigger] nodes[k]).key != key,
    ensures
        node_with_key(nodes, key, j) == Some(i),
    decreases i - j,
{
    if j < i {
        assert(nodes[j].key != key);
        lemma_node_with_key(nodes, key, i, j + 1);
    }
}

/// A collection's key resolves to the collection, unless it is a tree-view ID.
pub proof fn law_key_resolves(
    input: Seq<char>,
    nodes: Seq<NodeView>,
    ts: Seq<TargetView>,
    i: int,
)
    requires
        0 <= i < nodes.len(),
        trimmed(input) == nodes[i].key,
        nodes[i].key.len() > 0,
        target_with_id(ts, nodes[i].key, 0) is None,
        forall|k: int| 0 <= k < i ==> (#[trigger] nodes[k]).key != nodes[i].key,
    ensures
        resolved(input, nodes, ts) == Ok::<RefView, Seq<char>>(node_ref(nodes, ts, i)),
{
    lemma_node_with_key(nodes, nodes[i].key, i, 0);
}

proof fn lemma_nodes_named(nodes: Seq<NodeView>, name: Seq<char>, n: int)
    requires
        0 <= n <= nodes.len(),
    ensures
        forall|k: int|
            0 <= k < nodes_named(nodes, name, n).len() ==> 0 <= #[trigger] nodes_named(
                nodes,
                name,
                n,
            )[k] < n && nodes[nodes_named(nodes, name, n)[k]].name == name,
        forall|i: int|
            0 <= i < n && (#[trigger] nodes[i]).name == name ==> nodes_named(
                nodes,
                name,
                n,
            ).contains(i),
    decreases n,
{
    if n > 0 {
        lemma_nodes_named(nodes, name, n - 1);
        let head = nodes_named(nodes, name, n - 1);
        let all = nodes_named(nodes, name, n);
        assert forall|i: int| 0 <= i < n && (#[trigger] nodes[i]).name == name implies all.contains(
            i,
        ) by {
            if i < n - 1 {
                let k = choose|k: int| 0 <= k < head.len() && head[k] == i;
                assert(all[k] == i);
            } else {
                assert(all[all.len() - 1] == i);
            }
        }
        assert forall|k: int| 0 <= k < all.len() implies 0 <= #[trigger] all[k] < n
            && nodes[all[k]].name == name by {
            if k < head.len() {
                assert(all[k] == head[k]);
            }
        }
    }
}

/// A name that two collections have is refused rather than guessed at.
pub proof fn law_ambiguous_name_is_refused(
    input: Seq<char>,
    nodes: Seq<NodeView>,
    ts: Seq<TargetView>,
    i: int,
    j: int,
)
    requires
        0 <= i < j < nodes.len(),
        nodes[i].name == trimmed(input),
        nodes[j].name == trimmed(input),
        target_with_id(ts, trimmed(input), 0) is None,
        node_with_key(nodes, trimmed(input), 0) is None,
    ensures
        resolved(input, nodes, ts) is Err,
{
    let named = nodes_named(nodes, trimmed(input), nodes.len() as int);
    lemma_nodes_named(nodes, trimmed(input), nodes.len() as int);
    assert(named.contains(i) && named.contains(j));
    let a = choose|k: int| 0 <= k < named.len() && named[k] == i;
    let b = choose|k: int| 0 <= k < named.len() && named[k] == j;
    assert(named.len() >= 2);
}

/// An exact name that one collection has resolves to it, unless it is also an ID or a key.
pub proof fn law_exact_name_resolves(
    input: Seq<char>,
    nodes: Seq<NodeView>,
    ts: Seq<TargetView>,
    i: int,
)
    requires
        0 <= i < nodes.len(),
        trimmed(input) == nodes[i].name,
        nodes[i].name.len() > 0,
        target_with_id(ts, nodes[i].name, 0) is None,
        node_with_key(nodes, nodes[i].name, 0) is None,
        forall|k: int|
            0 <= k < nodes.len() && k != i ==> (#[trigger] nodes[k]).name != nodes[i].name,
    ensures
        resolved(input, nodes, ts) == Ok::<RefView, Seq<char>>(node_ref(nodes, ts, i)),
{
    let name = nodes[i].name;
    lemma_only_one(nodes, i, nodes.len() as int);
}

proof fn lemma_only_one(nodes: Seq<NodeView>, i: int, n: int)
    requires
        0 <= n <= nodes.len(),
        0 <= i < nodes.len(),
        forall|k: int|
            0 <= k < nodes.len() && k != i ==> (#[trigger] nodes[k]).name != nodes[i].name,
    ensures
        nodes_named(nodes, nodes[i].name, n) == if i < n {
            seq![i]
        } else {
            Seq::empty()
        },
    decreases n,
{
    if n > 0 {
        lemma_only_one(nodes, i, n - 1);
        if n - 1 == i {
            assert(nodes_named(nodes, nodes[i].name, n) =~= seq![i]);
        } else {
            assert(nodes[n - 1].name != nodes[i].name);
        }
    }
}

/// A key resolves to the collection that has it: to its key, its name and its own tree-view ID.
pub proof fn law_key_names_its_collection(
    input: Seq<char>,
    nodes: Seq<NodeView>,
    ts: Seq<TargetView>,
    i: int,
)
    requires
        0 <= i < nodes.len(),
        trimmed(input) == nodes[i].key,
        nodes[i].key.len() > 0,
        forall|k: int| 0 <= k < ts.len() ==> (#[trigger] ts[k]).id != nodes[i].key,
        forall|k: int| 0 <= k < nodes.len() && k != i ==> (#[trigger] nodes[k]).key != nodes[i].key,
    ensures
        resolved(input, nodes, ts) is Ok,
        ({
            let r = resolved(input, nodes, ts)->Ok_0;
            &&& r.key == Some(nodes[i].key)
            &&& r.name == nodes[i].name
            &&& r.connector_id == id_of_node(nodes, ts, i)
        }),
{
    lemma_no_target(ts, nodes[i].key, 0);
    law_key_resolves(input, nodes, ts, i);
    lemma_own_id(nodes, ts, i, nodes.len() as int);
}

/// A name that only one collection has resolves to that collection.
pub proof fn law_name_names_its_collection(
    input: Seq<char>,
    nodes: Seq<NodeView>,
    ts: Seq<TargetView>,
    i: int,
)
    requires
        0 <= i < nodes.len(),
        trimmed(input) == nodes[i].name,
        nodes[i].name.len() > 0,
        forall|k: int| 0 <= k < ts.len() ==> (#[trigger] ts[k]).id != nodes[i].name,
        forall|k: int| 0 <= k < nodes.len() ==> (#[trigger] nodes[k]).key != nodes[i].name,
        forall|k: int|
            0 <= k < nodes.len() && k != i ==> (#[trigger] nodes[k]).name != nodes[i].name,
    ensures
        resolved(input, nodes, ts) is Ok,
        resolved(input, nodes, ts)->Ok_0.key == Some(nodes[i].key),
        resolved(input, nodes, ts)->Ok_0.name == nodes[i].name,
{
    lemma_no_target(ts, nodes[i].name, 0);
    lemma_no_key(nodes, nodes[i].name, 0);
    law_exact_name_resolves(input, nodes, ts, i);
}

/// A reference that is no tree-view ID, no key and nobody's name is refused; so is an empty one.
pub proof fn law_unknown_reference_is_refused(
    input: Seq<char>,
    nodes: Seq<NodeView>,
    ts: Seq<TargetView>,
)
    requires
        forall|k: int|
            0 <= k < ts.len() ==> (#[trigger] ts[k]).id != trimmed(input) && ts[k].name != trimmed(
                input,
            ),
        forall|k: int|
            0 <= k < nodes.len() ==> (#[trigger] nodes[k]).key != trimmed(input) && nodes[k].name
                != trimmed(input),
    ensures
        resolved(input, nodes, ts) is Err,
{
    let wanted = trimmed(input);
    lemma_no_target(ts, wanted, 0);
    lemma_no_key(nodes, wanted, 0);
    lemma_nobody_named(nodes, wanted, nodes.len() as int);
    lemma_nothing_loose(nodes, ts, wanted, ts.len() as int);
}

proof fn lemma_no_target(ts: Seq<TargetView>, id: Seq<char>, i: int)
    requires
        0 <= i,
        forall|k: int| 0 <= k < ts.len() ==> (#[trigger] ts[k]).id != id,
    ensures
        target_with_id(ts, id, i) is None,
    decreases ts.len() - i,
{
    if i < ts.len() {
        assert(ts[i].id != id);
        lemma_no_target(ts, id, i + 1);
    }
}

proof fn lemma_no_key(nodes: Seq<NodeView>, key: Seq<char>, i: int)
    requires
        0 <= i,
        forall|k: int| 0 <= k < nodes.len() ==> (#[trigger] nodes[k]).key != key,
    ensures
        node_with_key(nodes, key, i) is None,
    decreases nodes.len() - i,
{
    if i < nodes.len() {
        assert(nodes[i].key != key);
        lemma_no_key(nodes, key, i + 1);
    }
}

proof fn lemma_nobody_named(nodes: Seq<NodeView>, name: Seq<char>, n: int)
    requires
        0 <= n <= nodes.len(),
        forall|k: int| 0 <= k < nodes.len() ==> (#[trigger] nodes[k]).name != name,
    ensures
        nodes_named(nodes, name, n).len() == 0,
    decreases n,
{
    if n > 0 {
        assert(nodes[n - 1].name != name);
        lemma_nobody_named(nodes, name, n - 1);
    }
}

proof fn lemma_nothing_loose(nodes: Seq<NodeView>, ts: Seq<TargetView>, name: Seq<char>, n: int)
    requires
        0 <= n <= ts.len(),
        forall|k: int| 0 <= k < ts.len() ==> (#[trigger] ts[k]).name != name,
    ensures
        unpaired_named(nodes, ts, name, n).len() == 0,
    decreases n,
{
    if n > 0 {
        assert(ts[n - 1].name != name);
        lemma_nothing_loose(nodes, ts, name, n - 1);
    }
}

proof fn lemma_own_id(nodes: Seq<NodeView>, ts: Seq<TargetView>, i: int, n: int)
    requires
        0 <= i < nodes.len(),
        0 <= n <= nodes.len(),
        forall|k: int| 0 <= k < nodes.len() && k != i ==> (#[trigger] nodes[k]).key != nodes[i].key,
    ensures
        id_of_key(nodes, ts, nodes[i].key, n) == if i < n {
            id_of_node(nodes, ts, i)
        } else {
            None
        },
    decreases n,
{
    if n > 0 {
        lemma_own_id(nodes, ts, i, n - 1);
        if n - 1 != i {
            assert(nodes[n - 1].key != nodes[i].key);
        }
    }
}

} // verus!
