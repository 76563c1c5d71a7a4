//! Which tree-view ID a collection is paired with.
use crate::api::connector::TargetView;
use crate::collections::pairing::id_of_node;
use crate::collections::pairing::ids_at;
use crate::collections::pairing::node_path;
use crate::collections::pairing::path_shared;
use crate::collections::pairing::target_path;
use crate::collections::tree::NodeView;
use vstd::prelude::*;

verus! {

proof fn lemma_ids_at(ts: Seq<TargetView>, path: Seq<char>, n: int)
    requires
        0 <= n <= ts.len(),
    ensures
        forall|k: int|
            0 <= k < ids_at(ts, path, n).len() ==> exists|j: int|
                0 <= j < n && (#[trigger] target_path(ts, j)) == Some(path) && ts[j].id
                    == #[trigger] ids_at(ts, path, n)[k],
        forall|j: int|
            0 <= j < n && (#[trigger] target_path(ts, j)) == Some(path) ==> ids_at(
                ts,
                path,
                n,
            ).contains(ts[j].id),
        (exists|a: int, b: int|
            0 <= a < b < n && (#[trigger] target_path(ts, a)) == Some(path) && (
            #[trigger] target_path(ts, b)) == Some(path)) ==> ids_at(ts, path, n).len() >= 2,
    decreases n,
{
    if n > 0 {
        lemma_ids_at(ts, path, n - 1);
        let head = ids_at(ts, path, n - 1);
        let all = ids_at(ts, path, n);
        assert forall|k: int| 0 <= k < all.len() implies exists|j: int|
            0 <= j < n && (#[trigger] target_path(ts, j)) == Some(path) && ts[j].id
                == #[trigger] all[k] by {
            if k < head.len() {
                assert(all[k] == head[k]);
                let j = choose|j: int|
                    0 <= j < n - 1 && (#[trigger] target_path(ts, j)) == Some(path) && ts[j].id
                        == head[k];
                assert(target_path(ts, j) == Some(path));
            } else {
                assert(target_path(ts, n - 1) == Some(path));
            }
        }
        assert forall|j: int| 0 <= j < n && (#[trigger] target_path(ts, j)) == Some(
            path,
        ) implies all.contains(ts[j].id) by {
            if j < n - 1 {
                assert(head.contains(ts[j].id));
                let k = choose|k: int| 0 <= k < head.len() && head[k] == ts[j].id;
                assert(all[k] == ts[j].id);
            } else {
                assert(all[all.len() - 1] == ts[j].id);
            }
        }
        if exists|a: int, b: int|
            0 <= a < b < n && (#[trigger] target_path(ts, a)) == Some(path) && (
            #[trigger] target_path(ts, b)) == Some(path) {
            let (a, b) = choose|a: int, b: int|
                0 <= a < b < n && (#[trigger] target_path(ts, a)) == Some(path) && (
                #[trigger] target_path(ts, b)) == Some(path);
            assert(head.contains(ts[a].id));
            if b < n - 1 {
                assert(head.len() >= 2);
            } else {
                assert(head.len() >= 1);
            }
        }
    }
}

/// A collection is paired with the target at its path, where that is the only target there and no
/// other collection has the path.
pub proof fn law_lone_path_is_paired(nodes: Seq<NodeView>, ts: Seq<TargetView>, i: int, j: int)
    requires
        0 <= i < nodes.len(),
        0 <= j < ts.len(),
        target_path(ts, j) == Some(node_path(nodes, i)),
        forall|k: int|
            0 <= k < ts.len() && k != j ==> (#[trigger] target_path(ts, k)) != Some(
                node_path(nodes, i),
            ),
        forall|k: int|
            0 <= k < nodes.len() && (#[trigger] nodes[k]).key != nodes[i].key ==> node_path(nodes, k)
                != node_path(nodes, i),
    ensures
        id_of_node(nodes, ts, i) == Some(ts[j].id),
{
    let path = node_path(nodes, i);
    lemma_ids_at(ts, path, ts.len() as int);
    lemma_one_id(ts, path, ts.len() as int, j);
    let ids = ids_at(ts, path, ts.len() as int);
    assert(!path_shared(nodes, i));
    assert(ids.contains(ts[j].id));
    let k = choose|k: int| 0 <= k < ids.len() && ids[k] == ts[j].id;
}

proof fn lemma_one_id(ts: Seq<TargetView>, path: Seq<char>, n: int, j: int)
    requires
        0 <= n <= ts.len(),
        forall|k: int|
            0 <= k < ts.len() && k != j ==> (#[trigger] target_path(ts, k)) != Some(path),
    ensures
        ids_at(ts, path, n).len() <= 1,
        n <= j ==> ids_at(ts, path, n).len() == 0,
    decreases n,
{
    if n > 0 {
        lemma_one_id(ts, path, n - 1, j);
        if n - 1 != j {
            assert(target_path(ts, n - 1) != Some(path));
        }
    }
}

/// An ID is that of a target at the collection's own path, and neither the path nor the target is
/// shared with another.
pub proof fn law_paired_id_is_at_the_path(nodes: Seq<NodeView>, ts: Seq<TargetView>, i: int)
    requires
        0 <= i < nodes.len(),
        id_of_node(nodes, ts, i) is Some,
    ensures
        exists|j: int|
            0 <= j < ts.len() && (#[trigger] target_path(ts, j)) == Some(node_path(nodes, i))
                && Some(ts[j].id) == id_of_node(nodes, ts, i),
        forall|k: int|
            0 <= k < nodes.len() && (#[trigger] nodes[k]).key != nodes[i].key ==> node_path(nodes, k)
                != node_path(nodes, i),
        forall|a: int, b: int|
            0 <= a < b < ts.len() && (#[trigger] target_path(ts, a)) == Some(node_path(nodes, i))
                ==> (#[trigger] target_path(ts, b)) != Some(node_path(nodes, i)),
{
    let path = node_path(nodes, i);
    lemma_ids_at(ts, path, ts.len() as int);
    let ids = ids_at(ts, path, ts.len() as int);
    assert(exists|j: int|
        0 <= j < ts.len() && (#[trigger] target_path(ts, j)) == Some(path) && ts[j].id == ids[0]);
}

/// The path of a collection is its name behind that of its parent, and at the top its name alone.
pub proof fn law_node_paths(nodes: Seq<NodeView>, i: int, j: int)
    requires
        0 <= j < i < nodes.len(),
        nodes[i].parent == Some(nodes[j].key),
        forall|k: int| j < k < i ==> (#[trigger] nodes[k]).key != nodes[j].key,
    ensures
        node_path(nodes, i) == node_path(nodes, j).push('\u{0}') + nodes[i].name,
        nodes[j].parent is None ==> node_path(nodes, j) == nodes[j].name,
{
    let keys = crate::collections::pairing::node_keys(nodes).take(i);
    assert(keys[j] == nodes[j].key);
    assert forall|k: int| j < k < keys.len() implies keys[k] != nodes[j].key by {
        assert(keys[k] == nodes[k].key);
    }
    crate::collections::tree::lemma_last_index_is(keys, nodes[j].key, j);
}

} // verus!
