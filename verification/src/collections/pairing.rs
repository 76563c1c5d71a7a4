//! Pairing collections with the connector's save targets.
//!
//! Two independent views of the same tree exist: the collections, identified by an 8-character
//! key, and the connector's save targets, identified by a tree-view ID (`L1` for the user
//! library, `C42` for a collection). Nothing in either links the two, so they are paired by full
//! name path.
use crate::api::connector::target_views;
use crate::api::connector::SaveTarget;
use crate::api::connector::TargetView;
use crate::collections::tree::last_index;
use crate::collections::tree::lemma_last_index_is;
use crate::collections::tree::node_views;
use crate::collections::tree::CollectionNode;
use crate::collections::tree::NodeView;
use crate::lines::push_chars;
use crate::text::chars_of;
use crate::text::opt_text;
use crate::text::same_chars;
use crate::text::same_text;
use vstd::prelude::*;

verus! {

/// Connector tree-view ID of the user's own library ("My Library"). Group libraries get `L2`,
/// `L3`, and so on.
pub const LIBRARY_ROOT_ID: &'static str = "L1";

/// Where a walk over the targets stands: whether in the user's library, and below which names.
pub struct TargetWalk {
    pub inside: bool,
    pub ancestors: Seq<Seq<char>>,
}

/// The walk after one more target. A target that jumps more than one level down is passed over.
pub open spec fn walk_step(w: TargetWalk, t: TargetView) -> TargetWalk {
    if t.level <= 0 {
        TargetWalk { inside: t.id == "L1"@, ancestors: Seq::empty() }
    } else if t.level - 1 > w.ancestors.len() {
        w
    } else {
        TargetWalk { inside: w.inside, ancestors: w.ancestors.take(t.level - 1).push(t.name) }
    }
}

/// The walk over the first `n` targets.
pub open spec fn walk_to(ts: Seq<TargetView>, n: int) -> TargetWalk
    decreases n,
{
    if n <= 0 {
        TargetWalk { inside: false, ancestors: Seq::empty() }
    } else {
        walk_step(walk_to(ts, n - 1), ts[n - 1])
    }
}

/// Names, each followed by a NUL, which cannot occur in a collection name.
pub open spec fn path_prefix(names: Seq<Seq<char>>) -> Seq<char>
    decreases names.len(),
{
    if names.len() == 0 {
        Seq::empty()
    } else {
        (path_prefix(names.drop_last()) + names.last()).push('\u{0}')
    }
}

/// The full name path of a target in the user's library.
pub open spec fn target_path(ts: Seq<TargetView>, i: int) -> Option<Seq<char>> {
    let w = walk_to(ts, i);
    let t = ts[i];
    if t.level <= 0 || t.level - 1 > w.ancestors.len() || !w.inside {
        None
    } else {
        Some(path_prefix(w.ancestors.take(t.level - 1)) + t.name)
    }
}

/// The IDs of the targets with a path, among the first `n`.
pub open spec fn ids_at(ts: Seq<TargetView>, path: Seq<char>, n: int) -> Seq<Seq<char>>
    decreases n,
{
    if n <= 0 {
        Seq::empty()
    } else {
        let head = ids_at(ts, path, n - 1);
        if target_path(ts, n - 1) == Some(path) {
            head.push(ts[n - 1].id)
        } else {
            head
        }
    }
}

/// The keys of some nodes.
pub open spec fn node_keys(nodes: Seq<NodeView>) -> Seq<Seq<char>> {
    nodes.map_values(|n: NodeView| n.key)
}

/// The full name path of a node: that of its parent, where the parent comes before it, and its
/// own name.
pub open spec fn node_path(nodes: Seq<NodeView>, i: int) -> Seq<char>
    decreases i,
{
    match nodes[i].parent {
        Some(p) => {
            let j = last_index(node_keys(nodes).take(i), p);
            if 0 <= j < i {
                node_path(nodes, j).push('\u{0}') + nodes[i].name
            } else {
                nodes[i].name
            }
        },
        None => nodes[i].name,
    }
}

/// Whether another collection has the same path.
pub open spec fn path_shared(nodes: Seq<NodeView>, i: int) -> bool {
    exists|k: int|
        0 <= k < nodes.len() && (#[trigger] nodes[k]).key != nodes[i].key && node_path(nodes, k)
            == node_path(nodes, i)
}

/// The tree-view ID of a node: that of the one target with its path. A path shared by two
/// collections, or by two targets, belongs to neither.
pub open spec fn id_of_node(nodes: Seq<NodeView>, ts: Seq<TargetView>, i: int) -> Option<Seq<char>> {
    let ids = ids_at(ts, node_path(nodes, i), ts.len() as int);
    if !path_shared(nodes, i) && ids.len() == 1 {
        Some(ids[0])
    } else {
        None
    }
}

/// The tree-view ID for a key, among the first `n` nodes.
pub open spec fn id_of_key(nodes: Seq<NodeView>, ts: Seq<TargetView>, key: Seq<char>, n: int) -> Option<
    Seq<char>,
>
    decreases n,
{
    if n <= 0 {
        None
    } else if nodes[n - 1].key == key && id_of_node(nodes, ts, n - 1) is Some {
        id_of_node(nodes, ts, n - 1)
    } else {
        id_of_key(nodes, ts, key, n - 1)
    }
}

/// The key for a tree-view ID, among the first `n` nodes.
pub open spec fn key_of_id(nodes: Seq<NodeView>, ts: Seq<TargetView>, id: Seq<char>, n: int) -> Option<
    Seq<char>,
>
    decreases n,
{
    if n <= 0 {
        None
    } else if id_of_node(nodes, ts, n - 1) == Some(id) {
        Some(nodes[n - 1].key)
    } else {
        key_of_id(nodes, ts, id, n - 1)
    }
}

spec fn all_chars(v: Seq<Vec<char>>) -> Seq<Seq<char>> {
    v.map_values(|s: Vec<char>| s@)
}

spec fn opt_chars(o: Option<Vec<char>>) -> Option<Seq<char>> {
    match o {
        Some(s) => Some(s@),
        None => None,
    }
}

fn prefix_of(names: &[Vec<char>]) -> (r: Vec<char>)
    ensures
        r@ == path_prefix(all_chars(names@)),
{
    let ghost all = all_chars(names@);
    let mut out: Vec<char> = Vec::new();
    let mut i: usize = 0;
    while i < names.len()
        invariant
            i <= names.len(),
            all == all_chars(names@),
            out@ == path_prefix(all.take(i as int)),
        decreases names.len() - i,
    {
        assert(all.take(i as int + 1).drop_last() =~= all.take(i as int));
        assert(all.take(i as int + 1).last() == names@[i as int]@);
        push_chars(&mut out, names[i].as_slice());
        out.push('\u{0}');
        i += 1;
    }
    assert(all.take(all.len() as int) =~= all);
    out
}

/// The paths of the targets.
fn target_paths(targets: &[SaveTarget]) -> (r: Vec<Option<Vec<char>>>)
    ensures
        r.len() == targets.len(),
        forall|i: int|
            0 <= i < r.len() ==> opt_chars(#[trigger] r@[i]) == target_path(
                target_views(targets@),
                i,
            ),
{
    let ghost ts = target_views(targets@);
    let mut out: Vec<Option<Vec<char>>> = Vec::new();
    let mut ancestors: Vec<Vec<char>> = Vec::new();
    let mut inside = false;
    let mut i: usize = 0;
    assert(all_chars(ancestors@) =~= Seq::empty());
    while i < targets.len()
        invariant
            i <= targets.len(),
            out.len() == i,
            ts == target_views(targets@),
            walk_to(ts, i as int) == (TargetWalk { inside, ancestors: all_chars(ancestors@) }),
            forall|k: int|
                0 <= k < i ==> opt_chars(#[trigger] out@[k]) == target_path(ts, k),
        decreases targets.len() - i,
    {
        let target = &targets[i];
        assert(ts[i as int] == target@);
        if target.level == 0 {
            inside = same_text(target.id.as_str(), LIBRARY_ROOT_ID);
            ancestors = Vec::new();
            assert(all_chars(ancestors@) =~= Seq::empty());
            out.push(None);
        } else {
            let depth: u32 = target.level - 1;
            if ancestors.len() <= u32::MAX as usize && depth > ancestors.len() as u32 {
                out.push(None);
            } else {
                let ghost before = all_chars(ancestors@);
                ancestors.truncate(depth as usize);
                assert(all_chars(ancestors@) =~= before.take(depth as int));
                let name = chars_of(target.name.as_str());
                if inside {
                    let mut path = prefix_of(&ancestors);
                    push_chars(&mut path, name.as_slice());
                    out.push(Some(path));
                } else {
                    out.push(None);
                }
                ancestors.push(name);
                assert(all_chars(ancestors@) =~= before.take(depth as int).push(target.name@));
            }
        }
        i += 1;
    }
    out
}

/// The paths of the nodes.
fn node_paths(nodes: &[CollectionNode]) -> (r: Vec<Vec<char>>)
    ensures
        r.len() == nodes.len(),
        forall|i: int|
            0 <= i < r.len() ==> (#[trigger] r@[i])@ == node_path(node_views(nodes@), i),
{
    let ghost views = node_views(nodes@);
    let ghost keys = node_keys(views);
    let mut out: Vec<Vec<char>> = Vec::new();
    let mut i: usize = 0;
    while i < nodes.len()
        invariant
            i <= nodes.len(),
            out.len() == i,
            views == node_views(nodes@),
            keys == node_keys(views),
            forall|k: int| 0 <= k < i ==> (#[trigger] out@[k])@ == node_path(views, k),
        decreases nodes.len() - i,
    {
        assert(views[i as int] == nodes@[i as int]@);
        let name = chars_of(nodes[i].name.as_str());
        let path = match &nodes[i].parent {
            Some(p) => match last_with_key(nodes, i, p) {
                Some(j) => {
                    let mut path: Vec<char> = Vec::new();
                    push_chars(&mut path, out[j].as_slice());
                    assert(path@ =~= node_path(views, j as int));
                    path.push('\u{0}');
                    push_chars(&mut path, name.as_slice());
                    path
                },
                None => name,
            },
            None => name,
        };
        out.push(path);
        i += 1;
    }
    out
}

/// The last node with a key among the first `n`.
fn last_with_key(nodes: &[CollectionNode], n: usize, key: &String) -> (r: Option<usize>)
    requires
        n <= nodes.len(),
    ensures
        match r {
            Some(j) => j < n && j == last_index(node_keys(node_views(nodes@)).take(n as int), key@),
            None => last_index(node_keys(node_views(nodes@)).take(n as int), key@) == -1,
        },
{
    let ghost keys = node_keys(node_views(nodes@)).take(n as int);
    let mut j: usize = n;
    while j > 0
        invariant
            j <= n <= nodes.len(),
            keys == node_keys(node_views(nodes@)).take(n as int),
            forall|k: int| j <= k < n ==> keys[k] != key@,
        decreases j,
    {
        j -= 1;
        assert(keys[j as int] == nodes@[j as int].key@);
        if nodes[j].key == *key {
            proof {
                lemma_last_index_is(keys, key@, j as int);
            }
            return Some(j);
        }
    }
    proof {
        lemma_last_index_is(keys, key@, -1);
    }
    None
}

/// The ID of the one target with a path.
fn only_id(targets: &[SaveTarget], paths: &[Option<Vec<char>>], path: &[char]) -> (r: Option<
    String,
>)
    requires
        paths.len() == targets.len(),
        forall|i: int|
            0 <= i < paths.len() ==> opt_chars(#[trigger] paths@[i]) == target_path(
                target_views(targets@),
                i,
            ),
    ensures
        ({
            let ids = ids_at(target_views(targets@), path@, targets.len() as int);
            opt_text(r) == if ids.len() == 1 {
                Some(ids[0])
            } else {
                None
            }
        }),
{
    let ghost ts = target_views(targets@);
    let mut hits: Vec<usize> = Vec::new();
    let mut i: usize = 0;
    while i < targets.len()
        invariant
            i <= targets.len(),
            ts == target_views(targets@),
            paths.len() == targets.len(),
            forall|i: int|
                0 <= i < paths.len() ==> opt_chars(#[trigger] paths@[i]) == target_path(ts, i),
            hits.len() == ids_at(ts, path@, i as int).len(),
            forall|k: int|
                0 <= k < hits.len() ==> (#[trigger] hits@[k]) < targets.len() && ts[hits@[k] as int].id
                    == ids_at(ts, path@, i as int)[k],
        decreases targets.len() - i,
    {
        assert(opt_chars(paths@[i as int]) == target_path(ts, i as int));
        if let Some(p) = &paths[i] {
            if same_chars(p.as_slice(), path) {
                hits.push(i);
            }
        }
        i += 1;
    }
    if hits.len() == 1 {
        let at: usize = hits[0];
        assert(ts[at as int] == targets@[at as int]@);
        Some(targets[at].id.clone())
    } else {
        None
    }
}

fn shares_path(nodes: &[CollectionNode], paths: &[Vec<char>], i: usize) -> (r: bool)
    requires
        i < nodes.len(),
        paths.len() == nodes.len(),
        forall|i: int|
            0 <= i < paths.len() ==> (#[trigger] paths@[i])@ == node_path(node_views(nodes@), i),
    ensures
        r == path_shared(node_views(nodes@), i as int),
{
    let ghost views = node_views(nodes@);
    let mut k: usize = 0;
    assert(views[i as int] == nodes@[i as int]@);
    while k < nodes.len()
        invariant
            k <= nodes.len(),
            i < nodes.len(),
            views == node_views(nodes@),
            views[i as int] == nodes@[i as int]@,
            paths.len() == nodes.len(),
            forall|i: int| 0 <= i < paths.len() ==> (#[trigger] paths@[i])@ == node_path(views, i),
            forall|j: int|
                0 <= j < k ==> !((#[trigger] views[j]).key != views[i as int].key && node_path(
                    views,
                    j,
                ) == node_path(views, i as int)),
        decreases nodes.len() - k,
    {
        assert(views[k as int] == nodes@[k as int]@);
        if nodes[k].key != nodes[i].key && same_chars(paths[k].as_slice(), paths[i].as_slice()) {
            assert(views[k as int].key != views[i as int].key);
            return true;
        }
        k += 1;
    }
    false
}

/// The tree-view ID of each node.
///
/// The connector reports a flat, preorder list where `level` is the depth (0 = a library root),
/// so the ancestry of each target is recoverable. Only targets in the user's own library are
/// considered. Zotero does accept two siblings with the same name, and the pairing degrades when
/// it happens: a path shared by two collections maps to neither, so both keep their keys but lose
/// their tree-view IDs rather than one of them borrowing the other's.
pub fn pair_connector_ids(nodes: &[CollectionNode], targets: &[SaveTarget]) -> (r: Vec<
    Option<String>,
>)
    ensures
        r.len() == nodes.len(),
        forall|i: int|
            0 <= i < r.len() ==> opt_text(#[trigger] r@[i]) == id_of_node(
                node_views(nodes@),
                target_views(targets@),
                i,
            ),
{
    let ghost views = node_views(nodes@);
    let ghost ts = target_views(targets@);
    let paths = node_paths(nodes);
    let reported = target_paths(targets);
    let mut out: Vec<Option<String>> = Vec::new();
    let mut i: usize = 0;
    while i < nodes.len()
        invariant
            i <= nodes.len(),
            out.len() == i,
            views == node_views(nodes@),
            ts == target_views(targets@),
            paths.len() == nodes.len(),
            forall|i: int| 0 <= i < paths.len() ==> (#[trigger] paths@[i])@ == node_path(views, i),
            reported.len() == targets.len(),
            forall|i: int|
                0 <= i < reported.len() ==> opt_chars(#[trigger] reported@[i]) == target_path(
                    ts,
                    i,
                ),
            forall|k: int| 0 <= k < i ==> opt_text(#[trigger] out@[k]) == id_of_node(views, ts, k),
        decreases nodes.len() - i,
    {
        let id = if shares_path(nodes, &paths, i) {
            None
        } else {
            only_id(targets, &reported, paths[i].as_slice())
        };
        assert(paths@[i as int]@ == node_path(views, i as int));
        out.push(id);
        i += 1;
    }
    out
}

/// The tree-view ID for a key, given that of each node.
pub(crate) fn lookup_id(
    nodes: &[CollectionNode],
    ids: &[Option<String>],
    key: &String,
    Ghost(ts): Ghost<Seq<TargetView>>,
) -> (r: Option<String>)
    requires
        ids.len() == nodes.len(),
        forall|i: int|
            0 <= i < ids.len() ==> opt_text(#[trigger] ids@[i]) == id_of_node(
                node_views(nodes@),
                ts,
                i,
            ),
    ensures
        opt_text(r) == id_of_key(node_views(nodes@), ts, key@, nodes.len() as int),
{
    let ghost views = node_views(nodes@);
    let mut n: usize = nodes.len();
    while n > 0
        invariant
            n <= nodes.len(),
            views == node_views(nodes@),
            ids.len() == nodes.len(),
            forall|i: int|
                0 <= i < ids.len() ==> opt_text(#[trigger] ids@[i]) == id_of_node(views, ts, i),
            id_of_key(views, ts, key@, nodes.len() as int) == id_of_key(views, ts, key@, n as int),
        decreases n,
    {
        assert(views[n - 1] == nodes@[n - 1]@);
        assert(opt_text(ids@[n - 1]) == id_of_node(views, ts, n - 1));
        if nodes[n - 1].key == *key {
            if let Some(id) = &ids[n - 1] {
                return Some(id.clone());
            }
        }
        n -= 1;
    }
    None
}

/// The key for a tree-view ID, given that of each node.
pub(crate) fn lookup_key(
    nodes: &[CollectionNode],
    ids: &[Option<String>],
    id: &String,
    Ghost(ts): Ghost<Seq<TargetView>>,
) -> (r: Option<String>)
    requires
        ids.len() == nodes.len(),
        forall|i: int|
            0 <= i < ids.len() ==> opt_text(#[trigger] ids@[i]) == id_of_node(
                node_views(nodes@),
                ts,
                i,
            ),
    ensures
        opt_text(r) == key_of_id(node_views(nodes@), ts, id@, nodes.len() as int),
{
    let ghost views = node_views(nodes@);
    let mut n: usize = nodes.len();
    while n > 0
        invariant
            n <= nodes.len(),
            views == node_views(nodes@),
            ids.len() == nodes.len(),
            forall|i: int|
                0 <= i < ids.len() ==> opt_text(#[trigger] ids@[i]) == id_of_node(views, ts, i),
            key_of_id(views, ts, id@, nodes.len() as int) == key_of_id(views, ts, id@, n as int),
        decreases n,
    {
        assert(views[n - 1] == nodes@[n - 1]@);
        assert(opt_text(ids@[n - 1]) == id_of_node(views, ts, n - 1));
        if let Some(paired) = &ids[n - 1] {
            if *paired == *id {
                return Some(nodes[n - 1].key.clone());
            }
        }
        n -= 1;
    }
    None
}

/// Fills `tree_id` on an assembled tree from the connector's save targets.
///
/// A node the connector does not report has no tree-view ID, and an empty `targets` leaves every
/// node untouched.
pub fn attach_connector_ids(nodes: &mut Vec<CollectionNode>, targets: &[SaveTarget])
    ensures
        final(nodes).len() == old(nodes).len(),
        targets@.len() == 0 ==> final(nodes)@ == old(nodes)@,
        targets@.len() > 0 ==> forall|i: int|
            0 <= i < old(nodes).len() ==> (#[trigger] final(nodes)@[i])@ == (NodeView {
                tree_id: id_of_key(
                    node_views(old(nodes)@),
                    target_views(targets@),
                    old(nodes)@[i].key@,
                    old(nodes).len() as int,
                ),
                ..old(nodes)@[i]@
            }),
{
    let ghost before = nodes@;
    let ghost views = node_views(nodes@);
    let ghost ts = target_views(targets@);
    if targets.len() == 0 {
        return;
    }
    let ids = pair_connector_ids(nodes, targets);
    let mut found: Vec<Option<String>> = Vec::new();
    let n: usize = nodes.len();
    let mut i: usize = 0;
    while i < n
        invariant
            i <= n,
            n == nodes.len(),
            nodes@ == before,
            views == node_views(before),
            found.len() == i,
            ids.len() == n,
            forall|i: int|
                0 <= i < ids.len() ==> opt_text(#[trigger] ids@[i]) == id_of_node(views, ts, i),
            forall|k: int|
                0 <= k < i ==> opt_text(#[trigger] found@[k]) == id_of_key(
                    views,
                    ts,
                    before[k].key@,
                    n as int,
                ),
        decreases n - i,
    {
        let id = lookup_id(nodes, &ids, &nodes[i].key, Ghost(ts));
        found.push(id);
        i += 1;
    }
    let mut j: usize = n;
    while j > 0
        invariant
            j <= n,
            n == nodes.len(),
            n == before.len(),
            found.len() == j,
            forall|k: int|
                0 <= k < j ==> opt_text(#[trigger] found@[k]) == id_of_key(
                    views,
                    ts,
                    before[k].key@,
                    n as int,
                ),
            forall|k: int| 0 <= k < j ==> #[trigger] nodes@[k] == before[k],
            forall|k: int|
                j <= k < n ==> (#[trigger] nodes@[k])@ == (NodeView {
                    tree_id: id_of_key(views, ts, before[k].key@, n as int),
                    ..before[k]@
                }),
        decreases j,
    {
        j -= 1;
        assert(opt_text(found@[j as int]) == id_of_key(views, ts, before[j as int].key@, n as int));
        let id = found.pop().unwrap();
        assert(nodes@[j as int] == before[j as int]);
        nodes[j].tree_id = id;
    }
}

} // verus!
