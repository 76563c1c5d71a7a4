//! Finding a collection by what a user calls it.
use crate::api::connector::target_views;
use crate::api::connector::SaveTarget;
use crate::api::connector::TargetView;
use crate::collections::pairing::id_of_key;
use crate::collections::pairing::id_of_node;
use crate::collections::pairing::key_of_id;
use crate::collections::pairing::lookup_id;
use crate::collections::pairing::lookup_key;
use crate::collections::pairing::pair_connector_ids;
use crate::collections::tree::node_views;
use crate::collections::tree::CollectionNode;
use crate::collections::tree::NodeView;
use crate::failure::Failure;
use crate::lines::join;
use crate::lines::joined;
use crate::text::chars_of;
use crate::text::concat3;
use crate::text::concat4;
use crate::text::decimal;
use crate::text::decimal_text;
use crate::text::lowercase;
use crate::text::opt_text;
use crate::text::same_text;
use crate::text::string_of;
use crate::text::texts;
use crate::text::to_lowercase;
use crate::text::trim;
use crate::text::trimmed;
use vstd::prelude::*;

verus! {

/// A resolved collection reference.
///
/// The two identifier spaces are populated independently: the connector write path needs
/// `connector_id`, the web API write path needs `key`. Either can be absent when the
/// corresponding view has no unambiguous match.
#[derive(Debug, Clone, PartialEq, Eq)]
pub struct CollectionRef {
    /// Collection key, `None` for a library root target such as `L1`.
    pub key: Option<String>,
    /// Connector tree-view ID (`L1`, `C42`).
    pub connector_id: Option<String>,
    /// Display name of the collection (or of the library, for a root target).
    pub name: String,
}

/// A collection reference as the texts it holds.
pub struct RefView {
    pub key: Option<Seq<char>>,
    pub connector_id: Option<Seq<char>>,
    pub name: Seq<char>,
}

impl View for CollectionRef {
    type V = RefView;

    open spec fn view(&self) -> RefView {
        RefView {
            key: opt_text(self.key),
            connector_id: opt_text(self.connector_id),
            name: self.name@,
        }
    }
}

/// The first target with an ID, among those from `i` on.
pub open spec fn target_with_id(ts: Seq<TargetView>, id: Seq<char>, i: int) -> Option<int>
    decreases ts.len() - i,
{
    if i < 0 || i >= ts.len() {
        None
    } else if ts[i].id == id {
        Some(i)
    } else {
        target_with_id(ts, id, i + 1)
    }
}

/// The first node with a key, among those from `i` on.
pub open spec fn node_with_key(nodes: Seq<NodeView>, key: Seq<char>, i: int) -> Option<int>
    decreases nodes.len() - i,
{
    if i < 0 || i >= nodes.len() {
        None
    } else if nodes[i].key == key {
        Some(i)
    } else {
        node_with_key(nodes, key, i + 1)
    }
}

/// The nodes with a name, among the first `n`.
pub open spec fn nodes_named(nodes: Seq<NodeView>, name: Seq<char>, n: int) -> Seq<int>
    decreases n,
{
    if n <= 0 {
        Seq::empty()
    } else if nodes[n - 1].name == name {
        nodes_named(nodes, name, n - 1).push(n - 1)
    } else {
        nodes_named(nodes, name, n - 1)
    }
}

/// The collection targets with a name that no node is paired with, among the first `n`.
pub open spec fn unpaired_named(
    nodes: Seq<NodeView>,
    ts: Seq<TargetView>,
    name: Seq<char>,
    n: int,
) -> Seq<int>
    decreases n,
{
    if n <= 0 {
        Seq::empty()
    } else {
        let head = unpaired_named(nodes, ts, name, n - 1);
        let t = ts[n - 1];
        if t.name == name && t.id.len() > 0 && t.id[0] == 'C' && key_of_id(
            nodes,
            ts,
            t.id,
            nodes.len() as int,
        ) is None {
            head.push(n - 1)
        } else {
            head
        }
    }
}

/// How a node is listed among the candidates for an ambiguous name.
pub open spec fn node_candidate(nodes: Seq<NodeView>, ts: Seq<TargetView>, i: int) -> Seq<char> {
    match id_of_key(nodes, ts, nodes[i].key, nodes.len() as int) {
        Some(id) => nodes[i].key + " ("@ + id + ")"@,
        None => nodes[i].key,
    }
}

/// How a target is listed among the candidates for an ambiguous name.
pub open spec fn target_candidate(ts: Seq<TargetView>, i: int) -> Seq<char> {
    ts[i].id + " ("@ + ts[i].name + ")"@
}

/// The reference to a node.
pub open spec fn node_ref(nodes: Seq<NodeView>, ts: Seq<TargetView>, i: int) -> RefView {
    RefView {
        key: Some(nodes[i].key),
        connector_id: id_of_key(nodes, ts, nodes[i].key, nodes.len() as int),
        name: nodes[i].name,
    }
}

/// The error for a name that several collections have.
pub open spec fn ambiguous(wanted: Seq<char>, count: nat, advice: Seq<char>, list: Seq<char>) -> Seq<
    char,
> {
    "Collection name \""@ + wanted + "\" is ambiguous ("@ + decimal(count) + " matches). Pass "@
        + advice + " instead: "@ + list
}

/// What a collection reference means: a connector tree-view ID, else a collection key, else an
/// exact name, else the name of a target without a counterpart among the nodes (a collection in a
/// group library). A name that several have is refused.
pub open spec fn resolved(input: Seq<char>, nodes: Seq<NodeView>, ts: Seq<TargetView>) -> Result<
    RefView,
    Seq<char>,
> {
    let wanted = trimmed(input);
    let named = nodes_named(nodes, wanted, nodes.len() as int);
    let loose = unpaired_named(nodes, ts, wanted, ts.len() as int);
    if wanted.len() == 0 {
        Err(
            "Empty collection reference. Pass a collection key, exact name, or tree-view ID."@,
        )
    } else if let Some(i) = target_with_id(ts, wanted, 0) {
        Ok(
            RefView {
                key: key_of_id(nodes, ts, ts[i].id, nodes.len() as int),
                connector_id: Some(ts[i].id),
                name: ts[i].name,
            },
        )
    } else if let Some(i) = node_with_key(nodes, wanted, 0) {
        Ok(node_ref(nodes, ts, i))
    } else if named.len() == 1 {
        Ok(node_ref(nodes, ts, named[0]))
    } else if named.len() > 1 {
        Err(
            ambiguous(
                wanted,
                named.len(),
                "a key or tree-view ID"@,
                joined(named.map_values(|i: int| node_candidate(nodes, ts, i)), ", "@),
            ),
        )
    } else if loose.len() == 1 {
        Ok(
            RefView {
                key: None,
                connector_id: Some(ts[loose[0]].id),
                name: ts[loose[0]].name,
            },
        )
    } else if loose.len() == 0 {
        Err(
            "Collection not found: "@ + wanted
                + "\n  Pass a collection key, exact collection name, or tree-view ID (e.g. C42)."@,
        )
    } else {
        Err(
            ambiguous(
                wanted,
                loose.len(),
                "a tree-view ID"@,
                joined(loose.map_values(|i: int| target_candidate(ts, i)), ", "@),
            ),
        )
    }
}

/// The view of a resolution.
pub open spec fn ref_result(r: Result<CollectionRef, Failure>) -> Result<RefView, Seq<char>> {
    match r {
        Ok(c) => Ok(c@),
        Err(e) => Err(e@),
    }
}

spec fn ints(v: Seq<usize>) -> Seq<int> {
    v.map_values(|i: usize| i as int)
}

fn ambiguous_error(wanted: &str, count: usize, advice: &str, list: &str) -> (r: Failure)
    ensures
        r@ == ambiguous(wanted@, count as nat, advice@, list@),
{
    let mut message = concat3("Collection name \"", wanted, "\" is ambiguous (");
    message.push_str(decimal_text(count as u64).as_str());
    message.push_str(" matches). Pass ");
    message.push_str(advice);
    message.push_str(" instead: ");
    message.push_str(list);
    Failure { message }
}

fn named_nodes(nodes: &[CollectionNode], name: &String) -> (r: Vec<usize>)
    ensures
        ints(r@) == nodes_named(node_views(nodes@), name@, nodes.len() as int),
        forall|i: int| 0 <= i < r.len() ==> (#[trigger] r@[i]) < nodes.len(),
{
    let mut out: Vec<usize> = Vec::new();
    let mut i: usize = 0;
    assert(ints(out@) =~= Seq::empty());
    while i < nodes.len()
        invariant
            i <= nodes.len(),
            ints(out@) == nodes_named(node_views(nodes@), name@, i as int),
            forall|i: int| 0 <= i < out.len() ==> (#[trigger] out@[i]) < nodes.len(),
        decreases nodes.len() - i,
    {
        assert(node_views(nodes@)[i as int] == nodes@[i as int]@);
        if nodes[i].name == *name {
            let ghost before = ints(out@);
            out.push(i);
            assert(ints(out@) =~= before.push(i as int));
        }
        i += 1;
    }
    out
}

fn unpaired_targets(
    nodes: &[CollectionNode],
    targets: &[SaveTarget],
    ids: &[Option<String>],
    name: &String,
) -> (r: Vec<usize>)
    requires
        ids.len() == nodes.len(),
        forall|i: int|
            0 <= i < ids.len() ==> opt_text(#[trigger] ids@[i]) == id_of_node(
                node_views(nodes@),
                target_views(targets@),
                i,
            ),
    ensures
        ints(r@) == unpaired_named(
            node_views(nodes@),
            target_views(targets@),
            name@,
            targets.len() as int,
        ),
        forall|i: int| 0 <= i < r.len() ==> (#[trigger] r@[i]) < targets.len(),
{
    let ghost views = node_views(nodes@);
    let ghost ts = target_views(targets@);
    let mut out: Vec<usize> = Vec::new();
    let mut i: usize = 0;
    assert(ints(out@) =~= Seq::empty());
    while i < targets.len()
        invariant
            i <= targets.len(),
            views == node_views(nodes@),
            ts == target_views(targets@),
            ids.len() == nodes.len(),
            forall|i: int|
                0 <= i < ids.len() ==> opt_text(#[trigger] ids@[i]) == id_of_node(views, ts, i),
            ints(out@) == unpaired_named(views, ts, name@, i as int),
            forall|i: int| 0 <= i < out.len() ==> (#[trigger] out@[i]) < targets.len(),
        decreases targets.len() - i,
    {
        let target = &targets[i];
        assert(ts[i as int] == target@);
        if target.name == *name {
            let id = chars_of(target.id.as_str());
            if id.len() > 0 && id[0] == 'C' && lookup_key(
                nodes,
                ids,
                &target.id,
                Ghost(ts),
            ).is_none() {
                let ghost before = ints(out@);
                out.push(i);
                assert(ints(out@) =~= before.push(i as int));
            }
        }
        i += 1;
    }
    out
}

fn node_candidates(
    nodes: &[CollectionNode],
    ids: &[Option<String>],
    at: &[usize],
    Ghost(ts): Ghost<Seq<TargetView>>,
) -> (r: String)
    requires
        ids.len() == nodes.len(),
        forall|i: int|
            0 <= i < ids.len() ==> opt_text(#[trigger] ids@[i]) == id_of_node(
                node_views(nodes@),
                ts,
                i,
            ),
        forall|i: int| 0 <= i < at.len() ==> (#[trigger] at@[i]) < nodes.len(),
    ensures
        r@ == joined(
            ints(at@).map_values(|i: int| node_candidate(node_views(nodes@), ts, i)),
            ", "@,
        ),
{
    let ghost views = node_views(nodes@);
    let ghost want = ints(at@).map_values(|i: int| node_candidate(views, ts, i));
    let mut out: Vec<String> = Vec::new();
    let mut i: usize = 0;
    while i < at.len()
        invariant
            i <= at.len(),
            views == node_views(nodes@),
            want == ints(at@).map_values(|i: int| node_candidate(views, ts, i)),
            ids.len() == nodes.len(),
            forall|i: int|
                0 <= i < ids.len() ==> opt_text(#[trigger] ids@[i]) == id_of_node(views, ts, i),
            forall|i: int| 0 <= i < at.len() ==> (#[trigger] at@[i]) < nodes.len(),
            texts(out@) == want.take(i as int),
        decreases at.len() - i,
    {
        let node = &nodes[at[i]];
        assert(views[at@[i as int] as int] == node@);
        let shown = match lookup_id(nodes, ids, &node.key, Ghost(ts)) {
            Some(id) => concat4(node.key.as_str(), " (", id.as_str(), ")"),
            None => node.key.clone(),
        };
        let ghost before = texts(out@);
        let ghost view = shown@;
        assert(view == want[i as int]);
        out.push(shown);
        assert(texts(out@) =~= before.push(view));
        assert(texts(out@) =~= want.take(i as int + 1));
        i += 1;
    }
    assert(texts(out@) =~= want);
    join(out.as_slice(), ", ")
}

fn target_candidates(targets: &[SaveTarget], at: &[usize]) -> (r: String)
    requires
        forall|i: int| 0 <= i < at.len() ==> (#[trigger] at@[i]) < targets.len(),
    ensures
        r@ == joined(
            ints(at@).map_values(|i: int| target_candidate(target_views(targets@), i)),
            ", "@,
        ),
{
    let ghost ts = target_views(targets@);
    let ghost want = ints(at@).map_values(|i: int| target_candidate(ts, i));
    let mut out: Vec<String> = Vec::new();
    let mut i: usize = 0;
    while i < at.len()
        invariant
            i <= at.len(),
            ts == target_views(targets@),
            want == ints(at@).map_values(|i: int| target_candidate(ts, i)),
            forall|i: int| 0 <= i < at.len() ==> (#[trigger] at@[i]) < targets.len(),
            texts(out@) == want.take(i as int),
        decreases at.len() - i,
    {
        let target = &targets[at[i]];
        assert(ts[at@[i as int] as int] == target@);
        let shown = concat4(target.id.as_str(), " (", target.name.as_str(), ")");
        let ghost before = texts(out@);
        let ghost view = shown@;
        assert(view == want[i as int]);
        out.push(shown);
        assert(texts(out@) =~= before.push(view));
        assert(texts(out@) =~= want.take(i as int + 1));
        i += 1;
    }
    assert(texts(out@) =~= want);
    join(out.as_slice(), ", ")
}

fn find_target(targets: &[SaveTarget], id: &String) -> (r: Option<usize>)
    ensures
        crate::text::opt_int(r) == target_with_id(target_views(targets@), id@, 0),
        r is Some ==> r.unwrap() < targets.len(),
{
    let ghost ts = target_views(targets@);
    let mut i: usize = 0;
    while i < targets.len()
        invariant
            i <= targets.len(),
            ts == target_views(targets@),
            target_with_id(ts, id@, 0) == target_with_id(ts, id@, i as int),
        decreases targets.len() - i,
    {
        assert(ts[i as int] == targets@[i as int]@);
        if targets[i].id == *id {
            return Some(i);
        }
        i += 1;
    }
    None
}

/// The position of the first node with a key.
pub fn find_node(nodes: &[CollectionNode], key: &String) -> (r: Option<usize>)
    ensures
        crate::text::opt_int(r) == node_with_key(node_views(nodes@), key@, 0),
        r is Some ==> r.unwrap() < nodes.len(),
{
    let ghost views = node_views(nodes@);
    let mut i: usize = 0;
    while i < nodes.len()
        invariant
            i <= nodes.len(),
            views == node_views(nodes@),
            node_with_key(views, key@, 0) == node_with_key(views, key@, i as int),
        decreases nodes.len() - i,
    {
        assert(views[i as int] == nodes@[i as int]@);
        if nodes[i].key == *key {
            return Some(i);
        }
        i += 1;
    }
    None
}

/// Resolves a user-supplied collection reference.
///
/// Accepts, in this order: a connector tree-view ID (`L1`, `C42`), a collection key, or an exact
/// (case-sensitive) collection name. An ambiguous name fails with the candidates listed, rather
/// than picking one.
pub fn resolve_collection_ref(
    input: &str,
    nodes: &[CollectionNode],
    targets: &[SaveTarget],
) -> (r: Result<CollectionRef, Failure>)
    ensures
        ref_result(r) == resolved(input@, node_views(nodes@), target_views(targets@)),
{
    let ghost views = node_views(nodes@);
    let ghost ts = target_views(targets@);
    let chars = chars_of(input);
    let wanted = string_of(trim(chars.as_slice()));
    if crate::text::is_empty(wanted.as_str()) {
        return Err(
            Failure {
                message:
                    "Empty collection reference. Pass a collection key, exact name, or tree-view ID.".to_string(),
            },
        );
    }
    let ids = pair_connector_ids(nodes, targets);
    if let Some(i) = find_target(targets, &wanted) {
        assert(ts[i as int] == targets@[i as int]@);
        return Ok(
            CollectionRef {
                key: lookup_key(nodes, &ids, &targets[i].id, Ghost(ts)),
                connector_id: Some(targets[i].id.clone()),
                name: targets[i].name.clone(),
            },
        );
    }
    if let Some(i) = find_node(nodes, &wanted) {
        assert(views[i as int] == nodes@[i as int]@);
        return Ok(
            CollectionRef {
                key: Some(nodes[i].key.clone()),
                connector_id: lookup_id(nodes, &ids, &nodes[i].key, Ghost(ts)),
                name: nodes[i].name.clone(),
            },
        );
    }
    let named = named_nodes(nodes, &wanted);
    let ghost named_view = nodes_named(views, wanted@, views.len() as int);
    assert(named_view.len() == named@.len());
    if named.len() == 1 {
        let node = &nodes[named[0]];
        assert(named_view[0] == named@[0] as int);
        assert(views[named@[0] as int] == node@);
        return Ok(
            CollectionRef {
                key: Some(node.key.clone()),
                connector_id: lookup_id(nodes, &ids, &node.key, Ghost(ts)),
                name: node.name.clone(),
            },
        );
    }
    if named.len() > 1 {
        let list = node_candidates(nodes, &ids, &named, Ghost(ts));
        return Err(
            ambiguous_error(
                wanted.as_str(),
                named.len(),
                "a key or tree-view ID",
                list.as_str(),
            ),
        );
    }
    let loose = unpaired_targets(nodes, targets, &ids, &wanted);
    let ghost loose_view = unpaired_named(views, ts, wanted@, ts.len() as int);
    assert(loose_view.len() == loose@.len());
    if loose.len() == 1 {
        let target = &targets[loose[0]];
        assert(loose_view[0] == loose@[0] as int);
        assert(ts[loose@[0] as int] == target@);
        return Ok(
            CollectionRef {
                key: None,
                connector_id: Some(target.id.clone()),
                name: target.name.clone(),
            },
        );
    }
    if loose.len() == 0 {
        return Err(
            Failure {
                message: concat3(
                    "Collection not found: ",
                    wanted.as_str(),
                    "\n  Pass a collection key, exact collection name, or tree-view ID (e.g. C42).",
                ),
            },
        );
    }
    let list = target_candidates(targets, &loose);
    Err(ambiguous_error(wanted.as_str(), loose.len(), "a tree-view ID", list.as_str()))
}

/// The first child of a parent with a name, among the nodes from `i` on.
pub open spec fn child_named(
    nodes: Seq<NodeView>,
    parent: Option<Seq<char>>,
    name: Seq<char>,
    i: int,
) -> Option<int>
    decreases nodes.len() - i,
{
    if i < 0 || i >= nodes.len() {
        None
    } else if nodes[i].parent == parent && nodes[i].name == name {
        Some(i)
    } else {
        child_named(nodes, parent, name, i + 1)
    }
}

/// The first child of a parent whose name differs from `name`, but only by case.
pub open spec fn child_named_folded(
    nodes: Seq<NodeView>,
    parent: Option<Seq<char>>,
    name: Seq<char>,
    i: int,
) -> Option<int>
    decreases nodes.len() - i,
{
    if i < 0 || i >= nodes.len() {
        None
    } else if nodes[i].parent == parent && nodes[i].name != name && lowercase(nodes[i].name)
        == lowercase(name) {
        Some(i)
    } else {
        child_named_folded(nodes, parent, name, i + 1)
    }
}

/// Whether a node's parent is this one.
fn has_parent(node: &CollectionNode, parent: Option<&str>) -> (r: bool)
    ensures
        r == (node@.parent == crate::json::opt_str(parent)),
{
    match (&node.parent, parent) {
        (Some(a), Some(b)) => same_text(a.as_str(), b),
        (None, None) => true,
        _ => false,
    }
}

/// The child of `parent` already carrying `name`, if there is one.
///
/// `parent` is a collection key, or `None` for the top level. The comparison is exact: two
/// siblings differing only by case stay individually addressable, two with the same name do not.
pub fn sibling_named<'a>(nodes: &'a [CollectionNode], parent: Option<&str>, name: &str) -> (r:
    Option<&'a CollectionNode>)
    ensures
        match child_named(node_views(nodes@), crate::json::opt_str(parent), name@, 0) {
            Some(i) => r == Some(&nodes@[i]),
            None => r is None,
        },
{
    let ghost views = node_views(nodes@);
    let ghost p = crate::json::opt_str(parent);
    let mut i: usize = 0;
    while i < nodes.len()
        invariant
            i <= nodes.len(),
            views == node_views(nodes@),
            p == crate::json::opt_str(parent),
            child_named(views, p, name@, 0) == child_named(views, p, name@, i as int),
        decreases nodes.len() - i,
    {
        assert(views[i as int] == nodes@[i as int]@);
        if has_parent(&nodes[i], parent) && same_text(nodes[i].name.as_str(), name) {
            return Some(&nodes[i]);
        }
        i += 1;
    }
    None
}

/// The child of `parent` whose name differs from `name` only by case.
///
/// Not a duplicate, but worth warning about: Zotero sorts siblings case-insensitively, so the two
/// land next to each other and read as one collection entered twice.
pub fn sibling_named_ignoring_case<'a>(
    nodes: &'a [CollectionNode],
    parent: Option<&str>,
    name: &str,
) -> (r: Option<&'a CollectionNode>)
    ensures
        match child_named_folded(node_views(nodes@), crate::json::opt_str(parent), name@, 0) {
            Some(i) => r == Some(&nodes@[i]),
            None => r is None,
        },
{
    let folded = to_lowercase(name);
    let ghost views = node_views(nodes@);
    let ghost p = crate::json::opt_str(parent);
    let mut i: usize = 0;
    while i < nodes.len()
        invariant
            i <= nodes.len(),
            views == node_views(nodes@),
            p == crate::json::opt_str(parent),
            folded@ == lowercase(name@),
            child_named_folded(views, p, name@, 0) == child_named_folded(
                views,
                p,
                name@,
                i as int,
            ),
        decreases nodes.len() - i,
    {
        assert(views[i as int] == nodes@[i as int]@);
        if has_parent(&nodes[i], parent) && !same_text(nodes[i].name.as_str(), name) && to_lowercase(
            nodes[i].name.as_str(),
        ) == folded {
            return Some(&nodes[i]);
        }
        i += 1;
    }
    None
}

} // verus!
