//! `zot collections`: listing the tree and creating a collection.
use crate::api::connector::target_views;
use crate::api::connector::SaveTarget;
use crate::api::connector::TargetView;
use crate::api::models::ZoteroCollection;
use crate::api::models::ZoteroItem;
use crate::collections::counts::counted;
use crate::collections::counts::has_text;
use crate::collections::counts::roll_up_counts;
use crate::collections::lookup::child_named;
use crate::collections::lookup::child_named_folded;
use crate::collections::lookup::find_node;
use crate::collections::lookup::node_with_key;
use crate::collections::lookup::resolve_collection_ref;
use crate::collections::lookup::resolved;
use crate::collections::lookup::sibling_named;
use crate::collections::lookup::sibling_named_ignoring_case;
use crate::collections::lookup::CollectionRef;
use crate::collections::lookup::RefView;
use crate::collections::pairing::attach_connector_ids;
use crate::collections::pairing::id_of_key;
use crate::collections::pairing::node_keys;
use crate::collections::tree::build_tree;
use crate::collections::tree::node_views;
use crate::collections::tree::tree_of;
use crate::collections::tree::CollectionNode;
use crate::collections::tree::Forest;
use crate::collections::tree::NodeView;
use crate::failure::Failure;
use crate::json::opt_str;
use crate::output::CollectionCreatedOutput;
use crate::output::CollectionOutput;
use crate::output::CollectionsOutput;
use crate::text::chars_of;
use crate::text::concat2;
use crate::text::concat3;
use crate::text::concat4;
use crate::text::concat5;
use crate::text::opt_text;
use crate::text::same_text;
use crate::text::string_of;
use crate::text::texts;
use crate::text::trim;
use crate::text::trimmed;
use vstd::prelude::*;

verus! {

/// Arguments of `zot collections`.
pub struct CollectionsArgs<'a> {
    pub collection: Option<&'a str>,
    pub create: Option<&'a str>,
    pub parent: Option<&'a str>,
    pub rm: Option<&'a str>,
    pub force: bool,
    pub flat: bool,
    pub tree_ids: bool,
    pub json: bool,
}

/// What `zot collections` is asked to do.
#[derive(Debug, Clone, Copy, PartialEq, Eq, Structural)]
pub enum CollectionsMode {
    Create,
    Delete,
    List,
}

impl<'a> CollectionsArgs<'a> {
    /// What the arguments ask for: to create comes before to delete, and to list is what is left.
    pub fn mode(&self) -> (r: CollectionsMode)
        ensures
            r == if self.create is Some {
                CollectionsMode::Create
            } else if self.rm is Some {
                CollectionsMode::Delete
            } else {
                CollectionsMode::List
            },
    {
        if self.create.is_some() {
            CollectionsMode::Create
        } else if self.rm.is_some() {
            CollectionsMode::Delete
        } else {
            CollectionsMode::List
        }
    }

    /// Whether a listing needs the connector's targets: only to name or show tree-view IDs.
    pub fn needs_targets(&self) -> (r: bool)
        ensures
            r == (self.tree_ids || self.collection is Some),
    {
        self.tree_ids || self.collection.is_some()
    }
}

/// Where the run of nodes deeper than `depth` that starts at `i` ends.
pub open spec fn run_end(nodes: Seq<NodeView>, i: int, depth: int) -> int
    decreases nodes.len() - i,
{
    if i < 0 || i >= nodes.len() || nodes[i].depth <= depth {
        i
    } else {
        run_end(nodes, i + 1, depth)
    }
}

/// The node with a key and the deeper ones that follow it; nothing where no node has the key.
pub open spec fn subtree_of(nodes: Seq<NodeView>, key: Seq<char>) -> Seq<NodeView> {
    match node_with_key(nodes, key, 0) {
        Some(i) => nodes.subrange(i, run_end(nodes, i + 1, nodes[i].depth)),
        None => Seq::empty(),
    }
}

/// The views of some borrowed nodes.
pub open spec fn ref_views(s: Seq<&CollectionNode>) -> Seq<NodeView> {
    s.map_values(|n: &CollectionNode| n@)
}

/// What the first node with a key is.
pub proof fn lemma_node_with_key(nodes: Seq<NodeView>, key: Seq<char>, i: int)
    requires
        0 <= i <= nodes.len(),
    ensures
        match node_with_key(nodes, key, i) {
            Some(j) => i <= j < nodes.len() && nodes[j].key == key,
            None => true,
        },
    decreases nodes.len() - i,
{
    if i < nodes.len() && nodes[i].key != key {
        lemma_node_with_key(nodes, key, i + 1);
    }
}

/// What the end of a run of deeper nodes is.
pub proof fn lemma_run_end(nodes: Seq<NodeView>, i: int, depth: int)
    requires
        0 <= i <= nodes.len(),
    ensures
        i <= run_end(nodes, i, depth) <= nodes.len(),
        forall|j: int| i <= j < run_end(nodes, i, depth) ==> (#[trigger] nodes[j]).depth > depth,
    decreases nodes.len() - i,
{
    if i < nodes.len() && nodes[i].depth > depth {
        lemma_run_end(nodes, i + 1, depth);
    }
}

/// The root of a subtree comes first, and everything after it is deeper.
pub proof fn lemma_subtree(nodes: Seq<NodeView>, key: Seq<char>)
    ensures
        node_with_key(nodes, key, 0) is None ==> subtree_of(nodes, key).len() == 0,
        node_with_key(nodes, key, 0) is Some ==> {
            let i = node_with_key(nodes, key, 0).unwrap();
            let s = subtree_of(nodes, key);
            &&& 0 <= i < nodes.len()
            &&& s.len() > 0
            &&& s[0] == nodes[i]
            &&& forall|j: int| 1 <= j < s.len() ==> (#[trigger] s[j]).depth > s[0].depth
        },
{
    lemma_node_with_key(nodes, key, 0);
    if let Some(i) = node_with_key(nodes, key, 0) {
        lemma_run_end(nodes, i + 1, nodes[i].depth);
        let s = subtree_of(nodes, key);
        assert forall|j: int| 1 <= j < s.len() implies (#[trigger] s[j]).depth > s[0].depth by {
            assert(s[j] == nodes[i + j]);
        }
    }
}

/// The contiguous preorder run starting at `key`: a parent comes immediately before its
/// descendants, so a subtree ends at the first node back at or above the root's depth.
pub fn subtree<'a>(nodes: &'a [CollectionNode], key: &str) -> (r: Vec<&'a CollectionNode>)
    ensures
        ref_views(r@) == subtree_of(node_views(nodes@), key@),
{
    let ghost views = node_views(nodes@);
    let mut out: Vec<&'a CollectionNode> = Vec::new();
    let start: usize = match find_node(nodes, &key.to_string()) {
        Some(i) => i,
        None => {
            assert(ref_views(out@) =~= Seq::empty());
            return out;
        },
    };
    let depth: usize = nodes[start].depth;
    assert(views[start as int] == nodes@[start as int]@);
    out.push(&nodes[start]);
    let mut i: usize = start + 1;
    assert(ref_views(out@) =~= views.subrange(start as int, i as int));
    while i < nodes.len() && nodes[i].depth > depth
        invariant
            start < i <= nodes.len(),
            views == node_views(nodes@),
            ref_views(out@) == views.subrange(start as int, i as int),
            run_end(views, start + 1, depth as int) == run_end(views, i as int, depth as int),
        decreases nodes.len() - i,
    {
        assert(views[i as int] == nodes@[i as int]@);
        let ghost before = ref_views(out@);
        out.push(&nodes[i]);
        assert(ref_views(out@) =~= before.push(views[i as int]));
        assert(ref_views(out@) =~= views.subrange(start as int, i as int + 1));
        i += 1;
    }
    if i < nodes.len() {
        assert(views[i as int] == nodes@[i as int]@);
    }
    out
}

/// Whether an item is filed in one of some collections.
pub open spec fn filed_in(item: ZoteroItem, keys: Seq<Seq<char>>) -> bool {
    exists|i: int|
        0 <= i < item.data.collections@.len() && keys.contains(
            (#[trigger] item.data.collections@[i])@,
        )
}

/// Whether every collection an item is filed in is one of some collections.
pub open spec fn filed_only_in(item: ZoteroItem, keys: Seq<Seq<char>>) -> bool {
    forall|i: int|
        0 <= i < item.data.collections@.len() ==> keys.contains(
            (#[trigger] item.data.collections@[i])@,
        )
}

/// How many items are filed in one of some collections.
pub open spec fn count_filed(items: Seq<ZoteroItem>, keys: Seq<Seq<char>>) -> nat
    decreases items.len(),
{
    if items.len() == 0 {
        0
    } else {
        count_filed(items.drop_last(), keys) + if filed_in(items.last(), keys) {
            1nat
        } else {
            0nat
        }
    }
}

/// Whether an item is filed in one of some collections, and whether in nothing else.
pub fn filing(item: &ZoteroItem, keys: &[String]) -> (r: (bool, bool))
    ensures
        r.0 == filed_in(*item, texts(keys@)),
        r.1 == filed_only_in(*item, texts(keys@)),
{
    let mut any = false;
    let mut all = true;
    let mut i: usize = 0;
    while i < item.data.collections.len()
        invariant
            i <= item.data.collections.len(),
            any == exists|k: int|
                0 <= k < i && texts(keys@).contains((#[trigger] item.data.collections@[k])@),
            all == forall|k: int|
                0 <= k < i ==> texts(keys@).contains((#[trigger] item.data.collections@[k])@),
        decreases item.data.collections.len() - i,
    {
        let ghost at = item.data.collections@[i as int];
        if has_text(keys, &item.data.collections[i]) {
            any = true;
        } else {
            assert(!texts(keys@).contains(item.data.collections@[i as int]@));
            all = false;
        }
        i += 1;
    }
    (any, all)
}

/// Counts the items filed in one of some collections.
fn count_items(items: &[ZoteroItem], keys: &[String]) -> (r: usize)
    ensures
        r == count_filed(items@, texts(keys@)),
{
    let mut n: usize = 0;
    let mut i: usize = 0;
    while i < items.len()
        invariant
            i <= items.len(),
            n <= i,
            n == count_filed(items@.take(i as int), texts(keys@)),
        decreases items.len() - i,
    {
        assert(items@.take(i as int + 1).drop_last() =~= items@.take(i as int));
        if filing(&items[i], keys).0 {
            n += 1;
        }
        i += 1;
    }
    assert(items@.take(items@.len() as int) =~= items@);
    n
}

/// The keys of some nodes.
pub fn keys_of_nodes(nodes: &[&CollectionNode]) -> (r: Vec<String>)
    ensures
        texts(r@) == node_keys(ref_views(nodes@)),
{
    let ghost want = node_keys(ref_views(nodes@));
    let mut out: Vec<String> = Vec::new();
    let mut i: usize = 0;
    while i < nodes.len()
        invariant
            i <= nodes.len(),
            want == node_keys(ref_views(nodes@)),
            texts(out@) == want.take(i as int),
        decreases nodes.len() - i,
    {
        let ghost before = texts(out@);
        out.push(nodes[i].key.clone());
        assert(texts(out@) =~= before.push(want[i as int]));
        assert(texts(out@) =~= want.take(i as int + 1));
        i += 1;
    }
    assert(texts(out@) =~= want);
    out
}

/// A row of a listing: a node, its depth counted from the top of the listing.
pub open spec fn is_row(row: CollectionOutput, node: NodeView, base: int) -> bool {
    &&& row.key@ == node.key
    &&& row.name@ == node.name
    &&& opt_text(row.parent) == node.parent
    &&& row.depth as int == node.depth - base
    &&& row.count_direct as int == node.count_direct
    &&& row.count_tree as int == node.count_tree
    &&& opt_text(row.tree_id) == node.tree_id
}

/// What a listing of some nodes holds.
pub open spec fn is_listing(
    out: CollectionsOutput,
    listed: Seq<NodeView>,
    items: Seq<ZoteroItem>,
    root: Option<Seq<char>>,
    flat: bool,
    tree_ids: bool,
) -> bool {
    &&& out.count == listed.len()
    &&& out.item_count == count_filed(items, node_keys(listed))
    &&& opt_text(out.root) == root
    &&& out.flat == flat
    &&& out.show_tree_ids == tree_ids
    &&& out.collections@.len() == listed.len()
    &&& forall|i: int|
        0 <= i < listed.len() ==> is_row(#[trigger] out.collections@[i], listed[i], listed[0].depth)
}

/// The nodes of a tree with their counts.
pub open spec fn counted_tree(cs: Seq<ZoteroCollection>, items: Seq<ZoteroItem>) -> Seq<NodeView> {
    let tree = tree_of(cs);
    Seq::new(tree.len(), |i: int| counted(tree, items, i))
}

/// Nodes with the tree-view IDs of their targets; untouched where there are no targets.
pub open spec fn with_tree_ids(nodes: Seq<NodeView>, ts: Seq<TargetView>) -> Seq<NodeView> {
    if ts.len() == 0 {
        nodes
    } else {
        Seq::new(
            nodes.len(),
            |i: int|
                NodeView {
                    tree_id: id_of_key(nodes, ts, nodes[i].key, nodes.len() as int),
                    ..nodes[i]
                },
        )
    }
}

/// The nodes that a listing chooses from.
pub open spec fn listable(
    cs: Seq<ZoteroCollection>,
    items: Seq<ZoteroItem>,
    ts: Seq<TargetView>,
    tree_ids: bool,
) -> Seq<NodeView> {
    let nodes = counted_tree(cs, items);
    if tree_ids {
        with_tree_ids(nodes, ts)
    } else {
        nodes
    }
}

/// The error for a reference that names no collection of the library.
pub open spec fn not_listable(r: RefView, wanted: Seq<char>) -> Seq<char> {
    let id = match r.connector_id {
        Some(id) => id,
        None => wanted,
    };
    if id.len() > 0 && id[0] == 'L' {
        id
            + " is the library root, not a collection.\n  Run `zot collections` with no argument for the whole tree."@
    } else {
        "Collection \""@ + r.name + "\" ("@ + id
            + ") is only known to the connector, most likely because it lives in a group library, which this command cannot list."@
    }
}

/// Whether a text starts with `L`, as the tree-view ID of a library does.
pub fn is_library_id(id: &str) -> (r: bool)
    ensures
        r == (id@.len() > 0 && id@[0] == 'L'),
{
    let chars = chars_of(id);
    chars.len() > 0 && chars[0] == 'L'
}

impl Forest {
    /// A walk starts at its first depth and never rises above it.
    pub proof fn lemma_walk_depth(self, kids: Seq<int>, depth: int, limit: nat)
        ensures
            forall|j: int|
                0 <= j < self.preorder(kids, depth, limit).len() ==> (#[trigger] self.preorder(
                    kids,
                    depth,
                    limit,
                )[j]).1 >= depth,
            self.preorder(kids, depth, limit).len() > 0 ==> self.preorder(kids, depth, limit)[0].1
                == depth,
        decreases limit, kids.len(),
    {
        if kids.len() > 0 {
            let c = kids.last();
            let head = self.preorder(kids.drop_last(), depth, limit);
            self.lemma_walk_depth(kids.drop_last(), depth, limit);
            let all = self.preorder(kids, depth, limit);
            if limit > 0 {
                let below = self.kids(Some(c));
                self.lemma_walk_depth(below, depth + 1, (limit - 1) as nat);
                let under = self.preorder(below, depth + 1, (limit - 1) as nat);
                assert forall|j: int| 0 <= j < all.len() implies (#[trigger] all[j]).1 >= depth by {
                    if j < head.len() {
                        assert(all[j] == head[j]);
                    } else if j > head.len() {
                        assert(all[j] == under[j - head.len() - 1]);
                    }
                }
            } else {
                assert forall|j: int| 0 <= j < all.len() implies (#[trigger] all[j]).1 >= depth by {
                    if j < head.len() {
                        assert(all[j] == head[j]);
                    }
                }
            }
            if head.len() > 0 {
                assert(all[0] == head[0]);
            }
        }
    }
}

/// The top of an assembled tree is at depth 0 and nothing is above it.
pub proof fn lemma_tree_depths(cs: Seq<ZoteroCollection>)
    ensures
        forall|j: int| 0 <= j < tree_of(cs).len() ==> (#[trigger] tree_of(cs)[j]).depth >= 0,
        tree_of(cs).len() > 0 ==> tree_of(cs)[0].depth == 0,
{
    let f = crate::collections::tree::forest_of(cs);
    f.lemma_walk_depth(f.kids(None), 0, f.keys.len());
    let walk = f.walk();
    assert forall|j: int| 0 <= j < tree_of(cs).len() implies (#[trigger] tree_of(cs)[j]).depth
        >= 0 by {
        assert(walk[j].1 >= 0);
    }
}

fn listing_of(
    listed: &[&CollectionNode],
    items: &[ZoteroItem],
    root: Option<String>,
    flat: bool,
    tree_ids: bool,
) -> (r: CollectionsOutput)
    requires
        forall|i: int|
            0 <= i < listed.len() ==> (#[trigger] listed@[i]).depth >= listed@[0].depth,
    ensures
        is_listing(r, ref_views(listed@), items@, opt_text(root), flat, tree_ids),
{
    let ghost views = ref_views(listed@);
    let keys = keys_of_nodes(listed);
    let item_count: usize = count_items(items, &keys);
    let mut rows: Vec<CollectionOutput> = Vec::new();
    let base: usize = if listed.len() > 0 {
        listed[0].depth
    } else {
        0
    };
    let mut i: usize = 0;
    while i < listed.len()
        invariant
            i <= listed.len(),
            views == ref_views(listed@),
            listed.len() > 0 ==> base == listed@[0].depth,
            forall|i: int|
                0 <= i < listed.len() ==> (#[trigger] listed@[i]).depth >= listed@[0].depth,
            rows.len() == i,
            forall|k: int|
                0 <= k < i ==> is_row(#[trigger] rows@[k], views[k], views[0].depth),
        decreases listed.len() - i,
    {
        let n = listed[i];
        assert(views[i as int] == n@);
        assert(listed@[i as int].depth >= listed@[0].depth);
        rows.push(
            CollectionOutput {
                key: n.key.clone(),
                name: n.name.clone(),
                parent: n.parent.clone(),
                depth: n.depth - base,
                count_direct: n.count_direct,
                count_tree: n.count_tree,
                tree_id: n.tree_id.clone(),
            },
        );
        i += 1;
    }
    CollectionsOutput {
        count: listed.len(),
        item_count,
        root,
        collections: rows,
        flat,
        show_tree_ids: tree_ids,
    }
}

/// Lists the collection tree, or the subtree that `collection` names.
///
/// Items are counted once, since an item filed in two listed collections is one item.
pub fn list_collections(
    collections: &[ZoteroCollection],
    items: &[ZoteroItem],
    targets: &[SaveTarget],
    collection: Option<&str>,
    flat: bool,
    tree_ids: bool,
) -> (r: Result<CollectionsOutput, Failure>)
    ensures
        ({
            let ts = target_views(targets@);
            let nodes = listable(collections@, items@, ts, tree_ids);
            match collection {
                None => r is Ok && is_listing(r.unwrap(), nodes, items@, None, flat, tree_ids),
                Some(wanted) => match resolved(wanted@, nodes, ts) {
                    Ok(c) => match c.key {
                        Some(key) => r is Ok && is_listing(
                            r.unwrap(),
                            subtree_of(nodes, key),
                            items@,
                            Some(key),
                            flat,
                            tree_ids,
                        ),
                        None => r is Err && r->Err_0@ == not_listable(c, wanted@),
                    },
                    Err(message) => r is Err && r->Err_0@ == message,
                },
            }
        }),
{
    let ghost ts = target_views(targets@);
    let mut nodes = build_tree(collections);
    let ghost tree = node_views(nodes@);
    roll_up_counts(&mut nodes, items);
    assert(node_views(nodes@) =~= counted_tree(collections@, items@));
    let ghost counted_nodes = nodes@;
    if tree_ids {
        attach_connector_ids(&mut nodes, targets);
        assert(node_views(nodes@) =~= with_tree_ids(node_views(counted_nodes), ts));
    }
    let ghost views = node_views(nodes@);
    assert(views =~= listable(collections@, items@, ts, tree_ids));
    match collection {
        Some(wanted) => {
            let reference = match resolve_collection_ref(wanted, &nodes, targets) {
                Ok(reference) => reference,
                Err(e) => {
                    return Err(e);
                },
            };
            match &reference.key {
                Some(key) => {
                    let listed = subtree(&nodes, key.as_str());
                    proof {
                        lemma_subtree(views, key@);
                        assert forall|i: int| 0 <= i < listed@.len() implies (
                        #[trigger] listed@[i]).depth >= listed@[0].depth by {
                            let s = subtree_of(views, key@);
                            assert(ref_views(listed@)[i] == listed@[i]@);
                            assert(ref_views(listed@)[0] == listed@[0]@);
                            if i > 0 {
                                assert(s[i].depth > s[0].depth);
                            }
                        }
                    }
                    Ok(listing_of(&listed, items, Some(key.clone()), flat, tree_ids))
                },
                None => {
                    let id = match &reference.connector_id {
                        Some(id) => id.as_str(),
                        None => wanted,
                    };
                    if is_library_id(id) {
                        return Err(
                            Failure {
                                message: concat2(
                                    id,
                                    " is the library root, not a collection.\n  Run `zot collections` with no argument for the whole tree.",
                                ),
                            },
                        );
                    }
                    Err(
                        Failure {
                            message: concat5(
                                "Collection \"",
                                reference.name.as_str(),
                                "\" (",
                                id,
                                ") is only known to the connector, most likely because it lives in a group library, which this command cannot list.",
                            ),
                        },
                    )
                },
            }
        },
        None => {
            let listed = all_nodes(&nodes);
            proof {
                lemma_tree_depths(collections@);
                assert forall|i: int| 0 <= i < listed@.len() implies (#[trigger] listed@[i]).depth
                    >= listed@[0].depth by {
                    assert(ref_views(listed@)[i] == listed@[i]@);
                    assert(ref_views(listed@)[0] == listed@[0]@);
                    assert(views[i].depth == tree_of(collections@)[i].depth);
                    assert(views[0].depth == tree_of(collections@)[0].depth);
                }
            }
            Ok(listing_of(&listed, items, None, flat, tree_ids))
        },
    }
}

fn all_nodes<'a>(nodes: &'a [CollectionNode]) -> (r: Vec<&'a CollectionNode>)
    ensures
        ref_views(r@) == node_views(nodes@),
{
    let mut out: Vec<&'a CollectionNode> = Vec::new();
    let mut i: usize = 0;
    while i < nodes.len()
        invariant
            i <= nodes.len(),
            ref_views(out@) == node_views(nodes@).take(i as int),
        decreases nodes.len() - i,
    {
        let ghost before = ref_views(out@);
        out.push(&nodes[i]);
        assert(ref_views(out@) =~= before.push(nodes@[i as int]@));
        assert(ref_views(out@) =~= node_views(nodes@).take(i as int + 1));
        i += 1;
    }
    assert(ref_views(out@) =~= node_views(nodes@));
    out
}

/// The name a collection is created under: what was typed, without surrounding whitespace.
pub fn collection_name(name: &str) -> (r: Result<String, Failure>)
    ensures
        match r {
            Ok(s) => s@ == trimmed(name@) && s@.len() > 0,
            Err(e) => trimmed(name@).len() == 0 && e@
                == "Empty collection name. Pass the name to create: --create \"Name\""@,
        },
{
    let chars = chars_of(name);
    let s = trim(chars.as_slice());
    if s.len() == 0 {
        return Err(
            Failure {
                message:
                    "Empty collection name. Pass the name to create: --create \"Name\"".to_string(),
            },
        );
    }
    Ok(string_of(s))
}

/// Where a resolved `--parent` points: a key for a collection, none for the top level of the
/// user's own library, an error for what the read API cannot address.
pub open spec fn parent_of(r: RefView) -> Result<Option<Seq<char>>, Seq<char>> {
    match (r.key, r.connector_id) {
        (Some(key), _) => Ok(Some(key)),
        (None, Some(id)) => if id == "L1"@ {
            Ok(None)
        } else if id.len() > 0 && id[0] == 'L' {
            Err(
                r.name + " ("@ + id
                    + ") is another library's root. `zot collections --create` writes to My Library only."@,
            )
        } else {
            Err(
                "Collection \""@ + r.name + "\" ("@ + id
                    + ") is only known to the connector, most likely because it lives in a group library, which this command cannot write to."@,
            )
        },
        (None, None) => Err(
            "Collection \""@ + r.name
                + "\" resolved to no key and no tree-view ID, so there is nothing to create under."@,
        ),
    }
}

/// Where a resolved `--parent` points: `Some(key)` for a collection, `None` for the top level of
/// the user's own library.
///
/// A reference the read API cannot address (a group library, or a collection in one) has to fail
/// rather than fall back to the top level, which would file the new collection somewhere the
/// caller did not ask for.
pub fn create_parent(reference: &CollectionRef) -> (r: Result<Option<String>, Failure>)
    ensures
        match r {
            Ok(key) => parent_of(reference@) == Ok::<_, Seq<char>>(opt_text(key)),
            Err(e) => parent_of(reference@) == Err::<Option<Seq<char>>, _>(e@),
        },
{
    if let Some(key) = &reference.key {
        return Ok(Some(key.clone()));
    }
    let name = reference.name.as_str();
    match &reference.connector_id {
        Some(id) => {
            if same_text(id.as_str(), "L1") {
                return Ok(None);
            }
            if is_library_id(id.as_str()) {
                return Err(
                    Failure {
                        message: concat4(
                            name,
                            " (",
                            id.as_str(),
                            ") is another library's root. `zot collections --create` writes to My Library only.",
                        ),
                    },
                );
            }
            Err(Failure { message: connector_only(name, id.as_str()) })
        },
        None => Err(
            Failure {
                message: concat3(
                    "Collection \"",
                    name,
                    "\" resolved to no key and no tree-view ID, so there is nothing to create under.",
                ),
            },
        ),
    }
}

/// The error for a collection that only the connector knows.
pub fn connector_only(name: &str, id: &str) -> (r: String)
    ensures
        r@ == "Collection \""@ + name@ + "\" ("@ + id@
            + ") is only known to the connector, most likely because it lives in a group library, which this command cannot write to."@,
{
    concat5(
        "Collection \"",
        name,
        "\" (",
        id,
        ") is only known to the connector, most likely because it lives in a group library, which this command cannot write to.",
    )
}

/// A collection about to be created.
#[derive(Debug)]
pub struct CreatePlan {
    pub name: String,
    /// Key and name of the parent; none at the top level.
    pub parent: Option<(String, String)>,
    /// What to warn about before the collection is created.
    pub warning: Option<String>,
}

/// A plan as the texts it holds.
pub struct CreatePlanView {
    pub name: Seq<char>,
    pub parent: Option<(Seq<char>, Seq<char>)>,
    pub warning: Option<Seq<char>>,
}

impl View for CreatePlan {
    type V = CreatePlanView;

    open spec fn view(&self) -> CreatePlanView {
        CreatePlanView {
            name: self.name@,
            parent: match self.parent {
                Some(p) => Some((p.0@, p.1@)),
                None => None,
            },
            warning: opt_text(self.warning),
        }
    }
}

/// The key of an optional parent.
pub open spec fn parent_key(parent: Option<(Seq<char>, Seq<char>)>) -> Option<Seq<char>> {
    match parent {
        Some(p) => Some(p.0),
        None => None,
    }
}

/// The error for a name that a sibling already has.
pub open spec fn name_taken(
    name: Seq<char>,
    parent: Option<(Seq<char>, Seq<char>)>,
    key: Seq<char>,
) -> Seq<char> {
    let under = match parent {
        Some(p) => "under \""@ + p.1 + "\""@,
        None => "at the top level"@,
    };
    "A collection named \""@ + name + "\" already exists "@ + under + ": ["@ + key
        + "]\n  A second one would make every later `zot collections \""@ + name
        + "\"` and `--add-collection \""@ + name
        + "\"` ambiguous.\n  Pick a different name, or use the existing collection by its key ["@
        + key + "]."@
}

/// The warning for a name that differs from a sibling's only by case.
pub open spec fn similar_name(name: Seq<char>, other: NodeView) -> Seq<char> {
    "Warning: sibling \""@ + other.name + "\" ["@ + other.key + "] differs from \""@ + name
        + "\" only by case."@
}

/// How a collection of this name is created below a parent.
pub open spec fn create_below(
    nodes: Seq<NodeView>,
    parent: Option<(Seq<char>, Seq<char>)>,
    name: Seq<char>,
) -> Result<CreatePlanView, Seq<char>> {
    match child_named(nodes, parent_key(parent), name, 0) {
        Some(i) => Err(name_taken(name, parent, nodes[i].key)),
        None => Ok(
            CreatePlanView {
                name,
                parent,
                warning: match child_named_folded(nodes, parent_key(parent), name, 0) {
                    Some(i) => Some(similar_name(name, nodes[i])),
                    None => None,
                },
            },
        ),
    }
}

/// How a collection is created: below what the reference names, or at the top level.
pub open spec fn create_plan(
    nodes: Seq<NodeView>,
    ts: Seq<TargetView>,
    parent_ref: Option<Seq<char>>,
    name: Seq<char>,
) -> Result<CreatePlanView, Seq<char>> {
    match parent_ref {
        Some(wanted) => match resolved(wanted, nodes, ts) {
            Ok(r) => match parent_of(r) {
                Ok(Some(key)) => create_below(nodes, Some((key, r.name)), name),
                Ok(None) => create_below(nodes, None, name),
                Err(message) => Err(message),
            },
            Err(message) => Err(message),
        },
        None => create_below(nodes, None, name),
    }
}

/// The view of a plan or its error.
pub open spec fn plan_result(r: Result<CreatePlan, Failure>) -> Result<CreatePlanView, Seq<char>> {
    match r {
        Ok(p) => Ok(p@),
        Err(e) => Err(e@),
    }
}

proof fn lemma_child_named(
    nodes: Seq<NodeView>,
    parent: Option<Seq<char>>,
    name: Seq<char>,
    i: int,
)
    requires
        0 <= i <= nodes.len(),
    ensures
        match child_named(nodes, parent, name, i) {
            Some(j) => i <= j < nodes.len(),
            None => true,
        },
        match child_named_folded(nodes, parent, name, i) {
            Some(j) => i <= j < nodes.len(),
            None => true,
        },
    decreases nodes.len() - i,
{
    if i < nodes.len() {
        lemma_child_named(nodes, parent, name, i + 1);
    }
}

fn plan_below(nodes: &[CollectionNode], parent: Option<(String, String)>, name: &str) -> (r:
    Result<CreatePlan, Failure>)
    ensures
        plan_result(r) == create_below(
            node_views(nodes@),
            match parent {
                Some(p) => Some((p.0@, p.1@)),
                None => None,
            },
            name@,
        ),
{
    let ghost views = node_views(nodes@);
    let key = match &parent {
        Some(p) => Some(p.0.as_str()),
        None => None,
    };
    proof {
        lemma_child_named(views, opt_str(key), name@, 0);
    }
    if let Some(existing) = sibling_named(nodes, key, name) {
        let under = match &parent {
            Some(p) => concat3("under \"", p.1.as_str(), "\""),
            None => "at the top level".to_string(),
        };
        let mut message = concat5(
            "A collection named \"",
            name,
            "\" already exists ",
            under.as_str(),
            ": [",
        );
        message.push_str(existing.key.as_str());
        message.push_str("]\n  A second one would make every later `zot collections \"");
        message.push_str(name);
        message.push_str("\"` and `--add-collection \"");
        message.push_str(name);
        message.push_str(
            "\"` ambiguous.\n  Pick a different name, or use the existing collection by its key [",
        );
        message.push_str(existing.key.as_str());
        message.push_str("].");
        return Err(Failure { message });
    }
    let warning = match sibling_named_ignoring_case(nodes, key, name) {
        Some(similar) => {
            let mut text = concat5(
                "Warning: sibling \"",
                similar.name.as_str(),
                "\" [",
                similar.key.as_str(),
                "] differs from \"",
            );
            text.push_str(name);
            text.push_str("\" only by case.");
            Some(text)
        },
        None => None,
    };
    Ok(CreatePlan { name: name.to_string(), parent, warning })
}

/// Plans the creation of a collection under `parent_ref` or at the top level.
///
/// Everything that can fail without writing is checked here: the parent has to resolve, and no
/// sibling may already carry the name. The check reads the local library while the write goes
/// upstream, so a sibling created seconds ago and not yet synced down is invisible to it.
pub fn plan_create(
    nodes: &[CollectionNode],
    targets: &[SaveTarget],
    parent_ref: Option<&str>,
    name: &str,
) -> (r: Result<CreatePlan, Failure>)
    ensures
        plan_result(r) == create_plan(
            node_views(nodes@),
            target_views(targets@),
            opt_str(parent_ref),
            name@,
        ),
{
    match parent_ref {
        Some(wanted) => {
            let reference = match resolve_collection_ref(wanted, nodes, targets) {
                Ok(reference) => reference,
                Err(e) => {
                    return Err(e);
                },
            };
            match create_parent(&reference) {
                Ok(Some(key)) => plan_below(nodes, Some((key, reference.name)), name),
                Ok(None) => plan_below(nodes, None, name),
                Err(e) => Err(e),
            }
        },
        None => plan_below(nodes, None, name),
    }
}

/// What is answered once a planned collection exists under a key.
pub fn created_output(plan: CreatePlan, key: String, synced_local: bool) -> (r:
    CollectionCreatedOutput)
    ensures
        r.key@ == key@,
        r.name@ == plan@.name,
        opt_text(r.parent) == parent_key(plan@.parent),
        opt_text(r.parent_name) == (match plan@.parent {
            Some(p) => Some(p.1),
            None => None,
        }),
        r.synced_local == synced_local,
{
    let (parent, parent_name) = match plan.parent {
        Some((key, name)) => (Some(key), Some(name)),
        None => (None, None),
    };
    CollectionCreatedOutput { key, name: plan.name, parent, parent_name, synced_local }
}

/// How long to wait for a change made on api.zotero.org to be synced down, in milliseconds.
pub const SYNC_POLL_TIMEOUT_MS: u64 = 20_000;

/// Gap between probes of the local library while waiting for that, in milliseconds.
pub const SYNC_POLL_INTERVAL_MS: u64 = 2_000;

/// What to do after a probe of the local library.
#[derive(Debug, Clone, Copy, PartialEq, Eq, Structural)]
pub enum PollStep {
    /// The change has arrived.
    Synced,
    /// Another wait would exceed the time allowed.
    TimedOut,
    /// Wait and probe again, saying so first where the flag is set.
    Wait(bool),
}

/// Decides what follows a probe that found the collection present or not, when it should be
/// (after a creation) or should not (after a deletion).
pub fn poll_step(present: bool, want: bool, elapsed_ms: u64) -> (r: PollStep)
    ensures
        r == if present == want {
            PollStep::Synced
        } else if elapsed_ms + SYNC_POLL_INTERVAL_MS >= SYNC_POLL_TIMEOUT_MS {
            PollStep::TimedOut
        } else {
            PollStep::Wait(elapsed_ms < SYNC_POLL_INTERVAL_MS)
        },
        present == want <==> r == PollStep::Synced,
        present != want && elapsed_ms >= 18_000 ==> r == PollStep::TimedOut,
        present != want && elapsed_ms < 18_000 ==> r == PollStep::Wait(elapsed_ms < 2_000),
{
    if present == want {
        PollStep::Synced
    } else if elapsed_ms >= SYNC_POLL_TIMEOUT_MS - SYNC_POLL_INTERVAL_MS {
        PollStep::TimedOut
    } else {
        PollStep::Wait(elapsed_ms < SYNC_POLL_INTERVAL_MS)
    }
}

/// Whether a collection with a key is among these.
pub fn has_collection(collections: &[ZoteroCollection], key: &String) -> (r: bool)
    ensures
        r == exists|i: int| 0 <= i < collections@.len() && (#[trigger] collections@[i]).key@ == key@,
{
    let mut i: usize = 0;
    while i < collections.len()
        invariant
            i <= collections.len(),
            forall|k: int| 0 <= k < i ==> (#[trigger] collections@[k]).key@ != key@,
        decreases collections.len() - i,
    {
        if collections[i].key == *key {
            return true;
        }
        i += 1;
    }
    false
}

/// The line that announces a wait.
pub fn wait_line(key: &str, want: bool) -> (r: String)
    ensures
        r@ == "Waiting for Zotero to sync the "@ + (if want {
            "add"@
        } else {
            "remove"@
        }) + " of ["@ + key@ + "] down to the local library (up to 20s)..."@,
{
    let what = if want {
        "add"
    } else {
        "remove"
    };
    concat5(
        "Waiting for Zotero to sync the ",
        what,
        " of [",
        key,
        "] down to the local library (up to 20s)...",
    )
}

/// The warning when the connector does not answer.
pub fn connector_warning(tree_ids: bool, error: &str) -> (r: String)
    ensures
        r@ == (if tree_ids {
            "Warning: connector unavailable, tree-view IDs omitted: "@
        } else {
            "Warning: connector unavailable, so tree-view IDs cannot be resolved (a key or exact name still resolves): "@
        }) + error@,
{
    if tree_ids {
        concat2("Warning: connector unavailable, tree-view IDs omitted: ", error)
    } else {
        concat2(
            "Warning: connector unavailable, so tree-view IDs cannot be resolved (a key or exact name still resolves): ",
            error,
        )
    }
}

} // verus!
