//! What creating and deleting a collection decide.
use crate::api::models::ZoteroItem;
use crate::collections::lookup::child_named;
use crate::collections::lookup::child_named_folded;
use crate::collections::lookup::node_with_key;
use crate::collections::lookup::RefView;
use crate::collections::tree::NodeView;
use crate::commands::collections_cmd::count_filed;
use crate::commands::collections_cmd::create_below;
use crate::commands::collections_cmd::filed_in;
use crate::commands::collections_cmd::filed_only_in;
use crate::commands::collections_cmd::parent_of;
use crate::commands::delete_cmd::count_unfiled;
use crate::commands::delete_cmd::doomed_key;
use crate::commands::delete_cmd::reconciled;
use crate::json::JsonTree;
use crate::text::lowercase;
use vstd::prelude::*;

verus! {

/// Whether an item is filed in one of some collections.
pub open spec fn in_one_of(item: ZoteroItem, keys: Seq<Seq<char>>) -> bool {
    exists|i: int, k: int|
        0 <= i < item.data.collections@.len() && 0 <= k < keys.len() && (
        #[trigger] item.data.collections@[i])@ == #[trigger] keys[k]
}

proof fn lemma_filed_in(item: ZoteroItem, keys: Seq<Seq<char>>)
    ensures
        filed_in(item, keys) <==> in_one_of(item, keys),
{
    if filed_in(item, keys) {
        let i = choose|i: int|
            0 <= i < item.data.collections@.len() && keys.contains(
                (#[trigger] item.data.collections@[i])@,
            );
        let k = choose|k: int| 0 <= k < keys.len() && keys[k] == item.data.collections@[i]@;
        assert(item.data.collections@[i]@ == keys[k]);
    }
    if in_one_of(item, keys) {
        let (i, k) = choose|i: int, k: int|
            0 <= i < item.data.collections@.len() && 0 <= k < keys.len() && (
            #[trigger] item.data.collections@[i])@ == #[trigger] keys[k];
        assert(keys.contains(item.data.collections@[i]@));
    }
}

/// The number of items in some collections is that of the items filed in at least one of them, each
/// counted once.
pub proof fn law_filed_items_are_counted_once(items: Seq<ZoteroItem>, keys: Seq<Seq<char>>)
    ensures
        count_filed(items, keys) == items.filter(|i: ZoteroItem| in_one_of(i, keys)).len(),
    decreases items.len(),
{
    reveal(Seq::filter);
    if items.len() > 0 {
        law_filed_items_are_counted_once(items.drop_last(), keys);
        lemma_filed_in(items.last(), keys);
    }
}

/// The number of items that a deletion leaves in no collection is that of the items which are in at
/// least one of the deleted collections and in no other.
pub proof fn law_unfiled_items_are_in_no_other_collection(
    items: Seq<ZoteroItem>,
    keys: Seq<Seq<char>>,
)
    ensures
        count_unfiled(items, keys) == items.filter(
            |i: ZoteroItem|
                in_one_of(i, keys) && forall|k: int|
                    0 <= k < i.data.collections@.len() ==> keys.contains(
                        (#[trigger] i.data.collections@[k])@,
                    ),
        ).len(),
    decreases items.len(),
{
    reveal(Seq::filter);
    if items.len() > 0 {
        law_unfiled_items_are_in_no_other_collection(items.drop_last(), keys);
        lemma_filed_in(items.last(), keys);
        assert(filed_only_in(items.last(), keys) == forall|k: int|
            0 <= k < items.last().data.collections@.len() ==> keys.contains(
                (#[trigger] items.last().data.collections@[k])@,
            ));
    }
}

/// Only what has a key can be deleted, and it is deleted by that key.
pub proof fn law_deleted_by_key(r: RefView)
    ensures
        doomed_key(r) is Ok <==> r.key is Some,
        r.key is Some ==> doomed_key(r) == Ok::<Seq<char>, Seq<char>>(r.key.unwrap()),
{
}

/// A collection is not deleted unless the server has as many subcollections of it as the local tree.
pub proof fn law_deletion_needs_agreement(
    nodes: Seq<NodeView>,
    key: Seq<char>,
    name: Seq<char>,
    top: Map<Seq<char>, JsonTree>,
    meta: Map<Seq<char>, JsonTree>,
    shown: Seq<char>,
    n: u64,
    i: int,
)
    requires
        node_with_key(nodes, key, 0) == Some(i),
        top.contains_key("meta"@),
        top["meta"@] == JsonTree::Object(meta),
        meta.contains_key("numCollections"@),
        meta["numCollections"@] == JsonTree::Number(shown, Some(n)),
    ensures
        reconciled(nodes, key, name, JsonTree::Object(top)) is Ok <==> n as int
            == nodes[i].children.len(),
{
}

/// An answer that does not say how many subcollections there are stops the deletion.
pub proof fn law_deletion_needs_an_answer(
    nodes: Seq<NodeView>,
    key: Seq<char>,
    name: Seq<char>,
    answer: JsonTree,
)
    requires
        answer.member("meta"@) is None,
    ensures
        reconciled(nodes, key, name, answer) is Err,
{
}

proof fn lemma_child_named(
    nodes: Seq<NodeView>,
    parent: Option<Seq<char>>,
    name: Seq<char>,
    i: int,
)
    requires
        0 <= i,
    ensures
        match child_named(nodes, parent, name, i) {
            Some(k) => i <= k < nodes.len() && nodes[k].parent == parent && nodes[k].name == name,
            None => forall|k: int|
                i <= k < nodes.len() ==> (#[trigger] nodes[k]).parent != parent || nodes[k].name
                    != name,
        },
    decreases nodes.len() - i,
{
    if i < nodes.len() && !(nodes[i].parent == parent && nodes[i].name == name) {
        lemma_child_named(nodes, parent, name, i + 1);
    }
}

proof fn lemma_child_named_folded(
    nodes: Seq<NodeView>,
    parent: Option<Seq<char>>,
    name: Seq<char>,
    i: int,
)
    requires
        0 <= i,
    ensures
        child_named_folded(nodes, parent, name, i) is Some <==> exists|k: int|
            i <= k < nodes.len() && (#[trigger] nodes[k]).parent == parent && nodes[k].name != name
                && lowercase(nodes[k].name) == lowercase(name),
    decreases nodes.len() - i,
{
    if i < nodes.len() {
        lemma_child_named_folded(nodes, parent, name, i + 1);
        if nodes[i].parent == parent && nodes[i].name != name && lowercase(nodes[i].name)
            == lowercase(name) {
            assert(nodes[i].parent == parent);
        }
    }
}

/// A collection is created exactly where no sibling has its name, with the name and under the parent
/// that were asked for, and with a warning exactly where a sibling's name differs by case alone.
pub proof fn law_creation_needs_a_free_name(
    nodes: Seq<NodeView>,
    parent: Option<(Seq<char>, Seq<char>)>,
    name: Seq<char>,
)
    ensures
        ({
            let below = match parent {
                Some(p) => Some(p.0),
                None => None,
            };
            &&& create_below(nodes, parent, name) is Err <==> exists|k: int|
                0 <= k < nodes.len() && (#[trigger] nodes[k]).parent == below && nodes[k].name
                    == name
            &&& create_below(nodes, parent, name) is Ok ==> {
                let plan = create_below(nodes, parent, name)->Ok_0;
                &&& plan.name == name
                &&& plan.parent == parent
                &&& plan.warning is Some <==> exists|k: int|
                    0 <= k < nodes.len() && (#[trigger] nodes[k]).parent == below && nodes[k].name
                        != name && lowercase(nodes[k].name) == lowercase(name)
            }
        }),
{
    let below = match parent {
        Some(p) => Some(p.0),
        None => None,
    };
    lemma_child_named(nodes, below, name, 0);
    lemma_child_named_folded(nodes, below, name, 0);
    if let Some(k) = child_named(nodes, below, name, 0) {
        assert(nodes[k].parent == below && nodes[k].name == name);
    }
}

/// A collection can be created under a collection of the user's library and at its top level, and
/// nowhere else.
pub proof fn law_creation_parent(r: RefView)
    ensures
        r.key is Some ==> parent_of(r) == Ok::<Option<Seq<char>>, Seq<char>>(r.key),
        r.key is None && r.connector_id == Some("L1"@) ==> parent_of(r) == Ok::<
            Option<Seq<char>>,
            Seq<char>,
        >(None),
        r.key is None && r.connector_id != Some("L1"@) ==> parent_of(r) is Err,
{
}

} // verus!
