//! Counting the items in each collection of a tree.
use crate::api::models::ZoteroItem;
use crate::collections::tree::node_views;
use crate::collections::tree::CollectionNode;
use crate::collections::tree::NodeView;
use crate::text::texts;
use vstd::hash_map::StringHashMap;
use vstd::prelude::*;

verus! {

/// The keys of the items whose collections name a collection, each once.
pub open spec fn direct_items(items: Seq<ZoteroItem>, key: Seq<char>) -> Seq<Seq<char>>
    decreases items.len(),
{
    if items.len() == 0 {
        Seq::empty()
    } else {
        let head = direct_items(items.drop_last(), key);
        let item = items.last();
        if texts(item.data.collections@).contains(key) && !head.contains(item.key@) {
            head.push(item.key@)
        } else {
            head
        }
    }
}

/// The items of each collection seen so far, by its key.
pub type ItemSets = Map<Seq<char>, Set<Seq<char>>>;

/// A set of items and the ones of some children, which are taken out of the map.
pub open spec fn gathered(own: Set<Seq<char>>, m: ItemSets, children: Seq<Seq<char>>) -> (
    Set<Seq<char>>,
    ItemSets,
)
    decreases children.len(),
{
    if children.len() == 0 {
        (own, m)
    } else {
        let (set, rest) = gathered(own, m, children.drop_last());
        let child = children.last();
        if rest.contains_key(child) {
            (set.union(rest[child]), rest.remove(child))
        } else {
            (set, rest)
        }
    }
}

/// What is gathered for one node, given what was gathered for the nodes after it.
pub open spec fn gathered_at(node: NodeView, items: Seq<ZoteroItem>, m: ItemSets) -> (
    Set<Seq<char>>,
    ItemSets,
) {
    gathered(direct_items(items, node.key).to_set(), m, node.children)
}

/// What is gathered for the nodes from `i` on, from the last one back.
pub open spec fn gathered_from(nodes: Seq<NodeView>, items: Seq<ZoteroItem>, i: int) -> ItemSets
    decreases nodes.len() - i,
{
    if i < 0 || i >= nodes.len() {
        Map::empty()
    } else {
        let (set, rest) = gathered_at(nodes[i], items, gathered_from(nodes, items, i + 1));
        rest.insert(nodes[i].key, set)
    }
}

/// The distinct items in the subtree of a node.
pub open spec fn subtree_items(nodes: Seq<NodeView>, items: Seq<ZoteroItem>, i: int) -> Set<
    Seq<char>,
> {
    gathered_at(nodes[i], items, gathered_from(nodes, items, i + 1)).0
}

/// A node with its two counts.
pub open spec fn counted(nodes: Seq<NodeView>, items: Seq<ZoteroItem>, i: int) -> NodeView {
    NodeView {
        count_direct: direct_items(items, nodes[i].key).len() as int,
        count_tree: subtree_items(nodes, items, i).len() as int,
        ..nodes[i]
    }
}

/// The sets that a map of lists stands for.
spec fn sets(m: Map<Seq<char>, Vec<String>>) -> ItemSets {
    m.map_values(|v: Vec<String>| texts(v@).to_set())
}

spec fn all_distinct(m: Map<Seq<char>, Vec<String>>) -> bool {
    forall|k: Seq<char>| #[trigger]
        m.contains_key(k) ==> texts(m[k]@).no_duplicates()
}

pub(crate) fn has_text(list: &[String], s: &String) -> (r: bool)
    ensures
        r == texts(list@).contains(s@),
{
    let ghost all = texts(list@);
    let mut i: usize = 0;
    while i < list.len()
        invariant
            i <= list.len(),
            all == texts(list@),
            forall|k: int| 0 <= k < i ==> all[k] != s@,
        decreases list.len() - i,
    {
        assert(all[i as int] == list@[i as int]@);
        if list[i] == *s {
            return true;
        }
        i += 1;
    }
    false
}

/// Adds a text to a list of distinct ones.
fn add_text(list: &mut Vec<String>, s: &String)
    requires
        texts(old(list)@).no_duplicates(),
    ensures
        texts(final(list)@).no_duplicates(),
        texts(final(list)@).to_set() == texts(old(list)@).to_set().insert(s@),
{
    let ghost before = texts(list@);
    if !has_text(list, s) {
        list.push(s.clone());
        let ghost after = texts(list@);
        assert(after =~= before.push(s@));
        assert(after.to_set() =~= before.to_set().insert(s@)) by {
            assert forall|x: Seq<char>| after.contains(x) <==> before.contains(x) || x == s@ by {
                if before.contains(x) {
                    let k = choose|k: int| 0 <= k < before.len() && before[k] == x;
                    assert(after[k] == x);
                }
                assert(after[before.len() as int] == s@);
            }
        }
    } else {
        assert(before.to_set() =~= before.to_set().insert(s@));
    }
}

/// Adds texts to a list of distinct ones.
fn add_texts(list: &mut Vec<String>, more: &[String])
    requires
        texts(old(list)@).no_duplicates(),
    ensures
        texts(final(list)@).no_duplicates(),
        texts(final(list)@).to_set() == texts(old(list)@).to_set().union(texts(more@).to_set()),
{
    let ghost before = texts(list@).to_set();
    let ghost all = texts(more@);
    let mut i: usize = 0;
    assert(before =~= before.union(all.take(0).to_set()));
    while i < more.len()
        invariant
            i <= more.len(),
            all == texts(more@),
            texts(list@).no_duplicates(),
            texts(list@).to_set() == before.union(all.take(i as int).to_set()),
        decreases more.len() - i,
    {
        add_text(list, &more[i]);
        assert(all.take(i as int + 1) =~= all.take(i as int).push(all[i as int]));
        assert(all.take(i as int + 1).to_set() =~= all.take(i as int).to_set().insert(
            all[i as int],
        )) by {
            let a = all.take(i as int + 1);
            let b = all.take(i as int);
            assert forall|x: Seq<char>| a.contains(x) <==> b.contains(x) || x == all[i as int] by {
                if b.contains(x) {
                    let k = choose|k: int| 0 <= k < b.len() && b[k] == x;
                    assert(a[k] == x);
                }
                assert(a[i as int] == all[i as int]);
            }
        }
        assert(texts(list@).to_set() =~= before.union(all.take(i as int + 1).to_set()));
        i += 1;
    }
    assert(all.take(all.len() as int) =~= all);
}

/// The keys of the items filed directly in a collection.
fn direct(items: &[ZoteroItem], key: &String) -> (r: Vec<String>)
    ensures
        texts(r@) == direct_items(items@, key@),
{
    let mut out: Vec<String> = Vec::new();
    let mut i: usize = 0;
    assert(texts(out@) =~= Seq::empty());
    while i < items.len()
        invariant
            i <= items.len(),
            texts(out@) == direct_items(items@.take(i as int), key@),
        decreases items.len() - i,
    {
        let item = &items[i];
        assert(items@.take(i as int + 1).drop_last() =~= items@.take(i as int));
        if has_text(&item.data.collections, key) && !has_text(&out, &item.key) {
            let ghost before = texts(out@);
            out.push(item.key.clone());
            assert(texts(out@) =~= before.push(item.key@));
        }
        i += 1;
    }
    assert(items@.take(items@.len() as int) =~= items@);
    out
}

/// Gathers a node's items and those of its children.
fn gather(own: &[String], found: &mut StringHashMap<Vec<String>>, children: &[String]) -> (r:
    Vec<String>)
    requires
        all_distinct(old(found)@),
    ensures
        all_distinct(final(found)@),
        texts(r@).no_duplicates(),
        (texts(r@).to_set(), sets(final(found)@)) == gathered(
            texts(own@).to_set(),
            sets(old(found)@),
            texts(children@),
        ),
{
    let mut set: Vec<String> = Vec::new();
    assert(texts(set@) =~= Seq::empty());
    assert(texts(set@).to_set() =~= Set::empty());
    add_texts(&mut set, own);
    assert(texts(set@).to_set() =~= texts(own@).to_set());
    let ghost all = texts(children@);
    let ghost start = sets(found@);
    let mut i: usize = 0;
    while i < children.len()
        invariant
            i <= children.len(),
            all == texts(children@),
            all_distinct(found@),
            texts(set@).no_duplicates(),
            (texts(set@).to_set(), sets(found@)) == gathered(
                texts(own@).to_set(),
                start,
                all.take(i as int),
            ),
        decreases children.len() - i,
    {
        assert(all.take(i as int + 1).drop_last() =~= all.take(i as int));
        assert(all.take(i as int + 1).last() == children@[i as int]@);
        let ghost now = found@;
        let there = match found.get(children[i].as_str()) {
            Some(more) => {
                add_texts(&mut set, more);
                true
            },
            None => false,
        };
        if there {
            found.remove(children[i].as_str());
            assert(sets(found@) =~= sets(now).remove(children@[i as int]@));
        }
        i += 1;
    }
    assert(all.take(all.len() as int) =~= all);
    set
}

/// Fills `count_direct` and `count_tree` on an assembled tree.
///
/// `count_direct` counts items whose `data.collections` names the collection. `count_tree` counts
/// distinct items across the subtree: summing direct counts up the tree would double-count the
/// items that belong to more than one collection. It is never below `count_direct`.
///
/// Items filed in a collection that is not in `nodes` are ignored.
pub fn roll_up_counts(nodes: &mut Vec<CollectionNode>, items: &[ZoteroItem])
    ensures
        final(nodes).len() == old(nodes).len(),
        forall|i: int|
            0 <= i < old(nodes).len() ==> (#[trigger] final(nodes)@[i])@ == counted(
                node_views(old(nodes)@),
                items@,
                i,
            ),
{
    let ghost views = node_views(nodes@);
    let n: usize = nodes.len();
    let mut found: StringHashMap<Vec<String>> = StringHashMap::new();
    assert(sets(found@) =~= Map::empty());
    let mut i: usize = n;
    while i > 0
        invariant
            i <= n,
            n == nodes.len(),
            n == views.len(),
            all_distinct(found@),
            sets(found@) == gathered_from(views, items@, i as int),
            forall|k: int| 0 <= k < i ==> (#[trigger] nodes@[k])@ == views[k],
            forall|k: int| i <= k < n ==> (#[trigger] nodes@[k])@ == counted(views, items@, k),
        decreases i,
    {
        i -= 1;
        assert(nodes@[i as int]@ == views[i as int]);
        let own = direct(items, &nodes[i].key);
        let set = gather(&own, &mut found, &nodes[i].children);
        let ghost rest = found@;
        proof {
            texts(set@).unique_seq_to_set();
        }
        let direct_count: usize = own.len();
        let tree_count: usize = set.len();
        assert(texts(own@).len() == own@.len());
        assert(texts(set@).len() == set@.len());
        found.insert(nodes[i].key.clone(), set);
        assert(sets(found@) =~= sets(rest).insert(views[i as int].key, texts(set@).to_set()));
        nodes[i].count_direct = direct_count;
        nodes[i].count_tree = tree_count;
        assert(nodes@[i as int]@ == counted(views, items@, i as int));
    }
}

} // verus!
