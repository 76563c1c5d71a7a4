//! Assembling collections into a tree.
use crate::api::models::ZoteroCollection;
use crate::text::at_most;
use crate::text::chars_of;
use crate::text::lowercase;
use crate::text::opt_text;
use crate::text::same_chars;
use crate::text::text_le;
use crate::text::texts;
use crate::text::to_lowercase;
use vstd::prelude::*;

verus! {

/// One collection in the assembled tree.
#[derive(Debug, Clone)]
pub struct CollectionNode {
    pub key: String,
    pub name: String,
    /// Key of the parent collection; `None` for a top-level collection (and for an orphan, whose
    /// parent key is absent from the input).
    pub parent: Option<String>,
    /// 0 for a top-level collection.
    pub depth: usize,
    /// Child keys, in the same order as they appear in the returned `Vec`.
    pub children: Vec<String>,
    /// Items filed directly in this collection.
    pub count_direct: usize,
    /// Distinct items filed anywhere in this collection's subtree. Always `>= count_direct`, and not
    /// the sum of the subtree's direct counts: an item filed in both a parent and a child is one
    /// item.
    pub count_tree: usize,
    /// `meta.numItems` as reported by the API, for cross-checking `count_direct`.
    pub meta_num_items: u32,
    /// `meta.numCollections` as reported by the API, i.e. the number of direct children Zotero
    /// knows about.
    pub meta_num_collections: u32,
    /// Connector tree-view ID (`C42`); `None` until it is attached, and for a collection the
    /// connector does not report.
    pub tree_id: Option<String>,
}

/// A collection node as the texts and numbers it holds.
pub struct NodeView {
    pub key: Seq<char>,
    pub name: Seq<char>,
    pub parent: Option<Seq<char>>,
    pub depth: int,
    pub children: Seq<Seq<char>>,
    pub count_direct: int,
    pub count_tree: int,
    pub meta_num_items: u32,
    pub meta_num_collections: u32,
    pub tree_id: Option<Seq<char>>,
}

impl View for CollectionNode {
    type V = NodeView;

    open spec fn view(&self) -> NodeView {
        NodeView {
            key: self.key@,
            name: self.name@,
            parent: opt_text(self.parent),
            depth: self.depth as int,
            children: texts(self.children@),
            count_direct: self.count_direct as int,
            count_tree: self.count_tree as int,
            meta_num_items: self.meta_num_items,
            meta_num_collections: self.meta_num_collections,
            tree_id: opt_text(self.tree_id),
        }
    }
}

/// The views of some nodes.
pub open spec fn node_views(s: Seq<CollectionNode>) -> Seq<NodeView> {
    s.map_values(|n: CollectionNode| n@)
}

/// The one of the first `n` collections with a key that comes first among its siblings: that with
/// the least lowercase name, and the earlier of two with the same name; -1 if there is none.
pub open spec fn lead_of(
    keys: Seq<Seq<char>>,
    folds: Seq<Seq<char>>,
    key: Seq<char>,
    n: int,
) -> int
    decreases n,
{
    if n <= 0 {
        -1
    } else {
        let best = lead_of(keys, folds, key, n - 1);
        if keys[n - 1] == key && (best < 0 || !text_le(folds[best], folds[n - 1])) {
            n - 1
        } else {
            best
        }
    }
}

/// Where a text last occurs in a list; -1 if it does not.
pub open spec fn last_index(keys: Seq<Seq<char>>, key: Seq<char>) -> int
    decreases keys.len(),
{
    if keys.len() == 0 {
        -1
    } else if keys.last() == key {
        keys.len() - 1
    } else {
        last_index(keys.drop_last(), key)
    }
}

/// The leading collection of a key has that key, and is there where any has it.
pub proof fn lemma_lead(keys: Seq<Seq<char>>, folds: Seq<Seq<char>>, key: Seq<char>, n: int)
    requires
        0 <= n <= keys.len(),
    ensures
        -1 <= lead_of(keys, folds, key, n) < n,
        lead_of(keys, folds, key, n) >= 0 ==> keys[lead_of(keys, folds, key, n)] == key,
        lead_of(keys, folds, key, n) < 0 ==> forall|i: int| 0 <= i < n ==> keys[i] != key,
    decreases n,
{
    if n > 0 {
        lemma_lead(keys, folds, key, n - 1);
    }
}

/// What the last place of a key is.
pub proof fn lemma_last_index(keys: Seq<Seq<char>>, key: Seq<char>)
    ensures
        -1 <= last_index(keys, key) < keys.len(),
        last_index(keys, key) >= 0 ==> keys[last_index(keys, key)] == key,
        forall|i: int| last_index(keys, key) < i < keys.len() ==> keys[i] != key,
    decreases keys.len(),
{
    if keys.len() > 0 && keys.last() != key {
        let t = keys.drop_last();
        lemma_last_index(t, key);
        assert forall|i: int| last_index(keys, key) < i < keys.len() implies keys[i] != key by {
            if i < t.len() {
                assert(keys[i] == t[i]);
            }
        }
    }
}

/// A position of a text with no later one is its last.
pub proof fn lemma_last_index_is(keys: Seq<Seq<char>>, key: Seq<char>, i: int)
    requires
        -1 <= i < keys.len(),
        forall|k: int| i < k < keys.len() ==> keys[k] != key,
        i >= 0 ==> keys[i] == key,
    ensures
        last_index(keys, key) == i,
{
    lemma_last_index(keys, key);
}

/// The keys of some collections.
pub open spec fn keys_of(cs: Seq<ZoteroCollection>) -> Seq<Seq<char>> {
    cs.map_values(|c: ZoteroCollection| c.key@)
}

/// The collection that a collection names as its parent: none where that is itself or a key that
/// is not there.
pub open spec fn link_of(cs: Seq<ZoteroCollection>, i: int) -> Option<int> {
    match cs[i].data.parent_collection {
        Some(p) => {
            let at = lead_of(keys_of(cs), folds_of(cs), p@, cs.len() as int);
            if p@ != cs[i].key@ && at >= 0 {
                Some(at)
            } else {
                None
            }
        },
        None => None,
    }
}

/// Collections by position: their keys and lowercase names, and the parent of each. Of two
/// collections with one key, the one that leads is the parent of what names that key.
pub struct Forest {
    pub keys: Seq<Seq<char>>,
    pub folds: Seq<Seq<char>>,
    pub par: Seq<Option<int>>,
}

/// The leading collection of each collection's key.
pub open spec fn leads_of(keys: Seq<Seq<char>>, folds: Seq<Seq<char>>) -> Seq<int> {
    Seq::new(keys.len(), |i: int| lead_of(keys, folds, keys[i], keys.len() as int))
}

/// The parent links as the collections state them. Of two collections with one key, the later
/// decides.
pub open spec fn raw_parents(cs: Seq<ZoteroCollection>) -> Seq<Option<int>> {
    let keys = keys_of(cs);
    Seq::new(cs.len(), |i: int| link_of(cs, last_index(keys, keys[i])))
}

/// Where a walk from `cur` towards the root comes back to a collection it has passed.
pub open spec fn loop_entry(par: Seq<Option<int>>, path: Seq<int>, cur: int) -> Option<int>
    decreases par.len() + 1 - path.len(),
{
    if path.contains(cur) {
        Some(cur)
    } else if path.len() >= par.len() {
        None
    } else {
        match par[cur] {
            Some(p) => loop_entry(par, path.push(cur), p),
            None => None,
        }
    }
}

/// The parent links with the cycle that a walk from `start` runs into cut at the point where the
/// walk came back to.
pub open spec fn cut_from(par: Seq<Option<int>>, start: int) -> Seq<Option<int>> {
    match loop_entry(par, Seq::empty(), start) {
        Some(e) => par.update(e, None),
        None => par,
    }
}

/// The parent links after walks from the first `n` collections.
pub open spec fn cut_cycles(par: Seq<Option<int>>, reps: Seq<int>, n: int) -> Seq<Option<int>>
    decreases n,
{
    if n <= 0 {
        par
    } else {
        cut_from(cut_cycles(par, reps, n - 1), reps[n - 1])
    }
}

/// The lowercase names of some collections.
pub open spec fn folds_of(cs: Seq<ZoteroCollection>) -> Seq<Seq<char>> {
    cs.map_values(|c: ZoteroCollection| lowercase(c.data.name@))
}

/// The parent links with every collection at the parent of the one that leads its key.
pub open spec fn shared_parents(par: Seq<Option<int>>, reps: Seq<int>) -> Seq<Option<int>> {
    Seq::new(reps.len(), |i: int| par[reps[i]])
}

/// What the collections say of the tree.
pub open spec fn forest_of(cs: Seq<ZoteroCollection>) -> Forest {
    let keys = keys_of(cs);
    let folds = folds_of(cs);
    let reps = leads_of(keys, folds);
    Forest {
        keys,
        folds,
        par: shared_parents(cut_cycles(raw_parents(cs), reps, cs.len() as int), reps),
    }
}

impl Forest {
    /// Positions and parents stay within the collections.
    pub open spec fn wf(self) -> bool {
        let n = self.keys.len();
        &&& self.folds.len() == n
        &&& self.par.len() == n
        &&& forall|i: int|
            0 <= i < n ==> match #[trigger] self.par[i] {
                Some(p) => 0 <= p < n,
                None => true,
            }
    }

    /// Siblings are ordered by lowercase name, then by key.
    pub open spec fn le(self, a: int, b: int) -> bool {
        if self.folds[a] == self.folds[b] {
            text_le(self.keys[a], self.keys[b])
        } else {
            text_le(self.folds[a], self.folds[b])
        }
    }

    /// Sorted siblings and one more, put after those it does not precede.
    pub open spec fn inserted(self, s: Seq<int>, c: int) -> Seq<int>
        decreases s.len(),
    {
        if s.len() == 0 || self.le(s.last(), c) {
            s.push(c)
        } else {
            self.inserted(s.drop_last(), c).push(s.last())
        }
    }

    /// The children of a parent among the first `n` collections, sorted.
    pub open spec fn kids_among(self, parent: Option<int>, n: int) -> Seq<int>
        decreases n,
    {
        if n <= 0 {
            Seq::empty()
        } else {
            let k = self.kids_among(parent, n - 1);
            if self.par[n - 1] == parent {
                self.inserted(k, n - 1)
            } else {
                k
            }
        }
    }

    /// The children of a parent, sorted; the roots for no parent.
    pub open spec fn kids(self, parent: Option<int>) -> Seq<int> {
        self.kids_among(parent, self.keys.len() as int)
    }

    /// Siblings and everything below them in preorder, down to a depth limit.
    pub open spec fn preorder(self, kids: Seq<int>, depth: int, limit: nat) -> Seq<(int, int)>
        decreases limit, kids.len(),
    {
        if kids.len() == 0 {
            Seq::empty()
        } else {
            let c = kids.last();
            let below = if limit > 0 {
                self.preorder(self.kids(Some(c)), depth + 1, (limit - 1) as nat)
            } else {
                Seq::empty()
            };
            self.preorder(kids.drop_last(), depth, limit) + seq![(c, depth)] + below
        }
    }

    /// The whole tree in preorder.
    pub open spec fn walk(self) -> Seq<(int, int)> {
        self.preorder(self.kids(None), 0, self.keys.len())
    }

    /// The keys at some positions.
    pub open spec fn keys_at(self, s: Seq<int>) -> Seq<Seq<char>> {
        s.map_values(|i: int| self.keys[i])
    }
}

/// The node for a collection at a depth.
pub open spec fn node_of(cs: Seq<ZoteroCollection>, f: Forest, i: int, depth: int) -> NodeView {
    NodeView {
        key: cs[i].key@,
        name: cs[i].data.name@,
        parent: match f.par[i] {
            Some(p) => Some(f.keys[p]),
            None => None,
        },
        depth,
        children: f.keys_at(f.kids(Some(i))),
        count_direct: 0,
        count_tree: 0,
        meta_num_items: cs[i].meta.num_items,
        meta_num_collections: cs[i].meta.num_collections,
        tree_id: None,
    }
}

/// The assembled tree.
pub open spec fn tree_of(cs: Seq<ZoteroCollection>) -> Seq<NodeView> {
    let f = forest_of(cs);
    f.walk().map_values(|p: (int, int)| node_of(cs, f, p.0, p.1))
}

/// Collections by position, as they are worked on.
struct Links {
    keys: Vec<Vec<char>>,
    folds: Vec<Vec<char>>,
    par: Vec<Option<usize>>,
}

spec fn all_chars(v: Seq<Vec<char>>) -> Seq<Seq<char>> {
    v.map_values(|s: Vec<char>| s@)
}

spec fn all_ints(v: Seq<usize>) -> Seq<int> {
    v.map_values(|i: usize| i as int)
}

spec fn all_links(v: Seq<Option<usize>>) -> Seq<Option<int>> {
    v.map_values(|o: Option<usize>| crate::text::opt_int(o))
}

impl View for Links {
    type V = Forest;

    closed spec fn view(&self) -> Forest {
        Forest {
            keys: all_chars(self.keys@),
            folds: all_chars(self.folds@),
            par: all_links(self.par@),
        }
    }
}

fn lead_position(keys: &[Vec<char>], folds: &[Vec<char>], key: &[char]) -> (r: Option<usize>)
    requires
        folds.len() == keys.len(),
    ensures
        match r {
            Some(i) => i < keys.len() && i == lead_of(
                all_chars(keys@),
                all_chars(folds@),
                key@,
                keys.len() as int,
            ),
            None => lead_of(all_chars(keys@), all_chars(folds@), key@, keys.len() as int) < 0,
        },
{
    let ghost all = all_chars(keys@);
    let ghost names = all_chars(folds@);
    let mut best: Option<usize> = None;
    let mut i: usize = 0;
    while i < keys.len()
        invariant
            i <= keys.len(),
            folds.len() == keys.len(),
            all == all_chars(keys@),
            names == all_chars(folds@),
            match best {
                Some(b) => b < i && b == lead_of(all, names, key@, i as int),
                None => lead_of(all, names, key@, i as int) < 0,
            },
        decreases keys.len() - i,
    {
        assert(all[i as int] == keys@[i as int]@);
        assert(names[i as int] == folds@[i as int]@);
        if same_chars(keys[i].as_slice(), key) {
            let kept = match best {
                Some(b) => {
                    assert(names[b as int] == folds@[b as int]@);
                    at_most(folds[b].as_slice(), folds[i].as_slice())
                },
                None => false,
            };
            if !kept {
                best = Some(i);
            }
        }
        i += 1;
    }
    best
}

/// The last position of a key that is there.
fn last_position(keys: &[Vec<char>], at: usize) -> (r: usize)
    requires
        at < keys.len(),
    ensures
        r == last_index(all_chars(keys@), keys@[at as int]@),
        at <= r < keys.len(),
{
    let ghost all = all_chars(keys@);
    let mut i: usize = keys.len() - 1;
    while i > at
        invariant
            at <= i < keys.len(),
            all == all_chars(keys@),
            forall|k: int| i < k < keys.len() ==> all[k] != keys@[at as int]@,
        decreases i,
    {
        assert(all[i as int] == keys@[i as int]@);
        if same_chars(keys[i].as_slice(), keys[at].as_slice()) {
            proof {
                lemma_last_index_is(all, keys@[at as int]@, i as int);
            }
            return i;
        }
        i -= 1;
    }
    proof {
        lemma_last_index_is(all, keys@[at as int]@, i as int);
    }
    i
}

/// A list of positions that holds no position twice is no longer than the range they are from.
pub proof fn lemma_pigeonhole(path: Seq<int>, n: nat)
    requires
        path.no_duplicates(),
        forall|i: int| 0 <= i < path.len() ==> 0 <= #[trigger] path[i] < n,
    ensures
        path.len() <= n,
{
    path.unique_seq_to_set();
    vstd::set_lib::lemma_int_range(0, n as int);
    vstd::set_lib::lemma_len_subset(path.to_set(), vstd::set_lib::set_int_range(0, n as int));
}

fn has_position(path: &[usize], at: usize) -> (r: bool)
    ensures
        r == all_ints(path@).contains(at as int),
{
    let ghost all = all_ints(path@);
    let mut i: usize = 0;
    while i < path.len()
        invariant
            i <= path.len(),
            all == all_ints(path@),
            forall|k: int| 0 <= k < i ==> all[k] != at as int,
        decreases path.len() - i,
    {
        assert(all[i as int] == path@[i as int] as int);
        if path[i] == at {
            return true;
        }
        i += 1;
    }
    false
}

/// Parents stay within the collections.
pub open spec fn links_wf(par: Seq<Option<int>>) -> bool {
    forall|i: int|
        0 <= i < par.len() ==> match #[trigger] par[i] {
            Some(p) => 0 <= p < par.len(),
            None => true,
        }
}

/// Follows the parents from `start` and cuts the cycle it runs into, if there is one.
fn break_cycle_from(par: &mut Vec<Option<usize>>, start: usize)
    requires
        start < old(par).len(),
        links_wf(all_links(old(par)@)),
    ensures
        all_links(final(par)@) == cut_from(all_links(old(par)@), start as int),
        links_wf(all_links(final(par)@)),
        final(par).len() == old(par).len(),
{
    let ghost links = all_links(par@);
    let mut path: Vec<usize> = Vec::new();
    let mut cursor: usize = start;
    assert(all_ints(path@) =~= Seq::empty());
    loop
        invariant
            links == all_links(par@),
            links == all_links(old(par)@),
            links_wf(links),
            cursor < par.len(),
            path.len() <= par.len(),
            loop_entry(links, Seq::empty(), start as int) == loop_entry(
                links,
                all_ints(path@),
                cursor as int,
            ),
            all_ints(path@).no_duplicates(),
            forall|i: int| 0 <= i < path.len() ==> (#[trigger] path@[i]) < par.len(),
        decreases par.len() - path.len(),
    {
        let ghost passed = all_ints(path@);
        if has_position(&path, cursor) {
            par.set(cursor, None);
            assert(all_links(par@) =~= links.update(cursor as int, None));
            return;
        }
        proof {
            assert forall|i: int| 0 <= i < passed.push(cursor as int).len() implies 0
                <= #[trigger] passed.push(cursor as int)[i] < par@.len() by {
                if i < passed.len() {
                    assert(passed[i] == path@[i] as int);
                }
            }
            lemma_pigeonhole(passed.push(cursor as int), par@.len());
        }
        path.push(cursor);
        assert(all_ints(path@) =~= passed.push(cursor as int));
        assert(links[cursor as int] == crate::text::opt_int(par@[cursor as int]));
        match par[cursor] {
            Some(parent) => {
                cursor = parent;
            },
            None => {
                return;
            },
        }
    }
}

/// Promotes a collection to a root when its ancestor chain loops, so that no collection is
/// dropped.
fn break_parent_cycles(par: &mut Vec<Option<usize>>, reps: &[usize])
    requires
        reps.len() == old(par).len(),
        links_wf(all_links(old(par)@)),
        forall|i: int| 0 <= i < reps.len() ==> (#[trigger] reps@[i]) < reps.len(),
    ensures
        all_links(final(par)@) == cut_cycles(
            all_links(old(par)@),
            all_ints(reps@),
            reps.len() as int,
        ),
        links_wf(all_links(final(par)@)),
        final(par).len() == old(par).len(),
{
    let ghost before = all_links(par@);
    let mut i: usize = 0;
    while i < reps.len()
        invariant
            i <= reps.len(),
            reps.len() == par.len(),
            links_wf(all_links(par@)),
            forall|i: int| 0 <= i < reps.len() ==> (#[trigger] reps@[i]) < reps.len(),
            all_links(par@) == cut_cycles(before, all_ints(reps@), i as int),
        decreases reps.len() - i,
    {
        break_cycle_from(par, reps[i]);
        assert(all_ints(reps@)[i as int] == reps@[i as int] as int);
        i += 1;
    }
}

impl Links {
    spec fn wf(&self) -> bool {
        self@.wf()
    }

    fn at_most(&self, a: usize, b: usize) -> (r: bool)
        requires
            self.wf(),
            a < self.keys.len(),
            b < self.keys.len(),
        ensures
            r == self@.le(a as int, b as int),
    {
        assert(self@.folds[a as int] == self.folds@[a as int]@);
        assert(self@.folds[b as int] == self.folds@[b as int]@);
        if same_chars(self.folds[a].as_slice(), self.folds[b].as_slice()) {
            at_most(self.keys[a].as_slice(), self.keys[b].as_slice())
        } else {
            at_most(self.folds[a].as_slice(), self.folds[b].as_slice())
        }
    }

    /// Puts a position among sorted siblings.
    fn insert(&self, s: &mut Vec<usize>, c: usize)
        requires
            self.wf(),
            c < self.keys.len(),
            forall|i: int| 0 <= i < old(s).len() ==> (#[trigger] old(s)@[i]) < self.keys.len(),
        ensures
            all_ints(final(s)@) == self@.inserted(all_ints(old(s)@), c as int),
            forall|i: int| 0 <= i < final(s).len() ==> (#[trigger] final(s)@[i]) < self.keys.len(),
        decreases old(s).len(),
    {
        let ghost before = all_ints(s@);
        if s.len() == 0 || self.at_most(s[s.len() - 1], c) {
            s.push(c);
            assert(all_ints(s@) =~= before.push(c as int));
        } else {
            let ghost whole = s@;
            let last: usize = s.pop().unwrap();
            assert(all_ints(s@) =~= before.drop_last());
            self.insert(s, c);
            let ghost head = all_ints(s@);
            s.push(last);
            assert(all_ints(s@) =~= head.push(last as int));
        }
    }

    fn kids(&self, parent: Option<usize>) -> (r: Vec<usize>)
        requires
            self.wf(),
        ensures
            all_ints(r@) == self@.kids(crate::text::opt_int(parent)),
            forall|i: int| 0 <= i < r.len() ==> (#[trigger] r@[i]) < self.keys.len(),
    {
        let mut out: Vec<usize> = Vec::new();
        let mut i: usize = 0;
        let n: usize = self.keys.len();
        assert(all_ints(out@) =~= Seq::empty());
        while i < n
            invariant
                i <= n,
                n == self.keys.len(),
                self.wf(),
                all_ints(out@) == self@.kids_among(crate::text::opt_int(parent), i as int),
                forall|k: int| 0 <= k < out.len() ==> (#[trigger] out@[k]) < self.keys.len(),
            decreases n - i,
        {
            assert(self@.par[i as int] == crate::text::opt_int(self.par@[i as int]));
            let same = match (self.par[i], parent) {
                (Some(a), Some(b)) => a == b,
                (None, None) => true,
                _ => false,
            };
            assert(same == (self@.par[i as int] == crate::text::opt_int(parent)));
            if same {
                self.insert(&mut out, i);
            }
            i += 1;
        }
        out
    }

    /// Appends siblings and everything below them in preorder.
    fn visit(&self, kids: &[usize], depth: usize, limit: usize, out: &mut Vec<(usize, usize)>)
        requires
            self.wf(),
            depth + limit <= usize::MAX,
            forall|i: int| 0 <= i < kids.len() ==> (#[trigger] kids@[i]) < self.keys.len(),
            forall|i: int| 0 <= i < old(out).len() ==> (#[trigger] old(out)@[i]).0 < self.keys.len(),
        ensures
            steps(final(out)@) == steps(old(out)@) + self@.preorder(
                all_ints(kids@),
                depth as int,
                limit as nat,
            ),
            forall|i: int| 0 <= i < final(out).len() ==> (#[trigger] final(out)@[i]).0 < self.keys.len(),
        decreases limit,
    {
        let ghost all = all_ints(kids@);
        let ghost before = steps(out@);
        let mut i: usize = 0;
        assert(all.take(0) =~= Seq::empty());
        assert(before + self@.preorder(all.take(0), depth as int, limit as nat) =~= before);
        while i < kids.len()
            invariant
                i <= kids.len(),
                all == all_ints(kids@),
                self.wf(),
                depth + limit <= usize::MAX,
                forall|i: int| 0 <= i < kids.len() ==> (#[trigger] kids@[i]) < self.keys.len(),
                forall|i: int| 0 <= i < out.len() ==> (#[trigger] out@[i]).0 < self.keys.len(),
                steps(out@) == before + self@.preorder(
                    all.take(i as int),
                    depth as int,
                    limit as nat,
                ),
            decreases kids.len() - i,
        {
            let c: usize = kids[i];
            assert(all.take(i as int + 1).drop_last() =~= all.take(i as int));
            assert(all.take(i as int + 1).last() == c as int);
            let ghost now = steps(out@);
            out.push((c, depth));
            assert(steps(out@) =~= now + seq![(c as int, depth as int)]);
            if limit > 0 {
                let below = self.kids(Some(c));
                self.visit(&below, depth + 1, limit - 1, out);
            }
            assert(steps(out@) =~= before + self@.preorder(
                all.take(i as int + 1),
                depth as int,
                limit as nat,
            ));
            i += 1;
        }
        assert(all.take(all.len() as int) =~= all);
    }

    fn key_texts(&self, cs: &[ZoteroCollection], at: &[usize]) -> (r: Vec<String>)
        requires
            self.wf(),
            self@.keys == keys_of(cs@),
            forall|i: int| 0 <= i < at.len() ==> (#[trigger] at@[i]) < self.keys.len(),
        ensures
            texts(r@) == self@.keys_at(all_ints(at@)),
    {
        let ghost want = self@.keys_at(all_ints(at@));
        let mut out: Vec<String> = Vec::new();
        let mut i: usize = 0;
        while i < at.len()
            invariant
                i <= at.len(),
                self.wf(),
                self@.keys == keys_of(cs@),
                forall|i: int| 0 <= i < at.len() ==> (#[trigger] at@[i]) < self.keys.len(),
                want == self@.keys_at(all_ints(at@)),
                texts(out@) == want.take(i as int),
            decreases at.len() - i,
        {
            let ghost before = texts(out@);
            let c: usize = at[i];
            assert(c < self@.keys.len());
            assert(want[i as int] == cs@[c as int].key@);
            out.push(cs[c].key.clone());
            assert(texts(out@) =~= before.push(want[i as int]));
            assert(texts(out@) =~= want.take(i as int + 1));
            i += 1;
        }
        assert(texts(out@) =~= want);
        out
    }
}

/// Assembles collections into a tree.
///
/// Returns every input collection exactly once, in depth-first preorder with siblings sorted
/// case-insensitively by name (ties broken by key), which is the order Zotero itself displays.
/// Preorder means a parent always precedes its descendants, and the reverse of the returned list
/// is a valid postorder.
///
/// A collection whose parent is not in the input (an orphan, e.g. when the parent lives in
/// another library, or the list was filtered) is promoted to a root and sorted among the real
/// roots, so nothing is ever silently dropped. Parent cycles, which the API should never produce,
/// are broken at the cycle entry point for the same reason. Should two collections share a key, the
/// one that comes first among its siblings has the children, and the later of the input decides on
/// the parent of both.
pub fn build_tree(collections: &[ZoteroCollection]) -> (r: Vec<CollectionNode>)
    ensures
        node_views(r@) == tree_of(collections@),
{
    let links = links_of(collections);
    let roots = links.kids(None);
    let n: usize = collections.len();
    let mut walk: Vec<(usize, usize)> = Vec::new();
    assert(steps(walk@) =~= Seq::empty());
    links.visit(&roots, 0, n, &mut walk);
    assert(steps(walk@) =~= links@.walk());
    let ghost want = tree_of(collections@);
    let mut out: Vec<CollectionNode> = Vec::new();
    let mut i: usize = 0;
    assert(node_views(out@) =~= want.take(0));
    while i < walk.len()
        invariant
            i <= walk.len(),
            links.wf(),
            links@ == forest_of(collections@),
            links.keys.len() == collections.len(),
            steps(walk@) == links@.walk(),
            want == tree_of(collections@),
            forall|k: int| 0 <= k < walk.len() ==> (#[trigger] walk@[k]).0 < links.keys.len(),
            node_views(out@) == want.take(i as int),
        decreases walk.len() - i,
    {
        let (c, depth) = walk[i];
        assert(steps(walk@)[i as int] == (c as int, depth as int));
        assert(links@.par[c as int] == crate::text::opt_int(links.par@[c as int]));
        let parent = match links.par[c] {
            Some(p) => {
                assert(0 <= links@.par[c as int].unwrap() < links@.keys.len());
                assert(links@.keys[p as int] == collections@[p as int].key@);
                Some(collections[p].key.clone())
            },
            None => None,
        };
        let kids = links.kids(Some(c));
        let children = links.key_texts(collections, &kids);
        let collection = &collections[c];
        let node = CollectionNode {
            key: collection.key.clone(),
            name: collection.data.name.clone(),
            parent,
            depth,
            children,
            count_direct: 0,
            count_tree: 0,
            meta_num_items: collection.meta.num_items,
            meta_num_collections: collection.meta.num_collections,
            tree_id: None,
        };
        let ghost before = node_views(out@);
        let ghost shown = node@;
        assert(shown == want[i as int]);
        out.push(node);
        assert(node_views(out@) =~= before.push(shown));
        assert(node_views(out@) =~= want.take(i as int + 1));
        i += 1;
    }
    assert(node_views(out@) =~= want);
    out
}

fn links_of(collections: &[ZoteroCollection]) -> (r: Links)
    ensures
        r.wf(),
        r@ == forest_of(collections@),
        r.keys.len() == collections.len(),
{
    let n: usize = collections.len();
    let ghost keys_view = keys_of(collections@);
    let ghost folds_view = folds_of(collections@);
    let mut keys: Vec<Vec<char>> = Vec::new();
    let mut folds: Vec<Vec<char>> = Vec::new();
    let mut i: usize = 0;
    while i < n
        invariant
            i <= n,
            n == collections.len(),
            keys.len() == i,
            folds.len() == i,
            all_chars(keys@) == keys_of(collections@).take(i as int),
            all_chars(folds@) == folds_of(collections@).take(i as int),
        decreases n - i,
    {
        let key = chars_of(collections[i].key.as_str());
        let fold = chars_of(to_lowercase(collections[i].data.name.as_str()).as_str());
        keys.push(key);
        folds.push(fold);
        assert(all_chars(keys@) =~= keys_of(collections@).take(i as int + 1));
        assert(all_chars(folds@) =~= folds_of(collections@).take(i as int + 1));
        i += 1;
    }
    assert(all_chars(keys@) =~= keys_view);
    assert(all_chars(folds@) =~= folds_view);
    let mut reps: Vec<usize> = Vec::new();
    let mut par: Vec<Option<usize>> = Vec::new();
    let mut j: usize = 0;
    while j < n
        invariant
            j <= n,
            n == collections.len(),
            keys.len() == n,
            keys_view == keys_of(collections@),
            all_chars(keys@) == keys_view,
            reps.len() == j,
            par.len() == j,
            forall|k: int| 0 <= k < j ==> (#[trigger] reps@[k]) < n,
            forall|k: int|
                0 <= k < j ==> match #[trigger] par@[k] {
                    Some(p) => p < n,
                    None => true,
                },
            folds.len() == n,
            folds_view == folds_of(collections@),
            all_chars(folds@) == folds_view,
            all_ints(reps@) == leads_of(keys_view, folds_view).take(j as int),
            all_links(par@) == raw_parents(collections@).take(j as int),
        decreases n - j,
    {
        assert(keys_view[j as int] == keys@[j as int]@);
        proof {
            lemma_lead(keys_view, folds_view, keys_view[j as int], n as int);
        }
        let rep: usize = match lead_position(&keys, &folds, keys[j].as_slice()) {
            Some(at) => at,
            None => j,
        };
        let last: usize = last_position(&keys, j);
        let link = link_at(collections, &keys, &folds, last);
        reps.push(rep);
        par.push(link);
        assert(all_ints(reps@) =~= leads_of(keys_view, folds_view).take(j as int + 1));
        assert(all_links(par@) =~= raw_parents(collections@).take(j as int + 1));
        j += 1;
    }
    assert(all_ints(reps@) =~= leads_of(keys_view, folds_view));
    assert(all_links(par@) =~= raw_parents(collections@));
    assert(links_wf(all_links(par@)));
    break_parent_cycles(&mut par, &reps);
    let par = share_parents(&par, &reps);
    let r = Links { keys, folds, par };
    assert(r@.keys == keys_view);
    r
}

fn share_parents(par: &[Option<usize>], reps: &[usize]) -> (r: Vec<Option<usize>>)
    requires
        reps.len() == par.len(),
        links_wf(all_links(par@)),
        forall|i: int| 0 <= i < reps.len() ==> (#[trigger] reps@[i]) < par.len(),
    ensures
        all_links(r@) == shared_parents(all_links(par@), all_ints(reps@)),
        r.len() == par.len(),
        links_wf(all_links(r@)),
{
    let ghost want = shared_parents(all_links(par@), all_ints(reps@));
    let mut out: Vec<Option<usize>> = Vec::new();
    let mut i: usize = 0;
    while i < reps.len()
        invariant
            i <= reps.len(),
            reps.len() == par.len(),
            forall|i: int| 0 <= i < reps.len() ==> (#[trigger] reps@[i]) < par.len(),
            want == shared_parents(all_links(par@), all_ints(reps@)),
            all_links(out@) == want.take(i as int),
        decreases reps.len() - i,
    {
        let ghost before = all_links(out@);
        let at: usize = reps[i];
        assert(all_ints(reps@)[i as int] == at as int);
        assert(want[i as int] == crate::text::opt_int(par@[at as int]));
        out.push(par[at]);
        assert(all_links(out@) =~= before.push(want[i as int]));
        assert(all_links(out@) =~= want.take(i as int + 1));
        i += 1;
    }
    assert(all_links(out@) =~= want);
    assert(links_wf(want)) by {
        assert forall|i: int| 0 <= i < want.len() implies match #[trigger] want[i] {
            Some(p) => 0 <= p < want.len(),
            None => true,
        } by {
            assert(all_ints(reps@)[i] == reps@[i] as int);
            assert(want[i] == all_links(par@)[reps@[i] as int]);
        }
    }
    out
}

fn link_at(
    collections: &[ZoteroCollection],
    keys: &[Vec<char>],
    folds: &[Vec<char>],
    i: usize,
) -> (r: Option<usize>)
    requires
        i < collections.len(),
        keys.len() == collections.len(),
        folds.len() == collections.len(),
        all_chars(keys@) == keys_of(collections@),
        all_chars(folds@) == folds_of(collections@),
    ensures
        crate::text::opt_int(r) == link_of(collections@, i as int),
        r is Some ==> r.unwrap() < collections.len(),
{
    match &collections[i].data.parent_collection {
        Some(p) => {
            let chars = chars_of(p.as_str());
            assert(keys_of(collections@)[i as int] == keys@[i as int]@);
            if same_chars(chars.as_slice(), keys[i].as_slice()) {
                return None;
            }
            lead_position(keys, folds, chars.as_slice())
        },
        None => None,
    }
}

spec fn steps(v: Seq<(usize, usize)>) -> Seq<(int, int)> {
    v.map_values(|p: (usize, usize)| (p.0 as int, p.1 as int))
}

} // verus!
