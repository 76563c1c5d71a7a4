//! `zot edit`: changing an item's fields, tags and collections through the web API.
use crate::api::connector::target_views;
use crate::api::connector::SaveTarget;
use crate::api::connector::TargetView;
use crate::collections::counts::has_text;
use crate::collections::lookup::resolve_collection_ref;
use crate::collections::lookup::resolved;
use crate::collections::tree::node_views;
use crate::collections::tree::CollectionNode;
use crate::collections::tree::NodeView;
use crate::commands::collections_cmd::is_library_id;
use crate::commands::export_cmd::map_texts;
use crate::failure::Failure;
use crate::json::array_value;
use crate::json::ascending;
use crate::json::json_members;
use crate::json::json_parsed;
use crate::json::json_tree;
use crate::json::json_trees;
use crate::json::member;
use crate::json::member_keys;
use crate::json::member_text;
use crate::json::members;
use crate::json::new_object;
use crate::json::no_members;
use crate::json::object_value;
use crate::json::opt_str;
use crate::json::parse_json;
use crate::json::set_member;
use crate::json::text_value;
use crate::json::JsonTree;
use crate::lines::join;
use crate::lines::joined;
use crate::output::EditOutput;
use crate::text::chars_of;
use crate::text::concat2;
use crate::text::concat3;
use crate::text::concat4;
use crate::text::concat5;
use crate::text::index_of;
use crate::text::opt_text;
use crate::text::position;
use crate::text::same_text;
use crate::text::string_of;
use crate::text::texts;
use crate::text::trim;
use crate::text::trimmed;
use vstd::hash_map::StringHashMap;
use vstd::prelude::*;
use vstd::slice::slice_subrange;

verus! {

/// Arguments of `zot edit`.
pub struct EditArgs<'a> {
    pub key: &'a str,
    pub sets: &'a [String],
    pub add_tags: &'a [String],
    pub rm_tags: &'a [String],
    pub add_collections: &'a [String],
    pub rm_collections: &'a [String],
    pub patch: Option<&'a str>,
    pub json: bool,
}

impl<'a> EditArgs<'a> {
    /// Whether the arguments ask for no change at all.
    pub open spec fn asks_nothing(&self) -> bool {
        self.sets@.len() == 0 && self.add_tags@.len() == 0 && self.rm_tags@.len() == 0
            && !self.asks_collections() && self.patch is None
    }

    /// Whether the arguments ask for a change of collections.
    pub open spec fn asks_collections(&self) -> bool {
        self.add_collections@.len() > 0 || self.rm_collections@.len() > 0
    }

    /// Rejects arguments that ask for no change at all.
    pub fn check(&self) -> (r: Result<(), Failure>)
        ensures
            match r {
                Ok(_) => !self.asks_nothing(),
                Err(e) => self.asks_nothing() && e@
                    == "Nothing to change. Use --set field=value, --add-tag, --rm-tag, --add-collection, --rm-collection, or --patch <json>."@,
            },
    {
        if self.sets.len() == 0 && self.add_tags.len() == 0 && self.rm_tags.len() == 0
            && !self.changes_collections() && self.patch.is_none() {
            return Err(
                Failure {
                    message:
                        "Nothing to change. Use --set field=value, --add-tag, --rm-tag, --add-collection, --rm-collection, or --patch <json>.".to_string(),
                },
            );
        }
        Ok(())
    }

    /// Whether the arguments ask for a change of collections.
    pub fn changes_collections(&self) -> (r: bool)
        ensures
            r == self.asks_collections(),
    {
        self.add_collections.len() > 0 || self.rm_collections.len() > 0
    }
}

/// Some texts without those in another list.
pub open spec fn without(list: Seq<Seq<char>>, rm: Seq<Seq<char>>) -> Seq<Seq<char>>
    decreases list.len(),
{
    if list.len() == 0 {
        Seq::empty()
    } else if rm.contains(list.last()) {
        without(list.drop_last(), rm)
    } else {
        without(list.drop_last(), rm).push(list.last())
    }
}

/// Some texts followed by those of another list that are not there yet.
pub open spec fn extended(list: Seq<Seq<char>>, add: Seq<Seq<char>>) -> Seq<Seq<char>>
    decreases add.len(),
{
    if add.len() == 0 {
        list
    } else {
        let head = extended(list, add.drop_last());
        if head.contains(add.last()) {
            head
        } else {
            head.push(add.last())
        }
    }
}

/// Membership after a change: what is removed goes, what is added and not there yet comes last.
pub open spec fn merged_membership(
    current: Seq<Seq<char>>,
    add: Seq<Seq<char>>,
    rm: Seq<Seq<char>>,
) -> Seq<Seq<char>> {
    extended(without(current, rm), add)
}

/// Merges collection membership: drops everything in `rm`, then appends each entry of `add` that
/// is not already present. The order of surviving entries is preserved, so an unrelated edit does
/// not reshuffle the list.
pub fn merge_collections(current: &[String], add: &[String], rm: &[String]) -> (r: Vec<String>)
    ensures
        texts(r@) == merged_membership(texts(current@), texts(add@), texts(rm@)),
{
    let ghost all = texts(current@);
    let ghost more = texts(add@);
    let removed = copy_of(rm);
    let mut out: Vec<String> = Vec::new();
    let mut i: usize = 0;
    assert(texts(out@) =~= Seq::empty());
    while i < current.len()
        invariant
            i <= current.len(),
            all == texts(current@),
            texts(removed@) == texts(rm@),
            texts(out@) == without(all.take(i as int), texts(rm@)),
        decreases current.len() - i,
    {
        assert(all.take(i as int + 1).drop_last() =~= all.take(i as int));
        assert(all.take(i as int + 1).last() == current@[i as int]@);
        if !has_text(&removed, &current[i]) {
            let ghost before = texts(out@);
            out.push(current[i].clone());
            assert(texts(out@) =~= before.push(current@[i as int]@));
        }
        i += 1;
    }
    assert(all.take(all.len() as int) =~= all);
    let ghost kept = texts(out@);
    let mut j: usize = 0;
    assert(texts(out@) =~= extended(kept, more.take(0)));
    while j < add.len()
        invariant
            j <= add.len(),
            more == texts(add@),
            texts(out@) == extended(kept, more.take(j as int)),
        decreases add.len() - j,
    {
        assert(more.take(j as int + 1).drop_last() =~= more.take(j as int));
        assert(more.take(j as int + 1).last() == add@[j as int]@);
        if !has_text(&out, &add[j]) {
            let ghost before = texts(out@);
            out.push(add[j].clone());
            assert(texts(out@) =~= before.push(add@[j as int]@));
        }
        j += 1;
    }
    assert(more.take(more.len() as int) =~= more);
    out
}

fn copy_of(list: &[String]) -> (r: Vec<String>)
    ensures
        texts(r@) == texts(list@),
{
    let mut out: Vec<String> = Vec::new();
    let mut i: usize = 0;
    while i < list.len()
        invariant
            i <= list.len(),
            texts(out@) == texts(list@).take(i as int),
        decreases list.len() - i,
    {
        let ghost before = texts(out@);
        out.push(list[i].clone());
        assert(texts(out@) =~= before.push(list@[i as int]@));
        assert(texts(out@) =~= texts(list@).take(i as int + 1));
        i += 1;
    }
    assert(texts(out@) =~= texts(list@));
    out
}

/// The names of some nodes by key. Of two nodes with one key, the later decides.
pub open spec fn names_of(nodes: Seq<NodeView>) -> Map<Seq<char>, Seq<char>>
    decreases nodes.len(),
{
    if nodes.len() == 0 {
        Map::empty()
    } else {
        names_of(nodes.drop_last()).insert(nodes.last().key, nodes.last().name)
    }
}

/// Collection references resolved to keys, plus the key -> name map needed to print membership
/// readably.
pub struct ResolvedCollections {
    pub add: Vec<String>,
    pub rm: Vec<String>,
    pub names: StringHashMap<String>,
}

/// A key with the name of its collection, or the bare key where no name is known.
pub open spec fn named_key(names: Map<Seq<char>, Seq<char>>, key: Seq<char>) -> Seq<char> {
    if names.contains_key(key) {
        names[key] + " ("@ + key + ")"@
    } else {
        key
    }
}

/// `[Name (KEY), Other (KEY2)]`, or `[]` for an item in no collection.
pub open spec fn rendered(names: Map<Seq<char>, Seq<char>>, keys: Seq<Seq<char>>) -> Seq<char> {
    "["@ + joined(keys.map_values(|k: Seq<char>| named_key(names, k)), ", "@) + "]"@
}

/// The key that a reference given with a flag stands for, or the error for what this command
/// cannot edit.
pub open spec fn flagged_key(
    input: Seq<char>,
    flag: Seq<char>,
    nodes: Seq<NodeView>,
    ts: Seq<TargetView>,
) -> Result<Seq<char>, Seq<char>> {
    match resolved(input, nodes, ts) {
        Ok(r) => match r.key {
            Some(key) => Ok(key),
            None => {
                let id = match r.connector_id {
                    Some(id) => id,
                    None => input,
                };
                if id.len() > 0 && id[0] == 'L' {
                    Err(
                        flag + " "@ + input + ": "@ + id
                            + " is the library root, not a collection.\n  An item sits in the library root by being in no collection at all, so name a real collection instead."@,
                    )
                } else {
                    Err(
                        flag + " "@ + input + ": collection \""@ + r.name + "\" ("@ + id
                            + ") is only known to the connector, most likely because it lives in a group library, which this command cannot edit."@,
                    )
                }
            },
        },
        Err(message) => Err(message),
    }
}

/// The keys that some references stand for, each once; the first error where there is one.
pub open spec fn flagged_keys(
    inputs: Seq<Seq<char>>,
    flag: Seq<char>,
    nodes: Seq<NodeView>,
    ts: Seq<TargetView>,
) -> Result<Seq<Seq<char>>, Seq<char>>
    decreases inputs.len(),
{
    if inputs.len() == 0 {
        Ok(Seq::empty())
    } else {
        match flagged_keys(inputs.drop_last(), flag, nodes, ts) {
            Ok(keys) => match flagged_key(inputs.last(), flag, nodes, ts) {
                Ok(key) => Ok(
                    if keys.contains(key) {
                        keys
                    } else {
                        keys.push(key)
                    },
                ),
                Err(message) => Err(message),
            },
            Err(message) => Err(message),
        }
    }
}

/// The first text of a list that is in another one too, among those from `i` on.
pub open spec fn first_shared(a: Seq<Seq<char>>, b: Seq<Seq<char>>, i: int) -> Option<Seq<char>>
    decreases a.len() - i,
{
    if i < 0 || i >= a.len() {
        None
    } else if b.contains(a[i]) {
        Some(a[i])
    } else {
        first_shared(a, b, i + 1)
    }
}

/// The keys to add and to remove, or why they cannot be had.
pub open spec fn collection_edit(
    add: Seq<Seq<char>>,
    rm: Seq<Seq<char>>,
    nodes: Seq<NodeView>,
    ts: Seq<TargetView>,
) -> Result<(Seq<Seq<char>>, Seq<Seq<char>>), Seq<char>> {
    match flagged_keys(add, "--add-collection"@, nodes, ts) {
        Ok(add) => match flagged_keys(rm, "--rm-collection"@, nodes, ts) {
            Ok(rm) => match first_shared(add, rm, 0) {
                Some(both) => {
                    let names = names_of(nodes);
                    let name = if names.contains_key(both) {
                        names[both]
                    } else {
                        both
                    };
                    Err(
                        "Collection "@ + name + " ("@ + both
                            + ") is both added and removed in the same call."@,
                    )
                },
                None => Ok((add, rm)),
            },
            Err(message) => Err(message),
        },
        Err(message) => Err(message),
    }
}

fn resolve_one(input: &String, flag: &str, nodes: &[CollectionNode], targets: &[SaveTarget]) -> (r:
    Result<String, Failure>)
    ensures
        crate::failure::text_result(r) == flagged_key(
            input@,
            flag@,
            node_views(nodes@),
            target_views(targets@),
        ),
{
    let found = match resolve_collection_ref(input.as_str(), nodes, targets) {
        Ok(c) => c,
        Err(e) => {
            return Err(e);
        },
    };
    if let Some(key) = found.key {
        return Ok(key);
    }
    let id = match &found.connector_id {
        Some(id) => id.as_str(),
        None => input.as_str(),
    };
    let mut message = concat3(flag, " ", input.as_str());
    if is_library_id(id) {
        message.push_str(": ");
        message.push_str(id);
        message.push_str(
            " is the library root, not a collection.\n  An item sits in the library root by being in no collection at all, so name a real collection instead.",
        );
    } else {
        message.push_str(": collection \"");
        message.push_str(found.name.as_str());
        message.push_str("\" (");
        message.push_str(id);
        message.push_str(
            ") is only known to the connector, most likely because it lives in a group library, which this command cannot edit.",
        );
    }
    Err(Failure { message })
}

/// The view of a list of keys.
pub open spec fn keys_result(r: Result<Vec<String>, Failure>) -> Result<Seq<Seq<char>>, Seq<char>> {
    match r {
        Ok(keys) => Ok(texts(keys@)),
        Err(e) => Err(e@),
    }
}

proof fn lemma_flagged_keys_err(
    inputs: Seq<Seq<char>>,
    flag: Seq<char>,
    nodes: Seq<NodeView>,
    ts: Seq<TargetView>,
    n: int,
)
    requires
        0 <= n <= inputs.len(),
        flagged_keys(inputs.take(n), flag, nodes, ts) is Err,
    ensures
        flagged_keys(inputs, flag, nodes, ts) == flagged_keys(inputs.take(n), flag, nodes, ts),
    decreases inputs.len() - n,
{
    if n < inputs.len() {
        assert(inputs.take(n + 1).drop_last() =~= inputs.take(n));
        lemma_flagged_keys_err(inputs, flag, nodes, ts, n + 1);
    } else {
        assert(inputs.take(n) =~= inputs);
    }
}

fn resolve_all(inputs: &[String], flag: &str, nodes: &[CollectionNode], targets: &[SaveTarget]) -> (r:
    Result<Vec<String>, Failure>)
    ensures
        keys_result(r) == flagged_keys(
            texts(inputs@),
            flag@,
            node_views(nodes@),
            target_views(targets@),
        ),
{
    let ghost all = texts(inputs@);
    let ghost views = node_views(nodes@);
    let ghost ts = target_views(targets@);
    let mut keys: Vec<String> = Vec::new();
    let mut i: usize = 0;
    assert(texts(keys@) =~= Seq::empty());
    while i < inputs.len()
        invariant
            i <= inputs.len(),
            all == texts(inputs@),
            views == node_views(nodes@),
            ts == target_views(targets@),
            flagged_keys(all.take(i as int), flag@, views, ts) == Ok::<_, Seq<char>>(texts(keys@)),
        decreases inputs.len() - i,
    {
        assert(all.take(i as int + 1).drop_last() =~= all.take(i as int));
        assert(all.take(i as int + 1).last() == inputs@[i as int]@);
        match resolve_one(&inputs[i], flag, nodes, targets) {
            Ok(key) => {
                if !has_text(&keys, &key) {
                    let ghost before = texts(keys@);
                    let ghost view = key@;
                    keys.push(key);
                    assert(texts(keys@) =~= before.push(view));
                }
            },
            Err(e) => {
                proof {
                    lemma_flagged_keys_err(all, flag@, views, ts, i as int + 1);
                }
                return Err(e);
            },
        }
        i += 1;
    }
    assert(all.take(all.len() as int) =~= all);
    Ok(keys)
}

fn name_map(nodes: &[CollectionNode]) -> (r: StringHashMap<String>)
    ensures
        map_texts(r@) == names_of(node_views(nodes@)),
{
    let ghost views = node_views(nodes@);
    let mut out: StringHashMap<String> = StringHashMap::new();
    let mut i: usize = 0;
    assert(map_texts(out@) =~= Map::empty());
    while i < nodes.len()
        invariant
            i <= nodes.len(),
            views == node_views(nodes@),
            map_texts(out@) == names_of(views.take(i as int)),
        decreases nodes.len() - i,
    {
        assert(views.take(i as int + 1).drop_last() =~= views.take(i as int));
        assert(views.take(i as int + 1).last() == nodes@[i as int]@);
        let ghost before = out@;
        out.insert(nodes[i].key.clone(), nodes[i].name.clone());
        assert(map_texts(out@) =~= map_texts(before).insert(
            nodes@[i as int].key@,
            nodes@[i as int].name@,
        ));
        i += 1;
    }
    assert(views.take(views.len() as int) =~= views);
    out
}

fn shared_text(a: &[String], b: &[String]) -> (r: Option<String>)
    ensures
        opt_text(r) == first_shared(texts(a@), texts(b@), 0),
{
    let ghost all = texts(a@);
    let mut i: usize = 0;
    while i < a.len()
        invariant
            i <= a.len(),
            all == texts(a@),
            first_shared(all, texts(b@), 0) == first_shared(all, texts(b@), i as int),
        decreases a.len() - i,
    {
        assert(all[i as int] == a@[i as int]@);
        if has_text(b, &a[i]) {
            return Some(a[i].clone());
        }
        i += 1;
    }
    None
}

impl ResolvedCollections {
    /// Resolves every collection to add and to remove up front, so that a typo in the second value
    /// fails before the first one is written. A collection cannot be both added and removed.
    pub fn from_parts(
        add: &[String],
        rm: &[String],
        nodes: &[CollectionNode],
        targets: &[SaveTarget],
    ) -> (r: Result<ResolvedCollections, Failure>)
        ensures
            match r {
                Ok(c) => collection_edit(
                    texts(add@),
                    texts(rm@),
                    node_views(nodes@),
                    target_views(targets@),
                ) == Ok::<_, Seq<char>>((texts(c.add@), texts(c.rm@))) && map_texts(c.names@)
                    == names_of(node_views(nodes@)),
                Err(e) => collection_edit(
                    texts(add@),
                    texts(rm@),
                    node_views(nodes@),
                    target_views(targets@),
                ) == Err::<(Seq<Seq<char>>, Seq<Seq<char>>), _>(e@),
            },
    {
        let names = name_map(nodes);
        let add = match resolve_all(add, "--add-collection", nodes, targets) {
            Ok(keys) => keys,
            Err(e) => {
                return Err(e);
            },
        };
        let rm = match resolve_all(rm, "--rm-collection", nodes, targets) {
            Ok(keys) => keys,
            Err(e) => {
                return Err(e);
            },
        };
        if let Some(both) = shared_text(&add, &rm) {
            let name = match names.get(both.as_str()) {
                Some(name) => name.clone(),
                None => both.clone(),
            };
            assert(map_texts(names@).contains_key(both@) == names@.contains_key(both@));
            return Err(
                Failure {
                    message: concat5(
                        "Collection ",
                        name.as_str(),
                        " (",
                        both.as_str(),
                        ") is both added and removed in the same call.",
                    ),
                },
            );
        }
        Ok(ResolvedCollections { add, rm, names })
    }

    /// `[Name (KEY), Other (KEY2)]`, or `[]` for an item in no collection.
    pub fn render(&self, keys: &[String]) -> (r: String)
        ensures
            r@ == rendered(map_texts(self.names@), texts(keys@)),
    {
        let ghost names = map_texts(self.names@);
        let ghost want = texts(keys@).map_values(|k: Seq<char>| named_key(names, k));
        let mut out: Vec<String> = Vec::new();
        let mut i: usize = 0;
        while i < keys.len()
            invariant
                i <= keys.len(),
                names == map_texts(self.names@),
                want == texts(keys@).map_values(|k: Seq<char>| named_key(names, k)),
                texts(out@) == want.take(i as int),
            decreases keys.len() - i,
        {
            let shown = match self.names.get(keys[i].as_str()) {
                Some(name) => concat4(name.as_str(), " (", keys[i].as_str(), ")"),
                None => keys[i].clone(),
            };
            let ghost before = texts(out@);
            let ghost view = shown@;
            assert(view == want[i as int]);
            out.push(shown);
            assert(texts(out@) =~= before.push(view));
            assert(texts(out@) =~= want.take(i as int + 1));
            i += 1;
        }
        assert(texts(out@) =~= want);
        concat3("[", join(out.as_slice(), ", ").as_str(), "]")
    }
}

/// The fields after the `field=value` pairs among the first `n`; the first pair without `=` is an
/// error.
pub open spec fn with_sets(
    start: Map<Seq<char>, JsonTree>,
    sets: Seq<Seq<char>>,
) -> Result<Map<Seq<char>, JsonTree>, Seq<char>>
    decreases sets.len(),
{
    if sets.len() == 0 {
        Ok(start)
    } else {
        let pair = sets.last();
        let e = index_of(pair, '=') as int;
        match with_sets(start, sets.drop_last()) {
            Ok(m) => if e < pair.len() {
                Ok(m.insert(trimmed(pair.take(e)), JsonTree::Text(pair.skip(e + 1))))
            } else {
                Err("--set expects field=value, got: "@ + pair)
            },
            Err(message) => Err(message),
        }
    }
}

/// The fields that `--patch` and `--set` ask for, given what the patch was parsed as.
pub open spec fn asked_fields(
    patch: Option<Result<JsonTree, Seq<char>>>,
    sets: Seq<Seq<char>>,
) -> Result<Map<Seq<char>, JsonTree>, Seq<char>> {
    match patch {
        Some(Ok(JsonTree::Object(m))) => with_sets(m, sets),
        Some(Ok(_)) => Err("--patch must be a JSON object"@),
        Some(Err(fault)) => Err("--patch is not valid JSON: "@ + fault),
        None => with_sets(no_members(), sets),
    }
}

/// The view of some fields.
pub open spec fn fields_result(
    r: Result<serde_json::Map<String, serde_json::Value>, Failure>,
) -> Result<Map<Seq<char>, JsonTree>, Seq<char>> {
    match r {
        Ok(m) => Ok(json_members(m)),
        Err(e) => Err(e@),
    }
}

proof fn lemma_with_sets_err(start: Map<Seq<char>, JsonTree>, sets: Seq<Seq<char>>, n: int)
    requires
        0 <= n <= sets.len(),
        with_sets(start, sets.take(n)) is Err,
    ensures
        with_sets(start, sets) == with_sets(start, sets.take(n)),
    decreases sets.len() - n,
{
    if n < sets.len() {
        assert(sets.take(n + 1).drop_last() =~= sets.take(n));
        lemma_with_sets_err(start, sets, n + 1);
    } else {
        assert(sets.take(n) =~= sets);
    }
}

/// Layers `field=value` pairs on top of some fields.
pub fn apply_sets(start: serde_json::Map<String, serde_json::Value>, sets: &[String]) -> (r: Result<
    serde_json::Map<String, serde_json::Value>,
    Failure,
>)
    ensures
        fields_result(r) == with_sets(json_members(start), texts(sets@)),
{
    let ghost all = texts(sets@);
    let ghost first = json_members(start);
    let mut m = start;
    let mut i: usize = 0;
    while i < sets.len()
        invariant
            i <= sets.len(),
            all == texts(sets@),
            first == json_members(start),
            with_sets(first, all.take(i as int)) == Ok::<_, Seq<char>>(json_members(m)),
        decreases sets.len() - i,
    {
        assert(all.take(i as int + 1).drop_last() =~= all.take(i as int));
        assert(all.take(i as int + 1).last() == sets@[i as int]@);
        let pair = chars_of(sets[i].as_str());
        let e: usize = position(pair.as_slice(), '=');
        if e >= pair.len() {
            proof {
                lemma_with_sets_err(first, all, i as int + 1);
            }
            return Err(
                Failure {
                    message: concat2("--set expects field=value, got: ", sets[i].as_str()),
                },
            );
        }
        let head = slice_subrange(pair.as_slice(), 0, e);
        let tail = slice_subrange(pair.as_slice(), e + 1, pair.len());
        assert(head@ =~= pair@.take(e as int));
        assert(tail@ =~= pair@.skip(e + 1));
        let field = string_of(trim(head));
        let value = string_of(tail);
        set_member(&mut m, field, text_value(value.as_str()));
        i += 1;
    }
    assert(all.take(all.len() as int) =~= all);
    Ok(m)
}

/// The fields that the arguments ask for: those of the patch, with the `field=value` pairs on top.
pub fn edit_fields(patch: Option<&str>, sets: &[String]) -> (r: Result<
    serde_json::Map<String, serde_json::Value>,
    Failure,
>)
    ensures
        fields_result(r) == asked_fields(
            match opt_str(patch) {
                Some(raw) => Some(json_parsed(raw)),
                None => None,
            },
            texts(sets@),
        ),
{
    let start = match patch {
        Some(raw) => match parse_json(raw) {
            Ok(v) => match patch_members(&v) {
                Ok(m) => m,
                Err(e) => {
                    return Err(e);
                },
            },
            Err(fault) => {
                return Err(
                    Failure { message: concat2("--patch is not valid JSON: ", fault.as_str()) },
                );
            },
        },
        None => new_object(),
    };
    apply_sets(start, sets)
}

/// The members of a parsed patch.
pub fn patch_members(patch: &serde_json::Value) -> (r: Result<
    serde_json::Map<String, serde_json::Value>,
    Failure,
>)
    ensures
        match r {
            Ok(m) => json_tree(*patch) == JsonTree::Object(json_members(m)),
            Err(e) => !(json_tree(*patch) is Object) && e@ == "--patch must be a JSON object"@,
        },
{
    match members(patch) {
        Some(m) => Ok(m),
        None => Err(Failure { message: "--patch must be a JSON object".to_string() }),
    }
}

/// The items of the list under a key of an item's data.
pub open spec fn data_list(item: JsonTree, key: Seq<char>) -> Seq<JsonTree> {
    match item.member("data"@) {
        Some(data) => match data.member(key) {
            Some(v) => match v.items() {
                Some(s) => s,
                None => Seq::empty(),
            },
            None => Seq::empty(),
        },
        None => Seq::empty(),
    }
}

/// The texts under `tag` of some objects.
pub open spec fn tags_in(items: Seq<JsonTree>) -> Seq<Seq<char>>
    decreases items.len(),
{
    if items.len() == 0 {
        Seq::empty()
    } else {
        match items.last().member_text("tag"@) {
            Some(t) => tags_in(items.drop_last()).push(t),
            None => tags_in(items.drop_last()),
        }
    }
}

/// The texts among some values.
pub open spec fn texts_in(items: Seq<JsonTree>) -> Seq<Seq<char>>
    decreases items.len(),
{
    if items.len() == 0 {
        Seq::empty()
    } else {
        match items.last().text() {
            Some(t) => texts_in(items.drop_last()).push(t),
            None => texts_in(items.drop_last()),
        }
    }
}

fn list_under<'a>(item: &'a serde_json::Value, key: &str) -> (r: Option<&'a Vec<serde_json::Value>>)
    ensures
        match r {
            Some(v) => json_trees(v@) == data_list(json_tree(*item), key@),
            None => data_list(json_tree(*item), key@).len() == 0,
        },
{
    match member(item, "data") {
        Some(data) => match member(data, key) {
            Some(v) => v.as_array(),
            None => None,
        },
        None => None,
    }
}

/// The tags of an item.
pub fn current_tags(item: &serde_json::Value) -> (r: Vec<String>)
    ensures
        texts(r@) == tags_in(data_list(json_tree(*item), "tags"@)),
{
    let mut out: Vec<String> = Vec::new();
    assert(texts(out@) =~= Seq::empty());
    if let Some(list) = list_under(item, "tags") {
        let ghost items = json_trees(list@);
        let mut i: usize = 0;
        while i < list.len()
            invariant
                i <= list.len(),
                items == json_trees(list@),
                texts(out@) == tags_in(items.take(i as int)),
            decreases list.len() - i,
        {
            assert(items.take(i as int + 1).drop_last() =~= items.take(i as int));
            assert(items.take(i as int + 1).last() == json_tree(list@[i as int]));
            if let Some(t) = member_text(&list[i], "tag") {
                let ghost before = texts(out@);
                out.push(t.to_string());
                assert(texts(out@) =~= before.push(t@));
            }
            i += 1;
        }
        assert(items.take(items.len() as int) =~= items);
    } else {
        assert(data_list(json_tree(*item), "tags"@) =~= Seq::empty());
    }
    out
}

/// The keys of the collections an item is in.
pub fn current_collections(item: &serde_json::Value) -> (r: Vec<String>)
    ensures
        texts(r@) == texts_in(data_list(json_tree(*item), "collections"@)),
{
    let mut out: Vec<String> = Vec::new();
    assert(texts(out@) =~= Seq::empty());
    if let Some(list) = list_under(item, "collections") {
        let ghost items = json_trees(list@);
        let mut i: usize = 0;
        while i < list.len()
            invariant
                i <= list.len(),
                items == json_trees(list@),
                texts(out@) == texts_in(items.take(i as int)),
            decreases list.len() - i,
        {
            assert(items.take(i as int + 1).drop_last() =~= items.take(i as int));
            assert(items.take(i as int + 1).last() == json_tree(list@[i as int]));
            if let Some(t) = list[i].as_str() {
                let ghost before = texts(out@);
                out.push(t.to_string());
                assert(texts(out@) =~= before.push(t@));
            }
            i += 1;
        }
        assert(items.take(items.len() as int) =~= items);
    } else {
        assert(data_list(json_tree(*item), "collections"@) =~= Seq::empty());
    }
    out
}

/// Tags as the web API takes them.
pub open spec fn tag_objects(tags: Seq<Seq<char>>) -> JsonTree {
    JsonTree::Array(
        tags.map_values(
            |t: Seq<char>| JsonTree::Object(no_members().insert("tag"@, JsonTree::Text(t))),
        ),
    )
}

/// Keys as the web API takes them.
pub open spec fn key_list(keys: Seq<Seq<char>>) -> JsonTree {
    JsonTree::Array(keys.map_values(|k: Seq<char>| JsonTree::Text(k)))
}

fn tag_value(tags: &[String]) -> (r: serde_json::Value)
    ensures
        json_tree(r) == tag_objects(texts(tags@)),
{
    let ghost want = tag_objects(texts(tags@)).items().unwrap();
    let mut out: Vec<serde_json::Value> = Vec::new();
    let mut i: usize = 0;
    while i < tags.len()
        invariant
            i <= tags.len(),
            want == tag_objects(texts(tags@)).items().unwrap(),
            json_trees(out@) == want.take(i as int),
        decreases tags.len() - i,
    {
        let mut m = new_object();
        set_member(&mut m, "tag".to_string(), text_value(tags[i].as_str()));
        let v = object_value(m);
        let ghost before = json_trees(out@);
        let ghost tree = json_tree(v);
        assert(tree == want[i as int]);
        out.push(v);
        assert(json_trees(out@) =~= before.push(tree));
        assert(json_trees(out@) =~= want.take(i as int + 1));
        i += 1;
    }
    assert(json_trees(out@) =~= want);
    array_value(out)
}

/// A list of keys as the web API takes it.
pub fn key_value(keys: &[String]) -> (r: serde_json::Value)
    ensures
        json_tree(r) == key_list(texts(keys@)),
{
    let ghost want = key_list(texts(keys@)).items().unwrap();
    let mut out: Vec<serde_json::Value> = Vec::new();
    let mut i: usize = 0;
    while i < keys.len()
        invariant
            i <= keys.len(),
            want == key_list(texts(keys@)).items().unwrap(),
            json_trees(out@) == want.take(i as int),
        decreases keys.len() - i,
    {
        let v = text_value(keys[i].as_str());
        let ghost before = json_trees(out@);
        let ghost tree = json_tree(v);
        assert(tree == want[i as int]);
        out.push(v);
        assert(json_trees(out@) =~= before.push(tree));
        assert(json_trees(out@) =~= want.take(i as int + 1));
        i += 1;
    }
    assert(json_trees(out@) =~= want);
    array_value(out)
}

/// What an edit comes to.
pub enum EditStep {
    /// Nothing has to be written; the note says why that is a success.
    Untouched(String),
    /// The body to send, and how the changed fields are reported.
    Write(serde_json::Value, Vec<String>),
}

/// The fields to write once tags are merged.
pub open spec fn with_tags(
    fields: Map<Seq<char>, JsonTree>,
    item: JsonTree,
    add: Seq<Seq<char>>,
    rm: Seq<Seq<char>>,
) -> Map<Seq<char>, JsonTree> {
    if add.len() > 0 || rm.len() > 0 {
        fields.insert(
            "tags"@,
            tag_objects(merged_membership(tags_in(data_list(item, "tags"@)), add, rm)),
        )
    } else {
        fields
    }
}

/// How a changed field is reported: collections with what they were and are, the rest by name.
pub open spec fn change_text(field: Seq<char>, detail: Option<Seq<char>>) -> Seq<char> {
    match detail {
        Some(d) => if field == "collections"@ {
            d
        } else {
            field
        },
        None => field,
    }
}

/// What an edit with these fields comes to.
pub open spec fn is_write(
    step: EditStep,
    fields: Map<Seq<char>, JsonTree>,
    detail: Option<Seq<char>>,
) -> bool {
    match step {
        EditStep::Write(body, changed) => {
            &&& json_tree(body) == JsonTree::Object(fields)
            &&& exists|keys: Seq<Seq<char>>|
                #![trigger ascending(keys)]
                ascending(keys) && (forall|k: Seq<char>| #[trigger]
                    keys.contains(k) <==> fields.contains_key(k)) && texts(changed@)
                    == keys.map_values(|k: Seq<char>| change_text(k, detail))
        },
        EditStep::Untouched(_) => false,
    }
}

/// A change of collections, given the resolved keys: what they were, what they will be, and how
/// both are shown.
pub struct Membership {
    pub current: Seq<Seq<char>>,
    pub merged: Seq<Seq<char>>,
    pub names: Map<Seq<char>, Seq<char>>,
}

/// The change of collections that is asked for of an item.
pub open spec fn membership(item: JsonTree, c: ResolvedCollections) -> Membership {
    let current = texts_in(data_list(item, "collections"@));
    Membership {
        current,
        merged: merged_membership(current, texts(c.add@), texts(c.rm@)),
        names: map_texts(c.names@),
    }
}

/// What an edit comes to: the fields, tags and collections that are asked for, layered on what the
/// item has. A membership that already is as asked is left out, and is a success where nothing
/// else is asked for.
pub open spec fn is_edit(
    r: Result<EditStep, Failure>,
    fields: Map<Seq<char>, JsonTree>,
    change: Option<Membership>,
) -> bool {
    match change {
        Some(c) => if c.merged != c.current {
            r is Ok && is_write(
                r.unwrap(),
                fields.insert("collections"@, key_list(c.merged)),
                Some(
                    "collections: "@ + rendered(c.names, c.current) + " -> "@ + rendered(
                        c.names,
                        c.merged,
                    ),
                ),
            )
        } else if fields == no_members() {
            r is Ok && r.unwrap() is Untouched && r.unwrap()->Untouched_0@
                == "Collection membership already matches the request, left untouched: "@
                + rendered(c.names, c.current) + ". Nothing was written."@
        } else {
            r is Ok && is_write(r.unwrap(), fields, None)
        },
        None => if fields == no_members() {
            r is Err && r->Err_0@
                == "Nothing was written: the requested change is already the item's state."@
        } else {
            r is Ok && is_write(r.unwrap(), fields, None)
        },
    }
}

fn same_texts(a: &[String], b: &[String]) -> (r: bool)
    ensures
        r == (texts(a@) == texts(b@)),
{
    if a.len() != b.len() {
        assert(texts(a@).len() != texts(b@).len());
        return false;
    }
    let mut i: usize = 0;
    while i < a.len()
        invariant
            i <= a.len(),
            a.len() == b.len(),
            forall|k: int| 0 <= k < i ==> texts(a@)[k] == texts(b@)[k],
        decreases a.len() - i,
    {
        if a[i] != b[i] {
            assert(texts(a@)[i as int] != texts(b@)[i as int]);
            return false;
        }
        assert(texts(a@)[i as int] == texts(b@)[i as int]);
        i += 1;
    }
    assert(texts(a@) =~= texts(b@));
    true
}

fn write_step(
    m: serde_json::Map<String, serde_json::Value>,
    detail: Option<String>,
) -> (r: Option<EditStep>)
    ensures
        match r {
            Some(step) => json_members(m) != no_members() && is_write(
                step,
                json_members(m),
                opt_text(detail),
            ),
            None => json_members(m) == no_members(),
        },
{
    let keys = member_keys(&m);
    let ghost all = texts(keys@);
    if keys.len() == 0 {
        assert forall|k: Seq<char>| !json_members(m).contains_key(k) by {
            assert(!all.contains(k));
        }
        assert(json_members(m) =~= no_members());
        return None;
    }
    assert(all.contains(all[0]));
    assert(!no_members().contains_key(all[0]));
    let ghost shown_detail = opt_text(detail);
    let ghost want = all.map_values(|k: Seq<char>| change_text(k, shown_detail));
    let mut changed: Vec<String> = Vec::new();
    let mut i: usize = 0;
    while i < keys.len()
        invariant
            i <= keys.len(),
            all == texts(keys@),
            shown_detail == opt_text(detail),
            want == all.map_values(|k: Seq<char>| change_text(k, shown_detail)),
            texts(changed@) == want.take(i as int),
        decreases keys.len() - i,
    {
        assert(all[i as int] == keys@[i as int]@);
        let shown = match &detail {
            Some(d) => if same_text(keys[i].as_str(), "collections") {
                d.clone()
            } else {
                keys[i].clone()
            },
            None => keys[i].clone(),
        };
        let ghost before = texts(changed@);
        let ghost view = shown@;
        assert(view == want[i as int]);
        changed.push(shown);
        assert(texts(changed@) =~= before.push(view));
        assert(texts(changed@) =~= want.take(i as int + 1));
        i += 1;
    }
    assert(texts(changed@) =~= want);
    assert(ascending(all));
    Some(EditStep::Write(object_value(m), changed))
}

/// Works out what an edit comes to, from the fields that are asked for, the item as it is, and the
/// collections that were resolved.
///
/// Tags and collections are full replacements computed from the item as it was read, so the write
/// has to be refused if anything landed on the item after it.
pub fn plan_edit(
    fields: serde_json::Map<String, serde_json::Value>,
    item: &serde_json::Value,
    add_tags: &[String],
    rm_tags: &[String],
    collections: Option<&ResolvedCollections>,
) -> (r: Result<EditStep, Failure>)
    ensures
        is_edit(
            r,
            with_tags(json_members(fields), json_tree(*item), texts(add_tags@), texts(rm_tags@)),
            match collections {
                Some(c) => Some(membership(json_tree(*item), *c)),
                None => None,
            },
        ),
{
    let ghost tree = json_tree(*item);
    let mut m = fields;
    if add_tags.len() > 0 || rm_tags.len() > 0 {
        let tags = merge_collections(&current_tags(item), add_tags, rm_tags);
        set_member(&mut m, "tags".to_string(), tag_value(&tags));
    }
    let ghost tagged = json_members(m);
    assert(tagged == with_tags(json_members(fields), tree, texts(add_tags@), texts(rm_tags@)));
    match collections {
        Some(edit) => {
            let current = current_collections(item);
            let merged = merge_collections(&current, edit.add.as_slice(), edit.rm.as_slice());
            if same_texts(&merged, &current) {
                return match write_step(m, None) {
                    Some(step) => Ok(step),
                    None => Ok(
                        EditStep::Untouched(
                            concat3(
                                "Collection membership already matches the request, left untouched: ",
                                edit.render(&current).as_str(),
                                ". Nothing was written.",
                            ),
                        ),
                    ),
                };
            }
            let detail = concat4(
                "collections: ",
                edit.render(&current).as_str(),
                " -> ",
                edit.render(&merged).as_str(),
            );
            set_member(&mut m, "collections".to_string(), key_value(&merged));
            assert(json_members(m).contains_key("collections"@));
            assert(!no_members().contains_key("collections"@));
            match write_step(m, Some(detail)) {
                Some(step) => Ok(step),
                None => Err(nothing_written()),
            }
        },
        None => match write_step(m, None) {
            Some(step) => Ok(step),
            None => Err(nothing_written()),
        },
    }
}

fn nothing_written() -> (r: Failure)
    ensures
        r@ == "Nothing was written: the requested change is already the item's state."@,
{
    Failure {
        message: "Nothing was written: the requested change is already the item's state.".to_string(),
    }
}

/// What is answered for an item that was left untouched.
pub fn untouched_output(key: &str, version: u64, note: String) -> (r: EditOutput)
    ensures
        r.key@ == key@,
        r.version == version,
        r.changed@.len() == 0,
        r.note@ == note@,
{
    EditOutput { key: key.to_string(), version, changed: Vec::new(), note }
}

/// What is answered for an item that was written.
pub fn edited_output(key: &str, version: u64, changed: Vec<String>) -> (r: EditOutput)
    ensures
        r.key@ == key@,
        r.version == version,
        r.changed@ == changed@,
        r.note@
            == "Updated via web API; the change reaches the local library on the next Zotero sync."@,
{
    EditOutput {
        key: key.to_string(),
        version,
        changed,
        note:
            "Updated via web API; the change reaches the local library on the next Zotero sync.".to_string(),
    }
}

proof fn lemma_without(list: Seq<Seq<char>>, rm: Seq<Seq<char>>)
    ensures
        forall|k: Seq<char>| #[trigger]
            without(list, rm).contains(k) <==> list.contains(k) && !rm.contains(k),
    decreases list.len(),
{
    if list.len() > 0 {
        let t = list.drop_last();
        lemma_without(t, rm);
        let w = without(t, rm);
        let all = without(list, rm);
        assert forall|k: Seq<char>| #[trigger] all.contains(k) <==> list.contains(k)
            && !rm.contains(k) by {
            if list.contains(k) {
                let i = choose|i: int| 0 <= i < list.len() && list[i] == k;
                if i < t.len() {
                    assert(t[i] == k);
                }
            }
            if t.contains(k) {
                let i = choose|i: int| 0 <= i < t.len() && t[i] == k;
                assert(list[i] == k);
            }
            if all.contains(k) {
                let i = choose|i: int| 0 <= i < all.len() && all[i] == k;
                if i < w.len() {
                    assert(w[i] == k);
                } else {
                    assert(list[list.len() - 1] == k);
                }
            }
            if w.contains(k) {
                let i = choose|i: int| 0 <= i < w.len() && w[i] == k;
                assert(all[i] == k);
            }
            if k == list.last() && !rm.contains(k) {
                assert(all[all.len() - 1] == k);
            }
        }
    } else {
        assert(without(list, rm) =~= list);
    }
}

proof fn lemma_extended(list: Seq<Seq<char>>, add: Seq<Seq<char>>)
    ensures
        forall|k: Seq<char>| #[trigger]
            extended(list, add).contains(k) <==> list.contains(k) || add.contains(k),
        list.is_prefix_of(extended(list, add)),
    decreases add.len(),
{
    if add.len() > 0 {
        let t = add.drop_last();
        lemma_extended(list, t);
        let h = extended(list, t);
        let all = extended(list, add);
        assert forall|k: Seq<char>| #[trigger] all.contains(k) <==> list.contains(k)
            || add.contains(k) by {
            if add.contains(k) {
                let i = choose|i: int| 0 <= i < add.len() && add[i] == k;
                if i < t.len() {
                    assert(t[i] == k);
                }
            }
            if t.contains(k) {
                let i = choose|i: int| 0 <= i < t.len() && t[i] == k;
                assert(add[i] == k);
            }
            assert(add[add.len() - 1] == add.last());
            if all.contains(k) {
                let i = choose|i: int| 0 <= i < all.len() && all[i] == k;
                if i < h.len() {
                    assert(h[i] == k);
                }
            }
            if h.contains(k) {
                let i = choose|i: int| 0 <= i < h.len() && h[i] == k;
                assert(all[i] == k);
            }
            if !h.contains(add.last()) {
                assert(all[all.len() - 1] == add.last());
            }
        }
        assert(list.is_prefix_of(all)) by {
            assert(all.subrange(0, list.len() as int) =~= h.subrange(0, list.len() as int));
        }
    } else {
        assert(list.subrange(0, list.len() as int) =~= list);
    }
}

/// After a change, an item is in what was added and in what it was in and was not removed.
pub proof fn law_merged_members(
    current: Seq<Seq<char>>,
    add: Seq<Seq<char>>,
    rm: Seq<Seq<char>>,
    k: Seq<char>,
)
    ensures
        merged_membership(current, add, rm).contains(k) <==> (current.contains(k) && !rm.contains(
            k,
        )) || add.contains(k),
{
    lemma_without(current, rm);
    lemma_extended(without(current, rm), add);
    assert(without(current, rm).contains(k) <==> current.contains(k) && !rm.contains(k));
    assert(extended(without(current, rm), add).contains(k) <==> without(current, rm).contains(k)
        || add.contains(k));
}

proof fn lemma_without_nothing(list: Seq<Seq<char>>, rm: Seq<Seq<char>>)
    requires
        forall|i: int| 0 <= i < list.len() ==> !rm.contains(#[trigger] list[i]),
    ensures
        without(list, rm) == list,
    decreases list.len(),
{
    if list.len() > 0 {
        let t = list.drop_last();
        assert forall|i: int| 0 <= i < t.len() implies !rm.contains(#[trigger] t[i]) by {
            assert(t[i] == list[i]);
        }
        lemma_without_nothing(t, rm);
        assert(!rm.contains(list[list.len() - 1]));
        assert(t.push(list.last()) =~= list);
    } else {
        assert(without(list, rm) =~= list);
    }
}

proof fn lemma_extended_nothing(list: Seq<Seq<char>>, add: Seq<Seq<char>>)
    requires
        forall|i: int| 0 <= i < add.len() ==> list.contains(#[trigger] add[i]),
    ensures
        extended(list, add) == list,
    decreases add.len(),
{
    if add.len() > 0 {
        let t = add.drop_last();
        assert forall|i: int| 0 <= i < t.len() implies list.contains(#[trigger] t[i]) by {
            assert(t[i] == add[i]);
        }
        lemma_extended_nothing(list, t);
        assert(list.contains(add[add.len() - 1]));
    }
}

/// Adding what is there and removing what is not changes nothing, the order included.
pub proof fn law_satisfied_change_is_no_change(
    current: Seq<Seq<char>>,
    add: Seq<Seq<char>>,
    rm: Seq<Seq<char>>,
)
    requires
        forall|i: int| 0 <= i < add.len() ==> current.contains(#[trigger] add[i]),
        forall|i: int| 0 <= i < current.len() ==> !rm.contains(#[trigger] current[i]),
    ensures
        merged_membership(current, add, rm) == current,
{
    lemma_without_nothing(current, rm);
    lemma_extended_nothing(current, add);
}

/// The same change made twice is made once, where nothing is both added and removed.
pub proof fn law_change_twice(current: Seq<Seq<char>>, add: Seq<Seq<char>>, rm: Seq<Seq<char>>)
    requires
        forall|i: int| 0 <= i < add.len() ==> !rm.contains(#[trigger] add[i]),
    ensures
        merged_membership(merged_membership(current, add, rm), add, rm) == merged_membership(
            current,
            add,
            rm,
        ),
{
    let once = merged_membership(current, add, rm);
    assert forall|i: int| 0 <= i < add.len() implies once.contains(#[trigger] add[i]) by {
        law_merged_members(current, add, rm, add[i]);
        assert(add.contains(add[i]));
    }
    assert forall|i: int| 0 <= i < once.len() implies !rm.contains(#[trigger] once[i]) by {
        law_merged_members(current, add, rm, once[i]);
        assert(once.contains(once[i]));
        if add.contains(once[i]) {
            let j = choose|j: int| 0 <= j < add.len() && add[j] == once[i];
            assert(!rm.contains(add[j]));
        }
    }
    law_satisfied_change_is_no_change(once, add, rm);
}

/// What an item keeps stays in its order, before everything that is added.
pub proof fn law_survivors_keep_their_order(
    current: Seq<Seq<char>>,
    add: Seq<Seq<char>>,
    rm: Seq<Seq<char>>,
)
    ensures
        without(current, rm).is_prefix_of(merged_membership(current, add, rm)),
{
    lemma_extended(without(current, rm), add);
}

proof fn lemma_flagged_keys(
    inputs: Seq<Seq<char>>,
    flag: Seq<char>,
    nodes: Seq<NodeView>,
    ts: Seq<TargetView>,
)
    requires
        flagged_keys(inputs, flag, nodes, ts) is Ok,
    ensures
        flagged_keys(inputs, flag, nodes, ts)->Ok_0.no_duplicates(),
        forall|i: int|
            0 <= i < inputs.len() ==> flagged_key(#[trigger] inputs[i], flag, nodes, ts) is Ok
                && flagged_keys(inputs, flag, nodes, ts)->Ok_0.contains(
                flagged_key(inputs[i], flag, nodes, ts)->Ok_0,
            ),
    decreases inputs.len(),
{
    if inputs.len() > 0 {
        let t = inputs.drop_last();
        lemma_flagged_keys(t, flag, nodes, ts);
        let head = flagged_keys(t, flag, nodes, ts)->Ok_0;
        let all = flagged_keys(inputs, flag, nodes, ts)->Ok_0;
        let last = flagged_key(inputs.last(), flag, nodes, ts)->Ok_0;
        assert forall|k: Seq<char>| head.contains(k) implies all.contains(k) by {
            let j = choose|j: int| 0 <= j < head.len() && head[j] == k;
            assert(all[j] == k);
        }
        assert(all.contains(last)) by {
            if !head.contains(last) {
                assert(all[all.len() - 1] == last);
            }
        }
        assert forall|i: int| 0 <= i < inputs.len() implies flagged_key(
            #[trigger] inputs[i],
            flag,
            nodes,
            ts,
        ) is Ok && all.contains(flagged_key(inputs[i], flag, nodes, ts)->Ok_0) by {
            if i < t.len() {
                assert(t[i] == inputs[i]);
            }
        }
    }
}

proof fn lemma_nothing_shared(a: Seq<Seq<char>>, b: Seq<Seq<char>>, i: int, k: int)
    requires
        first_shared(a, b, i) is None,
        0 <= i <= k < a.len(),
    ensures
        !b.contains(a[k]),
    decreases k - i,
{
    if i < k {
        lemma_nothing_shared(a, b, i + 1, k);
    }
}

/// Where an edit of collections goes ahead, every reference named a collection, each is listed once
/// however often it was named, and none is both added and removed.
pub proof fn law_edit_resolves_everything(
    add: Seq<Seq<char>>,
    rm: Seq<Seq<char>>,
    nodes: Seq<NodeView>,
    ts: Seq<TargetView>,
)
    requires
        collection_edit(add, rm, nodes, ts) is Ok,
    ensures
        ({
            let (added, removed) = collection_edit(add, rm, nodes, ts)->Ok_0;
            &&& added.no_duplicates() && removed.no_duplicates()
            &&& forall|k: Seq<char>| !(#[trigger] added.contains(k) && removed.contains(k))
            &&& forall|i: int|
                0 <= i < add.len() ==> flagged_key(
                    #[trigger] add[i],
                    "--add-collection"@,
                    nodes,
                    ts,
                ) is Ok && added.contains(
                    flagged_key(add[i], "--add-collection"@, nodes, ts)->Ok_0,
                )
            &&& forall|i: int|
                0 <= i < rm.len() ==> flagged_key(#[trigger] rm[i], "--rm-collection"@, nodes, ts)
                    is Ok && removed.contains(
                    flagged_key(rm[i], "--rm-collection"@, nodes, ts)->Ok_0,
                )
        }),
{
    let (added, removed) = collection_edit(add, rm, nodes, ts)->Ok_0;
    lemma_flagged_keys(add, "--add-collection"@, nodes, ts);
    lemma_flagged_keys(rm, "--rm-collection"@, nodes, ts);
    assert forall|k: Seq<char>| !(#[trigger] added.contains(k) && removed.contains(k)) by {
        if added.contains(k) {
            let i = choose|i: int| 0 <= i < added.len() && added[i] == k;
            lemma_nothing_shared(added, removed, 0, i);
        }
    }
}

} // verus!
