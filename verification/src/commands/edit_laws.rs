//! What an edit writes, in terms of what was asked for and what the item has.
use crate::commands::edit_cmd::asked_fields;
use crate::commands::edit_cmd::data_list;
use crate::commands::edit_cmd::is_edit;
use crate::commands::edit_cmd::key_list;
use crate::commands::edit_cmd::law_merged_members;
use crate::commands::edit_cmd::membership;
use crate::commands::edit_cmd::merged_membership;
use crate::commands::edit_cmd::tag_objects;
use crate::commands::edit_cmd::tags_in;
use crate::commands::edit_cmd::texts_in;
use crate::commands::edit_cmd::with_sets;
use crate::commands::edit_cmd::with_tags;
use crate::commands::edit_cmd::EditArgs;
use crate::commands::edit_cmd::EditStep;
use crate::commands::edit_cmd::Membership;
use crate::commands::edit_cmd::ResolvedCollections;
use crate::failure::Failure;
use crate::json::json_tree;
use crate::json::JsonTree;
use crate::text::lemma_index_of_is;
use crate::text::texts;
use crate::text::trimmed;
use vstd::prelude::*;

verus! {

/// The members of the body that an edit writes; none where it writes none.
pub open spec fn written(r: Result<EditStep, Failure>) -> Option<Map<Seq<char>, JsonTree>> {
    match r {
        Ok(EditStep::Write(body, _)) => match json_tree(body) {
            JsonTree::Object(m) => Some(m),
            _ => None,
        },
        _ => None,
    }
}

/// Whether a list of objects holds a tag.
pub open spec fn holds_tag(list: Seq<JsonTree>, tag: Seq<char>) -> bool {
    exists|i: int| 0 <= i < list.len() && (#[trigger] list[i]).member_text("tag"@) == Some(tag)
}

/// Whether a list holds a text.
pub open spec fn holds_text(list: Seq<JsonTree>, key: Seq<char>) -> bool {
    exists|i: int| 0 <= i < list.len() && #[trigger] list[i] == JsonTree::Text(key)
}

/// The list that an item has under a key of its data, as the server answers it.
pub open spec fn list_of_item(item: JsonTree, key: Seq<char>) -> Seq<JsonTree> {
    match item {
        JsonTree::Object(m) => if m.contains_key("data"@) {
            match m["data"@] {
                JsonTree::Object(d) => if d.contains_key(key) {
                    match d[key] {
                        JsonTree::Array(s) => s,
                        _ => Seq::empty(),
                    }
                } else {
                    Seq::empty()
                },
                _ => Seq::empty(),
            }
        } else {
            Seq::empty()
        },
        _ => Seq::empty(),
    }
}

proof fn lemma_data_list(item: JsonTree, key: Seq<char>)
    ensures
        data_list(item, key) == list_of_item(item, key),
{
}

proof fn lemma_tags_in(items: Seq<JsonTree>, tag: Seq<char>)
    ensures
        tags_in(items).contains(tag) <==> holds_tag(items, tag),
    decreases items.len(),
{
    if items.len() > 0 {
        let t = items.drop_last();
        lemma_tags_in(t, tag);
        let head = tags_in(t);
        let all = tags_in(items);
        assert(items[items.len() - 1] == items.last());
        if holds_tag(items, tag) {
            let i = choose|i: int|
                0 <= i < items.len() && (#[trigger] items[i]).member_text("tag"@) == Some(tag);
            if i < t.len() {
                assert(t[i].member_text("tag"@) == Some(tag));
                let k = choose|k: int| 0 <= k < head.len() && head[k] == tag;
                assert(all[k] == tag);
            } else {
                assert(all[all.len() - 1] == tag);
            }
        }
        if all.contains(tag) {
            let k = choose|k: int| 0 <= k < all.len() && all[k] == tag;
            if k < head.len() {
                assert(head[k] == tag);
                let i = choose|i: int|
                    0 <= i < t.len() && (#[trigger] t[i]).member_text("tag"@) == Some(tag);
                assert(items[i].member_text("tag"@) == Some(tag));
            }
        }
    }
}

/// The texts of a list are those that it holds.
pub proof fn lemma_texts_in(items: Seq<JsonTree>, key: Seq<char>)
    ensures
        texts_in(items).contains(key) <==> holds_text(items, key),
    decreases items.len(),
{
    if items.len() > 0 {
        let t = items.drop_last();
        lemma_texts_in(t, key);
        let head = texts_in(t);
        let all = texts_in(items);
        assert(items[items.len() - 1] == items.last());
        if holds_text(items, key) {
            let i = choose|i: int| 0 <= i < items.len() && #[trigger] items[i] == JsonTree::Text(key);
            if i < t.len() {
                assert(t[i] == JsonTree::Text(key));
                let k = choose|k: int| 0 <= k < head.len() && head[k] == key;
                assert(all[k] == key);
            } else {
                assert(all[all.len() - 1] == key);
            }
        }
        if all.contains(key) {
            let k = choose|k: int| 0 <= k < all.len() && all[k] == key;
            if k < head.len() {
                assert(head[k] == key);
                let i = choose|i: int| 0 <= i < t.len() && #[trigger] t[i] == JsonTree::Text(key);
                assert(items[i] == JsonTree::Text(key));
            }
        }
    }
}

proof fn lemma_tag_objects(tags: Seq<Seq<char>>, tag: Seq<char>)
    ensures
        tag_objects(tags) is Array,
        holds_tag(tag_objects(tags)->Array_0, tag) <==> tags.contains(tag),
{
    let list = tag_objects(tags)->Array_0;
    assert(list.len() == tags.len());
    assert forall|i: int| 0 <= i < tags.len() implies (#[trigger] list[i]).member_text("tag"@)
        == Some(tags[i]) by {}
    if tags.contains(tag) {
        let i = choose|i: int| 0 <= i < tags.len() && tags[i] == tag;
        assert(list[i].member_text("tag"@) == Some(tag));
    }
}

/// A list of keys holds the keys.
pub proof fn lemma_key_list(keys: Seq<Seq<char>>, key: Seq<char>)
    ensures
        key_list(keys) is Array,
        holds_text(key_list(keys)->Array_0, key) <==> keys.contains(key),
{
    let list = key_list(keys)->Array_0;
    assert(list.len() == keys.len());
    assert forall|i: int| 0 <= i < keys.len() implies #[trigger] list[i] == JsonTree::Text(
        keys[i],
    ) by {}
    if keys.contains(key) {
        let i = choose|i: int| 0 <= i < keys.len() && keys[i] == key;
        assert(list[i] == JsonTree::Text(key));
    }
}

proof fn lemma_words_differ()
    ensures
        "tags"@ != "collections"@,
{
    reveal_strlit("tags");
    reveal_strlit("collections");
    assert("tags"@.len() != "collections"@.len());
}

/// Whenever tags are to be added or removed, the body holds a list of tags, and a tag is in it exactly
/// where it is to be added, or where the item has it and it is not to be removed.
pub proof fn law_edit_writes_the_tags(
    r: Result<EditStep, Failure>,
    fields: Map<Seq<char>, JsonTree>,
    item: JsonTree,
    add: Seq<Seq<char>>,
    rm: Seq<Seq<char>>,
    change: Option<Membership>,
    tag: Seq<char>,
)
    requires
        is_edit(r, with_tags(fields, item, add, rm), change),
        add.len() > 0 || rm.len() > 0,
    ensures
        written(r) is Some,
        written(r).unwrap().contains_key("tags"@),
        written(r).unwrap()["tags"@] is Array,
        holds_tag(written(r).unwrap()["tags"@]->Array_0, tag) <==> add.contains(tag) || (holds_tag(
            list_of_item(item, "tags"@),
            tag,
        ) && !rm.contains(tag)),
{
    lemma_words_differ();
    lemma_data_list(item, "tags"@);
    let current = tags_in(data_list(item, "tags"@));
    lemma_tags_in(data_list(item, "tags"@), tag);
    law_merged_members(current, add, rm, tag);
    lemma_tag_objects(merged_membership(current, add, rm), tag);
    let all = with_tags(fields, item, add, rm);
    assert(all.contains_key("tags"@));
    assert(all != crate::json::no_members()) by {
        assert(!crate::json::no_members().contains_key("tags"@));
    }
}

/// A field that is asked for is written as it was asked for, tags and collections apart, and nothing
/// is written that was not asked for.
pub proof fn law_edit_writes_the_fields(
    r: Result<EditStep, Failure>,
    fields: Map<Seq<char>, JsonTree>,
    item: JsonTree,
    add: Seq<Seq<char>>,
    rm: Seq<Seq<char>>,
    change: Option<Membership>,
    k: Seq<char>,
)
    requires
        is_edit(r, with_tags(fields, item, add, rm), change),
        k != "tags"@ || (add.len() == 0 && rm.len() == 0),
        k != "collections"@ || change is None,
    ensures
        fields.contains_key(k) ==> written(r) is Some && written(r).unwrap().contains_key(k)
            && written(r).unwrap()[k] == fields[k],
        !fields.contains_key(k) && written(r) is Some ==> !written(r).unwrap().contains_key(k),
{
    let all = with_tags(fields, item, add, rm);
    if fields.contains_key(k) {
        assert(all.contains_key(k));
        assert(all != crate::json::no_members()) by {
            assert(!crate::json::no_members().contains_key(k));
        }
    }
}

/// After an edit, the item is in a collection exactly where it was added to it, or was in it and was
/// not removed from it. Where that is what it was in before, the list is not written.
pub proof fn law_edit_writes_the_collections(
    r: Result<EditStep, Failure>,
    fields: Map<Seq<char>, JsonTree>,
    item: JsonTree,
    c: ResolvedCollections,
    key: Seq<char>,
)
    requires
        is_edit(r, fields, Some(membership(item, c))),
        !fields.contains_key("collections"@),
    ensures
        r is Ok,
        ({
            let before = list_of_item(item, "collections"@);
            let after = match written(r) {
                Some(m) => if m.contains_key("collections"@) && m["collections"@] is Array {
                    m["collections"@]->Array_0
                } else {
                    before
                },
                None => before,
            };
            holds_text(after, key) <==> texts(c.add@).contains(key) || (holds_text(before, key)
                && !texts(c.rm@).contains(key))
        }),
{
    let before = list_of_item(item, "collections"@);
    lemma_data_list(item, "collections"@);
    let m = membership(item, c);
    lemma_texts_in(before, key);
    law_merged_members(m.current, texts(c.add@), texts(c.rm@), key);
    lemma_key_list(m.merged, key);
    if m.merged == m.current {
        assert(holds_text(before, key) <==> m.current.contains(key));
    }
}

/// An edit that asks for nothing that is to be written is no silent success: it is refused, unless
/// it asked for collections.
pub proof fn law_empty_edit_is_refused(r: Result<EditStep, Failure>, item: JsonTree)
    requires
        is_edit(r, with_tags(Map::empty(), item, Seq::empty(), Seq::empty()), None),
    ensures
        r is Err,
{
    assert(with_tags(Map::empty(), item, Seq::empty(), Seq::empty()) =~= Map::empty());
}

/// A `field=value` pair sets that field to everything behind the first `=`, whatever was set before,
/// and no other field.
pub proof fn law_set_pair_sets_its_field(
    start: Map<Seq<char>, JsonTree>,
    sets: Seq<Seq<char>>,
    field: Seq<char>,
    value: Seq<char>,
    other: Seq<char>,
)
    requires
        with_sets(start, sets) is Ok,
        forall|i: int| 0 <= i < field.len() ==> #[trigger] field[i] != '=',
        other != trimmed(field),
    ensures
        ({
            let before = with_sets(start, sets)->Ok_0;
            let after = with_sets(start, sets.push(field.push('=') + value));
            &&& after is Ok
            &&& after->Ok_0.contains_key(trimmed(field))
            &&& after->Ok_0[trimmed(field)] == JsonTree::Text(value)
            &&& after->Ok_0.contains_key(other) == before.contains_key(other)
            &&& before.contains_key(other) ==> after->Ok_0[other] == before[other]
        }),
{
    let pair = field.push('=') + value;
    let all = sets.push(pair);
    assert(all.drop_last() =~= sets);
    assert forall|k: int| 0 <= k < field.len() implies pair[k] != '=' by {
        assert(pair[k] == field[k]);
    }
    lemma_index_of_is(pair, '=', field.len() as int);
    assert(pair.take(field.len() as int) =~= field);
    assert(pair.skip(field.len() as int + 1) =~= value);
}

/// A pair without `=` is refused and quoted.
pub proof fn law_set_without_equals_is_refused(
    start: Map<Seq<char>, JsonTree>,
    sets: Seq<Seq<char>>,
    pair: Seq<char>,
)
    requires
        with_sets(start, sets) is Ok,
        !pair.contains('='),
    ensures
        with_sets(start, sets.push(pair)) == Err::<Map<Seq<char>, JsonTree>, Seq<char>>(
            "--set expects field=value, got: "@ + pair,
        ),
{
    crate::text::lemma_index_of(pair, '=');
    assert(sets.push(pair).drop_last() =~= sets);
}

/// The members of a patch are what is asked for, where no pair changes them; a patch that is no
/// object is refused.
pub proof fn law_patch_is_asked_for(m: Map<Seq<char>, JsonTree>, t: JsonTree)
    ensures
        asked_fields(Some(Ok(JsonTree::Object(m))), Seq::empty()) == Ok::<
            Map<Seq<char>, JsonTree>,
            Seq<char>,
        >(m),
        !(t is Object) ==> asked_fields(Some(Ok(t)), Seq::empty()) is Err,
        asked_fields(None, Seq::empty()) == Ok::<Map<Seq<char>, JsonTree>, Seq<char>>(Map::empty()),
{
}

/// Arguments ask for nothing only where every one of them is left out.
pub proof fn law_any_argument_asks_for_something(args: &EditArgs)
    ensures
        args.asks_nothing() <==> args.sets@.len() + args.add_tags@.len() + args.rm_tags@.len()
            + args.add_collections@.len() + args.rm_collections@.len() == 0 && args.patch is None,
        args.asks_collections() <==> args.add_collections@.len() + args.rm_collections@.len() > 0,
{
}

} // verus!
