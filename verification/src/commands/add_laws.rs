//! What adding a work refuses, files and reports.
use crate::api::connector::TargetView;
use crate::api::models::ZoteroItem;
use crate::api::resolve::IdentifierView;
use crate::collections::lookup::resolved;
use crate::collections::tree::NodeView;
use crate::commands::add_cmd::add_target;
use crate::commands::add_cmd::duplicates_of;
use crate::commands::add_cmd::filing_body_of;
use crate::commands::add_cmd::filing_flags;
use crate::commands::add_cmd::first_regular;
use crate::commands::add_cmd::further_filings;
use crate::commands::add_cmd::has_key;
use crate::commands::add_cmd::is_filing_report;
use crate::commands::add_cmd::is_pdf_bytes;
use crate::commands::add_cmd::is_same_work;
use crate::commands::add_cmd::item_to_file;
use crate::commands::add_cmd::pdf_follow_up_of;
use crate::commands::add_cmd::AddArgs;
use crate::commands::add_cmd::AddTargetView;
use crate::commands::add_cmd::FilingView;
use crate::commands::edit_cmd::data_list;
use crate::commands::edit_cmd::key_list;
use crate::commands::edit_cmd::law_merged_members;
use crate::commands::edit_cmd::merged_membership;
use crate::commands::edit_cmd::texts_in;
use crate::commands::edit_laws::holds_text;
use crate::commands::edit_laws::lemma_key_list;
use crate::commands::edit_laws::lemma_texts_in;
use crate::commands::edit_laws::list_of_item;
use crate::commands::listing_laws::law_filter_finds_its_text;
use crate::json::JsonTree;
use crate::output::AddCollectionsOutput;
use crate::text::all_ascii;
use vstd::prelude::*;

verus! {

/// Arguments are refused exactly where they name nothing to add, or ask both for collections and for
/// none.
pub proof fn law_add_arguments(args: &AddArgs)
    ensures
        args.fault() is None <==> (args.identifier is Some || args.pdf is Some) && !(
        args.no_collection && args.collections@.len() > 0),
{
}

/// A work is in the library already where its identifier stands in the DOI, the URL or the Extra
/// field of a work, whatever the case; an attachment, a note or an annotation is never the work.
pub proof fn law_known_work_is_a_duplicate(
    item: ZoteroItem,
    query: Seq<char>,
    a: Seq<char>,
    b: Seq<char>,
)
    requires
        all_ascii(a),
        all_ascii(b),
        all_ascii(query),
        item.data.doi@ == a + query + b || item.data.url@ == a + query + b || item.data.extra@ == a
            + query + b,
    ensures
        is_same_work(item, query) <==> item.data.item_type@ != "attachment"@
            && item.data.item_type@ != "note"@ && item.data.item_type@ != "annotation"@,
        item.data.item_type@ != "attachment"@ && item.data.item_type@ != "note"@
            && item.data.item_type@ != "annotation"@ ==> duplicates_of(seq![item], query).len() == 1,
{
    law_filter_finds_its_text(a, query, query, b);
    assert(seq![item].drop_last() =~= Seq::empty());
    assert(duplicates_of(seq![item].drop_last(), query) =~= Seq::empty());
}

/// A file is taken for a PDF exactly where it starts with `%PDF`.
pub proof fn law_pdf_starts_with_its_mark(bytes: Seq<u8>)
    ensures
        is_pdf_bytes(bytes) <==> bytes.len() >= 4 && bytes[0] == '%' as u8 && bytes[1] == 'P' as u8
            && bytes[2] == 'D' as u8 && bytes[3] == 'F' as u8,
{
}

proof fn lemma_further(
    inputs: Seq<Seq<char>>,
    first: Seq<char>,
    nodes: Seq<NodeView>,
    ts: Seq<TargetView>,
    i: int,
)
    requires
        further_filings(inputs, first, nodes, ts) is Ok,
        0 <= i < inputs.len(),
    ensures
        resolved(inputs[i], nodes, ts) is Ok,
        resolved(inputs[i], nodes, ts)->Ok_0.key is Some,
        ({
            let key = resolved(inputs[i], nodes, ts)->Ok_0.key.unwrap();
            key == first || has_key(further_filings(inputs, first, nodes, ts)->Ok_0, key)
        }),
    decreases inputs.len(),
{
    let t = inputs.drop_last();
    let head = further_filings(t, first, nodes, ts)->Ok_0;
    let all = further_filings(inputs, first, nodes, ts)->Ok_0;
    assert(inputs[inputs.len() - 1] == inputs.last());
    if i < t.len() {
        lemma_further(t, first, nodes, ts, i);
        assert(t[i] == inputs[i]);
        let key = resolved(inputs[i], nodes, ts)->Ok_0.key.unwrap();
        if key != first {
            let k = choose|k: int| 0 <= k < head.len() && (#[trigger] head[k]).0 == key;
            assert(all[k].0 == key);
        }
    } else {
        let key = resolved(inputs[i], nodes, ts)->Ok_0.key.unwrap();
        if key != first {
            if has_key(head, key) {
                let k = choose|k: int| 0 <= k < head.len() && (#[trigger] head[k]).0 == key;
                assert(all[k].0 == key);
            } else {
                assert(all[all.len() - 1].0 == key);
            }
        }
    }
}

/// A new item goes into every collection that was asked for: into the first through the connector,
/// under the ID that the reference resolves to, and into each of the others by its key. Without any
/// it goes into the library root.
pub proof fn law_every_collection_is_filed_into(
    inputs: Seq<Seq<char>>,
    nodes: Seq<NodeView>,
    ts: Seq<TargetView>,
    i: int,
)
    requires
        add_target(inputs, nodes, ts) is Ok,
    ensures
        ({
            let target = add_target(inputs, nodes, ts)->Ok_0;
            &&& inputs.len() == 0 ==> target.connector_id == "L1"@ && target.first is None
                && target.rest.len() == 0
            &&& inputs.len() > 0 ==> resolved(inputs[0], nodes, ts) is Ok && resolved(
                inputs[0],
                nodes,
                ts,
            )->Ok_0.connector_id == Some(target.connector_id) && target.first is Some
            &&& 1 <= i < inputs.len() ==> {
                &&& resolved(inputs[i], nodes, ts) is Ok
                &&& resolved(inputs[i], nodes, ts)->Ok_0.key is Some
                &&& resolved(inputs[i], nodes, ts)->Ok_0.key == resolved(
                    inputs[0],
                    nodes,
                    ts,
                )->Ok_0.key || has_key(
                    target.rest,
                    resolved(inputs[i], nodes, ts)->Ok_0.key.unwrap(),
                )
            }
        }),
{
    if 1 <= i < inputs.len() {
        let first = resolved(inputs[0], nodes, ts)->Ok_0.key.unwrap();
        lemma_further(inputs.drop_first(), first, nodes, ts, i - 1);
        assert(inputs.drop_first()[i - 1] == inputs[i]);
    }
}

/// Filing an item into more collections takes it out of none: the list that is written holds those
/// it is in and those it is filed into, and nothing else.
pub proof fn law_filing_adds_only(item: JsonTree, rest: Seq<FilingView>, key: Seq<char>)
    ensures
        filing_body_of(item, rest).member("collections"@) is Some,
        filing_body_of(item, rest).member("collections"@).unwrap() is Array,
        holds_text(filing_body_of(item, rest).member("collections"@).unwrap()->Array_0, key)
            <==> has_key(rest, key) || holds_text(list_of_item(item, "collections"@), key),
{
    let keys = rest.map_values(|f: FilingView| f.0);
    let current = texts_in(data_list(item, "collections"@));
    lemma_texts_in(list_of_item(item, "collections"@), key);
    law_merged_members(current, keys, Seq::empty(), key);
    lemma_key_list(merged_membership(current, keys, Seq::empty()), key);
    if has_key(rest, key) {
        let i = choose|i: int| 0 <= i < rest.len() && (#[trigger] rest[i]).0 == key;
        assert(keys[i] == key);
    }
    if keys.contains(key) {
        let i = choose|i: int| 0 <= i < keys.len() && keys[i] == key;
        assert(rest[i].0 == key);
    }
    assert(filing_body_of(item, rest).member("collections"@) == Some(
        key_list(merged_membership(current, keys, Seq::empty())),
    ));
}

/// Every collection is reported, as filed or as pending, and where any is pending there is a command
/// that finishes the work.
pub proof fn law_every_filing_is_reported(
    out: Option<AddCollectionsOutput>,
    target: AddTargetView,
    item_key: Seq<char>,
    rest_written: bool,
)
    requires
        is_filing_report(out, target, item_key, rest_written),
    ensures
        out is Some <==> target.first is Some,
        out is Some ==> {
            let o = out.unwrap();
            &&& o.filed@.len() + o.pending@.len() == 1 + target.rest.len()
            &&& o.pending@.len() > 0 <==> !rest_written && target.rest.len() > 0
            &&& o.fix_command is Some <==> o.pending@.len() > 0
        },
{
    if out is Some {
        let o = out.unwrap();
        assert(crate::text::texts(o.filed@).len() == o.filed@.len());
        assert(crate::text::texts(o.pending@).len() == o.pending@.len());
    }
}

/// The command that finishes the filing names every collection.
pub proof fn law_fix_command_names_every_collection(list: Seq<FilingView>, i: int) -> (at: int)
    requires
        0 <= i < list.len(),
    ensures
        ({
            let flag = " --add-collection "@ + list[i].0;
            &&& 0 <= at <= filing_flags(list).len() - flag.len()
            &&& filing_flags(list).subrange(at, at + flag.len()) == flag
        }),
    decreases list.len(),
{
    let t = list.drop_last();
    let flag = " --add-collection "@ + list[i].0;
    let all = filing_flags(list);
    let head = filing_flags(t);
    if i < t.len() {
        let at = law_fix_command_names_every_collection(t, i);
        assert(all.subrange(at, at + flag.len()) =~= head.subrange(at, at + flag.len()));
        at
    } else {
        let at = head.len() as int;
        assert(all.subrange(at, at + flag.len()) =~= flag);
        at
    }
}

/// Metadata are imported apart from a PDF exactly where Zotero did not recognize it and an identifier
/// was given; only a PDF that was recognized without an identifier to compare goes without a note.
pub proof fn law_pdf_follow_up(recognized: bool, id: Option<IdentifierView>)
    ensures
        pdf_follow_up_of(recognized, id).0 <==> !recognized && id is Some,
        pdf_follow_up_of(recognized, id).1 is None <==> recognized && id is None,
{
}

/// Of the new items, the first work is filed, and an attachment only where there is no work.
pub proof fn law_first_work_is_filed(items: Seq<ZoteroItem>)
    ensures
        match item_to_file(items) {
            Some(i) => 0 <= i < items.len() && (items[i].regular() || i == 0) && (forall|k: int|
                0 <= k < i ==> !(#[trigger] items[k]).regular()) && (!items[i].regular()
                ==> forall|k: int| 0 <= k < items.len() ==> !(#[trigger] items[k]).regular()),
            None => items.len() == 0,
        },
{
    lemma_first_regular(items, 0);
}

proof fn lemma_first_regular(items: Seq<ZoteroItem>, i: int)
    requires
        0 <= i,
    ensures
        match first_regular(items, i) {
            Some(k) => i <= k < items.len() && items[k].regular() && forall|j: int|
                i <= j < k ==> !(#[trigger] items[j]).regular(),
            None => forall|j: int| i <= j < items.len() ==> !(#[trigger] items[j]).regular(),
        },
    decreases items.len() - i,
{
    if i < items.len() && !items[i].regular() {
        lemma_first_regular(items, i + 1);
    }
}

} // verus!
