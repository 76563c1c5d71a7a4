//! `zot add`: adding a paper through the connector, and filing it.
//!
//! The connector saves into one collection only. The first collection that is asked for is filed
//! on the spot; the others are added afterwards through the web API, once the new item has synced
//! up.
use crate::api::connector::target_views;
use crate::api::connector::SaveTarget;
use crate::api::connector::TargetView;
use crate::api::models::author_names;
use crate::api::models::ZoteroItem;
use crate::api::resolve::Identifier;
use crate::api::resolve::IdentifierView;
use crate::collections::lookup::resolve_collection_ref;
use crate::collections::lookup::resolved;
use crate::collections::lookup::CollectionRef;
use crate::collections::lookup::RefView;
use crate::collections::pairing::LIBRARY_ROOT_ID;
use crate::collections::tree::node_views;
use crate::collections::tree::CollectionNode;
use crate::collections::tree::NodeView;
use crate::commands::collections_cmd::is_library_id;
use crate::commands::collections_cmd::PollStep;
use crate::commands::edit_cmd::current_collections;
use crate::commands::edit_cmd::data_list;
use crate::commands::edit_cmd::key_list;
use crate::commands::edit_cmd::key_value;
use crate::commands::edit_cmd::merge_collections;
use crate::commands::edit_cmd::merged_membership;
use crate::commands::edit_cmd::texts_in;
use crate::commands::tags_cmd::contains_folded;
use crate::commands::tags_cmd::has_folded;
use crate::failure::Failure;
use crate::index::store::gone_keys;
use crate::index::table::Table;
use crate::json::json_tree;
use crate::json::new_object;
use crate::json::no_members;
use crate::json::object_value;
use crate::json::set_member;
use crate::json::JsonTree;
use crate::lines::join;
use crate::lines::joined;
use crate::output::AddCollectionsOutput;
use crate::output::AddedItemOutput;
use crate::text::concat2;
use crate::text::concat3;
use crate::text::concat4;
use crate::text::concat5;
use crate::text::opt_int;
use crate::text::opt_text;
use crate::text::texts;
use vstd::prelude::*;

verus! {

/// Arguments of `zot add`.
pub struct AddArgs<'a> {
    pub identifier: Option<&'a str>,
    pub pdf: Option<&'a str>,
    /// The collections to file into; the library root where there are none.
    pub collections: Vec<String>,
    /// The library root on purpose.
    pub no_collection: bool,
    pub tags: Vec<String>,
    pub force: bool,
    pub no_index: bool,
    pub json: bool,
}

impl<'a> AddArgs<'a> {
    /// Why the arguments cannot be followed.
    pub open spec fn fault(&self) -> Option<Seq<char>> {
        if self.identifier is None && self.pdf is None {
            Some(
                "Nothing to add: pass an identifier (DOI/arXiv) and/or --pdf <file>."@,
            )
        } else if self.no_collection && self.collections@.len() > 0 {
            Some("--no-collection cannot be combined with --collection."@)
        } else {
            None
        }
    }

    /// Rejects arguments that name nothing to add or contradict each other.
    pub fn check(&self) -> (r: Result<(), Failure>)
        ensures
            match r {
                Ok(_) => self.fault() is None,
                Err(e) => self.fault() == Some(e@),
            },
    {
        if self.identifier.is_none() && self.pdf.is_none() {
            return Err(
                Failure {
                    message:
                        "Nothing to add: pass an identifier (DOI/arXiv) and/or --pdf <file>.".to_string(),
                },
            );
        }
        if self.no_collection && self.collections.len() > 0 {
            return Err(
                Failure {
                    message: "--no-collection cannot be combined with --collection.".to_string(),
                },
            );
        }
        Ok(())
    }

    /// The tags as the connector takes them; none where there are none.
    pub fn tags_text(&self) -> (r: Option<String>)
        ensures
            opt_text(r) == if self.tags@.len() > 0 {
                Some(joined(texts(self.tags@), ","@))
            } else {
                None
            },
    {
        if self.tags.len() > 0 {
            Some(join(self.tags.as_slice(), ","))
        } else {
            None
        }
    }
}

/// Whether an item is the work that an identifier names: a regular item with the identifier in its
/// DOI, its URL or its Extra field. A full-text match is not enough, since every paper that cites
/// a work mentions it.
pub open spec fn is_same_work(item: ZoteroItem, query: Seq<char>) -> bool {
    item.regular() && (has_folded(item.data.doi@, query) || has_folded(item.data.url@, query)
        || has_folded(item.data.extra@, query))
}

/// How the items that are already there are listed.
pub open spec fn duplicates_of(items: Seq<ZoteroItem>, query: Seq<char>) -> Seq<Seq<char>>
    decreases items.len(),
{
    if items.len() == 0 {
        Seq::empty()
    } else {
        let head = duplicates_of(items.drop_last(), query);
        let item = items.last();
        if is_same_work(item, query) {
            head.push("  ["@ + item.key@ + "] "@ + item.data.title@)
        } else {
            head
        }
    }
}

/// Refuses to add what is already in the library, given the items that a search for the identifier
/// found.
pub fn check_duplicates(id: &Identifier, found: &[ZoteroItem]) -> (r: Result<(), Failure>)
    ensures
        ({
            let listing = duplicates_of(found@, id@.query());
            match r {
                Ok(_) => listing.len() == 0,
                Err(e) => listing.len() > 0 && e@ == id@.shown()
                    + " already appears to be in the library:\n"@ + joined(listing, "\n"@)
                    + "\n  Use --force to add anyway."@,
            }
        }),
{
    let query = id.dedup_query();
    let mut listing: Vec<String> = Vec::new();
    let mut i: usize = 0;
    assert(texts(listing@) =~= Seq::empty());
    while i < found.len()
        invariant
            i <= found.len(),
            query@ == id@.query(),
            texts(listing@) == duplicates_of(found@.take(i as int), query@),
        decreases found.len() - i,
    {
        assert(found@.take(i as int + 1).drop_last() =~= found@.take(i as int));
        let item = &found[i];
        if item.is_regular_item() && (contains_folded(item.data.doi.as_str(), query)
            || contains_folded(item.data.url.as_str(), query) || contains_folded(
            item.data.extra.as_str(),
            query,
        )) {
            let ghost before = texts(listing@);
            let line = concat4("  [", item.key.as_str(), "] ", item.data.title.as_str());
            let ghost shown = line@;
            listing.push(line);
            assert(texts(listing@) =~= before.push(shown));
        }
        i += 1;
    }
    assert(found@.take(found@.len() as int) =~= found@);
    assert(texts(listing@).len() == listing@.len());
    if listing.len() > 0 {
        return Err(
            Failure {
                message: concat4(
                    id.display().as_str(),
                    " already appears to be in the library:\n",
                    join(listing.as_slice(), "\n").as_str(),
                    "\n  Use --force to add anyway.",
                ),
            },
        );
    }
    Ok(())
}

/// Whether some bytes start as a PDF file does.
pub open spec fn is_pdf_bytes(bytes: Seq<u8>) -> bool {
    bytes.len() >= 4 && bytes[0] == 37 && bytes[1] == 80 && bytes[2] == 68 && bytes[3] == 70
}

/// Rejects a file that does not start as a PDF does, before anything is written.
pub fn check_pdf(path: &str, bytes: &[u8]) -> (r: Result<(), Failure>)
    ensures
        match r {
            Ok(_) => is_pdf_bytes(bytes@),
            Err(e) => !is_pdf_bytes(bytes@) && e@ == path@ + " does not look like a PDF file"@,
        },
{
    if bytes.len() >= 4 && bytes[0] == 37 && bytes[1] == 80 && bytes[2] == 68 && bytes[3] == 70 {
        Ok(())
    } else {
        Err(Failure { message: concat2(path, " does not look like a PDF file") })
    }
}

/// A collection to file into, by its key.
#[derive(Debug)]
pub struct Filing {
    pub key: String,
    pub name: String,
}

/// A filing as the texts it holds.
pub type FilingView = (Seq<char>, Seq<char>);

/// The filings of a list.
pub open spec fn filing_views(v: Seq<Filing>) -> Seq<FilingView> {
    v.map_values(|f: Filing| (f.key@, f.name@))
}

/// Where a new item goes.
#[derive(Debug)]
pub struct AddTarget {
    /// The target that the connector saves into.
    pub connector_id: String,
    /// How the collection behind that target is shown; none where none was asked for.
    pub first: Option<String>,
    /// The collections that are added through the web API.
    pub rest: Vec<Filing>,
}

/// A target as the texts it holds.
pub struct AddTargetView {
    pub connector_id: Seq<char>,
    pub first: Option<Seq<char>>,
    pub rest: Seq<FilingView>,
}

impl View for AddTarget {
    type V = AddTargetView;

    open spec fn view(&self) -> AddTargetView {
        AddTargetView {
            connector_id: self.connector_id@,
            first: opt_text(self.first),
            rest: filing_views(self.rest@),
        }
    }
}

/// The error for a collection that the connector cannot save into.
pub open spec fn no_save_target(r: RefView, wanted: Seq<char>) -> Seq<char> {
    "Collection \""@ + r.name + "\" ("@ + (match r.key {
        Some(k) => k,
        None => wanted,
    })
        + ") has no connector save target, so `zot add` cannot file into it.\n  Pass a tree-view ID (e.g. C42) instead."@
}

/// The error for a reference without a key among several.
pub open spec fn not_among_several(r: RefView, wanted: Seq<char>) -> Seq<char> {
    let id = match r.connector_id {
        Some(id) => id,
        None => wanted,
    };
    if id.len() > 0 && id[0] == 'L' {
        id
            + " is a library root, which is only accepted as the only --collection.\n  The collections after the first are written by collection key, and a root has none."@
    } else {
        "Collection \""@ + r.name + "\" ("@ + id
            + ") is only known to the connector, most likely because it lives in a group library, so it is only accepted as the only --collection."@
    }
}

/// How a collection is shown: its name and its key, or its tree-view ID where it has no key.
pub open spec fn shown_filing(r: RefView) -> Seq<char> {
    r.name + " ("@ + (match (r.key, r.connector_id) {
        (Some(k), _) => k,
        (None, Some(id)) => id,
        (None, None) => Seq::empty(),
    }) + ")"@
}

/// Whether a key is among some filings.
pub open spec fn has_key(list: Seq<FilingView>, key: Seq<char>) -> bool {
    exists|i: int| 0 <= i < list.len() && (#[trigger] list[i]).0 == key
}

/// The collections that some references name, each once and without the first one's key; the first
/// error where there is one.
pub open spec fn further_filings(
    inputs: Seq<Seq<char>>,
    first: Seq<char>,
    nodes: Seq<NodeView>,
    ts: Seq<TargetView>,
) -> Result<Seq<FilingView>, Seq<char>>
    decreases inputs.len(),
{
    if inputs.len() == 0 {
        Ok(Seq::empty())
    } else {
        match further_filings(inputs.drop_last(), first, nodes, ts) {
            Ok(list) => match resolved(inputs.last(), nodes, ts) {
                Ok(r) => match r.key {
                    Some(key) => if key == first || has_key(list, key) {
                        Ok(list)
                    } else {
                        Ok(list.push((key, r.name)))
                    },
                    None => Err(not_among_several(r, inputs.last())),
                },
                Err(message) => Err(message),
            },
            Err(message) => Err(message),
        }
    }
}

/// Where a new item goes: the library root where no collection is asked for, else the first
/// collection's save target, with the others to be added by key.
pub open spec fn add_target(
    inputs: Seq<Seq<char>>,
    nodes: Seq<NodeView>,
    ts: Seq<TargetView>,
) -> Result<AddTargetView, Seq<char>> {
    if inputs.len() == 0 {
        Ok(AddTargetView { connector_id: "L1"@, first: None, rest: Seq::empty() })
    } else {
        match resolved(inputs[0], nodes, ts) {
            Ok(r) => match r.connector_id {
                Some(id) => if inputs.len() == 1 {
                    Ok(
                        AddTargetView {
                            connector_id: id,
                            first: Some(shown_filing(r)),
                            rest: Seq::empty(),
                        },
                    )
                } else {
                    match r.key {
                        Some(key) => match further_filings(
                            inputs.drop_first(),
                            key,
                            nodes,
                            ts,
                        ) {
                            Ok(rest) => Ok(
                                AddTargetView {
                                    connector_id: id,
                                    first: Some(shown_filing(r)),
                                    rest,
                                },
                            ),
                            Err(message) => Err(message),
                        },
                        None => Err(not_among_several(r, inputs[0])),
                    }
                },
                None => Err(no_save_target(r, inputs[0])),
            },
            Err(message) => Err(message),
        }
    }
}

/// The view of a target.
pub open spec fn target_result(r: Result<AddTarget, Failure>) -> Result<AddTargetView, Seq<char>> {
    match r {
        Ok(t) => Ok(t@),
        Err(e) => Err(e@),
    }
}

fn several_error(r: &CollectionRef, wanted: &str) -> (f: Failure)
    ensures
        f@ == not_among_several(r@, wanted@),
{
    let id = match &r.connector_id {
        Some(id) => id.as_str(),
        None => wanted,
    };
    if is_library_id(id) {
        Failure {
            message: concat2(
                id,
                " is a library root, which is only accepted as the only --collection.\n  The collections after the first are written by collection key, and a root has none.",
            ),
        }
    } else {
        Failure {
            message: concat5(
                "Collection \"",
                r.name.as_str(),
                "\" (",
                id,
                ") is only known to the connector, most likely because it lives in a group library, so it is only accepted as the only --collection.",
            ),
        }
    }
}

fn shown_reference(r: &CollectionRef) -> (s: String)
    ensures
        s@ == shown_filing(r@),
{
    let id = match (&r.key, &r.connector_id) {
        (Some(k), _) => k.as_str(),
        (None, Some(id)) => id.as_str(),
        (None, None) => "",
    };
    proof {
        reveal_strlit("");
        assert(""@ =~= Seq::empty());
    }
    concat4(r.name.as_str(), " (", id, ")")
}

fn lists_key(list: &[Filing], key: &String) -> (r: bool)
    ensures
        r == has_key(filing_views(list@), key@),
{
    let ghost all = filing_views(list@);
    let mut i: usize = 0;
    while i < list.len()
        invariant
            i <= list.len(),
            all == filing_views(list@),
            forall|k: int| 0 <= k < i ==> (#[trigger] all[k]).0 != key@,
        decreases list.len() - i,
    {
        assert(all[i as int].0 == list@[i as int].key@);
        if list[i].key == *key {
            return true;
        }
        i += 1;
    }
    false
}

proof fn lemma_further_err(
    inputs: Seq<Seq<char>>,
    first: Seq<char>,
    nodes: Seq<NodeView>,
    ts: Seq<TargetView>,
    n: int,
)
    requires
        0 <= n <= inputs.len(),
        further_filings(inputs.take(n), first, nodes, ts) is Err,
    ensures
        further_filings(inputs, first, nodes, ts) == further_filings(
            inputs.take(n),
            first,
            nodes,
            ts,
        ),
    decreases inputs.len() - n,
{
    if n < inputs.len() {
        assert(inputs.take(n + 1).drop_last() =~= inputs.take(n));
        lemma_further_err(inputs, first, nodes, ts, n + 1);
    } else {
        assert(inputs.take(n) =~= inputs);
    }
}

fn resolve_further(
    inputs: &[String],
    first: &String,
    nodes: &[CollectionNode],
    targets: &[SaveTarget],
) -> (r: Result<Vec<Filing>, Failure>)
    requires
        inputs@.len() > 0,
    ensures
        match r {
            Ok(list) => further_filings(
                texts(inputs@).drop_first(),
                first@,
                node_views(nodes@),
                target_views(targets@),
            ) == Ok::<_, Seq<char>>(filing_views(list@)),
            Err(e) => further_filings(
                texts(inputs@).drop_first(),
                first@,
                node_views(nodes@),
                target_views(targets@),
            ) == Err::<Seq<FilingView>, _>(e@),
        },
{
    let ghost all = texts(inputs@).drop_first();
    let ghost views = node_views(nodes@);
    let ghost ts = target_views(targets@);
    let mut list: Vec<Filing> = Vec::new();
    let mut i: usize = 1;
    assert(filing_views(list@) =~= Seq::empty());
    assert(all.take(0) =~= Seq::empty());
    while i < inputs.len()
        invariant
            1 <= i <= inputs.len(),
            all == texts(inputs@).drop_first(),
            views == node_views(nodes@),
            ts == target_views(targets@),
            further_filings(all.take(i as int - 1), first@, views, ts) == Ok::<_, Seq<char>>(
                filing_views(list@),
            ),
        decreases inputs.len() - i,
    {
        assert(all.take(i as int).drop_last() =~= all.take(i as int - 1));
        assert(all.take(i as int).last() == inputs@[i as int]@);
        match resolve_collection_ref(inputs[i].as_str(), nodes, targets) {
            Ok(found) => match &found.key {
                Some(key) => {
                    if *key != *first && !lists_key(&list, key) {
                        let ghost before = filing_views(list@);
                        let f = Filing { key: key.clone(), name: found.name.clone() };
                        let ghost view = (f.key@, f.name@);
                        list.push(f);
                        assert(filing_views(list@) =~= before.push(view));
                    }
                },
                None => {
                    proof {
                        lemma_further_err(all, first@, views, ts, i as int);
                    }
                    return Err(several_error(&found, inputs[i].as_str()));
                },
            },
            Err(e) => {
                proof {
                    lemma_further_err(all, first@, views, ts, i as int);
                }
                return Err(e);
            },
        }
        i += 1;
    }
    assert(all.take(all.len() as int) =~= all);
    Ok(list)
}

/// Resolves every collection that is asked for before anything is written, so that a typo in the
/// second one fails before the item exists.
pub fn resolve_target(
    collections: &[String],
    nodes: &[CollectionNode],
    targets: &[SaveTarget],
) -> (r: Result<AddTarget, Failure>)
    ensures
        target_result(r) == add_target(
            texts(collections@),
            node_views(nodes@),
            target_views(targets@),
        ),
{
    if collections.len() == 0 {
        let t = AddTarget {
            connector_id: LIBRARY_ROOT_ID.to_string(),
            first: None,
            rest: Vec::new(),
        };
        assert(filing_views(t.rest@) =~= Seq::empty());
        return Ok(t);
    }
    let wanted = collections[0].as_str();
    assert(texts(collections@)[0] == wanted@);
    let found = match resolve_collection_ref(wanted, nodes, targets) {
        Ok(c) => c,
        Err(e) => {
            return Err(e);
        },
    };
    let id = match &found.connector_id {
        Some(id) => id.clone(),
        None => {
            let shown = match &found.key {
                Some(k) => k.as_str(),
                None => wanted,
            };
            return Err(
                Failure {
                    message: concat5(
                        "Collection \"",
                        found.name.as_str(),
                        "\" (",
                        shown,
                        ") has no connector save target, so `zot add` cannot file into it.\n  Pass a tree-view ID (e.g. C42) instead.",
                    ),
                },
            );
        },
    };
    let first = shown_reference(&found);
    if collections.len() == 1 {
        let t = AddTarget { connector_id: id, first: Some(first), rest: Vec::new() };
        assert(filing_views(t.rest@) =~= Seq::empty());
        return Ok(t);
    }
    match &found.key {
        Some(key) => match resolve_further(collections, key, nodes, targets) {
            Ok(rest) => Ok(AddTarget { connector_id: id, first: Some(first), rest }),
            Err(e) => Err(e),
        },
        None => Err(several_error(&found, wanted)),
    }
}

/// What follows once a PDF is saved: whether the metadata has to be imported separately, and what
/// to warn about.
pub open spec fn pdf_follow_up_of(recognized: bool, id: Option<IdentifierView>) -> (
    bool,
    Option<Seq<char>>,
) {
    match (recognized, id) {
        (false, Some(id)) => (
            true,
            Some(
                "PDF metadata recognition failed; imported metadata for "@ + id.shown()
                    + " separately. The PDF was saved as a standalone attachment -- join them with `zot attach <item-key> <file>` (or in the Zotero UI)."@,
            ),
        ),
        (false, None) => (
            false,
            Some(
                "Zotero could not recognize metadata from the PDF; it was saved as a standalone attachment."@,
            ),
        ),
        (true, Some(id)) => (
            false,
            Some(
                "Metadata came from Zotero's PDF recognizer; verify it matches "@ + id.shown()
                    + "."@,
            ),
        ),
        (true, None) => (false, None),
    }
}

/// Decides what follows once a PDF is saved.
pub fn pdf_follow_up(recognized: bool, id: Option<&Identifier>) -> (r: (bool, Option<String>))
    ensures
        (r.0, opt_text(r.1)) == pdf_follow_up_of(
            recognized,
            match id {
                Some(i) => Some(i@),
                None => None,
            },
        ),
{
    match (recognized, id) {
        (false, Some(id)) => (
            true,
            Some(
                concat3(
                    "PDF metadata recognition failed; imported metadata for ",
                    id.display().as_str(),
                    " separately. The PDF was saved as a standalone attachment -- join them with `zot attach <item-key> <file>` (or in the Zotero UI).",
                ),
            ),
        ),
        (false, None) => (
            false,
            Some(
                "Zotero could not recognize metadata from the PDF; it was saved as a standalone attachment.".to_string(),
            ),
        ),
        (true, Some(id)) => (
            false,
            Some(
                concat3(
                    "Metadata came from Zotero's PDF recognizer; verify it matches ",
                    id.display().as_str(),
                    ".",
                ),
            ),
        ),
        (true, None) => (false, None),
    }
}

/// The keys that were not there before.
pub fn new_keys(after: &Table<u64>, before: &Table<u64>) -> (r: Vec<String>)
    requires
        after.wf(),
        before.wf(),
    ensures
        texts(r@) == gone_keys(after.entries@, before@),
{
    crate::index::store::compute_sync_diff(before, after).to_delete
}

/// A new item as it is reported.
pub open spec fn is_added_row(row: AddedItemOutput, item: ZoteroItem) -> bool {
    &&& row.key@ == item.key@
    &&& row.title@ == item.data.title@
    &&& row.item_type@ == item.data.item_type@
    &&& row.creators@ == joined(author_names(item.data.creators@), "; "@)
    &&& row.date@ == item.data.date@
    &&& row.doi@ == item.data.doi@
}

/// The new items as they are reported.
pub fn added_rows(items: &[ZoteroItem]) -> (r: Vec<AddedItemOutput>)
    ensures
        r@.len() == items@.len(),
        forall|i: int| 0 <= i < r@.len() ==> is_added_row(#[trigger] r@[i], items@[i]),
{
    let mut out: Vec<AddedItemOutput> = Vec::new();
    let mut i: usize = 0;
    while i < items.len()
        invariant
            i <= items.len(),
            out@.len() == i,
            forall|k: int| 0 <= k < i ==> is_added_row(#[trigger] out@[k], items@[k]),
        decreases items.len() - i,
    {
        let item = &items[i];
        out.push(
            AddedItemOutput {
                key: item.key.clone(),
                title: item.data.title.clone(),
                item_type: item.data.item_type.clone(),
                creators: item.creators_string(),
                date: item.data.date.clone(),
                doi: item.data.doi.clone(),
            },
        );
        i += 1;
    }
    out
}

/// The warning where nothing new can be found.
pub fn nothing_found() -> (r: String)
    ensures
        r@ == "Could not identify the newly created item (no new top-level keys found)."@,
{
    "Could not identify the newly created item (no new top-level keys found).".to_string()
}

/// How some filings are shown.
pub open spec fn shown_filings(list: Seq<FilingView>) -> Seq<Seq<char>> {
    list.map_values(|f: FilingView| f.1 + " ("@ + f.0 + ")"@)
}

/// The flags that add some filings.
pub open spec fn filing_flags(list: Seq<FilingView>) -> Seq<char>
    decreases list.len(),
{
    if list.len() == 0 {
        Seq::empty()
    } else {
        filing_flags(list.drop_last()) + " --add-collection "@ + list.last().0
    }
}

/// What is reported of the filing of a new item: where it is, and where it is not yet with the
/// command that finishes it.
pub open spec fn is_filing_report(
    out: Option<AddCollectionsOutput>,
    target: AddTargetView,
    item_key: Seq<char>,
    rest_written: bool,
) -> bool {
    match target.first {
        Some(first) => out is Some && {
            let o = out.unwrap();
            if rest_written || target.rest.len() == 0 {
                &&& texts(o.filed@) == seq![first] + shown_filings(target.rest)
                &&& o.pending@.len() == 0
                &&& o.fix_command is None
            } else {
                &&& texts(o.filed@) == seq![first]
                &&& texts(o.pending@) == shown_filings(target.rest)
                &&& opt_text(o.fix_command) == Some(
                    "zot edit "@ + item_key + filing_flags(target.rest),
                )
            }
        },
        None => out is None,
    }
}

fn filing_texts(list: &[Filing]) -> (r: Vec<String>)
    ensures
        texts(r@) == shown_filings(filing_views(list@)),
{
    let ghost want = shown_filings(filing_views(list@));
    let mut out: Vec<String> = Vec::new();
    let mut i: usize = 0;
    while i < list.len()
        invariant
            i <= list.len(),
            want == shown_filings(filing_views(list@)),
            texts(out@) == want.take(i as int),
        decreases list.len() - i,
    {
        let s = concat4(list[i].name.as_str(), " (", list[i].key.as_str(), ")");
        let ghost before = texts(out@);
        let ghost shown = s@;
        assert(shown == want[i as int]);
        out.push(s);
        assert(texts(out@) =~= before.push(shown));
        assert(texts(out@) =~= want.take(i as int + 1));
        i += 1;
    }
    assert(texts(out@) =~= want);
    out
}

fn fix_command(item_key: &str, list: &[Filing]) -> (r: String)
    ensures
        r@ == "zot edit "@ + item_key@ + filing_flags(filing_views(list@)),
{
    let ghost all = filing_views(list@);
    let mut out = concat2("zot edit ", item_key);
    let ghost head = out@;
    let mut i: usize = 0;
    assert(out@ =~= head + filing_flags(all.take(0)));
    while i < list.len()
        invariant
            i <= list.len(),
            all == filing_views(list@),
            out@ == head + filing_flags(all.take(i as int)),
        decreases list.len() - i,
    {
        assert(all.take(i as int + 1).drop_last() =~= all.take(i as int));
        assert(all.take(i as int + 1).last() == (list@[i as int].key@, list@[i as int].name@));
        out.push_str(" --add-collection ");
        out.push_str(list[i].key.as_str());
        assert(out@ =~= head + filing_flags(all.take(i as int + 1)));
        i += 1;
    }
    assert(all.take(all.len() as int) =~= all);
    out
}

/// Reports the filing of a new item, given whether the collections after the first were written.
pub fn filing_report(target: &AddTarget, item_key: &str, rest_written: bool) -> (r: Option<
    AddCollectionsOutput,
>)
    ensures
        is_filing_report(r, target@, item_key@, rest_written),
{
    match &target.first {
        Some(first) => {
            let mut filed: Vec<String> = Vec::new();
            filed.push(first.clone());
            assert(texts(filed@) =~= seq![first@]);
            let mut rest = filing_texts(&target.rest);
            assert(target@.rest.len() == target.rest@.len());
            if rest_written || target.rest.len() == 0 {
                let ghost more = texts(rest@);
                filed.append(&mut rest);
                assert(texts(filed@) =~= seq![first@] + more);
                Some(AddCollectionsOutput { filed, pending: Vec::new(), fix_command: None })
            } else {
                Some(
                    AddCollectionsOutput {
                        filed,
                        pending: rest,
                        fix_command: Some(fix_command(item_key, &target.rest)),
                    },
                )
            }
        },
        None => None,
    }
}

/// The fields that add some collections to an item's membership.
pub open spec fn filing_body_of(item: JsonTree, rest: Seq<FilingView>) -> JsonTree {
    JsonTree::Object(
        no_members().insert(
            "collections"@,
            key_list(
                merged_membership(
                    texts_in(data_list(item, "collections"@)),
                    rest.map_values(|f: FilingView| f.0),
                    Seq::empty(),
                ),
            ),
        ),
    )
}

/// The body of the update that adds the collections after the first, computed from the item as it
/// is.
pub fn filing_body(item: &serde_json::Value, rest: &[Filing]) -> (r: serde_json::Value)
    ensures
        json_tree(r) == filing_body_of(json_tree(*item), filing_views(rest@)),
{
    let ghost want = filing_views(rest@).map_values(|f: FilingView| f.0);
    let mut keys: Vec<String> = Vec::new();
    let mut i: usize = 0;
    while i < rest.len()
        invariant
            i <= rest.len(),
            want == filing_views(rest@).map_values(|f: FilingView| f.0),
            texts(keys@) == want.take(i as int),
        decreases rest.len() - i,
    {
        let ghost before = texts(keys@);
        keys.push(rest[i].key.clone());
        assert(texts(keys@) =~= before.push(rest@[i as int].key@));
        assert(texts(keys@) =~= want.take(i as int + 1));
        i += 1;
    }
    assert(texts(keys@) =~= want);
    let none: Vec<String> = Vec::new();
    assert(texts(none@) =~= Seq::empty());
    let merged = merge_collections(&current_collections(item), keys.as_slice(), none.as_slice());
    let mut m = new_object();
    set_member(&mut m, "collections".to_string(), key_value(&merged));
    object_value(m)
}

/// How long to wait for a new item to be synced up, in milliseconds.
pub const SYNC_UP_TIMEOUT_MS: u64 = 60_000;

/// Gap between probes while waiting for that, in milliseconds.
pub const SYNC_UP_INTERVAL_MS: u64 = 2_000;

/// Decides what follows a probe that found the new item on api.zotero.org or not.
pub fn sync_up_step(found: bool, elapsed_ms: u64) -> (r: PollStep)
    ensures
        r == if found {
            PollStep::Synced
        } else if elapsed_ms + SYNC_UP_INTERVAL_MS >= SYNC_UP_TIMEOUT_MS {
            PollStep::TimedOut
        } else {
            PollStep::Wait(elapsed_ms < SYNC_UP_INTERVAL_MS)
        },
        found <==> r == PollStep::Synced,
        !found && elapsed_ms >= 58_000 ==> r == PollStep::TimedOut,
        !found && elapsed_ms < 58_000 ==> r == PollStep::Wait(elapsed_ms < 2_000),
{
    if found {
        PollStep::Synced
    } else if elapsed_ms >= SYNC_UP_TIMEOUT_MS - SYNC_UP_INTERVAL_MS {
        PollStep::TimedOut
    } else {
        PollStep::Wait(elapsed_ms < SYNC_UP_INTERVAL_MS)
    }
}

/// The first regular item among those from `i` on.
pub open spec fn first_regular(items: Seq<ZoteroItem>, i: int) -> Option<int>
    decreases items.len() - i,
{
    if i < 0 || i >= items.len() {
        None
    } else if items[i].regular() {
        Some(i)
    } else {
        first_regular(items, i + 1)
    }
}

/// Which of the new items is filed: the first regular one, else the first.
pub open spec fn item_to_file(items: Seq<ZoteroItem>) -> Option<int> {
    match first_regular(items, 0) {
        Some(i) => Some(i),
        None => if items.len() > 0 {
            Some(0)
        } else {
            None
        },
    }
}

/// Chooses which of the new items is filed: the first regular one, else the first.
pub fn filed_item(items: &[ZoteroItem]) -> (r: Option<usize>)
    ensures
        opt_int(r) == item_to_file(items@),
        r is Some ==> r.unwrap() < items@.len(),
{
    let mut i: usize = 0;
    while i < items.len()
        invariant
            i <= items.len(),
            first_regular(items@, 0) == first_regular(items@, i as int),
        decreases items.len() - i,
    {
        if items[i].is_regular_item() {
            return Some(i);
        }
        i += 1;
    }
    if items.len() > 0 {
        Some(0)
    } else {
        None
    }
}

/// The warning for a new item that no collection was asked for. An attachment on its own is a
/// stray to reparent, not an item to file.
pub open spec fn unfiled_text(items: Seq<ZoteroItem>) -> Option<Seq<char>> {
    match first_regular(items, 0) {
        Some(i) => Some(
            "Warning: ["@ + items[i].key@
                + "] is in no collection. File it with: zot edit "@ + items[i].key@
                + " --add-collection <collection>"@,
        ),
        None => if items.len() > 0 {
            Some(
                "Warning: ["@ + items[0].key@
                    + "] is a standalone attachment. Reparent it with: zot attach <item-key> <file>"@,
            )
        } else {
            None
        },
    }
}

/// The warning for new items that no collection was asked for, unless the library root was meant.
pub fn unfiled_warning(args: &AddArgs, items: &[ZoteroItem]) -> (r: Option<String>)
    ensures
        opt_text(r) == if args.no_collection || args.collections@.len() > 0 {
            None
        } else {
            unfiled_text(items@)
        },
{
    if args.no_collection || args.collections.len() > 0 {
        return None;
    }
    let mut i: usize = 0;
    while i < items.len()
        invariant
            i <= items.len(),
            !args.no_collection,
            args.collections@.len() == 0,
            first_regular(items@, 0) == first_regular(items@, i as int),
        decreases items.len() - i,
    {
        if items[i].is_regular_item() {
            return Some(
                concat5(
                    "Warning: [",
                    items[i].key.as_str(),
                    "] is in no collection. File it with: zot edit ",
                    items[i].key.as_str(),
                    " --add-collection <collection>",
                ),
            );
        }
        i += 1;
    }
    if items.len() > 0 {
        Some(
            concat3(
                "Warning: [",
                items[0].key.as_str(),
                "] is a standalone attachment. Reparent it with: zot attach <item-key> <file>",
            ),
        )
    } else {
        None
    }
}

/// However often and in whatever form a collection is named, a new item is filed into it once: the
/// collections after the first have distinct keys, none of them the first one's.
pub proof fn law_each_collection_once(
    inputs: Seq<Seq<char>>,
    first: Seq<char>,
    nodes: Seq<NodeView>,
    ts: Seq<TargetView>,
)
    requires
        further_filings(inputs, first, nodes, ts) is Ok,
    ensures
        ({
            let list = further_filings(inputs, first, nodes, ts)->Ok_0;
            &&& forall|i: int| 0 <= i < list.len() ==> (#[trigger] list[i]).0 != first
            &&& forall|i: int, j: int|
                0 <= i < j < list.len() ==> (#[trigger] list[i]).0 != (#[trigger] list[j]).0
        }),
    decreases inputs.len(),
{
    if inputs.len() > 0 {
        law_each_collection_once(inputs.drop_last(), first, nodes, ts);
    }
}

/// An add is refused exactly when the library has the work: an item with the identifier in its DOI,
/// its URL or its Extra field. An item that only mentions it elsewhere does not count.
pub proof fn law_refused_iff_same_work(items: Seq<ZoteroItem>, query: Seq<char>)
    ensures
        duplicates_of(items, query).len() > 0 <==> exists|i: int|
            0 <= i < items.len() && is_same_work(#[trigger] items[i], query),
    decreases items.len(),
{
    if items.len() > 0 {
        let t = items.drop_last();
        law_refused_iff_same_work(t, query);
        assert(items[items.len() - 1] == items.last());
        if exists|i: int| 0 <= i < t.len() && is_same_work(#[trigger] t[i], query) {
            let i = choose|i: int| 0 <= i < t.len() && is_same_work(#[trigger] t[i], query);
            assert(is_same_work(items[i], query));
        }
        if exists|i: int| 0 <= i < items.len() && is_same_work(#[trigger] items[i], query) {
            let i = choose|i: int| 0 <= i < items.len() && is_same_work(#[trigger] items[i], query);
            if i < t.len() {
                assert(is_same_work(t[i], query));
            }
        }
    }
}

} // verus!
