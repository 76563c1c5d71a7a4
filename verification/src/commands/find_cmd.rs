//! `zot find`, `zot get`, `zot pdf` and `zot rm`: reading items live, and trashing them.
use crate::api::models::author_names;
use crate::api::models::tag_texts;
use crate::api::models::Creator;
use crate::api::models::Tag;
use crate::api::models::ZoteroItem;
use crate::json::bool_value;
use crate::json::json_tree;
use crate::json::new_object;
use crate::json::no_members;
use crate::json::object_value;
use crate::json::opt_str;
use crate::json::set_member;
use crate::json::JsonTree;
use crate::lines::joined;
use crate::output::CreatorOutput;
use crate::output::FindOutput;
use crate::output::FindResultOutput;
use crate::output::ItemOutput;
use crate::output::PdfOutput;
use crate::output::RmOutput;
use crate::text::concat3;
use crate::text::opt_text;
use crate::text::same_text;
use crate::text::texts;
use vstd::prelude::*;

verus! {

/// The query that is sent: creators are matched through it, since the API has no parameter for
/// them.
pub fn effective_query(query: &str, creator: Option<&str>) -> (r: String)
    ensures
        r@ == match opt_str(creator) {
            Some(c) => query@ + " "@ + c,
            None => query@,
        },
{
    match creator {
        Some(c) => concat3(query, " ", c),
        None => query.to_string(),
    }
}

fn tag_list(tags: &[Tag]) -> (r: Vec<String>)
    ensures
        texts(r@) == tag_texts(tags@),
{
    let mut out: Vec<String> = Vec::new();
    let mut i: usize = 0;
    while i < tags.len()
        invariant
            i <= tags.len(),
            texts(out@) == tag_texts(tags@).take(i as int),
        decreases tags.len() - i,
    {
        let ghost before = texts(out@);
        out.push(tags[i].tag.clone());
        assert(texts(out@) =~= before.push(tags@[i as int].tag@));
        assert(texts(out@) =~= tag_texts(tags@).take(i as int + 1));
        i += 1;
    }
    assert(texts(out@) =~= tag_texts(tags@));
    out
}

/// A result of a search: the item it stands for.
pub open spec fn is_find_row(row: FindResultOutput, item: ZoteroItem) -> bool {
    &&& row.key@ == item.key@
    &&& row.title@ == item.data.title@
    &&& row.item_type@ == item.data.item_type@
    &&& row.creators@ == joined(author_names(item.data.creators@), "; "@)
    &&& row.date@ == item.data.date@
    &&& texts(row.tags@) == tag_texts(item.data.tags@)
    &&& row.doi@ == item.data.doi@
}

/// The regular items among some.
pub open spec fn regular_items(items: Seq<ZoteroItem>) -> Seq<ZoteroItem>
    decreases items.len(),
{
    if items.len() == 0 {
        Seq::empty()
    } else if items.last().regular() {
        regular_items(items.drop_last()).push(items.last())
    } else {
        regular_items(items.drop_last())
    }
}

/// What is answered to a search: every item that was found counts, the regular ones are listed.
pub fn find_output(query: &str, items: &[ZoteroItem]) -> (r: FindOutput)
    ensures
        r.query@ == query@,
        r.result_count == items@.len(),
        r.results@.len() == regular_items(items@).len(),
        forall|i: int|
            0 <= i < r.results@.len() ==> is_find_row(
                #[trigger] r.results@[i],
                regular_items(items@)[i],
            ),
{
    let mut results: Vec<FindResultOutput> = Vec::new();
    let mut i: usize = 0;
    while i < items.len()
        invariant
            i <= items.len(),
            results@.len() == regular_items(items@.take(i as int)).len(),
            forall|k: int|
                0 <= k < results@.len() ==> is_find_row(
                    #[trigger] results@[k],
                    regular_items(items@.take(i as int))[k],
                ),
        decreases items.len() - i,
    {
        assert(items@.take(i as int + 1).drop_last() =~= items@.take(i as int));
        let item = &items[i];
        if item.is_regular_item() {
            let row = FindResultOutput {
                key: item.key.clone(),
                title: item.data.title.clone(),
                item_type: item.data.item_type.clone(),
                creators: item.creators_string(),
                date: item.data.date.clone(),
                tags: tag_list(&item.data.tags),
                doi: item.data.doi.clone(),
            };
            results.push(row);
        }
        i += 1;
    }
    assert(items@.take(items@.len() as int) =~= items@);
    FindOutput { query: query.to_string(), result_count: items.len(), results }
}

/// A creator as it is answered.
pub open spec fn is_creator_row(row: CreatorOutput, c: Creator) -> bool {
    row.name@ == c.shown() && row.role@ == c.creator_type@
}

fn copy_texts(list: &[String]) -> (r: Vec<String>)
    ensures
        texts(r@) == texts(list@),
{
    let mut out: Vec<String> = Vec::new();
    let mut i: usize = 0;
    while i < list.len()
        invariant
            i <= list.len(),
            texts(out@) == texts(list@).take(i as int),
        decreases list.len() - i,
    {
        let ghost before = texts(out@);
        out.push(list[i].clone());
        assert(texts(out@) =~= before.push(list@[i as int]@));
        assert(texts(out@) =~= texts(list@).take(i as int + 1));
        i += 1;
    }
    assert(texts(out@) =~= texts(list@));
    out
}

/// What is answered about one item.
pub fn item_output(item: &ZoteroItem) -> (r: ItemOutput)
    ensures
        r.key@ == item.key@,
        r.title@ == item.data.title@,
        r.short_title@ == item.data.short_title@,
        r.item_type@ == item.data.item_type@,
        r.creators@.len() == item.data.creators@.len(),
        forall|i: int|
            0 <= i < r.creators@.len() ==> is_creator_row(
                #[trigger] r.creators@[i],
                item.data.creators@[i],
            ),
        r.date@ == item.data.date@,
        r.abstract_note@ == item.data.abstract_note@,
        texts(r.tags@) == tag_texts(item.data.tags@),
        r.doi@ == item.data.doi@,
        r.url@ == item.data.url@,
        r.publication_title@ == item.data.publication_title@,
        r.volume@ == item.data.volume@,
        r.pages@ == item.data.pages@,
        texts(r.collections@) == texts(item.data.collections@),
        r.date_added@ == item.data.date_added@,
        r.date_modified@ == item.data.date_modified@,
        r.citation_key@ == item.data.citation_key@,
{
    let mut creators: Vec<CreatorOutput> = Vec::new();
    let mut i: usize = 0;
    while i < item.data.creators.len()
        invariant
            i <= item.data.creators.len(),
            creators@.len() == i,
            forall|k: int|
                0 <= k < i ==> is_creator_row(#[trigger] creators@[k], item.data.creators@[k]),
        decreases item.data.creators.len() - i,
    {
        let c = &item.data.creators[i];
        creators.push(CreatorOutput { name: c.display_name(), role: c.creator_type.clone() });
        i += 1;
    }
    ItemOutput {
        key: item.key.clone(),
        title: item.data.title.clone(),
        short_title: item.data.short_title.clone(),
        item_type: item.data.item_type.clone(),
        creators,
        date: item.data.date.clone(),
        abstract_note: item.data.abstract_note.clone(),
        tags: tag_list(&item.data.tags),
        doi: item.data.doi.clone(),
        url: item.data.url.clone(),
        publication_title: item.data.publication_title.clone(),
        volume: item.data.volume.clone(),
        pages: item.data.pages.clone(),
        collections: copy_texts(&item.data.collections),
        date_added: item.data.date_added.clone(),
        date_modified: item.data.date_modified.clone(),
        citation_key: item.data.citation_key.clone(),
    }
}

/// Whether a child item is a PDF.
pub fn is_pdf(item: &ZoteroItem) -> (r: bool)
    ensures
        r == (item.data.content_type@ == "application/pdf"@),
{
    same_text(item.data.content_type.as_str(), "application/pdf")
}

/// The first path that was found, given that of each child in turn.
pub open spec fn first_path(children: Seq<ZoteroItem>, paths: Seq<Option<String>>, i: int) -> Option<
    Seq<char>,
>
    decreases children.len() - i,
{
    if i < 0 || i >= children.len() || i >= paths.len() {
        None
    } else if children[i].data.content_type@ == "application/pdf"@ && paths[i] is Some {
        opt_text(paths[i])
    } else {
        first_path(children, paths, i + 1)
    }
}

/// What is answered about an item's PDF: the path of the first PDF child that has a file.
pub fn pdf_output(key: &str, children: &[ZoteroItem], paths: &[Option<String>]) -> (r: PdfOutput)
    ensures
        r.key@ == key@,
        opt_text(r.path) == first_path(children@, paths@, 0),
{
    let mut i: usize = 0;
    while i < children.len() && i < paths.len()
        invariant
            i <= children.len(),
            i <= paths.len(),
            first_path(children@, paths@, 0) == first_path(children@, paths@, i as int),
        decreases children.len() - i,
    {
        if is_pdf(&children[i]) {
            if let Some(p) = &paths[i] {
                return PdfOutput { key: key.to_string(), path: Some(p.clone()) };
            }
        }
        i += 1;
    }
    PdfOutput { key: key.to_string(), path: None }
}

/// What moves an item to the trash.
pub fn trash_body() -> (r: serde_json::Value)
    ensures
        json_tree(r) == JsonTree::Object(no_members().insert("deleted"@, JsonTree::Bool(true))),
{
    let mut m = new_object();
    set_member(&mut m, "deleted".to_string(), bool_value(true));
    object_value(m)
}

/// What is answered once items are in the trash.
pub fn rm_output(trashed: Vec<String>) -> (r: RmOutput)
    ensures
        r.trashed@ == trashed@,
        r.note@
            == "Moved to trash via web API (restorable in the Zotero UI); syncs to the local library on the next Zotero sync."@,
{
    RmOutput {
        trashed,
        note:
            "Moved to trash via web API (restorable in the Zotero UI); syncs to the local library on the next Zotero sync.".to_string(),
    }
}

} // verus!
