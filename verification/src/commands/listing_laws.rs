//! What the listings of tags, found items and files hold.
use crate::api::client::TagInfo;
use crate::api::models::author_names;
use crate::api::models::Creator;
use crate::api::models::ZoteroItem;
use crate::collections::tree::NodeView;
use crate::commands::add_cmd::is_added_row;
use crate::commands::collections_cmd::is_row;
use crate::commands::find_cmd::first_path;
use crate::commands::find_cmd::is_find_row;
use crate::commands::find_cmd::regular_items;
use crate::commands::fulltext_cmd::is_unfiled_row;
use crate::commands::search_cmd::shows;
use crate::commands::tags_cmd::has_folded;
use crate::commands::tags_cmd::listed_tags;
use crate::commands::tags_cmd::passes;
use crate::commands::tags_cmd::with_tag;
use crate::commands::tags_cmd::TagCount;
use crate::index::chunker::Chunk;
use crate::index::chunker::ChunkType;
use crate::index::documents::is_document;
use crate::index::documents::ChunkData;
use crate::index::documents::ChunkDoc;
use crate::index::documents::IndexableItem;
use crate::lines::joined;
use crate::output::AddedItemOutput;
use crate::output::CollectionOutput;
use crate::output::FindResultOutput;
use crate::output::SearchResultOutput;
use crate::output::UnfiledItemOutput;
use crate::text::all_ascii;
use crate::text::ascii_lower;
use crate::text::found_from;
use crate::text::lemma_text_le_total;
use crate::text::lemma_text_le_trans;
use crate::text::lowercase;
use crate::text::opt_text;
use crate::text::text_le;
use crate::text::texts;
use crate::text_laws::law_found_is_first;
use vstd::prelude::*;

verus! {

/// A text passes a filter wherever the filter stands in it, whatever the case of either.
pub proof fn law_filter_finds_its_text(a: Seq<char>, f: Seq<char>, g: Seq<char>, b: Seq<char>)
    requires
        all_ascii(a),
        all_ascii(f),
        all_ascii(g),
        all_ascii(b),
        lowercase(f) == lowercase(g),
    ensures
        has_folded(a + f + b, g),
        passes(a + f + b, Some(g)),
{
    let s = a + f + b;
    assert(all_ascii(s)) by {
        assert forall|i: int| 0 <= i < s.len() implies (#[trigger] s[i]) as u32 <= 127 by {
            if i < a.len() {
                assert(s[i] == a[i]);
            } else if i < a.len() + f.len() {
                assert(s[i] == f[i - a.len()]);
            } else {
                assert(s[i] == b[i - a.len() - f.len()]);
            }
        }
    }
    let low = lowercase(s);
    let n = a.len() as int;
    let p = lowercase(g);
    assert(p.len() == f.len());
    assert(low.subrange(n, n + p.len()) =~= p) by {
        assert forall|i: int| 0 <= i < p.len() implies low.subrange(n, n + p.len())[i] == p[i] by {
            assert(low[n + i] == ascii_lower(s[n + i]));
            assert(s[n + i] == f[i]);
            assert(lowercase(f)[i] == ascii_lower(f[i]));
        }
    }
    law_found_is_first(low, p, 0);
}

/// A text that does not hold the filter in its lowercase form does not pass; without a filter
/// everything does.
pub proof fn law_filter_leaves_out_the_rest(s: Seq<char>, f: Seq<char>)
    ensures
        passes(s, None),
        passes(s, Some(f)) ==> exists|i: int|
            0 <= i <= lowercase(s).len() - lowercase(f).len() && #[trigger] lowercase(s).subrange(
                i,
                i + lowercase(f).len(),
            ) == lowercase(f),
{
    law_found_is_first(lowercase(s), lowercase(f), 0);
    if let Some(i) = found_from(lowercase(s), lowercase(f), 0) {
        assert(lowercase(s).subrange(i, i + lowercase(f).len()) == lowercase(f));
    }
}

/// Whether tags come in the order of their lowercase forms.
pub open spec fn tags_ascend(s: Seq<TagCount>) -> bool {
    forall|i: int, j: int|
        0 <= i < j < s.len() ==> text_le(
            lowercase((#[trigger] s[i]).0),
            lowercase((#[trigger] s[j]).0),
        )
}

proof fn lemma_with_tag(s: Seq<TagCount>, t: TagCount)
    requires
        tags_ascend(s),
    ensures
        tags_ascend(with_tag(s, t)),
        with_tag(s, t).len() == s.len() + 1,
        forall|x: TagCount| #[trigger] with_tag(s, t).contains(x) <==> s.contains(x) || x == t,
    decreases s.len(),
{
    let r = with_tag(s, t);
    if s.len() == 0 || text_le(lowercase(s.last().0), lowercase(t.0)) {
        assert forall|i: int, j: int| 0 <= i < j < r.len() implies text_le(
            lowercase((#[trigger] r[i]).0),
            lowercase((#[trigger] r[j]).0),
        ) by {
            if j < s.len() {
                assert(text_le(lowercase(s[i].0), lowercase(s[j].0)));
            } else if i < s.len() - 1 {
                assert(text_le(lowercase(s[i].0), lowercase(s[s.len() - 1].0)));
                lemma_text_le_trans(
                    lowercase(s[i].0),
                    lowercase(s.last().0),
                    lowercase(t.0),
                );
            }
        }
        assert forall|x: TagCount| #[trigger] r.contains(x) <==> s.contains(x) || x == t by {
            if s.contains(x) {
                let k = choose|k: int| 0 <= k < s.len() && s[k] == x;
                assert(r[k] == x);
            }
            assert(r[r.len() - 1] == t);
        }
    } else {
        let h = s.drop_last();
        let z = s.last();
        assert(tags_ascend(h)) by {
            assert forall|i: int, j: int| 0 <= i < j < h.len() implies text_le(
                lowercase((#[trigger] h[i]).0),
                lowercase((#[trigger] h[j]).0),
            ) by {
                assert(text_le(lowercase(s[i].0), lowercase(s[j].0)));
            }
        }
        lemma_with_tag(h, t);
        let rh = with_tag(h, t);
        lemma_text_le_total(lowercase(z.0), lowercase(t.0));
        assert(s[s.len() - 1] == z);
        assert forall|i: int, j: int| 0 <= i < j < r.len() implies text_le(
            lowercase((#[trigger] r[i]).0),
            lowercase((#[trigger] r[j]).0),
        ) by {
            if j < rh.len() {
                assert(text_le(lowercase(rh[i].0), lowercase(rh[j].0)));
            } else {
                assert(rh.contains(rh[i]));
                if rh[i] != t {
                    let k = choose|k: int| 0 <= k < h.len() && h[k] == rh[i];
                    assert(text_le(lowercase(s[k].0), lowercase(s[s.len() - 1].0)));
                }
            }
        }
        assert forall|x: TagCount| #[trigger] r.contains(x) <==> s.contains(x) || x == t by {
            assert(rh.contains(x) <==> h.contains(x) || x == t);
            if r.contains(x) {
                let k = choose|k: int| 0 <= k < r.len() && r[k] == x;
                if k < rh.len() {
                    assert(rh[k] == x);
                    if h.contains(x) {
                        let m = choose|m: int| 0 <= m < h.len() && h[m] == x;
                        assert(s[m] == x);
                    }
                }
            }
            if s.contains(x) {
                let m = choose|m: int| 0 <= m < s.len() && s[m] == x;
                if m < h.len() {
                    assert(h[m] == x);
                } else {
                    assert(r[r.len() - 1] == x);
                }
            }
            if rh.contains(x) {
                let k = choose|k: int| 0 <= k < rh.len() && rh[k] == x;
                assert(r[k] == x);
            }
        }
    }
}

/// How many of some tags pass a filter.
pub open spec fn passing(tags: Seq<TagInfo>, filter: Option<Seq<char>>) -> nat
    decreases tags.len(),
{
    if tags.len() == 0 {
        0
    } else {
        passing(tags.drop_first(), filter) + if passes(tags[0].tag@, filter) {
            1nat
        } else {
            0nat
        }
    }
}

proof fn lemma_passing_push(tags: Seq<TagInfo>, t: TagInfo, filter: Option<Seq<char>>)
    ensures
        passing(tags.push(t), filter) == passing(tags, filter) + if passes(t.tag@, filter) {
            1nat
        } else {
            0nat
        },
    decreases tags.len(),
{
    if tags.len() == 0 {
        assert(tags.push(t).drop_first() =~= Seq::empty());
        assert(passing(tags.push(t).drop_first(), filter) == 0);
    } else {
        assert(tags.push(t).drop_first() =~= tags.drop_first().push(t));
        lemma_passing_push(tags.drop_first(), t, filter);
    }
}

/// The listing of tags holds exactly the tags that pass the filter, each with its number of items,
/// as often as the library reports it, in the order of their lowercase forms.
pub proof fn law_tag_listing(tags: Seq<TagInfo>, filter: Option<Seq<char>>)
    ensures
        tags_ascend(listed_tags(tags, filter)),
        listed_tags(tags, filter).len() == passing(tags, filter),
        forall|i: int|
            0 <= i < tags.len() && passes((#[trigger] tags[i]).tag@, filter) ==> listed_tags(
                tags,
                filter,
            ).contains((tags[i].tag@, tags[i].meta.num_items)),
        forall|x: TagCount| #[trigger]
            listed_tags(tags, filter).contains(x) ==> passes(x.0, filter) && exists|i: int|
                0 <= i < tags.len() && (#[trigger] tags[i]).tag@ == x.0 && tags[i].meta.num_items
                    == x.1,
    decreases tags.len(),
{
    if tags.len() > 0 {
        let t = tags.drop_last();
        let last = tags.last();
        law_tag_listing(t, filter);
        lemma_passing_push(t, last, filter);
        assert(t.push(last) =~= tags);
        let head = listed_tags(t, filter);
        let all = listed_tags(tags, filter);
        let one = (last.tag@, last.meta.num_items);
        lemma_with_tag(head, one);
        assert(tags[tags.len() - 1] == last);
        assert forall|i: int| 0 <= i < tags.len() && passes(
            (#[trigger] tags[i]).tag@,
            filter,
        ) implies all.contains((tags[i].tag@, tags[i].meta.num_items)) by {
            if i < t.len() {
                assert(t[i] == tags[i]);
                assert(head.contains((t[i].tag@, t[i].meta.num_items)));
            }
        }
        assert forall|x: TagCount| #[trigger] all.contains(x) implies passes(x.0, filter) && exists|
            i: int,
        |
            0 <= i < tags.len() && (#[trigger] tags[i]).tag@ == x.0 && tags[i].meta.num_items
                == x.1 by {
            if head.contains(x) {
                let i = choose|i: int|
                    0 <= i < t.len() && (#[trigger] t[i]).tag@ == x.0 && t[i].meta.num_items == x.1;
                assert(tags[i].tag@ == x.0);
            } else {
                assert(tags[tags.len() - 1].tag@ == x.0);
            }
        }
    }
}

/// Of what a search finds, exactly the works are listed: attachments, notes and annotations are not.
pub proof fn law_found_works(items: Seq<ZoteroItem>, i: int)
    requires
        0 <= i < items.len(),
    ensures
        regular_items(items).contains(items[i]) <==> items[i].data.item_type@ != "attachment"@
            && items[i].data.item_type@ != "note"@ && items[i].data.item_type@ != "annotation"@,
        regular_items(items).len() <= items.len(),
    decreases items.len(),
{
    let t = items.drop_last();
    let head = regular_items(t);
    let all = regular_items(items);
    lemma_regular(items);
    if i < t.len() {
        law_found_works(t, i);
        assert(t[i] == items[i]);
        if head.contains(items[i]) {
            let k = choose|k: int| 0 <= k < head.len() && head[k] == items[i];
            assert(all[k] == items[i]);
        }
    } else {
        if items.last().regular() {
            assert(all[all.len() - 1] == items[i]);
        }
        if t.len() > 0 {
            law_found_works(t, 0);
        }
    }
    if all.contains(items[i]) {
        let k = choose|k: int| 0 <= k < all.len() && all[k] == items[i];
        assert(all[k].regular());
    }
}

proof fn lemma_regular(items: Seq<ZoteroItem>)
    ensures
        forall|k: int|
            0 <= k < regular_items(items).len() ==> (#[trigger] regular_items(items)[k]).regular(),
    decreases items.len(),
{
    if items.len() > 0 {
        let head = regular_items(items.drop_last());
        let all = regular_items(items);
        lemma_regular(items.drop_last());
        assert forall|k: int| 0 <= k < all.len() implies (#[trigger] all[k]).regular() by {
            if k < head.len() {
                assert(all[k] == head[k]);
            }
        }
    }
}

/// The names of the authors hold that of every creator who is an author, in order, and no editor's or
/// translator's.
pub proof fn law_author_names(creators: Seq<Creator>, name: Seq<char>)
    ensures
        author_names(creators).contains(name) <==> exists|i: int|
            0 <= i < creators.len() && (#[trigger] creators[i]).creator_type@ == "author"@
                && creators[i].shown() == name,
        author_names(creators).len() <= creators.len(),
        (forall|i: int|
            0 <= i < creators.len() ==> (#[trigger] creators[i]).creator_type@ == "author"@)
            ==> author_names(creators).len() == creators.len(),
    decreases creators.len(),
{
    if creators.len() > 0 {
        let t = creators.drop_last();
        law_author_names(t, name);
        let head = author_names(t);
        let all = author_names(creators);
        assert(creators[creators.len() - 1] == creators.last());
        if exists|i: int|
            0 <= i < creators.len() && (#[trigger] creators[i]).creator_type@ == "author"@
                && creators[i].shown() == name {
            let i = choose|i: int|
                0 <= i < creators.len() && (#[trigger] creators[i]).creator_type@ == "author"@
                    && creators[i].shown() == name;
            if i < t.len() {
                assert(t[i].creator_type@ == "author"@);
                let k = choose|k: int| 0 <= k < head.len() && head[k] == name;
                assert(all[k] == name);
            } else {
                assert(all[all.len() - 1] == name);
            }
        }
        if all.contains(name) {
            let k = choose|k: int| 0 <= k < all.len() && all[k] == name;
            if k < head.len() {
                assert(head[k] == name);
                let i = choose|i: int|
                    0 <= i < t.len() && (#[trigger] t[i]).creator_type@ == "author"@
                        && t[i].shown() == name;
                assert(creators[i].shown() == name);
            }
        }
        if forall|i: int|
            0 <= i < creators.len() ==> (#[trigger] creators[i]).creator_type@ == "author"@ {
            assert forall|i: int| 0 <= i < t.len() implies (#[trigger] t[i]).creator_type@
                == "author"@ by {
                assert(t[i] == creators[i]);
            }
        }
    }
}

/// A creator is shown under the one name that is given, else under last name and first name.
pub proof fn law_creator_names(c: Creator)
    ensures
        c.name is Some ==> c.shown() == c.name.unwrap()@,
        c.name is None && c.last_name@.len() > 0 && c.first_name@.len() > 0 ==> c.shown()
            == c.last_name@ + ", "@ + c.first_name@,
        c.name is None && c.first_name@.len() == 0 ==> c.shown() == c.last_name@,
        c.name is None && c.last_name@.len() == 0 ==> c.shown() == c.first_name@,
{
    if c.first_name@.len() == 0 && c.last_name@.len() == 0 {
        assert(c.first_name@ =~= c.last_name@);
    }
}

/// The path that is answered is that of the first child that is a PDF and has one; none is answered
/// only where no such child is there.
pub proof fn law_path_is_the_first_pdfs(
    children: Seq<ZoteroItem>,
    paths: Seq<Option<String>>,
    i: int,
)
    requires
        0 <= i <= children.len(),
        children.len() == paths.len(),
    ensures
        match first_path(children, paths, i) {
            Some(p) => exists|k: int|
                i <= k < children.len() && (#[trigger] children[k]).data.content_type@
                    == "application/pdf"@ && opt_text(paths[k]) == Some(p) && forall|j: int|
                    i <= j < k ==> (#[trigger] children[j]).data.content_type@ != "application/pdf"@
                        || paths[j] is None,
            None => forall|k: int|
                i <= k < children.len() ==> (#[trigger] children[k]).data.content_type@
                    != "application/pdf"@ || paths[k] is None,
        },
    decreases children.len() - i,
{
    if i < children.len() {
        if children[i].data.content_type@ == "application/pdf"@ && paths[i] is Some {
            assert(opt_text(paths[i]) == first_path(children, paths, i));
        } else {
            law_path_is_the_first_pdfs(children, paths, i + 1);
            if let Some(p) = first_path(children, paths, i + 1) {
                let k = choose|k: int|
                    i + 1 <= k < children.len() && (#[trigger] children[k]).data.content_type@
                        == "application/pdf"@ && opt_text(paths[k]) == Some(p) && forall|j: int|
                        i + 1 <= j < k ==> (#[trigger] children[j]).data.content_type@
                            != "application/pdf"@ || paths[j] is None;
                assert(children[k].data.content_type@ == "application/pdf"@);
            }
        }
    }
}

/// A row of what was found shows its item: key, title, type, date, DOI, authors and tags.
pub proof fn law_found_row_shows_its_item(row: FindResultOutput, item: ZoteroItem)
    requires
        is_find_row(row, item),
    ensures
        row.key@ == item.key@ && row.title@ == item.data.title@,
        row.item_type@ == item.data.item_type@ && row.date@ == item.data.date@ && row.doi@
            == item.data.doi@,
        row.creators@ == joined(author_names(item.data.creators@), "; "@),
        row.tags@.len() == item.data.tags@.len(),
        forall|i: int| 0 <= i < row.tags@.len() ==> (#[trigger] row.tags@[i])@ == item.data.tags@[i].tag@,
{
    let shown = texts(row.tags@);
    assert(shown.len() == row.tags@.len());
    assert forall|i: int| 0 <= i < row.tags@.len() implies (#[trigger] row.tags@[i])@
        == item.data.tags@[i].tag@ by {
        assert(shown[i] == row.tags@[i]@);
    }
}

/// A row of what was added shows its item.
pub proof fn law_added_row_shows_its_item(row: AddedItemOutput, item: ZoteroItem)
    requires
        is_added_row(row, item),
    ensures
        row.key@ == item.key@ && row.title@ == item.data.title@,
        row.item_type@ == item.data.item_type@ && row.date@ == item.data.date@ && row.doi@
            == item.data.doi@,
        row.creators@ == joined(author_names(item.data.creators@), "; "@),
{
}

/// A row of the unfiled items shows its item.
pub proof fn law_unfiled_row_shows_its_item(row: UnfiledItemOutput, item: ZoteroItem)
    requires
        is_unfiled_row(row, item),
    ensures
        row.key@ == item.key@ && row.title@ == item.data.title@ && row.item_type@
            == item.data.item_type@,
{
}

/// A search result shows the item of its chunk, the chunk's text and where in the fulltext it stands.
pub proof fn law_result_shows_its_chunk(row: SearchResultOutput, chunk: ChunkData, score: Seq<char>)
    requires
        shows(row, chunk, score),
    ensures
        row.key@ == chunk.item_key@ && row.title@ == chunk.title@ && row.creators@
            == chunk.creators@ && row.date@ == chunk.date@,
        row.snippet@ == chunk.text@ && row.char_start == chunk.char_start && row.char_end
            == chunk.char_end,
        row.score@ == score,
{
}

/// A row of the collection listing shows its node, as deep below the first row as it is below it in
/// the tree.
pub proof fn law_collection_row_shows_its_node(row: CollectionOutput, node: NodeView, base: int)
    requires
        is_row(row, node, base),
    ensures
        row.key@ == node.key && row.name@ == node.name,
        row.parent is Some <==> node.parent is Some,
        row.parent is Some ==> Some(row.parent.unwrap()@) == node.parent,
        base + row.depth == node.depth,
        row.count_direct == node.count_direct && row.count_tree == node.count_tree,
{
}

/// What the index stores of a chunk says which item it is of, what it holds and by what it can be
/// filtered; the fulltext is stored once, with the metadata.
pub proof fn law_document_holds_its_chunk(
    d: ChunkDoc,
    item: IndexableItem,
    chunk: Chunk,
    fulltext: Seq<char>,
)
    requires
        is_document(d, item, chunk, fulltext),
    ensures
        d.chunk_id@ == chunk.chunk_id@ && d.text@ == chunk.text@,
        d.item_key@ == item.item_key@ && d.title@ == item.title@ && d.item_type@ == item.item_type@,
        d.char_start == chunk.char_start && d.char_end == chunk.char_end,
        texts(d.collections@) == texts(item.collections@),
        d.fulltext is Some <==> chunk.chunk_type == ChunkType::Metadata,
        d.fulltext is Some ==> d.fulltext.unwrap()@ == fulltext,
{
}

} // verus!
