//! Items and collections as the library reads them from the API.
use crate::lines::join;
use crate::lines::joined;
use crate::text::concat3;
use crate::text::is_empty;
use crate::text::same_text;
use crate::text::texts;
use vstd::prelude::*;

verus! {

/// A Zotero library item (article, book, etc.)
#[derive(Debug, Clone)]
pub struct ZoteroItem {
    pub key: String,
    pub version: u64,
    pub meta: ZoteroMeta,
    pub data: ZoteroItemData,
}

/// What Zotero derives for an item.
#[derive(Debug, Clone)]
pub struct ZoteroMeta {
    pub creator_summary: Option<String>,
    pub parsed_date: Option<String>,
    pub num_children: Option<u32>,
}

/// An item's fields.
#[derive(Debug, Clone)]
pub struct ZoteroItemData {
    pub key: String,
    pub version: u64,
    pub item_type: String,
    pub title: String,
    pub short_title: String,
    pub date: String,
    pub abstract_note: String,
    pub creators: Vec<Creator>,
    pub tags: Vec<Tag>,
    pub collections: Vec<String>,
    pub publication_title: String,
    pub doi: String,
    pub url: String,
    pub date_added: String,
    pub date_modified: String,
    pub language: String,
    pub volume: String,
    pub pages: String,
    pub citation_key: String,
    pub content_type: String,
    pub parent_item: String,
    /// HTML body of a note item (empty for non-notes).
    pub note: String,
    /// The free-form Extra field (empty where the item has none).
    pub extra: String,
}

/// A creator: a first and a last name, or one name alone.
#[derive(Debug, Clone)]
pub struct Creator {
    pub first_name: String,
    pub last_name: String,
    pub creator_type: String,
    /// Some creators only have a single-field name.
    pub name: Option<String>,
}

/// A tag of an item.
#[derive(Debug, Clone)]
pub struct Tag {
    pub tag: String,
    pub tag_type: Option<u32>,
}

impl Creator {
    /// The name a creator is shown under: the single-field one, else `Last, First`, else
    /// whichever of the two there is.
    pub open spec fn shown(&self) -> Seq<char> {
        if let Some(name) = self.name {
            name@
        } else if self.last_name@.len() > 0 && self.first_name@.len() > 0 {
            self.last_name@ + ", "@ + self.first_name@
        } else if self.last_name@.len() > 0 {
            self.last_name@
        } else {
            self.first_name@
        }
    }

    /// The name a creator is shown under.
    pub fn display_name(&self) -> (r: String)
        ensures
            r@ == self.shown(),
    {
        if let Some(name) = &self.name {
            name.clone()
        } else if !is_empty(self.last_name.as_str()) && !is_empty(self.first_name.as_str()) {
            concat3(self.last_name.as_str(), ", ", self.first_name.as_str())
        } else if !is_empty(self.last_name.as_str()) {
            self.last_name.clone()
        } else {
            self.first_name.clone()
        }
    }
}

/// The names of the authors among some creators.
pub open spec fn author_names(creators: Seq<Creator>) -> Seq<Seq<char>>
    decreases creators.len(),
{
    if creators.len() == 0 {
        Seq::empty()
    } else {
        let head = author_names(creators.drop_last());
        if creators.last().creator_type@ == "author"@ {
            head.push(creators.last().shown())
        } else {
            head
        }
    }
}

/// The texts of some tags.
pub open spec fn tag_texts(tags: Seq<Tag>) -> Seq<Seq<char>> {
    tags.map_values(|t: Tag| t.tag@)
}

impl ZoteroItem {
    /// A "real" item: no attachment, note or annotation.
    pub open spec fn regular(&self) -> bool {
        let t = self.data.item_type@;
        t != "attachment"@ && t != "note"@ && t != "annotation"@
    }

    /// An attachment without a parent item.
    pub open spec fn lone_attachment(&self) -> bool {
        self.data.item_type@ == "attachment"@ && self.data.parent_item@.len() == 0
    }

    /// A note without a parent item.
    pub open spec fn lone_note(&self) -> bool {
        self.data.item_type@ == "note"@ && self.data.parent_item@.len() == 0
    }

    /// Check if this is a "real" item (not attachment, note, or annotation)
    pub fn is_regular_item(&self) -> (r: bool)
        ensures
            r == self.regular(),
    {
        let t = self.data.item_type.as_str();
        !same_text(t, "attachment") && !same_text(t, "note") && !same_text(t, "annotation")
    }

    /// True for any top-level attachment (no parent item).
    pub fn is_standalone_attachment(&self) -> (r: bool)
        ensures
            r == self.lone_attachment(),
    {
        same_text(self.data.item_type.as_str(), "attachment") && is_empty(
            self.data.parent_item.as_str(),
        )
    }

    /// True for a top-level PDF attachment (the item itself is the file, with no parent item).
    /// Such items are indexed by extracting their own file rather than a child's.
    pub fn is_standalone_pdf_attachment(&self) -> (r: bool)
        ensures
            r == (self.lone_attachment() && self.data.content_type@ == "application/pdf"@),
    {
        self.is_standalone_attachment() && same_text(
            self.data.content_type.as_str(),
            "application/pdf",
        )
    }

    /// True for a top-level HTML snapshot attachment (no parent item).
    pub fn is_standalone_html_attachment(&self) -> (r: bool)
        ensures
            r == (self.lone_attachment() && self.data.content_type@ == "text/html"@),
    {
        self.is_standalone_attachment() && same_text(self.data.content_type.as_str(), "text/html")
    }

    /// True for a top-level note (no parent item).
    pub fn is_standalone_note(&self) -> (r: bool)
        ensures
            r == self.lone_note(),
    {
        same_text(self.data.item_type.as_str(), "note") && is_empty(self.data.parent_item.as_str())
    }

    /// The authors, separated by semicolons.
    pub fn creators_string(&self) -> (r: String)
        ensures
            r@ == joined(author_names(self.data.creators@), "; "@),
    {
        let ghost all = self.data.creators@;
        let mut names: Vec<String> = Vec::new();
        let mut i: usize = 0;
        assert(texts(names@) =~= Seq::empty());
        while i < self.data.creators.len()
            invariant
                i <= self.data.creators.len(),
                all == self.data.creators@,
                texts(names@) == author_names(all.take(i as int)),
            decreases self.data.creators.len() - i,
        {
            assert(all.take(i as int + 1).drop_last() =~= all.take(i as int));
            let creator = &self.data.creators[i];
            if same_text(creator.creator_type.as_str(), "author") {
                let ghost before = texts(names@);
                let name = creator.display_name();
                let ghost shown = name@;
                names.push(name);
                assert(texts(names@) =~= before.push(shown));
            }
            i += 1;
        }
        assert(all.take(all.len() as int) =~= all);
        join(names.as_slice(), "; ")
    }

    /// The tags, separated by commas.
    pub fn tags_string(&self) -> (r: String)
        ensures
            r@ == joined(tag_texts(self.data.tags@), ", "@),
    {
        let mut names: Vec<String> = Vec::new();
        let mut i: usize = 0;
        while i < self.data.tags.len()
            invariant
                i <= self.data.tags.len(),
                texts(names@) == tag_texts(self.data.tags@).take(i as int),
            decreases self.data.tags.len() - i,
        {
            let ghost before = texts(names@);
            names.push(self.data.tags[i].tag.clone());
            assert(texts(names@) =~= before.push(self.data.tags@[i as int].tag@));
            assert(texts(names@) =~= tag_texts(self.data.tags@).take(i as int + 1));
            i += 1;
        }
        assert(texts(names@) =~= tag_texts(self.data.tags@));
        join(names.as_slice(), ", ")
    }
}

/// A collection of the library.
#[derive(Debug, Clone)]
pub struct ZoteroCollection {
    pub key: String,
    pub version: u64,
    pub meta: ZoteroCollectionMeta,
    pub data: ZoteroCollectionData,
}

/// Zotero's own tallies for a collection.
#[derive(Debug, Clone, Copy)]
pub struct ZoteroCollectionMeta {
    pub num_items: u32,
    pub num_collections: u32,
}

/// A collection's fields.
#[derive(Debug, Clone)]
pub struct ZoteroCollectionData {
    pub key: String,
    pub name: String,
    /// Key of the parent collection; none at the top level.
    pub parent_collection: Option<String>,
}

} // verus!
