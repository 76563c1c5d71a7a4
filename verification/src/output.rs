//! What the commands answer, and how it is shown to people.
use crate::lines::join;
use crate::lines::joined;
use crate::text::chars_of;
use crate::text::decimal;
use crate::text::is_empty;
use crate::text::push_decimal;
use crate::text::same_text;
use crate::text::string_of;
use crate::text::texts;
use vstd::prelude::*;
use vstd::slice::slice_subrange;

verus! {

/// Human-readable display of an answer.
pub trait HumanDisplay {
    /// The text that is shown.
    spec fn shown(&self) -> Seq<char>;

    fn human_display(&self) -> (r: String)
        ensures
            r@ == self.shown(),
    ;
}

/// A text cut to a number of characters, with `...` where anything was cut.
pub open spec fn shortened(s: Seq<char>, max: int) -> Seq<char> {
    if s.len() > max {
        s.take(max) + "..."@
    } else {
        s
    }
}

/// Shortens a string for display, appending `...` when anything was cut. `max` counts characters,
/// not bytes.
pub fn truncate_display(s: &str, max: usize) -> (r: String)
    ensures
        r@ == shortened(s@, max as int),
{
    let chars = chars_of(s);
    if chars.len() > max {
        let head = slice_subrange(chars.as_slice(), 0, max);
        assert(head@ =~= s@.take(max as int));
        let mut out = string_of(head);
        out.push_str("...");
        out
    } else {
        s.to_string()
    }
}

/// A run of spaces.
pub open spec fn spaces(n: nat) -> Seq<char> {
    Seq::new(n, |i: int| ' ')
}

/// Appends two spaces per level.
pub fn push_indent(out: &mut String, levels: usize)
    ensures
        final(out)@ == old(out)@ + spaces(2 * levels as nat),
{
    let mut i: usize = 0;
    assert(out@ =~= old(out)@ + spaces(0));
    while i < levels
        invariant
            i <= levels,
            out@ == old(out)@ + spaces(2 * i as nat),
        decreases levels - i,
    {
        out.push(' ');
        out.push(' ');
        assert(out@ =~= old(out)@ + spaces(2 * (i + 1) as nat));
        i += 1;
    }
}

/// A text filled up with spaces to a width.
pub open spec fn padded(s: Seq<char>, width: nat) -> Seq<char> {
    if s.len() < width {
        s + spaces((width - s.len()) as nat)
    } else {
        s
    }
}

/// Fills a text up with spaces to a width.
pub fn pad(s: &str, width: usize) -> (r: String)
    ensures
        r@ == padded(s@, width as nat),
{
    let n: usize = chars_of(s).len();
    let mut out = s.to_string();
    if n < width {
        let mut i: usize = n;
        assert(out@ =~= s@ + spaces(0));
        while i < width
            invariant
                n <= i <= width,
                n == s@.len(),
                out@ == s@ + spaces((i - n) as nat),
            decreases width - i,
        {
            out.push(' ');
            assert(out@ =~= s@ + spaces((i + 1 - n) as nat));
            i += 1;
        }
    }
    out
}

/// A text with a space in place of every newline.
pub open spec fn one_line(s: Seq<char>) -> Seq<char> {
    s.map_values(|c: char| if c == '\n' { ' ' } else { c })
}

/// Replaces every newline by a space.
pub fn on_one_line(s: &str) -> (r: String)
    ensures
        r@ == one_line(s@),
{
    let chars = chars_of(s);
    let mut out = String::new();
    let mut i: usize = 0;
    assert(one_line(s@.take(0)) =~= Seq::empty());
    while i < chars.len()
        invariant
            i <= chars.len(),
            chars@ == s@,
            out@ == one_line(s@.take(i as int)),
        decreases chars.len() - i,
    {
        if chars[i] == '\n' {
            out.push(' ');
        } else {
            out.push(chars[i]);
        }
        assert(out@ =~= one_line(s@.take(i as int + 1)));
        i += 1;
    }
    assert(s@.take(s@.len() as int) =~= s@);
    out
}

/// The names of some creators.
pub open spec fn creator_names(creators: Seq<CreatorOutput>) -> Seq<Seq<char>> {
    creators.map_values(|c: CreatorOutput| c.name@)
}

fn names_of(creators: &[CreatorOutput]) -> (r: Vec<String>)
    ensures
        texts(r@) == creator_names(creators@),
{
    let mut out: Vec<String> = Vec::new();
    let mut i: usize = 0;
    while i < creators.len()
        invariant
            i <= creators.len(),
            texts(out@) == creator_names(creators@).take(i as int),
        decreases creators.len() - i,
    {
        let ghost before = texts(out@);
        out.push(creators[i].name.clone());
        assert(texts(out@) =~= before.push(creators@[i as int].name@));
        assert(texts(out@) =~= creator_names(creators@).take(i as int + 1));
        i += 1;
    }
    assert(texts(out@) =~= creator_names(creators@));
    out
}

/// What `zot search` answers.
#[derive(Debug, Clone)]
pub struct SearchOutput {
    pub query: String,
    pub result_count: usize,
    pub results: Vec<SearchResultOutput>,
    /// Index freshness note (stale index, or Zotero unreachable). Omitted from
    /// JSON when there is nothing to report.
    pub note: Option<String>,
    /// Bibliography rendered from the results by `--export`. Present, human
    /// output is the bibliography alone; in JSON it rides along with the
    /// results so stdout stays one document.
    pub export: Option<ExportOutput>,
}

/// One result of a search.
#[derive(Debug, Clone)]
pub struct SearchResultOutput {
    pub key: String,
    pub title: String,
    pub item_type: String,
    pub creators: String,
    pub date: String,
    /// The score to three decimals, as it is shown.
    pub score: String,
    pub snippet: String,
    pub char_start: u64,
    pub char_end: u64,
    pub chunk_type: String,
}

/// Result of a rendered bibliography export.
#[derive(Debug, Clone)]
pub struct ExportOutput {
    /// `bibtex`, `ris` or `csljson`.
    pub format: String,
    /// Items asked for (explicit keys, collection members, or search hits).
    pub requested: usize,
    /// Entries the translator actually produced.
    pub exported: usize,
    /// Requested items with no entry in the output, named so the gap is
    /// actionable.
    pub dropped: Vec<DroppedItemOutput>,
    /// Path written by `--output`; `null` when the bibliography went to stdout.
    /// Always serialised, so the document shape does not vary between runs.
    pub path: Option<String>,
    /// The bibliography itself; `null` once `path` is set, since the file is
    /// then the payload and duplicating it would double a large export.
    /// Always serialised, so exactly one of `path` and `content` is non-null.
    pub content: Option<String>,
}

/// An item that is not in an export.
#[derive(Debug, Clone)]
pub struct DroppedItemOutput {
    pub key: String,
    pub title: String,
    /// Why nothing was rendered: the item is absent from the library, or the
    /// translator refused it.
    pub reason: String,
}

/// What `zot find` answers.
#[derive(Debug, Clone)]
pub struct FindOutput {
    pub query: String,
    pub result_count: usize,
    pub results: Vec<FindResultOutput>,
}

/// One item that was found.
#[derive(Debug, Clone)]
pub struct FindResultOutput {
    pub key: String,
    pub title: String,
    pub item_type: String,
    pub creators: String,
    pub date: String,
    pub tags: Vec<String>,
    pub doi: String,
}

/// What `zot get` answers.
#[derive(Debug, Clone)]
pub struct ItemOutput {
    pub key: String,
    pub title: String,
    pub short_title: String,
    pub item_type: String,
    pub creators: Vec<CreatorOutput>,
    pub date: String,
    pub abstract_note: String,
    pub tags: Vec<String>,
    pub doi: String,
    pub url: String,
    pub publication_title: String,
    pub volume: String,
    pub pages: String,
    pub collections: Vec<String>,
    pub date_added: String,
    pub date_modified: String,
    pub citation_key: String,
}

/// A creator with the role.
#[derive(Debug, Clone)]
pub struct CreatorOutput {
    pub name: String,
    pub role: String,
}

/// What `zot fulltext` answers.
#[derive(Debug, Clone)]
pub struct FulltextOutput {
    pub key: String,
    pub title: String,
    pub total_chars: usize,
    pub start: usize,
    pub end: usize,
    pub text: String,
}

/// What `zot tags` answers.
#[derive(Debug, Clone)]
pub struct TagsOutput {
    pub count: usize,
    pub tags: Vec<TagOutput>,
}

/// One tag with its number of items.
#[derive(Debug, Clone)]
pub struct TagOutput {
    pub tag: String,
    pub num_items: u32,
}

/// What `zot collections` answers.
#[derive(Debug, Clone)]
pub struct CollectionsOutput {
    /// Collections listed (the whole library, or one subtree).
    pub count: usize,
    /// Distinct top-level items filed anywhere in the listed collections.
    pub item_count: usize,
    /// Key of the requested subtree root. Omitted from JSON for a full listing.
    pub root: Option<String>,
    pub collections: Vec<CollectionOutput>,
    /// Display-only: drop the depth indentation.
    pub flat: bool,
    /// Display-only: show connector tree-view IDs next to the keys.
    pub show_tree_ids: bool,
}

/// One collection of a listing.
#[derive(Debug, Clone)]
pub struct CollectionOutput {
    pub key: String,
    pub name: String,
    /// Key of the parent collection, always absolute. In a subtree listing the
    /// requested root keeps the parent it has in the full tree, so that one
    /// `parent` points at a collection outside the listing.
    pub parent: Option<String>,
    /// Relative to the listing root: in a subtree listing depth is rebased so
    /// the requested root is 0, unlike `parent`, which stays absolute.
    pub depth: usize,
    pub count_direct: usize,
    pub count_tree: usize,
    /// Connector tree-view ID, `null` unless `--tree-ids` was passed and the
    /// connector paired this collection. Always serialised, so the node shape
    /// does not vary between runs.
    pub tree_id: Option<String>,
}

/// One collection created by `zot collections --create`.
#[derive(Debug, Clone)]
pub struct CollectionCreatedOutput {
    pub key: String,
    pub name: String,
    /// Key of the parent collection; `null` for a top-level collection.
    pub parent: Option<String>,
    /// Name of the parent collection; `null` for a top-level collection.
    pub parent_name: Option<String>,
    /// Whether the collection has reached the local library yet. The write goes
    /// to api.zotero.org, so `zot collections` only shows it once Zotero has
    /// synced it down; `false` means "created, not visible locally yet".
    pub synced_local: bool,
}

/// One collection tree removed by `zot collections --rm`.
#[derive(Debug, Clone)]
pub struct CollectionDeletedOutput {
    pub key: String,
    pub name: String,
    /// Key of the parent the deleted collection hung from; `null` when it was
    /// top level.
    pub parent: Option<String>,
    /// Every collection the delete removed, the named one first, then its
    /// descendants in preorder. One DELETE removes all of them: the server
    /// cascades.
    pub removed: Vec<CollectionRemovedOutput>,
    /// Descendant collections that went with it, i.e. `removed.len() - 1`.
    pub descendant_count: usize,
    /// Distinct top-level items that were filed somewhere in the removed tree.
    /// None of them was deleted.
    pub item_count: usize,
    /// Of those, the ones now in no collection at all, because every
    /// collection they were filed in is gone.
    pub unfiled_count: usize,
    /// Whether the deletion has reached the local library yet. The write goes
    /// to api.zotero.org, so `zot collections` keeps showing the tree until
    /// Zotero syncs it down; `false` means "deleted upstream, still listed
    /// locally".
    pub synced_local: bool,
    pub note: String,
}

/// One collection that a delete removes.
#[derive(Debug, Clone)]
pub struct CollectionRemovedOutput {
    pub key: String,
    pub name: String,
    /// Relative to the deleted collection, which is 0.
    pub depth: usize,
}

/// What `zot unfiled` answers.
#[derive(Debug, Clone)]
pub struct UnfiledOutput {
    /// Top-level items in no collection that can be filed as they are.
    pub count: usize,
    /// Top-level attachments and notes in no collection. Counted apart because
    /// a stray attachment wants reparenting or deleting, not filing.
    pub stray_count: usize,
    /// The items themselves, `null` under `--count`, where only the two counts
    /// were asked for. An empty array means there are none.
    pub items: Option<Vec<UnfiledItemOutput>>,
    /// The stray attachments and notes, `null` under `--count` for the same
    /// reason as `items`.
    pub stray: Option<Vec<UnfiledItemOutput>>,
}

/// One unfiled item.
#[derive(Debug, Clone)]
pub struct UnfiledItemOutput {
    pub key: String,
    pub item_type: String,
    pub title: String,
}

/// What `zot authors` answers.
#[derive(Debug, Clone)]
pub struct AuthorsOutput {
    pub count: usize,
    pub authors: Vec<String>,
}

/// What `zot pdf` answers.
#[derive(Debug, Clone)]
pub struct PdfOutput {
    pub key: String,
    pub path: Option<String>,
}

/// What `zot index --status` answers.
#[derive(Debug, Clone)]
pub struct IndexStatusOutput {
    pub item_count: usize,
    pub chunk_count: usize,
    pub vector_count: usize,
    pub items_without_fulltext: usize,
    /// Breakdown of extraction status across all indexed items, ordered for
    /// display. Each entry is (status label, count).
    pub status_breakdown: Vec<(String, usize)>,
    pub model_name: String,
    pub model_dim: usize,
    pub last_sync: String,
    pub data_dir: String,
}

/// What `zot add` answers.
#[derive(Debug, Clone)]
pub struct AddOutput {
    pub added: Vec<AddedItemOutput>,
    /// Collection membership of the new item; `None` when no `--collection`
    /// was given and the item went to the library root.
    ///
    /// Always serialised, `null` included: that `null` is the only
    /// machine-readable signal that the add landed unfiled, and a consumer
    /// cannot read a key that is not there.
    pub collections: Option<AddCollectionsOutput>,
    pub warnings: Vec<String>,
}

/// Where the new item ended up, and what is still missing when only part of the
/// filing went through.
#[derive(Debug, Clone)]
pub struct AddCollectionsOutput {
    /// Collections the item is in, as `Name (KEY)`.
    pub filed: Vec<String>,
    /// Requested collections that were not written.
    pub pending: Vec<String>,
    /// The `zot edit` command that files the pending ones by hand.
    pub fix_command: Option<String>,
}

/// One item that was added.
#[derive(Debug, Clone)]
pub struct AddedItemOutput {
    pub key: String,
    pub title: String,
    pub item_type: String,
    pub creators: String,
    pub date: String,
    pub doi: String,
}

/// What `zot edit` answers.
#[derive(Debug, Clone)]
pub struct EditOutput {
    pub key: String,
    pub version: u64,
    pub changed: Vec<String>,
    pub note: String,
}

/// What `zot attach` answers.
#[derive(Debug, Clone)]
pub struct AttachOutput {
    pub key: String,
    pub parent_title: String,
    pub attachment_key: String,
    pub filename: String,
    pub note: String,
}

/// What `zot rm` answers.
#[derive(Debug, Clone)]
pub struct RmOutput {
    pub trashed: Vec<String>,
    pub note: String,
}

/// What `zot config` answers.
#[derive(Debug, Clone)]
pub struct ConfigOutput {
    pub path: String,
    pub api_key: Option<String>,
    pub user_id: Option<u64>,
    pub env_override: bool,
    pub note: Option<String>,
}

/// What `zot index issues` answers.
#[derive(Debug, Clone)]
pub struct IndexIssuesOutput {
    pub count: usize,
    pub issues: Vec<IndexIssueOutput>,
}

/// One item whose text could not be fully extracted.
#[derive(Debug, Clone)]
pub struct IndexIssueOutput {
    pub key: String,
    pub title: String,
    pub status: String,
    pub detail: String,
}

/// The numbered results of a full-text search.
pub open spec fn search_rows(o: Seq<char>, rows: Seq<SearchResultOutput>, n: int) -> Seq<char>
    decreases n,
{
    if n <= 0 {
        o
    } else {
        let o = search_rows(o, rows, n - 1);
        let r = rows[n - 1];
        let o = o + "\n"@ + decimal(n as nat) + ". ["@ + r.key@ + "] "@ + r.title@
            + " (score: "@ + r.score@ + ")\n   "@ + r.creators@ + " | "@ + r.date@ + " | "@
            + r.item_type@ + "\n"@;
        let o = if r.snippet@.len() > 0 {
            o + "   > "@ + one_line(shortened(r.snippet@, 200)) + "\n"@
        } else {
            o
        };
        if r.chunk_type@ == "fulltext"@ {
            o + "   chars "@ + decimal(r.char_start as nat) + "-"@
                + decimal(r.char_end as nat) + "\n"@
        } else {
            o
        }
    }
}

impl HumanDisplay for SearchOutput {
    open spec fn shown(&self) -> Seq<char> {
        let o = Seq::<char>::empty();
        match self.export {
            Some(export) => {
                o + export.shown()
            },
            None => {
                let o = match self.note {
                    Some(note) => {
                        o + note@ + "\n\n"@
                    },
                    None => o,
                };
                let o = o + "Search: \""@ + self.query@ + "\"\nResults: "@
                    + decimal(self.result_count as nat) + "\n"@;
                search_rows(o, self.results@, self.results@.len() as int)
            },
        }
    }

    fn human_display(&self) -> (r: String) {
        let mut out = String::new();
        match &self.export {
            Some(export) => {
                out.push_str(export.human_display().as_str());
            },
            None => {
                match &self.note {
                    Some(note) => {
                        out.push_str(note.as_str());
                        out.push_str("\n\n");
                    },
                    None => {},
                }
                out.push_str("Search: \"");
                out.push_str(self.query.as_str());
                out.push_str("\"\nResults: ");
                push_decimal(&mut out, self.result_count as u64);
                out.push_str("\n");
                let ghost head = out@;
                let mut i: usize = 0;
                while i < self.results.len()
                    invariant
                        i <= self.results.len(),
                        out@ == search_rows(head, self.results@, i as int),
                    decreases self.results.len() - i,
                {
                    let r = &self.results[i];
                    out.push_str("\n");
                    push_decimal(&mut out, i as u64 + 1);
                    out.push_str(". [");
                    out.push_str(r.key.as_str());
                    out.push_str("] ");
                    out.push_str(r.title.as_str());
                    out.push_str(" (score: ");
                    out.push_str(r.score.as_str());
                    out.push_str(")\n   ");
                    out.push_str(r.creators.as_str());
                    out.push_str(" | ");
                    out.push_str(r.date.as_str());
                    out.push_str(" | ");
                    out.push_str(r.item_type.as_str());
                    out.push_str("\n");
                    if !is_empty(r.snippet.as_str()) {
                        out.push_str("   > ");
                        out.push_str(on_one_line(truncate_display(r.snippet.as_str(), 200).as_str()).as_str());
                        out.push_str("\n");
                    }
                    if same_text(r.chunk_type.as_str(), "fulltext") {
                        out.push_str("   chars ");
                        push_decimal(&mut out, r.char_start as u64);
                        out.push_str("-");
                        push_decimal(&mut out, r.char_end as u64);
                        out.push_str("\n");
                    }
                    i += 1;
                }
            },
        }
        out
    }
}

impl HumanDisplay for ExportOutput {
    open spec fn shown(&self) -> Seq<char> {
        let o = Seq::<char>::empty();
        match self.path {
            Some(path) => {
                if self.exported == 1 {
                    o + "Wrote 1 entry to "@ + path@
                } else {
                    o + "Wrote "@ + decimal(self.exported as nat) + " entries to "@
                        + path@
                }
            },
            None => {
                match self.content {
                    Some(content) => {
                        o + content@
                    },
                    None => o,
                }
            },
        }
    }

    fn human_display(&self) -> (r: String) {
        let mut out = String::new();
        match &self.path {
            Some(path) => {
                if self.exported == 1 {
                    out.push_str("Wrote 1 entry to ");
                    out.push_str(path.as_str());
                } else {
                    out.push_str("Wrote ");
                    push_decimal(&mut out, self.exported as u64);
                    out.push_str(" entries to ");
                    out.push_str(path.as_str());
                }
            },
            None => {
                match &self.content {
                    Some(content) => {
                        out.push_str(content.as_str());
                    },
                    None => {},
                }
            },
        }
        out
    }
}

/// The numbered results of a search.
pub open spec fn find_rows(o: Seq<char>, rows: Seq<FindResultOutput>, n: int) -> Seq<char>
    decreases n,
{
    if n <= 0 {
        o
    } else {
        let o = find_rows(o, rows, n - 1);
        let r = rows[n - 1];
        let o = o + "\n"@ + decimal(n as nat) + ". ["@ + r.key@ + "] "@ + r.title@ + "\n   "@
            + r.creators@ + " | "@ + r.date@ + " | "@ + r.item_type@ + "\n"@;
        if r.tags@.len() > 0 {
            o + "   tags: "@ + joined(texts(r.tags@), ", "@) + "\n"@
        } else {
            o
        }
    }
}

impl HumanDisplay for FindOutput {
    open spec fn shown(&self) -> Seq<char> {
        let o = Seq::<char>::empty();
        let o = o + "Find: \""@ + self.query@ + "\"\nResults: "@
            + decimal(self.result_count as nat) + "\n"@;
        find_rows(o, self.results@, self.results@.len() as int)
    }

    fn human_display(&self) -> (r: String) {
        let mut out = String::new();
        out.push_str("Find: \"");
        out.push_str(self.query.as_str());
        out.push_str("\"\nResults: ");
        push_decimal(&mut out, self.result_count as u64);
        out.push_str("\n");
        let ghost head = out@;
        let mut i: usize = 0;
        while i < self.results.len()
            invariant
                i <= self.results.len(),
                out@ == find_rows(head, self.results@, i as int),
            decreases self.results.len() - i,
        {
            let r = &self.results[i];
            out.push_str("\n");
            push_decimal(&mut out, i as u64 + 1);
            out.push_str(". [");
            out.push_str(r.key.as_str());
            out.push_str("] ");
            out.push_str(r.title.as_str());
            out.push_str("\n   ");
            out.push_str(r.creators.as_str());
            out.push_str(" | ");
            out.push_str(r.date.as_str());
            out.push_str(" | ");
            out.push_str(r.item_type.as_str());
            out.push_str("\n");
            if r.tags.len() > 0 {
                out.push_str("   tags: ");
                out.push_str(join(r.tags.as_slice(), ", ").as_str());
                out.push_str("\n");
            }
            i += 1;
        }
        out
    }
}

impl HumanDisplay for ItemOutput {
    open spec fn shown(&self) -> Seq<char> {
        let o = Seq::<char>::empty();
        let o = o + "["@ + self.key@ + "] "@ + self.title@ + "\n"@ + "Type: "@
            + self.item_type@ + "\n"@;
        let o = if self.short_title@.len() > 0 {
            o + "Short title: "@ + self.short_title@ + "\n"@
        } else {
            o
        };
        let o = if self.creators@.len() > 0 {
            o + "Authors: "@ + joined(creator_names(self.creators@), "; "@) + "\n"@
        } else {
            o
        };
        let o = if self.date@.len() > 0 {
            o + "Date: "@ + self.date@ + "\n"@
        } else {
            o
        };
        let o = if self.publication_title@.len() > 0 {
            o + "Publication: "@ + self.publication_title@ + "\n"@
        } else {
            o
        };
        let o = if self.doi@.len() > 0 {
            o + "DOI: "@ + self.doi@ + "\n"@
        } else {
            o
        };
        let o = if self.url@.len() > 0 {
            o + "URL: "@ + self.url@ + "\n"@
        } else {
            o
        };
        let o = if self.tags@.len() > 0 {
            o + "Tags: "@ + joined(texts(self.tags@), ", "@) + "\n"@
        } else {
            o
        };
        if self.abstract_note@.len() > 0 {
            o + "\nAbstract:\n"@ + shortened(self.abstract_note@, 500) + "\n"@
        } else {
            o
        }
    }

    fn human_display(&self) -> (r: String) {
        let mut out = String::new();
        out.push_str("[");
        out.push_str(self.key.as_str());
        out.push_str("] ");
        out.push_str(self.title.as_str());
        out.push_str("\n");
        out.push_str("Type: ");
        out.push_str(self.item_type.as_str());
        out.push_str("\n");
        if !is_empty(self.short_title.as_str()) {
            out.push_str("Short title: ");
            out.push_str(self.short_title.as_str());
            out.push_str("\n");
        }
        if self.creators.len() > 0 {
            out.push_str("Authors: ");
            out.push_str(join(names_of(&self.creators).as_slice(), "; ").as_str());
            out.push_str("\n");
        }
        if !is_empty(self.date.as_str()) {
            out.push_str("Date: ");
            out.push_str(self.date.as_str());
            out.push_str("\n");
        }
        if !is_empty(self.publication_title.as_str()) {
            out.push_str("Publication: ");
            out.push_str(self.publication_title.as_str());
            out.push_str("\n");
        }
        if !is_empty(self.doi.as_str()) {
            out.push_str("DOI: ");
            out.push_str(self.doi.as_str());
            out.push_str("\n");
        }
        if !is_empty(self.url.as_str()) {
            out.push_str("URL: ");
            out.push_str(self.url.as_str());
            out.push_str("\n");
        }
        if self.tags.len() > 0 {
            out.push_str("Tags: ");
            out.push_str(join(self.tags.as_slice(), ", ").as_str());
            out.push_str("\n");
        }
        if !is_empty(self.abstract_note.as_str()) {
            out.push_str("\nAbstract:\n");
            out.push_str(truncate_display(self.abstract_note.as_str(), 500).as_str());
            out.push_str("\n");
        }
        out
    }
}

impl HumanDisplay for FulltextOutput {
    open spec fn shown(&self) -> Seq<char> {
        let o = Seq::<char>::empty();
        o + "["@ + self.key@ + "] "@ + self.title@ + " (chars "@
            + decimal(self.start as nat) + "-"@ + decimal(self.end as nat) + " of "@
            + decimal(self.total_chars as nat) + ")\n\n"@ + self.text@
    }

    fn human_display(&self) -> (r: String) {
        let mut out = String::new();
        out.push_str("[");
        out.push_str(self.key.as_str());
        out.push_str("] ");
        out.push_str(self.title.as_str());
        out.push_str(" (chars ");
        push_decimal(&mut out, self.start as u64);
        out.push_str("-");
        push_decimal(&mut out, self.end as u64);
        out.push_str(" of ");
        push_decimal(&mut out, self.total_chars as u64);
        out.push_str(")\n\n");
        out.push_str(self.text.as_str());
        out
    }
}

/// The tags, each with how many items have it.
pub open spec fn tag_rows(o: Seq<char>, rows: Seq<TagOutput>, n: int) -> Seq<char>
    decreases n,
{
    if n <= 0 {
        o
    } else {
        let o = tag_rows(o, rows, n - 1);
        let r = rows[n - 1];
        o + "  "@ + r.tag@ + " ("@ + decimal(r.num_items as nat) + ")\n"@
    }
}

impl HumanDisplay for TagsOutput {
    open spec fn shown(&self) -> Seq<char> {
        let o = Seq::<char>::empty();
        let o = o + "Tags: "@ + decimal(self.count as nat) + "\n\n"@;
        tag_rows(o, self.tags@, self.tags@.len() as int)
    }

    fn human_display(&self) -> (r: String) {
        let mut out = String::new();
        out.push_str("Tags: ");
        push_decimal(&mut out, self.count as u64);
        out.push_str("\n\n");
        let ghost head = out@;
        let mut i: usize = 0;
        while i < self.tags.len()
            invariant
                i <= self.tags.len(),
                out@ == tag_rows(head, self.tags@, i as int),
            decreases self.tags.len() - i,
        {
            let r = &self.tags[i];
            out.push_str("  ");
            out.push_str(r.tag.as_str());
            out.push_str(" (");
            push_decimal(&mut out, r.num_items as u64);
            out.push_str(")\n");
            i += 1;
        }
        out
    }
}

/// The collections, indented by depth unless the listing is flat.
pub open spec fn collection_rows(o: Seq<char>, rows: Seq<CollectionOutput>, n: int, flat: bool, ids: bool) -> Seq<char>
    decreases n,
{
    if n <= 0 {
        o
    } else {
        let o = collection_rows(o, rows, n - 1, flat, ids);
        let r = rows[n - 1];
        let o = o + "  "@;
        let o = if !flat {
            o + spaces(2 * r.depth as nat)
        } else {
            o
        };
        let o = o + r.name@ + " ["@ + r.key@;
        let o = if ids {
            let o = o + " "@;
            match r.tree_id {
                Some(id) => {
                    o + id@
                },
                None => {
                    o + "-"@
                },
            }
        } else {
            o
        };
        o + "] "@ + decimal(r.count_direct as nat) + " direct, "@
            + decimal(r.count_tree as nat) + " total\n"@
    }
}

impl HumanDisplay for CollectionsOutput {
    open spec fn shown(&self) -> Seq<char> {
        let o = Seq::<char>::empty();
        let o = o + "Collections: "@ + decimal(self.count as nat) + " ("@;
        let o = match self.root {
            Some(root) => {
                o + "subtree of "@ + root@ + ", "@
            },
            None => o,
        };
        let o = if self.item_count == 1 {
            o + "1 filed item"@
        } else {
            o + decimal(self.item_count as nat) + " filed items"@
        };
        let o = o + ")\n\n"@;
        collection_rows(o, self.collections@, self.collections@.len() as int, self.flat, self.show_tree_ids)
    }

    fn human_display(&self) -> (r: String) {
        let mut out = String::new();
        out.push_str("Collections: ");
        push_decimal(&mut out, self.count as u64);
        out.push_str(" (");
        match &self.root {
            Some(root) => {
                out.push_str("subtree of ");
                out.push_str(root.as_str());
                out.push_str(", ");
            },
            None => {},
        }
        if self.item_count == 1 {
            out.push_str("1 filed item");
        } else {
            push_decimal(&mut out, self.item_count as u64);
            out.push_str(" filed items");
        }
        out.push_str(")\n\n");
        let ghost head = out@;
        let mut i: usize = 0;
        while i < self.collections.len()
            invariant
                i <= self.collections.len(),
                out@ == collection_rows(head, self.collections@, i as int, self.flat, self.show_tree_ids),
            decreases self.collections.len() - i,
        {
            let r = &self.collections[i];
            out.push_str("  ");
            if !self.flat {
                push_indent(&mut out, r.depth);
            }
            out.push_str(r.name.as_str());
            out.push_str(" [");
            out.push_str(r.key.as_str());
            if self.show_tree_ids {
                out.push_str(" ");
                match &r.tree_id {
                    Some(id) => {
                        out.push_str(id.as_str());
                    },
                    None => {
                        out.push_str("-");
                    },
                }
            }
            out.push_str("] ");
            push_decimal(&mut out, r.count_direct as u64);
            out.push_str(" direct, ");
            push_decimal(&mut out, r.count_tree as u64);
            out.push_str(" total\n");
            i += 1;
        }
        out
    }
}

impl HumanDisplay for CollectionCreatedOutput {
    open spec fn shown(&self) -> Seq<char> {
        let o = Seq::<char>::empty();
        let o = o + "Created collection: "@ + self.name@ + " ["@ + self.key@
            + "]\n  Parent: "@;
        let o = if self.parent_name is Some && self.parent is Some {
            let o = match self.parent_name {
                Some(name) => {
                    o + name@
                },
                None => o,
            };
            match self.parent {
                Some(key) => {
                    o + " ["@ + key@ + "]"@
                },
                None => o,
            }
        } else {
            o + "none (top level)"@
        };
        let o = o + "\n  Local:  "@;
        let o = if self.synced_local {
            o + "synced down, `zot collections` shows it now"@
        } else {
            o
                + "not synced down yet; it exists upstream, so re-running --create would duplicate it"@
        };
        o + "\n"@
    }

    fn human_display(&self) -> (r: String) {
        let mut out = String::new();
        out.push_str("Created collection: ");
        out.push_str(self.name.as_str());
        out.push_str(" [");
        out.push_str(self.key.as_str());
        out.push_str("]\n  Parent: ");
        if self.parent_name.is_some() && self.parent.is_some() {
            match &self.parent_name {
                Some(name) => {
                    out.push_str(name.as_str());
                },
                None => {},
            }
            match &self.parent {
                Some(key) => {
                    out.push_str(" [");
                    out.push_str(key.as_str());
                    out.push_str("]");
                },
                None => {},
            }
        } else {
            out.push_str("none (top level)");
        }
        out.push_str("\n  Local:  ");
        if self.synced_local {
            out.push_str("synced down, `zot collections` shows it now");
        } else {
            out.push_str("not synced down yet; it exists upstream, so re-running --create would duplicate it");
        }
        out.push_str("\n");
        out
    }
}

/// The removed collections, indented by depth.
pub open spec fn removed_rows(o: Seq<char>, rows: Seq<CollectionRemovedOutput>, n: int) -> Seq<char>
    decreases n,
{
    if n <= 0 {
        o
    } else {
        let o = removed_rows(o, rows, n - 1);
        let r = rows[n - 1];
        o + "    "@ + spaces(2 * r.depth as nat) + r.name@ + " ["@ + r.key@ + "]\n"@
    }
}

impl HumanDisplay for CollectionDeletedOutput {
    open spec fn shown(&self) -> Seq<char> {
        let o = Seq::<char>::empty();
        let o = o + "Deleted collection: "@ + self.name@ + " ["@ + self.key@
            + "]\n  Removed: "@ + decimal(self.removed@.len()) + " collection"@;
        let o = if self.removed@.len() != 1 {
            o + "s"@
        } else {
            o
        };
        let o = o + " ("@ + decimal(self.descendant_count as nat) + " descendant"@;
        let o = if self.descendant_count != 1 {
            o + "s"@
        } else {
            o
        };
        let o = o + ")\n"@;
        let o = removed_rows(o, self.removed@, self.removed@.len() as int);
        let o = o + "  Items:  "@ + decimal(self.item_count as nat) + " were filed there, "@
            + decimal(self.unfiled_count as nat)
            + " are now in no collection; none was deleted.\n  Local:  "@;
        let o = if self.synced_local {
            o + "synced down, `zot collections` no longer lists it"@
        } else {
            o
                + "not synced down yet; it is gone upstream but `zot collections` still lists it"@
        };
        o + "\n  "@ + self.note@ + "\n"@
    }

    fn human_display(&self) -> (r: String) {
        let mut out = String::new();
        out.push_str("Deleted collection: ");
        out.push_str(self.name.as_str());
        out.push_str(" [");
        out.push_str(self.key.as_str());
        out.push_str("]\n  Removed: ");
        push_decimal(&mut out, self.removed.len() as u64);
        out.push_str(" collection");
        if self.removed.len() != 1 {
            out.push_str("s");
        }
        out.push_str(" (");
        push_decimal(&mut out, self.descendant_count as u64);
        out.push_str(" descendant");
        if self.descendant_count != 1 {
            out.push_str("s");
        }
        out.push_str(")\n");
        let ghost head = out@;
        let mut i: usize = 0;
        while i < self.removed.len()
            invariant
                i <= self.removed.len(),
                out@ == removed_rows(head, self.removed@, i as int),
            decreases self.removed.len() - i,
        {
            let r = &self.removed[i];
            out.push_str("    ");
            push_indent(&mut out, r.depth);
            out.push_str(r.name.as_str());
            out.push_str(" [");
            out.push_str(r.key.as_str());
            out.push_str("]\n");
            i += 1;
        }
        out.push_str("  Items:  ");
        push_decimal(&mut out, self.item_count as u64);
        out.push_str(" were filed there, ");
        push_decimal(&mut out, self.unfiled_count as u64);
        out.push_str(" are now in no collection; none was deleted.\n  Local:  ");
        if self.synced_local {
            out.push_str("synced down, `zot collections` no longer lists it");
        } else {
            out.push_str("not synced down yet; it is gone upstream but `zot collections` still lists it");
        }
        out.push_str("\n  ");
        out.push_str(self.note.as_str());
        out.push_str("\n");
        out
    }
}

/// Items in no collection, in columns.
pub open spec fn unfiled_rows(o: Seq<char>, rows: Seq<UnfiledItemOutput>, n: int) -> Seq<char>
    decreases n,
{
    if n <= 0 {
        o
    } else {
        let o = unfiled_rows(o, rows, n - 1);
        let r = rows[n - 1];
        o + "  ["@ + r.key@ + "] "@ + padded(r.item_type@, 16) + " "@
            + shortened(r.title@, 70) + "\n"@
    }
}

impl HumanDisplay for UnfiledOutput {
    open spec fn shown(&self) -> Seq<char> {
        let o = Seq::<char>::empty();
        match self.items {
            Some(items) => {
                let o = o + "Unfiled items: "@ + decimal(self.count as nat) + "\n\n"@;
                let o = unfiled_rows(o, items@, items@.len() as int);
                let o = o + "\nStray top-level attachments and notes: "@
                    + decimal(self.stray_count as nat) + " (reparent or delete, do not file)\n"@;
                match self.stray {
                    Some(stray) => {
                        let o = if stray@.len() > 0 {
                            o + "\n"@
                        } else {
                            o
                        };
                        unfiled_rows(o, stray@, stray@.len() as int)
                    },
                    None => o,
                }
            },
            None => {
                o + decimal(self.count as nat)
            },
        }
    }

    fn human_display(&self) -> (r: String) {
        let mut out = String::new();
        match &self.items {
            Some(items) => {
                out.push_str("Unfiled items: ");
                push_decimal(&mut out, self.count as u64);
                out.push_str("\n\n");
                let ghost head = out@;
                let mut i: usize = 0;
                while i < items.len()
                    invariant
                        i <= items.len(),
                        out@ == unfiled_rows(head, items@, i as int),
                    decreases items.len() - i,
                {
                    let r = &items[i];
                    out.push_str("  [");
                    out.push_str(r.key.as_str());
                    out.push_str("] ");
                    out.push_str(pad(r.item_type.as_str(), 16).as_str());
                    out.push_str(" ");
                    out.push_str(truncate_display(r.title.as_str(), 70).as_str());
                    out.push_str("\n");
                    i += 1;
                }
                out.push_str("\nStray top-level attachments and notes: ");
                push_decimal(&mut out, self.stray_count as u64);
                out.push_str(" (reparent or delete, do not file)\n");
                match &self.stray {
                    Some(stray) => {
                        if stray.len() > 0 {
                            out.push_str("\n");
                        }
                        let ghost head = out@;
                        let mut i: usize = 0;
                        while i < stray.len()
                            invariant
                                i <= stray.len(),
                                out@ == unfiled_rows(head, stray@, i as int),
                            decreases stray.len() - i,
                        {
                            let r = &stray[i];
                            out.push_str("  [");
                            out.push_str(r.key.as_str());
                            out.push_str("] ");
                            out.push_str(pad(r.item_type.as_str(), 16).as_str());
                            out.push_str(" ");
                            out.push_str(truncate_display(r.title.as_str(), 70).as_str());
                            out.push_str("\n");
                            i += 1;
                        }
                    },
                    None => {},
                }
            },
            None => {
                push_decimal(&mut out, self.count as u64);
            },
        }
        out
    }
}

/// The authors, one per line.
pub open spec fn author_rows(o: Seq<char>, rows: Seq<String>, n: int) -> Seq<char>
    decreases n,
{
    if n <= 0 {
        o
    } else {
        let o = author_rows(o, rows, n - 1);
        let r = rows[n - 1];
        o + "  "@ + r@ + "\n"@
    }
}

impl HumanDisplay for AuthorsOutput {
    open spec fn shown(&self) -> Seq<char> {
        let o = Seq::<char>::empty();
        let o = o + "Authors: "@ + decimal(self.count as nat) + "\n\n"@;
        author_rows(o, self.authors@, self.authors@.len() as int)
    }

    fn human_display(&self) -> (r: String) {
        let mut out = String::new();
        out.push_str("Authors: ");
        push_decimal(&mut out, self.count as u64);
        out.push_str("\n\n");
        let ghost head = out@;
        let mut i: usize = 0;
        while i < self.authors.len()
            invariant
                i <= self.authors.len(),
                out@ == author_rows(head, self.authors@, i as int),
            decreases self.authors.len() - i,
        {
            let r = &self.authors[i];
            out.push_str("  ");
            out.push_str(r.as_str());
            out.push_str("\n");
            i += 1;
        }
        out
    }
}

impl HumanDisplay for PdfOutput {
    open spec fn shown(&self) -> Seq<char> {
        let o = Seq::<char>::empty();
        match self.path {
            Some(p) => {
                o + p@
            },
            None => {
                o + "No PDF found for item "@ + self.key@
            },
        }
    }

    fn human_display(&self) -> (r: String) {
        let mut out = String::new();
        match &self.path {
            Some(p) => {
                out.push_str(p.as_str());
            },
            None => {
                out.push_str("No PDF found for item ");
                out.push_str(self.key.as_str());
            },
        }
        out
    }
}

/// How many items have each status.
pub open spec fn status_rows(o: Seq<char>, rows: Seq<(String, usize)>, n: int) -> Seq<char>
    decreases n,
{
    if n <= 0 {
        o
    } else {
        let o = status_rows(o, rows, n - 1);
        let r = rows[n - 1];
        o + "\n    "@ + r.0@ + ": "@ + decimal(r.1 as nat)
    }
}

impl HumanDisplay for IndexStatusOutput {
    open spec fn shown(&self) -> Seq<char> {
        let o = Seq::<char>::empty();
        let o = o + "Index Status\n  Items: "@ + decimal(self.item_count as nat)
            + "\n  Chunks: "@ + decimal(self.chunk_count as nat) + "\n  Vectors: "@
            + decimal(self.vector_count as nat) + "\n  Items without fulltext: "@
            + decimal(self.items_without_fulltext as nat);
        let o = if self.status_breakdown@.len() > 0 {
            let o = o + "\n  Extraction status:"@;
            status_rows(o, self.status_breakdown@, self.status_breakdown@.len() as int)
        } else {
            o
        };
        let o = o + "\n  Model: "@ + self.model_name@ + " (dim "@
            + decimal(self.model_dim as nat) + ")\n  Last sync: "@;
        let o = if self.last_sync@.len() == 0 {
            o + "never"@
        } else {
            o + self.last_sync@
        };
        o + "\n  Data dir: "@ + self.data_dir@
    }

    fn human_display(&self) -> (r: String) {
        let mut out = String::new();
        out.push_str("Index Status\n  Items: ");
        push_decimal(&mut out, self.item_count as u64);
        out.push_str("\n  Chunks: ");
        push_decimal(&mut out, self.chunk_count as u64);
        out.push_str("\n  Vectors: ");
        push_decimal(&mut out, self.vector_count as u64);
        out.push_str("\n  Items without fulltext: ");
        push_decimal(&mut out, self.items_without_fulltext as u64);
        if self.status_breakdown.len() > 0 {
            out.push_str("\n  Extraction status:");
            let ghost head = out@;
            let mut i: usize = 0;
            while i < self.status_breakdown.len()
                invariant
                    i <= self.status_breakdown.len(),
                    out@ == status_rows(head, self.status_breakdown@, i as int),
                decreases self.status_breakdown.len() - i,
            {
                let r = &self.status_breakdown[i];
                out.push_str("\n    ");
                out.push_str(r.0.as_str());
                out.push_str(": ");
                push_decimal(&mut out, r.1 as u64);
                i += 1;
            }
        }
        out.push_str("\n  Model: ");
        out.push_str(self.model_name.as_str());
        out.push_str(" (dim ");
        push_decimal(&mut out, self.model_dim as u64);
        out.push_str(")\n  Last sync: ");
        if is_empty(self.last_sync.as_str()) {
            out.push_str("never");
        } else {
            out.push_str(self.last_sync.as_str());
        }
        out.push_str("\n  Data dir: ");
        out.push_str(self.data_dir.as_str());
        out
    }
}

/// The added items.
pub open spec fn added_rows(o: Seq<char>, rows: Seq<AddedItemOutput>, n: int) -> Seq<char>
    decreases n,
{
    if n <= 0 {
        o
    } else {
        let o = added_rows(o, rows, n - 1);
        let r = rows[n - 1];
        let o = o + "\n["@ + r.key@ + "] "@ + r.title@ + "\n   "@ + r.creators@ + " | "@
            + r.date@ + " | "@ + r.item_type@ + "\n"@;
        if r.doi@.len() > 0 {
            o + "   DOI: "@ + r.doi@ + "\n"@
        } else {
            o
        }
    }
}

/// The warnings.
pub open spec fn warning_rows(o: Seq<char>, rows: Seq<String>, n: int) -> Seq<char>
    decreases n,
{
    if n <= 0 {
        o
    } else {
        let o = warning_rows(o, rows, n - 1);
        let r = rows[n - 1];
        o + "\nWarning: "@ + r@ + "\n"@
    }
}

impl HumanDisplay for AddOutput {
    open spec fn shown(&self) -> Seq<char> {
        let o = Seq::<char>::empty();
        let o = if self.added@.len() == 0 {
            o + "No new items detected.\n"@
        } else {
            let o = o + "Added "@ + decimal(self.added@.len()) + " item(s):\n"@;
            added_rows(o, self.added@, self.added@.len() as int)
        };
        let o = match self.collections {
            Some(c) => {
                if c.pending@.len() == 0 {
                    o + "\nFiled in: "@ + joined(texts(c.filed@), ", "@) + "\n"@
                } else {
                    let o = o + "\nPartially filed: in "@ + joined(texts(c.filed@), ", "@)
                        + "\n   NOT in: "@ + joined(texts(c.pending@), ", "@) + "\n"@;
                    match c.fix_command {
                        Some(command) => {
                            o + "   Finish with: "@ + command@ + "\n"@
                        },
                        None => o,
                    }
                }
            },
            None => o,
        };
        warning_rows(o, self.warnings@, self.warnings@.len() as int)
    }

    fn human_display(&self) -> (r: String) {
        let mut out = String::new();
        if self.added.len() == 0 {
            out.push_str("No new items detected.\n");
        } else {
            out.push_str("Added ");
            push_decimal(&mut out, self.added.len() as u64);
            out.push_str(" item(s):\n");
            let ghost head = out@;
            let mut i: usize = 0;
            while i < self.added.len()
                invariant
                    i <= self.added.len(),
                    out@ == added_rows(head, self.added@, i as int),
                decreases self.added.len() - i,
            {
                let r = &self.added[i];
                out.push_str("\n[");
                out.push_str(r.key.as_str());
                out.push_str("] ");
                out.push_str(r.title.as_str());
                out.push_str("\n   ");
                out.push_str(r.creators.as_str());
                out.push_str(" | ");
                out.push_str(r.date.as_str());
                out.push_str(" | ");
                out.push_str(r.item_type.as_str());
                out.push_str("\n");
                if !is_empty(r.doi.as_str()) {
                    out.push_str("   DOI: ");
                    out.push_str(r.doi.as_str());
                    out.push_str("\n");
                }
                i += 1;
            }
        }
        match &self.collections {
            Some(c) => {
                if c.pending.len() == 0 {
                    out.push_str("\nFiled in: ");
                    out.push_str(join(c.filed.as_slice(), ", ").as_str());
                    out.push_str("\n");
                } else {
                    out.push_str("\nPartially filed: in ");
                    out.push_str(join(c.filed.as_slice(), ", ").as_str());
                    out.push_str("\n   NOT in: ");
                    out.push_str(join(c.pending.as_slice(), ", ").as_str());
                    out.push_str("\n");
                    match &c.fix_command {
                        Some(command) => {
                            out.push_str("   Finish with: ");
                            out.push_str(command.as_str());
                            out.push_str("\n");
                        },
                        None => {},
                    }
                }
            },
            None => {},
        }
        let ghost head = out@;
        let mut i: usize = 0;
        while i < self.warnings.len()
            invariant
                i <= self.warnings.len(),
                out@ == warning_rows(head, self.warnings@, i as int),
            decreases self.warnings.len() - i,
        {
            let r = &self.warnings[i];
            out.push_str("\nWarning: ");
            out.push_str(r.as_str());
            out.push_str("\n");
            i += 1;
        }
        out
    }
}

impl HumanDisplay for EditOutput {
    open spec fn shown(&self) -> Seq<char> {
        let o = Seq::<char>::empty();
        if self.changed@.len() == 0 {
            o + "No change ["@ + self.key@ + "] (version "@
                + decimal(self.version as nat) + ")\n  "@ + self.note@
        } else {
            o + "Updated ["@ + self.key@ + "] (new version "@
                + decimal(self.version as nat) + ")\n  Changed: "@
                + joined(texts(self.changed@), ", "@) + "\n  "@ + self.note@
        }
    }

    fn human_display(&self) -> (r: String) {
        let mut out = String::new();
        if self.changed.len() == 0 {
            out.push_str("No change [");
            out.push_str(self.key.as_str());
            out.push_str("] (version ");
            push_decimal(&mut out, self.version as u64);
            out.push_str(")\n  ");
            out.push_str(self.note.as_str());
        } else {
            out.push_str("Updated [");
            out.push_str(self.key.as_str());
            out.push_str("] (new version ");
            push_decimal(&mut out, self.version as u64);
            out.push_str(")\n  Changed: ");
            out.push_str(join(self.changed.as_slice(), ", ").as_str());
            out.push_str("\n  ");
            out.push_str(self.note.as_str());
        }
        out
    }
}

impl HumanDisplay for AttachOutput {
    open spec fn shown(&self) -> Seq<char> {
        let o = Seq::<char>::empty();
        o + "Attached "@ + self.filename@ + " to ["@ + self.key@ + "] "@
            + self.parent_title@ + "\n  Attachment key: "@ + self.attachment_key@ + "\n  "@
            + self.note@
    }

    fn human_display(&self) -> (r: String) {
        let mut out = String::new();
        out.push_str("Attached ");
        out.push_str(self.filename.as_str());
        out.push_str(" to [");
        out.push_str(self.key.as_str());
        out.push_str("] ");
        out.push_str(self.parent_title.as_str());
        out.push_str("\n  Attachment key: ");
        out.push_str(self.attachment_key.as_str());
        out.push_str("\n  ");
        out.push_str(self.note.as_str());
        out
    }
}

impl HumanDisplay for RmOutput {
    open spec fn shown(&self) -> Seq<char> {
        let o = Seq::<char>::empty();
        o + "Trashed: "@ + joined(texts(self.trashed@), ", "@) + "\n  "@ + self.note@
    }

    fn human_display(&self) -> (r: String) {
        let mut out = String::new();
        out.push_str("Trashed: ");
        out.push_str(join(self.trashed.as_slice(), ", ").as_str());
        out.push_str("\n  ");
        out.push_str(self.note.as_str());
        out
    }
}

impl HumanDisplay for ConfigOutput {
    open spec fn shown(&self) -> Seq<char> {
        let o = Seq::<char>::empty();
        let o = o + "Config: "@ + self.path@ + "\n  API key: "@;
        let o = match self.api_key {
            Some(key) => {
                o + key@
            },
            None => {
                o + "(not set)"@
            },
        };
        let o = o + "\n"@;
        let o = match self.user_id {
            Some(id) => {
                o + "  User ID: "@ + decimal(id as nat) + "\n"@
            },
            None => o,
        };
        let o = if self.env_override {
            o
                + "  Note: ZOTERO_API_KEY env var is set and overrides the stored key.\n"@
        } else {
            o
        };
        match self.note {
            Some(note) => {
                o + "  "@ + note@ + "\n"@
            },
            None => o,
        }
    }

    fn human_display(&self) -> (r: String) {
        let mut out = String::new();
        out.push_str("Config: ");
        out.push_str(self.path.as_str());
        out.push_str("\n  API key: ");
        match &self.api_key {
            Some(key) => {
                out.push_str(key.as_str());
            },
            None => {
                out.push_str("(not set)");
            },
        }
        out.push_str("\n");
        match &self.user_id {
            Some(id) => {
                out.push_str("  User ID: ");
                push_decimal(&mut out, *id);
                out.push_str("\n");
            },
            None => {},
        }
        if self.env_override {
            out.push_str("  Note: ZOTERO_API_KEY env var is set and overrides the stored key.\n");
        }
        match &self.note {
            Some(note) => {
                out.push_str("  ");
                out.push_str(note.as_str());
                out.push_str("\n");
            },
            None => {},
        }
        out
    }
}

/// The items whose text could not be fully extracted.
pub open spec fn issue_rows(o: Seq<char>, rows: Seq<IndexIssueOutput>, n: int) -> Seq<char>
    decreases n,
{
    if n <= 0 {
        o
    } else {
        let o = issue_rows(o, rows, n - 1);
        let r = rows[n - 1];
        let o = o + "\n["@ + r.key@ + "] "@ + r.title@ + "\n  status: "@ + r.status@ + "\n"@;
        if r.detail@.len() > 0 {
            o + "  detail: "@ + r.detail@ + "\n"@
        } else {
            o
        }
    }
}

impl HumanDisplay for IndexIssuesOutput {
    open spec fn shown(&self) -> Seq<char> {
        let o = Seq::<char>::empty();
        if self.issues@.len() == 0 {
            o + "No extraction issues. Every indexed item has usable fulltext."@
        } else {
            let o = o + "Extraction issues: "@ + decimal(self.count as nat) + "\n"@;
            issue_rows(o, self.issues@, self.issues@.len() as int)
        }
    }

    fn human_display(&self) -> (r: String) {
        let mut out = String::new();
        if self.issues.len() == 0 {
            out.push_str("No extraction issues. Every indexed item has usable fulltext.");
        } else {
            out.push_str("Extraction issues: ");
            push_decimal(&mut out, self.count as u64);
            out.push_str("\n");
            let ghost head = out@;
            let mut i: usize = 0;
            while i < self.issues.len()
                invariant
                    i <= self.issues.len(),
                    out@ == issue_rows(head, self.issues@, i as int),
                decreases self.issues.len() - i,
            {
                let r = &self.issues[i];
                out.push_str("\n[");
                out.push_str(r.key.as_str());
                out.push_str("] ");
                out.push_str(r.title.as_str());
                out.push_str("\n  status: ");
                out.push_str(r.status.as_str());
                out.push_str("\n");
                if !is_empty(r.detail.as_str()) {
                    out.push_str("  detail: ");
                    out.push_str(r.detail.as_str());
                    out.push_str("\n");
                }
                i += 1;
            }
        }
        out
    }
}

} // verus!
