//! `zot index`: what has to be indexed, from which source, and what became of it.
use crate::api::models::ZoteroItem;
use crate::collections::counts::has_text;
use crate::commands::note_text::cut_to_bytes;
use crate::commands::note_text::no_attachment;
use crate::commands::note_text::note_outcome;
use crate::commands::note_text::note_text;
use crate::commands::note_text::nothing_attached;
use crate::commands::note_text::truncate;
use crate::index::pdf::ExtractOutcome;
use crate::index::pdf::ExtractStatus;
use crate::index::pdf::OutcomeView;
use crate::index::store::changed_keys;
use crate::index::store::compute_sync_diff;
use crate::index::store::gone_keys;
use crate::index::store::is_outdated;
use crate::index::store::keys_where;
use crate::index::store::needs_retry;
use crate::index::store::IndexStore;
use crate::index::store::ItemStatusRecord;
use crate::index::table::Table;
use crate::output::IndexIssueOutput;
use crate::output::IndexIssuesOutput;
use crate::output::IndexStatusOutput;
use crate::text::at_most;
use crate::text::chars_of;
use crate::text::concat2;
use crate::text::concat3;
use crate::text::concat4;
use crate::text::decimal;
use crate::text::is_empty;
use crate::text::opt_text;
use crate::text::push_decimal;
use crate::text::same_text;
use crate::text::text_le;
use crate::text::texts;
use vstd::prelude::*;

verus! {

/// Progress is made durable every this many items, so that an interrupted run leaves a consistent
/// index that the next run resumes.
pub const CHECKPOINT_EVERY: usize = 20;

/// What a run has to do.
#[derive(Debug)]
pub struct IndexPlan {
    /// New and changed items, then those that are attempted again.
    pub to_add: Vec<String>,
    /// How many of those are attempted again.
    pub retry_count: usize,
    pub to_delete: Vec<String>,
}

/// The candidates that are still there remotely and not queued yet, each once.
pub open spec fn queued_again(
    candidates: Seq<Seq<char>>,
    remote: Map<Seq<char>, u64>,
    already: Seq<Seq<char>>,
) -> Seq<Seq<char>>
    decreases candidates.len(),
{
    if candidates.len() == 0 {
        Seq::empty()
    } else {
        let head = queued_again(candidates.drop_last(), remote, already);
        let k = candidates.last();
        if remote.contains_key(k) && !already.contains(k) && !head.contains(k) {
            head.push(k)
        } else {
            head
        }
    }
}

/// The candidates for another attempt: what failed, was partial or looked suspicious; what has no
/// fulltext and no status; what has no metadata chunk; what was written off by an older logic.
pub open spec fn retry_candidates(
    store: IndexStore,
    untracked: Seq<Seq<char>>,
    unchunked: Seq<Seq<char>>,
) -> Seq<Seq<char>> {
    let entries = store.meta.item_status.entries@;
    keys_where(entries, |s: ItemStatusRecord| needs_retry(s.status)) + untracked + unchunked
        + keys_where(entries, |s: ItemStatusRecord| is_outdated(s))
}

fn queue_again(
    queued: &mut Vec<String>,
    candidates: &[String],
    remote: &Table<u64>,
    already: &[String],
    Ghost(done): Ghost<Seq<Seq<char>>>,
)
    requires
        remote.wf(),
        texts(old(queued)@) == queued_again(done, remote@, texts(already@)),
    ensures
        texts(final(queued)@) == queued_again(
            done + texts(candidates@),
            remote@,
            texts(already@),
        ),
{
    let ghost more = texts(candidates@);
    let mut i: usize = 0;
    assert(done + more.take(0) =~= done);
    while i < candidates.len()
        invariant
            i <= candidates.len(),
            more == texts(candidates@),
            remote.wf(),
            texts(queued@) == queued_again(done + more.take(i as int), remote@, texts(already@)),
        decreases candidates.len() - i,
    {
        let key = &candidates[i];
        assert((done + more.take(i as int + 1)).drop_last() =~= done + more.take(i as int));
        assert((done + more.take(i as int + 1)).last() == key@);
        if remote.contains_key(key.as_str()) && !has_text(already, key) && !has_text(queued, key) {
            let ghost before = texts(queued@);
            queued.push(key.clone());
            assert(texts(queued@) =~= before.push(key@));
        }
        i += 1;
    }
    assert(more.take(more.len() as int) =~= more);
}

/// Works out what a run has to do.
pub fn plan_index(
    store: &IndexStore,
    remote: &Table<u64>,
    untracked: &[String],
    unchunked: &[String],
) -> (r: IndexPlan)
    requires
        store.wf(),
        remote.wf(),
    ensures
        ({
            let changed = changed_keys(remote.entries@, store.meta.items@);
            let again = queued_again(
                retry_candidates(*store, texts(untracked@), texts(unchunked@)),
                remote@,
                changed,
            );
            &&& texts(r.to_add@) == changed + again
            &&& r.retry_count == again.len()
            &&& texts(r.to_delete@) == gone_keys(store.meta.items.entries@, remote@)
        }),
{
    let diff = compute_sync_diff(remote, &store.meta.items);
    let mut to_add = diff.to_add;
    let ghost changed = texts(to_add@);
    let mut again: Vec<String> = Vec::new();
    let failed = store.retry_keys();
    let stale = store.stale_no_attachment_keys();
    let ghost none = Seq::<Seq<char>>::empty();
    assert(texts(again@) =~= none);
    queue_again(&mut again, &failed, remote, &to_add, Ghost(none));
    let ghost a = none + texts(failed@);
    queue_again(&mut again, untracked, remote, &to_add, Ghost(a));
    let ghost b = a + texts(untracked@);
    queue_again(&mut again, unchunked, remote, &to_add, Ghost(b));
    let ghost c = b + texts(unchunked@);
    queue_again(&mut again, &stale, remote, &to_add, Ghost(c));
    assert(a =~= texts(failed@));
    let ghost queued = texts(again@);
    let retry_count: usize = again.len();
    assert(queued.len() == again@.len());
    to_add.append(&mut again);
    assert(texts(to_add@) =~= changed + queued);
    IndexPlan { to_add, retry_count, to_delete: diff.to_delete }
}

impl IndexPlan {
    /// The line that sums a plan up.
    pub fn summary(&self, total_remote: usize) -> (r: String)
        requires
            self.retry_count <= self.to_add@.len(),
        ensures
            ({
                let new = self.to_add@.len() - self.retry_count;
                r@ == "Library: "@ + decimal(total_remote as nat) + " items. To index: "@
                    + decimal(new as nat) + " new/updated, "@ + decimal(self.retry_count as nat)
                    + " retry (prev. failed), "@ + decimal(self.to_delete@.len()) + " deleted, "@
                    + decimal(
                    if new <= total_remote {
                        (total_remote - new) as nat
                    } else {
                        0
                    },
                ) + " unchanged."@
            }),
    {
        let new: usize = self.to_add.len() - self.retry_count;
        let unchanged: usize = if new <= total_remote {
            total_remote - new
        } else {
            0
        };
        let mut out = "Library: ".to_string();
        push_decimal(&mut out, total_remote as u64);
        out.push_str(" items. To index: ");
        push_decimal(&mut out, new as u64);
        out.push_str(" new/updated, ");
        push_decimal(&mut out, self.retry_count as u64);
        out.push_str(" retry (prev. failed), ");
        push_decimal(&mut out, self.to_delete.len() as u64);
        out.push_str(" deleted, ");
        push_decimal(&mut out, unchanged as u64);
        out.push_str(" unchanged.");
        out
    }
}

/// Items that are indexed directly: regular items, and top-level attachments and notes.
pub open spec fn indexable(item: ZoteroItem) -> bool {
    item.regular() || item.lone_attachment() || item.lone_note()
}

/// True for items that are indexed directly: regular items, plus top-level standalone attachments
/// and notes.
pub fn is_indexable(item: &ZoteroItem) -> (r: bool)
    ensures
        r == indexable(*item),
{
    item.is_regular_item() || item.is_standalone_attachment() || item.is_standalone_note()
}

/// The versions once those of the items that are skipped on purpose are recorded too, so that they
/// do not come up again in every run.
pub open spec fn with_skipped(
    m: Map<Seq<char>, u64>,
    items: Seq<ZoteroItem>,
    remote: Map<Seq<char>, u64>,
) -> Map<Seq<char>, u64>
    decreases items.len(),
{
    if items.len() == 0 {
        m
    } else {
        let head = with_skipped(m, items.drop_last(), remote);
        let item = items.last();
        if !indexable(item) && remote.contains_key(item.key@) {
            head.insert(item.key@, remote[item.key@])
        } else {
            head
        }
    }
}

/// Records the versions of the items that are skipped on purpose.
pub fn record_skipped(indexed: &mut Table<u64>, items: &[ZoteroItem], remote: &Table<u64>)
    requires
        old(indexed).wf(),
        remote.wf(),
    ensures
        final(indexed).wf(),
        final(indexed)@ == with_skipped(old(indexed)@, items@, remote@),
{
    let mut i: usize = 0;
    assert(items@.take(0) =~= Seq::empty());
    while i < items.len()
        invariant
            i <= items.len(),
            indexed.wf(),
            remote.wf(),
            indexed@ == with_skipped(old(indexed)@, items@.take(i as int), remote@),
        decreases items.len() - i,
    {
        assert(items@.take(i as int + 1).drop_last() =~= items@.take(i as int));
        if !is_indexable(&items[i]) {
            if let Some(v) = remote.get(items[i].key.as_str()) {
                indexed.insert(items[i].key.clone(), *v);
            }
        }
        i += 1;
    }
    assert(items@.take(items@.len() as int) =~= items@);
}

/// What to do with an item whose text was extracted.
#[derive(Debug)]
pub enum ItemStep {
    /// The text is what it was: only record the status.
    Refresh(ItemStatusRecord),
    /// There is no text this time, but there was: keep what is indexed and record the status.
    Keep(ItemStatusRecord),
    /// Cut, embed and store the text, then record the status.
    Reindex(ItemStatusRecord),
}

/// A status record for an outcome. It carries no status version of its own: that is stamped where
/// the record is stored.
pub open spec fn is_record(r: ItemStatusRecord, o: OutcomeView, version: u64, hash: u64) -> bool {
    &&& r.status == o.status
    &&& r.detail@ == o.detail
    &&& r.version == version
    &&& r.text_hash == hash
    &&& r.status_version == 0
}

/// Whether a run yielded the text that is already indexed.
pub open spec fn is_unchanged(previous: Option<ItemStatusRecord>, known: bool, hash: u64) -> bool {
    previous is Some && previous.unwrap().text_hash == hash && known
}

fn record_of(outcome: &ExtractOutcome, version: u64, hash: u64) -> (r: ItemStatusRecord)
    ensures
        is_record(r, outcome@, version, hash),
{
    ItemStatusRecord {
        status: outcome.status,
        detail: outcome.detail.clone(),
        version,
        text_hash: hash,
        status_version: 0,
    }
}

/// Decides what to do with an item, given what its extraction yielded, what was recorded of it,
/// whether the index knew its version, and whether it has indexed text.
///
/// An attempt that yields no text never wipes text that is indexed: the new status is recorded, but
/// the hash of the indexed text is kept, so that a later success is still seen as a change.
pub fn item_step(
    outcome: &ExtractOutcome,
    version: u64,
    new_hash: u64,
    previous: Option<&ItemStatusRecord>,
    known: bool,
    has_fulltext: bool,
) -> (r: ItemStep)
    ensures
        ({
            let before = match previous {
                Some(p) => Some(*p),
                None => None,
            };
            match r {
                ItemStep::Refresh(rec) => is_unchanged(before, known, new_hash) && is_record(
                    rec,
                    outcome@,
                    version,
                    new_hash,
                ),
                ItemStep::Keep(rec) => !is_unchanged(before, known, new_hash)
                    && outcome@.text.len() == 0 && has_fulltext && is_record(
                    rec,
                    outcome@,
                    version,
                    match before {
                        Some(p) => p.text_hash,
                        None => new_hash,
                    },
                ),
                ItemStep::Reindex(rec) => !is_unchanged(before, known, new_hash) && !(
                outcome@.text.len() == 0 && has_fulltext) && is_record(
                    rec,
                    outcome@,
                    version,
                    new_hash,
                ),
            }
        }),
{
    let mut old_hash: u64 = new_hash;
    if let Some(p) = previous {
        if p.text_hash == new_hash && known {
            return ItemStep::Refresh(record_of(outcome, version, new_hash));
        }
        old_hash = p.text_hash;
    }
    if is_empty(outcome.text.as_str()) && has_fulltext {
        return ItemStep::Keep(record_of(outcome, version, old_hash));
    }
    ItemStep::Reindex(record_of(outcome, version, new_hash))
}

/// The warning about an extraction; none where there is nothing to report.
pub open spec fn warning_text(key: Seq<char>, o: OutcomeView) -> Option<Seq<char>> {
    if o.detail.len() == 0 {
        None
    } else {
        match o.status {
            ExtractStatus::Partial | ExtractStatus::Suspicious => Some(
                "Warning: "@ + key + " ("@ + o.status.name() + "): "@ + o.detail,
            ),
            ExtractStatus::Failed => Some("Warning: "@ + key + ": "@ + o.detail),
            _ => None,
        }
    }
}

/// The warning about an extraction.
pub fn outcome_warning(key: &str, outcome: &ExtractOutcome) -> (r: Option<String>)
    ensures
        opt_text(r) == warning_text(key@, outcome@),
{
    if is_empty(outcome.detail.as_str()) {
        return None;
    }
    match outcome.status {
        ExtractStatus::Partial | ExtractStatus::Suspicious => {
            let mut out = concat4("Warning: ", key, " (", outcome.status.as_str());
            out.push_str("): ");
            out.push_str(outcome.detail.as_str());
            Some(out)
        },
        ExtractStatus::Failed => Some(
            concat4("Warning: ", key, ": ", outcome.detail.as_str()),
        ),
        _ => None,
    }
}

/// Whether progress is made durable after the item at `i`.
pub fn checkpoint_due(i: usize, total: usize) -> (r: bool)
    requires
        i < total,
    ensures
        r == ((i + 1) % CHECKPOINT_EVERY as int == 0 && i + 1 < total),
        r == ((i + 1) % 20 == 0 && i + 1 != total),
{
    let done: usize = i + 1;
    done % CHECKPOINT_EVERY == 0 && done < total
}

/// Where the fulltext of an item comes from.
#[derive(Debug)]
pub enum FulltextSource {
    /// The item is a PDF file.
    OwnPdf,
    /// The item is a saved page.
    OwnHtml,
    /// One of its child attachments.
    Children,
    /// It is known without reading a file.
    Known(ExtractOutcome),
}

/// Chooses where the fulltext of an item comes from: its own file, its note, or its children. An
/// attachment of a type that cannot be read gets a clear status, so that nothing remains unknown.
pub fn fulltext_source(item: &ZoteroItem) -> (r: FulltextSource)
    ensures
        ({
            let lone = item.lone_attachment();
            let ct = item.data.content_type@;
            match r {
                FulltextSource::OwnPdf => lone && ct == "application/pdf"@,
                FulltextSource::OwnHtml => lone && ct == "text/html"@ && ct
                    != "application/pdf"@,
                FulltextSource::Known(o) => !(lone && (ct == "application/pdf"@ || ct
                    == "text/html"@)) && if item.lone_note() {
                    o@ == if note_text(item.data.note@).len() == 0 {
                        nothing_attached("empty note"@)
                    } else {
                        OutcomeView {
                            status: ExtractStatus::Complete,
                            text: note_text(item.data.note@),
                            detail: "note content"@,
                        }
                    }
                } else {
                    item.data.item_type@ == "attachment"@ && o@ == nothing_attached(
                        "standalone attachment ("@ + (if ct.len() == 0 {
                            "unknown"@
                        } else {
                            ct
                        }) + "): not extractable"@,
                    )
                },
                FulltextSource::Children => item.data.item_type@ != "attachment"@
                    && !item.lone_note(),
            }
        }),
{
    if item.is_standalone_pdf_attachment() {
        return FulltextSource::OwnPdf;
    }
    if item.is_standalone_html_attachment() {
        return FulltextSource::OwnHtml;
    }
    if item.is_standalone_note() {
        return FulltextSource::Known(note_outcome(item.data.note.as_str()));
    }
    if same_text(item.data.item_type.as_str(), "attachment") {
        let ct = if is_empty(item.data.content_type.as_str()) {
            "unknown"
        } else {
            item.data.content_type.as_str()
        };
        let detail = concat3("standalone attachment (", ct, "): not extractable");
        return FulltextSource::Known(no_attachment(detail.as_str()));
    }
    FulltextSource::Children
}

/// What is known of an attachment's file.
#[derive(Debug, Clone, Copy, PartialEq, Eq, Structural)]
pub enum FileState {
    /// No path could be had for it.
    Unresolved,
    /// It is not on disk.
    Missing,
    Present,
}

/// Which child attachment to extract.
#[derive(Debug, Clone, Copy, PartialEq, Eq, Structural)]
pub enum ChildChoice {
    Pdf(usize),
    Html(usize),
    /// There is a saved page, but not on disk.
    HtmlMissing,
    Nothing,
}

/// The first PDF child whose file is there, among those from `i` on.
pub open spec fn first_pdf(children: Seq<ZoteroItem>, files: Seq<FileState>, i: int) -> Option<int>
    decreases children.len() - i,
{
    if i < 0 || i >= children.len() || i >= files.len() {
        None
    } else if children[i].data.content_type@ == "application/pdf"@ && files[i]
        == FileState::Present {
        Some(i)
    } else {
        first_pdf(children, files, i + 1)
    }
}

/// The first saved page whose path is known, among those from `i` on.
pub open spec fn first_html(children: Seq<ZoteroItem>, files: Seq<FileState>, i: int) -> Option<int>
    decreases children.len() - i,
{
    if i < 0 || i >= children.len() || i >= files.len() {
        None
    } else if children[i].data.content_type@ == "text/html"@ && files[i]
        != FileState::Unresolved {
        Some(i)
    } else {
        first_html(children, files, i + 1)
    }
}

/// Chooses the child to extract. A PDF is always preferred when its file is there; only then comes
/// a saved page.
pub fn pick_child(children: &[ZoteroItem], files: &[FileState]) -> (r: ChildChoice)
    ensures
        match first_pdf(children@, files@, 0) {
            Some(i) => r == ChildChoice::Pdf(i as usize),
            None => match first_html(children@, files@, 0) {
                Some(i) => r == if files@[i] == FileState::Present {
                    ChildChoice::Html(i as usize)
                } else {
                    ChildChoice::HtmlMissing
                },
                None => r == ChildChoice::Nothing,
            },
        },
{
    let mut i: usize = 0;
    while i < children.len() && i < files.len()
        invariant
            i <= children.len(),
            i <= files.len(),
            first_pdf(children@, files@, 0) == first_pdf(children@, files@, i as int),
        decreases children.len() - i,
    {
        if files[i] == FileState::Present && same_text(
            children[i].data.content_type.as_str(),
            "application/pdf",
        ) {
            return ChildChoice::Pdf(i);
        }
        i += 1;
    }
    let mut j: usize = 0;
    while j < children.len() && j < files.len()
        invariant
            j <= children.len(),
            j <= files.len(),
            first_pdf(children@, files@, 0) is None,
            first_html(children@, files@, 0) == first_html(children@, files@, j as int),
        decreases children.len() - j,
    {
        if files[j] != FileState::Unresolved && same_text(
            children[j].data.content_type.as_str(),
            "text/html",
        ) {
            return if files[j] == FileState::Present {
                ChildChoice::Html(j)
            } else {
                ChildChoice::HtmlMissing
            };
        }
        j += 1;
    }
    ChildChoice::Nothing
}

/// The outcome where no child can be extracted; none where one can.
pub fn childless_outcome(choice: ChildChoice) -> (r: Option<ExtractOutcome>)
    ensures
        match choice {
            ChildChoice::HtmlMissing => r is Some && r.unwrap()@ == nothing_attached(
                "html snapshot: file missing on disk"@,
            ),
            ChildChoice::Nothing => r is Some && r.unwrap()@ == nothing_attached(
                "no PDF or HTML attachment found"@,
            ),
            _ => r is None,
        },
{
    match choice {
        ChildChoice::HtmlMissing => Some(no_attachment("html snapshot: file missing on disk")),
        ChildChoice::Nothing => Some(no_attachment("no PDF or HTML attachment found")),
        _ => None,
    }
}

/// The outcome for an item's own file that cannot be read, given what it is called and whether its
/// path could be asked for; none where the file is there.
pub fn own_file_outcome(source: &str, asked: bool, file: FileState) -> (r: Option<ExtractOutcome>)
    ensures
        match r {
            Some(o) => if !asked {
                o@ == nothing_attached(source@ + ": could not resolve file path"@)
            } else {
                match file {
                    FileState::Missing => o@ == nothing_attached(
                        source@ + ": file missing on disk"@,
                    ),
                    FileState::Unresolved => o@ == nothing_attached(
                        source@ + ": no file resolved"@,
                    ),
                    FileState::Present => false,
                }
            },
            None => asked && file == FileState::Present,
        },
{
    if !asked {
        return Some(no_attachment(concat2(source, ": could not resolve file path").as_str()));
    }
    match file {
        FileState::Missing => Some(
            no_attachment(concat2(source, ": file missing on disk").as_str()),
        ),
        FileState::Unresolved => Some(
            no_attachment(concat2(source, ": no file resolved").as_str()),
        ),
        FileState::Present => None,
    }
}

/// An outcome with a note on where the text came from, where it has no other detail.
pub fn tag_source(outcome: ExtractOutcome, source: &str) -> (r: ExtractOutcome)
    ensures
        r@ == if source@.len() > 0 && outcome@.status == ExtractStatus::Complete
            && outcome@.detail.len() == 0 {
            OutcomeView { detail: source@ + ": extracted"@, ..outcome@ }
        } else {
            outcome@
        },
{
    if !is_empty(source) && outcome.status == ExtractStatus::Complete && is_empty(
        outcome.detail.as_str(),
    ) {
        ExtractOutcome {
            status: outcome.status,
            text: outcome.text,
            detail: concat2(source, ": extracted"),
        }
    } else {
        outcome
    }
}

/// How many records have a status.
pub open spec fn count_status(
    entries: Seq<(String, ItemStatusRecord)>,
    status: ExtractStatus,
) -> nat
    decreases entries.len(),
{
    if entries.len() == 0 {
        0
    } else {
        count_status(entries.drop_last(), status) + if entries.last().1.status == status {
            1nat
        } else {
            0nat
        }
    }
}

fn status_count(store: &IndexStore, status: ExtractStatus) -> (r: usize)
    ensures
        r == count_status(store.meta.item_status.entries@, status),
{
    let ghost all = store.meta.item_status.entries@;
    let mut n: usize = 0;
    let mut i: usize = 0;
    while i < store.meta.item_status.entries.len()
        invariant
            i <= store.meta.item_status.entries.len(),
            all == store.meta.item_status.entries@,
            n <= i,
            n == count_status(all.take(i as int), status),
        decreases store.meta.item_status.entries.len() - i,
    {
        assert(all.take(i as int + 1).drop_last() =~= all.take(i as int));
        if store.meta.item_status.entries[i].1.status == status {
            n += 1;
        }
        i += 1;
    }
    assert(all.take(all.len() as int) =~= all);
    n
}

/// A label with how many items it stands for.
pub type LabelCount = (Seq<char>, int);

/// The labels of a list.
pub open spec fn label_counts(v: Seq<(String, usize)>) -> Seq<LabelCount> {
    v.map_values(|p: (String, usize)| (p.0@, p.1 as int))
}

/// The labels, and one more where it stands for anything.
pub open spec fn with_label(s: Seq<LabelCount>, label: Seq<char>, n: int) -> Seq<LabelCount> {
    if n > 0 {
        s.push((label, n))
    } else {
        s
    }
}

/// How many items have each status, in a fixed order; items without a record are unknown.
pub open spec fn breakdown(store: IndexStore) -> Seq<LabelCount> {
    let e = store.meta.item_status.entries@;
    let s = Seq::<LabelCount>::empty();
    let s = with_label(s, "ok"@, count_status(e, ExtractStatus::Complete) as int);
    let s = with_label(s, "partial"@, count_status(e, ExtractStatus::Partial) as int);
    let s = with_label(s, "suspicious"@, count_status(e, ExtractStatus::Suspicious) as int);
    let s = with_label(s, "failed"@, count_status(e, ExtractStatus::Failed) as int);
    let s = with_label(s, "no-attachment"@, count_status(e, ExtractStatus::NoAttachment) as int);
    with_label(s, "unknown"@, store.meta.item_count - e.len())
}

fn add_label(out: &mut Vec<(String, usize)>, label: &str, n: usize)
    ensures
        label_counts(final(out)@) == with_label(label_counts(old(out)@), label@, n as int),
{
    if n > 0 {
        let ghost before = label_counts(out@);
        out.push((label.to_string(), n));
        assert(label_counts(out@) =~= before.push((label@, n as int)));
    }
}

/// Breaks the items down by recorded extraction status.
pub fn status_breakdown(store: &IndexStore) -> (r: Vec<(String, usize)>)
    ensures
        label_counts(r@) == breakdown(*store),
{
    let mut out: Vec<(String, usize)> = Vec::new();
    assert(label_counts(out@) =~= Seq::empty());
    add_label(&mut out, "ok", status_count(store, ExtractStatus::Complete));
    add_label(&mut out, "partial", status_count(store, ExtractStatus::Partial));
    add_label(&mut out, "suspicious", status_count(store, ExtractStatus::Suspicious));
    add_label(&mut out, "failed", status_count(store, ExtractStatus::Failed));
    add_label(&mut out, "no-attachment", status_count(store, ExtractStatus::NoAttachment));
    let known: usize = store.meta.item_status.entries.len();
    let unknown: usize = if store.meta.item_count > known {
        store.meta.item_count - known
    } else {
        0
    };
    add_label(&mut out, "unknown", unknown);
    out
}

/// What is answered about the state of the index.
pub fn status_output(store: &IndexStore, items_without_fulltext: usize, data_dir: &str) -> (r:
    IndexStatusOutput)
    ensures
        r.item_count == store.meta.item_count,
        r.chunk_count == store.meta.chunk_count,
        r.vector_count == store.vectors@.len(),
        r.items_without_fulltext == items_without_fulltext,
        label_counts(r.status_breakdown@) == breakdown(*store),
        r.model_name@ == store.meta.model_name@,
        r.model_dim == store.meta.model_dim,
        r.last_sync@ == store.meta.last_sync@,
        r.data_dir@ == data_dir@,
{
    IndexStatusOutput {
        item_count: store.meta.item_count,
        chunk_count: store.meta.chunk_count,
        vector_count: store.vector_count(),
        items_without_fulltext,
        status_breakdown: status_breakdown(store),
        model_name: store.meta.model_name.clone(),
        model_dim: store.meta.model_dim,
        last_sync: store.meta.last_sync.clone(),
        data_dir: data_dir.to_string(),
    }
}

/// An issue as the texts it holds.
pub struct IssueView {
    pub key: Seq<char>,
    pub title: Seq<char>,
    pub status: ExtractStatus,
    pub detail: Seq<char>,
}

/// The worst status comes first.
pub open spec fn rank(status: ExtractStatus) -> int {
    match status {
        ExtractStatus::Failed => 0,
        ExtractStatus::Partial => 1,
        ExtractStatus::Suspicious => 2,
        ExtractStatus::NoAttachment => 3,
        ExtractStatus::Complete => 4,
    }
}

/// The order of issues: by rank, then by key.
pub open spec fn issue_le(a: IssueView, b: IssueView) -> bool {
    if rank(a.status) == rank(b.status) {
        text_le(a.key, b.key)
    } else {
        rank(a.status) < rank(b.status)
    }
}

/// Sorted issues and one more, put after those it does not precede.
pub open spec fn with_issue(s: Seq<IssueView>, x: IssueView) -> Seq<IssueView>
    decreases s.len(),
{
    if s.len() == 0 || issue_le(s.last(), x) {
        s.push(x)
    } else {
        with_issue(s.drop_last(), x).push(s.last())
    }
}

/// The items with a status other than ok, sorted.
pub open spec fn issues_of(
    entries: Seq<(String, ItemStatusRecord)>,
    titles: Map<Seq<char>, String>,
) -> Seq<IssueView>
    decreases entries.len(),
{
    if entries.len() == 0 {
        Seq::empty()
    } else {
        let head = issues_of(entries.drop_last(), titles);
        let (key, record) = entries.last();
        if record.status == ExtractStatus::Complete {
            head
        } else {
            with_issue(
                head,
                IssueView {
                    key: key@,
                    title: cut_to_bytes(
                        if titles.contains_key(key@) {
                            titles[key@]@
                        } else {
                            Seq::empty()
                        },
                        80,
                    ),
                    status: record.status,
                    detail: record.detail@,
                },
            )
        }
    }
}

/// An issue while it is sorted.
struct Issue {
    key: String,
    title: String,
    status: ExtractStatus,
    detail: String,
}

impl View for Issue {
    type V = IssueView;

    closed spec fn view(&self) -> IssueView {
        IssueView {
            key: self.key@,
            title: self.title@,
            status: self.status,
            detail: self.detail@,
        }
    }
}

spec fn issue_views(v: Seq<Issue>) -> Seq<IssueView> {
    v.map_values(|i: Issue| i@)
}

fn rank_of(status: ExtractStatus) -> (r: u8)
    ensures
        r == rank(status),
{
    match status {
        ExtractStatus::Failed => 0,
        ExtractStatus::Partial => 1,
        ExtractStatus::Suspicious => 2,
        ExtractStatus::NoAttachment => 3,
        ExtractStatus::Complete => 4,
    }
}

fn insert_issue(list: &mut Vec<Issue>, x: Issue)
    ensures
        issue_views(final(list)@) == with_issue(issue_views(old(list)@), x@),
    decreases old(list).len(),
{
    let ghost before = issue_views(list@);
    let ghost view = x@;
    if list.len() == 0 {
        list.push(x);
        assert(issue_views(list@) =~= before.push(view));
        return;
    }
    let last = list.pop().unwrap();
    let ghost last_view = last@;
    assert(issue_views(list@) =~= before.drop_last());
    assert(before.last() == last_view);
    let a: u8 = rank_of(last.status);
    let b: u8 = rank_of(x.status);
    let first = if a == b {
        at_most(&chars_of(last.key.as_str()), &chars_of(x.key.as_str()))
    } else {
        a < b
    };
    if first {
        list.push(last);
        list.push(x);
        assert(issue_views(list@) =~= before.push(view));
    } else {
        insert_issue(list, x);
        let ghost head = issue_views(list@);
        list.push(last);
        assert(issue_views(list@) =~= head.push(last_view));
    }
}

/// An issue as it is listed.
pub open spec fn is_issue_row(row: IndexIssueOutput, i: IssueView) -> bool {
    row.key@ == i.key && row.title@ == i.title && row.status@ == i.status.name() && row.detail@
        == i.detail
}

/// Lists every item whose text could not be fully extracted, the worst first, given the titles that
/// the index has. Items without a recorded status are not listed: their status is unknown, not
/// known to be bad.
pub fn issues_output(store: &IndexStore, titles: &Table<String>) -> (r: IndexIssuesOutput)
    requires
        titles.wf(),
    ensures
        ({
            let issues = issues_of(store.meta.item_status.entries@, titles@);
            &&& r.count == issues.len()
            &&& r.issues@.len() == issues.len()
            &&& forall|i: int|
                0 <= i < issues.len() ==> is_issue_row(#[trigger] r.issues@[i], issues[i])
        }),
{
    let ghost all = store.meta.item_status.entries@;
    let mut list: Vec<Issue> = Vec::new();
    let mut i: usize = 0;
    assert(issue_views(list@) =~= Seq::empty());
    while i < store.meta.item_status.entries.len()
        invariant
            i <= store.meta.item_status.entries.len(),
            all == store.meta.item_status.entries@,
            titles.wf(),
            issue_views(list@) == issues_of(all.take(i as int), titles@),
        decreases store.meta.item_status.entries.len() - i,
    {
        assert(all.take(i as int + 1).drop_last() =~= all.take(i as int));
        let entry = &store.meta.item_status.entries[i];
        if entry.1.status != ExtractStatus::Complete {
            let title = match titles.get(entry.0.as_str()) {
                Some(t) => truncate(t.as_str(), 80),
                None => truncate("", 80),
            };
            proof {
                reveal_strlit("");
                assert(""@ =~= Seq::empty());
            }
            insert_issue(
                &mut list,
                Issue {
                    key: entry.0.clone(),
                    title,
                    status: entry.1.status,
                    detail: entry.1.detail.clone(),
                },
            );
        }
        i += 1;
    }
    assert(all.take(all.len() as int) =~= all);
    let ghost issues = issue_views(list@);
    let mut rows: Vec<IndexIssueOutput> = Vec::new();
    let mut j: usize = 0;
    while j < list.len()
        invariant
            j <= list.len(),
            issues == issue_views(list@),
            rows@.len() == j,
            forall|k: int| 0 <= k < j ==> is_issue_row(#[trigger] rows@[k], issues[k]),
        decreases list.len() - j,
    {
        let x = &list[j];
        assert(issues[j as int] == x@);
        rows.push(
            IndexIssueOutput {
                key: x.key.clone(),
                title: x.title.clone(),
                status: x.status.as_str().to_string(),
                detail: x.detail.clone(),
            },
        );
        j += 1;
    }
    IndexIssuesOutput { count: rows.len(), issues: rows }
}

/// An item is attempted again exactly when it is a candidate that is still there remotely and not
/// queued as changed already; and however many reasons there are for it, it is queued once.
pub proof fn law_queued_once(
    candidates: Seq<Seq<char>>,
    remote: Map<Seq<char>, u64>,
    already: Seq<Seq<char>>,
)
    ensures
        queued_again(candidates, remote, already).no_duplicates(),
        forall|k: Seq<char>| #[trigger]
            queued_again(candidates, remote, already).contains(k) <==> candidates.contains(k)
                && remote.contains_key(k) && !already.contains(k),
    decreases candidates.len(),
{
    if candidates.len() > 0 {
        let t = candidates.drop_last();
        let head = queued_again(t, remote, already);
        let all = queued_again(candidates, remote, already);
        let last = candidates.last();
        law_queued_once(t, remote, already);
        assert forall|k: Seq<char>| #[trigger] all.contains(k) <==> candidates.contains(k)
            && remote.contains_key(k) && !already.contains(k) by {
            assert(candidates =~= t.push(last));
            assert(candidates.contains(k) <==> t.contains(k) || k == last) by {
                if t.contains(k) {
                    let i = choose|i: int| 0 <= i < t.len() && t[i] == k;
                    assert(candidates[i] == k);
                }
                if k == last {
                    assert(candidates[candidates.len() - 1] == k);
                }
                if candidates.contains(k) && k != last {
                    let i = choose|i: int| 0 <= i < candidates.len() && candidates[i] == k;
                    assert(t[i] == k);
                }
            }
            assert(all.contains(k) <==> head.contains(k) || (all.len() > head.len() && k == last)) by {
                if head.contains(k) {
                    let i = choose|i: int| 0 <= i < head.len() && head[i] == k;
                    assert(all[i] == k);
                }
                if all.len() > head.len() && k == last {
                    assert(all[all.len() - 1] == k);
                }
                if all.contains(k) && !head.contains(k) {
                    let i = choose|i: int| 0 <= i < all.len() && all[i] == k;
                    if i < head.len() {
                        assert(head[i] == k);
                    }
                }
            }
            assert(head.contains(k) <==> t.contains(k) && remote.contains_key(k)
                && !already.contains(k));
        }
    }
}

proof fn lemma_keys_where(
    entries: Seq<(String, ItemStatusRecord)>,
    keep: spec_fn(ItemStatusRecord) -> bool,
    i: int,
)
    requires
        0 <= i < entries.len(),
        keep(entries[i].1),
    ensures
        keys_where(entries, keep).contains(entries[i].0@),
    decreases entries.len(),
{
    let all = keys_where(entries, keep);
    if i == entries.len() - 1 {
        assert(all[all.len() - 1] == entries[i].0@);
    } else {
        lemma_keys_where(entries.drop_last(), keep, i);
        let head = keys_where(entries.drop_last(), keep);
        let k = choose|k: int| 0 <= k < head.len() && head[k] == entries[i].0@;
        assert(all[k] == entries[i].0@);
    }
}

/// An item whose extraction failed, was partial or looked suspicious is attempted again in the next
/// run, as long as it is in the library, whether or not it changed there.
pub proof fn law_problem_items_are_retried(
    store: IndexStore,
    remote: Seq<(String, u64)>,
    versions: Map<Seq<char>, u64>,
    untracked: Seq<Seq<char>>,
    unchunked: Seq<Seq<char>>,
    i: int,
)
    requires
        0 <= i < store.meta.item_status.entries@.len(),
        needs_retry(store.meta.item_status.entries@[i].1.status),
        versions.contains_key(store.meta.item_status.entries@[i].0@),
    ensures
        ({
            let changed = changed_keys(remote, store.meta.items@);
            let again = queued_again(
                retry_candidates(store, untracked, unchunked),
                versions,
                changed,
            );
            (changed + again).contains(store.meta.item_status.entries@[i].0@)
        }),
{
    let entries = store.meta.item_status.entries@;
    let key = entries[i].0@;
    let changed = changed_keys(remote, store.meta.items@);
    let candidates = retry_candidates(store, untracked, unchunked);
    let again = queued_again(candidates, versions, changed);
    let keep = |s: ItemStatusRecord| needs_retry(s.status);
    lemma_keys_where(entries, keep, i);
    let bad = keys_where(entries, keep);
    let k = choose|k: int| 0 <= k < bad.len() && bad[k] == key;
    assert(candidates[k] == key);
    law_queued_once(candidates, versions, changed);
    if changed.contains(key) {
        let m = choose|m: int| 0 <= m < changed.len() && changed[m] == key;
        assert((changed + again)[m] == key);
    } else {
        assert(again.contains(key));
        let m = choose|m: int| 0 <= m < again.len() && again[m] == key;
        assert((changed + again)[changed.len() + m] == key);
    }
}

} // verus!
