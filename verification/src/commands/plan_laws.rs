//! What a run of the indexer works on.
use crate::api::models::ZoteroItem;
use crate::commands::index_cmd::breakdown;
use crate::commands::index_cmd::count_status;
use crate::commands::index_cmd::first_html;
use crate::commands::index_cmd::first_pdf;
use crate::commands::index_cmd::indexable;
use crate::commands::index_cmd::is_unchanged;
use crate::commands::index_cmd::issue_le;
use crate::commands::index_cmd::issues_of;
use crate::commands::index_cmd::law_queued_once;
use crate::commands::index_cmd::queued_again;
use crate::commands::index_cmd::rank;
use crate::commands::index_cmd::retry_candidates;
use crate::commands::index_cmd::with_issue;
use crate::commands::index_cmd::with_label;
use crate::commands::index_cmd::with_skipped;
use crate::commands::index_cmd::FileState;
use crate::commands::index_cmd::IssueView;
use crate::commands::index_cmd::LabelCount;
use crate::commands::note_text::cut_to_bytes;
use crate::index::pdf::ExtractStatus;
use crate::index::store::changed_keys;
use crate::index::store::is_outdated;
use crate::index::store::keys_where;
use crate::index::store::needs_retry;
use crate::index::store::IndexStore;
use crate::index::store::ItemStatusRecord;
use crate::text::lemma_text_le_total;
use crate::text::lemma_text_le_trans;
use vstd::prelude::*;

verus! {

/// What failed, was partial or looked suspicious is attempted again, and nothing else on that
/// account. What was found to have no attachment is, where an older logic found so.
pub proof fn law_statuses_that_are_retried(status: ExtractStatus, r: ItemStatusRecord)
    ensures
        needs_retry(status) <==> status == ExtractStatus::Failed || status == ExtractStatus::Partial
            || status == ExtractStatus::Suspicious,
        is_outdated(r) ==> r.status == ExtractStatus::NoAttachment,
        r.status == ExtractStatus::NoAttachment && r.status_version == 0 ==> is_outdated(r),
{
}

/// Items without a status or without chunks are queued, as long as the library still has them.
pub proof fn law_unknown_items_are_retried(
    store: IndexStore,
    remote: Seq<(String, u64)>,
    versions: Map<Seq<char>, u64>,
    untracked: Seq<Seq<char>>,
    unchunked: Seq<Seq<char>>,
    key: Seq<char>,
)
    requires
        untracked.contains(key) || unchunked.contains(key),
        versions.contains_key(key),
    ensures
        ({
            let changed = changed_keys(remote, store.meta.items@);
            let again = queued_again(
                retry_candidates(store, untracked, unchunked),
                versions,
                changed,
            );
            (changed + again).contains(key)
        }),
{
    let entries = store.meta.item_status.entries@;
    let a = keys_where(entries, |s: ItemStatusRecord| needs_retry(s.status));
    let d = keys_where(entries, |s: ItemStatusRecord| is_outdated(s));
    let all = retry_candidates(store, untracked, unchunked);
    assert(all == a + untracked + unchunked + d);
    if untracked.contains(key) {
        let i = choose|i: int| 0 <= i < untracked.len() && untracked[i] == key;
        assert(all[a.len() + i] == key);
    } else {
        let i = choose|i: int| 0 <= i < unchunked.len() && unchunked[i] == key;
        assert(all[a.len() + untracked.len() + i] == key);
    }
    let changed = changed_keys(remote, store.meta.items@);
    let again = queued_again(all, versions, changed);
    law_queued_once(all, versions, changed);
    assert(again.contains(key) || changed.contains(key));
    if changed.contains(key) {
        let i = choose|i: int| 0 <= i < changed.len() && changed[i] == key;
        assert((changed + again)[i] == key);
    } else {
        let i = choose|i: int| 0 <= i < again.len() && again[i] == key;
        assert((changed + again)[changed.len() + i] == key);
    }
}

/// What is indexed: every work, and every attachment and note without a parent.
pub proof fn law_what_is_indexed(item: ZoteroItem)
    ensures
        ({
            let kind = item.data.item_type@;
            let loose = item.data.parent_item@.len() == 0;
            indexable(item) <==> kind != "annotation"@ && (loose || (kind != "attachment"@ && kind
                != "note"@))
        }),
{
    reveal_strlit("attachment");
    reveal_strlit("note");
    reveal_strlit("annotation");
    assert("attachment"@[1] != "annotation"@[1]);
    assert("note"@[0] != "annotation"@[0]);
}

/// The version of an item that is skipped on purpose is recorded, as the library reports it; nothing
/// else changes.
pub proof fn law_skipped_items_are_recorded(
    m: Map<Seq<char>, u64>,
    items: Seq<ZoteroItem>,
    remote: Map<Seq<char>, u64>,
    key: Seq<char>,
)
    ensures
        ({
            let skipped = remote.contains_key(key) && exists|i: int|
                0 <= i < items.len() && (#[trigger] items[i]).key@ == key && !indexable(items[i]);
            let after = with_skipped(m, items, remote);
            &&& skipped ==> after.contains_key(key) && after[key] == remote[key]
            &&& !skipped ==> after.contains_key(key) == m.contains_key(key) && (m.contains_key(key)
                ==> after[key] == m[key])
        }),
    decreases items.len(),
{
    if items.len() > 0 {
        let t = items.drop_last();
        law_skipped_items_are_recorded(m, t, remote, key);
        assert(items[items.len() - 1] == items.last());
        if exists|i: int| 0 <= i < items.len() && (#[trigger] items[i]).key@ == key && !indexable(
            items[i],
        ) {
            let i = choose|i: int|
                0 <= i < items.len() && (#[trigger] items[i]).key@ == key && !indexable(items[i]);
            if i < t.len() {
                assert(t[i].key@ == key && !indexable(t[i]));
            }
        }
        if exists|i: int| 0 <= i < t.len() && (#[trigger] t[i]).key@ == key && !indexable(t[i]) {
            let i = choose|i: int|
                0 <= i < t.len() && (#[trigger] t[i]).key@ == key && !indexable(t[i]);
            assert(items[i].key@ == key && !indexable(items[i]));
        }
    }
}

/// A PDF child is chosen wherever one has its file, and it is the first such child.
pub proof fn law_first_pdf_child(children: Seq<ZoteroItem>, files: Seq<FileState>, i: int)
    requires
        0 <= i,
        children.len() == files.len(),
    ensures
        match first_pdf(children, files, i) {
            Some(k) => i <= k < children.len() && children[k].data.content_type@
                == "application/pdf"@ && files[k] == FileState::Present && forall|j: int|
                i <= j < k ==> (#[trigger] children[j]).data.content_type@ != "application/pdf"@
                    || files[j] != FileState::Present,
            None => forall|j: int|
                i <= j < children.len() ==> (#[trigger] children[j]).data.content_type@
                    != "application/pdf"@ || files[j] != FileState::Present,
        },
    decreases children.len() - i,
{
    if i < children.len() && !(children[i].data.content_type@ == "application/pdf"@ && files[i]
        == FileState::Present) {
        law_first_pdf_child(children, files, i + 1);
    }
}

/// A saved page is chosen wherever one has a path, and it is the first such child.
pub proof fn law_first_page_child(children: Seq<ZoteroItem>, files: Seq<FileState>, i: int)
    requires
        0 <= i,
        children.len() == files.len(),
    ensures
        match first_html(children, files, i) {
            Some(k) => i <= k < children.len() && children[k].data.content_type@ == "text/html"@
                && files[k] != FileState::Unresolved && forall|j: int|
                i <= j < k ==> (#[trigger] children[j]).data.content_type@ != "text/html"@
                    || files[j] == FileState::Unresolved,
            None => forall|j: int|
                i <= j < children.len() ==> (#[trigger] children[j]).data.content_type@
                    != "text/html"@ || files[j] == FileState::Unresolved,
        },
    decreases children.len() - i,
{
    if i < children.len() && !(children[i].data.content_type@ == "text/html"@ && files[i]
        != FileState::Unresolved) {
        law_first_page_child(children, files, i + 1);
    }
}

/// The breakdown by status counts the records with that status.
pub proof fn law_status_counts(
    entries: Seq<(String, ItemStatusRecord)>,
    status: ExtractStatus,
)
    ensures
        count_status(entries, status) == entries.filter(
            |e: (String, ItemStatusRecord)| e.1.status == status,
        ).len(),
    decreases entries.len(),
{
    reveal(Seq::filter);
    if entries.len() > 0 {
        law_status_counts(entries.drop_last(), status);
    }
}

/// The text of an item is unchanged exactly where it was indexed before, at a version that the index
/// knew, with the same hash.
pub proof fn law_unchanged_text(previous: ItemStatusRecord, known: bool, hash: u64)
    ensures
        is_unchanged(Some(previous), known, hash) <==> known && previous.text_hash == hash,
        !is_unchanged(None, known, hash),
{
}

/// Problems are listed with what failed first, then what is partial, suspicious and without an
/// attachment; within one status they go by key.
pub open spec fn issues_ascend(s: Seq<IssueView>) -> bool {
    forall|i: int, j: int|
        0 <= i < j < s.len() ==> issue_le(#[trigger] s[i], #[trigger] s[j])
}

proof fn lemma_issue_le_trans(a: IssueView, b: IssueView, c: IssueView)
    requires
        issue_le(a, b),
        issue_le(b, c),
    ensures
        issue_le(a, c),
{
    if rank(a.status) == rank(b.status) && rank(b.status) == rank(c.status) {
        lemma_text_le_trans(a.key, b.key, c.key);
    }
}

proof fn lemma_with_issue(s: Seq<IssueView>, x: IssueView)
    requires
        issues_ascend(s),
    ensures
        issues_ascend(with_issue(s, x)),
        with_issue(s, x).len() == s.len() + 1,
        forall|y: IssueView| #[trigger] with_issue(s, x).contains(y) <==> s.contains(y) || y == x,
    decreases s.len(),
{
    let r = with_issue(s, x);
    if s.len() == 0 || issue_le(s.last(), x) {
        assert forall|i: int, j: int| 0 <= i < j < r.len() implies issue_le(
            #[trigger] r[i],
            #[trigger] r[j],
        ) by {
            if j < s.len() {
                assert(issue_le(s[i], s[j]));
            } else if i < s.len() - 1 {
                assert(issue_le(s[i], s[s.len() - 1]));
                lemma_issue_le_trans(s[i], s.last(), x);
            }
        }
        assert forall|y: IssueView| #[trigger] r.contains(y) <==> s.contains(y) || y == x by {
            if s.contains(y) {
                let k = choose|k: int| 0 <= k < s.len() && s[k] == y;
                assert(r[k] == y);
            }
            assert(r[r.len() - 1] == x);
        }
    } else {
        let h = s.drop_last();
        let z = s.last();
        assert(issues_ascend(h)) by {
            assert forall|i: int, j: int| 0 <= i < j < h.len() implies issue_le(
                #[trigger] h[i],
                #[trigger] h[j],
            ) by {
                assert(issue_le(s[i], s[j]));
            }
        }
        lemma_with_issue(h, x);
        let rh = with_issue(h, x);
        lemma_text_le_total(z.key, x.key);
        assert(issue_le(x, z));
        assert(s[s.len() - 1] == z);
        assert forall|i: int, j: int| 0 <= i < j < r.len() implies issue_le(
            #[trigger] r[i],
            #[trigger] r[j],
        ) by {
            if j < rh.len() {
                assert(issue_le(rh[i], rh[j]));
            } else {
                assert(rh.contains(rh[i]));
                if rh[i] != x {
                    let k = choose|k: int| 0 <= k < h.len() && h[k] == rh[i];
                    assert(issue_le(s[k], s[s.len() - 1]));
                }
            }
        }
        assert forall|y: IssueView| #[trigger] r.contains(y) <==> s.contains(y) || y == x by {
            assert(rh.contains(y) <==> h.contains(y) || y == x);
            if r.contains(y) {
                let k = choose|k: int| 0 <= k < r.len() && r[k] == y;
                if k < rh.len() {
                    assert(rh[k] == y);
                    if h.contains(y) {
                        let m = choose|m: int| 0 <= m < h.len() && h[m] == y;
                        assert(s[m] == y);
                    }
                }
            }
            if s.contains(y) {
                let m = choose|m: int| 0 <= m < s.len() && s[m] == y;
                if m < h.len() {
                    assert(h[m] == y);
                } else {
                    assert(r[r.len() - 1] == y);
                }
            }
            if rh.contains(y) {
                let k = choose|k: int| 0 <= k < rh.len() && rh[k] == y;
                assert(r[k] == y);
            }
        }
    }
}

/// Every item whose extraction was not complete is listed, with its status and detail, and no other;
/// the worst come first.
pub proof fn law_every_problem_is_listed(
    entries: Seq<(String, ItemStatusRecord)>,
    titles: Map<Seq<char>, String>,
    i: int,
)
    requires
        0 <= i < entries.len(),
    ensures
        issues_ascend(issues_of(entries, titles)),
        issues_of(entries, titles).len() <= entries.len(),
        entries[i].1.status != ExtractStatus::Complete ==> exists|k: int|
            0 <= k < issues_of(entries, titles).len() && (#[trigger] issues_of(
                entries,
                titles,
            )[k]).key == entries[i].0@ && issues_of(entries, titles)[k].status
                == entries[i].1.status && issues_of(entries, titles)[k].detail
                == entries[i].1.detail@,
        forall|k: int|
            0 <= k < issues_of(entries, titles).len() ==> (#[trigger] issues_of(
                entries,
                titles,
            )[k]).status != ExtractStatus::Complete,
    decreases entries.len(),
{
    lemma_issues(entries, titles);
    let t = entries.drop_last();
    let all = issues_of(entries, titles);
    if entries[i].1.status != ExtractStatus::Complete {
        let head = issues_of(t, titles);
        lemma_issues(t, titles);
        if i < t.len() {
            law_every_problem_is_listed(t, titles, i);
            assert(t[i] == entries[i]);
            let k = choose|k: int|
                0 <= k < head.len() && (#[trigger] head[k]).key == entries[i].0@ && head[k].status
                    == entries[i].1.status && head[k].detail == entries[i].1.detail@;
            assert(head.contains(head[k]));
            if entries.last().1.status != ExtractStatus::Complete {
                lemma_with_issue(head, issue_of(entries.last(), titles));
            }
            assert(all.contains(head[k]));
            let m = choose|m: int| 0 <= m < all.len() && all[m] == head[k];
            assert(all[m].key == entries[i].0@);
        } else {
            let x = issue_of(entries[i], titles);
            lemma_with_issue(head, x);
            assert(all.contains(x));
            let m = choose|m: int| 0 <= m < all.len() && all[m] == x;
            assert(all[m].key == entries[i].0@);
        }
    }
}

/// A record as it is listed.
spec fn issue_of(entry: (String, ItemStatusRecord), titles: Map<Seq<char>, String>) -> IssueView {
    IssueView {
        key: entry.0@,
        title: cut_to_bytes(
            if titles.contains_key(entry.0@) {
                titles[entry.0@]@
            } else {
                Seq::empty()
            },
            80,
        ),
        status: entry.1.status,
        detail: entry.1.detail@,
    }
}

proof fn lemma_issues(entries: Seq<(String, ItemStatusRecord)>, titles: Map<Seq<char>, String>)
    ensures
        issues_ascend(issues_of(entries, titles)),
        issues_of(entries, titles).len() <= entries.len(),
        forall|k: int|
            0 <= k < issues_of(entries, titles).len() ==> (#[trigger] issues_of(
                entries,
                titles,
            )[k]).status != ExtractStatus::Complete,
    decreases entries.len(),
{
    if entries.len() > 0 {
        let t = entries.drop_last();
        lemma_issues(t, titles);
        let head = issues_of(t, titles);
        let all = issues_of(entries, titles);
        if entries.last().1.status != ExtractStatus::Complete {
            let x = issue_of(entries.last(), titles);
            lemma_with_issue(head, x);
            assert forall|k: int| 0 <= k < all.len() implies (#[trigger] all[k]).status
                != ExtractStatus::Complete by {
                assert(all.contains(all[k]));
                if all[k] != x {
                    let m = choose|m: int| 0 <= m < head.len() && head[m] == all[k];
                    assert(head[m].status != ExtractStatus::Complete);
                }
            }
        }
    }
}

/// The order of the statuses in the listing of problems.
pub proof fn law_worst_status_first()
    ensures
        rank(ExtractStatus::Failed) < rank(ExtractStatus::Partial),
        rank(ExtractStatus::Partial) < rank(ExtractStatus::Suspicious),
        rank(ExtractStatus::Suspicious) < rank(ExtractStatus::NoAttachment),
{
}

/// The breakdown names every status that occurs with how often it does, and what has no status as
/// unknown.
pub proof fn law_breakdown(store: IndexStore, label: Seq<char>, n: int)
    ensures
        ({
            let e = store.meta.item_status.entries@;
            breakdown(store).contains((label, n)) <==> n > 0 && {
                ||| label == "ok"@ && n == count_status(e, ExtractStatus::Complete)
                ||| label == "partial"@ && n == count_status(e, ExtractStatus::Partial)
                ||| label == "suspicious"@ && n == count_status(e, ExtractStatus::Suspicious)
                ||| label == "failed"@ && n == count_status(e, ExtractStatus::Failed)
                ||| label == "no-attachment"@ && n == count_status(e, ExtractStatus::NoAttachment)
                ||| label == "unknown"@ && n == store.meta.item_count - e.len()
            }
        }),
{
    let e = store.meta.item_status.entries@;
    let s0 = Seq::<LabelCount>::empty();
    let a = count_status(e, ExtractStatus::Complete) as int;
    let b = count_status(e, ExtractStatus::Partial) as int;
    let c = count_status(e, ExtractStatus::Suspicious) as int;
    let d = count_status(e, ExtractStatus::Failed) as int;
    let f = count_status(e, ExtractStatus::NoAttachment) as int;
    let g = store.meta.item_count - e.len();
    let s1 = with_label(s0, "ok"@, a);
    let s2 = with_label(s1, "partial"@, b);
    let s3 = with_label(s2, "suspicious"@, c);
    let s4 = with_label(s3, "failed"@, d);
    let s5 = with_label(s4, "no-attachment"@, f);
    lemma_with_label(s0, "ok"@, a, label, n);
    lemma_with_label(s1, "partial"@, b, label, n);
    lemma_with_label(s2, "suspicious"@, c, label, n);
    lemma_with_label(s3, "failed"@, d, label, n);
    lemma_with_label(s4, "no-attachment"@, f, label, n);
    lemma_with_label(s5, "unknown"@, g, label, n);
}

proof fn lemma_with_label(
    s: Seq<LabelCount>,
    label: Seq<char>,
    n: int,
    other: Seq<char>,
    m: int,
)
    ensures
        with_label(s, label, n).contains((other, m)) <==> s.contains((other, m)) || (n > 0 && other
            == label && m == n),
{
    let all = with_label(s, label, n);
    if s.contains((other, m)) {
        let i = choose|i: int| 0 <= i < s.len() && s[i] == (other, m);
        assert(all[i] == (other, m));
    }
    if n > 0 {
        assert(all[all.len() - 1] == (label, n));
    }
    if all.contains((other, m)) {
        let i = choose|i: int| 0 <= i < all.len() && all[i] == (other, m);
        if i < s.len() {
            assert(s[i] == (other, m));
        }
    }
}

} // verus!
