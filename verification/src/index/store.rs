//! The state of the local index beside its search documents: versions, statuses and vectors.
use crate::failure::Failure;
use crate::index::chunker::CHUNK_OVERLAP;
use crate::index::chunker::CHUNK_SIZE;
use crate::index::chunker::Chunk;
use crate::index::pdf::ExtractStatus;
use crate::index::table::entry_map;
use crate::index::table::Table;
use crate::text::chars_of;
use crate::text::concat2;
use crate::text::concat5;
use crate::text::decimal;
use crate::text::is_empty;
use crate::text::push_decimal;
use crate::text::same_text;
use crate::text::starts_with;
use crate::text::texts;
use std::collections::hash_map::DefaultHasher;
use std::hash::Hasher;
use vstd::prelude::*;
use vstd::std_specs::hash::DefaultHasherAdditionalSpecFns;
use vstd::utf8::encode_utf8;

verus! {

/// Current extraction-logic version. Bump when a new fulltext source is added, so that items
/// without an attachment that were recorded under an older version are queued once more.
pub const STATUS_VERSION: u32 = 2;

/// Per-item extraction status. Items indexed before status tracking existed simply have none and
/// are reported as unknown.
#[derive(Debug, Clone)]
pub struct ItemStatusRecord {
    pub status: ExtractStatus,
    /// Human-readable warning detail (empty for `ok`/`no-attachment`).
    pub detail: String,
    /// Remote Zotero version this status was recorded at.
    pub version: u64,
    /// Hash of the extracted text at index time, used to skip re-embedding when a retry produces
    /// identical text.
    pub text_hash: u64,
    /// Version of the extraction logic that produced this record; 0 for records written before
    /// this field existed.
    pub status_version: u32,
}

/// Metadata about the index state.
#[derive(Debug, Clone)]
pub struct IndexMeta {
    pub model_name: String,
    pub model_dim: usize,
    pub chunk_size: usize,
    pub chunk_overlap: usize,
    pub last_sync: String,
    pub item_count: usize,
    pub chunk_count: usize,
    /// Key to version.
    pub items: Table<u64>,
    /// Key to extraction status.
    pub item_status: Table<ItemStatusRecord>,
}

impl IndexMeta {
    /// No key has two versions or two statuses.
    pub open spec fn wf(&self) -> bool {
        self.items.wf() && self.item_status.wf()
    }

    /// Whether two metadata differ in nothing but the versions and statuses of items.
    pub open spec fn same_frame(&self, other: IndexMeta) -> bool {
        &&& self.same_model(other)
        &&& self.last_sync@ == other.last_sync@
        &&& self.item_count == other.item_count
        &&& self.chunk_count == other.chunk_count
    }

    /// Whether two metadata speak of the same model and way of chunking.
    pub open spec fn same_model(&self, other: IndexMeta) -> bool {
        &&& self.model_name@ == other.model_name@
        &&& self.model_dim == other.model_dim
        &&& self.chunk_size == other.chunk_size
        &&& self.chunk_overlap == other.chunk_overlap
    }

    /// Whether metadata are those of an index that holds nothing yet.
    pub open spec fn is_empty_for(&self, model_name: Seq<char>, model_dim: usize) -> bool {
        &&& self.model_name@ == model_name
        &&& self.model_dim == model_dim
        &&& self.chunk_size == CHUNK_SIZE
        &&& self.chunk_overlap == CHUNK_OVERLAP
        &&& self.last_sync@.len() == 0
        &&& self.item_count == 0
        &&& self.chunk_count == 0
        &&& self.items@ == Map::<Seq<char>, u64>::empty()
        &&& self.item_status@ == Map::<Seq<char>, ItemStatusRecord>::empty()
    }

    /// The error for an index that was built with another model; none where it can be used.
    pub open spec fn model_fault(&self, model_name: Seq<char>) -> Option<Seq<char>> {
        if self.items.entries@.len() > 0 && self.model_name@ != model_name {
            Some(
                "Index was built with model '"@ + self.model_name@
                    + "' but current model is '"@ + model_name
                    + "'. Run `zot index --force` to rebuild."@,
            )
        } else {
            None
        }
    }

    /// Refuses an index that was built with another model, before its vectors are read. An index
    /// without items can be used with any.
    pub fn check_model(&self, model_name: &str) -> (r: Result<(), Failure>)
        ensures
            match r {
                Ok(_) => self.model_fault(model_name@) is None,
                Err(e) => self.model_fault(model_name@) == Some(e@),
            },
    {
        if self.items.entries.len() > 0 && !same_text(self.model_name.as_str(), model_name) {
            return Err(
                Failure {
                    message: concat5(
                        "Index was built with model '",
                        self.model_name.as_str(),
                        "' but current model is '",
                        model_name,
                        "'. Run `zot index --force` to rebuild.",
                    ),
                },
            );
        }
        Ok(())
    }

    /// The metadata of an index that holds nothing yet.
    pub fn empty(model_name: &str, model_dim: usize) -> (r: IndexMeta)
        ensures
            r.wf(),
            r.is_empty_for(model_name@, model_dim),
    {
        IndexMeta {
            model_name: model_name.to_string(),
            model_dim,
            chunk_size: CHUNK_SIZE,
            chunk_overlap: CHUNK_OVERLAP,
            last_sync: String::new(),
            item_count: 0,
            chunk_count: 0,
            items: Table::new(),
            item_status: Table::new(),
        }
    }
}

/// Difference between the remote Zotero library and the local index. `to_add` holds keys that are
/// new or whose version changed remotely; `to_delete` holds keys present locally but gone
/// remotely.
#[derive(Debug, Clone)]
pub struct SyncDiff {
    pub to_add: Vec<String>,
    pub to_delete: Vec<String>,
}

impl SyncDiff {
    /// True if the local index differs from the remote library.
    pub fn is_stale(&self) -> (r: bool)
        ensures
            r == (self.to_add@.len() > 0 || self.to_delete@.len() > 0),
    {
        self.to_add.len() > 0 || self.to_delete.len() > 0
    }
}

/// Whether a remote item is new or has another version locally.
pub open spec fn is_changed(local: Map<Seq<char>, u64>, key: Seq<char>, version: u64) -> bool {
    !local.contains_key(key) || local[key] != version
}

/// The keys of the remote items that are new or changed.
pub open spec fn changed_keys(remote: Seq<(String, u64)>, local: Map<Seq<char>, u64>) -> Seq<
    Seq<char>,
>
    decreases remote.len(),
{
    if remote.len() == 0 {
        Seq::empty()
    } else {
        let head = changed_keys(remote.drop_last(), local);
        if is_changed(local, remote.last().0@, remote.last().1) {
            head.push(remote.last().0@)
        } else {
            head
        }
    }
}

/// The keys of the local items that are gone remotely.
pub open spec fn gone_keys(local: Seq<(String, u64)>, remote: Map<Seq<char>, u64>) -> Seq<Seq<char>>
    decreases local.len(),
{
    if local.len() == 0 {
        Seq::empty()
    } else {
        let head = gone_keys(local.drop_last(), remote);
        if !remote.contains_key(local.last().0@) {
            head.push(local.last().0@)
        } else {
            head
        }
    }
}

/// Diffs the remote versions against the local ones.
pub fn compute_sync_diff(remote: &Table<u64>, local: &Table<u64>) -> (r: SyncDiff)
    requires
        remote.wf(),
        local.wf(),
    ensures
        texts(r.to_add@) == changed_keys(remote.entries@, local@),
        texts(r.to_delete@) == gone_keys(local.entries@, remote@),
{
    let mut to_add: Vec<String> = Vec::new();
    let mut i: usize = 0;
    assert(texts(to_add@) =~= Seq::empty());
    while i < remote.entries.len()
        invariant
            i <= remote.entries.len(),
            local.wf(),
            texts(to_add@) == changed_keys(remote.entries@.take(i as int), local@),
        decreases remote.entries.len() - i,
    {
        assert(remote.entries@.take(i as int + 1).drop_last() =~= remote.entries@.take(i as int));
        let entry = &remote.entries[i];
        let same = match local.get(entry.0.as_str()) {
            Some(v) => *v == entry.1,
            None => false,
        };
        if !same {
            let ghost before = texts(to_add@);
            to_add.push(entry.0.clone());
            assert(texts(to_add@) =~= before.push(entry.0@));
        }
        i += 1;
    }
    assert(remote.entries@.take(remote.entries@.len() as int) =~= remote.entries@);
    let mut to_delete: Vec<String> = Vec::new();
    let mut j: usize = 0;
    assert(texts(to_delete@) =~= Seq::empty());
    while j < local.entries.len()
        invariant
            j <= local.entries.len(),
            remote.wf(),
            texts(to_delete@) == gone_keys(local.entries@.take(j as int), remote@),
        decreases local.entries.len() - j,
    {
        assert(local.entries@.take(j as int + 1).drop_last() =~= local.entries@.take(j as int));
        let key = &local.entries[j].0;
        if !remote.contains_key(key.as_str()) {
            let ghost before = texts(to_delete@);
            to_delete.push(key.clone());
            assert(texts(to_delete@) =~= before.push(key@));
        }
        j += 1;
    }
    assert(local.entries@.take(local.entries@.len() as int) =~= local.entries@);
    SyncDiff { to_add, to_delete }
}

/// Whether a chunk ID was given out for a key: it is the key itself, or the key, `_` and something
/// else. A bare prefix is not enough, since another key may start with this one.
pub open spec fn belongs(chunk_id: Seq<char>, key: Seq<char>) -> bool {
    chunk_id == key || (key + "_"@).is_prefix_of(chunk_id)
}

/// Whether `chunk_id` was emitted for `key` exactly.
pub fn chunk_belongs_to(chunk_id: &str, key: &str) -> (r: bool)
    ensures
        r == belongs(chunk_id@, key@),
{
    if same_text(chunk_id, key) {
        return true;
    }
    let chars = chars_of(chunk_id);
    starts_with(chars.as_slice(), concat2(key, "_").as_str())
}

/// Chunk IDs with their vectors, as bit patterns of the components.
pub type Vectors = Seq<(Seq<char>, Seq<u32>)>;

/// The vectors that belong to another item than this one.
pub open spec fn purged(v: Vectors, key: Seq<char>) -> Vectors
    decreases v.len(),
{
    if v.len() == 0 {
        v
    } else if belongs(v.last().0, key) {
        purged(v.drop_last(), key)
    } else {
        purged(v.drop_last(), key).push(v.last())
    }
}

/// The vectors that belong to none of some items.
pub open spec fn purged_all(v: Vectors, keys: Seq<Seq<char>>) -> Vectors
    decreases keys.len(),
{
    if keys.len() == 0 {
        v
    } else {
        purged(purged_all(v, keys.drop_last()), keys.last())
    }
}

/// A map without some keys.
pub open spec fn removed_all<V>(m: Map<Seq<char>, V>, keys: Seq<Seq<char>>) -> Map<Seq<char>, V>
    decreases keys.len(),
{
    if keys.len() == 0 {
        m
    } else {
        removed_all(m, keys.drop_last()).remove(keys.last())
    }
}

/// Whether an extraction with this status is worth another attempt although the item did not
/// change.
pub open spec fn needs_retry(status: ExtractStatus) -> bool {
    status == ExtractStatus::Failed || status == ExtractStatus::Partial || status
        == ExtractStatus::Suspicious
}

/// Whether a record says that nothing was attached, by an older extraction logic than this one.
pub open spec fn is_outdated(r: ItemStatusRecord) -> bool {
    r.status == ExtractStatus::NoAttachment && r.status_version < STATUS_VERSION
}

/// The keys of the records that satisfy a condition.
pub open spec fn keys_where(
    entries: Seq<(String, ItemStatusRecord)>,
    keep: spec_fn(ItemStatusRecord) -> bool,
) -> Seq<Seq<char>>
    decreases entries.len(),
{
    if entries.len() == 0 {
        Seq::empty()
    } else {
        let head = keys_where(entries.drop_last(), keep);
        if keep(entries.last().1) {
            head.push(entries.last().0@)
        } else {
            head
        }
    }
}

/// The local index beside its search documents: one vector per chunk, with the chunk's ID.
#[derive(Debug)]
pub struct IndexStore {
    pub vectors: Vec<Vec<u32>>,
    /// Parallel to `vectors`.
    pub chunk_ids: Vec<String>,
    pub meta: IndexMeta,
}

fn copy_record(r: &ItemStatusRecord) -> (c: ItemStatusRecord)
    ensures
        c == *r,
{
    ItemStatusRecord {
        status: r.status,
        detail: r.detail.clone(),
        version: r.version,
        text_hash: r.text_hash,
        status_version: r.status_version,
    }
}

fn copy_bits(v: &[u32]) -> (r: Vec<u32>)
    ensures
        r@ == v@,
{
    let mut out: Vec<u32> = Vec::new();
    let mut i: usize = 0;
    while i < v.len()
        invariant
            i <= v.len(),
            out@ == v@.take(i as int),
        decreases v.len() - i,
    {
        out.push(v[i]);
        assert(out@ =~= v@.take(i as int + 1));
        i += 1;
    }
    assert(out@ =~= v@);
    out
}

/// The IDs and vectors of some chunks, as far as there is one of each.
pub open spec fn embedded(chunks: Seq<Chunk>, embeddings: Seq<Vec<u32>>) -> Vectors {
    let n = if chunks.len() < embeddings.len() {
        chunks.len()
    } else {
        embeddings.len()
    };
    Seq::new(n, |i: int| (chunks[i].chunk_id@, embeddings[i]@))
}

impl IndexStore {
    /// One ID per vector.
    pub open spec fn wf(&self) -> bool {
        self.vectors@.len() == self.chunk_ids@.len() && self.meta.wf()
    }

    /// The chunk IDs with their vectors.
    pub open spec fn embeddings(&self) -> Vectors {
        Seq::new(self.chunk_ids@.len(), |i: int| (self.chunk_ids@[i]@, self.vectors@[i]@))
    }

    /// Opens an index from what was stored of it; a new one where nothing was. An index that was
    /// built with another model cannot be used.
    pub fn open(
        stored: Option<IndexMeta>,
        vectors: Vec<Vec<u32>>,
        chunk_ids: Vec<String>,
        model_name: &str,
        model_dim: usize,
    ) -> (r: Result<IndexStore, Failure>)
        requires
            vectors.len() == chunk_ids.len(),
            stored is Some ==> stored.unwrap().wf(),
        ensures
            match r {
                Ok(s) => {
                    &&& s.wf()
                    &&& s.vectors@ == vectors@
                    &&& s.chunk_ids@ == chunk_ids@
                    &&& match stored {
                        Some(m) => s.meta == m && m.model_fault(model_name@) is None,
                        None => s.meta.is_empty_for(model_name@, model_dim),
                    }
                },
                Err(e) => stored is Some && stored.unwrap().model_fault(model_name@) == Some(e@),
            },
    {
        let meta = match stored {
            Some(m) => m,
            None => IndexMeta::empty(model_name, model_dim),
        };
        match meta.check_model(model_name) {
            Ok(_) => {},
            Err(e) => {
                return Err(e);
            },
        }
        Ok(IndexStore { vectors, chunk_ids, meta })
    }

    /// The metadata.
    pub fn meta(&self) -> (r: &IndexMeta)
        ensures
            *r == self.meta,
    {
        &self.meta
    }

    /// The recorded versions.
    pub fn item_versions(&self) -> (r: &Table<u64>)
        ensures
            *r == self.meta.items,
    {
        &self.meta.items
    }

    /// The recorded extraction statuses.
    pub fn item_status(&self) -> (r: &Table<ItemStatusRecord>)
        ensures
            *r == self.meta.item_status,
    {
        &self.meta.item_status
    }

    /// The warning where the number of search documents is not the number of vectors: a previous
    /// run was interrupted in the middle of a write.
    pub fn consistency_warning(&self, num_docs: usize) -> (r: Option<String>)
        ensures
            match r {
                Some(w) => num_docs != self.vectors@.len() && w@
                    == "Warning: index looks inconsistent ("@ + decimal(num_docs as nat)
                    + " search docs vs "@ + decimal(self.vectors@.len())
                    + " vectors). Run `zot index --force` to rebuild."@,
                None => num_docs == self.vectors@.len(),
            },
    {
        if num_docs == self.vectors.len() {
            return None;
        }
        let mut w = "Warning: index looks inconsistent (".to_string();
        push_decimal(&mut w, num_docs as u64);
        w.push_str(" search docs vs ");
        push_decimal(&mut w, self.vectors.len() as u64);
        w.push_str(" vectors). Run `zot index --force` to rebuild.");
        Some(w)
    }

    /// Records the extraction status for an item, stamped with the current extraction-logic
    /// version.
    pub fn record_status(&mut self, key: &str, record: ItemStatusRecord)
        requires
            old(self).wf(),
        ensures
            final(self).wf(),
            final(self).embeddings() == old(self).embeddings(),
            final(self).meta.same_frame(old(self).meta),
            final(self).meta.items@ == old(self).meta.items@,
            final(self).meta.item_status@ == old(self).meta.item_status@.insert(
                key@,
                ItemStatusRecord { status_version: STATUS_VERSION, ..record },
            ),
    {
        let stamped = ItemStatusRecord {
            status: record.status,
            detail: record.detail,
            version: record.version,
            text_hash: record.text_hash,
            status_version: STATUS_VERSION,
        };
        self.meta.item_status.insert(key.to_string(), stamped);
    }

    /// The status recorded for an item.
    pub fn status_of(&self, key: &str) -> (r: Option<&ItemStatusRecord>)
        requires
            self.wf(),
        ensures
            match r {
                Some(s) => self.meta.item_status@.contains_key(key@)
                    && self.meta.item_status@[key@] == *s,
                None => !self.meta.item_status@.contains_key(key@),
            },
    {
        self.meta.item_status.get(key)
    }

    /// Keys that should be attempted again even if their version is unchanged: anything that
    /// failed, extracted partially, or looked suspicious. Items with nothing attached are not
    /// among them; they are only attempted when their version changes.
    pub fn retry_keys(&self) -> (r: Vec<String>)
        ensures
            texts(r@) == keys_where(
                self.meta.item_status.entries@,
                |s: ItemStatusRecord| needs_retry(s.status),
            ),
    {
        let ghost keep = |s: ItemStatusRecord| needs_retry(s.status);
        let ghost all = self.meta.item_status.entries@;
        let mut out: Vec<String> = Vec::new();
        let mut i: usize = 0;
        assert(texts(out@) =~= Seq::empty());
        while i < self.meta.item_status.entries.len()
            invariant
                i <= self.meta.item_status.entries.len(),
                all == self.meta.item_status.entries@,
                keep == (|s: ItemStatusRecord| needs_retry(s.status)),
                texts(out@) == keys_where(all.take(i as int), keep),
            decreases self.meta.item_status.entries.len() - i,
        {
            assert(all.take(i as int + 1).drop_last() =~= all.take(i as int));
            let entry = &self.meta.item_status.entries[i];
            let status = entry.1.status;
            if status == ExtractStatus::Failed || status == ExtractStatus::Partial || status
                == ExtractStatus::Suspicious {
                let ghost before = texts(out@);
                out.push(entry.0.clone());
                assert(texts(out@) =~= before.push(entry.0@));
            }
            i += 1;
        }
        assert(all.take(all.len() as int) =~= all);
        out
    }

    /// Items with nothing attached whose status was recorded by an older extraction logic. Queued
    /// once, so that a newly added fulltext source reaches them; after that the record carries the
    /// current version.
    pub fn stale_no_attachment_keys(&self) -> (r: Vec<String>)
        ensures
            texts(r@) == keys_where(
                self.meta.item_status.entries@,
                |s: ItemStatusRecord| is_outdated(s),
            ),
    {
        let ghost keep = |s: ItemStatusRecord| is_outdated(s);
        let ghost all = self.meta.item_status.entries@;
        let mut out: Vec<String> = Vec::new();
        let mut i: usize = 0;
        assert(texts(out@) =~= Seq::empty());
        while i < self.meta.item_status.entries.len()
            invariant
                i <= self.meta.item_status.entries.len(),
                all == self.meta.item_status.entries@,
                keep == (|s: ItemStatusRecord| is_outdated(s)),
                texts(out@) == keys_where(all.take(i as int), keep),
            decreases self.meta.item_status.entries.len() - i,
        {
            assert(all.take(i as int + 1).drop_last() =~= all.take(i as int));
            let entry = &self.meta.item_status.entries[i];
            if entry.1.status == ExtractStatus::NoAttachment && entry.1.status_version
                < STATUS_VERSION {
                let ghost before = texts(out@);
                out.push(entry.0.clone());
                assert(texts(out@) =~= before.push(entry.0@));
            }
            i += 1;
        }
        assert(all.take(all.len() as int) =~= all);
        out
    }

    /// Drops the vectors of an item.
    fn purge(&mut self, key: &str)
        requires
            old(self).wf(),
        ensures
            final(self).wf(),
            final(self).meta == old(self).meta,
            final(self).embeddings() == purged(old(self).embeddings(), key@),
    {
        let ghost all = self.embeddings();
        let ghost mut done: int = 0;
        let mut i: usize = 0;
        assert(purged(all.take(0), key@) + all.skip(0) =~= all);
        while i < self.chunk_ids.len()
            invariant
                self.wf(),
                self.meta == old(self).meta,
                all == old(self).embeddings(),
                0 <= done <= all.len(),
                i == purged(all.take(done), key@).len(),
                self.embeddings() == purged(all.take(done), key@) + all.skip(done),
            decreases self.chunk_ids.len() - i,
        {
            let ghost before = self.embeddings();
            let ghost head = purged(all.take(done), key@);
            proof {
                assert(before.len() == head.len() + all.len() - done);
                assert(before[i as int] == all[done]);
                assert(all.take(done + 1).drop_last() =~= all.take(done));
            }
            if chunk_belongs_to(self.chunk_ids[i].as_str(), key) {
                let _ = self.chunk_ids.remove(i);
                let _ = self.vectors.remove(i);
                assert(self.embeddings() =~= before.remove(i as int));
                assert(self.embeddings() =~= head + all.skip(done + 1));
            } else {
                assert(before =~= head.push(all[done]) + all.skip(done + 1));
                i += 1;
            }
            proof {
                done = done + 1;
            }
        }
        proof {
            let head = purged(all.take(done), key@);
            assert(self.embeddings().len() == head.len() + all.len() - done);
            assert(done == all.len());
            assert(all.take(done) =~= all);
            assert(self.embeddings() =~= head);
        }
    }

    /// Deletes everything the index state holds of some items.
    pub fn delete_items(&mut self, keys: &[String])
        requires
            old(self).wf(),
        ensures
            final(self).wf(),
            final(self).embeddings() == purged_all(old(self).embeddings(), texts(keys@)),
            final(self).meta.same_frame(old(self).meta),
            final(self).meta.items@ == removed_all(old(self).meta.items@, texts(keys@)),
            final(self).meta.item_status@ == removed_all(
                old(self).meta.item_status@,
                texts(keys@),
            ),
    {
        let ghost all = texts(keys@);
        let mut i: usize = 0;
        assert(all.take(0) =~= Seq::empty());
        while i < keys.len()
            invariant
                i <= keys.len(),
                all == texts(keys@),
                self.wf(),
                self.meta.same_frame(old(self).meta),
                self.embeddings() == purged_all(old(self).embeddings(), all.take(i as int)),
                self.meta.items@ == removed_all(old(self).meta.items@, all.take(i as int)),
                self.meta.item_status@ == removed_all(
                    old(self).meta.item_status@,
                    all.take(i as int),
                ),
            decreases keys.len() - i,
        {
            assert(all.take(i as int + 1).drop_last() =~= all.take(i as int));
            assert(all.take(i as int + 1).last() == keys@[i as int]@);
            let ghost before = self.embeddings();
            self.meta.items.remove(keys[i].as_str());
            self.meta.item_status.remove(keys[i].as_str());
            assert(self.embeddings() =~= before);
            self.purge(keys[i].as_str());
            i += 1;
        }
        assert(all.take(all.len() as int) =~= all);
    }

    /// Puts the vectors of an item's chunks in place of those it had, so that indexing it again
    /// leaves nothing behind.
    pub fn add_item(&mut self, item_key: &str, chunks: &[Chunk], embeddings: &[Vec<u32>])
        requires
            old(self).wf(),
        ensures
            final(self).wf(),
            final(self).meta == old(self).meta,
            final(self).embeddings() == purged(old(self).embeddings(), item_key@) + embedded(
                chunks@,
                embeddings@,
            ),
    {
        self.purge(item_key);
        let ghost kept = self.embeddings();
        let ghost more = embedded(chunks@, embeddings@);
        let mut i: usize = 0;
        assert(self.embeddings() =~= kept + more.take(0));
        while i < chunks.len() && i < embeddings.len()
            invariant
                i <= chunks.len(),
                i <= embeddings.len(),
                self.wf(),
                self.meta == old(self).meta,
                more == embedded(chunks@, embeddings@),
                self.embeddings() == kept + more.take(i as int),
            decreases chunks.len() - i,
        {
            let ghost before = self.embeddings();
            self.chunk_ids.push(chunks[i].chunk_id.clone());
            self.vectors.push(copy_bits(&embeddings[i]));
            assert(self.embeddings() =~= before.push(more[i as int]));
            assert(self.embeddings() =~= kept + more.take(i as int + 1));
            i += 1;
        }
        assert(more.take(more.len() as int) =~= more);
    }

    /// Recomputes the recorded versions: keeps the known items that are still there remotely, and
    /// puts those indexed in this run on top. Items that were queued but yielded nothing are left
    /// out, so that the next run attempts them again. Statuses of items that are gone are dropped.
    pub fn rebuild_items_map(&mut self, remote: &Table<u64>, indexed: &Table<u64>)
        requires
            old(self).wf(),
            remote.wf(),
            indexed.wf(),
        ensures
            final(self).wf(),
            final(self).embeddings() == old(self).embeddings(),
            final(self).meta.same_frame(old(self).meta),
            final(self).meta.items@ == old(self).meta.items@.restrict(
                remote@.dom(),
            ).union_prefer_right(indexed@),
            final(self).meta.item_status@ == old(self).meta.item_status@.restrict(remote@.dom()),
    {
        let ghost vectors_before = self.embeddings();
        let ghost known = self.meta.items.entries@;
        let ghost dom = remote@.dom();
        let mut kept: Table<u64> = Table::new();
        let mut i: usize = 0;
        assert(kept@ =~= entry_map(known.take(0)).restrict(dom));
        while i < self.meta.items.entries.len()
            invariant
                i <= self.meta.items.entries.len(),
                *self == *old(self),
                known == self.meta.items.entries@,
                remote.wf(),
                dom == remote@.dom(),
                kept.wf(),
                kept@ == entry_map(known.take(i as int)).restrict(dom),
            decreases self.meta.items.entries.len() - i,
        {
            assert(known.take(i as int + 1).drop_last() =~= known.take(i as int));
            let entry = &self.meta.items.entries[i];
            let ghost before = kept@;
            if remote.contains_key(entry.0.as_str()) {
                kept.insert(entry.0.clone(), entry.1);
            }
            assert(kept@ =~= entry_map(known.take(i as int + 1)).restrict(dom));
            i += 1;
        }
        assert(known.take(known.len() as int) =~= known);
        let ghost base = kept@;
        let ghost fresh = indexed.entries@;
        let mut j: usize = 0;
        assert(kept@ =~= base.union_prefer_right(entry_map(fresh.take(0))));
        while j < indexed.entries.len()
            invariant
                j <= indexed.entries.len(),
                fresh == indexed.entries@,
                kept.wf(),
                kept@ == base.union_prefer_right(entry_map(fresh.take(j as int))),
            decreases indexed.entries.len() - j,
        {
            assert(fresh.take(j as int + 1).drop_last() =~= fresh.take(j as int));
            let entry = &indexed.entries[j];
            kept.insert(entry.0.clone(), entry.1);
            assert(kept@ =~= base.union_prefer_right(entry_map(fresh.take(j as int + 1))));
            j += 1;
        }
        assert(fresh.take(fresh.len() as int) =~= fresh);
        let ghost records = self.meta.item_status.entries@;
        let mut statuses: Table<ItemStatusRecord> = Table::new();
        let mut k: usize = 0;
        assert(statuses@ =~= entry_map(records.take(0)).restrict(dom));
        while k < self.meta.item_status.entries.len()
            invariant
                k <= self.meta.item_status.entries.len(),
                *self == *old(self),
                records == self.meta.item_status.entries@,
                remote.wf(),
                dom == remote@.dom(),
                statuses.wf(),
                statuses@ == entry_map(records.take(k as int)).restrict(dom),
            decreases self.meta.item_status.entries.len() - k,
        {
            assert(records.take(k as int + 1).drop_last() =~= records.take(k as int));
            let entry = &self.meta.item_status.entries[k];
            if remote.contains_key(entry.0.as_str()) {
                statuses.insert(entry.0.clone(), copy_record(&entry.1));
            }
            assert(statuses@ =~= entry_map(records.take(k as int + 1)).restrict(dom));
            k += 1;
        }
        assert(records.take(records.len() as int) =~= records);
        self.meta.items = kept;
        self.meta.item_status = statuses;
        assert(self.embeddings() =~= vectors_before);
    }

    /// Brings the counts and the time of the last run up to date before the state is written.
    pub fn stamp(&mut self, now: String)
        requires
            old(self).wf(),
        ensures
            final(self).wf(),
            final(self).vectors@ == old(self).vectors@,
            final(self).chunk_ids@ == old(self).chunk_ids@,
            final(self).meta.same_model(old(self).meta),
            final(self).meta.items@ == old(self).meta.items@,
            final(self).meta.item_status@ == old(self).meta.item_status@,
            final(self).meta.item_count == old(self).meta.items@.dom().len(),
            final(self).meta.chunk_count == old(self).chunk_ids@.len(),
            final(self).meta.last_sync@ == now@,
    {
        self.meta.item_count = self.meta.items.len();
        self.meta.chunk_count = self.chunk_ids.len();
        self.meta.last_sync = now;
    }

    /// Brings the recorded versions, the counts and the time of the last run up to date before the
    /// state is written.
    pub fn finalize(&mut self, remote: &Table<u64>, indexed: &Table<u64>, now: String)
        requires
            old(self).wf(),
            remote.wf(),
            indexed.wf(),
        ensures
            final(self).wf(),
            final(self).embeddings() == old(self).embeddings(),
            final(self).meta.same_model(old(self).meta),
            final(self).meta.items@ == old(self).meta.items@.restrict(
                remote@.dom(),
            ).union_prefer_right(indexed@),
            final(self).meta.item_status@ == old(self).meta.item_status@.restrict(remote@.dom()),
            final(self).meta.item_count == final(self).meta.items@.dom().len(),
            final(self).meta.chunk_count == old(self).chunk_ids@.len(),
            final(self).meta.last_sync@ == now@,
    {
        self.rebuild_items_map(remote, indexed);
        let ghost middle = self.embeddings();
        self.stamp(now);
        assert(self.embeddings() =~= middle);
    }

    /// Empties the index state for a rebuild.
    pub fn clear(&mut self)
        requires
            old(self).wf(),
        ensures
            final(self).wf(),
            final(self).embeddings().len() == 0,
            final(self).meta.items@ == Map::<Seq<char>, u64>::empty(),
            final(self).meta.item_status@ == Map::<Seq<char>, ItemStatusRecord>::empty(),
            final(self).meta.item_count == 0,
            final(self).meta.chunk_count == 0,
            final(self).meta.same_model(old(self).meta),
            final(self).meta.last_sync@ == old(self).meta.last_sync@,
    {
        self.vectors = Vec::new();
        self.chunk_ids = Vec::new();
        self.meta.items = Table::new();
        self.meta.item_status = Table::new();
        self.meta.item_count = 0;
        self.meta.chunk_count = 0;
    }

    /// The number of vectors.
    pub fn vector_count(&self) -> (r: usize)
        ensures
            r == self.vectors@.len(),
    {
        self.vectors.len()
    }

    /// Item keys that have a recorded version but none of the metadata chunks, given the keys that
    /// have one.
    pub fn keys_without_metadata_chunk(&self, have_chunk: &[String]) -> (r: Vec<String>)
        ensures
            texts(r@) == missing_keys(self.meta.items.entries@, texts(have_chunk@)),
    {
        let ghost all = self.meta.items.entries@;
        let mut out: Vec<String> = Vec::new();
        let mut i: usize = 0;
        assert(texts(out@) =~= Seq::empty());
        while i < self.meta.items.entries.len()
            invariant
                i <= self.meta.items.entries.len(),
                all == self.meta.items.entries@,
                texts(out@) == missing_keys(all.take(i as int), texts(have_chunk@)),
            decreases self.meta.items.entries.len() - i,
        {
            assert(all.take(i as int + 1).drop_last() =~= all.take(i as int));
            let key = &self.meta.items.entries[i].0;
            if !crate::collections::counts::has_text(have_chunk, key) {
                let ghost before = texts(out@);
                out.push(key.clone());
                assert(texts(out@) =~= before.push(key@));
            }
            i += 1;
        }
        assert(all.take(all.len() as int) =~= all);
        out
    }

    /// Whether a stored fulltext holds any text. Guards text that was extracted before against being
    /// wiped by an attempt that yields none.
    pub fn has_fulltext(fulltext: &Option<String>) -> (r: bool)
        ensures
            r == holds_text(*fulltext),
    {
        match fulltext {
            Some(t) => !is_empty(t.as_str()),
            None => false,
        }
    }

    /// Counts the items whose metadata document has no stored fulltext.
    pub fn count_items_without_fulltext(docs: &[Option<String>]) -> (r: usize)
        ensures
            r == textless(docs@),
    {
        let mut n: usize = 0;
        let mut i: usize = 0;
        while i < docs.len()
            invariant
                i <= docs.len(),
                n <= i,
                n == textless(docs@.take(i as int)),
            decreases docs.len() - i,
        {
            assert(docs@.take(i as int + 1).drop_last() =~= docs@.take(i as int));
            if !Self::has_fulltext(&docs[i]) {
                n += 1;
            }
            i += 1;
        }
        assert(docs@.take(docs@.len() as int) =~= docs@);
        n
    }

    /// Items that are indexed but have no stored fulltext and no recorded status, given each
    /// metadata document's item key and fulltext.
    pub fn untracked_keys_without_fulltext(&self, docs: &[(String, Option<String>)]) -> (r: Vec<
        String,
    >)
        requires
            self.wf(),
        ensures
            texts(r@) == untracked_keys(docs@, self.meta.item_status@),
    {
        let mut out: Vec<String> = Vec::new();
        let mut i: usize = 0;
        assert(texts(out@) =~= Seq::empty());
        while i < docs.len()
            invariant
                i <= docs.len(),
                self.wf(),
                texts(out@) == untracked_keys(docs@.take(i as int), self.meta.item_status@),
            decreases docs.len() - i,
        {
            assert(docs@.take(i as int + 1).drop_last() =~= docs@.take(i as int));
            let doc = &docs[i];
            if !Self::has_fulltext(&doc.1) && !self.meta.item_status.contains_key(doc.0.as_str()) {
                let ghost before = texts(out@);
                out.push(doc.0.clone());
                assert(texts(out@) =~= before.push(doc.0@));
            }
            i += 1;
        }
        assert(docs@.take(docs@.len() as int) =~= docs@);
        out
    }
}

/// The keys of some entries that are not in a list.
pub open spec fn missing_keys(entries: Seq<(String, u64)>, have: Seq<Seq<char>>) -> Seq<Seq<char>>
    decreases entries.len(),
{
    if entries.len() == 0 {
        Seq::empty()
    } else {
        let head = missing_keys(entries.drop_last(), have);
        if have.contains(entries.last().0@) {
            head
        } else {
            head.push(entries.last().0@)
        }
    }
}

/// Whether a stored fulltext holds any text.
pub open spec fn holds_text(fulltext: Option<String>) -> bool {
    fulltext is Some && fulltext.unwrap()@.len() > 0
}

/// The keys of the documents without text whose items have no recorded status.
pub open spec fn untracked_keys(
    docs: Seq<(String, Option<String>)>,
    recorded: Map<Seq<char>, ItemStatusRecord>,
) -> Seq<Seq<char>>
    decreases docs.len(),
{
    if docs.len() == 0 {
        Seq::empty()
    } else {
        let head = untracked_keys(docs.drop_last(), recorded);
        if !holds_text(docs.last().1) && !recorded.contains_key(docs.last().0@) {
            head.push(docs.last().0@)
        } else {
            head
        }
    }
}

/// How many documents have no text.
pub open spec fn textless(docs: Seq<Option<String>>) -> nat
    decreases docs.len(),
{
    if docs.len() == 0 {
        0
    } else {
        textless(docs.drop_last()) + if holds_text(docs.last()) {
            0nat
        } else {
            1nat
        }
    }
}

/// The hash of a text: that of its encoding and an end mark.
pub open spec fn hash_of(text: Seq<char>) -> u64 {
    DefaultHasher::spec_finish(seq![encode_utf8(text), seq![0xffu8]])
}

/// Stable hash of extracted text, used to skip embedding again when a retry yields the same text.
/// It is only compared against itself within one machine's index.
pub fn text_hash(text: &str) -> (r: u64)
    ensures
        r == hash_of(text@),
{
    let mut hasher = DefaultHasher::new();
    hasher.write(text.as_bytes());
    let end: [u8; 1] = [0xff];
    hasher.write(&end);
    assert(hasher@ =~= seq![encode_utf8(text@), seq![0xffu8]]) by {
        assert(end@ =~= seq![0xffu8]);
    }
    hasher.finish()
}

/// Filters applicable to both kinds of search.
#[derive(Debug, Clone)]
pub struct SearchFilters {
    pub tag: Option<String>,
    /// Creators are matched through the query text rather than an exact filter.
    pub creator: Option<String>,
    pub item_type: Option<String>,
    pub collection: Option<String>,
}

/// A field of the search documents that results can be filtered by.
#[derive(Debug, Clone, Copy, PartialEq, Eq, Structural)]
pub enum FilterField {
    Tags,
    ItemType,
    Collections,
}

impl SearchFilters {
    /// Whether any exact filter is set.
    pub fn has_any(&self) -> (r: bool)
        ensures
            r == (self.tag is Some || self.item_type is Some || self.collection is Some),
    {
        self.tag.is_some() || self.item_type.is_some() || self.collection.is_some()
    }

    /// What a document has to match: a field and the exact value for each filter that is set.
    pub open spec fn required(&self) -> Seq<(FilterField, Seq<char>)> {
        let t = match self.tag {
            Some(v) => seq![(FilterField::Tags, v@)],
            None => Seq::empty(),
        };
        let t = match self.item_type {
            Some(v) => t.push((FilterField::ItemType, v@)),
            None => t,
        };
        match self.collection {
            Some(v) => t.push((FilterField::Collections, v@)),
            None => t,
        }
    }

    /// What a document has to match: a field and the exact value for each filter that is set.
    pub fn terms(&self) -> (r: Vec<(FilterField, String)>)
        ensures
            r@.map_values(|t: (FilterField, String)| (t.0, t.1@)) == self.required(),
    {
        let ghost view = |t: (FilterField, String)| (t.0, t.1@);
        let mut out: Vec<(FilterField, String)> = Vec::new();
        if let Some(v) = &self.tag {
            out.push((FilterField::Tags, v.clone()));
        }
        let ghost one = out@.map_values(view);
        if let Some(v) = &self.item_type {
            out.push((FilterField::ItemType, v.clone()));
            assert(out@.map_values(view) =~= one.push((FilterField::ItemType, v@)));
        }
        let ghost two = out@.map_values(view);
        if let Some(v) = &self.collection {
            out.push((FilterField::Collections, v.clone()));
            assert(out@.map_values(view) =~= two.push((FilterField::Collections, v@)));
        }
        assert(one =~= match self.tag {
            Some(v) => seq![(FilterField::Tags, v@)],
            None => Seq::empty(),
        });
        out
    }
}

} // verus!
