//! `zot search`: the note on how fresh the index is, and the results.
use crate::failure::Failure;
use crate::index::documents::ChunkData;
use crate::index::store::SyncDiff;
use crate::output::ExportOutput;
use crate::output::SearchOutput;
use crate::output::SearchResultOutput;
use crate::text::concat5;
use crate::text::decimal;
use crate::text::decimal_text;
use vstd::prelude::*;

verus! {

/// Refuses to search an index without chunks.
pub fn check_index(chunk_count: usize) -> (r: Result<(), Failure>)
    ensures
        match r {
            Ok(_) => chunk_count > 0,
            Err(e) => chunk_count == 0 && e@ == "Index is empty. Run `zot index` first."@,
        },
{
    if chunk_count == 0 {
        return Err(Failure { message: "Index is empty. Run `zot index` first.".to_string() });
    }
    Ok(())
}

/// The note on how fresh the index is: none while it is in sync.
pub open spec fn note_of(diff: Option<(nat, nat)>) -> Option<Seq<char>> {
    match diff {
        None => Some("Note: Zotero not reachable -- cannot verify the index is up to date."@),
        Some((added, removed)) => if added == 0 && removed == 0 {
            None
        } else {
            Some(
                "Note: index may be out of date -- "@ + decimal(added) + " new/updated, "@
                    + decimal(removed)
                    + " removed since last sync. Run `zot index` to update."@,
            )
        },
    }
}

/// Builds the note on how fresh the index is. Without a diff, Zotero could not be reached.
pub fn sync_note(diff: Option<&SyncDiff>) -> (r: Option<String>)
    ensures
        crate::text::opt_text(r) == note_of(
            match diff {
                Some(d) => Some((d.to_add@.len(), d.to_delete@.len())),
                None => None,
            },
        ),
{
    let diff = match diff {
        Some(d) => d,
        None => {
            return Some(
                "Note: Zotero not reachable -- cannot verify the index is up to date.".to_string(),
            );
        },
    };
    if !diff.is_stale() {
        return None;
    }
    let added = decimal_text(diff.to_add.len() as u64);
    let removed = decimal_text(diff.to_delete.len() as u64);
    Some(
        concat5(
            "Note: index may be out of date -- ",
            added.as_str(),
            " new/updated, ",
            removed.as_str(),
            " removed since last sync. Run `zot index` to update.",
        ),
    )
}

/// Whether a row shows a chunk with a score.
pub open spec fn shows(row: SearchResultOutput, chunk: ChunkData, score: Seq<char>) -> bool {
    &&& row.key@ == chunk.item_key@
    &&& row.title@ == chunk.title@
    &&& row.item_type@ == chunk.item_type@
    &&& row.creators@ == chunk.creators@
    &&& row.date@ == chunk.date@
    &&& row.score@ == score
    &&& row.snippet@ == chunk.text@
    &&& row.char_start == chunk.char_start
    &&& row.char_end == chunk.char_end
    &&& row.chunk_type@ == chunk.chunk_type@
}

/// What is answered to a search: its results in order, each with its score.
pub fn search_output(
    query: &str,
    hits: &[(ChunkData, String)],
    note: Option<String>,
    export: Option<ExportOutput>,
) -> (r: SearchOutput)
    ensures
        r.query@ == query@,
        r.result_count == hits@.len(),
        r.results@.len() == hits@.len(),
        forall|i: int|
            0 <= i < hits@.len() ==> shows(#[trigger] r.results@[i], hits@[i].0, hits@[i].1@),
        r.note == note,
        r.export == export,
{
    let mut results: Vec<SearchResultOutput> = Vec::new();
    let mut i: usize = 0;
    while i < hits.len()
        invariant
            i <= hits.len(),
            results@.len() == i,
            forall|k: int|
                0 <= k < i ==> shows(#[trigger] results@[k], hits@[k].0, hits@[k].1@),
        decreases hits.len() - i,
    {
        let chunk = &hits[i].0;
        results.push(
            SearchResultOutput {
                key: chunk.item_key.clone(),
                title: chunk.title.clone(),
                item_type: chunk.item_type.clone(),
                creators: chunk.creators.clone(),
                date: chunk.date.clone(),
                score: hits[i].1.clone(),
                snippet: chunk.text.clone(),
                char_start: chunk.char_start,
                char_end: chunk.char_end,
                chunk_type: chunk.chunk_type.clone(),
            },
        );
        i += 1;
    }
    SearchOutput { query: query.to_string(), result_count: hits.len(), results, note, export }
}

} // verus!
