//! `zot fulltext` and `zot unfiled`.
use crate::api::models::ZoteroItem;
use crate::failure::Failure;
use crate::output::FulltextOutput;
use crate::output::UnfiledItemOutput;
use crate::output::UnfiledOutput;
use crate::text::chars_of;
use crate::text::concat3;
use crate::text::decimal;
use crate::text::is_empty;
use crate::text::push_decimal;
use crate::text::string_of;
use vstd::prelude::*;
use vstd::slice::slice_subrange;

verus! {

/// The smaller of two numbers.
pub open spec fn smaller(a: int, b: int) -> int {
    if a < b {
        a
    } else {
        b
    }
}

/// The window of a text that is asked for, in characters: from where up to where.
pub open spec fn window(
    total: int,
    start: Option<usize>,
    end: Option<usize>,
    max_chars: Option<usize>,
) -> (int, int) {
    let from = smaller(
        match start {
            Some(s) => s as int,
            None => 0,
        },
        total,
    );
    let to = smaller(
        match end {
            Some(e) => e as int,
            None => total,
        },
        total,
    );
    (
        from,
        match max_chars {
            Some(m) => smaller(to, from + m),
            None => to,
        },
    )
}

/// A part of a text by characters; empty where the end is not behind the start.
pub open spec fn part(s: Seq<char>, start: int, end: int) -> Seq<char> {
    let to = smaller(end, s.len() as int);
    if start < to {
        s.subrange(start, to)
    } else {
        Seq::empty()
    }
}

/// Character-indexed substring `[start, end)`, safe on multibyte text.
pub fn char_slice(s: &str, start: usize, end: usize) -> (r: String)
    ensures
        r@ == part(s@, start as int, end as int),
{
    let chars = chars_of(s);
    let to: usize = if end < chars.len() {
        end
    } else {
        chars.len()
    };
    if start < to {
        string_of(slice_subrange(chars.as_slice(), start, to))
    } else {
        String::new()
    }
}

/// The error for an item that has no stored fulltext.
pub fn no_fulltext(key: &str) -> (r: Failure)
    ensures
        r@ == "No fulltext found for item "@ + key@ + ". Is it indexed?"@,
{
    Failure { message: concat3("No fulltext found for item ", key, ". Is it indexed?") }
}

/// Cuts the window that is asked for out of an item's fulltext. Offsets are character positions,
/// matching those that the chunks carry.
pub fn fulltext_output(
    key: &str,
    title: &str,
    fulltext: &str,
    start: Option<usize>,
    end: Option<usize>,
    max_chars: Option<usize>,
) -> (r: Result<FulltextOutput, Failure>)
    ensures
        ({
            let total = fulltext@.len() as int;
            let (from, to) = window(total, start, end, max_chars);
            match r {
                Ok(out) => {
                    &&& from < total
                    &&& out.key@ == key@
                    &&& out.title@ == title@
                    &&& out.total_chars == total
                    &&& out.start == from
                    &&& out.end == to
                    &&& out.text@ == part(fulltext@, from, to)
                },
                Err(e) => {
                    &&& from >= total
                    &&& e@ == "Start position "@ + decimal(from as nat)
                        + " exceeds fulltext length "@ + decimal(total as nat)
                },
            }
        }),
{
    let total: usize = chars_of(fulltext).len();
    let asked: usize = match start {
        Some(s) => s,
        None => 0,
    };
    let from: usize = if asked < total {
        asked
    } else {
        total
    };
    let wanted: usize = match end {
        Some(e) => e,
        None => total,
    };
    let mut to: usize = if wanted < total {
        wanted
    } else {
        total
    };
    if let Some(max) = max_chars {
        if to >= from && max < to - from {
            to = from + max;
        }
    }
    if from >= total {
        let mut message = "Start position ".to_string();
        push_decimal(&mut message, from as u64);
        message.push_str(" exceeds fulltext length ");
        push_decimal(&mut message, total as u64);
        return Err(Failure { message });
    }
    Ok(
        FulltextOutput {
            key: key.to_string(),
            title: title.to_string(),
            total_chars: total,
            start: from,
            end: to,
            text: char_slice(fulltext, from, to),
        },
    )
}

/// True for an item that belongs to no collection.
///
/// Says nothing about the item's type: an unfiled item may be a paper to file or a stray file to
/// clean up.
pub fn is_unfiled(item: &ZoteroItem) -> (r: bool)
    ensures
        r == (item.data.collections@.len() == 0),
{
    item.data.collections.len() == 0
}

/// An unfiled top-level item worth filing.
pub open spec fn filable(item: ZoteroItem) -> bool {
    item.data.collections@.len() == 0 && item.data.parent_item@.len() == 0 && item.regular()
}

/// An unfiled top-level attachment or note.
pub open spec fn stray(item: ZoteroItem) -> bool {
    item.data.collections@.len() == 0 && (item.lone_attachment() || item.lone_note())
}

/// The items among some that satisfy a condition.
pub open spec fn items_where(items: Seq<ZoteroItem>, keep: spec_fn(ZoteroItem) -> bool) -> Seq<
    ZoteroItem,
>
    decreases items.len(),
{
    if items.len() == 0 {
        Seq::empty()
    } else if keep(items.last()) {
        items_where(items.drop_last(), keep).push(items.last())
    } else {
        items_where(items.drop_last(), keep)
    }
}

/// The items that some references stand for.
pub open spec fn targets_of(v: Seq<&ZoteroItem>) -> Seq<ZoteroItem> {
    v.map_values(|i: &ZoteroItem| *i)
}

/// Splits the unfiled items into the ones worth filing and the stray top-level attachments and
/// notes.
///
/// Anything with a parent item falls out of both lists: a child attachment is filed with its parent
/// and has no collection membership of its own, so reporting it as unfiled would be noise.
pub fn partition_unfiled(items: &[ZoteroItem]) -> (r: (Vec<&ZoteroItem>, Vec<&ZoteroItem>))
    ensures
        targets_of(r.0@) == items_where(items@, |i: ZoteroItem| filable(i)),
        targets_of(r.1@) == items_where(items@, |i: ZoteroItem| stray(i)),
{
    let ghost keep = |i: ZoteroItem| filable(i);
    let ghost strays = |i: ZoteroItem| stray(i);
    let mut a: Vec<&ZoteroItem> = Vec::new();
    let mut b: Vec<&ZoteroItem> = Vec::new();
    let mut i: usize = 0;
    assert(targets_of(a@) =~= Seq::empty());
    assert(targets_of(b@) =~= Seq::empty());
    while i < items.len()
        invariant
            i <= items.len(),
            keep == (|i: ZoteroItem| filable(i)),
            strays == (|i: ZoteroItem| stray(i)),
            targets_of(a@) == items_where(items@.take(i as int), keep),
            targets_of(b@) == items_where(items@.take(i as int), strays),
        decreases items.len() - i,
    {
        assert(items@.take(i as int + 1).drop_last() =~= items@.take(i as int));
        let item = &items[i];
        if is_unfiled(item) {
            if item.is_regular_item() {
                if is_empty(item.data.parent_item.as_str()) {
                    let ghost before = targets_of(a@);
                    a.push(item);
                    assert(targets_of(a@) =~= before.push(*item));
                }
            } else if item.is_standalone_attachment() || item.is_standalone_note() {
                let ghost before = targets_of(b@);
                b.push(item);
                assert(targets_of(b@) =~= before.push(*item));
            }
        }
        i += 1;
    }
    assert(items@.take(items@.len() as int) =~= items@);
    (a, b)
}

/// An unfiled item as it is listed.
pub open spec fn is_unfiled_row(row: UnfiledItemOutput, item: ZoteroItem) -> bool {
    row.key@ == item.key@ && row.item_type@ == item.data.item_type@ && row.title@
        == item.data.title@
}

/// Whether a listing holds these items.
pub open spec fn lists(rows: Seq<UnfiledItemOutput>, items: Seq<ZoteroItem>) -> bool {
    rows.len() == items.len() && forall|i: int|
        0 <= i < rows.len() ==> is_unfiled_row(#[trigger] rows[i], items[i])
}

fn rows_of(items: &[&ZoteroItem]) -> (r: Vec<UnfiledItemOutput>)
    ensures
        lists(r@, targets_of(items@)),
{
    let mut out: Vec<UnfiledItemOutput> = Vec::new();
    let mut i: usize = 0;
    while i < items.len()
        invariant
            i <= items.len(),
            out@.len() == i,
            forall|k: int|
                0 <= k < i ==> is_unfiled_row(#[trigger] out@[k], targets_of(items@)[k]),
        decreases items.len() - i,
    {
        let item = items[i];
        out.push(
            UnfiledItemOutput {
                key: item.key.clone(),
                item_type: item.data.item_type.clone(),
                title: item.data.title.clone(),
            },
        );
        i += 1;
    }
    out
}

/// Classifies the items and shapes the report, `count` deciding whether the two listings are
/// carried at all.
pub fn build_output(items: &[ZoteroItem], count: bool) -> (r: UnfiledOutput)
    ensures
        ({
            let file = items_where(items@, |i: ZoteroItem| filable(i));
            let clean = items_where(items@, |i: ZoteroItem| stray(i));
            &&& r.count == file.len()
            &&& r.stray_count == clean.len()
            &&& if count {
                r.items is None && r.stray is None
            } else {
                r.items is Some && lists(r.items.unwrap()@, file) && r.stray is Some && lists(
                    r.stray.unwrap()@,
                    clean,
                )
            }
        }),
{
    let (file, clean) = partition_unfiled(items);
    assert(targets_of(file@).len() == file@.len());
    assert(targets_of(clean@).len() == clean@.len());
    UnfiledOutput {
        count: file.len(),
        stray_count: clean.len(),
        items: if count {
            None
        } else {
            Some(rows_of(&file))
        },
        stray: if count {
            None
        } else {
            Some(rows_of(&clean))
        },
    }
}

/// No item is in both lists, and neither holds a filed item or one with a parent. An unfiled
/// top-level item that is no annotation is in one of them.
pub proof fn law_unfiled_lists_are_apart(item: ZoteroItem)
    ensures
        !(filable(item) && stray(item)),
        (filable(item) || stray(item)) ==> item.data.parent_item@.len() == 0,
        (filable(item) || stray(item)) ==> item.data.collections@.len() == 0,
        item.data.collections@.len() == 0 && item.data.parent_item@.len() == 0
            && item.data.item_type@ != "annotation"@ ==> filable(item) || stray(item),
{
}

} // verus!
