//! What a slice of a fulltext holds, and which items are listed as unfiled.
use crate::api::models::ZoteroItem;
use crate::commands::fulltext_cmd::filable;
use crate::commands::fulltext_cmd::items_where;
use crate::commands::fulltext_cmd::part;
use crate::commands::fulltext_cmd::stray;
use crate::commands::fulltext_cmd::window;
use vstd::prelude::*;

verus! {

/// The text of a slice is exactly the characters from the start that is reported up to the end.
pub proof fn law_slice_is_its_range(
    s: Seq<char>,
    start: Option<usize>,
    end: Option<usize>,
    max_chars: Option<usize>,
)
    ensures
        ({
            let (from, to) = window(s.len() as int, start, end, max_chars);
            let text = part(s, from, to);
            &&& from <= to ==> text.len() == to - from
            &&& to <= from ==> text.len() == 0
            &&& forall|i: int| 0 <= i < text.len() ==> #[trigger] text[i] == s[from + i]
        }),
{
}

/// A slice stays within what is asked for and within the text: it starts where it was asked to,
/// ends no later than it was asked to, and has no more characters than the maximum.
pub proof fn law_slice_is_what_was_asked_for(
    total: int,
    start: Option<usize>,
    end: Option<usize>,
    max_chars: Option<usize>,
)
    requires
        total >= 0,
    ensures
        ({
            let (from, to) = window(total, start, end, max_chars);
            &&& 0 <= from <= total && to <= total
            &&& start is Some && start.unwrap() <= total ==> from == start.unwrap()
            &&& start is Some && start.unwrap() > total ==> from == total
            &&& start is None ==> from == 0
            &&& end is Some ==> to <= end.unwrap()
            &&& max_chars is Some ==> to - from <= max_chars.unwrap()
        }),
{
}

/// Nothing that is asked for is left out: a slice ends where it was asked to or where the text does,
/// unless the maximum ends it first, and then it has exactly that many characters.
pub proof fn law_slice_leaves_nothing_out(
    total: int,
    start: Option<usize>,
    end: Option<usize>,
    max_chars: Option<usize>,
)
    requires
        total >= 0,
    ensures
        ({
            let (from, to) = window(total, start, end, max_chars);
            let wanted = match end {
                Some(e) => if e <= total {
                    e as int
                } else {
                    total
                },
                None => total,
            };
            to == wanted || (max_chars is Some && to - from == max_chars.unwrap() && to < wanted)
        }),
{
}

/// With a start and an end within the text and no maximum, the slice is what lies between the two.
pub proof fn law_slice_between(s: Seq<char>, start: usize, end: usize)
    requires
        start <= end <= s.len(),
    ensures
        ({
            let (from, to) = window(s.len() as int, Some(start), Some(end), None);
            &&& from == start && to == end
            &&& part(s, from, to) == s.subrange(start as int, end as int)
        }),
{
    assert(part(s, start as int, end as int) =~= s.subrange(start as int, end as int));
}

/// Without any bounds the slice is the whole text.
pub proof fn law_unbounded_slice_is_everything(s: Seq<char>)
    ensures
        ({
            let (from, to) = window(s.len() as int, None, None, None);
            &&& from == 0 && to == s.len()
            &&& part(s, from, to) == s
        }),
{
    assert(part(s, 0, s.len() as int) =~= s);
}

/// Slices that follow on each other make up the slice from the first to the last.
pub proof fn law_slices_join(s: Seq<char>, a: usize, b: usize, c: usize)
    requires
        a <= b <= c <= s.len(),
    ensures
        part(s, a as int, b as int) + part(s, b as int, c as int) == part(s, a as int, c as int),
{
    assert(part(s, a as int, b as int) + part(s, b as int, c as int) =~= part(
        s,
        a as int,
        c as int,
    ));
}

/// Picking items keeps their order and takes exactly those that satisfy the condition.
proof fn lemma_items_where(items: Seq<ZoteroItem>, keep: spec_fn(ZoteroItem) -> bool)
    ensures
        forall|k: int|
            0 <= k < items_where(items, keep).len() ==> keep(
                #[trigger] items_where(items, keep)[k],
            ) && items.contains(items_where(items, keep)[k]),
        forall|i: int|
            0 <= i < items.len() && keep(#[trigger] items[i]) ==> items_where(
                items,
                keep,
            ).contains(items[i]),
        items_where(items, keep).len() <= items.len(),
    decreases items.len(),
{
    if items.len() > 0 {
        let t = items.drop_last();
        lemma_items_where(t, keep);
        let head = items_where(t, keep);
        let all = items_where(items, keep);
        assert(items[items.len() - 1] == items.last());
        assert forall|k: int| 0 <= k < all.len() implies keep(#[trigger] all[k])
            && items.contains(all[k]) by {
            if k < head.len() {
                assert(all[k] == head[k]);
                let j = choose|j: int| 0 <= j < t.len() && t[j] == head[k];
                assert(items[j] == head[k]);
            }
        }
        assert forall|i: int| 0 <= i < items.len() && keep(#[trigger] items[i]) implies all.contains(
            items[i],
        ) by {
            if i < t.len() {
                assert(t[i] == items[i]);
                assert(head.contains(t[i]));
                let j = choose|j: int| 0 <= j < head.len() && head[j] == t[i];
                assert(all[j] == items[i]);
            } else {
                assert(all[all.len() - 1] == items[i]);
            }
        }
    }
}

/// An item is listed as unfiled exactly where it is in no collection, has no parent item and is a
/// work; it is listed as stray exactly where it is in no collection, has no parent item and is an
/// attachment or a note.
pub proof fn law_unfiled_lists(items: Seq<ZoteroItem>, i: int)
    requires
        0 <= i < items.len(),
    ensures
        ({
            let item = items[i];
            let kind = item.data.item_type@;
            let loose = item.data.collections@.len() == 0 && item.data.parent_item@.len() == 0;
            let file = items_where(items, |i: ZoteroItem| filable(i));
            let clean = items_where(items, |i: ZoteroItem| stray(i));
            &&& file.contains(item) <==> loose && kind != "attachment"@ && kind != "note"@ && kind
                != "annotation"@
            &&& clean.contains(item) <==> loose && (kind == "attachment"@ || kind == "note"@)
        }),
{
    let item = items[i];
    let keep = |i: ZoteroItem| filable(i);
    let clean = |i: ZoteroItem| stray(i);
    lemma_items_where(items, keep);
    lemma_items_where(items, clean);
    reveal_strlit("attachment");
    reveal_strlit("note");
    reveal_strlit("annotation");
    let a = items_where(items, keep);
    let b = items_where(items, clean);
    if a.contains(item) {
        let k = choose|k: int| 0 <= k < a.len() && a[k] == item;
        assert(keep(a[k]));
    }
    if b.contains(item) {
        let k = choose|k: int| 0 <= k < b.len() && b[k] == item;
        assert(clean(b[k]));
    }
    if keep(items[i]) {
        assert(a.contains(items[i]));
    }
    if clean(items[i]) {
        assert(b.contains(items[i]));
    }
    assert("attachment"@ != "note"@ && "attachment"@ != "annotation"@ && "note"@ != "annotation"@)
        by {
        assert("attachment"@[1] != "note"@[1]);
        assert("attachment"@[1] != "annotation"@[1]);
        assert("note"@[0] != "annotation"@[0]);
    }
}

} // verus!
