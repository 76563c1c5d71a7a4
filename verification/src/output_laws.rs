//! What the text shown to people holds of every row.
use crate::api::request_laws::lemma_stands_longer;
use crate::api::request_laws::stands_in;
use crate::output::author_rows;
use crate::output::collection_rows;
use crate::output::find_rows;
use crate::output::issue_rows;
use crate::output::one_line;
use crate::output::padded;
use crate::output::search_rows;
use crate::output::shortened;
use crate::output::tag_rows;
use crate::output::unfiled_rows;
use crate::output::CollectionOutput;
use crate::output::FindResultOutput;
use crate::output::IndexIssueOutput;
use crate::output::SearchResultOutput;
use crate::output::TagOutput;
use crate::output::UnfiledItemOutput;
use crate::text::decimal;
use vstd::prelude::*;

verus! {

/// A text that is too long is cut to its first characters and marked so; any other is shown whole.
pub proof fn law_shortened_text(s: Seq<char>, max: int)
    requires
        max >= 0,
    ensures
        s.len() <= max ==> shortened(s, max) == s,
        s.len() > max ==> shortened(s, max) == s.subrange(0, max) + "..."@,
{
    if s.len() > max {
        assert(s.take(max) =~= s.subrange(0, max));
    }
}

/// Padding adds spaces behind a text and takes nothing away.
pub proof fn law_padded_text(s: Seq<char>, width: nat)
    ensures
        s.is_prefix_of(padded(s, width)),
        padded(s, width).len() == if s.len() < width {
            width
        } else {
            s.len()
        },
        forall|i: int| s.len() <= i < padded(s, width).len() ==> #[trigger] padded(s, width)[i] == ' ',
{
    assert(padded(s, width).subrange(0, s.len() as int) =~= s);
}

proof fn lemma_part_at(whole: Seq<char>, part: Seq<char>, at: int)
    requires
        0 <= at,
        at + part.len() <= whole.len(),
        whole.subrange(at, at + part.len()) == part,
    ensures
        stands_in(part, whole),
{
}

/// A text that another starts with is the start of whatever is added to it too.
proof fn lemma_grows(a: Seq<char>, b: Seq<char>, x: Seq<char>)
    requires
        a.is_prefix_of(b),
    ensures
        a.is_prefix_of(b + x),
{
    assert((b + x).subrange(0, a.len() as int) =~= b.subrange(0, a.len() as int));
}

proof fn lemma_is_own_start(a: Seq<char>)
    ensures
        a.is_prefix_of(a),
{
    assert(a.subrange(0, a.len() as int) =~= a);
}

/// Every result of a search is shown with its number, its key and its title.
pub proof fn law_search_rows(o: Seq<char>, rows: Seq<SearchResultOutput>, n: int, i: int)
    requires
        0 <= i < n <= rows.len(),
    ensures
        stands_in(
            decimal((i + 1) as nat) + ". ["@ + rows[i].key@ + "] "@ + rows[i].title@,
            search_rows(o, rows, n),
        ),
    decreases n,
{
    let before = search_rows(o, rows, n - 1);
    let all = search_rows(o, rows, n);
    let part = decimal((i + 1) as nat) + ". ["@ + rows[i].key@ + "] "@ + rows[i].title@;
    lemma_search_row(o, rows, n);
    let line = before + "\n"@ + decimal(n as nat) + ". ["@ + rows[n - 1].key@ + "] "@ + rows[n
        - 1].title@;
    if i < n - 1 {
        law_search_rows(o, rows, n - 1, i);
        assert(line.subrange(0, before.len() as int) =~= before);
        lemma_stands_longer(part, before, line);
    } else {
        let at = (before + "\n"@).len() as int;
        assert(line.subrange(at, at + part.len()) =~= part);
        lemma_part_at(line, part, at);
    }
    lemma_stands_longer(part, line, all);
}

/// What a row of the search results starts with.
proof fn lemma_search_row(o: Seq<char>, rows: Seq<SearchResultOutput>, n: int)
    requires
        0 < n <= rows.len(),
    ensures
        (search_rows(o, rows, n - 1) + "\n"@ + decimal(n as nat) + ". ["@ + rows[n - 1].key@
            + "] "@ + rows[n - 1].title@).is_prefix_of(search_rows(o, rows, n)),
{
    let r = rows[n - 1];
    let c = search_rows(o, rows, n - 1) + "\n"@ + decimal(n as nat) + ". ["@ + r.key@ + "] "@
        + r.title@;
    lemma_is_own_start(c);
    let e0 = c + " (score: "@;
    lemma_grows(c, c, " (score: "@);
    let e1 = e0 + r.score@;
    lemma_grows(c, e0, r.score@);
    let e2 = e1 + ")\n   "@;
    lemma_grows(c, e1, ")\n   "@);
    let e3 = e2 + r.creators@;
    lemma_grows(c, e2, r.creators@);
    let e4 = e3 + " | "@;
    lemma_grows(c, e3, " | "@);
    let e5 = e4 + r.date@;
    lemma_grows(c, e4, r.date@);
    let e6 = e5 + " | "@;
    lemma_grows(c, e5, " | "@);
    let e7 = e6 + r.item_type@;
    lemma_grows(c, e6, r.item_type@);
    let e8 = e7 + "\n"@;
    lemma_grows(c, e7, "\n"@);
    let f = if r.snippet@.len() > 0 {
        let g = e8 + "   > "@ + one_line(shortened(r.snippet@, 200));
        lemma_grows(c, e8, "   > "@);
        lemma_grows(c, e8 + "   > "@, one_line(shortened(r.snippet@, 200)));
        lemma_grows(c, g, "\n"@);
        g + "\n"@
    } else {
        e8
    };
    if r.chunk_type@ == "fulltext"@ {
        let h0 = f + "   chars "@;
        lemma_grows(c, f, "   chars "@);
        let h1 = h0 + decimal(r.char_start as nat);
        lemma_grows(c, h0, decimal(r.char_start as nat));
        let h2 = h1 + "-"@;
        lemma_grows(c, h1, "-"@);
        let h3 = h2 + decimal(r.char_end as nat);
        lemma_grows(c, h2, decimal(r.char_end as nat));
        lemma_grows(c, h3, "\n"@);
    }
}

/// Every item that is found is shown with its number, its key and its title.
#[verifier::rlimit(60)]
pub proof fn law_find_rows(o: Seq<char>, rows: Seq<FindResultOutput>, n: int, i: int)
    requires
        0 <= i < n <= rows.len(),
    ensures
        stands_in(
            decimal((i + 1) as nat) + ". ["@ + rows[i].key@ + "] "@ + rows[i].title@,
            find_rows(o, rows, n),
        ),
    decreases n,
{
    let before = find_rows(o, rows, n - 1);
    let all = find_rows(o, rows, n);
    let r = rows[i];
    let part = decimal((i + 1) as nat) + ". ["@ + r.key@ + "] "@ + r.title@;
    if i < n - 1 {
        law_find_rows(o, rows, n - 1, i);
        assert(all.subrange(0, before.len() as int) =~= before);
        lemma_stands_longer(part, before, all);
    } else {
        let at = (before + "\n"@).len() as int;
        assert(all.subrange(at, at + part.len()) =~= part);
        lemma_part_at(all, part, at);
    }
}

/// Every tag is shown with the number of its items.
pub proof fn law_tag_rows(o: Seq<char>, rows: Seq<TagOutput>, n: int, i: int)
    requires
        0 <= i < n <= rows.len(),
    ensures
        stands_in(
            "  "@ + rows[i].tag@ + " ("@ + decimal(rows[i].num_items as nat) + ")\n"@,
            tag_rows(o, rows, n),
        ),
    decreases n,
{
    let before = tag_rows(o, rows, n - 1);
    let all = tag_rows(o, rows, n);
    let part = "  "@ + rows[i].tag@ + " ("@ + decimal(rows[i].num_items as nat) + ")\n"@;
    if i < n - 1 {
        law_tag_rows(o, rows, n - 1, i);
        assert(all.subrange(0, before.len() as int) =~= before);
        lemma_stands_longer(part, before, all);
    } else {
        let at = before.len() as int;
        assert(all.subrange(at, at + part.len()) =~= part);
        lemma_part_at(all, part, at);
    }
}

/// Every author is shown on a line.
pub proof fn law_author_rows(o: Seq<char>, rows: Seq<String>, n: int, i: int)
    requires
        0 <= i < n <= rows.len(),
    ensures
        stands_in("  "@ + rows[i]@ + "\n"@, author_rows(o, rows, n)),
    decreases n,
{
    let before = author_rows(o, rows, n - 1);
    let all = author_rows(o, rows, n);
    let part = "  "@ + rows[i]@ + "\n"@;
    if i < n - 1 {
        law_author_rows(o, rows, n - 1, i);
        assert(all.subrange(0, before.len() as int) =~= before);
        lemma_stands_longer(part, before, all);
    } else {
        let at = before.len() as int;
        assert(all.subrange(at, at + part.len()) =~= part);
        lemma_part_at(all, part, at);
    }
}

/// Every collection is shown with its name and its key, and with its two counts.
pub proof fn law_collection_rows(
    o: Seq<char>,
    rows: Seq<CollectionOutput>,
    n: int,
    flat: bool,
    ids: bool,
    i: int,
)
    requires
        0 <= i < n <= rows.len(),
    ensures
        stands_in(rows[i].name@ + " ["@ + rows[i].key@, collection_rows(o, rows, n, flat, ids)),
        stands_in(
            "] "@ + decimal(rows[i].count_direct as nat) + " direct, "@ + decimal(
                rows[i].count_tree as nat,
            ) + " total\n"@,
            collection_rows(o, rows, n, flat, ids),
        ),
    decreases n,
{
    let before = collection_rows(o, rows, n - 1, flat, ids);
    let all = collection_rows(o, rows, n, flat, ids);
    let r = rows[n - 1];
    let o2 = collection_start(before, r, flat);
    let o3 = o2 + r.name@ + " ["@ + r.key@;
    let o4 = collection_marked(o3, r, ids);
    let counts = "] "@ + decimal(r.count_direct as nat) + " direct, "@ + decimal(
        r.count_tree as nat,
    ) + " total\n"@;
    assert(all =~= o4 + counts);
    lemma_is_own_start(o4);
    lemma_grows(o4, o4, counts);
    assert(o4.subrange(0, o3.len() as int) =~= o3);
    assert(o3.subrange(0, o2.len() as int) =~= o2);
    assert(o2.subrange(0, before.len() as int) =~= before);
    if i < n - 1 {
        law_collection_rows(o, rows, n - 1, flat, ids, i);
        let part = rows[i].name@ + " ["@ + rows[i].key@;
        let mine = "] "@ + decimal(rows[i].count_direct as nat) + " direct, "@ + decimal(
            rows[i].count_tree as nat,
        ) + " total\n"@;
        lemma_stands_longer(part, before, o2);
        lemma_stands_longer(part, o2, o3);
        lemma_stands_longer(part, o3, o4);
        lemma_stands_longer(part, o4, all);
        lemma_stands_longer(mine, before, o2);
        lemma_stands_longer(mine, o2, o3);
        lemma_stands_longer(mine, o3, o4);
        lemma_stands_longer(mine, o4, all);
    } else {
        let part = r.name@ + " ["@ + r.key@;
        let at = o2.len() as int;
        assert(o3.subrange(at, at + part.len()) =~= part);
        lemma_part_at(o3, part, at);
        lemma_stands_longer(part, o3, o4);
        lemma_stands_longer(part, o4, all);
        let end = o4.len() as int;
        assert(all.subrange(end, end + counts.len()) =~= counts);
        lemma_part_at(all, counts, end);
    }
}

/// A row of the collection listing up to its name.
spec fn collection_start(before: Seq<char>, r: CollectionOutput, flat: bool) -> Seq<char> {
    if !flat {
        before + "  "@ + crate::output::spaces(2 * r.depth as nat)
    } else {
        before + "  "@
    }
}

/// A row of the collection listing up to its tree-view ID.
spec fn collection_marked(o: Seq<char>, r: CollectionOutput, ids: bool) -> Seq<char> {
    if ids {
        match r.tree_id {
            Some(id) => o + " "@ + id@,
            None => o + " "@ + "-"@,
        }
    } else {
        o
    }
}

/// Every unfiled item is shown with its key.
pub proof fn law_unfiled_rows(o: Seq<char>, rows: Seq<UnfiledItemOutput>, n: int, i: int)
    requires
        0 <= i < n <= rows.len(),
    ensures
        stands_in(
            "  ["@ + rows[i].key@ + "] "@ + padded(rows[i].item_type@, 16) + " "@ + shortened(
                rows[i].title@,
                70,
            ) + "\n"@,
            unfiled_rows(o, rows, n),
        ),
    decreases n,
{
    let before = unfiled_rows(o, rows, n - 1);
    let all = unfiled_rows(o, rows, n);
    let r = rows[i];
    let part = "  ["@ + r.key@ + "] "@ + padded(r.item_type@, 16) + " "@ + shortened(r.title@, 70)
        + "\n"@;
    if i < n - 1 {
        law_unfiled_rows(o, rows, n - 1, i);
        assert(all.subrange(0, before.len() as int) =~= before);
        lemma_stands_longer(part, before, all);
    } else {
        let at = before.len() as int;
        assert(all.subrange(at, at + part.len()) =~= part);
        lemma_part_at(all, part, at);
    }
}

/// Every extraction problem is shown with its item and its status.
pub proof fn law_issue_rows(o: Seq<char>, rows: Seq<IndexIssueOutput>, n: int, i: int)
    requires
        0 <= i < n <= rows.len(),
    ensures
        stands_in(
            "\n["@ + rows[i].key@ + "] "@ + rows[i].title@ + "\n  status: "@ + rows[i].status@
                + "\n"@,
            issue_rows(o, rows, n),
        ),
    decreases n,
{
    let before = issue_rows(o, rows, n - 1);
    let all = issue_rows(o, rows, n);
    let r = rows[i];
    let part = "\n["@ + r.key@ + "] "@ + r.title@ + "\n  status: "@ + r.status@ + "\n"@;
    if i < n - 1 {
        law_issue_rows(o, rows, n - 1, i);
        assert(all.subrange(0, before.len() as int) =~= before);
        lemma_stands_longer(part, before, all);
    } else {
        let at = before.len() as int;
        assert(all.subrange(at, at + part.len()) =~= part);
        lemma_part_at(all, part, at);
    }
}

} // verus!
