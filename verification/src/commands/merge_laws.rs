//! What holds of merged bibliographies.
use crate::commands::bibtex_fields::brace_state;
use crate::commands::bibtex_fields::braces;
use crate::commands::bibtex_fields::entry_state;
use crate::commands::bibtex_fields::lemma_flat_push;
use crate::commands::bibtex_fields::lemma_pieces_newline_ended;
use crate::commands::bibtex_fields::lemma_pieces_of_flat;
use crate::commands::bibtex_fields::newline_ended;
use crate::commands::bibtex_shape::bare;
use crate::commands::bibtex_shape::lemma_bare;
use crate::commands::bibtex_shape::lemma_lines_bare;
use crate::commands::export_cmd::body_parts;
use crate::commands::export_cmd::csl_items;
use crate::commands::export_cmd::entries_in;
use crate::commands::export_cmd::entries_in_all;
use crate::commands::export_cmd::merged;
use crate::commands::export_cmd::past_newlines;
use crate::commands::export_cmd::ris_records;
use crate::commands::export_cmd::up_to_newlines;
use crate::commands::export_cmd::ExportFormat;
use crate::json::is_item_at;
use crate::json::json_list_parsed;
use crate::json::reads_as_list_of;
use crate::json::was_read;
use crate::json::were_read;
use crate::lines::flat;
use crate::lines::joined;
use crate::lines::lemma_pieces_flat;
use crate::lines::lines_of;
use crate::lines::pieces_of;
use crate::text::index_of;
use crate::text::trimmed;
use vstd::prelude::*;

verus! {

/// Bodies that can be merged without one running into the next: a BibTeX body closes every brace
/// that it opens.
pub open spec fn bodies_close(bodies: Seq<Seq<char>>, format: ExportFormat) -> bool {
    format == ExportFormat::Bibtex ==> forall|i: int|
        0 <= i < bodies.len() ==> entry_state(lines_of(#[trigger] bodies[i])).0 == 0
}

/// How a line changes the brace depth, where the format has one.
spec fn change(format: ExportFormat, line: Seq<char>) -> int {
    if format == ExportFormat::Bibtex {
        braces(line)
    } else {
        0
    }
}

/// Whether a line opens an entry.
spec fn opens(format: ExportFormat, line: Seq<char>) -> bool {
    if format == ExportFormat::Bibtex {
        line.len() > 0 && line[0] == '@'
    } else {
        "TY  - "@.is_prefix_of(line)
    }
}

/// The depth and the number of entries after some lines.
spec fn tally(format: ExportFormat, l: Seq<Seq<char>>) -> (int, nat)
    decreases l.len(),
{
    if l.len() == 0 {
        (0, 0)
    } else {
        let (depth, count) = tally(format, l.drop_last());
        (
            depth + change(format, l.last()),
            if depth <= 0 && opens(format, l.last()) {
                count + 1
            } else {
                count
            },
        )
    }
}

proof fn lemma_tally(format: ExportFormat, l: Seq<Seq<char>>)
    ensures
        format == ExportFormat::Bibtex ==> tally(format, l) == entry_state(l),
        format == ExportFormat::Ris ==> tally(format, l) == (0int, ris_records(l)),
    decreases l.len(),
{
    if l.len() > 0 {
        lemma_tally(format, l.drop_last());
    }
}

/// The depth and the number of entries after a text.
spec fn text_tally(format: ExportFormat, s: Seq<char>) -> (int, nat) {
    tally(format, pieces_of(s))
}

proof fn lemma_tag()
    ensures
        "TY  - "@.len() == 6,
        "TY  - "@[5] == ' ',
        forall|i: int| 0 <= i < 6 ==> #[trigger] "TY  - "@[i] != '\n' && "TY  - "@[i] != '\r',
{
    reveal_strlit("TY  - ");
}

proof fn lemma_bare_line(format: ExportFormat, p: Seq<char>)
    ensures
        change(format, bare(p)) == change(format, p),
        opens(format, bare(p)) == opens(format, p),
{
    lemma_bare(p);
    lemma_tag();
    let tag = "TY  - "@;
    if tag.is_prefix_of(p) {
        assert(p.take(6) =~= tag);
        assert forall|i: int| 0 <= i < 6 implies #[trigger] p[i] == tag[i] by {
            assert(p.take(6)[i] == tag[i]);
        }
        assert(p[5] == ' ');
        assert(bare(p).len() >= 6);
        assert(bare(p).take(6) =~= tag);
    }
    if tag.is_prefix_of(bare(p)) {
        assert(bare(p).take(6) =~= tag);
        assert(p.take(6) =~= bare(p).take(6));
    }
}

proof fn lemma_tally_bare(format: ExportFormat, l: Seq<Seq<char>>, p: Seq<Seq<char>>)
    requires
        l.len() == p.len(),
        forall|i: int| 0 <= i < p.len() ==> l[i] == bare(#[trigger] p[i]),
    ensures
        tally(format, l) == tally(format, p),
    decreases p.len(),
{
    if p.len() > 0 {
        let q = p.drop_last();
        assert forall|i: int| 0 <= i < q.len() implies l.drop_last()[i] == bare(#[trigger] q[i]) by {
            assert(q[i] == p[i]);
        }
        lemma_tally_bare(format, l.drop_last(), q);
        assert(l[p.len() - 1] == bare(p[p.len() - 1]));
        lemma_bare_line(format, p.last());
    }
}

proof fn lemma_text_tally(format: ExportFormat, s: Seq<char>)
    ensures
        format == ExportFormat::Bibtex ==> text_tally(format, s) == entry_state(lines_of(s)),
        format == ExportFormat::Ris ==> text_tally(format, s) == (0int, ris_records(lines_of(s))),
{
    lemma_lines_bare(s);
    lemma_tally_bare(format, lines_of(s), pieces_of(s));
    lemma_tally(format, lines_of(s));
}

/// A newline behind a line changes neither.
proof fn lemma_newline_behind(format: ExportFormat, p: Seq<char>)
    ensures
        change(format, p.push('\n')) == change(format, p),
        opens(format, p.push('\n')) == opens(format, p),
        change(format, seq!['\n']) == 0,
        !opens(format, seq!['\n']),
{
    let q = p.push('\n');
    assert(q.drop_last() =~= p);
    assert(brace_state(q).0 == brace_state(p).0);
    assert(seq!['\n'].drop_last() =~= Seq::empty());
    reveal_with_fuel(brace_state, 2);
    assert(brace_state(seq!['\n']).0 == 0);
    lemma_tag();
    let tag = "TY  - "@;
    if tag.is_prefix_of(q) {
        assert(q.take(6) =~= tag);
        assert(q[5] == q.take(6)[5]);
        assert(p.take(6) =~= tag);
    }
    if tag.is_prefix_of(p) {
        assert(p.take(6) =~= tag);
        assert(q.take(6) =~= tag);
    }
}

proof fn lemma_tally_concat(format: ExportFormat, a: Seq<Seq<char>>, b: Seq<Seq<char>>)
    requires
        tally(format, a).0 == 0,
    ensures
        tally(format, a + b) == (tally(format, b).0, tally(format, a).1 + tally(format, b).1),
    decreases b.len(),
{
    if b.len() == 0 {
        assert(a + b =~= a);
    } else {
        lemma_tally_concat(format, a, b.drop_last());
        assert((a + b).drop_last() =~= a + b.drop_last());
        assert((a + b).last() == b.last());
    }
}

proof fn lemma_flat_concat(a: Seq<Seq<char>>, b: Seq<Seq<char>>)
    ensures
        flat(a + b) == flat(a) + flat(b),
    decreases b.len(),
{
    if b.len() == 0 {
        assert(a + b =~= a);
        assert(flat(a) + flat(b) =~= flat(a));
    } else {
        let t = b.drop_last();
        lemma_flat_concat(a, t);
        assert((a + t).push(b.last()) =~= a + b);
        assert(t.push(b.last()) =~= b);
        lemma_flat_push(a + t, b.last());
        lemma_flat_push(t, b.last());
        assert(flat(a + b) =~= flat(a) + flat(b));
    }
}

/// The last piece of a text ends as the text does.
proof fn lemma_last_piece(s: Seq<char>)
    requires
        s.len() > 0,
    ensures
        pieces_of(s).len() > 0,
        pieces_of(s).last().len() > 0,
        pieces_of(s).last().last() == s.last(),
{
    let l = pieces_of(s);
    lemma_pieces_flat(s);
    lemma_pieces_newline_ended(s);
    if l.len() == 0 {
        assert(flat(l) =~= Seq::empty());
    }
    assert(l[l.len() - 1].len() > 0);
    lemma_flat_push(l.drop_last(), l.last());
    assert(l.drop_last().push(l.last()) =~= l);
}

/// Text that starts on a line of its own is cut by itself.
proof fn lemma_pieces_concat(a: Seq<char>, b: Seq<char>)
    requires
        a.len() > 0,
        a.last() == '\n',
    ensures
        pieces_of(a + b) == pieces_of(a) + pieces_of(b),
{
    let x = pieces_of(a);
    let y = pieces_of(b);
    let all = x + y;
    lemma_pieces_newline_ended(a);
    lemma_pieces_newline_ended(b);
    lemma_pieces_flat(a);
    lemma_pieces_flat(b);
    lemma_last_piece(a);
    crate::text::lemma_index_of(x.last(), '\n');
    assert(newline_ended(all)) by {
        assert forall|i: int| 0 <= i < all.len() implies (#[trigger] all[i]).len() > 0 by {
            if i < x.len() {
                assert(all[i] == x[i]);
            } else {
                assert(all[i] == y[i - x.len()]);
            }
        }
        assert forall|i: int| 0 <= i < all.len() - 1 implies index_of(#[trigger] all[i], '\n')
            == all[i].len() - 1 by {
            if i < x.len() {
                assert(all[i] == x[i]);
            } else {
                assert(all[i] == y[i - x.len()]);
            }
        }
        if y.len() > 0 {
            assert(all.last() == y.last());
        } else {
            assert(all =~= x);
        }
    }
    lemma_flat_concat(x, y);
    lemma_pieces_of_flat(all);
}

proof fn lemma_newline_first(format: ExportFormat, s: Seq<char>)
    ensures
        text_tally(format, seq!['\n'] + s) == text_tally(format, s),
{
    let one = seq!['\n'];
    lemma_pieces_concat(one, s);
    lemma_one_newline(format);
    lemma_tally_concat(format, pieces_of(one), pieces_of(s));
}

proof fn lemma_one_newline(format: ExportFormat)
    ensures
        text_tally(format, seq!['\n']) == (0int, 0nat),
{
    let one = seq!['\n'];
    crate::text::lemma_index_of_is(one, '\n', 0);
    assert(one.take(1) =~= one);
    assert(one.skip(1) =~= Seq::empty());
    assert(pieces_of(one.skip(1)) =~= Seq::empty());
    assert(pieces_of(one) =~= seq![one]);
    lemma_newline_behind(format, Seq::empty());
    assert(seq![one].drop_last() =~= Seq::empty());
    assert(tally(format, Seq::empty()) == (0int, 0nat));
}

proof fn lemma_newline_last(format: ExportFormat, s: Seq<char>)
    ensures
        text_tally(format, s.push('\n')) == text_tally(format, s),
{
    let one = seq!['\n'];
    assert(s.push('\n') =~= s + one);
    if s.len() == 0 {
        assert(s + one =~= one);
        lemma_one_newline(format);
        assert(pieces_of(s) =~= Seq::empty());
        assert(tally(format, pieces_of(s)) == (0int, 0nat));
    } else if s.last() == '\n' {
        lemma_pieces_concat(s, one);
        crate::text::lemma_index_of_is(one, '\n', 0);
        assert(one.take(1) =~= one);
        assert(one.skip(1) =~= Seq::empty());
        assert(pieces_of(one.skip(1)) =~= Seq::empty());
        assert(pieces_of(one) =~= seq![one]);
        let l = pieces_of(s) + seq![one];
        assert(l.drop_last() =~= pieces_of(s));
        lemma_newline_behind(format, Seq::empty());
    } else {
        let l = pieces_of(s);
        let t = l.drop_last();
        let p = l.last();
        let q = p.push('\n');
        let all = t.push(q);
        lemma_pieces_flat(s);
        lemma_pieces_newline_ended(s);
        lemma_last_piece(s);
        crate::text::lemma_index_of(p, '\n');
        assert(l[l.len() - 1] == p);
        crate::text::lemma_index_of_is(q, '\n', p.len() as int);
        assert(newline_ended(all)) by {
            assert forall|i: int| 0 <= i < all.len() implies (#[trigger] all[i]).len() > 0 by {
                if i < t.len() {
                    assert(all[i] == l[i]);
                }
            }
            assert forall|i: int| 0 <= i < all.len() - 1 implies index_of(#[trigger] all[i], '\n')
                == all[i].len() - 1 by {
                assert(all[i] == l[i]);
            }
        }
        lemma_flat_push(t, p);
        lemma_flat_push(t, q);
        assert(t.push(p) =~= l);
        assert(flat(all) =~= s.push('\n'));
        lemma_pieces_of_flat(all);
        assert(all.drop_last() =~= t);
        lemma_newline_behind(format, p);
    }
}

proof fn lemma_past_newlines(format: ExportFormat, s: Seq<char>)
    ensures
        text_tally(format, past_newlines(s)) == text_tally(format, s),
    decreases s.len(),
{
    if s.len() > 0 && s[0] == '\n' {
        lemma_past_newlines(format, s.drop_first());
        lemma_newline_first(format, s.drop_first());
        assert(seq!['\n'] + s.drop_first() =~= s);
    }
}

proof fn lemma_up_to_newlines(format: ExportFormat, s: Seq<char>)
    ensures
        text_tally(format, up_to_newlines(s)) == text_tally(format, s),
    decreases s.len(),
{
    if s.len() > 0 && s.last() == '\n' {
        lemma_up_to_newlines(format, s.drop_last());
        lemma_newline_last(format, s.drop_last());
        assert(s.drop_last().push('\n') =~= s);
    }
}

/// Two texts with a blank line between them hold the entries of both.
proof fn lemma_two_texts(format: ExportFormat, a: Seq<char>, b: Seq<char>)
    requires
        text_tally(format, a).0 == 0,
    ensures
        text_tally(format, a + "\n\n"@ + b) == (
            text_tally(format, b).0,
            text_tally(format, a).1 + text_tally(format, b).1,
        ),
{
    reveal_strlit("\n\n");
    let c = a.push('\n').push('\n');
    lemma_newline_last(format, a);
    lemma_newline_last(format, a.push('\n'));
    assert(a + "\n\n"@ =~= c);
    lemma_pieces_concat(c, b);
    lemma_tally_concat(format, pieces_of(c), pieces_of(b));
}

proof fn lemma_merged(bodies: Seq<Seq<char>>, format: ExportFormat)
    requires
        format != ExportFormat::CslJson,
        bodies_close(bodies, format),
    ensures
        text_tally(format, joined(body_parts(bodies), "\n\n"@)).0 == 0,
        entries_in_all(bodies, format) == Ok::<nat, Seq<char>>(
            text_tally(format, joined(body_parts(bodies), "\n\n"@)).1,
        ),
    decreases bodies.len(),
{
    let sep = "\n\n"@;
    if bodies.len() == 0 {
        assert(joined(body_parts(bodies), sep) =~= Seq::empty());
        assert(pieces_of(Seq::<char>::empty()) =~= Seq::empty());
        assert(tally(format, Seq::empty()) == (0int, 0nat));
    } else {
        let most = bodies.drop_last();
        let body = bodies.last();
        assert(body == bodies[bodies.len() - 1]);
        assert(bodies_close(most, format)) by {
            assert forall|i: int| 0 <= i < most.len() && format == ExportFormat::Bibtex implies
                entry_state(lines_of(#[trigger] most[i])).0 == 0 by {
                assert(most[i] == bodies[i]);
            }
        }
        lemma_merged(most, format);
        let part = up_to_newlines(past_newlines(body));
        lemma_past_newlines(format, body);
        lemma_up_to_newlines(format, past_newlines(body));
        lemma_text_tally(format, body);
        let head = body_parts(most);
        if part.len() > 0 {
            let parts = head.push(part);
            assert(parts.drop_last() =~= head);
            if head.len() == 0 {
                assert(joined(head, sep) =~= Seq::empty());
                assert(pieces_of(Seq::<char>::empty()) =~= Seq::empty());
                assert(tally(format, Seq::empty()) == (0int, 0nat));
                assert(joined(parts, sep) == part);
            } else {
                lemma_two_texts(format, joined(head, sep), part);
            }
        } else {
            assert(pieces_of(part) =~= Seq::empty());
            assert(tally(format, pieces_of(part)) == (0int, 0nat));
        }
    }
}

/// Merging keeps every entry: BibTeX bodies whose braces close, and RIS bodies, merge into a
/// document that counts as many entries as they count together.
pub proof fn law_merge_keeps_entries(bodies: Seq<Seq<char>>, format: ExportFormat)
    requires
        format != ExportFormat::CslJson,
        bodies_close(bodies, format),
    ensures
        match merged(bodies, format) {
            Ok(s) => entries_in(s, format, json_list_parsed(s)) == entries_in_all(bodies, format)
                && entries_in_all(bodies, format) is Ok,
            Err(_) => false,
        },
{
    lemma_merged(bodies, format);
    lemma_text_tally(format, joined(body_parts(bodies), "\n\n"@));
}

/// The items of CSL JSON bodies all came out of a list that was read, and there are as many as the
/// bodies count; bodies without such items count none.
pub proof fn lemma_csl_items_counted(bodies: Seq<Seq<char>>)
    ensures
        match csl_items(bodies) {
            Ok(items) => were_read(items) && entries_in_all(bodies, ExportFormat::CslJson) == Ok::<
                nat,
                Seq<char>,
            >(items.len()),
            Err(message) => entries_in_all(bodies, ExportFormat::CslJson) == Err::<nat, Seq<char>>(
                message,
            ),
        },
    decreases bodies.len(),
{
    if bodies.len() > 0 {
        let body = bodies.last();
        lemma_csl_items_counted(bodies.drop_last());
        if csl_items(bodies) is Ok {
            let head = csl_items(bodies.drop_last())->Ok_0;
            let items = csl_items(bodies)->Ok_0;
            assert forall|k: int| 0 <= k < items.len() implies was_read(#[trigger] items[k]) by {
                if k < head.len() {
                    assert(items[k] == head[k]);
                } else {
                    assert(is_item_at(body, k - head.len(), items[k]));
                }
            }
        }
    }
}

/// Bodies that can each be counted can be merged, and counted together.
pub proof fn law_countable_bodies_merge(bodies: Seq<Seq<char>>, format: ExportFormat)
    requires
        forall|i: int|
            0 <= i < bodies.len() ==> entries_in(
                #[trigger] bodies[i],
                format,
                json_list_parsed(bodies[i]),
            ) is Ok,
    ensures
        entries_in_all(bodies, format) is Ok,
        merged(bodies, format) is Ok,
    decreases bodies.len(),
{
    lemma_csl_items_counted(bodies);
    if bodies.len() > 0 {
        let most = bodies.drop_last();
        assert forall|i: int| 0 <= i < most.len() implies entries_in(
            #[trigger] most[i],
            format,
            json_list_parsed(most[i]),
        ) is Ok by {
            assert(most[i] == bodies[i]);
        }
        law_countable_bodies_merge(most, format);
        assert(bodies.last() == bodies[bodies.len() - 1]);
    }
}

/// A CSL JSON document that is read as a list of some items counts that many entries.
pub proof fn lemma_list_counted(s: Seq<char>, n: nat)
    requires
        s.len() > 0,
        s[0] == '[',
        reads_as_list_of(s, n),
    ensures
        entries_in(s, ExportFormat::CslJson, json_list_parsed(s)) == Ok::<nat, Seq<char>>(n),
{
    lemma_end_kept(s);
}

proof fn lemma_end_kept(s: Seq<char>)
    requires
        s.len() > 0,
        s[0] == '[',
    ensures
        crate::text::trimmed_end(s).len() > 0,
        trimmed(s) == crate::text::trimmed_end(s),
    decreases s.len(),
{
    if crate::text::is_white(s.last()) {
        assert(s.len() > 1);
        lemma_end_kept(s.drop_last());
    }
}

} // verus!
