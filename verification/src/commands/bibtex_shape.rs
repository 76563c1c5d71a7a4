//! BibTeX in the shape Zotero emits, and what stripping and counting do to it.
use crate::commands::bibtex_fields::brace_state;
use crate::commands::bibtex_fields::braces;
use crate::commands::bibtex_fields::depth_before;
use crate::commands::bibtex_fields::entry_state;
use crate::commands::bibtex_fields::is_field;
use crate::commands::bibtex_fields::kept_lines;
use crate::commands::bibtex_fields::lemma_flat_push;
use crate::commands::bibtex_fields::lemma_kept_newline_ended;
use crate::commands::bibtex_fields::lemma_pieces_of_flat;
use crate::commands::bibtex_fields::name_of_field;
use crate::commands::bibtex_fields::newline_ended;
use crate::commands::bibtex_fields::starts_field;
use crate::commands::bibtex_fields::strip_lines;
use crate::commands::bibtex_fields::stripped_of;
use crate::lines::flat;
use crate::lines::lines_of;
use crate::lines::pieces_of;
use crate::lines::without_cr;
use crate::text::index_of;
use vstd::prelude::*;

verus! {

/// A field of an entry: its name and all lines of it.
pub struct FieldLines {
    pub name: Seq<char>,
    pub lines: Seq<Seq<char>>,
}

/// An entry: the lines between it and the entry before, its `@type{citekey,` line, its fields and
/// its closing line.
pub struct EntryLines {
    pub before: Seq<Seq<char>>,
    pub head: Seq<char>,
    pub fields: Seq<FieldLines>,
    pub foot: Seq<char>,
}

/// A `name = value` field. A value that goes on over several lines stays within its braces until
/// the last of them.
pub open spec fn is_field_shape(f: FieldLines) -> bool {
    &&& f.lines.len() > 0
    &&& name_of_field(f.lines[0]) == Some(f.name)
    &&& forall|k: int| 0 < k < f.lines.len() ==> #[trigger] depth_before(f.lines, k) > 0
    &&& depth_before(f.lines, f.lines.len() as int) == 0
}

/// A line outside of any entry.
pub open spec fn is_between(line: Seq<char>) -> bool {
    braces(line) == 0 && !(line.len() > 0 && line[0] == '@')
}

/// An entry that opens its brace on the first line and closes it on the last.
pub open spec fn is_entry_shape(e: EntryLines) -> bool {
    &&& forall|i: int| 0 <= i < e.before.len() ==> is_between(#[trigger] e.before[i])
    &&& e.head.len() > 0 && e.head[0] == '@'
    &&& braces(e.head) == 1
    &&& forall|i: int| 0 <= i < e.fields.len() ==> is_field_shape(#[trigger] e.fields[i])
    &&& name_of_field(e.foot) is None
    &&& braces(e.foot) == -1
}

/// The lines of some fields.
pub open spec fn field_lines(fs: Seq<FieldLines>) -> Seq<Seq<char>>
    decreases fs.len(),
{
    if fs.len() == 0 {
        Seq::empty()
    } else {
        field_lines(fs.drop_last()) + fs.last().lines
    }
}

/// The lines of an entry.
pub open spec fn entry_lines(e: EntryLines) -> Seq<Seq<char>> {
    (e.before.push(e.head) + field_lines(e.fields)).push(e.foot)
}

/// The lines of some entries.
pub open spec fn all_entry_lines(es: Seq<EntryLines>) -> Seq<Seq<char>>
    decreases es.len(),
{
    if es.len() == 0 {
        Seq::empty()
    } else {
        all_entry_lines(es.drop_last()) + entry_lines(es.last())
    }
}

/// The lines of some entries and what follows the last of them.
pub open spec fn stream_lines(es: Seq<EntryLines>, after: Seq<Seq<char>>) -> Seq<Seq<char>> {
    all_entry_lines(es) + after
}

/// Entries in the shape Zotero emits, and lines outside of any entry after them.
pub open spec fn is_stream(es: Seq<EntryLines>, after: Seq<Seq<char>>) -> bool {
    &&& forall|i: int| 0 <= i < es.len() ==> is_entry_shape(#[trigger] es[i])
    &&& forall|i: int| 0 <= i < after.len() ==> is_between(#[trigger] after[i])
    &&& newline_ended(stream_lines(es, after))
}

/// The fields that are not named.
pub open spec fn fields_without(fs: Seq<FieldLines>, names: Seq<Seq<char>>) -> Seq<FieldLines>
    decreases fs.len(),
{
    if fs.len() == 0 {
        Seq::empty()
    } else {
        let head = fields_without(fs.drop_last(), names);
        if is_field(names, fs.last().name) {
            head
        } else {
            head.push(fs.last())
        }
    }
}

/// An entry without the named fields.
pub open spec fn entry_without(e: EntryLines, names: Seq<Seq<char>>) -> EntryLines {
    EntryLines { fields: fields_without(e.fields, names), ..e }
}

/// Entries without the named fields.
pub open spec fn entries_without(es: Seq<EntryLines>, names: Seq<Seq<char>>) -> Seq<EntryLines> {
    es.map_values(|e: EntryLines| entry_without(e, names))
}

/// Whether reading some lines ends outside of a dropped value, at a depth, with these lines kept.
spec fn reads_to(
    l: Seq<Seq<char>>,
    names: Seq<Seq<char>>,
    depth: int,
    kept: Seq<Seq<char>>,
) -> bool {
    &&& strip_lines(l, names).depth == depth
    &&& strip_lines(l, names).dropping is None
    &&& kept_lines(l, names) == kept
}

proof fn lemma_out(l: Seq<Seq<char>>, names: Seq<Seq<char>>)
    ensures
        strip_lines(l, names).out == flat(kept_lines(l, names)),
    decreases l.len(),
{
    if l.len() > 0 {
        lemma_out(l.drop_last(), names);
        lemma_flat_push(kept_lines(l.drop_last(), names), l.last());
    } else {
        assert(flat(kept_lines(l, names)) =~= Seq::<char>::empty());
    }
}

proof fn lemma_line(
    l: Seq<Seq<char>>,
    x: Seq<char>,
    names: Seq<Seq<char>>,
    depth: int,
    kept: Seq<Seq<char>>,
)
    requires
        reads_to(l, names, depth, kept),
        !starts_field(names, depth, x),
    ensures
        reads_to(l.push(x), names, depth + braces(x), kept.push(x)),
{
    assert(l.push(x).drop_last() =~= l);
}

proof fn lemma_between(
    l: Seq<Seq<char>>,
    b: Seq<Seq<char>>,
    names: Seq<Seq<char>>,
    kept: Seq<Seq<char>>,
)
    requires
        reads_to(l, names, 0, kept),
        forall|i: int| 0 <= i < b.len() ==> is_between(#[trigger] b[i]),
    ensures
        reads_to(l + b, names, 0, kept + b),
    decreases b.len(),
{
    if b.len() == 0 {
        assert(l + b =~= l);
        assert(kept + b =~= kept);
    } else {
        let t = b.drop_last();
        assert forall|i: int| 0 <= i < t.len() implies is_between(#[trigger] t[i]) by {
            assert(t[i] == b[i]);
        }
        lemma_between(l, t, names, kept);
        assert(is_between(b[b.len() - 1]));
        lemma_line(l + t, b.last(), names, 0, kept + t);
        assert((l + t).push(b.last()) =~= l + b);
        assert((kept + t).push(b.last()) =~= kept + b);
    }
}

proof fn lemma_field(
    l: Seq<Seq<char>>,
    f: FieldLines,
    names: Seq<Seq<char>>,
    kept: Seq<Seq<char>>,
    k: int,
)
    requires
        reads_to(l, names, 1, kept),
        is_field_shape(f),
        0 < k <= f.lines.len(),
    ensures
        ({
            let now = l + f.lines.take(k);
            let st = strip_lines(now, names);
            &&& st.depth == 1 + depth_before(f.lines, k)
            &&& if is_field(names, f.name) {
                &&& st.dropping == if k < f.lines.len() {
                    Some(1int)
                } else {
                    None
                }
                &&& kept_lines(now, names) == kept
            } else {
                &&& st.dropping is None
                &&& kept_lines(now, names) == kept + f.lines.take(k)
            }
        }),
    decreases k,
{
    let now = l + f.lines.take(k);
    let prev = l + f.lines.take(k - 1);
    assert(now.drop_last() =~= prev);
    assert(now.last() == f.lines[k - 1]);
    assert(kept + f.lines.take(k) =~= (kept + f.lines.take(k - 1)).push(f.lines[k - 1]));
    if k == 1 {
        assert(prev =~= l);
        assert(kept + f.lines.take(0) =~= kept);
        assert(depth_before(f.lines, 0) == 0);
        assert(depth_before(f.lines, 1) == braces(f.lines[0]));
    } else {
        lemma_field(l, f, names, kept, k - 1);
        assert(depth_before(f.lines, k - 1) > 0);
    }
    assert(k < f.lines.len() ==> depth_before(f.lines, k) > 0);
}

proof fn lemma_fields(
    l: Seq<Seq<char>>,
    fs: Seq<FieldLines>,
    names: Seq<Seq<char>>,
    kept: Seq<Seq<char>>,
)
    requires
        reads_to(l, names, 1, kept),
        forall|i: int| 0 <= i < fs.len() ==> is_field_shape(#[trigger] fs[i]),
    ensures
        reads_to(l + field_lines(fs), names, 1, kept + field_lines(fields_without(fs, names))),
    decreases fs.len(),
{
    if fs.len() == 0 {
        assert(l + field_lines(fs) =~= l);
        assert(kept + field_lines(fields_without(fs, names)) =~= kept);
    } else {
        let t = fs.drop_last();
        let f = fs.last();
        assert forall|i: int| 0 <= i < t.len() implies is_field_shape(#[trigger] t[i]) by {
            assert(t[i] == fs[i]);
        }
        assert(is_field_shape(fs[fs.len() - 1]));
        lemma_fields(l, t, names, kept);
        let l0 = l + field_lines(t);
        let kept0 = kept + field_lines(fields_without(t, names));
        lemma_field(l0, f, names, kept0, f.lines.len() as int);
        assert(f.lines.take(f.lines.len() as int) =~= f.lines);
        assert(l0 + f.lines =~= l + field_lines(fs));
        if !is_field(names, f.name) {
            let w = fields_without(t, names);
            assert(w.push(f).drop_last() =~= w);
            assert(kept0 + f.lines =~= kept + field_lines(fields_without(fs, names)));
        }
    }
}

proof fn lemma_entry(
    l: Seq<Seq<char>>,
    e: EntryLines,
    names: Seq<Seq<char>>,
    kept: Seq<Seq<char>>,
)
    requires
        reads_to(l, names, 0, kept),
        is_entry_shape(e),
    ensures
        reads_to(l + entry_lines(e), names, 0, kept + entry_lines(entry_without(e, names))),
{
    let fs = field_lines(e.fields);
    let ws = field_lines(fields_without(e.fields, names));
    lemma_between(l, e.before, names, kept);
    lemma_line(l + e.before, e.head, names, 0, kept + e.before);
    let l1 = (l + e.before).push(e.head);
    let k1 = (kept + e.before).push(e.head);
    lemma_fields(l1, e.fields, names, k1);
    lemma_line(l1 + fs, e.foot, names, 1, k1 + ws);
    assert((l1 + fs).push(e.foot) =~= l + entry_lines(e));
    assert((k1 + ws).push(e.foot) =~= kept + entry_lines(entry_without(e, names)));
}

proof fn lemma_entries(es: Seq<EntryLines>, names: Seq<Seq<char>>)
    requires
        forall|i: int| 0 <= i < es.len() ==> is_entry_shape(#[trigger] es[i]),
    ensures
        reads_to(all_entry_lines(es), names, 0, all_entry_lines(entries_without(es, names))),
    decreases es.len(),
{
    if es.len() > 0 {
        let t = es.drop_last();
        assert forall|i: int| 0 <= i < t.len() implies is_entry_shape(#[trigger] t[i]) by {
            assert(t[i] == es[i]);
        }
        assert(is_entry_shape(es[es.len() - 1]));
        lemma_entries(t, names);
        lemma_entry(
            all_entry_lines(t),
            es.last(),
            names,
            all_entry_lines(entries_without(t, names)),
        );
        assert(entries_without(es, names).drop_last() =~= entries_without(t, names));
        assert(entries_without(es, names).last() == entry_without(es.last(), names));
    }
}

proof fn lemma_stream(es: Seq<EntryLines>, after: Seq<Seq<char>>, names: Seq<Seq<char>>)
    requires
        is_stream(es, after),
    ensures
        stripped_of(flat(stream_lines(es, after)), names) == flat(
            stream_lines(entries_without(es, names), after),
        ),
        is_stream(entries_without(es, names), after),
{
    let l = stream_lines(es, after);
    let ws = entries_without(es, names);
    lemma_entries(es, names);
    lemma_between(all_entry_lines(es), after, names, all_entry_lines(ws));
    lemma_out(l, names);
    lemma_pieces_of_flat(l);
    lemma_kept_newline_ended(l, names);
    assert forall|i: int| 0 <= i < ws.len() implies is_entry_shape(#[trigger] ws[i]) by {
        assert(is_entry_shape(es[i]));
        lemma_fields_without(es[i].fields, names);
    }
}

proof fn lemma_fields_without(fs: Seq<FieldLines>, names: Seq<Seq<char>>)
    requires
        forall|i: int| 0 <= i < fs.len() ==> is_field_shape(#[trigger] fs[i]),
    ensures
        forall|i: int|
            0 <= i < fields_without(fs, names).len() ==> is_field_shape(
                #[trigger] fields_without(fs, names)[i],
            ) && !is_field(names, fields_without(fs, names)[i].name),
        fields_without(fields_without(fs, names), names) == fields_without(fs, names),
    decreases fs.len(),
{
    if fs.len() > 0 {
        let t = fs.drop_last();
        assert forall|i: int| 0 <= i < t.len() implies is_field_shape(#[trigger] t[i]) by {
            assert(t[i] == fs[i]);
        }
        assert(is_field_shape(fs[fs.len() - 1]));
        lemma_fields_without(t, names);
        let w = fields_without(t, names);
        if !is_field(names, fs.last().name) {
            assert(w.push(fs.last()).drop_last() =~= w);
        }
    }
}

/// Stripping takes exactly the lines of the named fields out of a stream in the shape Zotero
/// emits: a field goes whole if its whole name is one of the names, ignoring ASCII case, and
/// everything else stays as it is.
pub proof fn law_strip_takes_named_fields(
    es: Seq<EntryLines>,
    after: Seq<Seq<char>>,
    names: Seq<Seq<char>>,
)
    requires
        is_stream(es, after),
    ensures
        stripped_of(flat(stream_lines(es, after)), names) == flat(
            stream_lines(entries_without(es, names), after),
        ),
{
    lemma_stream(es, after, names);
}

/// Stripping a stream in the shape Zotero emits a second time changes nothing.
pub proof fn law_strip_stream_twice(
    es: Seq<EntryLines>,
    after: Seq<Seq<char>>,
    names: Seq<Seq<char>>,
)
    requires
        is_stream(es, after),
    ensures
        ({
            let once = stripped_of(flat(stream_lines(es, after)), names);
            stripped_of(once, names) == once
        }),
{
    let ws = entries_without(es, names);
    lemma_stream(es, after, names);
    lemma_stream(ws, after, names);
    assert forall|i: int| 0 <= i < es.len() implies entries_without(ws, names)[i] == ws[i] by {
        assert(is_entry_shape(es[i]));
        lemma_fields_without(es[i].fields, names);
    }
    assert(entries_without(ws, names) =~= ws);
}

/// A line without its terminator.
pub open spec fn bare(p: Seq<char>) -> Seq<char> {
    if p.len() > 0 && p.last() == '\n' {
        without_cr(p.drop_last())
    } else {
        p
    }
}

/// Braces and the `@` that opens an entry do not stand in a terminator.
pub proof fn lemma_bare(p: Seq<char>)
    ensures
        braces(bare(p)) == braces(p),
        bare(p).len() > 0 && bare(p)[0] == '@' <==> p.len() > 0 && p[0] == '@',
{
    reveal_with_fuel(brace_state, 3);
}

/// Counting entries sees the same with and without the terminators of the lines.
pub proof fn lemma_entry_state_pieces(s: Seq<char>)
    ensures
        entry_state(lines_of(s)) == entry_state(pieces_of(s)),
        lines_of(s).len() == pieces_of(s).len(),
{
    let l = lines_of(s);
    let p = pieces_of(s);
    lemma_lines_bare(s);
    lemma_same_state(l, p);
}

proof fn lemma_same_state(l: Seq<Seq<char>>, p: Seq<Seq<char>>)
    requires
        l.len() == p.len(),
        forall|i: int| 0 <= i < p.len() ==> l[i] == bare(#[trigger] p[i]),
    ensures
        entry_state(l) == entry_state(p),
    decreases p.len(),
{
    if p.len() > 0 {
        let q = p.drop_last();
        assert forall|i: int| 0 <= i < q.len() implies l.drop_last()[i] == bare(#[trigger] q[i]) by {
            assert(q[i] == p[i]);
        }
        lemma_same_state(l.drop_last(), q);
        assert(l[p.len() - 1] == bare(p[p.len() - 1]));
        lemma_bare(p.last());
    }
}

/// The lines of a text are its pieces without their terminators.
pub proof fn lemma_lines_bare(s: Seq<char>)
    ensures
        lines_of(s).len() == pieces_of(s).len(),
        forall|i: int| 0 <= i < pieces_of(s).len() ==> lines_of(s)[i] == bare(#[trigger] pieces_of(s)[i]),
    decreases s.len(),
{
    crate::text::lemma_index_of(s, '\n');
    let e = index_of(s, '\n') as int;
    if s.len() > 0 {
        if e < s.len() {
            let rest = s.skip(e + 1);
            lemma_lines_bare(rest);
            assert(s.take(e + 1).drop_last() =~= s.take(e));
            assert(s.take(e + 1).last() == '\n');
            assert forall|i: int| 0 <= i < pieces_of(s).len() implies lines_of(s)[i] == bare(
                #[trigger] pieces_of(s)[i],
            ) by {
                if i > 0 {
                    assert(pieces_of(s)[i] == pieces_of(rest)[i - 1]);
                    assert(lines_of(s)[i] == lines_of(rest)[i - 1]);
                }
            }
        } else {
            assert(s.last() == s[s.len() - 1]);
        }
    }
}

proof fn lemma_count_line(l: Seq<Seq<char>>, x: Seq<char>)
    ensures
        entry_state(l.push(x)).0 == entry_state(l).0 + braces(x),
        entry_state(l.push(x)).1 == entry_state(l).1 + if entry_state(l).0 <= 0 && x.len() > 0
            && x[0] == '@' {
            1nat
        } else {
            0nat
        },
{
    assert(l.push(x).drop_last() =~= l);
}

proof fn lemma_count_between(l: Seq<Seq<char>>, b: Seq<Seq<char>>)
    requires
        forall|i: int| 0 <= i < b.len() ==> is_between(#[trigger] b[i]),
    ensures
        entry_state(l + b) == entry_state(l),
    decreases b.len(),
{
    if b.len() == 0 {
        assert(l + b =~= l);
    } else {
        let t = b.drop_last();
        assert forall|i: int| 0 <= i < t.len() implies is_between(#[trigger] t[i]) by {
            assert(t[i] == b[i]);
        }
        assert(is_between(b[b.len() - 1]));
        lemma_count_between(l, t);
        lemma_count_line(l + t, b.last());
        assert((l + t).push(b.last()) =~= l + b);
    }
}

proof fn lemma_count_field(l: Seq<Seq<char>>, f: FieldLines, k: int)
    requires
        entry_state(l).0 == 1,
        is_field_shape(f),
        0 <= k <= f.lines.len(),
    ensures
        entry_state(l + f.lines.take(k)) == (1 + depth_before(f.lines, k), entry_state(l).1),
    decreases k,
{
    if k == 0 {
        assert(l + f.lines.take(0) =~= l);
    } else {
        lemma_count_field(l, f, k - 1);
        lemma_count_line(l + f.lines.take(k - 1), f.lines[k - 1]);
        assert((l + f.lines.take(k - 1)).push(f.lines[k - 1]) =~= l + f.lines.take(k));
        assert(k > 1 ==> depth_before(f.lines, k - 1) > 0);
    }
}

proof fn lemma_count_fields(l: Seq<Seq<char>>, fs: Seq<FieldLines>)
    requires
        entry_state(l).0 == 1,
        forall|i: int| 0 <= i < fs.len() ==> is_field_shape(#[trigger] fs[i]),
    ensures
        entry_state(l + field_lines(fs)) == entry_state(l),
    decreases fs.len(),
{
    if fs.len() == 0 {
        assert(l + field_lines(fs) =~= l);
    } else {
        let t = fs.drop_last();
        let f = fs.last();
        assert forall|i: int| 0 <= i < t.len() implies is_field_shape(#[trigger] t[i]) by {
            assert(t[i] == fs[i]);
        }
        assert(is_field_shape(fs[fs.len() - 1]));
        lemma_count_fields(l, t);
        lemma_count_field(l + field_lines(t), f, f.lines.len() as int);
        assert(f.lines.take(f.lines.len() as int) =~= f.lines);
        assert((l + field_lines(t)) + f.lines =~= l + field_lines(fs));
    }
}

proof fn lemma_count_entries(es: Seq<EntryLines>)
    requires
        forall|i: int| 0 <= i < es.len() ==> is_entry_shape(#[trigger] es[i]),
    ensures
        entry_state(all_entry_lines(es)) == (0int, es.len()),
    decreases es.len(),
{
    if es.len() > 0 {
        let t = es.drop_last();
        let e = es.last();
        assert forall|i: int| 0 <= i < t.len() implies is_entry_shape(#[trigger] t[i]) by {
            assert(t[i] == es[i]);
        }
        assert(is_entry_shape(es[es.len() - 1]));
        lemma_count_entries(t);
        let l = all_entry_lines(t);
        let l1 = (l + e.before).push(e.head);
        let l2 = l1 + field_lines(e.fields);
        lemma_count_between(l, e.before);
        lemma_count_line(l + e.before, e.head);
        lemma_count_fields(l1, e.fields);
        lemma_count_line(l2, e.foot);
        assert(l2.push(e.foot) =~= all_entry_lines(es));
    }
}

/// A stream in the shape Zotero emits has as many entries as it was put together from, and
/// stripping fields keeps that number.
pub proof fn law_strip_keeps_entries(
    es: Seq<EntryLines>,
    after: Seq<Seq<char>>,
    names: Seq<Seq<char>>,
)
    requires
        is_stream(es, after),
    ensures
        entry_state(lines_of(flat(stream_lines(es, after)))).1 == es.len(),
        entry_state(lines_of(stripped_of(flat(stream_lines(es, after)), names))).1 == es.len(),
{
    lemma_stream(es, after, names);
    lemma_stream_count(es, after);
    lemma_stream_count(entries_without(es, names), after);
}

proof fn lemma_stream_count(es: Seq<EntryLines>, after: Seq<Seq<char>>)
    requires
        is_stream(es, after),
    ensures
        entry_state(lines_of(flat(stream_lines(es, after)))).1 == es.len(),
{
    let l = stream_lines(es, after);
    lemma_entry_state_pieces(flat(l));
    lemma_pieces_of_flat(l);
    lemma_count_entries(es);
    lemma_count_between(all_entry_lines(es), after);
}

} // verus!
