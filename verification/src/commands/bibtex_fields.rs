//! Counting the entries of a BibTeX stream and taking fields out of it.
use crate::lines::flat;
use crate::lines::lemma_pieces_flat;
use crate::lines::lines;
use crate::lines::lines_of;
use crate::lines::pieces_of;
use crate::lines::push_chars;
use crate::lines::runs;
use crate::lines::split_inclusive;
use crate::text::ascii_lowercase;
use crate::text::chars_of;
use crate::text::index_of;
use crate::text::is_ascii_digit;
use crate::text::is_ascii_letter;
use crate::text::is_digit;
use crate::text::is_letter;
use crate::text::lower_ascii;
use crate::text::opt_view;
use crate::text::position;
use crate::text::same_chars;
use crate::text::string_of;
use crate::text::trim_end;
use crate::text::trim_start;
use crate::text::trimmed_end;
use crate::text::trimmed_start;
use vstd::prelude::*;
use vstd::slice::slice_subrange;

verus! {

/// The net brace depth of a text, and whether it ends in the middle of an escape.
pub open spec fn brace_state(s: Seq<char>) -> (int, bool)
    decreases s.len(),
{
    if s.len() == 0 {
        (0, false)
    } else {
        let (depth, escaped) = brace_state(s.drop_last());
        let c = s.last();
        if escaped {
            (depth, false)
        } else if c == '\\' {
            (depth, true)
        } else if c == '{' {
            (depth + 1, false)
        } else if c == '}' {
            (depth - 1, false)
        } else {
            (depth, false)
        }
    }
}

/// The net brace depth change across a text, honouring TeX's `\{` and `\}`.
pub open spec fn braces(s: Seq<char>) -> int {
    brace_state(s).0
}

proof fn lemma_braces_bound(s: Seq<char>)
    ensures
        -s.len() <= braces(s) <= s.len(),
    decreases s.len(),
{
    if s.len() > 0 {
        lemma_braces_bound(s.drop_last());
    }
}

/// Net brace depth change across a line, honouring TeX's `\{` and `\}`.
pub fn brace_delta(line: &str) -> (r: i128)
    ensures
        r == braces(line@),
{
    brace_change(&chars_of(line))
}

fn brace_change(line: &[char]) -> (r: i128)
    ensures
        r == braces(line@),
{
    let mut delta: i128 = 0;
    let mut escaped = false;
    let mut i: usize = 0;
    while i < line.len()
        invariant
            i <= line.len(),
            brace_state(line@.take(i as int)) == (delta as int, escaped),
            -(i as int) <= delta <= i,
        decreases line.len() - i,
    {
        assert(line@.take(i as int + 1).drop_last() =~= line@.take(i as int));
        let c = line[i];
        if escaped {
            escaped = false;
        } else if c == '\\' {
            escaped = true;
        } else if c == '{' {
            delta += 1;
        } else if c == '}' {
            delta -= 1;
        }
        i += 1;
    }
    assert(line@.take(line@.len() as int) =~= line@);
    delta
}

/// A character that a field name can have.
pub open spec fn is_name_char(c: char) -> bool {
    is_letter(c) || is_digit(c) || c == '-' || c == '_'
}

/// The name in a `field = {value},` line; none where the line is not a field assignment.
pub open spec fn name_of_field(line: Seq<char>) -> Option<Seq<char>> {
    let t = trimmed_start(line);
    let e = index_of(t, '=') as int;
    let name = trimmed_end(t.take(e));
    if e < t.len() && name.len() > 0 && forall|i: int|
        0 <= i < name.len() ==> is_name_char(#[trigger] name[i]) {
        Some(name)
    } else {
        None
    }
}

/// The field name of a `field = {value},` line, or `None` when the line is not a field assignment.
pub fn field_name(line: &str) -> (r: Option<String>)
    ensures
        crate::text::opt_text(r) == name_of_field(line@),
{
    let chars = chars_of(line);
    match field_in(chars.as_slice()) {
        Some(name) => Some(string_of(name)),
        None => None,
    }
}

fn field_in(line: &[char]) -> (r: Option<&[char]>)
    ensures
        opt_view(r) == name_of_field(line@),
{
    let t = trim_start(line);
    let e: usize = position(t, '=');
    if e >= t.len() {
        return None;
    }
    let head = slice_subrange(t, 0, e);
    assert(head@ =~= t@.take(e as int));
    let name = trim_end(head);
    if name.len() == 0 {
        return None;
    }
    let mut i: usize = 0;
    while i < name.len()
        invariant
            i <= name.len(),
            t@ == trimmed_start(line@),
            e == index_of(t@, '='),
            name@ == trimmed_end(t@.take(e as int)),
            forall|k: int| 0 <= k < i ==> is_name_char(#[trigger] name@[k]),
        decreases name.len() - i,
    {
        let c = name[i];
        if !(is_ascii_letter(c) || is_ascii_digit(c) || c == '-' || c == '_') {
            assert(!is_name_char(name@[i as int]));
            return None;
        }
        i += 1;
    }
    Some(name)
}

/// Whether a name is one of some fields, ignoring ASCII case.
pub open spec fn is_field(fields: Seq<Seq<char>>, name: Seq<char>) -> bool {
    exists|i: int|
        0 <= i < fields.len() && ascii_lowercase(#[trigger] fields[i]) == ascii_lowercase(name)
}

/// The texts of some borrowed strings.
pub open spec fn str_texts(v: Seq<&str>) -> Seq<Seq<char>> {
    v.map_values(|s: &str| s@)
}

fn names_field(fields: &[&str], name: &[char]) -> (r: bool)
    ensures
        r == is_field(str_texts(fields@), name@),
{
    let folded = lower_ascii(name);
    let ghost all = str_texts(fields@);
    let mut i: usize = 0;
    while i < fields.len()
        invariant
            i <= fields.len(),
            all == str_texts(fields@),
            folded@ == ascii_lowercase(name@),
            forall|k: int| 0 <= k < i ==> ascii_lowercase(#[trigger] all[k]) != folded@,
        decreases fields.len() - i,
    {
        assert(all[i as int] == fields@[i as int]@);
        let field = lower_ascii(&chars_of(fields[i]));
        if same_chars(field.as_slice(), folded.as_slice()) {
            assert(ascii_lowercase(all[i as int]) == folded@);
            return true;
        }
        i += 1;
    }
    false
}

/// How far a stream has been read: what is kept, the brace depth, and the depth to get back to
/// while the value of a dropped field goes on.
pub struct StripState {
    pub out: Seq<char>,
    pub depth: int,
    pub dropping: Option<int>,
}

/// Whether a line at this depth starts one of the fields. Fields sit at depth 1, directly inside
/// the braces of an entry; anything deeper is a continuation line of a value.
pub open spec fn starts_field(fields: Seq<Seq<char>>, depth: int, line: Seq<char>) -> bool {
    depth == 1 && match name_of_field(line) {
        Some(name) => is_field(fields, name),
        None => false,
    }
}

/// The state after one more line.
pub open spec fn strip_step(st: StripState, line: Seq<char>, fields: Seq<Seq<char>>) -> StripState {
    let depth = st.depth + braces(line);
    match st.dropping {
        Some(target) => StripState {
            out: st.out,
            depth,
            dropping: if depth <= target {
                None
            } else {
                Some(target)
            },
        },
        None => if starts_field(fields, st.depth, line) {
            StripState {
                out: st.out,
                depth,
                dropping: if depth > st.depth {
                    Some(st.depth)
                } else {
                    None
                },
            }
        } else {
            StripState { out: st.out + line, depth, dropping: None }
        },
    }
}

/// The state after some lines.
pub open spec fn strip_lines(l: Seq<Seq<char>>, fields: Seq<Seq<char>>) -> StripState
    decreases l.len(),
{
    if l.len() == 0 {
        StripState { out: Seq::empty(), depth: 0, dropping: None }
    } else {
        strip_step(strip_lines(l.drop_last(), fields), l.last(), fields)
    }
}

/// A stream without some fields.
pub open spec fn stripped_of(s: Seq<char>, fields: Seq<Seq<char>>) -> Seq<char> {
    strip_lines(pieces_of(s), fields).out
}

/// The lengths of some texts together.
pub open spec fn total_len(l: Seq<Seq<char>>) -> nat
    decreases l.len(),
{
    if l.len() == 0 {
        0
    } else {
        total_len(l.drop_last()) + l.last().len()
    }
}

/// One more line is one more text at the end.
pub proof fn lemma_flat_push(l: Seq<Seq<char>>, x: Seq<char>)
    ensures
        flat(l.push(x)) == flat(l) + x,
    decreases l.len(),
{
    if l.len() == 0 {
        assert(l.push(x).drop_first() =~= Seq::empty());
        assert(flat(l.push(x).drop_first()) =~= Seq::empty());
        assert(flat(l.push(x)) =~= flat(l) + x);
    } else {
        assert(l.push(x).drop_first() =~= l.drop_first().push(x));
        lemma_flat_push(l.drop_first(), x);
        assert(flat(l.push(x)) =~= flat(l) + x);
    }
}

proof fn lemma_total_len(l: Seq<Seq<char>>)
    ensures
        total_len(l) == flat(l).len(),
    decreases l.len(),
{
    if l.len() > 0 {
        lemma_total_len(l.drop_last());
        lemma_flat_push(l.drop_last(), l.last());
        assert(l.drop_last().push(l.last()) =~= l);
    }
}

proof fn lemma_total_len_take(l: Seq<Seq<char>>, i: int)
    requires
        0 <= i <= l.len(),
    ensures
        total_len(l.take(i)) <= total_len(l),
    decreases l.len() - i,
{
    if i < l.len() {
        lemma_total_len_take(l, i + 1);
        assert(l.take(i + 1).drop_last() =~= l.take(i));
    } else {
        assert(l.take(i) =~= l);
    }
}

proof fn lemma_strip_depth(l: Seq<Seq<char>>, fields: Seq<Seq<char>>)
    ensures
        -total_len(l) <= strip_lines(l, fields).depth <= total_len(l),
    decreases l.len(),
{
    if l.len() > 0 {
        lemma_strip_depth(l.drop_last(), fields);
        lemma_braces_bound(l.last());
    }
}

/// Removes whole fields from a BibTeX stream.
///
/// Works on the shape Zotero emits: `@type{citekey,` on its own line, then one `field = {value},`
/// per line, then `}`. Values nest braces, so the cut is made on brace depth rather than at the
/// first `}`, and a value spanning several lines is dropped whole. Field names match in full, so
/// `annote` never takes `note` with it.
pub fn strip_bibtex_fields(bibtex: &str, fields: &[&str]) -> (r: String)
    ensures
        r@ == stripped_of(bibtex@, str_texts(fields@)),
{
    let chars = chars_of(bibtex);
    let split = split_inclusive(chars.as_slice());
    let ghost all = runs(split@);
    let ghost names = str_texts(fields@);
    proof {
        lemma_pieces_flat(chars@);
        lemma_total_len(all);
    }
    let mut out: Vec<char> = Vec::new();
    let mut depth: i128 = 0;
    let mut dropping: Option<i128> = None;
    let mut i: usize = 0;
    let n: usize = chars.len();
    assert(chars@.len() == n);
    while i < split.len()
        invariant
            i <= split.len(),
            all == runs(split@),
            names == str_texts(fields@),
            total_len(all) <= usize::MAX,
            strip_lines(all.take(i as int), names).out == out@,
            strip_lines(all.take(i as int), names).depth == depth,
            strip_lines(all.take(i as int), names).dropping == (match dropping {
                Some(t) => Some(t as int),
                None => None,
            }),
        decreases split.len() - i,
    {
        let line = split[i];
        let delta: i128 = brace_change(line);
        proof {
            assert(all.take(i as int + 1).drop_last() =~= all.take(i as int));
            assert(all.take(i as int + 1).last() == line@);
            lemma_strip_depth(all.take(i as int), names);
            lemma_strip_depth(all.take(i as int + 1), names);
            lemma_total_len_take(all, i as int);
            lemma_total_len_take(all, i as int + 1);
        }
        if let Some(target) = dropping {
            depth += delta;
            if depth <= target {
                dropping = None;
            }
        } else {
            let drop = if depth == 1 {
                match field_in(line) {
                    Some(name) => names_field(fields, name),
                    None => false,
                }
            } else {
                false
            };
            if drop {
                let entry_depth: i128 = depth;
                depth += delta;
                if depth > entry_depth {
                    dropping = Some(entry_depth);
                }
            } else {
                push_chars(&mut out, line);
                depth += delta;
            }
        }
        i += 1;
    }
    assert(all.take(all.len() as int) =~= all);
    string_of(out.as_slice())
}

/// The brace depth and the number of entries after some lines. An entry is a line that starts with
/// `@` outside of any braces.
pub open spec fn entry_state(l: Seq<Seq<char>>) -> (int, nat)
    decreases l.len(),
{
    if l.len() == 0 {
        (0, 0)
    } else {
        let (depth, count) = entry_state(l.drop_last());
        let line = l.last();
        (
            depth + braces(line),
            if depth <= 0 && line.len() > 0 && line[0] == '@' {
                count + 1
            } else {
                count
            },
        )
    }
}

proof fn lemma_entry_state(l: Seq<Seq<char>>)
    ensures
        -total_len(l) <= entry_state(l).0 <= total_len(l),
        entry_state(l).1 <= l.len(),
    decreases l.len(),
{
    if l.len() > 0 {
        lemma_entry_state(l.drop_last());
        lemma_braces_bound(l.last());
    }
}

proof fn lemma_lines_shorter(s: Seq<char>)
    ensures
        total_len(lines_of(s)) <= s.len(),
    decreases s.len(),
{
    crate::text::lemma_index_of(s, '\n');
    let e = index_of(s, '\n') as int;
    if s.len() > 0 {
        if e < s.len() {
            let first = crate::lines::without_cr(s.take(e));
            let rest = lines_of(s.skip(e + 1));
            lemma_lines_shorter(s.skip(e + 1));
            lemma_total_len(seq![first] + rest);
            lemma_total_len(rest);
            assert((seq![first] + rest).drop_first() =~= rest);
            assert(flat(seq![first] + rest) == first + flat(rest));
        } else {
            assert(seq![s].drop_last() =~= Seq::empty());
            assert(total_len(seq![s]) == total_len(Seq::<Seq<char>>::empty()) + s.len());
        }
    }
}

/// Counts `@type{...}` entries, ignoring any `@` that falls inside a value.
pub fn count_bibtex_entries(body: &str) -> (r: usize)
    ensures
        r == entry_state(lines_of(body@)).1,
{
    let chars = chars_of(body);
    let split = lines(chars.as_slice());
    let ghost all = runs(split@);
    proof {
        lemma_lines_shorter(chars@);
    }
    let mut depth: i128 = 0;
    let mut count: usize = 0;
    let mut i: usize = 0;
    let n: usize = chars.len();
    assert(chars@.len() == n);
    while i < split.len()
        invariant
            i <= split.len(),
            all == runs(split@),
            total_len(all) <= usize::MAX,
            count <= i,
            entry_state(all.take(i as int)) == (depth as int, count as nat),
        decreases split.len() - i,
    {
        let line = split[i];
        let delta: i128 = brace_change(line);
        proof {
            assert(all.take(i as int + 1).drop_last() =~= all.take(i as int));
            assert(all.take(i as int + 1).last() == line@);
            lemma_entry_state(all.take(i as int));
            lemma_entry_state(all.take(i as int + 1));
            lemma_total_len_take(all, i as int);
            lemma_total_len_take(all, i as int + 1);
        }
        if depth <= 0 && line.len() > 0 && line[0] == '@' {
            count += 1;
        }
        depth += delta;
        i += 1;
    }
    assert(all.take(all.len() as int) =~= all);
    count
}

/// The depth before a line, counted over all lines before it.
pub open spec fn depth_before(l: Seq<Seq<char>>, i: int) -> int
    decreases i,
{
    if i <= 0 {
        0
    } else {
        depth_before(l, i - 1) + braces(l[i - 1])
    }
}

proof fn lemma_nothing_dropped(l: Seq<Seq<char>>, fields: Seq<Seq<char>>, i: int)
    requires
        0 <= i <= l.len(),
        forall|k: int|
            0 <= k < l.len() ==> !starts_field(fields, depth_before(l, k), #[trigger] l[k]),
    ensures
        strip_lines(l.take(i), fields) == (StripState {
            out: flat(l.take(i)),
            depth: depth_before(l, i),
            dropping: None,
        }),
    decreases i,
{
    if i > 0 {
        lemma_nothing_dropped(l, fields, i - 1);
        assert(l.take(i).drop_last() =~= l.take(i - 1));
        lemma_flat_push(l.take(i - 1), l[i - 1]);
        assert(l.take(i - 1).push(l[i - 1]) =~= l.take(i));
    }
}

/// A stream none of whose lines starts one of the fields comes back unchanged.
pub proof fn law_nothing_to_strip(s: Seq<char>, fields: Seq<Seq<char>>)
    requires
        forall|k: int|
            0 <= k < pieces_of(s).len() ==> !starts_field(
                fields,
                depth_before(pieces_of(s), k),
                #[trigger] pieces_of(s)[k],
            ),
    ensures
        stripped_of(s, fields) == s,
{
    let l = pieces_of(s);
    lemma_nothing_dropped(l, fields, l.len() as int);
    assert(l.take(l.len() as int) =~= l);
    lemma_pieces_flat(s);
}

/// With no fields to strip, every stream comes back unchanged.
pub proof fn law_strip_nothing(s: Seq<char>)
    ensures
        stripped_of(s, Seq::empty()) == s,
{
    law_nothing_to_strip(s, Seq::empty());
}

/// The lines that are kept.
pub open spec fn kept_lines(l: Seq<Seq<char>>, fields: Seq<Seq<char>>) -> Seq<Seq<char>>
    decreases l.len(),
{
    if l.len() == 0 {
        Seq::empty()
    } else {
        let head = kept_lines(l.drop_last(), fields);
        let st = strip_lines(l.drop_last(), fields);
        if st.dropping is None && !starts_field(fields, st.depth, l.last()) {
            head.push(l.last())
        } else {
            head
        }
    }
}

/// Whether every dropped value ends where its field began, at depth 1: no line closes the entry
/// together with a dropped field.
pub open spec fn drops_end_level(l: Seq<Seq<char>>, fields: Seq<Seq<char>>) -> bool {
    forall|i: int|
        0 <= i < l.len() ==> {
            let st = strip_lines(#[trigger] l.take(i), fields);
            let next = strip_lines(l.take(i + 1), fields);
            (st.dropping is Some || starts_field(fields, st.depth, l[i])) && next.dropping is None
                ==> next.depth == 1
        }
}

proof fn lemma_kept(l: Seq<Seq<char>>, fields: Seq<Seq<char>>, n: int)
    requires
        0 <= n <= l.len(),
        drops_end_level(l, fields),
    ensures
        ({
            let st = strip_lines(l.take(n), fields);
            let kept = kept_lines(l.take(n), fields);
            &&& st.out == flat(kept)
            &&& depth_before(kept, kept.len() as int) == match st.dropping {
                Some(_) => 1,
                None => st.depth,
            }
            &&& st.dropping is Some ==> st.dropping == Some(1int)
            &&& forall|k: int|
                0 <= k < kept.len() ==> !starts_field(
                    fields,
                    depth_before(kept, k),
                    #[trigger] kept[k],
                )
        }),
    decreases n,
{
    if n > 0 {
        lemma_kept(l, fields, n - 1);
        assert(l.take(n).drop_last() =~= l.take(n - 1));
        assert(l.take(n).last() == l[n - 1]);
        let st0 = strip_lines(l.take(n - 1), fields);
        let st = strip_lines(l.take(n), fields);
        let kept0 = kept_lines(l.take(n - 1), fields);
        let kept = kept_lines(l.take(n), fields);
        assert(l.take((n - 1) + 1) =~= l.take(n));
        if st0.dropping is None && !starts_field(fields, st0.depth, l[n - 1]) {
            lemma_flat_push(kept0, l[n - 1]);
            lemma_depth_before_push(kept0, l[n - 1], kept0.len() as int);
            assert forall|k: int| 0 <= k < kept.len() implies !starts_field(
                fields,
                depth_before(kept, k),
                #[trigger] kept[k],
            ) by {
                lemma_depth_before_push(kept0, l[n - 1], k);
                if k < kept0.len() {
                    assert(kept[k] == kept0[k]);
                }
            }
        }
    }
}

proof fn lemma_depth_before_push(l: Seq<Seq<char>>, x: Seq<char>, i: int)
    requires
        0 <= i <= l.len(),
    ensures
        depth_before(l.push(x), i) == depth_before(l, i),
    decreases i,
{
    if i > 0 {
        lemma_depth_before_push(l, x, i - 1);
    }
}

/// Lines that each end in a newline, but for the last, and hold no other.
pub open spec fn newline_ended(l: Seq<Seq<char>>) -> bool {
    &&& forall|i: int| 0 <= i < l.len() ==> (#[trigger] l[i]).len() > 0
    &&& forall|i: int|
        0 <= i < l.len() - 1 ==> index_of(#[trigger] l[i], '\n') == l[i].len() - 1
    &&& l.len() > 0 ==> index_of(l.last(), '\n') >= l.last().len() - 1
}

/// The first newline stays where it is when text is added behind it.
pub proof fn lemma_index_of_prefix(a: Seq<char>, b: Seq<char>)
    requires
        index_of(a, '\n') < a.len(),
    ensures
        index_of(a + b, '\n') == index_of(a, '\n'),
{
    crate::text::lemma_index_of(a, '\n');
    let e = index_of(a, '\n') as int;
    assert forall|k: int| 0 <= k < e implies (a + b)[k] != '\n' by {
        assert((a + b)[k] == a[k]);
    }
    crate::text::lemma_index_of_is(a + b, '\n', e);
}

/// Cutting lines that were put together gives the lines back.
pub proof fn lemma_pieces_of_flat(l: Seq<Seq<char>>)
    requires
        newline_ended(l),
    ensures
        pieces_of(flat(l)) == l,
    decreases l.len(),
{
    if l.len() == 0 {
        assert(flat(l) =~= Seq::empty());
        assert(pieces_of(flat(l)) =~= l);
    } else {
        let rest = l.drop_first();
        let s = flat(l);
        assert(s == l[0] + flat(rest));
        crate::text::lemma_index_of(l[0], '\n');
        assert(newline_ended(rest)) by {
            assert forall|i: int| 0 <= i < rest.len() implies (#[trigger] rest[i]).len() > 0 by {
                assert(rest[i] == l[i + 1]);
            }
            assert forall|i: int| 0 <= i < rest.len() - 1 implies index_of(
                #[trigger] rest[i],
                '\n',
            ) == rest[i].len() - 1 by {
                assert(rest[i] == l[i + 1]);
            }
        }
        lemma_pieces_of_flat(rest);
        if index_of(l[0], '\n') == l[0].len() - 1 {
            lemma_index_of_prefix(l[0], flat(rest));
            assert(s.take(l[0].len() as int) =~= l[0]);
            assert(s.skip(l[0].len() as int) =~= flat(rest));
            assert(pieces_of(s) =~= l);
        } else {
            assert(l.len() == 1);
            assert(rest =~= Seq::empty());
            assert(flat(rest) =~= Seq::empty());
            assert(s =~= l[0]);
            assert(pieces_of(s) =~= l);
        }
    }
}

/// The pieces of a text are such lines.
pub proof fn lemma_pieces_newline_ended(s: Seq<char>)
    ensures
        newline_ended(pieces_of(s)),
    decreases s.len(),
{
    crate::text::lemma_index_of(s, '\n');
    let e = index_of(s, '\n') as int;
    if s.len() > 0 && e < s.len() {
        let rest = pieces_of(s.skip(e + 1));
        let all = pieces_of(s);
        lemma_pieces_newline_ended(s.skip(e + 1));
        let first = s.take(e + 1);
        crate::text::lemma_index_of_is(first, '\n', e);
        assert(all =~= seq![first] + rest);
        assert forall|i: int| 0 <= i < all.len() implies (#[trigger] all[i]).len() > 0 by {
            if i > 0 {
                assert(all[i] == rest[i - 1]);
            }
        }
        assert forall|i: int| 0 <= i < all.len() - 1 implies index_of(#[trigger] all[i], '\n')
            == all[i].len() - 1 by {
            if i > 0 {
                assert(all[i] == rest[i - 1]);
            }
        }
        if rest.len() > 0 {
            assert(all.last() == rest.last());
        }
    }
}

/// The lines kept of such lines are such lines again.
pub proof fn lemma_kept_newline_ended(l: Seq<Seq<char>>, fields: Seq<Seq<char>>)
    requires
        newline_ended(l),
    ensures
        newline_ended(kept_lines(l, fields)),
        kept_lines(l, fields).len() > 0 ==> l.contains(kept_lines(l, fields).last()),
        forall|i: int|
            0 <= i < kept_lines(l, fields).len() ==> index_of(
                #[trigger] kept_lines(l, fields)[i],
                '\n',
            ) == kept_lines(l, fields)[i].len() - 1 || (i == kept_lines(l, fields).len() - 1
                && kept_lines(l, fields)[i] == l.last()),
    decreases l.len(),
{
    if l.len() > 0 {
        let t = l.drop_last();
        let x = l.last();
        assert(newline_ended(t)) by {
            assert forall|i: int| 0 <= i < t.len() implies (#[trigger] t[i]).len() > 0 by {
                assert(t[i] == l[i]);
            }
            assert forall|i: int| 0 <= i < t.len() - 1 implies index_of(#[trigger] t[i], '\n')
                == t[i].len() - 1 by {
                assert(t[i] == l[i]);
            }
            if t.len() > 0 {
                assert(t.last() == l[t.len() - 1]);
            }
        }
        lemma_kept_newline_ended(t, fields);
        let kt = kept_lines(t, fields);
        let k = kept_lines(l, fields);
        // Every line before the last one ends in its newline.
        assert forall|i: int| 0 <= i < kt.len() implies index_of(#[trigger] kt[i], '\n')
            == kt[i].len() - 1 by {
            if i == kt.len() - 1 && kt[i] == t.last() {
                assert(t.last() == l[t.len() - 1]);
            }
        }
        assert(l[l.len() - 1] == x);
        if k.len() > kt.len() {
            assert forall|i: int| 0 <= i < k.len() implies (#[trigger] k[i]).len() > 0 by {
                if i < kt.len() {
                    assert(k[i] == kt[i]);
                }
            }
            assert forall|i: int| 0 <= i < k.len() - 1 implies index_of(#[trigger] k[i], '\n')
                == k[i].len() - 1 by {
                assert(k[i] == kt[i]);
            }
        } else if kt.len() > 0 {
            let j = choose|j: int| 0 <= j < t.len() && t[j] == kt.last();
            assert(l[j] == kt.last());
        }
    }
}

/// No stripped field is left: no line of the result starts one of the fields, as long as no
/// dropped value closes its entry on the same line.
pub proof fn law_no_stripped_field_left(s: Seq<char>, fields: Seq<Seq<char>>, k: int)
    requires
        drops_end_level(pieces_of(s), fields),
        0 <= k < pieces_of(stripped_of(s, fields)).len(),
    ensures
        !starts_field(
            fields,
            depth_before(pieces_of(stripped_of(s, fields)), k),
            pieces_of(stripped_of(s, fields))[k],
        ),
{
    let l = pieces_of(s);
    let kept = kept_lines(l, fields);
    lemma_kept(l, fields, l.len() as int);
    assert(l.take(l.len() as int) =~= l);
    lemma_pieces_newline_ended(s);
    lemma_kept_newline_ended(l, fields);
    lemma_pieces_of_flat(kept);
}

/// Stripping a second time changes nothing, under the same condition.
pub proof fn law_strip_twice(s: Seq<char>, fields: Seq<Seq<char>>)
    requires
        drops_end_level(pieces_of(s), fields),
    ensures
        stripped_of(stripped_of(s, fields), fields) == stripped_of(s, fields),
{
    let t = stripped_of(s, fields);
    assert forall|k: int| 0 <= k < pieces_of(t).len() implies !starts_field(
        fields,
        depth_before(pieces_of(t), k),
        #[trigger] pieces_of(t)[k],
    ) by {
        law_no_stripped_field_left(s, fields, k);
    }
    law_nothing_to_strip(t, fields);
}

} // verus!
