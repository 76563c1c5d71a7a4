//! Writing BibTeX entries.
use crate::lines::push_chars;
use crate::lines::runs;
use crate::lines::split_whitespace;
use crate::lines::words_of;
use crate::text::ascii_lower;
use crate::text::chars_of;
use crate::text::index_of;
use crate::text::is_ascii_digit;
use crate::text::is_ascii_letter;
use crate::text::is_digit;
use crate::text::is_letter;
use crate::text::opt_text;
use crate::text::position;
use crate::text::string_of;
use crate::text::to_ascii_lower;
use vstd::prelude::*;
use vstd::slice::slice_subrange;

verus! {

/// Named values, in order.
pub type Fields = Seq<(Seq<char>, Seq<char>)>;

/// The texts that a sequence of string pairs holds.
pub open spec fn pairs(v: Seq<(String, String)>) -> Fields {
    v.map_values(|p: (String, String)| (p.0@, p.1@))
}

/// The fields, and one more where there is a value for it.
pub open spec fn with_field(f: Fields, name: Seq<char>, value: Option<Seq<char>>) -> Fields {
    match value {
        Some(v) => f.push((name, v)),
        None => f,
    }
}

/// Adds a field where there is a value for it.
pub fn add_field(fields: &mut Vec<(String, String)>, name: &str, value: Option<String>)
    ensures
        pairs(final(fields)@) == with_field(pairs(old(fields)@), name@, opt_text(value)),
{
    if let Some(v) = value {
        let ghost before = pairs(fields@);
        let ghost shown = v@;
        fields.push((name.to_string(), v));
        assert(pairs(fields@) =~= before.push((name@, shown)));
    }
}

/// What a character is written as inside a field.
pub open spec fn escape(c: char) -> Seq<char> {
    if c == '\\' {
        "\\textbackslash{}"@
    } else if c == '{' {
        "\\{"@
    } else if c == '}' {
        "\\}"@
    } else if c == '&' || c == '%' || c == '$' || c == '#' || c == '_' {
        seq!['\\', c]
    } else if c == '~' {
        "\\textasciitilde{}"@
    } else if c == '^' {
        "\\textasciicircum{}"@
    } else {
        seq![c]
    }
}

/// A text with every character written as `escape` says.
pub open spec fn escaped(s: Seq<char>) -> Seq<char>
    decreases s.len(),
{
    if s.len() == 0 {
        Seq::empty()
    } else {
        escaped(s.drop_last()) + escape(s.last())
    }
}

/// Escapes every character that would otherwise end the field, start a comment or unbalance
/// the braces. Titles come straight out of a catalogue, so nothing can be assumed safe.
pub fn bibtex_escape(v: &str) -> (r: String)
    ensures
        r@ == escaped(v@),
{
    let s = chars_of(v);
    let mut out = String::new();
    let mut i: usize = 0;
    while i < s.len()
        invariant
            i <= s.len(),
            out@ == escaped(s@.take(i as int)),
        decreases s.len() - i,
    {
        let c = s[i];
        assert(s@.take(i as int + 1).drop_last() =~= s@.take(i as int));
        let ghost before = out@;
        if c == '\\' {
            out.push_str("\\textbackslash{}");
        } else if c == '{' {
            out.push_str("\\{");
        } else if c == '}' {
            out.push_str("\\}");
        } else if c == '&' || c == '%' || c == '$' || c == '#' || c == '_' {
            out.push('\\');
            out.push(c);
            assert(out@ =~= before + seq!['\\', c]);
        } else if c == '~' {
            out.push_str("\\textasciitilde{}");
        } else if c == '^' {
            out.push_str("\\textasciicircum{}");
        } else {
            out.push(c);
            assert(out@ =~= before + seq![c]);
        }
        i += 1;
    }
    assert(s@.take(s@.len() as int) =~= s@);
    out
}

/// One TAB-indented `name = {value},` line per field.
pub open spec fn field_lines(f: Fields) -> Seq<char>
    decreases f.len(),
{
    if f.len() == 0 {
        Seq::empty()
    } else {
        field_lines(f.drop_last()) + ("\t"@ + f.last().0 + " = {"@ + escaped(f.last().1) + "},\n"@)
    }
}

/// A BibTeX entry.
pub open spec fn entry_text(kind: Seq<char>, key: Seq<char>, f: Fields) -> Seq<char> {
    "@"@ + kind + "{"@ + key + ",\n"@ + field_lines(f) + "}\n"@
}

/// Renders a BibTeX entry in the shape Zotero's importer expects: a citation key, then one
/// TAB-indented `field = {value},` per line.
pub fn bibtex_entry(kind: &str, key: &str, fields: &[(String, String)]) -> (r: String)
    ensures
        r@ == entry_text(kind@, key@, pairs(fields@)),
{
    let mut out = crate::text::concat5("@", kind, "{", key, ",\n");
    let ghost head = out@;
    let ghost all = pairs(fields@);
    let mut i: usize = 0;
    assert(out@ =~= head + field_lines(all.take(0)));
    while i < fields.len()
        invariant
            i <= fields.len(),
            all == pairs(fields@),
            out@ == head + field_lines(all.take(i as int)),
        decreases fields.len() - i,
    {
        assert(all.take(i as int + 1).drop_last() =~= all.take(i as int));
        let value = bibtex_escape(fields[i].1.as_str());
        let line = crate::text::concat5("\t", fields[i].0.as_str(), " = {", value.as_str(), "},\n");
        out.push_str(line.as_str());
        assert(out@ =~= head + field_lines(all.take(i as int + 1)));
        i += 1;
    }
    assert(all.take(all.len() as int) =~= all);
    out.push_str("}\n");
    out
}

/// The first plausible 4-digit year at or after a position.
pub open spec fn year_from(s: Seq<char>, i: int) -> Option<Seq<char>>
    decreases s.len() - i,
{
    if i < 0 || i + 4 > s.len() {
        None
    } else if (s[i] == '1' || s[i] == '2') && is_digit(s[i + 1]) && is_digit(s[i + 2]) && is_digit(
        s[i + 3],
    ) {
        Some(s.subrange(i, i + 4))
    } else {
        year_from(s, i + 1)
    }
}

/// The first plausible 4-digit year in a free-form date: four digits in a row, the first of
/// them 1 or 2.
pub fn find_year(date: &str) -> (r: Option<String>)
    ensures
        opt_text(r) == year_from(date@, 0),
{
    let s = chars_of(date);
    let mut i: usize = 0;
    while i < s.len() && s.len() - i >= 4
        invariant
            i <= s.len(),
            s@ == date@,
            year_from(s@, 0) == year_from(s@, i as int),
        decreases s.len() - i,
    {
        if (s[i] == '1' || s[i] == '2') && is_ascii_digit(s[i + 1]) && is_ascii_digit(s[i + 2])
            && is_ascii_digit(s[i + 3]) {
            return Some(string_of(slice_subrange(s.as_slice(), i, i + 4)));
        }
        i += 1;
    }
    None
}

/// The ASCII letters and digits of a text, in lower case.
pub open spec fn key_chars(s: Seq<char>) -> Seq<char>
    decreases s.len(),
{
    if s.len() == 0 {
        Seq::empty()
    } else if is_letter(s.last()) || is_digit(s.last()) {
        key_chars(s.drop_last()).push(ascii_lower(s.last()))
    } else {
        key_chars(s.drop_last())
    }
}

fn ascii_key(s: &[char]) -> (r: Vec<char>)
    ensures
        r@ == key_chars(s@),
{
    let mut out: Vec<char> = Vec::new();
    let mut i: usize = 0;
    while i < s.len()
        invariant
            i <= s.len(),
            out@ == key_chars(s@.take(i as int)),
        decreases s.len() - i,
    {
        assert(s@.take(i as int + 1).drop_last() =~= s@.take(i as int));
        if is_ascii_letter(s[i]) || is_ascii_digit(s[i]) {
            out.push(to_ascii_lower(s[i]));
        }
        i += 1;
    }
    assert(s@.take(s@.len() as int) =~= s@);
    out
}

/// The surname in a name: what stands before the first comma, else the last word, else all of
/// it. "Benson, Dennis A" and "Ian Goodfellow" both reduce to the surname.
pub open spec fn surname(a: Seq<char>) -> Seq<char> {
    let comma = index_of(a, ',') as int;
    let words = words_of(a);
    if comma < a.len() {
        a.take(comma)
    } else if words.len() > 0 {
        words.last()
    } else {
        a
    }
}

/// The first word that has an ASCII letter or digit, reduced to those; empty if none has.
pub open spec fn first_key_word(words: Seq<Seq<char>>) -> Seq<char>
    decreases words.len(),
{
    if words.len() == 0 {
        Seq::empty()
    } else if key_chars(words[0]).len() > 0 {
        key_chars(words[0])
    } else {
        first_key_word(words.drop_first())
    }
}

/// `lastnameYEARword`. The stem is the first author's surname, or the fallback where that
/// leaves nothing.
pub open spec fn citekey_text(
    author: Option<Seq<char>>,
    year: Option<Seq<char>>,
    title: Seq<char>,
    fallback: Seq<char>,
) -> Seq<char> {
    let last = match author {
        Some(a) => key_chars(surname(a)),
        None => Seq::empty(),
    };
    let stem = if last.len() == 0 {
        key_chars(fallback)
    } else {
        last
    };
    let y = match year {
        Some(y) => y,
        None => Seq::empty(),
    };
    stem + y + first_key_word(words_of(title))
}

fn surname_key(a: &str) -> (r: Vec<char>)
    ensures
        r@ == key_chars(surname(a@)),
{
    let s = chars_of(a);
    let comma: usize = position(s.as_slice(), ',');
    if comma < s.len() {
        let head = slice_subrange(s.as_slice(), 0, comma);
        assert(head@ =~= a@.take(comma as int));
        return ascii_key(head);
    }
    let words = split_whitespace(s.as_slice());
    assert(runs(words@).len() == words@.len());
    if words.len() > 0 {
        ascii_key(words[words.len() - 1])
    } else {
        ascii_key(s.as_slice())
    }
}

fn title_word(title: &str) -> (r: Vec<char>)
    ensures
        r@ == first_key_word(words_of(title@)),
{
    let s = chars_of(title);
    let words = split_whitespace(s.as_slice());
    let ghost all = runs(words@);
    let mut i: usize = 0;
    assert(all.skip(0) =~= all);
    while i < words.len()
        invariant
            i <= words.len(),
            all == runs(words@),
            all == words_of(title@),
            first_key_word(all) == first_key_word(all.skip(i as int)),
        decreases words.len() - i,
    {
        let key = ascii_key(words[i]);
        assert(all.skip(i as int)[0] == words@[i as int]@);
        if key.len() > 0 {
            return key;
        }
        assert(all.skip(i as int).drop_first() =~= all.skip(i as int + 1));
        i += 1;
    }
    Vec::new()
}

/// A citation key, restricted to ASCII alphanumerics so that it is always legal. Falls back to
/// the identifier when the record has no author, since a key is mandatory.
pub fn citekey(first_author: Option<&str>, year: Option<&str>, title: &str, fallback: &str) -> (r:
    String)
    ensures
        r@ == citekey_text(
            crate::json::opt_str(first_author),
            crate::json::opt_str(year),
            title@,
            fallback@,
        ),
{
    let last: Vec<char> = match first_author {
        Some(a) => surname_key(a),
        None => Vec::new(),
    };
    let mut out: Vec<char> = if last.len() == 0 {
        ascii_key(&chars_of(fallback))
    } else {
        last
    };
    let ghost stem = out@;
    match year {
        Some(y) => {
            push_chars(&mut out, &chars_of(y));
        },
        None => {
            assert(stem + Seq::<char>::empty() =~= stem);
        },
    }
    push_chars(&mut out, &title_word(title));
    string_of(out.as_slice())
}

} // verus!
