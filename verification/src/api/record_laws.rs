//! What becomes of a catalogue record in BibTeX, and which answers are taken for one.
use crate::api::bibtex::citekey_text;
use crate::api::bibtex::entry_text;
use crate::api::bibtex::escaped;
use crate::api::bibtex::field_lines;
use crate::api::bibtex::first_key_word;
use crate::api::bibtex::key_chars;
use crate::api::bibtex::surname;
use crate::api::bibtex::with_field;
use crate::api::bibtex::year_from;
use crate::api::bibtex::Fields;
use crate::api::fetch::arxiv_answer;
use crate::api::fetch::doi_answer;
use crate::api::fetch::is_success;
use crate::api::fetch::isbn_answer;
use crate::api::fetch::pubmed_answer;
use crate::api::fetch::pubmed_bibtex;
use crate::api::medline::all_values;
use crate::api::medline::article_fields;
use crate::api::medline::column;
use crate::api::medline::doi_of_fields;
use crate::api::medline::first_value;
use crate::api::medline::marked_doi;
use crate::api::medline::medline_authors;
use crate::api::medline::medline_step;
use crate::api::medline::medline_title;
use crate::api::openlibrary::book_fields;
use crate::api::openlibrary::book_title;
use crate::api::openlibrary::names_in;
use crate::json::JsonTree;
use crate::lines::joined;
use crate::lines::width;
use crate::lines::word_state;
use crate::lines::words_of;
use crate::text::all_ascii;
use crate::text::ascii_lower;
use crate::text::decimal;
use crate::text::is_digit;
use crate::text::is_letter;
use crate::text::is_white;
use crate::text::lemma_index_of_is;
use crate::text::trimmed;
use crate::text::trimmed_end;
use crate::text::trimmed_start;
use vstd::prelude::*;

verus! {

/// Whether a record has a field with a value.
pub open spec fn has_field(f: Fields, name: Seq<char>, value: Seq<char>) -> bool {
    exists|i: int| 0 <= i < f.len() && #[trigger] f[i] == (name, value)
}

proof fn lemma_with_field(
    f: Fields,
    name: Seq<char>,
    value: Option<Seq<char>>,
    n: Seq<char>,
    v: Seq<char>,
)
    ensures
        has_field(with_field(f, name, value), n, v) <==> has_field(f, n, v) || (name == n && value
            == Some(v)),
{
    let all = with_field(f, name, value);
    if has_field(f, n, v) {
        let i = choose|i: int| 0 <= i < f.len() && #[trigger] f[i] == (n, v);
        assert(all[i] == (n, v));
    }
    if name == n && value == Some(v) {
        assert(all[all.len() - 1] == (n, v));
    }
    if has_field(all, n, v) {
        let i = choose|i: int| 0 <= i < all.len() && #[trigger] all[i] == (n, v);
        if i < f.len() {
            assert(f[i] == (n, v));
        }
    }
}

/// What the first line with a tag says is the value of the tag.
proof fn lemma_first_value(f: Fields, tag: Seq<char>, k: int)
    requires
        0 <= k < f.len(),
        f[k].0 == tag,
        f[k].1.len() > 0,
        forall|i: int| 0 <= i < k ==> (#[trigger] f[i]).0 != tag,
    ensures
        first_value(f, tag) == Some(f[k].1),
    decreases f.len(),
{
    if k > 0 {
        let t = f.drop_first();
        assert(f[0].0 != tag);
        assert forall|i: int| 0 <= i < k - 1 implies (#[trigger] t[i]).0 != tag by {
            assert(t[i] == f[i + 1]);
        }
        lemma_first_value(t, tag, k - 1);
    }
}

proof fn lemma_article_field(f: Fields, title: Seq<char>, pmid: Seq<char>, n: Seq<char>, v: Seq<char>)
    ensures
        has_field(article_fields(f, title, pmid), n, v) <==> {
            ||| n == "title"@ && v == title
            ||| n == "author"@ && medline_authors(f).len() > 0 && v == joined(
                medline_authors(f),
                " and "@,
            )
            ||| n == "journal"@ && crate::api::medline::medline_journal(f) == Some(v)
            ||| n == "year"@ && crate::api::medline::medline_year(f) == Some(v)
            ||| n == "volume"@ && first_value(f, "VI"@) == Some(v)
            ||| n == "number"@ && first_value(f, "IP"@) == Some(v)
            ||| n == "pages"@ && first_value(f, "PG"@) == Some(v)
            ||| n == "doi"@ && doi_of_fields(f) == Some(v)
            ||| n == "abstract"@ && first_value(f, "AB"@) == Some(v)
            ||| n == "note"@ && v == "PMID: "@ + pmid
        },
{
    let e0 = seq![("title"@, title)];
    let authors = crate::api::medline::author_list(medline_authors(f));
    let e1 = with_field(e0, "author"@, authors);
    let e2 = with_field(e1, "journal"@, crate::api::medline::medline_journal(f));
    let e3 = with_field(e2, "year"@, crate::api::medline::medline_year(f));
    let e4 = with_field(e3, "volume"@, first_value(f, "VI"@));
    let e5 = with_field(e4, "number"@, first_value(f, "IP"@));
    let e6 = with_field(e5, "pages"@, first_value(f, "PG"@));
    let e7 = with_field(e6, "doi"@, doi_of_fields(f));
    let e8 = with_field(e7, "abstract"@, first_value(f, "AB"@));
    lemma_with_field(e0, "author"@, authors, n, v);
    lemma_with_field(e1, "journal"@, crate::api::medline::medline_journal(f), n, v);
    lemma_with_field(e2, "year"@, crate::api::medline::medline_year(f), n, v);
    lemma_with_field(e3, "volume"@, first_value(f, "VI"@), n, v);
    lemma_with_field(e4, "number"@, first_value(f, "IP"@), n, v);
    lemma_with_field(e5, "pages"@, first_value(f, "PG"@), n, v);
    lemma_with_field(e6, "doi"@, doi_of_fields(f), n, v);
    lemma_with_field(e7, "abstract"@, first_value(f, "AB"@), n, v);
    lemma_with_field(e8, "note"@, Some("PMID: "@ + pmid), n, v);
    assert(has_field(e0, n, v) <==> n == "title"@ && v == title) by {
        assert(e0[0] == ("title"@, title));
    }
}

/// What a PubMed record says under a tag stands in the BibTeX entry under the field for it: `VI` is
/// the volume, `IP` the number, `PG` the pages, `AB` the abstract and `JT` the journal.
pub proof fn law_medline_tags_become_fields(
    f: Fields,
    title: Seq<char>,
    pmid: Seq<char>,
    tag: Seq<char>,
    k: int,
)
    requires
        0 <= k < f.len(),
        f[k].0 == tag,
        f[k].1.len() > 0,
        forall|i: int| 0 <= i < k ==> (#[trigger] f[i]).0 != tag,
    ensures
        tag == "VI"@ ==> has_field(article_fields(f, title, pmid), "volume"@, f[k].1),
        tag == "IP"@ ==> has_field(article_fields(f, title, pmid), "number"@, f[k].1),
        tag == "PG"@ ==> has_field(article_fields(f, title, pmid), "pages"@, f[k].1),
        tag == "AB"@ ==> has_field(article_fields(f, title, pmid), "abstract"@, f[k].1),
        tag == "JT"@ ==> has_field(article_fields(f, title, pmid), "journal"@, f[k].1),
        has_field(article_fields(f, title, pmid), "title"@, title),
        has_field(article_fields(f, title, pmid), "note"@, "PMID: "@ + pmid),
{
    lemma_first_value(f, tag, k);
    lemma_article_field(f, title, pmid, "volume"@, f[k].1);
    lemma_article_field(f, title, pmid, "number"@, f[k].1);
    lemma_article_field(f, title, pmid, "pages"@, f[k].1);
    lemma_article_field(f, title, pmid, "abstract"@, f[k].1);
    lemma_article_field(f, title, pmid, "journal"@, f[k].1);
    lemma_article_field(f, title, pmid, "title"@, title);
    lemma_article_field(f, title, pmid, "note"@, "PMID: "@ + pmid);
}

/// The authors, the year and the DOI that a PubMed record gives stand in the entry.
pub proof fn law_medline_authors_year_and_doi(
    f: Fields,
    title: Seq<char>,
    pmid: Seq<char>,
    v: Seq<char>,
)
    ensures
        medline_authors(f).len() > 0 ==> has_field(
            article_fields(f, title, pmid),
            "author"@,
            joined(medline_authors(f), " and "@),
        ),
        doi_of_fields(f) == Some(v) ==> has_field(article_fields(f, title, pmid), "doi"@, v),
        first_value(f, "DP"@) is Some && year_from(first_value(f, "DP"@).unwrap(), 0) == Some(v)
            ==> has_field(article_fields(f, title, pmid), "year"@, v),
{
    lemma_article_field(f, title, pmid, "author"@, joined(medline_authors(f), " and "@));
    lemma_article_field(f, title, pmid, "doi"@, v);
    lemma_article_field(f, title, pmid, "year"@, v);
}

proof fn lemma_all_values(f: Fields, tag: Seq<char>, v: Seq<char>)
    ensures
        all_values(f, tag).contains(v) <==> v.len() > 0 && exists|i: int|
            0 <= i < f.len() && #[trigger] f[i] == (tag, v),
    decreases f.len(),
{
    if f.len() > 0 {
        let t = f.drop_last();
        lemma_all_values(t, tag, v);
        let head = all_values(t, tag);
        let all = all_values(f, tag);
        assert(f[f.len() - 1] == f.last());
        if exists|i: int| 0 <= i < f.len() && #[trigger] f[i] == (tag, v) {
            let i = choose|i: int| 0 <= i < f.len() && #[trigger] f[i] == (tag, v);
            if i < t.len() {
                assert(t[i] == (tag, v));
            }
        }
        if exists|i: int| 0 <= i < t.len() && #[trigger] t[i] == (tag, v) {
            let i = choose|i: int| 0 <= i < t.len() && #[trigger] t[i] == (tag, v);
            assert(f[i] == (tag, v));
        }
        if head.contains(v) {
            let i = choose|i: int| 0 <= i < head.len() && head[i] == v;
            assert(all[i] == v);
        }
        if all.contains(v) {
            let i = choose|i: int| 0 <= i < all.len() && all[i] == v;
            if i < head.len() {
                assert(head[i] == v);
            } else {
                assert(f[f.len() - 1] == (tag, v));
            }
        }
        if f.last() == (tag, v) && v.len() > 0 {
            assert(all[all.len() - 1] == v);
        }
    }
}

/// The authors of a PubMed record are those under `FAU`, their full names, and only where there are
/// none the short forms under `AU`.
pub proof fn law_medline_authors(f: Fields, name: Seq<char>)
    requires
        name.len() > 0,
    ensures
        has_field(f, "FAU"@, name) ==> medline_authors(f).contains(name),
        medline_authors(f).contains(name) ==> has_field(f, "FAU"@, name) || has_field(
            f,
            "AU"@,
            name,
        ),
        (forall|n: Seq<char>| n.len() > 0 ==> !#[trigger] has_field(f, "FAU"@, n)) && has_field(
            f,
            "AU"@,
            name,
        ) ==> medline_authors(f).contains(name),
{
    lemma_all_values(f, "FAU"@, name);
    lemma_all_values(f, "AU"@, name);
    let full = all_values(f, "FAU"@);
    if full.len() > 0 {
        lemma_all_values(f, "FAU"@, full[0]);
        assert(full.contains(full[0]));
        assert(has_field(f, "FAU"@, full[0]));
    }
}

/// The title of a PubMed record is that under `TI` without the full stop at its end.
pub proof fn law_medline_title(f: Fields, title: Seq<char>, k: int)
    requires
        0 <= k < f.len(),
        f[k] == ("TI"@, title.push('.')),
        forall|i: int| 0 <= i < k ==> (#[trigger] f[i]).0 != "TI"@,
        title.len() > 0,
        trimmed(title) == title,
        title.last() != '.',
    ensures
        medline_title(f) == Some(title),
{
    reveal_strlit(".");
    lemma_first_value(f, "TI"@, k);
    let t = title.push('.');
    assert(t.skip(t.len() - 1) =~= "."@);
    assert(t.take(t.len() - 1) =~= title);
    assert(crate::text::without_suffixes(title, "."@) == title) by {
        if title.skip(title.len() - 1) == "."@ {
            assert(title.skip(title.len() - 1)[0] == title.last());
        }
    }
}

/// The DOI of a PubMed record is what `[doi]` marks under `LID` or `AID`; the same mark under any
/// other tag is not read.
pub proof fn law_medline_doi(f: Fields, k: int, doi: Seq<char>)
    requires
        0 <= k < f.len(),
        f[k].0 == "LID"@ || f[k].0 == "AID"@,
        f[k].1 == doi + " [doi]"@,
        trimmed(doi) == doi,
        "10."@.is_prefix_of(doi),
        forall|i: int| 0 <= i < k ==> (#[trigger] f[i]).0 != "LID"@ && f[i].0 != "AID"@,
    ensures
        doi_of_fields(f) == Some(doi),
    decreases k,
{
    if k > 0 {
        let t = f.drop_first();
        assert(f[0].0 != "LID"@ && f[0].0 != "AID"@);
        assert forall|i: int| 0 <= i < k - 1 implies (#[trigger] t[i]).0 != "LID"@ && t[i].0
            != "AID"@ by {
            assert(t[i] == f[i + 1]);
        }
        law_medline_doi(t, k - 1, doi);
    } else {
        reveal_strlit(" [doi]");
        reveal_strlit("[doi]");
        let v = doi + " [doi]"@;
        let cut = v.len() - 5;
        assert(v.skip(cut) =~= "[doi]"@);
        assert(v.take(cut) =~= doi.push(' '));
        reveal_strlit("10.");
        crate::api::identifier_laws::lemma_ends(doi);
        lemma_trim_space(doi);
        assert(marked_doi(v) == Some(doi));
    }
}

proof fn lemma_trim_space(s: Seq<char>)
    requires
        s.len() > 0,
        !is_white(s[0]),
        !is_white(s.last()),
    ensures
        trimmed(s.push(' ')) == s,
{
    let t = s.push(' ');
    assert(t[0] == s[0]);
    assert(trimmed_start(t) == t);
    assert(t.drop_last() =~= s);
    assert(trimmed_end(s) == s);
}

/// A field of a record stands in its entry, on a line of its own and with its value in braces.
pub proof fn law_entry_holds_every_field(
    kind: Seq<char>,
    key: Seq<char>,
    f: Fields,
    i: int,
) -> (at: int)
    requires
        0 <= i < f.len(),
    ensures
        ({
            let line = "\t"@ + f[i].0 + " = {"@ + escaped(f[i].1) + "},\n"@;
            &&& 0 <= at <= entry_text(kind, key, f).len() - line.len()
            &&& entry_text(kind, key, f).subrange(at, at + line.len()) == line
        }),
{
    let line = "\t"@ + f[i].0 + " = {"@ + escaped(f[i].1) + "},\n"@;
    let head = "@"@ + kind + "{"@ + key + ",\n"@;
    let at = lemma_line_at(f, i);
    let all = entry_text(kind, key, f);
    assert(all =~= head + field_lines(f) + "}\n"@);
    assert(all.subrange(head.len() + at, head.len() + at + line.len()) =~= field_lines(f).subrange(
        at,
        at + line.len(),
    ));
    head.len() + at
}

proof fn lemma_line_at(f: Fields, i: int) -> (at: int)
    requires
        0 <= i < f.len(),
    ensures
        ({
            let line = "\t"@ + f[i].0 + " = {"@ + escaped(f[i].1) + "},\n"@;
            &&& 0 <= at <= field_lines(f).len() - line.len()
            &&& field_lines(f).subrange(at, at + line.len()) == line
        }),
    decreases f.len(),
{
    let t = f.drop_last();
    let line = "\t"@ + f[i].0 + " = {"@ + escaped(f[i].1) + "},\n"@;
    let head = field_lines(t);
    let all = field_lines(f);
    if i < t.len() {
        let at = lemma_line_at(t, i);
        assert(t[i] == f[i]);
        assert(all.subrange(at, at + line.len()) =~= head.subrange(at, at + line.len()));
        at
    } else {
        let at = head.len() as int;
        assert(all.subrange(at, at + line.len()) =~= line);
        at
    }
}

/// A value without special characters is written as it is.
pub proof fn law_plain_value_is_not_escaped(s: Seq<char>)
    requires
        forall|i: int|
            0 <= i < s.len() ==> {
                let c = #[trigger] s[i];
                c != '\\' && c != '{' && c != '}' && c != '&' && c != '%' && c != '$' && c != '#' && c
                    != '_' && c != '~' && c != '^'
            },
    ensures
        escaped(s) == s,
    decreases s.len(),
{
    if s.len() > 0 {
        let t = s.drop_last();
        assert forall|i: int| 0 <= i < t.len() implies ({
            let c = #[trigger] t[i];
            c != '\\' && c != '{' && c != '}' && c != '&' && c != '%' && c != '$' && c != '#' && c
                != '_' && c != '~' && c != '^'
        }) by {
            assert(t[i] == s[i]);
        }
        law_plain_value_is_not_escaped(t);
        let c = s[s.len() - 1];
        assert(c != '\\' && c != '{');
        assert(t + seq![s.last()] =~= s);
    } else {
        assert(escaped(s) =~= s);
    }
}

/// Escaping a value is escaping its parts.
pub proof fn law_escaping_goes_by_parts(a: Seq<char>, b: Seq<char>)
    ensures
        escaped(a + b) == escaped(a) + escaped(b),
    decreases b.len(),
{
    if b.len() == 0 {
        assert(a + b =~= a);
        assert(escaped(a) + escaped(b) =~= escaped(a));
    } else {
        law_escaping_goes_by_parts(a, b.drop_last());
        assert((a + b).drop_last() =~= a + b.drop_last());
        assert(escaped(a + b) =~= escaped(a) + escaped(b));
    }
}

/// The characters that mean something to TeX are written with a backslash.
pub proof fn law_special_characters_are_escaped(c: char)
    ensures
        c == '&' || c == '%' || c == '$' || c == '#' || c == '_' || c == '{' || c == '}' ==> escaped(
            seq![c],
        ) == seq!['\\', c],
        escaped(seq!['\\']) == "\\textbackslash{}"@,
        escaped(seq!['~']) == "\\textasciitilde{}"@,
        escaped(seq!['^']) == "\\textasciicircum{}"@,
{
    reveal_strlit("\\{");
    reveal_strlit("\\}");
    assert(seq![c].drop_last() =~= Seq::empty());
    assert(seq!['\\'].drop_last() =~= Seq::empty());
    assert(seq!['~'].drop_last() =~= Seq::empty());
    assert(seq!['^'].drop_last() =~= Seq::empty());
    reveal_with_fuel(escaped, 2);
    assert(escaped(Seq::empty()) =~= Seq::empty());
    if c == '&' || c == '%' || c == '$' || c == '#' || c == '_' || c == '{' || c == '}' {
        assert(escaped(seq![c]) =~= seq!['\\', c]);
    }
    assert(escaped(seq!['\\']) =~= "\\textbackslash{}"@);
    assert(escaped(seq!['~']) =~= "\\textasciitilde{}"@);
    assert(escaped(seq!['^']) =~= "\\textasciicircum{}"@);
}

/// A date has a year wherever four digits in it start with 1 or 2, and its year is the first such run.
pub proof fn law_year_is_found(s: Seq<char>, from: int)
    requires
        0 <= from,
    ensures
        match year_from(s, from) {
            Some(y) => exists|i: int|
                #![trigger s.subrange(i, i + 4)]
                from <= i <= s.len() - 4 && s.subrange(i, i + 4) == y && forall|j: int|
                    from <= j < i ==> !(((#[trigger] s[j]) == '1' || s[j] == '2') && is_digit(
                        s[j + 1],
                    ) && is_digit(s[j + 2]) && is_digit(s[j + 3])),
            None => forall|j: int|
                from <= j <= s.len() - 4 ==> !(((#[trigger] s[j]) == '1' || s[j] == '2')
                    && is_digit(s[j + 1]) && is_digit(s[j + 2]) && is_digit(s[j + 3])),
        },
    decreases s.len() - from,
{
    if from + 4 <= s.len() {
        if (s[from] == '1' || s[from] == '2') && is_digit(s[from + 1]) && is_digit(s[from + 2])
            && is_digit(s[from + 3]) {
            assert(s.subrange(from, from + 4) == year_from(s, from).unwrap());
        } else {
            law_year_is_found(s, from + 1);
            if let Some(y) = year_from(s, from + 1) {
                let i = choose|i: int|
                    #![trigger s.subrange(i, i + 4)]
                    from + 1 <= i <= s.len() - 4 && s.subrange(i, i + 4) == y && forall|j: int|
                        from + 1 <= j < i ==> !(((#[trigger] s[j]) == '1' || s[j] == '2')
                            && is_digit(s[j + 1]) && is_digit(s[j + 2]) && is_digit(s[j + 3]));
                assert(s.subrange(i, i + 4) == y);
            }
        }
    }
}

/// Small letters and digits.
pub open spec fn plain_word(s: Seq<char>) -> bool {
    s.len() > 0 && forall|i: int|
        0 <= i < s.len() ==> is_digit(#[trigger] s[i]) || (is_letter(s[i]) && s[i] as u32 >= 97)
}

proof fn lemma_plain_key(s: Seq<char>)
    requires
        forall|i: int|
            0 <= i < s.len() ==> is_digit(#[trigger] s[i]) || (is_letter(s[i]) && s[i] as u32
                >= 97),
    ensures
        key_chars(s) == s,
        word_state(s) == (Seq::<Seq<char>>::empty(), s),
    decreases s.len(),
{
    if s.len() > 0 {
        let t = s.drop_last();
        assert forall|i: int| 0 <= i < t.len() implies is_digit(#[trigger] t[i]) || (is_letter(
            t[i],
        ) && t[i] as u32 >= 97) by {
            assert(t[i] == s[i]);
        }
        lemma_plain_key(t);
        let c = s[s.len() - 1];
        assert(is_digit(c) || (is_letter(c) && c as u32 >= 97));
        assert(ascii_lower(c) == c);
        assert(t.push(s.last()) =~= s);
    } else {
        assert(key_chars(s) =~= s);
        assert(word_state(s).1 =~= s);
    }
}

/// A citation key is the last name of the first author, the year and the first word of the title.
pub proof fn law_citekey_parts(
    last: Seq<char>,
    first: Seq<char>,
    year: Seq<char>,
    word: Seq<char>,
    fallback: Seq<char>,
)
    requires
        plain_word(last),
        plain_word(word),
    ensures
        citekey_text(Some(last + ", "@ + first), Some(year), word, fallback) == last + year + word,
        citekey_text(None, Some(year), word, last) == last + year + word,
{
    reveal_strlit(", ");
    lemma_plain_key(last);
    lemma_plain_key(word);
    let a = last + ", "@ + first;
    let n = last.len() as int;
    assert(a[n] == ',');
    assert forall|k: int| 0 <= k < n implies a[k] != ',' by {
        assert(a[k] == last[k]);
        assert(is_digit(last[k]) || is_letter(last[k]));
    }
    lemma_index_of_is(a, ',', n);
    assert(a.take(n) =~= last);
    assert(surname(a) == last);
    assert(words_of(word) =~= seq![word]);
    assert(first_key_word(seq![word]) == word);
}

/// The fields of a book: title, authors, publisher, year, number of pages and ISBN.
pub proof fn law_book_fields(
    m: Map<Seq<char>, JsonTree>,
    title: Seq<char>,
    isbn: Seq<char>,
    authors: Seq<JsonTree>,
    pages: u64,
    shown: Seq<char>,
)
    requires
        m.contains_key("authors"@) && m["authors"@] == JsonTree::Array(authors),
        m.contains_key("number_of_pages"@) && m["number_of_pages"@] == JsonTree::Number(
            shown,
            Some(pages),
        ),
    ensures
        ({
            let f = book_fields(JsonTree::Object(m), title, isbn);
            &&& has_field(f, "title"@, title)
            &&& has_field(f, "isbn"@, isbn)
            &&& has_field(f, "pages"@, decimal(pages as nat))
            &&& names_in(authors).len() > 0 ==> has_field(
                f,
                "author"@,
                joined(names_in(authors), " and "@),
            )
        }),
{
    let record = JsonTree::Object(m);
    let names = joined(names_in(authors), " and "@);
    lemma_book_field(record, title, isbn, "title"@, title);
    lemma_book_field(record, title, isbn, "isbn"@, isbn);
    lemma_book_field(record, title, isbn, "pages"@, decimal(pages as nat));
    lemma_book_field(record, title, isbn, "author"@, names);
    assert(crate::api::openlibrary::names_under(record, "authors"@) == names_in(authors));
}

proof fn lemma_book_field(
    record: JsonTree,
    title: Seq<char>,
    isbn: Seq<char>,
    n: Seq<char>,
    v: Seq<char>,
)
    ensures
        has_field(book_fields(record, title, isbn), n, v) <==> {
            ||| n == "title"@ && v == title
            ||| n == "author"@ && crate::api::medline::author_list(
                crate::api::openlibrary::names_under(record, "authors"@),
            ) == Some(v)
            ||| n == "publisher"@ && crate::api::medline::first_text(
                crate::api::openlibrary::names_under(record, "publishers"@),
            ) == Some(v)
            ||| n == "year"@ && crate::api::openlibrary::book_year(record) == Some(v)
            ||| n == "pages"@ && record.member_natural("number_of_pages"@) is Some && v == decimal(
                record.member_natural("number_of_pages"@).unwrap() as nat,
            )
            ||| n == "isbn"@ && v == isbn
        },
{
    let e0 = seq![("title"@, title)];
    let a = crate::api::medline::author_list(
        crate::api::openlibrary::names_under(record, "authors"@),
    );
    let p = crate::api::medline::first_text(
        crate::api::openlibrary::names_under(record, "publishers"@),
    );
    let y = crate::api::openlibrary::book_year(record);
    let g = match record.member_natural("number_of_pages"@) {
        Some(n) => Some(decimal(n as nat)),
        None => None,
    };
    let e1 = with_field(e0, "author"@, a);
    let e2 = with_field(e1, "publisher"@, p);
    let e3 = with_field(e2, "year"@, y);
    let e4 = with_field(e3, "pages"@, g);
    lemma_with_field(e0, "author"@, a, n, v);
    lemma_with_field(e1, "publisher"@, p, n, v);
    lemma_with_field(e2, "year"@, y, n, v);
    lemma_with_field(e3, "pages"@, g, n, v);
    lemma_with_field(e4, "isbn"@, Some(isbn), n, v);
    assert(has_field(e0, n, v) <==> n == "title"@ && v == title) by {
        assert(e0[0] == ("title"@, title));
    }
}

/// The title of a book with a subtitle is both, with a colon between them; without one it is the
/// title alone.
pub proof fn law_book_title(m: Map<Seq<char>, JsonTree>, title: Seq<char>, sub: Seq<char>)
    requires
        m.contains_key("title"@) && m["title"@] == JsonTree::Text(title),
        title.len() > 0 && trimmed(title) == title && title.last() != ':',
        sub.len() > 0 && trimmed(sub) == sub,
    ensures
        m.contains_key("subtitle"@) && m["subtitle"@] == JsonTree::Text(sub) ==> book_title(
            JsonTree::Object(m),
        ) == Some(title + ": "@ + sub),
        !m.contains_key("subtitle"@) ==> book_title(JsonTree::Object(m)) == Some(title),
{
    reveal_strlit(":");
    assert(crate::text::without_suffixes(title, ":"@) == title) by {
        if title.skip(title.len() - 1) == ":"@ {
            assert(title.skip(title.len() - 1)[0] == title.last());
        }
    }
}

/// An answer is taken for BibTeX, and handed on as it is, exactly where its status is one of success
/// and the first character of its body that is not whitespace is `@`.
pub proof fn law_bibtex_answers(id: Seq<char>, status: u16, shown: Seq<char>, body: Seq<char>)
    ensures
        ({
            let good = 200 <= status < 300 && trimmed_start(body).len() > 0 && trimmed_start(
                body,
            )[0] == '@';
            &&& good <==> doi_answer(id, status, shown, body) is Ok
            &&& good <==> arxiv_answer(id, status, shown, body) is Ok
            &&& good ==> doi_answer(id, status, shown, body) == Ok::<Seq<char>, Seq<char>>(body)
            &&& good ==> arxiv_answer(id, status, shown, body) == Ok::<Seq<char>, Seq<char>>(body)
        }),
{
}

/// A publisher's BibTeX is preferred to what PubMed has, and no answer but a success is read.
pub proof fn law_pubmed_answers(
    pmid: Seq<char>,
    status: u16,
    shown: Seq<char>,
    body: Seq<char>,
    bib: Seq<char>,
)
    ensures
        pubmed_bibtex(pmid, body, Some(bib)) == Ok::<Seq<char>, Seq<char>>(bib),
        pubmed_answer(pmid, status, shown, body) is Ok ==> 200 <= status < 300,
        isbn_answer(pmid, status, shown, Err(bib)) is Err,
        is_success(status) <==> 200 <= status < 300,
{
}

/// A line of a PubMed record with a tag in its first four columns is a field of its own.
pub proof fn law_medline_line(f: Fields, tag: Seq<char>, value: Seq<char>)
    requires
        tag.len() == 4,
        all_ascii(tag),
        !is_white(tag[0]),
        value.len() > 0,
    ensures
        medline_step(f, tag + "-"@ + value) == f.push((trimmed(tag), trimmed(value))),
{
    reveal_strlit("-");
    let line = tag + "-"@ + value;
    lemma_columns(line, 4);
    assert(line[4] == '-');
    assert(line.take(4) =~= tag);
    assert(line.skip(5) =~= value);
    assert(line[0] == tag[0]);
    lemma_not_blank(line);
}

/// A line that starts with a space goes on with the field before it.
pub proof fn law_medline_continuation(f: Fields, line: Seq<char>)
    requires
        f.len() > 0,
        line.len() > 0,
        line[0] == ' ',
        trimmed(line).len() > 0,
    ensures
        medline_step(f, line).len() == f.len(),
        medline_step(f, line).last() == (f.last().0, f.last().1 + " "@ + trimmed(line)),
        forall|i: int| 0 <= i < f.len() - 1 ==> medline_step(f, line)[i] == f[i],
{
    reveal_strlit(" ");
    assert(f.last().1.push(' ') + trimmed(line) =~= f.last().1 + " "@ + trimmed(line));
}

proof fn lemma_not_blank(line: Seq<char>)
    requires
        line.len() > 0,
        !is_white(line[0]),
    ensures
        trimmed(line).len() > 0,
{
    let r = crate::text_laws::law_trim_takes_whitespace(line);
    if trimmed(line).len() == 0 {
        assert(is_white(line[0]));
    }
}

proof fn lemma_columns(s: Seq<char>, n: int)
    requires
        0 <= n <= s.len(),
        forall|i: int| 0 <= i < n ==> (#[trigger] s[i]) as u32 <= 127,
    ensures
        column(s, n) == Some(n),
    decreases n,
{
    if n > 0 {
        let t = s.drop_first();
        assert(s[0] as u32 <= 127);
        assert(width(s[0]) == 1);
        assert forall|i: int| 0 <= i < n - 1 implies (#[trigger] t[i]) as u32 <= 127 by {
            assert(t[i] == s[i + 1]);
        }
        lemma_columns(t, n - 1);
    }
}

} // verus!
