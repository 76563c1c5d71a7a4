//! PubMed records in MEDLINE form.
use crate::api::bibtex::add_field;
use crate::api::bibtex::bibtex_entry;
use crate::api::bibtex::citekey;
use crate::api::bibtex::citekey_text;
use crate::api::bibtex::entry_text;
use crate::api::bibtex::find_year;
use crate::api::bibtex::pairs;
use crate::api::bibtex::with_field;
use crate::api::bibtex::year_from;
use crate::api::bibtex::Fields;
use crate::lines::char_width;
use crate::lines::join;
use crate::lines::joined;
use crate::lines::lines;
use crate::lines::lines_of;
use crate::lines::runs;
use crate::lines::width;
use crate::text::chars_of;
use crate::text::concat2;
use crate::text::opt_text;
use crate::text::same_text;
use crate::text::starts_with;
use crate::text::string_of;
use crate::text::texts;
use crate::text::trim;
use crate::text::trim_end_matches;
use crate::text::trimmed;
use crate::text::without_suffixes;
use vstd::prelude::*;
use vstd::slice::slice_subrange;

verus! {

/// How many leading characters take exactly `n` bytes, where some do.
pub open spec fn column(s: Seq<char>, n: int) -> Option<int>
    decreases s.len(),
{
    if n == 0 {
        Some(0)
    } else if s.len() == 0 || n < 0 {
        None
    } else {
        match column(s.drop_first(), n - width(s[0])) {
            Some(k) => Some(k + 1),
            None => None,
        }
    }
}

/// The tag and the value of a MEDLINE line: the tag takes the first four columns, the fifth is
/// `-`, and something follows.
pub open spec fn tagged(line: Seq<char>) -> Option<(Seq<char>, Seq<char>)> {
    match column(line, 4) {
        Some(k) => if k + 1 < line.len() && line[k] == '-' {
            Some((trimmed(line.take(k)), trimmed(line.skip(k + 1))))
        } else {
            None
        },
        None => None,
    }
}

/// The fields after one more line. A line that starts with whitespace continues the value of the
/// last field.
pub open spec fn medline_step(f: Fields, line: Seq<char>) -> Fields {
    if trimmed(line).len() == 0 {
        f
    } else if line[0] == ' ' || line[0] == '\t' {
        if f.len() > 0 {
            f.drop_last().push((f.last().0, f.last().1.push(' ') + trimmed(line)))
        } else {
            f
        }
    } else {
        match tagged(line) {
            Some(p) => f.push(p),
            None => f,
        }
    }
}

/// The fields of some lines of a record.
pub open spec fn medline_lines(l: Seq<Seq<char>>) -> Fields
    decreases l.len(),
{
    if l.len() == 0 {
        Seq::empty()
    } else {
        medline_step(medline_lines(l.drop_last()), l.last())
    }
}

/// The fields of a MEDLINE record.
pub open spec fn medline_of(text: Seq<char>) -> Fields {
    medline_lines(lines_of(text))
}

proof fn lemma_trimmed_empty()
    ensures
        trimmed(Seq::<char>::empty()).len() == 0,
{
    reveal_with_fuel(crate::text::trimmed_start, 2);
    reveal_with_fuel(crate::text::trimmed_end, 2);
}

/// Finds how many leading characters take exactly `n` bytes.
pub fn byte_column(s: &[char], n: usize) -> (r: Option<usize>)
    ensures
        crate::text::opt_int(r) == column(s@, n as int),
        r is Some ==> r.unwrap() <= s.len(),
{
    let mut i: usize = 0;
    let mut left: usize = n;
    assert(s@.skip(0) =~= s@);
    while left > 0
        invariant
            i <= s.len(),
            left <= n,
            match column(s@.skip(i as int), left as int) {
                Some(k) => column(s@, n as int) == Some(k + i),
                None => column(s@, n as int) is None,
            },
        decreases left,
    {
        if i == s.len() {
            return None;
        }
        let w: usize = char_width(s[i]);
        assert(s@.skip(i as int).drop_first() =~= s@.skip(i as int + 1));
        if w > left {
            assert(column(s@.skip(i as int + 1), left - w) is None);
            return None;
        }
        left -= w;
        i += 1;
    }
    Some(i)
}

/// Splits MEDLINE text into `(tag, value)` pairs. The tag occupies the first four columns, column
/// five is `-`, and a line starting with whitespace continues the previous value (abstracts and
/// addresses wrap at six spaces).
pub fn medline_fields(text: &str) -> (r: Vec<(String, String)>)
    ensures
        pairs(r@) == medline_of(text@),
{
    let chars = chars_of(text);
    let all = lines(chars.as_slice());
    let ghost seen = runs(all@);
    let mut out: Vec<(String, String)> = Vec::new();
    let mut i: usize = 0;
    assert(pairs(out@) =~= Seq::empty());
    while i < all.len()
        invariant
            i <= all.len(),
            seen == runs(all@),
            pairs(out@) == medline_lines(seen.take(i as int)),
        decreases all.len() - i,
    {
        let line = all[i];
        assert(seen.take(i as int + 1).drop_last() =~= seen.take(i as int));
        assert(seen.take(i as int + 1).last() == line@);
        let body = trim(line);
        let ghost before = pairs(out@);
        if body.len() > 0 {
            proof {
                lemma_trimmed_empty();
                assert(line@.len() > 0) by {
                    if line@.len() == 0 {
                        assert(line@ =~= Seq::empty());
                    }
                }
            }
            if line[0] == ' ' || line[0] == '\t' {
                if out.len() > 0 {
                    let ghost old_out = out@;
                    let (tag, mut value) = out.pop().unwrap();
                    assert(before.last() == (tag@, value@));
                    value.push(' ');
                    value.push_str(string_of(body).as_str());
                    let ghost pushed = (tag@, value@);
                    out.push((tag, value));
                    assert(pairs(out@) =~= before.drop_last().push(pushed));
                }
            } else {
                if let Some(k) = byte_column(line, 4) {
                    if line.len() - k > 1 && line[k] == '-' {
                        let tag = slice_subrange(line, 0, k);
                        let value = slice_subrange(line, k + 1, line.len());
                        assert(tag@ =~= line@.take(k as int));
                        assert(value@ =~= line@.skip(k + 1));
                        let t = string_of(trim(tag));
                        let v = string_of(trim(value));
                        let ghost pushed = (t@, v@);
                        out.push((t, v));
                        assert(pairs(out@) =~= before.push(pushed));
                    }
                }
            }
        }
        i += 1;
    }
    assert(seen.take(seen.len() as int) =~= seen);
    out
}

/// The first value under a tag; none if the tag is missing or that value is empty.
pub open spec fn first_value(f: Fields, tag: Seq<char>) -> Option<Seq<char>>
    decreases f.len(),
{
    if f.len() == 0 {
        None
    } else if f[0].0 == tag {
        if f[0].1.len() > 0 {
            Some(f[0].1)
        } else {
            None
        }
    } else {
        first_value(f.drop_first(), tag)
    }
}

fn first(fields: &[(String, String)], tag: &str) -> (r: Option<String>)
    ensures
        opt_text(r) == first_value(pairs(fields@), tag@),
{
    let ghost f = pairs(fields@);
    let mut i: usize = 0;
    assert(f.skip(0) =~= f);
    while i < fields.len()
        invariant
            i <= fields.len(),
            f == pairs(fields@),
            first_value(f, tag@) == first_value(f.skip(i as int), tag@),
        decreases fields.len() - i,
    {
        assert(f.skip(i as int)[0] == (fields@[i as int].0@, fields@[i as int].1@));
        if same_text(fields[i].0.as_str(), tag) {
            let v = &fields[i].1;
            return if crate::text::is_empty(v.as_str()) {
                None
            } else {
                Some(v.clone())
            };
        }
        assert(f.skip(i as int).drop_first() =~= f.skip(i as int + 1));
        i += 1;
    }
    None
}

/// The values under a tag that are not empty, in order.
pub open spec fn all_values(f: Fields, tag: Seq<char>) -> Seq<Seq<char>>
    decreases f.len(),
{
    if f.len() == 0 {
        Seq::empty()
    } else {
        let head = all_values(f.drop_last(), tag);
        if f.last().0 == tag && f.last().1.len() > 0 {
            head.push(f.last().1)
        } else {
            head
        }
    }
}

fn all(fields: &[(String, String)], tag: &str) -> (r: Vec<String>)
    ensures
        texts(r@) == all_values(pairs(fields@), tag@),
{
    let ghost f = pairs(fields@);
    let mut out: Vec<String> = Vec::new();
    let mut i: usize = 0;
    assert(texts(out@) =~= Seq::empty());
    while i < fields.len()
        invariant
            i <= fields.len(),
            f == pairs(fields@),
            texts(out@) == all_values(f.take(i as int), tag@),
        decreases fields.len() - i,
    {
        assert(f.take(i as int + 1).drop_last() =~= f.take(i as int));
        assert(f.take(i as int + 1).last() == (fields@[i as int].0@, fields@[i as int].1@));
        if same_text(fields[i].0.as_str(), tag) && !crate::text::is_empty(fields[i].1.as_str()) {
            let ghost before = texts(out@);
            out.push(fields[i].1.clone());
            assert(texts(out@) =~= before.push(fields@[i as int].1@));
        }
        i += 1;
    }
    assert(f.take(f.len() as int) =~= f);
    out
}

/// The DOI in a value that is marked with a trailing `[doi]`.
pub open spec fn marked_doi(v: Seq<char>) -> Option<Seq<char>> {
    let cut = v.len() - "[doi]"@.len();
    if cut >= 0 && v.skip(cut) == "[doi]"@ {
        let d = trimmed(v.take(cut));
        if "10."@.is_prefix_of(d) {
            Some(d)
        } else {
            None
        }
    } else {
        None
    }
}

fn doi_in_value(value: &str) -> (r: Option<String>)
    ensures
        opt_text(r) == marked_doi(value@),
{
    let v = chars_of(value);
    let mark = chars_of("[doi]");
    if v.len() < mark.len() {
        return None;
    }
    let cut: usize = v.len() - mark.len();
    let tail = slice_subrange(v.as_slice(), cut, v.len());
    assert(tail@ =~= value@.skip(cut as int));
    if !crate::text::same_chars(tail, mark.as_slice()) {
        return None;
    }
    let head = slice_subrange(v.as_slice(), 0, cut);
    assert(head@ =~= value@.take(cut as int));
    let d = trim(head);
    if starts_with(d, "10.") {
        Some(string_of(d))
    } else {
        None
    }
}

/// The first DOI that a `LID` or `AID` field carries.
pub open spec fn doi_of_fields(f: Fields) -> Option<Seq<char>>
    decreases f.len(),
{
    if f.len() == 0 {
        None
    } else if (f[0].0 == "LID"@ || f[0].0 == "AID"@) && marked_doi(f[0].1) is Some {
        marked_doi(f[0].1)
    } else {
        doi_of_fields(f.drop_first())
    }
}

/// The DOI a MEDLINE record carries, from `LID` or `AID`, both of which mark it with a trailing
/// `[doi]`. Only those two tags are read: a `CIN` (comment-in) line quotes another article's DOI
/// in prose, and picking that up would import the wrong paper.
pub fn medline_doi(text: &str) -> (r: Option<String>)
    ensures
        opt_text(r) == doi_of_fields(medline_of(text@)),
{
    let fields = medline_fields(text);
    let ghost f = pairs(fields@);
    let mut i: usize = 0;
    assert(f.skip(0) =~= f);
    while i < fields.len()
        invariant
            i <= fields.len(),
            f == pairs(fields@),
            f == medline_of(text@),
            doi_of_fields(f) == doi_of_fields(f.skip(i as int)),
        decreases fields.len() - i,
    {
        assert(f.skip(i as int)[0] == (fields@[i as int].0@, fields@[i as int].1@));
        let tag = fields[i].0.as_str();
        if same_text(tag, "LID") || same_text(tag, "AID") {
            if let Some(doi) = doi_in_value(fields[i].1.as_str()) {
                return Some(doi);
            }
        }
        assert(f.skip(i as int).drop_first() =~= f.skip(i as int + 1));
        i += 1;
    }
    None
}

/// A title as BibTeX wants it: without the full stops that MEDLINE ends most titles with.
pub open spec fn medline_title(f: Fields) -> Option<Seq<char>> {
    match first_value(f, "TI"@) {
        Some(t) => {
            let title = trimmed(without_suffixes(t, "."@));
            if title.len() > 0 {
                Some(title)
            } else {
                None
            }
        },
        None => None,
    }
}

/// The authors: the full names under `FAU`, else the abbreviated ones under `AU`.
pub open spec fn medline_authors(f: Fields) -> Seq<Seq<char>> {
    let full = all_values(f, "FAU"@);
    if full.len() > 0 {
        full
    } else {
        all_values(f, "AU"@)
    }
}

/// The journal: its title, else its abbreviation.
pub open spec fn medline_journal(f: Fields) -> Option<Seq<char>> {
    match first_value(f, "JT"@) {
        Some(j) => Some(j),
        None => first_value(f, "TA"@),
    }
}

/// The year in the publication date.
pub open spec fn medline_year(f: Fields) -> Option<Seq<char>> {
    match first_value(f, "DP"@) {
        Some(d) => year_from(d, 0),
        None => None,
    }
}

/// Names in BibTeX's form; none where there are none.
pub open spec fn author_list(names: Seq<Seq<char>>) -> Option<Seq<char>> {
    if names.len() > 0 {
        Some(joined(names, " and "@))
    } else {
        None
    }
}

/// The fields of the BibTeX entry for a record with this title.
pub open spec fn article_fields(f: Fields, title: Seq<char>, pmid: Seq<char>) -> Fields {
    let e = seq![("title"@, title)];
    let e = with_field(e, "author"@, author_list(medline_authors(f)));
    let e = with_field(e, "journal"@, medline_journal(f));
    let e = with_field(e, "year"@, medline_year(f));
    let e = with_field(e, "volume"@, first_value(f, "VI"@));
    let e = with_field(e, "number"@, first_value(f, "IP"@));
    let e = with_field(e, "pages"@, first_value(f, "PG"@));
    let e = with_field(e, "doi"@, doi_of_fields(f));
    let e = with_field(e, "abstract"@, first_value(f, "AB"@));
    with_field(e, "note"@, Some("PMID: "@ + pmid))
}

/// The first of some texts.
pub open spec fn first_text(s: Seq<Seq<char>>) -> Option<Seq<char>> {
    if s.len() > 0 {
        Some(s[0])
    } else {
        None
    }
}

/// The BibTeX entry for a MEDLINE record; none where it has no title.
pub open spec fn article_of(text: Seq<char>, pmid: Seq<char>) -> Option<Seq<char>> {
    let f = medline_of(text);
    match medline_title(f) {
        Some(title) => Some(
            entry_text(
                "article"@,
                citekey_text(first_text(medline_authors(f)), medline_year(f), title, pmid),
                article_fields(f, title, pmid),
            ),
        ),
        None => None,
    }
}

/// The names of a list in BibTeX's form; none where it is empty.
pub fn author_field(names: &[String]) -> (r: Option<String>)
    ensures
        opt_text(r) == author_list(texts(names@)),
{
    if names.len() > 0 {
        Some(join(names, " and "))
    } else {
        None
    }
}

/// The first of some strings.
pub fn first_name(names: &[String]) -> (r: Option<&str>)
    ensures
        crate::json::opt_str(r) == first_text(texts(names@)),
{
    if names.len() > 0 {
        Some(names[0].as_str())
    } else {
        None
    }
}

/// A PubMed record that carries no title.
#[derive(Debug)]
pub struct NoTitle {
    pub pmid: String,
}

impl NoTitle {
    /// The message shown to the user.
    pub fn message(&self) -> (r: String)
        ensures
            r@ == "PubMed record for PMID "@ + self.pmid@ + " has no title"@,
    {
        crate::text::concat3("PubMed record for PMID ", self.pmid.as_str(), " has no title")
    }
}

/// Maps a MEDLINE record to a BibTeX `@article`. Used only when the record has no DOI, since a
/// DOI gets better BibTeX from the publisher.
pub fn medline_to_bibtex(text: &str, pmid: &str) -> (r: Result<String, NoTitle>)
    ensures
        match r {
            Ok(bib) => article_of(text@, pmid@) == Some(bib@),
            Err(e) => article_of(text@, pmid@) is None && e.pmid@ == pmid@,
        },
{
    let fields = medline_fields(text);
    let ghost f = pairs(fields@);
    let title = match first(fields.as_slice(), "TI") {
        Some(t) => {
            let chars = chars_of(t.as_str());
            let cut = trim(trim_end_matches(chars.as_slice(), "."));
            if cut.len() == 0 {
                return Err(NoTitle { pmid: pmid.to_string() });
            }
            string_of(cut)
        },
        None => {
            return Err(NoTitle { pmid: pmid.to_string() });
        },
    };
    let mut authors = all(fields.as_slice(), "FAU");
    assert(texts(authors@).len() == authors@.len());
    if authors.len() == 0 {
        authors = all(fields.as_slice(), "AU");
    }
    let journal = match first(fields.as_slice(), "JT") {
        Some(j) => Some(j),
        None => first(fields.as_slice(), "TA"),
    };
    let year = match first(fields.as_slice(), "DP") {
        Some(d) => find_year(d.as_str()),
        None => None,
    };
    let year_text = match &year {
        Some(y) => Some(y.as_str()),
        None => None,
    };
    let key = citekey(first_name(&authors), year_text, title.as_str(), pmid);
    let ghost title_view = title@;
    let mut entry: Vec<(String, String)> = Vec::new();
    assert(pairs(entry@) =~= Seq::empty());
    add_field(&mut entry, "title", Some(title));
    assert(pairs(entry@) =~= seq![("title"@, title_view)]);
    add_field(&mut entry, "author", author_field(&authors));
    add_field(&mut entry, "journal", journal);
    add_field(&mut entry, "year", year);
    add_field(&mut entry, "volume", first(fields.as_slice(), "VI"));
    add_field(&mut entry, "number", first(fields.as_slice(), "IP"));
    add_field(&mut entry, "pages", first(fields.as_slice(), "PG"));
    add_field(&mut entry, "doi", medline_doi(text));
    add_field(&mut entry, "abstract", first(fields.as_slice(), "AB"));
    add_field(&mut entry, "note", Some(concat2("PMID: ", pmid)));
    assert(pairs(entry@) == article_fields(f, title_view, pmid@));
    Ok(bibtex_entry("article", key.as_str(), entry.as_slice()))
}

} // verus!
