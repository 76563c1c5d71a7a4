//! What holds of identifiers and of the BibTeX that is written for them.
use crate::api::bibtex::citekey_text;
use crate::api::bibtex::entry_text;
use crate::api::bibtex::escape;
use crate::api::bibtex::escaped;
use crate::api::bibtex::field_lines;
use crate::api::bibtex::first_key_word;
use crate::api::bibtex::key_chars;
use crate::api::bibtex::surname;
use crate::api::bibtex::year_from;
use crate::api::bibtex::Fields;
use crate::api::resolve::identified;
use crate::api::resolve::is_arxiv_id;
use crate::api::resolve::is_isbn10;
use crate::api::resolve::is_pmid;
use crate::api::resolve::isbn_core;
use crate::api::resolve::isbn_of;
use crate::api::resolve::without_version;
use crate::api::resolve::IdentifierErrorView;
use crate::api::resolve::IdentifierView;
use crate::commands::bibtex_fields::brace_state;
use crate::lines::words_of;
use crate::text::all_digits;
use crate::text::ascii_lower;
use crate::text::found_from;
use crate::text::is_digit;
use crate::text::is_letter;
use crate::text::lowercase;
use crate::text::trimmed;
use vstd::prelude::*;

verus! {

proof fn lemma_isbn_core_shorter(s: Seq<char>)
    ensures
        isbn_core(s).len() <= s.len(),
    decreases s.len(),
{
    if s.len() > 0 {
        lemma_isbn_core_shorter(s.drop_last());
    }
}

/// No text is both a PubMed ID and an ISBN.
pub proof fn law_pmid_is_no_isbn(s: Seq<char>)
    requires
        is_pmid(s),
    ensures
        isbn_of(s) is None,
{
    lemma_isbn_core_shorter(s);
}

/// Digits and `X`, as in a normalised identifier.
spec fn plain_number(s: Seq<char>) -> bool {
    s.len() > 0 && forall|i: int| 0 <= i < s.len() ==> is_digit(#[trigger] s[i]) || s[i] == 'X'
}

/// A text is not found where its first character does not stand.
pub proof fn lemma_not_found(s: Seq<char>, p: Seq<char>, i: int)
    requires
        p.len() > 0,
        0 <= i,
        forall|k: int| 0 <= k < s.len() ==> #[trigger] s[k] != p[0],
    ensures
        found_from(s, p, i) is None,
    decreases s.len() - i,
{
    if i + p.len() <= s.len() {
        assert(s.subrange(i, i + p.len())[0] == s[i]);
        lemma_not_found(s, p, i + 1);
    }
}

/// A text of digits and `X` is an ISBN as it stands, as far as its characters go.
pub proof fn lemma_isbn_core_same(s: Seq<char>)
    requires
        forall|i: int| 0 <= i < s.len() ==> is_digit(#[trigger] s[i]) || s[i] == 'X',
    ensures
        isbn_core(s) == s,
    decreases s.len(),
{
    if s.len() > 0 {
        let t = s.drop_last();
        assert forall|i: int| 0 <= i < t.len() implies is_digit(#[trigger] t[i]) || t[i] == 'X' by {
            assert(t[i] == s[i]);
        }
        lemma_isbn_core_same(t);
        assert(is_digit(s[s.len() - 1]) || s[s.len() - 1] == 'X');
        assert(t.push(s.last()) =~= s);
    } else {
        assert(isbn_core(s) =~= s);
    }
}

/// A prefix whose first character a text does not start with.
pub proof fn lemma_no_prefix(s: Seq<char>, p: Seq<char>)
    requires
        p.len() > 0,
        s.len() > 0 ==> s[0] != p[0],
    ensures
        !p.is_prefix_of(s),
{
    if p.is_prefix_of(s) {
        assert(s.subrange(0, p.len() as int)[0] == s[0]);
    }
}

/// A digit or `X` at the start rules out every prefix that is looked for, and no `.` in the text
/// rules out the rest.
proof fn lemma_plain_number_reaches_the_end(s: Seq<char>)
    requires
        plain_number(s),
    ensures
        identified(s) == if let Some(isbn) = isbn_of(s) {
            Ok(IdentifierView::Isbn(isbn))
        } else if is_pmid(s) {
            Ok(IdentifierView::Pmid(s))
        } else {
            identified(s)
        },
{
    reveal_strlit("https://doi.org/");
    reveal_strlit("http://doi.org/");
    reveal_strlit("https://dx.doi.org/");
    reveal_strlit("http://dx.doi.org/");
    reveal_strlit("arxiv.org/");
    reveal_strlit("doi:");
    reveal_strlit("DOI:");
    reveal_strlit("arxiv:");
    reveal_strlit("isbn:");
    reveal_strlit("pmid:");
    reveal_strlit("pubmed:");
    reveal_strlit("10.");
    let lower = lowercase(s);
    assert(is_digit(s[0]) || s[0] == 'X');
    assert(is_digit(s[s.len() - 1]) || s[s.len() - 1] == 'X');
    assert(trimmed(s) == s);
    assert(crate::text::all_ascii(s)) by {
        assert forall|i: int| 0 <= i < s.len() implies (#[trigger] s[i]) as u32 <= 127 by {
            assert(is_digit(s[i]) || s[i] == 'X');
        }
    }
    assert(lower[0] == ascii_lower(s[0]));
    lemma_no_prefix(s, "https://doi.org/"@);
    lemma_no_prefix(s, "http://doi.org/"@);
    lemma_no_prefix(s, "https://dx.doi.org/"@);
    lemma_no_prefix(s, "http://dx.doi.org/"@);
    lemma_no_prefix(s, "doi:"@);
    lemma_no_prefix(s, "DOI:"@);
    lemma_no_prefix(lower, "arxiv:"@);
    lemma_no_prefix(lower, "isbn:"@);
    lemma_no_prefix(lower, "pmid:"@);
    lemma_no_prefix(lower, "pubmed:"@);
    assert forall|k: int| 0 <= k < s.len() implies #[trigger] s[k] != 'a' && s[k] != '.' && s[k]
        != '/' by {
        assert(is_digit(s[k]) || s[k] == 'X');
    }
    lemma_not_found(s, "arxiv.org/"@, 0);
    assert(!s.contains('/'));
    assert(!is_arxiv_id(s)) by {
        let core = without_version(s);
        assert(forall|k: int| 0 <= k < core.len() ==> core[k] == s[k]);
        if core.len() > 4 {
            assert(core[4] == s[4]);
        }
    }
}

/// A normalised ISBN is read back as itself.
pub proof fn law_isbn_reads_back(input: Seq<char>)
    requires
        isbn_of(input) is Some,
    ensures
        identified(isbn_of(input).unwrap()) == Ok::<
            IdentifierView,
            IdentifierErrorView,
        >(IdentifierView::Isbn(isbn_of(input).unwrap())),
{
    let isbn = isbn_of(input).unwrap();
    assert(plain_number(isbn)) by {
        assert forall|i: int| 0 <= i < isbn.len() implies is_digit(#[trigger] isbn[i]) || isbn[i]
            == 'X' by {
            if is_isbn10(isbn) {
                assert(is_digit(isbn[i]) || (i == 9 && isbn[i] == 'X'));
            }
        }
    }
    lemma_isbn_core_same(isbn);
    lemma_plain_number_reaches_the_end(isbn);
}

/// A PubMed ID is read back as itself.
pub proof fn law_pmid_reads_back(pmid: Seq<char>)
    requires
        is_pmid(pmid),
    ensures
        identified(pmid) == Ok::<IdentifierView, IdentifierErrorView>(
            IdentifierView::Pmid(pmid),
        ),
{
    law_pmid_is_no_isbn(pmid);
    assert(plain_number(pmid)) by {
        assert forall|i: int| 0 <= i < pmid.len() implies is_digit(#[trigger] pmid[i]) || pmid[i]
            == 'X' by {
            assert(is_digit(pmid[i]));
        }
    }
    lemma_plain_number_reaches_the_end(pmid);
}

/// A bare DOI is read back as itself, unless it holds the address of arxiv.org. Its lowercase form
/// starts with the digit it starts with.
pub proof fn law_doi_reads_back(doi: Seq<char>)
    requires
        trimmed(doi) == doi,
        "10."@.is_prefix_of(doi),
        doi.contains('/'),
        found_from(doi, "arxiv.org/"@, 0) is None,
        lowercase(doi).len() > 0,
        lowercase(doi)[0] == '1',
    ensures
        identified(doi) == Ok::<IdentifierView, IdentifierErrorView>(
            IdentifierView::Doi(doi),
        ),
{
    reveal_strlit("https://doi.org/");
    reveal_strlit("http://doi.org/");
    reveal_strlit("https://dx.doi.org/");
    reveal_strlit("http://dx.doi.org/");
    reveal_strlit("doi:");
    reveal_strlit("DOI:");
    reveal_strlit("10.");
    assert(doi.subrange(0, 3)[0] == doi[0]);
    lemma_no_prefix(doi, "https://doi.org/"@);
    lemma_no_prefix(doi, "http://doi.org/"@);
    lemma_no_prefix(doi, "https://dx.doi.org/"@);
    lemma_no_prefix(doi, "http://dx.doi.org/"@);
    lemma_no_prefix(doi, "doi:"@);
    lemma_no_prefix(doi, "DOI:"@);
    let lower = lowercase(doi);
    reveal_strlit("arxiv:");
    reveal_strlit("isbn:");
    reveal_strlit("pmid:");
    reveal_strlit("pubmed:");
    lemma_no_prefix(lower, "arxiv:"@);
    lemma_no_prefix(lower, "isbn:"@);
    lemma_no_prefix(lower, "pmid:"@);
    lemma_no_prefix(lower, "pubmed:"@);
}

/// A new-style arXiv ID without a version is read back as itself.
pub proof fn law_arxiv_id_reads_back(id: Seq<char>)
    requires
        is_arxiv_id(id),
        without_version(id) == id,
    ensures
        identified(id) == Ok::<IdentifierView, IdentifierErrorView>(
            IdentifierView::Arxiv(id),
        ),
{
    reveal_strlit("https://doi.org/");
    reveal_strlit("http://doi.org/");
    reveal_strlit("https://dx.doi.org/");
    reveal_strlit("http://dx.doi.org/");
    reveal_strlit("arxiv.org/");
    reveal_strlit("doi:");
    reveal_strlit("DOI:");
    reveal_strlit("arxiv:");
    reveal_strlit("isbn:");
    reveal_strlit("pmid:");
    reveal_strlit("pubmed:");
    let lower = lowercase(id);
    assert(is_digit(id[0]));
    assert(is_digit(id[id.len() - 1]));
    assert(trimmed(id) == id);
    assert(crate::text::all_ascii(id)) by {
        assert forall|i: int| 0 <= i < id.len() implies (#[trigger] id[i]) as u32 <= 127 by {
            assert(i == 4 || is_digit(id[i]));
        }
    }
    assert(lower[0] == ascii_lower(id[0]));
    lemma_no_prefix(id, "https://doi.org/"@);
    lemma_no_prefix(id, "http://doi.org/"@);
    lemma_no_prefix(id, "https://dx.doi.org/"@);
    lemma_no_prefix(id, "http://dx.doi.org/"@);
    lemma_no_prefix(id, "doi:"@);
    lemma_no_prefix(id, "DOI:"@);
    lemma_no_prefix(lower, "arxiv:"@);
    lemma_no_prefix(lower, "isbn:"@);
    lemma_no_prefix(lower, "pmid:"@);
    lemma_no_prefix(lower, "pubmed:"@);
    assert forall|k: int| 0 <= k < id.len() implies #[trigger] id[k] != 'a' && id[k] != '/' by {
        assert(k == 4 || is_digit(id[k]));
    }
    lemma_not_found(id, "arxiv.org/"@, 0);
    assert(!id.contains('/'));
}

/// Braces of two texts add up, where the first does not end in the middle of an escape.
proof fn lemma_braces_concat(a: Seq<char>, b: Seq<char>)
    requires
        !brace_state(a).1,
    ensures
        brace_state(a + b) == (brace_state(a).0 + brace_state(b).0, brace_state(b).1),
    decreases b.len(),
{
    if b.len() == 0 {
        assert(a + b =~= a);
    } else {
        lemma_braces_concat(a, b.drop_last());
        assert((a + b).drop_last() =~= a + b.drop_last());
        assert((a + b).last() == b.last());
    }
}

proof fn lemma_no_braces(s: Seq<char>)
    requires
        forall|i: int|
            0 <= i < s.len() ==> #[trigger] s[i] != '{' && s[i] != '}' && s[i] != '\\',
    ensures
        brace_state(s) == (0int, false),
    decreases s.len(),
{
    if s.len() > 0 {
        let t = s.drop_last();
        assert forall|i: int| 0 <= i < t.len() implies #[trigger] t[i] != '{' && t[i] != '}'
            && t[i] != '\\' by {
            assert(t[i] == s[i]);
        }
        lemma_no_braces(t);
        assert(s.last() == s[s.len() - 1]);
    }
}

/// `\`, letters, and an empty pair of braces.
proof fn lemma_command_balanced(s: Seq<char>, n: int)
    requires
        n >= 2,
        s.len() == n + 2,
        s[0] == '\\',
        forall|i: int| 1 <= i < n ==> is_letter(#[trigger] s[i]),
        s[n] == '{',
        s[n + 1] == '}',
    ensures
        brace_state(s) == (0int, false),
{
    let head = seq![s[0], s[1]];
    let letters = s.subrange(2, n);
    let tail = seq!['{', '}'];
    assert(s =~= head + letters + tail);
    reveal_with_fuel(brace_state, 3);
    assert(head.drop_last() =~= seq![s[0]]);
    assert(head.drop_last().drop_last() =~= Seq::empty());
    assert(brace_state(head) == (0int, false));
    assert(tail.drop_last() =~= seq!['{']);
    assert(tail.drop_last().drop_last() =~= Seq::empty());
    assert(brace_state(tail) == (0int, false));
    assert forall|i: int| 0 <= i < letters.len() implies #[trigger] letters[i] != '{' && letters[i]
        != '}' && letters[i] != '\\' by {
        assert(is_letter(s[i + 2]));
    }
    lemma_no_braces(letters);
    lemma_braces_concat(head, letters);
    lemma_braces_concat(head + letters, tail);
}

proof fn lemma_escape_balanced(c: char)
    ensures
        brace_state(escape(c)) == (0int, false),
{
    let s = escape(c);
    reveal_strlit("\\textbackslash{}");
    reveal_strlit("\\{");
    reveal_strlit("\\}");
    reveal_strlit("\\textasciitilde{}");
    reveal_strlit("\\textasciicircum{}");
    if c == '\\' {
        lemma_command_balanced(s, 14);
    } else if c == '~' {
        lemma_command_balanced(s, 15);
    } else if c == '^' {
        lemma_command_balanced(s, 16);
    } else if s.len() == 2 {
        reveal_with_fuel(brace_state, 3);
        assert(s.drop_last() =~= seq![s[0]]);
        assert(s.drop_last().drop_last() =~= Seq::empty());
    } else {
        lemma_no_braces(s);
    }
}

/// A character that TeX gives a meaning of its own, braces and backslashes aside.
pub open spec fn is_special(c: char) -> bool {
    c == '&' || c == '%' || c == '$' || c == '#' || c == '_' || c == '~' || c == '^'
}

/// Whether a text can stand in a field as it is: its braces balance without the depth ever falling
/// below zero, and every special character is escaped.
pub open spec fn is_safe(s: Seq<char>) -> bool {
    &&& brace_state(s) == (0int, false)
    &&& forall|n: int| 0 <= n <= s.len() ==> (#[trigger] brace_state(s.take(n))).0 >= 0
    &&& forall|i: int|
        0 <= i < s.len() && is_special(#[trigger] s[i]) ==> brace_state(s.take(i)).1
}

proof fn lemma_letters_safe(s: Seq<char>, n: int)
    requires
        n >= 2,
        s.len() == n + 2,
        s[0] == '\\',
        forall|i: int| 1 <= i < n ==> is_letter(#[trigger] s[i]),
        s[n] == '{',
        s[n + 1] == '}',
    ensures
        is_safe(s),
{
    lemma_command_balanced(s, n);
    assert forall|k: int| 0 <= k <= s.len() implies (#[trigger] brace_state(s.take(k))).0 >= 0 by {
        reveal_with_fuel(brace_state, 3);
        if k == 0 {
            assert(s.take(0) =~= Seq::empty());
        } else if k == 1 {
            assert(s.take(1).drop_last() =~= Seq::empty());
            assert(s.take(1).last() == '\\');
        } else {
            let head = s.take(2);
            assert(head.drop_last() =~= seq!['\\']);
            assert(head.drop_last().drop_last() =~= Seq::empty());
            assert(brace_state(head) == (0int, false));
            let m = if k <= n {
                k
            } else {
                n
            };
            let letters = s.subrange(2, m);
            assert forall|i: int| 0 <= i < letters.len() implies #[trigger] letters[i] != '{'
                && letters[i] != '}' && letters[i] != '\\' by {
                assert(is_letter(s[i + 2]));
            }
            lemma_no_braces(letters);
            lemma_braces_concat(head, letters);
            assert(head + letters =~= s.take(m));
            if k == n + 1 {
                assert(s.take(n + 1).drop_last() =~= s.take(n));
                assert(s.take(n + 1).last() == '{');
            } else if k == n + 2 {
                assert(s.take(k) =~= s);
            }
        }
    }
    assert forall|i: int| 0 <= i < s.len() && is_special(#[trigger] s[i]) implies brace_state(
        s.take(i),
    ).1 by {
        if 1 <= i < n {
            assert(is_letter(s[i]));
        }
    }
}

proof fn lemma_escape_safe(c: char)
    ensures
        is_safe(escape(c)),
{
    let s = escape(c);
    reveal_strlit("\\textbackslash{}");
    reveal_strlit("\\{");
    reveal_strlit("\\}");
    reveal_strlit("\\textasciitilde{}");
    reveal_strlit("\\textasciicircum{}");
    lemma_escape_balanced(c);
    if c == '\\' {
        lemma_letters_safe(s, 14);
    } else if c == '~' {
        lemma_letters_safe(s, 15);
    } else if c == '^' {
        lemma_letters_safe(s, 16);
    } else {
        reveal_with_fuel(brace_state, 3);
        assert(s.take(0) =~= Seq::empty());
        assert(s.take(1).drop_last() =~= Seq::empty());
        assert(s.take(1).last() == s[0]);
        assert(s.take(s.len() as int) =~= s);
        assert forall|n: int| 0 <= n <= s.len() implies (#[trigger] brace_state(s.take(n))).0
            >= 0 by {
            assert(n == 0 || n == 1 || n == s.len());
        }
    }
}

/// Whatever a value holds, once it is escaped its braces balance, the depth never falls below zero
/// on the way, and no special character is left bare.
pub proof fn law_escaped_is_balanced(v: Seq<char>)
    ensures
        is_safe(escaped(v)),
    decreases v.len(),
{
    if v.len() > 0 {
        let head = escaped(v.drop_last());
        let tail = escape(v.last());
        let all = escaped(v);
        law_escaped_is_balanced(v.drop_last());
        lemma_escape_safe(v.last());
        lemma_braces_concat(head, tail);
        assert forall|n: int| 0 <= n <= all.len() implies (#[trigger] brace_state(all.take(n))).0
            >= 0 by {
            if n <= head.len() {
                assert(all.take(n) =~= head.take(n));
            } else {
                assert(all.take(n) =~= head + tail.take(n - head.len()));
                lemma_braces_concat(head, tail.take(n - head.len()));
            }
        }
        assert forall|i: int| 0 <= i < all.len() && is_special(#[trigger] all[i]) implies brace_state(
            all.take(i),
        ).1 by {
            if i < head.len() {
                assert(all.take(i) =~= head.take(i));
                assert(is_special(head[i]));
            } else {
                assert(all.take(i) =~= head + tail.take(i - head.len()));
                lemma_braces_concat(head, tail.take(i - head.len()));
                assert(is_special(tail[i - head.len()]));
            }
        }
    } else {
        assert(escaped(v).take(0) =~= Seq::empty());
        assert forall|n: int| 0 <= n <= 0 implies (#[trigger] brace_state(escaped(v).take(n))).0
            >= 0 by {
            assert(escaped(v).take(n) =~= Seq::empty());
        }
    }
}

/// A text without braces and backslashes.
pub open spec fn brace_free(s: Seq<char>) -> bool {
    forall|i: int| 0 <= i < s.len() ==> #[trigger] s[i] != '{' && s[i] != '}' && s[i] != '\\'
}

proof fn lemma_field_lines_balanced(f: Fields)
    requires
        forall|i: int| 0 <= i < f.len() ==> brace_free((#[trigger] f[i]).0),
    ensures
        brace_state(field_lines(f)) == (0int, false),
    decreases f.len(),
{
    if f.len() > 0 {
        let t = f.drop_last();
        assert forall|i: int| 0 <= i < t.len() implies brace_free((#[trigger] t[i]).0) by {
            assert(t[i] == f[i]);
        }
        lemma_field_lines_balanced(t);
        let (name, value) = f.last();
        assert(brace_free(f[f.len() - 1].0));
        reveal_strlit("\t");
        reveal_strlit(" = {");
        reveal_strlit("},\n");
        lemma_no_braces("\t"@);
        lemma_no_braces(name);
        law_escaped_is_balanced(value);
        let open = " = {"@;
        assert(open.drop_last() =~= seq![' ', '=', ' ']);
        lemma_no_braces(open.drop_last());
        assert(brace_state(open) == (1int, false));
        let close = "},\n"@;
        assert(close =~= seq!['}'] + seq![',', '\n']);
        assert(seq!['}'].drop_last() =~= Seq::empty());
        reveal_with_fuel(brace_state, 2);
        assert(brace_state(seq!['}']) == (-1int, false));
        lemma_no_braces(seq![',', '\n']);
        lemma_braces_concat(seq!['}'], seq![',', '\n']);
        lemma_braces_concat("\t"@, name);
        lemma_braces_concat("\t"@ + name, open);
        lemma_braces_concat("\t"@ + name + open, escaped(value));
        lemma_braces_concat("\t"@ + name + open + escaped(value), close);
        lemma_braces_concat(
            field_lines(t),
            "\t"@ + name + open + escaped(value) + close,
        );
    }
}

/// The braces of a whole entry balance, whatever its values hold.
pub proof fn law_entry_is_balanced(kind: Seq<char>, key: Seq<char>, f: Fields)
    requires
        brace_free(kind),
        brace_free(key),
        forall|i: int| 0 <= i < f.len() ==> brace_free((#[trigger] f[i]).0),
    ensures
        brace_state(entry_text(kind, key, f)) == (0int, false),
{
    reveal_strlit("@");
    reveal_strlit("{");
    reveal_strlit(",\n");
    reveal_strlit("}\n");
    lemma_no_braces("@"@);
    lemma_no_braces(kind);
    lemma_no_braces(key);
    lemma_no_braces(",\n"@);
    lemma_field_lines_balanced(f);
    reveal_with_fuel(brace_state, 2);
    assert("{"@.drop_last() =~= Seq::empty());
    assert(brace_state("{"@) == (1int, false));
    let close = "}\n"@;
    assert(close =~= seq!['}'] + seq!['\n']);
    assert(seq!['}'].drop_last() =~= Seq::empty());
    assert(brace_state(seq!['}']) == (-1int, false));
    lemma_no_braces(seq!['\n']);
    lemma_braces_concat(seq!['}'], seq!['\n']);
    let a = "@"@ + kind;
    lemma_braces_concat("@"@, kind);
    lemma_braces_concat(a, "{"@);
    lemma_braces_concat(a + "{"@, key);
    lemma_braces_concat(a + "{"@ + key, ",\n"@);
    lemma_braces_concat(a + "{"@ + key + ",\n"@, field_lines(f));
    lemma_braces_concat(a + "{"@ + key + ",\n"@ + field_lines(f), close);
}

/// ASCII letters and digits only.
pub open spec fn ascii_alphanumeric(s: Seq<char>) -> bool {
    forall|i: int| 0 <= i < s.len() ==> is_letter(#[trigger] s[i]) || is_digit(s[i])
}

proof fn lemma_key_chars(s: Seq<char>)
    ensures
        ascii_alphanumeric(key_chars(s)),
    decreases s.len(),
{
    if s.len() > 0 {
        lemma_key_chars(s.drop_last());
    }
}

proof fn lemma_first_key_word(words: Seq<Seq<char>>)
    ensures
        ascii_alphanumeric(first_key_word(words)),
    decreases words.len(),
{
    if words.len() > 0 {
        lemma_key_chars(words[0]);
        lemma_first_key_word(words.drop_first());
    }
}

/// A year that was found is four digits.
pub proof fn law_year_is_four_digits(s: Seq<char>, i: int)
    ensures
        match year_from(s, i) {
            Some(y) => y.len() == 4 && all_digits(y) && (y[0] == '1' || y[0] == '2'),
            None => true,
        },
    decreases s.len() - i,
{
    if 0 <= i && i + 4 <= s.len() {
        law_year_is_four_digits(s, i + 1);
        if (s[i] == '1' || s[i] == '2') && is_digit(s[i + 1]) && is_digit(s[i + 2]) && is_digit(
            s[i + 3],
        ) {
            let y = s.subrange(i, i + 4);
            assert(y[0] == s[i] && y[1] == s[i + 1] && y[2] == s[i + 2] && y[3] == s[i + 3]);
            assert(is_digit(s[i]));
        }
    }
}

proof fn lemma_key_chars_some(s: Seq<char>, i: int)
    requires
        0 <= i < s.len(),
        is_letter(s[i]) || is_digit(s[i]),
    ensures
        key_chars(s).len() > 0,
    decreases s.len(),
{
    if i < s.len() - 1 {
        lemma_key_chars_some(s.drop_last(), i);
    }
}

/// A citation key holds ASCII letters and digits only, so it is always legal, whatever year of
/// letters and digits it is made with. It is not empty, since what stands in for a missing author
/// holds a letter or a digit.
pub proof fn law_citekey_is_legal(
    author: Option<Seq<char>>,
    year: Option<Seq<char>>,
    title: Seq<char>,
    fallback: Seq<char>,
)
    requires
        year is Some ==> ascii_alphanumeric(year.unwrap()),
    ensures
        ascii_alphanumeric(citekey_text(author, year, title, fallback)),
        (exists|i: int|
            0 <= i < fallback.len() && (is_letter(#[trigger] fallback[i]) || is_digit(fallback[i])))
            ==> citekey_text(author, year, title, fallback).len() > 0,
{
    if let Some(a) = author {
        lemma_key_chars(surname(a));
    }
    lemma_key_chars(fallback);
    if exists|i: int|
        0 <= i < fallback.len() && (is_letter(#[trigger] fallback[i]) || is_digit(fallback[i])) {
        let i = choose|i: int|
            0 <= i < fallback.len() && (is_letter(#[trigger] fallback[i]) || is_digit(fallback[i]));
        lemma_key_chars_some(fallback, i);
    }
    lemma_first_key_word(words_of(title));
}

} // verus!
