//! Identifiers (DOI, arXiv, ISBN, PMID) and the BibTeX that catalogue records are mapped to.
//!
//! A PubMed record is mapped here only when it carries no DOI: the publisher's own BibTeX is
//! richer than anything MEDLINE holds. An ISBN goes to OpenLibrary, whose `jscmd=data` answer
//! carries author names inline.
use crate::text::all_digits;
use crate::text::chars_of;
use crate::text::concat2;
use crate::text::concat3;
use crate::text::find_from;
use crate::text::found_from;
use crate::text::has_char;
use crate::text::is_ascii_digit;
use crate::text::is_digit;
use crate::text::last_index_of;
use crate::text::last_position;
use crate::text::lowercase;
use crate::text::only_digits;
use crate::text::starts_with;
use crate::text::string_of;
use crate::text::strip_prefix;
use crate::text::to_lowercase;
use crate::text::trim;
use crate::text::trim_end_matches;
use crate::text::trimmed;
use crate::text::without_prefix;
use crate::text::without_suffixes;
use vstd::prelude::*;
use vstd::slice::slice_subrange;

verus! {

/// A bare all-digit string of at most this many digits is read as a PMID. PMIDs are 8 digits
/// today; ISBNs normalise to exactly 10 or 13 digits, so the two ranges cannot overlap and the
/// spare digit leaves room to grow.
pub const MAX_PMID_DIGITS: usize = 9;

/// What a user can name a work by.
#[derive(Debug, Clone, PartialEq)]
pub enum Identifier {
    Doi(String),
    Arxiv(String),
    /// Normalised to digits only, with an uppercase `X` check digit.
    Isbn(String),
    Pmid(String),
}

/// An identifier as the text it holds.
pub enum IdentifierView {
    Doi(Seq<char>),
    Arxiv(Seq<char>),
    Isbn(Seq<char>),
    Pmid(Seq<char>),
}

impl View for Identifier {
    type V = IdentifierView;

    open spec fn view(&self) -> IdentifierView {
        match *self {
            Identifier::Doi(d) => IdentifierView::Doi(d@),
            Identifier::Arxiv(id) => IdentifierView::Arxiv(id@),
            Identifier::Isbn(isbn) => IdentifierView::Isbn(isbn@),
            Identifier::Pmid(pmid) => IdentifierView::Pmid(pmid@),
        }
    }
}

impl IdentifierView {
    /// The string used for the duplicate check against the library.
    pub open spec fn query(self) -> Seq<char> {
        match self {
            IdentifierView::Doi(d) => d,
            IdentifierView::Arxiv(id) => id,
            IdentifierView::Isbn(isbn) => isbn,
            IdentifierView::Pmid(pmid) => pmid,
        }
    }

    /// How the identifier is shown to people.
    pub open spec fn shown(self) -> Seq<char> {
        match self {
            IdentifierView::Doi(d) => "DOI "@ + d,
            IdentifierView::Arxiv(id) => "arXiv:"@ + id,
            IdentifierView::Isbn(isbn) => "ISBN "@ + isbn,
            IdentifierView::Pmid(pmid) => "PMID "@ + pmid,
        }
    }
}

impl Identifier {
    /// The string used for the duplicate check against the library.
    pub fn dedup_query(&self) -> (r: &str)
        ensures
            r@ == self@.query(),
    {
        match self {
            Identifier::Doi(d) => d.as_str(),
            Identifier::Arxiv(id) => id.as_str(),
            Identifier::Isbn(isbn) => isbn.as_str(),
            Identifier::Pmid(pmid) => pmid.as_str(),
        }
    }

    /// How the identifier is shown to people.
    pub fn display(&self) -> (r: String)
        ensures
            r@ == self@.shown(),
    {
        match self {
            Identifier::Doi(d) => concat2("DOI ", d.as_str()),
            Identifier::Arxiv(id) => concat2("arXiv:", id.as_str()),
            Identifier::Isbn(isbn) => concat2("ISBN ", isbn.as_str()),
            Identifier::Pmid(pmid) => concat2("PMID ", pmid.as_str()),
        }
    }
}

/// Why a text was not read as an identifier.
#[derive(Debug, Clone, PartialEq)]
pub enum IdentifierError {
    /// What followed `ISBN:` is no ISBN.
    Isbn(String),
    /// What followed `PMID:` or `PubMed:` is no PubMed ID.
    Pmid(String),
    /// Nothing recognised the input; whether it at least has the shape of an ISBN.
    Unrecognized(String, bool),
}

/// An identifier error as the text it holds.
pub enum IdentifierErrorView {
    Isbn(Seq<char>),
    Pmid(Seq<char>),
    Unrecognized(Seq<char>, bool),
}

impl View for IdentifierError {
    type V = IdentifierErrorView;

    open spec fn view(&self) -> IdentifierErrorView {
        match *self {
            IdentifierError::Isbn(raw) => IdentifierErrorView::Isbn(raw@),
            IdentifierError::Pmid(raw) => IdentifierErrorView::Pmid(raw@),
            IdentifierError::Unrecognized(input, shape) => IdentifierErrorView::Unrecognized(
                input@,
                shape,
            ),
        }
    }
}

impl IdentifierErrorView {
    /// The message shown to the user.
    pub open spec fn text(self) -> Seq<char> {
        match self {
            IdentifierErrorView::Isbn(raw) => "Not a valid ISBN: "@ + raw
                + "\n  An ISBN is 10 or 13 digits (hyphens and spaces are fine, ISBN-10 may end in X) and its check digit has to match."@,
            IdentifierErrorView::Pmid(raw) => "Not a valid PubMed ID: "@ + raw
                + "\n  A PMID is a plain number of up to 9 digits, with no leading zero."@,
            IdentifierErrorView::Unrecognized(input, shape) => "Could not recognize identifier: "@
                + input
                + "\n  Supported: DOI (10.xxxx/...), doi.org URL, arXiv ID (2401.12345), arxiv.org URL, ISBN-10/ISBN-13 (also ISBN:...), PubMed ID (also PMID:... or PubMed:...).\n  Adding by plain URL is on the roadmap."@
                + if shape {
                "\n  It has the shape of an ISBN, but its check digit does not match."@
            } else {
                Seq::empty()
            },
        }
    }
}

impl IdentifierError {
    /// The message shown to the user.
    pub fn message(&self) -> (r: String)
        ensures
            r@ == self@.text(),
    {
        match self {
            IdentifierError::Isbn(raw) => concat3(
                "Not a valid ISBN: ",
                raw.as_str(),
                "\n  An ISBN is 10 or 13 digits (hyphens and spaces are fine, ISBN-10 may end in X) and its check digit has to match.",
            ),
            IdentifierError::Pmid(raw) => concat3(
                "Not a valid PubMed ID: ",
                raw.as_str(),
                "\n  A PMID is a plain number of up to 9 digits, with no leading zero.",
            ),
            IdentifierError::Unrecognized(input, shape) => {
                let mut out = concat3(
                    "Could not recognize identifier: ",
                    input.as_str(),
                    "\n  Supported: DOI (10.xxxx/...), doi.org URL, arXiv ID (2401.12345), arxiv.org URL, ISBN-10/ISBN-13 (also ISBN:...), PubMed ID (also PMID:... or PubMed:...).\n  Adding by plain URL is on the roadmap.",
                );
                let ghost head = out@;
                if *shape {
                    out.push_str(
                        "\n  It has the shape of an ISBN, but its check digit does not match.",
                    );
                } else {
                    assert(head + Seq::<char>::empty() =~= head);
                }
                out
            },
        }
    }
}

/// What follows the first of two prefixes that a text has.
pub open spec fn after_either(s: Seq<char>, a: Seq<char>, b: Seq<char>) -> Option<Seq<char>> {
    if a.is_prefix_of(s) {
        without_prefix(s, a)
    } else {
        without_prefix(s, b)
    }
}

fn strip_either<'a>(s: &'a [char], a: &str, b: &str) -> (r: Option<&'a [char]>)
    ensures
        crate::text::opt_view(r) == after_either(s@, a@, b@),
{
    match strip_prefix(s, a) {
        Some(rest) => Some(rest),
        None => strip_prefix(s, b),
    }
}

/// The DOI in a doi.org URL.
pub open spec fn doi_of_url(s: Seq<char>) -> Option<Seq<char>> {
    match after_either(s, "https://doi.org/"@, "http://doi.org/"@) {
        Some(rest) => Some(rest),
        None => after_either(s, "https://dx.doi.org/"@, "http://dx.doi.org/"@),
    }
}

/// The paper in an arxiv.org URL, version stripped; none if the URL names no paper.
pub open spec fn arxiv_of_url(s: Seq<char>) -> Option<Seq<char>> {
    match found_from(s, "arxiv.org/"@, 0) {
        Some(pos) => {
            let rest = s.skip(pos + "arxiv.org/"@.len());
            let path = match after_either(rest, "abs/"@, "pdf/"@) {
                Some(p) => p,
                None => rest,
            };
            let id = without_suffixes(without_suffixes(path, ".pdf"@), "/"@);
            if id.len() > 0 {
                Some(without_version(id))
            } else {
                None
            }
        },
        None => None,
    }
}

fn arxiv_in_url(s: &[char]) -> (r: Option<String>)
    ensures
        match r {
            Some(id) => arxiv_of_url(s@) == Some(id@),
            None => arxiv_of_url(s@) is None,
        },
{
    match find_from(s, "arxiv.org/", 0) {
        Some(pos) => {
            proof {
                reveal_strlit("arxiv.org/");
            }
            let rest = slice_subrange(s, pos + 10, s.len());
            assert(rest@ =~= s@.skip(pos + "arxiv.org/"@.len()));
            let path = match strip_either(rest, "abs/", "pdf/") {
                Some(p) => p,
                None => rest,
            };
            let id = trim_end_matches(trim_end_matches(path, ".pdf"), "/");
            if id.len() > 0 {
                Some(strip_arxiv_version(id))
            } else {
                None
            }
        },
        None => None,
    }
}

/// A text without a version suffix: a last `v`, not at its start, with only digits after it.
pub open spec fn without_version(s: Seq<char>) -> Seq<char> {
    let pos = last_index_of(s, 'v');
    if pos > 0 && pos + 1 < s.len() && all_digits(s.skip(pos + 1)) {
        s.take(pos)
    } else {
        s
    }
}

fn strip_arxiv_version(s: &[char]) -> (r: String)
    ensures
        r@ == without_version(s@),
{
    if let Some(pos) = last_position(s, 'v') {
        let tail = slice_subrange(s, pos + 1, s.len());
        assert(tail@ =~= s@.skip(pos + 1));
        if pos > 0 && tail.len() > 0 && only_digits(tail) {
            let head = slice_subrange(s, 0, pos);
            assert(head@ =~= s@.take(pos as int));
            return string_of(head);
        }
    }
    string_of(s)
}

/// A new-style arXiv ID: `NNNN.NNNN` or `NNNN.NNNNN`, with an optional version.
pub open spec fn is_arxiv_id(s: Seq<char>) -> bool {
    let core = without_version(s);
    &&& core.len() == 9 || core.len() == 10
    &&& core[4] == '.'
    &&& forall|i: int| 0 <= i < core.len() && i != 4 ==> is_digit(#[trigger] core[i])
}

fn looks_like_arxiv_id(s: &[char]) -> (r: bool)
    ensures
        r == is_arxiv_id(s@),
{
    let id = strip_arxiv_version(s);
    let core = chars_of(id.as_str());
    if core.len() != 9 && core.len() != 10 {
        return false;
    }
    let head = slice_subrange(core.as_slice(), 0, 4);
    let tail = slice_subrange(core.as_slice(), 5, core.len());
    assert forall|i: int| 0 <= i < core@.len() && i != 4 implies is_digit(#[trigger] core@[i])
        == if i < 4 {
        is_digit(head@[i])
    } else {
        is_digit(tail@[i - 5])
    } by {}
    assert forall|i: int| 0 <= i < tail@.len() implies #[trigger] tail@[i] == core@[i + 5] by {}
    core[4] == '.' && only_digits(head) && only_digits(tail)
}

/// A PMID as typed: a plain number, no separators, no leading zero.
pub open spec fn is_pmid(s: Seq<char>) -> bool {
    &&& 0 < s.len() <= MAX_PMID_DIGITS
    &&& s[0] != '0'
    &&& all_digits(s)
}

fn looks_like_pmid(s: &[char]) -> (r: bool)
    ensures
        r == is_pmid(s@),
{
    s.len() > 0 && s.len() <= MAX_PMID_DIGITS && s[0] != '0' && only_digits(s)
}

/// A separator people write inside an ISBN: a hyphen, a space or a typographic dash.
pub open spec fn is_isbn_separator(c: char) -> bool {
    c == '-' || c == ' ' || c == '\u{2010}' || c == '\u{2013}'
}

/// The characters of an ISBN without separators, with `X` in upper case.
pub open spec fn isbn_core(s: Seq<char>) -> Seq<char>
    decreases s.len(),
{
    if s.len() == 0 {
        Seq::empty()
    } else {
        let head = isbn_core(s.drop_last());
        if is_isbn_separator(s.last()) {
            head
        } else if s.last() == 'x' {
            head.push('X')
        } else {
            head.push(s.last())
        }
    }
}

/// What a character of an ISBN counts for.
pub open spec fn isbn_value(c: char) -> int {
    if c == 'X' {
        10
    } else {
        c as u32 - 48
    }
}

/// The first `n` characters of an ISBN-10, weighted 10, 9, 8 and so on.
pub open spec fn isbn10_sum(s: Seq<char>, n: int) -> int
    decreases n,
{
    if n <= 0 {
        0
    } else {
        isbn10_sum(s, n - 1) + (11 - n) * isbn_value(s[n - 1])
    }
}

/// The first `n` digits of an ISBN-13, weighted 1 and 3 in turn.
pub open spec fn isbn13_sum(s: Seq<char>, n: int) -> int
    decreases n,
{
    if n <= 0 {
        0
    } else {
        isbn13_sum(s, n - 1) + if n % 2 == 1 {
            isbn_value(s[n - 1])
        } else {
            3 * isbn_value(s[n - 1])
        }
    }
}

/// ISBN-10 is mod 11 over weights 10..1 with `X` standing for 10 at the end.
pub open spec fn is_isbn10(s: Seq<char>) -> bool {
    &&& s.len() == 10
    &&& forall|i: int| 0 <= i < 10 ==> is_digit(#[trigger] s[i]) || (i == 9 && s[i] == 'X')
    &&& isbn10_sum(s, 10) % 11 == 0
}

/// ISBN-13 is mod 10 over alternating weights 1 and 3.
pub open spec fn is_isbn13(s: Seq<char>) -> bool {
    &&& s.len() == 13
    &&& all_digits(s)
    &&& isbn13_sum(s, 13) % 10 == 0
}

/// The normalised ISBN that a text writes; none if it is not one or its check digit is wrong.
pub open spec fn isbn_of(s: Seq<char>) -> Option<Seq<char>> {
    let core = isbn_core(s);
    if is_isbn10(core) || is_isbn13(core) {
        Some(core)
    } else {
        None
    }
}

/// Strips separators, uppercases the check digit, and verifies it.
pub fn normalize_isbn(s: &str) -> (r: Option<String>)
    ensures
        match r {
            Some(isbn) => isbn_of(s@) == Some(isbn@),
            None => isbn_of(s@) is None,
        },
{
    isbn_in(&chars_of(s))
}

fn isbn_in(s: &[char]) -> (r: Option<String>)
    ensures
        match r {
            Some(isbn) => isbn_of(s@) == Some(isbn@),
            None => isbn_of(s@) is None,
        },
{
    let mut core: Vec<char> = Vec::new();
    let mut i: usize = 0;
    while i < s.len()
        invariant
            i <= s.len(),
            core@ == isbn_core(s@.take(i as int)),
        decreases s.len() - i,
    {
        let c = s[i];
        assert(s@.take(i as int + 1).drop_last() =~= s@.take(i as int));
        if !(c == '-' || c == ' ' || c == '\u{2010}' || c == '\u{2013}') {
            if c == 'x' {
                core.push('X');
            } else {
                core.push(c);
            }
        }
        i += 1;
    }
    assert(s@.take(s@.len() as int) =~= s@);
    if isbn_check_digit_ok(core.as_slice()) {
        Some(string_of(core.as_slice()))
    } else {
        None
    }
}

/// Whether these characters are an ISBN-10 or an ISBN-13 with the right check digit.
pub fn isbn_check_digit_ok(core: &[char]) -> (r: bool)
    ensures
        r == (is_isbn10(core@) || is_isbn13(core@)),
{
    if core.len() == 10 {
        let mut sum: u32 = 0;
        let mut i: usize = 0;
        while i < 10
            invariant
                i <= 10,
                core@.len() == 10,
                sum == isbn10_sum(core@, i as int),
                sum <= 100 * i,
                forall|k: int|
                    0 <= k < i ==> is_digit(#[trigger] core@[k]) || (k == 9 && core@[k] == 'X'),
            decreases 10 - i,
        {
            let c = core[i];
            let v: u32 = if c == 'X' && i == 9 {
                10
            } else if is_ascii_digit(c) {
                c as u32 - 48
            } else {
                return false;
            };
            let w: u32 = 10 - i as u32;
            assert(0 <= v * w <= 100) by (nonlinear_arith)
                requires
                    0 <= v <= 10,
                    0 <= w <= 10,
            ;
            assert(v * w == w * v) by (nonlinear_arith);
            sum += v * w;
            i += 1;
        }
        sum % 11 == 0
    } else if core.len() == 13 {
        let mut sum: u32 = 0;
        let mut i: usize = 0;
        while i < 13
            invariant
                i <= 13,
                core@.len() == 13,
                sum == isbn13_sum(core@, i as int),
                sum <= 27 * i,
                forall|k: int| 0 <= k < i ==> is_digit(#[trigger] core@[k]),
            decreases 13 - i,
        {
            let c = core[i];
            if !is_ascii_digit(c) {
                return false;
            }
            let v: u32 = c as u32 - 48;
            if i % 2 == 0 {
                sum += v;
            } else {
                sum += v * 3;
            }
            i += 1;
        }
        sum % 10 == 0
    } else {
        false
    }
}

/// An unprefixed value shaped like an ISBN: 10 or 13 characters, all digits apart from an
/// optional trailing `X` check digit on the shorter form.
pub open spec fn has_isbn_shape(s: Seq<char>) -> bool {
    &&& s.len() == 10 || s.len() == 13
    &&& forall|i: int|
        0 <= i < s.len() ==> is_digit(#[trigger] s[i]) || (s.len() == 10 && i == 9 && (s[i] == 'X'
            || s[i] == 'x'))
}

fn looks_like_bare_isbn_shape(s: &[char]) -> (r: bool)
    ensures
        r == has_isbn_shape(s@),
{
    if s.len() != 10 && s.len() != 13 {
        return false;
    }
    let mut i: usize = 0;
    while i < s.len()
        invariant
            i <= s.len(),
            forall|k: int|
                0 <= k < i ==> is_digit(#[trigger] s@[k]) || (s@.len() == 10 && k == 9 && (s@[k]
                    == 'X' || s@[k] == 'x')),
        decreases s.len() - i,
    {
        let c = s[i];
        if !(is_ascii_digit(c) || (s.len() == 10 && i == 9 && (c == 'X' || c == 'x'))) {
            assert(!is_digit(s@[i as int]));
            return false;
        }
        i += 1;
    }
    true
}

/// What a user-supplied identifier is read as: doi.org and arxiv.org URLs, then the prefixed
/// forms, then bare DOIs, arXiv IDs, ISBNs and PMIDs, in that order.
pub open spec fn identified(input: Seq<char>) -> Result<IdentifierView, IdentifierErrorView> {
    let s = trimmed(input);
    let lower = lowercase(s);
    if let Some(doi) = doi_of_url(s) {
        Ok(IdentifierView::Doi(doi))
    } else if let Some(id) = arxiv_of_url(s) {
        Ok(IdentifierView::Arxiv(id))
    } else if let Some(doi) = after_either(s, "doi:"@, "DOI:"@) {
        Ok(IdentifierView::Doi(trimmed(doi)))
    } else if let Some(id) = without_prefix(lower, "arxiv:"@) {
        Ok(IdentifierView::Arxiv(without_version(trimmed(id))))
    } else if let Some(raw) = without_prefix(lower, "isbn:"@) {
        match isbn_of(trimmed(raw)) {
            Some(isbn) => Ok(IdentifierView::Isbn(isbn)),
            None => Err(IdentifierErrorView::Isbn(trimmed(raw))),
        }
    } else if let Some(raw) = after_either(lower, "pmid:"@, "pubmed:"@) {
        if is_pmid(trimmed(raw)) {
            Ok(IdentifierView::Pmid(trimmed(raw)))
        } else {
            Err(IdentifierErrorView::Pmid(trimmed(raw)))
        }
    } else if "10."@.is_prefix_of(s) && s.contains('/') {
        Ok(IdentifierView::Doi(s))
    } else if is_arxiv_id(s) {
        Ok(IdentifierView::Arxiv(without_version(s)))
    } else if let Some(isbn) = isbn_of(s) {
        Ok(IdentifierView::Isbn(isbn))
    } else if is_pmid(s) {
        Ok(IdentifierView::Pmid(s))
    } else {
        Err(IdentifierErrorView::Unrecognized(input, has_isbn_shape(s)))
    }
}

/// The view of a parse.
pub open spec fn parse_view(r: Result<Identifier, IdentifierError>) -> Result<
    IdentifierView,
    IdentifierErrorView,
> {
    match r {
        Ok(id) => Ok(id@),
        Err(e) => Err(e@),
    }
}

/// Parses a user-supplied identifier. Accepts bare DOIs, doi.org URLs, `arXiv:ID`, bare arXiv
/// IDs (new-style `2401.12345`), arxiv.org URLs, `ISBN:`/bare ISBN-10 and ISBN-13 (hyphenated or
/// spaced), and `PMID:`/`PubMed:`/bare PubMed IDs.
pub fn parse_identifier(input: &str) -> (r: Result<Identifier, IdentifierError>)
    ensures
        parse_view(r) == identified(input@),
{
    let all = chars_of(input);
    let s = trim(all.as_slice());
    if let Some(doi) = strip_either(s, "https://doi.org/", "http://doi.org/") {
        return Ok(Identifier::Doi(string_of(doi)));
    }
    if let Some(doi) = strip_either(s, "https://dx.doi.org/", "http://dx.doi.org/") {
        return Ok(Identifier::Doi(string_of(doi)));
    }
    if let Some(id) = arxiv_in_url(s) {
        return Ok(Identifier::Arxiv(id));
    }
    if let Some(doi) = strip_either(s, "doi:", "DOI:") {
        return Ok(Identifier::Doi(string_of(trim(doi))));
    }
    let folded = to_lowercase(string_of(s).as_str());
    let lower_chars = chars_of(folded.as_str());
    let lower = lower_chars.as_slice();
    if let Some(id) = strip_prefix(lower, "arxiv:") {
        return Ok(Identifier::Arxiv(strip_arxiv_version(trim(id))));
    }
    if let Some(rest) = strip_prefix(lower, "isbn:") {
        let raw = trim(rest);
        return match isbn_in(raw) {
            Some(isbn) => Ok(Identifier::Isbn(isbn)),
            None => Err(IdentifierError::Isbn(string_of(raw))),
        };
    }
    if let Some(rest) = strip_either(lower, "pmid:", "pubmed:") {
        let raw = trim(rest);
        return if looks_like_pmid(raw) {
            Ok(Identifier::Pmid(string_of(raw)))
        } else {
            Err(IdentifierError::Pmid(string_of(raw)))
        };
    }
    if starts_with(s, "10.") && has_char(s, '/') {
        return Ok(Identifier::Doi(string_of(s)));
    }
    if looks_like_arxiv_id(s) {
        return Ok(Identifier::Arxiv(strip_arxiv_version(s)));
    }
    if let Some(isbn) = isbn_in(s) {
        return Ok(Identifier::Isbn(isbn));
    }
    if looks_like_pmid(s) {
        return Ok(Identifier::Pmid(string_of(s)));
    }
    Err(IdentifierError::Unrecognized(input.to_string(), looks_like_bare_isbn_shape(s)))
}

} // verus!
