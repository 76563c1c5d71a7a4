//! Book records of OpenLibrary's `/api/books?jscmd=data` endpoint.
use crate::api::bibtex::add_field;
use crate::api::bibtex::bibtex_entry;
use crate::api::bibtex::citekey;
use crate::api::bibtex::citekey_text;
use crate::api::bibtex::entry_text;
use crate::api::bibtex::find_year;
use crate::api::bibtex::pairs;
use crate::api::bibtex::with_field;
use crate::api::bibtex::year_from;
use crate::api::bibtex::Fields;
use crate::api::medline::author_field;
use crate::api::medline::author_list;
use crate::api::medline::first_name;
use crate::api::medline::first_text;
use crate::json::json_parsed;
use crate::json::json_tree;
use crate::json::json_trees;
use crate::json::member;
use crate::json::member_natural;
use crate::json::member_text;
use crate::json::parse_json;
use crate::json::JsonTree;
use crate::text::chars_of;
use crate::text::concat2;
use crate::text::concat3;
use crate::text::concat4;
use crate::text::decimal;
use crate::text::decimal_text;
use crate::text::opt_text;
use crate::text::string_of;
use crate::text::texts;
use crate::text::trim;
use crate::text::trim_end_matches;
use crate::text::trimmed;
use crate::text::without_suffixes;
use vstd::prelude::*;

verus! {

/// A text without surrounding whitespace, where that leaves something.
pub open spec fn filled(s: Option<Seq<char>>) -> Option<Seq<char>> {
    match s {
        Some(t) => if trimmed(t).len() > 0 {
            Some(trimmed(t))
        } else {
            None
        },
        None => None,
    }
}

fn filled_text(s: Option<&str>) -> (r: Option<String>)
    ensures
        opt_text(r) == filled(crate::json::opt_str(s)),
{
    match s {
        Some(t) => {
            let chars = chars_of(t);
            let cut = trim(chars.as_slice());
            if cut.len() > 0 {
                Some(string_of(cut))
            } else {
                None
            }
        },
        None => None,
    }
}

/// The names in a list of objects that carry one.
pub open spec fn names_in(items: Seq<JsonTree>) -> Seq<Seq<char>>
    decreases items.len(),
{
    if items.len() == 0 {
        Seq::empty()
    } else {
        let head = names_in(items.drop_last());
        match filled(items.last().member_text("name"@)) {
            Some(n) => head.push(n),
            None => head,
        }
    }
}

/// The names in the list under a key; none where there is no list.
pub open spec fn names_under(record: JsonTree, key: Seq<char>) -> Seq<Seq<char>> {
    match record.member(key) {
        Some(v) => match v.items() {
            Some(items) => names_in(items),
            None => Seq::empty(),
        },
        None => Seq::empty(),
    }
}

fn names(record: &serde_json::Value, key: &str) -> (r: Vec<String>)
    ensures
        texts(r@) == names_under(json_tree(*record), key@),
{
    let mut out: Vec<String> = Vec::new();
    assert(texts(out@) =~= Seq::empty());
    let list = match member(record, key) {
        Some(v) => match v.as_array() {
            Some(a) => a,
            None => {
                return out;
            },
        },
        None => {
            return out;
        },
    };
    let ghost items = json_trees(list@);
    let mut i: usize = 0;
    while i < list.len()
        invariant
            i <= list.len(),
            items == json_trees(list@),
            texts(out@) == names_in(items.take(i as int)),
        decreases list.len() - i,
    {
        assert(items.take(i as int + 1).drop_last() =~= items.take(i as int));
        assert(items.take(i as int + 1).last() == json_tree(list@[i as int]));
        if let Some(n) = filled_text(member_text(&list[i], "name")) {
            let ghost before = texts(out@);
            let ghost shown = n@;
            out.push(n);
            assert(texts(out@) =~= before.push(shown));
        }
        i += 1;
    }
    assert(items.take(items.len() as int) =~= items);
    out
}

/// The title of a book, with its subtitle after a colon.
pub open spec fn book_title(record: JsonTree) -> Option<Seq<char>> {
    match filled(record.member_text("title"@)) {
        Some(title) => match filled(record.member_text("subtitle"@)) {
            Some(sub) => Some(trimmed(without_suffixes(title, ":"@)) + ": "@ + sub),
            None => Some(title),
        },
        None => None,
    }
}

/// The year in a book's free-form date of publication.
pub open spec fn book_year(record: JsonTree) -> Option<Seq<char>> {
    match filled(record.member_text("publish_date"@)) {
        Some(d) => year_from(d, 0),
        None => None,
    }
}

/// The fields of the BibTeX entry for a book record with this title.
pub open spec fn book_fields(record: JsonTree, title: Seq<char>, isbn: Seq<char>) -> Fields {
    let e = seq![("title"@, title)];
    let e = with_field(e, "author"@, author_list(names_under(record, "authors"@)));
    let e = with_field(e, "publisher"@, first_text(names_under(record, "publishers"@)));
    let e = with_field(e, "year"@, book_year(record));
    let e = with_field(
        e,
        "pages"@,
        match record.member_natural("number_of_pages"@) {
            Some(n) => Some(decimal(n as nat)),
            None => None,
        },
    );
    with_field(e, "isbn"@, Some(isbn))
}

/// Why a book could not be read from an answer of OpenLibrary.
#[derive(Debug)]
pub enum BookFault {
    /// The answer is not JSON, with what the parser says of it.
    Unparseable(String),
    /// OpenLibrary has no record under this ISBN.
    Unknown,
    /// The record has no title.
    NoTitle,
}

/// A fault as the text it holds.
pub enum BookFaultView {
    Unparseable(Seq<char>),
    Unknown,
    NoTitle,
}

impl View for BookFault {
    type V = BookFaultView;

    open spec fn view(&self) -> BookFaultView {
        match self {
            BookFault::Unparseable(cause) => BookFaultView::Unparseable(cause@),
            BookFault::Unknown => BookFaultView::Unknown,
            BookFault::NoTitle => BookFaultView::NoTitle,
        }
    }
}

/// What an answer of OpenLibrary says of an ISBN.
pub open spec fn book_of(answer: JsonTree, isbn: Seq<char>) -> Result<Seq<char>, BookFaultView> {
    match answer.member("ISBN:"@ + isbn) {
        Some(record) => match book_title(record) {
            Some(title) => Ok(
                entry_text(
                    "book"@,
                    citekey_text(
                        first_text(names_under(record, "authors"@)),
                        book_year(record),
                        title,
                        isbn,
                    ),
                    book_fields(record, title, isbn),
                ),
            ),
            None => Err(BookFaultView::NoTitle),
        },
        None => Err(BookFaultView::Unknown),
    }
}

/// The message for a fault.
pub open spec fn fault_text(isbn: Seq<char>, fault: BookFaultView) -> Seq<char> {
    match fault {
        BookFaultView::Unparseable(cause) => "OpenLibrary returned unparseable JSON for ISBN "@
            + isbn + ": "@ + cause,
        BookFaultView::Unknown => "No book found for ISBN "@ + isbn
            + ". OpenLibrary (openlibrary.org/api/books) has no record for it."@,
        BookFaultView::NoTitle => "OpenLibrary record for ISBN "@ + isbn + " has no title"@,
    }
}

/// The error for a book that could not be read.
#[derive(Debug)]
pub struct BookError {
    pub isbn: String,
    pub fault: BookFault,
}

impl BookError {
    /// The message shown to the user.
    pub fn message(&self) -> (r: String)
        ensures
            r@ == fault_text(self.isbn@, self.fault@),
    {
        let isbn = self.isbn.as_str();
        match &self.fault {
            BookFault::Unparseable(cause) => concat4(
                "OpenLibrary returned unparseable JSON for ISBN ",
                isbn,
                ": ",
                cause.as_str(),
            ),
            BookFault::Unknown => concat3(
                "No book found for ISBN ",
                isbn,
                ". OpenLibrary (openlibrary.org/api/books) has no record for it.",
            ),
            BookFault::NoTitle => concat3("OpenLibrary record for ISBN ", isbn, " has no title"),
        }
    }
}

/// The view of a mapped book.
pub open spec fn book_view(r: Result<String, BookError>) -> Result<Seq<char>, BookFaultView> {
    match r {
        Ok(s) => Ok(s@),
        Err(e) => Err(e.fault@),
    }
}

/// Maps a parsed answer of OpenLibrary to a BibTeX `@book`. An ISBN that OpenLibrary does not
/// know is answered with an empty object.
pub fn book_to_bibtex(answer: &serde_json::Value, isbn: &str) -> (r: Result<String, BookError>)
    ensures
        book_view(r) == book_of(json_tree(*answer), isbn@),
        r is Err ==> r->Err_0.isbn@ == isbn@,
{
    let record = match member(answer, concat2("ISBN:", isbn).as_str()) {
        Some(record) => record,
        None => {
            return Err(BookError { isbn: isbn.to_string(), fault: BookFault::Unknown });
        },
    };
    let mut title = match filled_text(member_text(record, "title")) {
        Some(t) => t,
        None => {
            return Err(BookError { isbn: isbn.to_string(), fault: BookFault::NoTitle });
        },
    };
    if let Some(subtitle) = filled_text(member_text(record, "subtitle")) {
        let chars = chars_of(title.as_str());
        let head = string_of(trim(trim_end_matches(chars.as_slice(), ":")));
        title = concat3(head.as_str(), ": ", subtitle.as_str());
    }
    let authors = names(record, "authors");
    let publishers = names(record, "publishers");
    let publisher = match first_name(&publishers) {
        Some(p) => Some(p.to_string()),
        None => None,
    };
    let year = match filled_text(member_text(record, "publish_date")) {
        Some(d) => find_year(d.as_str()),
        None => None,
    };
    let pages = match member_natural(record, "number_of_pages") {
        Some(n) => Some(decimal_text(n)),
        None => None,
    };
    let year_text = match &year {
        Some(y) => Some(y.as_str()),
        None => None,
    };
    let key = citekey(first_name(&authors), year_text, title.as_str(), isbn);
    let ghost title_view = title@;
    let mut entry: Vec<(String, String)> = Vec::new();
    assert(pairs(entry@) =~= Seq::empty());
    add_field(&mut entry, "title", Some(title));
    assert(pairs(entry@) =~= seq![("title"@, title_view)]);
    add_field(&mut entry, "author", author_field(&authors));
    add_field(&mut entry, "publisher", publisher);
    add_field(&mut entry, "year", year);
    add_field(&mut entry, "pages", pages);
    add_field(&mut entry, "isbn", Some(isbn.to_string()));
    assert(pairs(entry@) == book_fields(json_tree(*record), title_view, isbn@));
    Ok(bibtex_entry("book", key.as_str(), entry.as_slice()))
}

/// Maps the body of an OpenLibrary answer to a BibTeX `@book`.
pub fn openlibrary_to_bibtex(body: &str, isbn: &str) -> (r: Result<String, BookError>)
    ensures
        book_view(r) == match json_parsed(body@) {
            Ok(answer) => book_of(answer, isbn@),
            Err(cause) => Err(BookFaultView::Unparseable(cause)),
        },
        r is Err ==> r->Err_0.isbn@ == isbn@,
{
    match parse_json(body) {
        Ok(answer) => book_to_bibtex(&answer, isbn),
        Err(cause) => Err(
            BookError { isbn: isbn.to_string(), fault: BookFault::Unparseable(cause) },
        ),
    }
}

} // verus!
