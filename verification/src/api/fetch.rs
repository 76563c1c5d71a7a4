//! Fetching BibTeX for an identifier: the requests that are made, and what their answers mean.
//!
//! Requests are sent elsewhere. An answer arrives as its status code, the text that the status is
//! shown as, and its body.
use crate::api::medline::article_of;
use crate::api::medline::doi_of_fields;
use crate::api::medline::medline_doi;
use crate::api::medline::medline_of;
use crate::api::medline::medline_to_bibtex;
use crate::api::openlibrary::book_of;
use crate::api::openlibrary::fault_text;
use crate::api::openlibrary::openlibrary_to_bibtex;
use crate::api::openlibrary::BookFaultView;
use crate::failure::text_result;
use crate::failure::Failure;
use crate::json::json_parsed;
use crate::json::JsonTree;
use crate::percent::url_encode;
use crate::percent::url_encoded;
use crate::text::chars_of;
use crate::text::concat2;
use crate::text::concat4;
use crate::text::find_from;
use crate::text::found_from;
use crate::text::string_of;
use crate::text::trim;
use crate::text::trim_start;
use crate::text::trimmed;
use crate::text::trimmed_start;
use vstd::prelude::*;
use vstd::slice::slice_subrange;

verus! {

/// A status that reports success.
pub open spec fn is_success(status: u16) -> bool {
    200 <= status <= 299
}

/// Whether a status reports success.
pub fn success(status: u16) -> (r: bool)
    ensures
        r == is_success(status),
{
    200 <= status && status <= 299
}

/// Where a DOI is resolved to BibTeX, by content negotiation.
pub fn doi_url(doi: &str) -> (r: String)
    ensures
        r@ == "https://doi.org/"@ + url_encoded(doi@),
{
    concat2("https://doi.org/", url_encode(doi).as_str())
}

/// Where arXiv exports BibTeX for a paper.
pub fn arxiv_url(arxiv_id: &str) -> (r: String)
    ensures
        r@ == "https://arxiv.org/bibtex/"@ + arxiv_id@,
{
    concat2("https://arxiv.org/bibtex/", arxiv_id)
}

/// The DOI that arXiv assigns to every paper, for when its export fails.
pub fn arxiv_doi(arxiv_id: &str) -> (r: String)
    ensures
        r@ == "10.48550/arXiv."@ + arxiv_id@,
{
    concat2("10.48550/arXiv.", arxiv_id)
}

/// Where PubMed hands out a record in MEDLINE form.
pub fn pubmed_url(pmid: &str) -> (r: String)
    ensures
        r@
            == "https://eutils.ncbi.nlm.nih.gov/entrez/eutils/efetch.fcgi?db=pubmed&rettype=medline&retmode=text&tool=zot&id="@
            + url_encoded(pmid@),
{
    concat2(
        "https://eutils.ncbi.nlm.nih.gov/entrez/eutils/efetch.fcgi?db=pubmed&rettype=medline&retmode=text&tool=zot&id=",
        url_encode(pmid).as_str(),
    )
}

/// Where OpenLibrary hands out a book's record.
pub fn isbn_url(isbn: &str) -> (r: String)
    ensures
        r@ == "https://openlibrary.org/api/books?format=json&jscmd=data&bibkeys=ISBN:"@ + isbn@,
{
    concat2("https://openlibrary.org/api/books?format=json&jscmd=data&bibkeys=ISBN:", isbn)
}

/// A body that starts with an entry, whitespace aside.
pub open spec fn is_bibtex(body: Seq<char>) -> bool {
    let t = trimmed_start(body);
    t.len() > 0 && t[0] == '@'
}

/// The start of a body, as an error quotes it.
pub open spec fn quoted_start(body: Seq<char>) -> Seq<char> {
    trimmed(body.take(if body.len() < 200 { body.len() as int } else { 200 }))
}

/// The error for a body that is not BibTeX.
pub open spec fn not_bibtex(body: Seq<char>, id: Seq<char>) -> Seq<char> {
    "Unexpected response resolving "@ + id + " (not BibTeX): "@ + quoted_start(body)
}

/// A body that was fetched, if it is BibTeX.
pub open spec fn bibtex_body(body: Seq<char>, id: Seq<char>) -> Result<Seq<char>, Seq<char>> {
    if is_bibtex(body) {
        Ok(body)
    } else {
        Err(not_bibtex(body, id))
    }
}

/// Rejects a body that does not start with an entry.
pub fn validate_bibtex(body: &str, id: &str) -> (r: Result<(), Failure>)
    ensures
        match r {
            Ok(_) => is_bibtex(body@),
            Err(e) => !is_bibtex(body@) && e@ == not_bibtex(body@, id@),
        },
{
    let chars = chars_of(body);
    let t = trim_start(chars.as_slice());
    if t.len() > 0 && t[0] == '@' {
        return Ok(());
    }
    let end: usize = if chars.len() < 200 {
        chars.len()
    } else {
        200
    };
    let head = slice_subrange(chars.as_slice(), 0, end);
    assert(head@ =~= body@.take(end as int));
    let quoted = string_of(trim(head));
    Err(
        Failure {
            message: concat4(
                "Unexpected response resolving ",
                id,
                " (not BibTeX): ",
                quoted.as_str(),
            ),
        },
    )
}

/// What an answer to a DOI request means.
pub open spec fn doi_answer(doi: Seq<char>, status: u16, shown: Seq<char>, body: Seq<char>) -> Result<
    Seq<char>,
    Seq<char>,
> {
    if status == 404 {
        Err("DOI not found: "@ + doi)
    } else if !is_success(status) {
        Err("DOI resolution for "@ + doi + " failed with status "@ + shown)
    } else {
        bibtex_body(body, doi)
    }
}

/// Reads the answer to a DOI request.
pub fn read_doi_answer(doi: &str, status: u16, shown: &str, body: &str) -> (r: Result<
    String,
    Failure,
>)
    ensures
        text_result(r) == doi_answer(doi@, status, shown@, body@),
{
    if status == 404 {
        return Err(Failure { message: concat2("DOI not found: ", doi) });
    }
    if !success(status) {
        return Err(
            Failure {
                message: concat4("DOI resolution for ", doi, " failed with status ", shown),
            },
        );
    }
    match validate_bibtex(body, doi) {
        Ok(_) => Ok(body.to_string()),
        Err(e) => Err(e),
    }
}

/// What an answer to an arXiv export request means.
pub open spec fn arxiv_answer(id: Seq<char>, status: u16, shown: Seq<char>, body: Seq<char>) -> Result<
    Seq<char>,
    Seq<char>,
> {
    if !is_success(status) {
        Err("arXiv BibTeX export failed with status "@ + shown)
    } else {
        bibtex_body(body, id)
    }
}

/// Reads the answer to an arXiv export request.
pub fn read_arxiv_answer(id: &str, status: u16, shown: &str, body: &str) -> (r: Result<
    String,
    Failure,
>)
    ensures
        text_result(r) == arxiv_answer(id@, status, shown@, body@),
{
    if !success(status) {
        return Err(
            Failure { message: concat2("arXiv BibTeX export failed with status ", shown) },
        );
    }
    match validate_bibtex(body, id) {
        Ok(_) => Ok(body.to_string()),
        Err(e) => Err(e),
    }
}

/// What an answer of PubMed means: an error, or the DOI to try first where the record carries
/// one. An unknown PMID is answered with success and an empty body.
pub open spec fn pubmed_answer(pmid: Seq<char>, status: u16, shown: Seq<char>, body: Seq<char>) -> Result<
    Option<Seq<char>>,
    Seq<char>,
> {
    if !is_success(status) {
        Err("PubMed lookup for PMID "@ + pmid + " failed with status "@ + shown)
    } else if found_from(body, "PMID-"@, 0) is None {
        Err("PubMed has no record for PMID "@ + pmid)
    } else {
        Ok(doi_of_fields(medline_of(body)))
    }
}

/// Reads the answer of PubMed: the DOI to try first, where the record carries one.
pub fn read_pubmed_answer(pmid: &str, status: u16, shown: &str, body: &str) -> (r: Result<
    Option<String>,
    Failure,
>)
    ensures
        match r {
            Ok(doi) => pubmed_answer(pmid@, status, shown@, body@) == Ok::<_, Seq<char>>(
                crate::text::opt_text(doi),
            ),
            Err(e) => pubmed_answer(pmid@, status, shown@, body@) == Err::<
                Option<Seq<char>>,
                Seq<char>,
            >(e@),
        },
{
    if !success(status) {
        return Err(
            Failure {
                message: concat4("PubMed lookup for PMID ", pmid, " failed with status ", shown),
            },
        );
    }
    let chars = chars_of(body);
    if find_from(chars.as_slice(), "PMID-", 0).is_none() {
        return Err(Failure { message: concat2("PubMed has no record for PMID ", pmid) });
    }
    Ok(medline_doi(body))
}

/// The BibTeX for a PubMed record: the publisher's where its DOI gave some, else one mapped from
/// the record.
pub open spec fn pubmed_bibtex(
    pmid: Seq<char>,
    body: Seq<char>,
    publisher: Option<Seq<char>>,
) -> Result<Seq<char>, Seq<char>> {
    match publisher {
        Some(bib) => Ok(bib),
        None => match article_of(body, pmid) {
            Some(bib) => Ok(bib),
            None => Err("PubMed record for PMID "@ + pmid + " has no title"@),
        },
    }
}

/// Chooses the BibTeX for a PubMed record: the publisher's where there is some, else one mapped from
/// the record.
pub fn choose_pubmed_bibtex(pmid: &str, body: &str, publisher: Option<String>) -> (r: Result<
    String,
    Failure,
>)
    ensures
        text_result(r) == pubmed_bibtex(pmid@, body@, crate::text::opt_text(publisher)),
{
    match publisher {
        Some(bib) => Ok(bib),
        None => match medline_to_bibtex(body, pmid) {
            Ok(bib) => Ok(bib),
            Err(e) => Err(Failure { message: e.message() }),
        },
    }
}

/// What an answer of OpenLibrary means, given what its body was parsed as.
pub open spec fn isbn_answer(
    isbn: Seq<char>,
    status: u16,
    shown: Seq<char>,
    parsed: Result<JsonTree, Seq<char>>,
) -> Result<Seq<char>, Seq<char>> {
    if !is_success(status) {
        Err("OpenLibrary lookup for ISBN "@ + isbn + " failed with status "@ + shown)
    } else {
        let book = match parsed {
            Ok(answer) => book_of(answer, isbn),
            Err(cause) => Err(BookFaultView::Unparseable(cause)),
        };
        match book {
            Ok(bib) => Ok(bib),
            Err(fault) => Err(fault_text(isbn, fault)),
        }
    }
}

/// Reads the answer of OpenLibrary.
pub fn read_isbn_answer(isbn: &str, status: u16, shown: &str, body: &str) -> (r: Result<
    String,
    Failure,
>)
    ensures
        text_result(r) == isbn_answer(isbn@, status, shown@, json_parsed(body@)),
{
    if !success(status) {
        return Err(
            Failure {
                message: concat4(
                    "OpenLibrary lookup for ISBN ",
                    isbn,
                    " failed with status ",
                    shown,
                ),
            },
        );
    }
    match openlibrary_to_bibtex(body, isbn) {
        Ok(bib) => Ok(bib),
        Err(e) => Err(Failure { message: e.message() }),
    }
}

} // verus!
