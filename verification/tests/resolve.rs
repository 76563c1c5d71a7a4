use zot::api::bibtex::find_year;
use zot::api::medline::medline_doi;
use zot::api::medline::medline_to_bibtex;
use zot::api::openlibrary::openlibrary_to_bibtex;
use zot::api::resolve::normalize_isbn;
use zot::api::resolve::parse_identifier;
use zot::api::resolve::Identifier;
use zot::api::resolve::MAX_PMID_DIGITS;

#[test]
fn parses_identifiers() {
    assert_eq!(
        parse_identifier("10.1145/3597503").unwrap(),
        Identifier::Doi("10.1145/3597503".into())
    );
    assert_eq!(
        parse_identifier("https://doi.org/10.1/x").unwrap(),
        Identifier::Doi("10.1/x".into())
    );
    assert_eq!(
        parse_identifier("arXiv:2401.12345v2").unwrap(),
        Identifier::Arxiv("2401.12345".into())
    );
    assert_eq!(
        parse_identifier("2401.12345").unwrap(),
        Identifier::Arxiv("2401.12345".into())
    );
    assert_eq!(
        parse_identifier("https://arxiv.org/abs/2401.12345").unwrap(),
        Identifier::Arxiv("2401.12345".into())
    );
    assert_eq!(
        parse_identifier("https://arxiv.org/pdf/2401.12345.pdf").unwrap(),
        Identifier::Arxiv("2401.12345".into())
    );
    assert!(parse_identifier("not-an-id").is_err());
}

// Captured live from efetch on 2026-09-16 (PMID 23193287), trimmed to the
// tags the mapper reads plus the CIN line that quotes a foreign DOI.
const MEDLINE: &str = "\n\
    PMID- 23193287\n\
    OWN - NLM\n\
    IS  - 1362-4962 (Electronic)\n\
    VI  - 41\n\
    IP  - Database issue\n\
    DP  - 2013 Jan\n\
    TI  - GenBank.\n\
    PG  - D36-42\n\
    RIN - 10.1093/nar/gks9999 [doi]\n\
    LID - 10.1093/nar/gks1195 [doi]\n\
    AB  - GenBank(R) is a comprehensive database that contains publicly available \n\
    \x20     nucleotide sequences for almost 260 000 formally described species. Daily \n\
    \x20     data exchange ensures worldwide coverage.\n\
    FAU - Benson, Dennis A\n\
    AU  - Benson DA\n\
    AD  - National Center for Biotechnology Information, Building 38A, Bethesda, MD \n\
    \x20     20894, USA.\n\
    FAU - Cavanaugh, Mark\n\
    AU  - Cavanaugh M\n\
    TA  - Nucleic Acids Res\n\
    JT  - Nucleic acids research\n\
    CIN - Nature. 2013 Apr 25;496(7446):434. doi: 10.1038/496434b. PMID: 23619685\n";

// A record with neither FAU/AU nor any [doi]-marked tag, and a title full
// of TeX metacharacters, which is what a catalogue hands over unasked.
const MEDLINE_BARE: &str = "\n\
    PMID- 13054692\n\
    VI  - 171\n\
    DP  - 1953 Apr 25\n\
    TI  - Cost & schedule: 50% of $1M for {BIM} model_A #1.\n\
    PG  - 737-8\n\
    TA  - Nature\n\
    AID - 0006-291X(75)90508-2 [pii]\n";

// Captured live from openlibrary.org/api/books?jscmd=data on 2026-09-16.
const OPENLIBRARY: &str = r#"{"ISBN:9780262035613": {
    "url": "http://openlibrary.org/books/OL26455783M/Deep_Learning",
    "title": "Deep Learning",
    "authors": [{"name": "Ian Goodfellow"}, {"name": "Yoshua Bengio"},
                {"name": "Aaron Courville"}],
    "number_of_pages": 800,
    "identifiers": {"isbn_13": ["9780262035613"]},
    "publishers": [{"name": "MIT Press"}],
    "publish_date": "3 January 2017"}}"#;

// Same endpoint, hand-built rather than captured: the bibkey and the
// publisher come from the live record for ISBN 9780000000002, but that
// record is "The three voices of poetry" and does carry a publish_date and
// a page count. Here the title and subtitle are synthesised to pack in
// every TeX metacharacter, and `authors`, `publish_date` and
// `number_of_pages` are left out to exercise the fallbacks.
const OPENLIBRARY_BARE: &str = r#"{"ISBN:9780000000002": {
    "title": "Cost & Time",
    "subtitle": "100% of {what} #1 costs_now",
    "publishers": [{"name": "Deutscher Grenzverein"}]}}"#;

#[test]
fn isbn_check_digits_decide_what_is_an_isbn() {
    // ISBN-13 and ISBN-10 of the same book, bare, hyphenated and spaced.
    assert_eq!(normalize_isbn("9780262035613").as_deref(), Some("9780262035613"));
    assert_eq!(normalize_isbn("978-0-262-03561-3").as_deref(), Some("9780262035613"));
    assert_eq!(normalize_isbn("978 0 262 03561 3").as_deref(), Some("9780262035613"));
    assert_eq!(normalize_isbn("0262035618").as_deref(), Some("0262035618"));
    assert_eq!(normalize_isbn("0-262-03561-8").as_deref(), Some("0262035618"));

    // An X check digit counts as 10, and is normalised to uppercase.
    assert_eq!(normalize_isbn("043942089X").as_deref(), Some("043942089X"));
    assert_eq!(normalize_isbn("0-439-42089-x").as_deref(), Some("043942089X"));

    // Wrong check digit, either length.
    assert!(normalize_isbn("9780262035614").is_none());
    assert!(normalize_isbn("0262035619").is_none());
    // X anywhere but the last position is not a check digit.
    assert!(normalize_isbn("04X942089X").is_none());
    // A 13-digit number that is not an ISBN: a phone number, a timestamp,
    // an order reference. Accepting it would resolve the wrong thing.
    assert!(normalize_isbn("1234567890123").is_none());
    // Neither length.
    assert!(normalize_isbn("123456789").is_none());
    assert!(normalize_isbn("12345678901").is_none());
}

#[test]
fn parses_the_new_identifier_forms() {
    for input in [
        "9780262035613",
        "978-0-262-03561-3",
        "978 0 262 03561 3",
        "ISBN:9780262035613",
        "isbn: 978-0-262-03561-3",
    ] {
        assert_eq!(
            parse_identifier(input).unwrap(),
            Identifier::Isbn("9780262035613".into()),
            "{input}"
        );
    }
    assert_eq!(
        parse_identifier("0-439-42089-x").unwrap(),
        Identifier::Isbn("043942089X".into())
    );

    for input in ["23193287", "PMID:23193287", "pmid: 23193287", "PubMed:23193287"] {
        assert_eq!(
            parse_identifier(input).unwrap(),
            Identifier::Pmid("23193287".into()),
            "{input}"
        );
    }

    // A bare number is a PMID only up to MAX_PMID_DIGITS digits; beyond
    // that it has to be a valid ISBN or it is nothing at all.
    assert_eq!(parse_identifier("1").unwrap(), Identifier::Pmid("1".into()));
    assert!(parse_identifier("1234567890").is_err());
    assert!(parse_identifier("1234567890123").is_err());
    assert!(parse_identifier("0123456").is_err());
    // An explicit prefix says what the value is meant to be, so a bad one
    // gets an error about that type rather than the generic list.
    let err = parse_identifier("ISBN:9780262035614").unwrap_err().message();
    assert!(err.contains("Not a valid ISBN"), "{err}");
    let err = parse_identifier("PMID:abc").unwrap_err().message();
    assert!(err.contains("Not a valid PubMed ID"), "{err}");
}

#[test]
fn the_pmid_digit_limit_is_where_isbn_length_begins() {
    // MAX_PMID_DIGITS digits is still a PMID.
    assert_eq!(
        parse_identifier("999999999").unwrap(),
        Identifier::Pmid("999999999".into())
    );
    assert_eq!("999999999".len(), MAX_PMID_DIGITS);
    // One digit more is ISBN-10 length, so it is read as an ISBN or as
    // nothing: a valid ISBN-10 resolves, a bad check digit errors, and
    // neither outcome is a PMID.
    assert_eq!(
        parse_identifier("0262035618").unwrap(),
        Identifier::Isbn("0262035618".into())
    );
    // Ten nines pass the ISBN-10 check digit, so even that is a book
    // rather than a PMID.
    assert_eq!(
        parse_identifier("9999999999").unwrap(),
        Identifier::Isbn("9999999999".into())
    );
    assert!(parse_identifier("9999999998").is_err());
}

#[test]
fn an_isbn_pasted_from_a_pdf_keeps_its_typographic_dashes() {
    // A copy-paste out of a PDF brings U+2010 HYPHEN or U+2013 EN DASH
    // rather than ASCII '-'.
    assert_eq!(
        normalize_isbn("978\u{2010}0\u{2010}262\u{2010}03561\u{2010}3").as_deref(),
        Some("9780262035613")
    );
    assert_eq!(
        normalize_isbn("978\u{2013}0\u{2013}262\u{2013}03561\u{2013}3").as_deref(),
        Some("9780262035613")
    );
    // Mixed with ASCII hyphens and spaces, as a wrapped line produces.
    assert_eq!(
        normalize_isbn("978\u{2010}0-262 03561\u{2013}3").as_deref(),
        Some("9780262035613")
    );
}

#[test]
fn a_bare_isbn_with_a_bad_check_digit_says_so() {
    let err = parse_identifier("9781119287538").unwrap_err().message();
    assert!(err.contains("check digit does not match"), "{err}");
    let err = parse_identifier("026203561X").unwrap_err().message();
    assert!(err.contains("check digit does not match"), "{err}");
    // Nothing ISBN-shaped, so no hint about check digits.
    let err = parse_identifier("not-an-id").unwrap_err().message();
    assert!(!err.contains("check digit"), "{err}");
}

#[test]
fn the_new_variants_display_and_dedup_as_themselves() {
    let isbn = Identifier::Isbn("9780262035613".into());
    assert_eq!(isbn.display(), "ISBN 9780262035613");
    assert_eq!(isbn.dedup_query(), "9780262035613");
    let pmid = Identifier::Pmid("23193287".into());
    assert_eq!(pmid.display(), "PMID 23193287");
    assert_eq!(pmid.dedup_query(), "23193287");
}

#[test]
fn a_medline_record_maps_to_a_bibtex_article() {
    let bib = medline_to_bibtex(MEDLINE, "23193287").unwrap();
    assert!(bib.starts_with("@article{benson2013genbank,\n"), "{bib}");
    assert!(bib.contains("\ttitle = {GenBank},\n"), "{bib}");
    // FAU, not the abbreviated AU, and already in "Last, First" order.
    assert!(
        bib.contains("\tauthor = {Benson, Dennis A and Cavanaugh, Mark},\n"),
        "{bib}"
    );
    // JT wins over TA.
    assert!(bib.contains("\tjournal = {Nucleic acids research},\n"), "{bib}");
    // DP is compound: only the year belongs in the year field.
    assert!(bib.contains("\tyear = {2013},\n"), "{bib}");
    assert!(bib.contains("\tvolume = {41},\n"), "{bib}");
    assert!(bib.contains("\tnumber = {Database issue},\n"), "{bib}");
    assert!(bib.contains("\tpages = {D36-42},\n"), "{bib}");
    assert!(bib.contains("\tdoi = {10.1093/nar/gks1195},\n"), "{bib}");
    // The Extra field, which is where the duplicate guard looks.
    assert!(bib.contains("\tnote = {PMID: 23193287},\n"), "{bib}");
    assert!(bib.ends_with("}\n"), "{bib}");

    // The wrapped abstract is rejoined on one line, and the address block
    // that wraps the same way does not leak into it.
    assert!(
        bib.contains(
            "\tabstract = {GenBank(R) is a comprehensive database that contains publicly \
             available nucleotide sequences for almost 260 000 formally described species. \
             Daily data exchange ensures worldwide coverage.},\n"
        ),
        "{bib}"
    );
    assert!(!bib.contains("Bethesda"), "{bib}");
}

#[test]
fn the_doi_comes_only_from_a_doi_marked_lid_or_aid() {
    assert_eq!(medline_doi(MEDLINE).as_deref(), Some("10.1093/nar/gks1195"));
    // The CIN line quotes the DOI of a commenting article in prose; taking
    // it would resolve to the wrong paper entirely.
    assert!(!medline_doi(MEDLINE).unwrap().contains("496434b"));
    // AID without the [doi] marker is a publisher item id, not a DOI.
    assert_eq!(medline_doi(MEDLINE_BARE), None);
    // Neither does a [doi]-marked value under any other tag count.
    assert!(!medline_doi(MEDLINE).unwrap().contains("gks9999"));
}

#[test]
fn a_medline_record_without_authors_or_doi_still_maps() {
    let bib = medline_to_bibtex(MEDLINE_BARE, "13054692").unwrap();
    // No author line at all rather than an empty one, and the citekey falls
    // back to the PMID because there is no surname to build it from.
    assert!(!bib.contains("author = "), "{bib}");
    assert!(!bib.contains("doi = "), "{bib}");
    assert!(!bib.contains("journal = {Nature\n"), "{bib}");
    assert!(bib.starts_with("@article{130546921953cost,\n"), "{bib}");
    // TA is the fallback journal name when JT is missing.
    assert!(bib.contains("\tjournal = {Nature},\n"), "{bib}");

    // Every TeX metacharacter is escaped, so the braces stay balanced.
    assert!(
        bib.contains(
            "\ttitle = {Cost \\& schedule: 50\\% of \\$1M for \\{BIM\\} model\\_A \\#1},\n"
        ),
        "{bib}"
    );
    assert_eq!(
        bib.chars().filter(|c| *c == '{').count(),
        bib.chars().filter(|c| *c == '}').count(),
        "{bib}"
    );

    // A record with no title is not a record worth importing.
    assert!(medline_to_bibtex("PMID- 42\nVI  - 1\n", "42").is_err());
}

#[test]
fn an_openlibrary_record_maps_to_a_bibtex_book() {
    let bib = openlibrary_to_bibtex(OPENLIBRARY, "9780262035613").unwrap();
    assert!(bib.starts_with("@book{goodfellow2017deep,\n"), "{bib}");
    assert!(bib.contains("\ttitle = {Deep Learning},\n"), "{bib}");
    assert!(
        bib.contains("\tauthor = {Ian Goodfellow and Yoshua Bengio and Aaron Courville},\n"),
        "{bib}"
    );
    assert!(bib.contains("\tpublisher = {MIT Press},\n"), "{bib}");
    // publish_date is free-form prose; only the year survives.
    assert!(bib.contains("\tyear = {2017},\n"), "{bib}");
    assert!(bib.contains("\tpages = {800},\n"), "{bib}");
    assert!(bib.contains("\tisbn = {9780262035613},\n"), "{bib}");
    assert!(bib.ends_with("}\n"), "{bib}");
}

#[test]
fn an_openlibrary_record_without_authors_year_or_pages_still_maps() {
    let bib = openlibrary_to_bibtex(OPENLIBRARY_BARE, "9780000000002").unwrap();
    assert!(!bib.contains("author = "), "{bib}");
    assert!(!bib.contains("year = "), "{bib}");
    assert!(!bib.contains("pages = "), "{bib}");
    // No surname to key on, so the ISBN stands in.
    assert!(bib.starts_with("@book{9780000000002cost,\n"), "{bib}");
    // The subtitle joins the title, and both are escaped.
    assert!(
        bib.contains("\ttitle = {Cost \\& Time: 100\\% of \\{what\\} \\#1 costs\\_now},\n"),
        "{bib}"
    );
    assert_eq!(
        bib.chars().filter(|c| *c == '{').count(),
        bib.chars().filter(|c| *c == '}').count(),
        "{bib}"
    );
}

#[test]
fn an_isbn_openlibrary_does_not_know_is_reported_as_not_found() {
    // OpenLibrary answers an unknown bibkey with 200 and `{}`, so the
    // status code never says "not found" and the body has to.
    let err = openlibrary_to_bibtex("{}", "9783161484100").unwrap_err().message();
    assert!(err.contains("No book found for ISBN 9783161484100"), "{err}");
    assert!(err.contains("OpenLibrary"), "{err}");
    // A record filed under some other ISBN is not this book either.
    assert!(openlibrary_to_bibtex(OPENLIBRARY, "9780262035620").is_err());
    assert!(openlibrary_to_bibtex("not json", "9780262035613").is_err());
}

#[test]
fn a_free_form_date_yields_its_year_or_nothing() {
    assert_eq!(find_year("3 January 2017").as_deref(), Some("2017"));
    assert_eq!(find_year("c1985").as_deref(), Some("1985"));
    assert_eq!(find_year("1953 Apr 25").as_deref(), Some("1953"));
    assert_eq!(find_year("2013 Jan").as_deref(), Some("2013"));
    assert_eq!(find_year("n.d."), None);
    assert_eq!(find_year(""), None);
}
