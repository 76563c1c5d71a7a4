use zot::api::bibtex::bibtex_entry;
use zot::api::bibtex::bibtex_escape;
use zot::api::bibtex::citekey;
use zot::api::client;
use zot::api::client::SearchParams;
use zot::api::connector;
use zot::api::fetch;
use zot::api::medline::medline_fields;
use zot::api::openlibrary::book_to_bibtex;
use zot::api::resolve::isbn_check_digit_ok;
use zot::api::resolve::normalize_isbn;
use zot::api::resolve::parse_identifier;
use zot::api::resolve::Identifier;
use zot::api::webapi;
use zot::api::webapi::DeleteAnswer;
use zot::api::webapi::PatchAnswer;
use zot::api::webapi::UploadStep;
use zot::commands::bibtex_fields::brace_delta;
use zot::commands::export_cmd::ExportFormat;

fn json(text: &str) -> serde_json::Value {
    serde_json::from_str(text).unwrap()
}

#[test]
fn escaping_leaves_no_bare_metacharacter() {
    assert_eq!(bibtex_escape("a{b}c"), "a\\{b\\}c");
    assert_eq!(bibtex_escape("50% & $1 #2 x_y"), "50\\% \\& \\$1 \\#2 x\\_y");
    assert_eq!(bibtex_escape("plain"), "plain");
}

#[test]
fn an_entry_lists_its_fields_and_stays_balanced() {
    let fields = [
        ("title".to_string(), "A {B".to_string()),
        ("year".to_string(), "2020".to_string()),
    ];
    let entry = bibtex_entry("book", "k", &fields);
    assert_eq!(entry, "@book{k,\n\ttitle = {A \\{B},\n\tyear = {2020},\n}\n");
    assert_eq!(brace_delta(&entry), 0);
}

#[test]
fn a_citekey_has_the_surname_the_year_and_a_title_word() {
    assert_eq!(
        citekey(Some("Benson, Dennis A"), Some("2013"), "GenBank.", "23193287"),
        "benson2013genbank"
    );
    // Only ASCII letters and digits are left.
    let key = citekey(Some("O'Neil, X"), None, "A {Odd} title", "1");
    assert!(key.chars().all(|c| c.is_ascii_alphanumeric()), "{key}");
}

#[test]
fn an_isbn_reads_back_as_itself() {
    for input in ["978-0-262-03561-3", "0-439-42089-x"] {
        let isbn = normalize_isbn(input).unwrap();
        assert_eq!(normalize_isbn(&isbn).as_deref(), Some(isbn.as_str()));
        let digits: Vec<char> = isbn.chars().collect();
        assert!(isbn_check_digit_ok(&digits));
        assert_eq!(parse_identifier(&isbn).unwrap(), Identifier::Isbn(isbn.clone()));
    }
    // A PubMed ID is never an ISBN.
    assert!(normalize_isbn("999999999").is_none());
    let pmid = parse_identifier("PMID:23193287").unwrap();
    assert_eq!(parse_identifier(pmid.dedup_query()).unwrap(), pmid);
}

#[test]
fn wrapped_medline_lines_join_the_field_above() {
    let fields = medline_fields("TI  - One\n      two\nVI  - 3\n");
    assert_eq!(
        fields,
        vec![
            ("TI".to_string(), "One two".to_string()),
            ("VI".to_string(), "3".to_string())
        ]
    );
}

#[test]
fn a_book_without_a_title_is_refused() {
    let err = book_to_bibtex(&json(r#"{"ISBN:1": {"publishers": []}}"#), "1").unwrap_err();
    assert!(err.message().contains('1'), "{}", err.message());
    let bib = book_to_bibtex(&json(r#"{"ISBN:1": {"title": "T", "publish_date": "c1985"}}"#), "1");
    assert!(bib.unwrap().contains("\tyear = {1985},\n"));
}

#[test]
fn request_addresses_encode_what_they_carry() {
    assert_eq!(fetch::doi_url("10.1/a b"), "https://doi.org/10.1%2Fa%20b");
    assert_eq!(fetch::doi_url("10.1/\u{fc}"), "https://doi.org/10.1%2F%C3%BC");
    assert_eq!(fetch::arxiv_url("2401.12345"), "https://arxiv.org/bibtex/2401.12345");
    assert_eq!(fetch::arxiv_doi("2401.12345"), "10.48550/arXiv.2401.12345");
    assert!(fetch::pubmed_url("42").ends_with("&id=42"));
    assert!(fetch::isbn_url("42").ends_with("bibkeys=ISBN:42"));
    assert!(fetch::success(204) && !fetch::success(302) && !fetch::success(199));
}

#[test]
fn answers_of_the_resolvers_are_checked() {
    assert_eq!(fetch::read_doi_answer("d", 200, "200 OK", " @a{b}").unwrap().trim(), "@a{b}");
    assert!(fetch::read_doi_answer("d", 404, "404 Not Found", "").is_err());
    assert!(fetch::read_doi_answer("d", 200, "200 OK", "<html>").is_err());
    assert!(fetch::validate_bibtex("<html>", "x").is_err());
    assert!(fetch::read_arxiv_answer("1", 500, "500", "").is_err());
    assert!(fetch::read_arxiv_answer("1", 200, "200 OK", "@misc{a}").is_ok());
    assert!(fetch::read_pubmed_answer("1", 500, "500", "").is_err());
    let medline = "PMID- 1\nTI  - T\nLID - 10.1/x [doi]\n";
    let doi = fetch::read_pubmed_answer("1", 200, "200 OK", medline).unwrap();
    assert_eq!(doi.as_deref(), Some("10.1/x"));
    let own = fetch::choose_pubmed_bibtex("1", medline, None).unwrap();
    assert!(own.contains("title = {T}"), "{own}");
    assert!(fetch::read_isbn_answer("1", 200, "200 OK", "{}").is_err());
    assert!(fetch::read_isbn_answer("1", 503, "503", "").is_err());
}

#[test]
fn a_search_address_names_every_filter() {
    let base = client::DEFAULT_BASE_URL;
    let mut params = SearchParams::default();
    assert_eq!(
        client::search_url(base, "a b", &params),
        "http://localhost:23119/api/users/0/items?q=a%20b&qmode=titleCreatorYear&itemType=-attachment%20-note%20-annotation&limit=25"
    );
    params.tag = Some("x&y".to_string());
    params.item_type = Some("book".to_string());
    params.collection = Some("ABCD".to_string());
    params.sort = Some("date".to_string());
    params.desc = true;
    params.everything = true;
    params.limit = Some(3);
    assert_eq!(
        client::search_url(base, "q", &params),
        "http://localhost:23119/api/users/0/collections/ABCD/items?q=q&qmode=everything&itemType=book&limit=3&tag=x%26y&sort=date&direction=desc"
    );
}

#[test]
fn the_local_api_is_probed_for_being_switched_on() {
    assert!(client::read_probe(200, "").is_ok());
    let off = client::read_probe(403, "Local API is not enabled").unwrap_err();
    assert!(off.message.contains("httpServer.localAPI.enabled"), "{}", off.message);
    let other = client::read_probe(403, " no \n").unwrap_err();
    assert_eq!(other.message, "Zotero local API returned 403 Forbidden: no");
    let gone = client::unreachable_error("http://localhost:23119/");
    assert!(gone.message.contains("Is it running?"));
    assert!(client::check_versions(500, "500", "x").is_err());
    assert!(client::check_versions(200, "200 OK", "x").is_ok());
    let missing = client::check_item(404, "404 Not Found", "K").unwrap_err();
    assert_eq!(missing.message, "Item K not found (status 404 Not Found)");
}

#[test]
fn pages_are_fetched_until_the_total_is_reached() {
    assert_eq!(client::total_results(Some("250")), 250);
    assert_eq!(client::total_results(Some("many")), 0);
    assert_eq!(client::total_results(None), 0);
    assert_eq!(client::next_page(0, 100, 250), Some(100));
    assert_eq!(client::next_page(200, 50, 250), None);
    assert_eq!(client::next_page(0, 0, 250), None);
    let keys = ["A".to_string(), "B".to_string()];
    assert_eq!(client::items_url("b", &keys), "b/items?itemKey=A,B&limit=2");
    assert_eq!(client::tags_url("b", 100), "b/tags?limit=100&start=100");
}

#[test]
fn an_attachment_path_is_decoded() {
    assert_eq!(
        client::attachment_path(302, Some("file:///a%20b/%C3%BC.pdf")).as_deref(),
        Some("/a b/\u{fc}.pdf")
    );
    // A path that does not decode to text is taken as it stands.
    assert_eq!(client::attachment_path(302, Some("file:///a%FF")).as_deref(), Some("/a%FF"));
    assert_eq!(client::attachment_path(302, Some("http://x")), None);
    assert_eq!(client::attachment_path(404, Some("file:///a")), None);
    assert_eq!(client::attachment_path(302, None), None);
    assert_eq!(client::choose_path("a".to_string(), Some("b".to_string())), "b");
    assert_eq!(client::choose_path("a".to_string(), None), "a");
}

#[test]
fn a_session_id_is_eight_letters_or_digits() {
    let id = connector::session_id(1, 2);
    assert_eq!(id.len(), 8);
    assert!(id.chars().all(|c| c.is_ascii_alphanumeric()));
    assert_ne!(id, connector::session_id(2, 2));
}

#[test]
fn connector_requests_name_their_session() {
    let meta = connector::attachment_metadata("s", "f.pdf");
    assert_eq!(meta.to_string(), r#"{"sessionID":"s","title":"f.pdf","url":"file://f.pdf"}"#);
    let update = connector::session_update("s", Some("C1"), None);
    assert_eq!(update.to_string(), r#"{"sessionID":"s","target":"C1"}"#);
    let tags = connector::session_update("s", None, Some("a,b"));
    assert_eq!(tags.to_string(), r#"{"sessionID":"s","tags":"a,b"}"#);
    assert_eq!(connector::session_query("s").to_string(), r#"{"sessionID":"s"}"#);
}

#[test]
fn connector_answers_are_checked() {
    let err = connector::read_import(500, "500", " bad ").unwrap_err();
    assert_eq!(err.message, "Zotero import failed (status 500): bad");
    let err = connector::read_import(201, "201", "x").unwrap_err();
    assert_eq!(err.message, "Failed to parse import response: x: expected value at line 1 column 1");
    assert_eq!(connector::read_import(201, "201", "[]").unwrap(), json("[]"));
    assert!(connector::read_saved_pdf(201, "201", r#"{"canRecognize":true}"#).unwrap());
    assert!(!connector::read_saved_pdf(201, "201", r#"{"canRecognize":false}"#).unwrap());
    assert!(connector::read_saved_pdf(500, "500", "").is_err());
    assert_eq!(connector::read_recognized(204, "204", "").unwrap(), None);
    assert_eq!(
        connector::read_recognized(200, "200 OK", r#"{"title":"T"}"#).unwrap(),
        Some(Some("T".to_string()))
    );
    assert!(connector::read_recognized(500, "500", "").is_err());
    assert!(connector::read_session_update(200, "200 OK", "").is_ok());
    assert!(connector::read_session_update(400, "400", "x").is_err());
}

#[test]
fn the_user_id_is_read_from_the_key_answer() {
    assert_eq!(webapi::read_user_id(200, "200 OK", r#"{"userID": 42}"#).unwrap(), 42);
    assert!(webapi::read_user_id(403, "403 Forbidden", "").unwrap_err().message.contains("403"));
    assert!(webapi::read_user_id(200, "200 OK", "{}").is_err());
    let err = webapi::read_user_id(200, "200 OK", "nope").unwrap_err();
    assert_eq!(
        err.message,
        "Failed to parse /keys/current: error decoding response body: expected ident at line 1 column 2"
    );
    assert_eq!(webapi::items_url(42, "/K"), "https://api.zotero.org/users/42/items/K");
    assert_eq!(webapi::collections_url(42), "https://api.zotero.org/users/42/collections");
    assert!(webapi::no_api_key().message.contains("zot config set-key"));
}

#[test]
fn a_missing_item_is_told_apart_from_a_refused_request() {
    assert!(webapi::read_item_status(200, "200 OK", "K").unwrap());
    assert!(!webapi::read_item_status(404, "404", "K").unwrap());
    let err = webapi::read_item_status(403, "403 Forbidden", "K").unwrap_err();
    assert_eq!(err.message, "Web API returned 403 Forbidden fetching K");
    assert!(webapi::item_not_found("K").message.contains("not found on api.zotero.org"));
    assert_eq!(webapi::item_version(&json(r#"{"version": 7}"#)).unwrap(), 7);
    assert!(webapi::item_version(&json("{}")).is_err());
}

#[test]
fn a_changed_item_is_never_overwritten() {
    match webapi::read_patch_answer(412, "412", None, "", "K", 7) {
        PatchAnswer::Conflict(c) => {
            assert_eq!(c.key, "K");
            assert_eq!(c.read_version, 7);
            assert!(c.message().contains("so nothing was written"));
        }
        other => panic!("{other:?}"),
    }
    assert!(matches!(webapi::read_patch_answer(204, "204", Some("9"), "", "K", 7), PatchAnswer::Written(9)));
    assert!(matches!(webapi::read_patch_answer(204, "204", None, "", "K", 7), PatchAnswer::Written(8)));
    match webapi::read_patch_answer(400, "400 Bad Request", None, " no ", "K", 7) {
        PatchAnswer::Refused(f) => {
            assert_eq!(f.message, "Web API PATCH failed (status 400 Bad Request): no")
        }
        other => panic!("{other:?}"),
    }
}

#[test]
fn rejected_items_inside_a_success_are_an_error() {
    let rejected = r#"{"failed": {"0": {"code": 409}}}"#;
    let err = webapi::read_items_creation(200, "200 OK", rejected).unwrap_err();
    assert_eq!(err.message, r#"Web API rejected item(s): {"0":{"code":409}}"#);
    assert!(webapi::check_created_items(&json(rejected)).is_err());
    assert!(webapi::check_created_items(&json(r#"{"failed": {}}"#)).is_ok());
    let made = webapi::read_items_creation(200, "200 OK", r#"{"success": {"0": "K"}}"#).unwrap();
    assert_eq!(made, json(r#"{"success": {"0": "K"}}"#));
    let err = webapi::read_items_creation(500, "500", " x ").unwrap_err();
    assert_eq!(err.message, "Web API item creation failed (status 500): x");
    let err = webapi::read_items_creation(200, "200 OK", "x").unwrap_err();
    assert_eq!(err.message, "Failed to parse creation response: expected value at line 1 column 1");
}

#[test]
fn an_answer_to_a_new_collection_is_read() {
    let err = webapi::read_creation(500, "500", " x ").unwrap_err();
    assert_eq!(err.message, "Web API collection creation failed (status 500): x");
    let err = webapi::read_creation(200, "200 OK", "{").unwrap_err();
    assert_eq!(
        err.message,
        "Failed to parse collection creation response: EOF while parsing an object at line 1 column 1"
    );
    assert!(webapi::read_creation(200, "200 OK", "{}").is_ok());
    assert_eq!(
        webapi::collection_body("N", None).to_string(),
        r#"[{"name":"N","parentCollection":false}]"#
    );
    assert_eq!(
        webapi::collection_body("N", Some("P")).to_string(),
        r#"[{"name":"N","parentCollection":"P"}]"#
    );
}

#[test]
fn an_upload_is_announced_by_digest_and_size() {
    assert_eq!(
        webapi::upload_form(b"hello", "a b.pdf", 5),
        "md5=5d41402abc4b2a76b9719d911017c592&filename=a%20b.pdf&filesize=5&mtime=5"
    );
    assert_eq!(webapi::form_for_digest(&[0, 255], "f", 1, 2), "md5=00ff&filename=f&filesize=1&mtime=2");
    assert_eq!(webapi::hex(&[0x0a, 0xb0]), "0ab0");
}

#[test]
fn an_upload_goes_where_the_authorization_says() {
    assert!(matches!(webapi::upload_step(&json(r#"{"exists": 1}"#), b"x").unwrap(), UploadStep::Stored));
    let auth = r#"{"url": "https://s", "contentType": "t/x", "prefix": "<", "suffix": ">", "uploadKey": "u"}"#;
    match webapi::read_upload_auth(200, "200 OK", auth, b"x").unwrap() {
        UploadStep::Send { url, content_type, payload, upload_key } => {
            assert_eq!(url, "https://s");
            assert_eq!(content_type, "t/x");
            assert_eq!(payload, b"<x>");
            assert_eq!(webapi::register_form(upload_key.as_deref()).unwrap(), "upload=u");
        }
        UploadStep::Stored => panic!("a file was to be sent"),
    }
    assert!(webapi::upload_step(&json("{}"), b"x").is_err());
    assert!(webapi::register_form(None).is_err());
    assert!(webapi::read_upload_auth(500, "500", "", b"x").is_err());
    assert!(webapi::read_storage_status(500, "500").is_err());
    assert!(webapi::read_storage_status(201, "201").is_ok());
    assert!(webapi::read_registration(500, "500", "x").is_err());
    assert!(webapi::read_registration(204, "204", "").is_ok());
}

#[test]
fn an_escape_without_two_digits_stays() {
    let path = |p: &str| client::attachment_path(302, Some(&format!("file://{p}")));
    assert_eq!(path("/a%2").as_deref(), Some("/a%2"));
    assert_eq!(path("/a%zz%41").as_deref(), Some("/a%zzA"));
    assert_eq!(path("/a%%41").as_deref(), Some("/a%A"));
    assert_eq!(path("/%c3%bc%C3%BC+").as_deref(), Some("/\u{fc}\u{fc}+"));
}

#[test]
fn identifiers_read_back_as_themselves() {
    for input in ["10.1145/3597503", "https://arxiv.org/abs/2401.12345v3", "PMID:23193287"] {
        let id = parse_identifier(input).unwrap();
        assert_eq!(parse_identifier(id.dedup_query()).unwrap(), id);
    }
}

#[test]
fn an_encoded_text_decodes_to_itself() {
    for text in ["a b/c", "100% \u{fc}", "x+y~z", ""] {
        let url = fetch::doi_url(text);
        let encoded = url.strip_prefix("https://doi.org/").unwrap();
        let path = client::attachment_path(302, Some(&format!("file://{encoded}")));
        assert_eq!(path.as_deref(), Some(text));
    }
}

#[test]
fn the_answer_to_a_deletion_is_told_apart_by_its_status() {
    let read = |status: u16, shown: &str| {
        webapi::read_collection_deletion(status, shown, " gone wrong\n", "COLL0001", 12)
    };
    assert!(matches!(read(204, "204 No Content"), DeleteAnswer::Deleted));
    match read(412, "412 Precondition Failed") {
        DeleteAnswer::Conflict(c) => {
            assert_eq!(c.key, "COLL0001");
            assert_eq!(c.read_version, 12);
        }
        other => panic!("{other:?}"),
    }
    match read(403, "403 Forbidden") {
        DeleteAnswer::Refused(e) => {
            assert_eq!(e.message, "Web API DELETE failed (status 403 Forbidden): gone wrong");
        }
        other => panic!("{other:?}"),
    }
}

#[test]
fn a_collection_is_read_from_a_success_alone() {
    assert_eq!(
        webapi::collection_url(42, "COLL0001"),
        "https://api.zotero.org/users/42/collections/COLL0001"
    );
    assert!(webapi::check_collection(200, "200 OK", "COLL0001").is_ok());
    let err = webapi::check_collection(404, "404 Not Found", "COLL0001").unwrap_err();
    assert_eq!(err.message, "Web API returned 404 Not Found fetching collection COLL0001");
}

#[test]
fn rendered_items_are_asked_for_by_format() {
    let keys = ["A".to_string(), "B".to_string()];
    assert_eq!(
        client::rendered_items_url("base", &keys, ExportFormat::Ris),
        "base/items?itemKey=A,B&limit=2&format=ris"
    );
    assert_eq!(
        client::rendered_page_url("base", "K", 100, ExportFormat::Bibtex),
        "base/collections/K/items/top?limit=100&start=100&format=bibtex"
    );
    assert!(client::check_rendered(200, "200 OK", ExportFormat::CslJson).is_ok());
    let err = client::check_rendered(500, "500", ExportFormat::CslJson).unwrap_err();
    assert_eq!(err.message, "Zotero returned 500 rendering items as csljson");
}
