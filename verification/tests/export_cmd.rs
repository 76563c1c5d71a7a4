use zot::api::models::ZoteroItem;
use zot::api::models::ZoteroItemData;
use zot::api::models::ZoteroMeta;
use zot::commands::bibtex_fields::brace_delta;
use zot::commands::bibtex_fields::count_bibtex_entries;
use zot::commands::bibtex_fields::field_name;
use zot::commands::bibtex_fields::strip_bibtex_fields;
use zot::commands::export_cmd::came_back_short;
use zot::commands::export_cmd::count_entries;
use zot::commands::export_cmd::finish_export;
use zot::commands::export_cmd::merge_bodies;
use zot::commands::export_cmd::title_map;
use zot::commands::export_cmd::ExportFormat;
use zot::commands::export_cmd::DEFAULT_STRIP_FIELDS;

fn blank_item(key: &str, item_type: &str) -> ZoteroItem {
    ZoteroItem {
        key: key.to_string(),
        version: 1,
        meta: ZoteroMeta { creator_summary: None, parsed_date: None, num_children: None },
        data: ZoteroItemData {
            key: key.to_string(),
            version: 1,
            item_type: item_type.to_string(),
            title: String::new(),
            short_title: String::new(),
            date: String::new(),
            abstract_note: String::new(),
            creators: Vec::new(),
            tags: Vec::new(),
            collections: Vec::new(),
            publication_title: String::new(),
            doi: String::new(),
            url: String::new(),
            date_added: String::new(),
            date_modified: String::new(),
            language: String::new(),
            volume: String::new(),
            pages: String::new(),
            citation_key: String::new(),
            content_type: String::new(),
            parent_item: String::new(),
            note: String::new(),
            extra: String::new(),
        },
    }
}

const STRIP: [&str; 4] = DEFAULT_STRIP_FIELDS;

/// `itemType`, `title` and `note` are the three fields `title_map` reads.
fn item(key: &str, item_type: &str, title: &str, note: &str) -> ZoteroItem {
    let mut item = blank_item(key, item_type);
    item.data.title = title.to_string();
    item.data.note = note.to_string();
    item
}

/// Two entries in Zotero's exact emitted shape: tab indent, `= {`, trailing
/// comma on every field line, `}` alone, blank line between entries.
fn sample() -> String {
    "\n@article{jumperHighlyAccurateProtein2021,\n\
     \ttitle = {Highly accurate prediction with {AlphaFold}},\n\
     \tabstract = {Proteins are essential. Nested {braces} here too.},\n\
     \turl = {http://dx.doi.org/10.1038/s41586-021-03819-2},\n\
     \turldate = {2024-03-01},\n\
     \tkeywords = {biology,structure},\n\
     \tfile = {/home/u/Zotero/storage/ABCD/paper.pdf},\n\
     \tyear = {2021},\n\
     }\n\
     \n\
     @inproceedings{zhaoDETRsBeatYOLOs2024,\n\
     \ttitle = {DETRs Beat {YOLOs}},\n\
     \tnote = {arXiv:2305.17926 [cs]},\n\
     \tannote = {another one},\n\
     \tpages = {16965--16974},\n\
     }\n"
        .to_string()
}

#[test]
fn strips_every_default_field() {
    let out = strip_bibtex_fields(&sample(), &STRIP);
    for field in STRIP {
        assert!(
            !out.contains(&format!("\t{field} = ")),
            "{field} survived stripping:\n{out}"
        );
    }
    // And keeps everything else.
    assert!(out.contains("\ttitle = {Highly accurate prediction with {AlphaFold}},"));
    assert!(out.contains("\turl = {http://dx.doi.org/10.1038/s41586-021-03819-2},"));
    assert!(out.contains("\tyear = {2021},"));
    assert!(out.contains("\tpages = {16965--16974},"));
}

/// `note` is Zotero's Extra field (arXiv IDs, version numbers) and
/// `urldate` is the companion `url` carries on `@online`, so neither is
/// private to the library and neither may be stripped by default.
#[test]
fn the_default_set_keeps_note_and_urldate() {
    assert_eq!(STRIP, ["file", "annote", "abstract", "keywords"]);
    let out = strip_bibtex_fields(&sample(), &STRIP);
    assert!(out.contains("\turldate = {2024-03-01},"), "{out}");
    assert!(out.contains("\tnote = {arXiv:2305.17926 [cs]},"), "{out}");
}

#[test]
fn keeps_entry_structure_intact() {
    let out = strip_bibtex_fields(&sample(), &STRIP);
    assert_eq!(count_bibtex_entries(&out), 2);
    assert!(out.contains("@article{jumperHighlyAccurateProtein2021,"));
    assert!(out.contains("@inproceedings{zhaoDETRsBeatYOLOs2024,"));
    assert_eq!(out.matches("\n}\n").count(), 2);
}

#[test]
fn nested_braces_do_not_cut_the_value_short() {
    let input =
        "@article{k,\n\tabstract = {A {nested} {b{r}ace} pile},\n\ttitle = {Kept},\n}\n";
    let out = strip_bibtex_fields(input, &STRIP);
    assert_eq!(out, "@article{k,\n\ttitle = {Kept},\n}\n");
}

#[test]
fn multi_line_value_is_dropped_whole() {
    let input = "@article{k,\n\
                 \tabstract = {line one\n\
                 line two {nested}\n\
                 line three},\n\
                 \ttitle = {Kept},\n\
                 }\n";
    let out = strip_bibtex_fields(input, &STRIP);
    assert_eq!(out, "@article{k,\n\ttitle = {Kept},\n}\n");
}

#[test]
fn multi_line_value_that_is_kept_survives_whole() {
    let input = "@article{k,\n\
                 \ttitle = {line one\n\
                 line two},\n\
                 \tannote = {gone},\n\
                 }\n";
    let out = strip_bibtex_fields(input, &STRIP);
    assert_eq!(out, "@article{k,\n\ttitle = {line one\nline two},\n}\n");
}

#[test]
fn a_field_name_that_is_a_prefix_of_another_is_not_stripped() {
    let input = "@article{k,\n\tnote = {kept},\n\tannote = {gone},\n\tfilename = {kept},\n\
                 \tfile = {gone},\n}\n";
    let out = strip_bibtex_fields(input, &STRIP);
    assert_eq!(out, "@article{k,\n\tnote = {kept},\n\tfilename = {kept},\n}\n");
}

#[test]
fn an_entry_with_nothing_to_strip_is_returned_byte_for_byte() {
    let input = "@book{k,\n\ttitle = {Nothing private},\n\tyear = {1999},\n}\n";
    assert_eq!(strip_bibtex_fields(input, &STRIP), input);
}

#[test]
fn an_entry_whose_fields_are_all_stripped_stays_valid() {
    let input = "@misc{k,\n\tannote = {a},\n\tfile = {b},\n}\n";
    assert_eq!(strip_bibtex_fields(input, &STRIP), "@misc{k,\n}\n");
}

#[test]
fn raw_passthrough_strips_nothing() {
    let input = sample();
    assert_eq!(strip_bibtex_fields(&input, &[]), input);
}

#[test]
fn a_value_containing_an_at_sign_line_is_not_a_new_entry() {
    let input = "@article{k,\n\ttitle = {Mail\n@example.com\nend},\n}\n";
    assert_eq!(count_bibtex_entries(input), 1);
}

#[test]
fn brace_delta_ignores_escaped_braces() {
    assert_eq!(brace_delta("\ttitle = {a \\{ b},"), 0);
    assert_eq!(brace_delta("\ttitle = {a \\} b},"), 0);
    assert_eq!(brace_delta("\ttitle = {open"), 1);
}

#[test]
fn field_name_rejects_non_assignments() {
    assert_eq!(field_name("\ttitle = {x},").as_deref(), Some("title"));
    assert_eq!(field_name("\tmonth = jul,").as_deref(), Some("month"));
    assert_eq!(field_name("@article{key,").as_deref(), None);
    assert_eq!(field_name("}").as_deref(), None);
    assert_eq!(field_name("some prose = with spaces").as_deref(), None);
}

#[test]
fn counts_entries_per_format() {
    assert_eq!(count_entries(&sample(), ExportFormat::Bibtex).unwrap(), 2);
    let ris = "TY  - JOUR\nTI  - One\nER  - \n\nTY  - CONF\nTI  - Two\nER  - \n";
    assert_eq!(count_entries(ris, ExportFormat::Ris).unwrap(), 2);
    let csl = "[{\"id\":\"a\"},{\"id\":\"b\"},{\"id\":\"c\"}]";
    assert_eq!(count_entries(csl, ExportFormat::CslJson).unwrap(), 3);
}

#[test]
fn counts_nothing_in_an_empty_body() {
    for format in [ExportFormat::Bibtex, ExportFormat::Ris, ExportFormat::CslJson] {
        assert_eq!(count_entries("", format).unwrap(), 0);
    }
}

#[test]
fn merges_bibtex_with_one_blank_line_between_entries() {
    let bodies = vec![
        "\n@article{a,\n\ttitle = {A},\n}\n".to_string(),
        "\n@article{b,\n\ttitle = {B},\n}\n".to_string(),
    ];
    let merged = merge_bodies(&bodies, ExportFormat::Bibtex).unwrap();
    assert_eq!(
        merged,
        "@article{a,\n\ttitle = {A},\n}\n\n@article{b,\n\ttitle = {B},\n}"
    );
    assert_eq!(count_entries(&merged, ExportFormat::Bibtex).unwrap(), 2);
}

#[test]
fn merges_csljson_into_a_single_array() {
    let bodies = vec![
        "[{\"id\":\"a\"}]".to_string(),
        "[{\"id\":\"b\"},{\"id\":\"c\"}]".to_string(),
    ];
    let merged = merge_bodies(&bodies, ExportFormat::CslJson).unwrap();
    assert_eq!(count_entries(&merged, ExportFormat::CslJson).unwrap(), 3);
    assert!(merged.starts_with('['));
    assert!(merged.ends_with(']'));
    // The README promises two-space pretty-printing, so plain
    // `to_string` must not pass this.
    assert_eq!(
        merged,
        "[\n  {\n    \"id\": \"a\"\n  },\n  {\n    \"id\": \"b\"\n  },\n  \
         {\n    \"id\": \"c\"\n  }\n]"
    );
}

#[test]
fn a_titled_item_is_named_by_its_title() {
    let items = [item("AAAA1111", "journalArticle", "Highly accurate", "")];
    let map = title_map(&items);
    assert_eq!(map.get("AAAA1111").unwrap(), "Highly accurate");
}

/// Regression: this used to read `note note: <div data-schema-version=`,
/// doubling the word and showing markup instead of the heading.
#[test]
fn a_standalone_note_is_named_by_its_first_line_of_text() {
    let body = "<div data-schema-version=\"9\"><h1>Curriculum</h1>\n\
                <p></p>\n<ol>\n<li>\nManning -- textbook\n</li>\n</ol>\n</div>";
    let items = [item("VETJB3WE", "note", "", body)];
    let map = title_map(&items);
    assert_eq!(map.get("VETJB3WE").unwrap(), "note: Curriculum");
}

#[test]
fn a_note_on_a_non_note_item_still_names_its_type() {
    let items = [item("BBBB2222", "attachment", "", "<p>Scan of page 3</p>")];
    let map = title_map(&items);
    assert_eq!(map.get("BBBB2222").unwrap(), "attachment note: Scan of page 3");
}

#[test]
fn a_note_whose_opening_lines_are_only_markup_skips_them() {
    let items = [item("CCCC3333", "note", "", "<div>\n<h1>\nMeeting minutes\n</h1>\n</div>")];
    let map = title_map(&items);
    assert_eq!(map.get("CCCC3333").unwrap(), "note: Meeting minutes");
}

#[test]
fn a_long_note_first_line_is_truncated_for_display() {
    let long = "x".repeat(120);
    let items = [item("DDDD4444", "note", "", &format!("<p>{long}</p>"))];
    let map = title_map(&items);
    let title = map.get("DDDD4444").unwrap();
    assert_eq!(title, &format!("note: {}...", "x".repeat(60)));
}

#[test]
fn an_item_with_neither_title_nor_note_falls_back_to_its_type() {
    let items = [item("EEEE5555", "attachment", "", "")];
    let map = title_map(&items);
    assert_eq!(map.get("EEEE5555").unwrap(), "untitled attachment");
}

#[test]
fn raw_keeps_the_private_fields_in_the_bibliography() {
    let out =
        finish_export(2, &[sample()], Vec::new(), ExportFormat::Bibtex, true, None).unwrap();
    let content = out.content.as_deref().unwrap();
    assert!(content.contains("\tfile = {/home/u/Zotero/storage/ABCD/paper.pdf},"));
    assert!(content.contains("\tannote = {another one},"));
    assert_eq!(out.exported, 2);
    assert_eq!(out.requested, 2);
    assert!(out.path.is_none());
}

/// `--raw` is a no-op for RIS and CSL JSON, which never carry the private
/// fields, so both go through the same untouched branch.
#[test]
fn a_non_bibtex_format_is_passed_through_even_without_raw() {
    let ris = "TY  - JOUR\nTI  - One\nN1  - private thought\nER  - \n".to_string();
    let bodies = std::slice::from_ref(&ris);
    let out = finish_export(1, bodies, Vec::new(), ExportFormat::Ris, false, None).unwrap();
    assert_eq!(out.content.as_deref().unwrap(), ris.trim_matches('\n'));
    assert_eq!(out.format, "ris");
    assert_eq!(out.exported, 1);
}

#[test]
fn without_raw_bibtex_is_stripped() {
    let out =
        finish_export(2, &[sample()], Vec::new(), ExportFormat::Bibtex, false, None).unwrap();
    let content = out.content.as_deref().unwrap();
    assert!(!content.contains("\tfile = "));
    assert!(!content.contains("\tannote = "));
    assert!(content.contains("\tnote = {arXiv:2305.17926 [cs]},"));
}

#[test]
fn a_short_body_asks_for_the_per_key_probe() {
    assert!(came_back_short(11, 12));
    assert!(came_back_short(0, 1));
}

#[test]
fn a_complete_body_costs_no_extra_request() {
    assert!(!came_back_short(12, 12));
    assert!(!came_back_short(0, 0));
    // The translator cannot invent entries, but a surplus must not probe.
    assert!(!came_back_short(13, 12));
}

#[test]
fn parses_format_names_and_their_aliases() {
    for (input, expected) in [
        ("bibtex", ExportFormat::Bibtex),
        ("BibTeX", ExportFormat::Bibtex),
        ("bib", ExportFormat::Bibtex),
        (" ris ", ExportFormat::Ris),
        ("csljson", ExportFormat::CslJson),
        ("csl-json", ExportFormat::CslJson),
    ] {
        assert_eq!(ExportFormat::from_str(input).unwrap(), expected, "{input}");
    }
}

#[test]
fn rejects_an_unknown_format_by_name() {
    let err = ExportFormat::from_str("endnote").unwrap_err().message;
    assert!(err.contains("endnote"), "{err}");
    assert!(err.contains("bibtex, ris, csljson"), "{err}");
}

#[test]
fn format_query_params_are_what_the_local_api_expects() {
    assert_eq!(ExportFormat::Bibtex.as_param(), "bibtex");
    assert_eq!(ExportFormat::Ris.as_param(), "ris");
    assert_eq!(ExportFormat::CslJson.as_param(), "csljson");
}

#[test]
fn stripping_a_stream_takes_the_lines_of_the_named_fields() {
    let bib = "\n@article{one,\n\ttitle = {A {B}},\n\tAbstract = {first {x}\n@misc{not,\n\tnote = {inner}}\nlast},\n\tnote = {kept},\n\tannote = {gone}\n}\n\n@book{two,\n\tyear = 2020,\n\tfile = {/a}\n}\n";
    let names = ["abstract", "FILE", "annote"];
    let out = strip_bibtex_fields(bib, &names);
    assert_eq!(
        out,
        "\n@article{one,\n\ttitle = {A {B}},\n\tnote = {kept},\n}\n\n@book{two,\n\tyear = 2020,\n}\n"
    );
    assert_eq!(strip_bibtex_fields(&out, &names), out);
    assert_eq!(count_bibtex_entries(bib), 2);
    assert_eq!(count_bibtex_entries(&out), 2);
}

#[test]
fn merging_keeps_the_number_of_entries() {
    let bodies = |parts: &[&str]| -> Vec<String> { parts.iter().map(|p| p.to_string()).collect() };
    let bib = bodies(&[
        "\n\n@a{x,\n\tt = {1}\n}",
        "",
        "@b{y,\r\n}\r\n@c{z,\n}\n\n\n",
        "\n",
    ]);
    let all = merge_bodies(&bib, ExportFormat::Bibtex).unwrap();
    assert_eq!(count_entries(&all, ExportFormat::Bibtex).unwrap(), 3);
    let ris = bodies(&["TY  - JOUR\r\nER  - \r\n", "TY  - BOOK\nER  - ", "\n"]);
    let all = merge_bodies(&ris, ExportFormat::Ris).unwrap();
    assert_eq!(count_entries(&all, ExportFormat::Ris).unwrap(), 2);
    let csl = bodies(&["[{\"id\":1},[2.5]]", "  ", "[]", "[null]"]);
    let all = merge_bodies(&csl, ExportFormat::CslJson).unwrap();
    assert!(all.starts_with('['));
    assert_eq!(count_entries(&all, ExportFormat::CslJson).unwrap(), 3);
    let none = merge_bodies(&bodies(&["", " "]), ExportFormat::CslJson).unwrap();
    assert_eq!(none, "[]");
    assert_eq!(count_entries(&none, ExportFormat::CslJson).unwrap(), 0);
}

#[test]
fn a_body_that_is_no_list_fails_the_merge_and_the_count_alike() {
    let bodies = vec!["[1]".to_string(), "{}".to_string()];
    let merged = merge_bodies(&bodies, ExportFormat::CslJson);
    let counted = count_entries("{}", ExportFormat::CslJson);
    let message = match merged {
        Err(e) => e.message,
        Ok(_) => panic!("merged"),
    };
    assert!(message.starts_with("Failed to parse CSL JSON from Zotero: "));
    match counted {
        Err(e) => assert_eq!(e.message, message),
        Ok(_) => panic!("counted"),
    }
}
