//! `zot export`: bibliographies rendered by Zotero, merged and cleaned up.
//!
//! Entries come back without the keys of the items they were made for, so a body that is short of
//! entries is followed by one request per item to find which of them the translator refuses.
use crate::api::connector::target_views;
use crate::api::connector::SaveTarget;
use crate::api::connector::TargetView;
use crate::api::models::ZoteroItem;
use crate::collections::lookup::resolve_collection_ref;
use crate::collections::lookup::resolved;
use crate::collections::tree::node_views;
use crate::collections::tree::CollectionNode;
use crate::collections::tree::NodeView;
use crate::commands::bibtex_fields::count_bibtex_entries;
use crate::commands::bibtex_fields::entry_state;
use crate::commands::bibtex_fields::str_texts;
use crate::commands::bibtex_fields::strip_bibtex_fields;
use crate::commands::bibtex_fields::stripped_of;
use crate::commands::collections_cmd::is_library_id;
use crate::commands::merge_laws::bodies_close;
use crate::commands::merge_laws::law_merge_keeps_entries;
use crate::commands::merge_laws::lemma_csl_items_counted;
use crate::commands::merge_laws::lemma_list_counted;
use crate::commands::note_text::note_text;
use crate::commands::note_text::plain_note;
use crate::failure::text_result;
use crate::failure::Failure;
use crate::json::json_list_parsed;
use crate::json::json_pretty;
use crate::json::json_trees;
use crate::json::list_outcome;
use crate::json::opt_str;
use crate::json::parse_json_list;
use crate::json::pretty;
use crate::json::JsonTree;
use crate::lines::join;
use crate::lines::joined;
use crate::lines::lines;
use crate::lines::lines_of;
use crate::lines::runs;
use crate::output::shortened;
use crate::output::truncate_display;
use crate::output::DroppedItemOutput;
use crate::output::ExportOutput;
use crate::text::ascii_lowercase;
use crate::text::at_most;
use crate::text::chars_of;
use crate::text::concat2;
use crate::text::concat3;
use crate::text::concat5;
use crate::text::is_empty;
use crate::text::lower_ascii;
use crate::text::opt_text;
use crate::text::same_text;
use crate::text::starts_with;
use crate::text::string_of;
use crate::text::text_le;
use crate::text::texts;
use crate::text::trim;
use crate::text::trimmed;
use vstd::hash_map::StringHashMap;
use vstd::prelude::*;
use vstd::slice::slice_subrange;

verus! {

/// How many keys one request for rendered items carries at most.
pub const FORMAT_KEY_BATCH: usize = 50;

/// A bibliography format that Zotero renders.
#[derive(Debug, Clone, Copy, PartialEq, Eq, Structural)]
pub enum ExportFormat {
    Bibtex,
    Ris,
    CslJson,
}

/// The format that a name stands for, ignoring ASCII case and surrounding whitespace.
pub open spec fn format_named(s: Seq<char>) -> Option<ExportFormat> {
    let name = ascii_lowercase(trimmed(s));
    if name == "bibtex"@ || name == "bib"@ {
        Some(ExportFormat::Bibtex)
    } else if name == "ris"@ {
        Some(ExportFormat::Ris)
    } else if name == "csljson"@ || name == "csl-json"@ {
        Some(ExportFormat::CslJson)
    } else {
        None
    }
}

/// The error for a format that is not known.
pub open spec fn unknown_format(s: Seq<char>) -> Seq<char> {
    "Unknown export format: "@ + s + ". Supported formats: bibtex, ris, csljson."@
}

impl ExportFormat {
    /// The value of the `format` query parameter.
    pub open spec fn param(self) -> Seq<char> {
        match self {
            ExportFormat::Bibtex => "bibtex"@,
            ExportFormat::Ris => "ris"@,
            ExportFormat::CslJson => "csljson"@,
        }
    }

    /// The value of the `format` query parameter.
    pub fn as_param(&self) -> (r: &'static str)
        ensures
            r@ == self.param(),
    {
        match self {
            ExportFormat::Bibtex => "bibtex",
            ExportFormat::Ris => "ris",
            ExportFormat::CslJson => "csljson",
        }
    }

    /// Parses the name of a format.
    pub fn from_str(s: &str) -> (r: Result<ExportFormat, Failure>)
        ensures
            match r {
                Ok(f) => format_named(s@) == Some(f),
                Err(e) => format_named(s@) is None && e@ == unknown_format(s@),
            },
    {
        let chars = chars_of(s);
        let folded = lower_ascii(trim(chars.as_slice()));
        let name = string_of(folded.as_slice());
        let name = name.as_str();
        if same_text(name, "bibtex") || same_text(name, "bib") {
            Ok(ExportFormat::Bibtex)
        } else if same_text(name, "ris") {
            Ok(ExportFormat::Ris)
        } else if same_text(name, "csljson") || same_text(name, "csl-json") {
            Ok(ExportFormat::CslJson)
        } else {
            Err(
                Failure {
                    message: concat3(
                        "Unknown export format: ",
                        s,
                        ". Supported formats: bibtex, ris, csljson.",
                    ),
                },
            )
        }
    }
}

/// Arguments of `zot export`.
pub struct ExportArgs<'a> {
    pub keys: &'a [String],
    pub collection: Option<&'a str>,
    pub format: &'a str,
    pub output: Option<&'a str>,
    pub raw: bool,
    pub json: bool,
}

impl<'a> ExportArgs<'a> {
    /// The format to export in, or the error for arguments that name none or nothing to export.
    pub fn format(&self) -> (r: Result<ExportFormat, Failure>)
        ensures
            match r {
                Ok(f) => format_named(self.format@) == Some(f) && (self.keys@.len() > 0
                    || self.collection is Some),
                Err(e) => if format_named(self.format@) is None {
                    e@ == unknown_format(self.format@)
                } else {
                    self.keys@.len() == 0 && self.collection is None && e@
                        == "Nothing to export. Pass item keys, or --collection REF."@
                },
            },
    {
        let format = match ExportFormat::from_str(self.format) {
            Ok(f) => f,
            Err(e) => {
                return Err(e);
            },
        };
        if self.keys.len() == 0 && self.collection.is_none() {
            return Err(
                Failure {
                    message: "Nothing to export. Pass item keys, or --collection REF.".to_string(),
                },
            );
        }
        Ok(format)
    }
}

/// A text without newlines at its start.
pub open spec fn past_newlines(s: Seq<char>) -> Seq<char>
    decreases s.len(),
{
    if s.len() > 0 && s[0] == '\n' {
        past_newlines(s.drop_first())
    } else {
        s
    }
}

/// A text without newlines at its end.
pub open spec fn up_to_newlines(s: Seq<char>) -> Seq<char>
    decreases s.len(),
{
    if s.len() > 0 && s.last() == '\n' {
        up_to_newlines(s.drop_last())
    } else {
        s
    }
}

fn trim_newlines(s: &[char]) -> (r: &[char])
    ensures
        r@ == up_to_newlines(past_newlines(s@)),
{
    let mut i: usize = 0;
    assert(s@.skip(0) =~= s@);
    while i < s.len() && s[i] == '\n'
        invariant
            i <= s.len(),
            past_newlines(s@) == past_newlines(s@.skip(i as int)),
        decreases s.len() - i,
    {
        assert(s@.skip(i as int).drop_first() =~= s@.skip(i as int + 1));
        i += 1;
    }
    let mut j: usize = s.len();
    let ghost t = s@.skip(i as int);
    assert(s@.subrange(i as int, j as int) =~= t);
    while j > i && s[j - 1] == '\n'
        invariant
            i <= j <= s.len(),
            up_to_newlines(t) == up_to_newlines(s@.subrange(i as int, j as int)),
        decreases j,
    {
        assert(s@.subrange(i as int, j as int).drop_last() =~= s@.subrange(
            i as int,
            j as int - 1,
        ));
        assert(s@.subrange(i as int, j as int).last() == s@[j as int - 1]);
        j -= 1;
    }
    if i < j {
        assert(s@.subrange(i as int, j as int).last() == s@[j as int - 1]);
    }
    slice_subrange(s, i, j)
}

/// The bodies without surrounding newlines, as far as that leaves anything.
pub open spec fn body_parts(bodies: Seq<Seq<char>>) -> Seq<Seq<char>>
    decreases bodies.len(),
{
    if bodies.len() == 0 {
        Seq::empty()
    } else {
        let head = body_parts(bodies.drop_last());
        let part = up_to_newlines(past_newlines(bodies.last()));
        if part.len() > 0 {
            head.push(part)
        } else {
            head
        }
    }
}

/// The error for a CSL JSON body that is no list, given what the parser says of it.
pub open spec fn csl_fault(fault: Seq<char>) -> Seq<char> {
    "Failed to parse CSL JSON from Zotero: "@ + fault
}

/// The items of some CSL JSON bodies, each of which is a list; the error for the first one that is
/// not. Blank bodies are passed over.
pub open spec fn csl_items(bodies: Seq<Seq<char>>) -> Result<Seq<JsonTree>, Seq<char>>
    decreases bodies.len(),
{
    if bodies.len() == 0 {
        Ok(Seq::empty())
    } else {
        match csl_items(bodies.drop_last()) {
            Ok(head) => if trimmed(bodies.last()).len() == 0 {
                Ok(head)
            } else {
                match json_list_parsed(bodies.last()) {
                    Ok(page) => Ok(head + page),
                    Err(fault) => Err(csl_fault(fault)),
                }
            },
            Err(message) => Err(message),
        }
    }
}

/// Bodies joined into one document: BibTeX and RIS with a blank line in between, CSL JSON as one
/// list.
pub open spec fn merged(bodies: Seq<Seq<char>>, format: ExportFormat) -> Result<
    Seq<char>,
    Seq<char>,
> {
    if format == ExportFormat::CslJson {
        match csl_items(bodies) {
            Ok(items) => Ok(json_pretty(items)),
            Err(message) => Err(message),
        }
    } else {
        Ok(joined(body_parts(bodies), "\n\n"@))
    }
}

fn csl_failure(fault: &str) -> (r: Failure)
    ensures
        r@ == csl_fault(fault@),
{
    Failure { message: concat2("Failed to parse CSL JSON from Zotero: ", fault) }
}

/// The items of a CSL JSON body, given what it was parsed as, added to those of the bodies before
/// it.
pub fn add_csl_page(
    all: &mut Vec<serde_json::Value>,
    page: Result<Vec<serde_json::Value>, String>,
) -> (r: Result<(), Failure>)
    ensures
        match list_outcome(page) {
            Ok(items) => r is Ok && json_trees(final(all)@) == json_trees(old(all)@) + items,
            Err(fault) => r is Err && r->Err_0@ == csl_fault(fault) && final(all)@ == old(all)@,
        },
{
    match page {
        Ok(items) => {
            let ghost before = json_trees(all@);
            let ghost more = json_trees(items@);
            let mut items = items;
            all.append(&mut items);
            assert(json_trees(all@) =~= before + more);
            Ok(())
        },
        Err(fault) => Err(csl_failure(fault.as_str())),
    }
}

/// Joins per-batch bodies into one document.
///
/// BibTeX and RIS concatenate, but two CSL JSON bodies are two JSON lists and concatenating them
/// is not valid JSON, so CSL JSON is parsed and written again. That is why it always comes out
/// pretty-printed rather than passed through.
///
/// No entry is lost: the document counts as many as the bodies count together, in BibTeX where each
/// body closes the braces that it opens.
pub fn merge_bodies(bodies: &[String], format: ExportFormat) -> (r: Result<String, Failure>)
    ensures
        text_result(r) == merged(texts(bodies@), format),
        match r {
            Ok(s) => bodies_close(texts(bodies@), format) ==> entries_in(
                s@,
                format,
                json_list_parsed(s@),
            ) == entries_in_all(texts(bodies@), format),
            Err(e) => entries_in_all(texts(bodies@), format) == Err::<nat, Seq<char>>(e@),
        },
{
    let ghost all = texts(bodies@);
    proof {
        lemma_csl_items_counted(all);
        if format != ExportFormat::CslJson && bodies_close(all, format) {
            law_merge_keeps_entries(all, format);
        }
    }
    let mut i: usize = 0;
    if format == ExportFormat::CslJson {
        let mut items: Vec<serde_json::Value> = Vec::new();
        assert(json_trees(items@) =~= Seq::empty());
        while i < bodies.len()
            invariant
                i <= bodies.len(),
                format == ExportFormat::CslJson,
                all == texts(bodies@),
                csl_items(all.take(i as int)) == Ok::<_, Seq<char>>(json_trees(items@)),
            decreases bodies.len() - i,
        {
            assert(all.take(i as int + 1).drop_last() =~= all.take(i as int));
            assert(all.take(i as int + 1).last() == bodies@[i as int]@);
            let chars = chars_of(bodies[i].as_str());
            if trim(chars.as_slice()).len() > 0 {
                let page = parse_json_list(bodies[i].as_str());
                match add_csl_page(&mut items, page) {
                    Ok(_) => {},
                    Err(e) => {
                        proof {
                            lemma_csl_items_err(all, i as int + 1);
                            lemma_csl_items_counted(all);
                        }
                        return Err(e);
                    },
                }
            }
            i += 1;
        }
        assert(all.take(all.len() as int) =~= all);
        return match pretty(&items) {
            Ok(s) => {
                proof {
                    lemma_list_counted(s@, items@.len());
                }
                Ok(s)
            },
            Err(_) => Err(Failure { message: "Failed to serialize CSL JSON".to_string() }),
        };
    }
    let mut parts: Vec<String> = Vec::new();
    assert(texts(parts@) =~= Seq::empty());
    while i < bodies.len()
        invariant
            i <= bodies.len(),
            all == texts(bodies@),
            texts(parts@) == body_parts(all.take(i as int)),
        decreases bodies.len() - i,
    {
        assert(all.take(i as int + 1).drop_last() =~= all.take(i as int));
        assert(all.take(i as int + 1).last() == bodies@[i as int]@);
        let chars = chars_of(bodies[i].as_str());
        let part = trim_newlines(chars.as_slice());
        if part.len() > 0 {
            let ghost before = texts(parts@);
            parts.push(string_of(part));
            assert(texts(parts@) =~= before.push(part@));
        }
        i += 1;
    }
    assert(all.take(all.len() as int) =~= all);
    Ok(join(parts.as_slice(), "\n\n"))
}

proof fn lemma_csl_items_err(bodies: Seq<Seq<char>>, n: int)
    requires
        0 <= n <= bodies.len(),
        csl_items(bodies.take(n)) is Err,
    ensures
        csl_items(bodies) == csl_items(bodies.take(n)),
    decreases bodies.len() - n,
{
    if n < bodies.len() {
        assert(bodies.take(n + 1).drop_last() =~= bodies.take(n));
        lemma_csl_items_err(bodies, n + 1);
    } else {
        assert(bodies.take(n) =~= bodies);
    }
}

/// How many lines start with the tag that opens a RIS record.
pub open spec fn ris_records(l: Seq<Seq<char>>) -> nat
    decreases l.len(),
{
    if l.len() == 0 {
        0
    } else {
        ris_records(l.drop_last()) + if "TY  - "@.is_prefix_of(l.last()) {
            1nat
        } else {
            0nat
        }
    }
}

fn count_ris(body: &str) -> (r: usize)
    ensures
        r == ris_records(lines_of(body@)),
{
    let chars = chars_of(body);
    let split = lines(chars.as_slice());
    let ghost all = runs(split@);
    let mut count: usize = 0;
    let mut i: usize = 0;
    while i < split.len()
        invariant
            i <= split.len(),
            all == runs(split@),
            count <= i,
            count == ris_records(all.take(i as int)),
        decreases split.len() - i,
    {
        assert(all.take(i as int + 1).drop_last() =~= all.take(i as int));
        assert(all.take(i as int + 1).last() == split@[i as int]@);
        if starts_with(split[i], "TY  - ") {
            count += 1;
        }
        i += 1;
    }
    assert(all.take(all.len() as int) =~= all);
    count
}

/// How many entries a rendered body holds, given what it was parsed as where it is CSL JSON, or the
/// error for one that is no list.
pub open spec fn entries_in(
    body: Seq<char>,
    format: ExportFormat,
    parsed: Result<Seq<JsonTree>, Seq<char>>,
) -> Result<nat, Seq<char>> {
    match format {
        ExportFormat::Bibtex => Ok(entry_state(lines_of(body)).1),
        ExportFormat::Ris => Ok(ris_records(lines_of(body))),
        ExportFormat::CslJson => if trimmed(body).len() == 0 {
            Ok(0)
        } else {
            match parsed {
                Ok(items) => Ok(items.len()),
                Err(fault) => Err(csl_fault(fault)),
            }
        },
    }
}

/// The view of a count.
pub open spec fn count_view(r: Result<usize, Failure>) -> Result<nat, Seq<char>> {
    match r {
        Ok(n) => Ok(n as nat),
        Err(e) => Err(e@),
    }
}

/// How many items a CSL JSON body holds, given what it was parsed as.
pub fn count_csl_items(page: Result<Vec<serde_json::Value>, String>) -> (r: Result<usize, Failure>)
    ensures
        count_view(r) == match list_outcome(page) {
            Ok(items) => Ok(items.len()),
            Err(fault) => Err(csl_fault(fault)),
        },
{
    match page {
        Ok(items) => {
            assert(json_trees(items@).len() == items@.len());
            Ok(items.len())
        },
        Err(fault) => Err(csl_failure(fault.as_str())),
    }
}

/// Counts the bibliography entries in a rendered body.
pub fn count_entries(body: &str, format: ExportFormat) -> (r: Result<usize, Failure>)
    ensures
        count_view(r) == entries_in(body@, format, json_list_parsed(body@)),
{
    match format {
        ExportFormat::Bibtex => Ok(count_bibtex_entries(body)),
        ExportFormat::Ris => Ok(count_ris(body)),
        ExportFormat::CslJson => {
            let chars = chars_of(body);
            if trim(chars.as_slice()).len() == 0 {
                return Ok(0);
            }
            count_csl_items(parse_json_list(body))
        },
    }
}

/// Whether a rendered body is short of the keys that were asked for, and so worth the per-key
/// probe.
///
/// The translator can only ever produce fewer entries than items requested, so a body that is not
/// short is taken as complete and costs no extra request.
pub fn came_back_short(rendered: usize, requested: usize) -> (r: bool)
    ensures
        r == (rendered < requested),
{
    rendered < requested
}

/// BibTeX fields stripped unless the raw export is asked for.
///
/// All four leak the local library rather than describing the work: `file` is an absolute path
/// into the storage directory, `annote` carries the item's child notes, and `abstract` and
/// `keywords` bloat every entry. `note` is left alone because Zotero emits the Extra field there,
/// and `urldate` because biblatex pairs it with `url`.
pub open spec fn private_fields() -> Seq<Seq<char>> {
    seq!["file"@, "annote"@, "abstract"@, "keywords"@]
}

/// BibTeX fields stripped unless the raw export is asked for.
pub const DEFAULT_STRIP_FIELDS: [&'static str; 4] = ["file", "annote", "abstract", "keywords"];

/// A merged bibliography as it is handed out. Only BibTeX carries the private fields.
pub open spec fn published(content: Seq<char>, format: ExportFormat, raw: bool) -> Seq<char> {
    if raw || format != ExportFormat::Bibtex {
        content
    } else {
        stripped_of(content, private_fields())
    }
}

/// The bibliography that some bodies make.
pub open spec fn content_of(bodies: Seq<Seq<char>>, format: ExportFormat, raw: bool) -> Result<
    Seq<char>,
    Seq<char>,
> {
    match merged(bodies, format) {
        Ok(s) => Ok(published(s, format, raw)),
        Err(e) => Err(e),
    }
}

/// Merges the bodies and strips the private BibTeX fields.
pub fn export_content(bodies: &[String], format: ExportFormat, raw: bool) -> (r: Result<
    String,
    Failure,
>)
    ensures
        text_result(r) == content_of(texts(bodies@), format, raw),
{
    let all = match merge_bodies(bodies, format) {
        Ok(s) => s,
        Err(e) => {
            return Err(e);
        },
    };
    if raw || format != ExportFormat::Bibtex {
        Ok(all)
    } else {
        assert(str_texts(DEFAULT_STRIP_FIELDS@) =~= private_fields());
        Ok(strip_bibtex_fields(all.as_str(), &DEFAULT_STRIP_FIELDS))
    }
}

/// A bibliography as it is written to a file: with a newline at its end.
pub fn file_body(content: &str) -> (r: String)
    ensures
        r@ == if content@.len() > 0 && content@.last() == '\n' {
            content@
        } else {
            content@.push('\n')
        },
{
    let chars = chars_of(content);
    let mut out = content.to_string();
    if !(chars.len() > 0 && chars[chars.len() - 1] == '\n') {
        out.push('\n');
    }
    out
}

/// A dropped item as the texts it holds.
pub struct DroppedView {
    pub key: Seq<char>,
    pub title: Seq<char>,
    pub reason: Seq<char>,
}

impl View for DroppedItemOutput {
    type V = DroppedView;

    open spec fn view(&self) -> DroppedView {
        DroppedView { key: self.key@, title: self.title@, reason: self.reason@ }
    }
}

/// The views of some dropped items.
pub open spec fn dropped_views(s: Seq<DroppedItemOutput>) -> Seq<DroppedView> {
    s.map_values(|d: DroppedItemOutput| d@)
}

/// Items sorted by title and one more, put after those it does not precede.
pub open spec fn with_dropped(s: Seq<DroppedView>, d: DroppedView) -> Seq<DroppedView>
    decreases s.len(),
{
    if s.len() == 0 || text_le(s.last().title, d.title) {
        s.push(d)
    } else {
        with_dropped(s.drop_last(), d).push(s.last())
    }
}

/// Items sorted by title; equal titles keep their order.
pub open spec fn by_title(s: Seq<DroppedView>) -> Seq<DroppedView>
    decreases s.len(),
{
    if s.len() == 0 {
        s
    } else {
        with_dropped(by_title(s.drop_last()), s.last())
    }
}

fn insert_dropped(s: &mut Vec<DroppedItemOutput>, d: DroppedItemOutput)
    ensures
        dropped_views(final(s)@) == with_dropped(dropped_views(old(s)@), d@),
    decreases old(s).len(),
{
    let ghost before = dropped_views(s@);
    let ghost view = d@;
    if s.len() == 0 {
        s.push(d);
        assert(dropped_views(s@) =~= before.push(view));
        return;
    }
    let last = s.pop().unwrap();
    assert(dropped_views(s@) =~= before.drop_last());
    assert(before.last() == last@);
    let ghost last_view = last@;
    if at_most(&chars_of(last.title.as_str()), &chars_of(d.title.as_str())) {
        s.push(last);
        s.push(d);
        assert(dropped_views(s@) =~= before.push(view));
    } else {
        insert_dropped(s, d);
        let ghost head = dropped_views(s@);
        s.push(last);
        assert(dropped_views(s@) =~= head.push(last_view));
    }
}

/// Sorts dropped items by title.
pub fn sort_dropped(items: Vec<DroppedItemOutput>) -> (r: Vec<DroppedItemOutput>)
    ensures
        dropped_views(r@) == by_title(dropped_views(items@)),
{
    let ghost all = dropped_views(items@);
    let mut out: Vec<DroppedItemOutput> = Vec::new();
    let mut i: usize = 0;
    assert(dropped_views(out@) =~= by_title(all.take(0)));
    while i < items.len()
        invariant
            i <= items.len(),
            all == dropped_views(items@),
            dropped_views(out@) == by_title(all.take(i as int)),
        decreases items.len() - i,
    {
        assert(all.take(i as int + 1).drop_last() =~= all.take(i as int));
        let d = DroppedItemOutput {
            key: items[i].key.clone(),
            title: items[i].title.clone(),
            reason: items[i].reason.clone(),
        };
        assert(d@ == all[i as int]);
        insert_dropped(&mut out, d);
        i += 1;
    }
    assert(all.take(all.len() as int) =~= all);
    out
}

/// The line that warns about a dropped item.
pub fn drop_warning(item: &DroppedItemOutput, format: ExportFormat) -> (r: String)
    ensures
        r@ == "Warning: no "@ + format.param() + " entry for \""@ + item.title@ + "\" ("@ + item.key@
            + ") -- "@ + item.reason@ + "."@,
{
    let mut out = concat5(
        "Warning: no ",
        format.as_param(),
        " entry for \"",
        item.title.as_str(),
        "\" (",
    );
    out.push_str(item.key.as_str());
    out.push_str(") -- ");
    out.push_str(item.reason.as_str());
    out.push_str(".");
    out
}

/// What an export holds: the bibliography itself, or the path of the file that it went to.
pub open spec fn is_export(
    out: ExportOutput,
    wanted: usize,
    content: Seq<char>,
    count: nat,
    dropped: Seq<DroppedView>,
    format: ExportFormat,
    path: Option<Seq<char>>,
) -> bool {
    &&& out.format@ == format.param()
    &&& out.requested == wanted
    &&& out.exported == count
    &&& dropped_views(out.dropped@) == by_title(dropped)
    &&& opt_text(out.path) == path
    &&& opt_text(out.content) == if path is Some {
        None
    } else {
        Some(content)
    }
}

/// Puts an export together: merges the bodies, strips the private fields, counts the entries and
/// sorts what was dropped.
pub fn finish_export(
    wanted: usize,
    bodies: &[String],
    dropped: Vec<DroppedItemOutput>,
    format: ExportFormat,
    raw: bool,
    output: Option<&str>,
) -> (r: Result<ExportOutput, Failure>)
    ensures
        match content_of(texts(bodies@), format, raw) {
            Ok(content) => match entries_in(content, format, json_list_parsed(content)) {
                Ok(count) => r is Ok && is_export(
                    r.unwrap(),
                    wanted,
                    content,
                    count,
                    dropped_views(dropped@),
                    format,
                    opt_str(output),
                ),
                Err(message) => r is Err && r->Err_0@ == message,
            },
            Err(message) => r is Err && r->Err_0@ == message,
        },
{
    let content = match export_content(bodies, format, raw) {
        Ok(s) => s,
        Err(e) => {
            return Err(e);
        },
    };
    let exported: usize = match count_entries(content.as_str(), format) {
        Ok(n) => n,
        Err(e) => {
            return Err(e);
        },
    };
    let sorted = sort_dropped(dropped);
    let path = match output {
        Some(p) => Some(p.to_string()),
        None => None,
    };
    let content = if output.is_some() {
        None
    } else {
        Some(content)
    };
    Ok(
        ExportOutput {
            format: format.as_param().to_string(),
            requested: wanted,
            exported,
            dropped: sorted,
            path,
            content,
        },
    )
}

/// Puts an export for a set of keys together, for callers that already have them: always stripped
/// and in memory.
pub fn export_for_keys(
    keys: &[String],
    format: &str,
    bodies: &[String],
    dropped: Vec<DroppedItemOutput>,
) -> (r: Result<ExportOutput, Failure>)
    ensures
        match format_named(format@) {
            Some(f) => match content_of(texts(bodies@), f, false) {
                Ok(content) => match entries_in(content, f, json_list_parsed(content)) {
                    Ok(count) => r is Ok && is_export(
                        r.unwrap(),
                        keys@.len() as usize,
                        content,
                        count,
                        dropped_views(dropped@),
                        f,
                        None,
                    ),
                    Err(message) => r is Err && r->Err_0@ == message,
                },
                Err(message) => r is Err && r->Err_0@ == message,
            },
            None => r is Err && r->Err_0@ == unknown_format(format@),
        },
{
    match ExportFormat::from_str(format) {
        Ok(f) => finish_export(keys.len(), bodies, dropped, f, false, None),
        Err(e) => Err(e),
    }
}

/// The first line of a note that has any text, as text.
pub open spec fn first_note_line(l: Seq<Seq<char>>) -> Seq<char>
    decreases l.len(),
{
    if l.len() == 0 {
        Seq::empty()
    } else if note_text(l[0]).len() > 0 {
        note_text(l[0])
    } else {
        first_note_line(l.drop_first())
    }
}

/// What an item is called in a warning: its title, else the first line of its note, else its
/// type.
pub open spec fn item_title(item: ZoteroItem) -> Seq<char> {
    let first = shortened(first_note_line(lines_of(item.data.note@)), 60);
    if item.data.title@.len() > 0 {
        item.data.title@
    } else if item.data.note@.len() > 0 {
        if item.data.item_type@ == "note"@ {
            "note: "@ + first
        } else {
            item.data.item_type@ + " note: "@ + first
        }
    } else {
        "untitled "@ + item.data.item_type@
    }
}

fn first_line_of_note(note: &str) -> (r: String)
    ensures
        r@ == first_note_line(lines_of(note@)),
{
    let chars = chars_of(note);
    let split = lines(chars.as_slice());
    let ghost all = runs(split@);
    let mut i: usize = 0;
    assert(all.skip(0) =~= all);
    while i < split.len()
        invariant
            i <= split.len(),
            all == runs(split@),
            all == lines_of(note@),
            first_note_line(all) == first_note_line(all.skip(i as int)),
        decreases split.len() - i,
    {
        assert(all.skip(i as int)[0] == split@[i as int]@);
        let text = plain_note(split[i]);
        if text.len() > 0 {
            return string_of(text.as_slice());
        }
        assert(all.skip(i as int).drop_first() =~= all.skip(i as int + 1));
        i += 1;
    }
    String::new()
}

fn title_of(item: &ZoteroItem) -> (r: String)
    ensures
        r@ == item_title(*item),
{
    if !is_empty(item.data.title.as_str()) {
        item.data.title.clone()
    } else if !is_empty(item.data.note.as_str()) {
        let text = first_line_of_note(item.data.note.as_str());
        let first = truncate_display(text.as_str(), 60);
        if same_text(item.data.item_type.as_str(), "note") {
            concat2("note: ", first.as_str())
        } else {
            concat3(item.data.item_type.as_str(), " note: ", first.as_str())
        }
    } else {
        concat2("untitled ", item.data.item_type.as_str())
    }
}

/// The titles of some items by key. Of two items with one key, the later decides.
pub open spec fn titles_of(items: Seq<ZoteroItem>) -> Map<Seq<char>, Seq<char>>
    decreases items.len(),
{
    if items.len() == 0 {
        Map::empty()
    } else {
        titles_of(items.drop_last()).insert(items.last().key@, item_title(items.last()))
    }
}

/// The texts of a map of strings.
pub open spec fn map_texts(m: Map<Seq<char>, String>) -> Map<Seq<char>, Seq<char>> {
    m.map_values(|s: String| s@)
}

/// Display names for the warning about dropped items.
///
/// A standalone note has no title, and it is exactly the kind of item the translator refuses, so it
/// falls back to its own first line rather than to a bare item type that tells the reader nothing
/// about which note it was.
pub fn title_map(items: &[ZoteroItem]) -> (r: StringHashMap<String>)
    ensures
        map_texts(r@) == titles_of(items@),
{
    let mut out: StringHashMap<String> = StringHashMap::new();
    let mut i: usize = 0;
    assert(map_texts(out@) =~= Map::empty());
    while i < items.len()
        invariant
            i <= items.len(),
            map_texts(out@) == titles_of(items@.take(i as int)),
        decreases items.len() - i,
    {
        assert(items@.take(i as int + 1).drop_last() =~= items@.take(i as int));
        let ghost before = out@;
        let title = title_of(&items[i]);
        let ghost shown = title@;
        out.insert(items[i].key.clone(), title);
        assert(map_texts(out@) =~= map_texts(before).insert(items@[i as int].key@, shown));
        i += 1;
    }
    assert(items@.take(items@.len() as int) =~= items@);
    out
}

/// The keys among some that the library has.
pub open spec fn known_keys(keys: Seq<Seq<char>>, titles: Map<Seq<char>, Seq<char>>) -> Seq<
    Seq<char>,
>
    decreases keys.len(),
{
    if keys.len() == 0 {
        Seq::empty()
    } else if titles.contains_key(keys.last()) {
        known_keys(keys.drop_last(), titles).push(keys.last())
    } else {
        known_keys(keys.drop_last(), titles)
    }
}

/// The keys among some that the library does not have, as dropped items.
pub open spec fn unknown_keys(keys: Seq<Seq<char>>, titles: Map<Seq<char>, Seq<char>>) -> Seq<
    DroppedView,
>
    decreases keys.len(),
{
    if keys.len() == 0 {
        Seq::empty()
    } else if titles.contains_key(keys.last()) {
        unknown_keys(keys.drop_last(), titles)
    } else {
        unknown_keys(keys.drop_last(), titles).push(
            DroppedView {
                key: keys.last(),
                title: "(unknown item)"@,
                reason: "no such item in the library"@,
            },
        )
    }
}

/// Parts the keys that the library has from those it does not have.
pub fn split_known(keys: &[String], titles: &StringHashMap<String>) -> (r: (
    Vec<String>,
    Vec<DroppedItemOutput>,
))
    ensures
        texts(r.0@) == known_keys(texts(keys@), map_texts(titles@)),
        dropped_views(r.1@) == unknown_keys(texts(keys@), map_texts(titles@)),
{
    let ghost all = texts(keys@);
    let ghost m = map_texts(titles@);
    let mut known: Vec<String> = Vec::new();
    let mut dropped: Vec<DroppedItemOutput> = Vec::new();
    let mut i: usize = 0;
    assert(texts(known@) =~= Seq::empty());
    assert(dropped_views(dropped@) =~= Seq::empty());
    while i < keys.len()
        invariant
            i <= keys.len(),
            all == texts(keys@),
            m == map_texts(titles@),
            texts(known@) == known_keys(all.take(i as int), m),
            dropped_views(dropped@) == unknown_keys(all.take(i as int), m),
        decreases keys.len() - i,
    {
        assert(all.take(i as int + 1).drop_last() =~= all.take(i as int));
        assert(all.take(i as int + 1).last() == keys@[i as int]@);
        if titles.contains_key(keys[i].as_str()) {
            let ghost before = texts(known@);
            known.push(keys[i].clone());
            assert(texts(known@) =~= before.push(keys@[i as int]@));
        } else {
            let ghost before = dropped_views(dropped@);
            let d = DroppedItemOutput {
                key: keys[i].clone(),
                title: "(unknown item)".to_string(),
                reason: "no such item in the library".to_string(),
            };
            let ghost view = d@;
            dropped.push(d);
            assert(dropped_views(dropped@) =~= before.push(view));
        }
        i += 1;
    }
    assert(all.take(all.len() as int) =~= all);
    (known, dropped)
}

/// The item that the translator produced no entry for.
pub fn refused_item(key: &String, titles: &StringHashMap<String>) -> (r: DroppedItemOutput)
    ensures
        r@ == (DroppedView {
            key: key@,
            title: if titles@.contains_key(key@) {
                titles@[key@]@
            } else {
                Seq::empty()
            },
            reason: "the Zotero translator produced no entry for it"@,
        }),
{
    let title = match titles.get(key.as_str()) {
        Some(t) => t.clone(),
        None => String::new(),
    };
    DroppedItemOutput {
        key: key.clone(),
        title,
        reason: "the Zotero translator produced no entry for it".to_string(),
    }
}

/// What a rendered batch calls for: one request per key where it came back short, and whether it
/// holds anything to keep.
pub fn read_batch(body: &str, format: ExportFormat, requested: usize) -> (r: Result<
    (bool, bool),
    Failure,
>)
    ensures
        match entries_in(body@, format, json_list_parsed(body@)) {
            Ok(n) => r is Ok && r.unwrap() == (n < requested, trimmed(body@).len() > 0),
            Err(message) => r is Err && r->Err_0@ == message,
        },
{
    match count_entries(body, format) {
        Ok(n) => {
            let chars = chars_of(body);
            Ok((came_back_short(n, requested), trim(chars.as_slice()).len() > 0))
        },
        Err(e) => Err(e),
    }
}

/// Where the batch that starts at `start` ends.
pub fn batch_end(start: usize, total: usize) -> (r: usize)
    requires
        start < total,
    ensures
        r == if total - start > FORMAT_KEY_BATCH {
            start + FORMAT_KEY_BATCH
        } else {
            total as int
        },
        start < r <= total,
        r - start <= 50,
        r == total || r - start == 50,
{
    if total - start > FORMAT_KEY_BATCH {
        start + FORMAT_KEY_BATCH
    } else {
        total
    }
}

/// The key of the collection to export, or the error for a reference that names none.
pub open spec fn exported_collection(
    reference: Seq<char>,
    nodes: Seq<NodeView>,
    ts: Seq<TargetView>,
) -> Result<Seq<char>, Seq<char>> {
    match resolved(reference, nodes, ts) {
        Ok(r) => match r.key {
            Some(key) => Ok(key),
            None => {
                let id = match r.connector_id {
                    Some(id) => id,
                    None => reference,
                };
                if id.len() > 0 && id[0] == 'L' {
                    Err(
                        id
                            + " is the library root, not a collection.\n  Pass item keys, or a collection reference."@,
                    )
                } else {
                    Err(
                        "Collection \""@ + r.name + "\" ("@ + id
                            + ") is only known to the connector, most likely because it lives in a group library, which this command cannot export."@,
                    )
                }
            },
        },
        Err(message) => Err(message),
    }
}

/// Finds the key of the collection to export.
pub fn collection_to_export(
    reference: &str,
    nodes: &[CollectionNode],
    targets: &[SaveTarget],
) -> (r: Result<String, Failure>)
    ensures
        text_result(r) == exported_collection(
            reference@,
            node_views(nodes@),
            target_views(targets@),
        ),
{
    let found = match resolve_collection_ref(reference, nodes, targets) {
        Ok(c) => c,
        Err(e) => {
            return Err(e);
        },
    };
    if let Some(key) = found.key {
        return Ok(key);
    }
    let id = match &found.connector_id {
        Some(id) => id.as_str(),
        None => reference,
    };
    if is_library_id(id) {
        return Err(
            Failure {
                message: concat2(
                    id,
                    " is the library root, not a collection.\n  Pass item keys, or a collection reference.",
                ),
            },
        );
    }
    Err(
        Failure {
            message: concat5(
                "Collection \"",
                found.name.as_str(),
                "\" (",
                id,
                ") is only known to the connector, most likely because it lives in a group library, which this command cannot export.",
            ),
        },
    )
}

/// How many entries some bodies hold together, or the error for the first that cannot be read.
pub open spec fn entries_in_all(bodies: Seq<Seq<char>>, format: ExportFormat) -> Result<
    nat,
    Seq<char>,
>
    decreases bodies.len(),
{
    if bodies.len() == 0 {
        Ok(0)
    } else {
        let body = bodies.last();
        match entries_in_all(bodies.drop_last(), format) {
            Ok(a) => match entries_in(body, format, json_list_parsed(body)) {
                Ok(b) => Ok(a + b),
                Err(message) => Err(message),
            },
            Err(message) => Err(message),
        }
    }
}

/// Whether some bodies together are short of the items that were asked for.
pub fn bodies_came_back_short(bodies: &[String], format: ExportFormat, requested: usize) -> (r:
    Result<bool, Failure>)
    ensures
        match entries_in_all(texts(bodies@), format) {
            Ok(n) => r is Ok && r.unwrap() == (n < requested),
            Err(message) => r is Err && r->Err_0@ == message,
        },
{
    let ghost all = texts(bodies@);
    let mut total: u128 = 0;
    let mut i: usize = 0;
    while i < bodies.len()
        invariant
            i <= bodies.len(),
            all == texts(bodies@),
            total <= i * usize::MAX,
            entries_in_all(all.take(i as int), format) == Ok::<_, Seq<char>>(total as nat),
        decreases bodies.len() - i,
    {
        assert(all.take(i as int + 1).drop_last() =~= all.take(i as int));
        assert(all.take(i as int + 1).last() == bodies@[i as int]@);
        let n: usize = match count_entries(bodies[i].as_str(), format) {
            Ok(n) => n,
            Err(e) => {
                proof {
                    lemma_entries_err(all, format, i as int + 1);
                }
                return Err(e);
            },
        };
        assert((i + 1) * usize::MAX <= usize::MAX * usize::MAX) by (nonlinear_arith)
            requires
                0 <= i + 1 <= usize::MAX,
        ;
        assert((i + 1) * usize::MAX == i * usize::MAX + usize::MAX) by (nonlinear_arith);
        assert(usize::MAX * usize::MAX <= u128::MAX) by (nonlinear_arith)
            requires
                0 <= usize::MAX <= 0xffff_ffff_ffff_ffff,
        ;
        total += n as u128;
        i += 1;
    }
    assert(all.take(all.len() as int) =~= all);
    Ok(total < requested as u128)
}

proof fn lemma_entries_err(bodies: Seq<Seq<char>>, format: ExportFormat, n: int)
    requires
        0 <= n <= bodies.len(),
        entries_in_all(bodies.take(n), format) is Err,
    ensures
        entries_in_all(bodies, format) == entries_in_all(bodies.take(n), format),
    decreases bodies.len() - n,
{
    if n < bodies.len() {
        assert(bodies.take(n + 1).drop_last() =~= bodies.take(n));
        lemma_entries_err(bodies, format, n + 1);
    } else {
        assert(bodies.take(n) =~= bodies);
    }
}

/// Whether a body rendered for one key alone holds no entry.
pub fn rendered_nothing(body: &str, format: ExportFormat) -> (r: Result<bool, Failure>)
    ensures
        match entries_in(body@, format, json_list_parsed(body@)) {
            Ok(n) => r is Ok && r.unwrap() == (n == 0),
            Err(message) => r is Err && r->Err_0@ == message,
        },
{
    match count_entries(body, format) {
        Ok(n) => Ok(n == 0),
        Err(e) => Err(e),
    }
}

} // verus!
