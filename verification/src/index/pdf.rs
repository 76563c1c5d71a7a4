//! Text extracted from PDF files, and what its extraction is worth.
use crate::lines::byte_len;
use crate::lines::char_width;
use crate::lines::join;
use crate::lines::joined;
use crate::lines::lemma_byte_len_take;
use crate::lines::lines;
use crate::lines::lines_of;
use crate::lines::runs;
use crate::text::chars_of;
use crate::text::concat2;
use crate::text::decimal;
use crate::text::decimal_text;
use crate::text::opt_text;
use crate::text::push_decimal;
use crate::text::string_of;
use crate::text::texts;
use crate::text::trim;
use crate::text::trimmed;
use vstd::prelude::*;
use vstd::slice::slice_subrange;

verus! {

/// PDFs larger than this are skipped: such files are almost always scanned books that yield poor
/// text. 150 MB.
pub const MAX_PDF_BYTES: u64 = 157_286_400;

/// Cap on extracted text kept per document: 2 MB, about a book of a thousand pages. It bounds
/// the number of chunks, so that a single document can never blow up memory.
pub const MAX_FULLTEXT_BYTES: usize = 2_097_152;

/// Below this many characters per page an extraction that otherwise succeeded is suspicious.
pub const SUSPICIOUS_CHARS_PER_PAGE: u64 = 200;

/// Documents of at most this many pages are never suspicious.
pub const SUSPICIOUS_MIN_PAGES: u32 = 2;

/// Coarse per-item extraction status. Drives reporting and the retry decision on the next run.
#[derive(Debug, Clone, Copy, PartialEq, Eq, Structural)]
pub enum ExtractStatus {
    /// Every page extracted and the output volume looks plausible.
    Complete,
    /// The item has no PDF child attachment. Not an error; only retried when the item's Zotero
    /// version changes.
    NoAttachment,
    /// The document would not open, or zero pages yielded text.
    Failed,
    /// Some pages extracted and some failed; the extracted pages are indexed.
    Partial,
    /// Every page nominally extracted but the output is implausibly small for the page count
    /// (likely silent under-extraction).
    Suspicious,
}

impl ExtractStatus {
    /// The name of a status.
    pub open spec fn name(self) -> Seq<char> {
        match self {
            ExtractStatus::Complete => "ok"@,
            ExtractStatus::NoAttachment => "no-attachment"@,
            ExtractStatus::Failed => "failed"@,
            ExtractStatus::Partial => "partial"@,
            ExtractStatus::Suspicious => "suspicious"@,
        }
    }

    /// The name of a status.
    pub fn as_str(&self) -> (r: &'static str)
        ensures
            r@ == self.name(),
    {
        match self {
            ExtractStatus::Complete => "ok",
            ExtractStatus::NoAttachment => "no-attachment",
            ExtractStatus::Failed => "failed",
            ExtractStatus::Partial => "partial",
            ExtractStatus::Suspicious => "suspicious",
        }
    }
}

/// Structured result of an extraction attempt for one item.
#[derive(Debug, Clone)]
pub struct ExtractOutcome {
    pub status: ExtractStatus,
    /// Extracted (cleaned) text. Empty for `NoAttachment` and `Failed`.
    pub text: String,
    /// Human-readable detail: the warning shown to the user. Empty when there is nothing to report
    /// (`Complete`).
    pub detail: String,
}

/// An outcome as the status and texts it holds.
pub struct OutcomeView {
    pub status: ExtractStatus,
    pub text: Seq<char>,
    pub detail: Seq<char>,
}

impl View for ExtractOutcome {
    type V = OutcomeView;

    open spec fn view(&self) -> OutcomeView {
        OutcomeView { status: self.status, text: self.text@, detail: self.detail@ }
    }
}

/// A failed extraction.
pub open spec fn failure(detail: Seq<char>) -> OutcomeView {
    OutcomeView { status: ExtractStatus::Failed, text: Seq::empty(), detail }
}

/// A failed extraction.
pub fn failed(detail: String) -> (r: ExtractOutcome)
    ensures
        r@ == failure(detail@),
{
    ExtractOutcome { status: ExtractStatus::Failed, text: String::new(), detail }
}

/// What the extraction of one document yielded.
#[derive(Debug)]
pub struct WorkerReport {
    /// Total pages in the document.
    pub page_count: u32,
    /// 1-based page numbers that failed to extract (panic or parse error).
    pub failed_pages: Vec<u32>,
    /// Cleaned, joined text of the pages that did extract.
    pub text: String,
    /// Set when the document itself would not open (no page could be read).
    pub document_error: Option<String>,
}

/// The longest beginning of a text that takes at most `max` bytes.
pub open spec fn within_bytes(s: Seq<char>, max: int) -> Seq<char>
    decreases s.len(),
{
    if s.len() == 0 || byte_len(s) <= max {
        s
    } else {
        within_bytes(s.drop_last(), max)
    }
}

proof fn lemma_within_bytes(s: Seq<char>, max: int, i: int)
    requires
        0 <= i <= s.len(),
        byte_len(s.take(i)) <= max,
        i < s.len() ==> byte_len(s.take(i + 1)) > max,
    ensures
        within_bytes(s, max) == s.take(i),
    decreases s.len(),
{
    if i == s.len() {
        assert(s.take(i) =~= s);
    } else {
        let t = s.drop_last();
        lemma_byte_len_take(s, i + 1, s.len() as int);
        assert(s.take(s.len() as int) =~= s);
        assert(t.take(i) =~= s.take(i));
        if i + 1 < s.len() {
            assert(t.take(i + 1) =~= s.take(i + 1));
        }
        lemma_within_bytes(t, max, i);
    }
}

/// How many characters of a text fit into `max` bytes.
pub fn fitting(s: &[char], max: usize) -> (r: usize)
    ensures
        r <= s.len(),
        s@.take(r as int) == within_bytes(s@, max as int),
        (r == s.len()) == (byte_len(s@) <= max),
{
    let mut used: usize = 0;
    let mut i: usize = 0;
    while i < s.len()
        invariant
            i <= s.len(),
            used == byte_len(s@.take(i as int)),
            used <= max,
        decreases s.len() - i,
    {
        let w: usize = char_width(s[i]);
        assert(s@.take(i as int + 1).drop_last() =~= s@.take(i as int));
        if w > max - used {
            proof {
                lemma_within_bytes(s@, max as int, i as int);
                lemma_byte_len_take(s@, i as int + 1, s@.len() as int);
                assert(s@.take(s@.len() as int) =~= s@);
            }
            return i;
        }
        used += w;
        i += 1;
    }
    proof {
        lemma_within_bytes(s@, max as int, i as int);
        assert(s@.take(s@.len() as int) =~= s@);
    }
    i
}

/// Page numbers in decimal.
pub open spec fn page_texts(pages: Seq<u32>) -> Seq<Seq<char>> {
    pages.map_values(|p: u32| decimal(p as nat))
}

/// A list of page numbers, of which at most eight are shown.
pub open spec fn page_list(pages: Seq<u32>) -> Seq<char> {
    if pages.len() <= 8 {
        joined(page_texts(pages), ", "@)
    } else {
        joined(page_texts(pages.take(8)), ", "@) + ", +"@ + decimal((pages.len() - 8) as nat)
            + " more"@
    }
}

/// Renders a list of 1-based page numbers compactly, capping at a few entries.
pub fn format_page_list(pages: &[u32]) -> (r: String)
    ensures
        r@ == page_list(pages@),
{
    let shown: usize = if pages.len() <= 8 {
        pages.len()
    } else {
        8
    };
    let mut out: Vec<String> = Vec::new();
    let mut i: usize = 0;
    while i < shown
        invariant
            i <= shown <= pages.len(),
            texts(out@) == page_texts(pages@.take(i as int)),
        decreases shown - i,
    {
        let ghost before = texts(out@);
        out.push(decimal_text(pages[i] as u64));
        assert(texts(out@) =~= before.push(decimal(pages@[i as int] as nat)));
        assert(texts(out@) =~= page_texts(pages@.take(i as int + 1)));
        i += 1;
    }
    assert(pages@.take(pages@.len() as int) =~= pages@);
    let mut list = join(out.as_slice(), ", ");
    if pages.len() > 8 {
        list.push_str(", +");
        push_decimal(&mut list, (pages.len() - 8) as u64);
        list.push_str(" more");
    }
    list
}

/// What a report makes of a document.
pub open spec fn outcome_of(report: WorkerReport) -> OutcomeView {
    let text = within_bytes(report.text@, MAX_FULLTEXT_BYTES as int);
    let failed = report.failed_pages@;
    let pages = report.page_count;
    let lost = failed.len() as u32;
    let kept = if lost <= pages {
        pages - lost
    } else {
        0
    };
    if let Some(err) = report.document_error {
        failure("malformed PDF: "@ + err@)
    } else if trimmed(text).len() == 0 || kept == 0 {
        if failed.len() == 0 {
            failure("malformed PDF: no extractable text"@)
        } else {
            failure("malformed PDF: all "@ + decimal(pages as nat) + " pages failed to extract"@)
        }
    } else if failed.len() > 0 {
        OutcomeView {
            status: ExtractStatus::Partial,
            text,
            detail: "extracted "@ + decimal(kept as nat) + "/"@ + decimal(pages as nat)
                + " pages (failed: "@ + page_list(failed) + ")"@,
        }
    } else if pages > SUSPICIOUS_MIN_PAGES && text.len() < SUSPICIOUS_CHARS_PER_PAGE * pages {
        OutcomeView {
            status: ExtractStatus::Suspicious,
            text,
            detail: "low text volume: "@ + decimal(text.len()) + " chars over "@ + decimal(
                pages as nat,
            ) + " pages (~"@ + decimal(text.len() / pages as nat) + "/page)"@,
        }
    } else {
        OutcomeView { status: ExtractStatus::Complete, text, detail: Seq::empty() }
    }
}

/// Turns a worker report into a final outcome, applying truncation and the
/// suspicious-under-extraction heuristic.
pub fn build_outcome(report: WorkerReport) -> (r: ExtractOutcome)
    ensures
        r@ == outcome_of(report),
{
    if let Some(err) = &report.document_error {
        return failed(concat2("malformed PDF: ", err.as_str()));
    }
    let whole = chars_of(report.text.as_str());
    let end: usize = fitting(whole.as_slice(), MAX_FULLTEXT_BYTES);
    let text = slice_subrange(whole.as_slice(), 0, end);
    assert(text@ =~= whole@.take(end as int));
    let pages: u32 = report.page_count;
    let lost: u32 = #[verifier::truncate]
    (report.failed_pages.len() as u32);
    let kept: u32 = if lost <= pages {
        pages - lost
    } else {
        0
    };
    if trim(text).len() == 0 || kept == 0 {
        if report.failed_pages.len() == 0 {
            return failed("malformed PDF: no extractable text".to_string());
        }
        let mut detail = "malformed PDF: all ".to_string();
        push_decimal(&mut detail, pages as u64);
        detail.push_str(" pages failed to extract");
        return failed(detail);
    }
    if report.failed_pages.len() > 0 {
        let mut detail = "extracted ".to_string();
        push_decimal(&mut detail, kept as u64);
        detail.push_str("/");
        push_decimal(&mut detail, pages as u64);
        detail.push_str(" pages (failed: ");
        detail.push_str(format_page_list(report.failed_pages.as_slice()).as_str());
        detail.push_str(")");
        return ExtractOutcome { status: ExtractStatus::Partial, text: string_of(text), detail };
    }
    let chars: u64 = text.len() as u64;
    if pages > SUSPICIOUS_MIN_PAGES && chars < SUSPICIOUS_CHARS_PER_PAGE * pages as u64 {
        let mut detail = "low text volume: ".to_string();
        push_decimal(&mut detail, chars);
        detail.push_str(" chars over ");
        push_decimal(&mut detail, pages as u64);
        detail.push_str(" pages (~");
        push_decimal(&mut detail, chars / pages as u64);
        detail.push_str("/page)");
        return ExtractOutcome { status: ExtractStatus::Suspicious, text: string_of(text), detail };
    }
    ExtractOutcome { status: ExtractStatus::Complete, text: string_of(text), detail: String::new() }
}

/// The outcome for a file that is too large to be read; none for one that is not.
pub fn oversized(bytes: u64) -> (r: Option<ExtractOutcome>)
    ensures
        match r {
            Some(o) => bytes > MAX_PDF_BYTES && o@ == failure(
                "malformed PDF: too large ("@ + decimal((bytes / 1_048_576) as nat)
                    + " MB > 150 MB limit)"@,
            ),
            None => bytes <= MAX_PDF_BYTES,
        },
{
    if bytes > MAX_PDF_BYTES {
        let mut detail = "malformed PDF: too large (".to_string();
        push_decimal(&mut detail, bytes / 1_048_576);
        detail.push_str(" MB > 150 MB limit)");
        Some(failed(detail))
    } else {
        None
    }
}

/// The reason shown for an extraction that ended without a report.
pub open spec fn exit_reason(signal: Option<u32>, stderr: Seq<char>) -> Seq<char> {
    match signal {
        Some(sig) => "malformed PDF: extraction killed by signal "@ + decimal(sig as nat)
            + " (likely hit memory or CPU limit)"@,
        None => {
            let l = lines_of(stderr);
            if l.len() > 0 && trimmed(l.last()).len() > 0 {
                "malformed PDF: "@ + trimmed(l.last())
            } else {
                "malformed PDF: extraction failed"@
            }
        },
    }
}

/// Builds a human-readable reason for an extraction that ended without a clean report: killed by
/// a memory or CPU cap, or crashed.
pub fn describe_exit_failure(signal: Option<u32>, stderr: &str) -> (r: String)
    ensures
        r@ == exit_reason(signal, stderr@),
{
    if let Some(sig) = signal {
        let mut out = "malformed PDF: extraction killed by signal ".to_string();
        push_decimal(&mut out, sig as u64);
        out.push_str(" (likely hit memory or CPU limit)");
        return out;
    }
    let chars = chars_of(stderr);
    let all = lines(chars.as_slice());
    assert(runs(all@).len() == all@.len());
    if all.len() > 0 {
        let last = trim(all[all.len() - 1]);
        if last.len() > 0 {
            return concat2("malformed PDF: ", string_of(last).as_str());
        }
    }
    "malformed PDF: extraction failed".to_string()
}

/// A text without NUL characters.
pub open spec fn without_nul(s: Seq<char>) -> Seq<char>
    decreases s.len(),
{
    if s.len() == 0 {
        Seq::empty()
    } else if s.last() == '\u{0}' {
        without_nul(s.drop_last())
    } else {
        without_nul(s.drop_last()).push(s.last())
    }
}

/// The lines that are not blank, each without surrounding whitespace.
pub open spec fn full_lines(l: Seq<Seq<char>>) -> Seq<Seq<char>>
    decreases l.len(),
{
    if l.len() == 0 {
        Seq::empty()
    } else {
        let head = full_lines(l.drop_last());
        if trimmed(l.last()).len() > 0 {
            head.push(trimmed(l.last()))
        } else {
            head
        }
    }
}

/// A text with NULs, blank lines and the whitespace around lines taken out.
pub open spec fn cleaned(s: Seq<char>) -> Seq<char> {
    joined(full_lines(lines_of(without_nul(s))), "\n"@)
}

/// Normalizes whitespace, drops NULs and blank lines.
pub fn clean_text(text: &str) -> (r: String)
    ensures
        r@ == cleaned(text@),
{
    let all = chars_of(text);
    let mut kept: Vec<char> = Vec::new();
    let mut i: usize = 0;
    while i < all.len()
        invariant
            i <= all.len(),
            all@ == text@,
            kept@ == without_nul(text@.take(i as int)),
        decreases all.len() - i,
    {
        assert(text@.take(i as int + 1).drop_last() =~= text@.take(i as int));
        if all[i] != '\u{0}' {
            kept.push(all[i]);
        }
        i += 1;
    }
    assert(text@.take(text@.len() as int) =~= text@);
    let split = lines(kept.as_slice());
    let ghost seen = runs(split@);
    let mut out: Vec<String> = Vec::new();
    let mut j: usize = 0;
    assert(texts(out@) =~= Seq::empty());
    while j < split.len()
        invariant
            j <= split.len(),
            seen == runs(split@),
            texts(out@) == full_lines(seen.take(j as int)),
        decreases split.len() - j,
    {
        assert(seen.take(j as int + 1).drop_last() =~= seen.take(j as int));
        assert(seen.take(j as int + 1).last() == split@[j as int]@);
        let line = trim(split[j]);
        if line.len() > 0 {
            let ghost before = texts(out@);
            out.push(string_of(line));
            assert(texts(out@) =~= before.push(line@));
        }
        j += 1;
    }
    assert(seen.take(seen.len() as int) =~= seen);
    join(out.as_slice(), "\n")
}

/// The texts of the pages that could be read.
pub open spec fn read_pages(pages: Seq<Option<String>>) -> Seq<Seq<char>>
    decreases pages.len(),
{
    if pages.len() == 0 {
        Seq::empty()
    } else {
        let head = read_pages(pages.drop_last());
        match pages.last() {
            Some(t) => head.push(t@),
            None => head,
        }
    }
}

/// The 1-based numbers of the pages that could not.
pub open spec fn lost_pages(pages: Seq<Option<String>>) -> Seq<int>
    decreases pages.len(),
{
    if pages.len() == 0 {
        Seq::empty()
    } else {
        let head = lost_pages(pages.drop_last());
        match pages.last() {
            Some(_) => head,
            None => head.push(pages.len() as int),
        }
    }
}

/// The report on a document whose pages were read one by one; a page that failed is none.
pub fn assemble_report(pages: Vec<Option<String>>) -> (r: WorkerReport)
    requires
        pages.len() <= u32::MAX,
    ensures
        r.page_count == pages@.len(),
        r.failed_pages@.map_values(|p: u32| p as int) == lost_pages(pages@),
        r.text@ == cleaned(joined(read_pages(pages@), "\n"@)),
        r.document_error is None,
{
    let mut found: Vec<String> = Vec::new();
    let mut lost: Vec<u32> = Vec::new();
    let mut i: usize = 0;
    assert(texts(found@) =~= Seq::empty());
    assert(lost@.map_values(|p: u32| p as int) =~= Seq::empty());
    while i < pages.len()
        invariant
            i <= pages.len() <= u32::MAX,
            texts(found@) == read_pages(pages@.take(i as int)),
            lost@.map_values(|p: u32| p as int) == lost_pages(pages@.take(i as int)),
        decreases pages.len() - i,
    {
        assert(pages@.take(i as int + 1).drop_last() =~= pages@.take(i as int));
        match &pages[i] {
            Some(t) => {
                let ghost before = texts(found@);
                found.push(t.clone());
                assert(texts(found@) =~= before.push(t@));
            },
            None => {
                let ghost before = lost@.map_values(|p: u32| p as int);
                lost.push(i as u32 + 1);
                assert(lost@.map_values(|p: u32| p as int) =~= before.push(i as int + 1));
            },
        }
        i += 1;
    }
    assert(pages@.take(pages@.len() as int) =~= pages@);
    let text = clean_text(join(found.as_slice(), "\n").as_str());
    WorkerReport {
        page_count: pages.len() as u32,
        failed_pages: lost,
        text,
        document_error: None,
    }
}

/// The report on a document that would not open.
pub fn unopened_report(error: String) -> (r: WorkerReport)
    ensures
        r.page_count == 0,
        r.failed_pages@.len() == 0,
        r.text@.len() == 0,
        opt_text(r.document_error) == Some(error@),
{
    WorkerReport {
        page_count: 0,
        failed_pages: Vec::new(),
        text: String::new(),
        document_error: Some(error),
    }
}

/// A document has text to index exactly when its extraction did not fail, and then the text is not
/// blank.
pub proof fn law_text_unless_failed(report: WorkerReport)
    ensures
        outcome_of(report).status == ExtractStatus::Failed ==> outcome_of(report).text.len() == 0,
        outcome_of(report).status != ExtractStatus::Failed ==> trimmed(
            outcome_of(report).text,
        ).len() > 0,
        outcome_of(report).status != ExtractStatus::NoAttachment,
{
}

} // verus!
