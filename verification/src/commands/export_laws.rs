//! What an export holds and what it names as left out.
use crate::api::models::ZoteroItem;
use crate::commands::bibtex_fields::is_field;
use crate::commands::bibtex_fields::is_name_char;
use crate::commands::bibtex_fields::name_of_field;
use crate::commands::bibtex_shape::entries_without;
use crate::commands::bibtex_shape::is_stream;
use crate::commands::bibtex_shape::law_strip_takes_named_fields;
use crate::commands::bibtex_shape::stream_lines;
use crate::commands::bibtex_shape::EntryLines;
use crate::commands::export_cmd::by_title;
use crate::commands::export_cmd::dropped_views;
use crate::commands::export_cmd::format_named;
use crate::commands::export_cmd::is_export;
use crate::commands::export_cmd::item_title;
use crate::commands::export_cmd::known_keys;
use crate::commands::export_cmd::private_fields;
use crate::commands::export_cmd::published;
use crate::commands::export_cmd::ris_records;
use crate::commands::export_cmd::titles_of;
use crate::commands::export_cmd::unknown_keys;
use crate::commands::export_cmd::with_dropped;
use crate::commands::export_cmd::DroppedView;
use crate::commands::export_cmd::ExportFormat;
use crate::lines::flat;
use crate::output::ExportOutput;
use crate::text::ascii_lower;
use crate::text::ascii_lowercase;
use crate::text::is_digit;
use crate::text::is_letter;
use crate::text::is_white;
use crate::text::lemma_index_of_is;
use crate::text::lemma_text_le_total;
use crate::text::lemma_text_le_trans;
use crate::text::text_le;
use crate::text::trimmed_end;
use crate::text::trimmed_start;
use crate::text_laws::law_trimmed_stays;
use vstd::prelude::*;

verus! {

/// A format is read back from the name that the library knows it by.
pub proof fn law_format_reads_back(format: ExportFormat)
    ensures
        format_named(format.param()) == Some(format),
{
    reveal_strlit("bibtex");
    reveal_strlit("ris");
    reveal_strlit("csljson");
    reveal_strlit("csl-json");
    assert(ascii_lowercase("bibtex"@) =~= "bibtex"@);
    assert(ascii_lowercase("ris"@) =~= "ris"@);
    assert(ascii_lowercase("csljson"@) =~= "csljson"@);
    reveal_strlit("bib");
    law_trimmed_stays("bibtex"@);
    law_trimmed_stays("ris"@);
    law_trimmed_stays("csljson"@);
    assert("bibtex"@.len() == 6 && "ris"@.len() == 3 && "csljson"@.len() == 7);
    assert("ris"@[0] == 'r' && "bib"@[0] == 'b');
}

/// Only BibTeX is changed on its way out, and not where it is asked for raw.
pub proof fn law_export_leaves_the_rest_alone(content: Seq<char>, format: ExportFormat)
    ensures
        published(content, format, true) == content,
        format != ExportFormat::Bibtex ==> published(content, format, false) == content,
{
}

/// The fields that describe the library rather than the work are stripped: the file, the notes, the
/// abstract and the keywords, and neither the Extra field nor the date of access.
pub proof fn law_private_fields()
    ensures
        is_field(private_fields(), "file"@),
        is_field(private_fields(), "annote"@),
        is_field(private_fields(), "abstract"@),
        is_field(private_fields(), "keywords"@),
        !is_field(private_fields(), "note"@),
        !is_field(private_fields(), "urldate"@),
        !is_field(private_fields(), "title"@),
        !is_field(private_fields(), "author"@),
        !is_field(private_fields(), "year"@),
        !is_field(private_fields(), "doi"@),
{
    let p = private_fields();
    reveal_strlit("file");
    reveal_strlit("annote");
    reveal_strlit("abstract");
    reveal_strlit("keywords");
    reveal_strlit("note");
    reveal_strlit("urldate");
    reveal_strlit("title");
    reveal_strlit("author");
    reveal_strlit("year");
    reveal_strlit("doi");
    assert(ascii_lowercase(p[0]) == ascii_lowercase("file"@));
    assert(ascii_lowercase(p[1]) == ascii_lowercase("annote"@));
    assert(ascii_lowercase(p[2]) == ascii_lowercase("abstract"@));
    assert(ascii_lowercase(p[3]) == ascii_lowercase("keywords"@));
    lemma_not_private("note"@);
    lemma_not_private("urldate"@);
    lemma_not_private("title"@);
    lemma_not_private("author"@);
    lemma_not_private("year"@);
    lemma_not_private("doi"@);
}

proof fn lemma_not_private(name: Seq<char>)
    requires
        name.len() > 0,
        name.len() != 4 || ascii_lower(name[0]) != 'f',
        name.len() != 6 || ascii_lower(name[1]) != 'n',
        name.len() != 8,
    ensures
        !is_field(private_fields(), name),
{
    reveal_strlit("file");
    reveal_strlit("annote");
    reveal_strlit("abstract");
    reveal_strlit("keywords");
    let p = private_fields();
    assert forall|i: int| 0 <= i < p.len() implies ascii_lowercase(#[trigger] p[i])
        != ascii_lowercase(name) by {
        assert(ascii_lowercase(p[i]).len() == p[i].len());
        assert(ascii_lowercase(name).len() == name.len());
        if i == 0 && name.len() == 4 {
            assert(ascii_lowercase(p[0])[0] == 'f');
            assert(ascii_lowercase(name)[0] == ascii_lower(name[0]));
        }
        if i == 1 && name.len() == 6 {
            assert(ascii_lowercase(p[1])[1] == 'n');
            assert(ascii_lowercase(name)[1] == ascii_lower(name[1]));
        }
    }
}

/// Every key that is asked for is either exported or named as unknown, and none is both.
pub proof fn law_every_key_is_accounted_for(
    keys: Seq<Seq<char>>,
    titles: Map<Seq<char>, Seq<char>>,
    key: Seq<char>,
)
    ensures
        known_keys(keys, titles).len() + unknown_keys(keys, titles).len() == keys.len(),
        known_keys(keys, titles).contains(key) <==> keys.contains(key) && titles.contains_key(key),
        (exists|i: int|
            0 <= i < unknown_keys(keys, titles).len() && (#[trigger] unknown_keys(
                keys,
                titles,
            )[i]).key == key) <==> keys.contains(key) && !titles.contains_key(key),
    decreases keys.len(),
{
    if keys.len() > 0 {
        let t = keys.drop_last();
        law_every_key_is_accounted_for(t, titles, key);
        let a = known_keys(t, titles);
        let b = unknown_keys(t, titles);
        let x = known_keys(keys, titles);
        let y = unknown_keys(keys, titles);
        assert(keys[keys.len() - 1] == keys.last());
        if keys.contains(key) {
            let i = choose|i: int| 0 <= i < keys.len() && keys[i] == key;
            if i < t.len() {
                assert(t[i] == key);
            }
        }
        if t.contains(key) {
            let i = choose|i: int| 0 <= i < t.len() && t[i] == key;
            assert(keys[i] == key);
        }
        if a.contains(key) {
            let i = choose|i: int| 0 <= i < a.len() && a[i] == key;
            assert(x[i] == key);
        }
        if x.contains(key) {
            let i = choose|i: int| 0 <= i < x.len() && x[i] == key;
            if i < a.len() {
                assert(a[i] == key);
            }
        }
        if exists|i: int| 0 <= i < b.len() && (#[trigger] b[i]).key == key {
            let i = choose|i: int| 0 <= i < b.len() && (#[trigger] b[i]).key == key;
            assert(y[i].key == key);
        }
        if exists|i: int| 0 <= i < y.len() && (#[trigger] y[i]).key == key {
            let i = choose|i: int| 0 <= i < y.len() && (#[trigger] y[i]).key == key;
            if i < b.len() {
                assert(b[i].key == key);
            }
        }
        if key == keys.last() {
            if titles.contains_key(key) {
                assert(x[x.len() - 1] == key);
            } else {
                assert(y[y.len() - 1].key == key);
            }
        }
    }
}

/// Every item has a title to be named by, and of two items with one key the later gives it.
pub proof fn law_titles_of_items(items: Seq<ZoteroItem>, key: Seq<char>)
    ensures
        titles_of(items).contains_key(key) <==> exists|i: int|
            0 <= i < items.len() && (#[trigger] items[i]).key@ == key,
        items.len() > 0 ==> titles_of(items)[items.last().key@] == item_title(items.last()),
    decreases items.len(),
{
    if items.len() > 0 {
        let t = items.drop_last();
        law_titles_of_items(t, key);
        assert(items[items.len() - 1] == items.last());
        if exists|i: int| 0 <= i < t.len() && (#[trigger] t[i]).key@ == key {
            let i = choose|i: int| 0 <= i < t.len() && (#[trigger] t[i]).key@ == key;
            assert(items[i].key@ == key);
        }
        if exists|i: int| 0 <= i < items.len() && (#[trigger] items[i]).key@ == key {
            let i = choose|i: int| 0 <= i < items.len() && (#[trigger] items[i]).key@ == key;
            if i < t.len() {
                assert(t[i].key@ == key);
            }
        }
    }
}

/// An item is named by its title wherever it has one.
pub proof fn law_title_names_the_item(item: ZoteroItem)
    ensures
        item.data.title@.len() > 0 ==> item_title(item) == item.data.title@,
        item.data.title@.len() == 0 && item.data.note@.len() == 0 ==> item_title(item)
            == "untitled "@ + item.data.item_type@,
        item_title(item).len() > 0,
{
    reveal_strlit("note: ");
    reveal_strlit(" note: ");
    reveal_strlit("untitled ");
}

/// Whether items come in the order of their titles.
pub open spec fn titles_ascend(s: Seq<DroppedView>) -> bool {
    forall|i: int, j: int|
        0 <= i < j < s.len() ==> text_le((#[trigger] s[i]).title, (#[trigger] s[j]).title)
}

proof fn lemma_with_dropped(s: Seq<DroppedView>, d: DroppedView)
    requires
        titles_ascend(s),
    ensures
        titles_ascend(with_dropped(s, d)),
        with_dropped(s, d).len() == s.len() + 1,
        forall|x: DroppedView| #[trigger]
            with_dropped(s, d).contains(x) <==> s.contains(x) || x == d,
    decreases s.len(),
{
    let r = with_dropped(s, d);
    if s.len() == 0 || text_le(s.last().title, d.title) {
        assert forall|i: int, j: int| 0 <= i < j < r.len() implies text_le(
            (#[trigger] r[i]).title,
            (#[trigger] r[j]).title,
        ) by {
            if j < s.len() {
                assert(text_le(s[i].title, s[j].title));
            } else if i < s.len() - 1 {
                assert(text_le(s[i].title, s[s.len() - 1].title));
                lemma_text_le_trans(s[i].title, s.last().title, d.title);
            }
        }
        assert forall|x: DroppedView| #[trigger] r.contains(x) <==> s.contains(x) || x == d by {
            if s.contains(x) {
                let k = choose|k: int| 0 <= k < s.len() && s[k] == x;
                assert(r[k] == x);
            }
            assert(r[r.len() - 1] == d);
        }
    } else {
        let h = s.drop_last();
        let z = s.last();
        assert(titles_ascend(h)) by {
            assert forall|i: int, j: int| 0 <= i < j < h.len() implies text_le(
                (#[trigger] h[i]).title,
                (#[trigger] h[j]).title,
            ) by {
                assert(text_le(s[i].title, s[j].title));
            }
        }
        lemma_with_dropped(h, d);
        let rh = with_dropped(h, d);
        lemma_text_le_total(z.title, d.title);
        assert(s[s.len() - 1] == z);
        assert forall|i: int, j: int| 0 <= i < j < r.len() implies text_le(
            (#[trigger] r[i]).title,
            (#[trigger] r[j]).title,
        ) by {
            if j < rh.len() {
                assert(text_le(rh[i].title, rh[j].title));
            } else {
                assert(rh.contains(rh[i]));
                if rh[i] != d {
                    let k = choose|k: int| 0 <= k < h.len() && h[k] == rh[i];
                    assert(text_le(s[k].title, s[s.len() - 1].title));
                }
            }
        }
        assert forall|x: DroppedView| #[trigger] r.contains(x) <==> s.contains(x) || x == d by {
            assert(rh.contains(x) <==> h.contains(x) || x == d);
            if r.contains(x) {
                let k = choose|k: int| 0 <= k < r.len() && r[k] == x;
                if k < rh.len() {
                    assert(rh[k] == x);
                    if h.contains(x) {
                        let m = choose|m: int| 0 <= m < h.len() && h[m] == x;
                        assert(s[m] == x);
                    }
                }
            }
            if s.contains(x) {
                let m = choose|m: int| 0 <= m < s.len() && s[m] == x;
                if m < h.len() {
                    assert(h[m] == x);
                } else {
                    assert(r[r.len() - 1] == x);
                }
            }
            if rh.contains(x) {
                let k = choose|k: int| 0 <= k < rh.len() && rh[k] == x;
                assert(r[k] == x);
            }
        }
    }
}

/// All items that were left out are listed, as many as there are, in the order of their titles.
pub proof fn law_dropped_items_are_listed_by_title(s: Seq<DroppedView>, x: DroppedView)
    ensures
        titles_ascend(by_title(s)),
        by_title(s).len() == s.len(),
        by_title(s).contains(x) <==> s.contains(x),
    decreases s.len(),
{
    if s.len() > 0 {
        let t = s.drop_last();
        law_dropped_items_are_listed_by_title(t, x);
        lemma_with_dropped(by_title(t), s.last());
        assert(by_title(s).contains(x) <==> by_title(t).contains(x) || x == s.last());
        assert(s[s.len() - 1] == s.last());
        if s.contains(x) {
            let i = choose|i: int| 0 <= i < s.len() && s[i] == x;
            if i < t.len() {
                assert(t[i] == x);
            }
        }
        if t.contains(x) {
            let i = choose|i: int| 0 <= i < t.len() && t[i] == x;
            assert(s[i] == x);
        }
    }
}

/// The records of a RIS body are its lines that start with the tag `TY  - `.
pub proof fn law_ris_records(l: Seq<Seq<char>>)
    ensures
        ris_records(l) == l.filter(|x: Seq<char>| "TY  - "@.is_prefix_of(x)).len(),
    decreases l.len(),
{
    reveal(Seq::filter);
    if l.len() > 0 {
        law_ris_records(l.drop_last());
    }
}

/// The name of a field is what stands before the `=` of its line, without the whitespace around it.
pub proof fn law_field_names(name: Seq<char>, value: Seq<char>)
    requires
        name.len() > 0,
        forall|i: int|
            0 <= i < name.len() ==> is_letter(#[trigger] name[i]) || is_digit(name[i]) || name[i]
                == '-' || name[i] == '_',
    ensures
        name_of_field("\t"@ + (name + " = "@ + value)) == Some(name),
        name_of_field(name + " = "@ + value) == Some(name),
{
    reveal_strlit("\t");
    reveal_strlit(" = ");
    let t = name + " = "@ + value;
    let s = "\t"@ + t;
    let n = name.len() as int;
    assert(is_letter(name[0]) || is_digit(name[0]) || name[0] == '-' || name[0] == '_');
    assert(t[0] == name[0]);
    assert(!is_white(t[0]));
    assert(trimmed_start(t) == t);
    assert(s[0] == '\t');
    assert(s.drop_first() =~= t);
    assert(trimmed_start(s) == t);
    assert(t[n] == ' ' && t[n + 1] == '=');
    assert forall|k: int| 0 <= k < n + 1 implies t[k] != '=' by {
        if k < n {
            assert(t[k] == name[k]);
            assert(is_letter(name[k]) || is_digit(name[k]) || name[k] == '-' || name[k] == '_');
        }
    }
    lemma_index_of_is(t, '=', n + 1);
    let head = t.take(n + 1);
    assert(head =~= name.push(' '));
    assert(head.drop_last() =~= name);
    let last = name[n - 1];
    assert(is_letter(last) || is_digit(last) || last == '-' || last == '_');
    assert(!is_white(name.last()));
    assert(trimmed_end(name) == name);
    assert(trimmed_end(head) == name);
    assert forall|i: int| 0 <= i < name.len() implies is_name_char(#[trigger] name[i]) by {}
}

/// A bibliography that is not asked for raw carries none of the private fields, and everything else:
/// of entries in the shape Zotero emits, exactly those fields are taken out.
pub proof fn law_private_fields_are_not_published(es: Seq<EntryLines>, after: Seq<Seq<char>>)
    requires
        is_stream(es, after),
    ensures
        published(flat(stream_lines(es, after)), ExportFormat::Bibtex, false) == flat(
            stream_lines(
                entries_without(es, seq!["file"@, "annote"@, "abstract"@, "keywords"@]),
                after,
            ),
        ),
{
    law_strip_takes_named_fields(es, after, seq!["file"@, "annote"@, "abstract"@, "keywords"@]);
}

/// An export is answered with the path it was written to or with its content, never with both or
/// neither; it says how many entries were asked for and how many there are, and names all that are
/// missing.
pub proof fn law_export_answer(
    out: ExportOutput,
    wanted: usize,
    content: Seq<char>,
    count: nat,
    dropped: Seq<DroppedView>,
    format: ExportFormat,
    path: Option<Seq<char>>,
)
    requires
        is_export(out, wanted, content, count, dropped, format, path),
    ensures
        out.path is Some <==> out.content is None,
        out.path is Some <==> path is Some,
        out.content is Some ==> out.content.unwrap()@ == content,
        out.path is Some ==> Some(out.path.unwrap()@) == path,
        out.requested == wanted,
        out.exported == count,
        out.dropped@.len() == dropped.len(),
{
    if dropped.len() > 0 {
        law_dropped_items_are_listed_by_title(dropped, dropped[0]);
    }
    assert(dropped_views(out.dropped@).len() == out.dropped@.len());
}

} // verus!
