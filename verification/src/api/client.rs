//! The local API of a running Zotero: what is requested of it and what its answers mean.
use crate::api::fetch::is_success;
use crate::api::fetch::success;
use crate::api::webapi::trimmed_text;
use crate::commands::export_cmd::ExportFormat;
use crate::failure::Failure;
use crate::json::opt_str;
use crate::lines::join;
use crate::lines::joined;
use crate::percent::url_decode;
use crate::percent::url_decoded;
use crate::percent::url_encode;
use crate::percent::url_encoded;
use crate::text::chars_of;
use crate::text::concat2;
use crate::text::concat3;
use crate::text::concat4;
use crate::text::decimal;
use crate::text::find_from;
use crate::text::found_from;
use crate::text::natural_of;
use crate::text::opt_text;
use crate::text::parse_natural;
use crate::text::push_decimal;
use crate::text::string_of;
use crate::text::strip_prefix;
use crate::text::texts;
use crate::text::trimmed;
use crate::text::without_prefix;
use vstd::prelude::*;

verus! {

/// Where the local API is.
pub const DEFAULT_BASE_URL: &'static str = "http://localhost:23119/api/users/0";

/// How many items a page of an answer holds at most.
pub const PAGE_SIZE: usize = 100;

/// What to search for beside the query.
#[derive(Debug, Clone)]
pub struct SearchParams {
    pub tag: Option<String>,
    /// Creators are matched through the free-text query, so this is not sent on its own.
    pub creator: Option<String>,
    pub item_type: Option<String>,
    pub collection: Option<String>,
    pub sort: Option<String>,
    pub desc: bool,
    pub everything: bool,
    pub limit: Option<usize>,
}

impl Default for SearchParams {
    fn default() -> (r: SearchParams)
        ensures
            r.tag is None,
            r.creator is None,
            r.item_type is None,
            r.collection is None,
            r.sort is None,
            !r.desc,
            !r.everything,
            r.limit is None,
    {
        SearchParams {
            tag: None,
            creator: None,
            item_type: None,
            collection: None,
            sort: None,
            desc: false,
            everything: false,
            limit: None,
        }
    }
}

/// A tag of the library.
#[derive(Debug, Clone)]
pub struct TagInfo {
    pub tag: String,
    pub tag_type: Option<u32>,
    pub meta: TagMeta,
}

/// What Zotero tallies of a tag.
#[derive(Debug, Clone, Copy)]
pub struct TagMeta {
    pub num_items: u32,
}

impl Default for TagMeta {
    fn default() -> (r: TagMeta)
        ensures
            r.num_items == 0,
    {
        TagMeta { num_items: 0 }
    }
}

/// The error where Zotero does not answer.
pub fn unreachable_error(root_url: &str) -> (r: Failure)
    ensures
        r@ == "Could not reach Zotero. Is it running?\n  (expected at "@ + root_url@ + ")"@,
{
    Failure {
        message: concat3(
            "Could not reach Zotero. Is it running?\n  (expected at ",
            root_url,
            ")",
        ),
    }
}

/// What a probe of the local API says: it is disabled by default, and then every command fails
/// early with a clear message.
pub open spec fn probe_verdict(status: u16, body: Seq<char>) -> Option<Seq<char>> {
    if status != 403 {
        None
    } else if found_from(body, "Local API is not enabled"@, 0) is Some {
        Some(
            "Zotero is running, but its local API is disabled.\n  Enable it in Zotero: Settings -> Advanced -> Config Editor,\n  set `httpServer.localAPI.enabled` to true (then restart Zotero)."@,
        )
    } else {
        Some("Zotero local API returned 403 Forbidden: "@ + trimmed(body))
    }
}

/// Reads the answer to a probe of the local API.
pub fn read_probe(status: u16, body: &str) -> (r: Result<(), Failure>)
    ensures
        match r {
            Ok(_) => probe_verdict(status, body@) is None,
            Err(e) => probe_verdict(status, body@) == Some(e@),
        },
{
    if status != 403 {
        return Ok(());
    }
    let chars = chars_of(body);
    if find_from(chars.as_slice(), "Local API is not enabled", 0).is_some() {
        return Err(
            Failure {
                message:
                    "Zotero is running, but its local API is disabled.\n  Enable it in Zotero: Settings -> Advanced -> Config Editor,\n  set `httpServer.localAPI.enabled` to true (then restart Zotero).".to_string(),
            },
        );
    }
    Err(
        Failure {
            message: concat2(
                "Zotero local API returned 403 Forbidden: ",
                trimmed_text(body).as_str(),
            ),
        },
    )
}

/// Where the versions of all items are.
pub fn versions_url(base: &str) -> (r: String)
    ensures
        r@ == base@ + "/items?format=versions&itemType=-attachment%20-note%20-annotation"@,
{
    concat2(base, "/items?format=versions&itemType=-attachment%20-note%20-annotation")
}

/// What the status of the answer about versions means.
pub fn check_versions(status: u16, shown: &str, body: &str) -> (r: Result<(), Failure>)
    ensures
        match r {
            Ok(_) => is_success(status),
            Err(e) => !is_success(status) && e@ == "Zotero returned "@ + shown@
                + " fetching item versions: "@ + trimmed(body@),
        },
{
    if success(status) {
        Ok(())
    } else {
        Err(
            Failure {
                message: concat4(
                    "Zotero returned ",
                    shown,
                    " fetching item versions: ",
                    trimmed_text(body).as_str(),
                ),
            },
        )
    }
}

/// Where an item is.
pub fn item_url(base: &str, key: &str) -> (r: String)
    ensures
        r@ == base@ + "/items/"@ + key@,
{
    concat3(base, "/items/", key)
}

/// What the status of the answer about an item means.
pub fn check_item(status: u16, shown: &str, key: &str) -> (r: Result<(), Failure>)
    ensures
        match r {
            Ok(_) => is_success(status),
            Err(e) => !is_success(status) && e@ == "Item "@ + key@ + " not found (status "@ + shown@
                + ")"@,
        },
{
    if success(status) {
        Ok(())
    } else {
        Err(Failure { message: crate::text::concat5("Item ", key, " not found (status ", shown, ")") })
    }
}

/// Where some items are; at most a page of them.
pub fn items_url(base: &str, keys: &[String]) -> (r: String)
    ensures
        r@ == base@ + "/items?itemKey="@ + joined(texts(keys@), ","@) + "&limit="@ + decimal(
            keys@.len(),
        ),
{
    let mut out = concat4(base, "/items?itemKey=", join(keys, ",").as_str(), "&limit=");
    push_decimal(&mut out, keys.len() as u64);
    out
}

/// Where a page of all regular items is.
pub fn all_items_url(base: &str, start: usize) -> (r: String)
    ensures
        r@ == base@ + "/items?itemType=-attachment%20-note%20-annotation&limit=100&start="@
            + decimal(start as nat),
{
    let mut out = concat2(
        base,
        "/items?itemType=-attachment%20-note%20-annotation&limit=100&start=",
    );
    push_decimal(&mut out, start as u64);
    out
}

/// Where a page of all tags is.
pub fn tags_url(base: &str, start: usize) -> (r: String)
    ensures
        r@ == base@ + "/tags?limit=100&start="@ + decimal(start as nat),
{
    let mut out = concat2(base, "/tags?limit=100&start=");
    push_decimal(&mut out, start as u64);
    out
}

/// Where a page of all collections is.
pub fn collections_url(base: &str, start: usize) -> (r: String)
    ensures
        r@ == base@ + "/collections?limit=100&start="@ + decimal(start as nat),
{
    let mut out = concat2(base, "/collections?limit=100&start=");
    push_decimal(&mut out, start as u64);
    out
}

/// Where a page of the top-level items is, of the library or of one collection.
pub fn top_items_url(base: &str, collection: Option<&str>, start: usize) -> (r: String)
    ensures
        r@ == base@ + (match opt_str(collection) {
            Some(key) => "/collections/"@ + key,
            None => Seq::empty(),
        }) + "/items/top?limit=100&start="@ + decimal(start as nat),
{
    let place = match collection {
        Some(key) => concat2("/collections/", key),
        None => String::new(),
    };
    assert(collection is None ==> place@ =~= Seq::empty());
    let mut out = concat3(base, place.as_str(), "/items/top?limit=100&start=");
    push_decimal(&mut out, start as u64);
    out
}

/// Where some items are, rendered in a bibliography format.
pub fn rendered_items_url(base: &str, keys: &[String], format: ExportFormat) -> (r: String)
    ensures
        r@ == base@ + "/items?itemKey="@ + joined(texts(keys@), ","@) + "&limit="@ + decimal(
            keys@.len(),
        ) + "&format="@ + format.param(),
{
    concat3(items_url(base, keys).as_str(), "&format=", format.as_param())
}

/// Where a page of the top-level items of a collection is, rendered in a bibliography format.
pub fn rendered_page_url(base: &str, collection: &str, start: usize, format: ExportFormat) -> (r:
    String)
    ensures
        r@ == base@ + ("/collections/"@ + collection@) + "/items/top?limit=100&start="@ + decimal(
            start as nat,
        ) + "&format="@ + format.param(),
{
    concat3(top_items_url(base, Some(collection), start).as_str(), "&format=", format.as_param())
}

/// What the status of the answer with rendered items means.
pub fn check_rendered(status: u16, shown: &str, format: ExportFormat) -> (r: Result<(), Failure>)
    ensures
        match r {
            Ok(_) => is_success(status),
            Err(e) => !is_success(status) && e@ == "Zotero returned "@ + shown@
                + " rendering items as "@ + format.param(),
        },
{
    if success(status) {
        return Ok(());
    }
    Err(
        Failure {
            message: concat4("Zotero returned ", shown, " rendering items as ", format.as_param()),
        },
    )
}

/// Where the children of an item are.
pub fn children_url(base: &str, item_key: &str) -> (r: String)
    ensures
        r@ == base@ + "/items/"@ + item_key@ + "/children"@,
{
    concat4(base, "/items/", item_key, "/children")
}

/// Where the file of an attachment is.
pub fn file_url(base: &str, attachment_key: &str) -> (r: String)
    ensures
        r@ == base@ + "/items/"@ + attachment_key@ + "/file"@,
{
    concat4(base, "/items/", attachment_key, "/file")
}

/// How many results an answer announces; 0 where it announces none.
pub fn total_results(header: Option<&str>) -> (r: u64)
    ensures
        r == match opt_str(header) {
            Some(h) => match natural_of(h) {
                Some(n) => n,
                None => 0,
            },
            None => 0,
        },
{
    match header {
        Some(h) => match parse_natural(h) {
            Some(n) => n,
            None => 0,
        },
        None => 0,
    }
}

/// Where the page after one of `count` results starts; none after an empty page or the last one.
pub fn next_page(start: usize, count: usize, total: u64) -> (r: Option<usize>)
    ensures
        r == if count == 0 || start + count >= total || start + count > usize::MAX {
            None
        } else {
            Some((start + count) as usize)
        },
{
    if count == 0 || count > usize::MAX - start {
        return None;
    }
    let next: usize = start + count;
    if next as u64 >= total {
        None
    } else {
        Some(next)
    }
}

/// The path of an attachment's file, given the redirect that names it.
pub open spec fn redirected_path(status: u16, location: Option<Seq<char>>) -> Option<Seq<char>> {
    if status == 302 {
        match location {
            Some(l) => match without_prefix(l, "file://"@) {
                Some(path) => Some(decoded_or_raw(path, url_decoded(path))),
                None => None,
            },
            None => None,
        }
    } else {
        None
    }
}

/// A decoded path, or the path as it was where it does not decode.
pub open spec fn decoded_or_raw(path: Seq<char>, decoded: Option<Seq<char>>) -> Seq<char> {
    match decoded {
        Some(d) => d,
        None => path,
    }
}

/// A decoded path, or the path as it was where it does not decode.
pub fn choose_path(path: String, decoded: Option<String>) -> (r: String)
    ensures
        r@ == decoded_or_raw(path@, opt_text(decoded)),
{
    match decoded {
        Some(d) => d,
        None => path,
    }
}

/// The path of an attachment's file, from the redirect that names it.
pub fn attachment_path(status: u16, location: Option<&str>) -> (r: Option<String>)
    ensures
        opt_text(r) == redirected_path(status, opt_str(location)),
{
    if status != 302 {
        return None;
    }
    match location {
        Some(l) => {
            let chars = chars_of(l);
            match strip_prefix(chars.as_slice(), "file://") {
                Some(p) => {
                    let path = string_of(p);
                    let decoded = url_decode(path.as_str());
                    Some(choose_path(path, decoded))
                },
                None => None,
            }
        },
        None => None,
    }
}

/// Where a search is answered.
pub open spec fn search_url_text(base: Seq<char>, query: Seq<char>, p: SearchParams) -> Seq<char> {
    let o = base;
    let o = match p.collection {
        Some(c) => o + "/collections/"@ + c@ + "/items?q="@,
        None => o + "/items?q="@,
    };
    let o = o + url_encoded(query) + "&qmode="@ + if p.everything {
        "everything"@
    } else {
        "titleCreatorYear"@
    };
    let o = match p.item_type {
        Some(t) => o + "&itemType="@ + url_encoded(t@),
        None => o + "&itemType=-attachment%20-note%20-annotation"@,
    };
    let o = o + "&limit="@ + decimal(
        match p.limit {
            Some(n) => n as nat,
            None => 25,
        },
    );
    let o = match p.tag {
        Some(t) => o + "&tag="@ + url_encoded(t@),
        None => o,
    };
    match p.sort {
        Some(s) => {
            let o = o + "&sort="@ + url_encoded(s@);
            if p.desc {
                o + "&direction=desc"@
            } else {
                o
            }
        },
        None => o,
    }
}

/// Where a search is answered: in the whole library or in a collection, for regular items unless a
/// type is asked for.
pub fn search_url(base: &str, query: &str, params: &SearchParams) -> (r: String)
    ensures
        r@ == search_url_text(base@, query@, *params),
{
    let mut out = base.to_string();
    match &params.collection {
        Some(c) => {
            out.push_str("/collections/");
            out.push_str(c.as_str());
            out.push_str("/items?q=");
        },
        None => {
            out.push_str("/items?q=");
        },
    }
    out.push_str(url_encode(query).as_str());
    out.push_str("&qmode=");
    if params.everything {
        out.push_str("everything");
    } else {
        out.push_str("titleCreatorYear");
    }
    match &params.item_type {
        Some(t) => {
            out.push_str("&itemType=");
            out.push_str(url_encode(t.as_str()).as_str());
        },
        None => {
            out.push_str("&itemType=-attachment%20-note%20-annotation");
        },
    }
    out.push_str("&limit=");
    let limit: usize = match params.limit {
        Some(n) => n,
        None => 25,
    };
    push_decimal(&mut out, limit as u64);
    if let Some(t) = &params.tag {
        out.push_str("&tag=");
        out.push_str(url_encode(t.as_str()).as_str());
    }
    if let Some(s) = &params.sort {
        out.push_str("&sort=");
        out.push_str(url_encode(s.as_str()).as_str());
        if params.desc {
            out.push_str("&direction=desc");
        }
    }
    out
}

} // verus!
