//! What requests carry and what is read out of their answers.
use crate::api::client::probe_verdict;
use crate::api::client::redirected_path;
use crate::api::client::search_url_text;
use crate::api::client::SearchParams;
use crate::api::connector::says_recognizable;
use crate::api::connector::with_text;
use crate::api::medline::column;
use crate::api::webapi::collection_body_tree;
use crate::api::webapi::created_key_value;
use crate::api::webapi::failed_members;
use crate::api::webapi::hex_text;
use crate::api::webapi::is_upload_step;
use crate::api::webapi::rejected_items;
use crate::api::webapi::user_of;
use crate::api::webapi::UploadStep;
use crate::commands::attach_cmd::attachment_tree;
use crate::commands::attach_cmd::extension;
use crate::commands::attach_cmd::title_in;
use crate::commands::attach_cmd::type_of_extension;
use crate::config::masked;
use crate::json::JsonTree;
use crate::lines::byte_len;
use crate::lines::width;
use crate::percent::url_encoded;
use crate::text::all_ascii;
use crate::text::decimal;
use crate::text::last_index_of;
use vstd::prelude::*;
use vstd::utf8::encode_utf8;

verus! {

/// Whether a text stands in another.
pub open spec fn stands_in(part: Seq<char>, whole: Seq<char>) -> bool {
    exists|at: int|
        0 <= at <= whole.len() - part.len() && #[trigger] whole.subrange(at, at + part.len())
            == part
}

/// What stands in a text stands in whatever the text is the start of.
pub proof fn lemma_stands_longer(part: Seq<char>, whole: Seq<char>, more: Seq<char>)
    requires
        stands_in(part, whole),
        whole.is_prefix_of(more),
    ensures
        stands_in(part, more),
{
    let at = choose|at: int|
        0 <= at <= whole.len() - part.len() && #[trigger] whole.subrange(at, at + part.len())
            == part;
    assert(more.subrange(0, whole.len() as int) == whole);
    assert(more.subrange(at, at + part.len()) =~= whole.subrange(at, at + part.len()));
}

/// What is added to a text stands in it, and the text stays its start.
pub proof fn lemma_stands_last(a: Seq<char>, x: Seq<char>, y: Seq<char>)
    ensures
        stands_in(x + y, a + x + y),
        stands_in(x, a + x),
        a.is_prefix_of(a + x),
        a.is_prefix_of(a + x + y),
{
    let n = a.len() as int;
    assert((a + x + y).subrange(n, n + (x + y).len()) =~= x + y);
    assert((a + x).subrange(n, n + x.len()) =~= x);
    assert((a + x).subrange(0, n) =~= a);
    assert((a + x + y).subrange(0, n) =~= a);
}

proof fn lemma_prefix_trans(a: Seq<char>, b: Seq<char>, c: Seq<char>)
    requires
        a.is_prefix_of(b),
        b.is_prefix_of(c),
    ensures
        a.is_prefix_of(c),
{
    assert(c.subrange(0, a.len() as int) =~= c.subrange(0, b.len() as int).subrange(
        0,
        a.len() as int,
    ));
}

/// The steps in which the address of a search is put together.
spec fn search_start(base: Seq<char>, p: SearchParams) -> Seq<char> {
    match p.collection {
        Some(c) => base + "/collections/"@ + c@ + "/items?q="@,
        None => base + "/items?q="@,
    }
}

spec fn search_mode(base: Seq<char>, query: Seq<char>, p: SearchParams) -> Seq<char> {
    search_start(base, p) + url_encoded(query) + "&qmode="@ + if p.everything {
        "everything"@
    } else {
        "titleCreatorYear"@
    }
}

spec fn search_kind(base: Seq<char>, query: Seq<char>, p: SearchParams) -> Seq<char> {
    match p.item_type {
        Some(t) => search_mode(base, query, p) + "&itemType="@ + url_encoded(t@),
        None => search_mode(base, query, p) + "&itemType=-attachment%20-note%20-annotation"@,
    }
}

spec fn search_limit(base: Seq<char>, query: Seq<char>, p: SearchParams) -> Seq<char> {
    search_kind(base, query, p) + "&limit="@ + decimal(
        match p.limit {
            Some(n) => n as nat,
            None => 25,
        },
    )
}

spec fn search_tag(base: Seq<char>, query: Seq<char>, p: SearchParams) -> Seq<char> {
    match p.tag {
        Some(t) => search_limit(base, query, p) + "&tag="@ + url_encoded(t@),
        None => search_limit(base, query, p),
    }
}

proof fn lemma_search_steps(base: Seq<char>, query: Seq<char>, p: SearchParams)
    ensures
        base.is_prefix_of(search_start(base, p)),
        search_start(base, p).is_prefix_of(search_mode(base, query, p)),
        search_mode(base, query, p).is_prefix_of(search_kind(base, query, p)),
        search_kind(base, query, p).is_prefix_of(search_limit(base, query, p)),
        search_limit(base, query, p).is_prefix_of(search_tag(base, query, p)),
        search_tag(base, query, p).is_prefix_of(search_url_text(base, query, p)),
{
    let o1 = search_start(base, p);
    let o2 = search_mode(base, query, p);
    let o3 = search_kind(base, query, p);
    let o4 = search_limit(base, query, p);
    let o5 = search_tag(base, query, p);
    let o6 = search_url_text(base, query, p);
    assert(o1.subrange(0, base.len() as int) =~= base);
    assert(o2.subrange(0, o1.len() as int) =~= o1);
    assert(o3.subrange(0, o2.len() as int) =~= o2);
    assert(o4.subrange(0, o3.len() as int) =~= o3);
    assert(o5.subrange(0, o4.len() as int) =~= o4);
    assert(o6.subrange(0, o5.len() as int) =~= o5);
}

/// A search asks for what it was given: the query stands in the address, in the mode that was asked
/// for, and a collection confines it.
pub proof fn law_search_asks_for_the_query(base: Seq<char>, query: Seq<char>, p: SearchParams)
    ensures
        ({
            let url = search_url_text(base, query, p);
            &&& base.is_prefix_of(url)
            &&& stands_in("/items?q="@ + url_encoded(query), url)
            &&& p.everything ==> stands_in("&qmode="@ + "everything"@, url)
            &&& !p.everything ==> stands_in("&qmode="@ + "titleCreatorYear"@, url)
            &&& p.collection is Some ==> stands_in(
                "/collections/"@ + p.collection.unwrap()@,
                url,
            )
        }),
{
    let o1 = search_start(base, p);
    let o2 = search_mode(base, query, p);
    let o3 = search_kind(base, query, p);
    let o4 = search_limit(base, query, p);
    let o5 = search_tag(base, query, p);
    let url = search_url_text(base, query, p);
    lemma_search_steps(base, query, p);
    lemma_prefix_trans(o4, o5, url);
    lemma_prefix_trans(o3, o4, url);
    lemma_prefix_trans(o2, o3, url);
    lemma_prefix_trans(o1, o2, url);
    lemma_prefix_trans(base, o1, url);
    let enc = url_encoded(query);
    let place = match p.collection {
        Some(c) => base + "/collections/"@ + c@,
        None => base,
    };
    lemma_stands_last(place, "/items?q="@, enc);
    lemma_stands_last(o1 + enc, "&qmode="@, Seq::empty());
    assert((o1 + enc).is_prefix_of(o2)) by {
        assert(o2.subrange(0, (o1 + enc).len() as int) =~= o1 + enc);
    }
    lemma_prefix_trans(o1 + enc, o2, url);
    lemma_stands_longer("/items?q="@ + enc, o1 + enc, url);
    let mode = if p.everything {
        "everything"@
    } else {
        "titleCreatorYear"@
    };
    lemma_stands_last(o1 + enc, "&qmode="@, mode);
    lemma_stands_longer("&qmode="@ + mode, o2, url);
    if let Some(c) = p.collection {
        lemma_stands_last(base, "/collections/"@, c@);
        assert(place.is_prefix_of(o1)) by {
            assert(o1.subrange(0, place.len() as int) =~= place);
        }
        lemma_stands_longer("/collections/"@ + c@, place, o1);
        lemma_stands_longer("/collections/"@ + c@, o1, url);
    }
}

/// The item type, the limit and the tag of a search stand in its address; without a type, works alone
/// are asked for, and without a limit 25 of them.
pub proof fn law_search_asks_for_its_filters(base: Seq<char>, query: Seq<char>, p: SearchParams)
    ensures
        ({
            let url = search_url_text(base, query, p);
            &&& p.tag is Some ==> stands_in("&tag="@ + url_encoded(p.tag.unwrap()@), url)
            &&& p.item_type is Some ==> stands_in(
                "&itemType="@ + url_encoded(p.item_type.unwrap()@),
                url,
            )
            &&& p.item_type is None ==> stands_in(
                "&itemType=-attachment%20-note%20-annotation"@,
                url,
            )
            &&& p.limit is Some ==> stands_in("&limit="@ + decimal(p.limit.unwrap() as nat), url)
            &&& p.limit is None ==> stands_in("&limit="@ + decimal(25), url)
        }),
{
    let o2 = search_mode(base, query, p);
    let o3 = search_kind(base, query, p);
    let o4 = search_limit(base, query, p);
    let o5 = search_tag(base, query, p);
    let url = search_url_text(base, query, p);
    lemma_search_steps(base, query, p);
    lemma_prefix_trans(o4, o5, url);
    lemma_prefix_trans(o3, o4, url);
    if let Some(t) = p.tag {
        lemma_stands_last(o4, "&tag="@, url_encoded(t@));
        lemma_stands_longer("&tag="@ + url_encoded(t@), o5, url);
    }
    match p.item_type {
        Some(t) => {
            lemma_stands_last(o2, "&itemType="@, url_encoded(t@));
            lemma_stands_longer("&itemType="@ + url_encoded(t@), o3, url);
        },
        None => {
            lemma_stands_last(
                o2,
                "&itemType=-attachment%20-note%20-annotation"@,
                Seq::empty(),
            );
            lemma_stands_longer("&itemType=-attachment%20-note%20-annotation"@, o3, url);
        },
    }
    let n = match p.limit {
        Some(n) => n as nat,
        None => 25,
    };
    lemma_stands_last(o3, "&limit="@, decimal(n));
    lemma_stands_longer("&limit="@ + decimal(n), o4, url);
}

/// The order that a search asks for stands in its address, and so does its direction.
pub proof fn law_search_asks_for_its_order(base: Seq<char>, query: Seq<char>, p: SearchParams)
    ensures
        ({
            let url = search_url_text(base, query, p);
            &&& p.sort is Some ==> stands_in("&sort="@ + url_encoded(p.sort.unwrap()@), url)
            &&& p.sort is Some && p.desc ==> stands_in("&direction=desc"@, url)
        }),
{
    let o5 = search_tag(base, query, p);
    let url = search_url_text(base, query, p);
    if let Some(s) = p.sort {
        let o = o5 + "&sort="@ + url_encoded(s@);
        lemma_stands_last(o5, "&sort="@, url_encoded(s@));
        lemma_stands_last(o, "&direction=desc"@, Seq::empty());
        assert(o.is_prefix_of(url)) by {
            assert(url.subrange(0, o.len() as int) =~= o);
        }
        lemma_stands_longer("&sort="@ + url_encoded(s@), o, url);
    }
}

/// The path of a file is read from a redirect to a `file://` address and from no other answer.
pub proof fn law_path_comes_from_a_redirect(status: u16, location: Option<Seq<char>>)
    ensures
        redirected_path(status, location) is Some <==> status == 302 && location is Some
            && "file://"@.is_prefix_of(location.unwrap()),
{
}

proof fn lemma_last_dot(a: Seq<char>, ext: Seq<char>)
    requires
        !ext.contains('.'),
    ensures
        last_index_of(a.push('.') + ext, '.') == a.len(),
    decreases ext.len(),
{
    let s = a.push('.') + ext;
    if ext.len() == 0 {
        assert(s =~= a.push('.'));
    } else {
        let t = ext.drop_last();
        assert(ext.contains(ext[ext.len() - 1]));
        assert(!t.contains('.')) by {
            if t.contains('.') {
                let i = choose|i: int| 0 <= i < t.len() && t[i] == '.';
                assert(ext[i] == '.');
            }
        }
        lemma_last_dot(a, t);
        assert(s.drop_last() =~= a.push('.') + t);
    }
}

/// The type of a file goes by what stands behind its last dot, whatever its name is.
pub proof fn law_type_goes_by_extension(stem: Seq<char>, ext: Seq<char>)
    requires
        !ext.contains('.'),
    ensures
        extension(stem.push('.') + ext) == ext,
{
    let s = stem.push('.') + ext;
    lemma_last_dot(stem, ext);
    assert(s.skip(stem.len() as int + 1) =~= ext);
}

/// Every extension that is known has its own type, and every other the general one.
pub proof fn law_known_types(ext: Seq<char>)
    ensures
        type_of_extension("pdf"@) == "application/pdf"@,
        type_of_extension("epub"@) == "application/epub+zip"@,
        type_of_extension("html"@) == "text/html"@,
        type_of_extension("htm"@) == "text/html"@,
        type_of_extension("txt"@) == "text/plain"@,
        type_of_extension("md"@) == "text/plain"@,
        type_of_extension("png"@) == "image/png"@,
        type_of_extension("jpg"@) == "image/jpeg"@,
        type_of_extension("jpeg"@) == "image/jpeg"@,
        ext.len() > 4 || ext.len() < 2 ==> type_of_extension(ext) == "application/octet-stream"@,
{
    reveal_strlit("pdf");
    reveal_strlit("epub");
    reveal_strlit("html");
    reveal_strlit("htm");
    reveal_strlit("txt");
    reveal_strlit("md");
    reveal_strlit("png");
    reveal_strlit("jpg");
    reveal_strlit("jpeg");
    assert("pdf"@[0] == 'p' && "pdf"@[1] == 'd');
    assert("epub"@[0] == 'e');
    assert("html"@[0] == 'h' && "htm"@[0] == 'h');
    assert("txt"@[0] == 't' && "md"@[0] == 'm');
    assert("png"@[0] == 'p' && "png"@[1] == 'n');
    assert("jpg"@[0] == 'j' && "jpeg"@[0] == 'j');
}

/// The body for a new attachment says what it is, whose it is, what it is called and of what type.
pub proof fn law_attachment_body(
    key: Seq<char>,
    title: Seq<char>,
    content_type: Seq<char>,
    filename: Seq<char>,
)
    ensures
        ({
            let t = attachment_tree(key, title, content_type, filename);
            &&& t is Array && t->Array_0.len() == 1
            &&& ({
                let o = t->Array_0[0];
                &&& o.member_text("itemType"@) == Some("attachment"@)
                &&& o.member_text("linkMode"@) == Some("imported_file"@)
                &&& o.member_text("parentItem"@) == Some(key)
                &&& o.member_text("title"@) == Some(title)
                &&& o.member_text("contentType"@) == Some(content_type)
                &&& o.member_text("filename"@) == Some(filename)
            })
        }),
{
    reveal_strlit("itemType");
    reveal_strlit("linkMode");
    reveal_strlit("parentItem");
    reveal_strlit("title");
    reveal_strlit("contentType");
    reveal_strlit("filename");
    assert("itemType"@[0] == 'i' && "linkMode"@[0] == 'l' && "parentItem"@[0] == 'p' && "title"@[0]
        == 't' && "contentType"@[0] == 'c' && "filename"@[0] == 'f');
}

/// The key of what was created is read from the record that the server reports, or from the list of
/// keys where it reports none.
pub proof fn law_created_key(
    m: Map<Seq<char>, JsonTree>,
    whole: Map<Seq<char>, JsonTree>,
    record: Map<Seq<char>, JsonTree>,
    key: JsonTree,
)
    ensures
        m.contains_key("successful"@) && m["successful"@] == JsonTree::Object(whole)
            && whole.contains_key("0"@) && whole["0"@] == JsonTree::Object(record)
            && record.contains_key("key"@) && record["key"@] == key ==> created_key_value(
            JsonTree::Object(m),
        ) == Some(key),
        !m.contains_key("successful"@) && m.contains_key("success"@) && m["success"@]
            == JsonTree::Object(whole) && whole.contains_key("0"@) && whole["0"@] == key
            ==> created_key_value(JsonTree::Object(m)) == Some(key),
        !m.contains_key("successful"@) && !m.contains_key("success"@) ==> created_key_value(
            JsonTree::Object(m),
        ) is None,
{
}

/// An answer that reports any failure is no success, though its status is.
pub proof fn law_reported_failures_are_seen(
    m: Map<Seq<char>, JsonTree>,
    failed: Map<Seq<char>, JsonTree>,
    k: Seq<char>,
)
    requires
        m.contains_key("failed"@),
        m["failed"@] == JsonTree::Object(failed),
    ensures
        failed.contains_key(k) ==> rejected_items(JsonTree::Object(m)) is Some && failed_members(
            JsonTree::Object(m),
        ) == Some(failed),
        failed == Map::<Seq<char>, JsonTree>::empty() ==> rejected_items(JsonTree::Object(m)) is None
            && failed_members(JsonTree::Object(m)) is None,
{
    if failed.contains_key(k) {
        assert(!crate::json::no_members().contains_key(k));
    }
}

/// The user ID is the number that the server gives, and no answer without one is taken.
pub proof fn law_user_id(status: u16, shown: Seq<char>, t: JsonTree, id: u64)
    ensures
        user_of(status, shown, Ok(t)) == Ok::<u64, Seq<char>>(id) <==> 200 <= status < 300
            && t.member_natural("userID"@) == Some(id),
{
}

/// A digest is written with two hexadecimal digits for each byte.
pub proof fn law_hex_digits(bytes: Seq<u8>, i: int)
    requires
        0 <= i < bytes.len(),
    ensures
        hex_text(bytes).len() == 2 * bytes.len(),
        ({
            let high = bytes[i] as int / 16;
            let low = bytes[i] as int % 16;
            let digits = "0123456789abcdef"@;
            &&& hex_text(bytes)[2 * i] == digits[high]
            &&& hex_text(bytes)[2 * i + 1] == digits[low]
        }),
    decreases bytes.len(),
{
    reveal_strlit("0123456789abcdef");
    let t = bytes.drop_last();
    let head = hex_text(t);
    let all = hex_text(bytes);
    if t.len() > 0 {
        law_hex_digits(t, if i < t.len() { i } else { 0 });
    } else {
        assert(head =~= Seq::empty());
    }
    if i < t.len() {
        assert(all[2 * i] == head[2 * i]);
        assert(all[2 * i + 1] == head[2 * i + 1]);
        assert(t[i] == bytes[i]);
    } else {
        assert(all[2 * i] == crate::api::webapi::lower_hex(bytes[i] as int / 16));
        assert(all[2 * i + 1] == crate::api::webapi::lower_hex(bytes[i] as int % 16));
    }
}

proof fn lemma_ascii_column(s: Seq<char>, n: int)
    requires
        all_ascii(s),
        0 <= n <= s.len(),
    ensures
        column(s, n) == Some(n),
    decreases n,
{
    if n > 0 {
        let t = s.drop_first();
        assert(s[0] as u32 <= 127);
        assert(width(s[0]) == 1);
        assert(all_ascii(t)) by {
            assert forall|i: int| 0 <= i < t.len() implies (#[trigger] t[i]) as u32 <= 127 by {
                assert(t[i] == s[i + 1]);
            }
        }
        lemma_ascii_column(t, n - 1);
    }
}

proof fn lemma_ascii_bytes(s: Seq<char>)
    requires
        all_ascii(s),
    ensures
        byte_len(s) == s.len(),
    decreases s.len(),
{
    if s.len() > 0 {
        let t = s.drop_last();
        assert(s[s.len() - 1] as u32 <= 127);
        assert(all_ascii(t)) by {
            assert forall|i: int| 0 <= i < t.len() implies (#[trigger] t[i]) as u32 <= 127 by {
                assert(t[i] == s[i]);
            }
        }
        lemma_ascii_bytes(t);
    }
}

/// Of a key only the first and the last three characters are shown, and of a short one nothing.
pub proof fn law_key_is_masked(key: Seq<char>)
    requires
        all_ascii(key),
    ensures
        key.len() > 6 ==> masked(key) == key.take(3) + "..."@ + key.skip(key.len() - 3),
        key.len() <= 6 ==> masked(key) == "***"@,
{
    lemma_ascii_bytes(key);
    if key.len() > 6 {
        lemma_ascii_column(key, 3);
        lemma_ascii_column(key, key.len() - 3);
    }
}

/// An answer says that Zotero can look for a PDF's metadata only by saying so in words.
pub proof fn law_recognizable(m: Map<Seq<char>, JsonTree>)
    ensures
        says_recognizable(JsonTree::Object(m)) <==> m.contains_key("canRecognize"@)
            && m["canRecognize"@] == JsonTree::Bool(true),
        !says_recognizable(JsonTree::Null),
{
}

/// A text that is given is set under its key, and where none is given nothing is.
pub proof fn law_texts_are_set(
    m: Map<Seq<char>, JsonTree>,
    key: Seq<char>,
    value: Option<Seq<char>>,
    other: Seq<char>,
)
    ensures
        value is Some ==> with_text(m, key, value).contains_key(key) && with_text(m, key, value)[key]
            == JsonTree::Text(value.unwrap()),
        other != key || value is None ==> with_text(m, key, value).contains_key(other)
            == m.contains_key(other) && (m.contains_key(other) ==> with_text(m, key, value)[other]
            == m[other]),
{
}

/// Only a refusal of the local API stops a command at its start, and it is told apart whether the API
/// is switched off.
pub proof fn law_probe(status: u16, body: Seq<char>)
    ensures
        probe_verdict(status, body) is None <==> status != 403,
{
}

/// The title of the item that a file is attached to is read from its data.
pub proof fn law_parent_title(m: Map<Seq<char>, JsonTree>, d: Map<Seq<char>, JsonTree>, t: Seq<char>)
    requires
        m.contains_key("data"@) && m["data"@] == JsonTree::Object(d),
        d.contains_key("title"@) && d["title"@] == JsonTree::Text(t),
    ensures
        title_in(JsonTree::Object(m)) == t,
{
}

/// The body for a new collection carries its name, and its parent's key or that it has none.
pub proof fn law_collection_body(name: Seq<char>, parent: Option<Seq<char>>)
    ensures
        ({
            let t = collection_body_tree(name, parent);
            &&& t is Array && t->Array_0.len() == 1
            &&& t->Array_0[0].member_text("name"@) == Some(name)
            &&& parent is Some ==> t->Array_0[0].member_text("parentCollection"@) == parent
            &&& parent is None ==> t->Array_0[0].member("parentCollection"@) == Some(
                JsonTree::Bool(false),
            )
        }),
{
    reveal_strlit("name");
    reveal_strlit("parentCollection");
    assert("name"@.len() != "parentCollection"@.len());
}

/// Where a file has to be sent, what is sent is the file between what the server asks to put before
/// and behind it, and a file that the server has is not sent.
pub proof fn law_upload_sends_the_file(step: UploadStep, auth: JsonTree, bytes: Seq<u8>)
    requires
        is_upload_step(step, auth, bytes),
    ensures
        step is Stored <==> auth.member_natural("exists"@) == Some(1u64),
        match step {
            UploadStep::Send { url, content_type, payload, upload_key } => {
                let p = match auth.member_text("prefix"@) {
                    Some(t) => encode_utf8(t),
                    None => Seq::empty(),
                };
                &&& payload@.len() >= p.len() + bytes.len()
                &&& payload@.subrange(p.len() as int, (p.len() + bytes.len()) as int) == bytes
                &&& auth.member_text("url"@) == Some(url@)
            },
            UploadStep::Stored => true,
        },
{
    if let UploadStep::Send { url, content_type, payload, upload_key } = step {
        assert(encode_utf8(Seq::<char>::empty()) =~= Seq::<u8>::empty());
        let p = match auth.member_text("prefix"@) {
            Some(t) => encode_utf8(t),
            None => Seq::empty(),
        };
        assert(payload@.subrange(p.len() as int, (p.len() + bytes.len()) as int) =~= bytes);
    }
}

} // verus!
