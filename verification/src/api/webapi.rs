//! The Zotero web API (api.zotero.org), used only by the commands that write.
//!
//! Reads remain local. Requests are sent elsewhere; what they carry and what their answers mean is
//! decided here. An answer arrives as its status code, the text that the status is shown as, and
//! its body.
use crate::api::fetch::is_success;
use crate::api::fetch::success;
use crate::failure::text_result;
use crate::failure::Failure;
use crate::json::array_value;
use crate::json::bool_value;
use crate::json::compact;
use crate::json::json_compact;
use crate::json::json_members;
use crate::json::json_parsed;
use crate::json::json_tree;
use crate::json::json_trees;
use crate::json::member;
use crate::json::member_keys;
use crate::json::member_natural;
use crate::json::member_text;
use crate::json::members;
use crate::json::new_object;
use crate::json::no_members;
use crate::json::object_value;
use crate::json::opt_str;
use crate::json::parse_json;
use crate::json::set_member;
use crate::json::text_value;
use crate::json::JsonTree;
use crate::output::shortened;
use crate::output::truncate_display;
use crate::percent::url_encode;
use crate::percent::url_encoded;
use crate::text::chars_of;
use crate::text::concat2;
use crate::text::concat3;
use crate::text::concat4;
use crate::text::decimal;
use crate::text::decimal_text;
use crate::text::natural_of;
use crate::text::opt_text;
use crate::text::parse_natural;
use crate::text::push_decimal;
use crate::text::string_of;
use crate::text::text_le;
use crate::text::texts;
use crate::text::trim;
use crate::text::trimmed;
use md5::Digest;
use md5::Md5;
use vstd::prelude::*;
use vstd::utf8::encode_utf8;

verus! {

/// An update refused because the item changed between the read and the write, so nothing was
/// written.
///
/// Typed rather than a plain message, because the remedy depends on the command: re-running is
/// right for `zot edit`, but would add a second item under `zot add`. Its message is the `zot edit`
/// wording.
#[derive(Debug)]
pub struct VersionConflict {
    pub key: String,
    /// Version the update was computed from.
    pub read_version: u64,
}

impl VersionConflict {
    /// The message shown to the user.
    pub fn message(&self) -> (r: String)
        ensures
            r@ == "Item "@ + self.key@
                + " changed on api.zotero.org since it was read at version "@ + decimal(
                self.read_version as nat,
            )
                + ", so nothing was written.\n  Writing now would drop that other change -- re-run the same command to apply yours on top of it."@,
    {
        let mut out = concat3(
            "Item ",
            self.key.as_str(),
            " changed on api.zotero.org since it was read at version ",
        );
        push_decimal(&mut out, self.read_version);
        out.push_str(
            ", so nothing was written.\n  Writing now would drop that other change -- re-run the same command to apply yours on top of it.",
        );
        out
    }
}

/// The error when no API key is set.
pub fn no_api_key() -> (r: Failure)
    ensures
        r@
            == "No Zotero API key configured.\n  This command writes via the Zotero web API (the local API is read-only).\n  Create a write-enabled key at https://www.zotero.org/settings/keys\n  then run: zot config set-key <KEY>"@,
{
    Failure {
        message:
            "No Zotero API key configured.\n  This command writes via the Zotero web API (the local API is read-only).\n  Create a write-enabled key at https://www.zotero.org/settings/keys\n  then run: zot config set-key <KEY>".to_string(),
    }
}

/// What an answer says of the account that an API key belongs to, given what its body was parsed
/// as.
pub open spec fn user_of(status: u16, shown: Seq<char>, answer: Result<JsonTree, Seq<char>>) -> Result<
    u64,
    Seq<char>,
> {
    if !is_success(status) {
        Err(
            "API key rejected by api.zotero.org (status "@ + shown
                + "). Check the key with: zot config show"@,
        )
    } else {
        match answer {
            Ok(t) => match t.member_natural("userID"@) {
                Some(id) => Ok(id),
                None => Err("No userID in /keys/current response"@),
            },
            Err(fault) => Err(
                "Failed to parse /keys/current: error decoding response body: "@ + fault,
            ),
        }
    }
}

/// The user ID in the answer about an API key.
pub fn read_user_id(status: u16, shown: &str, body: &str) -> (r: Result<u64, Failure>)
    ensures
        match r {
            Ok(id) => user_of(status, shown@, json_parsed(body@)) == Ok::<u64, Seq<char>>(id),
            Err(e) => user_of(status, shown@, json_parsed(body@)) == Err::<u64, Seq<char>>(e@),
        },
{
    if !success(status) {
        return Err(
            Failure {
                message: concat3(
                    "API key rejected by api.zotero.org (status ",
                    shown,
                    "). Check the key with: zot config show",
                ),
            },
        );
    }
    match parse_json(body) {
        Ok(v) => user_id_in(&v),
        Err(fault) => Err(
            Failure {
                message: concat2(
                    "Failed to parse /keys/current: error decoding response body: ",
                    fault.as_str(),
                ),
            },
        ),
    }
}

/// The user ID in a parsed answer about an API key.
pub fn user_id_in(answer: &serde_json::Value) -> (r: Result<u64, Failure>)
    ensures
        match r {
            Ok(id) => json_tree(*answer).member_natural("userID"@) == Some(id),
            Err(e) => json_tree(*answer).member_natural("userID"@) is None && e@
                == "No userID in /keys/current response"@,
        },
{
    match member_natural(answer, "userID") {
        Some(id) => Ok(id),
        None => Err(Failure { message: "No userID in /keys/current response".to_string() }),
    }
}

/// Where a user's items are, or one of them where the suffix names it.
pub fn items_url(user_id: u64, suffix: &str) -> (r: String)
    ensures
        r@ == "https://api.zotero.org/users/"@ + decimal(user_id as nat) + "/items"@ + suffix@,
{
    concat4(
        "https://api.zotero.org/users/",
        decimal_text(user_id).as_str(),
        "/items",
        suffix,
    )
}

/// Where a user's collections are.
pub fn collections_url(user_id: u64) -> (r: String)
    ensures
        r@ == "https://api.zotero.org/users/"@ + decimal(user_id as nat) + "/collections"@,
{
    concat3("https://api.zotero.org/users/", decimal_text(user_id).as_str(), "/collections")
}

/// Where one of a user's collections is.
pub fn collection_url(user_id: u64, key: &str) -> (r: String)
    ensures
        r@ == "https://api.zotero.org/users/"@ + decimal(user_id as nat) + "/collections"@ + "/"@
            + key@,
{
    concat3(collections_url(user_id).as_str(), "/", key)
}

/// What an answer to a request for a collection means: only a success carries it.
pub fn check_collection(status: u16, shown: &str, key: &str) -> (r: Result<(), Failure>)
    ensures
        match r {
            Ok(_) => is_success(status),
            Err(e) => !is_success(status) && e@ == "Web API returned "@ + shown@
                + " fetching collection "@ + key@,
        },
{
    if success(status) {
        return Ok(());
    }
    Err(Failure { message: concat4("Web API returned ", shown, " fetching collection ", key) })
}

/// What became of a deletion.
#[derive(Debug)]
pub enum DeleteAnswer {
    /// The collection is gone.
    Deleted,
    /// The collection had changed in the meantime.
    Conflict(VersionConflict),
    Refused(Failure),
}

/// What an answer to the deletion of a collection means.
pub fn read_collection_deletion(
    status: u16,
    shown: &str,
    body: &str,
    key: &str,
    version: u64,
) -> (r: DeleteAnswer)
    ensures
        match r {
            DeleteAnswer::Deleted => is_success(status),
            DeleteAnswer::Conflict(c) => status == 412 && c.key@ == key@ && c.read_version
                == version,
            DeleteAnswer::Refused(e) => !is_success(status) && status != 412 && e@
                == "Web API DELETE failed (status "@ + shown@ + "): "@ + trimmed(body@),
        },
{
    if success(status) {
        return DeleteAnswer::Deleted;
    }
    if status == 412 {
        return DeleteAnswer::Conflict(
            VersionConflict { key: key.to_string(), read_version: version },
        );
    }
    DeleteAnswer::Refused(
        Failure {
            message: concat4(
                "Web API DELETE failed (status ",
                shown,
                "): ",
                trimmed_text(body).as_str(),
            ),
        },
    )
}

/// What an answer to a request for an item means: whether the item is there. Only its absence is
/// worth waiting for; anything else that is no success is an error.
pub fn read_item_status(status: u16, shown: &str, key: &str) -> (r: Result<bool, Failure>)
    ensures
        match r {
            Ok(there) => there == (status != 404) && (status == 404 || is_success(status)),
            Err(e) => status != 404 && !is_success(status) && e@ == "Web API returned "@ + shown@
                + " fetching "@ + key@,
        },
{
    if status == 404 {
        return Ok(false);
    }
    if !success(status) {
        return Err(Failure { message: concat4("Web API returned ", shown, " fetching ", key) });
    }
    Ok(true)
}

/// The error for an item that api.zotero.org does not have.
pub fn item_not_found(key: &str) -> (r: Failure)
    ensures
        r@ == "Item "@ + key@
            + " not found on api.zotero.org.\n  If it exists locally, it may not have synced up yet -- sync Zotero and retry."@,
{
    Failure {
        message: concat3(
            "Item ",
            key,
            " not found on api.zotero.org.\n  If it exists locally, it may not have synced up yet -- sync Zotero and retry.",
        ),
    }
}

/// The version of an item, from the server's answer.
pub fn item_version(item: &serde_json::Value) -> (r: Result<u64, Failure>)
    ensures
        match r {
            Ok(v) => json_tree(*item).member_natural("version"@) == Some(v),
            Err(e) => json_tree(*item).member_natural("version"@) is None && e@
                == "No version on item"@,
        },
{
    match member_natural(item, "version") {
        Some(v) => Ok(v),
        None => Err(Failure { message: "No version on item".to_string() }),
    }
}

/// What became of an update.
#[derive(Debug)]
pub enum PatchAnswer {
    /// It was written; the item has this version now.
    Written(u64),
    /// The item had changed in the meantime.
    Conflict(VersionConflict),
    Refused(Failure),
}

/// What an answer to an update means. `header` is the version the server reports, where it does;
/// otherwise the version is taken to have grown by one.
pub fn read_patch_answer(
    status: u16,
    shown: &str,
    header: Option<&str>,
    body: &str,
    key: &str,
    sent_version: u64,
) -> (r: PatchAnswer)
    requires
        sent_version < u64::MAX,
    ensures
        match r {
            PatchAnswer::Written(v) => is_success(status) && v == match opt_str(header) {
                Some(h) => match natural_of(h) {
                    Some(n) => n as int,
                    None => sent_version + 1,
                },
                None => sent_version + 1,
            },
            PatchAnswer::Conflict(c) => status == 412 && c.key@ == key@ && c.read_version
                == sent_version,
            PatchAnswer::Refused(e) => !is_success(status) && status != 412 && e@
                == "Web API PATCH failed (status "@ + shown@ + "): "@ + trimmed(body@),
        },
{
    if success(status) {
        let reported = match header {
            Some(h) => parse_natural(h),
            None => None,
        };
        return PatchAnswer::Written(
            match reported {
                Some(v) => v,
                None => sent_version + 1,
            },
        );
    }
    if status == 412 {
        return PatchAnswer::Conflict(
            VersionConflict { key: key.to_string(), read_version: sent_version },
        );
    }
    PatchAnswer::Refused(
        Failure {
            message: concat4(
                "Web API PATCH failed (status ",
                shown,
                "): ",
                trimmed_text(body).as_str(),
            ),
        },
    )
}

/// A text without surrounding whitespace.
pub fn trimmed_text(s: &str) -> (r: String)
    ensures
        r@ == trimmed(s@),
{
    let chars = chars_of(s);
    string_of(trim(chars.as_slice()))
}

/// What the server rejected, where it rejected anything.
pub open spec fn rejected_items(answer: JsonTree) -> Option<JsonTree> {
    match answer.member("failed"@) {
        Some(JsonTree::Object(m)) => if m == no_members() {
            None
        } else {
            Some(JsonTree::Object(m))
        },
        _ => None,
    }
}

/// Failures per item come back inside an answer that reports success; this turns them into an
/// error.
pub fn check_created_items(answer: &serde_json::Value) -> (r: Result<(), Failure>)
    ensures
        match r {
            Ok(_) => rejected_items(json_tree(*answer)) is None,
            Err(e) => rejected_items(json_tree(*answer)) is Some && e@
                == "Web API rejected item(s): "@ + json_compact(
                rejected_items(json_tree(*answer)).unwrap(),
            ),
        },
{
    if let Some(failed) = member(answer, "failed") {
        if let Some(m) = members(failed) {
            let keys = member_keys(&m);
            if keys.len() > 0 {
                assert(texts(keys@).contains(texts(keys@)[0]));
                return Err(
                    Failure {
                        message: concat2("Web API rejected item(s): ", compact(failed).as_str()),
                    },
                );
            }
            assert forall|k: Seq<char>| !json_members(m).contains_key(k) by {
                assert(!texts(keys@).contains(k));
            }
            assert(json_members(m) =~= no_members());
        }
    }
    Ok(())
}

/// The body of a request to create a collection: a list of one, since Zotero's write endpoints
/// only take batches.
pub open spec fn collection_body_tree(name: Seq<char>, parent: Option<Seq<char>>) -> JsonTree {
    JsonTree::Array(
        seq![
            JsonTree::Object(
                no_members().insert("name"@, JsonTree::Text(name)).insert(
                    "parentCollection"@,
                    match parent {
                        Some(key) => JsonTree::Text(key),
                        None => JsonTree::Bool(false),
                    },
                ),
            ),
        ],
    )
}

/// The body of a request to create one collection below a parent, or at the top level.
pub fn collection_body(name: &str, parent: Option<&str>) -> (r: serde_json::Value)
    ensures
        json_tree(r) == collection_body_tree(name@, opt_str(parent)),
{
    let mut m = new_object();
    set_member(&mut m, "name".to_string(), text_value(name));
    let place = match parent {
        Some(key) => text_value(key),
        None => bool_value(false),
    };
    set_member(&mut m, "parentCollection".to_string(), place);
    let one = object_value(m);
    let ghost tree = json_tree(one);
    let mut list: Vec<serde_json::Value> = Vec::new();
    list.push(one);
    assert(json_trees(list@) =~= seq![tree]);
    array_value(list)
}

/// The entry under `0` of an object or a list.
pub open spec fn entry_zero(t: JsonTree) -> Option<JsonTree> {
    match t {
        JsonTree::Array(s) => if s.len() > 0 {
            Some(s[0])
        } else {
            None
        },
        _ => t.member("0"@),
    }
}

fn zeroth<'a>(v: &'a serde_json::Value) -> (r: Option<&'a serde_json::Value>)
    ensures
        match r {
            Some(x) => entry_zero(json_tree(*v)) == Some(json_tree(*x)),
            None => entry_zero(json_tree(*v)) is None,
        },
{
    match v.as_array() {
        Some(items) => if items.len() > 0 {
            assert(json_trees(items@)[0] == json_tree(items@[0]));
            Some(&items[0])
        } else {
            None
        },
        None => member(v, "0"),
    }
}

/// What names the created collection: `successful` carries the whole object, `success` only the
/// key; either alone is enough.
pub open spec fn created_key_value(answer: JsonTree) -> Option<JsonTree> {
    let whole = match answer.member("successful"@) {
        Some(t) => match entry_zero(t) {
            Some(o) => o.member("key"@),
            None => None,
        },
        None => None,
    };
    match whole {
        Some(k) => Some(k),
        None => match answer.member("success"@) {
            Some(t) => entry_zero(t),
            None => None,
        },
    }
}

/// Finds what names the created object.
pub fn created_value<'a>(answer: &'a serde_json::Value) -> (r: Option<&'a serde_json::Value>)
    ensures
        match r {
            Some(k) => created_key_value(json_tree(*answer)) == Some(json_tree(*k)),
            None => created_key_value(json_tree(*answer)) is None,
        },
{
    let whole = match member(answer, "successful") {
        Some(t) => match zeroth(t) {
            Some(o) => member(o, "key"),
            None => None,
        },
        None => None,
    };
    match whole {
        Some(k) => Some(k),
        None => match member(answer, "success") {
            Some(t) => zeroth(t),
            None => None,
        },
    }
}

/// The smallest key of some members.
pub open spec fn is_first_key(m: Map<Seq<char>, JsonTree>, k: Seq<char>) -> bool {
    m.contains_key(k) && forall|other: Seq<char>| #[trigger]
        m.contains_key(other) ==> text_le(k, other)
}

/// The members that a write reports as failed, where there are any.
pub open spec fn failed_members(answer: JsonTree) -> Option<Map<Seq<char>, JsonTree>> {
    match answer.member("failed"@) {
        Some(JsonTree::Object(m)) => if m == no_members() {
            None
        } else {
            Some(m)
        },
        _ => None,
    }
}

/// The error for a rejected collection.
pub open spec fn rejection(index: Seq<char>, failure: JsonTree) -> Seq<char> {
    let message = match failure.member_text("message"@) {
        Some(m) => m,
        None => "no message given"@,
    };
    match failure.member_natural("code"@) {
        Some(code) => "Zotero rejected the collection (code "@ + decimal(code as nat) + "): "@
            + message,
        None => "Zotero rejected the collection (index "@ + index + "): "@ + message,
    }
}

/// The error for the first of the members that failed.
pub open spec fn is_rejection(m: Map<Seq<char>, JsonTree>, message: Seq<char>) -> bool {
    exists|k: Seq<char>| #[trigger] is_first_key(m, k) && message == rejection(k, m[k])
}

/// Pulls the created collection's key out of the answer to a write.
///
/// Zotero answers a write with success and a verdict per object, so a rejected object arrives
/// looking like a success and has to be turned back into an error here. Only one collection is ever
/// sent, hence index `0`.
pub fn created_collection_key(answer: &serde_json::Value) -> (r: Result<String, Failure>)
    ensures
        ({
            let t = json_tree(*answer);
            match failed_members(t) {
                Some(m) => r is Err && is_rejection(m, r->Err_0@),
                None => match created_key_value(t) {
                    Some(JsonTree::Text(key)) => r is Ok && r.unwrap()@ == key,
                    _ => r is Err && r->Err_0@
                        == "Zotero reported neither a created collection nor a failure: "@
                        + shortened(json_compact(t), 300),
                },
            }
        }),
{
    if let Some(failed) = member(answer, "failed") {
        if let Some(m) = members(failed) {
            let keys = member_keys(&m);
            let ghost all = texts(keys@);
            if keys.len() > 0 {
                let index = &keys[0];
                assert(all[0] == index@);
                assert(all.contains(all[0]));
                proof {
                    assert forall|other: Seq<char>| #[trigger]
                        json_members(m).contains_key(other) implies text_le(index@, other) by {
                        assert(all.contains(other));
                        let j = choose|j: int| 0 <= j < all.len() && all[j] == other;
                        if j > 0 {
                            assert(text_le(all[0], all[j]));
                        } else {
                            crate::text::lemma_text_le_refl(index@);
                        }
                    }
                    assert(is_first_key(json_members(m), index@));
                    assert(!no_members().contains_key(index@));
                }
                if let Some(failure) = member(failed, index.as_str()) {
                    let message = match member_text(failure, "message") {
                        Some(m) => m,
                        None => "no message given",
                    };
                    let text = match member_natural(failure, "code") {
                        Some(code) => concat4(
                            "Zotero rejected the collection (code ",
                            decimal_text(code).as_str(),
                            "): ",
                            message,
                        ),
                        None => concat4(
                            "Zotero rejected the collection (index ",
                            index.as_str(),
                            "): ",
                            message,
                        ),
                    };
                    assert(failed_members(json_tree(*answer)) == Some(json_members(m)));
                    assert(is_first_key(json_members(m), index@) && text@ == rejection(
                        index@,
                        json_members(m)[index@],
                    ));
                    return Err(Failure { message: text });
                }
            }
            assert forall|k: Seq<char>| !json_members(m).contains_key(k) by {
                assert(!all.contains(k));
            }
            assert(json_members(m) =~= no_members());
        }
    }
    if let Some(k) = created_value(answer) {
        if let Some(key) = k.as_str() {
            return Ok(key.to_string());
        }
    }
    let shown = truncate_display(compact(answer).as_str(), 300);
    Err(
        Failure {
            message: concat2(
                "Zotero reported neither a created collection nor a failure: ",
                shown.as_str(),
            ),
        },
    )
}

/// What an answer to a creation means, before its verdict is read: what it was parsed as, or the
/// error for what was to be created.
pub open spec fn creation_answer(
    what: Seq<char>,
    response: Seq<char>,
    status: u16,
    shown: Seq<char>,
    body: Seq<char>,
) -> Result<JsonTree, Seq<char>> {
    if !is_success(status) {
        Err("Web API "@ + what + " creation failed (status "@ + shown + "): "@ + trimmed(body))
    } else {
        match json_parsed(body) {
            Ok(t) => Ok(t),
            Err(fault) => Err("Failed to parse "@ + response + ": "@ + fault),
        }
    }
}

/// The view of an answer that was read.
pub open spec fn answer_view(r: Result<serde_json::Value, Failure>) -> Result<JsonTree, Seq<char>> {
    match r {
        Ok(v) => Ok(json_tree(v)),
        Err(e) => Err(e@),
    }
}

fn read_answer(what: &str, response: &str, status: u16, shown: &str, body: &str) -> (r: Result<
    serde_json::Value,
    Failure,
>)
    ensures
        answer_view(r) == creation_answer(what@, response@, status, shown@, body@),
{
    if !success(status) {
        let mut message = concat4("Web API ", what, " creation failed (status ", shown);
        message.push_str("): ");
        message.push_str(trimmed_text(body).as_str());
        return Err(Failure { message });
    }
    match parse_json(body) {
        Ok(v) => Ok(v),
        Err(fault) => Err(
            Failure { message: concat4("Failed to parse ", response, ": ", fault.as_str()) },
        ),
    }
}

/// Reads the answer to the creation of a collection, before its verdict is read.
pub fn read_creation(status: u16, shown: &str, body: &str) -> (r: Result<
    serde_json::Value,
    Failure,
>)
    ensures
        answer_view(r) == creation_answer(
            "collection"@,
            "collection creation response"@,
            status,
            shown@,
            body@,
        ),
{
    read_answer("collection", "collection creation response", status, shown, body)
}

/// What an answer to the creation of items means. Items that were rejected come back inside a
/// success.
pub open spec fn items_creation(status: u16, shown: Seq<char>, body: Seq<char>) -> Result<
    JsonTree,
    Seq<char>,
> {
    match creation_answer("item"@, "creation response"@, status, shown, body) {
        Ok(t) => match rejected_items(t) {
            Some(failed) => Err("Web API rejected item(s): "@ + json_compact(failed)),
            None => Ok(t),
        },
        Err(message) => Err(message),
    }
}

/// Reads the answer to the creation of items.
pub fn read_items_creation(status: u16, shown: &str, body: &str) -> (r: Result<
    serde_json::Value,
    Failure,
>)
    ensures
        answer_view(r) == items_creation(status, shown@, body@),
{
    let answer = match read_answer("item", "creation response", status, shown, body) {
        Ok(v) => v,
        Err(e) => {
            return Err(e);
        },
    };
    match check_created_items(&answer) {
        Ok(_) => Ok(answer),
        Err(e) => Err(e),
    }
}

/// The MD5 digest of some bytes.
pub uninterp spec fn md5_of(bytes: Seq<u8>) -> Seq<u8>;

/// `md5::Md5::digest`: sixteen bytes, a function of the bytes, named `md5_of`.
#[verifier::external_body]
fn md5_digest(bytes: &[u8]) -> (r: Vec<u8>)
    ensures
        r@ == md5_of(bytes@),
        r@.len() == 16,
{
    Md5::digest(bytes).to_vec()
}

/// The lower-case hexadecimal digit for a number below sixteen.
pub open spec fn lower_hex(n: int) -> char {
    if n < 10 {
        ((48 + n) as u8) as char
    } else {
        ((87 + n) as u8) as char
    }
}

/// Bytes as two lower-case hexadecimal digits each.
pub open spec fn hex_text(bytes: Seq<u8>) -> Seq<char>
    decreases bytes.len(),
{
    if bytes.len() == 0 {
        Seq::empty()
    } else {
        hex_text(bytes.drop_last()).push(lower_hex(bytes.last() as int / 16)).push(
            lower_hex(bytes.last() as int % 16),
        )
    }
}

fn hex_digit(n: u8) -> (r: char)
    requires
        n < 16,
    ensures
        r == lower_hex(n as int),
{
    if n < 10 {
        (48 + n) as char
    } else {
        (87 + n) as char
    }
}

/// Bytes as two lower-case hexadecimal digits each.
pub fn hex(bytes: &[u8]) -> (r: String)
    ensures
        r@ == hex_text(bytes@),
{
    let mut out = String::new();
    let mut i: usize = 0;
    while i < bytes.len()
        invariant
            i <= bytes.len(),
            out@ == hex_text(bytes@.take(i as int)),
        decreases bytes.len() - i,
    {
        assert(bytes@.take(i as int + 1).drop_last() =~= bytes@.take(i as int));
        out.push(hex_digit(bytes[i] / 16));
        out.push(hex_digit(bytes[i] % 16));
        i += 1;
    }
    assert(bytes@.take(bytes@.len() as int) =~= bytes@);
    out
}

/// The form that asks for leave to upload a file.
pub fn upload_form(bytes: &[u8], filename: &str, mtime_ms: u64) -> (r: String)
    ensures
        r@ == "md5="@ + hex_text(md5_of(bytes@)) + "&filename="@ + url_encoded(filename@)
            + "&filesize="@ + decimal(bytes@.len()) + "&mtime="@ + decimal(mtime_ms as nat),
{
    let digest = md5_digest(bytes);
    form_for_digest(digest.as_slice(), filename, bytes.len() as u64, mtime_ms)
}

/// The form that asks for leave to upload a file with this digest and size.
pub fn form_for_digest(digest: &[u8], filename: &str, size: u64, mtime_ms: u64) -> (r: String)
    ensures
        r@ == "md5="@ + hex_text(digest@) + "&filename="@ + url_encoded(filename@) + "&filesize="@
            + decimal(size as nat) + "&mtime="@ + decimal(mtime_ms as nat),
{
    let mut out = concat4(
        "md5=",
        hex(digest).as_str(),
        "&filename=",
        url_encode(filename).as_str(),
    );
    out.push_str("&filesize=");
    push_decimal(&mut out, size);
    out.push_str("&mtime=");
    push_decimal(&mut out, mtime_ms);
    out
}

/// What to do once an upload is authorised.
#[derive(Debug)]
pub enum UploadStep {
    /// An identical file is already stored.
    Stored,
    /// Send the payload there, then register the upload under the key, where one was given.
    Send { url: String, content_type: String, payload: Vec<u8>, upload_key: Option<String> },
}

/// What leave to upload a file means.
pub open spec fn is_upload_step(step: UploadStep, auth: JsonTree, bytes: Seq<u8>) -> bool {
    match step {
        UploadStep::Stored => auth.member_natural("exists"@) == Some(1u64),
        UploadStep::Send { url, content_type, payload, upload_key } => {
            &&& auth.member_natural("exists"@) != Some(1u64)
            &&& auth.member_text("url"@) == Some(url@)
            &&& content_type@ == match auth.member_text("contentType"@) {
                Some(t) => t,
                None => "application/octet-stream"@,
            }
            &&& payload@ == encode_utf8(or_empty(auth.member_text("prefix"@))) + bytes
                + encode_utf8(or_empty(auth.member_text("suffix"@)))
            &&& opt_text(upload_key) == auth.member_text("uploadKey"@)
        },
    }
}

/// A text, or an empty one in its place.
pub open spec fn or_empty(s: Option<Seq<char>>) -> Seq<char> {
    match s {
        Some(t) => t,
        None => Seq::empty(),
    }
}

/// Reads the leave to upload a file: whether it is stored already, else what is sent where.
pub fn upload_step(auth: &serde_json::Value, bytes: &[u8]) -> (r: Result<UploadStep, Failure>)
    ensures
        match r {
            Ok(step) => is_upload_step(step, json_tree(*auth), bytes@),
            Err(e) => json_tree(*auth).member_natural("exists"@) != Some(1u64) && json_tree(
                *auth,
            ).member_text("url"@) is None && e@ == "No upload URL in authorization"@,
        },
{
    if let Some(n) = member_natural(auth, "exists") {
        if n == 1 {
            return Ok(UploadStep::Stored);
        }
    }
    let url = match member_text(auth, "url") {
        Some(url) => url.to_string(),
        None => {
            return Err(Failure { message: "No upload URL in authorization".to_string() });
        },
    };
    let content_type = match member_text(auth, "contentType") {
        Some(t) => t.to_string(),
        None => "application/octet-stream".to_string(),
    };
    let mut payload: Vec<u8> = Vec::new();
    if let Some(prefix) = member_text(auth, "prefix") {
        push_bytes(&mut payload, prefix.as_bytes());
    }
    let ghost start = encode_utf8(or_empty(json_tree(*auth).member_text("prefix"@)));
    assert(payload@ =~= start);
    push_bytes(&mut payload, bytes);
    let ghost middle = payload@;
    if let Some(suffix) = member_text(auth, "suffix") {
        push_bytes(&mut payload, suffix.as_bytes());
    }
    assert(payload@ =~= middle + encode_utf8(
        or_empty(json_tree(*auth).member_text("suffix"@)),
    ));
    let upload_key = match member_text(auth, "uploadKey") {
        Some(k) => Some(k.to_string()),
        None => None,
    };
    Ok(UploadStep::Send { url, content_type, payload, upload_key })
}

/// Appends bytes.
pub fn push_bytes(out: &mut Vec<u8>, more: &[u8])
    ensures
        final(out)@ == old(out)@ + more@,
{
    let mut i: usize = 0;
    assert(out@ =~= old(out)@ + more@.take(0));
    while i < more.len()
        invariant
            i <= more.len(),
            out@ == old(out)@ + more@.take(i as int),
        decreases more.len() - i,
    {
        out.push(more[i]);
        assert(out@ =~= old(out)@ + more@.take(i as int + 1));
        i += 1;
    }
    assert(more@.take(more@.len() as int) =~= more@);
}

/// Reads the answer to a request for leave to upload: what it was parsed as, where it is a success.
pub fn read_upload_auth(status: u16, shown: &str, body: &str, bytes: &[u8]) -> (r: Result<
    UploadStep,
    Failure,
>)
    ensures
        match r {
            Ok(step) => is_success(status) && json_parsed(body@) is Ok && is_upload_step(
                step,
                json_parsed(body@)->Ok_0,
                bytes@,
            ),
            Err(e) => if !is_success(status) {
                e@ == "Upload authorization failed (status "@ + shown@ + "): "@ + trimmed(body@)
            } else {
                match json_parsed(body@) {
                    Ok(auth) => auth.member_natural("exists"@) != Some(1u64)
                        && auth.member_text("url"@) is None && e@
                        == "No upload URL in authorization"@,
                    Err(fault) => e@ == "Failed to parse upload auth: "@ + fault,
                }
            },
        },
{
    if !success(status) {
        return Err(
            Failure {
                message: concat4(
                    "Upload authorization failed (status ",
                    shown,
                    "): ",
                    trimmed_text(body).as_str(),
                ),
            },
        );
    }
    match parse_json(body) {
        Ok(auth) => upload_step(&auth, bytes),
        Err(fault) => Err(
            Failure { message: concat2("Failed to parse upload auth: ", fault.as_str()) },
        ),
    }
}

/// The form that registers an upload.
pub fn register_form(upload_key: Option<&str>) -> (r: Result<String, Failure>)
    ensures
        text_result(r) == match opt_str(upload_key) {
            Some(k) => Ok("upload="@ + k),
            None => Err("No uploadKey in authorization"@),
        },
{
    match upload_key {
        Some(k) => Ok(concat2("upload=", k)),
        None => Err(Failure { message: "No uploadKey in authorization".to_string() }),
    }
}

/// What the storage's answer to an upload means.
pub fn read_storage_status(status: u16, shown: &str) -> (r: Result<(), Failure>)
    ensures
        match r {
            Ok(_) => is_success(status),
            Err(e) => !is_success(status) && e@ == "Storage upload failed (status "@ + shown@
                + ")"@,
        },
{
    if success(status) {
        Ok(())
    } else {
        Err(Failure { message: concat3("Storage upload failed (status ", shown, ")") })
    }
}

/// What the answer to the registration of an upload means.
pub fn read_registration(status: u16, shown: &str, body: &str) -> (r: Result<(), Failure>)
    ensures
        match r {
            Ok(_) => is_success(status),
            Err(e) => !is_success(status) && e@ == "Upload registration failed (status "@ + shown@
                + "): "@ + trimmed(body@),
        },
{
    if success(status) {
        Ok(())
    } else {
        Err(
            Failure {
                message: concat4(
                    "Upload registration failed (status ",
                    shown,
                    "): ",
                    trimmed_text(body).as_str(),
                ),
            },
        )
    }
}

} // verus!
