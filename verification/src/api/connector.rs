//! The connector endpoints of a running Zotero, the only local way to write.
use crate::api::fetch::is_success;
use crate::api::fetch::success;
use crate::api::webapi::trimmed_text;
use crate::failure::Failure;
use crate::json::json_parsed;
use crate::json::json_tree;
use crate::json::member;
use crate::json::member_text;
use crate::json::new_object;
use crate::json::no_members;
use crate::json::object_value;
use crate::json::opt_str;
use crate::json::parse_json;
use crate::json::set_member;
use crate::json::text_value;
use crate::json::JsonTree;
use crate::text::chars_of;
use crate::text::concat2;
use crate::text::concat4;
use crate::text::is_digit;
use crate::text::is_letter;
use crate::text::opt_text;
use crate::text::trimmed;
use vstd::prelude::*;

verus! {

/// A save target as the connector reports it.
#[derive(Debug, Clone)]
pub struct SaveTarget {
    pub id: String,
    pub name: String,
    /// Nesting depth in the collection tree (0 = library root).
    pub level: u32,
}

/// A save target as the texts and numbers it holds.
pub struct TargetView {
    pub id: Seq<char>,
    pub name: Seq<char>,
    pub level: int,
}

impl View for SaveTarget {
    type V = TargetView;

    open spec fn view(&self) -> TargetView {
        TargetView { id: self.id@, name: self.name@, level: self.level as int }
    }
}

/// The views of some targets.
pub open spec fn target_views(s: Seq<SaveTarget>) -> Seq<TargetView> {
    s.map_values(|t: SaveTarget| t@)
}

/// One step of the generator behind session IDs.
pub open spec fn scrambled(x: u64) -> u64 {
    let a = x ^ (x << 13u64);
    let b = a ^ (a >> 7u64);
    b ^ (b << 17u64)
}

/// The characters of a session ID.
pub open spec fn session_alphabet() -> Seq<char> {
    "abcdefghijklmnopqrstuvwxyzABCDEFGHIJKLMNOPQRSTUVWXYZ0123456789"@
}

/// The next `n` characters that the generator yields.
pub open spec fn session_chars(x: u64, n: nat) -> Seq<char>
    decreases n,
{
    if n == 0 {
        Seq::empty()
    } else {
        let y = scrambled(x);
        seq![session_alphabet()[y as int % 62]] + session_chars(y, (n - 1) as nat)
    }
}

/// A connector-style session ID of eight characters, from the time in nanoseconds and the process
/// ID.
pub fn session_id(nanos: u64, pid: u32) -> (r: String)
    ensures
        r@ == session_chars(
            nanos ^ ((pid as int * 0x9E3779B97F4A7C15) % 0x1_0000_0000_0000_0000) as u64,
            8,
        ),
        r@.len() == 8,
{
    let alphabet = chars_of("abcdefghijklmnopqrstuvwxyzABCDEFGHIJKLMNOPQRSTUVWXYZ0123456789");
    proof {
        reveal_strlit("abcdefghijklmnopqrstuvwxyzABCDEFGHIJKLMNOPQRSTUVWXYZ0123456789");
    }
    let product: u128 = pid as u128 * 0x9E3779B97F4A7C15u128;
    let spread: u64 = (product % 0x1_0000_0000_0000_0000u128) as u64;
    let mut x: u64 = nanos ^ spread;
    let ghost seed = x;
    let mut out = String::new();
    let mut i: usize = 0;
    assert(out@ + session_chars(x, 8) =~= session_chars(seed, 8));
    while i < 8
        invariant
            i <= 8,
            alphabet@ == session_alphabet(),
            alphabet@.len() == 62,
            out@.len() == i,
            out@ + session_chars(x, (8 - i) as nat) == session_chars(seed, 8),
        decreases 8 - i,
    {
        let ghost before = out@;
        let ghost was = x;
        x = x ^ (x << 13u64);
        x = x ^ (x >> 7u64);
        x = x ^ (x << 17u64);
        assert(x == scrambled(was));
        let at: usize = (x % 62) as usize;
        out.push(alphabet[at]);
        assert(out@ + session_chars(x, (7 - i) as nat) =~= before + session_chars(
            was,
            (8 - i) as nat,
        ));
        i += 1;
    }
    assert(out@ + session_chars(x, 0) =~= out@);
    out
}

/// What goes with a PDF that is saved on its own.
pub fn attachment_metadata(session_id: &str, filename: &str) -> (r: serde_json::Value)
    ensures
        json_tree(r) == JsonTree::Object(
            no_members().insert("sessionID"@, JsonTree::Text(session_id@)).insert(
                "url"@,
                JsonTree::Text("file://"@ + filename@),
            ).insert("title"@, JsonTree::Text(filename@)),
        ),
{
    let mut m = new_object();
    set_member(&mut m, "sessionID".to_string(), text_value(session_id));
    set_member(&mut m, "url".to_string(), text_value(concat2("file://", filename).as_str()));
    set_member(&mut m, "title".to_string(), text_value(filename));
    object_value(m)
}

/// An object with one more member where there is a value for it.
pub open spec fn with_text(
    m: Map<Seq<char>, JsonTree>,
    key: Seq<char>,
    value: Option<Seq<char>>,
) -> Map<Seq<char>, JsonTree> {
    match value {
        Some(v) => m.insert(key, JsonTree::Text(v)),
        None => m,
    }
}

/// What moves the items of a session to a target and tags them.
pub fn session_update(session_id: &str, target: Option<&str>, tags: Option<&str>) -> (r:
    serde_json::Value)
    ensures
        json_tree(r) == JsonTree::Object(
            with_text(
                with_text(
                    no_members().insert("sessionID"@, JsonTree::Text(session_id@)),
                    "target"@,
                    opt_str(target),
                ),
                "tags"@,
                opt_str(tags),
            ),
        ),
{
    let mut m = new_object();
    set_member(&mut m, "sessionID".to_string(), text_value(session_id));
    if let Some(t) = target {
        set_member(&mut m, "target".to_string(), text_value(t));
    }
    if let Some(t) = tags {
        set_member(&mut m, "tags".to_string(), text_value(t));
    }
    object_value(m)
}

/// What asks for the item that was recognized in a session.
pub fn session_query(session_id: &str) -> (r: serde_json::Value)
    ensures
        json_tree(r) == JsonTree::Object(
            no_members().insert("sessionID"@, JsonTree::Text(session_id@)),
        ),
{
    session_update(session_id, None, None)
}

/// The error for a request that the connector did not answer with success.
pub fn refused(what: &str, shown: &str, body: &str) -> (r: Failure)
    ensures
        r@ == "Zotero "@ + what@ + " failed (status "@ + shown@ + "): "@ + trimmed(body@),
{
    let mut message = concat4("Zotero ", what, " failed (status ", shown);
    message.push_str("): ");
    message.push_str(trimmed_text(body).as_str());
    Failure { message }
}

/// What an answer to an import means.
pub fn read_import(status: u16, shown: &str, body: &str) -> (r: Result<serde_json::Value, Failure>)
    ensures
        match r {
            Ok(v) => is_success(status) && json_parsed(body@) == Ok::<_, Seq<char>>(json_tree(v)),
            Err(e) => if !is_success(status) {
                e@ == "Zotero "@ + "import"@ + " failed (status "@ + shown@ + "): "@ + trimmed(
                    body@,
                )
            } else {
                json_parsed(body@) is Err && e@ == "Failed to parse import response: "@ + trimmed(
                    body@,
                ) + ": "@ + json_parsed(body@)->Err_0
            },
        },
{
    if !success(status) {
        return Err(refused("import", shown, body));
    }
    match parse_json(body) {
        Ok(v) => Ok(v),
        Err(fault) => Err(
            Failure {
                message: concat4(
                    "Failed to parse import response: ",
                    trimmed_text(body).as_str(),
                    ": ",
                    fault.as_str(),
                ),
            },
        ),
    }
}

/// Whether an answer to a saved PDF says that its metadata can be recognized.
pub open spec fn says_recognizable(answer: JsonTree) -> bool {
    match answer.member("canRecognize"@) {
        Some(v) => v.truth() == Some(true),
        None => false,
    }
}

/// Whether a parsed answer to a saved PDF says that its metadata can be recognized.
pub fn recognizable(answer: &serde_json::Value) -> (r: bool)
    ensures
        r == says_recognizable(json_tree(*answer)),
{
    match member(answer, "canRecognize") {
        Some(v) => match v.as_bool() {
            Some(b) => b,
            None => false,
        },
        None => false,
    }
}

/// What an answer to a saved PDF means: whether its metadata can be recognized. An answer that is
/// no JSON says nothing of it.
pub fn read_saved_pdf(status: u16, shown: &str, body: &str) -> (r: Result<bool, Failure>)
    ensures
        match r {
            Ok(b) => is_success(status) && b == match json_parsed(body@) {
                Ok(t) => says_recognizable(t),
                Err(_) => false,
            },
            Err(e) => !is_success(status) && e@ == "Zotero "@ + "PDF save"@ + " failed (status "@
                + shown@ + "): "@ + trimmed(body@),
        },
{
    if !success(status) {
        return Err(refused("PDF save", shown, body));
    }
    match parse_json(body) {
        Ok(v) => Ok(recognizable(&v)),
        Err(_) => Ok(false),
    }
}

/// What an answer about the recognized item means: none where nothing was recognized, else its
/// title where it has one.
pub fn read_recognized(status: u16, shown: &str, body: &str) -> (r: Result<
    Option<Option<String>>,
    Failure,
>)
    ensures
        match r {
            Ok(None) => status == 204,
            Ok(Some(title)) => status != 204 && is_success(status) && opt_text(title)
                == match json_parsed(body@) {
                Ok(t) => t.member_text("title"@),
                Err(_) => None,
            },
            Err(e) => status != 204 && !is_success(status) && e@ == "Zotero "@
                + "getRecognizedItem"@ + " failed (status "@ + shown@ + "): "@ + trimmed(body@),
        },
{
    if status == 204 {
        return Ok(None);
    }
    if !success(status) {
        return Err(refused("getRecognizedItem", shown, body));
    }
    match parse_json(body) {
        Ok(v) => match member_text(&v, "title") {
            Some(t) => Ok(Some(Some(t.to_string()))),
            None => Ok(Some(None)),
        },
        Err(_) => Ok(Some(None)),
    }
}

/// What an answer to a change of session means.
pub fn read_session_update(status: u16, shown: &str, body: &str) -> (r: Result<(), Failure>)
    ensures
        match r {
            Ok(_) => is_success(status),
            Err(e) => !is_success(status) && e@ == "Zotero "@ + "updateSession"@
                + " failed (status "@ + shown@ + "): "@ + trimmed(body@),
        },
{
    if success(status) {
        Ok(())
    } else {
        Err(refused("updateSession", shown, body))
    }
}

/// A session ID holds only letters and digits.
pub proof fn law_session_id_is_alphanumeric(x: u64, n: nat, i: int)
    requires
        0 <= i < session_chars(x, n).len(),
    ensures
        is_letter(session_chars(x, n)[i]) || is_digit(session_chars(x, n)[i]),
    decreases n,
{
    let y = scrambled(x);
    reveal_strlit("abcdefghijklmnopqrstuvwxyzABCDEFGHIJKLMNOPQRSTUVWXYZ0123456789");
    let rest = session_chars(y, (n - 1) as nat);
    if i > 0 {
        law_session_id_is_alphanumeric(y, (n - 1) as nat, i - 1);
        assert(session_chars(x, n)[i] == rest[i - 1]);
    }
}

} // verus!
