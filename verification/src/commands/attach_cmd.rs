//! `zot attach`: attaching a file to an existing item through the web API.
use crate::api::webapi::created_key_value;
use crate::api::webapi::created_value;
use crate::failure::text_result;
use crate::failure::Failure;
use crate::json::array_value;
use crate::json::json_tree;
use crate::json::json_trees;
use crate::json::member;
use crate::json::member_text;
use crate::json::new_object;
use crate::json::no_members;
use crate::json::object_value;
use crate::json::set_member;
use crate::json::text_value;
use crate::json::JsonTree;
use crate::output::AttachOutput;
use crate::text::chars_of;
use crate::text::concat2;
use crate::text::last_index_of;
use crate::text::last_position;
use crate::text::lowercase;
use crate::text::same_text;
use crate::text::string_of;
use crate::text::to_lowercase;
use vstd::prelude::*;
use vstd::slice::slice_subrange;

verus! {

/// What follows the last dot of a name; all of it where it has none.
pub open spec fn extension(name: Seq<char>) -> Seq<char> {
    name.skip(last_index_of(name, '.') + 1)
}

/// The content type that an extension stands for.
pub open spec fn type_of_extension(ext: Seq<char>) -> Seq<char> {
    if ext == "pdf"@ {
        "application/pdf"@
    } else if ext == "epub"@ {
        "application/epub+zip"@
    } else if ext == "html"@ || ext == "htm"@ {
        "text/html"@
    } else if ext == "txt"@ || ext == "md"@ {
        "text/plain"@
    } else if ext == "png"@ {
        "image/png"@
    } else if ext == "jpg"@ || ext == "jpeg"@ {
        "image/jpeg"@
    } else {
        "application/octet-stream"@
    }
}

/// Guesses the content type of a file from its name.
pub fn guess_content_type(filename: &str) -> (r: &'static str)
    ensures
        r@ == type_of_extension(extension(lowercase(filename@))),
{
    let folded = to_lowercase(filename);
    let chars = chars_of(folded.as_str());
    let start: usize = match last_position(chars.as_slice(), '.') {
        Some(i) => i + 1,
        None => 0,
    };
    let tail = slice_subrange(chars.as_slice(), start, chars.len());
    assert(tail@ =~= extension(lowercase(filename@)));
    let ext = string_of(tail);
    let ext = ext.as_str();
    if same_text(ext, "pdf") {
        "application/pdf"
    } else if same_text(ext, "epub") {
        "application/epub+zip"
    } else if same_text(ext, "html") || same_text(ext, "htm") {
        "text/html"
    } else if same_text(ext, "txt") || same_text(ext, "md") {
        "text/plain"
    } else if same_text(ext, "png") {
        "image/png"
    } else if same_text(ext, "jpg") || same_text(ext, "jpeg") {
        "image/jpeg"
    } else {
        "application/octet-stream"
    }
}

/// The error for a file that is not there.
pub fn file_not_found(file: &str) -> (r: Failure)
    ensures
        r@ == "File not found: "@ + file@,
{
    Failure { message: concat2("File not found: ", file) }
}

/// The title of the parent item; empty where it has none.
pub open spec fn title_in(parent: JsonTree) -> Seq<char> {
    match parent.member("data"@) {
        Some(data) => match data.member_text("title"@) {
            Some(t) => t,
            None => Seq::empty(),
        },
        None => Seq::empty(),
    }
}

/// The title of the parent item.
pub fn parent_title(parent: &serde_json::Value) -> (r: String)
    ensures
        r@ == title_in(json_tree(*parent)),
{
    match member(parent, "data") {
        Some(data) => match member_text(data, "title") {
            Some(t) => t.to_string(),
            None => String::new(),
        },
        None => String::new(),
    }
}

/// The attachment item that is created: a list of one.
pub open spec fn attachment_tree(
    key: Seq<char>,
    title: Seq<char>,
    content_type: Seq<char>,
    filename: Seq<char>,
) -> JsonTree {
    JsonTree::Array(
        seq![
            JsonTree::Object(
                no_members().insert("itemType"@, JsonTree::Text("attachment"@)).insert(
                    "linkMode"@,
                    JsonTree::Text("imported_file"@),
                ).insert("parentItem"@, JsonTree::Text(key)).insert(
                    "title"@,
                    JsonTree::Text(title),
                ).insert("contentType"@, JsonTree::Text(content_type)).insert(
                    "filename"@,
                    JsonTree::Text(filename),
                ),
            ),
        ],
    )
}

/// The body of the request that creates an attachment item, titled by the file's name unless a
/// title is given.
pub fn attachment_body(key: &str, title: Option<&str>, filename: &str) -> (r: serde_json::Value)
    ensures
        json_tree(r) == attachment_tree(
            key@,
            match crate::json::opt_str(title) {
                Some(t) => t,
                None => filename@,
            },
            type_of_extension(extension(lowercase(filename@))),
            filename@,
        ),
{
    let title = match title {
        Some(t) => t,
        None => filename,
    };
    let mut m = new_object();
    set_member(&mut m, "itemType".to_string(), text_value("attachment"));
    set_member(&mut m, "linkMode".to_string(), text_value("imported_file"));
    set_member(&mut m, "parentItem".to_string(), text_value(key));
    set_member(&mut m, "title".to_string(), text_value(title));
    set_member(&mut m, "contentType".to_string(), text_value(guess_content_type(filename)));
    set_member(&mut m, "filename".to_string(), text_value(filename));
    let one = object_value(m);
    let ghost tree = json_tree(one);
    let mut list: Vec<serde_json::Value> = Vec::new();
    list.push(one);
    assert(json_trees(list@) =~= seq![tree]);
    array_value(list)
}

/// The key of the attachment item that was created.
pub fn attachment_key(answer: &serde_json::Value) -> (r: Result<String, Failure>)
    ensures
        text_result(r) == match created_key_value(json_tree(*answer)) {
            Some(JsonTree::Text(key)) => Ok(key),
            _ => Err("No attachment key in creation response"@),
        },
{
    if let Some(v) = created_value(answer) {
        if let Some(key) = v.as_str() {
            return Ok(key.to_string());
        }
    }
    Err(Failure { message: "No attachment key in creation response".to_string() })
}

/// What is answered once a file is attached.
pub fn attach_output(key: &str, parent_title: String, attachment_key: String, filename: &str) -> (r:
    AttachOutput)
    ensures
        r.key@ == key@,
        r.parent_title@ == parent_title@,
        r.attachment_key@ == attachment_key@,
        r.filename@ == filename@,
        r.note@ == "Attached via web API; the file appears locally on the next Zotero sync."@,
{
    AttachOutput {
        key: key.to_string(),
        parent_title,
        attachment_key,
        filename: filename.to_string(),
        note: "Attached via web API; the file appears locally on the next Zotero sync.".to_string(),
    }
}

} // verus!
