use zot::api::webapi::created_collection_key;

fn json(text: &str) -> serde_json::Value {
    serde_json::from_str(text).unwrap()
}

/// Captured from `POST /users/<id>/collections` on api.zotero.org,
/// 2026-09-16, trimmed of `library` and `links`.
#[test]
fn created_collection_key_reads_a_successful_write() {
    let resp = json(r#"{
        "successful": {
            "0": {
                "key": "XMJ5WEXR",
                "version": 16842,
                "meta": { "numCollections": 0, "numItems": 0 },
                "data": {
                    "key": "XMJ5WEXR",
                    "version": 16842,
                    "name": "zot-test-root",
                    "parentCollection": false,
                    "relations": {}
                }
            }
        },
        "success": { "0": "XMJ5WEXR" },
        "unchanged": {},
        "failed": {}
    }"#);
    assert_eq!(created_collection_key(&resp).unwrap(), "XMJ5WEXR");
}

/// Same endpoint, same day, sending `parentCollection: "ZZZZZZZZ"`. The
/// status was 200: only the body says it failed.
#[test]
fn created_collection_key_turns_a_failed_entry_into_an_error() {
    let resp = json(r#"{
        "successful": {},
        "success": {},
        "unchanged": {},
        "failed": {
            "0": {
                "code": 409,
                "message": "Parent collection ZZZZZZZZ not found",
                "data": { "collection": "ZZZZZZZZ" }
            }
        }
    }"#);
    let err = created_collection_key(&resp).unwrap_err().message;
    assert!(err.contains("409"), "{err}");
    assert!(err.contains("Parent collection ZZZZZZZZ not found"), "{err}");
}

#[test]
fn created_collection_key_falls_back_to_the_success_map() {
    let resp = json(r#"{ "success": { "0": "ABCD1234" }, "failed": {} }"#);
    assert_eq!(created_collection_key(&resp).unwrap(), "ABCD1234");
}

#[test]
fn created_collection_key_rejects_a_body_reporting_nothing() {
    let resp = json(r#"{ "successful": {}, "success": {}, "failed": {} }"#);
    let err = created_collection_key(&resp).unwrap_err().message;
    assert!(err.contains("neither a created collection nor a failure"), "{err}");
}
