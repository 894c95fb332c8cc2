use ghafuse::github::{
    CatalogError, Credentials, EtagCache, GitHub, GITHUB_API_URL, STATUS_NOT_MODIFIED, STATUS_OK,
};

const BODY: &[u8] = br#"[{"id": 1, "tag_name": "v1.0", "assets": []}]"#;

#[test]
fn endpoint_and_url() {
    let endpoint = GitHub::releases_endpoint("owner", "repo");
    assert_eq!(endpoint, "repos/owner/repo/releases");
    let gh = GitHub::new();
    let req = gh.request(&endpoint);
    assert_eq!(req.url, format!("{}/repos/owner/repo/releases", GITHUB_API_URL));
    assert!(req.basic_auth.is_none());
    assert!(req.if_none_match.is_none());
}

#[test]
fn credentials_sent_with_every_request() {
    let creds = Credentials::new("me".to_string(), "SECRET-REDACTED".to_string());
    assert_eq!(creds.username, "me");
    let mut gh = GitHub::with_creds(creds);
    let req = gh.request("repos/a/b/releases");
    assert_eq!(
        req.basic_auth,
        Some(("me".to_string(), "SECRET-REDACTED".to_string()))
    );
    gh.handle_response("repos/a/b/releases", STATUS_OK, Some("\"e1\"".to_string()), BODY)
        .unwrap();
    let again = gh.request("repos/a/b/releases");
    assert_eq!(
        again.basic_auth,
        Some(("me".to_string(), "SECRET-REDACTED".to_string()))
    );
    assert_eq!(again.if_none_match, Some("\"e1\"".to_string()));
}

#[test]
fn conditional_fetch_returns_same_catalog() {
    let mut gh = GitHub::new();
    let endpoint = "repos/o/r/releases";
    let first = gh
        .handle_response(endpoint, STATUS_OK, Some("\"abc\"".to_string()), BODY)
        .unwrap();
    assert!(first.is_array());
    assert_eq!(first[0]["tag_name"], serde_json::Value::from("v1.0"));
    let req = gh.request(endpoint);
    assert_eq!(req.if_none_match, Some("\"abc\"".to_string()));
    let second = gh
        .handle_response(endpoint, STATUS_NOT_MODIFIED, None, b"")
        .unwrap();
    assert_eq!(first, second);
    assert!(gh.request("repos/o/other/releases").if_none_match.is_none());
}

#[test]
fn fresh_without_validator_is_not_cached() {
    let mut gh = GitHub::new();
    let v = gh.handle_response("e", STATUS_OK, None, b"[]").unwrap();
    assert_eq!(v, serde_json::Value::Array(vec![]));
    assert!(gh.request("e").if_none_match.is_none());
    assert_eq!(
        gh.handle_response("e", STATUS_NOT_MODIFIED, None, b""),
        Err(CatalogError::CacheConsistency)
    );
}

#[test]
fn newer_validator_replaces_entry() {
    let mut gh = GitHub::new();
    gh.handle_response("e", STATUS_OK, Some("one".to_string()), b"[1]").unwrap();
    gh.handle_response("f", STATUS_OK, Some("other".to_string()), b"[3]").unwrap();
    gh.handle_response("e", STATUS_OK, Some("two".to_string()), b"[2]").unwrap();
    assert_eq!(gh.request("e").if_none_match, Some("two".to_string()));
    assert_eq!(gh.request("f").if_none_match, Some("other".to_string()));
    let cached = gh.handle_response("e", STATUS_NOT_MODIFIED, None, b"").unwrap();
    assert_eq!(cached, serde_json::Value::Array(vec![serde_json::Value::from(2)]));
}

#[test]
fn malformed_body_is_decode_error() {
    let mut gh = GitHub::new();
    assert_eq!(
        gh.handle_response("e", STATUS_OK, Some("x".to_string()), b"[1,"),
        Err(CatalogError::Decode)
    );
    assert!(gh.request("e").if_none_match.is_none());
}

#[test]
fn other_status_is_transport_error() {
    let mut gh = GitHub::new();
    assert_eq!(
        gh.handle_response("e", 500, None, b""),
        Err(CatalogError::Transport { status: 500 })
    );
    assert_eq!(
        gh.handle_response("e", 403, Some("x".to_string()), BODY),
        Err(CatalogError::Transport { status: 403 })
    );
    assert!(gh.request("e").if_none_match.is_none());
}

#[test]
fn accept_fresh_and_revalidate() {
    let mut gh = GitHub::new();
    let body = serde_json::Value::from(vec![1, 2, 3]);
    let out = gh.accept_fresh("e", Some("h".to_string()), body.clone());
    assert_eq!(out, body);
    assert_eq!(gh.revalidated("e"), Ok(body));
    assert_eq!(gh.revalidated("g"), Err(CatalogError::CacheConsistency));
    let entry = EtagCache::new("h".to_string(), serde_json::Value::Null);
    assert_eq!(entry.hash, "h");
    assert!(entry.content.is_null());
}
