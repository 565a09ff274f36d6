//! What the HTTP server answers.

use phantom_screen_server::certificate::{certificate_hash_hex, hash_hex};
use phantom_screen_server::http::{
    api_response, client_url, content_type, file_response, health_response_body, launch_apps_json,
    route, Route,
};

#[test]
fn health_body_ready_when_running() {
    let body = health_response_body(true);
    assert_eq!(body, r#"{"status":"ready"}"#);
}

#[test]
fn health_body_starting_when_not_running() {
    let body = health_response_body(false);
    assert_eq!(body, r#"{"status":"starting"}"#);
}

#[test]
fn health_body_is_valid_json_format() {
    for running in [true, false] {
        let body = health_response_body(running);
        // Verify it looks like valid JSON with expected structure
        assert!(body.starts_with(r#"{"status":""#));
        assert!(body.ends_with(r#""}"#));
        assert!(body.contains("ready") || body.contains("starting"));
    }
}

#[test]
fn requests_are_routed() {
    assert!(matches!(route("/health"), Route::Health));
    assert!(matches!(route("/api/launch-apps"), Route::LaunchApps));
    let file = |path| match route(path) {
        Route::File { path } => path,
        _ => panic!("Expected File"),
    };
    assert_eq!(file("/"), "index.html");
    assert_eq!(file(""), "index.html");
    assert_eq!(file("//a/b.js"), "a/b.js");
    assert_eq!(file("/health/"), "health/");
    assert_eq!(file("x"), "x");
}

#[test]
fn health_endpoint_answers_in_json() {
    let response = api_response(&route("/health"), true, "[]").unwrap();
    assert_eq!(response.status, 200);
    assert_eq!(response.content_type.as_deref(), Some("application/json"));
    assert!(response.allow_any_origin);
    assert_eq!(response.body, br#"{"status":"ready"}"#);
    let response = api_response(&route("/api/launch-apps"), true, r#"["a"]"#).unwrap();
    assert_eq!(response.body, br#"["a"]"#);
    assert!(api_response(&route("/some/file"), true, "[]").is_none());
}

#[test]
fn files_that_are_missing_are_not_found() {
    let response = file_response("some/nonexistent/path", None);
    assert_eq!(response.status, 404);
    assert_eq!(response.body, b"Not Found");
    assert!(response.content_type.is_none() && !response.allow_any_origin);
    let response = file_response("a.css", Some(vec![1, 2]));
    assert_eq!((response.status, response.body), (200, vec![1, 2]));
    assert_eq!(response.content_type.as_deref(), Some("text/css; charset=utf-8"));
    assert!(response.allow_any_origin);
}

#[test]
fn media_types_by_extension() {
    assert_eq!(content_type("index.html"), "text/html; charset=utf-8");
    assert_eq!(content_type("a/b.min.js"), "application/javascript; charset=utf-8");
    assert_eq!(content_type("x.json"), "application/json");
    assert_eq!(content_type("x.wasm"), "application/wasm");
    assert_eq!(content_type("x.png"), "image/png");
    assert_eq!(content_type("x.svg"), "image/svg+xml");
    assert_eq!(content_type("x.HTML"), "application/octet-stream");
}

#[test]
fn extensions_agree_with_std() {
    let paths = [
        "a.html", "a", ".html", "..html", "a.b.html", "a.html/", "a.html/.", "a.html/..", "a.html/./",
        "b/.html", "b/a.", "", "/", ".", "..", "x/../a.html", "a.html//", "é.html", "a .html",
    ];
    for path in paths {
        let html = std::path::Path::new(path).extension().and_then(|e| e.to_str()) == Some("html");
        assert_eq!(content_type(path) == "text/html; charset=utf-8", html, "{path}");
    }
}

#[test]
fn app_lists_are_json() {
    let list = |apps: &[&str]| {
        launch_apps_json(&apps.iter().map(|a| a.to_string()).collect::<Vec<String>>())
    };
    assert_eq!(list(&[]), "[]");
    assert_eq!(list(&["xterm", "firefox"]), r#"["xterm","firefox"]"#);
    assert_eq!(list(&[r#"a "b" \c"#]), r#"["a \"b\" \\c"]"#);
    let apps = ["", r#"\"#, r#"\""#, r#"","x"#, "é"];
    let parsed: serde_json::Value = serde_json::from_str(&list(&apps)).unwrap();
    assert_eq!(parsed, serde_json::Value::from(apps.to_vec()));
}

#[test]
fn client_addresses() {
    assert_eq!(
        client_url(4444, 4443, "ab12"),
        "http://127.0.0.1:4444/?serverUrl=https://127.0.0.1:4443&certHash=ab12&autoconnect=1"
    );
    assert_eq!(client_url(4444, 4443, ""), "http://127.0.0.1:4444");
}

#[test]
fn digests_in_plain_hexadecimal() {
    let mut digest = [0u8; 32];
    digest[0] = 0xAB;
    digest[1] = 0x0F;
    digest[31] = 0x90;
    assert_eq!(hash_hex(&digest), format!("ab0f{}90", "00".repeat(29)));
}

#[test]
fn certificates_have_their_digest_as_fingerprint() {
    let identity = wtransport::Identity::self_signed(["localhost", "127.0.0.1", "::1"]).unwrap();
    let leaf = &identity.certificate_chain().as_slice()[0];
    let expected =
        leaf.hash().fmt(wtransport::tls::Sha256DigestFmt::DottedHex).replace(':', "");
    assert_eq!(certificate_hash_hex(&vec![leaf.der().to_vec()]), expected);
    assert_eq!(expected.len(), 64);
    assert_eq!(certificate_hash_hex(&vec![]), "");
    assert_eq!(certificate_hash_hex(&vec![vec![1, 2, 3]]), "");
}
