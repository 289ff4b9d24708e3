use solix_exporter::credentials::{from_json, Credentials};

fn creds(user: &str, token: &str, at: u64) -> Credentials {
    Credentials::new(user.to_string(), token.to_string(), at)
}

#[test]
fn expires_in_counts_from_now() {
    let c = creds("u", "t", 1_000);
    assert_eq!(c.expires_in(400), Some(600));
    assert_eq!(c.expires_in(1_000), Some(0));
}

#[test]
fn expires_in_is_negative_once_expired() {
    let now = 1_700_000_000u64;
    let c = creds("u", "t", now - 10);
    assert_eq!(c.expires_in(now), Some(-10));
    assert!(c.expires_in(now).unwrap() < 0);
}

#[test]
fn expires_in_out_of_range_is_none() {
    let c = creds("u", "t", u64::MAX);
    assert_eq!(c.expires_in(0), None);
}

#[test]
fn to_json_writes_the_stored_form() {
    let c = creds("user-1", "abc123", 1_700_000_000);
    assert_eq!(
        c.to_json(),
        "{\"user_id\":\"user-1\",\"auth_token\":\"abc123\",\"token_expires_at\":1700000000}"
    );
}

#[test]
fn to_json_escapes_quotes_backslashes_and_controls() {
    let c = creds("a\"b", "c\\d\ne", 0);
    assert_eq!(
        c.to_json(),
        "{\"user_id\":\"a\\\"b\",\"auth_token\":\"c\\\\d\\ne\",\"token_expires_at\":0}"
    );
}

#[test]
fn save_then_load_gives_the_same_credentials() {
    for c in [
        creds("user-1", "abc123", 1_700_000_000),
        creds("", "", 0),
        creds("q\"uo\\te", "tab\there\u{1}", u64::MAX),
        creds("ünïcödé", "token", 42),
    ] {
        let back = from_json(&c.to_json()).expect("round trip");
        assert_eq!(back.user_id, c.user_id);
        assert_eq!(back.auth_token, c.auth_token);
        assert_eq!(back.token_expires_at, c.token_expires_at);
    }
}

#[test]
fn load_rejects_malformed_content() {
    assert!(from_json("").is_none());
    assert!(from_json("not json").is_none());
    assert!(from_json("{\"user_id\":\"u\",\"auth_token\":\"t\"}").is_none());
    assert!(from_json("{\"user_id\":\"u\",\"auth_token\":\"t\",\"token_expires_at\":}").is_none());
    assert!(from_json("{\"user_id\":\"u\",\"auth_token\":\"t\",\"token_expires_at\":18446744073709551616}").is_none());
    assert!(from_json("{\"user_id\":\"u\",\"auth_token\":\"t\",\"token_expires_at\":1}x").is_none());
}

#[test]
fn load_reads_the_largest_expiry() {
    let c = from_json("{\"user_id\":\"u\",\"auth_token\":\"t\",\"token_expires_at\":18446744073709551615}")
        .unwrap();
    assert_eq!(c.token_expires_at, u64::MAX);
}

#[test]
fn login_becomes_credentials() {
    let login = solix_exporter::data::Login {
        auth_token: "tok".to_string(),
        token_expires_at: 99,
        user_id: "me".to_string(),
    };
    let c = Credentials::from(login);
    assert_eq!((c.user_id.as_str(), c.auth_token.as_str(), c.token_expires_at), ("me", "tok", 99));
}

#[test]
fn default_cache_file_name() {
    assert_eq!(solix_exporter::credentials::default_cache_file(), "token_cache.json");
}

#[test]
fn short_escapes_are_written_and_read() {
    let c = creds("\u{8}\t\n\u{c}\r", "\u{1}\u{1f}", 7);
    let text = c.to_json();
    assert_eq!(
        text,
        "{\"user_id\":\"\\b\\t\\n\\f\\r\",\"auth_token\":\"\\u0001\\u001f\",\"token_expires_at\":7}"
    );
    let back = from_json(&text).unwrap();
    assert_eq!(back.user_id, c.user_id);
    assert_eq!(back.auth_token, c.auth_token);
}

#[test]
fn reads_what_serde_json_writes() {
    let user = "line\nbreak\ttab \"quoted\" back\\slash \u{2}";
    let token = "tok\r\u{8}\u{c}";
    let text = format!(
        "{{\"user_id\":{},\"auth_token\":{},\"token_expires_at\":{}}}",
        serde_json::to_string(user).unwrap(),
        serde_json::to_string(token).unwrap(),
        1_700_000_000u64
    );
    let c = from_json(&text).expect("serde_json output is read");
    assert_eq!(c.user_id, user);
    assert_eq!(c.auth_token, token);
    assert_eq!(c.token_expires_at, 1_700_000_000);
    assert_eq!(c.to_json(), text);
}
