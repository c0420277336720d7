//! The `Authorization` header, and the calls that carry it.
use jmap_remote::error::Error;
use jmap_remote::http::{
    basic_authorization, blob_failure, credentials, HttpWrapper, PostFailure, MAX_BLOB_BYTES,
};
use jmap_remote::jmap::{CapabilityKind, Request};
use jmap_remote::text::{decimal, ends_in, find};

fn header(username: &str, password: &str) -> String {
    assert!(HttpWrapper::can_hold(username, password));
    HttpWrapper::new(username, password).authorization
}

#[test]
fn header_is_basic_and_base64() {
    // The example of RFC 7617.
    assert_eq!(header("Aladdin", "open sesame"), "Basic QWxhZGRpbjpvcGVuIHNlc2FtZQ==");
}

#[test]
fn header_is_padded_by_length() {
    assert_eq!(header("", ""), "Basic Og==");
    assert_eq!(header("f", ""), "Basic Zjo=");
    assert_eq!(header("f", "o"), "Basic Zjpv");
    assert_eq!(header("f", "oo"), "Basic Zjpvbw==");
}

#[test]
fn header_uses_the_standard_alphabet() {
    // These bytes need both `+` and `/`.
    assert_eq!(header("\u{3ff}", "\u{3ef}?>"), "Basic z786z68/Pg==");
}

#[test]
fn header_encodes_utf8() {
    // The UTF-8 example of RFC 7617.
    assert_eq!(header("test", "123\u{a3}"), "Basic dGVzdDoxMjPCow==");
}

#[test]
fn username_ends_at_its_first_colon() {
    assert_eq!(credentials("user:name:x", "pass"), "user:pass");
    assert_eq!(credentials(":name", "pass"), ":pass");
    assert_eq!(header("Aladdin:x", "open sesame"), header("Aladdin", "open sesame"));
}

#[test]
fn username_without_a_colon_is_used_whole() {
    assert_eq!(credentials("user@example.org", "pass"), "user@example.org:pass");
    assert_eq!(credentials("\u{fc}ser:x", "pass"), "\u{fc}ser:pass");
}

#[test]
fn password_keeps_its_colons() {
    let text = credentials("user:name", "pa:ss:");
    assert_eq!(text, "user:pa:ss:");
    let (username, password) = text.split_once(':').unwrap();
    assert_eq!(username, "user");
    assert_eq!(password, "pa:ss:");
}

#[test]
fn different_credentials_have_different_headers() {
    assert_ne!(header("a", "bc"), header("ab", "c"));
    assert_ne!(header("a", ""), header("", "a"));
    assert_ne!(header("a", "b"), header("a", "b "));
}

#[test]
fn header_is_made_of_header_characters() {
    let value = header("\u{10ffff}\r\n", "\0\u{7f}\u{80}");
    assert!(value.chars().all(|c| c.is_ascii_alphanumeric() || " +/=".contains(c)));
}

#[test]
fn basic_authorization_names_the_scheme() {
    assert_eq!(basic_authorization("abc="), "Basic abc=");
}

#[test]
fn session_call_has_url_and_header() {
    let call = HttpWrapper::new("u", "p").get_session("https://example.org/session");
    assert_eq!(call.url, "https://example.org/session");
    assert_eq!(call.authorization, "Basic dTpw");
}

#[test]
fn blob_call_is_limited() {
    let call = HttpWrapper::new("u", "p").get_reader("https://example.org/blob");
    assert_eq!(call.url, "https://example.org/blob");
    assert_eq!(call.authorization, "Basic dTpw");
    assert_eq!(call.limit, 10_000_000);
    assert_eq!(MAX_BLOB_BYTES, 10_000_000);
}

#[test]
fn post_has_url_header_and_body() {
    let request = Request {
        using: vec![CapabilityKind::Mail],
        method_calls: Vec::new(),
        created_ids: None,
    };
    let call = HttpWrapper::new("u", "p").post("https://example.org/api", request);
    assert_eq!(call.url, "https://example.org/api");
    assert_eq!(call.authorization, "Basic dTpw");
    assert_eq!(call.request.using, vec![CapabilityKind::Mail]);
    assert!(call.request.method_calls.is_empty());
    assert!(call.request.created_ids.is_none());
}

#[test]
fn failures_become_errors() {
    assert!(matches!(
        PostFailure::Send("down".to_string()).into_error(),
        Error::Request { source } if source == "down"
    ));
    assert!(matches!(
        PostFailure::Read("cut off".to_string()).into_error(),
        Error::Response { source } if source == "cut off"
    ));
    assert!(matches!(
        blob_failure("gone".to_string()),
        Error::ReadEmailBlobError { source } if source == "gone"
    ));
}

#[test]
fn numbers_are_written_in_decimal() {
    assert_eq!(decimal(0), "0");
    assert_eq!(decimal(7), "7");
    assert_eq!(decimal(10), "10");
    assert_eq!(decimal(443), "443");
    assert_eq!(decimal(60298), "60298");
    assert_eq!(decimal(65535), "65535");
}

#[test]
fn characters_are_found_by_position() {
    assert_eq!(find("a:b:c", ':'), Some(1));
    assert_eq!(find("\u{fc}\u{fc}:", ':'), Some(2));
    assert_eq!(find("abc", ':'), None);
    assert_eq!(find("", ':'), None);
    assert!(ends_in("a.", '.'));
    assert!(!ends_in(".a", '.'));
    assert!(!ends_in("", '.'));
}
