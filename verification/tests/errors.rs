//! The texts of errors.
use jmap_remote::error::Error;
use jmap_remote::jmap::MethodResponseError;

fn source() -> String {
    "the reason".to_string()
}

#[test]
fn resolv_conf_error_text() {
    assert_eq!(
        Error::ParseResolvConf { source: source() }.message(),
        "Could not determine DNS settings from resolv.conf: the reason"
    );
}

#[test]
fn srv_lookup_error_text() {
    let error = Error::SrvLookup { address: "_jmap._tcp.example.org.".to_string(), source: source() };
    assert_eq!(
        error.message(),
        "Could not lookup SRV address `_jmap._tcp.example.org.': the reason"
    );
}

#[test]
fn srv_record_error_text() {
    let error = Error::ResolveJmapSrvRecord { hostname: "example.org".to_string(), source: source() };
    assert_eq!(error.message(), "Could not resolve JMAP SRV record for example.org: the reason");
}

#[test]
fn open_session_error_text() {
    let error = Error::OpenSession { session_url: "https://example.org".to_string(), source: source() };
    assert_eq!(error.message(), "Could not open session at https://example.org: the reason");
}

#[test]
fn update_session_error_text() {
    let error =
        Error::UpdateSession { session_url: "https://example.org".to_string(), source: source() };
    assert_eq!(error.message(), "Could not update session at https://example.org: the reason");
}

#[test]
fn request_and_response_error_texts() {
    assert_eq!(
        Error::Request { source: source() }.message(),
        "Could not complete API request: the reason"
    );
    assert_eq!(
        Error::Response { source: source() }.message(),
        "Could not interpret API response: the reason"
    );
}

#[test]
fn json_error_texts() {
    assert_eq!(
        Error::SerializeRequest { source: source() }.message(),
        "Could not serialize JSON request: the reason"
    );
    assert_eq!(
        Error::DeserializeResponse { source: source() }.message(),
        "Could not deserialize JSON response: the reason"
    );
}

#[test]
fn unexpected_response_error_text() {
    assert_eq!(Error::UnexpectedResponse.message(), "Unexpected response from server");
}

#[test]
fn method_error_text() {
    let error = Error::MethodError { error: MethodResponseError { text: "AnchorNotFound".to_string() } };
    assert_eq!(error.message(), "Method-level JMAP error: AnchorNotFound");
}

#[test]
fn blob_error_text() {
    assert_eq!(
        Error::ReadEmailBlobError { source: source() }.message(),
        "Could not read Email blob from server: the reason"
    );
}
