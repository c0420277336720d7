//! Downloading blobs, and the expansion of the download URL.
use jmap_remote::http::HttpWrapper;
use jmap_remote::jmap::{Capabilities, CoreCapability, Id, PrimaryAccounts, Session, State};
use jmap_remote::remote::Remote;
use jmap_remote::template::{can_expand, expand};

fn remote(account: &str, download_url: &str) -> Remote {
    Remote {
        http_wrapper: HttpWrapper::new("u", "p"),
        session_url: "https://example.org/session".to_string(),
        session: Session {
            capabilities: Capabilities { core: CoreCapability { max_objects_in_get: 500 } },
            primary_accounts: PrimaryAccounts { mail: Id(account.to_string()) },
            api_url: "https://example.org/api".to_string(),
            download_url: download_url.to_string(),
            state: State("s1".to_string()),
        },
    }
}

fn url(download_url: &str, blob: &str) -> String {
    let remote = remote("u1", download_url);
    let id = Id(blob.to_string());
    assert!(remote.can_read_email_blob(&id));
    remote.read_email_blob(&id).url
}

#[test]
fn blob_is_asked_for() {
    let remote = remote("u1", "https://example.org/{accountId}/{blobId}/{name}?accept={type}");
    let id = Id("b7".to_string());
    assert!(remote.can_read_email_blob(&id));
    let call = remote.read_email_blob(&id);
    assert_eq!(call.url, "https://example.org/u1/b7/b7?accept=text%2Fplain");
    assert_eq!(call.authorization, "Basic dTpw");
    assert_eq!(call.limit, 10_000_000);
}

#[test]
fn values_are_told_apart() {
    assert_eq!(url("{name}/{type}/{blobId}/{accountId}", "b7"), "b7/text%2Fplain/b7/u1");
}

#[test]
fn values_are_percent_encoded() {
    assert_eq!(url("/{blobId}", "a b/c\u{fc}"), "/a%20b%2Fc%C3%BC");
}

#[test]
fn url_without_variables_is_used_as_it_is() {
    assert_eq!(url("https://example.org/blob", "b7"), "https://example.org/blob");
}

#[test]
fn operators_and_modifiers_are_expanded() {
    assert_eq!(url("/x{?type,name}", "b7"), "/x?type=text%2Fplain&name=b7");
    assert_eq!(url("/x{+type}", "b7"), "/xtext/plain");
    assert_eq!(url("/x/{blobId:3}", "abcdef"), "/x/abc");
    assert_eq!(url("/x{/blobId*}", "b7"), "/x/b7");
    assert_eq!(url("/x/{unknown}y", "b7"), "/x/y");
}

#[test]
fn template_with_variables_that_are_not_ascii_is_refused() {
    let remote = remote("u1", "https://example.org/{bl\u{f6}b}");
    assert!(!remote.can_read_email_blob(&Id("b7".to_string())));
}

#[test]
fn literal_text_need_not_be_ascii() {
    assert_eq!(url("/bl\u{f6}b/{blobId}", "b7"), "/bl%C3%B6b/b7");
    // A list that is not closed is no list.
    assert!(remote("u1", "/{bl\u{f6}b").can_read_email_blob(&Id("b7".to_string())));
}

#[test]
fn prefix_within_a_character_is_refused() {
    let remote = remote("u1", "/{blobId:2}");
    assert!(remote.can_read_email_blob(&Id("abc".to_string())));
    assert!(remote.can_read_email_blob(&Id("\u{fc}bc".to_string())));
    assert!(!remote.can_read_email_blob(&Id("a\u{fc}c".to_string())));
    assert_eq!(remote.read_email_blob(&Id("\u{fc}bc".to_string())).url, "/%C3%BC");
}

#[test]
fn prefix_beyond_the_end_is_no_matter() {
    let remote = remote("u1", "/{blobId:20}{accountId:x}{blobId:99999}{blobId:+30}");
    assert!(remote.can_read_email_blob(&Id("a\u{fc}c".to_string())));
}

#[test]
fn prefixes_are_read_as_the_expansion_reads_them() {
    // Each pair is a modifier and whether it cuts the value within its second character.
    for (modifier, cuts) in [
        (":2", true),
        (":+2", true),
        (":002", true),
        (":1", false),
        (":3", false),
        (":-2", false),
        (":+", false),
        (":", false),
        (":2*", false),
        (":2:", false),
        (":65538", false),
    ] {
        let source = format!("/{{blobId{}}}", modifier);
        let can = remote("u1", &source).can_read_email_blob(&Id("a\u{fc}c".to_string()));
        assert_eq!(can, !cuts, "{}", modifier);
        if can {
            assert!(url(&source, "a\u{fc}c").starts_with('/'));
        }
    }
}

#[test]
fn every_list_and_every_variable_is_looked_at() {
    let values = [("a", "\u{fc}"), ("b", "x"), ("c", "y"), ("d", "z")];
    assert!(can_expand("{b:1}{c,d,a}", &values));
    assert!(!can_expand("{b:1}{c,d,a:1}", &values));
    assert!(!can_expand("{b:1}{c}{?d,a:1,b}", &values));
    assert!(can_expand("{b:1}{c}{?d,a:2,b}", &values));
    assert!(can_expand("a:1}{b}", &values));
    assert!(can_expand("", &values));
    assert!(can_expand("{}", &values));
    assert!(can_expand("{?}", &values));
}

#[test]
fn later_value_of_a_variable_counts() {
    let values = [("a", "1"), ("b", "2"), ("a", "3"), ("c", "4")];
    assert!(can_expand("{a}{b}{c}", &values));
    assert_eq!(expand("{a}{b}{c}", values), "324");
    // A prefix is checked against the value that counts.
    assert!(can_expand("{a:1}", &[("a", "\u{fc}"), ("a", "x"), ("b", ""), ("c", "")]));
    assert!(!can_expand("{a:1}", &[("a", "x"), ("a", "\u{fc}"), ("b", ""), ("c", "")]));
}
