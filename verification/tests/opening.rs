//! Opening sessions.
use jmap_remote::error::Error;
use jmap_remote::http::SessionReply;
use jmap_remote::jmap::{Capabilities, CoreCapability, Id, PrimaryAccounts, Session, State};
use jmap_remote::open::{LookupFailure, NextAttempt, SrvRecord};
use jmap_remote::remote::Remote;

fn session(state: &str) -> Session {
    Session {
        capabilities: Capabilities { core: CoreCapability { max_objects_in_get: 500 } },
        primary_accounts: PrimaryAccounts { mail: Id("u1".to_string()) },
        api_url: "https://example.org/api".to_string(),
        download_url: "https://example.org/{blobId}".to_string(),
        state: State(state.to_string()),
    }
}

fn record(priority: u16, port: u16, target: &str) -> SrvRecord {
    SrvRecord { priority, port, target: target.to_string() }
}

/// Opens a host with replies for the attempts in their order. Returns the URLs that were called
/// and what came of it.
fn open_host(
    records: Vec<SrvRecord>,
    replies: Vec<SessionReply>,
) -> (Vec<String>, Result<Remote, Error>) {
    let mut urls: Vec<String> = Vec::new();
    let mut replies = replies.into_iter();
    let mut next = Remote::open_host("example.org", "u", "p").resolved(Ok(records));
    loop {
        match next {
            NextAttempt::Try { fetch, then } => {
                assert_eq!(fetch.authorization, "Basic dTpw");
                assert_eq!(fetch.url, then.url);
                urls.push(fetch.url);
                next = then.attempted(replies.next().unwrap());
            }
            NextAttempt::Done(result) => {
                assert!(replies.next().is_none());
                return (urls, result);
            }
        }
    }
}

#[test]
fn address_gets_a_final_dot() {
    assert_eq!(Remote::open_host("example.org", "u", "p").address, "_jmap._tcp.example.org.");
}

#[test]
fn address_keeps_its_final_dot() {
    assert_eq!(Remote::open_host("example.org.", "u", "p").address, "_jmap._tcp.example.org.");
    assert_eq!(Remote::open_host("", "u", "p").address, "_jmap._tcp.");
}

#[test]
fn unreadable_settings_are_reported() {
    let next = Remote::open_host("example.org", "u", "p")
        .resolved(Err(LookupFailure::Settings("no file".to_string())));
    assert!(matches!(
        next,
        NextAttempt::Done(Err(Error::ParseResolvConf { source })) if source == "no file"
    ));
}

#[test]
fn failed_lookup_is_reported() {
    let next = Remote::open_host("example.org", "u", "p")
        .resolved(Err(LookupFailure::Lookup("no such name".to_string())));
    assert!(matches!(
        next,
        NextAttempt::Done(Err(Error::SrvLookup { address, source }))
            if address == "_jmap._tcp.example.org." && source == "no such name"
    ));
}

#[test]
fn hosts_are_tried_by_priority() {
    let records = vec![
        record(20, 443, "c.example.org."),
        record(10, 8443, "a.example.org."),
        record(30, 443, "d.example.org."),
        record(10, 80, "b.example.org."),
    ];
    let replies = vec![
        Err("1".to_string()),
        Err("2".to_string()),
        Err("3".to_string()),
        Err("4".to_string()),
    ];
    let (urls, result) = open_host(records, replies);
    assert_eq!(
        urls,
        vec![
            "https://a.example.org:8443/.well-known/jmap",
            "https://b.example.org:80/.well-known/jmap",
            "https://c.example.org:443/.well-known/jmap",
            "https://d.example.org:443/.well-known/jmap",
        ]
    );
    assert!(matches!(
        result,
        Err(Error::OpenSession { session_url, source })
            if session_url == "https://d.example.org:443/.well-known/jmap" && source == "4"
    ));
}

#[test]
fn records_of_one_priority_keep_their_order() {
    let records = vec![
        record(0, 3, "x."),
        record(0, 1, "x."),
        record(0, 2, "x."),
        record(0, 1, "x."),
    ];
    let replies = vec![
        Err("1".to_string()),
        Err("2".to_string()),
        Err("3".to_string()),
        Err("4".to_string()),
    ];
    let (urls, _) = open_host(records, replies);
    assert_eq!(
        urls,
        vec![
            "https://x:3/.well-known/jmap",
            "https://x:1/.well-known/jmap",
            "https://x:2/.well-known/jmap",
            "https://x:1/.well-known/jmap",
        ]
    );
}

#[test]
fn first_host_that_answers_is_used() {
    let records = vec![
        record(2, 443, "b.example.org."),
        record(1, 443, "a.example.org."),
        record(3, 443, "c.example.org."),
    ];
    let replies = vec![
        Err("down".to_string()),
        Ok(("https://b.example.org/session".to_string(), session("s7"))),
    ];
    let (urls, result) = open_host(records, replies);
    assert_eq!(
        urls,
        vec![
            "https://a.example.org:443/.well-known/jmap",
            "https://b.example.org:443/.well-known/jmap",
        ]
    );
    let remote = result.unwrap();
    assert_eq!(remote.session_url, "https://b.example.org/session");
    assert_eq!(remote.session.state.0, "s7");
    assert_eq!(remote.http_wrapper.authorization, "Basic dTpw");
}

#[test]
fn single_host_that_fails_is_reported() {
    let (urls, result) = open_host(vec![record(1, 65535, ".")], vec![Err("down".to_string())]);
    assert_eq!(urls, vec!["https://:65535/.well-known/jmap"]);
    assert!(matches!(
        result,
        Err(Error::OpenSession { session_url, source })
            if session_url == "https://:65535/.well-known/jmap" && source == "down"
    ));
}

#[test]
fn target_need_not_be_ascii() {
    let reply = Ok(("https://x".to_string(), session("s")));
    let (urls, result) = open_host(vec![record(1, 443, "b\u{fc}cher.example.")], vec![reply]);
    assert_eq!(urls, vec!["https://b\u{fc}cher.example:443/.well-known/jmap"]);
    assert!(result.is_ok());
}

#[test]
fn url_is_opened() {
    let (call, open) = Remote::open_url("https://example.org/jmap", "u", "p");
    assert_eq!(call.url, "https://example.org/jmap");
    assert_eq!(call.authorization, "Basic dTpw");
    let remote = open.opened(Ok(("https://mail.example.org/s".to_string(), session("s1")))).unwrap();
    // The URL is the one after all redirects.
    assert_eq!(remote.session_url, "https://mail.example.org/s");
    assert_eq!(remote.session.state.0, "s1");
    assert_eq!(remote.http_wrapper.authorization, "Basic dTpw");
}

#[test]
fn url_that_fails_is_reported() {
    let (_, open) = Remote::open_url("https://example.org/jmap", "u", "p");
    assert!(matches!(
        open.opened(Err("401".to_string())),
        Err(Error::OpenSession { session_url, source })
            if session_url == "https://example.org/jmap" && source == "401"
    ));
}
