//! Fetching emails, and what is kept of them.
use jmap_remote::email::{Email, EmailMap};
use jmap_remote::error::Error;
use jmap_remote::exchange::Next;
use jmap_remote::fetch::GetEmails;
use jmap_remote::http::HttpWrapper;
use jmap_remote::id_set::IdSet;
use jmap_remote::jmap;
use jmap_remote::jmap::{
    Capabilities, CapabilityKind, CoreCapability, EmailKeyword, Id, MethodCall, MethodResponse,
    MethodResponseError, MethodResponseGet, PrimaryAccounts, Response, ResponseInvocation, Session,
    State,
};
use jmap_remote::remote::Remote;
use jmap_remote::small_set::SmallSet;

fn remote(max_objects_in_get: u64) -> Remote {
    Remote {
        http_wrapper: HttpWrapper::new("u", "p"),
        session_url: "https://example.org/session".to_string(),
        session: Session {
            capabilities: Capabilities { core: CoreCapability { max_objects_in_get } },
            primary_accounts: PrimaryAccounts { mail: Id("u1".to_string()) },
            api_url: "https://example.org/api".to_string(),
            download_url: "https://example.org/{blobId}".to_string(),
            state: State("s1".to_string()),
        },
    }
}

fn id(text: &str) -> Id {
    Id(text.to_string())
}

fn set(texts: &[&str]) -> IdSet {
    IdSet::collect(texts.iter().map(|text| id(text)).collect())
}

fn sent(text: &str, keywords: Vec<(EmailKeyword, bool)>) -> jmap::Email {
    jmap::Email {
        id: id(text),
        blob_id: Id(format!("blob of {}", text)),
        keywords,
        mailbox_ids: vec![(id("inbox"), true)],
    }
}

fn response(call_id: &str, state: &str, list: Vec<jmap::Email>) -> Vec<ResponseInvocation> {
    vec![ResponseInvocation {
        call: MethodResponse::EmailGet(MethodResponseGet { state: State(state.to_string()), list }),
        id: call_id.to_string(),
    }]
}

fn plain(state: &str, texts: &[&str]) -> Vec<ResponseInvocation> {
    response("0", state, texts.iter().map(|text| sent(text, Vec::new())).collect())
}

/// Fetches emails with these responses, beginning with the state `e0`. Returns the ids that each
/// request asked for, and what came of it.
fn fetch(
    max_objects_in_get: u64,
    email_ids: &IdSet,
    responses: Vec<Vec<ResponseInvocation>>,
) -> (Vec<Vec<String>>, Result<(State, EmailMap), Error>) {
    let remote = remote(max_objects_in_get);
    let mut asked: Vec<Vec<String>> = Vec::new();
    let mut responses = responses.into_iter();
    let mut next: Next<GetEmails, (State, EmailMap)> =
        remote.get_emails(State("e0".to_string()), email_ids);
    loop {
        match next {
            Next::Post { call, then } => {
                assert_eq!(call.url, "https://example.org/api");
                assert_eq!(call.authorization, "Basic dTpw");
                assert_eq!(call.request.using, vec![CapabilityKind::Mail]);
                assert_eq!(call.request.method_calls.len(), 1);
                assert_eq!(call.request.method_calls[0].id, "0");
                match &call.request.method_calls[0].call {
                    MethodCall::EmailGet { get } => {
                        assert_eq!(get.account_id.0, "u1");
                        assert_eq!(
                            get.properties.as_ref().unwrap(),
                            &vec!["id", "blobId", "keywords", "mailboxIds"]
                        );
                        let ids = get.ids.as_ref().unwrap();
                        asked.push(ids.iter().map(|id| id.0.clone()).collect());
                    }
                    _ => panic!("no get"),
                }
                let response = Response {
                    method_responses: responses.next().unwrap(),
                    session_state: State("s1".to_string()),
                };
                next = remote.replied(then, Ok(response));
            }
            Next::Refresh { .. } => panic!("the session is up to date"),
            Next::Done(result) => {
                assert!(responses.next().is_none());
                return (asked, result);
            }
        }
    }
}

fn finished(result: Result<(State, EmailMap), Error>) -> (String, EmailMap) {
    match result {
        Ok((state, emails)) => (state.0, emails),
        Err(error) => panic!("{}", error.message()),
    }
}

fn failed(result: Result<(State, EmailMap), Error>) -> Error {
    match result {
        Ok(_) => panic!("no error"),
        Err(error) => error,
    }
}

fn listed(emails: &EmailMap) -> Vec<&str> {
    emails.as_list().iter().map(|id| id.0.as_str()).collect()
}

#[test]
fn nothing_to_fetch_takes_no_request() {
    let (asked, result) = fetch(10, &IdSet::new(), vec![]);
    assert!(asked.is_empty());
    let (state, emails) = finished(result);
    assert_eq!(state, "e0");
    assert!(listed(&emails).is_empty());
}

#[test]
fn emails_are_fetched_in_chunks() {
    let (asked, result) = fetch(
        2,
        &set(&["m1", "m2", "m3", "m4", "m5"]),
        vec![plain("e1", &["m1", "m2"]), plain("e2", &["m3", "m4"]), plain("e3", &["m5"])],
    );
    assert_eq!(asked, vec![vec!["m1", "m2"], vec!["m3", "m4"], vec!["m5"]]);
    let (state, emails) = finished(result);
    assert_eq!(state, "e3");
    assert_eq!(listed(&emails), vec!["m1", "m2", "m3", "m4", "m5"]);
    assert_eq!(emails.get(&id("m4")).unwrap().id.0, "m4");
    assert_eq!(emails.get(&id("m4")).unwrap().blob_id.0, "blob of m4");
    assert!(emails.get(&id("m6")).is_none());
}

#[test]
fn last_chunk_can_be_full() {
    let (asked, result) = fetch(
        2,
        &set(&["m1", "m2", "m3", "m4"]),
        vec![plain("e1", &["m1", "m2"]), plain("e2", &["m3", "m4"])],
    );
    assert_eq!(asked, vec![vec!["m1", "m2"], vec!["m3", "m4"]]);
    assert_eq!(finished(result).0, "e2");
}

#[test]
fn chunks_of_one_and_of_all() {
    let (asked, _) = fetch(1, &set(&["b", "a"]), vec![plain("e1", &["b"]), plain("e2", &["a"])]);
    assert_eq!(asked, vec![vec!["b"], vec!["a"]]);
    let (asked, _) = fetch(u64::MAX, &set(&["b", "a"]), vec![plain("e1", &["b", "a"])]);
    assert_eq!(asked, vec![vec!["b", "a"]]);
}

#[test]
fn no_email_is_asked_for_twice() {
    let (asked, _) = fetch(2, &set(&["m1", "m1", "m2", "m1"]), vec![plain("e1", &["m1", "m2"])]);
    assert_eq!(asked, vec![vec!["m1", "m2"]]);
}

#[test]
fn emails_that_the_server_lacks_are_left_out() {
    let (_, result) = fetch(3, &set(&["m1", "m2", "m3"]), vec![plain("e1", &["m3", "m1"])]);
    let (_, emails) = finished(result);
    assert!(emails.get(&id("m1")).is_some());
    assert!(emails.get(&id("m2")).is_none());
    assert!(emails.get(&id("m3")).is_some());
}

#[test]
fn later_email_replaces_an_earlier_one() {
    let (_, result) = fetch(
        1,
        &set(&["m1", "m2"]),
        vec![
            response("0", "e1", vec![sent("m1", vec![(EmailKeyword::Seen, true)])]),
            response("0", "e2", vec![sent("m1", vec![(EmailKeyword::Draft, true)])]),
        ],
    );
    let (_, emails) = finished(result);
    assert_eq!(listed(&emails), vec!["m1"]);
    assert_eq!(emails.get(&id("m1")).unwrap().keywords.as_list(), &vec![EmailKeyword::Draft]);
}

#[test]
fn what_the_server_has_is_brought_as_it_was_listed_last() {
    // The server has no `m2` and no `m3`, and lists `m4` twice.
    let (asked, result) = fetch(
        2,
        &set(&["m1", "m2", "m3", "m4", "m5"]),
        vec![
            plain("e1", &["m1"]),
            response(
                "0",
                "e2",
                vec![
                    sent("m4", vec![(EmailKeyword::Seen, true)]),
                    sent("m4", vec![(EmailKeyword::Flagged, true), (EmailKeyword::Unknown, true)]),
                ],
            ),
            plain("e3", &["m5"]),
        ],
    );
    assert_eq!(asked.len(), 3);
    let (state, emails) = finished(result);
    assert_eq!(state, "e3");
    assert_eq!(listed(&emails), vec!["m1", "m4", "m5"]);
    assert_eq!(emails.get(&id("m4")).unwrap().keywords.as_list(), &vec![EmailKeyword::Flagged]);
    assert!(emails.get(&id("m2")).is_none());
}

#[test]
fn server_without_any_of_the_emails_is_no_error() {
    let (asked, result) = fetch(1, &set(&["m1", "m2"]), vec![plain("e1", &[]), plain("e2", &[])]);
    assert_eq!(asked, vec![vec!["m1"], vec!["m2"]]);
    let (state, emails) = finished(result);
    assert_eq!(state, "e2");
    assert!(listed(&emails).is_empty());
}

#[test]
fn refused_request_for_emails_is_handed_on() {
    let refusal = vec![ResponseInvocation {
        call: MethodResponse::Error(MethodResponseError { text: "RequestTooLarge".to_string() }),
        id: "0".to_string(),
    }];
    let (asked, result) =
        fetch(1, &set(&["m1", "m2", "m3"]), vec![plain("e1", &["m1"]), refusal]);
    assert_eq!(asked.len(), 2);
    assert!(matches!(
        failed(result), Error::MethodError { error } if error.text == "RequestTooLarge"
    ));
}

#[test]
fn wrong_answers_to_a_request_for_emails_are_unexpected() {
    let (_, result) = fetch(1, &set(&["m1"]), vec![vec![]]);
    assert!(matches!(failed(result), Error::UnexpectedResponse));
    let mut two = plain("e1", &["m1"]);
    two.append(&mut plain("e1", &["m1"]));
    let (_, result) = fetch(1, &set(&["m1"]), vec![two]);
    assert!(matches!(failed(result), Error::UnexpectedResponse));
    let (_, result) = fetch(1, &set(&["m1"]), vec![response("1", "e1", vec![])]);
    assert!(matches!(failed(result), Error::UnexpectedResponse));
}

#[test]
fn set_keywords_are_kept() {
    let email = Email::from_jmap_email(sent(
        "m1",
        vec![
            (EmailKeyword::Seen, true),
            (EmailKeyword::Flagged, false),
            (EmailKeyword::Answered, true),
        ],
    ));
    assert_eq!(email.id.0, "m1");
    assert_eq!(email.blob_id.0, "blob of m1");
    assert!(email.keywords.contains(&EmailKeyword::Seen));
    assert!(!email.keywords.contains(&EmailKeyword::Flagged));
    assert!(email.keywords.contains(&EmailKeyword::Answered));
    assert_eq!(email.keywords.as_list().len(), 2);
    assert!(email.mailbox_ids.contains(&id("inbox")));
}

#[test]
fn unknown_keywords_are_left_out() {
    let email = Email::from_jmap_email(sent(
        "m1",
        vec![
            (EmailKeyword::Unknown, true),
            (EmailKeyword::Draft, true),
            (EmailKeyword::Unknown, true),
        ],
    ));
    assert!(!email.keywords.contains(&EmailKeyword::Unknown));
    assert_eq!(email.keywords.as_list(), &vec![EmailKeyword::Draft]);
}

#[test]
fn mailboxes_that_are_not_set_are_left_out() {
    let email = Email::from_jmap_email(jmap::Email {
        id: id("m1"),
        blob_id: id("b1"),
        keywords: Vec::new(),
        mailbox_ids: vec![(id("inbox"), true), (id("spam"), false), (id("work"), true)],
    });
    let mailboxes: Vec<&str> =
        email.mailbox_ids.as_list().iter().map(|id| id.0.as_str()).collect();
    assert_eq!(mailboxes, vec!["inbox", "work"]);
    assert!(email.keywords.as_list().is_empty());
}

#[test]
fn last_entry_of_a_key_counts() {
    let set = SmallSet::from_entries(vec![
        (id("a"), true),
        (id("b"), false),
        (id("a"), false),
        (id("b"), true),
        (id("c"), true),
        (id("c"), true),
    ]);
    assert!(!set.contains(&id("a")));
    assert!(set.contains(&id("b")));
    assert!(set.contains(&id("c")));
    assert_eq!(set.as_list().len(), 2);
}

#[test]
fn small_sets_hold_each_value_once() {
    let mut set: SmallSet<EmailKeyword> = SmallSet::new();
    set.insert(EmailKeyword::Junk);
    set.insert(EmailKeyword::Junk);
    set.insert(EmailKeyword::NotJunk);
    assert_eq!(set.as_list(), &vec![EmailKeyword::Junk, EmailKeyword::NotJunk]);
    set.remove(&EmailKeyword::Junk);
    set.remove(&EmailKeyword::Phishing);
    assert_eq!(set.as_list(), &vec![EmailKeyword::NotJunk]);
}
