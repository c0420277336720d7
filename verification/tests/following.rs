//! Following changes.
use jmap_remote::changes::UpdatedEmailIds;
use jmap_remote::error::Error;
use jmap_remote::exchange::Next;
use jmap_remote::http::HttpWrapper;
use jmap_remote::id_set::IdSet;
use jmap_remote::jmap::{
    Capabilities, CapabilityKind, CoreCapability, Id, MethodCall, MethodResponse,
    MethodResponseChanges, MethodResponseError, PrimaryAccounts, Response, ResponseInvocation,
    Session, State,
};
use jmap_remote::remote::Remote;

fn remote() -> Remote {
    Remote {
        http_wrapper: HttpWrapper::new("u", "p"),
        session_url: "https://example.org/session".to_string(),
        session: Session {
            capabilities: Capabilities { core: CoreCapability { max_objects_in_get: 500 } },
            primary_accounts: PrimaryAccounts { mail: Id("u1".to_string()) },
            api_url: "https://example.org/api".to_string(),
            download_url: "https://example.org/{blobId}".to_string(),
            state: State("s1".to_string()),
        },
    }
}

fn ids(texts: &[&str]) -> Vec<Id> {
    texts.iter().map(|text| Id(text.to_string())).collect()
}

fn listed(set: &IdSet) -> Vec<String> {
    set.as_list().iter().map(|id| id.0.clone()).collect()
}

fn changes(
    new_state: &str,
    has_more_changes: bool,
    created: &[&str],
    updated: &[&str],
    destroyed: &[&str],
) -> ResponseInvocation {
    ResponseInvocation {
        call: MethodResponse::EmailChanges(MethodResponseChanges {
            new_state: State(new_state.to_string()),
            has_more_changes,
            created: ids(created),
            updated: ids(updated),
            destroyed: ids(destroyed),
        }),
        id: "0".to_string(),
    }
}

/// Follows changes since `e0` with these responses. Returns the states that were asked about, and
/// what came of it.
fn follow(
    responses: Vec<Vec<ResponseInvocation>>,
) -> (Vec<String>, Result<(State, IdSet, IdSet), Error>) {
    let remote = remote();
    let mut states: Vec<String> = Vec::new();
    let mut responses = responses.into_iter();
    let mut next: Next<UpdatedEmailIds, (State, IdSet, IdSet)> =
        remote.updated_email_ids(State("e0".to_string()));
    loop {
        match next {
            Next::Post { call, then } => {
                assert_eq!(call.url, "https://example.org/api");
                assert_eq!(call.authorization, "Basic dTpw");
                assert_eq!(call.request.using, vec![CapabilityKind::Mail]);
                assert_eq!(call.request.method_calls.len(), 1);
                assert_eq!(call.request.method_calls[0].id, "0");
                match &call.request.method_calls[0].call {
                    MethodCall::EmailChanges { changes } => {
                        assert_eq!(changes.account_id.0, "u1");
                        assert_eq!(changes.max_changes, None);
                        states.push(changes.since_state.0.clone());
                    }
                    _ => panic!("no changes"),
                }
                let response = Response {
                    method_responses: responses.next().unwrap(),
                    session_state: State("s1".to_string()),
                };
                next = remote.replied(then, Ok(response));
            }
            Next::Refresh { .. } => panic!("the session is up to date"),
            Next::Done(result) => {
                assert!(responses.next().is_none());
                return (states, result);
            }
        }
    }
}

fn finished(result: Result<(State, IdSet, IdSet), Error>) -> (String, Vec<String>, Vec<String>) {
    match result {
        Ok((state, updated, destroyed)) => (state.0, listed(&updated), listed(&destroyed)),
        Err(error) => panic!("{}", error.message()),
    }
}

fn failed(result: Result<(State, IdSet, IdSet), Error>) -> Error {
    match result {
        Ok(_) => panic!("no error"),
        Err(error) => error,
    }
}

#[test]
fn created_and_updated_come_together() {
    let (states, result) =
        follow(vec![vec![changes("e1", false, &["m1", "m2"], &["m3"], &["m4"])]]);
    assert_eq!(states, vec!["e0"]);
    let (state, updated, destroyed) = finished(result);
    assert_eq!(state, "e1");
    assert_eq!(updated, vec!["m1", "m2", "m3"]);
    assert_eq!(destroyed, vec!["m4"]);
}

#[test]
fn no_changes_at_all() {
    let (states, result) = follow(vec![vec![changes("e0", false, &[], &[], &[])]]);
    assert_eq!(states, vec!["e0"]);
    assert_eq!(finished(result), ("e0".to_string(), Vec::new(), Vec::new()));
}

#[test]
fn changes_are_followed_while_there_are_more() {
    let (states, result) = follow(vec![
        vec![changes("e1", true, &["m1"], &["m2"], &["m3"])],
        vec![changes("e2", true, &[], &["m1"], &[])],
        vec![changes("e3", false, &["m4"], &["m2"], &["m1", "m3"])],
    ]);
    assert_eq!(states, vec!["e0", "e1", "e2"]);
    let (state, updated, destroyed) = finished(result);
    assert_eq!(state, "e3");
    assert_eq!(updated, vec!["m1", "m2", "m4"]);
    assert_eq!(destroyed, vec!["m3", "m1"]);
}

#[test]
fn an_id_can_be_both_updated_and_destroyed() {
    let (_, result) = follow(vec![vec![changes("e1", false, &["m1"], &["m1"], &["m1"])]]);
    let (_, updated, destroyed) = finished(result);
    assert_eq!(updated, vec!["m1"]);
    assert_eq!(destroyed, vec!["m1"]);
}

#[test]
fn refused_request_for_changes_is_handed_on() {
    let refusal = ResponseInvocation {
        call: MethodResponse::Error(MethodResponseError {
            text: "CannotCalculateChanges".to_string(),
        }),
        id: "0".to_string(),
    };
    let (states, result) =
        follow(vec![vec![changes("e1", true, &["m1"], &[], &[])], vec![refusal]]);
    assert_eq!(states, vec!["e0", "e1"]);
    assert!(matches!(
        failed(result), Error::MethodError { error } if error.text == "CannotCalculateChanges"
    ));
}

#[test]
fn wrong_number_of_changes_is_unexpected() {
    let (_, result) = follow(vec![vec![]]);
    assert!(matches!(failed(result), Error::UnexpectedResponse));
    let (_, result) = follow(vec![vec![
        changes("e1", false, &[], &[], &[]),
        changes("e1", false, &[], &[], &[]),
    ]]);
    assert!(matches!(failed(result), Error::UnexpectedResponse));
}

#[test]
fn changes_to_another_call_are_unexpected() {
    let mut other = changes("e1", false, &[], &[], &[]);
    other.id = "1".to_string();
    let (_, result) = follow(vec![vec![other]]);
    assert!(matches!(failed(result), Error::UnexpectedResponse));
}

#[test]
fn id_sets_keep_the_first_of_each_id() {
    let mut set = IdSet::collect(ids(&["b", "a", "b"]));
    assert_eq!(set.len(), 2);
    assert!(!set.insert(Id("a".to_string())));
    assert!(set.insert(Id("c".to_string())));
    set.extend(ids(&["d", "a", "d"]));
    assert_eq!(listed(&set), vec!["b", "a", "c", "d"]);
    assert!(set.contains(&Id("d".to_string())));
    assert!(!set.contains(&Id("D".to_string())));
    assert_eq!(IdSet::new().len(), 0);
}
