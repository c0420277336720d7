//! Listing all emails, and the exchange of requests and responses underneath.
use jmap_remote::error::Error;
use jmap_remote::exchange::{
    expect_email_changes, expect_email_get, expect_email_query, Next,
};
use jmap_remote::http::{ApiCall, HttpWrapper, PostFailure};
use jmap_remote::id_set::IdSet;
use jmap_remote::jmap::{
    Capabilities, CapabilityKind, CoreCapability, Id, MethodCall, MethodResponse,
    MethodResponseChanges, MethodResponseError, MethodResponseGet, MethodResponseQuery,
    PrimaryAccounts, Response, ResponseInvocation, Session, State,
};
use jmap_remote::paging::AllEmailIds;
use jmap_remote::remote::Remote;

fn session(account: &str, api_url: &str, state: &str) -> Session {
    Session {
        capabilities: Capabilities { core: CoreCapability { max_objects_in_get: 500 } },
        primary_accounts: PrimaryAccounts { mail: Id(account.to_string()) },
        api_url: api_url.to_string(),
        download_url: "https://example.org/{blobId}".to_string(),
        state: State(state.to_string()),
    }
}

fn remote() -> Remote {
    Remote {
        http_wrapper: HttpWrapper::new("u", "p"),
        session_url: "https://example.org/session".to_string(),
        session: session("u1", "https://example.org/api", "s1"),
    }
}

fn ids(texts: &[&str]) -> Vec<Id> {
    texts.iter().map(|text| Id(text.to_string())).collect()
}

fn listed(set: &IdSet) -> Vec<&str> {
    set.as_list().iter().map(|id| id.0.as_str()).collect()
}

fn get(id: &str, state: &str) -> ResponseInvocation {
    ResponseInvocation {
        call: MethodResponse::EmailGet(MethodResponseGet {
            state: State(state.to_string()),
            list: Vec::new(),
        }),
        id: id.to_string(),
    }
}

fn query(id: &str, texts: &[&str], limit: Option<u64>) -> ResponseInvocation {
    ResponseInvocation {
        call: MethodResponse::EmailQuery(MethodResponseQuery { ids: ids(texts), limit }),
        id: id.to_string(),
    }
}

fn changes(id: &str) -> ResponseInvocation {
    ResponseInvocation {
        call: MethodResponse::EmailChanges(MethodResponseChanges {
            new_state: State("e9".to_string()),
            has_more_changes: false,
            created: Vec::new(),
            updated: Vec::new(),
            destroyed: Vec::new(),
        }),
        id: id.to_string(),
    }
}

fn refusal(id: &str, text: &str) -> ResponseInvocation {
    ResponseInvocation {
        call: MethodResponse::Error(MethodResponseError { text: text.to_string() }),
        id: id.to_string(),
    }
}

fn response(method_responses: Vec<ResponseInvocation>) -> Response {
    Response { method_responses, session_state: State("s1".to_string()) }
}

/// Lists with these responses. Returns the anchors of the requests after the first one, and what
/// came of it.
fn list(responses: Vec<Response>) -> (Vec<String>, Result<(State, IdSet), Error>) {
    let remote = remote();
    let mut anchors: Vec<String> = Vec::new();
    let mut responses = responses.into_iter();
    let mut next = remote.all_email_ids();
    let mut is_first = true;
    loop {
        match next {
            Next::Post { call, then } => {
                check_call(&call);
                if !is_first {
                    assert_eq!(call.request.method_calls.len(), 1);
                    anchors.push(anchor(&call, 0).unwrap());
                }
                is_first = false;
                next = remote.replied(then, Ok(responses.next().unwrap()));
            }
            Next::Refresh { .. } => panic!("the session is up to date"),
            Next::Done(result) => {
                assert!(responses.next().is_none());
                return (anchors, result);
            }
        }
    }
}

fn check_call(call: &ApiCall) {
    assert_eq!(call.url, "https://example.org/api");
    assert_eq!(call.authorization, "Basic dTpw");
    assert_eq!(call.request.using, vec![CapabilityKind::Mail]);
    assert!(call.request.created_ids.is_none());
}

/// The anchor of the query at a place in a request.
fn anchor(call: &ApiCall, at: usize) -> Option<String> {
    assert_eq!(call.request.method_calls[at].id, "1");
    match &call.request.method_calls[at].call {
        MethodCall::EmailQuery { query } => {
            assert_eq!(query.account_id.0, "u1");
            assert_eq!(query.position, 0);
            assert_eq!(query.limit, None);
            assert!(!query.calculate_total);
            assert_eq!(query.anchor_offset, if query.anchor.is_some() { 1 } else { 0 });
            query.anchor.as_ref().map(|id| id.0.clone())
        }
        _ => panic!("no query"),
    }
}

fn finished(result: Result<(State, IdSet), Error>) -> (String, Vec<String>) {
    match result {
        Ok((state, set)) => {
            (state.0.clone(), listed(&set).iter().map(|text| text.to_string()).collect())
        }
        Err(error) => panic!("{}", error.message()),
    }
}

fn failed(result: Result<(State, IdSet), Error>) -> Error {
    match result {
        Ok(_) => panic!("no error"),
        Err(error) => error,
    }
}

#[test]
fn first_request_asks_for_the_state_before_the_page() {
    match remote().all_email_ids() {
        Next::Post { call, then } => {
            check_call(&call);
            assert_eq!(call.request.method_calls.len(), 2);
            assert_eq!(call.request.method_calls[0].id, "0");
            match &call.request.method_calls[0].call {
                MethodCall::EmailGet { get } => {
                    assert_eq!(get.account_id.0, "u1");
                    assert!(get.ids.as_ref().unwrap().is_empty());
                    assert!(get.properties.as_ref().unwrap().is_empty());
                }
                _ => panic!("no get"),
            }
            assert_eq!(anchor(&call, 1), None);
            assert!(matches!(then, AllEmailIds::First));
        }
        _ => panic!("no call"),
    }
}

#[test]
fn page_without_a_limit_is_all() {
    let (anchors, result) = list(vec![response(vec![
        get("0", "e1"),
        query("1", &["m2", "m1", "m2"], None),
    ])]);
    assert!(anchors.is_empty());
    assert_eq!(finished(result), ("e1".to_string(), vec!["m2".to_string(), "m1".to_string()]));
}

#[test]
fn page_below_the_limit_is_all() {
    let (anchors, result) =
        list(vec![response(vec![get("0", "e1"), query("1", &["m1", "m2"], Some(3))])]);
    assert!(anchors.is_empty());
    assert_eq!(finished(result), ("e1".to_string(), vec!["m1".to_string(), "m2".to_string()]));
}

#[test]
fn empty_page_is_all() {
    let (anchors, result) = list(vec![response(vec![get("0", "e1"), query("1", &[], Some(1))])]);
    assert!(anchors.is_empty());
    assert_eq!(finished(result), ("e1".to_string(), Vec::<String>::new()));
}

#[test]
fn limit_of_zero_is_unexpected() {
    let (_, result) = list(vec![response(vec![get("0", "e1"), query("1", &[], Some(0))])]);
    assert!(matches!(failed(result), Error::UnexpectedResponse));
    let (_, result) = list(vec![response(vec![get("0", "e1"), query("1", &["m1"], Some(0))])]);
    assert!(matches!(failed(result), Error::UnexpectedResponse));
}

#[test]
fn full_pages_are_followed_until_a_short_one() {
    let (anchors, result) = list(vec![
        response(vec![get("0", "e1"), query("1", &["m1", "m2"], Some(2))]),
        response(vec![query("1", &["m3", "m4"], Some(2))]),
        response(vec![query("1", &["m5"], Some(2))]),
    ]);
    assert_eq!(anchors, vec!["m2", "m4"]);
    let (state, list) = finished(result);
    assert_eq!(state, "e1");
    assert_eq!(list, vec!["m1", "m2", "m3", "m4", "m5"]);
}

#[test]
fn full_pages_are_followed_until_an_empty_one() {
    let (anchors, result) = list(vec![
        response(vec![get("0", "e1"), query("1", &["m1", "m2"], Some(2))]),
        response(vec![query("1", &["m3", "m4"], Some(2))]),
        // The limit of an empty page does not matter, not even a limit of zero.
        response(vec![query("1", &[], Some(0))]),
    ]);
    assert_eq!(anchors, vec!["m2", "m4"]);
    assert_eq!(finished(result).1, vec!["m1", "m2", "m3", "m4"]);
}

#[test]
fn full_pages_are_followed_until_one_without_a_limit() {
    let (anchors, result) = list(vec![
        response(vec![get("0", "e1"), query("1", &["m1"], Some(1))]),
        response(vec![query("1", &["m2", "m3"], None)]),
    ]);
    assert_eq!(anchors, vec!["m1"]);
    assert_eq!(finished(result).1, vec!["m1", "m2", "m3"]);
}

#[test]
fn page_over_the_limit_is_followed() {
    let (anchors, result) = list(vec![
        response(vec![get("0", "e1"), query("1", &["m1", "m2", "m3"], Some(2))]),
        response(vec![query("1", &["m4"], Some(2))]),
    ]);
    assert_eq!(anchors, vec!["m3"]);
    assert_eq!(finished(result).1, vec!["m1", "m2", "m3", "m4"]);
}

#[test]
fn ids_that_recur_over_pages_are_listed_once() {
    let (_, result) = list(vec![
        response(vec![get("0", "e1"), query("1", &["m1", "m2"], Some(2))]),
        response(vec![query("1", &["m2", "m3"], Some(3))]),
    ]);
    assert_eq!(finished(result).1, vec!["m1", "m2", "m3"]);
}

#[test]
fn every_cut_of_a_listing_is_listed_in_full() {
    let all = ["m1", "m2", "m3", "m4", "m5", "m6"];
    for size in 1..8usize {
        let mut responses: Vec<Response> = Vec::new();
        let mut from: usize = 0;
        loop {
            let to = std::cmp::min(from + size, all.len());
            let page = query("1", &all[from..to], Some(size as u64));
            if from == 0 {
                responses.push(response(vec![get("0", "e1"), page]));
            } else {
                responses.push(response(vec![page]));
            }
            if to - from < size {
                break;
            }
            from = to;
        }
        assert!(responses.len() <= all.len() + 1);
        let (_, result) = list(responses);
        let (state, list) = finished(result);
        assert_eq!(state, "e1");
        assert_eq!(list, all);
    }
}

#[test]
fn limit_of_zero_on_a_later_page_is_unexpected() {
    let (_, result) = list(vec![
        response(vec![get("0", "e1"), query("1", &["m1"], Some(1))]),
        response(vec![query("1", &["m2"], Some(0))]),
    ]);
    assert!(matches!(failed(result), Error::UnexpectedResponse));
}

#[test]
fn wrong_number_of_responses_is_unexpected() {
    for first in [
        vec![],
        vec![query("1", &["m1"], None)],
        vec![get("0", "e1"), query("1", &["m1"], None), query("1", &["m1"], None)],
    ] {
        let (_, result) = list(vec![response(first)]);
        assert!(matches!(failed(result), Error::UnexpectedResponse));
    }
    for later in [vec![], vec![get("0", "e1"), query("1", &["m2"], None)]] {
        let (_, result) = list(vec![
            response(vec![get("0", "e1"), query("1", &["m1"], Some(1))]),
            response(later),
        ]);
        assert!(matches!(failed(result), Error::UnexpectedResponse));
    }
}

#[test]
fn responses_in_the_wrong_order_are_unexpected() {
    let (_, result) = list(vec![response(vec![query("1", &["m1"], None), get("0", "e1")])]);
    assert!(matches!(failed(result), Error::UnexpectedResponse));
}

#[test]
fn refused_query_is_handed_on() {
    let (_, result) = list(vec![response(vec![get("0", "e1"), refusal("1", "ServerFail")])]);
    assert!(matches!(
        failed(result), Error::MethodError { error } if error.text == "ServerFail"
    ));
    let (_, result) = list(vec![
        response(vec![get("0", "e1"), query("1", &["m1"], Some(1))]),
        response(vec![refusal("1", "AnchorNotFound")]),
    ]);
    assert!(matches!(
        failed(result), Error::MethodError { error } if error.text == "AnchorNotFound"
    ));
}

#[test]
fn refused_query_counts_before_refused_get() {
    let (_, result) = list(vec![response(vec![refusal("0", "get"), refusal("1", "query")])]);
    assert!(matches!(failed(result), Error::MethodError { error } if error.text == "query"));
    let (_, result) =
        list(vec![response(vec![refusal("0", "get"), query("1", &["m1"], Some(0))])]);
    assert!(matches!(failed(result), Error::MethodError { error } if error.text == "get"));
}

#[test]
fn failed_calls_are_reported() {
    let remote = remote();
    let sent = remote.replied(AllEmailIds::First, Err(PostFailure::Send("down".to_string())));
    assert!(matches!(
        sent, Next::Done(Err(Error::Request { source })) if source == "down"
    ));
    let read = remote.replied(AllEmailIds::First, Err(PostFailure::Read("cut off".to_string())));
    assert!(matches!(
        read, Next::Done(Err(Error::Response { source })) if source == "cut off"
    ));
}

#[test]
fn session_is_fetched_anew_when_its_state_changes() {
    let mut remote = remote();
    let mut sent = response(vec![get("0", "e1"), query("1", &["m1"], Some(1))]);
    sent.session_state = State("s2".to_string());
    let next = remote.replied(AllEmailIds::First, Ok(sent));
    let (fetch, waiting, then) = match next {
        Next::Refresh { fetch, response, then } => (fetch, response, then),
        _ => panic!("no refresh"),
    };
    assert_eq!(fetch.url, "https://example.org/session");
    assert_eq!(fetch.authorization, "Basic dTpw");
    assert_eq!(waiting.session_state.0, "s2");

    // The next request goes by the new session.
    let fetched = ("https://elsewhere.org".to_string(), session("u2", "https://new.org/api", "s2"));
    match remote.refreshed(then, waiting, Ok(fetched)) {
        Next::Post { call, .. } => {
            assert_eq!(call.url, "https://new.org/api");
            match &call.request.method_calls[0].call {
                MethodCall::EmailQuery { query } => assert_eq!(query.account_id.0, "u2"),
                _ => panic!("no query"),
            }
        }
        _ => panic!("no call"),
    }
    assert_eq!(remote.session.state.0, "s2");
    // The place of the session object stays.
    assert_eq!(remote.session_url, "https://example.org/session");
}

#[test]
fn failed_update_of_the_session_is_reported() {
    let mut remote = remote();
    let sent = response(vec![get("0", "e1"), query("1", &["m1"], None)]);
    let next = remote.refreshed(AllEmailIds::First, sent, Err("down".to_string()));
    assert!(matches!(
        next,
        Next::Done(Err(Error::UpdateSession { session_url, source }))
            if session_url == "https://example.org/session" && source == "down"
    ));
    assert_eq!(remote.session.state.0, "s1");
}

#[test]
fn session_state_is_compared() {
    let mut remote = remote();
    assert!(remote.update_session_state(&State("s1".to_string())).is_none());
    let call = remote.update_session_state(&State("s2".to_string())).unwrap();
    assert_eq!(call.url, "https://example.org/session");
    let fetched = ("https://elsewhere.org".to_string(), session("u1", "https://x/api", "s2"));
    assert!(remote.session_updated(Ok(fetched)).is_ok());
    assert!(remote.update_session_state(&State("s2".to_string())).is_none());
    assert!(remote.session_updated(Err("down".to_string())).is_err());
    assert_eq!(remote.session.state.0, "s2");
}

#[test]
fn expected_responses_are_taken_out() {
    assert_eq!(expect_email_get("0", get("0", "e1")).unwrap().state.0, "e1");
    assert_eq!(expect_email_query("1", query("1", &["m1"], Some(7))).unwrap().limit, Some(7));
    assert_eq!(expect_email_changes("0", changes("0")).unwrap().new_state.0, "e9");
}

#[test]
fn responses_to_other_calls_are_unexpected() {
    assert!(matches!(expect_email_get("0", get("1", "e1")), Err(Error::UnexpectedResponse)));
    assert!(matches!(
        expect_email_query("1", query("01", &[], None)), Err(Error::UnexpectedResponse)
    ));
    assert!(matches!(expect_email_changes("0", changes("")), Err(Error::UnexpectedResponse)));
    // Even where the response is an error.
    assert!(matches!(expect_email_get("0", refusal("1", "x")), Err(Error::UnexpectedResponse)));
    assert!(matches!(expect_email_query("1", refusal("0", "x")), Err(Error::UnexpectedResponse)));
    assert!(matches!(expect_email_changes("0", refusal("1", "x")), Err(Error::UnexpectedResponse)));
}

#[test]
fn responses_of_other_methods_are_unexpected() {
    assert!(matches!(
        expect_email_get("0", query("0", &[], None)), Err(Error::UnexpectedResponse)
    ));
    assert!(matches!(expect_email_get("0", changes("0")), Err(Error::UnexpectedResponse)));
    assert!(matches!(expect_email_query("0", get("0", "e1")), Err(Error::UnexpectedResponse)));
    assert!(matches!(expect_email_query("0", changes("0")), Err(Error::UnexpectedResponse)));
    assert!(matches!(expect_email_changes("0", get("0", "e1")), Err(Error::UnexpectedResponse)));
    assert!(matches!(
        expect_email_changes("0", query("0", &[], None)), Err(Error::UnexpectedResponse)
    ));
}

#[test]
fn method_errors_are_handed_on() {
    assert!(matches!(
        expect_email_get("0", refusal("0", "x")),
        Err(Error::MethodError { error }) if error.text == "x"
    ));
    assert!(matches!(
        expect_email_query("0", refusal("0", "y")),
        Err(Error::MethodError { error }) if error.text == "y"
    ));
    assert!(matches!(
        expect_email_changes("0", refusal("0", "z")),
        Err(Error::MethodError { error }) if error.text == "z"
    ));
}
