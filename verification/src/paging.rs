//! Listing the ids of all emails, page by page.
use crate::error::Error;
use crate::exchange::{
    expect_email_get, expect_email_query, expected_email_get, expected_email_query, is_mail_call,
    is_trace, lemma_trace_prefix, Next, Operation,
};
use crate::http::ApiCall;
use crate::id_set::{id_texts, ids_of_a_list_are_those_in_it, IdSet};
use crate::jmap::{
    Email, Id, MethodCall, MethodCallGet, MethodCallQuery, MethodResponse, MethodResponseError,
    MethodResponseGet, MethodResponseQuery, Request, RequestInvocation, Response, State,
};
use crate::remote::Remote;
use vstd::prelude::*;

verus! {

/// The listing of all emails' ids, which waits for a response.
#[derive(Debug)]
pub enum AllEmailIds {
    /// It has asked for the state and the first page.
    First,
    /// It has asked for the page after the last of `email_ids`.
    Rest { state: State, email_ids: Vec<Id> },
}

/// How far a listing is, apart from how it is held.
pub enum Paging {
    First,
    Rest { state: State, ids: Seq<Id> },
}

/// What a page makes of a listing.
pub enum PagingOutcome {
    Failed(Error),
    Finished { state: State, ids: Seq<Id> },
    /// There may be more to come after the last of `ids`.
    More { state: State, ids: Seq<Id> },
}

/// Whether a listing of `ids`, whose last page is `page`, is complete: it is where the server
/// imposed no limit on the page, or did not use the limit up. A limit of zero is nonsense.
pub open spec fn judged(state: State, ids: Seq<Id>, page: MethodResponseQuery) -> PagingOutcome {
    match page.limit {
        None => PagingOutcome::Finished { state, ids },
        Some(limit) => if limit == 0 {
            PagingOutcome::Failed(Error::UnexpectedResponse)
        } else if page.ids@.len() < limit {
            PagingOutcome::Finished { state, ids }
        } else {
            PagingOutcome::More { state, ids }
        },
    }
}

impl Paging {
    /// What comes of the response to the request made last.
    pub open spec fn outcome(self, response: Response) -> PagingOutcome {
        let responses = response.method_responses@;
        match self {
            Paging::First => if responses.len() != 2 {
                PagingOutcome::Failed(Error::UnexpectedResponse)
            } else {
                match expected_email_query("1"@, responses[1]) {
                    Err(error) => PagingOutcome::Failed(error),
                    Ok(page) => match expected_email_get("0"@, responses[0]) {
                        Err(error) => PagingOutcome::Failed(error),
                        Ok(get) => judged(get.state, page.ids@, page),
                    },
                }
            },
            Paging::Rest { state, ids } => if responses.len() != 1 {
                PagingOutcome::Failed(Error::UnexpectedResponse)
            } else {
                match expected_email_query("1"@, responses[0]) {
                    Err(error) => PagingOutcome::Failed(error),
                    Ok(page) => if page.ids@.len() == 0 {
                        PagingOutcome::Finished { state, ids }
                    } else {
                        judged(state, ids + page.ids@, page)
                    },
                }
            },
        }
    }
}

/// A query for ids, from the start or from `anchor_offset` places after an anchor.
pub open spec fn page_query(account_id: Id, anchor: Option<Id>, anchor_offset: i64) -> MethodCall {
    MethodCall::EmailQuery {
        query: MethodCallQuery {
            account_id,
            position: 0,
            anchor,
            anchor_offset,
            limit: None,
            calculate_total: false,
        },
    }
}

/// Whether `call` asks for the state of the emails, and then for the first page.
pub open spec fn asks_for_first_page(call: &ApiCall, remote: &Remote) -> bool {
    let account_id = remote.session.primary_accounts.mail;
    let calls = call.request.method_calls@;
    &&& is_mail_call(call, remote)
    &&& calls.len() == 2
    &&& calls[0].id@ == "0"@
    &&& calls[0].call matches MethodCall::EmailGet { get }
    &&& get.account_id == account_id
    &&& get.ids matches Some(ids)
    &&& ids@.len() == 0
    &&& get.properties matches Some(properties)
    &&& properties@.len() == 0
    &&& calls[1].id@ == "1"@
    &&& calls[1].call == page_query(account_id, None, 0)
}

/// Whether `call` asks for the page after `anchor`.
pub open spec fn asks_for_page_after(call: &ApiCall, remote: &Remote, anchor: Id) -> bool {
    let calls = call.request.method_calls@;
    &&& is_mail_call(call, remote)
    &&& calls.len() == 1
    &&& calls[0].id@ == "1"@
    &&& calls[0].call == page_query(remote.session.primary_accounts.mail, Some(anchor), 1)
}

impl AllEmailIds {
    /// How far the listing is.
    pub open spec fn paging(&self) -> Paging {
        match self {
            AllEmailIds::First => Paging::First,
            AllEmailIds::Rest { state, email_ids } => Paging::Rest {
                state: *state,
                ids: email_ids@,
            },
        }
    }
}

fn query_invocation(account_id: &Id, anchor: Option<Id>, anchor_offset: i64) -> (invocation:
    RequestInvocation)
    ensures
        invocation.id@ == "1"@,
        invocation.call == page_query(*account_id, anchor, anchor_offset),
{
    RequestInvocation {
        call: MethodCall::EmailQuery {
            query: MethodCallQuery {
                account_id: account_id.clone(),
                position: 0,
                anchor,
                anchor_offset,
                limit: None,
                calculate_total: false,
            },
        },
        id: "1".to_owned(),
    }
}

/// Decides whether a listing is complete, and asks for the next page where it may not be.
fn continued(
    remote: &Remote,
    state: State,
    email_ids: Vec<Id>,
    page_len: usize,
    limit: Option<u64>,
) -> (next: Next<AllEmailIds, (State, IdSet)>)
    requires
        page_len <= email_ids@.len(),
    ensures
        match limit {
            Some(0) => next == Next::<AllEmailIds, (State, IdSet)>::Done(
                Err(Error::UnexpectedResponse),
            ),
            Some(limit) if limit <= page_len => {
                &&& next matches Next::Post { call, then }
                &&& asks_for_page_after(&call, remote, email_ids@.last())
                &&& then.paging() == (Paging::Rest { state, ids: email_ids@ })
            },
            _ => {
                &&& next matches Next::Done(Ok((final_state, ids)))
                &&& final_state == state
                &&& ids.wf()
                &&& ids@ == id_texts(email_ids@)
            },
        },
{
    let limit = match limit {
        Some(limit) => limit,
        None => return Next::Done(Ok((state, IdSet::collect(email_ids)))),
    };
    if limit == 0 {
        return Next::Done(Err(Error::UnexpectedResponse));
    }
    if (page_len as u64) < limit {
        return Next::Done(Ok((state, IdSet::collect(email_ids))));
    }
    let anchor = email_ids[email_ids.len() - 1].clone();
    let invocation = query_invocation(&remote.session.primary_accounts.mail, Some(anchor), 1);
    let call = remote.mail_request(vec![invocation]);
    Next::Post { call, then: AllEmailIds::Rest { state, email_ids } }
}

impl Operation for AllEmailIds {
    type Output = (State, IdSet);

    open spec fn wf(&self) -> bool {
        true
    }

    open spec fn followed_by(
        &self,
        remote: &Remote,
        response: &Response,
        next: &Next<Self, (State, IdSet)>,
    ) -> bool {
        match self.paging().outcome(*response) {
            PagingOutcome::Failed(error) => *next == Next::<Self, (State, IdSet)>::Done(Err(error)),
            PagingOutcome::Finished { state, ids } => {
                &&& next matches Next::Done(Ok((final_state, set)))
                &&& final_state == state
                &&& set.wf()
                &&& set@ == id_texts(ids)
            },
            PagingOutcome::More { state, ids } => {
                &&& next matches Next::Post { call, then }
                &&& asks_for_page_after(call, remote, ids.last())
                &&& then.paging() == (Paging::Rest { state, ids })
            },
        }
    }

    fn accept(self, remote: &Remote, response: Response) -> (next: Next<Self, (State, IdSet)>) {
        let mut method_responses = response.method_responses;
        match self {
            AllEmailIds::First => {
                if method_responses.len() != 2 {
                    return Next::Done(Err(Error::UnexpectedResponse));
                }
                let page = match expect_email_query("1", method_responses.remove(1)) {
                    Ok(page) => page,
                    Err(error) => return Next::Done(Err(error)),
                };
                let get = match expect_email_get("0", method_responses.remove(0)) {
                    Ok(get) => get,
                    Err(error) => return Next::Done(Err(error)),
                };
                let page_len = page.ids.len();
                continued(remote, get.state, page.ids, page_len, page.limit)
            },
            AllEmailIds::Rest { state, email_ids } => {
                if method_responses.len() != 1 {
                    return Next::Done(Err(Error::UnexpectedResponse));
                }
                let page = match expect_email_query("1", method_responses.remove(0)) {
                    Ok(page) => page,
                    Err(error) => return Next::Done(Err(error)),
                };
                let mut email_ids = email_ids;
                let mut page_ids = page.ids;
                let page_len = page_ids.len();
                // There are no more ids.
                if page_len == 0 {
                    return Next::Done(Ok((state, IdSet::collect(email_ids))));
                }
                email_ids.append(&mut page_ids);
                continued(remote, state, email_ids, page_len, page.limit)
            },
        }
    }
}

impl Remote {
    /// Return a list of all `Email` IDs that exist on the server and a state
    /// `String` returned by `Email/get`.
    ///
    /// This function calls `Email/get` before `Email/query` in case any new
    /// `Email` objects appear in-between the call to `Email/query` and future
    /// calls to `Email/changes`. If done in the opposite order, an `Email`
    /// might slip through the cracks.
    pub fn all_email_ids(&self) -> (next: Next<AllEmailIds, (State, IdSet)>)
        ensures
            next.wf(),
            next matches Next::Post { call, then } && asks_for_first_page(&call, self)
                && then.paging() == Paging::First && then == AllEmailIds::First,
    {
        let account_id = &self.session.primary_accounts.mail;
        let get = RequestInvocation {
            call: MethodCall::EmailGet {
                get: MethodCallGet {
                    account_id: account_id.clone(),
                    ids: Some(Vec::new()),
                    properties: Some(Vec::new()),
                },
            },
            id: "0".to_owned(),
        };
        let query = query_invocation(account_id, None, 0);
        let call = self.mail_request(vec![get, query]);
        Next::Post { call, then: AllEmailIds::First }
    }
}

/// What comes of the responses to the requests of a listing, one after the other. A listing that
/// has come to an end stays as it is.
pub open spec fn paging_run(responses: Seq<Response>) -> PagingOutcome
    recommends
        responses.len() > 0,
    decreases responses.len(),
{
    if responses.len() <= 1 {
        Paging::First.outcome(responses[0])
    } else {
        match paging_run(responses.drop_last()) {
            PagingOutcome::More { state, ids } => Paging::Rest { state, ids }.outcome(
                responses.last(),
            ),
            ended => ended,
        }
    }
}

/// Whether a listing goes on until the last of the responses comes.
pub open spec fn goes_on(responses: Seq<Response>) -> bool {
    forall|n: int|
        0 < n < responses.len() ==> #[trigger] paging_run(responses.take(n)) is More
}

/// The ids in the `i`-th response of a listing.
pub open spec fn page_ids(i: int, response: Response) -> Seq<Id> {
    match response.method_responses@[if i == 0 { 1 } else { 0 }].call {
        MethodResponse::EmailQuery(page) => page.ids@,
        _ => Seq::empty(),
    }
}

/// The ids of all pages, one page after the other.
pub open spec fn all_page_ids(responses: Seq<Response>) -> Seq<Id>
    decreases responses.len(),
{
    if responses.len() == 0 {
        Seq::empty()
    } else {
        all_page_ids(responses.drop_last()) + page_ids(responses.len() - 1, responses.last())
    }
}

/// The state that the `Email/get` call of the first request brought.
pub open spec fn first_state(responses: Seq<Response>) -> Option<State> {
    match responses[0].method_responses@[0].call {
        MethodResponse::EmailGet(get) => Some(get.state),
        _ => None,
    }
}

proof fn lemma_goes_on(responses: Seq<Response>)
    requires
        responses.len() > 1,
        goes_on(responses),
    ensures
        goes_on(responses.drop_last()),
        paging_run(responses.drop_last()) is More,
{
    let init = responses.drop_last();
    assert(responses.take(init.len() as int) =~= init);
    assert forall|n: int| 0 < n < init.len() implies #[trigger] paging_run(
        init.take(n),
    ) is More by {
        assert(init.take(n) =~= responses.take(n));
    }
}

/// A listing that does not fail collects the ids of every page, in order, and nothing else; its
/// state is the one that `Email/get` brought along with the first page.
pub proof fn listing_collects_every_page(responses: Seq<Response>)
    requires
        responses.len() > 0,
        goes_on(responses),
    ensures
        match paging_run(responses) {
            PagingOutcome::Failed(_) => true,
            PagingOutcome::Finished { state, ids } => ids == all_page_ids(responses) && Some(state)
                == first_state(responses),
            PagingOutcome::More { state, ids } => ids == all_page_ids(responses) && Some(state)
                == first_state(responses),
        },
    decreases responses.len(),
{
    let init = responses.drop_last();
    if responses.len() == 1 {
        assert(all_page_ids(init) =~= Seq::empty());
        assert(Seq::<Id>::empty() + page_ids(0, responses[0]) =~= page_ids(0, responses[0]));
    } else {
        lemma_goes_on(responses);
        listing_collects_every_page(init);
        assert(init[0] == responses[0]);
        let page = page_ids(responses.len() - 1, responses.last());
        assert(page.len() == 0 ==> all_page_ids(init) + page =~= all_page_ids(init));
    }
}

/// Whether `page` holds the ids of `listing` that follow the anchor, the last of `collected`
/// (from the start, where nothing is collected yet): as many as the server's limit allows, or
/// all of them where it names none.
pub open spec fn is_honest_page(
    listing: Seq<Id>,
    collected: Seq<Id>,
    page: MethodResponseQuery,
) -> bool {
    forall|from: int| #[trigger]
        starts_page(listing, collected, from) ==> {
            let len = page.ids@.len() as int;
            &&& from + len <= listing.len()
            &&& page.ids@ == listing.subrange(from, from + len)
            &&& match page.limit {
                None => from + len == listing.len(),
                Some(limit) => 0 < limit && len <= limit && (len < limit ==> from + len
                    == listing.len()),
            }
        }
}

/// Whether `from` is the place in `listing` right after the last of `collected`.
pub open spec fn starts_page(listing: Seq<Id>, collected: Seq<Id>, from: int) -> bool {
    if collected.len() == 0 {
        from == 0
    } else {
        0 < from <= listing.len() && listing[from - 1]@ == collected.last()@
    }
}

/// Whether the responses answer the requests of a listing one after the other, by a server that
/// has the emails of `listing`.
pub open spec fn is_honest(listing: Seq<Id>, responses: Seq<Response>) -> bool
    decreases responses.len(),
{
    let last = responses.last().method_responses@;
    if responses.len() == 0 {
        true
    } else if responses.len() == 1 {
        &&& last.len() == 2
        &&& last[0].id@ == "0"@
        &&& last[0].call is EmailGet
        &&& last[1].id@ == "1"@
        &&& last[1].call matches MethodResponse::EmailQuery(page) && is_honest_page(
            listing,
            Seq::empty(),
            page,
        )
    } else {
        &&& is_honest(listing, responses.drop_last())
        &&& paging_run(responses.drop_last()) matches PagingOutcome::More { ids, .. } ==> {
            &&& last.len() == 1
            &&& last[0].id@ == "1"@
            &&& last[0].call matches MethodResponse::EmailQuery(page) && is_honest_page(
                listing,
                ids,
                page,
            )
        }
    }
}

/// With an honest server, what is collected is a growing prefix of the listing, and all of it at
/// the end.
proof fn lemma_honest_listing(listing: Seq<Id>, responses: Seq<Response>)
    requires
        responses.len() > 0,
        is_honest(listing, responses),
    ensures
        match paging_run(responses) {
            PagingOutcome::Failed(_) => false,
            PagingOutcome::Finished { state, ids } => ids == listing && Some(state) == first_state(
                responses,
            ),
            PagingOutcome::More { state, ids } => responses.len() <= ids.len() <= listing.len()
                && ids == listing.take(ids.len() as int) && Some(state) == first_state(responses),
        },
    decreases responses.len(),
{
    let last = responses.last().method_responses@;
    if responses.len() == 1 {
        assert(starts_page(listing, Seq::empty(), 0));
        let page = expected_email_query("1"@, last[1])->Ok_0;
        assert(page.ids@.len() == listing.len() ==> page.ids@ =~= listing);
        assert(page.ids@ =~= listing.take(page.ids@.len() as int));
    } else {
        let init = responses.drop_last();
        lemma_honest_listing(listing, init);
        assert(init[0] == responses[0]);
        if let PagingOutcome::More { state, ids } = paging_run(init) {
            assert(starts_page(listing, ids, ids.len() as int));
            let page = expected_email_query("1"@, last[0])->Ok_0;
            let all = ids + page.ids@;
            assert(all =~= listing.take(all.len() as int));
            assert(all.len() == listing.len() ==> all =~= listing);
        }
    }
}

/// However the server cuts the listing of its emails into pages, the operation ends with all of
/// it and with the state that came with the first page, and takes no more requests than one for
/// each email and one more.
pub proof fn honest_server_is_listed_in_full(listing: Seq<Id>, responses: Seq<Response>)
    requires
        responses.len() > listing.len(),
        is_honest(listing, responses),
    ensures
        paging_run(responses) matches PagingOutcome::Finished { state, ids } && ids == listing
            && Some(state) == first_state(responses),
{
    lemma_honest_listing(listing, responses);
}

/// Where there may be more to come, the last page is not empty, and its last id is the one that
/// the next request anchors at.
pub proof fn next_page_follows_the_last_one(paging: Paging, response: Response)
    requires
        paging.outcome(response) is More,
    ensures
        ({
            let page = page_ids(if paging is First { 0 } else { 1 }, response);
            &&& page.len() > 0
            &&& paging.outcome(response)->More_ids.last() == page.last()
        }),
{
}

/// A refused query ends the listing with the server's error, at any page.
pub proof fn refused_query_is_reported(
    paging: Paging,
    response: Response,
    error: MethodResponseError,
)
    requires
        ({
            let responses = response.method_responses@;
            &&& responses.len() == if paging is First { 2nat } else { 1nat }
            &&& responses.last().id@ == "1"@
            &&& responses.last().call == MethodResponse::Error(error)
        }),
    ensures
        paging.outcome(response) == PagingOutcome::Failed(Error::MethodError { error }),
{
}

/// The responses that a listing accepts decide how it goes on and how it ends.
pub proof fn listing_goes_by_its_responses(
    steps: Seq<Next<AllEmailIds, (State, IdSet)>>,
    remotes: Seq<Remote>,
    responses: Seq<Response>,
)
    requires
        is_trace(steps, remotes, responses),
        responses.len() > 0,
        steps[0] matches Next::Post { then, .. } && then.paging() == Paging::First,
    ensures
        match paging_run(responses) {
            PagingOutcome::Failed(error) => steps.last() == Next::<
                AllEmailIds,
                (State, IdSet),
            >::Done(Err(error)),
            PagingOutcome::Finished { state, ids } => steps.last() matches Next::Done(
                Ok((final_state, set)),
            ) && final_state == state && set.wf() && set@ == id_texts(ids),
            PagingOutcome::More { state, ids } => steps.last() matches Next::Post { call, then }
                && asks_for_page_after(&call, &remotes.last(), ids.last()) && then.paging() == (
            Paging::Rest { state, ids }),
        },
    decreases responses.len(),
{
    lemma_trace_prefix(steps, remotes, responses);
    if responses.len() > 1 {
        listing_goes_by_its_responses(
            steps.drop_last(),
            remotes.drop_last(),
            responses.drop_last(),
        );
    }
}

/// When a listing at an honest server has come to its end, it has brought the ids of all emails
/// that the server has, and the state that came with the first page. It comes to its end within
/// as many requests as there are emails, and one more.
pub proof fn all_emails_are_listed(
    listing: Seq<Id>,
    steps: Seq<Next<AllEmailIds, (State, IdSet)>>,
    remotes: Seq<Remote>,
    responses: Seq<Response>,
)
    requires
        is_trace(steps, remotes, responses),
        responses.len() > 0,
        steps[0] matches Next::Post { then, .. } && then.paging() == Paging::First,
        is_honest(listing, responses),
    ensures
        steps.last() is Post || (steps.last() matches Next::Done(Ok((state, set))) && set@
            == id_texts(listing) && Some(state) == first_state(responses)),
        steps.last() is Post ==> responses.len() <= listing.len(),
{
    listing_goes_by_its_responses(steps, remotes, responses);
    lemma_honest_listing(listing, responses);
}

/// The first request asks, in this order, for the state of the emails, and for the ids from the
/// start, all of them, as far as the server will list them.
pub proof fn first_request_asks_for_state_and_first_page(call: ApiCall, remote: Remote)
    requires
        asks_for_first_page(&call, &remote),
    ensures
        ({
            let calls = call.request.method_calls@;
            &&& is_mail_call(&call, &remote)
            &&& calls.len() == 2
            &&& calls[0].id@ == "0"@
            &&& calls[0].call matches MethodCall::EmailGet { get }
            &&& get.account_id == remote.session.primary_accounts.mail
            &&& get.ids matches Some(ids)
            &&& ids@.len() == 0
            &&& get.properties matches Some(properties)
            &&& properties@.len() == 0
            &&& calls[1].id@ == "1"@
            &&& calls[1].call matches MethodCall::EmailQuery { query }
            &&& query.account_id == remote.session.primary_accounts.mail
            &&& query.position == 0
            &&& query.anchor is None
            &&& query.anchor_offset == 0
            &&& query.limit is None
            &&& !query.calculate_total
        }),
{
}

/// Each later request asks for the ids that come right after the anchor, as far as the server will
/// list them.
pub proof fn later_requests_ask_for_what_follows(call: ApiCall, remote: Remote, anchor: Id)
    requires
        asks_for_page_after(&call, &remote, anchor),
    ensures
        ({
            let calls = call.request.method_calls@;
            &&& is_mail_call(&call, &remote)
            &&& calls.len() == 1
            &&& calls[0].id@ == "1"@
            &&& calls[0].call matches MethodCall::EmailQuery { query }
            &&& query.account_id == remote.session.primary_accounts.mail
            &&& query.position == 0
            &&& query.anchor == Some(anchor)
            &&& query.anchor_offset == 1
            &&& query.limit is None
            &&& !query.calculate_total
        }),
{
}

/// With the first page, the listing is at its end where the server imposed no limit, or listed
/// fewer ids than its limit allows. Where the page is full, the listing goes on after its last id.
/// A limit of zero is an error.
pub proof fn full_first_page_is_followed(
    remote: Remote,
    response: Response,
    next: Next<AllEmailIds, (State, IdSet)>,
    get: MethodResponseGet<Email>,
    page: MethodResponseQuery,
)
    requires
        AllEmailIds::First.followed_by(&remote, &response, &next),
        response.method_responses@.len() == 2,
        response.method_responses@[0].id@ == "0"@,
        response.method_responses@[0].call == MethodResponse::EmailGet(get),
        response.method_responses@[1].id@ == "1"@,
        response.method_responses@[1].call == MethodResponse::EmailQuery(page),
    ensures
        page.limit is None || page.ids@.len() < page.limit->0 ==> {
            &&& next matches Next::Done(Ok((state, set)))
            &&& state == get.state
            &&& set@ == id_texts(page.ids@)
        },
        page.limit is Some && 0 < page.limit->0 <= page.ids@.len() ==> {
            &&& next matches Next::Post { call, then: AllEmailIds::Rest { state, email_ids } }
            &&& state == get.state
            &&& email_ids@ == page.ids@
            &&& asks_for_page_after(&call, &remote, page.ids@[page.ids@.len() - 1])
        },
        page.limit == Some(0u64) ==> next == Next::<AllEmailIds, (State, IdSet)>::Done(Err(Error::UnexpectedResponse)),
{
}

/// A later page is added after the ids that are there. The listing is at its end where the page
/// is empty, where the server imposed no limit on it, or where it listed fewer ids than its limit
/// allows. Where the page is full, the listing goes on after its last id.
pub proof fn full_later_page_is_followed(
    state: State,
    email_ids: Vec<Id>,
    remote: Remote,
    response: Response,
    next: Next<AllEmailIds, (State, IdSet)>,
    page: MethodResponseQuery,
)
    requires
        (AllEmailIds::Rest { state, email_ids }).followed_by(&remote, &response, &next),
        response.method_responses@.len() == 1,
        response.method_responses@[0].id@ == "1"@,
        response.method_responses@[0].call == MethodResponse::EmailQuery(page),
    ensures
        page.ids@.len() == 0 || page.limit is None || page.ids@.len() < page.limit->0 ==> {
            &&& next matches Next::Done(Ok((final_state, set)))
            &&& final_state == state
            &&& set@ == id_texts(email_ids@ + page.ids@)
        },
        page.limit is Some && 0 < page.limit->0 <= page.ids@.len() ==> {
            &&& next matches Next::Post {
                call,
                then: AllEmailIds::Rest { state: later_state, email_ids: later_ids },
            }
            &&& later_state == state
            &&& later_ids@ == email_ids@ + page.ids@
            &&& asks_for_page_after(&call, &remote, page.ids@[page.ids@.len() - 1])
        },
        page.limit == Some(0u64) && page.ids@.len() > 0 ==> next == Next::<
            AllEmailIds,
            (State, IdSet),
        >::Done(Err(Error::UnexpectedResponse)),
{
    if page.ids@.len() == 0 {
        assert(email_ids@ + page.ids@ =~= email_ids@);
    }
}

/// A response that does not hold what was asked for ends the listing with an error: the one that
/// the server sent in its place, if it did.
pub proof fn listing_fails_on_anything_else(
    operation: AllEmailIds,
    remote: Remote,
    response: Response,
    next: Next<AllEmailIds, (State, IdSet)>,
)
    requires
        operation.followed_by(&remote, &response, &next),
    ensures
        ({
            let responses = response.method_responses@;
            let asked = if operation is First {
                2nat
            } else {
                1nat
            };
            let last = responses.last();
            let unexpected = Next::<AllEmailIds, (State, IdSet)>::Done(
                Err(Error::UnexpectedResponse),
            );
            if responses.len() != asked || last.id@ != "1"@ {
                next == unexpected
            } else {
                match last.call {
                    MethodResponse::Error(error) => next == Next::<
                        AllEmailIds,
                        (State, IdSet),
                    >::Done(Err(Error::MethodError { error })),
                    MethodResponse::EmailQuery(_) => operation is First ==> (
                    if responses[0].id@ != "0"@ {
                        next == unexpected
                    } else {
                        match responses[0].call {
                            MethodResponse::Error(error) => next == Next::<
                                AllEmailIds,
                                (State, IdSet),
                            >::Done(Err(Error::MethodError { error })),
                            MethodResponse::EmailGet(_) => true,
                            _ => next == unexpected,
                        }
                    }),
                    _ => next == unexpected,
                }
            }
        }),
{
}

/// Whether `from` is the place of `listing` that a query asks for: the one it names, or the one
/// that it names by its distance from an anchor.
pub open spec fn query_starts_at(listing: Seq<Id>, query: MethodCallQuery, from: int) -> bool {
    match query.anchor {
        None => from == query.position,
        Some(anchor) => 0 <= from - query.anchor_offset < listing.len() && listing[from
            - query.anchor_offset].0@ == anchor.0@,
    }
}

/// Whether `page` is what a server that has the emails of `listing` answers a query with: the ids
/// from the place that was asked for, up to the end, or as many as the limit allows that either
/// side set.
pub open spec fn answers_query(
    listing: Seq<Id>,
    query: MethodCallQuery,
    page: MethodResponseQuery,
) -> bool {
    forall|from: int| #[trigger]
        query_starts_at(listing, query, from) ==> {
            let len = page.ids@.len() as int;
            &&& 0 <= from
            &&& from + len <= listing.len()
            &&& page.ids@ == listing.subrange(from, from + len)
            &&& match page.limit {
                None => query.limit is None ==> from + len == listing.len(),
                Some(limit) => 0 < limit && len <= limit && (len < limit ==> from + len
                    == listing.len()),
            }
        }
}

/// Whether `response` is what a server that has the emails of `listing` answers a request with:
/// a response to each of its calls, in their order and under their ids.
pub open spec fn answers_listing(listing: Seq<Id>, request: Request, response: Response) -> bool {
    let calls = request.method_calls@;
    let responses = response.method_responses@;
    &&& responses.len() == calls.len()
    &&& forall|k: int|
        0 <= k < calls.len() ==> {
            &&& (#[trigger] responses[k]).id@ == calls[k].id@
            &&& match calls[k].call {
                MethodCall::EmailGet { .. } => responses[k].call is EmailGet,
                MethodCall::EmailQuery { query } => {
                    &&& responses[k].call matches MethodResponse::EmailQuery(page)
                    &&& answers_query(listing, query, page)
                },
                MethodCall::EmailChanges { .. } => responses[k].call is EmailChanges,
            }
        }
}

/// Whatever limits the server imposes, a listing whose requests it answers ends with the ids of
/// all emails that the server has, and with the state that was sent along with the first page. It
/// ends within as many requests as there are emails, and one more, and never with an error.
pub proof fn listing_brings_what_the_server_has(
    listing: Seq<Id>,
    remote: Remote,
    steps: Seq<Next<AllEmailIds, (State, IdSet)>>,
    remotes: Seq<Remote>,
    responses: Seq<Response>,
)
    requires
        is_trace(steps, remotes, responses),
        responses.len() > 0,
        steps[0] matches Next::Post { call, then } && asks_for_first_page(&call, &remote) && then
            == AllEmailIds::First,
        forall|i: int|
            0 <= i < responses.len() ==> answers_listing(
                listing,
                steps[i]->call.request,
                #[trigger] responses[i],
            ),
    ensures
        match steps.last() {
            Next::Done(Ok((state, set))) => {
                &&& forall|text: Seq<char>|
                    set@.contains(text) <==> exists|i: int|
                        0 <= i < listing.len() && (#[trigger] listing[i]).0@ == text
                &&& responses[0].method_responses@[0].call matches MethodResponse::EmailGet(get)
                    && state == get.state
            },
            Next::Post { .. } => responses.len() <= listing.len(),
            _ => false,
        },
{
    lemma_listing_so_far(listing, remote, steps, remotes, responses);
    if let Next::Done(Ok((state, set))) = steps.last() {
        assert forall|text: Seq<char>|
            set@.contains(text) <==> exists|i: int|
                0 <= i < listing.len() && (#[trigger] listing[i]).0@ == text by {
            ids_of_a_list_are_those_in_it(listing, text);
        }
    }
}

/// Until it ends, such a listing has a prefix of the server's.
proof fn lemma_listing_so_far(
    listing: Seq<Id>,
    remote: Remote,
    steps: Seq<Next<AllEmailIds, (State, IdSet)>>,
    remotes: Seq<Remote>,
    responses: Seq<Response>,
)
    requires
        is_trace(steps, remotes, responses),
        responses.len() > 0,
        steps[0] matches Next::Post { call, then } && asks_for_first_page(&call, &remote) && then
            == AllEmailIds::First,
        forall|i: int|
            0 <= i < responses.len() ==> answers_listing(
                listing,
                steps[i]->call.request,
                #[trigger] responses[i],
            ),
    ensures
        match steps.last() {
            Next::Done(Ok((state, set))) => {
                &&& set@ == id_texts(listing)
                &&& responses[0].method_responses@[0].call matches MethodResponse::EmailGet(get)
                    && state == get.state
            },
            Next::Post { call, then: AllEmailIds::Rest { state, email_ids } } => {
                &&& responses.len() <= email_ids@.len() <= listing.len()
                &&& email_ids@ == listing.take(email_ids@.len() as int)
                &&& asks_for_page_after(&call, &remotes.last(), email_ids@.last())
                &&& responses[0].method_responses@[0].call matches MethodResponse::EmailGet(get)
                    && state == get.state
            },
            _ => false,
        },
    decreases responses.len(),
{
    let n = responses.len() - 1;
    let sent = responses[n].method_responses@;
    lemma_trace_prefix(steps, remotes, responses);
    assert(responses[n] == responses.last());
    assert(answers_listing(listing, steps[n]->call.request, responses[n]));
    if n == 0 {
        assert(sent[0].id@ == "0"@);
        assert(sent[1].id@ == "1"@);
        if let MethodResponse::EmailQuery(page) = sent[1].call {
            let query = steps[0]->call.request.method_calls@[1].call->query;
            assert(query_starts_at(listing, query, 0));
            assert(page.ids@ =~= listing.take(page.ids@.len() as int));
            assert(page.ids@.len() == listing.len() ==> page.ids@ =~= listing);
        }
    } else {
        let init = responses.drop_last();
        assert forall|i: int| 0 <= i < init.len() implies answers_listing(
            listing,
            steps.drop_last()[i]->call.request,
            #[trigger] init[i],
        ) by {
            assert(init[i] == responses[i]);
        }
        lemma_listing_so_far(listing, remote, steps.drop_last(), remotes.drop_last(), init);
        assert(init[0] == responses[0]);
        assert(steps.drop_last().last() == steps[n]);
        if let Next::Post { call, then: AllEmailIds::Rest { state, email_ids } } = steps[n] {
            let from = email_ids@.len() as int;
            let query = call.request.method_calls@[0].call->query;
            assert(sent[0].id@ == "1"@);
            assert(listing[from - 1] == email_ids@.last());
            assert(query_starts_at(listing, query, from));
            if let MethodResponse::EmailQuery(page) = sent[0].call {
                let all = email_ids@ + page.ids@;
                assert(all =~= listing.take(all.len() as int));
                assert(all.len() == listing.len() ==> all =~= listing);
                assert(page.ids@.len() == 0 ==> all =~= email_ids@);
            }
        }
    }
}

} // verus!
