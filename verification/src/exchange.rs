//! Operations that take several requests: what they ask for, and how the answers move them on.
use crate::error::Error;
use crate::http::{ApiCall, SessionCall};
use crate::jmap::{
    CapabilityKind, Email, MethodResponse, MethodResponseChanges, MethodResponseError,
    MethodResponseGet, MethodResponseQuery, Response, ResponseInvocation,
};
use crate::remote::Remote;
use vstd::prelude::*;

verus! {

/// What an operation wants done next. `P` is the operation, `T` is what it is for.
pub enum Next<P, T> {
    /// Send the call, and hand what comes of it to `Remote::replied`.
    Post { call: ApiCall, then: P },
    /// Send the call, and hand what comes of it to `Remote::refreshed`, with the response that
    /// waits for it.
    Refresh { fetch: SessionCall, response: Response, then: P },
    /// Nothing more.
    Done(Result<T, Error>),
}

/// An operation that waits for the response to the request it made last.
pub trait Operation: Sized {
    type Output;

    /// Whether the operation is well-formed.
    spec fn wf(&self) -> bool;

    /// Whether `next` is what follows when `response` comes and is accepted.
    spec fn followed_by(
        &self,
        remote: &Remote,
        response: &Response,
        next: &Next<Self, Self::Output>,
    ) -> bool;

    /// Takes the response in. The session is up to date with it.
    fn accept(self, remote: &Remote, response: Response) -> (next: Next<Self, Self::Output>)
        requires
            self.wf(),
        ensures
            self.followed_by(remote, &response, &next),
            match next {
                Next::Post { then, .. } => then.wf(),
                Next::Refresh { .. } => false,
                Next::Done(_) => true,
            },
    ;
}

impl<P: Operation> Next<P, P::Output> {
    /// The operation that goes on is well-formed.
    pub open spec fn wf(&self) -> bool {
        match self {
            Next::Post { then, .. } => then.wf(),
            Next::Refresh { then, .. } => then.wf(),
            Next::Done(_) => true,
        }
    }
}

/// Whether `step` waits for a response, and `next` follows when `response` comes and is accepted.
pub open spec fn leads_to<P: Operation>(
    step: Next<P, P::Output>,
    remote: Remote,
    response: Response,
    next: Next<P, P::Output>,
) -> bool {
    match step {
        Next::Post { then, .. } => then.followed_by(&remote, &response, &next),
        _ => false,
    }
}

/// Whether `steps` are what an operation wants done, one after the other, as the responses to its
/// requests are accepted. `remotes` are the server, with the session that each response is
/// accepted in.
pub open spec fn is_trace<P: Operation>(
    steps: Seq<Next<P, P::Output>>,
    remotes: Seq<Remote>,
    responses: Seq<Response>,
) -> bool {
    &&& steps.len() == responses.len() + 1
    &&& remotes.len() == responses.len()
    &&& forall|i: int|
        0 <= i < responses.len() ==> leads_to(
            steps[i],
            remotes[i],
            #[trigger] responses[i],
            steps[i + 1],
        )
}

/// A trace without its last response is a trace.
pub proof fn lemma_trace_prefix<P: Operation>(
    steps: Seq<Next<P, P::Output>>,
    remotes: Seq<Remote>,
    responses: Seq<Response>,
)
    requires
        is_trace(steps, remotes, responses),
        responses.len() > 0,
    ensures
        is_trace(steps.drop_last(), remotes.drop_last(), responses.drop_last()),
        leads_to(
            steps.drop_last().last(),
            remotes.last(),
            responses.last(),
            steps.last(),
        ),
{
    let init = responses.drop_last();
    assert(responses[responses.len() - 1] == responses.last());
    assert forall|i: int| 0 <= i < init.len() implies leads_to(
        steps.drop_last()[i],
        remotes.drop_last()[i],
        #[trigger] init[i],
        steps.drop_last()[i + 1],
    ) by {
        assert(init[i] == responses[i]);
    }
}

/// Whether `call` posts a request for mail to the API, with the account's authorization.
pub open spec fn is_mail_call(call: &ApiCall, remote: &Remote) -> bool {
    &&& call.url@ == remote.session.api_url@
    &&& call.authorization@ == remote.http_wrapper.authorization@
    &&& call.request.using@ == seq![CapabilityKind::Mail]
    &&& call.request.created_ids is None
}

/// The response to an `Email/get` call, or why there is none.
pub open spec fn expected_email_get(id: Seq<char>, invocation: ResponseInvocation) -> Result<
    MethodResponseGet<Email>,
    Error,
> {
    if invocation.id@ != id {
        Err(Error::UnexpectedResponse)
    } else {
        match invocation.call {
            MethodResponse::EmailGet(get) => Ok(get),
            MethodResponse::Error(error) => Err(Error::MethodError { error }),
            _ => Err(Error::UnexpectedResponse),
        }
    }
}

/// The response to an `Email/query` call, or why there is none.
pub open spec fn expected_email_query(id: Seq<char>, invocation: ResponseInvocation) -> Result<
    MethodResponseQuery,
    Error,
> {
    if invocation.id@ != id {
        Err(Error::UnexpectedResponse)
    } else {
        match invocation.call {
            MethodResponse::EmailQuery(query) => Ok(query),
            MethodResponse::Error(error) => Err(Error::MethodError { error }),
            _ => Err(Error::UnexpectedResponse),
        }
    }
}

/// The response to an `Email/changes` call, or why there is none.
pub open spec fn expected_email_changes(id: Seq<char>, invocation: ResponseInvocation) -> Result<
    MethodResponseChanges,
    Error,
> {
    if invocation.id@ != id {
        Err(Error::UnexpectedResponse)
    } else {
        match invocation.call {
            MethodResponse::EmailChanges(changes) => Ok(changes),
            MethodResponse::Error(error) => Err(Error::MethodError { error }),
            _ => Err(Error::UnexpectedResponse),
        }
    }
}

fn has_id(invocation: &ResponseInvocation, id: &str) -> (answer: bool)
    ensures
        answer == (invocation.id@ == id@),
{
    invocation.id == id.to_owned()
}

/// Takes an `Email/get` response out of an invocation.
pub fn expect_email_get(id: &str, invocation: ResponseInvocation) -> (result: Result<
    MethodResponseGet<Email>,
    Error,
>)
    ensures
        result == expected_email_get(id@, invocation),
        invocation.id@ == id@ ==> (invocation.call matches MethodResponse::EmailGet(get) ==> result
            == Ok::<MethodResponseGet<Email>, Error>(get)),
{
    if !has_id(&invocation, id) {
        return Err(Error::UnexpectedResponse);
    }
    match invocation.call {
        MethodResponse::EmailGet(get) => Ok(get),
        MethodResponse::Error(error) => Err(Error::MethodError { error }),
        _ => Err(Error::UnexpectedResponse),
    }
}

/// Takes an `Email/query` response out of an invocation.
pub fn expect_email_query(id: &str, invocation: ResponseInvocation) -> (result: Result<
    MethodResponseQuery,
    Error,
>)
    ensures
        result == expected_email_query(id@, invocation),
        invocation.id@ == id@ ==> (invocation.call matches MethodResponse::EmailQuery(query) ==> result
            == Ok::<MethodResponseQuery, Error>(query)),
{
    if !has_id(&invocation, id) {
        return Err(Error::UnexpectedResponse);
    }
    match invocation.call {
        MethodResponse::EmailQuery(query) => Ok(query),
        MethodResponse::Error(error) => Err(Error::MethodError { error }),
        _ => Err(Error::UnexpectedResponse),
    }
}

/// Takes an `Email/changes` response out of an invocation.
pub fn expect_email_changes(id: &str, invocation: ResponseInvocation) -> (result: Result<
    MethodResponseChanges,
    Error,
>)
    ensures
        result == expected_email_changes(id@, invocation),
        invocation.id@ == id@ ==> (invocation.call matches MethodResponse::EmailChanges(changes) ==> result
            == Ok::<MethodResponseChanges, Error>(changes)),
{
    if !has_id(&invocation, id) {
        return Err(Error::UnexpectedResponse);
    }
    match invocation.call {
        MethodResponse::EmailChanges(changes) => Ok(changes),
        MethodResponse::Error(error) => Err(Error::MethodError { error }),
        _ => Err(Error::UnexpectedResponse),
    }
}

/// A method-level error is handed on, whatever was asked for.
pub proof fn method_error_is_handed_on(
    id: Seq<char>,
    invocation: ResponseInvocation,
    error: MethodResponseError,
)
    requires
        invocation.id@ == id,
        invocation.call == MethodResponse::Error(error),
    ensures
        expected_email_get(id, invocation) == Err::<MethodResponseGet<Email>, Error>(
            Error::MethodError { error },
        ),
        expected_email_query(id, invocation) == Err::<MethodResponseQuery, Error>(
            Error::MethodError { error },
        ),
        expected_email_changes(id, invocation) == Err::<MethodResponseChanges, Error>(
            Error::MethodError { error },
        ),
{
}

/// The response to another call is unexpected, whatever it holds.
pub proof fn response_to_another_call_is_unexpected(id: Seq<char>, invocation: ResponseInvocation)
    requires
        invocation.id@ != id,
    ensures
        expected_email_get(id, invocation) == Err::<MethodResponseGet<Email>, Error>(
            Error::UnexpectedResponse,
        ),
        expected_email_query(id, invocation) == Err::<MethodResponseQuery, Error>(
            Error::UnexpectedResponse,
        ),
        expected_email_changes(id, invocation) == Err::<MethodResponseChanges, Error>(
            Error::UnexpectedResponse,
        ),
{
}

/// What a server sends in response to a call is handed over as it was sent, with all that it
/// holds, and nothing else is taken for it.
pub proof fn responses_are_handed_over_as_sent(id: Seq<char>, invocation: ResponseInvocation)
    requires
        invocation.id@ == id,
    ensures
        invocation.call matches MethodResponse::EmailGet(get) ==> expected_email_get(
            id,
            invocation,
        ) == Ok::<MethodResponseGet<Email>, Error>(get),
        invocation.call matches MethodResponse::EmailQuery(query) ==> expected_email_query(
            id,
            invocation,
        ) == Ok::<MethodResponseQuery, Error>(query),
        invocation.call matches MethodResponse::EmailChanges(changes) ==> expected_email_changes(
            id,
            invocation,
        ) == Ok::<MethodResponseChanges, Error>(changes),
        invocation.call is EmailQuery || invocation.call is EmailChanges ==> expected_email_get(
            id,
            invocation,
        ) == Err::<MethodResponseGet<Email>, Error>(Error::UnexpectedResponse),
        invocation.call is EmailGet || invocation.call is EmailChanges ==> expected_email_query(
            id,
            invocation,
        ) == Err::<MethodResponseQuery, Error>(Error::UnexpectedResponse),
        invocation.call is EmailGet || invocation.call is EmailQuery ==> expected_email_changes(
            id,
            invocation,
        ) == Err::<MethodResponseChanges, Error>(Error::UnexpectedResponse),
{
}

/// A call for mail goes to the API of the session, on behalf of the user, and uses mail and
/// nothing else.
pub proof fn mail_calls_go_to_the_api(call: ApiCall, remote: Remote)
    ensures
        is_mail_call(&call, &remote) <==> {
            &&& call.url@ == remote.session.api_url@
            &&& call.authorization@ == remote.http_wrapper.authorization@
            &&& call.request.using@ == seq![CapabilityKind::Mail]
            &&& call.request.created_ids is None
        },
{
}

} // verus!
