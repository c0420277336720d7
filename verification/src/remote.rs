//! A JMAP server, as the client sees it.
use crate::error::Error;
use crate::exchange::{is_mail_call, Next, Operation};
use crate::http::{ApiCall, HttpWrapper, PostFailure, SessionCall, SessionReply};
use crate::jmap::{CapabilityKind, Request, RequestInvocation, Response, Session, State};
use vstd::prelude::*;

verus! {

/// A server on which a session is open.
pub struct Remote {
    pub http_wrapper: HttpWrapper,
    /// URL which points to the session endpoint after following all redirects.
    pub session_url: String,
    /// The latest session object returned by the server.
    pub session: Session,
}

impl Remote {
    /// Posts a request to the API.
    pub fn request(&self, request: Request) -> (call: ApiCall)
        ensures
            call.url@ == self.session.api_url@,
            call.authorization == self.http_wrapper.authorization,
            call.request == request,
    {
        self.http_wrapper.post(&self.session.api_url, request)
    }

    /// Posts method calls for mail to the API.
    pub fn mail_request(&self, method_calls: Vec<RequestInvocation>) -> (call: ApiCall)
        ensures
            is_mail_call(&call, self),
            call.request.method_calls == method_calls,
    {
        let using = vec![CapabilityKind::Mail];
        assert(using@ =~= seq![CapabilityKind::Mail]);
        self.request(Request { using, method_calls, created_ids: None })
    }

    /// Whether `call` fetches the session object anew.
    pub open spec fn is_session_call(&self, call: &SessionCall) -> bool {
        &&& call.url@ == self.session_url@
        &&& call.authorization@ == self.http_wrapper.authorization@
    }

    /// Compares the state of the session on the server with that of the session object, and
    /// asks for the session object anew where they differ.
    pub fn update_session_state(&self, session_state: &State) -> (call: Option<SessionCall>)
        ensures
            match call {
                Some(call) => session_state@ != self.session.state@ && self.is_session_call(&call),
                None => session_state@ == self.session.state@,
            },
    {
        if session_state.same(&self.session.state) {
            None
        } else {
            Some(self.http_wrapper.get_session(&self.session_url))
        }
    }

    /// Replaces the session object with the one that the server sent.
    pub fn session_updated(&mut self, fetched: SessionReply) -> (result: Result<(), Error>)
        ensures
            match fetched {
                Ok((_, session)) => {
                    &&& result == Ok::<(), Error>(())
                    &&& *final(self) == (Remote { session, ..*old(self) })
                },
                Err(source) => {
                    &&& result == Err::<(), Error>(
                        Error::UpdateSession { session_url: old(self).session_url, source },
                    )
                    &&& *final(self) == *old(self)
                },
            },
    {
        match fetched {
            Ok((_, session)) => {
                self.session = session;
                Ok(())
            },
            Err(source) => Err(Error::UpdateSession { session_url: self.session_url.clone(), source }),
        }
    }

    /// Hands an operation what came of its call.
    pub fn replied<P: Operation>(
        &self,
        operation: P,
        reply: Result<Response, PostFailure>,
    ) -> (next: Next<P, P::Output>)
        requires
            operation.wf(),
        ensures
            next.wf(),
            match reply {
                Err(failure) => next == Next::<P, P::Output>::Done(Err(failure.error())),
                Ok(response) => if response.session_state@ == self.session.state@ {
                    operation.followed_by(self, &response, &next)
                } else {
                    &&& next matches Next::Refresh { fetch, response: waiting, then }
                    &&& self.is_session_call(&fetch)
                    &&& waiting == response
                    &&& then == operation
                },
            },
    {
        match reply {
            Err(failure) => Next::Done(Err(failure.into_error())),
            Ok(response) => match self.update_session_state(&response.session_state) {
                Some(fetch) => Next::Refresh { fetch, response, then: operation },
                None => operation.accept(self, response),
            },
        }
    }

    /// Hands an operation the response that waited for the session object, and what came of the
    /// call for it.
    pub fn refreshed<P: Operation>(
        &mut self,
        operation: P,
        response: Response,
        fetched: SessionReply,
    ) -> (next: Next<P, P::Output>)
        requires
            operation.wf(),
        ensures
            next.wf(),
            match fetched {
                Err(source) => {
                    &&& next == Next::<P, P::Output>::Done(
                        Err(Error::UpdateSession { session_url: old(self).session_url, source }),
                    )
                    &&& *final(self) == *old(self)
                },
                Ok((_, session)) => {
                    &&& *final(self) == (Remote { session, ..*old(self) })
                    &&& operation.followed_by(final(self), &response, &next)
                },
            },
    {
        match self.session_updated(fetched) {
            Err(error) => Next::Done(Err(error)),
            Ok(()) => operation.accept(self, response),
        }
    }
}

/// The session object is fetched from the place where it was found, on behalf of the user.
pub proof fn session_is_fetched_where_it_was_found(remote: Remote, call: SessionCall)
    ensures
        remote.is_session_call(&call) <==> {
            &&& call.url@ == remote.session_url@
            &&& call.authorization@ == remote.http_wrapper.authorization@
        },
{
}

} // verus!
