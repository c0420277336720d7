//! Following the changes to emails since a state.
use crate::error::Error;
use crate::exchange::{
    expect_email_changes, expected_email_changes, is_mail_call, is_trace, lemma_trace_prefix, Next,
    Operation,
};
use crate::http::ApiCall;
use crate::id_set::{id_texts, lemma_id_texts_add, IdSet};
use crate::jmap::{
    Id, MethodCall, MethodCallChanges, MethodResponse, MethodResponseChanges, MethodResponseError,
    RequestInvocation, Response, State,
};
use crate::remote::Remote;
use vstd::prelude::*;

verus! {

/// The following of changes, which waits for a response.
pub struct UpdatedEmailIds {
    /// The ids that were created or updated so far.
    pub updated_ids: IdSet,
    /// The ids that were destroyed so far.
    pub destroyed_ids: IdSet,
}

/// The changes so far, apart from how they are held.
pub struct Changes {
    pub updated: Set<Seq<char>>,
    pub destroyed: Set<Seq<char>>,
}

/// What a response makes of the changes so far.
pub enum ChangesOutcome {
    Failed(Error),
    Finished { state: State, changes: Changes },
    /// There are more changes since `state`.
    More { state: State, changes: Changes },
}

impl Changes {
    /// No changes.
    pub open spec fn none() -> Changes {
        Changes { updated: Set::empty(), destroyed: Set::empty() }
    }

    /// The changes, with those of a response.
    pub open spec fn with(self, sent: MethodResponseChanges) -> Changes {
        Changes {
            updated: self.updated.union(id_texts(sent.created@)).union(id_texts(sent.updated@)),
            destroyed: self.destroyed.union(id_texts(sent.destroyed@)),
        }
    }

    /// What comes of the response to the request made last.
    pub open spec fn outcome(self, response: Response) -> ChangesOutcome {
        let responses = response.method_responses@;
        if responses.len() != 1 {
            ChangesOutcome::Failed(Error::UnexpectedResponse)
        } else {
            match expected_email_changes("0"@, responses[0]) {
                Err(error) => ChangesOutcome::Failed(error),
                Ok(sent) => if sent.has_more_changes {
                    ChangesOutcome::More { state: sent.new_state, changes: self.with(sent) }
                } else {
                    ChangesOutcome::Finished { state: sent.new_state, changes: self.with(sent) }
                },
            }
        }
    }
}

/// Whether `call` asks for the changes since `state`.
pub open spec fn asks_for_changes(call: &ApiCall, remote: &Remote, state: State) -> bool {
    let calls = call.request.method_calls@;
    &&& is_mail_call(call, remote)
    &&& calls.len() == 1
    &&& calls[0].id@ == "0"@
    &&& calls[0].call == (MethodCall::EmailChanges {
        changes: MethodCallChanges {
            account_id: remote.session.primary_accounts.mail,
            since_state: state,
            max_changes: None,
        },
    })
}

impl UpdatedEmailIds {
    /// The changes so far.
    pub open spec fn changes(&self) -> Changes {
        Changes { updated: self.updated_ids@, destroyed: self.destroyed_ids@ }
    }
}

fn changes_call(remote: &Remote, state: State) -> (call: ApiCall)
    ensures
        asks_for_changes(&call, remote, state),
{
    let invocation = RequestInvocation {
        call: MethodCall::EmailChanges {
            changes: MethodCallChanges {
                account_id: remote.session.primary_accounts.mail.clone(),
                since_state: state,
                max_changes: None,
            },
        },
        id: "0".to_owned(),
    };
    remote.mail_request(vec![invocation])
}

impl Operation for UpdatedEmailIds {
    type Output = (State, IdSet, IdSet);

    open spec fn wf(&self) -> bool {
        self.updated_ids.wf() && self.destroyed_ids.wf()
    }

    open spec fn followed_by(
        &self,
        remote: &Remote,
        response: &Response,
        next: &Next<Self, (State, IdSet, IdSet)>,
    ) -> bool {
        match self.changes().outcome(*response) {
            ChangesOutcome::Failed(error) => *next == Next::<Self, (State, IdSet, IdSet)>::Done(
                Err(error),
            ),
            ChangesOutcome::Finished { state, changes } => {
                &&& next matches Next::Done(Ok((final_state, updated_ids, destroyed_ids)))
                &&& final_state == state
                &&& updated_ids.wf()
                &&& updated_ids@ == changes.updated
                &&& destroyed_ids.wf()
                &&& destroyed_ids@ == changes.destroyed
            },
            ChangesOutcome::More { state, changes } => {
                &&& next matches Next::Post { call, then }
                &&& asks_for_changes(call, remote, state)
                &&& then.changes() == changes
            },
        }
    }

    fn accept(self, remote: &Remote, response: Response) -> (next: Next<
        Self,
        (State, IdSet, IdSet),
    >) {
        let mut method_responses = response.method_responses;
        if method_responses.len() != 1 {
            return Next::Done(Err(Error::UnexpectedResponse));
        }
        let sent = match expect_email_changes("0", method_responses.remove(0)) {
            Ok(sent) => sent,
            Err(error) => return Next::Done(Err(error)),
        };
        let mut updated_ids = self.updated_ids;
        let mut destroyed_ids = self.destroyed_ids;
        updated_ids.extend(sent.created);
        updated_ids.extend(sent.updated);
        destroyed_ids.extend(sent.destroyed);
        if sent.has_more_changes {
            let call = changes_call(remote, sent.new_state);
            Next::Post { call, then: UpdatedEmailIds { updated_ids, destroyed_ids } }
        } else {
            Next::Done(Ok((sent.new_state, updated_ids, destroyed_ids)))
        }
    }
}

impl Remote {
    /// Given an `Email/get` state, return the latest `Email/get` state and a
    /// list of new/updated `Email` IDs and destroyed `Email` IDs.
    pub fn updated_email_ids(&self, state: State) -> (next: Next<
        UpdatedEmailIds,
        (State, IdSet, IdSet),
    >)
        ensures
            next.wf(),
            next matches Next::Post { call, then } && asks_for_changes(&call, self, state)
                && then.changes() == Changes::none() && then.updated_ids@ == Set::<
                Seq<char>,
            >::empty() && then.destroyed_ids@ == Set::<Seq<char>>::empty(),
    {
        let call = changes_call(self, state);
        Next::Post {
            call,
            then: UpdatedEmailIds { updated_ids: IdSet::new(), destroyed_ids: IdSet::new() },
        }
    }
}

/// What comes of the responses to the requests for changes, one after the other. What has come
/// to an end stays as it is.
pub open spec fn changes_run(responses: Seq<Response>) -> ChangesOutcome
    recommends
        responses.len() > 0,
    decreases responses.len(),
{
    if responses.len() <= 1 {
        Changes::none().outcome(responses[0])
    } else {
        match changes_run(responses.drop_last()) {
            ChangesOutcome::More { state, changes } => changes.outcome(responses.last()),
            ended => ended,
        }
    }
}

/// The response that a request for changes is answered with.
pub open spec fn sends(response: Response, sent: MethodResponseChanges) -> bool {
    &&& response.method_responses@.len() == 1
    &&& response.method_responses@[0].id@ == "0"@
    &&& response.method_responses@[0].call == MethodResponse::EmailChanges(sent)
}

/// Everything that was created or updated, over several responses.
pub open spec fn all_updated(sent: Seq<MethodResponseChanges>) -> Seq<Id>
    decreases sent.len(),
{
    if sent.len() == 0 {
        Seq::empty()
    } else {
        all_updated(sent.drop_last()) + sent.last().created@ + sent.last().updated@
    }
}

/// Everything that was destroyed, over several responses.
pub open spec fn all_destroyed(sent: Seq<MethodResponseChanges>) -> Seq<Id>
    decreases sent.len(),
{
    if sent.len() == 0 {
        Seq::empty()
    } else {
        all_destroyed(sent.drop_last()) + sent.last().destroyed@
    }
}

/// However the server splits the changes over responses, the operation brings all that was
/// created or updated, all that was destroyed, and the state that the last response names; as
/// long as the server says that there is more, it goes on from there.
pub proof fn changes_are_followed_to_the_end(
    responses: Seq<Response>,
    sent: Seq<MethodResponseChanges>,
)
    requires
        responses.len() == sent.len() > 0,
        forall|i: int| 0 <= i < sent.len() ==> sends(#[trigger] responses[i], sent[i]),
        forall|i: int| 0 <= i < sent.len() - 1 ==> (#[trigger] sent[i]).has_more_changes,
    ensures
        ({
            let state = sent.last().new_state;
            let changes = Changes {
                updated: id_texts(all_updated(sent)),
                destroyed: id_texts(all_destroyed(sent)),
            };
            changes_run(responses) == if sent.last().has_more_changes {
                ChangesOutcome::More { state, changes }
            } else {
                ChangesOutcome::Finished { state, changes }
            }
        }),
    decreases sent.len(),
{
    let init = sent.drop_last();
    let last = sent.last();
    lemma_id_texts_add(all_updated(init), last.created@);
    lemma_id_texts_add(all_updated(init) + last.created@, last.updated@);
    lemma_id_texts_add(all_destroyed(init), last.destroyed@);
    if sent.len() == 1 {
        assert(sends(responses[0], sent[0]));
        assert(id_texts(all_updated(init)) =~= Set::empty());
        assert(id_texts(all_destroyed(init)) =~= Set::empty());
    } else {
        assert forall|i: int| 0 <= i < init.len() implies sends(
            #[trigger] responses.drop_last()[i],
            init[i],
        ) by {
            assert(sends(responses[i], sent[i]));
        }
        changes_are_followed_to_the_end(responses.drop_last(), init);
        assert(sent[sent.len() - 2].has_more_changes);
        assert(sends(responses[responses.len() - 1], sent[sent.len() - 1]));
    }
}

/// A refused request for changes ends the operation with the server's error.
pub proof fn refused_request_for_changes_is_reported(
    changes: Changes,
    response: Response,
    error: MethodResponseError,
)
    requires
        response.method_responses@.len() == 1,
        response.method_responses@[0].id@ == "0"@,
        response.method_responses@[0].call == MethodResponse::Error(error),
    ensures
        changes.outcome(response) == ChangesOutcome::Failed(Error::MethodError { error }),
{
}

/// The responses that the following of changes accepts decide how it goes on and how it ends.
pub proof fn following_goes_by_its_responses(
    steps: Seq<Next<UpdatedEmailIds, (State, IdSet, IdSet)>>,
    remotes: Seq<Remote>,
    responses: Seq<Response>,
)
    requires
        is_trace(steps, remotes, responses),
        responses.len() > 0,
        steps[0] matches Next::Post { then, .. } && then.changes() == Changes::none(),
    ensures
        match changes_run(responses) {
            ChangesOutcome::Failed(error) => steps.last() == Next::<
                UpdatedEmailIds,
                (State, IdSet, IdSet),
            >::Done(Err(error)),
            ChangesOutcome::Finished { state, changes } => steps.last() matches Next::Done(
                Ok((final_state, updated_ids, destroyed_ids)),
            ) && final_state == state && updated_ids@ == changes.updated && destroyed_ids@
                == changes.destroyed,
            ChangesOutcome::More { state, changes } => steps.last() matches Next::Post {
                call,
                then,
            } && asks_for_changes(&call, &remotes.last(), state) && then.changes() == changes,
        },
    decreases responses.len(),
{
    lemma_trace_prefix(steps, remotes, responses);
    if responses.len() > 1 {
        following_goes_by_its_responses(
            steps.drop_last(),
            remotes.drop_last(),
            responses.drop_last(),
        );
    }
}

/// A request for changes asks for all changes since a state.
pub proof fn request_asks_for_all_changes(call: ApiCall, remote: Remote, state: State)
    requires
        asks_for_changes(&call, &remote, state),
    ensures
        ({
            let calls = call.request.method_calls@;
            &&& is_mail_call(&call, &remote)
            &&& calls.len() == 1
            &&& calls[0].id@ == "0"@
            &&& calls[0].call matches MethodCall::EmailChanges { changes }
            &&& changes.account_id == remote.session.primary_accounts.mail
            &&& changes.since_state == state
            &&& changes.max_changes is None
        }),
{
}

/// What a response says was created or updated is added to what was before, and so is what it says
/// was destroyed. Where the server has more changes, the next request asks for those since the
/// state that the response names, and only where it has none is that state the final one.
pub proof fn more_changes_are_asked_for(
    operation: UpdatedEmailIds,
    remote: Remote,
    response: Response,
    next: Next<UpdatedEmailIds, (State, IdSet, IdSet)>,
    sent: MethodResponseChanges,
)
    requires
        operation.followed_by(&remote, &response, &next),
        response.method_responses@.len() == 1,
        response.method_responses@[0].id@ == "0"@,
        response.method_responses@[0].call == MethodResponse::EmailChanges(sent),
    ensures
        ({
            let updated = operation.updated_ids@ + id_texts(sent.created@) + id_texts(
                sent.updated@,
            );
            let destroyed = operation.destroyed_ids@ + id_texts(sent.destroyed@);
            if sent.has_more_changes {
                &&& next matches Next::Post { call, then }
                &&& asks_for_changes(&call, &remote, sent.new_state)
                &&& then.updated_ids@ == updated
                &&& then.destroyed_ids@ == destroyed
            } else {
                &&& next matches Next::Done(Ok((state, updated_ids, destroyed_ids)))
                &&& state == sent.new_state
                &&& updated_ids@ == updated
                &&& destroyed_ids@ == destroyed
            }
        }),
{
}

/// A response that does not hold changes ends the operation with an error: the one that the server
/// sent in their place, if it did.
pub proof fn following_fails_on_anything_else(
    operation: UpdatedEmailIds,
    remote: Remote,
    response: Response,
    next: Next<UpdatedEmailIds, (State, IdSet, IdSet)>,
)
    requires
        operation.followed_by(&remote, &response, &next),
    ensures
        ({
            let responses = response.method_responses@;
            let unexpected = Next::<UpdatedEmailIds, (State, IdSet, IdSet)>::Done(
                Err(Error::UnexpectedResponse),
            );
            if responses.len() != 1 || responses[0].id@ != "0"@ {
                next == unexpected
            } else {
                match responses[0].call {
                    MethodResponse::Error(error) => next == Next::<
                        UpdatedEmailIds,
                        (State, IdSet, IdSet),
                    >::Done(Err(Error::MethodError { error })),
                    MethodResponse::EmailChanges(_) => true,
                    _ => next == unexpected,
                }
            }
        }),
{
}

/// However many responses the server spreads its changes over, each request but the first asks for
/// those since the state that the response before it named, and the operation ends with the last
/// response and not before. It ends with the state that this one names; what it says was created
/// or updated is what some response says so of, and the same holds of what was destroyed.
pub proof fn following_brings_all_changes(
    remote: Remote,
    state: State,
    steps: Seq<Next<UpdatedEmailIds, (State, IdSet, IdSet)>>,
    remotes: Seq<Remote>,
    responses: Seq<Response>,
    sent: Seq<MethodResponseChanges>,
)
    requires
        is_trace(steps, remotes, responses),
        responses.len() == sent.len() > 0,
        steps[0] matches Next::Post { call, then } && asks_for_changes(&call, &remote, state)
            && then.updated_ids@ == Set::<Seq<char>>::empty() && then.destroyed_ids@ == Set::<
            Seq<char>,
        >::empty(),
        forall|i: int|
            0 <= i < responses.len() ==> (#[trigger] responses[i]).method_responses@.len() == 1
                && responses[i].method_responses@[0].id@
                == steps[i]->call.request.method_calls@[0].id@
                && responses[i].method_responses@[0].call == MethodResponse::EmailChanges(sent[i]),
        forall|i: int| 0 <= i < sent.len() - 1 ==> (#[trigger] sent[i]).has_more_changes,
    ensures
        match steps.last() {
            Next::Post { call, .. } => sent.last().has_more_changes && asks_for_changes(
                &call,
                &remotes.last(),
                sent.last().new_state,
            ),
            Next::Done(Ok((final_state, updated_ids, destroyed_ids))) => {
                &&& !sent.last().has_more_changes
                &&& final_state == sent.last().new_state
                &&& forall|i: int, j: int|
                    0 <= i < sent.len() && 0 <= j < sent[i].created@.len()
                        ==> updated_ids@.contains((#[trigger] sent[i].created@[j]).0@)
                &&& forall|i: int, j: int|
                    0 <= i < sent.len() && 0 <= j < sent[i].updated@.len()
                        ==> updated_ids@.contains((#[trigger] sent[i].updated@[j]).0@)
                &&& forall|i: int, j: int|
                    0 <= i < sent.len() && 0 <= j < sent[i].destroyed@.len()
                        ==> destroyed_ids@.contains((#[trigger] sent[i].destroyed@[j]).0@)
                &&& forall|text: Seq<char>| #[trigger]
                    updated_ids@.contains(text) ==> (exists|i: int, j: int|
                        0 <= i < sent.len() && 0 <= j < sent[i].created@.len() && (
                        #[trigger] sent[i].created@[j]).0@ == text) || (exists|i: int, j: int|
                        0 <= i < sent.len() && 0 <= j < sent[i].updated@.len() && (
                        #[trigger] sent[i].updated@[j]).0@ == text)
                &&& forall|text: Seq<char>| #[trigger]
                    destroyed_ids@.contains(text) ==> exists|i: int, j: int|
                        0 <= i < sent.len() && 0 <= j < sent[i].destroyed@.len() && (
                        #[trigger] sent[i].destroyed@[j]).0@ == text
            },
            _ => false,
        },
{
    lemma_changes_so_far(remote, state, steps, remotes, responses, sent);
    let updated = id_texts(all_updated(sent));
    let destroyed = id_texts(all_destroyed(sent));
    assert forall|i: int, j: int|
        0 <= i < sent.len() && 0 <= j < sent[i].created@.len() implies updated.contains(
        (#[trigger] sent[i].created@[j]).0@,
    ) by {
        lemma_change_is_among_all(sent, i);
        assert(id_texts(sent[i].created@).contains(sent[i].created@[j]@));
    }
    assert forall|i: int, j: int|
        0 <= i < sent.len() && 0 <= j < sent[i].updated@.len() implies updated.contains(
        (#[trigger] sent[i].updated@[j]).0@,
    ) by {
        lemma_change_is_among_all(sent, i);
        assert(id_texts(sent[i].updated@).contains(sent[i].updated@[j]@));
    }
    assert forall|i: int, j: int|
        0 <= i < sent.len() && 0 <= j < sent[i].destroyed@.len() implies destroyed.contains(
        (#[trigger] sent[i].destroyed@[j]).0@,
    ) by {
        lemma_change_is_among_all(sent, i);
        assert(id_texts(sent[i].destroyed@).contains(sent[i].destroyed@[j]@));
    }
    assert forall|text: Seq<char>| #[trigger] updated.contains(text) implies (exists|
        i: int,
        j: int,
    |
        0 <= i < sent.len() && 0 <= j < sent[i].created@.len() && (
        #[trigger] sent[i].created@[j]).0@ == text) || (exists|i: int, j: int|
        0 <= i < sent.len() && 0 <= j < sent[i].updated@.len() && (
        #[trigger] sent[i].updated@[j]).0@ == text) by {
        let i = lemma_update_is_of_one(sent, text);
        if id_texts(sent[i].created@).contains(text) {
            let j = choose|j: int|
                0 <= j < sent[i].created@.len() && (#[trigger] sent[i].created@[j])@ == text;
            assert(sent[i].created@[j].0@ == text);
        } else {
            let j = choose|j: int|
                0 <= j < sent[i].updated@.len() && (#[trigger] sent[i].updated@[j])@ == text;
            assert(sent[i].updated@[j].0@ == text);
        }
    }
    assert forall|text: Seq<char>| #[trigger] destroyed.contains(text) implies exists|
        i: int,
        j: int,
    |
        0 <= i < sent.len() && 0 <= j < sent[i].destroyed@.len() && (
        #[trigger] sent[i].destroyed@[j]).0@ == text by {
        let i = lemma_destruction_is_of_one(sent, text);
        let j = choose|j: int|
            0 <= j < sent[i].destroyed@.len() && (#[trigger] sent[i].destroyed@[j])@ == text;
        assert(sent[i].destroyed@[j].0@ == text);
    }
}

/// Until it ends, such an operation has what was sent so far.
proof fn lemma_changes_so_far(
    remote: Remote,
    state: State,
    steps: Seq<Next<UpdatedEmailIds, (State, IdSet, IdSet)>>,
    remotes: Seq<Remote>,
    responses: Seq<Response>,
    sent: Seq<MethodResponseChanges>,
)
    requires
        is_trace(steps, remotes, responses),
        responses.len() == sent.len() > 0,
        steps[0] matches Next::Post { call, then } && asks_for_changes(&call, &remote, state)
            && then.updated_ids@ == Set::<Seq<char>>::empty() && then.destroyed_ids@ == Set::<
            Seq<char>,
        >::empty(),
        forall|i: int|
            0 <= i < responses.len() ==> (#[trigger] responses[i]).method_responses@.len() == 1
                && responses[i].method_responses@[0].id@
                == steps[i]->call.request.method_calls@[0].id@
                && responses[i].method_responses@[0].call == MethodResponse::EmailChanges(sent[i]),
        forall|i: int| 0 <= i < sent.len() - 1 ==> (#[trigger] sent[i]).has_more_changes,
    ensures
        if sent.last().has_more_changes {
            &&& steps.last() matches Next::Post { call, then }
            &&& asks_for_changes(&call, &remotes.last(), sent.last().new_state)
            &&& then.updated_ids@ == id_texts(all_updated(sent))
            &&& then.destroyed_ids@ == id_texts(all_destroyed(sent))
        } else {
            &&& steps.last() matches Next::Done(Ok((final_state, updated_ids, destroyed_ids)))
            &&& final_state == sent.last().new_state
            &&& updated_ids@ == id_texts(all_updated(sent))
            &&& destroyed_ids@ == id_texts(all_destroyed(sent))
        },
    decreases sent.len(),
{
    let n = sent.len() - 1;
    let init = sent.drop_last();
    let last = sent.last();
    lemma_trace_prefix(steps, remotes, responses);
    assert(responses[n] == responses.last());
    assert(responses[n].method_responses@[0].call == MethodResponse::EmailChanges(sent[n]));
    lemma_id_texts_add(all_updated(init), last.created@);
    lemma_id_texts_add(all_updated(init) + last.created@, last.updated@);
    lemma_id_texts_add(all_destroyed(init), last.destroyed@);
    assert(steps.drop_last().last() == steps[n]);
    if n == 0 {
        assert(id_texts(all_updated(init)) =~= Set::empty());
        assert(id_texts(all_destroyed(init)) =~= Set::empty());
    } else {
        assert forall|i: int| 0 <= i < init.len() implies (
        #[trigger] responses.drop_last()[i]).method_responses@.len() == 1
            && responses.drop_last()[i].method_responses@[0].id@
            == steps.drop_last()[i]->call.request.method_calls@[0].id@
            && responses.drop_last()[i].method_responses@[0].call == MethodResponse::EmailChanges(
            init[i],
        ) by {
            assert(responses.drop_last()[i] == responses[i]);
        }
        assert forall|i: int| 0 <= i < init.len() - 1 implies (
        #[trigger] init[i]).has_more_changes by {
            assert(sent[i].has_more_changes);
        }
        assert(sent[n - 1].has_more_changes);
        lemma_changes_so_far(
            remote,
            state,
            steps.drop_last(),
            remotes.drop_last(),
            responses.drop_last(),
            init,
        );
    }
}

/// What one response says is among what all of them say.
proof fn lemma_change_is_among_all(sent: Seq<MethodResponseChanges>, i: int)
    requires
        0 <= i < sent.len(),
    ensures
        id_texts(sent[i].created@).subset_of(id_texts(all_updated(sent))),
        id_texts(sent[i].updated@).subset_of(id_texts(all_updated(sent))),
        id_texts(sent[i].destroyed@).subset_of(id_texts(all_destroyed(sent))),
    decreases sent.len(),
{
    let init = sent.drop_last();
    let last = sent.last();
    lemma_id_texts_add(all_updated(init), last.created@);
    lemma_id_texts_add(all_updated(init) + last.created@, last.updated@);
    lemma_id_texts_add(all_destroyed(init), last.destroyed@);
    if i < sent.len() - 1 {
        lemma_change_is_among_all(init, i);
        assert(init[i] == sent[i]);
    }
}

/// What all responses say was created or updated, one of them says.
proof fn lemma_update_is_of_one(sent: Seq<MethodResponseChanges>, text: Seq<char>) -> (i: int)
    requires
        id_texts(all_updated(sent)).contains(text),
    ensures
        0 <= i < sent.len(),
        id_texts(sent[i].created@).contains(text) || id_texts(sent[i].updated@).contains(text),
    decreases sent.len(),
{
    let init = sent.drop_last();
    let last = sent.last();
    if sent.len() > 0 {
        lemma_id_texts_add(all_updated(init), last.created@);
        lemma_id_texts_add(all_updated(init) + last.created@, last.updated@);
    }
    if id_texts(last.created@).contains(text) || id_texts(last.updated@).contains(text) {
        sent.len() - 1
    } else {
        let i = lemma_update_is_of_one(init, text);
        assert(init[i] == sent[i]);
        i
    }
}

/// What all responses say was destroyed, one of them says.
proof fn lemma_destruction_is_of_one(sent: Seq<MethodResponseChanges>, text: Seq<char>) -> (i: int)
    requires
        id_texts(all_destroyed(sent)).contains(text),
    ensures
        0 <= i < sent.len(),
        id_texts(sent[i].destroyed@).contains(text),
    decreases sent.len(),
{
    let init = sent.drop_last();
    let last = sent.last();
    if sent.len() > 0 {
        lemma_id_texts_add(all_destroyed(init), last.destroyed@);
    }
    if id_texts(last.destroyed@).contains(text) {
        sent.len() - 1
    } else {
        let i = lemma_destruction_is_of_one(init, text);
        assert(init[i] == sent[i]);
        i
    }
}

} // verus!
