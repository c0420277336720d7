//! Fetching the properties of emails, some at a time.
use crate::email::{kept, with_emails, EmailMap, EmailView};
use crate::error::Error;
use crate::exchange::{
    expect_email_get, expected_email_get, is_mail_call, is_trace, lemma_trace_prefix, Next,
    Operation,
};
use crate::http::ApiCall;
use crate::id_set::{distinct, id_texts, lemma_id_texts_add, IdSet};
use crate::jmap;
use crate::jmap::{
    EmailKeyword, Id, MethodCall, MethodCallGet, MethodResponse, MethodResponseError,
    RequestInvocation, Response, State,
};
use crate::remote::Remote;
use itertools::Itertools;
use vstd::prelude::*;

verus! {

/// The items of several lists, one list after the other.
pub open spec fn joined<T>(lists: Seq<Vec<T>>) -> Seq<T>
    decreases lists.len(),
{
    if lists.len() == 0 {
        Seq::empty()
    } else {
        joined(lists.drop_last()) + lists.last()@
    }
}

/// Whether `lists` cut `items` into lists of `size`, of which only the last may be shorter.
pub open spec fn are_chunks<T>(lists: Seq<Vec<T>>, items: Seq<T>, size: nat) -> bool {
    &&& joined(lists) == items
    &&& forall|i: int| 0 <= i < lists.len() - 1 ==> (#[trigger] lists[i])@.len() == size
    &&& lists.len() > 0 ==> 0 < lists.last()@.len() <= size
}

/// Calls `itertools::Itertools::chunks` on the ids, and `collect_vec` on each chunk. The chunks
/// hold the ids in their order, `size` of them each, and the last one what is left.
///
/// `chunks` panics where `size` is zero.
#[verifier::external_body]
fn chunked(ids: Vec<Id>, size: usize) -> (lists: Vec<Vec<Id>>)
    requires
        size != 0,
    ensures
        are_chunks(lists@, ids@, size as nat),
{
    ids.into_iter().chunks(size).into_iter().map(Itertools::collect_vec).collect()
}

/// The fetching of emails, which waits for a response.
pub struct GetEmails {
    /// The emails so far.
    pub emails: EmailMap,
    /// The ids that are not asked for yet.
    pub chunks: Vec<Vec<Id>>,
}

/// What a response makes of the emails so far.
pub enum FetchOutcome {
    Failed(Error),
    Stored { state: State, emails: Map<Seq<char>, EmailView> },
}

/// What comes of the response to the request made last.
pub open spec fn fetch_outcome(
    emails: Map<Seq<char>, EmailView>,
    response: Response,
) -> FetchOutcome {
    let responses = response.method_responses@;
    if responses.len() != 1 {
        FetchOutcome::Failed(Error::UnexpectedResponse)
    } else {
        match expected_email_get("0"@, responses[0]) {
            Err(error) => FetchOutcome::Failed(error),
            Ok(get) => FetchOutcome::Stored {
                state: get.state,
                emails: with_emails(emails, get.list@),
            },
        }
    }
}

/// Whether `call` asks for the properties that the client cares about, of the emails `ids`.
pub open spec fn asks_for_emails(call: &ApiCall, remote: &Remote, ids: Seq<Id>) -> bool {
    let calls = call.request.method_calls@;
    &&& is_mail_call(call, remote)
    &&& calls.len() == 1
    &&& calls[0].id@ == "0"@
    &&& calls[0].call matches MethodCall::EmailGet { get }
    &&& get.account_id == remote.session.primary_accounts.mail
    &&& get.ids matches Some(asked)
    &&& asked@ == ids
    &&& get.properties matches Some(properties)
    &&& properties@.len() == 4
    &&& properties@[0]@ == "id"@
    &&& properties@[1]@ == "blobId"@
    &&& properties@[2]@ == "keywords"@
    &&& properties@[3]@ == "mailboxIds"@
}

/// Whether `next` asks for the first of `chunks`, or ends with `state` and `emails` where there
/// is none.
pub open spec fn asks_or_ends(
    next: &Next<GetEmails, (State, EmailMap)>,
    remote: &Remote,
    chunks: Seq<Vec<Id>>,
    state: State,
    emails: Map<Seq<char>, EmailView>,
) -> bool {
    if chunks.len() == 0 {
        &&& next matches Next::Done(Ok((final_state, map)))
        &&& final_state == state
        &&& map.wf()
        &&& map@ == emails
    } else {
        &&& next matches Next::Post { call, then }
        &&& asks_for_emails(call, remote, chunks[0]@)
        &&& then.emails.wf()
        &&& then.emails@ == emails
        &&& then.chunks@ == chunks.remove(0)
    }
}

fn ask_or_end(
    remote: &Remote,
    chunks: Vec<Vec<Id>>,
    state: State,
    emails: EmailMap,
) -> (next: Next<GetEmails, (State, EmailMap)>)
    requires
        emails.wf(),
    ensures
        asks_or_ends(&next, remote, chunks@, state, emails@),
{
    if chunks.len() == 0 {
        return Next::Done(Ok((state, emails)));
    }
    let mut chunks = chunks;
    let ids = chunks.remove(0);
    let properties = vec![
        "id".to_owned(),
        "blobId".to_owned(),
        "keywords".to_owned(),
        "mailboxIds".to_owned(),
    ];
    let invocation = RequestInvocation {
        call: MethodCall::EmailGet {
            get: MethodCallGet {
                account_id: remote.session.primary_accounts.mail.clone(),
                ids: Some(ids),
                properties: Some(properties),
            },
        },
        id: "0".to_owned(),
    };
    let call = remote.mail_request(vec![invocation]);
    Next::Post { call, then: GetEmails { emails, chunks } }
}

impl Operation for GetEmails {
    type Output = (State, EmailMap);

    open spec fn wf(&self) -> bool {
        self.emails.wf()
    }

    open spec fn followed_by(
        &self,
        remote: &Remote,
        response: &Response,
        next: &Next<Self, (State, EmailMap)>,
    ) -> bool {
        match fetch_outcome(self.emails@, *response) {
            FetchOutcome::Failed(error) => *next == Next::<Self, (State, EmailMap)>::Done(
                Err(error),
            ),
            FetchOutcome::Stored { state, emails } => asks_or_ends(
                next,
                remote,
                self.chunks@,
                state,
                emails,
            ),
        }
    }

    fn accept(self, remote: &Remote, response: Response) -> (next: Next<Self, (State, EmailMap)>) {
        let mut method_responses = response.method_responses;
        if method_responses.len() != 1 {
            return Next::Done(Err(Error::UnexpectedResponse));
        }
        let get = match expect_email_get("0", method_responses.remove(0)) {
            Ok(get) => get,
            Err(error) => return Next::Done(Err(error)),
        };
        let mut emails = self.emails;
        emails.extend(get.list);
        ask_or_end(remote, self.chunks, get.state, emails)
    }
}

impl Remote {
    /// The number of emails to ask for at a time.
    pub open spec fn chunk_size(&self) -> usize {
        self.session.capabilities.core.max_objects_in_get as usize
    }

    /// Given an `Email/get` state and a list of `Email` IDs, return the latest
    /// `Email/get` state and a map of their IDs to their properties.
    pub fn get_emails(&self, state: State, email_ids: &IdSet) -> (next: Next<
        GetEmails,
        (State, EmailMap),
    >)
        requires
            self.chunk_size() != 0,
            email_ids.wf(),
        ensures
            next.wf(),
            exists|chunks: Seq<Vec<Id>>| #[trigger]
                are_chunks(chunks, email_ids.order(), self.chunk_size() as nat) && asks_or_ends(
                    &next,
                    self,
                    chunks,
                    state,
                    Map::empty(),
                ),
    {
        let chunk_size = self.session.capabilities.core.max_objects_in_get as usize;
        let ids = email_ids.as_list().clone();
        proof {
            assert(ids@ =~= email_ids.order());
        }
        let chunks = chunked(ids, chunk_size);
        ask_or_end(self, chunks, state, EmailMap::new())
    }
}

/// No request asks for more emails than the server allows, and none asks for nothing.
pub proof fn requests_respect_the_limit(chunks: Seq<Vec<Id>>, ids: Seq<Id>, size: nat)
    requires
        are_chunks(chunks, ids, size),
        size > 0,
    ensures
        forall|i: int| 0 <= i < chunks.len() ==> 0 < (#[trigger] chunks[i])@.len() <= size,
{
    assert forall|i: int| 0 <= i < chunks.len() implies 0 < (#[trigger] chunks[i])@.len()
        <= size by {
        if i == chunks.len() - 1 {
            assert(chunks[i] == chunks.last());
        }
    }
}

/// Every email of the set is asked for, once, and no other is.
pub proof fn every_email_is_asked_for_once(chunks: Seq<Vec<Id>>, email_ids: IdSet, size: nat)
    requires
        email_ids.wf(),
        are_chunks(chunks, email_ids.order(), size),
    ensures
        distinct(joined(chunks)),
        id_texts(joined(chunks)) == email_ids@,
{
    email_ids.lemma_order();
}

/// What comes of the responses to the requests for emails, one after the other. A failure stays
/// as it is.
pub open spec fn fetch_run(state: State, responses: Seq<Response>) -> FetchOutcome
    decreases responses.len(),
{
    if responses.len() == 0 {
        FetchOutcome::Stored { state, emails: Map::empty() }
    } else {
        match fetch_run(state, responses.drop_last()) {
            FetchOutcome::Stored { emails, .. } => fetch_outcome(emails, responses.last()),
            failed => failed,
        }
    }
}

/// The emails that a response lists, where it answers a request for emails.
pub open spec fn listed(response: Response) -> Option<Seq<jmap::Email>> {
    if response.method_responses@.len() != 1 {
        None
    } else {
        match expected_email_get("0"@, response.method_responses@[0]) {
            Ok(get) => Some(get.list@),
            Err(_) => None,
        }
    }
}

/// The ids of emails that the server sent.
pub open spec fn sent_ids(list: Seq<jmap::Email>) -> Set<Seq<char>> {
    Set::new(|text: Seq<char>| exists|i: int| 0 <= i < list.len() && (#[trigger] list[i]).id@ == text)
}

/// Whether the `i`-th email of a list is the last one with its id.
pub open spec fn is_last_of_id(list: Seq<jmap::Email>, i: int) -> bool {
    &&& 0 <= i < list.len()
    &&& forall|j: int| i < j < list.len() ==> (#[trigger] list[j]).id@ != list[i].id@
}

/// Whether `emails` hold, under each id of the list and under no other, what is kept of the last
/// email of the list with that id.
pub open spec fn keeps_last_of_each(
    emails: Map<Seq<char>, EmailView>,
    list: Seq<jmap::Email>,
) -> bool {
    &&& emails.dom() == sent_ids(list)
    &&& forall|k: Seq<char>| #[trigger]
        emails.contains_key(k) ==> exists|i: int| #[trigger]
            is_last_of_id(list, i) && list[i].id@ == k && emails[k] == kept(list[i])
}

/// The emails of all responses, one response after the other.
pub open spec fn all_listed(responses: Seq<Response>) -> Seq<jmap::Email>
    decreases responses.len(),
{
    if responses.len() == 0 {
        Seq::empty()
    } else {
        all_listed(responses.drop_last()) + listed(responses.last()).unwrap_or(Seq::empty())
    }
}

/// The ids of a list with one more email at its end.
proof fn lemma_sent_ids_push(list: Seq<jmap::Email>, email: jmap::Email)
    ensures
        sent_ids(list.push(email)) == sent_ids(list).insert(email.id@),
{
    let pushed = list.push(email);
    assert forall|text: Seq<char>| sent_ids(list).insert(email.id@).contains(
        text,
    ) implies sent_ids(pushed).contains(text) by {
        if text == email.id@ {
            assert(pushed[list.len() as int].id@ == text);
        } else {
            let i = choose|i: int| 0 <= i < list.len() && (#[trigger] list[i]).id@ == text;
            assert(pushed[i].id@ == text);
        }
    }
    assert forall|text: Seq<char>| sent_ids(pushed).contains(text) implies sent_ids(list).insert(
        email.id@,
    ).contains(text) by {
        let i = choose|i: int| 0 <= i < pushed.len() && (#[trigger] pushed[i]).id@ == text;
        if i < list.len() {
            assert(list[i].id@ == text);
        }
    }
    assert(sent_ids(pushed) =~= sent_ids(list).insert(email.id@));
}

/// The ids of two lists are those of the one and those of the other.
proof fn lemma_sent_ids_add(left: Seq<jmap::Email>, right: Seq<jmap::Email>)
    ensures
        sent_ids(left + right) == sent_ids(left).union(sent_ids(right)),
    decreases right.len(),
{
    if right.len() == 0 {
        assert(left + right =~= left);
        assert(sent_ids(left).union(sent_ids(right)) =~= sent_ids(left));
    } else {
        let init = right.drop_last();
        lemma_sent_ids_add(left, init);
        lemma_sent_ids_push(left + init, right.last());
        lemma_sent_ids_push(init, right.last());
        assert((left + init).push(right.last()) =~= left + right);
        assert(init.push(right.last()) =~= right);
        assert(sent_ids(left + right) =~= sent_ids(left).union(sent_ids(right)));
    }
}

/// Putting two lists into a map, one after the other, is putting all of their emails into it.
proof fn lemma_with_emails_add(
    emails: Map<Seq<char>, EmailView>,
    left: Seq<jmap::Email>,
    right: Seq<jmap::Email>,
)
    ensures
        with_emails(emails, left + right) == with_emails(with_emails(emails, left), right),
    decreases right.len(),
{
    if right.len() == 0 {
        assert(left + right =~= left);
    } else {
        lemma_with_emails_add(emails, left, right.drop_last());
        assert((left + right).drop_last() =~= left + right.drop_last());
    }
}

/// A map into which a list is put keeps the last email of each id.
proof fn lemma_keeps_last(list: Seq<jmap::Email>)
    ensures
        keeps_last_of_each(with_emails(Map::empty(), list), list),
    decreases list.len(),
{
    let emails = with_emails(Map::empty(), list);
    if list.len() == 0 {
        assert(emails.dom() =~= sent_ids(list));
    } else {
        let init = list.drop_last();
        let last = list.last();
        let before = with_emails(Map::empty(), init);
        lemma_keeps_last(init);
        lemma_sent_ids_push(init, last);
        assert(init.push(last) =~= list);
        assert(emails.dom() =~= sent_ids(list));
        assert forall|k: Seq<char>| #[trigger] emails.contains_key(k) implies exists|
            i: int,
        | #[trigger]
            is_last_of_id(list, i) && list[i].id@ == k && emails[k] == kept(list[i]) by {
            if k == last.id@ {
                assert(is_last_of_id(list, list.len() - 1));
            } else {
                assert(before.contains_key(k));
                let i = choose|i: int| #[trigger]
                    is_last_of_id(init, i) && init[i].id@ == k && before[k] == kept(init[i]);
                assert(list[i] == init[i]);
                assert forall|j: int| i < j < list.len() implies (#[trigger] list[j]).id@
                    != list[i].id@ by {
                    if j < init.len() {
                        assert(init[j].id@ != init[i].id@);
                    }
                }
                assert(is_last_of_id(list, i));
            }
        }
    }
}

/// Whatever emails the server lists, the operation keeps the last one of each id, and no others.
/// An email that the server does not list is left out, without an error.
pub proof fn last_email_of_each_id_is_kept(state: State, responses: Seq<Response>)
    ensures
        fetch_run(state, responses) matches FetchOutcome::Stored { emails, .. }
            ==> keeps_last_of_each(emails, all_listed(responses)),
{
    lemma_fetch_run(state, responses);
    lemma_keeps_last(all_listed(responses));
}

/// What is stored are the emails of all responses, put into an empty map.
proof fn lemma_fetch_run(state: State, responses: Seq<Response>)
    ensures
        fetch_run(state, responses) matches FetchOutcome::Stored { emails, .. } ==> emails
            == with_emails(Map::empty(), all_listed(responses)),
    decreases responses.len(),
{
    if responses.len() > 0 {
        let init = responses.drop_last();
        lemma_fetch_run(state, init);
        if let Some(list) = listed(responses.last()) {
            lemma_with_emails_add(Map::empty(), all_listed(init), list);
        }
    }
}

/// Every email is kept under its own id, and none carries a keyword that the client does not
/// know.
pub proof fn emails_are_kept_under_their_ids(state: State, responses: Seq<Response>)
    ensures
        fetch_run(state, responses) matches FetchOutcome::Stored { emails, .. } ==> forall|
            k: Seq<char>,
        | #[trigger]
            emails.contains_key(k) ==> emails[k].id == k && !emails[k].keywords.contains(
                EmailKeyword::Unknown,
            ),
{
    last_email_of_each_id_is_kept(state, responses);
}

/// Whether the server answers each request with the emails that it has among those it was asked
/// for, and with no others. `existing` are the ids of the emails that it has.
pub open spec fn lists_what_exists(
    existing: Set<Seq<char>>,
    chunks: Seq<Vec<Id>>,
    responses: Seq<Response>,
) -> bool {
    forall|i: int|
        0 <= i < responses.len() ==> (listed(#[trigger] responses[i]) matches Some(list)
            && sent_ids(list) == id_texts(chunks[i]@).intersect(existing))
}

/// Where the server lists in each response the emails that it has among those it was asked for,
/// the operation brings the email of each id of the set that the server has, and no other.
pub proof fn every_existing_email_is_fetched(
    state: State,
    email_ids: IdSet,
    existing: Set<Seq<char>>,
    chunks: Seq<Vec<Id>>,
    size: nat,
    responses: Seq<Response>,
)
    requires
        email_ids.wf(),
        are_chunks(chunks, email_ids.order(), size),
        responses.len() == chunks.len(),
        lists_what_exists(existing, chunks, responses),
    ensures
        fetch_run(state, responses) matches FetchOutcome::Stored { emails, .. } && emails.dom()
            == email_ids@.intersect(existing) && keeps_last_of_each(emails, all_listed(responses)),
{
    email_ids.lemma_order();
    lemma_all_listed(state, existing, chunks, responses);
    last_email_of_each_id_is_kept(state, responses);
    assert(chunks.take(responses.len() as int) =~= chunks);
}

/// The responses of such a server do not fail, and list what it has of the first chunks.
proof fn lemma_all_listed(
    state: State,
    existing: Set<Seq<char>>,
    chunks: Seq<Vec<Id>>,
    responses: Seq<Response>,
)
    requires
        responses.len() <= chunks.len(),
        lists_what_exists(existing, chunks, responses),
    ensures
        fetch_run(state, responses) is Stored,
        sent_ids(all_listed(responses)) == id_texts(
            joined(chunks.take(responses.len() as int)),
        ).intersect(existing),
    decreases responses.len(),
{
    let n = responses.len() as int;
    if n == 0 {
        assert(sent_ids(all_listed(responses)) =~= id_texts(joined(chunks.take(0))).intersect(
            existing,
        ));
    } else {
        let init = responses.drop_last();
        assert forall|i: int| 0 <= i < init.len() implies (listed(
            #[trigger] init[i],
        ) matches Some(list) && sent_ids(list) == id_texts(chunks[i]@).intersect(existing)) by {
            assert(init[i] == responses[i]);
        }
        lemma_all_listed(state, existing, chunks, init);
        assert(responses[n - 1] == responses.last());
        let list = listed(responses.last())->0;
        let first = chunks.take(n - 1);
        assert(chunks.take(n).drop_last() =~= first);
        lemma_id_texts_add(joined(first), chunks[n - 1]@);
        lemma_sent_ids_add(all_listed(init), list);
        assert(sent_ids(all_listed(responses)) =~= id_texts(joined(chunks.take(n))).intersect(
            existing,
        ));
    }
}

/// The state is that of the last response, or the one that the operation began with where there
/// is nothing to fetch.
pub proof fn fetched_state_is_the_latest(state: State, responses: Seq<Response>)
    ensures
        fetch_run(state, responses) matches FetchOutcome::Stored { state: latest, .. } ==> latest
            == (if responses.len() == 0 {
            state
        } else {
            expected_email_get("0"@, responses.last().method_responses@[0])->Ok_0.state
        }),
{
}

/// A refused request for emails ends the operation with the server's error.
pub proof fn refused_request_for_emails_is_reported(
    emails: Map<Seq<char>, EmailView>,
    response: Response,
    error: MethodResponseError,
)
    requires
        response.method_responses@.len() == 1,
        response.method_responses@[0].id@ == "0"@,
        response.method_responses@[0].call == MethodResponse::Error(error),
    ensures
        fetch_outcome(emails, response) == FetchOutcome::Failed(Error::MethodError { error }),
{
}

/// Lists of one length hold that many items each.
proof fn lemma_joined_length<T>(lists: Seq<Vec<T>>, size: nat)
    requires
        forall|i: int| 0 <= i < lists.len() ==> (#[trigger] lists[i])@.len() == size,
    ensures
        joined(lists).len() == lists.len() * size,
    decreases lists.len(),
{
    if lists.len() > 0 {
        let init = lists.drop_last();
        let n = init.len();
        assert forall|i: int| 0 <= i < n implies (#[trigger] init[i])@.len() == size by {
            assert(init[i] == lists[i]);
        }
        lemma_joined_length(init, size);
        assert(lists[lists.len() - 1]@.len() == size);
        assert((n + 1) * size == n * size + size) by (nonlinear_arith);
    } else {
        assert(0 * size == 0) by (nonlinear_arith);
    }
}

/// What the first lists hold is a prefix of what all of them hold.
proof fn lemma_joined_prefix<T>(lists: Seq<Vec<T>>, n: int)
    requires
        0 <= n <= lists.len(),
    ensures
        joined(lists.take(n)).len() <= joined(lists).len(),
        joined(lists.take(n)) == joined(lists).take(joined(lists.take(n)).len() as int),
    decreases lists.len(),
{
    if n == lists.len() {
        assert(lists.take(n) =~= lists);
        assert(joined(lists).take(joined(lists).len() as int) =~= joined(lists));
    } else {
        let init = lists.drop_last();
        lemma_joined_prefix(init, n);
        assert(init.take(n) =~= lists.take(n));
        assert(joined(lists.take(n)) =~= joined(lists).take(joined(lists.take(n)).len() as int));
    }
}

/// Each request asks for the emails that come next in the order: the `i`-th one leaves out the
/// first `i * size` of them, and asks for the next `size`, or for what is left.
pub proof fn requests_follow_the_order(chunks: Seq<Vec<Id>>, ids: Seq<Id>, size: nat, i: int)
    requires
        are_chunks(chunks, ids, size),
        0 <= i < chunks.len(),
    ensures
        i * size + chunks[i]@.len() <= ids.len(),
        chunks[i]@ == ids.subrange(i * size, i * size + chunks[i]@.len()),
        chunks[i]@.len() == size || i * size + chunks[i]@.len() == ids.len(),
{
    let before = chunks.take(i);
    let upto = chunks.take(i + 1);
    assert forall|k: int| 0 <= k < before.len() implies (#[trigger] before[k])@.len() == size by {
        assert(chunks[k]@.len() == size);
    }
    lemma_joined_length(before, size);
    lemma_joined_prefix(chunks, i + 1);
    assert(upto.drop_last() =~= before);
    assert(upto.last() == chunks[i]);
    assert(joined(upto) == joined(before) + chunks[i]@);
    assert(chunks[i]@ =~= ids.subrange(i * size, i * size + chunks[i]@.len())) by {
        assert forall|k: int| 0 <= k < chunks[i]@.len() implies chunks[i]@[k] == ids[i * size
            + k] by {
            assert(joined(upto)[i * size + k] == chunks[i]@[k]);
            assert(joined(upto)[i * size + k] == ids[i * size + k]);
        }
    }
    if i == chunks.len() - 1 {
        assert(upto =~= chunks);
    }
}

/// The responses that the fetching of emails accepts decide how it goes on and how it ends; the
/// chunks are asked for one after the other.
pub proof fn fetching_goes_by_its_responses(
    remote: Remote,
    chunks: Seq<Vec<Id>>,
    state: State,
    steps: Seq<Next<GetEmails, (State, EmailMap)>>,
    remotes: Seq<Remote>,
    responses: Seq<Response>,
)
    requires
        is_trace(steps, remotes, responses),
        asks_or_ends(&steps[0], &remote, chunks, state, Map::empty()),
    ensures
        responses.len() <= chunks.len(),
        match fetch_run(state, responses) {
            FetchOutcome::Failed(error) => steps.last() == Next::<
                GetEmails,
                (State, EmailMap),
            >::Done(Err(error)),
            FetchOutcome::Stored { state: latest, emails } => asks_or_ends(
                &steps.last(),
                if responses.len() == 0 {
                    &remote
                } else {
                    &remotes.last()
                },
                chunks.skip(responses.len() as int),
                latest,
                emails,
            ),
        },
    decreases responses.len(),
{
    if responses.len() == 0 {
        assert(chunks.skip(0) =~= chunks);
    } else {
        let n = responses.len() - 1;
        lemma_trace_prefix(steps, remotes, responses);
        fetching_goes_by_its_responses(
            remote,
            chunks,
            state,
            steps.drop_last(),
            remotes.drop_last(),
            responses.drop_last(),
        );
        assert(steps.drop_last().last() == steps[n]);
        assert(chunks.skip(n).remove(0) =~= chunks.skip(n + 1));
    }
}

/// At a server that answers each request with the emails that it has among those it was asked
/// for, the fetching of emails goes on until each chunk is asked for. It has then brought the
/// email of each id of the set that the server has, and no other, each as it was listed last, and
/// the state that came with the last response.
pub proof fn all_emails_are_fetched(
    remote: Remote,
    email_ids: IdSet,
    existing: Set<Seq<char>>,
    chunks: Seq<Vec<Id>>,
    state: State,
    steps: Seq<Next<GetEmails, (State, EmailMap)>>,
    remotes: Seq<Remote>,
    responses: Seq<Response>,
)
    requires
        email_ids.wf(),
        are_chunks(chunks, email_ids.order(), remote.chunk_size() as nat),
        is_trace(steps, remotes, responses),
        asks_or_ends(&steps[0], &remote, chunks, state, Map::empty()),
        lists_what_exists(existing, chunks, responses),
    ensures
        responses.len() < chunks.len() ==> (steps.last() matches Next::Post { call, .. }
            && asks_for_emails(
            &call,
            if responses.len() == 0 {
                &remote
            } else {
                &remotes.last()
            },
            chunks[responses.len() as int]@,
        )),
        responses.len() >= chunks.len() ==> {
            &&& steps.last() matches Next::Done(Ok((latest, emails)))
            &&& emails@.dom() == email_ids@.intersect(existing)
            &&& keeps_last_of_each(emails@, all_listed(responses))
            &&& latest == (if responses.len() == 0 {
                state
            } else {
                expected_email_get("0"@, responses.last().method_responses@[0])->Ok_0.state
            })
        },
{
    fetching_goes_by_its_responses(remote, chunks, state, steps, remotes, responses);
    lemma_all_listed(state, existing, chunks, responses);
    if responses.len() == chunks.len() {
        every_existing_email_is_fetched(
            state,
            email_ids,
            existing,
            chunks,
            remote.chunk_size() as nat,
            responses,
        );
        fetched_state_is_the_latest(state, responses);
    }
}

/// A request for emails asks for these emails and no others, and for the four properties that the
/// client keeps.
pub proof fn request_asks_for_four_properties(call: ApiCall, remote: Remote, ids: Seq<Id>)
    requires
        asks_for_emails(&call, &remote, ids),
    ensures
        ({
            let calls = call.request.method_calls@;
            &&& is_mail_call(&call, &remote)
            &&& calls.len() == 1
            &&& calls[0].id@ == "0"@
            &&& calls[0].call matches MethodCall::EmailGet { get }
            &&& get.account_id == remote.session.primary_accounts.mail
            &&& get.ids matches Some(asked)
            &&& asked@ == ids
            &&& get.properties matches Some(properties)
            &&& properties@.len() == 4
            &&& properties@[0]@ == "id"@
            &&& properties@[1]@ == "blobId"@
            &&& properties@[2]@ == "keywords"@
            &&& properties@[3]@ == "mailboxIds"@
        }),
{
}

/// There are as many chunks as are needed to hold all ids, and no more.
pub proof fn chunks_are_as_many_as_needed(chunks: Seq<Vec<Id>>, ids: Seq<Id>, size: nat)
    requires
        are_chunks(chunks, ids, size),
        size > 0,
    ensures
        chunks.len() == 0 <==> ids.len() == 0,
        chunks.len() > 0 ==> (chunks.len() - 1) * size < ids.len() <= chunks.len() * size,
{
    if chunks.len() > 0 {
        let n = chunks.len() - 1;
        let before = chunks.drop_last();
        assert forall|k: int| 0 <= k < before.len() implies (#[trigger] before[k])@.len()
            == size by {
            assert(chunks[k]@.len() == size);
        }
        lemma_joined_length(before, size);
        assert(chunks.len() * size == n * size + size) by (nonlinear_arith)
            requires
                n == chunks.len() - 1,
        ;
    }
}

/// The first request asks for as many of the first ids as the server allows in one call, or for all
/// of them where they are fewer. What is left is for later requests. Where there are no ids at
/// all, there is no request, and the state is the one that was given.
pub proof fn first_request_asks_for_the_first_ids(
    remote: Remote,
    chunks: Seq<Vec<Id>>,
    ids: Seq<Id>,
    state: State,
    next: Next<GetEmails, (State, EmailMap)>,
)
    requires
        remote.session.capabilities.core.max_objects_in_get as usize != 0,
        are_chunks(chunks, ids, remote.chunk_size() as nat),
        asks_or_ends(&next, &remote, chunks, state, Map::empty()),
    ensures
        ids.len() == 0 ==> {
            &&& next matches Next::Done(Ok((final_state, emails)))
            &&& final_state == state
            &&& emails@ == Map::<Seq<char>, EmailView>::empty()
        },
        ids.len() > 0 ==> {
            let size = remote.session.capabilities.core.max_objects_in_get as usize as int;
            let n = if size < ids.len() {
                size
            } else {
                ids.len() as int
            };
            &&& next matches Next::Post { call, then }
            &&& asks_for_emails(&call, &remote, ids.take(n))
            &&& joined(then.chunks@) == ids.skip(n)
            &&& then.emails@ == Map::<Seq<char>, EmailView>::empty()
        },
{
    let size = remote.chunk_size() as nat;
    chunks_are_as_many_as_needed(chunks, ids, size);
    if chunks.len() > 0 {
        requests_follow_the_order(chunks, ids, size, 0);
        requests_respect_the_limit(chunks, ids, size);
        assert(0 * size == 0) by (nonlinear_arith);
        let n = chunks[0]@.len() as int;
        assert(chunks[0]@ =~= ids.take(n));
        lemma_joined_first(chunks);
        assert(joined(chunks.remove(0)) =~= ids.skip(n));
    }
}

/// The first list comes first, and then the others.
proof fn lemma_joined_first<T>(lists: Seq<Vec<T>>)
    requires
        lists.len() > 0,
    ensures
        joined(lists) == lists[0]@ + joined(lists.remove(0)),
    decreases lists.len(),
{
    let rest = lists.remove(0);
    if lists.len() == 1 {
        assert(rest =~= Seq::empty());
        assert(lists.drop_last() =~= Seq::empty());
        assert(joined(lists) =~= lists[0]@ + joined(rest));
    } else {
        lemma_joined_first(lists.drop_last());
        assert(lists.drop_last().remove(0) =~= rest.drop_last());
        assert(joined(lists) =~= lists[0]@ + joined(rest));
    }
}

/// The emails of a response are put to those that are there, and the next of the chunks that are
/// left is asked for. Where none is left, the operation ends with the state that the response
/// names.
pub proof fn next_chunk_is_asked_for(
    operation: GetEmails,
    remote: Remote,
    response: Response,
    next: Next<GetEmails, (State, EmailMap)>,
    get: jmap::MethodResponseGet<jmap::Email>,
)
    requires
        operation.followed_by(&remote, &response, &next),
        response.method_responses@.len() == 1,
        response.method_responses@[0].id@ == "0"@,
        response.method_responses@[0].call == MethodResponse::EmailGet(get),
    ensures
        operation.chunks@.len() == 0 ==> {
            &&& next matches Next::Done(Ok((state, emails)))
            &&& state == get.state
            &&& emails@ == with_emails(operation.emails@, get.list@)
        },
        operation.chunks@.len() > 0 ==> {
            &&& next matches Next::Post { call, then }
            &&& asks_for_emails(&call, &remote, operation.chunks@[0]@)
            &&& then.chunks@ == operation.chunks@.skip(1)
            &&& then.emails@ == with_emails(operation.emails@, get.list@)
        },
{
    if operation.chunks@.len() > 0 {
        assert(operation.chunks@.remove(0) =~= operation.chunks@.skip(1));
    }
}

/// A response that does not hold emails ends the operation with an error: the one that the server
/// sent in their place, if it did.
pub proof fn fetching_fails_on_anything_else(
    operation: GetEmails,
    remote: Remote,
    response: Response,
    next: Next<GetEmails, (State, EmailMap)>,
)
    requires
        operation.followed_by(&remote, &response, &next),
    ensures
        ({
            let responses = response.method_responses@;
            let unexpected = Next::<GetEmails, (State, EmailMap)>::Done(
                Err(Error::UnexpectedResponse),
            );
            if responses.len() != 1 || responses[0].id@ != "0"@ {
                next == unexpected
            } else {
                match responses[0].call {
                    MethodResponse::Error(error) => next == Next::<
                        GetEmails,
                        (State, EmailMap),
                    >::Done(Err(Error::MethodError { error })),
                    MethodResponse::EmailGet(_) => true,
                    _ => next == unexpected,
                }
            }
        }),
{
}

/// Whether `response` is what a server answers a request for emails with: the emails that it has
/// among those that the request asks for, and no others. `existing` are the ids of the emails that
/// it has.
pub open spec fn answers_fetch(
    existing: Set<Seq<char>>,
    request: jmap::Request,
    response: Response,
) -> bool {
    let calls = request.method_calls@;
    let responses = response.method_responses@;
    &&& responses.len() == 1
    &&& responses[0].id@ == calls[0].id@
    &&& calls[0].call matches MethodCall::EmailGet { get }
    &&& get.ids matches Some(asked)
    &&& responses[0].call matches MethodResponse::EmailGet(sent)
    &&& forall|text: Seq<char>| #[trigger]
        id_texts(asked@).contains(text) && existing.contains(text) <==> exists|i: int|
            0 <= i < sent.list@.len() && (#[trigger] sent.list@[i]).id.0@ == text
}

/// However many requests it takes, the fetching of emails whose requests a server answers ends with
/// an email for each id of the set that the server has, and for no other, each under its own id,
/// and never with an error. The state is the one of the last response. Until then, each request
/// asks for at least one email, and for no more than the server allows.
pub proof fn fetching_brings_what_the_server_has(
    remote: Remote,
    email_ids: IdSet,
    existing: Set<Seq<char>>,
    state: State,
    steps: Seq<Next<GetEmails, (State, EmailMap)>>,
    remotes: Seq<Remote>,
    responses: Seq<Response>,
)
    requires
        email_ids.wf(),
        remote.session.capabilities.core.max_objects_in_get as usize != 0,
        is_trace(steps, remotes, responses),
        exists|chunks: Seq<Vec<Id>>| #[trigger]
            are_chunks(chunks, email_ids.order(), remote.chunk_size() as nat) && asks_or_ends(
                &steps[0],
                &remote,
                chunks,
                state,
                Map::empty(),
            ),
        forall|i: int|
            0 <= i < responses.len() ==> answers_fetch(
                existing,
                steps[i]->call.request,
                #[trigger] responses[i],
            ),
    ensures
        match steps.last() {
            Next::Done(Ok((latest, emails))) => {
                &&& forall|text: Seq<char>| #[trigger]
                    emails@.contains_key(text) <==> email_ids@.contains(text) && existing.contains(
                        text,
                    )
                &&& forall|text: Seq<char>| #[trigger]
                    emails@.contains_key(text) ==> emails@[text].id == text
                &&& if responses.len() == 0 {
                    latest == state
                } else {
                    responses.last().method_responses@[0].call matches MethodResponse::EmailGet(
                        get,
                    ) && latest == get.state
                }
            },
            Next::Post { call, .. } => {
                &&& call.request.method_calls@[0].call matches MethodCall::EmailGet { get }
                &&& get.ids matches Some(asked)
                &&& 0 < asked@.len()
                    <= remote.session.capabilities.core.max_objects_in_get as usize
            },
            _ => false,
        },
{
    let size = remote.chunk_size() as nat;
    let chunks = choose|chunks: Seq<Vec<Id>>| #[trigger]
        are_chunks(chunks, email_ids.order(), size) && asks_or_ends(
            &steps[0],
            &remote,
            chunks,
            state,
            Map::empty(),
        );
    lemma_answers_list_what_exists(remote, existing, chunks, state, steps, remotes, responses);
    fetching_goes_by_its_responses(remote, chunks, state, steps, remotes, responses);
    all_emails_are_fetched(
        remote,
        email_ids,
        existing,
        chunks,
        state,
        steps,
        remotes,
        responses,
    );
    emails_are_kept_under_their_ids(state, responses);
    if responses.len() > 0 {
        assert(responses[responses.len() - 1] == responses.last());
    }
    if responses.len() < chunks.len() {
        requests_respect_the_limit(chunks, email_ids.order(), size);
        assert(0 < chunks[responses.len() as int]@.len() <= size);
    }
}

/// The requests of such an operation ask for one chunk after the other.
proof fn lemma_answers_list_what_exists(
    remote: Remote,
    existing: Set<Seq<char>>,
    chunks: Seq<Vec<Id>>,
    state: State,
    steps: Seq<Next<GetEmails, (State, EmailMap)>>,
    remotes: Seq<Remote>,
    responses: Seq<Response>,
)
    requires
        is_trace(steps, remotes, responses),
        asks_or_ends(&steps[0], &remote, chunks, state, Map::empty()),
        forall|i: int|
            0 <= i < responses.len() ==> answers_fetch(
                existing,
                steps[i]->call.request,
                #[trigger] responses[i],
            ),
    ensures
        lists_what_exists(existing, chunks, responses),
    decreases responses.len(),
{
    if responses.len() > 0 {
        let n = responses.len() - 1;
        let init = responses.drop_last();
        let before = steps.drop_last();
        lemma_trace_prefix(steps, remotes, responses);
        assert forall|i: int| 0 <= i < init.len() implies answers_fetch(
            existing,
            before[i]->call.request,
            #[trigger] init[i],
        ) by {
            assert(init[i] == responses[i]);
        }
        lemma_answers_list_what_exists(
            remote,
            existing,
            chunks,
            state,
            before,
            remotes.drop_last(),
            init,
        );
        fetching_goes_by_its_responses(remote, chunks, state, before, remotes.drop_last(), init);
        assert(before.last() == steps[n]);
        assert(chunks.skip(n)[0] == chunks[n]);
        assert(answers_fetch(existing, steps[n]->call.request, responses[n]));
        assert(responses[n] == responses.last());
        let list = listed(responses[n])->0;
        assert(sent_ids(list) =~= id_texts(chunks[n]@).intersect(existing)) by {
            assert forall|text: Seq<char>| sent_ids(list).contains(text) <==> id_texts(
                chunks[n]@,
            ).contains(text) && existing.contains(text) by {
                if sent_ids(list).contains(text) {
                    let i = choose|i: int|
                        0 <= i < list.len() && (#[trigger] list[i]).id@ == text;
                    assert(list[i].id.0@ == text);
                }
                if exists|i: int| 0 <= i < list.len() && (#[trigger] list[i]).id.0@ == text {
                    let i = choose|i: int|
                        0 <= i < list.len() && (#[trigger] list[i]).id.0@ == text;
                    assert(list[i].id@ == text);
                }
            }
        }
        assert forall|i: int| 0 <= i < responses.len() implies (listed(
            #[trigger] responses[i],
        ) matches Some(list) && sent_ids(list) == id_texts(chunks[i]@).intersect(existing)) by {
            if i < n {
                assert(init[i] == responses[i]);
            }
        }
    }
}

/// The server's limit on one call is the number of emails that are asked for at a time.
pub proof fn chunk_size_is_the_limit(remote: Remote)
    ensures
        remote.session.capabilities.core.max_objects_in_get <= usize::MAX ==> remote.chunk_size()
            == remote.session.capabilities.core.max_objects_in_get,
{
}

/// Lists are joined in their order, and each of them whole.
pub proof fn lists_are_joined_whole<T>(lists: Seq<Vec<T>>, list: Vec<T>)
    ensures
        joined(Seq::<Vec<T>>::empty()) == Seq::<T>::empty(),
        joined(lists.push(list)) == joined(lists) + list@,
{
    assert(lists.push(list).drop_last() =~= lists);
}

} // verus!
