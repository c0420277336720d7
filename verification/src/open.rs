//! Opening a session, at a URL or at a host.
use crate::encoding::fits_base64;
use crate::error::Error;
use crate::http::{authorization_text, credentials_text, HttpWrapper, SessionCall, SessionReply};
use crate::jmap::Session;
use crate::remote::Remote;
use crate::text::{decimal, decimal_tells_numbers_apart, decimal_text, ends_in};
use itertools::Itertools;
use vstd::prelude::*;
use vstd::string::*;
use vstd::utf8::encode_utf8;

verus! {

/// An SRV record.
#[derive(Debug)]
pub struct SrvRecord {
    pub priority: u16,
    pub port: u16,
    /// The name of the host, with its final dot.
    pub target: String,
}

/// Why a lookup of SRV records brought none, with the text of the error.
#[derive(Debug)]
pub enum LookupFailure {
    /// The settings of the resolver could not be read.
    Settings(String),
    /// The name could not be looked up.
    Lookup(String),
}

/// Whether a name ends in a dot.
pub open spec fn is_rooted(name: Seq<char>) -> bool {
    name.len() > 0 && name.last() == '.'
}

/// The name under which a domain lists its JMAP servers.
pub open spec fn srv_address(fqdn: Seq<char>) -> Seq<char> {
    let address = "_jmap._tcp."@ + fqdn;
    if is_rooted(address) {
        address
    } else {
        address.push('.')
    }
}

/// The URL at which a JMAP server tells where its session object is. The final dot of its name
/// is left out.
pub open spec fn well_known_url(record: SrvRecord) -> Seq<char> {
    "https://"@ + record.target@.drop_last() + ":"@ + decimal_text(record.port as nat)
        + "/.well-known/jmap"@
}

/// Whether the records are sorted by priority, and those of one priority are in the order in
/// which they are among `records`.
pub open spec fn is_sorted_by_priority(sorted: Seq<SrvRecord>, records: Seq<SrvRecord>) -> bool {
    &&& forall|i: int, j: int|
        0 <= i <= j < sorted.len() ==> (#[trigger] sorted[i]).priority <= (
        #[trigger] sorted[j]).priority
    &&& forall|priority: u16| #[trigger]
        of_priority(sorted, priority) == of_priority(records, priority)
}

/// The records of one priority.
pub open spec fn of_priority(records: Seq<SrvRecord>, priority: u16) -> Seq<SrvRecord> {
    records.filter(|record: SrvRecord| record.priority == priority)
}

/// Whether the `i`-th record is the first of those with the lowest priority number.
pub open spec fn is_first_by_priority(records: Seq<SrvRecord>, i: int) -> bool {
    &&& 0 <= i < records.len()
    &&& forall|j: int|
        0 <= j < records.len() ==> records[i].priority <= (#[trigger] records[j]).priority
    &&& forall|j: int| 0 <= j < i ==> records[i].priority < (#[trigger] records[j]).priority
}

/// Calls `itertools::Itertools::sorted_by_key` with the priority as the key. It sorts the
/// records in ascending order and leaves those of one priority in their order.
#[verifier::external_body]
fn sorted_by_priority(records: Vec<SrvRecord>) -> (sorted: Vec<SrvRecord>)
    ensures
        is_sorted_by_priority(sorted@, records@),
{
    records.into_iter().sorted_by_key(|record| record.priority).collect()
}

/// The opening of a session at a host, which waits for the SRV records of `address`.
pub struct OpenHost {
    pub http_wrapper: HttpWrapper,
    pub address: String,
}

/// The opening of a session at a host, which waits for what comes of a call to `url`.
pub struct HostAttempt {
    pub http_wrapper: HttpWrapper,
    pub url: String,
    /// The records that are not tried yet, in the order in which they are.
    pub records: Vec<SrvRecord>,
}

/// What the opening of a session at a host wants done next.
pub enum NextAttempt {
    /// Send the call, and hand what comes of it to `HostAttempt::attempted`.
    Try { fetch: SessionCall, then: HostAttempt },
    /// Nothing more.
    Done(Result<Remote, Error>),
}

/// Whether `next` tries the first of `records`, with the authorization of `http_wrapper`.
pub open spec fn tries_first(
    next: &NextAttempt,
    http_wrapper: HttpWrapper,
    records: Seq<SrvRecord>,
) -> bool {
    &&& next matches NextAttempt::Try { fetch, then }
    &&& fetch.url@ == well_known_url(records[0])
    &&& fetch.authorization@ == http_wrapper.authorization@
    &&& then.http_wrapper == http_wrapper
    &&& then.url@ == well_known_url(records[0])
    &&& then.records@ == records.remove(0)
}

fn url_of(record: &SrvRecord) -> (url: String)
    requires
        is_rooted(record.target@),
    ensures
        url@ == well_known_url(*record),
{
    let len = record.target.as_str().unicode_len();
    let host = record.target.as_str().substring_char(0, len - 1);
    proof {
        assert(host@ =~= record.target@.drop_last());
    }
    "https://".to_owned().concat(host).concat(":").concat(decimal(record.port).as_str()).concat(
        "/.well-known/jmap",
    )
}

fn try_first(http_wrapper: HttpWrapper, records: Vec<SrvRecord>) -> (next: NextAttempt)
    requires
        records@.len() > 0,
        is_rooted(records@[0].target@),
    ensures
        tries_first(&next, http_wrapper, records@),
{
    let mut records = records;
    let record = records.remove(0);
    let url = url_of(&record);
    let fetch = http_wrapper.get_session(&url);
    NextAttempt::Try { fetch, then: HostAttempt { http_wrapper, url, records } }
}

impl OpenHost {
    /// Takes the outcome of the lookup in, and tries the record of the highest priority, which
    /// is the one with the lowest number.
    pub fn resolved(self, lookup: Result<Vec<SrvRecord>, LookupFailure>) -> (next: NextAttempt)
        requires
            lookup matches Ok(records) ==> {
                &&& records@.len() > 0
                &&& forall|i: int|
                    is_first_by_priority(records@, i) ==> is_rooted(
                        (#[trigger] records@[i]).target@,
                    )
            },
        ensures
            match lookup {
                Err(LookupFailure::Settings(source)) => next == NextAttempt::Done(
                    Err(Error::ParseResolvConf { source }),
                ),
                Err(LookupFailure::Lookup(source)) => next == NextAttempt::Done(
                    Err(Error::SrvLookup { address: self.address, source }),
                ),
                Ok(records) => exists|sorted: Seq<SrvRecord>| #[trigger]
                    is_sorted_by_priority(sorted, records@) && tries_first(
                        &next,
                        self.http_wrapper,
                        sorted,
                    ),
            },
    {
        match lookup {
            Err(LookupFailure::Settings(source)) => NextAttempt::Done(
                Err(Error::ParseResolvConf { source }),
            ),
            Err(LookupFailure::Lookup(source)) => NextAttempt::Done(
                Err(Error::SrvLookup { address: self.address, source }),
            ),
            Ok(records) => {
                let ghost given = records@;
                let sorted = sorted_by_priority(records);
                proof {
                    lemma_first_of_sorted(sorted@, given);
                }
                try_first(self.http_wrapper, sorted)
            },
        }
    }
}

/// How far the opening of a session at a host is, apart from how it is held.
pub enum HostProgress {
    /// The host at `url` is tried, and then those of `rest`.
    Trying { url: Seq<char>, rest: Seq<SrvRecord> },
    Opened { session_url: String, session: Session },
    Failed { url: Seq<char>, source: String },
}

/// The first of `records` is tried.
pub open spec fn trying(records: Seq<SrvRecord>) -> HostProgress {
    HostProgress::Trying { url: well_known_url(records[0]), rest: records.remove(0) }
}

/// What comes of the answer of the host at `url`, with `rest` still to try.
pub open spec fn after_attempt(
    url: Seq<char>,
    rest: Seq<SrvRecord>,
    fetched: SessionReply,
) -> HostProgress {
    match fetched {
        Ok((session_url, session)) => HostProgress::Opened { session_url, session },
        Err(source) => if rest.len() == 0 {
            HostProgress::Failed { url, source }
        } else {
            trying(rest)
        },
    }
}

impl HostAttempt {
    /// Whether `next` is what follows when `fetched` comes of the call.
    pub open spec fn followed_by(&self, fetched: &SessionReply, next: &NextAttempt) -> bool {
        match after_attempt(self.url@, self.records@, *fetched) {
            HostProgress::Opened { session_url, session } => *next == NextAttempt::Done(
                Ok(Remote { http_wrapper: self.http_wrapper, session_url, session }),
            ),
            HostProgress::Failed { source, .. } => *next == NextAttempt::Done(
                Err(Error::OpenSession { session_url: self.url, source }),
            ),
            HostProgress::Trying { .. } => tries_first(next, self.http_wrapper, self.records@),
        }
    }

    /// Takes in what came of the call: a session, or a reason to try the next record. Where all
    /// of them failed, the last error is returned.
    pub fn attempted(self, fetched: SessionReply) -> (next: NextAttempt)
        requires
            fetched is Err && self.records@.len() > 0 ==> is_rooted(self.records@[0].target@),
        ensures
            self.followed_by(&fetched, &next),
    {
        match fetched {
            Ok((session_url, session)) => NextAttempt::Done(
                Ok(Remote { http_wrapper: self.http_wrapper, session_url, session }),
            ),
            Err(source) => if self.records.len() == 0 {
                NextAttempt::Done(Err(Error::OpenSession { session_url: self.url, source }))
            } else {
                try_first(self.http_wrapper, self.records)
            },
        }
    }
}

/// The opening of a session at `session_url`, which waits for what comes of the call to it.
pub struct OpenUrl {
    pub http_wrapper: HttpWrapper,
    pub session_url: String,
}

impl OpenUrl {
    /// Takes in what came of the call.
    pub fn opened(self, fetched: SessionReply) -> (result: Result<Remote, Error>)
        ensures
            result == match fetched {
                Ok((session_url, session)) => Ok::<Remote, Error>(
                    Remote { http_wrapper: self.http_wrapper, session_url, session },
                ),
                Err(source) => Err(Error::OpenSession { session_url: self.session_url, source }),
            },
    {
        match fetched {
            Ok((session_url, session)) => Ok(
                Remote { http_wrapper: self.http_wrapper, session_url, session },
            ),
            Err(source) => Err(Error::OpenSession { session_url: self.session_url, source }),
        }
    }
}

impl Remote {
    /// Opens a session at the host of a domain that its SRV records name. The records of
    /// `OpenHost::address` are to be looked up, and what comes of it is handed to
    /// `OpenHost::resolved`.
    pub fn open_host(fqdn: &str, username: &str, password: &str) -> (open: OpenHost)
        requires
            fits_base64(encode_utf8(credentials_text(username@, password@)).len()),
        ensures
            open.address@ == srv_address(fqdn@),
            open.http_wrapper.authorization@ == authorization_text(username@, password@),
    {
        let mut address = "_jmap._tcp.".to_owned().concat(fqdn);
        if !ends_in(&address, '.') {
            proof {
                reveal_strlit(".");
                assert(address@ + "."@ =~= address@.push('.'));
            }
            address = address.concat(".");
        }
        OpenHost { http_wrapper: HttpWrapper::new(username, password), address }
    }

    /// Opens a session at a URL. The call is to be sent, and what comes of it is handed to
    /// `OpenUrl::opened`.
    pub fn open_url(session_url: &str, username: &str, password: &str) -> (next: (
        SessionCall,
        OpenUrl,
    ))
        requires
            fits_base64(encode_utf8(credentials_text(username@, password@)).len()),
        ensures
            next.0.url@ == session_url@,
            next.0.authorization@ == authorization_text(username@, password@),
            next.1.session_url@ == session_url@,
            next.1.http_wrapper.authorization@ == authorization_text(username@, password@),
    {
        let http_wrapper = HttpWrapper::new(username, password);
        let fetch = http_wrapper.get_session(session_url);
        (fetch, OpenUrl { http_wrapper, session_url: session_url.to_owned() })
    }
}

/// The address to look up does not depend on whether the domain is written with its final dot.
pub proof fn final_dot_does_not_matter(fqdn: Seq<char>)
    requires
        !is_rooted("_jmap._tcp."@ + fqdn),
    ensures
        srv_address(fqdn.push('.')) == srv_address(fqdn),
{
    assert("_jmap._tcp."@ + fqdn.push('.') =~= ("_jmap._tcp."@ + fqdn).push('.'));
}

/// The address to look up ends in a dot.
pub proof fn address_is_rooted(fqdn: Seq<char>)
    ensures
        is_rooted(srv_address(fqdn)),
{
}

proof fn lemma_filter_first<T>(s: Seq<T>, pred: spec_fn(T) -> bool, i: int)
    requires
        0 <= i < s.len(),
        pred(s[i]),
        forall|j: int| 0 <= j < i ==> !pred(#[trigger] s[j]),
    ensures
        s.filter(pred).len() > 0,
        s.filter(pred)[0] == s[i],
    decreases s.len(),
{
    reveal(Seq::filter);
    let init = s.drop_last();
    if i < init.len() {
        lemma_filter_first(init, pred, i);
    } else {
        assert(init.filter(pred).len() == 0) by {
            broadcast use vstd::seq_lib::group_filter_ensures;

            if init.filter(pred).len() > 0 {
                let x = init.filter(pred)[0];
                assert(init.contains(x)) by {
                    init.lemma_filter_contains_rev(pred, x);
                }
                let j = choose|j: int| 0 <= j < init.len() && init[j] == x;
                assert(!pred(s[j]));
            }
        }
    }
}

/// The first of the sorted records is the first of those with the lowest priority number.
proof fn lemma_first_of_sorted(sorted: Seq<SrvRecord>, records: Seq<SrvRecord>)
    requires
        records.len() > 0,
        is_sorted_by_priority(sorted, records),
    ensures
        sorted.len() > 0,
        exists|i: int| #[trigger] is_first_by_priority(records, i) && sorted[0] == records[i],
{
    broadcast use vstd::seq_lib::group_filter_ensures;

    let i = lemma_first_exists(records);
    let p = records[i].priority;
    let has_p = |record: SrvRecord| record.priority == p;
    lemma_filter_first(records, has_p, i);
    assert(of_priority(sorted, p) == of_priority(records, p));
    let first = of_priority(sorted, p)[0];
    assert(sorted.contains(first)) by {
        sorted.lemma_filter_contains_rev(has_p, first);
    }
    let k = choose|k: int| 0 <= k < sorted.len() && sorted[k] == first;
    let q = sorted[0].priority;
    let has_q = |record: SrvRecord| record.priority == q;
    lemma_filter_first(sorted, has_q, 0);
    assert(of_priority(sorted, q) == of_priority(records, q));
    assert(records.contains(sorted[0])) by {
        records.lemma_filter_contains_rev(has_q, sorted[0]);
    }
    let m = choose|m: int| 0 <= m < records.len() && records[m] == sorted[0];
    assert(records[i].priority <= records[m].priority);
    assert(sorted[0].priority <= sorted[k].priority);
    assert(q == p);
    lemma_filter_first(sorted, has_p, 0);
}

proof fn lemma_first_exists(records: Seq<SrvRecord>) -> (i: int)
    requires
        records.len() > 0,
    ensures
        is_first_by_priority(records, i),
    decreases records.len(),
{
    let init = records.drop_last();
    let last = records.len() - 1;
    if init.len() == 0 {
        last
    } else {
        let i = lemma_first_exists(init);
        assert(forall|j: int| 0 <= j < init.len() ==> init[j] == records[j]);
        if records[i].priority <= records[last].priority {
            i
        } else {
            assert forall|j: int| 0 <= j < last implies records[last].priority < (
            #[trigger] records[j]).priority by {
                assert(init[i].priority <= init[j].priority);
            }
            last
        }
    }
}

/// Filtering keeps every copy of what passes the filter.
proof fn lemma_filter_count<T>(s: Seq<T>, pred: spec_fn(T) -> bool, x: T)
    requires
        pred(x),
    ensures
        s.filter(pred).to_multiset().count(x) == s.to_multiset().count(x),
    decreases s.len(),
{
    broadcast use vstd::seq_lib::group_to_multiset_ensures;

    reveal(Seq::filter);
    if s.len() > 0 {
        let init = s.drop_last();
        lemma_filter_count(init, pred, x);
        assert(init.push(s.last()) =~= s);
    } else {
        assert(s.filter(pred) =~= s);
    }
}

/// Every record is tried, as often as it was found.
pub proof fn every_record_is_in_the_order(sorted: Seq<SrvRecord>, records: Seq<SrvRecord>)
    requires
        is_sorted_by_priority(sorted, records),
    ensures
        sorted.to_multiset() == records.to_multiset(),
        sorted.len() == records.len(),
{
    broadcast use vstd::seq_lib::group_to_multiset_ensures;

    assert forall|x: SrvRecord| #[trigger]
        sorted.to_multiset().count(x) == records.to_multiset().count(x) by {
        let pred = |record: SrvRecord| record.priority == x.priority;
        lemma_filter_count(sorted, pred, x);
        lemma_filter_count(records, pred, x);
        assert(of_priority(sorted, x.priority) == of_priority(records, x.priority));
    }
    assert(sorted.to_multiset() =~= records.to_multiset());
    assert(sorted.to_multiset().len() == sorted.len());
    assert(records.to_multiset().len() == records.len());
}

/// What comes of the answers of the hosts of `records`, which are tried one after the other until
/// one of them answers. What has come to an end stays as it is.
pub open spec fn host_run(records: Seq<SrvRecord>, replies: Seq<SessionReply>) -> HostProgress
    decreases replies.len(),
{
    if replies.len() == 0 {
        trying(records)
    } else {
        match host_run(records, replies.drop_last()) {
            HostProgress::Trying { url, rest } => after_attempt(url, rest, replies.last()),
            ended => ended,
        }
    }
}

/// After some failures, the next record is tried.
pub proof fn hosts_are_tried_in_order(records: Seq<SrvRecord>, replies: Seq<SessionReply>)
    requires
        replies.len() < records.len(),
        forall|i: int| 0 <= i < replies.len() ==> (#[trigger] replies[i]) is Err,
    ensures
        host_run(records, replies) == (HostProgress::Trying {
            url: well_known_url(records[replies.len() as int]),
            rest: records.skip(replies.len() as int + 1),
        }),
    decreases replies.len(),
{
    if replies.len() == 0 {
        assert(records.remove(0) =~= records.skip(1));
    } else {
        let n = replies.len() as int;
        let init = replies.drop_last();
        assert forall|i: int| 0 <= i < init.len() implies (#[trigger] init[i]) is Err by {
            assert(init[i] == replies[i]);
        }
        hosts_are_tried_in_order(records, init);
        assert(replies[n - 1] is Err);
        assert(records.skip(n)[0] == records[n]);
        assert(records.skip(n).remove(0) =~= records.skip(n + 1));
    }
}

/// The first host that answers is the one that the session is opened at.
pub proof fn first_answer_opens_the_session(
    records: Seq<SrvRecord>,
    replies: Seq<SessionReply>,
    k: int,
)
    requires
        0 <= k < replies.len(),
        k < records.len(),
        replies[k] is Ok,
        forall|i: int| 0 <= i < k ==> (#[trigger] replies[i]) is Err,
    ensures
        host_run(records, replies) == (HostProgress::Opened {
            session_url: replies[k]->Ok_0.0,
            session: replies[k]->Ok_0.1,
        }),
    decreases replies.len(),
{
    let init = replies.drop_last();
    assert forall|i: int| 0 <= i < init.len() implies #[trigger] init[i] == replies[i] by {}
    if k == replies.len() - 1 {
        assert forall|i: int| 0 <= i < init.len() implies (#[trigger] init[i]) is Err by {
            assert(replies[i] is Err);
        }
        hosts_are_tried_in_order(records, init);
    } else {
        assert forall|i: int| 0 <= i < k implies (#[trigger] init[i]) is Err by {
            assert(replies[i] is Err);
        }
        assert(init[k] == replies[k]);
        first_answer_opens_the_session(records, init, k);
    }
}

/// Where no host answers, the error is that of the last one.
pub proof fn last_failure_is_reported(records: Seq<SrvRecord>, replies: Seq<SessionReply>)
    requires
        records.len() == replies.len() > 0,
        forall|i: int| 0 <= i < replies.len() ==> (#[trigger] replies[i]) is Err,
    ensures
        host_run(records, replies) == (HostProgress::Failed {
            url: well_known_url(records.last()),
            source: replies.last()->Err_0,
        }),
{
    let init = replies.drop_last();
    assert forall|i: int| 0 <= i < init.len() implies (#[trigger] init[i]) is Err by {
        assert(replies[i] is Err);
    }
    hosts_are_tried_in_order(records, init);
    assert(replies[replies.len() - 1] is Err);
    assert(records.skip(records.len() as int).len() == 0);
}

/// The order in which records are tried is determined by the records.
pub proof fn order_is_determined(
    sorted: Seq<SrvRecord>,
    other: Seq<SrvRecord>,
    records: Seq<SrvRecord>,
)
    requires
        is_sorted_by_priority(sorted, records),
        is_sorted_by_priority(other, records),
    ensures
        sorted == other,
{
    assert forall|priority: u16| #[trigger]
        of_priority(sorted, priority) == of_priority(other, priority) by {
        assert(of_priority(sorted, priority) == of_priority(records, priority));
        assert(of_priority(other, priority) == of_priority(records, priority));
    }
    lemma_sorted_equal(sorted, other);
}

proof fn lemma_sorted_equal(sorted: Seq<SrvRecord>, other: Seq<SrvRecord>)
    requires
        is_sorted_by_priority(sorted, other),
        is_sorted_by_priority(other, other),
    ensures
        sorted == other,
    decreases other.len(),
{
    every_record_is_in_the_order(sorted, other);
    if other.len() > 0 {
        lemma_first_of_sorted(sorted, other);
        let i = choose|i: int| #[trigger]
            is_first_by_priority(other, i) && sorted[0] == other[i];
        assert(i == 0) by {
            if i > 0 {
                assert(other[0].priority <= other[i].priority);
            }
        }
        let sorted_rest = sorted.skip(1);
        let other_rest = other.skip(1);
        assert(seq![sorted[0]] + sorted_rest =~= sorted);
        assert(seq![other[0]] + other_rest =~= other);
        assert forall|priority: u16| #[trigger]
            of_priority(sorted_rest, priority) == of_priority(other_rest, priority) by {
            let pred = |record: SrvRecord| record.priority == priority;
            assert(of_priority(sorted, priority) == of_priority(other, priority));
            Seq::filter_distributes_over_add(seq![sorted[0]], sorted_rest, pred);
            Seq::filter_distributes_over_add(seq![other[0]], other_rest, pred);
            let head = seq![sorted[0]].filter(pred);
            assert(of_priority(sorted, priority) == head + of_priority(sorted_rest, priority));
            assert(of_priority(other, priority) == head + of_priority(other_rest, priority));
            assert(of_priority(sorted_rest, priority) =~= of_priority(sorted, priority).skip(
                head.len() as int,
            ));
            assert(of_priority(other_rest, priority) =~= of_priority(other, priority).skip(
                head.len() as int,
            ));
        }
        lemma_sorted_equal(sorted_rest, other_rest);
    } else {
        assert(sorted =~= other);
    }
}

/// Whether `step` tries a host, and `next` follows when `fetched` comes of it.
pub open spec fn attempt_leads_to(
    step: NextAttempt,
    fetched: SessionReply,
    next: NextAttempt,
) -> bool {
    match step {
        NextAttempt::Try { then, .. } => then.followed_by(&fetched, &next),
        NextAttempt::Done(_) => false,
    }
}

/// Whether `steps` are what the opening of a session at a host wants done, one after the other,
/// as what comes of its calls is taken in.
pub open spec fn is_host_trace(steps: Seq<NextAttempt>, replies: Seq<SessionReply>) -> bool {
    &&& steps.len() == replies.len() + 1
    &&& forall|i: int|
        0 <= i < replies.len() ==> attempt_leads_to(
            steps[i],
            #[trigger] replies[i],
            steps[i + 1],
        )
}

/// The answers of the hosts decide how the opening of a session goes on and how it ends.
pub proof fn opening_goes_by_the_answers(
    http_wrapper: HttpWrapper,
    records: Seq<SrvRecord>,
    steps: Seq<NextAttempt>,
    replies: Seq<SessionReply>,
)
    requires
        is_host_trace(steps, replies),
        tries_first(&steps[0], http_wrapper, records),
    ensures
        match host_run(records, replies) {
            HostProgress::Trying { url, rest } => {
                &&& steps.last() matches NextAttempt::Try { fetch, then }
                &&& fetch.url@ == url
                &&& fetch.authorization@ == http_wrapper.authorization@
                &&& then.http_wrapper == http_wrapper
                &&& then.url@ == url
                &&& then.records@ == rest
            },
            HostProgress::Opened { session_url, session } => steps.last() == NextAttempt::Done(
                Ok(Remote { http_wrapper, session_url, session }),
            ),
            HostProgress::Failed { url, source: reason } => {
                &&& steps.last() matches NextAttempt::Done(
                    Err(Error::OpenSession { session_url, source }),
                )
                &&& session_url@ == url
                &&& source == reason
            },
        },
    decreases replies.len(),
{
    if replies.len() > 0 {
        let n = replies.len() - 1;
        let init = replies.drop_last();
        let before = steps.drop_last();
        assert(replies[n] == replies.last());
        assert forall|i: int| 0 <= i < init.len() implies attempt_leads_to(
            before[i],
            #[trigger] init[i],
            before[i + 1],
        ) by {
            assert(init[i] == replies[i]);
        }
        opening_goes_by_the_answers(http_wrapper, records, before, init);
        assert(before.last() == steps[n]);
    }
}

/// A name is rooted exactly where its last character is a dot.
pub proof fn rooted_names_end_in_a_dot(name: Seq<char>, c: char)
    ensures
        is_rooted(name.push(c)) <==> c == '.',
        !is_rooted(Seq::empty()),
{
}

/// The address to look up is that of the service in the domain, with a final dot where the domain
/// is written without one.
pub proof fn address_is_service_in_domain(fqdn: Seq<char>)
    ensures
        fqdn.len() == 0 ==> srv_address(fqdn) == "_jmap._tcp."@,
        fqdn.len() > 0 && fqdn[fqdn.len() - 1] == '.' ==> srv_address(fqdn) == "_jmap._tcp."@
            + fqdn,
        fqdn.len() > 0 && fqdn[fqdn.len() - 1] != '.' ==> srv_address(fqdn) == "_jmap._tcp."@
            + fqdn + "."@,
{
    reveal_strlit("_jmap._tcp.");
    reveal_strlit(".");
    let address = "_jmap._tcp."@ + fqdn;
    if fqdn.len() == 0 {
        assert(address =~= "_jmap._tcp."@);
    } else {
        assert(address.last() == fqdn[fqdn.len() - 1]);
        assert(address.push('.') =~= address + "."@);
    }
}

/// The URL names the host without the final dot of its name, and the port.
pub proof fn url_names_host_and_port(record: SrvRecord, host: Seq<char>)
    requires
        record.target@ == host.push('.'),
    ensures
        well_known_url(record) == "https://"@ + host + ":"@ + decimal_text(record.port as nat)
            + "/.well-known/jmap"@,
{
    assert(record.target@.drop_last() =~= host);
}

/// Records with different ports have different URLs.
pub proof fn urls_tell_ports_apart(record: SrvRecord, other: SrvRecord)
    requires
        record.target@ == other.target@,
        well_known_url(record) == well_known_url(other),
    ensures
        record.port == other.port,
{
    let front = "https://"@ + record.target@.drop_last() + ":"@;
    let end = "/.well-known/jmap"@;
    let text = decimal_text(record.port as nat);
    let other_text = decimal_text(other.port as nat);
    let url = well_known_url(record);
    let n = front.len() as int;
    let m = url.len() - end.len();
    assert(url.subrange(n, m) =~= text);
    assert(url.subrange(n, m) =~= other_text);
    decimal_tells_numbers_apart(record.port as nat, other.port as nat);
}

/// A record is the first by priority exactly where none has a lower number, and none before it has
/// the same.
pub proof fn first_by_priority_has_the_lowest_number(records: Seq<SrvRecord>, i: int, j: int)
    requires
        is_first_by_priority(records, i),
        0 <= j < records.len(),
    ensures
        0 <= i < records.len(),
        records[i].priority <= records[j].priority,
        records[i].priority == records[j].priority ==> i <= j,
{
}

/// The first record is tried at its URL, on behalf of the user, and the others are left for later,
/// all of them and in their order.
pub proof fn first_record_is_tried(
    next: NextAttempt,
    http_wrapper: HttpWrapper,
    records: Seq<SrvRecord>,
)
    requires
        records.len() > 0,
        tries_first(&next, http_wrapper, records),
    ensures
        ({
            &&& next matches NextAttempt::Try { fetch, then }
            &&& fetch.url@ == well_known_url(records[0])
            &&& fetch.authorization@ == http_wrapper.authorization@
            &&& then.http_wrapper == http_wrapper
            &&& then.url@ == well_known_url(records[0])
            &&& then.records@ == records.skip(1)
        }),
{
    assert(records.remove(0) =~= records.skip(1));
}

/// A session that a host sent is the one that is opened, with the URL that answered. Where the host
/// failed, the next of the records that are left is tried, and where none is left, the failure is
/// reported, with the URL that failed.
pub proof fn failed_attempt_leads_to_the_next_record(
    attempt: HostAttempt,
    fetched: SessionReply,
    next: NextAttempt,
)
    requires
        attempt.followed_by(&fetched, &next),
    ensures
        match fetched {
            Ok((session_url, session)) => next == NextAttempt::Done(
                Ok(Remote { http_wrapper: attempt.http_wrapper, session_url, session }),
            ),
            Err(source) => if attempt.records@.len() == 0 {
                next == NextAttempt::Done(
                    Err(Error::OpenSession { session_url: attempt.url, source }),
                )
            } else {
                tries_first(&next, attempt.http_wrapper, attempt.records@)
            },
        },
{
}

/// The hosts are tried one after the other, each once and on behalf of the user, until one answers.
/// The session is opened with what that one sent. Where none answers, the failure of the last one
/// is reported.
pub proof fn hosts_are_tried_until_one_answers(
    http_wrapper: HttpWrapper,
    records: Seq<SrvRecord>,
    steps: Seq<NextAttempt>,
    replies: Seq<SessionReply>,
)
    requires
        records.len() > 0,
        is_host_trace(steps, replies),
        tries_first(&steps[0], http_wrapper, records),
    ensures
        replies.len() <= records.len(),
        forall|i: int| 0 <= i < replies.len() - 1 ==> (#[trigger] replies[i]) is Err,
        if replies.len() > 0 && replies.last() is Ok {
            steps.last() == NextAttempt::Done(
                Ok(
                    Remote {
                        http_wrapper,
                        session_url: replies.last()->Ok_0.0,
                        session: replies.last()->Ok_0.1,
                    },
                ),
            )
        } else if replies.len() < records.len() {
            &&& steps.last() matches NextAttempt::Try { fetch, then }
            &&& fetch.url@ == well_known_url(records[replies.len() as int])
            &&& fetch.authorization@ == http_wrapper.authorization@
            &&& then.records@ == records.skip(replies.len() as int + 1)
        } else {
            &&& steps.last() matches NextAttempt::Done(
                Err(Error::OpenSession { session_url, source }),
            )
            &&& session_url@ == well_known_url(records[records.len() - 1])
            &&& source == replies.last()->Err_0
        },
{
    lemma_host_steps(http_wrapper, records, steps, replies);
}

proof fn lemma_host_steps(
    http_wrapper: HttpWrapper,
    records: Seq<SrvRecord>,
    steps: Seq<NextAttempt>,
    replies: Seq<SessionReply>,
)
    requires
        records.len() > 0,
        is_host_trace(steps, replies),
        tries_first(&steps[0], http_wrapper, records),
    ensures
        replies.len() <= records.len(),
        forall|i: int| 0 <= i < replies.len() - 1 ==> (#[trigger] replies[i]) is Err,
        if replies.len() > 0 && replies.last() is Ok {
            steps.last() == NextAttempt::Done(
                Ok(
                    Remote {
                        http_wrapper,
                        session_url: replies.last()->Ok_0.0,
                        session: replies.last()->Ok_0.1,
                    },
                ),
            )
        } else if replies.len() < records.len() {
            tries_first(&steps.last(), http_wrapper, records.skip(replies.len() as int))
        } else {
            &&& steps.last() matches NextAttempt::Done(
                Err(Error::OpenSession { session_url, source }),
            )
            &&& session_url@ == well_known_url(records[records.len() - 1])
            &&& source == replies.last()->Err_0
        },
        replies.len() < records.len() && (replies.len() > 0 ==> replies.last() is Err)
            ==> records.skip(replies.len() as int).remove(0) == records.skip(
            replies.len() as int + 1,
        ),
    decreases replies.len(),
{
    let n = replies.len() as int;
    if n < records.len() {
        assert(records.skip(n).remove(0) =~= records.skip(n + 1));
    }
    if n == 0 {
        assert(records.skip(0) =~= records);
    } else {
        let init = replies.drop_last();
        let before = steps.drop_last();
        assert(replies[n - 1] == replies.last());
        assert forall|i: int| 0 <= i < init.len() implies attempt_leads_to(
            before[i],
            #[trigger] init[i],
            before[i + 1],
        ) by {
            assert(init[i] == replies[i]);
        }
        lemma_host_steps(http_wrapper, records, before, init);
        assert(before.last() == steps[n - 1]);
        assert(attempt_leads_to(steps[n - 1], replies[n - 1], steps[n]));
        assert forall|i: int| 0 <= i < n - 1 implies (#[trigger] replies[i]) is Err by {
            if i < n - 2 {
                assert(init[i] is Err);
            } else {
                assert(init.last() == replies[i]);
            }
        }
    }
}

/// The records are tried by ascending number of their priority, and those of one priority in the
/// order in which they were found; each of them is tried, and none twice. The result tells, for
/// each place of the order, the place where the record was found.
pub proof fn records_are_tried_in_stable_order(
    sorted: Seq<SrvRecord>,
    records: Seq<SrvRecord>,
) -> (found_at: Seq<int>)
    requires
        is_sorted_by_priority(sorted, records),
    ensures
        sorted.len() == records.len(),
        found_at.len() == records.len(),
        forall|i: int|
            0 <= i < sorted.len() ==> 0 <= #[trigger] found_at[i] < records.len() && sorted[i]
                == records[found_at[i]],
        forall|i: int, j: int|
            0 <= i < j < sorted.len() ==> records[#[trigger] found_at[i]].priority
                < records[#[trigger] found_at[j]].priority || (records[found_at[i]].priority
                == records[found_at[j]].priority && found_at[i] < found_at[j]),
{
    let (stable, found_at) = lemma_stable_order(records);
    order_is_determined(sorted, stable, records);
    found_at
}

/// The place in a sorted list after which the priorities are higher than `p`.
proof fn lemma_split_place(sorted: Seq<SrvRecord>, p: u16) -> (k: int)
    requires
        forall|i: int, j: int|
            0 <= i <= j < sorted.len() ==> (#[trigger] sorted[i]).priority <= (
            #[trigger] sorted[j]).priority,
    ensures
        0 <= k <= sorted.len(),
        forall|i: int| 0 <= i < k ==> (#[trigger] sorted[i]).priority <= p,
        forall|i: int| k <= i < sorted.len() ==> (#[trigger] sorted[i]).priority > p,
    decreases sorted.len(),
{
    if sorted.len() == 0 {
        0
    } else if sorted.last().priority <= p {
        let n = sorted.len() - 1;
        assert forall|i: int| 0 <= i < sorted.len() implies (#[trigger] sorted[i]).priority
            <= p by {
            assert(sorted[i].priority <= sorted[n].priority);
        }
        sorted.len() as int
    } else {
        let init = sorted.drop_last();
        let k = lemma_split_place(init, p);
        assert forall|i: int| 0 <= i < k implies (#[trigger] sorted[i]).priority <= p by {
            assert(init[i].priority <= p);
        }
        assert forall|i: int| k <= i < sorted.len() implies (#[trigger] sorted[i]).priority
            > p by {
            if i < init.len() {
                assert(init[i].priority > p);
            }
        }
        k
    }
}

/// A stable order, with the place where each record was found.
proof fn lemma_stable_order(records: Seq<SrvRecord>) -> (order: (Seq<SrvRecord>, Seq<int>))
    ensures
        is_sorted_by_priority(order.0, records),
        order.0.len() == records.len(),
        order.1.len() == records.len(),
        forall|i: int|
            0 <= i < records.len() ==> 0 <= #[trigger] order.1[i] < records.len() && order.0[i]
                == records[order.1[i]],
        forall|i: int, j: int|
            0 <= i < j < records.len() ==> records[#[trigger] order.1[i]].priority
                < records[#[trigger] order.1[j]].priority || (records[order.1[i]].priority
                == records[order.1[j]].priority && order.1[i] < order.1[j]),
    decreases records.len(),
{
    if records.len() == 0 {
        (records, Seq::empty())
    } else {
        let n = records.len() - 1;
        let init = records.drop_last();
        let last = records.last();
        let (before, places) = lemma_stable_order(init);
        let k = lemma_split_place(before, last.priority);
        let sorted = before.take(k) + seq![last] + before.skip(k);
        let found_at = places.take(k) + seq![n] + places.skip(k);
        assert forall|i: int| 0 <= i < records.len() implies 0 <= #[trigger] found_at[i]
            < records.len() && sorted[i] == records[found_at[i]] by {
            if i < k {
                assert(found_at[i] == places[i]);
            } else if i > k {
                assert(found_at[i] == places[i - 1]);
                assert(sorted[i] == before[i - 1]);
            }
        }
        assert forall|i: int, j: int| 0 <= i < j < records.len() implies records[
        #[trigger] found_at[i]].priority < records[#[trigger] found_at[j]].priority || (
        records[found_at[i]].priority == records[found_at[j]].priority && found_at[i]
            < found_at[j]) by {
            let i0 = if i < k { i } else { i - 1 };
            let j0 = if j < k { j } else { j - 1 };
            if i == k {
                assert(found_at[j] == places[j0]);
                assert(before[j0].priority > last.priority);
                assert(records[places[j0]] == init[places[j0]]);
            } else if j == k {
                assert(found_at[i] == places[i0]);
                assert(before[i0].priority <= last.priority);
                assert(records[places[i0]] == init[places[i0]]);
            } else {
                assert(found_at[i] == places[i0]);
                assert(found_at[j] == places[j0]);
                assert(records[places[i0]] == init[places[i0]]);
                assert(records[places[j0]] == init[places[j0]]);
            }
        }
        assert forall|i: int, j: int| 0 <= i <= j < sorted.len() implies (
        #[trigger] sorted[i]).priority <= (#[trigger] sorted[j]).priority by {
            assert(sorted[i] == records[found_at[i]]);
            assert(sorted[j] == records[found_at[j]]);
        }
        assert forall|priority: u16| #[trigger]
            of_priority(sorted, priority) == of_priority(records, priority) by {
            lemma_inserted_of_priority(before, last, k, priority);
            let pred = |record: SrvRecord| record.priority == priority;
            assert(of_priority(before, priority) == of_priority(init, priority));
            assert(init + seq![last] =~= records);
            Seq::filter_distributes_over_add(init, seq![last], pred);
        }
        (sorted, found_at)
    }
}

/// A record that is put behind those of its priority comes last among them.
proof fn lemma_inserted_of_priority(
    before: Seq<SrvRecord>,
    record: SrvRecord,
    k: int,
    priority: u16,
)
    requires
        0 <= k <= before.len(),
        forall|i: int| k <= i < before.len() ==> (#[trigger] before[i]).priority > record.priority,
    ensures
        of_priority(before.take(k) + seq![record] + before.skip(k), priority) == of_priority(
            before,
            priority,
        ) + of_priority(seq![record], priority),
{
    broadcast use vstd::seq_lib::group_filter_ensures;

    let pred = |r: SrvRecord| r.priority == priority;
    let low = before.take(k);
    let high = before.skip(k);
    let one = seq![record];
    Seq::filter_distributes_over_add(low + one, high, pred);
    Seq::filter_distributes_over_add(low, one, pred);
    Seq::filter_distributes_over_add(low, high, pred);
    assert(low + high =~= before);
    if priority == record.priority {
        assert(high.filter(pred).len() == 0) by {
            if high.filter(pred).len() > 0 {
                let x = high.filter(pred)[0];
                high.lemma_filter_contains_rev(pred, x);
                let j = choose|j: int| 0 <= j < high.len() && high[j] == x;
                assert(before[k + j].priority > record.priority);
            }
        }
        assert(low.filter(pred) + one.filter(pred) + high.filter(pred) =~= low.filter(pred)
            + high.filter(pred) + one.filter(pred));
    } else {
        reveal_with_fuel(Seq::filter, 2);
        assert(one.drop_last() =~= Seq::empty());
        assert(one.filter(pred) =~= Seq::empty());
        assert(low.filter(pred) + one.filter(pred) + high.filter(pred) =~= low.filter(pred)
            + high.filter(pred) + one.filter(pred));
    }
}

} // verus!
