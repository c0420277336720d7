//! The JMAP objects that the client exchanges with a server (RFC 8620 and RFC 8621), reduced to
//! what the client sends and reads.
use vstd::prelude::*;

verus! {

/// An object identifier, as the server hands it out.
#[derive(Debug)]
pub struct Id(pub String);

impl View for Id {
    type V = Seq<char>;

    open spec fn view(&self) -> Seq<char> {
        self.0@
    }
}

impl Clone for Id {
    fn clone(&self) -> (copy: Self)
        ensures
            copy == *self,
    {
        Id(self.0.clone())
    }
}

/// An opaque token for the state of the server's data.
#[derive(Debug)]
pub struct State(pub String);

impl View for State {
    type V = Seq<char>;

    open spec fn view(&self) -> Seq<char> {
        self.0@
    }
}

impl Clone for State {
    fn clone(&self) -> (copy: Self)
        ensures
            copy == *self,
    {
        State(self.0.clone())
    }
}

impl State {
    /// Tells whether two tokens are the same.
    pub fn same(&self, other: &State) -> (answer: bool)
        ensures
            answer == (self@ == other@),
    {
        self.0 == other.0
    }
}

/// A capability that a request names in `using`.
#[derive(Debug, Clone, Copy, PartialEq, Eq, Structural)]
pub enum CapabilityKind {
    /// `urn:ietf:params:jmap:mail`
    Mail,
}

/// The limits of the core capability.
#[derive(Debug)]
pub struct CoreCapability {
    /// The largest number of objects that one `/get` call may ask for.
    pub max_objects_in_get: u64,
}

/// The capabilities of a server.
#[derive(Debug)]
pub struct Capabilities {
    pub core: CoreCapability,
}

/// The account to use for each capability, unless told otherwise.
#[derive(Debug)]
pub struct PrimaryAccounts {
    pub mail: Id,
}

/// The session object.
#[derive(Debug)]
pub struct Session {
    pub capabilities: Capabilities,
    pub primary_accounts: PrimaryAccounts,
    /// Where API requests are posted.
    pub api_url: String,
    /// URI template of the place that blobs are downloaded from.
    pub download_url: String,
    pub state: State,
}

/// An API request.
#[derive(Debug)]
pub struct Request {
    pub using: Vec<CapabilityKind>,
    pub method_calls: Vec<RequestInvocation>,
    pub created_ids: Option<Vec<(Id, Id)>>,
}

/// A method call, with the id by which its response is told apart.
#[derive(Debug)]
pub struct RequestInvocation {
    pub call: MethodCall,
    pub id: String,
}

#[derive(Debug)]
pub enum MethodCall {
    /// `Email/get`
    EmailGet { get: MethodCallGet },
    /// `Email/query`
    EmailQuery { query: MethodCallQuery },
    /// `Email/changes`
    EmailChanges { changes: MethodCallChanges },
}

#[derive(Debug)]
pub struct MethodCallGet {
    pub account_id: Id,
    /// The objects to fetch, or all of them.
    pub ids: Option<Vec<Id>>,
    /// The properties to fetch, or all of them.
    pub properties: Option<Vec<String>>,
}

#[derive(Debug)]
pub struct MethodCallQuery {
    pub account_id: Id,
    /// The index to start from; ignored where there is an anchor.
    pub position: i64,
    /// An id whose index the results start from.
    pub anchor: Option<Id>,
    /// What to add to the anchor's index.
    pub anchor_offset: i64,
    pub limit: Option<u64>,
    pub calculate_total: bool,
}

#[derive(Debug)]
pub struct MethodCallChanges {
    pub account_id: Id,
    pub since_state: State,
    pub max_changes: Option<u64>,
}

/// An API response.
#[derive(Debug)]
pub struct Response {
    pub method_responses: Vec<ResponseInvocation>,
    /// The state of the session object on the server.
    pub session_state: State,
}

/// The response to one method call, with the id of that call.
#[derive(Debug)]
pub struct ResponseInvocation {
    pub call: MethodResponse,
    pub id: String,
}

#[derive(Debug)]
pub enum MethodResponse {
    EmailGet(MethodResponseGet<Email>),
    EmailQuery(MethodResponseQuery),
    EmailChanges(MethodResponseChanges),
    Error(MethodResponseError),
}

#[derive(Debug)]
pub struct MethodResponseGet<T> {
    /// The state of this type of object on the server.
    pub state: State,
    pub list: Vec<T>,
}

#[derive(Debug)]
pub struct MethodResponseQuery {
    pub ids: Vec<Id>,
    /// The limit that the server imposed on `ids`, if it did.
    pub limit: Option<u64>,
}

#[derive(Debug)]
pub struct MethodResponseChanges {
    pub new_state: State,
    /// Whether `new_state` is an intermediate one.
    pub has_more_changes: bool,
    pub created: Vec<Id>,
    pub updated: Vec<Id>,
    pub destroyed: Vec<Id>,
}

/// A method-level error, by the text that shows it to the user.
#[derive(Debug)]
pub struct MethodResponseError {
    pub text: String,
}

/// A keyword of an email. Every keyword that the client does not know is `Unknown`.
#[derive(Debug, Clone, Copy, PartialEq, Eq, Structural)]
pub enum EmailKeyword {
    Draft,
    Seen,
    Flagged,
    Answered,
    Forwarded,
    Junk,
    NotJunk,
    Phishing,
    Unknown,
}

/// An email as `Email/get` lists it. The two objects hold their entries in the order in which
/// they were sent; where a key recurs, the last entry counts.
#[derive(Debug)]
pub struct Email {
    pub id: Id,
    pub blob_id: Id,
    pub keywords: Vec<(EmailKeyword, bool)>,
    pub mailbox_ids: Vec<(Id, bool)>,
}

/// Two ids, or two tokens for a state, are the same exactly where their texts are.
pub proof fn ids_and_states_are_their_texts(id: Id, state: State)
    ensures
        id@ == id.0@,
        state@ == state.0@,
{
}

} // verus!
