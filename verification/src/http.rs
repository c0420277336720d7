//! The HTTP requests of the client, ready to be sent, and the `Authorization` header on them.
use crate::encoding::{
    base64_encode, base64_text, fits_base64, is_base64_char, lemma_base64_chars,
    lemma_base64_injective, lemma_base64_length,
};
use crate::error::Error;
use crate::jmap::{Request, Session};
use crate::text::{find, first_index, lemma_first_index, lemma_first_index_is};
use vstd::prelude::*;
use vstd::string::*;
use vstd::utf8::encode_utf8;

verus! {

/// The largest number of bytes that is read of an email's blob.
pub const MAX_BLOB_BYTES: u64 = 10_000_000;

/// A GET of the session object.
pub struct SessionCall {
    pub url: String,
    pub authorization: String,
}

/// A GET of an email's blob, of which at most `limit` bytes are to be read.
pub struct BlobCall {
    pub url: String,
    pub authorization: String,
    pub limit: u64,
}

/// A POST of an API request.
pub struct ApiCall {
    pub url: String,
    pub authorization: String,
    pub request: Request,
}

/// What came of a `SessionCall`: the URL that answered, after all redirects, and the session
/// object, or the text of the error.
pub type SessionReply = Result<(String, Session), String>;

/// Why an `ApiCall` brought no response, with the text of the error.
#[derive(Debug)]
pub enum PostFailure {
    /// The request could not be sent, or the server refused it.
    Send(String),
    /// The answer could not be read as a response.
    Read(String),
}

impl PostFailure {
    /// The error that stands for the failure.
    pub open spec fn error(self) -> Error {
        match self {
            PostFailure::Send(source) => Error::Request { source },
            PostFailure::Read(source) => Error::Response { source },
        }
    }

    /// Turns the failure into an error.
    pub fn into_error(self) -> (error: Error)
        ensures
            error == self.error(),
    {
        match self {
            PostFailure::Send(source) => Error::Request { source },
            PostFailure::Read(source) => Error::Response { source },
        }
    }
}

/// Turns the failure of a `BlobCall` into an error.
pub fn blob_failure(source: String) -> (error: Error)
    ensures
        error == (Error::ReadEmailBlobError { source }),
{
    Error::ReadEmailBlobError { source }
}

/// The user name as far as it can stand in basic credentials: up to the first colon.
pub open spec fn safe_username(username: Seq<char>) -> Seq<char> {
    username.take(first_index(username, ':') as int)
}

/// User name and password as basic authentication joins them.
pub open spec fn credentials_text(username: Seq<char>, password: Seq<char>) -> Seq<char> {
    safe_username(username) + ":"@ + password
}

/// The value of the `Authorization` header for a user and a password.
pub open spec fn authorization_text(username: Seq<char>, password: Seq<char>) -> Seq<char> {
    "Basic "@ + base64_text(encode_utf8(credentials_text(username, password)))
}

/// Joins user name and password, dropping the user name's first colon and what follows it.
pub fn credentials(username: &str, password: &str) -> (text: String)
    ensures
        text@ == credentials_text(username@, password@),
{
    let safe = match find(username, ':') {
        Some(at) => username.substring_char(0, at),
        None => username,
    };
    proof {
        lemma_first_index(username@, ':');
        assert(safe@ =~= safe_username(username@));
    }
    safe.to_owned().concat(":").concat(password)
}

/// Writes the `Authorization` header for credentials in Base64.
pub fn basic_authorization(encoded: &str) -> (header: String)
    ensures
        header@ == "Basic "@ + encoded@,
{
    "Basic ".to_owned().concat(encoded)
}

/// What every HTTP request of the client has in common.
pub struct HttpWrapper {
    /// Value of HTTP Authorization header.
    pub authorization: String,
}

impl HttpWrapper {
    /// Tells whether the credentials of a user are short enough for a header.
    pub fn can_hold(username: &str, password: &str) -> (answer: bool)
        ensures
            answer == fits_base64(encode_utf8(credentials_text(username@, password@)).len()),
    {
        let credentials = credentials(username, password);
        let len = credentials.as_str().as_bytes().len();
        (len as u128 + 2) / 3 * 4 <= isize::MAX as u128
    }

    /// Prepares requests on behalf of a user.
    pub fn new(username: &str, password: &str) -> (wrapper: Self)
        requires
            fits_base64(encode_utf8(credentials_text(username@, password@)).len()),
        ensures
            wrapper.authorization@ == authorization_text(username@, password@),
            forall|i: int|
                0 <= i < wrapper.authorization@.len() ==> {
                    let c = #[trigger] wrapper.authorization@[i];
                    is_base64_char(c) || c == ' '
                },
    {
        let credentials = credentials(username, password);
        let encoded = base64_encode(credentials.as_str().as_bytes());
        let authorization = basic_authorization(&encoded);
        proof {
            reveal_strlit("Basic ");
            lemma_base64_chars(encode_utf8(credentials@));
            assert forall|i: int| 0 <= i < authorization@.len() implies {
                let c = #[trigger] authorization@[i];
                is_base64_char(c) || c == ' '
            } by {
                if i >= 6 {
                    assert(authorization@[i] == encoded@[i - 6]);
                }
            }
        }
        HttpWrapper { authorization }
    }

    /// Asks for the session object at `session_url`.
    pub fn get_session(&self, session_url: &str) -> (call: SessionCall)
        ensures
            call.url@ == session_url@,
            call.authorization == self.authorization,
    {
        SessionCall { url: session_url.to_owned(), authorization: self.authorization.clone() }
    }

    /// Asks for the blob at `url`.
    pub fn get_reader(&self, url: &str) -> (call: BlobCall)
        ensures
            call.url@ == url@,
            call.authorization == self.authorization,
            call.limit == MAX_BLOB_BYTES,
            call.limit == 10_000_000,
    {
        BlobCall {
            url: url.to_owned(),
            authorization: self.authorization.clone(),
            limit: MAX_BLOB_BYTES,
        }
    }

    /// Posts `body` to `url`.
    pub fn post(&self, url: &str, body: Request) -> (call: ApiCall)
        ensures
            call.url@ == url@,
            call.authorization == self.authorization,
            call.request == body,
    {
        ApiCall { url: url.to_owned(), authorization: self.authorization.clone(), request: body }
    }
}

/// A server that splits basic credentials at their first colon gets back the password as it was
/// given, and the user name up to its first colon.
pub proof fn credentials_split_at_first_colon(username: Seq<char>, password: Seq<char>)
    ensures
        ({
            let text = credentials_text(username, password);
            let at = first_index(text, ':') as int;
            &&& at < text.len()
            &&& text.take(at) == safe_username(username)
            &&& text.skip(at + 1) == password
        }),
{
    reveal_strlit(":");
    lemma_first_index(username, ':');
    let safe = safe_username(username);
    let text = credentials_text(username, password);
    assert(text[safe.len() as int] == ':');
    assert forall|i: int| 0 <= i < safe.len() implies text[i] != ':' by {
        assert(text[i] == username[i]);
    }
    lemma_first_index_is(text, ':', safe.len() as int);
    assert(text.take(safe.len() as int) =~= safe);
    assert(text.skip(safe.len() as int + 1) =~= password);
}

/// A user name without a colon is used whole.
pub proof fn username_without_colon_is_kept(username: Seq<char>)
    requires
        !username.contains(':'),
    ensures
        safe_username(username) == username,
{
    lemma_first_index(username, ':');
    assert(username.take(username.len() as int) =~= username);
}

/// The header tells the credentials apart: it is the same for two users only where the passwords
/// are the same, and the user names up to their first colons.
pub proof fn authorization_tells_credentials(
    username: Seq<char>,
    password: Seq<char>,
    other_username: Seq<char>,
    other_password: Seq<char>,
)
    requires
        authorization_text(username, password) == authorization_text(
            other_username,
            other_password,
        ),
    ensures
        safe_username(username) == safe_username(other_username),
        password == other_password,
{
    let text = credentials_text(username, password);
    let other_text = credentials_text(other_username, other_password);
    let prefix = "Basic "@.len() as int;
    let header = authorization_text(username, password);
    assert(header.skip(prefix) =~= base64_text(encode_utf8(text)));
    assert(header.skip(prefix) =~= base64_text(encode_utf8(other_text)));
    lemma_base64_injective(encode_utf8(text), encode_utf8(other_text));
    vstd::utf8::encode_utf8_decode_utf8(text);
    vstd::utf8::encode_utf8_decode_utf8(other_text);
    credentials_split_at_first_colon(username, password);
    credentials_split_at_first_colon(other_username, other_password);
}

/// The credentials are the user name up to its first colon, a colon, and the password. `name` is
/// the part of the user name that comes before its first colon.
pub proof fn credentials_are_name_colon_password(
    username: Seq<char>,
    password: Seq<char>,
    name: Seq<char>,
)
    requires
        name.len() <= username.len(),
        name == username.take(name.len() as int),
        !name.contains(':'),
        name.len() == username.len() || username[name.len() as int] == ':',
    ensures
        credentials_text(username, password) == name + seq![':'] + password,
{
    reveal_strlit(":");
    assert forall|i: int| 0 <= i < name.len() implies username[i] != ':' by {
        assert(name[i] == username[i]);
        assert(name.contains(name[i]));
    }
    lemma_first_index_is(username, ':', name.len() as int);
    assert(":"@ =~= seq![':']);
}

/// The header is the six characters of the scheme and a space, and then the Base64 text of the
/// credentials in UTF-8 and nothing else: after the sixth character there is no other space, nor
/// anything that is not Base64, and the length is that of the Base64 text. `name` is the part of
/// the user name that comes before its first colon.
pub proof fn authorization_is_scheme_and_base64(
    username: Seq<char>,
    password: Seq<char>,
    name: Seq<char>,
)
    requires
        name.len() <= username.len(),
        name == username.take(name.len() as int),
        !name.contains(':'),
        name.len() == username.len() || username[name.len() as int] == ':',
    ensures
        ({
            let header = authorization_text(username, password);
            let bytes = encode_utf8(name + seq![':'] + password);
            &&& header.len() == 6 + (bytes.len() + 2) / 3 * 4
            &&& header.take(6) == seq!['B', 'a', 's', 'i', 'c', ' ']
            &&& header.skip(6) == base64_text(bytes)
            &&& forall|k: int|
                6 <= k < header.len() ==> {
                    ||| 'A' <= #[trigger] header[k] <= 'Z'
                    ||| 'a' <= header[k] <= 'z'
                    ||| '0' <= header[k] <= '9'
                    ||| header[k] == '+'
                    ||| header[k] == '/'
                    ||| header[k] == '='
                }
        }),
{
    reveal_strlit("Basic ");
    credentials_are_name_colon_password(username, password, name);
    let bytes = encode_utf8(name + seq![':'] + password);
    let header = authorization_text(username, password);
    lemma_base64_length(bytes);
    lemma_base64_chars(bytes);
    assert(header.take(6) =~= seq!['B', 'a', 's', 'i', 'c', ' ']);
    assert(header.skip(6) =~= base64_text(bytes));
    assert forall|k: int| 6 <= k < header.len() implies is_base64_char(#[trigger] header[k]) by {
        assert(header[k] == base64_text(bytes)[k - 6]);
    }
}

/// A call that could not be sent is a failed request; an answer that could not be read is a bad
/// response. Both keep the text of what went wrong.
pub proof fn failures_keep_their_cause(source: String)
    ensures
        PostFailure::Send(source).error() == (Error::Request { source }),
        PostFailure::Read(source).error() == (Error::Response { source }),
{
}

} // verus!
