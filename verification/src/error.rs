//! What can go wrong, and how it is told to the user.
use crate::jmap::MethodResponseError;
use vstd::prelude::*;
use vstd::string::*;

verus! {

/// An error of the client. `source` is the text of the error underneath.
#[derive(Debug)]
pub enum Error {
    ParseResolvConf { source: String },
    SrvLookup { address: String, source: String },
    ResolveJmapSrvRecord { hostname: String, source: String },
    OpenSession { session_url: String, source: String },
    UpdateSession { session_url: String, source: String },
    Request { source: String },
    Response { source: String },
    SerializeRequest { source: String },
    DeserializeResponse { source: String },
    UnexpectedResponse,
    MethodError { error: MethodResponseError },
    ReadEmailBlobError { source: String },
}

impl Error {
    /// The text of the error.
    pub open spec fn text(self) -> Seq<char> {
        match self {
            Error::ParseResolvConf { source } => "Could not determine DNS settings from resolv.conf: "@
                + source@,
            Error::SrvLookup { address, source } => "Could not lookup SRV address `"@ + address@
                + "': "@ + source@,
            Error::ResolveJmapSrvRecord { hostname, source } =>
                "Could not resolve JMAP SRV record for "@ + hostname@ + ": "@ + source@,
            Error::OpenSession { session_url, source } => "Could not open session at "@
                + session_url@ + ": "@ + source@,
            Error::UpdateSession { session_url, source } => "Could not update session at "@
                + session_url@ + ": "@ + source@,
            Error::Request { source } => "Could not complete API request: "@ + source@,
            Error::Response { source } => "Could not interpret API response: "@ + source@,
            Error::SerializeRequest { source } => "Could not serialize JSON request: "@ + source@,
            Error::DeserializeResponse { source } => "Could not deserialize JSON response: "@
                + source@,
            Error::UnexpectedResponse => "Unexpected response from server"@,
            Error::MethodError { error } => "Method-level JMAP error: "@ + error.text@,
            Error::ReadEmailBlobError { source } => "Could not read Email blob from server: "@
                + source@,
        }
    }

    /// Writes the error out.
    pub fn message(&self) -> (message: String)
        ensures
            message@ == self.text(),
    {
        match self {
            Error::ParseResolvConf { source } => joined(
                "Could not determine DNS settings from resolv.conf: ",
                source,
            ),
            Error::SrvLookup { address, source } => joined(
                "Could not lookup SRV address `",
                address,
            ).concat("': ").concat(source),
            Error::ResolveJmapSrvRecord { hostname, source } => joined(
                "Could not resolve JMAP SRV record for ",
                hostname,
            ).concat(": ").concat(source),
            Error::OpenSession { session_url, source } => joined(
                "Could not open session at ",
                session_url,
            ).concat(": ").concat(source),
            Error::UpdateSession { session_url, source } => joined(
                "Could not update session at ",
                session_url,
            ).concat(": ").concat(source),
            Error::Request { source } => joined("Could not complete API request: ", source),
            Error::Response { source } => joined("Could not interpret API response: ", source),
            Error::SerializeRequest { source } => joined(
                "Could not serialize JSON request: ",
                source,
            ),
            Error::DeserializeResponse { source } => joined(
                "Could not deserialize JSON response: ",
                source,
            ),
            Error::UnexpectedResponse => "Unexpected response from server".to_owned(),
            Error::MethodError { error } => joined("Method-level JMAP error: ", &error.text),
            Error::ReadEmailBlobError { source } => joined(
                "Could not read Email blob from server: ",
                source,
            ),
        }
    }
}

fn joined(head: &str, tail: &str) -> (text: String)
    ensures
        text@ == head@ + tail@,
{
    head.to_owned().concat(tail)
}

/// Every error tells what could not be done, where it was to be done, and, at the end, the whole
/// text of what went wrong.
pub proof fn errors_tell_what_where_and_why(
    place: String,
    source: String,
    error: MethodResponseError,
)
    ensures
        (Error::ParseResolvConf { source }).text()
            == "Could not determine DNS settings from resolv.conf: "@ + source@,
        (Error::SrvLookup { address: place, source }).text() == "Could not lookup SRV address `"@
            + place@ + "': "@ + source@,
        (Error::ResolveJmapSrvRecord { hostname: place, source }).text()
            == "Could not resolve JMAP SRV record for "@ + place@ + ": "@ + source@,
        (Error::OpenSession { session_url: place, source }).text() == "Could not open session at "@
            + place@ + ": "@ + source@,
        (Error::UpdateSession { session_url: place, source }).text()
            == "Could not update session at "@ + place@ + ": "@ + source@,
        (Error::Request { source }).text() == "Could not complete API request: "@ + source@,
        (Error::Response { source }).text() == "Could not interpret API response: "@ + source@,
        (Error::SerializeRequest { source }).text() == "Could not serialize JSON request: "@
            + source@,
        (Error::DeserializeResponse { source }).text() == "Could not deserialize JSON response: "@
            + source@,
        Error::UnexpectedResponse.text() == "Unexpected response from server"@,
        (Error::MethodError { error }).text() == "Method-level JMAP error: "@ + error.text@,
        (Error::ReadEmailBlobError { source }).text() == "Could not read Email blob from server: "@
            + source@,
{
}

} // verus!
