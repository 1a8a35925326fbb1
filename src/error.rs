//! The error taxonomy of the gateway and its mapping onto HTTP statuses.

use vstd::prelude::*;

verus! {

/// Every failure the gateway reports, each with its message.
#[derive(Clone, Debug, PartialEq, Eq)]
pub enum ServerError {
    /// No backend of a kind is available.
    NotFoundServer(String),
    /// A socket or backend address could not be parsed.
    SocketAddr(String),
    /// A command-line option or configuration value is unusable.
    ArgumentError(String),
    /// A failed operation: network failure, failed verification, response building.
    Operation(String),
    /// An unknown kind token.
    InvalidServerKind(String),
    /// A malformed inbound payload.
    BadRequest(String),
    /// The configuration file could not be read or parsed.
    FailedToLoadConfig(String),
}


impl ServerError {
    /// The HTTP status the error is answered with.
    pub open spec fn status_spec(&self) -> u16 {
        match self {
            ServerError::NotFoundServer(_) => 404,
            ServerError::Operation(_) => 500,
            _ => 400,
        }
    }

    /// The HTTP status the error is answered with.
    pub fn status_code(&self) -> (r: u16)
        ensures
            r == self.status_spec(),
    {
        match self {
            ServerError::NotFoundServer(_) => 404,
            ServerError::Operation(_) => 500,
            _ => 400,
        }
    }

    /// The message carried by the error.
    pub open spec fn message_spec(&self) -> Seq<char> {
        match self {
            ServerError::NotFoundServer(m) => m@,
            ServerError::SocketAddr(m) => m@,
            ServerError::ArgumentError(m) => m@,
            ServerError::Operation(m) => m@,
            ServerError::InvalidServerKind(m) => m@,
            ServerError::BadRequest(m) => m@,
            ServerError::FailedToLoadConfig(m) => m@,
        }
    }

    /// The body of the error reply: the message carried by the error.
    pub fn message(&self) -> (r: String)
        ensures
            r@ == self.message_spec(),
    {
        match self {
            ServerError::NotFoundServer(m) => m.clone(),
            ServerError::SocketAddr(m) => m.clone(),
            ServerError::ArgumentError(m) => m.clone(),
            ServerError::Operation(m) => m.clone(),
            ServerError::InvalidServerKind(m) => m.clone(),
            ServerError::BadRequest(m) => m.clone(),
            ServerError::FailedToLoadConfig(m) => m.clone(),
        }
    }

    /// The text form of the error.
    pub open spec fn text_spec(&self) -> Seq<char> {
        match self {
            ServerError::NotFoundServer(m) => "Not found available server. Please register a server via the `/admin/register/"@ + m@ + "` endpoint."@,
            ServerError::SocketAddr(m) => "Failed to parse socket address: "@ + m@,
            ServerError::ArgumentError(m) => m@,
            ServerError::Operation(m) => m@,
            ServerError::InvalidServerKind(m) => "Invalid server kind: "@ + m@,
            ServerError::BadRequest(m) => "Bad request: "@ + m@,
            ServerError::FailedToLoadConfig(m) => "Failed to load config: "@ + m@,
        }
    }

    /// The text form of the error.
    pub fn to_string(&self) -> (r: String)
        ensures
            r@ == self.text_spec(),
    {
        match self {
            ServerError::NotFoundServer(m) => {
                let mut r = String::from_str("Not found available server. Please register a server via the `/admin/register/");
                r.append(m.as_str());
                r.append("` endpoint.");
                r
            },
            ServerError::SocketAddr(m) => {
                let mut r = String::from_str("Failed to parse socket address: ");
                r.append(m.as_str());
                r
            },
            ServerError::ArgumentError(m) => m.clone(),
            ServerError::Operation(m) => m.clone(),
            ServerError::InvalidServerKind(m) => {
                let mut r = String::from_str("Invalid server kind: ");
                r.append(m.as_str());
                r
            },
            ServerError::BadRequest(m) => {
                let mut r = String::from_str("Bad request: ");
                r.append(m.as_str());
                r
            },
            ServerError::FailedToLoadConfig(m) => {
                let mut r = String::from_str("Failed to load config: ");
                r.append(m.as_str());
                r
            },
        }
    }
}

/// An error page: `prefix` alone for an empty message, else `prefix: msg`.
pub open spec fn error_page_spec(prefix: Seq<char>, msg: Seq<char>) -> Seq<char> {
    if msg.len() == 0 {
        prefix
    } else {
        prefix + ": "@ + msg
    }
}

fn error_page(prefix: &str, msg: &str) -> (r: String)
    ensures
        r@ == error_page_spec(prefix@, msg@),
{
    let mut r = String::from_str(prefix);
    if msg.unicode_len() > 0 {
        r.append(": ");
        r.append(msg);
    }
    r
}

/// The body of a 501 reply.
pub fn not_implemented() -> (r: String)
    ensures
        r@ == "501 Not Implemented"@,
{
    String::from_str("501 Not Implemented")
}

/// The body of a 500 reply with message `msg`.
pub fn internal_server_error(msg: &str) -> (r: String)
    ensures
        r@ == error_page_spec("500 Internal Server Error"@, msg@),
{
    error_page("500 Internal Server Error", msg)
}

/// The body of a 400 reply with message `msg`.
pub fn bad_request(msg: &str) -> (r: String)
    ensures
        r@ == error_page_spec("400 Bad Request"@, msg@),
{
    error_page("400 Bad Request", msg)
}

/// The body of a 404 reply with message `msg`.
pub fn invalid_endpoint(msg: &str) -> (r: String)
    ensures
        r@ == error_page_spec("404 The requested service endpoint is not found"@, msg@),
{
    error_page("404 The requested service endpoint is not found", msg)
}

} // verus!
