use vstd::prelude::*;
use crate::head::{MessageHead, StatusLine, Version};
use crate::length::ParseError;

verus! {

/// The side of the connection that an HTTP/1 transaction drives.
#[derive(Clone, Copy, Debug, PartialEq, Eq, Structural)]
pub enum Role {
    /// Sends requests and reads responses.
    Client,
    /// Reads requests and sends responses.
    Server,
}

/// The status a server answers with when a request head cannot be parsed.
pub open spec fn error_status(err: ParseError) -> u16 {
    match err {
        ParseError::TooManyHeaders => 431,
        ParseError::Version => 505,
        _ => 400,
    }
}

impl Role {
    pub fn is_client(&self) -> (r: bool)
        ensures
            r == (*self == Role::Client),
    {
        match self {
            Role::Client => true,
            Role::Server => false,
        }
    }

    pub fn is_server(&self) -> (r: bool)
        ensures
            r == (*self == Role::Server),
    {
        !self.is_client()
    }

    /// Whether the peer closing before a full head arrived is an error: it
    /// is for a client, which is owed a response.
    pub fn should_error_on_parse_eof(&self) -> (r: bool)
        ensures
            r == (*self == Role::Client),
    {
        self.is_client()
    }

    /// Whether this side reads before it writes: a server waits for a request.
    pub fn should_read_first(&self) -> (r: bool)
        ensures
            r == (*self == Role::Server),
    {
        self.is_server()
    }

    /// The head to send when parsing failed: a server answers with an empty
    /// HTTP/1.1 response whose status suits the error; a client sends nothing.
    pub fn on_error(&self, err: ParseError) -> (r: Option<MessageHead<StatusLine>>)
        ensures
            *self == Role::Client ==> r is None,
            *self == Role::Server ==> (r matches Some(h) && h.version == Version::Http11
                && h.headers@.len() == 0 && h.subject.code == error_status(err)
                && h.subject.reason@.len() == 0),
    {
        match self {
            Role::Client => None,
            Role::Server => {
                let code: u16 = match err {
                    ParseError::TooManyHeaders => 431,
                    ParseError::Version => 505,
                    _ => 400,
                };
                Some(
                    MessageHead {
                        version: Version::Http11,
                        headers: Vec::new(),
                        subject: StatusLine { code, reason: Vec::new() },
                    },
                )
            },
        }
    }
}

} // verus!
