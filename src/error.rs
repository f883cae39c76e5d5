use vstd::prelude::*;

verus! {

/// The failures a request can end in.
#[derive(Debug, Clone, Copy, PartialEq, Eq, Structural)]
pub enum Error {
    /// No matching resource, including a failed login.
    NotFound,
    /// A uniqueness rule of the store was violated.
    Conflict,
    /// An unexpected internal failure.
    ServerError,
    /// No credential was presented.
    Unauthorized,
    /// A token could not be produced.
    JWTError,
    /// The presented credential is malformed, unsigned or expired.
    InvalidToken,
    /// A stored password hash could not be used for verification.
    CorruptHash,
}

/// The HTTP status that answers an error.
pub open spec fn status_of(e: Error) -> u16 {
    match e {
        Error::NotFound => 404,
        Error::Unauthorized | Error::InvalidToken => 401,
        _ => 500,
    }
}

/// The message that answers an error.
pub open spec fn message_of(e: Error) -> Seq<char> {
    match e {
        Error::NotFound => "Request path not found"@,
        Error::Conflict => "A record with the same key already exists"@,
        Error::ServerError => "Server error"@,
        Error::Unauthorized | Error::InvalidToken => "Invalid or missing token"@,
        Error::JWTError => "Token error"@,
        Error::CorruptHash => "Stored credential is unusable"@,
    }
}

impl Error {
    pub fn status_code(&self) -> (r: u16)
        ensures
            r == status_of(*self),
    {
        match self {
            Error::NotFound => 404,
            Error::Unauthorized | Error::InvalidToken => 401,
            _ => 500,
        }
    }

    /// The human-readable message sent with the status.
    pub fn message(&self) -> (r: String)
        ensures
            r@ == message_of(*self),
    {
        match self {
            Error::NotFound => String::from_str("Request path not found"),
            Error::Conflict => String::from_str("A record with the same key already exists"),
            Error::ServerError => String::from_str("Server error"),
            Error::Unauthorized | Error::InvalidToken => String::from_str("Invalid or missing token"),
            Error::JWTError => String::from_str("Token error"),
            Error::CorruptHash => String::from_str("Stored credential is unusable"),
        }
    }
}

} // verus!
