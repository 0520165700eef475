//! What can go wrong between the client and the store.

use vstd::prelude::*;
use crate::text::followed_by;

verus! {

/// Why a request to the store failed. Each variant but `NotFound` carries the
/// words of the failure below it; `NotFound` carries the address that was
/// asked.
#[derive(Debug)]
pub enum VaultClientError {
    NotFound(String),
    NotAuthorized(String),
    InvalidUrl(String),
    InvalidPayload(String),
    Unknown(String),
}

/// The HTTP status `401 Unauthorized`.
pub const UNAUTHORIZED: u16 = 401;

/// The HTTP status `403 Forbidden`.
pub const FORBIDDEN: u16 = 403;

/// The HTTP status `404 Not Found`.
pub const NOT_FOUND: u16 = 404;

impl VaultClientError {
    /// The words of this error.
    pub open spec fn text(self) -> Seq<char> {
        match self {
            VaultClientError::NotFound(url) => "Not Found: "@ + url@,
            VaultClientError::NotAuthorized(cause) => "Not Authorized: "@ + cause@,
            VaultClientError::InvalidUrl(cause) => "Invalid Url: "@ + cause@,
            VaultClientError::InvalidPayload(cause) => "Invalid Payload: "@ + cause@,
            VaultClientError::Unknown(cause) => "Unknown Client error: "@ + cause@,
        }
    }

    /// The words of this error, as they are shown to a user.
    pub fn describe(&self) -> (words: String)
        ensures
            words@ == self.text(),
    {
        match self {
            VaultClientError::NotFound(url) => followed_by("Not Found: ", url.as_str()),
            VaultClientError::NotAuthorized(cause) => followed_by("Not Authorized: ", cause.as_str()),
            VaultClientError::InvalidUrl(cause) => followed_by("Invalid Url: ", cause.as_str()),
            VaultClientError::InvalidPayload(cause) => followed_by(
                "Invalid Payload: ",
                cause.as_str(),
            ),
            VaultClientError::Unknown(cause) => followed_by("Unknown Client error: ", cause.as_str()),
        }
    }

    /// What a failed HTTP exchange means. `status` is the status of the
    /// answer, if there was an answer; `url` the address that was asked, if
    /// it is known; `cause` the words of the failure.
    ///
    /// The store answers 401 or 403 to a client that may not ask, and 404
    /// where nothing is stored. Everything else is of unknown kind.
    pub fn from_http(
        status: Option<u16>,
        url: Option<String>,
        cause: String,
    ) -> (error: VaultClientError)
        ensures
            match status {
                Some(code) if code == UNAUTHORIZED || code == FORBIDDEN => error
                    == VaultClientError::NotAuthorized(cause),
                Some(code) if code == NOT_FOUND => match url {
                    Some(asked) => error == VaultClientError::NotFound(asked),
                    None => error matches VaultClientError::NotFound(asked) && asked@.len() == 0,
                },
                _ => error == VaultClientError::Unknown(cause),
            },
    {
        match status {
            Some(code) => {
                if code == UNAUTHORIZED || code == FORBIDDEN {
                    VaultClientError::NotAuthorized(cause)
                } else if code == NOT_FOUND {
                    match url {
                        Some(asked) => VaultClientError::NotFound(asked),
                        None => VaultClientError::NotFound(String::new()),
                    }
                } else {
                    VaultClientError::Unknown(cause)
                }
            },
            None => VaultClientError::Unknown(cause),
        }
    }

    /// An address that could not be formed. `cause` is the words of the
    /// failure.
    pub fn from_url_error(cause: String) -> (error: VaultClientError)
        ensures
            error == VaultClientError::InvalidUrl(cause),
    {
        VaultClientError::InvalidUrl(cause)
    }

    /// A payload that could not be written or read. `cause` is the words of
    /// the failure.
    pub fn from_json_error(cause: String) -> (error: VaultClientError)
        ensures
            error == VaultClientError::InvalidPayload(cause),
    {
        VaultClientError::InvalidPayload(cause)
    }
}

} // verus!
