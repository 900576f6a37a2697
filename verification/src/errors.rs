//! The client-facing error taxonomy and the JSON error envelope.

use vstd::prelude::*;
use crate::decimal::{dec_rep, u64_to_string};

verus! {

/// Everything a client call can fail with: pre-flight validation, transport,
/// protocol and interface-contract failures.
#[derive(Debug, Clone, PartialEq, Eq)]
pub enum TranDbError {
    /// The key does not exist, or exists but has expired (strong reads).
    KeyNotFound(String),
    /// DNS, connect or transmission failure.
    NetworkError(String),
    /// The server returned a non-success status with an error body.
    HttpError(u16, String),
    /// Pre-flight: the key is longer than the given limit.
    KeyTooLarge(usize),
    /// Pre-flight: the value is longer than the given limit.
    ValueTooLarge(usize),
    /// A successful response did not carry a parseable `ETag`.
    MissingETag,
}

/// The mathematical value of a `TranDbError`.
pub ghost enum ErrModel {
    KeyNotFound(Seq<char>),
    NetworkError(Seq<char>),
    HttpError(int, Seq<char>),
    KeyTooLarge(int),
    ValueTooLarge(int),
    MissingETag,
}

impl View for TranDbError {
    type V = ErrModel;

    open spec fn view(&self) -> ErrModel {
        match self {
            TranDbError::KeyNotFound(k) => ErrModel::KeyNotFound(k@),
            TranDbError::NetworkError(d) => ErrModel::NetworkError(d@),
            TranDbError::HttpError(status, m) => ErrModel::HttpError(*status as int, m@),
            TranDbError::KeyTooLarge(n) => ErrModel::KeyTooLarge(*n as int),
            TranDbError::ValueTooLarge(n) => ErrModel::ValueTooLarge(*n as int),
            TranDbError::MissingETag => ErrModel::MissingETag,
        }
    }
}

/// The error envelope carried as the JSON body of every non-success response.
#[derive(Debug, Clone, PartialEq, Eq)]
pub struct ErrorResponse {
    pub error: String,
}

/// The human-readable rendering of each error.
pub open spec fn error_message(e: TranDbError) -> Seq<char> {
    match e {
        TranDbError::KeyNotFound(k) => "Key not found: "@ + k@,
        TranDbError::NetworkError(d) => "Network error: "@ + d@,
        TranDbError::HttpError(status, m) => "HTTP "@ + dec_rep(status as int) + ": "@ + m@,
        TranDbError::KeyTooLarge(n) => "Key exceeds maximum size of "@ + dec_rep(n as int)
            + " bytes"@,
        TranDbError::ValueTooLarge(n) => "Value exceeds maximum size of "@ + dec_rep(n as int)
            + " bytes"@,
        TranDbError::MissingETag => "Server response missing ETag header"@,
    }
}

impl TranDbError {
    /// Render the error as its message text.
    pub fn to_string(&self) -> (r: String)
        ensures
            r@ == error_message(*self),
    {
        match self {
            TranDbError::KeyNotFound(k) => {
                let mut m = String::from_str("Key not found: ");
                m.append(k.as_str());
                m
            },
            TranDbError::NetworkError(d) => {
                let mut m = String::from_str("Network error: ");
                m.append(d.as_str());
                m
            },
            TranDbError::HttpError(status, text) => {
                let mut m = String::from_str("HTTP ");
                let status_text = u64_to_string(*status as u64);
                m.append(status_text.as_str());
                m.append(": ");
                m.append(text.as_str());
                m
            },
            TranDbError::KeyTooLarge(n) => {
                let mut m = String::from_str("Key exceeds maximum size of ");
                let n_text = u64_to_string(*n as u64);
                m.append(n_text.as_str());
                m.append(" bytes");
                m
            },
            TranDbError::ValueTooLarge(n) => {
                let mut m = String::from_str("Value exceeds maximum size of ");
                let n_text = u64_to_string(*n as u64);
                m.append(n_text.as_str());
                m.append(" bytes");
                m
            },
            TranDbError::MissingETag => String::from_str("Server response missing ETag header"),
        }
    }
}

} // verus!
