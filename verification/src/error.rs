//! Errors of the controller and the error body of the REST API.

use vstd::prelude::*;
use crate::text::{decimal, push_decimal};

verus! {

/// Errors that can occur during controller operations.
#[derive(Debug, Clone)]
pub enum Error {
    /// LED strip with the specified ID was not found.
    StripNotFound(u8),
    /// Requested animation mode does not exist.
    UnknownMode(String),
    /// Operation requires debug mode to be enabled.
    DebugModeRequired,
    /// Network communication failure.
    Network(String),
    /// Failed to lock shared state - indicates thread panic.
    LockPoisoned,
    /// Invalid configuration value.
    InvalidConfig(String),
    /// Color parsing failed.
    InvalidColor(String),
    /// JSON serialization/deserialization error.
    Serialization(String),
}

/// The message of an error.
pub open spec fn error_text(e: Error) -> Seq<char> {
    match e {
        Error::StripNotFound(id) => "LED strip "@ + decimal(id as nat) + " not found"@,
        Error::UnknownMode(s) => "unknown animation mode: "@ + s@,
        Error::DebugModeRequired => "debug mode is required for this operation"@,
        Error::Network(s) => "network error: "@ + s@,
        Error::LockPoisoned => "state lock poisoned"@,
        Error::InvalidConfig(s) => "invalid configuration: "@ + s@,
        Error::InvalidColor(s) => "invalid color format: "@ + s@,
        Error::Serialization(s) => "serialization error: "@ + s@,
    }
}

/// The HTTP status of an error: 404 for a missing strip, 400 for an unknown
/// mode, 403 when debug mode is required, 500 otherwise.
pub open spec fn error_status(e: Error) -> u16 {
    match e {
        Error::StripNotFound(_) => 404,
        Error::UnknownMode(_) => 400,
        Error::DebugModeRequired => 403,
        _ => 500,
    }
}

impl Error {
    /// The HTTP status code answering this error.
    pub fn status_code(&self) -> (res: u16)
        ensures
            res == error_status(*self),
    {
        match self {
            Error::StripNotFound(_) => 404,
            Error::UnknownMode(_) => 400,
            Error::DebugModeRequired => 403,
            _ => 500,
        }
    }

    /// The error's message.
    pub fn to_string(&self) -> (res: String)
        ensures
            res@ == error_text(*self),
    {
        match self {
            Error::StripNotFound(id) => {
                let mut s = "LED strip ".to_owned();
                push_decimal(&mut s, *id as u64);
                s.append(" not found");
                s
            },
            Error::UnknownMode(m) => {
                let mut s = "unknown animation mode: ".to_owned();
                s.append(m.as_str());
                s
            },
            Error::DebugModeRequired => "debug mode is required for this operation".to_owned(),
            Error::Network(m) => {
                let mut s = "network error: ".to_owned();
                s.append(m.as_str());
                s
            },
            Error::LockPoisoned => "state lock poisoned".to_owned(),
            Error::InvalidConfig(m) => {
                let mut s = "invalid configuration: ".to_owned();
                s.append(m.as_str());
                s
            },
            Error::InvalidColor(m) => {
                let mut s = "invalid color format: ".to_owned();
                s.append(m.as_str());
                s
            },
            Error::Serialization(m) => {
                let mut s = "serialization error: ".to_owned();
                s.append(m.as_str());
                s
            },
        }
    }
}

/// HTTP-specific error responses for the REST API.
#[derive(Debug)]
pub struct ErrorResponse {
    /// Human-readable error message.
    pub error: String,
    /// Optional error code for programmatic handling.
    pub code: Option<String>,
}

impl ErrorResponse {
    /// Creates a new error response with the given message.
    pub fn new(error: String) -> (res: Self)
        ensures
            res.error@ == error@,
            res.code is None,
    {
        ErrorResponse { error, code: None }
    }

    /// Creates a new error response with both message and code.
    pub fn with_code(error: String, code: String) -> (res: Self)
        ensures
            res.error@ == error@,
            res.code is Some,
            res.code->0@ == code@,
    {
        ErrorResponse { error, code: Some(code) }
    }

    /// The response answering `err`: its message and no code.
    pub fn from_error(err: &Error) -> (res: Self)
        ensures
            res.error@ == error_text(*err),
            res.code is None,
    {
        Self::new(err.to_string())
    }
}

} // verus!
