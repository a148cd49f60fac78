//! What can go wrong between the client and the server.
use vstd::prelude::*;
use crate::text::{decimal, push_decimal};

verus! {

/// Why a request to the server did not give what was asked.
#[derive(Debug, PartialEq, Eq)]
pub enum ClientError {
    BadBaseUrl(String),
    Transport(String),
    Status(u16),
    Rejected { status: u16, reason: String },
    Detail(String),
}

impl ClientError {
    /// The status the server answered with, for the errors that carry one.
    pub fn status(&self) -> (r: Option<u16>)
        ensures
            r == (match self {
                ClientError::Status(s) => Some(*s),
                ClientError::Rejected { status, .. } => Some(*status),
                _ => None::<u16>,
            }),
    {
        match self {
            ClientError::Status(s) => Some(*s),
            ClientError::Rejected { status, .. } => Some(*status),
            _ => None,
        }
    }

    /// The error in words, as a reader is shown it.
    pub fn describe(&self) -> (r: String)
        ensures
            r@ == describe_spec(*self),
    {
        match self {
            ClientError::BadBaseUrl(raw) => {
                let mut out = "the server address is not an http address: ".to_owned();
                out.append(raw.as_str());
                out
            },
            ClientError::Transport(detail) => {
                let mut out = "the server could not be reached: ".to_owned();
                out.append(detail.as_str());
                out
            },
            ClientError::Status(status) => {
                let mut out = "the server answered ".to_owned();
                push_decimal(&mut out, *status as u64);
                out
            },
            ClientError::Rejected { reason, .. } => reason.clone(),
            ClientError::Detail(detail) => {
                let mut out = "the server sent an unreadable answer: ".to_owned();
                out.append(detail.as_str());
                out
            },
        }
    }
}

/// An error in words: what went wrong, with the address, the detail or the
/// status; a refusal in the server's own words.
pub open spec fn describe_spec(e: ClientError) -> Seq<char> {
    match e {
        ClientError::BadBaseUrl(raw) => "the server address is not an http address: "@ + raw@,
        ClientError::Transport(detail) => "the server could not be reached: "@ + detail@,
        ClientError::Status(status) => "the server answered "@ + decimal(status as nat),
        ClientError::Rejected { reason, .. } => reason@,
        ClientError::Detail(detail) => "the server sent an unreadable answer: "@ + detail@,
    }
}

} // verus!
