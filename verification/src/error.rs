//! Errors of lab operations.
use vstd::prelude::*;
use crate::text::push_str;

verus! {

/// Errors that lab operations report.
#[derive(Debug, Clone, PartialEq, Eq)]
pub enum Error {
    /// Topology validation failed (single message).
    Validation(String),
    /// Lab already exists.
    AlreadyExists { name: String },
    /// Lab not found.
    NotFound { name: String },
    /// Node not found in topology.
    NodeNotFound { name: String },
    /// Invalid endpoint format.
    InvalidEndpoint { endpoint: String },
    /// NLL parse error.
    NllParse(String),
    /// Invalid topology file.
    InvalidTopology(String),
    /// Packet capture error.
    Capture(String),
    /// Generic deploy failure.
    DeployFailed(String),
}

/// Result type for lab operations.
pub type Result<T> = core::result::Result<T, Error>;

/// The human-readable message of an error.
pub open spec fn message(e: Error) -> Seq<char> {
    match e {
        Error::Validation(m) => "validation failed: "@ + m@,
        Error::AlreadyExists { name } => "lab already exists: "@ + name@,
        Error::NotFound { name } => "lab not found: "@ + name@,
        Error::NodeNotFound { name } => "node not found: "@ + name@,
        Error::InvalidEndpoint { endpoint } => "invalid endpoint '"@ + endpoint@
            + "': expected 'node:interface' format"@,
        Error::NllParse(m) => "NLL parse error: "@ + m@,
        Error::InvalidTopology(m) => "invalid topology: "@ + m@,
        Error::Capture(m) => "capture failed: "@ + m@,
        Error::DeployFailed(m) => "deploy failed: "@ + m@,
    }
}

impl Error {
    /// Create an invalid topology error.
    pub fn invalid_topology(message: String) -> (e: Self)
        ensures
            e == Error::InvalidTopology(message),
    {
        Error::InvalidTopology(message)
    }

    /// Create a deploy failed error (generic catch-all).
    pub fn deploy_failed(message: String) -> (e: Self)
        ensures
            e == Error::DeployFailed(message),
    {
        Error::DeployFailed(message)
    }

    /// An identical copy.
    pub fn copy(&self) -> (e: Self)
        ensures
            e == *self,
    {
        match self {
            Error::Validation(m) => Error::Validation(m.clone()),
            Error::AlreadyExists { name } => Error::AlreadyExists { name: name.clone() },
            Error::NotFound { name } => Error::NotFound { name: name.clone() },
            Error::NodeNotFound { name } => Error::NodeNotFound { name: name.clone() },
            Error::InvalidEndpoint { endpoint } => Error::InvalidEndpoint { endpoint: endpoint.clone() },
            Error::NllParse(m) => Error::NllParse(m.clone()),
            Error::InvalidTopology(m) => Error::InvalidTopology(m.clone()),
            Error::Capture(m) => Error::Capture(m.clone()),
            Error::DeployFailed(m) => Error::DeployFailed(m.clone()),
        }
    }

    /// Check if this is a "not found" error.
    pub fn is_not_found(&self) -> (b: bool)
        ensures
            b == (self is NotFound || self is NodeNotFound),
    {
        match self {
            Error::NotFound { .. } => true,
            Error::NodeNotFound { .. } => true,
            _ => false,
        }
    }

    /// The error's message, as it is displayed.
    pub fn to_text(&self) -> (s: String)
        ensures
            s@ == message(*self),
    {
        let mut s = String::new();
        match self {
            Error::Validation(m) => {
                push_str(&mut s, "validation failed: ");
                push_str(&mut s, m.as_str());
            },
            Error::AlreadyExists { name } => {
                push_str(&mut s, "lab already exists: ");
                push_str(&mut s, name.as_str());
            },
            Error::NotFound { name } => {
                push_str(&mut s, "lab not found: ");
                push_str(&mut s, name.as_str());
            },
            Error::NodeNotFound { name } => {
                push_str(&mut s, "node not found: ");
                push_str(&mut s, name.as_str());
            },
            Error::InvalidEndpoint { endpoint } => {
                push_str(&mut s, "invalid endpoint '");
                push_str(&mut s, endpoint.as_str());
                push_str(&mut s, "': expected 'node:interface' format");
            },
            Error::NllParse(m) => {
                push_str(&mut s, "NLL parse error: ");
                push_str(&mut s, m.as_str());
            },
            Error::InvalidTopology(m) => {
                push_str(&mut s, "invalid topology: ");
                push_str(&mut s, m.as_str());
            },
            Error::Capture(m) => {
                push_str(&mut s, "capture failed: ");
                push_str(&mut s, m.as_str());
            },
            Error::DeployFailed(m) => {
                push_str(&mut s, "deploy failed: ");
                push_str(&mut s, m.as_str());
            },
        }
        s
    }
}

} // verus!
