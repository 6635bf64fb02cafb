//! Errors of the monitor, with their messages.
use vstd::prelude::*;

use crate::text::{chars_of, push_str, string_of};

verus! {

#[derive(Debug)]
pub enum DtopError {
    InvalidConfig(String),
    InvalidSocket(String),
    PermissionDenied(String),
    DaemonUnavailable(String),
    DockerApi(String),
}

impl DtopError {
    /// The message shown for this error.
    pub fn message(&self) -> (m: String)
        ensures
            m@ == match self {
                DtopError::InvalidConfig(s) => "configuration file is invalid: "@ + s@,
                DtopError::InvalidSocket(s) => "Docker socket path is invalid: "@ + s@,
                DtopError::PermissionDenied(s) => "Docker permission denied for "@ + s@,
                DtopError::DaemonUnavailable(s) => "Docker daemon is unavailable at "@ + s@,
                DtopError::DockerApi(s) => "Docker API error: "@ + s@,
            },
    {
        let (prefix, detail) = match self {
            DtopError::InvalidConfig(s) => ("configuration file is invalid: ", s),
            DtopError::InvalidSocket(s) => ("Docker socket path is invalid: ", s),
            DtopError::PermissionDenied(s) => ("Docker permission denied for ", s),
            DtopError::DaemonUnavailable(s) => ("Docker daemon is unavailable at ", s),
            DtopError::DockerApi(s) => ("Docker API error: ", s),
        };
        let mut v = chars_of(prefix);
        push_str(&mut v, detail.as_str());
        string_of(&v)
    }
}

} // verus!
