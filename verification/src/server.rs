//! Errors of server construction. Building the server itself — loading the
//! certificate and key and binding the transport listener — is I/O and lives
//! with the program that owns the transport.

use vstd::prelude::*;

verus! {

/// Why a server could not be constructed from its arguments.
#[derive(Debug, Clone, Copy, PartialEq, Eq)]
pub enum ConstructServerError {
    InvalidIpAddr,
}

impl ConstructServerError {
    /// The diagnostic line for this failure.
    pub fn message(&self) -> (r: &'static str)
        ensures
            r@ == "invalid Ip address"@,
    {
        "invalid Ip address"
    }
}

} // verus!
