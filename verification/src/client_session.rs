//! The per-connection session state machine, as the registry and the
//! transport loop see it. A session starts in `Init` under a temporary
//! identity; its first inbound frame is a claim for an identity, and once the
//! registry grants the claim the session is `LoggedIn` and every further
//! inbound frame is a `Transfer` to route.
//!
//! The functions here only decide; the surrounding program reads the frames,
//! carries the requests to the registry and writes bytes back to the peer.

use vstd::prelude::*;

use crate::common::ClientChange;
use crate::common::ClientChangeError;
use crate::common::Transfer;
use crate::common::TransferError;
use crate::common::spec_decode;
use crate::common::spec_encode;
use crate::utf8::is_utf8;
use crate::utf8::is_valid_utf8;

verus! {

/// Where a session stands in the protocol.
#[derive(Debug, Clone, Copy, PartialEq, Eq)]
pub enum ClientStatus {
    Init,
    LoggedIn,
}

/// Why an inbound frame was refused: no acceptable identity while a claim
/// was expected, or not a well-formed `Transfer` once logged in.
#[derive(Debug, Clone, Copy, PartialEq, Eq)]
pub enum ClientSessionError {
    InvalidEmail,
    InvalidBytes,
}

/// What a session asks of the registry after reading one inbound frame.
#[derive(Debug, PartialEq, Eq)]
pub enum SessionRequest {
    /// Claim a new identity: the session's first frame, while in `Init`.
    Change(ClientChange),
    /// Route a decoded `Transfer` to its destination.
    Route(Transfer),
}

/// An acceptable identity claim: valid text, non-empty, and free of the
/// delimiter byte — an identity holding the delimiter would corrupt the
/// framing of every record that names it.
pub open spec fn valid_claim(bytes: Seq<u8>) -> bool {
    is_utf8(bytes) && bytes.len() > 0 && !bytes.contains(crate::common::DELIMITER)
}

/// The mathematical value of a session: its current identity and state.
pub struct ClientSessionView {
    pub email: Seq<u8>,
    pub status: ClientStatus,
}

/// One connection's protocol state: the identity the session currently
/// believes it owns, and whether it has completed a claim.
pub struct ClientSession {
    email: Vec<u8>,
    status: ClientStatus,
}

impl View for ClientSession {
    type V = ClientSessionView;

    closed spec fn view(&self) -> ClientSessionView {
        ClientSessionView { email: self.email@, status: self.status }
    }
}

impl ClientSession {
    /// A fresh session under its system-generated temporary identity.
    pub fn new(email: Vec<u8>) -> (r: ClientSession)
        ensures
            r@.email == email@,
            r@.status == ClientStatus::Init,
    {
        ClientSession { email, status: ClientStatus::Init }
    }

    /// The identity the session currently owns.
    pub fn email(&self) -> (r: &Vec<u8>)
        ensures
            r@ == self@.email,
    {
        &self.email
    }

    /// The session's protocol state.
    pub fn status(&self) -> (r: ClientStatus)
        ensures
            r == self@.status,
    {
        self.status
    }

    /// Dispatches one inbound frame on the current state. In `Init` the frame
    /// is a candidate identity: if it is an acceptable claim — non-empty,
    /// delimiter-free, valid text — the session asks the registry to move it
    /// from its current identity, and otherwise the frame is refused with
    /// `InvalidEmail`. Once `LoggedIn` the frame is a `Transfer`: decoded, it
    /// is handed on for routing, and a frame that does not decode is refused
    /// with `InvalidBytes`. A refused frame leaves the session unchanged and
    /// is reported to the peer, never fatal.
    pub fn handle_data(&self, bytes: &Vec<u8>) -> (r: Result<SessionRequest, ClientSessionError>)
        ensures
            self@.status == ClientStatus::Init && valid_claim(bytes@) ==> (r matches Ok(
                SessionRequest::Change(ClientChange::UpdateEmail(o, n)),
            ) && o@ == self@.email && n@ == bytes@),
            self@.status == ClientStatus::Init && !valid_claim(bytes@) ==> (r matches Err(e) && e
                == ClientSessionError::InvalidEmail),
            self@.status == ClientStatus::LoggedIn ==> match spec_decode(bytes@) {
                Some(tv) => (r matches Ok(SessionRequest::Route(t)) && t@ == tv),
                None => (r matches Err(e) && e == ClientSessionError::InvalidBytes),
            },
    {
        match self.status {
            ClientStatus::Init => {
                if bytes.len() > 0 && !crate::common::contains_delim(bytes) && is_valid_utf8(
                    bytes,
                ) {
                    let mut candidate: Vec<u8> = Vec::new();
                    candidate = crate::common::push_all(candidate, bytes);
                    let mut current: Vec<u8> = Vec::new();
                    current = crate::common::push_all(current, &self.email);
                    proof {
                        assert(candidate@ =~= bytes@);
                        assert(current@ =~= self@.email);
                    }
                    Ok(SessionRequest::Change(ClientChange::UpdateEmail(current, candidate)))
                } else {
                    Err(ClientSessionError::InvalidEmail)
                }
            },
            ClientStatus::LoggedIn => {
                match Transfer::try_from_bytes(bytes) {
                    Ok(t) => Ok(SessionRequest::Route(t)),
                    Err(_) => Err(ClientSessionError::InvalidBytes),
                }
            },
        }
    }

    /// Applies the registry's answer to an identity claim: on success the
    /// session adopts the new identity and is `LoggedIn`; on refusal it is
    /// unchanged, so the peer may retry with a different identity.
    pub fn change_email(&mut self, email: Vec<u8>, result: Result<(), ClientChangeError>)
        ensures
            result is Ok ==> final(self)@.email == email@ && final(self)@.status
                == ClientStatus::LoggedIn,
            result is Err ==> final(self)@ == old(self)@,
    {
        if result.is_ok() {
            self.email = email;
            self.status = ClientStatus::LoggedIn;
        }
    }

    /// Prepares a routed `Transfer` for this session's peer: encodes it when
    /// it is addressed to the identity this session owns, and refuses it as
    /// `DestinationClientOffline` otherwise (the registry entry was stale).
    pub fn deliver(&self, msg: Transfer) -> (r: Result<Vec<u8>, TransferError>)
        ensures
            msg.to@ == self@.email ==> (r matches Ok(b) && b@ == spec_encode(msg@)),
            msg.to@ != self@.email ==> r == Err::<Vec<u8>, TransferError>(
                TransferError::DestinationClientOffline,
            ),
    {
        if !crate::common::bytes_eq(&msg.to, &self.email) {
            return Err(TransferError::DestinationClientOffline);
        }
        Ok(msg.to_bytes())
    }
}

impl ClientSessionError {
    /// The diagnostic line written back to the peer for this refusal.
    pub fn message(&self) -> (r: &'static str)
        ensures
            self == ClientSessionError::InvalidEmail ==> r@ == "invalid email"@,
            self == ClientSessionError::InvalidBytes ==> r@ == "invalid bytes"@,
    {
        match self {
            ClientSessionError::InvalidEmail => "invalid email",
            ClientSessionError::InvalidBytes => "invalid bytes",
        }
    }
}

} // verus!
