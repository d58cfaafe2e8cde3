//! The client-side inbound path: once logged in, a client decodes every
//! frame the relay sends it and keeps only the records addressed to the
//! identity it logged in under.

use vstd::prelude::*;

use crate::common::Transfer;
use crate::common::TransferError;
use crate::common::spec_decode;

verus! {

/// The state of a client's inbound loop: the identity it logged in under.
pub struct ClientListen {
    email: Vec<u8>,
}

impl View for ClientListen {
    type V = Seq<u8>;

    closed spec fn view(&self) -> Seq<u8> {
        self.email@
    }
}

impl ClientListen {
    /// A listener for a client logged in under `email`.
    pub fn new(email: Vec<u8>) -> (r: ClientListen)
        ensures
            r@ == email@,
    {
        ClientListen { email }
    }

    /// Handles one inbound frame: decodes it as a `Transfer` and keeps it
    /// only when it is addressed to this client; a record for someone else is
    /// discarded, and a frame that does not decode is refused with
    /// `ConvertFromBytesFail`.
    pub fn handle(&self, bytes: &Vec<u8>) -> (r: Result<Option<Transfer>, TransferError>)
        ensures
            match spec_decode(bytes@) {
                Some(tv) => if tv.to == self@ {
                    r matches Ok(Some(t)) && t@ == tv
                } else {
                    r == Ok::<Option<Transfer>, TransferError>(None)
                },
                None => r == Err::<Option<Transfer>, TransferError>(
                    TransferError::ConvertFromBytesFail,
                ),
            },
    {
        let t = match Transfer::try_from_bytes(bytes) {
            Ok(t) => t,
            Err(_) => {
                return Err(TransferError::ConvertFromBytesFail);
            },
        };
        if crate::common::bytes_eq(&t.to, &self.email) {
            Ok(Some(t))
        } else {
            Ok(None)
        }
    }
}

} // verus!
