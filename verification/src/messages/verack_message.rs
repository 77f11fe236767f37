//! `verack`: the acknowledgement of a version message, with no payload.
use vstd::prelude::*;
use crate::errors::MessageError;
use crate::messages::header_message::{header_message_for, HeaderMessage};

verus! {

/// The command name `verack`.
pub open spec fn verack_command() -> Seq<u8> {
    seq![118u8, 101u8, 114u8, 97u8, 99u8, 107u8, 0u8, 0u8, 0u8, 0u8, 0u8, 0u8]
}

/// The acknowledgement that two nodes have exchanged version messages.
#[derive(Debug, PartialEq, Eq, Structural)]
pub struct VerACKMessage {}

impl VerACKMessage {
    /// A verack message.
    pub fn new() -> (r: Result<VerACKMessage, MessageError>)
        ensures
            r is Ok,
    {
        Ok(VerACKMessage {})
    }

    /// The payload of a verack: nothing.
    pub fn to_bytes(&self) -> (r: Vec<u8>)
        ensures
            r@ == Seq::<u8>::empty(),
    {
        Vec::new()
    }

    /// A verack has no payload: any byte is an error.
    pub fn from_bytes(slice: &[u8]) -> (r: Result<VerACKMessage, MessageError>)
        ensures
            r is Ok <==> slice@.len() == 0,
            r is Err ==> r == Err::<VerACKMessage, _>(MessageError::ErrorCreatingVerAckMessage),
    {
        if slice.len() != 0 {
            return Err(MessageError::ErrorCreatingVerAckMessage);
        }
        Ok(VerACKMessage {})
    }

    /// The header announcing a verack: the command `verack` and an empty
    /// payload.
    pub fn get_header_message(&self) -> (r: Result<HeaderMessage, MessageError>)
        ensures
            r matches Ok(h) && h@ == header_message_for(verack_command(), Seq::empty()),
    {
        let payload: Vec<u8> = Vec::new();
        let name = [118u8, 101u8, 114u8, 97u8, 99u8, 107u8, 0u8, 0u8, 0u8, 0u8, 0u8, 0u8];
        assert(name@ =~= verack_command());
        Ok(HeaderMessage::with_command(name, payload.as_slice()))
    }
}

} // verus!
