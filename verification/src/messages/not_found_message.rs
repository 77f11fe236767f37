//! The answer naming the requested items that could not be found.
use vstd::prelude::*;
use crate::errors::MessageError;
use crate::messages::header_message::{header_message_for, HeaderMessage};
use crate::messages::inv_message::{
    block_type, entries_of_type, inv_bytes, inv_parse, InvMessage, InvView,
};
use crate::var_len_int::varint_encode;

verus! {

/// The command name `notfound`.
pub open spec fn notfound_command() -> Seq<u8> {
    seq![110u8, 111u8, 116u8, 102u8, 111u8, 117u8, 110u8, 100u8, 0u8, 0u8, 0u8, 0u8]
}

/// The items that were not found, as an inventory.
pub struct NotFoundMessage {
    inv: InvMessage,
}

impl View for NotFoundMessage {
    type V = InvView;

    closed spec fn view(&self) -> InvView {
        self.inv@
    }
}

impl NotFoundMessage {
    /// The answer naming the blocks `hashes`, in order.
    pub fn from_block_hashes(hashes: Vec<[u8; 32]>) -> (r: NotFoundMessage)
        ensures
            r@ == (InvView {
                count: varint_encode(hashes@.len()),
                inventory: entries_of_type(hashes@, block_type()),
            }),
    {
        NotFoundMessage { inv: InvMessage::create_message_inventory_block_type(hashes) }
    }

    /// The bytes of the answer: those of its inventory.
    pub fn to_bytes(&self) -> (r: Vec<u8>)
        ensures
            r@ == inv_bytes(self@),
    {
        self.inv.to_bytes()
    }

    /// Reads an answer; it fails exactly where reading an inventory does.
    pub fn from_bytes(slice: &[u8]) -> (r: Result<NotFoundMessage, MessageError>)
        ensures
            match r {
                Ok(m) => inv_parse(slice@) == Some(m@),
                Err(e) => inv_parse(slice@) is None && e
                    == MessageError::ErrorCreatingNotFoundMessage,
            },
    {
        match InvMessage::from_bytes(slice) {
            Ok(inv) => Ok(NotFoundMessage { inv }),
            Err(_) => Err(MessageError::ErrorCreatingNotFoundMessage),
        }
    }

    /// The header announcing this answer under `notfound`.
    pub fn get_header_message(&self) -> (r: Result<HeaderMessage, MessageError>)
        ensures
            r matches Ok(h) && h@ == header_message_for(notfound_command(), inv_bytes(self@)),
    {
        let payload = self.to_bytes();
        let name = [110u8, 111u8, 116u8, 102u8, 111u8, 117u8, 110u8, 100u8, 0u8, 0u8, 0u8, 0u8];
        assert(name@ =~= notfound_command());
        Ok(HeaderMessage::with_command(name, payload.as_slice()))
    }

    /// The blocks that were not found, in order.
    pub fn get_block_hashes(&self) -> (r: Vec<[u8; 32]>)
        ensures
            r@.map_values(|h: [u8; 32]| h@) == crate::messages::inv_message::hashes_of_type(
                self@.inventory,
                block_type(),
            ),
    {
        self.inv.get_block_hashes()
    }
}

} // verus!
