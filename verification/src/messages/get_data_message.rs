//! Requests for the blocks or transactions named by an inventory.
use vstd::prelude::*;
use crate::errors::MessageError;
use crate::messages::header_message::{header_message_for, HeaderMessage};
use crate::messages::inv_message::{
    block_type, entries_of_type, hashes_of_type, inv_bytes, inv_parse, transaction_type,
    InvMessage, InvView,
};
use crate::var_len_int::varint_encode;

verus! {

/// The command name `getdata`.
pub open spec fn getdata_command() -> Seq<u8> {
    seq![103u8, 101u8, 116u8, 100u8, 97u8, 116u8, 97u8, 0u8, 0u8, 0u8, 0u8, 0u8]
}

/// A request for data: an inventory of what is wanted.
pub struct GetDataMessage {
    inv: InvMessage,
}

impl View for GetDataMessage {
    type V = InvView;

    closed spec fn view(&self) -> InvView {
        self.inv@
    }
}

impl GetDataMessage {
    /// A request for the blocks `inventory_entries`, in order.
    pub fn create_message_inventory_block_type(inventory_entries: Vec<[u8; 32]>) -> (r:
        GetDataMessage)
        ensures
            r@ == (InvView {
                count: varint_encode(inventory_entries@.len()),
                inventory: entries_of_type(inventory_entries@, block_type()),
            }),
    {
        GetDataMessage { inv: InvMessage::create_message_inventory_block_type(inventory_entries) }
    }

    /// A request for the transactions `inventory_entries`, in order.
    pub fn create_message_inventory_transaction_type(inventory_entries: Vec<[u8; 32]>) -> (r:
        GetDataMessage)
        ensures
            r@ == (InvView {
                count: varint_encode(inventory_entries@.len()),
                inventory: entries_of_type(inventory_entries@, transaction_type()),
            }),
    {
        GetDataMessage {
            inv: InvMessage::create_message_inventory_transaction_type(inventory_entries),
        }
    }

    /// The bytes of the request: those of its inventory.
    pub fn to_bytes(&self) -> (r: Vec<u8>)
        ensures
            r@ == inv_bytes(self@),
    {
        self.inv.to_bytes()
    }

    /// Reads a request; it fails exactly where reading an inventory does.
    pub fn from_bytes(slice: &[u8]) -> (r: Result<GetDataMessage, MessageError>)
        ensures
            match r {
                Ok(m) => inv_parse(slice@) == Some(m@),
                Err(e) => inv_parse(slice@) is None && e
                    == MessageError::ErrorCreatingGetDataMessage,
            },
    {
        match InvMessage::from_bytes(slice) {
            Ok(inv) => Ok(GetDataMessage { inv }),
            Err(_) => Err(MessageError::ErrorCreatingGetDataMessage),
        }
    }

    /// The header announcing this request under `getdata`.
    pub fn get_header_message(&self) -> (r: Result<HeaderMessage, MessageError>)
        ensures
            r matches Ok(h) && h@ == header_message_for(getdata_command(), inv_bytes(self@)),
    {
        let payload = self.to_bytes();
        let name = [103u8, 101u8, 116u8, 100u8, 97u8, 116u8, 97u8, 0u8, 0u8, 0u8, 0u8, 0u8];
        assert(name@ =~= getdata_command());
        Ok(HeaderMessage::with_command(name, payload.as_slice()))
    }

    /// The requested blocks, in order.
    pub fn get_block_hashes(&self) -> (r: Vec<[u8; 32]>)
        ensures
            r@.map_values(|h: [u8; 32]| h@) == hashes_of_type(self@.inventory, block_type()),
    {
        self.inv.get_block_hashes()
    }

    /// The requested transactions, in order.
    pub fn get_transaction_hashes(&self) -> (r: Vec<[u8; 32]>)
        ensures
            r@.map_values(|h: [u8; 32]| h@) == hashes_of_type(
                self@.inventory,
                transaction_type(),
            ),
    {
        self.inv.get_transaction_hashes()
    }
}

} // verus!
