//! `tx`: a transaction on its own.
use vstd::prelude::*;
use crate::errors::MessageError;
use crate::messages::header_message::{header_message_for, HeaderMessage};
use crate::transaction::{transaction_bytes, transaction_parse, Transaction};

verus! {

/// The command name `tx`.
pub open spec fn tx_command() -> Seq<u8> {
    seq![116u8, 120u8, 0u8, 0u8, 0u8, 0u8, 0u8, 0u8, 0u8, 0u8, 0u8, 0u8]
}

/// A message carrying one transaction.
pub struct TxMessage {
    pub tx: Transaction,
}

impl TxMessage {
    /// The message carrying `tx`.
    pub fn new(tx: Transaction) -> (r: TxMessage)
        ensures
            r.tx@ == tx@,
    {
        TxMessage { tx }
    }

    /// The bytes of the message: those of its transaction.
    pub fn to_bytes(&self) -> (r: Vec<u8>)
        ensures
            r@ == transaction_bytes(self.tx@),
    {
        self.tx.to_bytes()
    }

    /// Reads the transaction at the front of `slice`. A failure is reported
    /// as `ErrorCreatingBlockMessage`.
    pub fn from_bytes(slice: &[u8]) -> (r: Result<TxMessage, MessageError>)
        ensures
            match r {
                Ok(m) => transaction_parse(slice@) == Some(m.tx@),
                Err(e) => transaction_parse(slice@) is None && e
                    == MessageError::ErrorCreatingBlockMessage,
            },
    {
        match Transaction::from_bytes(slice) {
            Ok(tx) => Ok(TxMessage { tx }),
            Err(_) => Err(MessageError::ErrorCreatingBlockMessage),
        }
    }

    /// The header announcing this message under `tx`.
    pub fn get_header_message(&self) -> (r: Result<HeaderMessage, MessageError>)
        ensures
            r matches Ok(h) && h@ == header_message_for(tx_command(), transaction_bytes(self.tx@)),
    {
        let payload = self.to_bytes();
        let name = [116u8, 120u8, 0u8, 0u8, 0u8, 0u8, 0u8, 0u8, 0u8, 0u8, 0u8, 0u8];
        assert(name@ =~= tx_command());
        Ok(HeaderMessage::with_command(name, payload.as_slice()))
    }
}

} // verus!
