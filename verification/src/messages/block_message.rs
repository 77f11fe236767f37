//! `block`: a whole block.
use vstd::prelude::*;
use crate::blockchain::{block_bytes, block_consistent, block_parse, lemma_block_roundtrip, Block};
use crate::errors::MessageError;
use crate::messages::header_message::{header_message_for, HeaderMessage};

verus! {

/// The command name `block`.
pub open spec fn block_command() -> Seq<u8> {
    seq![98u8, 108u8, 111u8, 99u8, 107u8, 0u8, 0u8, 0u8, 0u8, 0u8, 0u8, 0u8]
}

/// A message carrying one block.
pub struct BlockMessage {
    pub block: Block,
}

impl BlockMessage {
    /// The message carrying `block`.
    pub fn new(block: Block) -> (r: BlockMessage)
        ensures
            r.block@ == block@,
    {
        BlockMessage { block }
    }

    /// A message carrying a copy of `block`, made by writing it out and
    /// reading it back. It succeeds on every consistent block.
    pub fn from(block: &Block) -> (r: Result<BlockMessage, MessageError>)
        ensures
            match r {
                Ok(m) => block_parse(block_bytes(block@)) == Some(m.block@),
                Err(e) => block_parse(block_bytes(block@)) is None && e
                    == MessageError::ErrorCreatingBlockMessage,
            },
            block_consistent(block@) ==> (r matches Ok(m) && m.block@ == block@),
    {
        let bytes = block.to_bytes();
        proof {
            if block_consistent(block@) {
                lemma_block_roundtrip(block@, Seq::empty());
                assert(block_bytes(block@) + Seq::empty() =~= block_bytes(block@));
            }
        }
        Self::from_bytes(bytes.as_slice())
    }

    /// The bytes of the message: those of its block.
    pub fn to_bytes(&self) -> (r: Vec<u8>)
        ensures
            r@ == block_bytes(self.block@),
    {
        self.block.to_bytes()
    }

    /// Reads the block at the front of `slice`.
    pub fn from_bytes(slice: &[u8]) -> (r: Result<BlockMessage, MessageError>)
        ensures
            match r {
                Ok(m) => block_parse(slice@) == Some(m.block@),
                Err(e) => block_parse(slice@) is None && e
                    == MessageError::ErrorCreatingBlockMessage,
            },
    {
        match Block::from_bytes(slice) {
            Ok(block) => Ok(BlockMessage { block }),
            Err(_) => Err(MessageError::ErrorCreatingBlockMessage),
        }
    }

    /// The header announcing this message under `block`.
    pub fn get_header_message(&self) -> (r: Result<HeaderMessage, MessageError>)
        ensures
            r matches Ok(h) && h@ == header_message_for(block_command(), block_bytes(self.block@)),
    {
        let payload = self.to_bytes();
        let name = [98u8, 108u8, 111u8, 99u8, 107u8, 0u8, 0u8, 0u8, 0u8, 0u8, 0u8, 0u8];
        assert(name@ =~= block_command());
        Ok(HeaderMessage::with_command(name, payload.as_slice()))
    }
}

} // verus!
