//! `ping` and its answer `pong`, which carry an 8-byte nonce.
use vstd::prelude::*;
use crate::codec::push_all;
use crate::errors::MessageError;
use crate::messages::header_message::{header_message_for, HeaderMessage};

verus! {

pub const NONCE_SIZE: usize = 8;

/// The command name `ping`.
pub open spec fn ping_command() -> Seq<u8> {
    seq![112u8, 105u8, 110u8, 103u8, 0u8, 0u8, 0u8, 0u8, 0u8, 0u8, 0u8, 0u8]
}

/// The command name `pong`.
pub open spec fn pong_command() -> Seq<u8> {
    seq![112u8, 111u8, 110u8, 103u8, 0u8, 0u8, 0u8, 0u8, 0u8, 0u8, 0u8, 0u8]
}

fn read_nonce(slice: &[u8]) -> (r: [u8; 8])
    requires
        slice@.len() >= 8,
    ensures
        r@ == slice@.take(8),
{
    let r = [slice[0], slice[1], slice[2], slice[3], slice[4], slice[5], slice[6], slice[7]];
    assert(r@ =~= slice@.take(8));
    r
}

/// A ping: a nonce that the peer sends back in a pong.
pub struct PingMessage {
    nonce: [u8; 8],
}

/// The answer to a ping, with the ping's nonce.
pub struct PongMessage {
    nonce: [u8; 8],
}

impl View for PingMessage {
    type V = Seq<u8>;

    closed spec fn view(&self) -> Seq<u8> {
        self.nonce@
    }
}

impl View for PongMessage {
    type V = Seq<u8>;

    closed spec fn view(&self) -> Seq<u8> {
        self.nonce@
    }
}

impl PingMessage {
    /// The bytes of the ping: its nonce.
    pub fn to_bytes(&self) -> (r: Vec<u8>)
        ensures
            r@ == self@,
    {
        let mut v: Vec<u8> = Vec::new();
        push_all(&mut v, self.nonce.as_slice());
        v
    }

    /// Reads a ping: the slice must be exactly its 8-byte nonce; any
    /// other length is an error.
    pub fn from_bytes(slice: &[u8]) -> (r: Result<PingMessage, MessageError>)
        ensures
            match r {
                Ok(m) => slice@.len() == NONCE_SIZE && m@ == slice@,
                Err(e) => slice@.len() != NONCE_SIZE && e == MessageError::ErrorCreatingPingMessage,
            },
    {
        if slice.len() != NONCE_SIZE {
            return Err(MessageError::ErrorCreatingPingMessage);
        }
        let nonce = read_nonce(slice);
        assert(slice@.take(8) =~= slice@);
        Ok(PingMessage { nonce })
    }

    /// The header announcing this ping.
    pub fn get_header_message(&self) -> (r: Result<HeaderMessage, MessageError>)
        ensures
            r matches Ok(h) && h@ == header_message_for(ping_command(), self@),
    {
        let payload = self.to_bytes();
        let name = [112u8, 105u8, 110u8, 103u8, 0u8, 0u8, 0u8, 0u8, 0u8, 0u8, 0u8, 0u8];
        assert(name@ =~= ping_command());
        Ok(HeaderMessage::with_command(name, payload.as_slice()))
    }

    /// The pong that answers this ping: the same nonce.
    pub fn reply_pong(&self) -> (r: PongMessage)
        ensures
            r@ == self@,
    {
        PongMessage::from(self.nonce)
    }
}

impl PongMessage {
    /// A pong carrying `nonce`.
    pub fn from(nonce: [u8; 8]) -> (r: PongMessage)
        ensures
            r@ == nonce@,
    {
        PongMessage { nonce }
    }

    /// The bytes of the pong: its nonce.
    pub fn to_bytes(&self) -> (r: Vec<u8>)
        ensures
            r@ == self@,
    {
        let mut v: Vec<u8> = Vec::new();
        push_all(&mut v, self.nonce.as_slice());
        v
    }

    /// Reads a pong: the slice must be exactly its 8-byte nonce; any
    /// other length is an error.
    pub fn from_bytes(slice: &[u8]) -> (r: Result<PongMessage, MessageError>)
        ensures
            match r {
                Ok(m) => slice@.len() == NONCE_SIZE && m@ == slice@,
                Err(e) => slice@.len() != NONCE_SIZE && e == MessageError::ErrorCreatingPongMessage,
            },
    {
        if slice.len() != NONCE_SIZE {
            return Err(MessageError::ErrorCreatingPongMessage);
        }
        let nonce = read_nonce(slice);
        assert(slice@.take(8) =~= slice@);
        Ok(PongMessage { nonce })
    }

    /// The header announcing this pong.
    pub fn get_header_message(&self) -> (r: Result<HeaderMessage, MessageError>)
        ensures
            r matches Ok(h) && h@ == header_message_for(pong_command(), self@),
    {
        let payload = self.to_bytes();
        let name = [112u8, 111u8, 110u8, 103u8, 0u8, 0u8, 0u8, 0u8, 0u8, 0u8, 0u8, 0u8];
        assert(name@ =~= pong_command());
        Ok(HeaderMessage::with_command(name, payload.as_slice()))
    }
}

} // verus!
