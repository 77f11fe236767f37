//! The 24-byte header that precedes every message on the wire.
use vstd::prelude::*;
use vstd::string::StringSliceAdditionalSpecFns;
use vstd::utf8::{decode_utf8, valid_utf8};
use crate::codec::{lemma_u32_le, push_all, push_u32_le, read_array12, read_array4, read_u32_le,
    u32_le, u32_of_le};
use crate::errors::MessageError;
use crate::hashing::{double_sha256, sha256d_hash};
use crate::text::string_from_utf8;

verus! {

pub const MESAGE_HEADER_SIZE: usize = 24;

pub const COMMAND_NAME_SIZE: usize = 12;

/// The header of a message: the network's start string, the command name
/// padded with zero bytes, the size of the payload and its checksum.
#[derive(Debug, PartialEq, Eq, Clone)]
pub struct HeaderMessage {
    start_string: [u8; 4],
    command_name: [u8; 12],
    payload_size: u32,
    checksum: [u8; 4],
}

/// A header as plain values.
pub struct HeaderMessageView {
    pub start_string: Seq<u8>,
    pub command_name: Seq<u8>,
    pub payload_size: u32,
    pub checksum: Seq<u8>,
}

impl View for HeaderMessage {
    type V = HeaderMessageView;

    closed spec fn view(&self) -> HeaderMessageView {
        HeaderMessageView {
            start_string: self.start_string@,
            command_name: self.command_name@,
            payload_size: self.payload_size,
            checksum: self.checksum@,
        }
    }
}

/// The start string of the test network.
pub open spec fn testnet_start_string() -> Seq<u8> {
    seq![0x0bu8, 0x11u8, 0x09u8, 0x07u8]
}

/// `name` followed by zero bytes up to 12 bytes.
pub open spec fn padded_command(name: Seq<u8>) -> Seq<u8> {
    name + Seq::new((12 - name.len()) as nat, |i: int| 0u8)
}

/// The checksum of a payload: the first 4 bytes of its double SHA-256.
pub open spec fn payload_checksum(payload: Seq<u8>) -> Seq<u8> {
    double_sha256(payload).take(4)
}

/// The header that announces `payload` under the command `name`.
pub open spec fn header_message_for(name: Seq<u8>, payload: Seq<u8>) -> HeaderMessageView {
    HeaderMessageView {
        start_string: testnet_start_string(),
        command_name: padded_command(name),
        payload_size: payload.len() as u32,
        checksum: payload_checksum(payload),
    }
}

/// The field widths of a header.
pub open spec fn header_message_wf(h: HeaderMessageView) -> bool {
    h.start_string.len() == 4 && h.command_name.len() == 12 && h.checksum.len() == 4
}

/// The 24 bytes of a header.
pub open spec fn header_message_bytes(h: HeaderMessageView) -> Seq<u8> {
    h.start_string + h.command_name + u32_le(h.payload_size) + h.checksum
}

/// The header held in 24 bytes.
pub open spec fn header_message_parse(s: Seq<u8>) -> HeaderMessageView {
    HeaderMessageView {
        start_string: s.subrange(0, 4),
        command_name: s.subrange(4, 16),
        payload_size: u32_of_le(s.subrange(16, 20)),
        checksum: s.subrange(20, 24),
    }
}

/// The command name read as text: the UTF-8 string its 12 bytes encode, or
/// 12 NUL characters when they are not valid UTF-8.
pub open spec fn command_text(command: Seq<u8>) -> Seq<char> {
    if valid_utf8(command) {
        decode_utf8(command)
    } else {
        Seq::new(12, |i: int| '\0')
    }
}

fn testnet_start_bytes() -> (r: [u8; 4])
    ensures
        r@ == testnet_start_string(),
{
    let r = [0x0bu8, 0x11u8, 0x09u8, 0x07u8];
    assert(r@ =~= testnet_start_string());
    r
}

impl HeaderMessage {
    /// The header for `payload` sent under `command_name`. A name longer
    /// than 12 bytes is an error.
    pub fn new(command_name: &str, payload: &Vec<u8>) -> (r: Result<HeaderMessage, MessageError>)
        ensures
            match r {
                Ok(h) => command_name.spec_bytes().len() <= COMMAND_NAME_SIZE && h@
                    == header_message_for(command_name.spec_bytes(), payload@),
                Err(e) => command_name.spec_bytes().len() > COMMAND_NAME_SIZE && e
                    == MessageError::ErrorCreatingHeaderMessage,
            },
    {
        let name = command_name.as_bytes();
        if name.len() > COMMAND_NAME_SIZE {
            return Err(MessageError::ErrorCreatingHeaderMessage);
        }
        let mut command_bytes = [0u8; 12];
        let mut i: usize = 0;
        while i < name.len()
            invariant
                i <= name@.len() <= 12,
                command_bytes@.len() == 12,
                forall|j: int| 0 <= j < i ==> command_bytes@[j] == name@[j],
                forall|j: int| name@.len() <= j < 12 ==> command_bytes@[j] == 0,
            decreases name@.len() - i,
        {
            command_bytes[i] = name[i];
            i = i + 1;
        }
        assert(command_bytes@ =~= padded_command(name@));
        let payload_size = payload.len() as u32;
        let hash = sha256d_hash(payload.as_slice());
        let checksum = [hash[0], hash[1], hash[2], hash[3]];
        assert(checksum@ =~= payload_checksum(payload@));
        let h = HeaderMessage {
            start_string: testnet_start_bytes(),
            command_name: command_bytes,
            payload_size,
            checksum,
        };
        Ok(h)
    }

    /// The header for `payload` sent under a command name of exactly 12
    /// bytes.
    pub fn with_command(command_name: [u8; 12], payload: &[u8]) -> (r: HeaderMessage)
        ensures
            r@ == header_message_for(command_name@, payload@),
    {
        assert(padded_command(command_name@) =~= command_name@);
        let payload_size = payload.len() as u32;
        let hash = sha256d_hash(payload);
        let checksum = [hash[0], hash[1], hash[2], hash[3]];
        assert(checksum@ =~= payload_checksum(payload@));
        HeaderMessage {
            start_string: testnet_start_bytes(),
            command_name,
            payload_size,
            checksum,
        }
    }

    /// The 24 bytes of the header.
    pub fn to_bytes(&self) -> (r: Vec<u8>)
        ensures
            r@ == header_message_bytes(self@),
            r@.len() == MESAGE_HEADER_SIZE,
    {
        let mut bytes_vector: Vec<u8> = Vec::new();
        push_all(&mut bytes_vector, self.start_string.as_slice());
        push_all(&mut bytes_vector, self.command_name.as_slice());
        push_u32_le(&mut bytes_vector, self.payload_size);
        push_all(&mut bytes_vector, self.checksum.as_slice());
        proof {
            lemma_u32_le(self.payload_size, Seq::empty());
        }
        bytes_vector
    }

    /// Reads a header from exactly 24 bytes; any other length is an error.
    pub fn from_bytes(slice: &[u8]) -> (r: Result<HeaderMessage, MessageError>)
        ensures
            match r {
                Ok(h) => slice@.len() == MESAGE_HEADER_SIZE && h@ == header_message_parse(slice@),
                Err(e) => slice@.len() != MESAGE_HEADER_SIZE && e
                    == MessageError::ErrorCreatingHeaderMessage,
            },
    {
        if slice.len() != MESAGE_HEADER_SIZE {
            return Err(MessageError::ErrorCreatingHeaderMessage);
        }
        Ok(
            HeaderMessage {
                start_string: read_array4(slice, 0),
                command_name: read_array12(slice, 4),
                payload_size: read_u32_le(slice, 16),
                checksum: read_array4(slice, 20),
            },
        )
    }

    /// A copy of this header.
    pub fn get_header_message(&self) -> (r: Result<HeaderMessage, MessageError>)
        ensures
            r matches Ok(h) && h@ == self@,
    {
        Ok(HeaderMessage {
            start_string: self.start_string,
            command_name: self.command_name,
            payload_size: self.payload_size,
            checksum: self.checksum,
        })
    }

    /// The size of the payload that follows the header.
    pub fn get_payload_size(&self) -> (r: u32)
        ensures
            r == self@.payload_size,
    {
        self.payload_size
    }

    /// The command name as text (see `command_text`).
    pub fn get_command_name(&self) -> (r: String)
        ensures
            r@ == command_text(self@.command_name),
    {
        let mut bytes: Vec<u8> = Vec::new();
        push_all(&mut bytes, self.command_name.as_slice());
        match string_from_utf8(bytes) {
            Some(s) => s,
            None => {
                let s = String::from_str("\0\0\0\0\0\0\0\0\0\0\0\0");
                proof {
                    reveal_strlit("\0\0\0\0\0\0\0\0\0\0\0\0");
                    assert(s@ =~= Seq::new(12, |i: int| '\0'));
                }
                s
            },
        }
    }

    /// The command name's 12 bytes.
    pub fn command_bytes(&self) -> (r: [u8; 12])
        ensures
            r@ == self@.command_name,
    {
        self.command_name
    }
}

/// Reading the bytes of a header gives the header back, and 24 bytes are
/// the bytes of the header read from them.
pub proof fn lemma_header_message_roundtrip(h: HeaderMessageView, s: Seq<u8>)
    requires
        header_message_wf(h),
    ensures
        header_message_bytes(h).len() == MESAGE_HEADER_SIZE,
        header_message_parse(header_message_bytes(h)) == h,
        s.len() == MESAGE_HEADER_SIZE ==> header_message_wf(header_message_parse(s))
            && header_message_bytes(header_message_parse(s)) == s,
{
    lemma_u32_le(h.payload_size, s.subrange(16, 20));
    let b = header_message_bytes(h);
    assert(b.subrange(0, 4) =~= h.start_string);
    assert(b.subrange(4, 16) =~= h.command_name);
    assert(b.subrange(16, 20) =~= u32_le(h.payload_size));
    assert(b.subrange(20, 24) =~= h.checksum);
    if s.len() == MESAGE_HEADER_SIZE {
        assert(header_message_bytes(header_message_parse(s)) =~= s);
    }
}

} // verus!
