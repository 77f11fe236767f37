//! `version`: the first message of a handshake, describing the sender.
use vstd::prelude::*;
use vstd::slice::slice_subrange;
use crate::codec::{
    copy_range, i32_le, i32_of_le, i64_le, i64_of_le, lemma_signed_le, lemma_u16_le, lemma_u64_le,
    push_all, push_i32_le, push_i64_le, push_u16_be, push_u64_le, read_array16, read_i32_le,
    read_i64_le, read_u16_be, read_u64_le, u16_be, u16_of_be, u64_le, u64_of_le,
};
use crate::environment::{now_timestamp, random_u64};
use crate::errors::MessageError;
use crate::messages::header_message::{header_message_for, HeaderMessage};
use crate::var_len_int::{
    lemma_varint_parse_prefix, lemma_varint_parse_result, varint_encode, varint_parse,
    varint_value, varint_wf, VarLenInt,
};

verus! {

pub const NODE_NETWORK: u64 = 1;

pub const MINIMAL_VERSION_MESSAGE_SIZE: usize = 86;

/// The command name `version`.
pub open spec fn version_command() -> Seq<u8> {
    seq![118u8, 101u8, 114u8, 115u8, 105u8, 111u8, 110u8, 0u8, 0u8, 0u8, 0u8, 0u8]
}

/// A version message: what the sender is and how to reach both ends.
#[derive(Debug, PartialEq, Eq)]
pub struct VersionMessage {
    version: i32,
    services: u64,
    timestamp: i64,
    addr_recv_services: u64,
    receiver_address: [u8; 16],
    receiver_port: u16,
    addr_sender_services: u64,
    sender_address: [u8; 16],
    sender_port: u16,
    nonce: u64,
    user_agent_length: VarLenInt,
    user_agent: Vec<u8>,
    start_height: i32,
    relay: u8,
}

/// A version message as plain values.
pub struct VersionView {
    pub version: i32,
    pub services: u64,
    pub timestamp: i64,
    pub addr_recv_services: u64,
    pub receiver_address: Seq<u8>,
    pub receiver_port: u16,
    pub addr_sender_services: u64,
    pub sender_address: Seq<u8>,
    pub sender_port: u16,
    pub nonce: u64,
    pub user_agent_length: Seq<u8>,
    pub user_agent: Seq<u8>,
    pub start_height: i32,
    pub relay: u8,
}

impl View for VersionMessage {
    type V = VersionView;

    closed spec fn view(&self) -> VersionView {
        VersionView {
            version: self.version,
            services: self.services,
            timestamp: self.timestamp,
            addr_recv_services: self.addr_recv_services,
            receiver_address: self.receiver_address@,
            receiver_port: self.receiver_port,
            addr_sender_services: self.addr_sender_services,
            sender_address: self.sender_address@,
            sender_port: self.sender_port,
            nonce: self.nonce,
            user_agent_length: self.user_agent_length@,
            user_agent: self.user_agent@,
            start_height: self.start_height,
            relay: self.relay,
        }
    }
}

/// The first 80 bytes of a version message: everything before the user agent.
pub open spec fn version_fixed_bytes(v: VersionView) -> Seq<u8> {
    i32_le(v.version) + u64_le(v.services) + i64_le(v.timestamp) + u64_le(v.addr_recv_services)
        + v.receiver_address + u16_be(v.receiver_port) + u64_le(v.addr_sender_services)
        + v.sender_address + u16_be(v.sender_port) + u64_le(v.nonce)
}

/// The user agent as written: only when its length is not zero.
pub open spec fn written_user_agent(v: VersionView) -> Seq<u8> {
    if varint_value(v.user_agent_length) > 0 {
        v.user_agent
    } else {
        Seq::empty()
    }
}

/// The bytes of a version message.
pub open spec fn version_bytes(v: VersionView) -> Seq<u8> {
    version_fixed_bytes(v) + v.user_agent_length + written_user_agent(v) + i32_le(
        v.start_height,
    ) + seq![v.relay]
}

/// The version message that `s` holds: 80 fixed bytes, the length of the user
/// agent, the user agent up to the last 5 bytes, the start height and the
/// relay flag. At least 86 bytes are needed.
pub open spec fn version_parse(s: Seq<u8>) -> Option<VersionView> {
    if s.len() < MINIMAL_VERSION_MESSAGE_SIZE {
        None
    } else {
        match varint_parse(s.skip(80)) {
            None => None,
            Some(c) => if 80 + c.len() > s.len() - 5 {
                None
            } else {
                Some(
                    VersionView {
                        version: i32_of_le(s.subrange(0, 4)),
                        services: u64_of_le(s.subrange(4, 12)),
                        timestamp: i64_of_le(s.subrange(12, 20)),
                        addr_recv_services: u64_of_le(s.subrange(20, 28)),
                        receiver_address: s.subrange(28, 44),
                        receiver_port: u16_of_be(s.subrange(44, 46)),
                        addr_sender_services: u64_of_le(s.subrange(46, 54)),
                        sender_address: s.subrange(54, 70),
                        sender_port: u16_of_be(s.subrange(70, 72)),
                        nonce: u64_of_le(s.subrange(72, 80)),
                        user_agent_length: c,
                        user_agent: s.subrange(80 + c.len() as int, s.len() - 5),
                        start_height: i32_of_le(s.subrange(s.len() - 5, s.len() - 1)),
                        relay: s[s.len() - 1],
                    },
                )
            },
        }
    }
}

/// A version message that reads back as itself: 16-byte addresses, a
/// well-formed length, and no user agent when that length is zero.
pub open spec fn version_consistent(v: VersionView) -> bool {
    &&& v.receiver_address.len() == 16
    &&& v.sender_address.len() == 16
    &&& varint_wf(v.user_agent_length)
    &&& varint_value(v.user_agent_length) == 0 ==> v.user_agent.len() == 0
}

/// The IPv6 form of an IPv4 address: ten zero bytes, two 0xff bytes, then
/// the four octets.
pub open spec fn ipv6_mapped(octets: Seq<u8>) -> Seq<u8> {
    seq![0u8, 0u8, 0u8, 0u8, 0u8, 0u8, 0u8, 0u8, 0u8, 0u8, 0xffu8, 0xffu8] + octets
}

/// The IPv6 form of the IPv4 address `octets`.
pub fn ipv4_to_ipv6_mapped(octets: [u8; 4]) -> (r: [u8; 16])
    ensures
        r@ == ipv6_mapped(octets@),
{
    let r = [
        0u8,
        0u8,
        0u8,
        0u8,
        0u8,
        0u8,
        0u8,
        0u8,
        0u8,
        0u8,
        0xffu8,
        0xffu8,
        octets[0],
        octets[1],
        octets[2],
        octets[3],
    ];
    assert(r@ =~= ipv6_mapped(octets@));
    r
}

impl VersionMessage {
    /// A version message from the sender to the receiver, both given as
    /// 16-byte (IPv6 or IPv4-mapped) addresses and ports. It announces the
    /// full-node service, the current time, a random nonce, no user agent, a
    /// start height of zero and the relay flag.
    pub fn new(
        version: i32,
        receiver_address: [u8; 16],
        receiver_port: u16,
        sender_address: [u8; 16],
        sender_port: u16,
    ) -> (r: Result<VersionMessage, MessageError>)
        ensures
            r matches Ok(m) && {
                &&& m@.version == version
                &&& m@.services == NODE_NETWORK
                &&& m@.addr_recv_services == 0
                &&& m@.receiver_address == receiver_address@
                &&& m@.receiver_port == receiver_port
                &&& m@.addr_sender_services == NODE_NETWORK
                &&& m@.sender_address == sender_address@
                &&& m@.sender_port == sender_port
                &&& m@.user_agent_length == varint_encode(0)
                &&& m@.user_agent == Seq::<u8>::empty()
                &&& m@.start_height == 0
                &&& m@.relay == 1
            },
    {
        let m = VersionMessage {
            version,
            services: NODE_NETWORK,
            timestamp: now_timestamp(),
            addr_recv_services: 0,
            receiver_address,
            receiver_port,
            addr_sender_services: NODE_NETWORK,
            sender_address,
            sender_port,
            nonce: random_u64(),
            user_agent_length: VarLenInt::new(0),
            user_agent: Vec::new(),
            start_height: 0,
            relay: 1,
        };
        Ok(m)
    }

    /// The bytes of the message. The user agent is written only when its
    /// length is not zero.
    pub fn to_bytes(&self) -> (r: Vec<u8>)
        ensures
            r@ == version_bytes(self@),
    {
        let mut b: Vec<u8> = Vec::new();
        push_i32_le(&mut b, self.version);
        push_u64_le(&mut b, self.services);
        push_i64_le(&mut b, self.timestamp);
        push_u64_le(&mut b, self.addr_recv_services);
        push_all(&mut b, self.receiver_address.as_slice());
        push_u16_be(&mut b, self.receiver_port);
        push_u64_le(&mut b, self.addr_sender_services);
        push_all(&mut b, self.sender_address.as_slice());
        push_u16_be(&mut b, self.sender_port);
        push_u64_le(&mut b, self.nonce);
        let count = self.user_agent_length.to_bytes();
        push_all(&mut b, count.as_slice());
        if self.user_agent_length.to_u64() > 0 {
            push_all(&mut b, self.user_agent.as_slice());
        }
        push_i32_le(&mut b, self.start_height);
        b.push(self.relay);
        assert(b@ =~= version_bytes(self@));
        b
    }

    /// Reads a version message (see `version_parse`); fewer than 86 bytes, a
    /// cut length or a user agent that runs into the last five bytes are
    /// errors.
    pub fn from_bytes(slice: &[u8]) -> (r: Result<VersionMessage, MessageError>)
        ensures
            match r {
                Ok(m) => version_parse(slice@) == Some(m@),
                Err(e) => version_parse(slice@) is None && e
                    == MessageError::ErrorCreatingVersionMessage,
            },
    {
        let len = slice.len();
        if len < MINIMAL_VERSION_MESSAGE_SIZE {
            return Err(MessageError::ErrorCreatingVersionMessage);
        }
        let rest = slice_subrange(slice, 80, len);
        assert(rest@ =~= slice@.skip(80));
        let user_agent_length = match VarLenInt::from_bytes(rest) {
            Some(c) => c,
            None => return Err(MessageError::ErrorCreatingVersionMessage),
        };
        proof {
            lemma_varint_parse_result(rest@);
        }
        let amt = user_agent_length.amount_of_bytes();
        if 80 + amt > len - 5 {
            return Err(MessageError::ErrorCreatingVersionMessage);
        }
        let user_agent = copy_range(slice, 80 + amt, len - 5 - (80 + amt));
        let m = VersionMessage {
            version: read_i32_le(slice, 0),
            services: read_u64_le(slice, 4),
            timestamp: read_i64_le(slice, 12),
            addr_recv_services: read_u64_le(slice, 20),
            receiver_address: read_array16(slice, 28),
            receiver_port: read_u16_be(slice, 44),
            addr_sender_services: read_u64_le(slice, 46),
            sender_address: read_array16(slice, 54),
            sender_port: read_u16_be(slice, 70),
            nonce: read_u64_le(slice, 72),
            user_agent_length,
            user_agent,
            start_height: read_i32_le(slice, len - 5),
            relay: slice[len - 1],
        };
        Ok(m)
    }

    /// The header announcing this message under `version`.
    pub fn get_header_message(&self) -> (r: Result<HeaderMessage, MessageError>)
        ensures
            r matches Ok(h) && h@ == header_message_for(version_command(), version_bytes(self@)),
    {
        let payload = self.to_bytes();
        let name = [118u8, 101u8, 114u8, 115u8, 105u8, 111u8, 110u8, 0u8, 0u8, 0u8, 0u8, 0u8];
        assert(name@ =~= version_command());
        Ok(HeaderMessage::with_command(name, payload.as_slice()))
    }

    /// Replaces the user agent and its length.
    pub fn set_user_agent(&mut self, user_agent_length: VarLenInt, user_agent: Vec<u8>)
        ensures
            final(self)@ == (VersionView {
                user_agent_length: user_agent_length@,
                user_agent: user_agent@,
                ..old(self)@
            }),
    {
        self.user_agent_length = user_agent_length;
        self.user_agent = user_agent;
    }

    /// The protocol version.
    pub fn version(&self) -> (r: i32)
        ensures
            r == self@.version,
    {
        self.version
    }

    /// When the message was made, in seconds since the Unix epoch.
    pub fn timestamp(&self) -> (r: i64)
        ensures
            r == self@.timestamp,
    {
        self.timestamp
    }

    /// The random nonce of the message.
    pub fn nonce(&self) -> (r: u64)
        ensures
            r == self@.nonce,
    {
        self.nonce
    }
}

/// Where each fixed field lies in the first 80 bytes of a version message.
#[verifier::spinoff_prover]
#[verifier::rlimit(60)]
proof fn lemma_version_fixed_layout(v: VersionView)
    requires
        v.receiver_address.len() == 16,
        v.sender_address.len() == 16,
    ensures
        version_fixed_bytes(v).len() == 80,
        version_fixed_bytes(v).subrange(0, 4) == i32_le(v.version),
        version_fixed_bytes(v).subrange(4, 12) == u64_le(v.services),
        version_fixed_bytes(v).subrange(12, 20) == i64_le(v.timestamp),
        version_fixed_bytes(v).subrange(20, 28) == u64_le(v.addr_recv_services),
        version_fixed_bytes(v).subrange(28, 44) == v.receiver_address,
        version_fixed_bytes(v).subrange(44, 46) == u16_be(v.receiver_port),
        version_fixed_bytes(v).subrange(46, 54) == u64_le(v.addr_sender_services),
        version_fixed_bytes(v).subrange(54, 70) == v.sender_address,
        version_fixed_bytes(v).subrange(70, 72) == u16_be(v.sender_port),
        version_fixed_bytes(v).subrange(72, 80) == u64_le(v.nonce),
{
    lemma_signed_le(v.version, v.timestamp);
    lemma_u64_le(v.services, seq![]);
    lemma_u64_le(v.addr_recv_services, seq![]);
    lemma_u64_le(v.addr_sender_services, seq![]);
    lemma_u64_le(v.nonce, seq![]);
    lemma_u16_le(v.receiver_port, seq![]);
    lemma_u16_le(v.sender_port, seq![]);
    let a1 = i32_le(v.version) + u64_le(v.services);
    let a2 = a1 + i64_le(v.timestamp);
    let a3 = a2 + u64_le(v.addr_recv_services);
    let a4 = a3 + v.receiver_address;
    let a5 = a4 + u16_be(v.receiver_port);
    let a6 = a5 + u64_le(v.addr_sender_services);
    let a7 = a6 + v.sender_address;
    let a8 = a7 + u16_be(v.sender_port);
    let f = a8 + u64_le(v.nonce);
    assert(f == version_fixed_bytes(v));
    assert(a1.subrange(0, 4) =~= i32_le(v.version));
    assert(a1.subrange(4, 12) =~= u64_le(v.services));
    assert(a2.subrange(12, 20) =~= i64_le(v.timestamp));
    assert(a3.subrange(20, 28) =~= u64_le(v.addr_recv_services));
    assert(a4.subrange(28, 44) =~= v.receiver_address);
    assert(a5.subrange(44, 46) =~= u16_be(v.receiver_port));
    assert(a6.subrange(46, 54) =~= u64_le(v.addr_sender_services));
    assert(a7.subrange(54, 70) =~= v.sender_address);
    assert(a8.subrange(70, 72) =~= u16_be(v.sender_port));
    assert(f.subrange(72, 80) =~= u64_le(v.nonce));
    assert(f.subrange(0, 4) =~= a1.subrange(0, 4));
    assert(f.subrange(4, 12) =~= a1.subrange(4, 12));
    assert(f.subrange(12, 20) =~= a2.subrange(12, 20));
    assert(f.subrange(20, 28) =~= a3.subrange(20, 28));
    assert(f.subrange(28, 44) =~= a4.subrange(28, 44));
    assert(f.subrange(44, 46) =~= a5.subrange(44, 46));
    assert(f.subrange(46, 54) =~= a6.subrange(46, 54));
    assert(f.subrange(54, 70) =~= a7.subrange(54, 70));
    assert(f.subrange(70, 72) =~= a8.subrange(70, 72));
}

/// The first 80 bytes of a version message are read back as its fixed
/// fields.
#[verifier::spinoff_prover]
#[verifier::rlimit(60)]
proof fn lemma_version_fixed(v: VersionView, s: Seq<u8>)
    requires
        v.receiver_address.len() == 16,
        v.sender_address.len() == 16,
        s.len() >= 80,
        s.take(80) == version_fixed_bytes(v),
    ensures
        i32_of_le(s.subrange(0, 4)) == v.version,
        u64_of_le(s.subrange(4, 12)) == v.services,
        i64_of_le(s.subrange(12, 20)) == v.timestamp,
        u64_of_le(s.subrange(20, 28)) == v.addr_recv_services,
        s.subrange(28, 44) == v.receiver_address,
        u16_of_be(s.subrange(44, 46)) == v.receiver_port,
        u64_of_le(s.subrange(46, 54)) == v.addr_sender_services,
        s.subrange(54, 70) == v.sender_address,
        u16_of_be(s.subrange(70, 72)) == v.sender_port,
        u64_of_le(s.subrange(72, 80)) == v.nonce,
{
    lemma_version_fixed_layout(v);
    lemma_signed_le(v.version, v.timestamp);
    lemma_u64_le(v.services, seq![]);
    lemma_u64_le(v.addr_recv_services, seq![]);
    lemma_u64_le(v.addr_sender_services, seq![]);
    lemma_u64_le(v.nonce, seq![]);
    lemma_u16_le(v.receiver_port, seq![]);
    lemma_u16_le(v.sender_port, seq![]);
    let f = version_fixed_bytes(v);
    assert(s.subrange(0, 4) =~= f.subrange(0, 4));
    assert(s.subrange(4, 12) =~= f.subrange(4, 12));
    assert(s.subrange(12, 20) =~= f.subrange(12, 20));
    assert(s.subrange(20, 28) =~= f.subrange(20, 28));
    assert(s.subrange(28, 44) =~= f.subrange(28, 44));
    assert(s.subrange(44, 46) =~= f.subrange(44, 46));
    assert(s.subrange(46, 54) =~= f.subrange(46, 54));
    assert(s.subrange(54, 70) =~= f.subrange(54, 70));
    assert(s.subrange(70, 72) =~= f.subrange(70, 72));
    assert(s.subrange(72, 80) =~= f.subrange(72, 80));
}

/// The law of the version format: a consistent version message is read back
/// from its bytes.
#[verifier::spinoff_prover]
#[verifier::rlimit(60)]
pub proof fn lemma_version_roundtrip(v: VersionView)
    requires
        version_consistent(v),
    ensures
        version_parse(version_bytes(v)) == Some(v),
{
    let s = version_bytes(v);
    let f = version_fixed_bytes(v);
    let ua = written_user_agent(v);
    let tail = ua + i32_le(v.start_height) + seq![v.relay];
    lemma_signed_le(v.start_height, 0);
    lemma_u16_le(0, seq![]);
    lemma_u64_le(0, seq![]);
    lemma_version_fixed_layout(v);
    assert(s =~= f + (v.user_agent_length + tail));
    assert(s.take(80) =~= f);
    lemma_version_fixed(v, s);
    assert(s.skip(80) =~= v.user_agent_length + tail);
    lemma_varint_parse_prefix(v.user_agent_length, tail);
    let c = v.user_agent_length;
    assert(ua =~= v.user_agent);
    assert(s.subrange(80 + c.len() as int, s.len() - 5) =~= v.user_agent);
    assert(s.subrange(s.len() - 5, s.len() - 1) =~= i32_le(v.start_height));
}

} // verus!
