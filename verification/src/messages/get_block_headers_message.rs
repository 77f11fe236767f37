//! `getheaders`: a request for the headers that follow the hashes it names.
use vstd::prelude::*;
use vstd::slice::slice_subrange;
use crate::codec::{lemma_u32_le, push_all, push_u32_le, read_hash, read_u32_le, u32_le, u32_of_le};
use crate::errors::MessageError;
use crate::messages::header_message::{header_message_for, HeaderMessage};
use crate::var_len_int::{
    lemma_varint_parse_prefix, lemma_varint_parse_result, varint_encode, varint_parse,
    varint_value, varint_wf, VarLenInt,
};

verus! {

pub const MINIMUM_ANOMUNT_OF_BYTES: usize = 37;

pub const MAX_QUANTITY_FOR_GET_HEADERS: usize = 2000;

/// The command name `getheaders`.
pub open spec fn getheaders_command() -> Seq<u8> {
    seq![103u8, 101u8, 116u8, 104u8, 101u8, 97u8, 100u8, 101u8, 114u8, 115u8, 0u8, 0u8]
}

/// Hashes written one after the other.
pub open spec fn hashes_bytes(s: Seq<Seq<u8>>) -> Seq<u8>
    decreases s.len(),
{
    if s.len() == 0 {
        Seq::empty()
    } else {
        hashes_bytes(s.drop_last()) + s.last()
    }
}

/// The hashes as plain values.
pub open spec fn hashes_view(v: Seq<[u8; 32]>) -> Seq<Seq<u8>> {
    v.map_values(|h: [u8; 32]| h@)
}

/// A request for headers.
#[derive(Debug, PartialEq, Eq)]
pub struct GetBlockHeadersMessage {
    version: u32,
    hash_count: VarLenInt,
    pub block_header_hashes: Vec<[u8; 32]>,
    pub stopping_hash: [u8; 32],
}

/// A request for headers as plain values.
pub struct GetHeadersView {
    pub version: u32,
    pub hash_count: Seq<u8>,
    pub block_header_hashes: Seq<Seq<u8>>,
    pub stopping_hash: Seq<u8>,
}

impl View for GetBlockHeadersMessage {
    type V = GetHeadersView;

    closed spec fn view(&self) -> GetHeadersView {
        GetHeadersView {
            version: self.version,
            hash_count: self.hash_count@,
            block_header_hashes: hashes_view(self.block_header_hashes@),
            stopping_hash: self.stopping_hash@,
        }
    }
}

/// The bytes of a request for headers.
pub open spec fn get_headers_bytes(v: GetHeadersView) -> Seq<u8> {
    u32_le(v.version) + v.hash_count + hashes_bytes(v.block_header_hashes) + v.stopping_hash
}

/// The request that `s` holds: a version, a count, exactly that many hashes
/// and the stopping hash, with nothing after it.
pub open spec fn get_headers_parse(s: Seq<u8>) -> Option<GetHeadersView> {
    if s.len() < MINIMUM_ANOMUNT_OF_BYTES {
        None
    } else {
        match varint_parse(s.skip(4)) {
            None => None,
            Some(c) => if c.len() + 36 + 32 * varint_value(c) != s.len() {
                None
            } else {
                Some(
                    GetHeadersView {
                        version: u32_of_le(s.take(4)),
                        hash_count: c,
                        block_header_hashes: Seq::new(
                            varint_value(c),
                            |i: int| s.subrange(4 + c.len() + 32 * i, 4 + c.len() + 32 * i + 32),
                        ),
                        stopping_hash: s.subrange(s.len() - 32, s.len() as int),
                    },
                )
            },
        }
    }
}

/// A request whose count is well formed and counts its 32-byte hashes.
pub open spec fn get_headers_consistent(v: GetHeadersView) -> bool {
    &&& varint_wf(v.hash_count)
    &&& varint_value(v.hash_count) == v.block_header_hashes.len()
    &&& forall|i: int|
        0 <= i < v.block_header_hashes.len() ==> (#[trigger] v.block_header_hashes[i]).len() == 32
    &&& v.stopping_hash.len() == 32
}

impl GetBlockHeadersMessage {
    /// A request for the headers after `block_header_hashes`, up to
    /// `stopping_hash`; the count is the shortest encoding of the number of
    /// hashes.
    pub fn new(version: u32, block_header_hashes: Vec<[u8; 32]>, stopping_hash: [u8; 32]) -> (r:
        GetBlockHeadersMessage)
        ensures
            r@ == (GetHeadersView {
                version,
                hash_count: varint_encode(block_header_hashes@.len()),
                block_header_hashes: hashes_view(block_header_hashes@),
                stopping_hash: stopping_hash@,
            }),
    {
        let hash_count = VarLenInt::new(block_header_hashes.len());
        GetBlockHeadersMessage { version, hash_count, block_header_hashes, stopping_hash }
    }

    /// The bytes of the request.
    pub fn to_bytes(&self) -> (r: Vec<u8>)
        ensures
            r@ == get_headers_bytes(self@),
    {
        let mut b: Vec<u8> = Vec::new();
        push_u32_le(&mut b, self.version);
        let count = self.hash_count.to_bytes();
        push_all(&mut b, count.as_slice());
        let ghost start = b@;
        let ghost hs = hashes_view(self.block_header_hashes@);
        let mut i: usize = 0;
        while i < self.block_header_hashes.len()
            invariant
                i <= self.block_header_hashes@.len(),
                hs == hashes_view(self.block_header_hashes@),
                b@ == start + hashes_bytes(hs.take(i as int)),
            decreases self.block_header_hashes@.len() - i,
        {
            push_all(&mut b, self.block_header_hashes[i].as_slice());
            proof {
                assert(hs.take(i + 1).drop_last() =~= hs.take(i as int));
                assert(b@ =~= start + hashes_bytes(hs.take(i + 1)));
            }
            i = i + 1;
        }
        assert(hs.take(i as int) =~= hs);
        push_all(&mut b, self.stopping_hash.as_slice());
        b
    }

    /// Reads a request (see `get_headers_parse`); anything else is an error.
    pub fn from_bytes(slice: &[u8]) -> (r: Result<GetBlockHeadersMessage, MessageError>)
        ensures
            match r {
                Ok(m) => get_headers_parse(slice@) == Some(m@),
                Err(e) => get_headers_parse(slice@) is None && e
                    == MessageError::ErrorCreatingGetBlockHeadersMessage,
            },
    {
        let len = slice.len();
        if len < MINIMUM_ANOMUNT_OF_BYTES {
            return Err(MessageError::ErrorCreatingGetBlockHeadersMessage);
        }
        let rest = slice_subrange(slice, 4, len);
        assert(rest@ =~= slice@.skip(4));
        let hash_count = match VarLenInt::from_bytes(rest) {
            Some(c) => c,
            None => return Err(MessageError::ErrorCreatingGetBlockHeadersMessage),
        };
        proof {
            lemma_varint_parse_result(rest@);
        }
        let n = hash_count.to_u64();
        let amt = hash_count.amount_of_bytes();
        if amt + 36 > len || n > ((len - amt - 36) as u64) / 32 || amt + 36 + (n as usize) * 32
            != len {
            return Err(MessageError::ErrorCreatingGetBlockHeadersMessage);
        }
        let n = n as usize;
        let ghost s = slice@;
        let version = read_u32_le(slice, 0);
        assert(s.subrange(0, 4) =~= s.take(4));
        let mut hashes: Vec<[u8; 32]> = Vec::new();
        let mut i: usize = 0;
        while i < n
            invariant
                i <= n,
                amt + 36 + n * 32 == len,
                len == s.len(),
                s == slice@,
                hashes@.len() == i,
                forall|j: int|
                    0 <= j < i ==> (#[trigger] hashes@[j])@ == s.subrange(
                        4 + amt + 32 * j,
                        4 + amt + 32 * j + 32,
                    ),
            decreases n - i,
        {
            let h = read_hash(slice, 4 + amt + 32 * i);
            hashes.push(h);
            i = i + 1;
        }
        let stopping_hash = read_hash(slice, len - 32);
        let m = GetBlockHeadersMessage {
            version,
            hash_count,
            block_header_hashes: hashes,
            stopping_hash,
        };
        assert(m@.block_header_hashes =~= Seq::new(
            n as nat,
            |i: int| s.subrange(4 + amt + 32 * i, 4 + amt + 32 * i + 32),
        ));
        Ok(m)
    }

    /// The hashes the request starts from, most recent first.
    pub fn block_header_hashes(&self) -> (r: &Vec<[u8; 32]>)
        ensures
            hashes_view(r@) == self@.block_header_hashes,
    {
        &self.block_header_hashes
    }

    /// The hash of the last header wanted.
    pub fn stopping_hash(&self) -> (r: [u8; 32])
        ensures
            r@ == self@.stopping_hash,
    {
        self.stopping_hash
    }

    /// The header announcing this request under `getheaders`.
    pub fn get_header_message(&self) -> (r: Result<HeaderMessage, MessageError>)
        ensures
            r matches Ok(h) && h@ == header_message_for(
                getheaders_command(),
                get_headers_bytes(self@),
            ),
    {
        let payload = self.to_bytes();
        let name = [103u8, 101u8, 116u8, 104u8, 101u8, 97u8, 100u8, 101u8, 114u8, 115u8, 0u8, 0u8];
        assert(name@ =~= getheaders_command());
        Ok(HeaderMessage::with_command(name, payload.as_slice()))
    }
}

/// Hashes of 32 bytes written one after the other are 32 bytes apart, and
/// each is read back from its place.
pub proof fn lemma_hashes_bytes(s: Seq<Seq<u8>>)
    requires
        forall|i: int| 0 <= i < s.len() ==> (#[trigger] s[i]).len() == 32,
    ensures
        hashes_bytes(s).len() == 32 * s.len(),
        forall|i: int|
            0 <= i < s.len() ==> hashes_bytes(s).subrange(32 * i, 32 * i + 32) == #[trigger] s[i],
    decreases s.len(),
{
    if s.len() > 0 {
        let p = s.drop_last();
        lemma_hashes_bytes(p);
        let b = hashes_bytes(s);
        assert forall|i: int| 0 <= i < s.len() implies b.subrange(32 * i, 32 * i + 32)
            == #[trigger] s[i] by {
            if i < s.len() - 1 {
                assert(p[i] == s[i]);
                assert(b.subrange(32 * i, 32 * i + 32) =~= hashes_bytes(p).subrange(
                    32 * i,
                    32 * i + 32,
                ));
            } else {
                assert(b.subrange(32 * i, 32 * i + 32) =~= s.last());
            }
        }
    }
}

/// The law of the format: a consistent request is read back from its bytes.
#[verifier::spinoff_prover]
#[verifier::rlimit(40)]
pub proof fn lemma_get_headers_roundtrip(v: GetHeadersView)
    requires
        get_headers_consistent(v),
    ensures
        get_headers_parse(get_headers_bytes(v)) == Some(v),
{
    let s = get_headers_bytes(v);
    let hb = hashes_bytes(v.block_header_hashes);
    lemma_hashes_bytes(v.block_header_hashes);
    lemma_u32_le(v.version, seq![]);
    let c = v.hash_count;
    assert(s =~= u32_le(v.version) + (c + (hb + v.stopping_hash)));
    assert(s.skip(4) =~= c + (hb + v.stopping_hash));
    lemma_varint_parse_prefix(c, hb + v.stopping_hash);
    assert(s.take(4) =~= u32_le(v.version));
    assert(s.subrange(s.len() - 32, s.len() as int) =~= v.stopping_hash);
    let parsed = Seq::new(
        varint_value(c),
        |i: int| s.subrange(4 + c.len() + 32 * i, 4 + c.len() + 32 * i + 32),
    );
    assert forall|i: int| 0 <= i < v.block_header_hashes.len() implies #[trigger] parsed[i]
        == v.block_header_hashes[i] by {
        assert(s.subrange(4 + c.len() + 32 * i, 4 + c.len() + 32 * i + 32) =~= hb.subrange(
            32 * i,
            32 * i + 32,
        ));
    }
    assert(parsed =~= v.block_header_hashes);
}

} // verus!
