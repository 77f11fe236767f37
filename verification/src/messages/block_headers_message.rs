//! `headers`: block headers, each followed by an empty transaction count.
use vstd::prelude::*;
use vstd::slice::slice_subrange;
use crate::blockchain::{
    header_bytes, header_parse, header_wf, lemma_header_bytes_len, lemma_header_roundtrip, BlockHeader, HeaderView,
    BLOCKHEADER_SIZE,
};
use crate::codec::push_all;
use crate::errors::MessageError;
use crate::messages::header_message::{header_message_for, HeaderMessage};
use crate::var_len_int::{
    lemma_varint_parse_prefix, lemma_varint_parse_result, varint_encode, varint_parse,
    varint_value, varint_wf, VarLenInt,
};

verus! {

/// The command name `headers`.
pub open spec fn headers_command() -> Seq<u8> {
    seq![104u8, 101u8, 97u8, 100u8, 101u8, 114u8, 115u8, 0u8, 0u8, 0u8, 0u8, 0u8]
}

/// A list of block headers.
#[derive(Debug, PartialEq, Eq)]
pub struct BlockHeadersMessage {
    pub count: VarLenInt,
    pub headers: Vec<BlockHeader>,
}

/// A list of headers as plain values.
pub struct BlockHeadersView {
    pub count: Seq<u8>,
    pub headers: Seq<HeaderView>,
}

impl View for BlockHeadersMessage {
    type V = BlockHeadersView;

    closed spec fn view(&self) -> BlockHeadersView {
        BlockHeadersView {
            count: self.count@,
            headers: self.headers@.map_values(|h: BlockHeader| h@),
        }
    }
}

/// Headers written one after the other, each followed by a zero byte.
pub open spec fn headers_list_bytes(s: Seq<HeaderView>) -> Seq<u8>
    decreases s.len(),
{
    if s.len() == 0 {
        Seq::empty()
    } else {
        headers_list_bytes(s.drop_last()) + header_bytes(s.last()) + seq![0u8]
    }
}

/// The bytes of a list of headers.
pub open spec fn block_headers_bytes(v: BlockHeadersView) -> Seq<u8> {
    v.count + headers_list_bytes(v.headers)
}

/// The list that `s` holds: a count, then exactly that many headers of 81
/// bytes (the header and one more byte, which is not read), with nothing
/// after them.
pub open spec fn block_headers_parse(s: Seq<u8>) -> Option<BlockHeadersView> {
    match varint_parse(s) {
        None => None,
        Some(c) => if varint_value(c) * 81 + c.len() != s.len() {
            None
        } else {
            Some(
                BlockHeadersView {
                    count: c,
                    headers: Seq::new(
                        varint_value(c),
                        |i: int| header_parse(s.subrange(c.len() + 81 * i, c.len() + 81 * i + 80)),
                    ),
                },
            )
        },
    }
}

/// A list whose count is well formed and counts its well-formed headers.
pub open spec fn block_headers_consistent(v: BlockHeadersView) -> bool {
    &&& varint_wf(v.count)
    &&& varint_value(v.count) == v.headers.len()
    &&& forall|i: int| 0 <= i < v.headers.len() ==> header_wf(#[trigger] v.headers[i])
}

impl BlockHeadersMessage {
    /// The list of `headers`; the count is the shortest encoding of their
    /// number.
    pub fn new(headers: Vec<BlockHeader>) -> (r: BlockHeadersMessage)
        ensures
            r@ == (BlockHeadersView {
                count: varint_encode(headers@.len()),
                headers: headers@.map_values(|h: BlockHeader| h@),
            }),
    {
        BlockHeadersMessage { count: VarLenInt::new(headers.len()), headers }
    }

    /// The bytes of the list.
    pub fn to_bytes(&self) -> (r: Vec<u8>)
        ensures
            r@ == block_headers_bytes(self@),
    {
        let mut b = self.count.to_bytes();
        let ghost start = b@;
        let ghost hs = self@.headers;
        let mut i: usize = 0;
        while i < self.headers.len()
            invariant
                i <= self.headers@.len(),
                hs == self.headers@.map_values(|h: BlockHeader| h@),
                b@ == start + headers_list_bytes(hs.take(i as int)),
            decreases self.headers@.len() - i,
        {
            let hb = self.headers[i].to_bytes();
            push_all(&mut b, hb.as_slice());
            b.push(0);
            proof {
                assert(hs.take(i + 1).drop_last() =~= hs.take(i as int));
                assert(hs.take(i + 1).last() == self.headers@[i as int]@);
                assert(b@ =~= start + headers_list_bytes(hs.take(i + 1)));
            }
            i = i + 1;
        }
        assert(hs.take(i as int) =~= hs);
        b
    }

    /// Reads a list of headers (see `block_headers_parse`); anything else is
    /// an error.
    pub fn from_bytes(slice: &[u8]) -> (r: Result<BlockHeadersMessage, MessageError>)
        ensures
            match r {
                Ok(m) => block_headers_parse(slice@) == Some(m@),
                Err(e) => block_headers_parse(slice@) is None && e
                    == MessageError::ErrorCreatingBlockHeadersMessage,
            },
    {
        let count = match VarLenInt::from_bytes(slice) {
            Some(c) => c,
            None => return Err(MessageError::ErrorCreatingBlockHeadersMessage),
        };
        proof {
            lemma_varint_parse_result(slice@);
        }
        let len = slice.len();
        let n = count.to_u64();
        let amt = count.amount_of_bytes();
        if n > ((len - amt) as u64) / 81 || (n as usize) * 81 + amt != len {
            return Err(MessageError::ErrorCreatingBlockHeadersMessage);
        }
        let n = n as usize;
        let ghost s = slice@;
        let mut headers: Vec<BlockHeader> = Vec::new();
        let mut i: usize = 0;
        while i < n
            invariant
                i <= n,
                n * 81 + amt == len,
                len == s.len(),
                s == slice@,
                headers@.len() == i,
                forall|j: int|
                    0 <= j < i ==> (#[trigger] headers@[j])@ == header_parse(
                        s.subrange(amt + 81 * j, amt + 81 * j + 80),
                    ),
            decreases n - i,
        {
            let start = amt + 81 * i;
            let hb = slice_subrange(slice, start, start + BLOCKHEADER_SIZE);
            let h = match BlockHeader::from_bytes(hb) {
                Ok(h) => h,
                Err(_) => return Err(MessageError::ErrorCreatingBlockHeadersMessage),
            };
            headers.push(h);
            i = i + 1;
        }
        let m = BlockHeadersMessage { count, headers };
        assert(m@.headers =~= Seq::new(
            n as nat,
            |i: int| header_parse(s.subrange(amt + 81 * i, amt + 81 * i + 80)),
        ));
        Ok(m)
    }

    /// The headers the message carries.
    pub fn into_headers(self) -> (r: Vec<BlockHeader>)
        ensures
            r@.map_values(|h: BlockHeader| h@) == self@.headers,
    {
        self.headers
    }

    /// The header announcing this list under `headers`.
    pub fn get_header_message(&self) -> (r: Result<HeaderMessage, MessageError>)
        ensures
            r matches Ok(h) && h@ == header_message_for(headers_command(), block_headers_bytes(self@)),
    {
        let payload = self.to_bytes();
        let name = [104u8, 101u8, 97u8, 100u8, 101u8, 114u8, 115u8, 0u8, 0u8, 0u8, 0u8, 0u8];
        assert(name@ =~= headers_command());
        Ok(HeaderMessage::with_command(name, payload.as_slice()))
    }
}

/// Each header of a list lies in its place: 81 bytes apart.
#[verifier::rlimit(40)]
pub proof fn lemma_headers_list_bytes(s: Seq<HeaderView>)
    requires
        forall|i: int| 0 <= i < s.len() ==> header_wf(#[trigger] s[i]),
    ensures
        headers_list_bytes(s).len() == 81 * s.len(),
        forall|i: int|
            0 <= i < s.len() ==> headers_list_bytes(s).subrange(81 * i, 81 * i + 80)
                == header_bytes(#[trigger] s[i]),
    decreases s.len(),
{
    if s.len() > 0 {
        let p = s.drop_last();
        lemma_headers_list_bytes(p);
        lemma_header_bytes_len(s.last());
        let hl = header_bytes(s.last());
        let b = headers_list_bytes(s);
        assert(b == headers_list_bytes(p) + hl + seq![0u8]);
        assert forall|i: int| 0 <= i < s.len() implies b.subrange(81 * i, 81 * i + 80)
            == header_bytes(#[trigger] s[i]) by {
            if i < s.len() - 1 {
                assert(p[i] == s[i]);
                assert(b.subrange(81 * i, 81 * i + 80) =~= headers_list_bytes(p).subrange(
                    81 * i,
                    81 * i + 80,
                ));
            } else {
                assert(b.subrange(81 * i, 81 * i + 80) =~= hl);
            }
        }
    }
}

/// The law of the format: a consistent list of headers is read back from
/// its bytes.
pub proof fn lemma_block_headers_roundtrip(v: BlockHeadersView)
    requires
        block_headers_consistent(v),
    ensures
        block_headers_parse(block_headers_bytes(v)) == Some(v),
{
    let s = block_headers_bytes(v);
    let lb = headers_list_bytes(v.headers);
    lemma_headers_list_bytes(v.headers);
    lemma_varint_parse_prefix(v.count, lb);
    let c = v.count;
    let parsed = Seq::new(
        varint_value(c),
        |i: int| header_parse(s.subrange(c.len() + 81 * i, c.len() + 81 * i + 80)),
    );
    assert forall|i: int| 0 <= i < v.headers.len() implies #[trigger] parsed[i] == v.headers[i] by {
        let h = v.headers[i];
        assert(s.subrange(c.len() + 81 * i, c.len() + 81 * i + 80) =~= lb.subrange(
            81 * i,
            81 * i + 80,
        ));
        lemma_header_roundtrip(h, Seq::empty());
        assert(header_bytes(h) + Seq::empty() =~= header_bytes(h));
    }
    assert(parsed =~= v.headers);
}

} // verus!
