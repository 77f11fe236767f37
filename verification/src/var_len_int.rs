//! Bitcoin's variable-length integer ("CompactSize"): one tag byte, followed by
//! 0, 2, 4 or 8 little-endian bytes.
use vstd::prelude::*;
use crate::codec::{
    copy_range, lemma_u16_le, lemma_u32_le, lemma_u64_le, push_u16_le, push_u32_le, push_u64_le,
    read_u16_le, read_u32_le, read_u64_le, u16_le, u16_of_le, u32_le, u32_of_le, u64_le, u64_of_le,
};

verus! {

/// Errors that can occur when creating a `VarLenInt`.
#[derive(Debug, PartialEq, Eq)]
pub enum VarLenIntError {
    ErrorIncorrectAmountOfBytes,
}

/// How many bytes a variable-length integer whose first byte is `tag` takes.
pub open spec fn varint_size(tag: u8) -> nat {
    if tag == 0xfd {
        3
    } else if tag == 0xfe {
        5
    } else if tag == 0xff {
        9
    } else {
        1
    }
}

/// `b` is exactly one variable-length integer: its length is the one its tag announces.
pub open spec fn varint_wf(b: Seq<u8>) -> bool {
    b.len() >= 1 && b.len() == varint_size(b[0])
}

/// The number that a well-formed variable-length integer stands for.
pub open spec fn varint_value(b: Seq<u8>) -> nat {
    if b[0] == 0xfd {
        u16_of_le(b.subrange(1, 3)) as nat
    } else if b[0] == 0xfe {
        u32_of_le(b.subrange(1, 5)) as nat
    } else if b[0] == 0xff {
        u64_of_le(b.subrange(1, 9)) as nat
    } else {
        b[0] as nat
    }
}

/// The shortest encoding of `n`.
pub open spec fn varint_encode(n: nat) -> Seq<u8> {
    if n < 253 {
        seq![n as u8]
    } else if n < 0x10000 {
        seq![0xfdu8] + u16_le(n as u16)
    } else if n < 0x1_0000_0000 {
        seq![0xfeu8] + u32_le(n as u32)
    } else {
        seq![0xffu8] + u64_le(n as u64)
    }
}

/// The variable-length integer at the front of `s`, if `s` holds all of its bytes.
pub open spec fn varint_parse(s: Seq<u8>) -> Option<Seq<u8>> {
    if s.len() == 0 {
        None
    } else if s.len() < varint_size(s[0]) {
        None
    } else {
        Some(s.take(varint_size(s[0]) as int))
    }
}

/// A variable-length integer, kept as the bytes it was read from or built as.
#[derive(Debug, PartialEq, Eq)]
pub struct VarLenInt {
    bytes: Vec<u8>,
}

impl View for VarLenInt {
    type V = Seq<u8>;

    closed spec fn view(&self) -> Seq<u8> {
        self.bytes@
    }
}

impl VarLenInt {
    /// Every `VarLenInt` holds exactly one well-formed variable-length integer.
    #[verifier::type_invariant]
    pub closed spec fn inv(&self) -> bool {
        varint_wf(self.bytes@)
    }

    /// Creates the shortest encoding of `value`.
    pub fn new(value: usize) -> (r: VarLenInt)
        ensures
            r@ == varint_encode(value as nat),
    {
        let mut bytes: Vec<u8> = Vec::new();
        if value < 253 {
            bytes.push(value as u8);
        } else if value < 0x10000 {
            bytes.push(0xfd);
            push_u16_le(&mut bytes, value as u16);
        } else if (value as u64) < 0x1_0000_0000u64 {
            bytes.push(0xfe);
            push_u32_le(&mut bytes, value as u32);
        } else {
            bytes.push(0xff);
            push_u64_le(&mut bytes, value as u64);
        }
        proof {
            lemma_varint_encode(value as nat);
        }
        VarLenInt { bytes }
    }

    /// Reads the variable-length integer at the front of `slice`. Returns `None`
    /// when `slice` is empty or shorter than its tag announces.
    pub fn from_bytes(slice: &[u8]) -> (r: Option<VarLenInt>)
        ensures
            match r {
                Some(v) => varint_parse(slice@) == Some(v@),
                None => varint_parse(slice@) is None,
            },
    {
        if slice.len() == 0 {
            return None;
        }
        let tag = slice[0];
        let amount_of_bytes: usize = if tag == 0xfd {
            3
        } else if tag == 0xfe {
            5
        } else if tag == 0xff {
            9
        } else {
            1
        };
        if slice.len() < amount_of_bytes {
            return None;
        }
        let bytes = copy_range(slice, 0, amount_of_bytes);
        assert(bytes@ =~= slice@.take(amount_of_bytes as int));
        Some(VarLenInt { bytes })
    }

    /// The value as a `usize`.
    pub fn to_usize(&self) -> (r: usize)
        ensures
            r == varint_value(self@) as usize,
    {
        proof {
            use_type_invariant(self);
        }
        let b = self.bytes.as_slice();
        let tag = b[0];
        if tag == 0xfd {
            read_u16_le(b, 1) as usize
        } else if tag == 0xfe {
            read_u32_le(b, 1) as usize
        } else if tag == 0xff {
            read_u64_le(b, 1) as usize
        } else {
            tag as usize
        }
    }

    /// The value, which always fits in 64 bits.
    pub fn to_u64(&self) -> (r: u64)
        ensures
            r == varint_value(self@),
    {
        proof {
            use_type_invariant(self);
        }
        let b = self.bytes.as_slice();
        let tag = b[0];
        if tag == 0xfd {
            read_u16_le(b, 1) as u64
        } else if tag == 0xfe {
            read_u32_le(b, 1) as u64
        } else if tag == 0xff {
            read_u64_le(b, 1)
        } else {
            tag as u64
        }
    }

    /// The bytes of the variable-length integer.
    pub fn to_bytes(&self) -> (r: Vec<u8>)
        ensures
            r@ == self@,
    {
        self.bytes.clone()
    }

    /// How many bytes the variable-length integer takes.
    pub fn amount_of_bytes(&self) -> (r: usize)
        ensures
            r == self@.len(),
    {
        self.bytes.len()
    }
}

/// The shortest encoding of any number below 2^64 is well formed and stands
/// for that number.
pub proof fn lemma_varint_encode(n: nat)
    requires
        n < 0x1_0000_0000_0000_0000,
    ensures
        varint_wf(varint_encode(n)),
        varint_value(varint_encode(n)) == n,
{
    let e = varint_encode(n);
    if n < 253 {
    } else if n < 0x10000 {
        lemma_u16_le(n as u16, seq![]);
        assert(e.subrange(1, 3) =~= u16_le(n as u16));
    } else if n < 0x1_0000_0000 {
        lemma_u32_le(n as u32, seq![]);
        assert(e.subrange(1, 5) =~= u32_le(n as u32));
    } else {
        lemma_u64_le(n as u64, seq![]);
        assert(e.subrange(1, 9) =~= u64_le(n as u64));
    }
}

/// A well-formed variable-length integer is read back whole from the front of
/// any byte sequence that starts with it.
pub proof fn lemma_varint_parse_prefix(b: Seq<u8>, rest: Seq<u8>)
    requires
        varint_wf(b),
    ensures
        varint_parse(b + rest) == Some(b),
{
    assert((b + rest)[0] == b[0]);
    assert((b + rest).take(b.len() as int) =~= b);
}

/// What `varint_parse` returns is a well-formed prefix of its input.
pub proof fn lemma_varint_parse_result(s: Seq<u8>)
    ensures
        varint_parse(s) matches Some(b) ==> varint_wf(b) && b.len() <= s.len() && b == s.take(
            b.len() as int,
        ),
{
}

/// The law of the encoding: reading the encoding of `n` back, from the front
/// of any byte sequence that starts with it, gives the same bytes, and they
/// stand for `n`.
pub proof fn lemma_varint_roundtrip(n: nat, rest: Seq<u8>)
    requires
        n < 0x1_0000_0000_0000_0000,
    ensures
        varint_parse(varint_encode(n) + rest) == Some(varint_encode(n)),
        varint_value(varint_encode(n)) == n,
{
    lemma_varint_encode(n);
    lemma_varint_parse_prefix(varint_encode(n), rest);
}

/// The bytes of the variable-length integer at the front of `slice`, and how
/// many bytes its tag announces (1, 3, 5 or 9); when `slice` is shorter, the
/// bytes are all of it.
pub fn calculate_variable_length_integer(slice: &[u8]) -> (r: (Vec<u8>, usize))
    requires
        slice@.len() > 0,
    ensures
        r.1 == (if slice@[0] == 0xfd {
            3usize
        } else if slice@[0] == 0xfe {
            5usize
        } else if slice@[0] == 0xff {
            9usize
        } else {
            1usize
        }),
        r.0@ == slice@.take(if r.1 <= slice@.len() { r.1 as int } else { slice@.len() as int }),
{
    let mut length: Vec<u8> = Vec::new();
    let mut amount_of_bytes: usize = 1;
    if slice[0] == 0xfd {
        amount_of_bytes = 3;
    }
    if slice[0] == 0xfe {
        amount_of_bytes = 5;
    }
    if slice[0] == 0xff {
        amount_of_bytes = 9;
    }
    let mut i: usize = 0;
    while i < amount_of_bytes && i < slice.len()
        invariant
            i <= slice@.len(),
            i <= amount_of_bytes,
            length@ == slice@.take(i as int),
        decreases slice@.len() - i,
    {
        length.push(slice[i]);
        assert(length@ =~= slice@.take(i + 1));
        i = i + 1;
    }
    (length, amount_of_bytes)
}

} // verus!
