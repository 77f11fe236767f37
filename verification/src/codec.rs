//! Little- and big-endian encodings of fixed-width integers, with the
//! byte-level readers and writers that the wire formats are built from.
use vstd::prelude::*;

verus! {

pub open spec fn u16_le(x: u16) -> Seq<u8> {
    seq![(x & 0xff) as u8, ((x >> 8u16) & 0xff) as u8]
}

pub open spec fn u16_of_le(s: Seq<u8>) -> u16 {
    (s[0] as u16) | ((s[1] as u16) << 8u16)
}

pub open spec fn u16_be(x: u16) -> Seq<u8> {
    seq![((x >> 8u16) & 0xff) as u8, (x & 0xff) as u8]
}

pub open spec fn u16_of_be(s: Seq<u8>) -> u16 {
    ((s[0] as u16) << 8u16) | (s[1] as u16)
}

pub open spec fn u32_le(x: u32) -> Seq<u8> {
    seq![
        (x & 0xff) as u8,
        ((x >> 8u32) & 0xff) as u8,
        ((x >> 16u32) & 0xff) as u8,
        ((x >> 24u32) & 0xff) as u8,
    ]
}

pub open spec fn u32_of_le(s: Seq<u8>) -> u32 {
    (s[0] as u32) | ((s[1] as u32) << 8u32) | ((s[2] as u32) << 16u32) | ((s[3] as u32) << 24u32)
}

pub open spec fn u32_be(x: u32) -> Seq<u8> {
    seq![
        ((x >> 24u32) & 0xff) as u8,
        ((x >> 16u32) & 0xff) as u8,
        ((x >> 8u32) & 0xff) as u8,
        (x & 0xff) as u8,
    ]
}

pub open spec fn u32_of_be(s: Seq<u8>) -> u32 {
    ((s[0] as u32) << 24u32) | ((s[1] as u32) << 16u32) | ((s[2] as u32) << 8u32) | (s[3] as u32)
}

pub open spec fn u64_le(x: u64) -> Seq<u8> {
    seq![
        (x & 0xff) as u8,
        ((x >> 8u64) & 0xff) as u8,
        ((x >> 16u64) & 0xff) as u8,
        ((x >> 24u64) & 0xff) as u8,
        ((x >> 32u64) & 0xff) as u8,
        ((x >> 40u64) & 0xff) as u8,
        ((x >> 48u64) & 0xff) as u8,
        ((x >> 56u64) & 0xff) as u8,
    ]
}

pub open spec fn u64_of_le(s: Seq<u8>) -> u64 {
    (s[0] as u64) | ((s[1] as u64) << 8u64) | ((s[2] as u64) << 16u64) | ((s[3] as u64) << 24u64)
        | ((s[4] as u64) << 32u64) | ((s[5] as u64) << 40u64) | ((s[6] as u64) << 48u64) | ((
    s[7] as u64) << 56u64)
}

pub open spec fn i32_le(x: i32) -> Seq<u8> {
    u32_le(x as u32)
}

pub open spec fn i32_of_le(s: Seq<u8>) -> i32 {
    u32_of_le(s) as i32
}

pub open spec fn i64_le(x: i64) -> Seq<u8> {
    u64_le(x as u64)
}

pub open spec fn i64_of_le(s: Seq<u8>) -> i64 {
    u64_of_le(s) as i64
}

/// Decoding the little-endian bytes of a `u16` gives it back, and every two
/// bytes are the encoding of what they decode to.
pub proof fn lemma_u16_le(x: u16, s: Seq<u8>)
    ensures
        u16_le(x).len() == 2,
        u16_of_le(u16_le(x)) == x,
        s.len() == 2 ==> u16_le(u16_of_le(s)) == s,
        u16_be(x).len() == 2,
        u16_of_be(u16_be(x)) == x,
        s.len() == 2 ==> u16_be(u16_of_be(s)) == s,
{
    assert(((x & 0xff) as u8) as u16 | ((((x >> 8u16) & 0xff) as u8) as u16) << 8u16 == x)
        by (bit_vector);
    assert(((((x >> 8u16) & 0xff) as u8) as u16) << 8u16 | ((x & 0xff) as u8) as u16 == x)
        by (bit_vector);
    if s.len() == 2 {
        let a = s[0];
        let b = s[1];
        assert(((a as u16 | (b as u16) << 8u16) & 0xff) as u8 == a) by (bit_vector);
        assert((((a as u16 | (b as u16) << 8u16) >> 8u16) & 0xff) as u8 == b) by (bit_vector);
        assert(u16_le(u16_of_le(s)) =~= s);
        assert(((((a as u16) << 8u16 | b as u16) >> 8u16) & 0xff) as u8 == a) by (bit_vector);
        assert((((a as u16) << 8u16 | b as u16) & 0xff) as u8 == b) by (bit_vector);
        assert(u16_be(u16_of_be(s)) =~= s);
    }
}

/// The same two facts for `u32`, in both byte orders.
pub proof fn lemma_u32_le(x: u32, s: Seq<u8>)
    ensures
        u32_le(x).len() == 4,
        u32_of_le(u32_le(x)) == x,
        s.len() == 4 ==> u32_le(u32_of_le(s)) == s,
        u32_be(x).len() == 4,
        u32_of_be(u32_be(x)) == x,
        s.len() == 4 ==> u32_be(u32_of_be(s)) == s,
{
    assert(((x & 0xff) as u8) as u32 | ((((x >> 8u32) & 0xff) as u8) as u32) << 8u32 | ((((x
        >> 16u32) & 0xff) as u8) as u32) << 16u32 | ((((x >> 24u32) & 0xff) as u8) as u32) << 24u32
        == x) by (bit_vector);
    assert(((((x >> 24u32) & 0xff) as u8) as u32) << 24u32 | ((((x >> 16u32) & 0xff) as u8) as u32) << 16u32 | ((((x >> 8u32) & 0xff) as u8) as u32) << 8u32 | ((x & 0xff) as u8) as u32 == x)
        by (bit_vector);
    if s.len() == 4 {
        let a = s[0];
        let b = s[1];
        let c = s[2];
        let d = s[3];
        let v = a as u32 | (b as u32) << 8u32 | (c as u32) << 16u32 | (d as u32) << 24u32;
        assert((v & 0xff) as u8 == a && ((v >> 8u32) & 0xff) as u8 == b && ((v >> 16u32) & 0xff)
            as u8 == c && ((v >> 24u32) & 0xff) as u8 == d) by (bit_vector)
            requires
                v == a as u32 | (b as u32) << 8u32 | (c as u32) << 16u32 | (d as u32) << 24u32,
        ;
        assert(u32_le(u32_of_le(s)) =~= s);
        let w = (a as u32) << 24u32 | (b as u32) << 16u32 | (c as u32) << 8u32 | d as u32;
        assert(((w >> 24u32) & 0xff) as u8 == a && ((w >> 16u32) & 0xff) as u8 == b && ((w
            >> 8u32) & 0xff) as u8 == c && (w & 0xff) as u8 == d) by (bit_vector)
            requires
                w == (a as u32) << 24u32 | (b as u32) << 16u32 | (c as u32) << 8u32 | d as u32,
        ;
        assert(u32_be(u32_of_be(s)) =~= s);
    }
}

/// The same two facts for `u64`.
pub proof fn lemma_u64_le(x: u64, s: Seq<u8>)
    ensures
        u64_le(x).len() == 8,
        u64_of_le(u64_le(x)) == x,
        s.len() == 8 ==> u64_le(u64_of_le(s)) == s,
{
    let y = u64_of_le(u64_le(x));
    assert(y == ((x & 0xff) as u8) as u64 | ((((x >> 8u64) & 0xff) as u8) as u64) << 8u64 | ((((x
        >> 16u64) & 0xff) as u8) as u64) << 16u64 | ((((x >> 24u64) & 0xff) as u8) as u64)
        << 24u64 | ((((x >> 32u64) & 0xff) as u8) as u64) << 32u64 | ((((x >> 40u64) & 0xff)
        as u8) as u64) << 40u64 | ((((x >> 48u64) & 0xff) as u8) as u64) << 48u64 | ((((x
        >> 56u64) & 0xff) as u8) as u64) << 56u64);
    assert(((x & 0xff) as u8) as u64 | ((((x >> 8u64) & 0xff) as u8) as u64) << 8u64 | ((((x
        >> 16u64) & 0xff) as u8) as u64) << 16u64 | ((((x >> 24u64) & 0xff) as u8) as u64)
        << 24u64 | ((((x >> 32u64) & 0xff) as u8) as u64) << 32u64 | ((((x >> 40u64) & 0xff)
        as u8) as u64) << 40u64 | ((((x >> 48u64) & 0xff) as u8) as u64) << 48u64 | ((((x
        >> 56u64) & 0xff) as u8) as u64) << 56u64 == x) by (bit_vector);
    if s.len() == 8 {
        let (b0, b1, b2, b3, b4, b5, b6, b7) = (s[0], s[1], s[2], s[3], s[4], s[5], s[6], s[7]);
        let v = b0 as u64 | (b1 as u64) << 8u64 | (b2 as u64) << 16u64 | (b3 as u64) << 24u64 | (
        b4 as u64) << 32u64 | (b5 as u64) << 40u64 | (b6 as u64) << 48u64 | (b7 as u64) << 56u64;
        assert((v & 0xff) as u8 == b0 && ((v >> 8u64) & 0xff) as u8 == b1 && ((v >> 16u64) & 0xff)
            as u8 == b2 && ((v >> 24u64) & 0xff) as u8 == b3 && ((v >> 32u64) & 0xff) as u8 == b4
            && ((v >> 40u64) & 0xff) as u8 == b5 && ((v >> 48u64) & 0xff) as u8 == b6 && ((v
            >> 56u64) & 0xff) as u8 == b7) by (bit_vector)
            requires
                v == b0 as u64 | (b1 as u64) << 8u64 | (b2 as u64) << 16u64 | (b3 as u64) << 24u64
                    | (b4 as u64) << 32u64 | (b5 as u64) << 40u64 | (b6 as u64) << 48u64 | (
                b7 as u64) << 56u64,
        ;
        assert(u64_le(u64_of_le(s)) =~= s);
    }
}

/// The signed encodings are the unsigned ones of the same bits.
pub proof fn lemma_signed_le(x: i32, y: i64)
    ensures
        i32_le(x).len() == 4,
        i32_of_le(i32_le(x)) == x,
        i64_le(y).len() == 8,
        i64_of_le(i64_le(y)) == y,
{
    lemma_u32_le(x as u32, seq![]);
    lemma_u64_le(y as u64, seq![]);
    assert((x as u32) as i32 == x) by (bit_vector);
    assert((y as u64) as i64 == y) by (bit_vector);
}

/// Appends the little-endian bytes of `x`.
pub fn push_u16_le(out: &mut Vec<u8>, x: u16)
    ensures
        final(out)@ == old(out)@ + u16_le(x),
{
    out.push((x & 0xff) as u8);
    out.push(((x >> 8u16) & 0xff) as u8);
    assert(final(out)@ =~= old(out)@ + u16_le(x));
}

/// Appends the big-endian bytes of `x`.
pub fn push_u16_be(out: &mut Vec<u8>, x: u16)
    ensures
        final(out)@ == old(out)@ + u16_be(x),
{
    out.push(((x >> 8u16) & 0xff) as u8);
    out.push((x & 0xff) as u8);
    assert(final(out)@ =~= old(out)@ + u16_be(x));
}

/// Appends the little-endian bytes of `x`.
pub fn push_u32_le(out: &mut Vec<u8>, x: u32)
    ensures
        final(out)@ == old(out)@ + u32_le(x),
{
    out.push((x & 0xff) as u8);
    out.push(((x >> 8u32) & 0xff) as u8);
    out.push(((x >> 16u32) & 0xff) as u8);
    out.push(((x >> 24u32) & 0xff) as u8);
    assert(final(out)@ =~= old(out)@ + u32_le(x));
}

/// Appends the big-endian bytes of `x`.
pub fn push_u32_be(out: &mut Vec<u8>, x: u32)
    ensures
        final(out)@ == old(out)@ + u32_be(x),
{
    out.push(((x >> 24u32) & 0xff) as u8);
    out.push(((x >> 16u32) & 0xff) as u8);
    out.push(((x >> 8u32) & 0xff) as u8);
    out.push((x & 0xff) as u8);
    assert(final(out)@ =~= old(out)@ + u32_be(x));
}

/// Appends the little-endian bytes of `x`.
pub fn push_u64_le(out: &mut Vec<u8>, x: u64)
    ensures
        final(out)@ == old(out)@ + u64_le(x),
{
    out.push((x & 0xff) as u8);
    out.push(((x >> 8u64) & 0xff) as u8);
    out.push(((x >> 16u64) & 0xff) as u8);
    out.push(((x >> 24u64) & 0xff) as u8);
    out.push(((x >> 32u64) & 0xff) as u8);
    out.push(((x >> 40u64) & 0xff) as u8);
    out.push(((x >> 48u64) & 0xff) as u8);
    out.push(((x >> 56u64) & 0xff) as u8);
    assert(final(out)@ =~= old(out)@ + u64_le(x));
}

/// Appends the little-endian bytes of the signed `x`.
pub fn push_i32_le(out: &mut Vec<u8>, x: i32)
    ensures
        final(out)@ == old(out)@ + i32_le(x),
{
    push_u32_le(out, x as u32);
}

/// Appends the little-endian bytes of the signed `x`.
pub fn push_i64_le(out: &mut Vec<u8>, x: i64)
    ensures
        final(out)@ == old(out)@ + i64_le(x),
{
    push_u64_le(out, x as u64);
}

/// Appends all of `bytes`.
pub fn push_all(out: &mut Vec<u8>, bytes: &[u8])
    ensures
        final(out)@ == old(out)@ + bytes@,
{
    out.extend_from_slice(bytes);
}

/// Reads a little-endian `u16` at `pos`.
pub fn read_u16_le(s: &[u8], pos: usize) -> (r: u16)
    requires
        pos + 2 <= s@.len(),
    ensures
        r == u16_of_le(s@.subrange(pos as int, pos + 2)),
{
    (s[pos] as u16) | ((s[pos + 1] as u16) << 8u16)
}

/// Reads a big-endian `u16` at `pos`.
pub fn read_u16_be(s: &[u8], pos: usize) -> (r: u16)
    requires
        pos + 2 <= s@.len(),
    ensures
        r == u16_of_be(s@.subrange(pos as int, pos + 2)),
{
    ((s[pos] as u16) << 8u16) | (s[pos + 1] as u16)
}

/// Reads a little-endian `u32` at `pos`.
pub fn read_u32_le(s: &[u8], pos: usize) -> (r: u32)
    requires
        pos + 4 <= s@.len(),
    ensures
        r == u32_of_le(s@.subrange(pos as int, pos + 4)),
{
    (s[pos] as u32) | ((s[pos + 1] as u32) << 8u32) | ((s[pos + 2] as u32) << 16u32) | ((s[pos
        + 3] as u32) << 24u32)
}

/// Reads a big-endian `u32` at `pos`.
pub fn read_u32_be(s: &[u8], pos: usize) -> (r: u32)
    requires
        pos + 4 <= s@.len(),
    ensures
        r == u32_of_be(s@.subrange(pos as int, pos + 4)),
{
    ((s[pos] as u32) << 24u32) | ((s[pos + 1] as u32) << 16u32) | ((s[pos + 2] as u32) << 8u32)
        | (s[pos + 3] as u32)
}

/// Reads a little-endian `u64` at `pos`.
pub fn read_u64_le(s: &[u8], pos: usize) -> (r: u64)
    requires
        pos + 8 <= s@.len(),
    ensures
        r == u64_of_le(s@.subrange(pos as int, pos + 8)),
{
    (s[pos] as u64) | ((s[pos + 1] as u64) << 8u64) | ((s[pos + 2] as u64) << 16u64) | ((s[pos
        + 3] as u64) << 24u64) | ((s[pos + 4] as u64) << 32u64) | ((s[pos + 5] as u64) << 40u64)
        | ((s[pos + 6] as u64) << 48u64) | ((s[pos + 7] as u64) << 56u64)
}

/// Reads a little-endian `i32` at `pos`.
pub fn read_i32_le(s: &[u8], pos: usize) -> (r: i32)
    requires
        pos + 4 <= s@.len(),
    ensures
        r == i32_of_le(s@.subrange(pos as int, pos + 4)),
{
    read_u32_le(s, pos) as i32
}

/// Reads a little-endian `i64` at `pos`.
pub fn read_i64_le(s: &[u8], pos: usize) -> (r: i64)
    requires
        pos + 8 <= s@.len(),
    ensures
        r == i64_of_le(s@.subrange(pos as int, pos + 8)),
{
    read_u64_le(s, pos) as i64
}

/// Copies the 32 bytes at `pos` into an array.
pub fn read_hash(s: &[u8], pos: usize) -> (r: [u8; 32])
    requires
        pos + 32 <= s@.len(),
    ensures
        r@ == s@.subrange(pos as int, pos + 32),
{
    let mut h = [0u8; 32];
    let n = s.len();
    let mut i: usize = 0;
    while i < 32
        invariant
            i <= 32,
            n == s@.len(),
            pos + 32 <= s@.len(),
            h@.len() == 32,
            forall|j: int| 0 <= j < i ==> h@[j] == s@[pos + j],
        decreases 32 - i,
    {
        h[i] = s[pos + i];
        i = i + 1;
    }
    assert(h@ =~= s@.subrange(pos as int, pos + 32));
    h
}

/// Copies `len` bytes starting at `pos` into a new vector.
pub fn copy_range(s: &[u8], pos: usize, len: usize) -> (r: Vec<u8>)
    requires
        pos + len <= s@.len(),
    ensures
        r@ == s@.subrange(pos as int, pos + len),
{
    let mut v: Vec<u8> = Vec::new();
    let n = s.len();
    let mut i: usize = 0;
    while i < len
        invariant
            i <= len,
            n == s@.len(),
            pos + len <= s@.len(),
            v@ == s@.subrange(pos as int, pos + i),
        decreases len - i,
    {
        v.push(s[pos + i]);
        i = i + 1;
        assert(v@ =~= s@.subrange(pos as int, pos + i));
    }
    v
}

/// Whether two 32-byte hashes are equal.
pub fn hash_eq(a: &[u8; 32], b: &[u8; 32]) -> (r: bool)
    ensures
        r == (a@ == b@),
{
    let mut i: usize = 0;
    while i < 32
        invariant
            i <= 32,
            a@.len() == 32,
            b@.len() == 32,
            forall|j: int| 0 <= j < i ==> a@[j] == b@[j],
        decreases 32 - i,
    {
        if a[i] != b[i] {
            return false;
        }
        i = i + 1;
    }
    assert(a@ =~= b@);
    true
}

/// Copies the 4 bytes at `pos` into an array.
pub fn read_array4(s: &[u8], pos: usize) -> (r: [u8; 4])
    requires
        pos + 4 <= s@.len(),
    ensures
        r@ == s@.subrange(pos as int, pos + 4),
{
    let r = [s[pos], s[pos + 1], s[pos + 2], s[pos + 3]];
    assert(r@ =~= s@.subrange(pos as int, pos + 4));
    r
}

/// Copies the 12 bytes at `pos` into an array.
pub fn read_array12(s: &[u8], pos: usize) -> (r: [u8; 12])
    requires
        pos + 12 <= s@.len(),
    ensures
        r@ == s@.subrange(pos as int, pos + 12),
{
    let mut a = [0u8; 12];
    let n = s.len();
    let mut i: usize = 0;
    while i < 12
        invariant
            i <= 12,
            n == s@.len(),
            pos + 12 <= s@.len(),
            a@.len() == 12,
            forall|j: int| 0 <= j < i ==> a@[j] == s@[pos + j],
        decreases 12 - i,
    {
        a[i] = s[pos + i];
        i = i + 1;
    }
    assert(a@ =~= s@.subrange(pos as int, pos + 12));
    a
}

/// Copies the 16 bytes at `pos` into an array.
pub fn read_array16(s: &[u8], pos: usize) -> (r: [u8; 16])
    requires
        pos + 16 <= s@.len(),
    ensures
        r@ == s@.subrange(pos as int, pos + 16),
{
    let mut a = [0u8; 16];
    let n = s.len();
    let mut i: usize = 0;
    while i < 16
        invariant
            i <= 16,
            n == s@.len(),
            pos + 16 <= s@.len(),
            a@.len() == 16,
            forall|j: int| 0 <= j < i ==> a@[j] == s@[pos + j],
        decreases 16 - i,
    {
        a[i] = s[pos + i];
        i = i + 1;
    }
    assert(a@ =~= s@.subrange(pos as int, pos + 16));
    a
}

/// Whether two byte strings are equal.
pub fn bytes_equal(a: &[u8], b: &[u8]) -> (r: bool)
    ensures
        r == (a@ == b@),
{
    if a.len() != b.len() {
        return false;
    }
    let mut i: usize = 0;
    while i < a.len()
        invariant
            i <= a@.len(),
            a@.len() == b@.len(),
            forall|j: int| 0 <= j < i ==> a@[j] == b@[j],
        decreases a@.len() - i,
    {
        if a[i] != b[i] {
            return false;
        }
        i = i + 1;
    }
    assert(a@ =~= b@);
    true
}

} // verus!
