//! Bytes written as hexadecimal text, and back.
use vstd::prelude::*;
use vstd::utf8::encode_utf8;
use crate::text::string_from_chars;

verus! {

/// The uppercase hexadecimal digit for `n` (below 16).
pub open spec fn hex_digit(n: u8) -> char {
    if n < 10 {
        (('0' as u8) + n) as char
    } else {
        (('A' as u8) + n - 10) as char
    }
}

/// Each byte as two uppercase hexadecimal digits, in order.
pub open spec fn hex_text(bytes: Seq<u8>) -> Seq<char>
    decreases bytes.len(),
{
    if bytes.len() == 0 {
        Seq::empty()
    } else {
        hex_text(bytes.drop_last()) + seq![
            hex_digit(bytes.last() / 16),
            hex_digit(bytes.last() % 16),
        ]
    }
}

/// The value of a hexadecimal digit (either case), if `c` is one.
pub open spec fn hex_value(c: u8) -> Option<u8> {
    if 48 <= c <= 57 {
        Some((c - 48) as u8)
    } else if 65 <= c <= 70 {
        Some((c - 55) as u8)
    } else if 97 <= c <= 102 {
        Some((c - 87) as u8)
    } else {
        None
    }
}

/// What `u8::from_str_radix(chunk, 16)` gives for one or two bytes: an
/// optional `+` before at least one digit, then hexadecimal digits.
pub open spec fn hex_chunk_value(c: Seq<u8>) -> Option<u8> {
    let d = if c.len() > 1 && c[0] == 43 {
        c.skip(1)
    } else {
        c
    };
    if d.len() == 1 {
        hex_value(d[0])
    } else if d.len() == 2 {
        match (hex_value(d[0]), hex_value(d[1])) {
            (Some(a), Some(b)) => Some((a * 16 + b) as u8),
            _ => None,
        }
    } else {
        None
    }
}

/// The bytes that the text `s` writes two characters at a time (the last
/// chunk may hold one), or `None` when a chunk is not a hexadecimal number.
pub open spec fn hex_decode(s: Seq<u8>) -> Option<Seq<u8>> {
    let n = (s.len() + 1) / 2;
    if forall|i: int| 0 <= i < n ==> #[trigger] hex_chunk_value(hex_chunk(s, i)) is Some {
        Some(Seq::new(n as nat, |i: int| hex_chunk_value(hex_chunk(s, i))->0))
    } else {
        None
    }
}

/// The `i`-th chunk of two characters of `s` (the last may hold one).
pub open spec fn hex_chunk(s: Seq<u8>, i: int) -> Seq<u8> {
    s.subrange(
        2 * i,
        if 2 * i + 2 <= s.len() {
            2 * i + 2
        } else {
            s.len() as int
        },
    )
}

fn hex_char(n: u8) -> (r: char)
    requires
        n < 16,
    ensures
        r == hex_digit(n),
{
    if n < 10 {
        ((48u8 + n) as char)
    } else {
        ((65u8 + n - 10) as char)
    }
}

/// Each byte of `bytes_vec` as two uppercase hexadecimal digits.
pub fn get_hex_from_bytes(bytes_vec: &Vec<u8>) -> (r: String)
    ensures
        r@ == hex_text(bytes_vec@),
{
    let mut chars: Vec<char> = Vec::new();
    let mut i: usize = 0;
    while i < bytes_vec.len()
        invariant
            i <= bytes_vec@.len(),
            chars@ == hex_text(bytes_vec@.take(i as int)),
        decreases bytes_vec@.len() - i,
    {
        let b = bytes_vec[i];
        chars.push(hex_char(b / 16));
        chars.push(hex_char(b % 16));
        proof {
            assert(bytes_vec@.take(i + 1).drop_last() =~= bytes_vec@.take(i as int));
            assert(chars@ =~= hex_text(bytes_vec@.take(i + 1)));
        }
        i = i + 1;
    }
    assert(bytes_vec@.take(i as int) =~= bytes_vec@);
    string_from_chars(chars.as_slice())
}

/// Reverses the bytes (in place) and writes them as hexadecimal, the way
/// hashes are shown.
pub fn get_string_representation_from_bytes(bytes_vec: &mut Vec<u8>) -> (r: String)
    ensures
        final(bytes_vec)@ == old(bytes_vec)@.reverse(),
        r@ == hex_text(old(bytes_vec)@.reverse()),
{
    let n = bytes_vec.len();
    let mut reversed: Vec<u8> = Vec::new();
    let mut i: usize = 0;
    while i < n
        invariant
            i <= n,
            n == bytes_vec@.len(),
            reversed@ == bytes_vec@.reverse().take(i as int),
        decreases n - i,
    {
        reversed.push(bytes_vec[n - 1 - i]);
        i = i + 1;
        assert(reversed@ =~= bytes_vec@.reverse().take(i as int));
    }
    assert(reversed@ =~= bytes_vec@.reverse());
    *bytes_vec = reversed;
    get_hex_from_bytes(bytes_vec)
}

fn hex_value_of(c: u8) -> (r: Option<u8>)
    ensures
        r == hex_value(c),
{
    if 48 <= c && c <= 57 {
        Some(c - 48)
    } else if 65 <= c && c <= 70 {
        Some(c - 55)
    } else if 97 <= c && c <= 102 {
        Some(c - 87)
    } else {
        None
    }
}

fn chunk_value(s: &[u8], start: usize, end: usize) -> (r: Option<u8>)
    requires
        start < end <= s@.len(),
        end - start <= 2,
    ensures
        r == hex_chunk_value(s@.subrange(start as int, end as int)),
{
    let ghost c = s@.subrange(start as int, end as int);
    let mut a = start;
    if end - start > 1 && s[start] == 43 {
        a = start + 1;
    }
    let ghost d = if c.len() > 1 && c[0] == 43 {
        c.skip(1)
    } else {
        c
    };
    assert(d =~= s@.subrange(a as int, end as int));
    if end - a == 1 {
        hex_value_of(s[a])
    } else {
        match (hex_value_of(s[a]), hex_value_of(s[a + 1])) {
            (Some(x), Some(y)) => Some(x * 16 + y),
            _ => None,
        }
    }
}

/// The bytes that `hex_string` writes in hexadecimal, two characters a byte
/// (see `hex_decode`); `None` when it is not hexadecimal.
pub fn get_bytes_from_hex(hex_string: String) -> (r: Option<Vec<u8>>)
    ensures
        match r {
            Some(v) => hex_decode(encode_utf8(hex_string@)) == Some(v@),
            None => hex_decode(encode_utf8(hex_string@)) is None,
        },
{
    let s = hex_string.as_str().as_bytes();
    let len = s.len();
    let n = len / 2 + len % 2;
    let mut result: Vec<u8> = Vec::new();
    let mut i: usize = 0;
    while i < n
        invariant
            i <= n,
            len == s@.len(),
            n == (len + 1) / 2,
            result@.len() == i,
            s@ == encode_utf8(hex_string@),
            forall|j: int| 0 <= j < i ==> #[trigger] hex_chunk_value(hex_chunk(s@, j)) == Some(
                result@[j],
            ),
        decreases n - i,
    {
        let start = 2 * i;
        let end = if len - start >= 2 {
            start + 2
        } else {
            len
        };
        match chunk_value(s, start, end) {
            Some(v) => result.push(v),
            None => {
                assert(hex_chunk_value(hex_chunk(s@, i as int)) is None);
                return None;
            },
        }
        i = i + 1;
    }
    assert(result@ =~= Seq::new(n as nat, |j: int| hex_chunk_value(hex_chunk(s@, j))->0));
    Some(result)
}

/// The text of `bytes` has two digits for each byte, in order.
proof fn lemma_hex_text_shape(bytes: Seq<u8>)
    ensures
        hex_text(bytes).len() == 2 * bytes.len(),
        forall|k: int|
            0 <= k < bytes.len() ==> hex_text(bytes)[2 * k] == hex_digit(#[trigger] bytes[k] / 16)
                && hex_text(bytes)[2 * k + 1] == hex_digit(bytes[k] % 16),
    decreases bytes.len(),
{
    if bytes.len() > 0 {
        let init = bytes.drop_last();
        lemma_hex_text_shape(init);
        assert forall|k: int| 0 <= k < bytes.len() implies hex_text(bytes)[2 * k] == hex_digit(
            #[trigger] bytes[k] / 16,
        ) && hex_text(bytes)[2 * k + 1] == hex_digit(bytes[k] % 16) by {
            if k < init.len() {
                assert(bytes[k] == init[k]);
            }
        }
    }
}

/// A digit is an ASCII character whose byte reads back as the digit.
proof fn lemma_hex_digit_byte(n: u8)
    requires
        n < 16,
    ensures
        '\0' <= hex_digit(n) <= '\u{7f}',
        hex_digit(n) as u8 != 43,
        hex_value(hex_digit(n) as u8) == Some(n),
{
    if n < 10 {
        assert(hex_digit(n) as u32 == 48 + n);
    } else {
        assert(hex_digit(n) as u32 == 55 + n);
    }
}

/// The law of the hexadecimal text: reading back the text written for any
/// bytes gives the bytes.
pub proof fn lemma_hex_roundtrip(bytes: Seq<u8>)
    ensures
        hex_decode(encode_utf8(hex_text(bytes))) == Some(bytes),
{
    let t = hex_text(bytes);
    lemma_hex_text_shape(bytes);
    assert forall|i: int| 0 <= i < t.len() implies '\0' <= #[trigger] t[i] <= '\u{7f}' by {
        let k = i / 2;
        assert(0 <= k < bytes.len());
        lemma_hex_digit_byte(bytes[k] / 16);
        lemma_hex_digit_byte(bytes[k] % 16);
        if i % 2 == 0 {
            assert(i == 2 * k);
        } else {
            assert(i == 2 * k + 1);
        }
    }
    assert(vstd::utf8::is_ascii_chars(t));
    vstd::utf8::is_ascii_chars_encode_utf8(t);
    let s = encode_utf8(t);
    let n = (s.len() + 1) / 2;
    assert(n == bytes.len());
    assert forall|k: int| 0 <= k < n implies #[trigger] hex_chunk_value(hex_chunk(s, k)) == Some(
        bytes[k],
    ) by {
        let c = hex_chunk(s, k);
        assert(c.len() == 2);
        assert(c[0] == s[2 * k] && c[1] == s[2 * k + 1]);
        assert(s[2 * k] == t[2 * k] as u8);
        assert(s[2 * k + 1] == t[2 * k + 1] as u8);
        lemma_hex_digit_byte(bytes[k] / 16);
        lemma_hex_digit_byte(bytes[k] % 16);
        assert(hex_value(c[0]) == Some(bytes[k] / 16));
        assert(hex_value(c[1]) == Some(bytes[k] % 16));
        assert((bytes[k] / 16) * 16 + bytes[k] % 16 == bytes[k]);
    }
    assert(Seq::new(n as nat, |i: int| hex_chunk_value(hex_chunk(s, i))->0) =~= bytes);
}

} // verus!
