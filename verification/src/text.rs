//! Decoding bytes as text, done by `std`.
use vstd::prelude::*;
use vstd::utf8::{decode_utf8, valid_utf8};

verus! {

/// Calls `String::from_utf8`: the string that `bytes` encode in UTF-8, or
/// `None` when they are not valid UTF-8. Trusted to agree with vstd's model of
/// UTF-8 (`valid_utf8`, `decode_utf8`).
#[verifier::external_body]
pub(crate) fn string_from_utf8(bytes: Vec<u8>) -> (r: Option<String>)
    ensures
        r is Some <==> valid_utf8(bytes@),
        r is Some ==> r->0@ == decode_utf8(bytes@),
{
    String::from_utf8(bytes).ok()
}

/// The characters of `s`, in order.
pub fn chars_of(s: &str) -> (r: Vec<char>)
    ensures
        r@ == s@,
{
    broadcast use vstd::string::axiom_spec_iter;
    let mut v: Vec<char> = Vec::new();
    for c in it: s.chars()
        invariant
            v@ == it.seq().take(it.index() as int),
    {
        v.push(c);
    }
    v
}

/// Calls `String::push`: appends the character `c`.
#[verifier::external_body]
pub(crate) fn push_char(s: &mut String, c: char)
    ensures
        final(s)@ == old(s)@.push(c),
{
    s.push(c);
}

/// The string made of `chars`, in order.
pub fn string_from_chars(chars: &[char]) -> (r: String)
    ensures
        r@ == chars@,
{
    let mut s = String::new();
    let mut i: usize = 0;
    while i < chars.len()
        invariant
            i <= chars@.len(),
            s@ == chars@.take(i as int),
        decreases chars@.len() - i,
    {
        push_char(&mut s, chars[i]);
        i = i + 1;
        assert(s@ =~= chars@.take(i as int));
    }
    assert(chars@.take(i as int) =~= chars@);
    s
}

/// The pieces of `s` between the occurrences of `d`, as `str::split` gives
/// them: one piece more than there are occurrences, empty pieces included.
pub open spec fn split_on(s: Seq<char>, d: char) -> Seq<Seq<char>>
    decreases s.len(),
{
    if s.len() == 0 {
        seq![Seq::empty()]
    } else {
        let pieces = split_on(s.drop_last(), d);
        if s.last() == d {
            pieces.push(Seq::empty())
        } else {
            pieces.update(pieces.len() - 1, pieces.last().push(s.last()))
        }
    }
}

/// There is always at least one piece.
pub proof fn lemma_split_on_len(s: Seq<char>, d: char)
    ensures
        split_on(s, d).len() >= 1,
    decreases s.len(),
{
    if s.len() > 0 {
        lemma_split_on_len(s.drop_last(), d);
    }
}

/// Splits `s` at each occurrence of `d` (see `split_on`).
pub fn split_chars(s: &[char], d: char) -> (r: Vec<Vec<char>>)
    ensures
        r@.map_values(|p: Vec<char>| p@) == split_on(s@, d),
{
    let mut done: Vec<Vec<char>> = Vec::new();
    let mut cur: Vec<char> = Vec::new();
    let mut i: usize = 0;
    while i < s.len()
        invariant
            i <= s@.len(),
            split_on(s@.take(i as int), d) == done@.map_values(|p: Vec<char>| p@).push(cur@),
        decreases s@.len() - i,
    {
        let c = s[i];
        proof {
            assert(s@.take(i + 1).drop_last() =~= s@.take(i as int));
            assert(s@.take(i + 1).last() == c);
        }
        if c == d {
            let piece = cur;
            done.push(piece);
            cur = Vec::new();
            proof {
                assert(done@.map_values(|p: Vec<char>| p@).push(cur@) =~= split_on(
                    s@.take(i as int),
                    d,
                ).push(Seq::empty()));
            }
        } else {
            let ghost before = cur@;
            cur.push(c);
            proof {
                let pieces = split_on(s@.take(i as int), d);
                assert(pieces.last() == before);
                assert(done@.map_values(|p: Vec<char>| p@).push(cur@) =~= pieces.update(
                    pieces.len() - 1,
                    pieces.last().push(c),
                ));
            }
        }
        i = i + 1;
    }
    assert(s@.take(i as int) =~= s@);
    done.push(cur);
    assert(done@.map_values(|p: Vec<char>| p@) =~= split_on(s@, d));
    done
}

/// An ASCII decimal digit.
pub open spec fn is_digit(c: char) -> bool {
    '0' <= c && c <= '9'
}

/// The number that the decimal digits `s` write.
pub open spec fn digits_value(s: Seq<char>) -> nat
    decreases s.len(),
{
    if s.len() == 0 {
        0
    } else {
        digits_value(s.drop_last()) * 10 + ((s.last() as nat) - ('0' as nat)) as nat
    }
}

pub open spec fn all_digits(s: Seq<char>) -> bool {
    forall|i: int| 0 <= i < s.len() ==> is_digit(#[trigger] s[i])
}

/// What `str::parse` gives for an unsigned integer type whose largest value
/// is `max`: an optional `+`, then one or more decimal digits, whose value is
/// at most `max`.
pub open spec fn parse_unsigned(s: Seq<char>, max: nat) -> Option<nat> {
    let d = if s.len() > 0 && s[0] == '+' {
        s.skip(1)
    } else {
        s
    };
    if d.len() > 0 && all_digits(d) && digits_value(d) <= max {
        Some(digits_value(d))
    } else {
        None
    }
}

/// What `str::parse` gives for a signed integer type whose values lie in
/// `[min, max]`: an optional sign, then one or more decimal digits.
pub open spec fn parse_signed(s: Seq<char>, min: int, max: nat) -> Option<int> {
    if s.len() > 0 && s[0] == '-' {
        let d = s.skip(1);
        if d.len() > 0 && all_digits(d) && -(digits_value(d) as int) >= min {
            Some(-(digits_value(d) as int))
        } else {
            None
        }
    } else {
        match parse_unsigned(s, max) {
            Some(v) => Some(v as int),
            None => None,
        }
    }
}

/// What `str::parse::<bool>` gives: `true` and `false` exactly.
pub open spec fn parse_bool(s: Seq<char>) -> Option<bool> {
    if s == seq!['t', 'r', 'u', 'e'] {
        Some(true)
    } else if s == seq!['f', 'a', 'l', 's', 'e'] {
        Some(false)
    } else {
        None
    }
}

/// Reads the digits `d[start..]`, saturating at `max + 1`: the value when it
/// is at most `max`, and `max + 1` when it is larger; `None` when a character
/// is not a digit.
fn digits_capped(d: &[char], start: usize, max: u64) -> (r: Option<u64>)
    requires
        start <= d@.len(),
        max < 0x1_0000_0000_0000,
    ensures
        all_digits(d@.skip(start as int)) <==> r is Some,
        r matches Some(v) ==> (if digits_value(d@.skip(start as int)) <= max {
            v == digits_value(d@.skip(start as int))
        } else {
            v == max + 1
        }),
{
    let ghost s = d@.skip(start as int);
    let mut v: u64 = 0;
    let mut i: usize = start;
    while i < d.len()
        invariant
            start <= i <= d@.len(),
            s == d@.skip(start as int),
            max < 0x1_0000_0000_0000,
            all_digits(s.take(i - start)),
            v == if digits_value(s.take(i - start)) <= max {
                digits_value(s.take(i - start))
            } else {
                (max + 1) as nat
            },
        decreases d@.len() - i,
    {
        let c = d[i];
        proof {
            assert(s.take(i + 1 - start).drop_last() =~= s.take(i - start));
            assert(s.take(i + 1 - start).last() == c);
        }
        if !('0' <= c && c <= '9') {
            proof {
                assert(!is_digit(s[i - start]));
            }
            return None;
        }
        let digit = (c as u32 - '0' as u32) as u64;
        proof {
            let x = digits_value(s.take(i - start));
            assert(digits_value(s.take(i + 1 - start)) == x * 10 + digit);
            if x > max {
                assert(x * 10 + digit > max) by (nonlinear_arith)
                    requires x > max;
            }
        }
        if v > max {
            v = max + 1;
        } else {
            let w = v * 10 + digit;
            if w > max {
                v = max + 1;
            } else {
                v = w;
            }
        }
        i = i + 1;
        proof {
            assert forall|k: int| 0 <= k < s.take(i - start).len() implies is_digit(
                #[trigger] s.take(i - start)[k],
            ) by {
                if k < i - 1 - start {
                    assert(s.take(i - start)[k] == s.take(i - 1 - start)[k]);
                }
            }
        }
    }
    assert(s.take(i - start) =~= s);
    Some(v)
}

/// Reads an unsigned integer of at most `max` (see `parse_unsigned`).
pub fn parse_unsigned_chars(s: &[char], max: u64) -> (r: Option<u64>)
    requires
        max < 0x1_0000_0000_0000,
    ensures
        match r {
            Some(v) => parse_unsigned(s@, max as nat) == Some(v as nat),
            None => parse_unsigned(s@, max as nat) is None,
        },
{
    let start: usize = if s.len() > 0 && s[0] == '+' {
        1
    } else {
        0
    };
    let ghost d = if s@.len() > 0 && s@[0] == '+' {
        s@.skip(1)
    } else {
        s@
    };
    assert(d =~= s@.skip(start as int));
    if start >= s.len() {
        return None;
    }
    match digits_capped(s, start, max) {
        Some(v) => if v > max {
            None
        } else {
            Some(v)
        },
        None => None,
    }
}

/// Reads an `i32` (see `parse_signed`).
pub fn parse_i32_chars(s: &[char]) -> (r: Option<i32>)
    ensures
        match r {
            Some(v) => parse_signed(s@, -0x8000_0000, 0x7fff_ffff) == Some(v as int),
            None => parse_signed(s@, -0x8000_0000, 0x7fff_ffff) is None,
        },
{
    if s.len() > 0 && s[0] == '-' {
        if s.len() == 1 {
            return None;
        }
        match digits_capped(s, 1, 0x8000_0000) {
            Some(v) => if v > 0x8000_0000 {
                None
            } else {
                Some((0 - (v as i64)) as i32)
            },
            None => None,
        }
    } else {
        match parse_unsigned_chars(s, 0x7fff_ffff) {
            Some(v) => Some(v as i32),
            None => None,
        }
    }
}

/// Reads `true` or `false` (see `parse_bool`).
pub fn parse_bool_chars(s: &[char]) -> (r: Option<bool>)
    ensures
        r == parse_bool(s@),
{
    let t = s.len() == 4 && s[0] == 't' && s[1] == 'r' && s[2] == 'u' && s[3] == 'e';
    let f = s.len() == 5 && s[0] == 'f' && s[1] == 'a' && s[2] == 'l' && s[3] == 's' && s[4]
        == 'e';
    if t {
        assert(s@ =~= seq!['t', 'r', 'u', 'e']);
        Some(true)
    } else if f {
        assert(s@ =~= seq!['f', 'a', 'l', 's', 'e']);
        Some(false)
    } else {
        proof {
            if s@ == seq!['t', 'r', 'u', 'e'] {
                assert(s@[0] == 't' && s@[1] == 'r' && s@[2] == 'u' && s@[3] == 'e');
            }
            if s@ == seq!['f', 'a', 'l', 's', 'e'] {
                assert(s@[0] == 'f' && s@[4] == 'e');
            }
        }
        None
    }
}

} // verus!
