//! A drawing, in text, of the path of a proof of inclusion up to the Merkle
//! root, as the user interface shows it.
use vstd::prelude::*;
use crate::block_proofs::{hash_pair, hash_pairs_for_merkle_tree, pairs_view, HashPair, HashPairView};
use crate::codec::hash_eq;
use crate::text::string_from_chars;

verus! {

/// Whether the path turns left at step `k` of the pairs `q` (taken from the
/// root down): the hash of the pair is the left hash of the pair above it
/// (the root itself for the first pair).
pub open spec fn moves_left(q: Seq<HashPairView>, k: int) -> bool {
    hash_pair(q[k].left, q[k].right) == if k == 0 {
        hash_pair(q[0].left, q[0].right)
    } else {
        q[k - 1].left
    }
}

/// The column of the left mark after `k` steps: it starts two columns after
/// the number of pairs and moves one column to the left or to the right at
/// each step.
pub open spec fn left_position(q: Seq<HashPairView>, k: nat) -> int
    decreases k,
{
    if k == 0 {
        q.len() + 2int
    } else {
        left_position(q, (k - 1) as nat) + if moves_left(q, k - 1) {
            -1int
        } else {
            1int
        }
    }
}

/// The decimal digits of `n`.
pub open spec fn decimal(n: nat) -> Seq<char>
    decreases n,
{
    if n < 10 {
        seq![(48 + n) as char]
    } else {
        decimal(n / 10).push((48 + n % 10) as char)
    }
}

/// An empty cell.
pub open spec fn blank() -> Seq<char> {
    seq![' ', ' ']
}

/// The text of the cell at row `r` and column `c`: the root `MR` on the first
/// row; on the row after each step, the branches ` /` and `\ ` over the two
/// hashes of the pair; on the row after that, the pair's number followed by
/// `L` and `R`.
pub open spec fn cell(q: Seq<HashPairView>, r: int, c: int) -> Seq<char> {
    let n = q.len();
    if r == 0 {
        if c == n + 2 {
            seq!['M', 'R']
        } else {
            blank()
        }
    } else {
        let k = (r - 1) / 2;
        let p = left_position(q, (k + 1) as nat);
        if r % 2 == 1 {
            if c == p {
                seq![' ', '/']
            } else if c == p + 2 {
                seq!['\\', ' ']
            } else {
                blank()
            }
        } else {
            if c == p {
                decimal((k + 1) as nat).push('L')
            } else if c == p + 2 {
                decimal((k + 1) as nat).push('R')
            } else {
                blank()
            }
        }
    }
}

/// The first `w` cells of row `r`, one after the other.
pub open spec fn row_text(q: Seq<HashPairView>, r: int, w: nat) -> Seq<char>
    decreases w,
{
    if w == 0 {
        Seq::empty()
    } else {
        row_text(q, r, (w - 1) as nat) + cell(q, r, w - 1)
    }
}

/// The first `h` rows, each as wide as twice the number of pairs and four
/// more, separated by line breaks.
pub open spec fn drawing_rows(q: Seq<HashPairView>, h: nat) -> Seq<char>
    decreases h,
{
    let w = (2 * q.len() + 4) as nat;
    if h == 0 {
        Seq::empty()
    } else if h == 1 {
        row_text(q, 0, w)
    } else {
        drawing_rows(q, (h - 1) as nat) + seq!['\n'] + row_text(q, h - 1, w)
    }
}

/// The drawing of the pairs `q`, taken from the root down: one row for the
/// root and two for each pair.
pub open spec fn proof_drawing(q: Seq<HashPairView>) -> Seq<char> {
    drawing_rows(q, (2 * q.len() + 1) as nat)
}

/// After `k` steps the left mark is at most `k` columns away from where it
/// started, and after the first step, which always turns left, it is at
/// least one column to the left of the furthest right it could be.
proof fn lemma_left_position_bounds(q: Seq<HashPairView>, k: nat)
    requires
        1 <= q.len(),
    ensures
        q.len() + 2 - k <= left_position(q, k) <= q.len() + 2 + k,
        k >= 1 ==> left_position(q, k) <= q.len() + k,
    decreases k,
{
    if k > 0 {
        lemma_left_position_bounds(q, (k - 1) as nat);
        if k == 1 {
            assert(moves_left(q, 0));
        }
    }
}

/// The character of the digit `d`.
fn digit_char(d: usize) -> (c: char)
    requires
        d < 10,
    ensures
        c == (48 + d) as char,
{
    if d == 0 {
        '0'
    } else if d == 1 {
        '1'
    } else if d == 2 {
        '2'
    } else if d == 3 {
        '3'
    } else if d == 4 {
        '4'
    } else if d == 5 {
        '5'
    } else if d == 6 {
        '6'
    } else if d == 7 {
        '7'
    } else if d == 8 {
        '8'
    } else {
        '9'
    }
}

/// Appends the decimal digits of `n`.
fn push_decimal(n: usize, out: &mut Vec<char>)
    ensures
        final(out)@ == old(out)@ + decimal(n as nat),
    decreases n,
{
    if n >= 10 {
        push_decimal(n / 10, out);
    }
    let c = digit_char(n % 10);
    out.push(c);
    proof {
        if n < 10 {
            assert(n % 10 == n);
        }
    }
}

/// Appends the cell at row `r` and column `c`, where `p` is the column of
/// the left mark of the row.
fn push_cell(
    q: Ghost<Seq<HashPairView>>,
    n: usize,
    r: usize,
    c: usize,
    p: usize,
    out: &mut Vec<char>,
)
    requires
        n == q@.len(),
        n + 2 <= usize::MAX,
        p + 2 <= usize::MAX,
        r >= 1 ==> p == left_position(q@, ((r - 1) / 2 + 1) as nat),
    ensures
        final(out)@ == old(out)@ + cell(q@, r as int, c as int),
{
    if r == 0 {
        if c == n + 2 {
            out.push('M');
            out.push('R');
        } else {
            out.push(' ');
            out.push(' ');
        }
    } else if r % 2 == 1 {
        if c == p {
            out.push(' ');
            out.push('/');
        } else if c == p + 2 {
            out.push('\\');
            out.push(' ');
        } else {
            out.push(' ');
            out.push(' ');
        }
    } else {
        let k = (r - 1) / 2;
        if c == p {
            push_decimal(k + 1, out);
            out.push('L');
        } else if c == p + 2 {
            push_decimal(k + 1, out);
            out.push('R');
        } else {
            out.push(' ');
            out.push(' ');
        }
    }
}

/// Draws the path of the proof `hash_pairs`, given from the transaction up,
/// from the Merkle root down (see `proof_drawing`); the pairs are left in
/// that order, reversed.
pub fn funcion_re_fachera(hash_pairs: &mut Vec<HashPair>) -> (r: String)
    requires
        1 <= old(hash_pairs)@.len() < i32::MAX,
        2 * old(hash_pairs)@.len() + 4 <= usize::MAX,
    ensures
        final(hash_pairs)@ == old(hash_pairs)@.reverse(),
        r@ == proof_drawing(pairs_view(old(hash_pairs)@.reverse())),
{
    let ghost given = hash_pairs@;
    assert(2 * hash_pairs.len() + 4 <= usize::MAX);
    let mut reversed: Vec<HashPair> = Vec::new();
    let mut i: usize = hash_pairs.len();
    while i > 0
        invariant
            i <= hash_pairs@.len(),
            hash_pairs@ == given,
            reversed@.len() == given.len() - i,
            forall|j: int| 0 <= j < reversed@.len() ==> reversed@[j] == given[given.len() - 1 - j],
        decreases i,
    {
        i = i - 1;
        reversed.push(hash_pairs[i]);
    }
    assert(reversed@ =~= given.reverse());
    *hash_pairs = reversed;
    let ghost q = pairs_view(hash_pairs@);
    let n = hash_pairs.len();
    let root = hash_pairs_for_merkle_tree(hash_pairs[0].left(), hash_pairs[0].right());
    let mut left_hash = root;
    let mut p: usize = n + 2;
    let mut positions: Vec<usize> = Vec::new();
    let mut k: usize = 0;
    proof {
        lemma_left_position_bounds(q, 0);
    }
    while k < n
        invariant
            k <= n,
            n == hash_pairs@.len(),
            n < i32::MAX,
            2 * n + 4 <= usize::MAX,
            q == pairs_view(hash_pairs@),
            p == left_position(q, k as nat),
            left_hash@ == if k == 0 {
                hash_pair(q[0].left, q[0].right)
            } else {
                q[k - 1].left
            },
            positions@.len() == k,
            forall|j: int| 0 <= j < k ==> positions@[j] == left_position(q, (j + 1) as nat),
        decreases n - k,
    {
        proof {
            lemma_left_position_bounds(q, k as nat);
            lemma_left_position_bounds(q, (k + 1) as nat);
        }
        let pair = hash_pairs[k];
        assert(q[k as int] == pair@);
        let hashed_pair = hash_pairs_for_merkle_tree(pair.left(), pair.right());
        if hash_eq(&hashed_pair, &left_hash) {
            p = p - 1;
        } else {
            p = p + 1;
        }
        positions.push(p);
        left_hash = pair.left();
        k = k + 1;
    }
    let height = 2 * n + 1;
    let width = 2 * n + 4;
    let mut out: Vec<char> = Vec::new();
    let mut r: usize = 0;
    while r < height
        invariant
            r <= height,
            height == 2 * n + 1,
            width == 2 * n + 4,
            2 * n + 4 <= usize::MAX,
            n == q.len(),
            n >= 1,
            n < i32::MAX,
            positions@.len() == n,
            forall|j: int| 0 <= j < n ==> positions@[j] == left_position(q, (j + 1) as nat),
            out@ == drawing_rows(q, r as nat),
        decreases height - r,
    {
        if r > 0 {
            out.push('\n');
        }
        let ghost start = out@;
        let p_row: usize = if r == 0 {
            0
        } else {
            positions[(r - 1) / 2]
        };
        proof {
            if r >= 1 {
                lemma_left_position_bounds(q, ((r - 1) / 2 + 1) as nat);
            }
        }
        let mut c: usize = 0;
        while c < width
            invariant
                c <= width,
                width == 2 * n + 4,
                2 * n + 4 <= usize::MAX,
                p_row <= 2 * n,
                n == q.len(),
                r < height,
                height == 2 * n + 1,
                r >= 1 ==> p_row == left_position(q, ((r - 1) / 2 + 1) as nat),
                out@ == start + row_text(q, r as int, c as nat),
            decreases width - c,
        {
            push_cell(Ghost(q), n, r, c, p_row, &mut out);
            assert(start + row_text(q, r as int, (c + 1) as nat) =~= start + row_text(
                q,
                r as int,
                c as nat,
            ) + cell(q, r as int, c as int));
            c = c + 1;
        }
        proof {
            if r == 0 {
                assert(start =~= Seq::<char>::empty());
                assert(out@ =~= drawing_rows(q, 1));
            } else {
                assert(out@ =~= drawing_rows(q, (r + 1) as nat));
            }
        }
        r = r + 1;
    }
    string_from_chars(out.as_slice())
}

} // verus!
