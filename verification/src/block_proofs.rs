//! Proof of work and proofs of inclusion (Merkle trees).
use vstd::prelude::*;
use crate::blockchain::{header_hash, Block, BlockHeader, HeaderView};
use crate::codec::{hash_eq, push_all};
use crate::hashing::{double_sha256, sha256d_hash};
use crate::transaction::transaction_bytes;

verus! {

// ------------------------------------------------------------------------
// Proof of work
// ------------------------------------------------------------------------

/// The byte that the difficulty bits give as the exponent.
pub open spec fn nbits_exponent(n_bits: u32) -> int {
    (n_bits & 0xff) as int
}

/// The three bytes of the significand, most significant first.
pub open spec fn nbits_significand(n_bits: u32, i: int) -> u8 {
    if i == 0 {
        ((n_bits >> 8u32) & 0xff) as u8
    } else if i == 1 {
        ((n_bits >> 16u32) & 0xff) as u8
    } else {
        ((n_bits >> 24u32) & 0xff) as u8
    }
}

/// The 32-byte big-endian target: the significand placed so that it ends
/// `exponent - 3` bytes before the last byte; the rest are zero.
pub open spec fn target_threshold(n_bits: u32) -> Seq<u8> {
    Seq::new(
        32,
        |j: int|
            {
                let start = 32 - nbits_exponent(n_bits);
                if start <= j < start + 3 {
                    nbits_significand(n_bits, j - start)
                } else {
                    0u8
                }
            },
    )
}

/// `a` is lexicographically at most `b` (same lengths).
pub open spec fn lex_le(a: Seq<u8>, b: Seq<u8>) -> bool
    decreases a.len(),
{
    if a.len() == 0 || b.len() == 0 {
        true
    } else if a[0] < b[0] {
        true
    } else if a[0] > b[0] {
        false
    } else {
        lex_le(a.drop_first(), b.drop_first())
    }
}

/// The header's hash, read as a big-endian number, is at most the target.
pub open spec fn proof_of_work_valid(h: HeaderView) -> bool {
    lex_le(header_hash(h).reverse(), target_threshold(h.n_bits))
}

/// The target threshold of the difficulty bits `n_bits`.
pub fn get_target_threshold(n_bits: u32) -> (r: [u8; 32])
    ensures
        r@ == target_threshold(n_bits),
{
    let exponent: u32 = n_bits & 0xff;
    let significand: [u8; 3] = [
        ((n_bits >> 8u32) & 0xff) as u8,
        ((n_bits >> 16u32) & 0xff) as u8,
        ((n_bits >> 24u32) & 0xff) as u8,
    ];
    let mut threshold = [0u8; 32];
    assert(exponent <= 255) by (bit_vector)
        requires
            exponent == n_bits & 0xff,
    ;
    let starting: i32 = 32 - (exponent as i32);
    let mut i: i32 = 0;
    while i < 3
        invariant
            0 <= i <= 3,
            starting == 32 - nbits_exponent(n_bits),
            significand@ == seq![
                nbits_significand(n_bits, 0),
                nbits_significand(n_bits, 1),
                nbits_significand(n_bits, 2),
            ],
            threshold@.len() == 32,
            forall|j: int|
                0 <= j < 32 ==> #[trigger] threshold@[j] == (if starting <= j < starting
                    + i { nbits_significand(n_bits, j - starting) } else { 0u8 }),
        decreases 3 - i,
    {
        if (starting + i >= 0) && (starting + i < 32) {
            threshold[(starting + i) as usize] = significand[i as usize];
        }
        i = i + 1;
    }
    assert(threshold@ =~= target_threshold(n_bits));
    threshold
}

/// Whether the header's hash, read as a big-endian number, is at most the
/// target that its difficulty bits give.
pub fn validate_proof_of_work(block_header: &BlockHeader) -> (r: bool)
    ensures
        r == proof_of_work_valid(block_header@),
{
    let n_bits = block_header.get_n_bits();
    let block_header_hash = block_header.hash();
    let threshold = get_target_threshold(n_bits);
    let ghost a = block_header_hash@.reverse();
    let ghost b = threshold@;
    assert(a.skip(0) =~= a);
    assert(b.skip(0) =~= b);
    assert(block_header_hash@ == header_hash(block_header@));
    assert(b == target_threshold(block_header@.n_bits));
    assert(proof_of_work_valid(block_header@) == lex_le(a, b));
    let mut i: usize = 0;
    while i < 32
        invariant
            i <= 32,
            a == block_header_hash@.reverse(),
            b == threshold@,
            a.len() == 32,
            b.len() == 32,
            forall|j: int| 0 <= j < i ==> a[j] == b[j],
            lex_le(a, b) == lex_le(a.skip(i as int), b.skip(i as int)),
            proof_of_work_valid(block_header@) == lex_le(a, b),
        decreases 32 - i,
    {
        let x = block_header_hash[31 - i];
        let y = threshold[i];
        assert(x == a[i as int]);
        assert(y == b[i as int]);
        assert(a.skip(i as int).len() > 0 && b.skip(i as int).len() > 0);
        assert(a.skip(i as int)[0] == a[i as int]);
        assert(b.skip(i as int)[0] == b[i as int]);
        if x < y {
            assert(lex_le(a.skip(i as int), b.skip(i as int)));
            return true;
        } else if x > y {
            assert(!lex_le(a.skip(i as int), b.skip(i as int)));
            return false;
        }
        assert(a.skip(i as int).drop_first() =~= a.skip(i + 1));
        assert(b.skip(i as int).drop_first() =~= b.skip(i + 1));
        i = i + 1;
    }
    true
}

// ------------------------------------------------------------------------
// Merkle trees
// ------------------------------------------------------------------------

/// The hash of two concatenated hashes.
pub open spec fn hash_pair(a: Seq<u8>, b: Seq<u8>) -> Seq<u8> {
    double_sha256(a + b)
}

/// A level with an odd number of hashes gets its last hash repeated.
pub open spec fn pad_level(h: Seq<Seq<u8>>) -> Seq<Seq<u8>> {
    if h.len() % 2 == 1 {
        h.push(h.last())
    } else {
        h
    }
}

/// The level above a level of even length: the hashes of its pairs.
pub open spec fn next_level(p: Seq<Seq<u8>>) -> Seq<Seq<u8>> {
    Seq::new(p.len() / 2, |i: int| hash_pair(p[2 * i], p[2 * i + 1]))
}

/// A level as it is kept in the tree: padded, unless it is the root.
pub open spec fn stored_level(h: Seq<Seq<u8>>) -> Seq<Seq<u8>> {
    if h.len() <= 1 {
        h
    } else {
        pad_level(h)
    }
}

/// All levels of the Merkle tree over the leaves `h`, root first and leaves
/// (padded) last.
pub open spec fn merkle_levels(h: Seq<Seq<u8>>) -> Seq<Seq<Seq<u8>>>
    decreases h.len(),
{
    if h.len() <= 1 {
        seq![h]
    } else {
        merkle_levels(next_level(pad_level(h))).push(pad_level(h))
    }
}

/// The Merkle root over the leaves `h` (at least one).
pub open spec fn merkle_root(h: Seq<Seq<u8>>) -> Seq<u8> {
    merkle_levels(h)[0][0]
}

pub open spec fn hashes_view(v: Seq<[u8; 32]>) -> Seq<Seq<u8>> {
    v.map_values(|h: [u8; 32]| h@)
}

pub open spec fn levels_view(t: Seq<Vec<[u8; 32]>>) -> Seq<Seq<Seq<u8>>> {
    t.map_values(|l: Vec<[u8; 32]>| hashes_view(l@))
}

/// The hashes of the transactions of a block, in order.
pub open spec fn tx_hashes(b: crate::blockchain::BlockView) -> Seq<Seq<u8>> {
    Seq::new(b.transactions.len(), |i: int| double_sha256(transaction_bytes(b.transactions[i])))
}

/// The hash of the concatenation of two hashes.
pub fn hash_pairs_for_merkle_tree(hash_1: [u8; 32], hash_2: [u8; 32]) -> (r: [u8; 32])
    ensures
        r@ == hash_pair(hash_1@, hash_2@),
{
    let mut total_hash: Vec<u8> = Vec::new();
    push_all(&mut total_hash, hash_1.as_slice());
    push_all(&mut total_hash, hash_2.as_slice());
    sha256d_hash(total_hash.as_slice())
}

/// Appends to `merkle_tree` the levels of the Merkle tree over
/// `hash_vector`, root first and the (padded) leaves last.
pub fn calculate_merkle_tree_level(
    hash_vector: Vec<[u8; 32]>,
    merkle_tree: &mut Vec<Vec<[u8; 32]>>,
)
    requires
        hash_vector@.len() >= 1,
    ensures
        levels_view(final(merkle_tree)@) == levels_view(old(merkle_tree)@) + merkle_levels(
            hashes_view(hash_vector@),
        ),
    decreases hash_vector@.len(),
{
    let ghost h = hashes_view(hash_vector@);
    if hash_vector.len() == 1 {
        let ghost before = merkle_tree@;
        merkle_tree.push(hash_vector);
        proof {
            assert(levels_view(merkle_tree@) =~= levels_view(before) + merkle_levels(h));
        }
        return ;
    }
    let mut hash_vector = hash_vector;
    if hash_vector.len() % 2 != 0 {
        let last_transaction_hash = hash_vector[hash_vector.len() - 1];
        hash_vector.push(last_transaction_hash);
    }
    assert(hashes_view(hash_vector@) =~= pad_level(h));
    let mut new_hash_vector: Vec<[u8; 32]> = Vec::new();
    let len = hash_vector.len();
    let half = len / 2;
    let mut i: usize = 0;
    while i < half
        invariant
            len == hash_vector@.len(),
            i <= half,
            half == hash_vector@.len() / 2,
            2 * half <= hash_vector@.len(),
            hashes_view(hash_vector@) == pad_level(h),
            new_hash_vector@.len() == i,
            forall|k: int|
                0 <= k < i ==> #[trigger] new_hash_vector@[k]@ == hash_pair(
                    hash_vector@[2 * k]@,
                    hash_vector@[2 * k + 1]@,
                ),
        decreases half - i,
    {
        let new_hash = hash_pairs_for_merkle_tree(hash_vector[2 * i], hash_vector[2 * i + 1]);
        new_hash_vector.push(new_hash);
        i = i + 1;
    }
    assert(hashes_view(new_hash_vector@) =~= next_level(pad_level(h)));
    calculate_merkle_tree_level(new_hash_vector, merkle_tree);
    let ghost mid = merkle_tree@;
    merkle_tree.push(hash_vector);
    proof {
        assert(levels_view(merkle_tree@) =~= levels_view(mid).push(pad_level(h)));
    }
}

/// Whether the Merkle root of the block's transactions is the one its header
/// holds. A block without transactions passes.
pub fn validate_block_proof_of_inclusion(block: &Block) -> (r: bool)
    ensures
        r == (block@.transactions.len() == 0 || merkle_root(tx_hashes(block@))
            == block@.header.merkle_root_hash),
{
    let hash_vector = block.get_tx_hashes();
    if hash_vector.len() == 0 {
        return true;
    }
    assert(hashes_view(hash_vector@) =~= tx_hashes(block@));
    let mut merkle_tree: Vec<Vec<[u8; 32]>> = Vec::new();
    calculate_merkle_tree_level(hash_vector, &mut merkle_tree);
    proof {
        assert(levels_view(merkle_tree@) =~= merkle_levels(tx_hashes(block@)));
        lemma_merkle_levels_shape(tx_hashes(block@));
    }
    let header = block.get_header();
    let root = merkle_tree[0][0];
    assert(root@ == merkle_root(tx_hashes(block@)));
    hash_eq(&root, header.get_merkle_root())
}

// ------------------------------------------------------------------------
// The shape of the tree
// ------------------------------------------------------------------------

/// The levels of a Merkle tree over at least one leaf: the root level holds
/// one hash; every other level holds an even number, at least two, and the
/// level above it is the stored form of the hashes of its pairs.
pub open spec fn levels_well_shaped(levels: Seq<Seq<Seq<u8>>>) -> bool {
    &&& levels.len() >= 1
    &&& levels[0].len() == 1
    &&& forall|i: int|
        0 < i < levels.len() ==> {
            &&& #[trigger] levels[i].len() >= 2
            &&& levels[i].len() % 2 == 0
            &&& levels[i - 1] == stored_level(next_level(levels[i]))
        }
}

/// The levels of the Merkle tree over any non-empty list of leaves are well
/// shaped, and the last level is the stored form of the leaves.
pub proof fn lemma_merkle_levels_shape(h: Seq<Seq<u8>>)
    requires
        h.len() >= 1,
    ensures
        levels_well_shaped(merkle_levels(h)),
        merkle_levels(h).last() == stored_level(h),
    decreases h.len(),
{
    if h.len() > 1 {
        let p = pad_level(h);
        let n = next_level(p);
        assert(n.len() >= 1);
        lemma_merkle_levels_shape(n);
        let lower = merkle_levels(n);
        let levels = lower.push(p);
        assert(levels == merkle_levels(h));
        assert forall|i: int| 0 < i < levels.len() implies {
            &&& #[trigger] levels[i].len() >= 2
            &&& levels[i].len() % 2 == 0
            &&& levels[i - 1] == stored_level(next_level(levels[i]))
        } by {
            if i == levels.len() - 1 {
                assert(levels[i] == p);
                assert(levels[i - 1] == lower.last());
            } else {
                assert(levels[i] == lower[i]);
                assert(levels[i - 1] == lower[i - 1]);
            }
        }
    }
}

// ------------------------------------------------------------------------
// Proofs of inclusion
// ------------------------------------------------------------------------

/// Which side of a pair the path of a proof comes from.
#[derive(Debug, PartialEq, Eq, Clone, Copy, Structural)]
pub enum Side {
    Left,
    Right,
}

/// One step of a proof of inclusion: two sibling hashes, and the side on which
/// the hash being proved (or the one computed so far) stands.
#[derive(Debug, PartialEq, Eq, Clone, Copy)]
pub struct HashPair {
    pub left: [u8; 32],
    pub right: [u8; 32],
    path_comes_from: Side,
}

/// A step of a proof of inclusion as plain values.
pub struct HashPairView {
    pub left: Seq<u8>,
    pub right: Seq<u8>,
    pub from_right: bool,
}

impl View for HashPair {
    type V = HashPairView;

    closed spec fn view(&self) -> HashPairView {
        HashPairView {
            left: self.left@,
            right: self.right@,
            from_right: self.path_comes_from == Side::Right,
        }
    }
}

pub open spec fn pairs_view(v: Seq<HashPair>) -> Seq<HashPairView> {
    v.map_values(|p: HashPair| p@)
}

/// The hash stands on the side of the pair that the path comes from.
pub open spec fn pair_holds(p: HashPairView, h: Seq<u8>) -> bool {
    if p.from_right {
        p.right == h
    } else {
        p.left == h
    }
}

/// Follows a proof from the hash `h`: at each step the current hash must be on
/// the path's side of the pair, and the pair's hash becomes the current one.
/// The result is the hash reached, if every step holds.
pub open spec fn follow_proof(pairs: Seq<HashPairView>, h: Seq<u8>) -> Option<Seq<u8>>
    decreases pairs.len(),
{
    if pairs.len() == 0 {
        Some(h)
    } else if pair_holds(pairs[0], h) {
        follow_proof(pairs.drop_first(), hash_pair(pairs[0].left, pairs[0].right))
    } else {
        None
    }
}

/// The pair that the position `pos` of a level belongs to.
pub open spec fn pair_at(level: Seq<Seq<u8>>, pos: int) -> HashPairView {
    if pos % 2 == 0 {
        HashPairView { left: level[pos], right: level[pos + 1], from_right: false }
    } else {
        HashPairView { left: level[pos - 1], right: level[pos], from_right: true }
    }
}

/// The proof for position `pos` of level `i`, going up to the root.
pub open spec fn path_from(levels: Seq<Seq<Seq<u8>>>, i: int, pos: int) -> Seq<HashPairView>
    decreases i + 1,
{
    if i < 0 || i >= levels.len() || levels[i].len() == 1 {
        Seq::empty()
    } else {
        seq![pair_at(levels[i], pos)] + path_from(levels, i - 1, pos / 2)
    }
}

/// The first position of `h` in `s`.
pub open spec fn first_match(s: Seq<Seq<u8>>, h: Seq<u8>) -> Option<int>
    decreases s.len(),
{
    if s.len() == 0 {
        None
    } else if s[0] == h {
        Some(0)
    } else {
        match first_match(s.drop_first(), h) {
            Some(i) => Some(i + 1),
            None => None,
        }
    }
}

/// The position at which a proof starts: the first leaf equal to the hash, or
/// the first leaf when none is.
pub open spec fn start_position(leaves: Seq<Seq<u8>>, h: Seq<u8>) -> int {
    match first_match(leaves, h) {
        Some(i) => i,
        None => 0,
    }
}

/// The proof that `proof_of_transaction_included_in` builds over the leaves.
pub open spec fn inclusion_proof(leaves: Seq<Seq<u8>>, h: Seq<u8>) -> Seq<HashPairView> {
    let levels = merkle_levels(leaves);
    path_from(levels, levels.len() - 1, start_position(levels.last(), h))
}

impl HashPair {
    /// The left hash of the pair.
    pub fn left(&self) -> (r: [u8; 32])
        ensures
            r@ == self@.left,
    {
        self.left
    }

    /// The right hash of the pair.
    pub fn right(&self) -> (r: [u8; 32])
        ensures
            r@ == self@.right,
    {
        self.right
    }

    /// Creates a pair.
    pub fn new(left: [u8; 32], right: [u8; 32], side: Side) -> (r: HashPair)
        ensures
            r@ == (HashPairView { left: left@, right: right@, from_right: side == Side::Right }),
    {
        HashPair { left, right, path_comes_from: side }
    }

    /// Whether `hash` is the hash on the side of the pair that the path comes from.
    pub fn equals_path_side(&self, hash: [u8; 32]) -> (r: bool)
        ensures
            r == pair_holds(self@, hash@),
    {
        match self.path_comes_from {
            Side::Left => hash_eq(&self.left, &hash),
            Side::Right => hash_eq(&self.right, &hash),
        }
    }

    /// The hash of the left hash followed by the right one.
    pub fn hash(&self) -> (r: [u8; 32])
        ensures
            r@ == hash_pair(self@.left, self@.right),
    {
        hash_pairs_for_merkle_tree(self.left, self.right)
    }
}

/// Finds the first position of `hash` in `level`, or 0 when it is absent.
fn find_position(level: &Vec<[u8; 32]>, hash: &[u8; 32]) -> (r: usize)
    ensures
        r == start_position(hashes_view(level@), hash@),
{
    let ghost s = hashes_view(level@);
    let mut i: usize = 0;
    while i < level.len()
        invariant
            i <= level@.len(),
            s == hashes_view(level@),
            forall|k: int| 0 <= k < i ==> s[k] != hash@,
        decreases level@.len() - i,
    {
        if hash_eq(&level[i], hash) {
            proof {
                lemma_first_match_skip(s, i as int, hash@);
                assert(s.skip(i as int)[0] == hash@);
            }
            return i;
        }
        i = i + 1;
    }
    proof {
        lemma_first_match_skip(s, i as int, hash@);
        assert(s.skip(i as int).len() == 0);
    }
    0
}

/// When the first `i` hashes of `s` differ from `h`, the first match in `s` is
/// the first match in what follows them, moved by `i`.
pub proof fn lemma_first_match_skip(s: Seq<Seq<u8>>, i: int, h: Seq<u8>)
    requires
        0 <= i <= s.len(),
        forall|k: int| 0 <= k < i ==> s[k] != h,
    ensures
        first_match(s, h) == (match first_match(s.skip(i), h) {
            Some(j) => Some(j + i),
            None => None,
        }),
    decreases i,
{
    if i == 0 {
        assert(s.skip(0) =~= s);
    } else {
        let t = s.drop_first();
        assert forall|k: int| 0 <= k < i - 1 implies t[k] != h by {
            assert(t[k] == s[k + 1]);
        }
        lemma_first_match_skip(t, i - 1, h);
        assert(t.skip(i - 1) =~= s.skip(i));
        assert(s[0] != h);
    }
}

/// A proof that `transaction_hash` is included in `block`: the pairs from the
/// leaves up to the root, and the Merkle root. A block without transactions
/// gives no pairs and the root its header holds.
pub fn proof_of_transaction_included_in(transaction_hash: [u8; 32], block: &Block) -> (r: (
    Vec<HashPair>,
    [u8; 32],
))
    ensures
        block@.transactions.len() == 0 ==> r.0@.len() == 0 && r.1@
            == block@.header.merkle_root_hash,
        block@.transactions.len() > 0 ==> pairs_view(r.0@) == inclusion_proof(
            tx_hashes(block@),
            transaction_hash@,
        ) && r.1@ == merkle_root(tx_hashes(block@)),
{
    let hash_vector = block.get_tx_hashes();
    if hash_vector.len() == 0 {
        let header = block.get_header();
        return (Vec::new(), header.merkle_root_hash);
    }
    let ghost leaves = tx_hashes(block@);
    assert(hashes_view(hash_vector@) =~= leaves);
    let mut merkle_tree: Vec<Vec<[u8; 32]>> = Vec::new();
    calculate_merkle_tree_level(hash_vector, &mut merkle_tree);
    let ghost levels = merkle_levels(leaves);
    proof {
        assert(levels_view(merkle_tree@) =~= levels);
        lemma_merkle_levels_shape(leaves);
    }
    let n = merkle_tree.len();
    let mut level_position: usize = find_position(&merkle_tree[n - 1], &transaction_hash);
    assert(hashes_view(merkle_tree@[n - 1]@) == levels[n - 1]);
    let ghost p0 = level_position as int;
    let mut merkle_proof: Vec<HashPair> = Vec::new();
    let mut i: usize = n;
    proof {
        lemma_start_position_bound(levels.last(), transaction_hash@);
    }
    while i > 0 && merkle_tree[i - 1].len() != 1
        invariant
            i <= n,
            n == merkle_tree@.len(),
            n == levels.len(),
            levels == levels_view(merkle_tree@),
            levels_well_shaped(levels),
            i > 0 ==> level_position < levels[i - 1].len(),
            pairs_view(merkle_proof@) + path_from(levels, i - 1, level_position as int)
                == path_from(levels, n - 1, p0),
        decreases i,
    {
        let current_level = &merkle_tree[i - 1];
        assert(hashes_view(current_level@) == levels[i - 1]);
        let hash_pair = if level_position % 2 == 0 {
            HashPair::new(
                current_level[level_position],
                current_level[level_position + 1],
                Side::Left,
            )
        } else {
            HashPair::new(
                current_level[level_position - 1],
                current_level[level_position],
                Side::Right,
            )
        };
        let ghost before = merkle_proof@;
        merkle_proof.push(hash_pair);
        proof {
            assert(hash_pair@ == pair_at(levels[i - 1], level_position as int));
            assert(pairs_view(merkle_proof@) =~= pairs_view(before).push(hash_pair@));
            assert(path_from(levels, i - 1, level_position as int) == seq![
                pair_at(levels[i - 1], level_position as int),
            ] + path_from(levels, i - 2, (level_position / 2) as int));
            assert(pairs_view(merkle_proof@) + path_from(levels, i - 2, (level_position / 2) as int)
                =~= pairs_view(before) + path_from(levels, i - 1, level_position as int));
            if i >= 2 {
                assert(levels[i - 2] == stored_level(next_level(levels[i - 1])));
                assert(level_position / 2 < levels[i - 2].len());
            }
        }
        level_position = level_position / 2;
        i = i - 1;
    }
    proof {
        if i > 0 {
            assert(hashes_view(merkle_tree@[i - 1]@) == levels[i - 1]);
        }
        assert(path_from(levels, i - 1, level_position as int) =~= Seq::empty());
        assert(pairs_view(merkle_proof@) =~= path_from(levels, n - 1, p0));
    }
    let root = merkle_tree[0][0];
    (merkle_proof, root)
}

/// The position at which a proof starts lies within the leaves.
pub proof fn lemma_start_position_bound(leaves: Seq<Seq<u8>>, h: Seq<u8>)
    requires
        leaves.len() >= 1,
    ensures
        0 <= start_position(leaves, h) < leaves.len(),
        first_match(leaves, h) matches Some(i) ==> 0 <= i < leaves.len() && leaves[i] == h,
    decreases leaves.len(),
{
    lemma_first_match_in_range(leaves, h);
}

/// A first match is a position that holds the hash.
pub proof fn lemma_first_match_in_range(s: Seq<Seq<u8>>, h: Seq<u8>)
    ensures
        first_match(s, h) matches Some(i) ==> 0 <= i < s.len() && s[i] == h,
    decreases s.len(),
{
    if s.len() > 0 && s[0] != h {
        lemma_first_match_in_range(s.drop_first(), h);
        if let Some(j) = first_match(s.drop_first(), h) {
            assert(s[j + 1] == s.drop_first()[j]);
        }
    }
}

/// Checks a proof of inclusion: starting from `tx_hash`, every pair must hold
/// the current hash on its path's side, and the hash reached must be `root`.
pub fn verify_merkle_proof(tx_hash: [u8; 32], merkle_proof: &Vec<HashPair>, root: [u8; 32]) -> (r:
    bool)
    ensures
        r == (follow_proof(pairs_view(merkle_proof@), tx_hash@) == Some(root@)),
{
    let ghost pairs = pairs_view(merkle_proof@);
    assert(pairs.skip(0) =~= pairs);
    let mut prev_hash = tx_hash;
    let mut i: usize = 0;
    while i < merkle_proof.len()
        invariant
            i <= merkle_proof@.len(),
            pairs == pairs_view(merkle_proof@),
            follow_proof(pairs, tx_hash@) == follow_proof(pairs.skip(i as int), prev_hash@),
        decreases merkle_proof@.len() - i,
    {
        let hash_pair = &merkle_proof[i];
        assert(pairs.skip(i as int)[0] == hash_pair@);
        assert(pairs.skip(i as int).drop_first() =~= pairs.skip(i + 1));
        if hash_pair.equals_path_side(prev_hash) {
            prev_hash = hash_pair.hash();
        } else {
            return false;
        }
        i = i + 1;
    }
    assert(pairs.skip(i as int) =~= Seq::<HashPairView>::empty());
    hash_eq(&prev_hash, &root)
}

// ------------------------------------------------------------------------
// The law of proofs of inclusion
// ------------------------------------------------------------------------

/// Following the path of any position of a level of a well-shaped tree
/// from the hash at that position reaches the root.
pub proof fn lemma_path_reaches_root(levels: Seq<Seq<Seq<u8>>>, i: int, pos: int)
    requires
        levels_well_shaped(levels),
        0 <= i < levels.len(),
        0 <= pos < levels[i].len(),
    ensures
        follow_proof(path_from(levels, i, pos), levels[i][pos]) == Some(levels[0][0]),
    decreases i,
{
    if levels[i].len() == 1 {
        if i > 0 {
            assert(levels[i].len() >= 2);
        }
    } else {
        assert(i > 0) by {
            if i == 0 {
                assert(levels[0].len() == 1);
            }
        }
        let l = levels[i];
        let p = pair_at(l, pos);
        assert(pair_holds(p, l[pos]));
        let up = next_level(l);
        assert(levels[i - 1] == stored_level(up));
        let q = pos / 2;
        assert(hash_pair(p.left, p.right) == up[q]);
        assert(q < up.len());
        assert(levels[i - 1][q] == up[q]) by {
            if up.len() > 1 && up.len() % 2 == 1 {
                assert(pad_level(up)[q] == up[q]);
            }
        }
        lemma_path_reaches_root(levels, i - 1, q);
        let path = path_from(levels, i, pos);
        assert(path[0] == p);
        assert(path.drop_first() =~= path_from(levels, i - 1, q));
    }
}

/// The law of proofs of inclusion: for any block with transactions and any
/// transaction hash among them, following the proof that
/// `proof_of_transaction_included_in` builds, from that hash, reaches the
/// Merkle root it returns (so `verify_merkle_proof` accepts it).
pub proof fn lemma_inclusion_proof_verifies(leaves: Seq<Seq<u8>>, h: Seq<u8>)
    requires
        leaves.contains(h),
    ensures
        follow_proof(inclusion_proof(leaves, h), h) == Some(merkle_root(leaves)),
{
    lemma_merkle_levels_shape(leaves);
    let levels = merkle_levels(leaves);
    let last = levels.last();
    lemma_stored_level_keeps(leaves);
    lemma_first_match_found(leaves, h);
    let p = start_position(last, h);
    lemma_first_match_stored(leaves, h);
    lemma_start_position_bound(last, h);
    lemma_path_reaches_root(levels, levels.len() - 1, p);
}

/// Each pair of the proof holds the running hash on the side the path comes
/// from: the first pair holds `h`, and each later pair holds the hash of the
/// pair before it.
pub open spec fn pairs_chain_from(pairs: Seq<HashPairView>, h: Seq<u8>) -> bool {
    &&& pairs.len() > 0 ==> pair_holds(pairs[0], h)
    &&& forall|j: int|
        1 <= j < pairs.len() ==> pair_holds(
            #[trigger] pairs[j],
            hash_pair(pairs[j - 1].left, pairs[j - 1].right),
        )
}

/// A proof that can be followed from `h` chains from `h`, pair by pair.
pub proof fn lemma_followed_proof_chains(pairs: Seq<HashPairView>, h: Seq<u8>)
    requires
        follow_proof(pairs, h) is Some,
    ensures
        pairs_chain_from(pairs, h),
    decreases pairs.len(),
{
    if pairs.len() > 0 {
        let rest = pairs.drop_first();
        let next = hash_pair(pairs[0].left, pairs[0].right);
        lemma_followed_proof_chains(rest, next);
        assert forall|j: int| 1 <= j < pairs.len() implies pair_holds(
            #[trigger] pairs[j],
            hash_pair(pairs[j - 1].left, pairs[j - 1].right),
        ) by {
            assert(pairs[j] == rest[j - 1]);
            if j >= 2 {
                assert(pairs[j - 1] == rest[j - 2]);
            }
        }
    }
}

/// For a transaction hash of a block, each pair of the proof that
/// `proof_of_transaction_included_in` builds holds the running hash on the
/// side the path comes from: the first pair holds the transaction's hash,
/// and each later pair holds the hash of the pair before it.
pub proof fn lemma_inclusion_proof_pairs_hold(leaves: Seq<Seq<u8>>, h: Seq<u8>)
    requires
        leaves.contains(h),
    ensures
        pairs_chain_from(inclusion_proof(leaves, h), h),
{
    lemma_inclusion_proof_verifies(leaves, h);
    lemma_followed_proof_chains(inclusion_proof(leaves, h), h);
}

/// The stored form of a level starts with the level itself.
pub proof fn lemma_stored_level_keeps(h: Seq<Seq<u8>>)
    ensures
        stored_level(h).len() >= h.len(),
        forall|i: int| 0 <= i < h.len() ==> #[trigger] stored_level(h)[i] == h[i],
{
}

/// A hash that a sequence contains is found in it.
pub proof fn lemma_first_match_found(s: Seq<Seq<u8>>, h: Seq<u8>)
    requires
        s.contains(h),
    ensures
        first_match(s, h) is Some,
    decreases s.len(),
{
    if s[0] != h {
        let i = choose|i: int| 0 <= i < s.len() && s[i] == h;
        assert(s.drop_first()[i - 1] == h);
        lemma_first_match_found(s.drop_first(), h);
    }
}

/// Padding a level does not change where a hash it contains is first found.
pub proof fn lemma_first_match_stored(s: Seq<Seq<u8>>, h: Seq<u8>)
    requires
        s.contains(h),
    ensures
        first_match(stored_level(s), h) == first_match(s, h),
    decreases s.len(),
{
    if s.len() > 1 && s.len() % 2 == 1 && s[0] != h {
        let t = s.drop_first();
        let i = choose|i: int| 0 <= i < s.len() && s[i] == h;
        assert(t[i - 1] == h);
        lemma_first_match_prefix(t, t.push(s.last()), h);
        assert(stored_level(s).drop_first() =~= t.push(s.last()));
    }
}

/// The first match in a sequence that a longer one extends is the same.
pub proof fn lemma_first_match_prefix(s: Seq<Seq<u8>>, u: Seq<Seq<u8>>, h: Seq<u8>)
    requires
        s.contains(h),
        s.len() <= u.len(),
        forall|i: int| 0 <= i < s.len() ==> s[i] == u[i],
    ensures
        first_match(u, h) == first_match(s, h),
    decreases s.len(),
{
    if s[0] != h {
        let i = choose|i: int| 0 <= i < s.len() && s[i] == h;
        assert(s.drop_first()[i - 1] == h);
        lemma_first_match_prefix(s.drop_first(), u.drop_first(), h);
    }
}

} // verus!
