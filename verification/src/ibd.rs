//! The plan of the initial download: which blocks to ask for, in bundles of
//! sixteen, once the headers are known.
use vstd::prelude::*;
use crate::blockchain::{header_hash, BlockHeader, HeaderView};
use crate::messages::get_block_headers_message::{hashes_view, GetBlockHeadersMessage, GetHeadersView};
use crate::node_state::{genesis_hash, hashed_genesis_block, headers_view};
use crate::var_len_int::varint_encode;

verus! {

/// How many block hashes go in one request to a downloader.
pub const MAX_BLOCK_BUNDLE: usize = 16;

/// The bundles of block hashes to ask for, and the hashes left over, after
/// going through the headers `hs` with `carry` already gathered: the hash of
/// each header made after `t` is gathered, and a bundle goes out each time
/// sixteen are gathered.
pub open spec fn plan_bundles(hs: Seq<HeaderView>, t: u32, carry: Seq<Seq<u8>>) -> (
    Seq<Seq<Seq<u8>>>,
    Seq<Seq<u8>>,
)
    decreases hs.len(),
{
    if hs.len() == 0 {
        (Seq::empty(), carry)
    } else {
        let before = plan_bundles(hs.drop_last(), t, carry);
        if hs.last().time > t {
            let gathered = before.1.push(header_hash(hs.last()));
            if gathered.len() == MAX_BLOCK_BUNDLE {
                (before.0.push(gathered), Seq::empty())
            } else {
                (before.0, gathered)
            }
        } else {
            before
        }
    }
}

/// How many of the headers `hs` were made after `t`.
pub open spec fn wanted_count(hs: Seq<HeaderView>, t: u32) -> nat
    decreases hs.len(),
{
    if hs.len() == 0 {
        0
    } else {
        wanted_count(hs.drop_last(), t) + if hs.last().time > t {
            1nat
        } else {
            0nat
        }
    }
}

/// The mark of the first block to download after going through the headers
/// `hs`, which start at position `base`: while the mark is -1, a header
/// made after `t` sets it to its position (as an `i32`).
pub open spec fn marked_first(hs: Seq<HeaderView>, t: u32, base: int, first: i32) -> i32
    decreases hs.len(),
{
    if hs.len() == 0 {
        first
    } else {
        let f = marked_first(hs.drop_last(), t, base, first);
        if hs.last().time > t && f == -1 {
            #[verifier::truncate]
            ((base + hs.len() - 1) as i32)
        } else {
            f
        }
    }
}

/// The headers from position `i` on: none where `i` is past the end.
pub open spec fn headers_from(headers: Seq<HeaderView>, i: int) -> Seq<HeaderView> {
    if i <= headers.len() {
        headers.skip(i)
    } else {
        Seq::empty()
    }
}

/// Goes through the headers from position `i` on: each one made after
/// `starting_block_time` counts in `total_amount_of_blocks`, marks
/// `first_downloaded_block_index` with its position while that is -1 (see
/// `marked_first`), and has its hash gathered; each time sixteen hashes are gathered they make a
/// bundle to ask for. Returns the bundles, in order, and the hashes left
/// over.
pub fn request_blocks(
    i: usize,
    block_headers: &Vec<BlockHeader>,
    request_block_hashes_bundle: Vec<[u8; 32]>,
    total_amount_of_blocks: &mut usize,
    starting_block_time: u32,
    first_downloaded_block_index: &mut i32,
) -> (r: (Vec<Vec<[u8; 32]>>, Vec<[u8; 32]>))
    requires
        *old(total_amount_of_blocks) + wanted_count(
            headers_from(headers_view(block_headers@), i as int),
            starting_block_time,
        ) <= usize::MAX,
    ensures
        ({
            let hs = headers_from(headers_view(block_headers@), i as int);
            let plan = plan_bundles(hs, starting_block_time, hashes_view(request_block_hashes_bundle@));
            &&& r.0@.map_values(|b: Vec<[u8; 32]>| hashes_view(b@)) == plan.0
            &&& hashes_view(r.1@) == plan.1
            &&& *final(total_amount_of_blocks) == *old(total_amount_of_blocks) + wanted_count(
                hs,
                starting_block_time,
            )
            &&& *final(first_downloaded_block_index) == marked_first(
                hs,
                starting_block_time,
                i as int,
                *old(first_downloaded_block_index),
            )
        }),
{
    let ghost hs = headers_from(headers_view(block_headers@), i as int);
    let ghost carry = hashes_view(request_block_hashes_bundle@);
    if i > block_headers.len() {
        return (Vec::new(), request_block_hashes_bundle);
    }
    let ghost total0 = *total_amount_of_blocks;
    let ghost first0 = *first_downloaded_block_index;
    let mut bundles: Vec<Vec<[u8; 32]>> = Vec::new();
    let mut bundle = request_block_hashes_bundle;
    let mut j: usize = i;
    assert(hs.take(0) =~= Seq::<HeaderView>::empty());
    assert(bundles@.map_values(|b: Vec<[u8; 32]>| hashes_view(b@)) =~= Seq::<Seq<Seq<u8>>>::empty());
    while j < block_headers.len()
        invariant
            i <= j <= block_headers@.len(),
            hs == headers_view(block_headers@).skip(i as int),
            i <= block_headers@.len(),
            total0 + wanted_count(hs, starting_block_time) <= usize::MAX,
            bundles@.map_values(|b: Vec<[u8; 32]>| hashes_view(b@)) == plan_bundles(
                hs.take(j - i),
                starting_block_time,
                carry,
            ).0,
            hashes_view(bundle@) == plan_bundles(hs.take(j - i), starting_block_time, carry).1,
            *total_amount_of_blocks == total0 + wanted_count(hs.take(j - i), starting_block_time),
            *first_downloaded_block_index == marked_first(
                hs.take(j - i),
                starting_block_time,
                i as int,
                first0,
            ),
        decreases block_headers@.len() - j,
    {
        let ghost k = j - i;
        let ghost prefix = hs.take(k);
        proof {
            assert(hs.take(k + 1).drop_last() =~= prefix);
            assert(hs.take(k + 1).last() == block_headers@[j as int]@);
            lemma_wanted_count_prefix(hs, starting_block_time, k + 1);
        }
        let header = &block_headers[j];
        if header.time() > starting_block_time {
            if *first_downloaded_block_index == -1 {
                *first_downloaded_block_index = #[verifier::truncate]
                (j as i32);
            }
            *total_amount_of_blocks = *total_amount_of_blocks + 1;
            let ghost old_bundle = bundle@;
            bundle.push(header.hash());
            assert(hashes_view(bundle@) =~= hashes_view(old_bundle).push(header_hash(hs[k])));
            if bundle.len() == MAX_BLOCK_BUNDLE {
                let ghost old_bundles = bundles@;
                let full = bundle;
                bundles.push(full);
                bundle = Vec::new();
                assert(bundles@.map_values(|b: Vec<[u8; 32]>| hashes_view(b@)) =~= old_bundles.map_values(
                    |b: Vec<[u8; 32]>| hashes_view(b@),
                ).push(hashes_view(full@)));
                assert(hashes_view(bundle@) =~= Seq::<Seq<u8>>::empty());
            }
        }
        j = j + 1;
    }
    assert(hs.take(j - i) =~= hs);
    (bundles, bundle)
}

/// The count of a prefix is at most that of the whole.
proof fn lemma_wanted_count_prefix(hs: Seq<HeaderView>, t: u32, n: int)
    requires
        0 <= n <= hs.len(),
    ensures
        wanted_count(hs.take(n), t) <= wanted_count(hs, t),
    decreases hs.len() - n,
{
    if n < hs.len() {
        lemma_wanted_count_prefix(hs, t, n + 1);
        assert(hs.take(n + 1).drop_last() =~= hs.take(n));
    } else {
        assert(hs.take(n) =~= hs);
    }
}

/// The request for the headers that follow the one whose hash is `hash`, as
/// many as the peer gives.
pub fn create_get_block_header_message(version: i32, hash: [u8; 32]) -> (r: GetBlockHeadersMessage)
    ensures
        r@ == (GetHeadersView {
            version: version as u32,
            hash_count: varint_encode(1),
            block_header_hashes: seq![hash@],
            stopping_hash: seq![0u8; 32],
        }),
{
    let block_header_hashes = vec![hash];
    let stopping_hash = [0u8; 32];
    assert(hashes_view(block_header_hashes@) =~= seq![hash@]);
    assert(stopping_hash@ =~= seq![0u8; 32]);
    GetBlockHeadersMessage::new(version as u32, block_header_hashes, stopping_hash)
}

/// The hash to ask for headers after: that of the last header known, or the
/// genesis hash when none is.
pub fn last_known_hash(block_headers: &Vec<BlockHeader>) -> (r: [u8; 32])
    ensures
        r@ == if block_headers@.len() == 0 {
            genesis_hash()
        } else {
            header_hash(block_headers@.last()@)
        },
{
    if block_headers.len() == 0 {
        hashed_genesis_block()
    } else {
        block_headers[block_headers.len() - 1].hash()
    }
}

/// The hashes of the headers among `hs` made after `t`, in order.
pub open spec fn wanted_hashes(hs: Seq<HeaderView>, t: u32) -> Seq<Seq<u8>>
    decreases hs.len(),
{
    if hs.len() == 0 {
        Seq::empty()
    } else if hs.last().time > t {
        wanted_hashes(hs.drop_last(), t).push(header_hash(hs.last()))
    } else {
        wanted_hashes(hs.drop_last(), t)
    }
}

/// The law of the download plan: starting with fewer than sixteen hashes
/// gathered, every bundle holds sixteen hashes, fewer than sixteen are left
/// over, and the bundles in order and then the hashes left over are the
/// hashes gathered before and then those of the headers made after `t`,
/// each once, in order.
pub proof fn lemma_plan_bundles(hs: Seq<HeaderView>, t: u32, carry: Seq<Seq<u8>>)
    requires
        carry.len() < MAX_BLOCK_BUNDLE,
    ensures
        forall|b: int|
            0 <= b < plan_bundles(hs, t, carry).0.len() ==> (#[trigger] plan_bundles(
                hs,
                t,
                carry,
            ).0[b]).len() == MAX_BLOCK_BUNDLE,
        plan_bundles(hs, t, carry).1.len() < MAX_BLOCK_BUNDLE,
        plan_bundles(hs, t, carry).0.flatten_alt() + plan_bundles(hs, t, carry).1 == carry
            + wanted_hashes(hs, t),
    decreases hs.len(),
{
    if hs.len() == 0 {
        assert(plan_bundles(hs, t, carry).0.flatten_alt() =~= Seq::<Seq<u8>>::empty());
        assert(Seq::<Seq<u8>>::empty() + carry =~= carry + Seq::<Seq<u8>>::empty());
    } else {
        let init = hs.drop_last();
        lemma_plan_bundles(init, t, carry);
        let before = plan_bundles(init, t, carry);
        let p = plan_bundles(hs, t, carry);
        if hs.last().time > t {
            let h = header_hash(hs.last());
            let gathered = before.1.push(h);
            if gathered.len() == MAX_BLOCK_BUNDLE {
                assert(p.0 == before.0.push(gathered));
                assert(p.0.drop_last() =~= before.0);
                assert(p.0.flatten_alt() == before.0.flatten_alt() + gathered);
                assert(p.0.flatten_alt() + p.1 =~= (before.0.flatten_alt() + before.1).push(h));
                assert(carry + wanted_hashes(hs, t) =~= (carry + wanted_hashes(init, t)).push(h));
                assert forall|b: int| 0 <= b < p.0.len() implies (#[trigger] p.0[b]).len()
                    == MAX_BLOCK_BUNDLE by {
                    if b < before.0.len() {
                        assert(p.0[b] == before.0[b]);
                    }
                }
            } else {
                assert(p.0.flatten_alt() + p.1 =~= (before.0.flatten_alt() + before.1).push(h));
                assert(carry + wanted_hashes(hs, t) =~= (carry + wanted_hashes(init, t)).push(h));
            }
        }
    }
}

/// How many headers a peer sends at most in one answer; a full answer means
/// that more may follow.
pub const HEADERS_PER_ANSWER: usize = 2000;

/// The longest wait for a peer, in seconds: the download stops trying once
/// the wait would reach it.
pub const MAXIMUM_PEER_TIME_OUT: u64 = 10;

/// Whether to ask the peer for headers once more, after an answer took the
/// count of known headers from `headers_before` to `headers_now`: only after
/// a full answer.
pub fn keep_asking_for_headers(headers_before: usize, headers_now: usize) -> (r: bool)
    ensures
        r == (headers_now == headers_before + HEADERS_PER_ANSWER),
{
    headers_before <= headers_now && headers_now - headers_before == HEADERS_PER_ANSWER
}

/// How many blocks are left to download once the headers are known: those
/// from the first marked position to the end, none if no position was
/// marked.
pub fn blocks_to_download(header_count: usize, first_downloaded_block_index: i32) -> (r: usize)
    requires
        first_downloaded_block_index == -1 || 0 <= first_downloaded_block_index <= header_count,
    ensures
        r == if first_downloaded_block_index == -1 {
            0
        } else {
            header_count - first_downloaded_block_index
        },
{
    if first_downloaded_block_index == -1 {
        0
    } else {
        header_count - first_downloaded_block_index as usize
    }
}

/// How an attempt to download from a peer ended.
#[derive(Clone, Copy, Debug, PartialEq, Eq)]
pub enum DownloadOutcome {
    /// The headers and the requests for blocks went through.
    Finished,
    /// The peer failed or went quiet while sending headers.
    PeerFailed,
    /// A bundle of blocks could not be asked for.
    BundleFailed,
}

/// What the download does after an attempt.
#[derive(Clone, Copy, Debug, PartialEq, Eq)]
pub enum NextDownloadStep {
    /// The download is over.
    Stop,
    /// The download fails as a whole.
    Abort,
    /// Try the peer at this position, waiting this many seconds for it.
    Try { peer: usize, timeout: u64 },
}

/// The step after an attempt on the peer at `peer` with the wait `timeout`,
/// among `peer_count` peers: a finished attempt ends the download, a failed
/// bundle aborts it, and a failed peer passes the turn to the next one, back
/// to the first with a wait one second longer after the last, until the wait
/// reaches `MAXIMUM_PEER_TIME_OUT`.
pub fn after_download_attempt(outcome: DownloadOutcome, peer: usize, timeout: u64, peer_count: usize) -> (r: NextDownloadStep)
    requires
        timeout < MAXIMUM_PEER_TIME_OUT,
    ensures
        outcome == DownloadOutcome::Finished ==> r == NextDownloadStep::Stop,
        outcome == DownloadOutcome::BundleFailed ==> r == NextDownloadStep::Abort,
        outcome == DownloadOutcome::PeerFailed ==> r == ({
            let (p, t) = if peer + 1 >= peer_count {
                (0usize, (timeout + 1) as u64)
            } else {
                ((peer + 1) as usize, timeout)
            };
            if t < MAXIMUM_PEER_TIME_OUT {
                NextDownloadStep::Try { peer: p, timeout: t }
            } else {
                NextDownloadStep::Stop
            }
        }),
{
    match outcome {
        DownloadOutcome::Finished => NextDownloadStep::Stop,
        DownloadOutcome::BundleFailed => NextDownloadStep::Abort,
        DownloadOutcome::PeerFailed => {
            let mut next_peer: usize = 0;
            let mut next_timeout = timeout + 1;
            if peer < usize::MAX && peer + 1 < peer_count {
                next_peer = peer + 1;
                next_timeout = timeout;
            }
            if next_timeout < MAXIMUM_PEER_TIME_OUT {
                NextDownloadStep::Try { peer: next_peer, timeout: next_timeout }
            } else {
                NextDownloadStep::Stop
            }
        },
    }
}

} // verus!
