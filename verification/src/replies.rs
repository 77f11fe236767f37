//! The messages that go out for a reply to a peer, in the order they are sent.
use vstd::prelude::*;
use crate::blockchain::{BlockHeader, BlockView};
use crate::messages::block_headers_message::{BlockHeadersMessage, BlockHeadersView};
use crate::messages::block_message::BlockMessage;
use crate::messages::get_data_message::GetDataMessage;
use crate::messages::inv_message::{block_type, entries_of_type, transaction_type, InvView};
use crate::messages::not_found_message::NotFoundMessage;
use crate::messages::ping_pong_messages::PongMessage;
use crate::node_state::Reply;
use crate::var_len_int::varint_encode;

verus! {

/// One message to send to a peer.
pub enum Outgoing {
    Pong(PongMessage),
    Headers(BlockHeadersMessage),
    Block(BlockMessage),
    NotFound(NotFoundMessage),
    GetData(GetDataMessage),
}

/// What a message to send holds.
pub enum OutgoingView {
    Pong(Seq<u8>),
    Headers(BlockHeadersView),
    Block(BlockView),
    NotFound(InvView),
    GetData(InvView),
}

impl View for Outgoing {
    type V = OutgoingView;

    open spec fn view(&self) -> OutgoingView {
        match self {
            Outgoing::Pong(m) => OutgoingView::Pong(m@),
            Outgoing::Headers(m) => OutgoingView::Headers(m@),
            Outgoing::Block(m) => OutgoingView::Block(m.block@),
            Outgoing::NotFound(m) => OutgoingView::NotFound(m@),
            Outgoing::GetData(m) => OutgoingView::GetData(m@),
        }
    }
}

/// The inventory of the hashes, all of one type.
pub open spec fn inventory_of(hashes: Seq<[u8; 32]>, type_: Seq<u8>) -> InvView {
    InvView { count: varint_encode(hashes.len()), inventory: entries_of_type(hashes, type_) }
}

/// The request for the data of the hashes, all of one type: none for no
/// hashes.
pub open spec fn request_for(hashes: Seq<[u8; 32]>, type_: Seq<u8>) -> Seq<OutgoingView> {
    if hashes.len() == 0 {
        Seq::empty()
    } else {
        seq![OutgoingView::GetData(inventory_of(hashes, type_))]
    }
}

/// The messages that go out for a reply: nothing for `Nothing`; the pong;
/// one headers message; a block message for each block, then a not-found
/// message when some hashes were not found; a request for the unknown blocks
/// when there are any, then one for the unknown transactions when there are
/// any.
pub open spec fn reply_messages(reply: Reply) -> Seq<OutgoingView> {
    match reply {
        Reply::Nothing => Seq::empty(),
        Reply::Pong(p) => seq![OutgoingView::Pong(p@)],
        Reply::Headers(hs) => seq![
            OutgoingView::Headers(
                BlockHeadersView {
                    count: varint_encode(hs@.len()),
                    headers: hs@.map_values(|h: BlockHeader| h@),
                },
            ),
        ],
        Reply::Blocks(bs, not_found) => bs@.map_values(
            |m: BlockMessage| OutgoingView::Block(m.block@),
        ) + if not_found@.len() == 0 {
            Seq::empty()
        } else {
            seq![OutgoingView::NotFound(inventory_of(not_found@, block_type()))]
        },
        Reply::GetData(blocks, transactions) => request_for(blocks@, block_type()) + request_for(
            transactions@,
            transaction_type(),
        ),
    }
}

/// The messages to send for a reply, in order (see `reply_messages`).
pub fn messages_of_reply(reply: Reply) -> (r: Vec<Outgoing>)
    ensures
        r@.map_values(|o: Outgoing| o@) == reply_messages(reply),
        forall|i: int|
            0 <= i < r@.len() ==> ((#[trigger] r@[i])@ matches OutgoingView::GetData(inv)
                ==> inv.inventory.len() > 0),
{
    let ghost want = reply_messages(reply);
    let mut out: Vec<Outgoing> = Vec::new();
    match reply {
        Reply::Nothing => {},
        Reply::Pong(p) => {
            out.push(Outgoing::Pong(p));
        },
        Reply::Headers(hs) => {
            out.push(Outgoing::Headers(BlockHeadersMessage::new(hs)));
        },
        Reply::Blocks(bs, not_found) => {
            let ghost blocks = bs@.map_values(|m: BlockMessage| OutgoingView::Block(m.block@));
            let mut bs = bs;
            let ghost all = bs@;
            while bs.len() > 0
                invariant
                    out@.len() + bs@.len() == all.len(),
                    bs@ == all.skip(out@.len() as int),
                    out@.map_values(|o: Outgoing| o@) == blocks.take(out@.len() as int),
                    blocks == all.map_values(|m: BlockMessage| OutgoingView::Block(m.block@)),
                decreases bs@.len(),
            {
                let ghost k = out@.len() as int;
                let m = bs.remove(0);
                assert(m == all[k]);
                out.push(Outgoing::Block(m));
                assert(bs@ =~= all.skip(k + 1));
                assert(out@.map_values(|o: Outgoing| o@) =~= blocks.take(k + 1));
            }
            assert(blocks.take(all.len() as int) =~= blocks);
            if not_found.len() > 0 {
                out.push(Outgoing::NotFound(NotFoundMessage::from_block_hashes(not_found)));
            }
        },
        Reply::GetData(blocks, transactions) => {
            if blocks.len() > 0 {
                out.push(
                    Outgoing::GetData(GetDataMessage::create_message_inventory_block_type(blocks)),
                );
            }
            if transactions.len() > 0 {
                out.push(
                    Outgoing::GetData(
                        GetDataMessage::create_message_inventory_transaction_type(transactions),
                    ),
                );
            }
        },
    }
    assert(out@.map_values(|o: Outgoing| o@) =~= want);
    assert forall|i: int| 0 <= i < out@.len() implies ((#[trigger] out@[i])@ matches OutgoingView::GetData(
        inv,
    ) ==> inv.inventory.len() > 0) by {
        assert(out@.map_values(|o: Outgoing| o@)[i] == out@[i]@);
    }
    out
}

} // verus!
