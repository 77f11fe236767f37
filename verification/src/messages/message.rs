//! Telling the messages apart by their command names.
use vstd::prelude::*;
use vstd::utf8::encode_utf8;
use crate::blockchain::{block_parse, BlockView};
use crate::codec::bytes_equal;
use crate::errors::MessageError;
use crate::messages::block_headers_message::{
    block_headers_parse, headers_command, BlockHeadersMessage, BlockHeadersView,
};
use crate::messages::block_message::{block_command, BlockMessage};
use crate::messages::get_block_headers_message::{
    get_headers_parse, getheaders_command, GetBlockHeadersMessage, GetHeadersView,
};
use crate::messages::get_data_message::{getdata_command, GetDataMessage};
use crate::messages::header_message::{
    header_message_parse, HeaderMessage, HeaderMessageView, MESAGE_HEADER_SIZE,
};
use crate::messages::inv_message::{inv_command, inv_parse, InvMessage, InvView};
use crate::messages::not_found_message::{notfound_command, NotFoundMessage};
use crate::messages::ping_pong_messages::{
    ping_command, pong_command, PingMessage, PongMessage, NONCE_SIZE,
};
use crate::messages::tx_message::{tx_command, TxMessage};
use crate::messages::verack_message::{verack_command, VerACKMessage};
use crate::messages::version_message::{version_command, version_parse, VersionMessage, VersionView};
use crate::transaction::{transaction_parse, TransactionView};

verus! {

/// The command name `header`.
pub open spec fn header_command() -> Seq<u8> {
    seq![104u8, 101u8, 97u8, 100u8, 101u8, 114u8, 0u8, 0u8, 0u8, 0u8, 0u8, 0u8]
}

/// A message of any kind, or one whose command is not known.
pub enum Message {
    BlockHeaders(BlockHeadersMessage),
    Block(BlockMessage),
    GetBlockHeaders(GetBlockHeadersMessage),
    GetData(GetDataMessage),
    Header(HeaderMessage),
    Inv(InvMessage),
    NotFound(NotFoundMessage),
    Tx(TxMessage),
    VerACK(VerACKMessage),
    Version(VersionMessage),
    Ping(PingMessage),
    Pong(PongMessage),
    UnknownMessage,
}

/// A message as plain values.
pub enum MessageView {
    BlockHeaders(BlockHeadersView),
    Block(BlockView),
    GetBlockHeaders(GetHeadersView),
    GetData(InvView),
    Header(HeaderMessageView),
    Inv(InvView),
    NotFound(InvView),
    Tx(TransactionView),
    VerACK,
    Version(VersionView),
    Ping(Seq<u8>),
    Pong(Seq<u8>),
    UnknownMessage,
}

impl View for Message {
    type V = MessageView;

    open spec fn view(&self) -> MessageView {
        match self {
            Message::BlockHeaders(m) => MessageView::BlockHeaders(m@),
            Message::Block(m) => MessageView::Block(m.block@),
            Message::GetBlockHeaders(m) => MessageView::GetBlockHeaders(m@),
            Message::GetData(m) => MessageView::GetData(m@),
            Message::Header(m) => MessageView::Header(m@),
            Message::Inv(m) => MessageView::Inv(m@),
            Message::NotFound(m) => MessageView::NotFound(m@),
            Message::Tx(m) => MessageView::Tx(m.tx@),
            Message::VerACK(_) => MessageView::VerACK,
            Message::Version(m) => MessageView::Version(m@),
            Message::Ping(m) => MessageView::Ping(m@),
            Message::Pong(m) => MessageView::Pong(m@),
            Message::UnknownMessage => MessageView::UnknownMessage,
        }
    }
}

/// What the payload `b` holds when it comes under the command `c` (12
/// bytes): the message that the command names, read from the payload, or its
/// reader's error; a command that names no message gives `UnknownMessage`.
pub open spec fn message_parse(b: Seq<u8>, c: Seq<u8>) -> Result<MessageView, MessageError> {
    if c == headers_command() {
        match block_headers_parse(b) {
            Some(v) => Ok(MessageView::BlockHeaders(v)),
            None => Err(MessageError::ErrorCreatingBlockHeadersMessage),
        }
    } else if c == block_command() {
        match block_parse(b) {
            Some(v) => Ok(MessageView::Block(v)),
            None => Err(MessageError::ErrorCreatingBlockMessage),
        }
    } else if c == getheaders_command() {
        match get_headers_parse(b) {
            Some(v) => Ok(MessageView::GetBlockHeaders(v)),
            None => Err(MessageError::ErrorCreatingGetBlockHeadersMessage),
        }
    } else if c == getdata_command() {
        match inv_parse(b) {
            Some(v) => Ok(MessageView::GetData(v)),
            None => Err(MessageError::ErrorCreatingGetDataMessage),
        }
    } else if c == header_command() {
        if b.len() == MESAGE_HEADER_SIZE {
            Ok(MessageView::Header(header_message_parse(b)))
        } else {
            Err(MessageError::ErrorCreatingHeaderMessage)
        }
    } else if c == inv_command() {
        match inv_parse(b) {
            Some(v) => Ok(MessageView::Inv(v)),
            None => Err(MessageError::ErrorCreatingInvMessage),
        }
    } else if c == notfound_command() {
        match inv_parse(b) {
            Some(v) => Ok(MessageView::NotFound(v)),
            None => Err(MessageError::ErrorCreatingNotFoundMessage),
        }
    } else if c == tx_command() {
        match transaction_parse(b) {
            Some(v) => Ok(MessageView::Tx(v)),
            None => Err(MessageError::ErrorCreatingBlockMessage),
        }
    } else if c == verack_command() {
        if b.len() == 0 {
            Ok(MessageView::VerACK)
        } else {
            Err(MessageError::ErrorCreatingVerAckMessage)
        }
    } else if c == version_command() {
        match version_parse(b) {
            Some(v) => Ok(MessageView::Version(v)),
            None => Err(MessageError::ErrorCreatingVersionMessage),
        }
    } else if c == ping_command() {
        if b.len() == NONCE_SIZE {
            Ok(MessageView::Ping(b))
        } else {
            Err(MessageError::ErrorCreatingPingMessage)
        }
    } else if c == pong_command() {
        if b.len() == NONCE_SIZE {
            Ok(MessageView::Pong(b))
        } else {
            Err(MessageError::ErrorCreatingPongMessage)
        }
    } else {
        Ok(MessageView::UnknownMessage)
    }
}

fn is_command(c: &[u8], name: [u8; 12]) -> (r: bool)
    ensures
        r == (c@ == name@),
{
    bytes_equal(c, name.as_slice())
}

impl Message {
    /// Reads the payload `bytes` as the message that `command_name` (its 12
    /// characters, with their padding) names; see `message_parse`.
    pub fn from_bytes(bytes: Vec<u8>, command_name: String) -> (r: Result<Message, MessageError>)
        ensures
            match r {
                Ok(m) => message_parse(bytes@, encode_utf8(command_name@)) == Ok::<
                    MessageView,
                    MessageError,
                >(m@),
                Err(e) => message_parse(bytes@, encode_utf8(command_name@)) == Err::<
                    MessageView,
                    MessageError,
                >(e),
            },
    {
        let c = command_name.as_str().as_bytes();
        let b = bytes.as_slice();
        assert(c@ == encode_utf8(command_name@));
        let headers = [104u8, 101u8, 97u8, 100u8, 101u8, 114u8, 115u8, 0u8, 0u8, 0u8, 0u8, 0u8];
        let block = [98u8, 108u8, 111u8, 99u8, 107u8, 0u8, 0u8, 0u8, 0u8, 0u8, 0u8, 0u8];
        let getheaders = [
            103u8,
            101u8,
            116u8,
            104u8,
            101u8,
            97u8,
            100u8,
            101u8,
            114u8,
            115u8,
            0u8,
            0u8,
        ];
        let getdata = [103u8, 101u8, 116u8, 100u8, 97u8, 116u8, 97u8, 0u8, 0u8, 0u8, 0u8, 0u8];
        let header = [104u8, 101u8, 97u8, 100u8, 101u8, 114u8, 0u8, 0u8, 0u8, 0u8, 0u8, 0u8];
        let inv = [105u8, 110u8, 118u8, 0u8, 0u8, 0u8, 0u8, 0u8, 0u8, 0u8, 0u8, 0u8];
        let notfound = [110u8, 111u8, 116u8, 102u8, 111u8, 117u8, 110u8, 100u8, 0u8, 0u8, 0u8, 0u8];
        let tx = [116u8, 120u8, 0u8, 0u8, 0u8, 0u8, 0u8, 0u8, 0u8, 0u8, 0u8, 0u8];
        let verack = [118u8, 101u8, 114u8, 97u8, 99u8, 107u8, 0u8, 0u8, 0u8, 0u8, 0u8, 0u8];
        let version = [118u8, 101u8, 114u8, 115u8, 105u8, 111u8, 110u8, 0u8, 0u8, 0u8, 0u8, 0u8];
        let ping = [112u8, 105u8, 110u8, 103u8, 0u8, 0u8, 0u8, 0u8, 0u8, 0u8, 0u8, 0u8];
        let pong = [112u8, 111u8, 110u8, 103u8, 0u8, 0u8, 0u8, 0u8, 0u8, 0u8, 0u8, 0u8];
        assert(headers@ =~= headers_command());
        assert(block@ =~= block_command());
        assert(getheaders@ =~= getheaders_command());
        assert(getdata@ =~= getdata_command());
        assert(header@ =~= header_command());
        assert(inv@ =~= inv_command());
        assert(notfound@ =~= notfound_command());
        assert(tx@ =~= tx_command());
        assert(verack@ =~= verack_command());
        assert(version@ =~= version_command());
        assert(ping@ =~= ping_command());
        assert(pong@ =~= pong_command());
        if is_command(c, headers) {
            Ok(Message::BlockHeaders(BlockHeadersMessage::from_bytes(b)?))
        } else if is_command(c, block) {
            Ok(Message::Block(BlockMessage::from_bytes(b)?))
        } else if is_command(c, getheaders) {
            Ok(Message::GetBlockHeaders(GetBlockHeadersMessage::from_bytes(b)?))
        } else if is_command(c, getdata) {
            Ok(Message::GetData(GetDataMessage::from_bytes(b)?))
        } else if is_command(c, header) {
            Ok(Message::Header(HeaderMessage::from_bytes(b)?))
        } else if is_command(c, inv) {
            Ok(Message::Inv(InvMessage::from_bytes(b)?))
        } else if is_command(c, notfound) {
            Ok(Message::NotFound(NotFoundMessage::from_bytes(b)?))
        } else if is_command(c, tx) {
            Ok(Message::Tx(TxMessage::from_bytes(b)?))
        } else if is_command(c, verack) {
            Ok(Message::VerACK(VerACKMessage::from_bytes(b)?))
        } else if is_command(c, version) {
            Ok(Message::Version(VersionMessage::from_bytes(b)?))
        } else if is_command(c, ping) {
            Ok(Message::Ping(PingMessage::from_bytes(b)?))
        } else if is_command(c, pong) {
            Ok(Message::Pong(PongMessage::from_bytes(b)?))
        } else {
            Ok(Message::UnknownMessage)
        }
    }
}

} // verus!
