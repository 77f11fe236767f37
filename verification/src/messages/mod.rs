//! The peer-to-peer messages of the protocol and their wire formats.
pub mod header_message;
pub mod inv_message;
pub mod get_data_message;
pub mod not_found_message;
pub mod ping_pong_messages;
pub mod verack_message;
pub mod tx_message;
pub mod block_message;
pub mod version_message;
pub mod get_block_headers_message;
pub mod block_headers_message;
pub mod message;
