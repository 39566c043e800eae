//! An in-process, topic-based notification hub.
//!
//! The crate validates channel names and payloads, frames messages for
//! byte-oriented links (`##TOPIC##PAYLOAD` lines), encodes and decodes the
//! JSON envelopes spoken over WebSocket links, and keeps the hub's
//! subscription registries: per-topic subscriber sets, per-subscriber topic
//! maps, and the WebSocket server's channel map.  Every function carries a
//! contract checked by Verus; transport I/O lives outside the library and
//! hands it plain values.

pub mod channel_name;
pub mod client_pipe_options;
pub mod controller;
pub mod errors;
pub mod frame;
pub mod hub_channels;
pub mod hub_data;
pub mod hub_message;
pub mod hub_users;
pub mod kv;
pub mod runtime;
pub mod serial_channels;
pub mod serial_message;
pub mod text;
pub mod ws_codec;
pub mod ws_message;
pub mod ws_server;

pub use channel_name::HubChannelName;
pub use client_pipe_options::{ClientPipeOptions, ClientPipeOptionsBuilder};
pub use controller::{HubManager, HubReceiver};
pub use errors::HubError;
pub use frame::FrameDecoder;
pub use hub_channels::HubChannels;
pub use hub_data::HubData;
pub use hub_message::HubMessage;
pub use hub_users::HubUsers;
pub use serial_channels::{SerialChannelName, SerialPubChannels};
pub use serial_message::{SerialData, SerialRawMessage};
pub use ws_codec::{decode_ws_message, encode_ws_message};
pub use ws_message::WsMessage;
pub use ws_server::WsServerState;
