use vstd::prelude::*;

use crate::channel_name::{normalize_name, valid_name_input, HubChannelName};
use crate::errors::HubError;
use crate::hub_data::{normalize_payload, HubData};
use crate::hub_message::HubMessage;

verus! {

/// The envelope spoken over WebSocket links: a tagged union of the client's
/// subscription requests, the channel-listing exchange, and data frames.
#[derive(Debug)]
pub enum WsMessage {
    Subscribe(HubChannelName),
    Unsubscribe(HubChannelName),
    ListChannelsReq,
    ListChannelsResponse(Vec<HubChannelName>),
    Data(HubChannelName, HubData),
}

/// An envelope as a mathematical value: each name or payload by its
/// characters.
pub enum WsMessageView {
    Subscribe(Seq<char>),
    Unsubscribe(Seq<char>),
    ListChannelsReq,
    ListChannelsResponse(Seq<Seq<char>>),
    Data(Seq<char>, Seq<char>),
}

impl View for WsMessage {
    type V = WsMessageView;

    open spec fn view(&self) -> WsMessageView {
        match self {
            WsMessage::Subscribe(c) => WsMessageView::Subscribe(c@),
            WsMessage::Unsubscribe(c) => WsMessageView::Unsubscribe(c@),
            WsMessage::ListChannelsReq => WsMessageView::ListChannelsReq,
            WsMessage::ListChannelsResponse(v) => WsMessageView::ListChannelsResponse(
                v@.map_values(|c: HubChannelName| c@),
            ),
            WsMessage::Data(c, d) => WsMessageView::Data(c@, d@),
        }
    }
}

impl WsMessage {
    /// A subscription request, validating the channel name.
    pub fn subscribe(channel: &str) -> (r: Result<WsMessage, HubError>)
        ensures
            r is Ok <==> valid_name_input(channel@),
            r matches Ok(m) ==> m matches WsMessage::Subscribe(c) && c@ == normalize_name(
                channel@,
            ),
            r matches Err(e) ==> e == HubError::InvalidName,
    {
        let channel_name = HubChannelName::try_from_str(channel)?;
        Ok(WsMessage::Subscribe(channel_name))
    }

    /// A subscription request for an already validated channel.
    pub fn subscribe_channel(channel: HubChannelName) -> (r: WsMessage)
        ensures
            r == WsMessage::Subscribe(channel),
    {
        WsMessage::Subscribe(channel)
    }

    /// An unsubscription request, validating the channel name.
    pub fn unsubscribe(channel: &str) -> (r: Result<WsMessage, HubError>)
        ensures
            r is Ok <==> valid_name_input(channel@),
            r matches Ok(m) ==> m matches WsMessage::Unsubscribe(c) && c@ == normalize_name(
                channel@,
            ),
            r matches Err(e) ==> e == HubError::InvalidName,
    {
        let channel_name = HubChannelName::try_from_str(channel)?;
        Ok(WsMessage::Unsubscribe(channel_name))
    }

    /// An unsubscription request for an already validated channel.
    pub fn unsubscribe_channel(channel: HubChannelName) -> (r: WsMessage)
        ensures
            r == WsMessage::Unsubscribe(channel),
    {
        WsMessage::Unsubscribe(channel)
    }

    /// The request for the server's channel list.
    pub fn list_channels_req() -> (r: WsMessage)
        ensures
            r == WsMessage::ListChannelsReq,
    {
        WsMessage::ListChannelsReq
    }

    /// A data envelope from raw strings: validates the channel name and
    /// trims the payload.
    pub fn send_data(channel: &str, data: &str) -> (r: Result<WsMessage, HubError>)
        ensures
            r is Ok <==> valid_name_input(channel@),
            r matches Ok(m) ==> m matches WsMessage::Data(c, d) && c@ == normalize_name(channel@)
                && d@ == normalize_payload(data@),
            r matches Err(e) ==> e == HubError::InvalidName,
    {
        let channel_name = HubChannelName::try_from_str(channel)?;
        let data = HubData::from_str(data);
        Ok(WsMessage::Data(channel_name, data))
    }

    /// A data envelope from already validated parts.
    pub fn send_data_channel(channel: HubChannelName, data: HubData) -> (r: WsMessage)
        ensures
            r == WsMessage::Data(channel, data),
    {
        WsMessage::Data(channel, data)
    }

    /// A data envelope for a hub message; the other variants carry no
    /// message.
    pub fn from_hub(value: HubMessage) -> (r: WsMessage)
        ensures
            r == WsMessage::Data(value.channel, value.data),
    {
        WsMessage::Data(value.channel, value.data)
    }
}

impl HubMessage {
    /// Read a data envelope as a hub message, stamping `timestamp`; any
    /// other variant is no message.
    pub fn try_from_ws(value: WsMessage, timestamp: u64) -> (r: Result<HubMessage, HubError>)
        ensures
            r is Ok <==> value matches WsMessage::Data(_, _),
            r matches Ok(m) ==> value matches WsMessage::Data(c, d) && m.channel == c && m.data
                == d && m.timestamp == timestamp,
            r matches Err(e) ==> e == HubError::InvalidEnvelope,
    {
        match value {
            WsMessage::Data(channel, data) => Ok(HubMessage { channel, timestamp, data }),
            _ => Err(HubError::InvalidEnvelope),
        }
    }
}

} // verus!
