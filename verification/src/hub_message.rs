use vstd::prelude::*;

use crate::channel_name::{normalize_name, valid_name_input, HubChannelName};
use crate::errors::HubError;
use crate::hub_data::{normalize_payload, HubData};

verus! {

/// One message routed by the hub: a channel, a payload, and the moment the
/// creator stamped on it (seconds since the epoch).  The hub never alters
/// the timestamp, and message identity in tests is the pair of channel and
/// payload.
#[derive(Debug)]
pub struct HubMessage {
    pub channel: HubChannelName,
    pub timestamp: u64,
    pub data: HubData,
}

impl HubMessage {
    /// Assemble a message; the caller supplies the clock reading.
    pub fn new(channel: HubChannelName, data: HubData, timestamp: u64) -> (r: HubMessage)
        ensures
            r.channel@ == channel@,
            r.data@ == data@,
            r.timestamp == timestamp,
    {
        HubMessage { channel, timestamp, data }
    }

    /// Build a message from raw strings: validates the channel name and
    /// trims the payload.  Fails exactly when the channel name does.
    pub fn try_from_str(channel: &str, data: &str, timestamp: u64) -> (r: Result<
        HubMessage,
        HubError,
    >)
        ensures
            r is Ok <==> valid_name_input(channel@),
            r matches Ok(m) ==> m.channel@ == normalize_name(channel@) && m.data@
                == normalize_payload(data@) && m.timestamp == timestamp,
            r matches Err(e) ==> e == HubError::InvalidName,
    {
        let channel = HubChannelName::try_from_str(channel)?;
        Ok(HubMessage { channel, timestamp, data: HubData::from_str(data) })
    }

    /// Whether two messages carry the same channel and payload; timestamps
    /// are ignored.
    pub fn same_content(&self, other: &HubMessage) -> (r: bool)
        ensures
            r == (self.channel@ == other.channel@ && self.data@ == other.data@),
    {
        self.channel.same(&other.channel) && self.data == other.data
    }
}

impl Clone for HubMessage {
    fn clone(&self) -> (r: Self)
        ensures
            r.channel@ == self.channel@,
            r.data@ == self.data@,
            r.timestamp == self.timestamp,
    {
        HubMessage {
            channel: self.channel.clone(),
            timestamp: self.timestamp,
            data: self.data.clone(),
        }
    }
}

} // verus!
