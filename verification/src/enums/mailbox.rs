//! What the engine puts into a session's mailbox.

use crate::protocol::packets::{PublishModel, PublishPacket};
use vstd::prelude::*;

verus! {

/// A message for a connection's handler: a publish to write out, or the
/// order to close.
pub enum MqttChannel {
    Publish(PublishPacket),
    Disconnect,
}

/// What an `MqttChannel` message holds.
pub enum ChannelModel {
    Publish(PublishModel),
    Disconnect,
}

impl View for MqttChannel {
    type V = ChannelModel;

    open spec fn view(&self) -> ChannelModel {
        match self {
            MqttChannel::Publish(p) => ChannelModel::Publish(p@),
            MqttChannel::Disconnect => ChannelModel::Disconnect,
        }
    }
}

} // verus!
