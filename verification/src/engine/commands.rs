//! What connections ask of the engine.

use crate::enums::mailbox::MqttChannel;
use crate::protocol::packets::{
    ConnectModel,
    ConnectPacket,
    PublishModel,
    PublishPacket,
    SubscribeModel,
    SubscribePacket,
    UnsubscribeModel,
    UnsubscribePacket,
};
use tokio::sync::mpsc::Sender;
use vstd::prelude::*;

verus! {

/// The coming and going of clients.
pub enum ConnectCommand {
    /// A client connected on the given port; the sender is that of its
    /// mailbox.
    Connect(ConnectPacket, u16, Sender<MqttChannel>),
    /// The client with the given identifier is gone.
    Disconnect(String),
}

/// The traffic of connected clients, each with the identifier of the
/// client that it comes from.
pub enum PubSubCommand {
    Subscribe(SubscribePacket, String),
    Unsubscribe(UnsubscribePacket, String),
    Publish(PublishPacket),
}

/// What a `ConnectCommand` holds.
pub enum ConnectCommandModel {
    Connect(ConnectModel, u16, Sender<MqttChannel>),
    Disconnect(Seq<char>),
}

/// What a `PubSubCommand` holds.
pub enum PubSubCommandModel {
    Subscribe(SubscribeModel, Seq<char>),
    Unsubscribe(UnsubscribeModel, Seq<char>),
    Publish(PublishModel),
}

impl View for ConnectCommand {
    type V = ConnectCommandModel;

    open spec fn view(&self) -> ConnectCommandModel {
        match self {
            ConnectCommand::Connect(packet, port, tx) => ConnectCommandModel::Connect(
                packet@,
                *port,
                *tx,
            ),
            ConnectCommand::Disconnect(client_id) => ConnectCommandModel::Disconnect(client_id@),
        }
    }
}

impl View for PubSubCommand {
    type V = PubSubCommandModel;

    open spec fn view(&self) -> PubSubCommandModel {
        match self {
            PubSubCommand::Subscribe(packet, client_id) => PubSubCommandModel::Subscribe(
                packet@,
                client_id@,
            ),
            PubSubCommand::Unsubscribe(packet, client_id) => PubSubCommandModel::Unsubscribe(
                packet@,
                client_id@,
            ),
            PubSubCommand::Publish(packet) => PubSubCommandModel::Publish(packet@),
        }
    }
}

/// A command for the engine, of either kind.
pub enum EngineCommand {
    Connect(ConnectCommand),
    PubSub(PubSubCommand),
}

/// What an `EngineCommand` holds.
pub enum EngineCommandModel {
    Connect(ConnectCommandModel),
    PubSub(PubSubCommandModel),
}

impl View for EngineCommand {
    type V = EngineCommandModel;

    open spec fn view(&self) -> EngineCommandModel {
        match self {
            EngineCommand::Connect(c) => EngineCommandModel::Connect(c@),
            EngineCommand::PubSub(c) => EngineCommandModel::PubSub(c@),
        }
    }
}

/// The view of an optional command.
pub open spec fn opt_command_view(c: Option<EngineCommand>) -> Option<EngineCommandModel> {
    match c {
        Some(command) => Some(command@),
        None => None,
    }
}

} // verus!
