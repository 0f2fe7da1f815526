//! The state machine of a connection.
//!
//! A connection waits for a Connect packet, is connected, starts to
//! disconnect and is closed. Whoever owns the socket feeds the machine one
//! event at a time, together with the reading of a clock in seconds, and
//! does what the machine answers: write a reply, write a frame, hand a
//! command to the engine, stop.

use crate::engine::commands::{
    opt_command_view,
    ConnectCommand,
    ConnectCommandModel,
    EngineCommand,
    EngineCommandModel,
    PubSubCommand,
    PubSubCommandModel,
};
use crate::enums::mailbox::{ChannelModel, MqttChannel};
use crate::models::session::clone_mailbox;
use crate::protocol::buffer::buffer_bytes;
use crate::protocol::decoder::{decode_frame, DecodeOutcome, Decoder, FrameModel, PacketModel};
use crate::utils::clock::current_timestamp;
use bytes::BytesMut;
use crate::protocol::encoder::{publish_bytes, publish_encodable, try_encode_publish, Encoder};
use tokio::sync::mpsc::Sender;
use vstd::prelude::*;

verus! {

/// The seconds without traffic after which a connection that has not
/// named its keep-alive yet counts as idle.
pub const DEFAULT_TIMEOUT_SECS: u64 = 60;

/// Where a connection stands in its life.
#[derive(Clone, Copy, Debug, PartialEq, Eq, Structural)]
pub enum ConnectionPhase {
    AwaitingConnect,
    Connected,
    Disconnecting,
    Closed,
}

/// What happens to a connection.
pub enum ConnectionEvent {
    /// A frame was decoded.
    Packet(Decoder),
    /// The buffer starts with bytes that are no frame the broker reads.
    Undecodable,
    /// The timer ticked.
    Tick,
    /// The peer closed the stream.
    EndOfStream,
    /// Reading from the socket failed.
    ReadFailed,
    /// A message came out of the mailbox.
    Mailbox(MqttChannel),
    /// The mailbox is closed.
    MailboxClosed,
    /// Writing to the socket failed.
    WriteFailed,
    /// The socket is torn down.
    TornDown,
}

/// What a `ConnectionEvent` holds.
pub enum EventModel {
    Packet(PacketModel),
    Undecodable,
    Tick,
    EndOfStream,
    ReadFailed,
    Mailbox(ChannelModel),
    MailboxClosed,
    WriteFailed,
    TornDown,
}

impl View for ConnectionEvent {
    type V = EventModel;

    open spec fn view(&self) -> EventModel {
        match self {
            ConnectionEvent::Packet(p) => EventModel::Packet(p@),
            ConnectionEvent::Undecodable => EventModel::Undecodable,
            ConnectionEvent::Tick => EventModel::Tick,
            ConnectionEvent::EndOfStream => EventModel::EndOfStream,
            ConnectionEvent::ReadFailed => EventModel::ReadFailed,
            ConnectionEvent::Mailbox(m) => EventModel::Mailbox(m@),
            ConnectionEvent::MailboxClosed => EventModel::MailboxClosed,
            ConnectionEvent::WriteFailed => EventModel::WriteFailed,
            ConnectionEvent::TornDown => EventModel::TornDown,
        }
    }
}

/// The state of a connection.
pub struct ConnectionState {
    pub phase: ConnectionPhase,
    /// The identifier that the client gave in its Connect packet.
    pub client_id: Option<String>,
    /// The port that the connection was accepted on.
    pub port: u16,
    /// The sending side of the connection's mailbox.
    pub tx: Sender<MqttChannel>,
    /// The seconds without traffic after which the connection is idle.
    pub timeout_secs: u64,
    /// The clock's reading at the last traffic.
    pub last_activity: u64,
    /// Whether the engine was told that the client is gone.
    pub disconnect_sent: bool,
}

/// What a `ConnectionState` holds.
pub struct ConnectionModel {
    pub phase: ConnectionPhase,
    pub client_id: Option<Seq<char>>,
    pub port: u16,
    pub tx: Sender<MqttChannel>,
    pub timeout_secs: u64,
    pub last_activity: u64,
    pub disconnect_sent: bool,
}

impl View for ConnectionState {
    type V = ConnectionModel;

    open spec fn view(&self) -> ConnectionModel {
        ConnectionModel {
            phase: self.phase,
            client_id: match self.client_id {
                Some(id) => Some(id@),
                None => None,
            },
            port: self.port,
            tx: self.tx,
            timeout_secs: self.timeout_secs,
            last_activity: self.last_activity,
            disconnect_sent: self.disconnect_sent,
        }
    }
}

/// What the owner of the socket is to do after an event.
pub struct Reaction {
    /// The reply to write to the socket.
    pub reply: Encoder,
    /// A frame from the mailbox to write to the socket.
    pub outbound: Option<Vec<u8>>,
    /// A command to hand to the engine.
    pub command: Option<EngineCommand>,
    /// Whether to stop reading and writing.
    pub stop: bool,
}

/// What a `Reaction` holds.
pub struct ReactionModel {
    pub reply: Encoder,
    pub outbound: Option<Seq<u8>>,
    pub command: Option<EngineCommandModel>,
    pub stop: bool,
}

impl View for Reaction {
    type V = ReactionModel;

    open spec fn view(&self) -> ReactionModel {
        ReactionModel {
            reply: self.reply,
            outbound: match self.outbound {
                Some(bytes) => Some(bytes@),
                None => None,
            },
            command: opt_command_view(self.command),
            stop: self.stop,
        }
    }
}

/// The seconds without traffic that a keep-alive allows: one and a half
/// times the keep-alive, rounded down.
pub open spec fn idle_timeout(keep_alive: u16) -> u64 {
    (keep_alive as u64 * 3 / 2) as u64
}

/// Whether a connection is still reading and writing.
pub open spec fn is_live(phase: ConnectionPhase) -> bool {
    phase == ConnectionPhase::AwaitingConnect || phase == ConnectionPhase::Connected
}

/// Whether the connection has been without traffic for its timeout or
/// longer at the clock reading `now`.
pub open spec fn is_idle(state: ConnectionModel, now: u64) -> bool {
    now >= state.last_activity && now - state.last_activity >= state.timeout_secs
}

/// The reaction that does nothing.
pub open spec fn no_reaction() -> ReactionModel {
    ReactionModel { reply: Encoder::NoReply, outbound: None, command: None, stop: false }
}

/// The command that tells the engine that the client is gone, if the
/// client has named itself and the engine was not told before.
pub open spec fn parting_command(state: ConnectionModel) -> Option<EngineCommandModel> {
    if !state.disconnect_sent && state.client_id is Some {
        Some(EngineCommandModel::Connect(ConnectCommandModel::Disconnect(state.client_id.unwrap())))
    } else {
        None
    }
}

/// The connection as it starts to disconnect, and what its owner is to
/// do: write `reply`, hand the parting command to the engine, stop.
pub open spec fn start_disconnecting(state: ConnectionModel, reply: Encoder) -> (
    ConnectionModel,
    ReactionModel,
) {
    (
        ConnectionModel {
            phase: ConnectionPhase::Disconnecting,
            disconnect_sent: state.disconnect_sent || state.client_id is Some,
            ..state
        },
        ReactionModel { reply, outbound: None, command: parting_command(state), stop: true },
    )
}

/// What a packet does to a live connection at the clock reading `now`.
pub open spec fn on_packet(state: ConnectionModel, packet: PacketModel, now: u64) -> (
    ConnectionModel,
    ReactionModel,
) {
    let active = ConnectionModel { last_activity: now, ..state };
    match packet {
        PacketModel::Connect(p) => (
            ConnectionModel {
                phase: ConnectionPhase::Connected,
                client_id: Some(p.client_id),
                timeout_secs: idle_timeout(p.keep_alive),
                ..active
            },
            ReactionModel {
                reply: Encoder::ConnAck { session_present: false },
                outbound: None,
                command: Some(
                    EngineCommandModel::Connect(
                        ConnectCommandModel::Connect(p, state.port, state.tx),
                    ),
                ),
                stop: false,
            },
        ),
        PacketModel::Disconnect => start_disconnecting(active, Encoder::Disconnect),
        PacketModel::PingReq => (
            active,
            ReactionModel { reply: Encoder::PingResp, ..no_reaction() },
        ),
        PacketModel::Publish(p) => (
            active,
            ReactionModel {
                reply: match p.packet_id {
                    Some(packet_id) => Encoder::PubAck { packet_id },
                    None => Encoder::NoReply,
                },
                outbound: None,
                command: Some(EngineCommandModel::PubSub(PubSubCommandModel::Publish(p))),
                stop: false,
            },
        ),
        PacketModel::Subscribe(p) => (
            active,
            ReactionModel {
                reply: Encoder::SubAck { packet_id: p.packet_id },
                outbound: None,
                command: match state.client_id {
                    Some(id) => Some(
                        EngineCommandModel::PubSub(PubSubCommandModel::Subscribe(p, id)),
                    ),
                    None => None,
                },
                stop: false,
            },
        ),
        PacketModel::Unsubscribe(p) => (
            active,
            ReactionModel {
                reply: Encoder::UnsubAck { packet_id: p.packet_id },
                outbound: None,
                command: match state.client_id {
                    Some(id) => Some(
                        EngineCommandModel::PubSub(PubSubCommandModel::Unsubscribe(p, id)),
                    ),
                    None => None,
                },
                stop: false,
            },
        ),
    }
}

/// What an event does to a connection at the clock reading `now`.
///
/// A connection that disconnects or is closed answers nothing, but that
/// tearing down the socket closes one that disconnects. A live connection
/// answers a packet with its reply and its command; starts to disconnect
/// on bytes that are no frame, on the end of the stream, on a failed read
/// or write, on a closed mailbox, on the order to close from the mailbox,
/// and on a tick that finds a client that has named itself idle; and
/// writes out a publish from the mailbox that fits the frame format.
pub open spec fn step(state: ConnectionModel, event: EventModel, now: u64) -> (
    ConnectionModel,
    ReactionModel,
) {
    if !is_live(state.phase) {
        if event is TornDown {
            (ConnectionModel { phase: ConnectionPhase::Closed, ..state }, no_reaction())
        } else {
            (state, no_reaction())
        }
    } else {
        match event {
            EventModel::Packet(packet) => on_packet(state, packet, now),
            EventModel::Tick => {
                if state.client_id is Some && is_idle(state, now) {
                    start_disconnecting(state, Encoder::NoReply)
                } else {
                    (state, no_reaction())
                }
            },
            EventModel::Mailbox(ChannelModel::Publish(p)) => (
                state,
                ReactionModel {
                    outbound: if publish_encodable(p) {
                        Some(publish_bytes(p))
                    } else {
                        None
                    },
                    ..no_reaction()
                },
            ),
            EventModel::Mailbox(ChannelModel::Disconnect) => start_disconnecting(
                state,
                Encoder::NoReply,
            ),
            EventModel::TornDown => {
                let (parted, reaction) = start_disconnecting(state, Encoder::NoReply);
                (ConnectionModel { phase: ConnectionPhase::Closed, ..parted }, reaction)
            },
            _ => start_disconnecting(state, Encoder::NoReply),
        }
    }
}

/// Whether a reaction tells the engine that a client is gone.
pub open spec fn tells_parting(reaction: ReactionModel) -> bool {
    reaction.command matches Some(EngineCommandModel::Connect(ConnectCommandModel::Disconnect(_)))
}

/// The number of times that the engine is told that the client is gone
/// while the connection meets the events of `events`, one after the other,
/// each at its clock reading.
pub open spec fn partings(state: ConnectionModel, events: Seq<(EventModel, u64)>) -> nat
    decreases events.len(),
{
    if events.len() == 0 {
        0
    } else {
        let (next, reaction) = step(state, events[0].0, events[0].1);
        (if tells_parting(reaction) {
            1nat
        } else {
            0nat
        }) + partings(next, events.skip(1))
    }
}

/// The connection after the events of `events`.
pub open spec fn after_events(state: ConnectionModel, events: Seq<(EventModel, u64)>)
    -> ConnectionModel
    decreases events.len(),
{
    if events.len() == 0 {
        state
    } else {
        after_events(step(state, events[0].0, events[0].1).0, events.skip(1))
    }
}

/// Whether the phases stand in the order of a connection's life.
pub open spec fn phase_rank(phase: ConnectionPhase) -> nat {
    match phase {
        ConnectionPhase::AwaitingConnect => 0,
        ConnectionPhase::Connected => 1,
        ConnectionPhase::Disconnecting => 2,
        ConnectionPhase::Closed => 3,
    }
}

/// A connection never goes back in its life, and once the engine was told
/// that the client is gone, that stays so.
pub proof fn lemma_step_moves_forward(state: ConnectionModel, event: EventModel, now: u64)
    ensures
        phase_rank(step(state, event, now).0.phase) >= phase_rank(state.phase),
        state.disconnect_sent ==> step(state, event, now).0.disconnect_sent,
        tells_parting(step(state, event, now).1) ==> !state.disconnect_sent && is_live(state.phase)
            && !is_live(step(state, event, now).0.phase) && step(
            state,
            event,
            now,
        ).0.disconnect_sent,
{
}

/// Whatever happens to a connection, and in whatever order, the engine is
/// told at most once that the client is gone.
pub proof fn lemma_at_most_one_parting(state: ConnectionModel, events: Seq<(EventModel, u64)>)
    ensures
        partings(state, events) <= 1,
        !is_live(state.phase) ==> partings(state, events) == 0,
    decreases events.len(),
{
    if events.len() > 0 {
        let (next, reaction) = step(state, events[0].0, events[0].1);
        lemma_step_moves_forward(state, events[0].0, events[0].1);
        lemma_at_most_one_parting(next, events.skip(1));
    }
}

/// A connected client that sends nothing for one and a half times its
/// keep-alive, or longer, is parted from at the next tick: the engine is
/// told exactly once that the client is gone, whatever follows.
pub proof fn lemma_idle_client_is_parted_once(
    state: ConnectionModel,
    now: u64,
    later: Seq<(EventModel, u64)>,
)
    requires
        is_live(state.phase),
        state.client_id is Some,
        !state.disconnect_sent,
        is_idle(state, now),
    ensures
        tells_parting(step(state, EventModel::Tick, now).1),
        step(state, EventModel::Tick, now).1.stop,
        partings(state, seq![(EventModel::Tick, now)] + later) == 1,
{
    let events = seq![(EventModel::Tick, now)] + later;
    let (next, reaction) = step(state, EventModel::Tick, now);
    assert(events[0] == (EventModel::Tick, now));
    assert(events.skip(1) =~= later);
    lemma_at_most_one_parting(next, later);
}

/// The events that the frames at the front of `bytes` give, decoded at the
/// time `now`, in the order of the frames: a packet for each whole frame
/// that is understood, up to the first that is not all there yet, and
/// "undecodable", as the last event, for the first that is no frame the
/// broker reads. A frame that gives a packet is at least two bytes long,
/// so the reading comes to an end.
pub open spec fn stream_events(bytes: Seq<u8>, now: i64) -> Seq<EventModel>
    decreases bytes.len(),
{
    match decode_frame(bytes, now) {
        FrameModel::Packet { packet, used } => {
            if 0 < used <= bytes.len() {
                seq![EventModel::Packet(packet)] + stream_events(bytes.skip(used as int), now)
            } else {
                Seq::empty()
            }
        },
        FrameModel::Incomplete => Seq::empty(),
        FrameModel::Unsupported => seq![EventModel::Undecodable],
        FrameModel::Malformed { .. } => seq![EventModel::Undecodable],
    }
}

/// What is left of `bytes` once the frames that `stream_events` reads are
/// taken off.
pub open spec fn stream_rest(bytes: Seq<u8>, now: i64) -> Seq<u8>
    decreases bytes.len(),
{
    match decode_frame(bytes, now) {
        FrameModel::Packet { packet, used } => {
            if 0 < used <= bytes.len() {
                stream_rest(bytes.skip(used as int), now)
            } else {
                bytes
            }
        },
        FrameModel::Incomplete => bytes,
        FrameModel::Unsupported => bytes,
        FrameModel::Malformed { used } => bytes.skip(used as int),
    }
}

/// The views of a list of events.
pub open spec fn events_view(events: Seq<ConnectionEvent>) -> Seq<EventModel> {
    Seq::new(events.len(), |i: int| events[i]@)
}

/// A frame that decodes to a packet takes off at least two bytes and no
/// more than there are.
pub proof fn lemma_packet_takes_bytes(bytes: Seq<u8>, now: i64)
    ensures
        decode_frame(bytes, now) matches FrameModel::Packet { used, .. } ==> 2 <= used
            <= bytes.len(),
{
}

/// Takes the frames off the front of the buffer, stamping subscriptions
/// with the time `now`, and gives the events that they are, in their
/// order.
pub fn drain_frames_at(buf: &mut BytesMut, now: i64) -> (events: Vec<ConnectionEvent>)
    ensures
        events_view(events@) == stream_events(buffer_bytes(*old(buf)), now),
        buffer_bytes(*final(buf)) == stream_rest(buffer_bytes(*old(buf)), now),
{
    let mut events: Vec<ConnectionEvent> = Vec::new();
    let ghost whole = buffer_bytes(*buf);
    assert(events_view(events@) + stream_events(buffer_bytes(*buf), now) =~= stream_events(
        whole,
        now,
    ));
    loop
        invariant_except_break
            events_view(events@) + stream_events(buffer_bytes(*buf), now) == stream_events(
                whole,
                now,
            ),
            stream_rest(buffer_bytes(*buf), now) == stream_rest(whole, now),
        invariant
            whole == buffer_bytes(*old(buf)),
        ensures
            events_view(events@) == stream_events(whole, now),
            buffer_bytes(*buf) == stream_rest(whole, now),
        decreases buffer_bytes(*buf).len(),
    {
        let ghost before = buffer_bytes(*buf);
        let ghost seen = events@;
        proof {
            lemma_packet_takes_bytes(before, now);
        }
        match Decoder::decode_at(buf, now) {
            DecodeOutcome::Packet(packet) => {
                events.push(ConnectionEvent::Packet(packet));
                assert(events_view(events@) =~= events_view(seen) + seq![
                    EventModel::Packet(packet@),
                ]);
                assert(events_view(seen) + (seq![EventModel::Packet(packet@)] + stream_events(
                    buffer_bytes(*buf),
                    now,
                )) =~= events_view(events@) + stream_events(buffer_bytes(*buf), now));
            },
            DecodeOutcome::Incomplete => {
                assert(before.skip(0) =~= before);
                assert(events_view(events@) + Seq::<EventModel>::empty() =~= events_view(
                    events@,
                ));
                break;
            },
            _ => {
                events.push(ConnectionEvent::Undecodable);
                assert(events_view(events@) =~= events_view(seen) + seq![EventModel::Undecodable]);
                assert(before.skip(0) =~= before);
                break;
            },
        }
    }
    events
}

/// Takes the frames off the front of the buffer, stamping subscriptions
/// with the current time, and gives the events that they are, in their
/// order.
pub fn drain_frames(buf: &mut BytesMut) -> (events: Vec<ConnectionEvent>)
    ensures
        exists|now: i64|
            drained_at(buffer_bytes(*old(buf)), now, events@, buffer_bytes(*final(buf))),
{
    let now: i64 = current_timestamp();
    let events = drain_frames_at(buf, now);
    assert(drained_at(buffer_bytes(*old(buf)), now, events@, buffer_bytes(*buf)));
    events
}

/// Whether draining `before` at the time `now` gives `events` and leaves
/// `after` in the buffer.
pub open spec fn drained_at(
    before: Seq<u8>,
    now: i64,
    events: Seq<ConnectionEvent>,
    after: Seq<u8>,
) -> bool {
    &&& events_view(events) == stream_events(before, now)
    &&& after == stream_rest(before, now)
}

impl ConnectionState {
    /// A connection that was accepted on `port` at the clock reading `now`
    /// and waits for its Connect packet.
    pub fn new(port: u16, tx: Sender<MqttChannel>, now: u64) -> (state: Self)
        ensures
            state@ == (ConnectionModel {
                phase: ConnectionPhase::AwaitingConnect,
                client_id: None,
                port,
                tx,
                timeout_secs: DEFAULT_TIMEOUT_SECS,
                last_activity: now,
                disconnect_sent: false,
            }),
    {
        ConnectionState {
            phase: ConnectionPhase::AwaitingConnect,
            client_id: None,
            port,
            tx,
            timeout_secs: DEFAULT_TIMEOUT_SECS,
            last_activity: now,
            disconnect_sent: false,
        }
    }

    /// Starts to disconnect, and answers with `reply` and the parting
    /// command.
    fn part(&mut self, reply: Encoder) -> (reaction: Reaction)
        ensures
            (final(self)@, reaction@) == start_disconnecting(old(self)@, reply),
    {
        let command = if !self.disconnect_sent {
            match &self.client_id {
                Some(id) => Some(EngineCommand::Connect(ConnectCommand::Disconnect(id.clone()))),
                None => None,
            }
        } else {
            None
        };
        self.phase = ConnectionPhase::Disconnecting;
        self.disconnect_sent = self.disconnect_sent || self.client_id.is_some();
        Reaction { reply, outbound: None, command, stop: true }
    }

    /// Takes in one event at the clock reading `now`, and answers what the
    /// owner of the socket is to do.
    pub fn handle(&mut self, event: ConnectionEvent, now: u64) -> (reaction: Reaction)
        ensures
            (final(self)@, reaction@) == step(old(self)@, event@, now),
    {
        let live = match self.phase {
            ConnectionPhase::AwaitingConnect => true,
            ConnectionPhase::Connected => true,
            _ => false,
        };
        if !live {
            match event {
                ConnectionEvent::TornDown => {
                    self.phase = ConnectionPhase::Closed;
                },
                _ => {},
            }
            return Reaction { reply: Encoder::NoReply, outbound: None, command: None, stop: false };
        }
        match event {
            ConnectionEvent::Packet(packet) => {
                self.last_activity = now;
                match packet {
                    Decoder::Connect(p) => {
                        let command = EngineCommand::Connect(
                            ConnectCommand::Connect(p.clone(), self.port, clone_mailbox(&self.tx)),
                        );
                        self.phase = ConnectionPhase::Connected;
                        self.timeout_secs = (p.keep_alive as u64) * 3 / 2;
                        self.client_id = Some(p.client_id);
                        Reaction {
                            reply: Encoder::ConnAck { session_present: false },
                            outbound: None,
                            command: Some(command),
                            stop: false,
                        }
                    },
                    Decoder::Disconnect => self.part(Encoder::Disconnect),
                    Decoder::PingReq => Reaction {
                        reply: Encoder::PingResp,
                        outbound: None,
                        command: None,
                        stop: false,
                    },
                    Decoder::Publish(p) => {
                        let reply = match p.packet_id {
                            Some(packet_id) => Encoder::PubAck { packet_id },
                            None => Encoder::NoReply,
                        };
                        Reaction {
                            reply,
                            outbound: None,
                            command: Some(EngineCommand::PubSub(PubSubCommand::Publish(p))),
                            stop: false,
                        }
                    },
                    Decoder::Subscribe(p) => {
                        let reply = Encoder::SubAck { packet_id: p.packet_id };
                        let command = match &self.client_id {
                            Some(id) => Some(
                                EngineCommand::PubSub(PubSubCommand::Subscribe(p, id.clone())),
                            ),
                            None => None,
                        };
                        Reaction { reply, outbound: None, command, stop: false }
                    },
                    Decoder::Unsubscribe(p) => {
                        let reply = Encoder::UnsubAck { packet_id: p.packet_id };
                        let command = match &self.client_id {
                            Some(id) => Some(
                                EngineCommand::PubSub(PubSubCommand::Unsubscribe(p, id.clone())),
                            ),
                            None => None,
                        };
                        Reaction { reply, outbound: None, command, stop: false }
                    },
                }
            },
            ConnectionEvent::Tick => {
                if self.client_id.is_some() && now >= self.last_activity && now
                    - self.last_activity >= self.timeout_secs {
                    self.part(Encoder::NoReply)
                } else {
                    Reaction { reply: Encoder::NoReply, outbound: None, command: None, stop: false }
                }
            },
            ConnectionEvent::Mailbox(message) => match message {
                MqttChannel::Publish(p) => Reaction {
                    reply: Encoder::NoReply,
                    outbound: try_encode_publish(&p),
                    command: None,
                    stop: false,
                },
                MqttChannel::Disconnect => self.part(Encoder::NoReply),
            },
            ConnectionEvent::TornDown => {
                let reaction = self.part(Encoder::NoReply);
                self.phase = ConnectionPhase::Closed;
                reaction
            },
            _ => self.part(Encoder::NoReply),
        }
    }
}

} // verus!
