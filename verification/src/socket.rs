//! The protocol state of one connection: its status, the events waiting to be
//! read, sequence ids, the acknowledgements still to send and those awaited.
//!
//! The transport (sending bytes, polling received messages and state changes) is
//! driven from outside: it hands received messages and state changes to the
//! socket, and sends the bytes that the socket prepares.

use std::collections::VecDeque;
use std::time::Duration;

use vstd::prelude::*;

use crate::ack_set::{AckSet, ack_set_contents};
use crate::common::{SeqId, is_seq_id_past, next_seq_id, seq_id_is_past};
use crate::error::Error;
use crate::ping_tracker::{PingModel, PingTracker, lemma_pong_all_bounded};
use crate::raw_msg::{
    MsgFrame, RawMsgIn, RawMsgOut, ACK_MAX_LEN, decode_would_panic, lemma_decode_encode,
    spec_decode_frame, spec_encode_frame,
};

verus! {

/// Represents the internal connection status of the Socket.
#[derive(Debug, Clone, Copy, PartialEq, Eq, Structural)]
pub enum SocketStatus {
    Connecting,
    /// The transport does not tell a timeout from a network error apart: both
    /// are this status.
    LocalError,
    Connected,
    Terminated { by_remote: bool },
}

/// Connection states reported by the networking layer.
#[derive(Debug, Clone, Copy, PartialEq, Eq, Structural)]
pub enum NetConnState {
    /// No such connection, or it was already closed.
    NoConnection,
    Connecting,
    FindingRoute,
    Connected,
    ClosedByPeer,
    ProblemDetectedLocally,
}

impl SocketStatus {
    /// The connection can still be used: it is connecting or connected.
    pub open spec fn spec_can_use_net_conn(self) -> bool {
        self is Connecting || self is Connected
    }

    /// The status that a connection state reported by the networking layer means.
    pub open spec fn spec_from_conn_state(state: NetConnState) -> SocketStatus {
        match state {
            NetConnState::ClosedByPeer => SocketStatus::Terminated { by_remote: true },
            NetConnState::Connected => SocketStatus::Connected,
            NetConnState::FindingRoute => SocketStatus::Connecting,
            NetConnState::Connecting => SocketStatus::Connecting,
            NetConnState::NoConnection => SocketStatus::LocalError,
            NetConnState::ProblemDetectedLocally => SocketStatus::LocalError,
        }
    }

    /// The status that a connection state reported by the networking layer means.
    pub fn from_networking_conn_state(net_conn_state: &NetConnState) -> (r: Self)
        ensures
            r == Self::spec_from_conn_state(*net_conn_state),
    {
        match net_conn_state {
            NetConnState::ClosedByPeer => SocketStatus::Terminated { by_remote: true },
            NetConnState::Connected => SocketStatus::Connected,
            NetConnState::FindingRoute => SocketStatus::Connecting,
            NetConnState::Connecting => SocketStatus::Connecting,
            NetConnState::NoConnection => SocketStatus::LocalError,
            NetConnState::ProblemDetectedLocally => SocketStatus::LocalError,
        }
    }

    /// Whether the connection can still be used.
    pub fn can_use_net_conn(&self) -> (r: bool)
        ensures
            r == self.spec_can_use_net_conn(),
    {
        match self {
            SocketStatus::Connecting | SocketStatus::Connected => true,
            _ => false,
        }
    }

    /// Whether the connection is established.
    pub fn is_connected(&self) -> (r: bool)
        ensures
            r == (*self is Connected),
    {
        match self {
            SocketStatus::Connected => true,
            _ => false,
        }
    }
}

/// What a socket reports to its user.
#[derive(Debug)]
pub enum SocketEvent {
    Data(Box<[u8]>),
    StatusChanged(SocketStatus),
}

/// A `SocketEvent` with its data as a sequence.
pub enum EventView {
    Data(Seq<u8>),
    StatusChanged(SocketStatus),
}

impl View for SocketEvent {
    type V = EventView;

    open spec fn view(&self) -> EventView {
        match self {
            SocketEvent::Data(d) => EventView::Data(d@),
            SocketEvent::StatusChanged(s) => EventView::StatusChanged(*s),
        }
    }
}

/// `Vec::into_boxed_slice`: the same elements, as a boxed slice.
#[verifier::external_body]
fn vec_into_boxed_slice(v: Vec<u8>) -> (b: Box<[u8]>)
    ensures
        b@ == v@,
{
    v.into_boxed_slice()
}

/// A boxed copy of `bytes`.
fn boxed_copy(bytes: &Vec<u8>) -> (b: Box<[u8]>)
    ensures
        b@ == bytes@,
{
    let mut v: Vec<u8> = Vec::new();
    let mut i: usize = 0;
    while i < bytes.len()
        invariant
            i <= bytes@.len(),
            v@ == bytes@.take(i as int),
        decreases bytes@.len() - i,
    {
        v.push(bytes[i]);
        assert(bytes@.take(i + 1) =~= bytes@.take(i as int).push(bytes@[i as int]));
        i += 1;
    }
    assert(bytes@.take(bytes@.len() as int) =~= bytes@);
    vec_into_boxed_slice(v)
}

/// How a message is sent.
#[derive(Debug, Clone, Copy)]
pub struct SendOptions {
    pub reliable: bool,
}

impl SendOptions {
    /// Reliable sending.
    pub fn new() -> (r: Self)
        ensures
            r.reliable,
    {
        Self { reliable: true }
    }
}

impl Default for SendOptions {
    fn default() -> (r: Self)
        ensures
            r.reliable,
    {
        Self::new()
    }
}

/// Configuration of a socket.
#[derive(Debug, Clone, Copy)]
pub struct SocketConfig {
    /// Time after which the connection is given up; the networking layer's
    /// default when `None`.
    pub timeout: Option<Duration>,
}

/// The whole milliseconds in a duration, as `std::time::Duration::as_millis`
/// gives them.
pub uninterp spec fn duration_millis(d: Duration) -> u128;

/// `std::time::Duration::as_millis`: its result is `duration_millis` of the duration.
#[verifier::external_body]
fn duration_as_millis(d: &Duration) -> (r: u128)
    ensures
        r == duration_millis(*d),
{
    d.as_millis()
}

impl SocketConfig {
    /// No timeout set.
    pub fn new() -> (r: Self)
        ensures
            r.timeout is None,
    {
        Self { timeout: None }
    }

    /// The timeout in whole milliseconds, truncated to an `i32` as the
    /// networking layer takes it.
    pub fn timeout_ms(&self) -> (r: Option<i32>)
        ensures
            r == match self.timeout {
                Some(t) => Some(duration_millis(t) as i32),
                None => None,
            },
    {
        match &self.timeout {
            Some(timeout) => {
                let ms = duration_as_millis(timeout);
                Some(ms as i32)
            },
            None => None,
        }
    }
}

impl Default for SocketConfig {
    fn default() -> (r: Self)
        ensures
            r.timeout is None,
    {
        Self::new()
    }
}

/// The sequence id before `id`, wrapping at 0.
pub open spec fn prev_seq_id(id: SeqId) -> SeqId {
    if id == 0 {
        SeqId::MAX
    } else {
        (id - 1) as SeqId
    }
}

/// The state of a socket that its logic reads.
pub struct SocketModel {
    pub status: SocketStatus,
    pub events: Seq<EventView>,
    pub config: SocketConfig,
    /// Sequence ids received reliably, still to be acknowledged, oldest first.
    pub pending_acks: Seq<SeqId>,
    pub next_seq_id: SeqId,
    /// Sequence ids sent reliably whose acknowledgement has not arrived.
    pub waiting_acks: Set<SeqId>,
    pub ping: PingModel,
    /// The buffer holding the last message prepared for sending, or the data of
    /// the last message received with data.
    pub buffer: Seq<u8>,
}

impl SocketModel {
    /// The number of acknowledgements that the next message carries.
    pub open spec fn acks_to_send(self) -> int {
        if self.pending_acks.len() < ACK_MAX_LEN {
            self.pending_acks.len() as int
        } else {
            ACK_MAX_LEN as int
        }
    }

    /// The frame of the next message sent with `data`.
    pub open spec fn frame_to_send(self, data: Seq<u8>) -> MsgFrame {
        MsgFrame {
            acks: self.pending_acks.take(self.acks_to_send()),
            seq_id: self.next_seq_id,
            data: if data.len() > 0 {
                Some(data)
            } else {
                None
            },
        }
    }

    /// After preparing `data` for sending at `now`, when the connection is usable:
    /// the message takes the next sequence id and the oldest pending
    /// acknowledgements; a reliable one is awaited and may act as a ping.
    pub open spec fn send(self, data: Seq<u8>, reliable: bool, now: u64) -> SocketModel {
        let seq_id = self.next_seq_id;
        SocketModel {
            next_seq_id: next_seq_id(seq_id),
            ping: if reliable {
                self.ping.ping(seq_id, now)
            } else {
                self.ping
            },
            waiting_acks: if reliable {
                self.waiting_acks.insert(seq_id)
            } else {
                self.waiting_acks
            },
            pending_acks: self.pending_acks.skip(self.acks_to_send()),
            buffer: spec_encode_frame(self.frame_to_send(data)),
            ..self
        }
    }

    /// After receiving the message `f`, reliably or not, at `now`: its
    /// acknowledgements stop being awaited and may answer the ping, a reliable one
    /// is to be acknowledged, and its data becomes an event.
    pub open spec fn receive(self, f: MsgFrame, reliable: bool, now: u64) -> SocketModel {
        SocketModel {
            waiting_acks: self.waiting_acks.filter(|id: SeqId| !f.acks.contains(id)),
            ping: self.ping.pong_all(f.acks, now),
            pending_acks: if reliable {
                self.pending_acks.push(f.seq_id)
            } else {
                self.pending_acks
            },
            events: match f.data {
                Some(data) => self.events.push(EventView::Data(data)),
                None => self.events,
            },
            buffer: match f.data {
                Some(data) => data,
                None => self.buffer,
            },
            ..self
        }
    }

    /// After the status becomes `status`: a change is reported as an event.
    pub open spec fn with_status(self, status: SocketStatus) -> SocketModel {
        if status != self.status {
            SocketModel {
                status,
                events: self.events.push(EventView::StatusChanged(status)),
                ..self
            }
        } else {
            self
        }
    }

    /// After the connection states `states`, in order, each setting the status.
    pub open spec fn apply_conn_states(self, states: Seq<NetConnState>) -> SocketModel
        decreases states.len(),
    {
        if states.len() == 0 {
            self
        } else {
            self.with_status(SocketStatus::spec_from_conn_state(states[0])).apply_conn_states(
                states.drop_first(),
            )
        }
    }

    /// After one processing round in which the networking layer reported the
    /// connection states `states`: they are all applied when the connection could
    /// be used at the start of the round, and ignored otherwise.
    pub open spec fn on_conn_states(self, states: Seq<NetConnState>) -> SocketModel {
        if self.status.spec_can_use_net_conn() {
            self.apply_conn_states(states)
        } else {
            self
        }
    }

    /// The message `seq_id` has arrived: it was sent, and its acknowledgement is not
    /// awaited.
    pub open spec fn received(self, seq_id: SeqId) -> bool {
        seq_id_is_past(prev_seq_id(self.next_seq_id), seq_id) && !self.waiting_acks.contains(seq_id)
    }

    /// Nothing more to do with the socket: it cannot be used and all its events
    /// were read.
    pub open spec fn spec_should_clear(self) -> bool {
        !self.status.spec_can_use_net_conn() && self.events.len() == 0
    }
}

/// The protocol state of a connection.
pub struct Socket {
    /// Reused for the bytes of outgoing messages and the data of incoming ones.
    tmp_buff: Vec<u8>,
    ping_tracker: PingTracker,
    events: VecDeque<SocketEvent>,
    status: SocketStatus,
    config: SocketConfig,
    /// Sequence ids received reliably, to be acknowledged.
    received_acks_ids: VecDeque<SeqId>,
    next_seq_id: SeqId,
    /// Sequence ids awaiting their acknowledgement.
    waiting_acks: AckSet,
}

impl Socket {
    /// The state of the socket that its logic reads.
    pub closed spec fn model(self) -> SocketModel {
        SocketModel {
            status: self.status,
            events: self.events@.map_values(|e: SocketEvent| e@),
            config: self.config,
            pending_acks: self.received_acks_ids@,
            next_seq_id: self.next_seq_id,
            waiting_acks: ack_set_contents(self.waiting_acks),
            ping: self.ping_tracker.model(),
            buffer: self.tmp_buff@,
        }
    }

    /// A socket that is connecting, with configuration `config`.
    pub fn from_config(config: SocketConfig) -> (r: Self)
        ensures
            r.model() == (SocketModel {
                status: SocketStatus::Connecting,
                events: Seq::empty(),
                config,
                pending_acks: Seq::empty(),
                next_seq_id: 0,
                waiting_acks: Set::empty(),
                ping: PingModel { waiting: None, pings: Seq::empty(), origin: r.model().ping.origin },
                buffer: Seq::empty(),
            }),
    {
        let r = Socket {
            tmp_buff: Vec::new(),
            ping_tracker: PingTracker::new(),
            received_acks_ids: VecDeque::new(),
            events: VecDeque::new(),
            config,
            status: SocketStatus::Connecting,
            next_seq_id: 0,
            waiting_acks: AckSet::new(),
        };
        assert(r.events@.map_values(|e: SocketEvent| e@) =~= Seq::empty());
        r
    }

    /// Like `from_config` with the default configuration, but started in the
    /// connected state, which is reported as an event.
    pub fn from_listener() -> (r: Self)
        ensures
            r.model() == (SocketModel {
                status: SocketStatus::Connected,
                events: seq![EventView::StatusChanged(SocketStatus::Connected)],
                config: SocketConfig { timeout: None },
                pending_acks: Seq::empty(),
                next_seq_id: 0,
                waiting_acks: Set::empty(),
                ping: PingModel { waiting: None, pings: Seq::empty(), origin: r.model().ping.origin },
                buffer: Seq::empty(),
            }),
    {
        let mut r = Self::from_config(SocketConfig::default());
        r.update_status(SocketStatus::Connected);
        proof {
            assert(r.model().events =~= seq![EventView::StatusChanged(SocketStatus::Connected)]);
        }
        r
    }

    proof fn lemma_events_push(events: VecDeque<SocketEvent>, old_events: VecDeque<SocketEvent>, e: SocketEvent)
        requires
            events@ == old_events@.push(e),
        ensures
            events@.map_values(|x: SocketEvent| x@) == old_events@.map_values(|x: SocketEvent| x@).push(e@),
    {
        assert(events@.map_values(|x: SocketEvent| x@) =~= old_events@.map_values(|x: SocketEvent| x@).push(e@));
    }

    fn update_status(&mut self, new_status: SocketStatus)
        ensures
            final(self).model() == old(self).model().with_status(new_status),
    {
        if new_status != self.status {
            self.status = new_status;
            let ghost before = self.events;
            self.events.push_back(SocketEvent::StatusChanged(new_status));
            proof {
                Self::lemma_events_push(self.events, before, SocketEvent::StatusChanged(new_status));
            }
        }
    }

    /// Handles the connection states that the networking layer reported in one
    /// processing round, in order. A connection that could no longer be used at
    /// the start of the round is not processed.
    pub fn process_status_change(&mut self, new_states: &[NetConnState])
        ensures
            final(self).model() == old(self).model().on_conn_states(new_states@),
    {
        if !self.status.can_use_net_conn() {
            return;
        }
        let ghost m = self.model();
        let mut i: usize = 0;
        while i < new_states.len()
            invariant
                i <= new_states@.len(),
                self.model() == m.apply_conn_states(new_states@.take(i as int)),
            decreases new_states@.len() - i,
        {
            let status = SocketStatus::from_networking_conn_state(&new_states[i]);
            self.update_status(status);
            proof {
                lemma_apply_conn_states_push(m, new_states@.take(i as int), new_states@[i as int]);
                assert(new_states@.take(i + 1) =~= new_states@.take(i as int).push(new_states@[i as int]));
            }
            i += 1;
        }
        proof {
            assert(new_states@.take(new_states@.len() as int) =~= new_states@);
        }
    }

    /// The current status.
    pub fn status(&self) -> (r: SocketStatus)
        ensures
            r == self.model().status,
    {
        self.status
    }

    /// Takes all the pending events, oldest first.
    pub fn drain_events(&mut self) -> (r: Vec<SocketEvent>)
        ensures
            r@.map_values(|e: SocketEvent| e@) == old(self).model().events,
            final(self).model() == (SocketModel { events: Seq::empty(), ..old(self).model() }),
    {
        let mut r: Vec<SocketEvent> = Vec::new();
        let ghost orig = self.events@;
        while self.events.len() > 0
            invariant
                orig == r@ + self.events@,
                self.tmp_buff == old(self).tmp_buff,
                self.ping_tracker == old(self).ping_tracker,
                self.status == old(self).status,
                self.config == old(self).config,
                self.received_acks_ids == old(self).received_acks_ids,
                self.next_seq_id == old(self).next_seq_id,
                self.waiting_acks == old(self).waiting_acks,
                orig == old(self).events@,
            decreases self.events@.len(),
        {
            let e = self.events.pop_front().unwrap();
            r.push(e);
            assert(orig =~= r@ + self.events@);
        }
        assert(r@ =~= orig);
        assert(self.events@.map_values(|e: SocketEvent| e@) =~= Seq::empty());
        r
    }

    /// Takes the oldest pending event.
    pub fn next_event(&mut self) -> (r: Option<SocketEvent>)
        ensures
            old(self).model().events.len() == 0 ==> r is None && final(self).model() == old(self).model(),
            old(self).model().events.len() > 0 ==> (r matches Some(e) && e@ == old(self).model().events[0]),
            old(self).model().events.len() > 0 ==> final(self).model() == (SocketModel {
                events: old(self).model().events.drop_first(),
                ..old(self).model()
            }),
    {
        let r = self.events.pop_front();
        proof {
            assert(self.events@.map_values(|e: SocketEvent| e@) =~= old(self).events@.map_values(
                |e: SocketEvent| e@,
            ).skip(if old(self).events@.len() > 0 { 1 } else { 0 }));
        }
        r
    }

    /// The ping tracker of this connection.
    pub fn ping_tracker(&self) -> (r: &PingTracker)
        ensures
            r.model() == self.model().ping,
    {
        &self.ping_tracker
    }

    /// The latest ping in ms, and when it arrived (nanoseconds after the tracker's
    /// origin).
    pub fn last_ping_info(&self) -> (r: Option<(u32, u64)>)
        ensures
            r == (if self.model().ping.pings.len() > 0 {
                Some(self.model().ping.pings[0])
            } else {
                None
            }),
    {
        self.ping_tracker.last_ping_info()
    }

    fn get_seq_id(&mut self) -> (r: SeqId)
        ensures
            r == old(self).next_seq_id,
            final(self).next_seq_id == next_seq_id(old(self).next_seq_id),
            final(self).tmp_buff == old(self).tmp_buff,
            final(self).ping_tracker == old(self).ping_tracker,
            final(self).events == old(self).events,
            final(self).status == old(self).status,
            final(self).config == old(self).config,
            final(self).received_acks_ids == old(self).received_acks_ids,
            final(self).waiting_acks == old(self).waiting_acks,
    {
        let seq_id = self.next_seq_id;
        self.next_seq_id = self.next_seq_id.wrapping_add(1);
        seq_id
    }

    /// Prepares `data` for sending at `now`, as `send_options` asks: on success the
    /// bytes to send are in `outgoing`, and the result is the message's sequence id.
    ///
    /// Fails, changing nothing, when the connection cannot be used.
    pub fn prepare_send_at(&mut self, data: &[u8], send_options: SendOptions, now: u64) -> (r: Result<SeqId, Error>)
        ensures
            old(self).model().status.spec_can_use_net_conn() ==> r == Ok::<SeqId, Error>(
                old(self).model().next_seq_id,
            ) && final(self).model() == old(self).model().send(data@, send_options.reliable, now),
            !old(self).model().status.spec_can_use_net_conn() ==> (r matches Err(e) && e.msg@
                == "failed to send p2p steamworks sockets msg: disconnected"@ && e.source is None),
            !old(self).model().status.spec_can_use_net_conn() ==> final(self).model() == old(self).model(),
    {
        if !self.status.can_use_net_conn() {
            return Err(Error::new("failed to send p2p steamworks sockets msg: disconnected"));
        }
        let ghost m = self.model();
        let seq_id = self.get_seq_id();
        if send_options.reliable {
            self.ping_tracker.ping_at(seq_id, now);
            self.waiting_acks.insert(seq_id);
        }
        let raw_msg_out = RawMsgOut::new(&mut self.received_acks_ids, seq_id, data);
        raw_msg_out.encode_into(&mut self.tmp_buff);
        proof {
            assert(raw_msg_out.common.frame(raw_msg_out.data@) == m.frame_to_send(data@));
            assert(self.model() =~= m.send(data@, send_options.reliable, now));
        }
        Ok(seq_id)
    }

    /// Prepares `data` for sending now; see `prepare_send_at`.
    pub fn prepare_send(&mut self, data: &[u8], send_options: SendOptions) -> (r: Result<SeqId, Error>)
        ensures
            old(self).model().status.spec_can_use_net_conn() ==> r == Ok::<SeqId, Error>(
                old(self).model().next_seq_id,
            ) && exists|now: u64|
                final(self).model() == old(self).model().send(data@, send_options.reliable, now),
            !old(self).model().status.spec_can_use_net_conn() ==> (r matches Err(e) && e.msg@
                == "failed to send p2p steamworks sockets msg: disconnected"@ && e.source is None),
            !old(self).model().status.spec_can_use_net_conn() ==> final(self).model() == old(self).model(),
    {
        let now = self.ping_tracker.now_nanos();
        self.prepare_send_at(data, send_options, now)
    }

    /// The bytes of the last message prepared for sending.
    pub fn outgoing(&self) -> (r: &[u8])
        ensures
            r@ == self.model().buffer,
    {
        self.tmp_buff.as_slice()
    }

    /// Handles a message received at `now`: `data` are its bytes, and `reliable`
    /// tells whether it was sent reliably. False when the message cannot be
    /// decoded, which changes nothing.
    pub fn receive_message_at(&mut self, data: &[u8], reliable: bool, now: u64) -> (r: bool)
        requires
            !decode_would_panic(data@),
        ensures
            match spec_decode_frame(data@) {
                None => !r && final(self).model() == old(self).model(),
                Some(f) => r && final(self).model() == old(self).model().receive(f, reliable, now),
            },
    {
        let ghost m = self.model();
        let Some(raw_msg_in) = RawMsgIn::decode_from(&mut self.tmp_buff, data) else {
            return false;
        };
        let ghost f = spec_decode_frame(data@).unwrap();
        let ghost buf_after = self.tmp_buff@;
        let acks = raw_msg_in.common.acks();
        let mut i: usize = 0;
        while i < acks.len()
            invariant
                acks@ == f.acks,
                i <= acks@.len(),
                ack_set_contents(self.waiting_acks) == m.waiting_acks.filter(
                    |id: SeqId| !acks@.take(i as int).contains(id),
                ),
                self.ping_tracker.model() == m.ping.pong_all(acks@.take(i as int), now),
                self.status == m.status,
                self.events@.map_values(|e: SocketEvent| e@) == m.events,
                self.config == m.config,
                self.received_acks_ids@ == m.pending_acks,
                self.next_seq_id == m.next_seq_id,
                self.tmp_buff@ == buf_after,
            decreases acks@.len() - i,
        {
            let ack_seq_id = acks[i];
            self.waiting_acks.remove(ack_seq_id);
            self.ping_tracker.pong_at(ack_seq_id, now);
            proof {
                let t0 = acks@.take(i as int);
                let t1 = acks@.take(i + 1);
                assert(t1 =~= t0.push(ack_seq_id));
                assert forall|x: SeqId| t1.contains(x) == (t0.contains(x) || x == ack_seq_id) by {
                    if t1.contains(x) {
                        let j = choose|j: int| 0 <= j < t1.len() && t1[j] == x;
                        if j < t0.len() {
                            assert(t0[j] == x);
                        }
                    }
                    if t0.contains(x) {
                        let j = choose|j: int| 0 <= j < t0.len() && t0[j] == x;
                        assert(t1[j] == x);
                    }
                    if x == ack_seq_id {
                        assert(t1[i as int] == x);
                    }
                }
                assert(ack_set_contents(self.waiting_acks) =~= m.waiting_acks.filter(
                    |id: SeqId| !t1.contains(id),
                ));
                lemma_pong_all_push(m.ping, t0, ack_seq_id, now);
            }
            i += 1;
        }
        proof {
            assert(acks@.take(acks@.len() as int) =~= acks@);
        }
        if reliable {
            self.received_acks_ids.push_back(raw_msg_in.common.seq_id);
        }
        if raw_msg_in.common.has_data {
            let ghost before = self.events;
            let boxed = boxed_copy(&self.tmp_buff);
            self.events.push_back(SocketEvent::Data(boxed));
            proof {
                Self::lemma_events_push(self.events, before, SocketEvent::Data(boxed));
            }
        }
        proof {
            let r = m.receive(f, reliable, now);
            assert(self.model().waiting_acks =~= r.waiting_acks);
            assert(self.model().ping == r.ping);
            assert(self.model().pending_acks =~= r.pending_acks);
            assert(self.model().events =~= r.events);
            assert(self.model().buffer =~= r.buffer);
            assert(self.model() =~= r);
        }
        true
    }

    /// Handles a message received now; see `receive_message_at`.
    pub fn receive_message(&mut self, data: &[u8], reliable: bool) -> (r: bool)
        requires
            !decode_would_panic(data@),
        ensures
            match spec_decode_frame(data@) {
                None => !r && final(self).model() == old(self).model(),
                Some(f) => r && exists|now: u64|
                    final(self).model() == old(self).model().receive(f, reliable, now),
            },
    {
        let now = self.ping_tracker.now_nanos();
        self.receive_message_at(data, reliable, now)
    }

    /// Whether the message `seq_id` has arrived: it was sent, and its
    /// acknowledgement, if it was sent reliably, has come back.
    pub fn is_seq_id_received(&self, seq_id: SeqId) -> (r: bool)
        ensures
            r == self.model().received(seq_id),
    {
        let last_sent_seq_id = self.next_seq_id.wrapping_sub(1);
        is_seq_id_past(last_sent_seq_id, seq_id) && !self.waiting_acks.contains(seq_id)
    }

    /// Replaces the configuration.
    pub fn set_config(&mut self, config: SocketConfig)
        ensures
            final(self).model() == (SocketModel { config, ..old(self).model() }),
    {
        self.config = config;
    }

    /// The configuration.
    pub fn get_config(&self) -> (r: SocketConfig)
        ensures
            r == self.model().config,
    {
        self.config
    }

    /// Only true if the connection cannot be used any more and no events are left
    /// to read.
    pub fn should_clear(&self) -> (r: bool)
        ensures
            r == self.model().spec_should_clear(),
    {
        !self.status.can_use_net_conn() && self.events.len() == 0
    }

    /// Ends the connection from this side.
    pub fn send_end(&mut self)
        ensures
            final(self).model() == old(self).model().with_status(
                SocketStatus::Terminated { by_remote: false },
            ),
    {
        self.set_terminated(false);
    }

    /// Marks the connection as ended, by the remote or not.
    pub fn set_terminated(&mut self, by_remote: bool)
        ensures
            final(self).model() == old(self).model().with_status(SocketStatus::Terminated { by_remote }),
    {
        self.update_status(SocketStatus::Terminated { by_remote });
    }
}

/// One operation on a socket, as its model sees it: `prepare_send` /
/// `prepare_send_at` (`Send`), a decoded `receive_message` / `receive_message_at`
/// (`Receive`), `process_status_change` (`ConnStates`), `set_terminated` /
/// `send_end` (`Terminate`), `set_config` (`SetConfig`), `next_event`
/// (`TakeEvent`) and `drain_events` (`TakeAllEvents`).
pub enum SocketStep {
    Send { data: Seq<u8>, reliable: bool, now: u64 },
    Receive { frame: MsgFrame, reliable: bool, now: u64 },
    ConnStates(Seq<NetConnState>),
    Terminate(bool),
    SetConfig(SocketConfig),
    TakeEvent,
    TakeAllEvents,
}

impl SocketModel {
    /// The state after the operation `s`, as the operations' contracts give it.
    pub open spec fn step(self, s: SocketStep) -> SocketModel {
        match s {
            SocketStep::Send { data, reliable, now } => if self.status.spec_can_use_net_conn() {
                self.send(data, reliable, now)
            } else {
                self
            },
            SocketStep::Receive { frame, reliable, now } => self.receive(frame, reliable, now),
            SocketStep::ConnStates(states) => self.on_conn_states(states),
            SocketStep::Terminate(by_remote) => self.with_status(SocketStatus::Terminated { by_remote }),
            SocketStep::SetConfig(config) => SocketModel { config, ..self },
            SocketStep::TakeEvent => if self.events.len() > 0 {
                SocketModel { events: self.events.drop_first(), ..self }
            } else {
                self
            },
            SocketStep::TakeAllEvents => SocketModel { events: Seq::empty(), ..self },
        }
    }

    /// The state after the operations `steps`, in order.
    pub open spec fn run(self, steps: Seq<SocketStep>) -> SocketModel
        decreases steps.len(),
    {
        if steps.len() == 0 {
            self
        } else {
            self.step(steps[0]).run(steps.drop_first())
        }
    }
}

/// No received message in `steps` acknowledges `seq_id`.
pub open spec fn steps_never_ack(steps: Seq<SocketStep>, seq_id: SeqId) -> bool {
    forall|i: int|
        0 <= i < steps.len() ==> match #[trigger] steps[i] {
            SocketStep::Receive { frame, .. } => !frame.acks.contains(seq_id),
            _ => true,
        }
}

/// A message whose acknowledgement is awaited stays awaited, and so not received,
/// through any operations until a received message acknowledges it.
pub proof fn lemma_awaited_until_acked(m: SocketModel, steps: Seq<SocketStep>, seq_id: SeqId)
    requires
        m.waiting_acks.contains(seq_id),
        steps_never_ack(steps, seq_id),
    ensures
        m.run(steps).waiting_acks.contains(seq_id),
        !m.run(steps).received(seq_id),
    decreases steps.len(),
{
    if steps.len() > 0 {
        let m1 = m.step(steps[0]);
        if let SocketStep::ConnStates(states) = steps[0] {
            lemma_apply_conn_states_keeps(m, states);
        }
        assert(m1.waiting_acks.contains(seq_id));
        assert forall|i: int| 0 <= i < steps.drop_first().len() implies match #[trigger] steps.drop_first()[i] {
            SocketStep::Receive { frame, .. } => !frame.acks.contains(seq_id),
            _ => true,
        } by {
            assert(steps.drop_first()[i] == steps[i + 1]);
        }
        lemma_awaited_until_acked(m1, steps.drop_first(), seq_id);
    }
}

/// A reliable message is not reported received, from when it is sent until a
/// received message acknowledges it.
pub proof fn lemma_reliable_send_awaited_until_acked(
    m: SocketModel,
    data: Seq<u8>,
    now: u64,
    steps: Seq<SocketStep>,
)
    requires
        m.status.spec_can_use_net_conn(),
        steps_never_ack(steps, m.next_seq_id),
    ensures
        !m.send(data, true, now).run(steps).received(m.next_seq_id),
{
    lemma_awaited_until_acked(m.send(data, true, now), steps, m.next_seq_id);
}

/// A connection that can no longer be used never becomes usable again, whatever
/// the operations; once terminated, it stays terminated.
pub proof fn lemma_unusable_is_final(m: SocketModel, steps: Seq<SocketStep>)
    requires
        !m.status.spec_can_use_net_conn(),
    ensures
        !m.run(steps).status.spec_can_use_net_conn(),
        m.status is Terminated ==> m.run(steps).status is Terminated,
    decreases steps.len(),
{
    if steps.len() > 0 {
        lemma_unusable_is_final(m.step(steps[0]), steps.drop_first());
    }
}

/// Applying connection states changes only the status and the events.
pub proof fn lemma_apply_conn_states_keeps(m: SocketModel, states: Seq<NetConnState>)
    ensures
        m.apply_conn_states(states).waiting_acks == m.waiting_acks,
        m.apply_conn_states(states).next_seq_id == m.next_seq_id,
        m.apply_conn_states(states).pending_acks == m.pending_acks,
        m.apply_conn_states(states).ping == m.ping,
        m.apply_conn_states(states).buffer == m.buffer,
        m.apply_conn_states(states).config == m.config,
    decreases states.len(),
{
    if states.len() > 0 {
        lemma_apply_conn_states_keeps(
            m.with_status(SocketStatus::spec_from_conn_state(states[0])),
            states.drop_first(),
        );
    }
}

proof fn lemma_apply_conn_states_push(m: SocketModel, states: Seq<NetConnState>, state: NetConnState)
    ensures
        m.apply_conn_states(states.push(state)) == m.apply_conn_states(states).with_status(
            SocketStatus::spec_from_conn_state(state),
        ),
    decreases states.len(),
{
    if states.len() == 0 {
        assert(states.push(state).drop_first() =~= Seq::<NetConnState>::empty());
        assert(m.apply_conn_states(states) == m);
        assert(states.push(state)[0] == state);
        let m1 = m.with_status(SocketStatus::spec_from_conn_state(state));
        assert(m.apply_conn_states(states.push(state)) == m1.apply_conn_states(Seq::empty()));
    } else {
        assert(states.push(state).drop_first() =~= states.drop_first().push(state));
        assert(states.push(state)[0] == states[0]);
        lemma_apply_conn_states_push(
            m.with_status(SocketStatus::spec_from_conn_state(states[0])),
            states.drop_first(),
            state,
        );
    }
}

/// Received data is reported, reliable or not: a decoded message that carries
/// data adds exactly one event, that data, after the events already there; one
/// without data adds none.
pub proof fn lemma_received_data_is_reported(m: SocketModel, f: MsgFrame, reliable: bool, now: u64)
    ensures
        f.data matches Some(d) ==> m.receive(f, reliable, now).events == m.events.push(EventView::Data(d)),
        f.data is None ==> m.receive(f, reliable, now).events == m.events,
        m.receive(f, true, now).events == m.receive(f, false, now).events,
{
}

/// Only reliable messages are acknowledged: receiving an unreliable message leaves
/// the pending acknowledgements as they were, and a reliable one adds its own
/// sequence id at the end.
pub proof fn lemma_only_reliable_messages_acked(m: SocketModel, f: MsgFrame, now: u64)
    ensures
        m.receive(f, false, now).pending_acks == m.pending_acks,
        m.receive(f, true, now).pending_acks == m.pending_acks.push(f.seq_id),
        m.receive(f, true, now).pending_acks.len() == m.pending_acks.len() + 1,
        m.receive(f, true, now).pending_acks.last() == f.seq_id,
{
}

/// Only reliable messages serve as pings or are awaited: sending unreliably
/// leaves the ping tracker and the awaited acknowledgements as they were; sending
/// reliably awaits the message's own id, and makes it the ping unless one is
/// already awaited.
pub proof fn lemma_only_reliable_sends_ping(m: SocketModel, data: Seq<u8>, now: u64)
    ensures
        m.send(data, false, now).ping == m.ping,
        m.send(data, false, now).waiting_acks == m.waiting_acks,
        m.send(data, true, now).waiting_acks == m.waiting_acks.insert(m.next_seq_id),
        m.ping.waiting is None ==> m.send(data, true, now).ping.waiting == Some((m.next_seq_id, now)),
        m.ping.waiting is Some ==> m.send(data, true, now).ping == m.ping,
{
}

/// A socket is cleared exactly when its connection is over, by a local error or
/// an end from either side, and no event is left to read.
pub proof fn lemma_should_clear_when_over(m: SocketModel)
    ensures
        m.spec_should_clear() <==> ((m.status is LocalError || m.status is Terminated) && m.events.len() == 0),
        m.status is LocalError && m.events.len() == 0 ==> m.spec_should_clear(),
        (m.status is Connecting || m.status is Connected) ==> !m.spec_should_clear(),
        m.events.len() > 0 ==> !m.spec_should_clear(),
{
}

/// A reliable message is not reported received right after it is sent: its
/// acknowledgement is awaited.
pub proof fn lemma_reliable_send_awaits_ack(m: SocketModel, data: Seq<u8>, now: u64)
    ensures
        !m.send(data, true, now).received(m.next_seq_id),
{
}

/// An unreliable message counts as received as soon as it is sent, unless an
/// earlier reliable message with the same id is still awaited.
pub proof fn lemma_unreliable_send_received(m: SocketModel, data: Seq<u8>, now: u64)
    requires
        !m.waiting_acks.contains(m.next_seq_id),
    ensures
        m.send(data, false, now).received(m.next_seq_id),
{
}

/// Receiving an acknowledgement of a message that was sent makes it received.
pub proof fn lemma_ack_makes_received(m: SocketModel, f: MsgFrame, reliable: bool, now: u64, seq_id: SeqId)
    requires
        f.acks.contains(seq_id),
        seq_id_is_past(prev_seq_id(m.next_seq_id), seq_id),
    ensures
        m.receive(f, reliable, now).received(seq_id),
{
}

/// Each message prepared for sending takes the next sequence id.
pub proof fn lemma_send_advances_seq_id(m: SocketModel, data: Seq<u8>, reliable: bool, now: u64)
    ensures
        m.send(data, reliable, now).next_seq_id == next_seq_id(m.next_seq_id),
        prev_seq_id(m.send(data, reliable, now).next_seq_id) == m.next_seq_id,
{
}

/// Pending acknowledgements leave in the order they arrived: the acknowledgements
/// that a message carries, followed by those left pending, are those pending before.
pub proof fn lemma_acks_sent_in_order(m: SocketModel, data: Seq<u8>, reliable: bool, now: u64)
    ensures
        m.frame_to_send(data).acks + m.send(data, reliable, now).pending_acks == m.pending_acks,
        m.frame_to_send(data).acks.len() <= ACK_MAX_LEN,
{
    assert(m.frame_to_send(data).acks + m.send(data, reliable, now).pending_acks =~= m.pending_acks);
}

/// The bytes prepared for sending decode to the message that was prepared: its
/// acknowledgements, sequence id and data.
pub proof fn lemma_sent_bytes_decode(m: SocketModel, data: Seq<u8>, reliable: bool, now: u64)
    ensures
        spec_decode_frame(m.send(data, reliable, now).buffer) == Some(m.frame_to_send(data)),
{
    lemma_decode_encode(m.frame_to_send(data));
}

/// Every operation keeps the ping tracker bounded: at most `PINGS_LEN` pings, each
/// below 5000 ms.
pub proof fn lemma_operations_keep_pings_bounded(
    m: SocketModel,
    data: Seq<u8>,
    f: MsgFrame,
    reliable: bool,
    now: u64,
    status: SocketStatus,
)
    requires
        m.ping.bounded(),
    ensures
        m.send(data, reliable, now).ping.bounded(),
        m.receive(f, reliable, now).ping.bounded(),
        m.with_status(status).ping.bounded(),
{
    lemma_pong_all_bounded(m.ping, f.acks, now);
}

/// A status change is reported once: setting the same status again changes nothing.
pub proof fn lemma_with_status_idempotent(m: SocketModel, status: SocketStatus)
    ensures
        m.with_status(status).status == status,
        m.with_status(status).with_status(status) == m.with_status(status),
        (m.with_status(status).events.len() == m.events.len() + 1) == (status != m.status),
{
}

/// A reliable exchange between two sockets: `a` sends `data` reliably; `b` decodes
/// the bytes, gets the data as an event, and acknowledges it with its next message,
/// which was the only acknowledgement pending at `b`; once `a` receives that
/// message, `a` reports its message as received.
pub proof fn lemma_reliable_exchange(
    a: SocketModel,
    b: SocketModel,
    data: Seq<u8>,
    reply: Seq<u8>,
    reply_reliable: bool,
    t1: u64,
    t2: u64,
    t3: u64,
    t4: u64,
)
    requires
        data.len() > 0,
        b.pending_acks.len() == 0,
    ensures
        ({
            let a1 = a.send(data, true, t1);
            let f = spec_decode_frame(a1.buffer).unwrap();
            let b1 = b.receive(f, true, t2);
            let b2 = b1.send(reply, reply_reliable, t3);
            let g = spec_decode_frame(b2.buffer).unwrap();
            let a2 = a1.receive(g, reply_reliable, t4);
            &&& !a1.received(a.next_seq_id)
            &&& b1.events == b.events.push(EventView::Data(data))
            &&& a2.received(a.next_seq_id)
        }),
{
    let a1 = a.send(data, true, t1);
    lemma_sent_bytes_decode(a, data, true, t1);
    let f = spec_decode_frame(a1.buffer).unwrap();
    assert(f == a.frame_to_send(data));
    let b1 = b.receive(f, true, t2);
    assert(b1.pending_acks =~= seq![a.next_seq_id]);
    let b2 = b1.send(reply, reply_reliable, t3);
    lemma_sent_bytes_decode(b1, reply, reply_reliable, t3);
    let g = spec_decode_frame(b2.buffer).unwrap();
    assert(g.acks =~= seq![a.next_seq_id]);
    assert(g.acks[0] == a.next_seq_id);
    lemma_ack_makes_received(a1, g, reply_reliable, t4, a.next_seq_id);
}

proof fn lemma_pong_all_push(m: PingModel, acks: Seq<SeqId>, id: SeqId, now: u64)
    ensures
        m.pong_all(acks.push(id), now) == m.pong_all(acks, now).pong(id, now),
    decreases acks.len(),
{
    if acks.len() == 0 {
        assert(acks.push(id).drop_first() =~= Seq::<SeqId>::empty());
        assert(m.pong_all(acks, now) == m);
        assert(acks.push(id)[0] == id);
        assert(m.pong_all(acks.push(id), now) == m.pong(id, now).pong_all(Seq::empty(), now));
    } else {
        assert(acks.push(id).drop_first() =~= acks.drop_first().push(id));
        assert(acks.push(id)[0] == acks[0]);
        lemma_pong_all_push(m.pong(acks[0], now), acks.drop_first(), id, now);
    }
}

} // verus!
