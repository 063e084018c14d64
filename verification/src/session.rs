//! The session state machine. It owns the connection phase, the table of
//! packets awaiting acknowledgement, the packet-identifier counter and the
//! keep-alive clock. Every transition is a plain function from the current
//! state and an event to the next state plus the bytes to write; the caller
//! drives it from its read loop and timer and performs all transport I/O.
//!
//! Timestamps are caller-supplied milliseconds from any monotone clock; the
//! keep-alive interval is kept in the same unit.

use vstd::prelude::*;
use vstd::seq_lib::seq_to_set_is_finite;
use vstd::set_lib::{lemma_int_range, lemma_len_subset, set_int_range};
use vstd::utf8::encode_utf8;
use crate::error::{DisconnectReason, MqttError};
use crate::decode::ConnAck;
use crate::packet::{
    ack_packet_bytes, connect_body, encode_disconnect, encode_puback, encode_pubcomp,
    encode_pubrec, encode_pubrel, encode_subscribe, extend_bytes, filter_blocks, filters_view,
    packet_bytes, publish_body, publish_flags, subscribe_body, valid_topic_bytes, MqttConnect,
    MqttPingReq, MqttPublish, SubscribeFilter,
};
use vstd::slice::slice_subrange;
use crate::varint::VARINT_MAX;

verus! {

/// The lifecycle of one connection attempt. A session that reaches
/// `Disconnected` stays there; reconnecting takes a fresh instance.
#[derive(Clone, Copy, Debug, PartialEq, Eq, Structural)]
pub enum Phase {
    Disconnected,
    Connecting,
    Connected,
    Disconnecting,
}

/// Which acknowledgement a pending entry waits for.
#[derive(Clone, Copy, Debug, PartialEq, Eq, Structural)]
pub enum AckKind {
    SubAck,
    PubAck,
    PubRec,
    PubComp,
}

/// One packet awaiting acknowledgement. `sub_filters` keeps the requested
/// topics of a SUBSCRIBE so a SUBACK can be correlated in request order; it
/// is empty for publish acknowledgements. `packet` holds the bytes as sent,
/// so an unanswered packet can be retransmitted `retries_left` more times
/// before the wait is reported as timed out.
pub struct PendingAck {
    pub packet_id: u16,
    pub kind: AckKind,
    pub issued_at: u64,
    pub sub_filters: Vec<String>,
    pub packet: Vec<u8>,
    pub retries_left: u8,
}

/// What the session reports upward to the application.
pub enum SessionEvent {
    Connected,
    ConnectFailed(u8),
    MessageReceived(MqttPublish),
    Subscribed { topic: String, granted_qos: u8 },
    SubscribeFailed { topic: String },
    PublishTimedOut { packet_id: u16 },
    SubscribeTimedOut { packet_id: u16 },
    Disconnected(DisconnectReason),
}

/// What an acknowledgement-timeout check asks the caller to do.
pub enum AckTimeoutAction {
    Idle,
    Retransmit(Vec<u8>),
    TimedOut(SessionEvent),
}

/// A stored packet marked for retransmission: the DUP bit of its
/// fixed-header byte set.
pub open spec fn dup_marked(p: Seq<u8>) -> Seq<u8> {
    if p.len() == 0 {
        p
    } else {
        p.update(0, p[0] | 8)
    }
}

/// The bytes a timed-out entry is retransmitted as: a PUBLISH goes out
/// again with DUP set; a SUBSCRIBE or PUBREL goes out unchanged.
pub open spec fn retransmit_bytes(p: PendingAck) -> Seq<u8> {
    if p.kind == AckKind::PubAck || p.kind == AckKind::PubRec {
        dup_marked(p.packet@)
    } else {
        p.packet@
    }
}

/// What a timer tick asks the caller to do.
pub enum TickAction {
    Idle,
    SendPingReq(Vec<u8>),
    SessionExpired(DisconnectReason),
}

/// The event a SUBACK result byte resolves its request to, in request order.
pub open spec fn suback_event_of(filter: String, granted: u8) -> SessionEvent {
    if granted != 0x80 {
        SessionEvent::Subscribed { topic: filter, granted_qos: granted }
    } else {
        SessionEvent::SubscribeFailed { topic: filter }
    }
}

/// The events of a whole SUBACK: the i-th result byte resolves the i-th
/// requested filter, never correlated by content.
pub open spec fn suback_events_match(
    events: Seq<SessionEvent>,
    filters: Seq<String>,
    granted: Seq<u8>,
) -> bool {
    &&& events.len() == granted.len()
    &&& filters.len() == granted.len()
    &&& forall|i: int|
        0 <= i < granted.len() ==> #[trigger] events[i] == suback_event_of(filters[i], granted[i])
}

/// One client session: the connection phase, keep-alive accounting, the
/// table of packets awaiting acknowledgement, the identifier counter, and
/// the identifiers of inbound QoS 2 messages whose PUBREL is still owed.
pub struct SessionState {
    pub phase: Phase,
    pub last_activity: u64,
    pub keep_alive_interval: u64,
    pub ack_timeout: u64,
    pub pending: Vec<PendingAck>,
    pub next_packet_id: u16,
    pub ping_sent_at: Option<u64>,
    pub incoming_qos2: Vec<u16>,
    pub opts: MqttConnect,
}

impl SessionState {
    /// Identifiers outstanding in `pending` are unique and never zero, the
    /// counter stays in 1..=65535, and the inbound QoS 2 table is duplicate
    /// free.
    pub open spec fn wf(self) -> bool {
        &&& forall|i: int, j: int|
            0 <= i < j < self.pending@.len() ==> (#[trigger] self.pending@[i]).packet_id != (
            #[trigger] self.pending@[j]).packet_id
        &&& forall|i: int|
            0 <= i < self.pending@.len() ==> (#[trigger] self.pending@[i]).packet_id != 0
        &&& self.next_packet_id >= 1
        &&& forall|i: int, j: int|
            0 <= i < j < self.incoming_qos2@.len() ==> self.incoming_qos2@[i]
                != self.incoming_qos2@[j]
    }

    /// Some entry is outstanding under `id`.
    pub open spec fn has_pending_id(self, id: u16) -> bool {
        exists|i: int|
            0 <= i < self.pending@.len() && (#[trigger] self.pending@[i]).packet_id == id
    }

    /// An entry is outstanding under `id` awaiting `kind`.
    pub open spec fn has_pending(self, id: u16, kind: AckKind) -> bool {
        exists|i: int|
            0 <= i < self.pending@.len() && (#[trigger] self.pending@[i]).packet_id == id
                && self.pending@[i].kind == kind
    }

    /// Everything except the pending table left exactly as it was.
    pub open spec fn only_pending_changed(self, prev: SessionState) -> bool {
        &&& self.phase == prev.phase
        &&& self.last_activity == prev.last_activity
        &&& self.ping_sent_at == prev.ping_sent_at
        &&& self.incoming_qos2@ == prev.incoming_qos2@
        &&& self.next_packet_id == prev.next_packet_id
        &&& self.config_unchanged(prev)
    }

    /// The configuration fields a transition never touches.
    pub open spec fn config_unchanged(self, prev: SessionState) -> bool {
        &&& self.keep_alive_interval == prev.keep_alive_interval
        &&& self.ack_timeout == prev.ack_timeout
        &&& self.opts == prev.opts
    }

    /// Entry `i` of the pending table has waited at least the
    /// acknowledgement timeout by `now`.
    pub open spec fn expired_at(self, i: int, now: u64) -> bool {
        now >= self.pending@[i].issued_at + self.ack_timeout
    }

    /// A session torn down in place: `Disconnected`, every pending entry
    /// dropped without per-entry timeout handling, nothing else touched.
    pub open spec fn torn_down(self, prev: SessionState) -> bool {
        &&& self.phase == Phase::Disconnected
        &&& self.pending@.len() == 0
        &&& self.incoming_qos2@.len() == 0
        &&& self.ping_sent_at is None
        &&& self.last_activity == prev.last_activity
        &&& self.next_packet_id == prev.next_packet_id
        &&& self.config_unchanged(prev)
    }

    /// A fresh session around `opts`: disconnected, nothing pending, the
    /// identifier counter at 1, the keep-alive interval in milliseconds.
    /// The acknowledgement timeout starts at the keep-alive interval; the
    /// field is public and can be tuned before connecting.
    pub fn new(opts: MqttConnect) -> (r: SessionState)
        ensures
            r.phase == Phase::Disconnected,
            r.pending@.len() == 0,
            r.incoming_qos2@.len() == 0,
            r.ping_sent_at is None,
            r.next_packet_id == 1,
            r.last_activity == 0,
            r.keep_alive_interval == opts.keep_alive as u64 * 1000,
            r.ack_timeout == opts.keep_alive as u64 * 1000,
            r.opts == opts,
            r.wf(),
    {
        let keep_alive_interval: u64 = (opts.keep_alive as u64) * 1000;
        SessionState {
            phase: Phase::Disconnected,
            last_activity: 0,
            keep_alive_interval,
            ack_timeout: keep_alive_interval,
            pending: Vec::new(),
            next_packet_id: 1,
            ping_sent_at: None,
            incoming_qos2: Vec::new(),
            opts,
        }
    }

    fn contains_pending_id(&self, id: u16) -> (b: bool)
        ensures
            b == self.has_pending_id(id),
    {
        let mut i: usize = 0;
        while i < self.pending.len()
            invariant
                i <= self.pending@.len(),
                forall|j: int| 0 <= j < i ==> (#[trigger] self.pending@[j]).packet_id != id,
            decreases self.pending@.len() - i,
        {
            if self.pending[i].packet_id == id {
                return true;
            }
            i = i + 1;
        }
        false
    }

    fn find_pending(&self, id: u16, kind: AckKind) -> (r: Option<usize>)
        ensures
            match r {
                Some(k) => {
                    &&& k < self.pending@.len()
                    &&& self.pending@[k as int].packet_id == id
                    &&& self.pending@[k as int].kind == kind
                },
                None => !self.has_pending(id, kind),
            },
    {
        let mut i: usize = 0;
        while i < self.pending.len()
            invariant
                i <= self.pending@.len(),
                forall|j: int|
                    0 <= j < i ==> !((#[trigger] self.pending@[j]).packet_id == id
                        && self.pending@[j].kind == kind),
            decreases self.pending@.len() - i,
        {
            if self.pending[i].packet_id == id && self.pending[i].kind == kind {
                return Some(i);
            }
            i = i + 1;
        }
        None
    }

    /// The first identifier, counting up from `next_packet_id` and wrapping
    /// from 65535 to 1, that no pending entry holds; zero is reserved and
    /// never issued. `None` only when every identifier is outstanding.
    pub fn alloc_packet_id(&self) -> (r: Option<u16>)
        requires
            self.wf(),
        ensures
            match r {
                Some(id) => {
                    &&& 1 <= id
                    &&& !self.has_pending_id(id)
                    &&& (id >= self.next_packet_id ==> forall|x: u16|
                        self.next_packet_id <= x < id ==> self.has_pending_id(x))
                    &&& (id < self.next_packet_id ==> (forall|x: u16|
                        self.next_packet_id <= x ==> self.has_pending_id(x)) && (forall|x: u16|
                        1 <= x < id ==> self.has_pending_id(x)))
                },
                None => forall|x: u16| 1 <= x ==> self.has_pending_id(x),
            },
    {
        let mut x: u32 = self.next_packet_id as u32;
        while x <= 65535
            invariant
                self.wf(),
                self.next_packet_id as u32 <= x <= 65536,
                forall|y: u16|
                    self.next_packet_id <= y && (y as u32) < x ==> self.has_pending_id(y),
            decreases 65536 - x,
        {
            if !self.contains_pending_id(x as u16) {
                return Some(x as u16);
            }
            x = x + 1;
        }
        let mut y: u32 = 1;
        while y < self.next_packet_id as u32
            invariant
                self.wf(),
                1 <= y <= self.next_packet_id as u32,
                forall|z: u16| self.next_packet_id <= z ==> self.has_pending_id(z),
                forall|z: u16| 1 <= z && (z as u32) < y ==> self.has_pending_id(z),
            decreases self.next_packet_id as u32 - y,
        {
            if !self.contains_pending_id(y as u16) {
                return Some(y as u16);
            }
            y = y + 1;
        }
        None
    }
}

/// A session in which every one of the 65535 usable identifiers is
/// outstanding holds at least 65535 pending entries; so while fewer are
/// outstanding, allocation cannot fail.
pub proof fn lemma_pending_full(s: SessionState)
    requires
        s.wf(),
        forall|x: u16| 1 <= x ==> s.has_pending_id(x),
    ensures
        s.pending@.len() >= 65535,
{
    let ids = Seq::new(s.pending@.len(), |i: int| s.pending@[i].packet_id as int);
    assert(ids.no_duplicates()) by {
        assert forall|i: int, j: int|
            0 <= i < ids.len() && 0 <= j < ids.len() && i != j implies ids[i] != ids[j] by {
            if i < j {
                assert(s.pending@[i].packet_id != s.pending@[j].packet_id);
            } else {
                assert(s.pending@[j].packet_id != s.pending@[i].packet_id);
            }
        }
    }
    let range = set_int_range(1, 65536);
    assert(range.subset_of(ids.to_set())) by {
        assert forall|x: int| range.contains(x) implies ids.to_set().contains(x) by {
            let xu = x as u16;
            assert(1 <= xu);
            assert(s.has_pending_id(xu));
            let i = choose|i: int|
                0 <= i < s.pending@.len() && (#[trigger] s.pending@[i]).packet_id == xu;
            assert(ids[i] == x);
            assert(ids.contains(x));
        }
    }
    lemma_int_range(1, 65536);
    ids.unique_seq_to_set();
    seq_to_set_is_finite(ids);
    lemma_len_subset(range, ids.to_set());
}

impl SessionState {
    /// Leaves `Disconnected` for `Connecting` and hands back the CONNECT
    /// packet to send. Rejects a client identifier whose UTF-8 bytes cannot
    /// be length-prefixed with two bytes, leaving the session untouched.
    pub fn connect(&mut self, now: u64) -> (r: Result<Vec<u8>, MqttError>)
        requires
            old(self).wf(),
            old(self).phase == Phase::Disconnected,
        ensures
            final(self).wf(),
            match r {
                Ok(b) => {
                    &&& encode_utf8(old(self).opts.client_id@).len() <= 65535
                    &&& b@ == packet_bytes(
                        0x10,
                        connect_body(
                            encode_utf8(old(self).opts.client_id@),
                            old(self).opts.clean_session,
                            old(self).opts.keep_alive,
                        ),
                    )
                    &&& final(self).phase == Phase::Connecting
                    &&& final(self).last_activity == now
                    &&& final(self).pending@ == old(self).pending@
                    &&& final(self).incoming_qos2@ == old(self).incoming_qos2@
                    &&& final(self).next_packet_id == old(self).next_packet_id
                    &&& final(self).ping_sent_at == old(self).ping_sent_at
                    &&& final(self).config_unchanged(*old(self))
                },
                Err(e) => {
                    &&& e == MqttError::InvalidClientId
                    &&& encode_utf8(old(self).opts.client_id@).len() > 65535
                    &&& *final(self) == *old(self)
                },
            },
    {
        match self.opts.encode() {
            Ok(b) => {
                self.phase = Phase::Connecting;
                self.last_activity = now;
                Ok(b)
            },
            Err(e) => Err(e),
        }
    }

    /// Resolves the `Connecting` phase from the broker's CONNACK: return
    /// code 0 enters `Connected` and restarts keep-alive accounting, a
    /// rejection tears the session down with the code, and a CONNACK in any
    /// other phase is a protocol violation.
    pub fn on_connack(&mut self, ack: ConnAck, now: u64) -> (r: SessionEvent)
        requires
            old(self).wf(),
        ensures
            final(self).wf(),
            old(self).phase == Phase::Connecting && ack.return_code == 0 ==> {
                &&& r == SessionEvent::Connected
                &&& final(self).phase == Phase::Connected
                &&& final(self).last_activity == now
                &&& final(self).pending@ == old(self).pending@
                &&& final(self).incoming_qos2@ == old(self).incoming_qos2@
                &&& final(self).next_packet_id == old(self).next_packet_id
                &&& final(self).ping_sent_at == old(self).ping_sent_at
                &&& final(self).config_unchanged(*old(self))
            },
            old(self).phase == Phase::Connecting && ack.return_code != 0 ==> {
                &&& r == SessionEvent::ConnectFailed(ack.return_code)
                &&& final(self).torn_down(*old(self))
            },
            old(self).phase != Phase::Connecting ==> {
                &&& r == SessionEvent::Disconnected(DisconnectReason::ProtocolViolation)
                &&& final(self).torn_down(*old(self))
            },
    {
        if self.phase == Phase::Connecting {
            if ack.return_code == 0 {
                self.phase = Phase::Connected;
                self.last_activity = now;
                SessionEvent::Connected
            } else {
                self.phase = Phase::Disconnected;
                self.pending.clear();
                self.incoming_qos2.clear();
                self.ping_sent_at = None;
                SessionEvent::ConnectFailed(ack.return_code)
            }
        } else {
            self.phase = Phase::Disconnected;
            self.pending.clear();
            self.incoming_qos2.clear();
            self.ping_sent_at = None;
            SessionEvent::Disconnected(DisconnectReason::ProtocolViolation)
        }
    }

    /// Tears the session down after undecodable bytes: MQTT framing has no
    /// resynchronization marker, so no recovery is attempted.
    pub fn on_decode_error(&mut self) -> (r: SessionEvent)
        requires
            old(self).wf(),
        ensures
            final(self).wf(),
            final(self).torn_down(*old(self)),
            r == SessionEvent::Disconnected(DisconnectReason::ProtocolViolation),
    {
        self.phase = Phase::Disconnected;
        self.pending.clear();
        self.incoming_qos2.clear();
        self.ping_sent_at = None;
        SessionEvent::Disconnected(DisconnectReason::ProtocolViolation)
    }
}

proof fn lemma_pending_remove_wf(s: Seq<PendingAck>, idx: int)
    requires
        0 <= idx < s.len(),
        forall|i: int, j: int|
            0 <= i < j < s.len() ==> (#[trigger] s[i]).packet_id != (#[trigger] s[j]).packet_id,
        forall|i: int| 0 <= i < s.len() ==> (#[trigger] s[i]).packet_id != 0,
    ensures
        forall|i: int, j: int|
            0 <= i < j < s.remove(idx).len() ==> (#[trigger] s.remove(idx)[i]).packet_id != (
            #[trigger] s.remove(idx)[j]).packet_id,
        forall|i: int| 0 <= i < s.remove(idx).len() ==> (#[trigger] s.remove(idx)[i]).packet_id != 0,
        forall|i: int|
            0 <= i < s.remove(idx).len() ==> (#[trigger] s.remove(idx)[i]).packet_id != s[
                idx].packet_id,
{
    s.remove_ensures(idx);
    let rem = s.remove(idx);
    assert forall|i: int, j: int|
        0 <= i < j < rem.len() implies (#[trigger] rem[i]).packet_id != (
    #[trigger] rem[j]).packet_id by {
        if j < idx {
            assert(rem[i] == s[i] && rem[j] == s[j]);
        } else if i < idx {
            assert(rem[i] == s[i] && rem[j] == s[j + 1]);
        } else {
            assert(rem[i] == s[i + 1] && rem[j] == s[j + 1]);
        }
    }
    assert forall|i: int| 0 <= i < rem.len() implies (#[trigger] rem[i]).packet_id != 0 by {
        if i < idx {
            assert(rem[i] == s[i]);
        } else {
            assert(rem[i] == s[i + 1]);
        }
    }
    assert forall|i: int|
        0 <= i < rem.len() implies (#[trigger] rem[i]).packet_id != s[idx].packet_id by {
        if i < idx {
            assert(rem[i] == s[i]);
            assert(s[i].packet_id != s[idx].packet_id);
        } else {
            assert(rem[i] == s[i + 1]);
            assert(s[idx].packet_id != s[i + 1].packet_id);
        }
    }
}

proof fn lemma_u16_remove_unique(s: Seq<u16>, idx: int)
    requires
        0 <= idx < s.len(),
        forall|i: int, j: int| 0 <= i < j < s.len() ==> s[i] != s[j],
    ensures
        forall|i: int, j: int| 0 <= i < j < s.remove(idx).len() ==> s.remove(idx)[i] != s.remove(
            idx,
        )[j],
        forall|i: int| 0 <= i < s.remove(idx).len() ==> s.remove(idx)[i] != s[idx],
        !s.remove(idx).contains(s[idx]),
{
    s.remove_ensures(idx);
    let rem = s.remove(idx);
    assert forall|i: int, j: int| 0 <= i < j < rem.len() implies rem[i] != rem[j] by {
        if j < idx {
            assert(rem[i] == s[i] && rem[j] == s[j]);
        } else if i < idx {
            assert(rem[i] == s[i] && rem[j] == s[j + 1]);
        } else {
            assert(rem[i] == s[i + 1] && rem[j] == s[j + 1]);
        }
    }
    assert forall|i: int| 0 <= i < rem.len() implies rem[i] != s[idx] by {
        if i < idx {
            assert(rem[i] == s[i]);
        } else {
            assert(rem[i] == s[i + 1]);
        }
    }
}

fn copy_bytes(src: &Vec<u8>) -> (r: Vec<u8>)
    ensures
        r@ == src@,
{
    let mut out: Vec<u8> = Vec::new();
    extend_bytes(&mut out, src.as_slice());
    out
}

impl SessionState {
    fn find_expired(&self, now: u64) -> (r: Option<usize>)
        ensures
            match r {
                Some(k) => {
                    &&& k < self.pending@.len()
                    &&& self.expired_at(k as int, now)
                    &&& forall|j: int| 0 <= j < k ==> !self.expired_at(j, now)
                },
                None => forall|j: int| 0 <= j < self.pending@.len() ==> !self.expired_at(j, now),
            },
    {
        let mut i: usize = 0;
        while i < self.pending.len()
            invariant
                i <= self.pending@.len(),
                forall|j: int| 0 <= j < i ==> !self.expired_at(j, now),
            decreases self.pending@.len() - i,
        {
            let issued = self.pending[i].issued_at;
            if now >= issued && now - issued >= self.ack_timeout {
                return Some(i);
            }
            i = i + 1;
        }
        None
    }

    /// Handles the oldest-positioned pending entry whose acknowledgement is
    /// overdue by `ack_timeout`, one entry per call. With a retry left, the
    /// stored packet goes out again (a PUBLISH with DUP set) and the wait
    /// restarts; with none left, the entry is dropped and the wait is
    /// reported as timed out. Idle when nothing is overdue.
    pub fn check_ack_timeout(&mut self, now: u64) -> (r: AckTimeoutAction)
        requires
            old(self).wf(),
            old(self).phase == Phase::Connected,
        ensures
            final(self).wf(),
            (forall|j: int| 0 <= j < old(self).pending@.len() ==> !old(self).expired_at(j, now))
                ==> *final(self) == *old(self) && r matches AckTimeoutAction::Idle,
            (exists|j: int| 0 <= j < old(self).pending@.len() && old(self).expired_at(j, now))
                ==> exists|idx: int|
                {
                    &&& 0 <= idx < old(self).pending@.len()
                    &&& old(self).expired_at(idx, now)
                    &&& forall|j: int| 0 <= j < idx ==> !old(self).expired_at(j, now)
                    &&& if (#[trigger] old(self).pending@[idx]).retries_left > 0 {
                        &&& (r matches AckTimeoutAction::Retransmit(b) && b@ == retransmit_bytes(
                            old(self).pending@[idx],
                        ))
                        &&& {
                            let entry = final(self).pending@.last();
                            &&& final(self).pending@ == old(self).pending@.remove(idx).push(entry)
                            &&& entry.packet_id == old(self).pending@[idx].packet_id
                            &&& entry.kind == old(self).pending@[idx].kind
                            &&& entry.issued_at == now
                            &&& entry.sub_filters@ == old(self).pending@[idx].sub_filters@
                            &&& entry.packet@ == old(self).pending@[idx].packet@
                            &&& entry.retries_left == old(self).pending@[idx].retries_left - 1
                        }
                        &&& final(self).last_activity == now
                    } else {
                        &&& final(self).pending@ == old(self).pending@.remove(idx)
                        &&& (r matches AckTimeoutAction::TimedOut(ev) && ev == (if old(self).pending@[idx].kind == AckKind::SubAck {
                            SessionEvent::SubscribeTimedOut {
                                packet_id: old(self).pending@[idx].packet_id,
                            }
                        } else {
                            SessionEvent::PublishTimedOut {
                                packet_id: old(self).pending@[idx].packet_id,
                            }
                        }))
                        &&& final(self).last_activity == old(self).last_activity
                    }
                } && final(self).phase == old(self).phase && final(self).ping_sent_at == old(self).ping_sent_at && final(self).incoming_qos2@ == old(self).incoming_qos2@ && final(self).next_packet_id == old(self).next_packet_id && final(self).config_unchanged(
                *old(self),
            ),
    {
        let idx = match self.find_expired(now) {
            Some(k) => k,
            None => {
                return AckTimeoutAction::Idle;
            },
        };
        proof {
            lemma_pending_remove_wf(self.pending@, idx as int);
        }
        let entry = self.pending.remove(idx);
        if entry.retries_left > 0 {
            let mut resend: Vec<u8> = Vec::new();
            let is_publish = entry.kind == AckKind::PubAck || entry.kind == AckKind::PubRec;
            if is_publish && entry.packet.len() > 0 {
                let b0 = entry.packet[0];
                resend.push(b0 | 8);
                extend_bytes(
                    &mut resend,
                    slice_subrange(entry.packet.as_slice(), 1, entry.packet.len()),
                );
                proof {
                    assert(resend@ =~= dup_marked(entry.packet@));
                }
            } else {
                extend_bytes(&mut resend, entry.packet.as_slice());
            }
            let renewed = PendingAck {
                packet_id: entry.packet_id,
                kind: entry.kind,
                issued_at: now,
                sub_filters: entry.sub_filters,
                packet: entry.packet,
                retries_left: entry.retries_left - 1,
            };
            self.pending.push(renewed);
            self.last_activity = now;
            proof {
                let prev = old(self).pending@.remove(idx as int);
                assert forall|a: int, b2: int|
                    0 <= a < b2 < self.pending@.len() implies (
                #[trigger] self.pending@[a]).packet_id != (#[trigger] self.pending@[b2]).packet_id by {
                    if b2 < self.pending@.len() - 1 {
                        assert(prev[a].packet_id != prev[b2].packet_id);
                    } else {
                        assert(self.pending@[a] == prev[a]);
                    }
                }
            }
            AckTimeoutAction::Retransmit(resend)
        } else {
            if entry.kind == AckKind::SubAck {
                AckTimeoutAction::TimedOut(
                    SessionEvent::SubscribeTimedOut { packet_id: entry.packet_id },
                )
            } else {
                AckTimeoutAction::TimedOut(
                    SessionEvent::PublishTimedOut { packet_id: entry.packet_id },
                )
            }
        }
    }

    fn find_incoming(&self, id: u16) -> (r: Option<usize>)
        ensures
            match r {
                Some(k) => k < self.incoming_qos2@.len() && self.incoming_qos2@[k as int] == id,
                None => !self.incoming_qos2@.contains(id),
            },
    {
        let mut i: usize = 0;
        while i < self.incoming_qos2.len()
            invariant
                i <= self.incoming_qos2@.len(),
                forall|j: int| 0 <= j < i ==> self.incoming_qos2@[j] != id,
            decreases self.incoming_qos2@.len() - i,
        {
            if self.incoming_qos2[i] == id {
                return Some(i);
            }
            i = i + 1;
        }
        None
    }

    /// Encodes a PUBLISH of `payload` under `topic` and records the
    /// acknowledgement it awaits: nothing at QoS 0, a PUBACK at QoS 1, a
    /// PUBREC at QoS 2, under a freshly allocated packet identifier.
    pub fn publish(&mut self, topic: String, payload: Vec<u8>, qos: u8, retain: bool, now: u64) -> (r:
        Result<Vec<u8>, MqttError>)
        requires
            old(self).wf(),
            old(self).phase == Phase::Connected,
            qos <= 2,
            old(self).pending@.len() < 65535,
        ensures
            final(self).wf(),
            match r {
                Ok(b) => {
                    &&& valid_topic_bytes(encode_utf8(topic@))
                    &&& encode_utf8(topic@).len() <= 65535
                    &&& final(self).phase == Phase::Connected
                    &&& final(self).last_activity == now
                    &&& final(self).incoming_qos2@ == old(self).incoming_qos2@
                    &&& final(self).ping_sent_at == old(self).ping_sent_at
                    &&& final(self).config_unchanged(*old(self))
                    &&& if qos == 0 {
                        &&& b@ == packet_bytes(
                            (48 + publish_flags(false, qos, retain)) as u8,
                            publish_body(encode_utf8(topic@), None::<u16>, payload@),
                        )
                        &&& final(self).pending@ == old(self).pending@
                        &&& final(self).next_packet_id == old(self).next_packet_id
                    } else {
                        let entry = final(self).pending@.last();
                        &&& final(self).pending@ == old(self).pending@.push(entry)
                        &&& entry.packet_id != 0
                        &&& !old(self).has_pending_id(entry.packet_id)
                        &&& entry.kind == (if qos == 1 {
                            AckKind::PubAck
                        } else {
                            AckKind::PubRec
                        })
                        &&& entry.issued_at == now
                        &&& entry.sub_filters@.len() == 0
                        &&& entry.packet@ == b@
                        &&& entry.retries_left == 1
                        &&& b@ == packet_bytes(
                            (48 + publish_flags(false, qos, retain)) as u8,
                            publish_body(encode_utf8(topic@), Some(entry.packet_id), payload@),
                        )
                        &&& final(self).next_packet_id == (if entry.packet_id == 65535 {
                            1u16
                        } else {
                            (entry.packet_id + 1) as u16
                        })
                    }
                },
                Err(e) => {
                    &&& *final(self) == *old(self)
                    &&& (e == MqttError::InvalidTopic && !valid_topic_bytes(encode_utf8(topic@)))
                        || (e == MqttError::EncodingError && valid_topic_bytes(encode_utf8(topic@))
                        && (encode_utf8(topic@).len() > 65535 || 2 + encode_utf8(topic@).len() + (
                    if qos > 0 {
                        2int
                    } else {
                        0int
                    }) + payload@.len() > VARINT_MAX))
                },
            },
    {
        let topic_bytes: &[u8] = topic.as_str().as_bytes();
        if topic_bytes.len() == 0 {
            return Err(MqttError::InvalidTopic);
        }
        let mut i: usize = 0;
        while i < topic_bytes.len()
            invariant
                self.wf(),
                *self == *old(self),
                self.phase == Phase::Connected,
                self.pending@.len() < 65535,
                qos <= 2,
                topic_bytes@ == encode_utf8(topic@),
                topic_bytes@.len() > 0,
                i <= topic_bytes@.len(),
                forall|j: int|
                    0 <= j < i ==> topic_bytes@[j] != 0x23 && (#[trigger] topic_bytes@[j]) != 0x2b,
            decreases topic_bytes@.len() - i,
        {
            let c = topic_bytes[i];
            if c == 0x23 || c == 0x2b {
                proof {
                    assert(!valid_topic_bytes(encode_utf8(topic@)));
                }
                return Err(MqttError::InvalidTopic);
            }
            i = i + 1;
        }
        if topic_bytes.len() > 65535 {
            return Err(MqttError::EncodingError);
        }
        if payload.len() > VARINT_MAX as usize {
            return Err(MqttError::EncodingError);
        }
        let pid_len: usize = if qos > 0 {
            2
        } else {
            0
        };
        let body_len: usize = 2 + topic_bytes.len() + pid_len + payload.len();
        if body_len > VARINT_MAX as usize {
            return Err(MqttError::EncodingError);
        }
        if qos == 0 {
            let msg = MqttPublish { topic, payload, dup: false, qos, retain, packet_id: None };
            match msg.encode() {
                Ok(b) => {
                    self.last_activity = now;
                    Ok(b)
                },
                Err(_) => Err(MqttError::EncodingError),
            }
        } else {
            let id = match self.alloc_packet_id() {
                Some(id) => id,
                None => {
                    proof {
                        lemma_pending_full(*self);
                    }
                    return Err(MqttError::EncodingError);
                },
            };
            let msg = MqttPublish { topic, payload, dup: false, qos, retain, packet_id: Some(id) };
            let b = match msg.encode() {
                Ok(b) => b,
                Err(_) => {
                    return Err(MqttError::EncodingError);
                },
            };
            let entry = PendingAck {
                packet_id: id,
                kind: if qos == 1 {
                    AckKind::PubAck
                } else {
                    AckKind::PubRec
                },
                issued_at: now,
                sub_filters: Vec::new(),
                packet: copy_bytes(&b),
                retries_left: 1,
            };
            self.pending.push(entry);
            self.next_packet_id = if id == 65535 {
                1
            } else {
                id + 1
            };
            self.last_activity = now;
            proof {
                assert forall|a: int, b2: int|
                    0 <= a < b2 < self.pending@.len() implies (
                #[trigger] self.pending@[a]).packet_id != (#[trigger] self.pending@[b2]).packet_id by {
                    if b2 < self.pending@.len() - 1 {
                        assert(old(self).pending@[a].packet_id != old(self).pending@[b2].packet_id);
                    } else {
                        assert(self.pending@[a] == old(self).pending@[a]);
                        assert(!old(self).has_pending_id(id));
                    }
                }
            }
            Ok(b)
        }
    }

    /// Encodes a SUBSCRIBE for `filters` under one freshly allocated packet
    /// identifier and records the awaited SUBACK, keeping the requested
    /// topics so the answer can be correlated in request order.
    pub fn subscribe(&mut self, filters: &Vec<SubscribeFilter>, now: u64) -> (r: Result<
        Vec<u8>,
        MqttError,
    >)
        requires
            old(self).wf(),
            old(self).phase == Phase::Connected,
            filters@.len() >= 1,
            forall|i: int| 0 <= i < filters@.len() ==> (#[trigger] filters@[i]).requested_qos <= 2,
            old(self).pending@.len() < 65535,
        ensures
            final(self).wf(),
            match r {
                Ok(b) => {
                    let entry = final(self).pending@.last();
                    &&& final(self).pending@ == old(self).pending@.push(entry)
                    &&& entry.packet_id != 0
                    &&& !old(self).has_pending_id(entry.packet_id)
                    &&& entry.kind == AckKind::SubAck
                    &&& entry.issued_at == now
                    &&& entry.packet@ == b@
                    &&& entry.retries_left == 1
                    &&& entry.sub_filters@.len() == filters@.len()
                    &&& (forall|i: int|
                        0 <= i < filters@.len() ==> (#[trigger] entry.sub_filters@[i])@
                            == filters@[i].topic_filter@)
                    &&& b@ == packet_bytes(
                        0x82,
                        subscribe_body(entry.packet_id, filters_view(filters@)),
                    )
                    &&& final(self).phase == Phase::Connected
                    &&& final(self).last_activity == now
                    &&& final(self).incoming_qos2@ == old(self).incoming_qos2@
                    &&& final(self).ping_sent_at == old(self).ping_sent_at
                    &&& final(self).next_packet_id == (if entry.packet_id == 65535 {
                        1u16
                    } else {
                        (entry.packet_id + 1) as u16
                    })
                    &&& final(self).config_unchanged(*old(self))
                },
                Err(e) => {
                    &&& *final(self) == *old(self)
                    &&& e == MqttError::EncodingError
                    &&& ((exists|i: int|
                        0 <= i < filters@.len() && encode_utf8(
                            (#[trigger] filters@[i]).topic_filter@,
                        ).len() > 65535) || 2 + filter_blocks(filters_view(filters@)).len()
                        > VARINT_MAX)
                },
            },
    {
        let id = match self.alloc_packet_id() {
            Some(id) => id,
            None => {
                proof {
                    lemma_pending_full(*self);
                }
                return Err(MqttError::EncodingError);
            },
        };
        let packet = match encode_subscribe(id, filters) {
            Ok(b) => b,
            Err(e) => {
                return Err(e);
            },
        };
        let mut topics: Vec<String> = Vec::new();
        let mut i: usize = 0;
        while i < filters.len()
            invariant
                self.wf(),
                *self == *old(self),
                self.phase == Phase::Connected,
                self.pending@.len() < 65535,
                !self.has_pending_id(id),
                id != 0,
                packet@ == packet_bytes(0x82, subscribe_body(id, filters_view(filters@))),
                i <= filters@.len(),
                topics@.len() == i,
                forall|j: int|
                    0 <= j < i ==> (#[trigger] topics@[j])@ == filters@[j].topic_filter@,
            decreases filters@.len() - i,
        {
            topics.push(filters[i].topic_filter.clone());
            i = i + 1;
        }
        let entry = PendingAck {
            packet_id: id,
            kind: AckKind::SubAck,
            issued_at: now,
            sub_filters: topics,
            packet: copy_bytes(&packet),
            retries_left: 1,
        };
        self.pending.push(entry);
        self.next_packet_id = if id == 65535 {
            1
        } else {
            id + 1
        };
        self.last_activity = now;
        proof {
            assert forall|a: int, b2: int|
                0 <= a < b2 < self.pending@.len() implies (#[trigger] self.pending@[a]).packet_id
                != (#[trigger] self.pending@[b2]).packet_id by {
                if b2 < self.pending@.len() - 1 {
                    assert(old(self).pending@[a].packet_id != old(self).pending@[b2].packet_id);
                } else {
                    assert(self.pending@[a] == old(self).pending@[a]);
                    assert(!old(self).has_pending_id(id));
                }
            }
        }
        Ok(packet)
    }

    /// Resolves a SUBACK against the SUBSCRIBE it answers, matched by
    /// packet identifier. The i-th granted byte resolves the i-th requested
    /// filter, in request order and never by content; a result count that
    /// disagrees with the request is a protocol violation and tears the
    /// session down. A SUBACK whose identifier is not outstanding is
    /// ignored.
    pub fn on_suback(&mut self, packet_id: u16, granted: &Vec<u8>) -> (r: Vec<SessionEvent>)
        requires
            old(self).wf(),
            old(self).phase == Phase::Connected,
        ensures
            final(self).wf(),
            !old(self).has_pending(packet_id, AckKind::SubAck) ==> *final(self) == *old(self)
                && r@.len() == 0,
            old(self).has_pending(packet_id, AckKind::SubAck) ==> exists|idx: int|
                {
                    &&& 0 <= idx < old(self).pending@.len()
                    &&& (#[trigger] old(self).pending@[idx]).packet_id == packet_id
                    &&& old(self).pending@[idx].kind == AckKind::SubAck
                    &&& if old(self).pending@[idx].sub_filters@.len() == granted@.len() {
                        &&& final(self).pending@ == old(self).pending@.remove(idx)
                        &&& suback_events_match(
                            r@,
                            old(self).pending@[idx].sub_filters@,
                            granted@,
                        )
                        &&& !final(self).has_pending_id(packet_id)
                        &&& final(self).phase == Phase::Connected
                        &&& final(self).last_activity == old(self).last_activity
                        &&& final(self).ping_sent_at == old(self).ping_sent_at
                        &&& final(self).incoming_qos2@ == old(self).incoming_qos2@
                        &&& final(self).next_packet_id == old(self).next_packet_id
                        &&& final(self).config_unchanged(*old(self))
                    } else {
                        &&& final(self).torn_down(*old(self))
                        &&& r@.len() == 1
                        &&& r@[0] == SessionEvent::Disconnected(
                            DisconnectReason::ProtocolViolation,
                        )
                    }
                },
    {
        let found = match self.find_pending(packet_id, AckKind::SubAck) {
            Some(k) => k,
            None => {
                return Vec::new();
            },
        };
        proof {
            lemma_pending_remove_wf(self.pending@, found as int);
        }
        let entry = self.pending.remove(found);
        if entry.sub_filters.len() != granted.len() {
            self.phase = Phase::Disconnected;
            self.pending.clear();
            self.incoming_qos2.clear();
            self.ping_sent_at = None;
            let mut events: Vec<SessionEvent> = Vec::new();
            events.push(SessionEvent::Disconnected(DisconnectReason::ProtocolViolation));
            return events;
        }
        let mut events: Vec<SessionEvent> = Vec::new();
        let mut k: usize = 0;
        while k < granted.len()
            invariant
                self.wf(),
                k <= granted@.len(),
                events@.len() == k,
                entry.sub_filters@.len() == granted@.len(),
                entry == old(self).pending@[found as int],
                0 <= found < old(self).pending@.len(),
                old(self).pending@[found as int].packet_id == packet_id,
                old(self).pending@[found as int].kind == AckKind::SubAck,
                self.pending@ == old(self).pending@.remove(found as int),
                !self.has_pending_id(packet_id),
                self.phase == old(self).phase,
                old(self).phase == Phase::Connected,
                self.last_activity == old(self).last_activity,
                self.ping_sent_at == old(self).ping_sent_at,
                self.incoming_qos2@ == old(self).incoming_qos2@,
                self.next_packet_id == old(self).next_packet_id,
                self.config_unchanged(*old(self)),
                forall|i: int|
                    0 <= i < k ==> #[trigger] events@[i] == suback_event_of(
                        entry.sub_filters@[i],
                        granted@[i],
                    ),
            decreases granted@.len() - k,
        {
            let g = granted[k];
            let t = entry.sub_filters[k].clone();
            if g != 0x80 {
                events.push(SessionEvent::Subscribed { topic: t, granted_qos: g });
            } else {
                events.push(SessionEvent::SubscribeFailed { topic: t });
            }
            k = k + 1;
        }
        events
    }

    fn clear_pending(&mut self, packet_id: u16, kind: AckKind)
        requires
            old(self).wf(),
        ensures
            final(self).wf(),
            !old(self).has_pending(packet_id, kind) ==> *final(self) == *old(self),
            old(self).has_pending(packet_id, kind) ==> (exists|idx: int|
                {
                    &&& 0 <= idx < old(self).pending@.len()
                    &&& (#[trigger] old(self).pending@[idx]).packet_id == packet_id
                    &&& old(self).pending@[idx].kind == kind
                    &&& final(self).pending@ == old(self).pending@.remove(idx)
                }) && !final(self).has_pending_id(packet_id) && final(self).only_pending_changed(
                *old(self),
            ),
    {
        match self.find_pending(packet_id, kind) {
            Some(k) => {
                proof {
                    lemma_pending_remove_wf(self.pending@, k as int);
                }
                self.pending.remove(k);
            },
            None => {},
        }
    }

    /// Clears the pending entry a PUBACK acknowledges. A PUBACK whose
    /// identifier is no longer outstanding, as a retransmitting broker may
    /// send, is a no-op, never an error: the session is left exactly as it
    /// was, so processing the same acknowledgement twice equals processing
    /// it once.
    pub fn on_puback(&mut self, packet_id: u16)
        requires
            old(self).wf(),
            old(self).phase == Phase::Connected,
        ensures
            final(self).wf(),
            !old(self).has_pending(packet_id, AckKind::PubAck) ==> *final(self) == *old(self),
            old(self).has_pending(packet_id, AckKind::PubAck) ==> (exists|idx: int|
                {
                    &&& 0 <= idx < old(self).pending@.len()
                    &&& (#[trigger] old(self).pending@[idx]).packet_id == packet_id
                    &&& old(self).pending@[idx].kind == AckKind::PubAck
                    &&& final(self).pending@ == old(self).pending@.remove(idx)
                }) && !final(self).has_pending_id(packet_id) && final(self).only_pending_changed(
                *old(self),
            ),
    {
        self.clear_pending(packet_id, AckKind::PubAck)
    }

    /// Clears the pending entry a PUBCOMP closes; like PUBACK handling it is
    /// idempotent, so a retransmitted PUBCOMP is harmless.
    pub fn on_pubcomp(&mut self, packet_id: u16)
        requires
            old(self).wf(),
            old(self).phase == Phase::Connected,
        ensures
            final(self).wf(),
            !old(self).has_pending(packet_id, AckKind::PubComp) ==> *final(self) == *old(self),
            old(self).has_pending(packet_id, AckKind::PubComp) ==> (exists|idx: int|
                {
                    &&& 0 <= idx < old(self).pending@.len()
                    &&& (#[trigger] old(self).pending@[idx]).packet_id == packet_id
                    &&& old(self).pending@[idx].kind == AckKind::PubComp
                    &&& final(self).pending@ == old(self).pending@.remove(idx)
                }) && !final(self).has_pending_id(packet_id) && final(self).only_pending_changed(
                *old(self),
            ),
    {
        self.clear_pending(packet_id, AckKind::PubComp)
    }

    /// Advances an outbound QoS 2 delivery on PUBREC: the entry awaiting
    /// PUBREC starts awaiting PUBCOMP instead, and the PUBREL to send comes
    /// back. A PUBREC for an identifier not awaiting one is a no-op.
    pub fn on_pubrec(&mut self, packet_id: u16, now: u64) -> (r: Option<Vec<u8>>)
        requires
            old(self).wf(),
            old(self).phase == Phase::Connected,
        ensures
            final(self).wf(),
            !old(self).has_pending(packet_id, AckKind::PubRec) ==> *final(self) == *old(self) && r
                is None,
            old(self).has_pending(packet_id, AckKind::PubRec) ==> (r matches Some(b) && b@
                == ack_packet_bytes(0x62, packet_id)) && (exists|idx: int|
                {
                    &&& 0 <= idx < old(self).pending@.len()
                    &&& (#[trigger] old(self).pending@[idx]).packet_id == packet_id
                    &&& old(self).pending@[idx].kind == AckKind::PubRec
                    &&& {
                        let entry = final(self).pending@.last();
                        &&& final(self).pending@ == old(self).pending@.remove(idx).push(entry)
                        &&& entry.packet_id == packet_id
                        &&& entry.kind == AckKind::PubComp
                        &&& entry.issued_at == now
                        &&& entry.sub_filters@.len() == 0
                        &&& entry.packet@ == ack_packet_bytes(0x62, packet_id)
                        &&& entry.retries_left == 1
                    }
                }) && final(self).last_activity == now && final(self).phase == old(self).phase
                && final(self).ping_sent_at == old(self).ping_sent_at && final(self).incoming_qos2@ == old(self).incoming_qos2@ && final(self).next_packet_id == old(self).next_packet_id && final(self).config_unchanged(*old(self)),
    {
        match self.find_pending(packet_id, AckKind::PubRec) {
            Some(k) => {
                proof {
                    lemma_pending_remove_wf(self.pending@, k as int);
                }
                self.pending.remove(k);
                let pubrel = encode_pubrel(packet_id);
                let entry = PendingAck {
                    packet_id,
                    kind: AckKind::PubComp,
                    issued_at: now,
                    sub_filters: Vec::new(),
                    packet: copy_bytes(&pubrel),
                    retries_left: 1,
                };
                self.pending.push(entry);
                self.last_activity = now;
                proof {
                    let prev = old(self).pending@.remove(k as int);
                    assert forall|a: int, b2: int|
                        0 <= a < b2 < self.pending@.len() implies (
                    #[trigger] self.pending@[a]).packet_id != (
                    #[trigger] self.pending@[b2]).packet_id by {
                        if b2 < self.pending@.len() - 1 {
                            assert(prev[a].packet_id != prev[b2].packet_id);
                        } else {
                            assert(self.pending@[a] == prev[a]);
                        }
                    }
                }
                Some(pubrel)
            },
            None => None,
        }
    }

    /// Delivers an inbound PUBLISH upward and answers it per its QoS:
    /// nothing at QoS 0, a PUBACK at QoS 1, and at QoS 2 a PUBREC plus a
    /// note that the identifier's PUBREL is still owed.
    pub fn on_publish(&mut self, msg: MqttPublish, now: u64) -> (r: (
        Option<Vec<u8>>,
        SessionEvent,
    ))
        requires
            old(self).wf(),
            old(self).phase == Phase::Connected,
            msg.wf(),
        ensures
            final(self).wf(),
            r.1 == SessionEvent::MessageReceived(msg),
            msg.qos == 0 ==> *final(self) == *old(self) && r.0 is None,
            msg.qos == 1 ==> (msg.packet_id matches Some(id) && r.0 matches Some(b) && b@
                == ack_packet_bytes(0x40, id)) && final(self).last_activity == now && final(self).phase == old(self).phase && final(self).pending@ == old(self).pending@ && final(self).incoming_qos2@ == old(self).incoming_qos2@ && final(self).ping_sent_at == old(self).ping_sent_at && final(self).next_packet_id == old(self).next_packet_id && final(self).config_unchanged(*old(self)),
            msg.qos == 2 ==> (msg.packet_id matches Some(id) && r.0 matches Some(b) && b@
                == ack_packet_bytes(0x50, id) && (old(self).incoming_qos2@.contains(id) ==> final(self).incoming_qos2@ == old(self).incoming_qos2@) && (!old(self).incoming_qos2@.contains(id)
                ==> final(self).incoming_qos2@ == old(self).incoming_qos2@.push(id))) && final(self).last_activity == now && final(self).phase == old(self).phase && final(self).pending@
                == old(self).pending@ && final(self).ping_sent_at == old(self).ping_sent_at
                && final(self).next_packet_id == old(self).next_packet_id && final(self).config_unchanged(*old(self)),
    {
        if msg.qos == 0 {
            return (None, SessionEvent::MessageReceived(msg));
        }
        let id = match msg.packet_id {
            Some(id) => id,
            None => {
                return (None, SessionEvent::MessageReceived(msg));
            },
        };
        if msg.qos == 1 {
            self.last_activity = now;
            (Some(encode_puback(id)), SessionEvent::MessageReceived(msg))
        } else {
            match self.find_incoming(id) {
                Some(_) => {},
                None => {
                    self.incoming_qos2.push(id);
                    proof {
                        assert forall|a: int, b2: int|
                            0 <= a < b2 < self.incoming_qos2@.len() implies self.incoming_qos2@[a]
                            != self.incoming_qos2@[b2] by {
                            if b2 < self.incoming_qos2@.len() - 1 {
                                assert(old(self).incoming_qos2@[a] != old(self).incoming_qos2@[b2]);
                            } else {
                                assert(self.incoming_qos2@[a] == old(self).incoming_qos2@[a]);
                                assert(!old(self).incoming_qos2@.contains(id));
                            }
                        }
                    }
                },
            }
            self.last_activity = now;
            (Some(encode_pubrec(id)), SessionEvent::MessageReceived(msg))
        }
    }

    /// Closes an inbound QoS 2 handshake on PUBREL: the identifier stops
    /// being owed a PUBREL and the PUBCOMP to send comes back. The reply is
    /// sent even when the identifier is unknown, since the broker may have
    /// retransmitted PUBREL after the first PUBCOMP was lost.
    pub fn on_pubrel(&mut self, packet_id: u16, now: u64) -> (r: Vec<u8>)
        requires
            old(self).wf(),
            old(self).phase == Phase::Connected,
        ensures
            final(self).wf(),
            r@ == ack_packet_bytes(0x70, packet_id),
            final(self).last_activity == now,
            !final(self).incoming_qos2@.contains(packet_id),
            !old(self).incoming_qos2@.contains(packet_id) ==> final(self).incoming_qos2@ == old(self).incoming_qos2@,
            old(self).incoming_qos2@.contains(packet_id) ==> exists|idx: int|
                0 <= idx < old(self).incoming_qos2@.len() && old(self).incoming_qos2@[idx]
                    == packet_id && final(self).incoming_qos2@ == old(self).incoming_qos2@.remove(
                    idx,
                ),
            final(self).phase == old(self).phase,
            final(self).pending@ == old(self).pending@,
            final(self).ping_sent_at == old(self).ping_sent_at,
            final(self).next_packet_id == old(self).next_packet_id,
            final(self).config_unchanged(*old(self)),
    {
        match self.find_incoming(packet_id) {
            Some(k) => {
                proof {
                    lemma_u16_remove_unique(self.incoming_qos2@, k as int);
                }
                self.incoming_qos2.remove(k);
            },
            None => {},
        }
        self.last_activity = now;
        encode_pubcomp(packet_id)
    }

    /// Notes a PINGRESP: the outstanding ping is resolved and the activity
    /// clock restarts.
    pub fn on_pingresp(&mut self, now: u64)
        requires
            old(self).wf(),
            old(self).phase == Phase::Connected,
        ensures
            final(self).wf(),
            final(self).ping_sent_at is None,
            final(self).last_activity == now,
            final(self).phase == old(self).phase,
            final(self).pending@ == old(self).pending@,
            final(self).incoming_qos2@ == old(self).incoming_qos2@,
            final(self).next_packet_id == old(self).next_packet_id,
            final(self).config_unchanged(*old(self)),
    {
        self.ping_sent_at = None;
        self.last_activity = now;
    }

    /// Advances the clocks. While connected: a PINGREQ still unanswered
    /// after a full keep-alive interval means the session is dead, so it is
    /// torn down with `KeepAliveTimeout`; an idle interval with no ping
    /// outstanding emits a PINGREQ and starts waiting on it. While
    /// connecting, a CONNACK owed for longer than the same interval times
    /// the attempt out. Anything else is idle.
    pub fn tick(&mut self, now: u64) -> (r: TickAction)
        requires
            old(self).wf(),
            now >= old(self).last_activity,
            old(self).ping_sent_at matches Some(t) ==> now >= t,
        ensures
            final(self).wf(),
            (old(self).phase == Phase::Connected && (old(self).ping_sent_at matches Some(t) && now
                - t >= old(self).keep_alive_interval)) ==> final(self).torn_down(*old(self)) && r
                == TickAction::SessionExpired(DisconnectReason::KeepAliveTimeout),
            (old(self).phase == Phase::Connected && (old(self).ping_sent_at matches Some(t) && now
                - t < old(self).keep_alive_interval)) ==> *final(self) == *old(self) && r
                == TickAction::Idle,
            (old(self).phase == Phase::Connected && old(self).ping_sent_at is None && now - old(self).last_activity >= old(self).keep_alive_interval) ==> (r matches
                TickAction::SendPingReq(b) && b@ == seq![0xC0u8, 0u8]) && final(self).ping_sent_at
                == Some(now) && final(self).last_activity == now && final(self).phase == old(self).phase && final(self).pending@ == old(self).pending@ && final(self).incoming_qos2@
                == old(self).incoming_qos2@ && final(self).next_packet_id == old(self).next_packet_id && final(self).config_unchanged(*old(self)),
            (old(self).phase == Phase::Connected && old(self).ping_sent_at is None && now - old(self).last_activity < old(self).keep_alive_interval) ==> *final(self) == *old(self) && r
                == TickAction::Idle,
            (old(self).phase == Phase::Connecting && now - old(self).last_activity >= old(self).keep_alive_interval) ==> final(self).torn_down(*old(self)) && r
                == TickAction::SessionExpired(DisconnectReason::ConnectTimeout),
            (old(self).phase == Phase::Connecting && now - old(self).last_activity < old(self).keep_alive_interval) ==> *final(self) == *old(self) && r == TickAction::Idle,
            (old(self).phase == Phase::Disconnected || old(self).phase == Phase::Disconnecting)
                ==> *final(self) == *old(self) && r == TickAction::Idle,
    {
        if self.phase == Phase::Connected {
            match self.ping_sent_at {
                Some(t) => {
                    if now - t >= self.keep_alive_interval {
                        self.phase = Phase::Disconnected;
                        self.pending.clear();
                        self.incoming_qos2.clear();
                        self.ping_sent_at = None;
                        TickAction::SessionExpired(DisconnectReason::KeepAliveTimeout)
                    } else {
                        TickAction::Idle
                    }
                },
                None => {
                    if now - self.last_activity >= self.keep_alive_interval {
                        self.ping_sent_at = Some(now);
                        self.last_activity = now;
                        TickAction::SendPingReq(MqttPingReq {  }.encode())
                    } else {
                        TickAction::Idle
                    }
                },
            }
        } else if self.phase == Phase::Connecting {
            if now - self.last_activity >= self.keep_alive_interval {
                self.phase = Phase::Disconnected;
                self.pending.clear();
                self.incoming_qos2.clear();
                self.ping_sent_at = None;
                TickAction::SessionExpired(DisconnectReason::ConnectTimeout)
            } else {
                TickAction::Idle
            }
        } else {
            TickAction::Idle
        }
    }

    /// Begins an orderly shutdown: every pending entry is dropped without
    /// timeout handling, the phase moves to `Disconnecting`, and the
    /// DISCONNECT packet to send comes back.
    pub fn disconnect(&mut self) -> (r: Vec<u8>)
        requires
            old(self).wf(),
            old(self).phase == Phase::Connected,
        ensures
            final(self).wf(),
            r@ == seq![0xE0u8, 0u8],
            final(self).phase == Phase::Disconnecting,
            final(self).pending@.len() == 0,
            final(self).incoming_qos2@.len() == 0,
            final(self).ping_sent_at is None,
            final(self).last_activity == old(self).last_activity,
            final(self).next_packet_id == old(self).next_packet_id,
            final(self).config_unchanged(*old(self)),
    {
        self.phase = Phase::Disconnecting;
        self.pending.clear();
        self.incoming_qos2.clear();
        self.ping_sent_at = None;
        encode_disconnect()
    }

    /// Completes the shutdown once the DISCONNECT packet has been written.
    pub fn on_disconnect_sent(&mut self)
        requires
            old(self).wf(),
            old(self).phase == Phase::Disconnecting,
        ensures
            final(self).wf(),
            final(self).phase == Phase::Disconnected,
            final(self).pending@ == old(self).pending@,
            final(self).incoming_qos2@ == old(self).incoming_qos2@,
            final(self).ping_sent_at == old(self).ping_sent_at,
            final(self).last_activity == old(self).last_activity,
            final(self).next_packet_id == old(self).next_packet_id,
            final(self).config_unchanged(*old(self)),
    {
        self.phase = Phase::Disconnected;
    }
}

} // verus!
