//! Packet types and the encode side of the codec. Every encoder builds the
//! variable header and payload first, then frames them behind the fixed
//! header byte and the remaining-length integer. Each contract states the
//! exact bytes produced, via spec functions that mirror the wire format.

use vstd::prelude::*;
use vstd::string::StringExecFns;
use vstd::utf8::encode_utf8;
use crate::error::MqttError;
use crate::varint::{varint_bytes, encode_varint, VARINT_MAX};

verus! {

/// A two-byte big-endian length or identifier.
pub open spec fn u16_be(v: u16) -> Seq<u8> {
    seq![(v / 256) as u8, (v % 256) as u8]
}

/// The value carried by two big-endian bytes.
pub open spec fn be16(hi: u8, lo: u8) -> u16 {
    (hi as u16 * 256 + lo as u16) as u16
}

/// A whole packet: fixed-header byte, remaining length, then the body.
pub open spec fn packet_bytes(first_byte: u8, body: Seq<u8>) -> Seq<u8> {
    seq![first_byte] + varint_bytes(body.len()) + body
}

/// The CONNECT variable header and payload: protocol name "MQTT",
/// protocol level 4, connect flags (bit 1 = clean session), keep-alive,
/// then the length-prefixed client identifier.
pub open spec fn connect_body(client_id: Seq<u8>, clean_session: bool, keep_alive: u16) -> Seq<
    u8,
> {
    seq![
        0u8,
        4u8,
        0x4Du8,
        0x51u8,
        0x54u8,
        0x54u8,
        4u8,
        (if clean_session {
            2u8
        } else {
            0u8
        }),
    ] + u16_be(keep_alive) + u16_be(client_id.len() as u16) + client_id
}

/// PUBLISH fixed-header flags: DUP is bit 3, QoS bits 2-1, RETAIN bit 0.
pub open spec fn publish_flags(dup: bool, qos: u8, retain: bool) -> u8 {
    ((if dup {
        8int
    } else {
        0int
    }) + qos * 2 + (if retain {
        1int
    } else {
        0int
    })) as u8
}

/// The packet identifier bytes of a PUBLISH: present exactly at QoS > 0.
pub open spec fn pid_bytes(packet_id: Option<u16>) -> Seq<u8> {
    match packet_id {
        Some(id) => u16_be(id),
        None => Seq::empty(),
    }
}

/// The PUBLISH variable header and payload: length-prefixed topic, the
/// packet identifier when one is present, then the raw payload bytes.
pub open spec fn publish_body(topic: Seq<u8>, packet_id: Option<u16>, payload: Seq<u8>) -> Seq<
    u8,
> {
    u16_be(topic.len() as u16) + topic + pid_bytes(packet_id) + payload
}

/// A publishable topic name: non-empty and free of the wildcard characters
/// `#` and `+` (their UTF-8 bytes occur only as those characters).
pub open spec fn valid_topic_bytes(b: Seq<u8>) -> bool {
    b.len() > 0 && forall|i: int| 0 <= i < b.len() ==> b[i] != 0x23 && b[i] != 0x2b
}

/// One SUBSCRIBE payload entry: length-prefixed filter plus requested QoS.
pub open spec fn filter_block(f: Seq<u8>, qos: u8) -> Seq<u8> {
    u16_be(f.len() as u16) + f + seq![qos]
}

/// The SUBSCRIBE payload entries, in request order.
pub open spec fn filter_blocks(filters: Seq<(Seq<u8>, u8)>) -> Seq<u8>
    decreases filters.len(),
{
    if filters.len() == 0 {
        Seq::empty()
    } else {
        filter_block(filters[0].0, filters[0].1) + filter_blocks(filters.drop_first())
    }
}

/// The SUBSCRIBE variable header and payload: one packet identifier for the
/// whole request, then the filter entries.
pub open spec fn subscribe_body(packet_id: u16, filters: Seq<(Seq<u8>, u8)>) -> Seq<u8> {
    u16_be(packet_id) + filter_blocks(filters)
}

/// The filters of a request as (UTF-8 bytes, requested QoS) pairs.
pub open spec fn filters_view(filters: Seq<SubscribeFilter>) -> Seq<(Seq<u8>, u8)> {
    filters.map(|i: int, f: SubscribeFilter| (encode_utf8(f.topic_filter@), f.requested_qos))
}

/// An acknowledgement packet: fixed-header byte, remaining length 2, and the
/// packet identifier. PUBACK, PUBREC, PUBREL and PUBCOMP all take this shape.
pub open spec fn ack_packet_bytes(first_byte: u8, packet_id: u16) -> Seq<u8> {
    seq![first_byte, 2u8] + u16_be(packet_id)
}

/// The packet types of MQTT 3.1.1, with their four-bit codes.
#[derive(Clone, Copy, Debug, PartialEq, Eq, Structural)]
pub enum PacketType {
    Connect,
    ConnAck,
    Publish,
    PubAck,
    PubRec,
    PubRel,
    PubComp,
    Subscribe,
    SubAck,
    Unsubscribe,
    UnsubAck,
    PingReq,
    PingResp,
    Disconnect,
}

impl PacketType {
    /// The protocol-defined four-bit code of this packet type.
    pub open spec fn spec_code(self) -> u8 {
        match self {
            PacketType::Connect => 1,
            PacketType::ConnAck => 2,
            PacketType::Publish => 3,
            PacketType::PubAck => 4,
            PacketType::PubRec => 5,
            PacketType::PubRel => 6,
            PacketType::PubComp => 7,
            PacketType::Subscribe => 8,
            PacketType::SubAck => 9,
            PacketType::Unsubscribe => 10,
            PacketType::UnsubAck => 11,
            PacketType::PingReq => 12,
            PacketType::PingResp => 13,
            PacketType::Disconnect => 14,
        }
    }

    pub fn code(&self) -> (c: u8)
        ensures
            c == self.spec_code(),
    {
        match self {
            PacketType::Connect => 1,
            PacketType::ConnAck => 2,
            PacketType::Publish => 3,
            PacketType::PubAck => 4,
            PacketType::PubRec => 5,
            PacketType::PubRel => 6,
            PacketType::PubComp => 7,
            PacketType::Subscribe => 8,
            PacketType::SubAck => 9,
            PacketType::Unsubscribe => 10,
            PacketType::UnsubAck => 11,
            PacketType::PingReq => 12,
            PacketType::PingResp => 13,
            PacketType::Disconnect => 14,
        }
    }

    /// The packet type of a four-bit code; 0 and 15 are reserved.
    pub fn from_code(code: u8) -> (r: Option<PacketType>)
        ensures
            match r {
                Some(t) => t.spec_code() == code,
                None => code == 0 || code >= 15,
            },
    {
        match code {
            1 => Some(PacketType::Connect),
            2 => Some(PacketType::ConnAck),
            3 => Some(PacketType::Publish),
            4 => Some(PacketType::PubAck),
            5 => Some(PacketType::PubRec),
            6 => Some(PacketType::PubRel),
            7 => Some(PacketType::PubComp),
            8 => Some(PacketType::Subscribe),
            9 => Some(PacketType::SubAck),
            10 => Some(PacketType::Unsubscribe),
            11 => Some(PacketType::UnsubAck),
            12 => Some(PacketType::PingReq),
            13 => Some(PacketType::PingResp),
            14 => Some(PacketType::Disconnect),
            _ => None,
        }
    }
}

/// Appends `src` to `out`.
pub fn extend_bytes(out: &mut Vec<u8>, src: &[u8])
    ensures
        final(out)@ == old(out)@ + src@,
{
    proof {
        assert(old(out)@ + src@.subrange(0, 0) =~= old(out)@);
    }
    let mut i: usize = 0;
    while i < src.len()
        invariant
            i <= src@.len(),
            out@ == old(out)@ + src@.subrange(0, i as int),
        decreases src@.len() - i,
    {
        out.push(src[i]);
        proof {
            assert(src@.subrange(0, i as int).push(src@[i as int]) =~= src@.subrange(
                0,
                i as int + 1,
            ));
            assert(out@ =~= old(out)@ + src@.subrange(0, i as int + 1));
        }
        i = i + 1;
    }
    proof {
        assert(src@.subrange(0, src@.len() as int) =~= src@);
    }
}

/// Appends a two-byte big-endian value to `out`.
pub fn push_u16_be(out: &mut Vec<u8>, v: u16)
    ensures
        final(out)@ == old(out)@ + u16_be(v),
{
    out.push((v / 256) as u8);
    out.push((v % 256) as u8);
    proof {
        assert(out@ =~= old(out)@ + u16_be(v));
    }
}

/// Frames a variable header and payload behind the fixed-header byte and
/// the remaining-length integer. A body over the four-byte length cap is
/// rejected.
pub fn frame_packet(first_byte: u8, body: Vec<u8>) -> (r: Result<Vec<u8>, MqttError>)
    ensures
        body@.len() <= VARINT_MAX ==> (r matches Ok(p) && p@ == packet_bytes(first_byte, body@)),
        body@.len() > VARINT_MAX ==> (r matches Err(e) && e == MqttError::EncodingError),
{
    if body.len() > VARINT_MAX as usize {
        return Err(MqttError::EncodingError);
    }
    let len_bytes = match encode_varint(body.len() as u32) {
        Ok(v) => v,
        Err(_) => {
            return Err(MqttError::EncodingError);
        },
    };
    let mut out: Vec<u8> = Vec::new();
    out.push(first_byte);
    extend_bytes(&mut out, len_bytes.as_slice());
    extend_bytes(&mut out, body.as_slice());
    proof {
        assert(out@ =~= packet_bytes(first_byte, body@));
    }
    Ok(out)
}

/// The options of a CONNECT: the fixed protocol name "MQTT" and level 4,
/// the session-cleaning flag, the client identifier, and the keep-alive
/// interval in seconds.
pub struct MqttConnect {
    pub protocol_name: String,
    pub protocol_level: u8,
    pub clean_session: bool,
    pub client_id: String,
    pub keep_alive: u16,
}

impl MqttConnect {
    /// Options for a clean session under `client_id`, keep-alive 60 seconds.
    pub fn new(client_id: &str) -> (r: Self)
        ensures
            r.client_id@ == client_id@,
            r.protocol_name@ == "MQTT"@,
            r.protocol_level == 4,
            r.clean_session == true,
            r.keep_alive == 60,
    {
        MqttConnect {
            protocol_name: String::from_str("MQTT"),
            protocol_level: 4,
            clean_session: true,
            client_id: String::from_str(client_id),
            keep_alive: 60,
        }
    }

    /// Options with the session flag and keep-alive chosen by the caller.
    pub fn with_options(client_id: &str, clean_session: bool, keep_alive: u16) -> (r: Self)
        ensures
            r.client_id@ == client_id@,
            r.protocol_name@ == "MQTT"@,
            r.protocol_level == 4,
            r.clean_session == clean_session,
            r.keep_alive == keep_alive,
    {
        MqttConnect {
            protocol_name: String::from_str("MQTT"),
            protocol_level: 4,
            clean_session,
            client_id: String::from_str(client_id),
            keep_alive,
        }
    }

    /// Encodes the CONNECT packet. The variable header always carries the
    /// protocol constants "MQTT" and level 4. A client identifier whose
    /// UTF-8 bytes cannot be length-prefixed with two bytes is rejected.
    pub fn encode(&self) -> (r: Result<Vec<u8>, MqttError>)
        ensures
            encode_utf8(self.client_id@).len() <= 65535 ==> (r matches Ok(b) && b@ == packet_bytes(
                0x10,
                connect_body(encode_utf8(self.client_id@), self.clean_session, self.keep_alive),
            )),
            encode_utf8(self.client_id@).len() > 65535 ==> (r matches Err(e) && e
                == MqttError::InvalidClientId),
    {
        let id_bytes: &[u8] = self.client_id.as_str().as_bytes();
        if id_bytes.len() > 65535 {
            return Err(MqttError::InvalidClientId);
        }
        let mut body: Vec<u8> = Vec::new();
        body.push(0);
        body.push(4);
        body.push(0x4D);
        body.push(0x51);
        body.push(0x54);
        body.push(0x54);
        body.push(4);
        body.push(if self.clean_session {
            2
        } else {
            0
        });
        push_u16_be(&mut body, self.keep_alive);
        push_u16_be(&mut body, id_bytes.len() as u16);
        extend_bytes(&mut body, id_bytes);
        proof {
            assert(body@ =~= connect_body(
                encode_utf8(self.client_id@),
                self.clean_session,
                self.keep_alive,
            ));
        }
        frame_packet(0x10, body)
    }
}

/// The raw fields of a CONNECT as they stand on the wire.
pub struct ConnectPacket {
    pub protocol_name: String,
    pub protocol_level: u8,
    pub client_id: String,
    pub keep_alive: u16,
}

/// A PINGREQ: fixed header only, remaining length zero.
pub struct MqttPingReq {}

impl MqttPingReq {
    pub fn encode(&self) -> (r: Vec<u8>)
        ensures
            r@ == seq![0xC0u8, 0u8],
    {
        let mut out: Vec<u8> = Vec::new();
        out.push(0xC0);
        out.push(0);
        proof {
            assert(out@ =~= seq![0xC0u8, 0u8]);
        }
        out
    }
}

/// Encodes a DISCONNECT: fixed header only, remaining length zero.
pub fn encode_disconnect() -> (r: Vec<u8>)
    ensures
        r@ == seq![0xE0u8, 0u8],
{
    let mut out: Vec<u8> = Vec::new();
    out.push(0xE0);
    out.push(0);
    proof {
        assert(out@ =~= seq![0xE0u8, 0u8]);
    }
    out
}

fn encode_ack_packet(first_byte: u8, packet_id: u16) -> (r: Vec<u8>)
    ensures
        r@ == ack_packet_bytes(first_byte, packet_id),
{
    let mut out: Vec<u8> = Vec::new();
    out.push(first_byte);
    out.push(2);
    push_u16_be(&mut out, packet_id);
    proof {
        assert(out@ =~= ack_packet_bytes(first_byte, packet_id));
    }
    out
}

/// Encodes a PUBACK acknowledging an inbound QoS 1 PUBLISH.
pub fn encode_puback(packet_id: u16) -> (r: Vec<u8>)
    ensures
        r@ == ack_packet_bytes(0x40, packet_id),
{
    encode_ack_packet(0x40, packet_id)
}

/// Encodes a PUBREC, the first reply of the inbound QoS 2 handshake.
pub fn encode_pubrec(packet_id: u16) -> (r: Vec<u8>)
    ensures
        r@ == ack_packet_bytes(0x50, packet_id),
{
    encode_ack_packet(0x50, packet_id)
}

/// Encodes a PUBREL; its fixed-header flags are the mandated 0010.
pub fn encode_pubrel(packet_id: u16) -> (r: Vec<u8>)
    ensures
        r@ == ack_packet_bytes(0x62, packet_id),
{
    encode_ack_packet(0x62, packet_id)
}

/// Encodes a PUBCOMP, closing an inbound QoS 2 handshake.
pub fn encode_pubcomp(packet_id: u16) -> (r: Vec<u8>)
    ensures
        r@ == ack_packet_bytes(0x70, packet_id),
{
    encode_ack_packet(0x70, packet_id)
}

/// One requested subscription: a topic filter and the QoS asked for.
pub struct SubscribeFilter {
    pub topic_filter: String,
    pub requested_qos: u8,
}

proof fn lemma_filter_blocks_push(s: Seq<(Seq<u8>, u8)>, x: (Seq<u8>, u8))
    ensures
        filter_blocks(s.push(x)) == filter_blocks(s) + filter_block(x.0, x.1),
    decreases s.len(),
{
    if s.len() == 0 {
        assert(s.push(x) =~= seq![x]);
        assert(seq![x].drop_first() =~= Seq::<(Seq<u8>, u8)>::empty());
        assert(filter_blocks(seq![x]) == filter_block(x.0, x.1) + filter_blocks(
            seq![x].drop_first(),
        ));
        assert(filter_block(x.0, x.1) + Seq::<u8>::empty() =~= filter_block(x.0, x.1));
        assert(filter_blocks(s) + filter_block(x.0, x.1) =~= filter_block(x.0, x.1));
    } else {
        assert(s.push(x).drop_first() =~= s.drop_first().push(x));
        lemma_filter_blocks_push(s.drop_first(), x);
        assert(s.push(x)[0] == s[0]);
        assert(filter_blocks(s.push(x)) == filter_block(s[0].0, s[0].1) + (filter_blocks(
            s.drop_first(),
        ) + filter_block(x.0, x.1)));
        assert(filter_block(s[0].0, s[0].1) + (filter_blocks(s.drop_first()) + filter_block(
            x.0,
            x.1,
        )) =~= (filter_block(s[0].0, s[0].1) + filter_blocks(s.drop_first())) + filter_block(
            x.0,
            x.1,
        ));
    }
}

/// Encodes a SUBSCRIBE carrying one packet identifier and one or more
/// filters, in request order. The fixed-header flags are the mandated 0010.
pub fn encode_subscribe(packet_id: u16, filters: &Vec<SubscribeFilter>) -> (r: Result<
    Vec<u8>,
    MqttError,
>)
    requires
        filters@.len() >= 1,
        forall|i: int| 0 <= i < filters@.len() ==> (#[trigger] filters@[i]).requested_qos <= 2,
    ensures
        match r {
            Ok(b) => {
                &&& forall|i: int|
                    0 <= i < filters@.len() ==> encode_utf8(
                        (#[trigger] filters@[i]).topic_filter@,
                    ).len() <= 65535
                &&& subscribe_body(packet_id, filters_view(filters@)).len() <= VARINT_MAX
                &&& b@ == packet_bytes(0x82, subscribe_body(packet_id, filters_view(filters@)))
            },
            Err(e) => {
                &&& e == MqttError::EncodingError
                &&& ((exists|i: int|
                    0 <= i < filters@.len() && encode_utf8(
                        (#[trigger] filters@[i]).topic_filter@,
                    ).len() > 65535) || subscribe_body(packet_id, filters_view(filters@)).len()
                    > VARINT_MAX)
            },
        },
{
    let mut body: Vec<u8> = Vec::new();
    push_u16_be(&mut body, packet_id);
    proof {
        assert(filters_view(filters@).subrange(0, 0) =~= Seq::<(Seq<u8>, u8)>::empty());
        assert(body@ =~= u16_be(packet_id) + filter_blocks(filters_view(filters@).subrange(0, 0)));
    }
    let mut i: usize = 0;
    while i < filters.len()
        invariant
            i <= filters@.len(),
            forall|j: int| 0 <= j < filters@.len() ==> (#[trigger] filters@[j]).requested_qos <= 2,
            forall|j: int|
                0 <= j < i ==> encode_utf8((#[trigger] filters@[j]).topic_filter@).len() <= 65535,
            body@ == u16_be(packet_id) + filter_blocks(filters_view(filters@).subrange(0, i as int)),
        decreases filters@.len() - i,
    {
        let f = &filters[i];
        let fb: &[u8] = f.topic_filter.as_str().as_bytes();
        if fb.len() > 65535 {
            return Err(MqttError::EncodingError);
        }
        let ghost body0 = body@;
        push_u16_be(&mut body, fb.len() as u16);
        extend_bytes(&mut body, fb);
        body.push(f.requested_qos);
        proof {
            let fv = filters_view(filters@);
            assert(fv[i as int] == (encode_utf8(filters@[i as int].topic_filter@), filters@[
                i as int].requested_qos));
            assert(body@ =~= body0 + filter_block(fv[i as int].0, fv[i as int].1));
            assert(fv.subrange(0, i as int).push(fv[i as int]) =~= fv.subrange(0, i as int + 1));
            lemma_filter_blocks_push(fv.subrange(0, i as int), fv[i as int]);
            assert(body@ =~= u16_be(packet_id) + filter_blocks(fv.subrange(0, i as int + 1)));
        }
        i = i + 1;
    }
    proof {
        assert(filters_view(filters@).subrange(0, filters@.len() as int) =~= filters_view(
            filters@,
        ));
        assert(body@ == subscribe_body(packet_id, filters_view(filters@)));
    }
    frame_packet(0x82, body)
}

/// A single-filter subscription request: one topic filter under one packet
/// identifier, requested at QoS 0.
pub struct MqttSubscribe {
    pub topic: String,
    pub id: u16,
}

impl MqttSubscribe {
    pub fn new(topic: String, id: u16) -> (r: Self)
        ensures
            r.topic@ == topic@,
            r.id == id,
    {
        MqttSubscribe { topic, id }
    }

    /// Encodes the SUBSCRIBE for this one filter at requested QoS 0.
    pub fn encode(&self) -> (r: Result<Vec<u8>, MqttError>)
        ensures
            match r {
                Ok(b) => encode_utf8(self.topic@).len() <= 65535 && b@ == packet_bytes(
                    0x82,
                    subscribe_body(self.id, seq![(encode_utf8(self.topic@), 0u8)]),
                ),
                Err(e) => e == MqttError::EncodingError && encode_utf8(self.topic@).len() > 65535,
            },
    {
        let mut filters: Vec<SubscribeFilter> = Vec::new();
        filters.push(SubscribeFilter { topic_filter: self.topic.clone(), requested_qos: 0 });
        let r = encode_subscribe(self.id, &filters);
        proof {
            assert(filters_view(filters@) =~= seq![(encode_utf8(self.topic@), 0u8)]);
            let fv = filters_view(filters@);
            assert(fv.drop_first() =~= Seq::<(Seq<u8>, u8)>::empty());
            assert(filter_blocks(fv) == filter_block(fv[0].0, fv[0].1) + filter_blocks(
                fv.drop_first(),
            ));
            assert(subscribe_body(self.id, fv).len() == 5 + encode_utf8(self.topic@).len());
            if encode_utf8(self.topic@).len() <= 65535 {
                assert(subscribe_body(self.id, fv).len() <= VARINT_MAX);
            }
        }
        r
    }
}

/// An application message: the topic it is published under, its opaque
/// payload bytes, the delivery flags, and a packet identifier exactly when
/// the QoS calls for an acknowledgement.
#[derive(Debug, PartialEq, Eq)]
pub struct MqttPublish {
    pub topic: String,
    pub payload: Vec<u8>,
    pub dup: bool,
    pub qos: u8,
    pub retain: bool,
    pub packet_id: Option<u16>,
}

impl MqttPublish {
    /// A well-formed message: QoS at most 2, and a packet identifier
    /// present exactly when QoS is above 0.
    pub open spec fn wf(self) -> bool {
        self.qos <= 2 && (self.packet_id is Some <==> self.qos > 0)
    }

    /// A message without a packet identifier, as fire-and-forget QoS 0
    /// publishing uses; the identifier is assigned by the session when an
    /// acknowledged delivery is requested.
    pub fn new(topic: String, payload: Vec<u8>, dup: bool, qos: u8, retain: bool) -> (r: Self)
        ensures
            r.topic@ == topic@,
            r.payload@ == payload@,
            r.dup == dup,
            r.qos == qos,
            r.retain == retain,
            r.packet_id is None,
    {
        MqttPublish { topic, payload, dup, qos, retain, packet_id: None }
    }

    /// Encodes the PUBLISH. The topic must be non-empty and wildcard-free;
    /// a topic or body over its length cap is rejected before framing.
    pub fn encode(&self) -> (r: Result<Vec<u8>, MqttError>)
        requires
            self.wf(),
        ensures
            !valid_topic_bytes(encode_utf8(self.topic@)) ==> (r matches Err(e) && e
                == MqttError::InvalidTopic),
            valid_topic_bytes(encode_utf8(self.topic@)) && (encode_utf8(self.topic@).len() > 65535
                || publish_body(encode_utf8(self.topic@), self.packet_id, self.payload@).len()
                > VARINT_MAX) ==> (r matches Err(e) && e == MqttError::EncodingError),
            valid_topic_bytes(encode_utf8(self.topic@)) && encode_utf8(self.topic@).len() <= 65535
                && publish_body(encode_utf8(self.topic@), self.packet_id, self.payload@).len()
                <= VARINT_MAX ==> (r matches Ok(b) && b@ == packet_bytes(
                (48 + publish_flags(self.dup, self.qos, self.retain)) as u8,
                publish_body(encode_utf8(self.topic@), self.packet_id, self.payload@),
            )),
    {
        let topic_bytes: &[u8] = self.topic.as_str().as_bytes();
        if topic_bytes.len() == 0 {
            return Err(MqttError::InvalidTopic);
        }
        let mut i: usize = 0;
        while i < topic_bytes.len()
            invariant
                self.wf(),
                topic_bytes@ == encode_utf8(self.topic@),
                topic_bytes@.len() > 0,
                i <= topic_bytes@.len(),
                forall|j: int|
                    0 <= j < i ==> topic_bytes@[j] != 0x23 && (#[trigger] topic_bytes@[j]) != 0x2b,
            decreases topic_bytes@.len() - i,
        {
            let c = topic_bytes[i];
            if c == 0x23 || c == 0x2b {
                proof {
                    assert(topic_bytes@[i as int] == 0x23 || topic_bytes@[i as int] == 0x2b);
                    assert(!valid_topic_bytes(encode_utf8(self.topic@)));
                }
                return Err(MqttError::InvalidTopic);
            }
            i = i + 1;
        }
        if topic_bytes.len() > 65535 {
            return Err(MqttError::EncodingError);
        }
        let mut body: Vec<u8> = Vec::new();
        push_u16_be(&mut body, topic_bytes.len() as u16);
        extend_bytes(&mut body, topic_bytes);
        if self.qos > 0 {
            match self.packet_id {
                Some(id) => push_u16_be(&mut body, id),
                None => {},
            }
        }
        extend_bytes(&mut body, self.payload.as_slice());
        proof {
            assert(body@ =~= publish_body(
                encode_utf8(self.topic@),
                self.packet_id,
                self.payload@,
            ));
        }
        let mut flags: u8 = self.qos * 2;
        if self.dup {
            flags = flags + 8;
        }
        if self.retain {
            flags = flags + 1;
        }
        proof {
            assert(flags == publish_flags(self.dup, self.qos, self.retain));
        }
        frame_packet(48 + flags, body)
    }
}

} // verus!
