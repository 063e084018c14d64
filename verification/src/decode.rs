//! The decode side of the codec. The read loop hands over the fixed-header
//! byte and the complete packet body (it has already consumed the
//! remaining-length integer); each decoder here is length-driven and states
//! exactly which bodies it accepts and what it extracts from them.

use vstd::prelude::*;
use vstd::slice::{slice_subrange, slice_to_vec};
use vstd::utf8::{decode_utf8, encode_utf8, encode_utf8_decode_utf8, valid_utf8};
use crate::error::MqttError;
use crate::packet::{be16, pid_bytes, publish_body, publish_flags, u16_be, MqttPublish};

verus! {

/// A broker's answer to CONNECT: the session-present flag and the connect
/// return code (0 accepted, 1 to 5 the protocol-defined rejections).
#[derive(Clone, Copy, Debug, PartialEq, Eq, Structural)]
pub struct ConnAck {
    pub session_present: bool,
    pub return_code: u8,
}

/// A broker's answer to SUBSCRIBE: one granted-QoS byte per requested
/// filter, in request order; 0x80 marks a refused filter.
#[derive(Debug, PartialEq, Eq)]
pub struct SubAck {
    pub packet_id: u16,
    pub granted: Vec<u8>,
}

/// A decoded inbound packet. Codes this client never expects from a broker
/// are carried through as `Unknown` so framing stays intact.
#[derive(Debug, PartialEq, Eq)]
pub enum IncomingPacket {
    ConnAck(ConnAck),
    Publish(MqttPublish),
    SubAck(SubAck),
    PubAck(u16),
    PubRec(u16),
    PubRel(u16),
    PubComp(u16),
    PingResp,
    Unknown(u8),
}

/// A granted-QoS byte a SUBACK may carry.
pub open spec fn valid_granted(b: u8) -> bool {
    b == 0 || b == 1 || b == 2 || b == 0x80
}

/// The QoS bits (2-1) of a PUBLISH fixed-header byte.
pub open spec fn publish_qos(first_byte: u8) -> u8 {
    (first_byte / 2) % 4
}

/// The DUP bit (3) of a PUBLISH fixed-header byte.
pub open spec fn publish_dup(first_byte: u8) -> bool {
    (first_byte / 8) % 2 == 1
}

/// The RETAIN bit (0) of a PUBLISH fixed-header byte.
pub open spec fn publish_retain(first_byte: u8) -> bool {
    first_byte % 2 == 1
}

/// A PUBLISH body long enough for the fields its flags and topic length
/// announce, under a QoS the protocol defines.
pub open spec fn publish_shape_ok(first_byte: u8, body: Seq<u8>) -> bool {
    &&& publish_qos(first_byte) <= 2
    &&& body.len() >= 2
    &&& 2 + be16(body[0], body[1]) + (if publish_qos(first_byte) > 0 {
        2int
    } else {
        0int
    }) <= body.len()
}

/// The topic bytes of a PUBLISH body.
pub open spec fn publish_topic_bytes(body: Seq<u8>) -> Seq<u8> {
    body.subrange(2, 2 + be16(body[0], body[1]))
}

/// The packet identifier a PUBLISH body carries, present exactly at QoS > 0.
pub open spec fn publish_pid_of(first_byte: u8, body: Seq<u8>) -> Option<u16> {
    if publish_qos(first_byte) > 0 {
        Some(be16(body[2 + be16(body[0], body[1])], body[3 + be16(body[0], body[1])]))
    } else {
        None
    }
}

/// The payload bytes of a PUBLISH body: everything after the topic and the
/// packet identifier, opaque and never re-encoded.
pub open spec fn publish_payload_of(first_byte: u8, body: Seq<u8>) -> Seq<u8> {
    body.subrange(
        2 + be16(body[0], body[1]) + (if publish_qos(first_byte) > 0 {
            2int
        } else {
            0int
        }),
        body.len() as int,
    )
}

/// What a successful PUBLISH decode hands back: every field read off the
/// fixed-header byte and the body, the topic decoded from its UTF-8 bytes.
pub open spec fn publish_result_ok(m: MqttPublish, first_byte: u8, body: Seq<u8>) -> bool {
    &&& publish_shape_ok(first_byte, body)
    &&& valid_utf8(publish_topic_bytes(body))
    &&& encode_utf8(m.topic@) == publish_topic_bytes(body)
    &&& m.topic@ == decode_utf8(publish_topic_bytes(body))
    &&& m.payload@ == publish_payload_of(first_byte, body)
    &&& m.qos == publish_qos(first_byte)
    &&& m.dup == publish_dup(first_byte)
    &&& m.retain == publish_retain(first_byte)
    &&& m.packet_id == publish_pid_of(first_byte, body)
    &&& m.wf()
}

/// When a PUBLISH decode fails, and with which error: a reserved QoS or a
/// truncated body is malformed; a body of the right shape fails only on
/// topic bytes that are not UTF-8.
pub open spec fn publish_result_err(e: MqttError, first_byte: u8, body: Seq<u8>) -> bool {
    &&& !publish_shape_ok(first_byte, body) ==> e == MqttError::MalformedPublish
    &&& publish_shape_ok(first_byte, body) ==> e == MqttError::InvalidUtf8 && !valid_utf8(
        publish_topic_bytes(body),
    )
}

/// The PUBLISH round trip: from the fixed-header byte and body the encoder
/// produces for a message, the decoder's extraction functions read back
/// exactly that message's flags, topic bytes, packet identifier and payload.
pub proof fn lemma_publish_round_trip(m: MqttPublish)
    requires
        m.wf(),
        encode_utf8(m.topic@).len() <= 65535,
    ensures
        ({
            let first = (48 + publish_flags(m.dup, m.qos, m.retain)) as u8;
            let body = publish_body(encode_utf8(m.topic@), m.packet_id, m.payload@);
            &&& publish_qos(first) == m.qos
            &&& publish_dup(first) == m.dup
            &&& publish_retain(first) == m.retain
            &&& publish_shape_ok(first, body)
            &&& publish_topic_bytes(body) == encode_utf8(m.topic@)
            &&& publish_pid_of(first, body) == m.packet_id
            &&& publish_payload_of(first, body) == m.payload@
        }),
{
    let tb = encode_utf8(m.topic@);
    let tl = tb.len() as int;
    let first = (48 + publish_flags(m.dup, m.qos, m.retain)) as u8;
    let body = publish_body(tb, m.packet_id, m.payload@);
    assert(body =~= u16_be(tl as u16) + tb + pid_bytes(m.packet_id) + m.payload@);
    assert(body[0] == (tl as u16 / 256) as u8);
    assert(body[1] == (tl as u16 % 256) as u8);
    assert(be16(body[0], body[1]) == tl);
    let pid_len: int = if m.qos > 0 {
        2
    } else {
        0
    };
    assert(pid_bytes(m.packet_id).len() == pid_len);
    assert(body.len() == 2 + tl + pid_len + m.payload@.len());
    assert(publish_qos(first) == m.qos && publish_dup(first) == m.dup && publish_retain(first)
        == m.retain) by {
        let f = publish_flags(m.dup, m.qos, m.retain);
        if m.dup {
            if m.retain {
                assert(f == 9 + m.qos * 2);
            } else {
                assert(f == 8 + m.qos * 2);
            }
        } else {
            if m.retain {
                assert(f == 1 + m.qos * 2);
            } else {
                assert(f == m.qos * 2);
            }
        }
    }
    assert(publish_topic_bytes(body) =~= tb);
    match m.packet_id {
        Some(id) => {
            assert(body[2 + tl] == (id / 256) as u8);
            assert(body[3 + tl] == (id % 256) as u8);
            assert(be16(body[2 + tl], body[3 + tl]) == id);
        },
        None => {},
    }
    assert(publish_payload_of(first, body) =~= m.payload@);
}

/// Relies on `String::from_utf8`: it succeeds exactly on valid UTF-8 input,
/// and the returned string holds the input as its UTF-8 bytes.
#[verifier::external_body]
fn bytes_to_string(bytes: Vec<u8>) -> (r: Option<String>)
    ensures
        r is Some <==> valid_utf8(bytes@),
        r matches Some(s) ==> encode_utf8(s@) == bytes@,
{
    match String::from_utf8(bytes) {
        Ok(s) => Some(s),
        Err(_) => None,
    }
}

/// Decodes a CONNACK body: exactly two bytes, the session-present flag in
/// bit 0 of the first and a return code of at most 5 in the second.
pub fn decode_connack(body: &[u8]) -> (r: Result<ConnAck, MqttError>)
    ensures
        match r {
            Ok(c) => {
                &&& body@.len() == 2
                &&& body@[1] <= 5
                &&& c.session_present == (body@[0] % 2 == 1)
                &&& c.return_code == body@[1]
            },
            Err(e) => {
                &&& e == MqttError::MalformedConnAck
                &&& (body@.len() != 2 || body@[1] > 5)
            },
        },
{
    if body.len() != 2 {
        return Err(MqttError::MalformedConnAck);
    }
    let rc = body[1];
    if rc > 5 {
        return Err(MqttError::MalformedConnAck);
    }
    Ok(ConnAck { session_present: body[0] % 2 == 1, return_code: rc })
}

/// Decodes a PUBACK, PUBREC, PUBREL or PUBCOMP body: exactly the two
/// big-endian bytes of the acknowledged packet identifier.
pub fn decode_ack(body: &[u8]) -> (r: Result<u16, MqttError>)
    ensures
        match r {
            Ok(id) => body@.len() == 2 && id == be16(body@[0], body@[1]),
            Err(e) => e == MqttError::MalformedAck && body@.len() != 2,
        },
{
    if body.len() != 2 {
        return Err(MqttError::MalformedAck);
    }
    Ok((body[0] as u16) * 256 + (body[1] as u16))
}

/// Decodes a SUBACK body: the packet identifier, then one granted-QoS byte
/// per originally requested filter, in request order. The caller correlates
/// the bytes with its request by position, never by content.
pub fn decode_suback(body: &[u8]) -> (r: Result<SubAck, MqttError>)
    ensures
        match r {
            Ok(s) => {
                &&& body@.len() >= 2
                &&& s.packet_id == be16(body@[0], body@[1])
                &&& s.granted@ == body@.subrange(2, body@.len() as int)
                &&& forall|i: int|
                    0 <= i < s.granted@.len() ==> valid_granted(#[trigger] s.granted@[i])
            },
            Err(e) => {
                &&& e == MqttError::MalformedAck
                &&& (body@.len() < 2 || exists|i: int|
                    2 <= i < body@.len() && !valid_granted(#[trigger] body@[i]))
            },
        },
{
    if body.len() < 2 {
        return Err(MqttError::MalformedAck);
    }
    let packet_id: u16 = (body[0] as u16) * 256 + (body[1] as u16);
    let mut granted: Vec<u8> = Vec::new();
    let mut i: usize = 2;
    proof {
        assert(granted@ =~= body@.subrange(2, 2));
    }
    while i < body.len()
        invariant
            2 <= i <= body@.len(),
            body@.len() >= 2,
            packet_id == be16(body@[0], body@[1]),
            granted@ == body@.subrange(2, i as int),
            forall|j: int| 0 <= j < granted@.len() ==> valid_granted(#[trigger] granted@[j]),
        decreases body@.len() - i,
    {
        let g = body[i];
        if !(g == 0 || g == 1 || g == 2 || g == 0x80) {
            return Err(MqttError::MalformedAck);
        }
        granted.push(g);
        proof {
            assert(body@.subrange(2, i as int).push(body@[i as int]) =~= body@.subrange(
                2,
                i as int + 1,
            ));
        }
        i = i + 1;
    }
    Ok(SubAck { packet_id, granted })
}

/// Decodes a PINGRESP: its body must be empty.
pub fn decode_pingresp(body: &[u8]) -> (r: Result<(), MqttError>)
    ensures
        match r {
            Ok(_) => body@.len() == 0,
            Err(e) => e == MqttError::MalformedPingResp && body@.len() != 0,
        },
{
    if body.len() != 0 {
        return Err(MqttError::MalformedPingResp);
    }
    Ok(())
}

impl MqttPublish {
    /// Decodes a PUBLISH from its fixed-header byte and body: the flags come
    /// from the header, the topic is length-prefixed UTF-8, the packet
    /// identifier follows exactly at QoS > 0, and the rest is the payload.
    pub fn decode(first_byte: u8, body: &[u8]) -> (r: Result<MqttPublish, MqttError>)
        requires
            first_byte / 16 == 3,
        ensures
            match r {
                Ok(m) => publish_result_ok(m, first_byte, body@),
                Err(e) => publish_result_err(e, first_byte, body@),
            },
    {
        let qos: u8 = (first_byte / 2) % 4;
        if qos > 2 {
            return Err(MqttError::MalformedPublish);
        }
        let dup: bool = (first_byte / 8) % 2 == 1;
        let retain: bool = first_byte % 2 == 1;
        if body.len() < 2 {
            return Err(MqttError::MalformedPublish);
        }
        let topic_len: usize = (body[0] as usize) * 256 + (body[1] as usize);
        let pid_len: usize = if qos > 0 {
            2
        } else {
            0
        };
        if body.len() < 2 + topic_len + pid_len {
            return Err(MqttError::MalformedPublish);
        }
        let topic_slice: &[u8] = slice_subrange(body, 2, 2 + topic_len);
        let topic_vec: Vec<u8> = slice_to_vec(topic_slice);
        let topic: String = match bytes_to_string(topic_vec) {
            Some(s) => s,
            None => {
                return Err(MqttError::InvalidUtf8);
            },
        };
        proof {
            encode_utf8_decode_utf8(topic@);
        }
        let packet_id: Option<u16> = if qos > 0 {
            Some((body[2 + topic_len] as u16) * 256 + (body[3 + topic_len] as u16))
        } else {
            None
        };
        let payload_slice: &[u8] = slice_subrange(body, 2 + topic_len + pid_len, body.len());
        let payload: Vec<u8> = slice_to_vec(payload_slice);
        Ok(MqttPublish { topic, payload, dup, qos, retain, packet_id })
    }
}

/// Decodes one inbound packet from its fixed-header byte and body, switched
/// on the four-bit type code. Codes a broker should not send a client are
/// passed through as `Unknown`, their body already consumed, so the stream
/// stays framing-correct.
pub fn decode_packet(first_byte: u8, body: &[u8]) -> (r: Result<IncomingPacket, MqttError>)
    ensures
        match r {
            Ok(p) => match p {
                IncomingPacket::ConnAck(c) => {
                    &&& first_byte / 16 == 2
                    &&& body@.len() == 2
                    &&& body@[1] <= 5
                    &&& c.session_present == (body@[0] % 2 == 1)
                    &&& c.return_code == body@[1]
                },
                IncomingPacket::Publish(m) => first_byte / 16 == 3 && publish_result_ok(
                    m,
                    first_byte,
                    body@,
                ),
                IncomingPacket::SubAck(s) => {
                    &&& first_byte / 16 == 9
                    &&& body@.len() >= 2
                    &&& s.packet_id == be16(body@[0], body@[1])
                    &&& s.granted@ == body@.subrange(2, body@.len() as int)
                    &&& forall|i: int|
                        0 <= i < s.granted@.len() ==> valid_granted(#[trigger] s.granted@[i])
                },
                IncomingPacket::PubAck(id) => first_byte / 16 == 4 && body@.len() == 2 && id
                    == be16(body@[0], body@[1]),
                IncomingPacket::PubRec(id) => first_byte / 16 == 5 && body@.len() == 2 && id
                    == be16(body@[0], body@[1]),
                IncomingPacket::PubRel(id) => first_byte / 16 == 6 && body@.len() == 2 && id
                    == be16(body@[0], body@[1]),
                IncomingPacket::PubComp(id) => first_byte / 16 == 7 && body@.len() == 2 && id
                    == be16(body@[0], body@[1]),
                IncomingPacket::PingResp => first_byte / 16 == 13 && body@.len() == 0,
                IncomingPacket::Unknown(code) => {
                    &&& code == first_byte / 16
                    &&& code != 2 && code != 3 && code != 4 && code != 5 && code != 6 && code != 7
                        && code != 9 && code != 13
                },
            },
            Err(e) => {
                &&& first_byte / 16 == 2 ==> e == MqttError::MalformedConnAck && (body@.len() != 2
                    || body@[1] > 5)
                &&& first_byte / 16 == 3 ==> publish_result_err(e, first_byte, body@)
                &&& (first_byte / 16 == 4 || first_byte / 16 == 5 || first_byte / 16 == 6
                    || first_byte / 16 == 7) ==> e == MqttError::MalformedAck && body@.len() != 2
                &&& first_byte / 16 == 9 ==> e == MqttError::MalformedAck && (body@.len() < 2
                    || exists|i: int| 2 <= i < body@.len() && !valid_granted(#[trigger] body@[i]))
                &&& first_byte / 16 == 13 ==> e == MqttError::MalformedPingResp && body@.len() != 0
                &&& (first_byte / 16 == 2 || first_byte / 16 == 3 || first_byte / 16 == 4
                    || first_byte / 16 == 5 || first_byte / 16 == 6 || first_byte / 16 == 7
                    || first_byte / 16 == 9 || first_byte / 16 == 13)
            },
        },
{
    let code: u8 = first_byte / 16;
    if code == 2 {
        match decode_connack(body) {
            Ok(c) => Ok(IncomingPacket::ConnAck(c)),
            Err(e) => Err(e),
        }
    } else if code == 3 {
        match MqttPublish::decode(first_byte, body) {
            Ok(m) => Ok(IncomingPacket::Publish(m)),
            Err(e) => Err(e),
        }
    } else if code == 4 {
        match decode_ack(body) {
            Ok(id) => Ok(IncomingPacket::PubAck(id)),
            Err(e) => Err(e),
        }
    } else if code == 5 {
        match decode_ack(body) {
            Ok(id) => Ok(IncomingPacket::PubRec(id)),
            Err(e) => Err(e),
        }
    } else if code == 6 {
        match decode_ack(body) {
            Ok(id) => Ok(IncomingPacket::PubRel(id)),
            Err(e) => Err(e),
        }
    } else if code == 7 {
        match decode_ack(body) {
            Ok(id) => Ok(IncomingPacket::PubComp(id)),
            Err(e) => Err(e),
        }
    } else if code == 9 {
        match decode_suback(body) {
            Ok(s) => Ok(IncomingPacket::SubAck(s)),
            Err(e) => Err(e),
        }
    } else if code == 13 {
        match decode_pingresp(body) {
            Ok(_) => Ok(IncomingPacket::PingResp),
            Err(e) => Err(e),
        }
    } else {
        Ok(IncomingPacket::Unknown(code))
    }
}

} // verus!

