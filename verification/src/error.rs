//! Error taxonomy of the client core. Application errors (an invalid topic,
//! an oversized identifier) are rejected before any bytes are built; the
//! malformed variants report protocol violations found while decoding, which
//! are fatal to the session.

use vstd::prelude::*;

verus! {

/// Everything the codec can reject, on either side of the wire.
#[derive(Clone, Copy, Debug, PartialEq, Eq, Structural)]
pub enum MqttError {
    /// A value does not fit the wire format (a remaining length over the
    /// four-byte cap, or a length-prefixed field over 65535 bytes).
    EncodingError,
    /// The client identifier cannot be length-prefixed with two bytes.
    InvalidClientId,
    /// A publish topic is empty or contains a wildcard character.
    InvalidTopic,
    /// A remaining-length integer ran past four bytes or past the input.
    MalformedVarInt,
    /// A CONNACK body of the wrong length, or an unknown return code.
    MalformedConnAck,
    /// An acknowledgement body of the wrong shape.
    MalformedAck,
    /// A PINGRESP with a non-empty body.
    MalformedPingResp,
    /// A PUBLISH body too short for its own length fields, or reserved flags.
    MalformedPublish,
    /// Topic bytes in a PUBLISH that are not valid UTF-8.
    InvalidUtf8,
}

/// Why a session left the `Connected` phase.
#[derive(Clone, Copy, Debug, PartialEq, Eq, Structural)]
pub enum DisconnectReason {
    /// No PINGRESP arrived within the keep-alive interval of a PINGREQ.
    KeepAliveTimeout,
    /// The broker sent bytes the codec rejects; framing cannot recover.
    ProtocolViolation,
    /// No CONNACK arrived in time.
    ConnectTimeout,
    /// The application asked for an orderly shutdown.
    Requested,
}

} // verus!
