//! An MQTT 3.1.1 client core: a byte-exact packet codec and a session state
//! machine. The codec turns application intents (connect, publish, subscribe,
//! ping, disconnect) into framed packets and turns broker bytes back into
//! typed packets; the session machine tracks the connection phase, the table
//! of packets awaiting acknowledgement, and keep-alive timing. Transport I/O
//! is left to the caller, which hands bytes in and writes bytes out.

pub mod error;
pub mod varint;
pub mod packet;
pub mod decode;
pub mod session;
