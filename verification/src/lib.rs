//! NDEF-style message codec: a compact, length-prefixed binary record format
//! for exchanging small structured payloads (text, externally-namespaced
//! blobs, and generic binary objects) between systems that share no schema
//! beyond a short type tag.
//!
//! The crate models every record as plain bytes: the wire layout of a message
//! is a spec-level function of the record sequence, the encoder is proved to
//! produce exactly those bytes, and the decoder is proved to agree with a
//! spec-level parser, byte for byte, error for error.

pub mod bytes;
pub mod error;
pub mod header;
pub mod laws;
pub mod message;
pub mod record;
pub mod utf8;
pub mod wire;

pub use error::Error;
pub use header::Header;
pub use header::TypeNameFormat;
pub use message::Message;
pub use record::Payload;
pub use record::Record;
pub use record::RecordType;
