//! A remote signing-key store: a typed request/response protocol, an
//! in-memory keystore backend with verified capability semantics, a
//! byte-level codec for the protocol messages, and the client-side
//! decoding policy for responses.
//!
//! Transport (connection handling, framing) and process bootstrap live
//! outside this library; it works on plain values only.

pub mod client;
pub mod codec;
pub mod crypto;
pub mod keystore;
pub mod protocol;
mod types;

pub use types::{
    HandleModel, KeyTypeId, KeystoreError, PublicKeyHandle, SchemeTag, VrfSignature,
    VrfSignatureModel, VrfTranscriptData, VrfTranscriptDataModel, VrfTranscriptValue,
    VrfTranscriptValueModel, bytes_eq, handle_eq,
};
