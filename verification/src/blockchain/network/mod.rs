//! The peer-to-peer protocol: message framing and the payload texts.
pub mod bootstrap;
pub mod message;
pub mod peer;
pub mod protocol;
