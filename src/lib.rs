//! Network Time Security for NTP: the wire codec, the cookie codec, the
//! rotating master-key schedule and the NTS-KE record protocol.
pub mod wire;
pub mod protocol;
pub mod aead;
pub mod cookie;
pub mod rotation;
pub mod server;
pub mod nts_ke;
pub mod client;
pub mod config;

