//! Verified core of an IRC client backend: the IRCv3 message codec, the
//! CAP/SASL negotiation state machine (PLAIN, EXTERNAL, SCRAM-SHA-256,
//! SCRAM-SHA-512 with TLS channel binding), and the session layer that folds
//! parsed messages into semantic events.

pub mod cap_sasl;
pub mod config;
pub mod crypto;
pub mod dcc;
pub mod plugin;
pub mod proto;
pub mod scram;
pub mod session;
pub mod strutil;
pub mod text;
pub mod transport;
