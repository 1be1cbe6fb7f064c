//! Semantic Intent Negotiation Protocol (SINP).
//!
//! A message-oriented protocol in which a client expresses a natural-language
//! intent and a server either executes it, asks for clarification, proposes
//! alternatives, or refuses, based on a quantitative confidence calculus.
//! This crate holds the conversational engine: the message data model and its
//! canonical serialization, the semantic hash and signature scheme, the
//! confidence calculus, the capability registry with its keyword interpreter,
//! and the server and client state machines.
//!
//! Confidence values, reliabilities and scores are carried as fixed-point
//! integers in millionths (`1_000_000` stands for 1.0), so that the decision
//! calculus is exact.

pub mod client;
pub mod confidence;
pub mod config;
pub mod error;
pub mod frame;
pub mod hex;
pub mod interpreter;
pub mod json;
pub mod jsonparse;
pub mod jsonproof;
pub mod jsonser;
pub mod message;
pub mod msgcodec;
pub mod registry;
pub mod security;
pub mod server;
pub mod state;
pub mod strutil;
pub mod time;
