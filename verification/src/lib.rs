//! Core logic of a developer-workstation reverse proxy: an
//! authoritative-then-recursive UDP DNS responder, a private CA with a
//! time-based leaf renewal policy, and a host-multiplexed HTTPS reverse
//! proxy. This crate holds the verified decision and data logic; network
//! and filesystem plumbing lives outside it.

pub mod addr;
pub mod ca;
pub mod config;
pub mod dns;
pub mod dnswire;
pub mod domain;
pub mod loglevel;
pub mod proxy;
pub mod resolver;
pub mod strutil;
pub mod table;
