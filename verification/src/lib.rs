//! A distraction blocker's logic, verified: a privileged daemon keeps an
//! authoritative blocklist of domains and CIDRs, answers a versioned
//! line-delimited JSON protocol, sinkholes blocked DNS names and serves a
//! block page; an unprivileged GUI keeps a website library and scheduled
//! sessions and reconciles the sessions active now into the daemon's
//! blocklist.
//!
//! The modules hold the decisions and data transformations with their
//! contracts; sockets, files, processes and JSON are handled by the callers.

pub mod text;
pub mod strset;

pub mod config;
pub mod schedule;
pub mod scheduler;

pub mod cidr;
pub mod domain;
pub mod state;

pub mod protocol;
pub mod daemon;
pub mod client;

pub mod dns;
pub mod block_page;
pub mod netconfig;
pub mod cli;
pub mod tray;
