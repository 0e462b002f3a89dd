//! The Kintri agent network client.
//!
//! What a developer's machine does to take part in the agent network: log in,
//! keep one presence per coding session, hand messages over, and serve four
//! tools to a coding agent. The program around this library reads and writes:
//! files, sockets, the browser. What it reads is decided here, and what it
//! writes is made here.
use vstd::prelude::*;

pub mod account;
pub mod agent_protocol;
pub mod client;
pub mod commands;
pub mod credentials;
pub mod daemon;
pub mod failure;
pub mod handover;
pub mod http;
pub mod inbox;
pub mod ipc;
pub mod json;
pub mod link;
pub mod login;
pub mod mcp;
pub mod model;
pub mod path;
pub mod sessions;
pub mod text;
pub mod time;
pub mod url;
pub mod workspace;

verus! {

/// The version that this client reports of itself.
pub const VERSION: &'static str = "0.1.1";

} // verus!
