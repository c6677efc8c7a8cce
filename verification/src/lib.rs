//! Verified core of the Codex++ launcher, manager and mobile relay.
use vstd::prelude::*;

pub mod text;
pub mod json;
pub mod encoding;
pub mod zed;
pub mod registry;
pub mod paths;
pub mod launcher;
pub mod http;
pub mod mobile;
pub mod relay;
pub mod rooms;
pub mod relay_status;
pub mod crypto;
pub mod manager;
pub mod relay_text;
pub mod helper;
pub mod host;
pub mod remote_state;
pub mod sessions;

verus! {
} // verus!
