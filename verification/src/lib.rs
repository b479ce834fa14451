//! The logic of the SyncBlaze desktop companion: a relay that passes messages
//! between the clients under a pairing code, and the sign-in through the system
//! browser.
//!
//! The library computes; sockets, requests and windows are the caller's
//! business.

pub mod client;
pub mod desktop;
pub mod group;
pub mod message_laws;
pub mod oauth;
pub mod oauth_laws;
pub mod pkce;
pub mod pkce_laws;
pub mod reader;
pub mod reader_laws;
pub mod relay;
pub mod relay_laws;
pub mod table;
pub mod text;
pub mod url;
pub mod url_laws;
pub mod wire;
pub mod wire_laws;

use vstd::prelude::*;

verus! {

/// The port of the relay on the local network. It is fixed, so that an address
/// can be shown before anything is connected.
pub const LAN_RELAY_PORT: u16 = 47811;

} // verus!
