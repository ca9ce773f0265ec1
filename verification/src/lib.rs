//! Passive network monitor: frames are decoded once, counted in two
//! conversation tables and shown as two graphs, one by Ethernet address, one
//! by IP address.

pub mod bytes;
pub mod capture;
pub mod json;
pub mod model;
pub mod npcap;
pub mod resolve;
pub mod server;
pub mod text;
pub mod wsproto;
