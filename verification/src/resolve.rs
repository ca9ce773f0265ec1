//! Names for addresses.

pub mod dns;
pub mod oui;
