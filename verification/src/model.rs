//! The decoded frame and the two conversation tables.

pub mod address;
pub mod coded_map;
pub mod conv_table;
pub mod nodes;
pub mod packet;
pub mod tables;
