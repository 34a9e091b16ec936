//! The three ways of moving a file, one type each.

pub mod guaranteed_udp;
pub mod tcp;
pub mod udp;
