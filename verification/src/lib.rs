//! Packet capture analysis: parsing of captured frames, protocol
//! identification by well-known ports, TCP stream tracking and traffic
//! statistics.

pub mod config;
pub mod display;
pub mod laws;
pub mod network;
pub mod packet;
pub mod protocol;
pub mod session;
pub mod text;
pub mod traffic;
pub mod ui;
pub mod wire;
