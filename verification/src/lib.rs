//! A port-forwarding proxy core: a binary frame codec, a port scanner that
//! diffs listening-socket snapshots, a forwarder that answers data frames,
//! a per-port listener bookkeeping state machine, and a multiplexer that
//! dispatches frames by their port label.

pub mod codec;
pub mod forwarder;
pub mod listener;
pub mod mux;
pub mod oracle;
pub mod protocol;
pub mod scanner;
