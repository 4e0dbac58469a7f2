//! A passive sensor for TCP injection attacks.
//!
//! The sensor watches one conversation at a time: a per-flow state machine
//! follows the handshake and flags forged SYN/ACK segments racing the
//! legitimate one, and an ordered coalescing buffer collects out-of-order
//! payload segments and flags overlaps whose bytes disagree. Frame capture
//! and relaying live outside this crate; the decoding of captured frames,
//! the sequence-number arithmetic, the intersection-as-equality range keys
//! and the two detectors live here, each behind a verified contract.

pub mod connection_state;
pub mod decode;
pub mod event;
pub mod ordered_coalesce;
pub mod packet;
pub mod ring;
pub mod sequence;
pub mod utils;
