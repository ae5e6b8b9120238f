//! Verified logic of three small on-chain programs: a counter account, a poll
//! voting contract and a simple user-defined token (sUDT) type script.
pub mod counter;
pub mod sudt;
pub mod voting;
