//! A poll contract: anyone creates polls with up to ten options, and each
//! address holds at most one ballot per poll, which it may change.
//!
//! Storage, address validation and serialisation belong to the host; the
//! functions here take what was loaded and return what is to be stored.
pub mod contract;
pub mod error;
pub mod msg;
pub mod state;
pub mod tally;
