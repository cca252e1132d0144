//! What the parts of the library owe to those who use them, stated of all inputs and proved.
//!
//! Each law says what goes in and what comes out in plain terms: bytes, numbers, texts, and
//! what is to be done.
pub mod admission;
pub mod commands;
pub mod delivery;
pub mod dispatch;
pub mod downlink;
pub mod inspection;
pub mod registry;
pub mod requests;
pub mod sessions;
pub mod streams;
pub mod traffic;
pub mod upkeep;
pub mod wire;
