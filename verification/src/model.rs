//! The data that channels, providers and memory exchange.
pub mod channel;
pub mod memory;
pub mod observer;
pub mod provider;
pub mod sandbox;
pub mod transcribe;
pub mod tunnel;
