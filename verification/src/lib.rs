//! Verified core of a multi-channel assistant runtime: channel protocols,
//! model providers and long-term memory.
pub mod channels;
pub mod crypto;
pub mod json;
pub mod json_laws;
pub mod memory;
pub mod model;
pub mod pattern;
pub mod providers;
pub mod strmap;
pub mod text;
pub mod text_laws;
