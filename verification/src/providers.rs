//! The providers of language models: their wire formats, their failures and
//! how a request is passed from one to the next.
pub mod anthropic;
pub mod anthropic_laws;
pub mod call_laws;
pub mod chain_laws;
pub mod deepseek;
pub mod error;
pub mod groq;
pub mod http;
pub mod ollama;
pub mod openai;
pub mod openai_compat;
pub mod openai_proto;
pub mod openai_stream_laws;
pub mod openrouter;
pub mod registry;
pub mod reliable;
pub mod reliable_laws;
pub mod request_laws;
pub mod router;
