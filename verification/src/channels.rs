//! Messaging channels: what each protocol's payloads mean and how replies are
//! shaped for it.
pub mod base;
pub mod cli;
pub mod config;
pub mod dingtalk;
pub mod discord;
pub mod email;
pub mod error;
pub mod feishu;
pub mod http;
pub mod inbound_laws;
pub mod manager;
pub mod markdown;
pub mod matrix;
pub mod reply_laws;
pub mod send_laws;
pub mod slack;
pub mod split;
pub mod telegram;
pub mod telegram_laws;
pub mod webhook;
pub mod wechat_work;
pub mod whatsapp;
