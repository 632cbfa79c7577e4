//! Verified core of a small website and chat server: HTTP request parsing,
//! routing decisions, the chat's message history and its JSON frames, the
//! anti-spam window and the rotation of chat rules.
pub mod text;
pub mod http;
pub mod json;
pub mod chat;
pub mod rules;
pub mod routes;
pub mod settings;
pub mod laws;
