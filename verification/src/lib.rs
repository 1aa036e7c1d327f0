//! Verified core of an OpenAI desktop client: conversation keys, chat
//! titles, data URLs, streaming state and the small decisions around the
//! remote calls.
pub mod text;
pub mod ids;
pub mod models;
pub mod title;
pub mod stream;
pub mod data_url;
pub mod chat;
pub mod thread;
pub mod tools;
pub mod config;
pub mod search;
pub mod audio;
mod outside;
