//! Core logic of a Steam depot downloader: KeyValues parsing, message
//! framing, depot manifests, chunk processing and download planning.

pub mod text;
pub mod pattern;
pub mod kv;
pub mod crypto;
pub mod machineid;
pub mod msgs;
pub mod manifest;
pub mod order;
pub mod cdn;
pub mod pics;
pub mod state;
pub mod history;
pub mod engine;
pub mod store;
pub mod commands;
pub mod auth;
pub mod connection;
pub mod session;
pub mod runtime;
