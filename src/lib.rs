//! Machine credentials (API keys, signed tokens, revocation) and a registry of
//! live real-time sessions, at most one per credential.

pub mod error;
pub mod text;
pub mod api_key;
pub mod models;
pub mod escape;
pub mod payload;
pub mod jwt;
pub mod auth;
pub mod connection;
pub mod manager;
pub mod ws;
pub mod config;
pub mod notifications;
pub mod tasks;
