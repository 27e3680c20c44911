//! The server: its configuration, what it knows of itself, its state and its command handler.

pub mod config;
pub mod data;
pub mod handler;
pub mod metadata;
