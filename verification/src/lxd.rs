//! The LXD driver: every sandbox is a container that is managed through the LXD
//! REST API on a Unix socket.
pub mod client;
pub mod config;
pub mod driver;
pub mod instance;
pub mod laws;
pub mod watcher;
