//! The verified core of the navette session daemon: the state machines, stores
//! and decisions behind its HTTP and WebSocket surface. Sockets, files, clocks
//! and processes live in the application around it, which hands this crate
//! plain values and carries out what it answers.

pub mod api;
pub mod app_index;
pub mod blobs;
pub mod bridge;
pub mod clipboard;
pub mod config;
pub mod desktop_entry;
pub mod downloads;
pub mod encode;
pub mod file_transfers;
pub mod frame;
pub mod guard;
pub mod http;
pub mod icons;
pub mod lists;
pub mod media;
pub mod paths;
pub mod protocol;
pub mod registry;
pub mod routes;
pub mod sockets;
pub mod sorted_map;
pub mod supervisor;
pub mod text;
pub mod thumbnails;
pub mod wake;
