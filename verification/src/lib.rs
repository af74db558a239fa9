//! A peer-to-peer file sharing node.

pub mod address;
pub mod config;
pub mod dht_node;
pub mod digest;
pub mod file_manager;
pub mod frame;
pub mod json;
pub mod json_reader;
pub mod manifest;
pub mod memmap;
pub mod path;
pub mod proto;
pub mod routing_manager;
pub mod service;
pub mod session;
pub mod shutdown;
pub mod text;
