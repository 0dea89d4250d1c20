//! Address management and peer provisioning for a WireGuard mesh.
pub mod client;
pub mod command;
pub mod commit;
pub mod config;
pub mod cycle;
pub mod document;
pub mod endpoint;
pub mod keys;
pub mod net;
pub mod service;
pub mod storage;
