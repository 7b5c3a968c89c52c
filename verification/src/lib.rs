//! The socket worker of an HTTP BitTorrent tracker.
pub mod access_list;
pub mod address;
pub mod common;
pub mod config;
pub mod connection;
pub mod error;
pub mod files;
pub mod http;
pub mod protocol;
pub mod registry;
pub mod request;
pub mod response;
pub mod scrape;
pub mod table;
pub mod text;
pub mod worker;
