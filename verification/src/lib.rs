pub mod application_errors;
pub mod bencode;
pub mod channel;
pub mod client;
pub mod config;
pub mod download_manager;
pub mod http;
pub mod logger;
pub mod metainfo;
pub mod peer;
pub mod peer_connection_manager;
pub mod piece_manager;
pub mod piece_saver;
pub mod text;
