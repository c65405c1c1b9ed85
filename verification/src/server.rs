//! The server side: accounts, sessions, site settings and the folder index.
pub mod structs;
pub mod create_user;
pub mod db;
pub mod guest;
pub mod api;
pub mod file_indexer;
pub mod syncthing_config;
