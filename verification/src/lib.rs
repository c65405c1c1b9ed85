//! Verified core of a selective-sync service for Syncthing: the decision
//! logic of the server (users, sessions, settings, indexing schedule) and of
//! the client (selected items, `.stignore` contents, placeholder files).
pub mod text;
pub mod common;
pub mod server;
pub mod client;
