//! The client side: selected items, `.stignore` contents and placeholder files.
pub mod structs;
pub mod paths;
pub mod db;
pub mod api;
pub mod listing;
pub mod virtual_files;
