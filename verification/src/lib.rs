pub mod access;
pub mod capture;
pub mod cleanup;
pub mod clipboard_formats;
pub mod clipboard_watch;
pub mod config;
pub mod connections;
pub mod inject;
pub mod hashing;
pub mod layout;
pub mod machine_id;
pub mod local_files;
pub mod models;
pub mod ordering;
pub mod pages;
pub mod paths;
pub mod record_files;
pub mod remote_cache;
pub mod remote_share;
pub mod share_index;
pub mod sync_diff;
pub mod text;
pub mod thumbnail;
pub mod web;
pub mod web_auth;
