pub mod address;
pub mod broker;
pub mod cache;
pub mod chain;
pub mod config;
pub mod server_cache;
pub mod text;
pub mod web;
