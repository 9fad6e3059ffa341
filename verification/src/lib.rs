//! A static-file and reverse-proxy web server: configuration, routing
//! decisions, request rewriting, plugin calls and hot reload.
pub mod text;
pub mod layers;
pub mod cli;
pub mod config;
pub mod api;
pub mod reload;
pub mod plugins;
pub mod errors;
