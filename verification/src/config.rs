//! The server's configuration, as read from `webconfig.toml`.
use vstd::prelude::*;

verus! {

/// The `[server]` table: where the server listens, where unmatched requests
/// are proxied, its routes and the headers added to every response.
#[derive(Debug, Clone)]
pub struct Server {
    pub address: String,
    pub port: i32,
    pub plugins: Option<String>,
    pub route: Option<Vec<WebRoute>>,
    pub headers: Option<Vec<ServerHeader>>,
    pub https: Option<bool>,
}

/// The whole configuration file.
#[derive(Debug, Clone)]
pub struct WebConfig {
    pub server: Server,
}

/// One route: a folder served at `path` (when `ifs` is set), or a proxy to
/// `address` (or to the server's address).
#[derive(Debug, Clone)]
pub struct WebRoute {
    pub path: String,
    pub ifs: Option<String>,
    pub address: Option<String>,
    pub https: Option<bool>,
    pub strip: Option<bool>,
    pub watch: Option<bool>,
}

/// A header added to every response.
#[derive(Debug, Clone)]
pub struct ServerHeader {
    pub key: String,
    pub value: String,
}

} // verus!
