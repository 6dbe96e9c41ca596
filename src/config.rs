//! The configuration model and the command-line overlay.
use vstd::prelude::*;

use crate::models::RpcEndpoint;

verus! {

/// The address used when neither the file nor the command line gives one.
pub open spec fn default_ip() -> Seq<char> {
    "127.0.0.1"@
}

/// The port used when neither the file nor the command line gives one.
pub const DEFAULT_PORT: u16 = 3000;

/// Where the API listens; each part may be left unset.
#[derive(Debug, Clone)]
pub struct ServerConfig {
    pub listen_ip: Option<String>,
    pub port: Option<u16>,
}

/// The endpoint registry.
#[derive(Debug, Clone)]
pub struct RpcConfig {
    pub endpoints: Vec<RpcEndpoint>,
}

/// The whole configuration file.
#[derive(Debug, Clone)]
pub struct AppConfig {
    pub server: ServerConfig,
    pub rpc: RpcConfig,
}

impl AppConfig {
    /// Lays the command-line values over the file's: each one given replaces
    /// the file's value, each one absent leaves it.
    pub fn apply_overrides(&mut self, listen_ip: Option<String>, port: Option<u16>)
        ensures
            final(self).rpc == old(self).rpc,
            final(self).server.listen_ip == match listen_ip {
                Some(ip) => Some(ip),
                None => old(self).server.listen_ip,
            },
            final(self).server.port == match port {
                Some(p) => Some(p),
                None => old(self).server.port,
            },
    {
        if let Some(ip) = listen_ip {
            self.server.listen_ip = Some(ip);
        }
        if let Some(p) = port {
            self.server.port = Some(p);
        }
    }

    /// The address and port to listen on, with the defaults filled in.
    pub fn listen_address(&self) -> (r: (String, u16))
        ensures
            r.0@ == match self.server.listen_ip {
                Some(ip) => ip@,
                None => default_ip(),
            },
            r.1 == match self.server.port {
                Some(p) => p,
                None => DEFAULT_PORT,
            },
    {
        let ip = match &self.server.listen_ip {
            Some(ip) => ip.clone(),
            None => String::from_str("127.0.0.1"),
        };
        let port = match self.server.port {
            Some(p) => p,
            None => DEFAULT_PORT,
        };
        (ip, port)
    }
}

} // verus!
