//! The proxy daemon's logic: host routing, request parsing, the service
//! registry and the status page.

pub mod routing;
pub mod http;
pub mod registry;
pub mod status;
pub mod requests;

use vstd::prelude::*;

verus! {

/// How long a TLS handshake may take, in seconds.
pub const TLS_HANDSHAKE_TIMEOUT_SECS: u64 = 10;

/// How long a client may take to send its request headers, in seconds.
pub const REQUEST_HEADER_TIMEOUT_SECS: u64 = 10;

/// How long the connection to a started service may take, in seconds.
pub const UPSTREAM_CONNECT_TIMEOUT_SECS: u64 = 5;

/// How long a request waits for a service to start, in seconds.
pub const START_TIMEOUT_SECS: u64 = 360;

/// The certificate chain and private key, PEM files, with which the proxy
/// terminates TLS.
#[derive(Debug, Clone)]
pub struct TlsConfig {
    pub cert: String,
    pub key: String,
}

} // verus!
