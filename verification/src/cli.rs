//! The choices made from the command line that do not depend on how it is
//! parsed: the defaults and the host routing of the proxy.

use vstd::prelude::*;
use crate::daemon::routing::{normalize_domain_spec, routing_wf, HostRouting, RoutingError};
use crate::text::owned;

verus! {

/// The host suffix used when neither a suffix nor xip routing is given.
pub const DEFAULT_SUFFIX: &'static str = ".localhost";

/// The address on which the proxy listens by default.
pub const DEFAULT_LISTEN: &'static str = "127.0.0.1:8080";

/// The first port considered for automatic allocation, by default.
pub const DEFAULT_PORT_RANGE_START: u16 = 4000;

/// The last port considered for automatic allocation, by default.
pub const DEFAULT_PORT_RANGE_END: u16 = 4999;

/// The proxy's host routing: xip routing when both the zone and the address
/// are given, else suffix routing with `suffix` (`.localhost` by default).
pub fn host_routing(suffix: Option<String>, xip_domain: Option<&str>, xip_ip: Option<[u8; 4]>) -> (r: Result<
    HostRouting,
    RoutingError,
>)
    ensures
        r matches Ok(h) ==> routing_wf(h),
        match (xip_domain, xip_ip) {
            (Some(domain), Some(ip)) => match (r, normalize_domain_spec(domain@)) {
                (Ok(HostRouting::Xip(x)), Ok(d)) => x.domain_view() == d && x.ip_view() == ip@,
                (Err(e), Err(f)) => e == f,
                _ => false,
            },
            _ => r matches Ok(HostRouting::Suffix(s)) && s@ == match suffix {
                Some(t) => t@,
                None => DEFAULT_SUFFIX@,
            },
        },
{
    match (xip_domain, xip_ip) {
        (Some(domain), Some(ip)) => HostRouting::xip(domain, ip),
        _ => Ok(
            HostRouting::Suffix(
                match suffix {
                    Some(t) => t,
                    None => owned(DEFAULT_SUFFIX),
                },
            ),
        ),
    }
}

} // verus!
