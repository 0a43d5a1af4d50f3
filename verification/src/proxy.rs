//! The proxy dispatch decision: given the first frame of an inbound
//! connection, resolve the named service through the registry and decide
//! whether — and to which backend address — the connection may be spliced.
//! The splice itself is a byte-transparent relay run by the caller.

use vstd::prelude::*;

use crate::network::SockAddr;
use crate::registry::ServiceRegistry;
use crate::registry::ServiceStatus;
use crate::text::spec_trim;
use crate::text::trim;

verus! {

/// Resolves a proxy request: the raw first frame is trimmed of whitespace
/// and looked up; the backend address comes back exactly when a record with
/// that name exists and is `Ready`.
pub fn resolve_proxy_target(registry: &ServiceRegistry, raw_name: &str) -> (target: Option<
    SockAddr,
>)
    requires
        registry.wf(),
    ensures
        ({
            let name = spec_trim(raw_name@);
            match target {
                Some(addr) => {
                    &&& registry.spec_contains(name)
                    &&& registry.spec_get(name).status == ServiceStatus::Ready
                    &&& addr == registry.spec_get(name).addr
                },
                None => !registry.spec_contains(name) || registry.spec_get(name).status
                    != ServiceStatus::Ready,
            }
        }),
{
    let name = trim(raw_name);
    match registry.get_service(name) {
        Some(info) => {
            if info.status == ServiceStatus::Ready {
                Some(info.addr)
            } else {
                None
            }
        },
        None => None,
    }
}

} // verus!
