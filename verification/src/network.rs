//! The virtual network model: IPv4 addresses as 32-bit integers, socket
//! addresses as an address/port pair, and the forward-only address allocator.

use vstd::prelude::*;

verus! {

/// A socket address inside the broker's virtual network: an IPv4 address in
/// network integer form (`10.0.0.100` is `0x0A000064`) and a TCP port.
#[derive(Clone, Copy, PartialEq, Eq, Structural, Debug)]
pub struct SockAddr {
    pub ip: u32,
    pub port: u16,
}

/// Hands out virtual IPv4 addresses from a fixed /24-style range by moving a
/// counter forward; no address is ever reclaimed. Also answers whether an
/// address belongs to the managed subnet.
pub struct VirtualNetwork {
    pub base_ip: u32,
    pub next_ip: u32,
    pub subnet_mask: u32,
}

impl VirtualNetwork {
    /// The allocator after one allocation: the counter stepped forward,
    /// wrapping at the top of the 32-bit space.
    pub open spec fn spec_step(self) -> VirtualNetwork {
        VirtualNetwork {
            base_ip: self.base_ip,
            next_ip: if self.next_ip == u32::MAX {
                0u32
            } else {
                (self.next_ip + 1) as u32
            },
            subnet_mask: self.subnet_mask,
        }
    }

    /// A fresh allocator over `10.0.0.0/24`, whose first allocation is
    /// `10.0.0.100`.
    pub fn new() -> (net: VirtualNetwork)
        ensures
            net.base_ip == 0x0A000000,
            net.next_ip == 0x0A000064,
            net.subnet_mask == 0xFFFFFF00,
    {
        VirtualNetwork {
            base_ip: 0x0A00_0000,
            next_ip: 0x0A00_0064,
            subnet_mask: 0xFFFF_FF00,
        }
    }

    /// Returns the next address in the monotone sequence and steps the
    /// counter, wrapping at the top of the 32-bit space.
    pub fn allocate_ip(&mut self) -> (ip: u32)
        ensures
            ip == old(self).next_ip,
            *final(self) == old(self).spec_step(),
    {
        let ip = self.next_ip;
        if self.next_ip == u32::MAX {
            self.next_ip = 0;
        } else {
            self.next_ip = self.next_ip + 1;
        }
        ip
    }

    /// Whether `ip` falls inside the managed subnet: the masked bits of `ip`
    /// equal the masked bits of the subnet base.
    pub fn is_internal_ip(&self, ip: u32) -> (r: bool)
        ensures
            r == ((ip & self.subnet_mask) == (self.base_ip
                & self.subnet_mask)),
    {
        (ip & self.subnet_mask) == (self.base_ip & self.subnet_mask)
    }
}

} // verus!
