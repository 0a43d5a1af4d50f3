//! The registration-side client state machine: it frames registration and
//! heartbeat requests, parses the broker's pipe-delimited response, and
//! records the assigned address. Opening connections and moving the frames
//! over them is the caller's business; the client hands out ready-to-send
//! byte frames and consumes the response text.

use vstd::prelude::*;

use vstd::utf8::encode_utf8;

use crate::network::SockAddr;
use crate::text::spec_find;
use crate::text::spec_parse_ipv4;
use crate::text::spec_parse_u16;
use crate::text::spec_trim_nulls;
use crate::text::find_char;
use crate::text::parse_ipv4;
use crate::text::parse_u16;
use crate::text::str_eq;
use crate::text::trim_nulls;

verus! {

/// The fixed size of a request frame in bytes.
pub open spec fn spec_frame_size() -> int {
    256
}

/// A payload null-padded to the fixed frame size.
pub open spec fn spec_padded_frame(payload: Seq<u8>) -> Seq<u8> {
    payload + Seq::new((spec_frame_size() - payload.len()) as nat, |i: int| 0u8)
}

/// What parsing a registration response yields: after unpadding, a frame of
/// at least four pipe-separated parts whose first is `SUCCESS`, whose second
/// is a dotted-quad address and whose third is a decimal port.
pub open spec fn spec_parse_response(raw: Seq<char>) -> Option<(u32, u16)> {
    let t = spec_trim_nulls(raw);
    match spec_find(t, 0, '|') {
        Some(i1) => {
            if t.subrange(0, i1) == "SUCCESS"@ {
                match spec_find(t, i1 + 1, '|') {
                    Some(i2) => match spec_find(t, i2 + 1, '|') {
                        Some(i3) => match (
                            spec_parse_ipv4(t.subrange(i1 + 1, i2)),
                            spec_parse_u16(t.subrange(i2 + 1, i3)),
                        ) {
                            (Some(ip), Some(port)) => Some((ip, port)),
                            _ => None,
                        },
                        None => None,
                    },
                    None => None,
                }
            } else {
                None
            }
        },
        None => None,
    }
}

/// A service's registration state against the broker: the broker's address,
/// this service's name, and — once registered — the assigned address.
pub struct ServiceClient {
    pub server_addr: SockAddr,
    pub hostname: String,
    pub registered: bool,
    pub assigned_ip: Option<u32>,
    pub assigned_port: Option<u16>,
}

impl Clone for ServiceClient {
    /// A field-for-field copy of the client's state.
    fn clone(&self) -> (c: ServiceClient)
        ensures
            c == *self,
    {
        ServiceClient {
            server_addr: self.server_addr,
            hostname: self.hostname.clone(),
            registered: self.registered,
            assigned_ip: self.assigned_ip,
            assigned_port: self.assigned_port,
        }
    }
}

impl ServiceClient {
    /// A fresh, unregistered client for `hostname` against the broker at
    /// `server_addr`.
    pub fn new(server_addr: SockAddr, hostname: String) -> (c: ServiceClient)
        ensures
            c.server_addr == server_addr,
            c.hostname == hostname,
            !c.registered,
            c.assigned_ip is None,
            c.assigned_port is None,
    {
        ServiceClient {
            server_addr,
            hostname,
            registered: false,
            assigned_ip: None,
            assigned_port: None,
        }
    }

    /// The registration request frame: the service name's bytes, null-padded
    /// to the fixed frame size.
    pub fn encode_register_frame(&self) -> (frame: Vec<u8>)
        requires
            encode_utf8(self.hostname@).len() <= spec_frame_size(),
        ensures
            frame@ == spec_padded_frame(encode_utf8(self.hostname@)),
    {
        let mut frame = self.hostname.as_str().as_bytes_vec();
        pad_frame(&mut frame);
        frame
    }

    /// The heartbeat request frame: the heartbeat prefix and the service
    /// name, null-padded to the fixed frame size.
    pub fn encode_heartbeat_frame(&self) -> (frame: Vec<u8>)
        requires
            encode_utf8("HEARTBEAT|"@ + self.hostname@).len() <= spec_frame_size(),
        ensures
            frame@ == spec_padded_frame(encode_utf8("HEARTBEAT|"@ + self.hostname@)),
    {
        let mut message = String::from_str("HEARTBEAT|");
        message.append(self.hostname.as_str());
        let mut frame = message.as_str().as_bytes_vec();
        pad_frame(&mut frame);
        frame
    }

    /// Consumes the broker's registration response: on a well-formed success
    /// response the client becomes registered at the returned address and
    /// port; any other response leaves the client untouched and yields
    /// nothing.
    pub fn apply_register_response(&mut self, response: &str) -> (r: Option<(u32, u16)>)
        ensures
            match spec_parse_response(response@) {
                Some(assigned) => {
                    &&& r == Some(assigned)
                    &&& final(self).registered
                    &&& final(self).assigned_ip == Some(assigned.0)
                    &&& final(self).assigned_port == Some(assigned.1)
                    &&& final(self).server_addr == old(self).server_addr
                    &&& final(self).hostname == old(self).hostname
                },
                None => r is None && *final(self) == *old(self),
            },
    {
        let t = trim_nulls(response);
        // Binds the text's length to a machine word, so that the separator
        // indices below can be stepped past without overflow.
        let _len: usize = t.unicode_len();
        let i1 = match find_char(t, 0, '|') {
            Some(i) => i,
            None => {
                return None;
            },
        };
        proof {
            crate::text::lemma_find_characterizes(t@, 0, '|');
        }
        let token = t.substring_char(0, i1);
        if !str_eq(token, "SUCCESS") {
            return None;
        }
        let i2 = match find_char(t, i1 + 1, '|') {
            Some(i) => i,
            None => {
                return None;
            },
        };
        proof {
            crate::text::lemma_find_characterizes(t@, i1 + 1, '|');
        }
        let i3 = match find_char(t, i2 + 1, '|') {
            Some(i) => i,
            None => {
                return None;
            },
        };
        proof {
            crate::text::lemma_find_characterizes(t@, i2 + 1, '|');
        }
        let ip_text = t.substring_char(i1 + 1, i2);
        let ip = match parse_ipv4(ip_text) {
            Some(v) => v,
            None => {
                return None;
            },
        };
        let port = match parse_u16(t, i2 + 1, i3) {
            Some(v) => v,
            None => {
                return None;
            },
        };
        self.registered = true;
        self.assigned_ip = Some(ip);
        self.assigned_port = Some(port);
        Some((ip, port))
    }

    /// The socket address assigned at registration, once both its parts are
    /// known.
    pub fn get_assigned_addr(&self) -> (r: Option<SockAddr>)
        ensures
            r == match (self.assigned_ip, self.assigned_port) {
                (Some(ip), Some(port)) => Some(SockAddr { ip, port }),
                _ => None,
            },
    {
        match (self.assigned_ip, self.assigned_port) {
            (Some(ip), Some(port)) => Some(SockAddr { ip, port }),
            _ => None,
        }
    }

    /// Whether this client has registered successfully.
    pub fn is_registered(&self) -> (r: bool)
        ensures
            r == self.registered,
    {
        self.registered
    }
}

/// Null-pads `frame` to the fixed frame size.
fn pad_frame(frame: &mut Vec<u8>)
    requires
        old(frame)@.len() <= spec_frame_size(),
    ensures
        final(frame)@ == spec_padded_frame(old(frame)@),
{
    while frame.len() < 256
        invariant
            old(frame)@.len() <= frame@.len() <= spec_frame_size(),
            frame@.subrange(0, old(frame)@.len() as int) == old(frame)@,
            forall|k: int| old(frame)@.len() <= k < frame@.len() ==> frame@[k] == 0u8,
        decreases 256 - frame@.len(),
    {
        frame.push(0u8);
        proof {
            assert(frame@.subrange(0, old(frame)@.len() as int) =~= old(frame)@);
        }
    }
    proof {
        assert(frame@ =~= spec_padded_frame(old(frame)@));
    }
}

} // verus!
