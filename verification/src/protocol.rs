//! The registration/heartbeat wire protocol: request decoding, response
//! encoding, and the single-request handler that the server runs per
//! connection.
//!
//! A request frame is the null-padded content of a fixed 256-byte buffer:
//! either a bare service name (a registration) or the literal prefix
//! `HEARTBEAT|` followed by the service name (a heartbeat). Responses are
//! `SUCCESS|<ip>|<port>|<lease-seconds>` or `FAILED|<reason>`, each with a
//! trailing null, for registrations, and the bare tokens `HEARTBEAT_OK` /
//! `HEARTBEAT_FAILED` for heartbeats.

use vstd::prelude::*;

use crate::network::VirtualNetwork;
use crate::registry::ServiceRegistry;
use crate::registry::spec_heartbeat_effect;
use crate::registry::spec_pool_exhausted;
use crate::registry::spec_register_effect;
use crate::registry::ServiceInfo;
use crate::text::spec_dec;
use crate::text::spec_find;
use crate::text::spec_has_at;
use crate::text::spec_ipv4;
use crate::text::spec_trim;
use crate::text::spec_trim_nulls;
use crate::text::find_char;
use crate::text::has_at;
use crate::text::trim;
use crate::text::trim_nulls;

verus! {

/// A decoded request frame.
pub enum Request {
    /// A heartbeat naming the service to renew.
    Heartbeat(String),
    /// A registration carrying the bare service name.
    Register(String),
}

/// Whether the unpadded message is a heartbeat: it starts with the literal
/// prefix `HEARTBEAT|`.
pub open spec fn spec_is_heartbeat(m: Seq<char>) -> bool {
    spec_has_at(m, 0, "HEARTBEAT|"@)
}

/// The service name a heartbeat message carries: the token between the
/// prefix's separator and the next separator (or the end), trimmed of
/// whitespace.
pub open spec fn spec_heartbeat_name(m: Seq<char>) -> Seq<char> {
    let p = "HEARTBEAT|"@.len() as int;
    match spec_find(m, p, '|') {
        Some(k) => spec_trim(m.subrange(p, k)),
        None => spec_trim(m.subrange(p, m.len() as int)),
    }
}

/// Decodes an unpadded request message: a message with the heartbeat prefix
/// is a heartbeat for the name it carries; anything else is a registration
/// of the whole message as a service name.
pub fn decode_request(message: &str) -> (req: Request)
    ensures
        ({
            let m = message@;
            match req {
                Request::Heartbeat(name) => spec_is_heartbeat(m) && name@
                    == spec_heartbeat_name(m),
                Request::Register(name) => !spec_is_heartbeat(m) && name@ == m,
            }
        }),
{
    if has_at(message, 0, "HEARTBEAT|") {
        let p = "HEARTBEAT|".unicode_len();
        let len = message.unicode_len();
        let token = match find_char(message, p, '|') {
            Some(k) => {
                proof {
                    crate::text::lemma_find_characterizes(message@, p as int, '|');
                }
                message.substring_char(p, k)
            },
            None => message.substring_char(p, len),
        };
        Request::Heartbeat(String::from_str(trim(token)))
    } else {
        Request::Register(String::from_str(message))
    }
}

/// The success response for a registration: the assigned address and port in
/// text, the advisory lease-duration hint, and a trailing null.
pub open spec fn spec_success_response(info: ServiceInfo) -> Seq<char> {
    "SUCCESS|"@ + spec_ipv4(info.ip) + "|"@ + spec_dec(info.port as int) + "|86400\0"@
}

/// What one request does to the registry and the shared address allocator,
/// and what it answers. The raw frame content is unpadded first. A heartbeat
/// renews the named record, touches no address, and answers `HEARTBEAT_OK`
/// or `HEARTBEAT_FAILED`. A registration draws the allocator's next address
/// — stepping the counter forward whether or not the registration succeeds,
/// so an address is never handed out twice — and either inserts a record at
/// that address and answers with its address and port, or answers
/// `FAILED|...` with the registry unchanged.
pub open spec fn spec_handle_effect(
    r0: ServiceRegistry,
    r1: ServiceRegistry,
    net0: VirtualNetwork,
    net1: VirtualNetwork,
    raw: Seq<char>,
    now: u64,
    resp: Seq<char>,
) -> bool {
    let m = spec_trim_nulls(raw);
    if spec_is_heartbeat(m) {
        let name = spec_heartbeat_name(m);
        &&& net1 == net0
        &&& spec_heartbeat_effect(r0, r1, r0.spec_contains(name), name, now)
        &&& resp == if r0.spec_contains(name) {
            "HEARTBEAT_OK"@
        } else {
            "HEARTBEAT_FAILED"@
        }
    } else {
        &&& net1 == net0.spec_step()
        &&& if r0.spec_contains(m) || spec_pool_exhausted(r0.port_pool) {
            &&& r1 == r0
            &&& resp == "FAILED|Service already registered or port unavailable\0"@
        } else {
            exists|info: ServiceInfo|
                {
                    &&& #[trigger] spec_register_effect(
                        r0,
                        r1,
                        Some(info),
                        m,
                        net0.next_ip,
                        now,
                    )
                    &&& resp == spec_success_response(info)
                }
        }
    }
}

/// Registrations served in sequence from one shared allocator receive
/// distinct addresses: the second request draws from the stepped allocator,
/// whose next address differs from the one just issued.
pub proof fn lemma_consecutive_addresses_distinct(
    r0: ServiceRegistry,
    r1: ServiceRegistry,
    r2: ServiceRegistry,
    net0: VirtualNetwork,
    net1: VirtualNetwork,
    info1: ServiceInfo,
    info2: ServiceInfo,
    m1: Seq<char>,
    m2: Seq<char>,
    now1: u64,
    now2: u64,
)
    requires
        net1 == net0.spec_step(),
        spec_register_effect(r0, r1, Some(info1), m1, net0.next_ip, now1),
        spec_register_effect(r1, r2, Some(info2), m2, net1.next_ip, now2),
    ensures
        info1.ip != info2.ip,
{
}

/// The response the server writes for a successful registration is exactly
/// what the client's parser accepts: parsing it back yields the record's
/// address and port.
pub proof fn lemma_response_round_trip(info: ServiceInfo)
    ensures
        crate::client::spec_parse_response(spec_success_response(info)) == Some(
            (info.ip, info.port),
        ),
{
    reveal_strlit("SUCCESS|");
    reveal_strlit("SUCCESS");
    reveal_strlit("|");
    reveal_strlit("|86400\0");
    let ip = info.ip;
    let port = info.port;
    let si = crate::text::spec_ipv4(ip);
    let sp = spec_dec(port as int);
    let tail = "|86400\0"@;
    crate::text::lemma_ipv4_chars(ip);
    crate::text::lemma_dec_numeral_value(port as int);
    crate::text::lemma_ipv4_round_trip(ip);
    crate::text::lemma_port_round_trip(port);

    let r = spec_success_response(info);
    let li = si.len() as int;
    let lp = sp.len() as int;
    assert("SUCCESS|"@.len() == 8);
    assert(tail.len() == 7);
    assert(r.len() == 16 + li + lp);

    // Where each character of the response comes from.
    assert(forall|j: int| 0 <= j < 8 ==> r[j] == "SUCCESS|"@[j]);
    assert(forall|j: int| 8 <= j < 8 + li ==> r[j] == si[j - 8]);
    assert(r[8 + li] == '|');
    assert(forall|j: int| 9 + li <= j < 9 + li + lp ==> r[j] == sp[j - 9 - li]);
    assert(forall|j: int| 9 + li + lp <= j < r.len() ==> r[j] == tail[j - 9 - li - lp]);
    assert(r[9 + li + lp] == '|');

    // Unpadding strips exactly the one trailing null.
    let t = r.subrange(0, r.len() - 1);
    assert(r[r.len() - 1] == tail[6]);
    assert(spec_trim_nulls(r) == spec_trim_nulls(t));
    assert(t[t.len() - 1] == tail[5]);
    assert(spec_trim_nulls(t) == t);

    // The separators stand exactly where the encoder put them.
    assert(forall|j: int| 0 <= j < 7 ==> t[j] != '|');
    assert(t[7] == '|');
    crate::text::lemma_find_is(t, 0, '|', 7);
    assert(forall|j: int| 8 <= j < 8 + li ==> t[j] != '|');
    assert(t[8 + li] == '|');
    crate::text::lemma_find_is(t, 8, '|', 8 + li);
    assert(forall|j: int| 9 + li <= j < 9 + li + lp ==> t[j] != '|');
    assert(t[9 + li + lp] == '|');
    crate::text::lemma_find_is(t, 9 + li, '|', 9 + li + lp);

    // The token and the two value segments read back as written.
    assert(t.subrange(0, 7) =~= "SUCCESS"@);
    assert(t.subrange(8, 8 + li) =~= si);
    assert(t.subrange(9 + li, 9 + li + lp) =~= sp);
}

/// Serves one request frame against the registry and the shared address
/// allocator at instant `now`, and returns the response to write back.
pub fn handle_message(
    registry: &mut ServiceRegistry,
    net: &mut VirtualNetwork,
    message: &str,
    now: u64,
) -> (resp: String)
    requires
        old(registry).wf(),
    ensures
        final(registry).wf(),
        spec_handle_effect(
            *old(registry),
            *final(registry),
            *old(net),
            *final(net),
            message@,
            now,
            resp@,
        ),
{
    let msg = trim_nulls(message);
    match decode_request(msg) {
        Request::Heartbeat(name) => {
            let found = registry.update_heartbeat(name.as_str(), now);
            if found {
                String::from_str("HEARTBEAT_OK")
            } else {
                String::from_str("HEARTBEAT_FAILED")
            }
        },
        Request::Register(hostname) => {
            let ip = net.allocate_ip();
            match registry.register(hostname, ip, now) {
                Some(info) => {
                    let mut resp = String::from_str("SUCCESS|");
                    resp.append(crate::text::ipv4_string(info.ip).as_str());
                    resp.append("|");
                    resp.append(crate::text::dec_string(info.port as u64).as_str());
                    resp.append("|86400\0");
                    proof {
                        assert(resp@ =~= spec_success_response(info));
                        assert(spec_register_effect(
                            *old(registry),
                            *registry,
                            Some(info),
                            spec_trim_nulls(message@),
                            old(net).next_ip,
                            now,
                        ));
                    }
                    resp
                },
                None => String::from_str(
                    "FAILED|Service already registered or port unavailable\0",
                ),
            }
        },
    }
}

} // verus!
