use netsel::network::VirtualNetwork;
use netsel::protocol::handle_message;
use netsel::proxy::resolve_proxy_target;
use netsel::registry::ServiceRegistry;
use netsel::text::dec_string;
use netsel::text::ipv4_string;
use netsel::text::parse_ipv4;
use netsel::text::parse_u16;
use netsel::text::trim;
use netsel::text::trim_nulls;

#[test]
fn registration_round_trip_over_the_wire_format() {
    let mut reg = ServiceRegistry::new();
    let mut net = VirtualNetwork::new();
    // The frame arrives null-padded; the handler unpads it itself.
    let resp = handle_message(&mut reg, &mut net, "svc-a\0\0\0", 0);
    assert_eq!(resp, "SUCCESS|10.0.0.100|9000|86400\0");
    // A second client registering the identical name is refused; the
    // attempt still consumes an address, which is never handed out again.
    let resp2 = handle_message(&mut reg, &mut net, "svc-a", 1);
    assert_eq!(resp2, "FAILED|Service already registered or port unavailable\0");
    let resp3 = handle_message(&mut reg, &mut net, "svc-b", 2);
    assert_eq!(resp3, "SUCCESS|10.0.0.102|9001|86400\0");
}

#[test]
fn sequential_registrations_receive_distinct_addresses() {
    let mut reg = ServiceRegistry::new();
    let mut net = VirtualNetwork::new();
    let resp_a = handle_message(&mut reg, &mut net, "svc-a", 0);
    let resp_b = handle_message(&mut reg, &mut net, "svc-b", 1);
    assert_eq!(resp_a, "SUCCESS|10.0.0.100|9000|86400\0");
    assert_eq!(resp_b, "SUCCESS|10.0.0.101|9001|86400\0");
    assert_ne!(reg.get_service("svc-a").unwrap().ip, reg.get_service("svc-b").unwrap().ip);
}

#[test]
fn heartbeat_frames_answer_ok_or_failed() {
    let mut reg = ServiceRegistry::new();
    let mut net = VirtualNetwork::new();
    handle_message(&mut reg, &mut net, "svc-a", 0);
    assert_eq!(handle_message(&mut reg, &mut net, "HEARTBEAT|svc-a", 10), "HEARTBEAT_OK");
    assert_eq!(handle_message(&mut reg, &mut net, "HEARTBEAT|ghost", 10), "HEARTBEAT_FAILED");
    // The heartbeat does not register unknown names as a side effect.
    assert!(reg.get_service("ghost").is_none());
}

#[test]
fn heartbeat_name_is_trimmed_and_stops_at_the_next_separator() {
    let mut reg = ServiceRegistry::new();
    let mut net = VirtualNetwork::new();
    handle_message(&mut reg, &mut net, "svc-a", 0);
    assert_eq!(handle_message(&mut reg, &mut net, "HEARTBEAT| svc-a \0\0", 5), "HEARTBEAT_OK");
    assert_eq!(handle_message(&mut reg, &mut net, "HEARTBEAT|svc-a|junk", 6), "HEARTBEAT_OK");
    // Unicode whitespace around the name is trimmed, as the proxy does.
    assert_eq!(
        handle_message(&mut reg, &mut net, "HEARTBEAT|\u{00A0}svc-a\u{2003}", 7),
        "HEARTBEAT_OK"
    );
    assert_eq!(handle_message(&mut reg, &mut net, "HEARTBEAT|", 8), "HEARTBEAT_FAILED");
}

#[test]
fn a_heartbeat_before_expiry_resets_the_age_clock() {
    let mut reg = ServiceRegistry::new();
    let mut net = VirtualNetwork::new();
    handle_message(&mut reg, &mut net, "svc-a", 0);
    assert_eq!(handle_message(&mut reg, &mut net, "HEARTBEAT|svc-a", 50), "HEARTBEAT_OK");
    reg.cleanup_offline(60, 100);
    assert!(reg.get_service("svc-a").is_some());
}

#[test]
fn proxy_dispatch_resolves_a_ready_service() {
    let mut reg = ServiceRegistry::new();
    let mut net = VirtualNetwork::new();
    handle_message(&mut reg, &mut net, "svc-a", 0);
    let target = resolve_proxy_target(&reg, " svc-a \r\n").expect("service should resolve");
    assert_eq!(target.ip, 0x0A00_0064);
    assert_eq!(target.port, 9000);
    assert!(resolve_proxy_target(&reg, "unknown").is_none());
}

#[test]
fn expiry_then_reregistration_after_a_missed_heartbeat() {
    let mut reg = ServiceRegistry::new();
    let mut net = VirtualNetwork::new();
    handle_message(&mut reg, &mut net, "svc-b", 0);
    // No heartbeat for longer than the allowed age; the sweep evicts it.
    reg.cleanup_offline(60, 61);
    assert!(resolve_proxy_target(&reg, "svc-b").is_none());
    // A fresh registration of the same name succeeds again: the freed port
    // is reused, but the address allocator never walks backwards.
    let resp = handle_message(&mut reg, &mut net, "svc-b", 61);
    assert_eq!(resp, "SUCCESS|10.0.0.101|9000|86400\0");
    assert!(resolve_proxy_target(&reg, "svc-b").is_some());
}

#[test]
fn empty_and_whitespace_names_follow_the_registry_rules() {
    let mut reg = ServiceRegistry::new();
    let mut net = VirtualNetwork::new();
    // An all-null frame unpads to the empty name, which registers like any
    // other; a repeat is refused.
    let resp = handle_message(&mut reg, &mut net, "\0\0\0\0", 0);
    assert!(resp.starts_with("SUCCESS|"));
    let resp2 = handle_message(&mut reg, &mut net, "", 1);
    assert!(resp2.starts_with("FAILED|"));
}

#[test]
fn dotted_quad_rendering_matches_known_addresses() {
    assert_eq!(ipv4_string(0x0A00_0064), "10.0.0.100");
    assert_eq!(ipv4_string(0), "0.0.0.0");
    assert_eq!(ipv4_string(0xFFFF_FFFF), "255.255.255.255");
    assert_eq!(ipv4_string(0x7F00_0001), "127.0.0.1");
}

#[test]
fn decimal_rendering_matches_known_numbers() {
    assert_eq!(dec_string(0), "0");
    assert_eq!(dec_string(9000), "9000");
    assert_eq!(dec_string(65535), "65535");
}

#[test]
fn port_parsing_accepts_valid_and_rejects_invalid() {
    let s = "9000";
    assert_eq!(parse_u16(s, 0, s.len()), Some(9000));
    let max = "65535";
    assert_eq!(parse_u16(max, 0, max.len()), Some(65535));
    let over = "65536";
    assert_eq!(parse_u16(over, 0, over.len()), None);
    let junk = "90a0";
    assert_eq!(parse_u16(junk, 0, junk.len()), None);
    assert_eq!(parse_u16("", 0, 0), None);
}

#[test]
fn address_parsing_accepts_valid_and_rejects_invalid() {
    assert_eq!(parse_ipv4("10.0.0.100"), Some(0x0A00_0064));
    assert_eq!(parse_ipv4("255.255.255.255"), Some(0xFFFF_FFFF));
    assert_eq!(parse_ipv4("0.0.0.0"), Some(0));
    assert_eq!(parse_ipv4("10.0.0"), None);
    assert_eq!(parse_ipv4("10.0.0.0.1"), None);
    assert_eq!(parse_ipv4("10.0.0.256"), None);
    assert_eq!(parse_ipv4("10.0.x.1"), None);
}

#[test]
fn trimming_matches_the_frame_conventions() {
    assert_eq!(trim("  svc \t\r\n"), "svc");
    // Unicode whitespace is trimmed too, as str::trim would.
    assert_eq!(trim("\u{00A0}svc\u{2003}\u{3000}"), "svc");
    assert_eq!(trim("svc"), "svc");
    assert_eq!(trim("   "), "");
    assert_eq!(trim_nulls("svc\0\0"), "svc");
    assert_eq!(trim_nulls("\0\0"), "");
    // Null trimming touches only the padding, not inner nulls.
    assert_eq!(trim_nulls("a\0b\0"), "a\0b");
}

#[test]
fn stock_configuration_values() {
    let c = netsel::NetSelConfig::default();
    assert_eq!(c.registry_addr.ip, 0);
    assert_eq!(c.registry_addr.port, 9000);
    assert_eq!(c.tcp_proxy_addr.port, 8080);
    assert_eq!(c.http_proxy_addr.port, 8081);
    assert_eq!(c.dns_addr.ip, 0x7F00_0001);
    assert_eq!(c.dns_addr.port, 5353);
    assert_eq!(c.health_check_interval, 30);
    assert_eq!(c.max_heartbeat_age, 60);
}

#[test]
fn virtual_network_hands_out_sequential_internal_addresses() {
    let mut net = VirtualNetwork::new();
    let first = net.allocate_ip();
    let second = net.allocate_ip();
    assert_eq!(first, 0x0A00_0064);
    assert_eq!(second, 0x0A00_0065);
    assert!(net.is_internal_ip(first));
    assert!(net.is_internal_ip(0x0A00_00FF));
    assert!(!net.is_internal_ip(0x0A00_0100));
    assert!(!net.is_internal_ip(0x7F00_0001));
}
