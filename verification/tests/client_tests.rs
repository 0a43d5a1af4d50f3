use netsel::client::ServiceClient;
use netsel::network::SockAddr;

fn fresh_client(name: &str) -> ServiceClient {
    let broker = SockAddr { ip: 0x7F00_0001, port: 9000 };
    ServiceClient::new(broker, String::from(name))
}

#[test]
fn a_new_client_is_unregistered() {
    let client = fresh_client("my-service");
    assert!(!client.is_registered());
    assert!(client.get_assigned_addr().is_none());
}

#[test]
fn register_frame_is_the_padded_name() {
    let client = fresh_client("my-service");
    let frame = client.encode_register_frame();
    assert_eq!(frame.len(), 256);
    assert_eq!(&frame[..10], b"my-service");
    assert!(frame[10..].iter().all(|&b| b == 0));
}

#[test]
fn heartbeat_frame_is_the_padded_tagged_name() {
    let client = fresh_client("my-service");
    let frame = client.encode_heartbeat_frame();
    assert_eq!(frame.len(), 256);
    assert_eq!(&frame[..20], b"HEARTBEAT|my-service");
    assert!(frame[20..].iter().all(|&b| b == 0));
}

#[test]
fn a_success_response_registers_the_client() {
    let mut client = fresh_client("my-service");
    let r = client.apply_register_response("SUCCESS|10.0.0.100|9000|86400\0");
    assert_eq!(r, Some((0x0A00_0064, 9000)));
    assert!(client.is_registered());
    let addr = client.get_assigned_addr().expect("address should be recorded");
    assert_eq!(addr.ip, 0x0A00_0064);
    assert_eq!(addr.port, 9000);
}

#[test]
fn a_failure_response_leaves_the_client_untouched() {
    let mut client = fresh_client("my-service");
    let r = client.apply_register_response("FAILED|Service already registered or port unavailable\0");
    assert!(r.is_none());
    assert!(!client.is_registered());
    assert!(client.get_assigned_addr().is_none());
}

#[test]
fn malformed_responses_are_rejected() {
    let mut client = fresh_client("my-service");
    assert!(client.apply_register_response("").is_none());
    assert!(client.apply_register_response("SUCCESS").is_none());
    assert!(client.apply_register_response("SUCCESS|10.0.0.100|9000").is_none());
    assert!(client.apply_register_response("SUCCESS|not-an-ip|9000|86400\0").is_none());
    assert!(client.apply_register_response("SUCCESS|10.0.0.100|70000|86400\0").is_none());
    assert!(!client.is_registered());
}
