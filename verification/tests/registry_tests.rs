use netsel::registry::PortPool;
use netsel::registry::ServiceRegistry;
use netsel::registry::ServiceStatus;

#[test]
fn pool_allocates_ascending_distinct_ports() {
    let mut pool = PortPool::new(9000, 9002);
    assert_eq!(pool.allocate(), Some(9000));
    assert_eq!(pool.allocate(), Some(9001));
    assert_eq!(pool.allocate(), Some(9002));
    assert_eq!(pool.allocate(), None);
}

#[test]
fn pool_release_frees_lowest_first() {
    let mut pool = PortPool::new(9000, 9002);
    assert_eq!(pool.allocate(), Some(9000));
    assert_eq!(pool.allocate(), Some(9001));
    pool.release(9000);
    assert_eq!(pool.allocate(), Some(9000));
    assert_eq!(pool.allocate(), Some(9002));
    assert_eq!(pool.allocate(), None);
}

#[test]
fn pool_release_is_idempotent_and_ignores_strangers() {
    let mut pool = PortPool::new(9000, 9001);
    assert_eq!(pool.allocate(), Some(9000));
    pool.release(9000);
    pool.release(9000);
    pool.release(12345);
    assert_eq!(pool.allocate(), Some(9000));
    assert_eq!(pool.allocate(), Some(9001));
    assert_eq!(pool.allocate(), None);
}

#[test]
fn pool_reversed_range_is_empty() {
    let mut pool = PortPool::new(9002, 9000);
    assert_eq!(pool.allocate(), None);
}

#[test]
fn register_assigns_first_port_and_fresh_timestamps() {
    let mut reg = ServiceRegistry::new();
    let info = reg
        .register(String::from("svc-a"), 0x0A00_0064, 5)
        .expect("registration should succeed");
    assert_eq!(info.hostname, "svc-a");
    assert_eq!(info.ip, 0x0A00_0064);
    assert_eq!(info.port, 9000);
    assert_eq!(info.addr.ip, 0x0A00_0064);
    assert_eq!(info.addr.port, 9000);
    assert_eq!(info.registered_at, 5);
    assert_eq!(info.last_heartbeat, 5);
    assert_eq!(info.status, ServiceStatus::Ready);
}

#[test]
fn lookup_right_after_register_sees_ready_record() {
    let mut reg = ServiceRegistry::new();
    reg.register(String::from("svc"), 7, 42).unwrap();
    let found = reg.get_service("svc").expect("lookup should find the record");
    assert_eq!(found.status, ServiceStatus::Ready);
    assert_eq!(found.last_heartbeat, found.registered_at);
    assert_eq!(found.last_heartbeat, 42);
    assert!(reg.get_service("other").is_none());
}

#[test]
fn duplicate_register_fails_without_touching_the_record() {
    let mut reg = ServiceRegistry::new();
    reg.register(String::from("svc"), 1, 10).unwrap();
    assert!(reg.register(String::from("svc"), 99, 999).is_none());
    let kept = reg.get_service("svc").unwrap();
    assert_eq!(kept.ip, 1);
    assert_eq!(kept.port, 9000);
    assert_eq!(kept.registered_at, 10);
    assert_eq!(kept.last_heartbeat, 10);
    assert_eq!(kept.status, ServiceStatus::Ready);
}

#[test]
fn distinct_names_get_distinct_ports() {
    let mut reg = ServiceRegistry::new();
    let a = reg.register(String::from("a"), 1, 0).unwrap();
    let b = reg.register(String::from("b"), 2, 0).unwrap();
    let c = reg.register(String::from("c"), 3, 0).unwrap();
    assert_eq!(a.port, 9000);
    assert_eq!(b.port, 9001);
    assert_eq!(c.port, 9002);
}

#[test]
fn unregister_releases_the_port_for_reuse() {
    let mut reg = ServiceRegistry::new();
    reg.register(String::from("a"), 1, 0).unwrap();
    reg.register(String::from("b"), 2, 0).unwrap();
    assert!(reg.unregister("a"));
    assert!(!reg.unregister("a"));
    assert!(reg.get_service("a").is_none());
    let again = reg.register(String::from("c"), 3, 1).unwrap();
    assert_eq!(again.port, 9000);
}

#[test]
fn heartbeat_unknown_name_fails_and_mutates_nothing() {
    let mut reg = ServiceRegistry::new();
    reg.register(String::from("svc"), 1, 10).unwrap();
    assert!(!reg.update_heartbeat("ghost", 50));
    let kept = reg.get_service("svc").unwrap();
    assert_eq!(kept.last_heartbeat, 10);
    assert!(reg.get_service("ghost").is_none());
}

#[test]
fn heartbeat_moves_the_clock_forward_never_back() {
    let mut reg = ServiceRegistry::new();
    reg.register(String::from("svc"), 1, 10).unwrap();
    assert!(reg.update_heartbeat("svc", 25));
    assert_eq!(reg.get_service("svc").unwrap().last_heartbeat, 25);
    // A reading older than the stored timestamp cannot move it backwards.
    assert!(reg.update_heartbeat("svc", 20));
    assert_eq!(reg.get_service("svc").unwrap().last_heartbeat, 25);
    assert_eq!(reg.get_service("svc").unwrap().status, ServiceStatus::Ready);
    assert_eq!(reg.get_service("svc").unwrap().registered_at, 10);
}

#[test]
fn cleanup_removes_exactly_the_expired_and_frees_their_ports() {
    let mut reg = ServiceRegistry::new();
    reg.register(String::from("old"), 1, 0).unwrap();
    reg.register(String::from("mid"), 2, 30).unwrap();
    reg.register(String::from("new"), 3, 90).unwrap();
    // Ages at instant 100: 100, 70, 10. Timeout 60 expires "old" and "mid".
    reg.cleanup_offline(60, 100);
    assert!(reg.get_service("old").is_none());
    assert!(reg.get_service("mid").is_none());
    assert!(reg.get_service("new").is_some());
    // The freed ports 9000 and 9001 are allocatable again, lowest first.
    let a = reg.register(String::from("a"), 4, 100).unwrap();
    let b = reg.register(String::from("b"), 5, 100).unwrap();
    assert_eq!(a.port, 9000);
    assert_eq!(b.port, 9001);
}

#[test]
fn cleanup_keeps_a_record_exactly_at_the_age_limit() {
    let mut reg = ServiceRegistry::new();
    reg.register(String::from("edge"), 1, 40).unwrap();
    // Age is exactly the timeout: not strictly greater, so it survives.
    reg.cleanup_offline(60, 100);
    assert!(reg.get_service("edge").is_some());
    reg.cleanup_offline(60, 101);
    assert!(reg.get_service("edge").is_none());
}

#[test]
fn a_heartbeat_postpones_expiry() {
    let mut reg = ServiceRegistry::new();
    reg.register(String::from("svc"), 1, 0).unwrap();
    assert!(reg.update_heartbeat("svc", 50));
    reg.cleanup_offline(60, 100);
    assert!(reg.get_service("svc").is_some());
    reg.cleanup_offline(60, 111);
    assert!(reg.get_service("svc").is_none());
}
