use ballballu::session::SessionRegistry;

#[test]
fn ids_are_monotonic_and_never_reused() {
    let mut reg = SessionRegistry::new();
    let a = reg.allocate_id();
    let b = reg.allocate_id();
    assert_eq!(a, 1);
    assert_eq!(b, 2);
    reg.register(a);
    reg.register(b);
    assert!(reg.is_registered(a));
    reg.unregister(a);
    assert!(!reg.is_registered(a));
    assert!(reg.is_registered(b));
    // a later allocation never hands back a retired id
    let c = reg.allocate_id();
    assert_eq!(c, 3);
}

#[test]
fn unregister_is_idempotent() {
    let mut reg = SessionRegistry::new();
    let a = reg.allocate_id();
    reg.register(a);
    reg.unregister(a);
    reg.unregister(a);
    assert!(!reg.is_registered(a));
}
