use reminder_bot::flag::Flag;

#[test]
fn set_is_idempotent_and_monotonic() {
    let mut flag = Flag::new();
    assert!(!flag.get());
    flag.set();
    assert!(flag.get());
    flag.set();
    assert!(flag.get());
}

#[test]
fn registrations_are_fresh_and_recycled() {
    let mut flag = Flag::new();
    let a = flag.register_new_task();
    let b = flag.register_new_task();
    assert_ne!(a, b);
    flag.discard_task(a);
    // The discarded identifier comes back; the registered one never does.
    let c = flag.register_new_task();
    assert_eq!(c, a);
    assert_ne!(c, b);
}

#[test]
fn discard_unknown_id_changes_nothing() {
    let mut flag = Flag::new();
    let a = flag.register_new_task();
    flag.discard_task(a + 100);
    flag.set();
    assert!(flag.get());
}

#[test]
fn set_keeps_waiters_registered() {
    let mut flag = Flag::new();
    let a = flag.register_new_task();
    flag.set();
    // A waiter registered before the set is still there to be woken, and can
    // then deregister.
    flag.discard_task(a);
    assert!(flag.get());
}
