use santa_session::registry::Registry;
use std::sync::mpsc::channel;

fn s(x: &str) -> String {
    x.to_string()
}

#[test]
fn register_same_key_twice_keeps_only_the_newer() {
    let mut reg: Registry<u32> = Registry::new();
    assert_eq!(reg.register(s("G"), s("a1"), 1).1, None);
    assert_eq!(reg.register(s("G"), s("a1"), 2).1, Some(1));
    let r = reg.recipients(&s("G"));
    assert_eq!(r, vec![&2]);
}

#[test]
fn displaced_handle_closed_does_not_affect_survivor() {
    let mut reg = Registry::new();
    let (tx_old, rx_old) = channel::<String>();
    let (tx_new, rx_new) = channel::<String>();
    assert!(reg.register(s("G"), s("a1"), tx_old).1.is_none());
    let displaced = reg.register(s("G"), s("a1"), tx_new).1.expect("old handle comes back");
    drop(displaced);
    drop(rx_old);
    for h in reg.recipients(&s("G")) {
        let _ = h.send(s("hello"));
    }
    assert_eq!(rx_new.recv().unwrap(), "hello");
}

#[test]
fn recipients_of_group_without_connections_is_empty() {
    let mut reg: Registry<u32> = Registry::new();
    assert!(reg.recipients(&s("G")).is_empty());
    reg.register(s("H"), s("x"), 7);
    assert!(reg.recipients(&s("G")).is_empty());
    assert_eq!(reg.recipients(&s("H")), vec![&7]);
}

#[test]
fn recipients_are_per_group_in_registration_order() {
    let mut reg: Registry<u32> = Registry::new();
    reg.register(s("G"), s("a"), 1);
    reg.register(s("H"), s("a"), 2);
    reg.register(s("G"), s("b"), 3);
    assert_eq!(reg.recipients(&s("G")), vec![&1, &3]);
    assert_eq!(reg.recipients(&s("H")), vec![&2]);
}

#[test]
fn unregister_removes_and_prunes_group() {
    let mut reg: Registry<u32> = Registry::new();
    reg.register(s("G"), s("a"), 1);
    reg.register(s("G"), s("b"), 2);
    assert_eq!(reg.unregister(&s("G"), &s("a")), Some(1));
    assert_eq!(reg.recipients(&s("G")), vec![&2]);
    assert_eq!(reg.unregister(&s("G"), &s("b")), Some(2));
    assert!(reg.recipients(&s("G")).is_empty());
}

#[test]
fn unregister_absent_key_is_a_no_op() {
    let mut reg: Registry<u32> = Registry::new();
    assert_eq!(reg.unregister(&s("G"), &s("a")), None);
    reg.register(s("G"), s("a"), 1);
    assert_eq!(reg.unregister(&s("G"), &s("z")), None);
    assert_eq!(reg.unregister(&s("Z"), &s("a")), None);
    assert_eq!(reg.recipients(&s("G")), vec![&1]);
}

#[test]
fn displaced_connection_cleanup_keeps_the_newer() {
    let mut reg: Registry<u32> = Registry::new();
    let (token_a, _) = reg.register(s("G"), s("a1"), 1);
    let (token_b, displaced) = reg.register(s("G"), s("a1"), 2);
    assert_eq!(displaced, Some(1));
    assert_ne!(token_a, token_b);
    assert_eq!(reg.unregister_own(&s("G"), &s("a1"), token_a), None);
    assert_eq!(reg.recipients(&s("G")), vec![&2]);
    assert_eq!(reg.unregister_own(&s("G"), &s("a1"), token_b), Some(2));
    assert!(reg.recipients(&s("G")).is_empty());
}

#[test]
fn unregister_own_on_absent_key_is_a_no_op() {
    let mut reg: Registry<u32> = Registry::new();
    let (token, _) = reg.register(s("G"), s("a"), 1);
    assert_eq!(reg.unregister_own(&s("G"), &s("b"), token), None);
    assert_eq!(reg.unregister_own(&s("H"), &s("a"), token), None);
    assert_eq!(reg.recipients(&s("G")), vec![&1]);
}

#[test]
fn tokens_are_fresh_per_registration() {
    let mut reg: Registry<u32> = Registry::new();
    assert!(reg.can_register());
    let (t1, _) = reg.register(s("G"), s("a"), 1);
    let (t2, _) = reg.register(s("G"), s("b"), 2);
    reg.unregister(&s("G"), &s("a"));
    let (t3, _) = reg.register(s("G"), s("a"), 3);
    assert!(t1 != t2 && t2 != t3 && t1 != t3);
}
