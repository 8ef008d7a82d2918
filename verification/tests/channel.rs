use pub_sub::SendError;
use pub_sub::TryRecvError;
use pub_sub::new;

#[test]
fn fan_out_duplication() {
    let (mut c, r1) = new::<u64>();
    let r2 = c.subscribe();
    assert_ne!(r1, r2);
    c.send(41).unwrap();
    assert_eq!(c.try_recv(r1), Ok(41));
    assert_eq!(c.try_recv(r2), Ok(41));
}

#[test]
fn post_drop_exclusion() {
    let (mut c, r1) = new::<u64>();
    let r2 = c.subscribe();
    c.unsubscribe(r2);
    assert!(!c.is_registered(r2));
    c.send(7).unwrap();
    assert_eq!(c.try_recv(r1), Ok(7));
    assert_eq!(c.try_recv(r2), Err(TryRecvError::Disconnected));
}

#[test]
fn fifo_per_subscriber() {
    let (mut c, r1) = new::<u64>();
    let r2 = c.subscribe();
    for v in 1..=6u64 {
        c.send(v).unwrap();
    }
    for v in 1..=6u64 {
        assert_eq!(c.try_recv(r1), Ok(v));
    }
    assert_eq!(c.try_recv(r1), Err(TryRecvError::Empty));
    for v in 1..=6u64 {
        assert_eq!(c.try_recv(r2), Ok(v));
    }
}

#[test]
fn fan_out_count() {
    // Five producers sending fifty distinct values each: every subscriber
    // ends up holding exactly five times fifty values.
    let (mut c, r1) = new::<u64>();
    let r2 = c.subscribe();
    let r3 = c.subscribe();
    let senders: u64 = 5;
    let pulses: u64 = 50;
    for s in 0..senders {
        for p in 0..pulses {
            c.send(s * pulses + p).unwrap();
        }
    }
    for r in [r1, r2, r3] {
        let mut count: u64 = 0;
        while let Ok(_) = c.try_recv(r) {
            count += 1;
        }
        assert_eq!(count, senders * pulses);
        assert_eq!(c.try_recv(r), Err(TryRecvError::Empty));
    }
}

#[test]
fn idempotent_destruction() {
    let (mut c, r1) = new::<u64>();
    let r2 = c.subscribe();
    c.unsubscribe(r2);
    c.unsubscribe(r2);
    assert!(c.is_registered(r1));
    c.send(3).unwrap();
    assert_eq!(c.try_recv(r1), Ok(3));
}

#[test]
fn no_cross_talk() {
    let (mut c1, a) = new::<u64>();
    let (mut c2, b) = new::<u64>();
    c1.send(10).unwrap();
    c2.send(20).unwrap();
    assert_eq!(c1.try_recv(a), Ok(10));
    assert_eq!(c1.try_recv(a), Err(TryRecvError::Empty));
    assert_eq!(c2.try_recv(b), Ok(20));
    assert_eq!(c2.try_recv(b), Err(TryRecvError::Empty));
}

#[test]
fn concrete_scenario() {
    let (mut c, r) = new::<u64>();
    let r2 = c.subscribe();
    c.send(1).unwrap();
    assert_eq!(c.try_recv(r), Ok(1));
    assert_eq!(c.try_recv(r2), Ok(1));
    c.unsubscribe(r2);
    c.send(2).unwrap();
    assert_eq!(c.try_recv(r), Ok(2));
    assert!(!c.is_registered(r2));
    assert_eq!(c.pending_len(r2), 0);
}

#[test]
fn send_stops_at_dead_consumer() {
    // A consumer end destroyed while its registry entry is still present
    // makes the broadcast fail and stop: earlier subscribers keep their
    // copy, later ones never see one.
    let (mut c, r1) = new::<u64>();
    let r2 = c.subscribe();
    let r3 = c.subscribe();
    c.close(r2);
    assert!(c.is_registered(r2));
    match c.send(9) {
        Err(SendError(v)) => assert_eq!(v, 9),
        Ok(()) => panic!("send should fail while a dead consumer is registered"),
    }
    assert_eq!(c.pending_len(r1), 1);
    assert_eq!(c.try_recv(r1), Ok(9));
    assert_eq!(c.pending_len(r3), 0);
    assert_eq!(c.try_recv(r3), Err(TryRecvError::Empty));
}

#[test]
fn drain_after_deregister() {
    // Removing the registry entry keeps already-queued values receivable;
    // once drained, the queue reports itself disconnected.
    let (mut c, r1) = new::<u64>();
    c.send(1).unwrap();
    c.send(2).unwrap();
    c.deregister(r1);
    c.send(3).unwrap();
    assert_eq!(c.try_recv(r1), Ok(1));
    assert_eq!(c.try_recv(r1), Ok(2));
    assert_eq!(c.try_recv(r1), Err(TryRecvError::Disconnected));
}

#[test]
fn deregister_unknown_is_noop() {
    let (mut c, r1) = new::<u64>();
    c.deregister(r1 + 1);
    c.close(r1 + 1);
    c.unsubscribe(r1 + 1);
    c.send(5).unwrap();
    assert_eq!(c.try_recv(r1), Ok(5));
}

#[test]
fn identifiers_are_fresh() {
    let (mut c, r1) = new::<u64>();
    let mut seen = vec![r1];
    for _ in 0..8 {
        assert!(c.has_fresh_ids());
        let id = c.subscribe();
        assert!(!seen.contains(&id));
        seen.push(id);
    }
}

#[test]
fn cloned_values_are_delivered() {
    let (mut c, r1) = new::<String>();
    let r2 = c.subscribe();
    c.send(String::from("pulse")).unwrap();
    assert_eq!(c.try_recv(r1), Ok(String::from("pulse")));
    assert_eq!(c.try_recv(r2), Ok(String::from("pulse")));
}

#[test]
fn empty_before_any_send() {
    let (mut c, r1) = new::<u64>();
    assert_eq!(c.try_recv(r1), Err(TryRecvError::Empty));
}
