use chat_relay::events::Action;
use chat_relay::events::Event;
use chat_relay::events::ReadOutcome;
use chat_relay::relay::payload_prefix;
use chat_relay::relay::Relay;

fn accept_one(r: &mut Relay) -> u64 {
    match r.dispatch(Event::ListenerReady { accepted: true }) {
        Action::Register(id) => id,
        other => panic!("expected Register, got {:?}", other),
    }
}

fn send(r: &mut Relay, token: u64, bytes: &[u8]) -> (Vec<u64>, Vec<u8>) {
    let outcome = ReadOutcome::Data(bytes.to_vec());
    match r.dispatch(Event::ClientReady { token, outcome }) {
        Action::FanOut { targets, payload } => (targets, payload),
        other => panic!("expected FanOut, got {:?}", other),
    }
}

fn close(r: &mut Relay, token: u64) {
    match r.dispatch(Event::ClientReady { token, outcome: ReadOutcome::Closed }) {
        Action::Deregister(id) => assert_eq!(id, token),
        other => panic!("expected Deregister, got {:?}", other),
    }
}

#[test]
fn fresh_relay_is_empty() {
    let r = Relay::new();
    assert_eq!(r.client_count(), 0);
    assert_eq!(r.upcoming_token(), 1);
    assert!(!r.is_registered(0));
    assert!(!r.is_registered(1));
}

#[test]
fn accepts_assign_consecutive_identifiers() {
    let mut r = Relay::new();
    assert_eq!(accept_one(&mut r), 1);
    assert_eq!(accept_one(&mut r), 2);
    assert_eq!(accept_one(&mut r), 3);
    assert_eq!(r.client_count(), 3);
    assert_eq!(r.upcoming_token(), 4);
    assert!(r.is_registered(1) && r.is_registered(2) && r.is_registered(3));
}

#[test]
fn listener_identifier_never_assigned() {
    let mut r = Relay::new();
    for _ in 0..10 {
        let id = accept_one(&mut r);
        assert_ne!(id, 0);
    }
    assert!(!r.is_registered(0));
}

#[test]
fn three_clients_first_sends_hi() {
    let mut r = Relay::new();
    let a = accept_one(&mut r);
    let b = accept_one(&mut r);
    let c = accept_one(&mut r);
    let (targets, payload) = send(&mut r, a, b"hi");
    assert_eq!(payload, b"hi".to_vec());
    assert_eq!(payload.len(), 2);
    assert_eq!(targets, vec![b, c]);
    assert!(!targets.contains(&a));
    assert_eq!(r.client_count(), 3);
}

#[test]
fn disconnect_then_send_reaches_only_remaining_peer() {
    let mut r = Relay::new();
    let a = accept_one(&mut r);
    let b = accept_one(&mut r);
    let c = accept_one(&mut r);
    close(&mut r, b);
    assert!(!r.is_registered(b));
    assert_eq!(r.client_count(), 2);
    let (targets, payload) = send(&mut r, a, b"yo");
    assert_eq!(payload, b"yo".to_vec());
    assert_eq!(targets, vec![c]);
    assert!(!targets.contains(&b));
    assert!(!targets.contains(&a));
}

#[test]
fn hundred_clients_each_reach_the_other_ninety_nine() {
    let mut r = Relay::new();
    let mut ids: Vec<u64> = Vec::new();
    for _ in 0..100 {
        ids.push(accept_one(&mut r));
    }
    assert_eq!(r.client_count(), 100);
    for &sender in &ids {
        let bytes = [sender as u8, (sender >> 8) as u8, 0xAB, 0xCD];
        let (targets, payload) = send(&mut r, sender, &bytes);
        assert_eq!(payload, bytes.to_vec());
        assert_eq!(payload.len(), 4);
        assert_eq!(targets.len(), 99);
        assert!(!targets.contains(&sender));
        for &other in &ids {
            if other != sender {
                assert!(targets.contains(&other));
            }
        }
    }
}

#[test]
fn lone_client_fans_out_to_nobody() {
    let mut r = Relay::new();
    let a = accept_one(&mut r);
    let (targets, payload) = send(&mut r, a, b"solo");
    assert_eq!(payload, b"solo".to_vec());
    assert!(targets.is_empty());
    assert!(r.is_registered(a));
}

#[test]
fn spurious_listener_event_changes_nothing() {
    let mut r = Relay::new();
    let a = accept_one(&mut r);
    let count = r.client_count();
    let upcoming = r.upcoming_token();
    let act = r.dispatch(Event::ListenerReady { accepted: false });
    assert!(matches!(act, Action::NoOp));
    assert_eq!(r.client_count(), count);
    assert_eq!(r.upcoming_token(), upcoming);
    assert!(r.is_registered(a));
}

#[test]
fn identifiers_are_never_reused() {
    let mut r = Relay::new();
    let _a = accept_one(&mut r);
    let b = accept_one(&mut r);
    let _c = accept_one(&mut r);
    close(&mut r, b);
    let d = accept_one(&mut r);
    assert_eq!(d, 4);
    assert_ne!(d, b);
    let e = accept_one(&mut r);
    assert_eq!(e, 5);
}

#[test]
fn read_error_keeps_client_registered() {
    let mut r = Relay::new();
    let a = accept_one(&mut r);
    let b = accept_one(&mut r);
    let act = r.dispatch(Event::ClientReady { token: b, outcome: ReadOutcome::Failed });
    assert!(matches!(act, Action::NoOp));
    assert!(r.is_registered(b));
    let (targets, _) = send(&mut r, a, b"x");
    assert!(targets.contains(&b));
}

#[test]
fn events_for_unknown_identifiers_are_ignored() {
    let mut r = Relay::new();
    let _a = accept_one(&mut r);
    let act = r.dispatch(Event::ClientReady {
        token: 99,
        outcome: ReadOutcome::Data(b"ghost".to_vec()),
    });
    assert!(matches!(act, Action::NoOp));
    let act = r.dispatch(Event::ClientReady { token: 99, outcome: ReadOutcome::Closed });
    assert!(matches!(act, Action::NoOp));
    assert_eq!(r.client_count(), 1);
}

#[test]
fn closing_twice_is_ignored_the_second_time() {
    let mut r = Relay::new();
    let a = accept_one(&mut r);
    close(&mut r, a);
    let act = r.dispatch(Event::ClientReady { token: a, outcome: ReadOutcome::Closed });
    assert!(matches!(act, Action::NoOp));
    assert_eq!(r.client_count(), 0);
}

#[test]
fn payload_prefix_takes_exactly_the_first_bytes() {
    let buffer: Vec<u8> = vec![10, 20, 30, 40, 50];
    assert_eq!(payload_prefix(&buffer, 3), vec![10, 20, 30]);
    assert_eq!(payload_prefix(&buffer, 0), Vec::<u8>::new());
    assert_eq!(payload_prefix(&buffer, 5), buffer);
}
