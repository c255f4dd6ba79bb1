use mousehole::sse::{Delivery, SseRegistry, FRAME};

fn sorted(mut ids: Vec<u64>) -> Vec<u64> {
    ids.sort();
    ids
}

#[test]
fn notify_reaches_all_and_close_ends_session_streams() {
    let mut reg = SseRegistry::new();
    let a = reg.register("sess-a");
    let b = reg.register(""); // token client
    assert_eq!(sorted(reg.notify()), vec![a, b]);
    assert_eq!(FRAME, "data: changed\n\n");

    // a's stream is to be ended
    assert_eq!(reg.close_session_streams("sess-a"), vec![a]);
    // token stream unaffected
    assert_eq!(reg.notify(), vec![b]);
}

#[test]
fn dropping_the_guard_unregisters() {
    let mut reg = SseRegistry::new();
    {
        let id = reg.register("s");
        assert_eq!(reg.client_count(), 1);
        reg.unregister(id);
    }
    assert_eq!(reg.client_count(), 0);
}

#[test]
fn the_empty_session_closes_nothing() {
    let mut reg = SseRegistry::default();
    reg.register("");
    reg.register("");
    assert!(reg.close_session_streams("").is_empty());
    assert_eq!(reg.client_count(), 2);
}

#[test]
fn only_clients_that_are_gone_are_dropped() {
    let mut reg = SseRegistry::new();
    let a = reg.register("s");
    let b = reg.register("s");
    let c = reg.register("s");
    reg.settle(a, Delivery::Delivered);
    reg.settle(b, Delivery::Full);
    reg.settle(c, Delivery::Closed);
    assert_eq!(sorted(reg.notify()), vec![a, b]);
    reg.unregister(99);
    assert_eq!(reg.client_count(), 2);
}

#[test]
fn every_stream_of_a_session_is_closed() {
    let mut reg = SseRegistry::new();
    let a = reg.register("x");
    let b = reg.register("y");
    let c = reg.register("x");
    assert!(a != b && b != c && a != c);
    assert_eq!(sorted(reg.close_session_streams("x")), vec![a, c]);
    assert!(reg.close_session_streams("x").is_empty());
    assert_eq!(reg.notify(), vec![b]);
}
