use conn_manager::table::{ConsumerEndpoint, RouteOutcome, RoutingTable, QUEUE_DEPTH};

fn key(s: &str) -> String {
    s.to_string()
}

fn drain(table: &mut RoutingTable, endpoint: &ConsumerEndpoint) -> Vec<String> {
    let mut out = Vec::new();
    while let Some(p) = table.take(endpoint) {
        out.push(p);
    }
    out
}

#[test]
fn new_table_is_empty() {
    let table = RoutingTable::new();
    assert_eq!(table.len(), 0);
    assert_eq!(table.lookup(&key("x")), None);
}

#[test]
fn queue_depth_is_ten() {
    assert_eq!(QUEUE_DEPTH, 10);
}

#[test]
fn register_hands_out_slots_in_order() {
    let mut table = RoutingTable::new();
    let a = table.register(key("a"), 4);
    let b = table.register(key("b"), 4);
    assert_eq!(a.id(), 0);
    assert_eq!(b.id(), 1);
    assert_eq!(table.len(), 2);
    assert_eq!(table.lookup(&key("a")), Some(a));
    assert_eq!(table.lookup(&key("b")), Some(b));
    assert_eq!(table.pending(&a), 0);
}

#[test]
fn frames_reach_the_consumer_in_arrival_order() {
    let mut table = RoutingTable::new();
    let logs = table.register(key("logs"), 10);
    assert_eq!(table.route(&key("logs"), key("first")), RouteOutcome::Delivered);
    assert_eq!(table.route(&key("logs"), key("second")), RouteOutcome::Delivered);
    assert_eq!(table.route(&key("logs"), key("third")), RouteOutcome::Delivered);
    assert_eq!(table.pending(&logs), 3);
    assert_eq!(table.take(&logs), Some(key("first")));
    assert_eq!(table.take(&logs), Some(key("second")));
    assert_eq!(table.take(&logs), Some(key("third")));
    assert_eq!(table.take(&logs), None);
}

#[test]
fn order_holds_across_takes() {
    let mut table = RoutingTable::new();
    let c = table.register(key("c"), 2);
    table.route(&key("c"), key("1"));
    table.route(&key("c"), key("2"));
    assert_eq!(table.take(&c), Some(key("1")));
    table.route(&key("c"), key("3"));
    assert_eq!(drain(&mut table, &c), vec![key("2"), key("3")]);
}

#[test]
fn a_frame_is_seen_on_its_own_channel_only() {
    let mut table = RoutingTable::new();
    let a = table.register(key("a"), 10);
    let b = table.register(key("b"), 10);
    assert_eq!(table.route(&key("a"), key("for a")), RouteOutcome::Delivered);
    assert_eq!(table.pending(&b), 0);
    assert_eq!(table.take(&b), None);
    assert_eq!(table.take(&a), Some(key("for a")));
}

#[test]
fn interleaved_channels_keep_their_own_order() {
    let mut table = RoutingTable::new();
    let a = table.register(key("a"), 10);
    let b = table.register(key("b"), 10);
    table.route(&key("a"), key("a1"));
    table.route(&key("b"), key("b1"));
    table.route(&key("a"), key("a2"));
    table.route(&key("b"), key("b2"));
    assert_eq!(drain(&mut table, &b), vec![key("b1"), key("b2")]);
    assert_eq!(drain(&mut table, &a), vec![key("a1"), key("a2")]);
}

#[test]
fn a_frame_for_nobody_is_dropped() {
    let mut table = RoutingTable::new();
    assert_eq!(table.route(&key("metrics"), key("42")), RouteOutcome::NoConsumer);
    let logs = table.register(key("logs"), 10);
    assert_eq!(table.route(&key("metrics"), key("42")), RouteOutcome::NoConsumer);
    assert_eq!(table.len(), 1);
    assert_eq!(table.pending(&logs), 0);
}

#[test]
fn frames_before_registration_are_not_kept() {
    let mut table = RoutingTable::new();
    assert_eq!(table.route(&key("late"), key("early frame")), RouteOutcome::NoConsumer);
    let late = table.register(key("late"), 10);
    assert_eq!(table.take(&late), None);
}

#[test]
fn a_full_queue_drops_the_newest_frame() {
    let mut table = RoutingTable::new();
    let c = table.register(key("c"), QUEUE_DEPTH);
    for i in 0..QUEUE_DEPTH {
        assert_eq!(table.route(&key("c"), format!("{}", i)), RouteOutcome::Delivered);
    }
    assert_eq!(table.route(&key("c"), key("overflow")), RouteOutcome::Saturated);
    assert_eq!(table.pending(&c), 10);
    let got = drain(&mut table, &c);
    let expected: Vec<String> = (0..10).map(|i| format!("{}", i)).collect();
    assert_eq!(got, expected);
}

#[test]
fn a_drained_queue_takes_frames_again() {
    let mut table = RoutingTable::new();
    let c = table.register(key("c"), 1);
    assert_eq!(table.route(&key("c"), key("1")), RouteOutcome::Delivered);
    assert_eq!(table.route(&key("c"), key("2")), RouteOutcome::Saturated);
    assert_eq!(table.take(&c), Some(key("1")));
    assert_eq!(table.route(&key("c"), key("3")), RouteOutcome::Delivered);
    assert_eq!(table.take(&c), Some(key("3")));
}

#[test]
fn a_queue_of_depth_zero_takes_nothing() {
    let mut table = RoutingTable::new();
    let c = table.register(key("c"), 0);
    assert_eq!(table.route(&key("c"), key("1")), RouteOutcome::Saturated);
    assert_eq!(table.take(&c), None);
}

#[test]
fn registering_again_replaces_the_consumer() {
    let mut table = RoutingTable::new();
    let first = table.register(key("x"), 10);
    table.route(&key("x"), key("before"));
    let second = table.register(key("x"), 10);
    assert_ne!(first, second);
    assert_eq!(table.lookup(&key("x")), Some(second));
    assert_eq!(table.route(&key("x"), key("after")), RouteOutcome::Delivered);
    assert_eq!(drain(&mut table, &second), vec![key("after")]);
    assert_eq!(drain(&mut table, &first), vec![key("before")]);
    assert_eq!(table.route(&key("x"), key("later")), RouteOutcome::Delivered);
    assert_eq!(table.take(&first), None);
    assert_eq!(table.take(&second), Some(key("later")));
}

#[test]
fn an_endpoint_the_table_does_not_know_gets_nothing() {
    let mut other = RoutingTable::new();
    other.register(key("a"), 1);
    let stranger = other.register(key("b"), 1);
    let mut table = RoutingTable::new();
    let a = table.register(key("a"), 1);
    table.route(&key("a"), key("1"));
    assert_eq!(table.take(&stranger), None);
    assert_eq!(table.pending(&stranger), 0);
    assert_eq!(table.take(&a), Some(key("1")));
}

#[test]
fn keys_are_compared_exactly() {
    let mut table = RoutingTable::new();
    let c = table.register(key("logs"), 10);
    assert_eq!(table.route(&key("Logs"), key("1")), RouteOutcome::NoConsumer);
    assert_eq!(table.route(&key("logs "), key("2")), RouteOutcome::NoConsumer);
    assert_eq!(table.route(&key(""), key("3")), RouteOutcome::NoConsumer);
    assert_eq!(table.pending(&c), 0);
    let empty = table.register(key(""), 10);
    assert_eq!(table.route(&key(""), key("4")), RouteOutcome::Delivered);
    assert_eq!(table.take(&empty), Some(key("4")));
}

#[test]
fn a_mixed_run_is_sorted_out_by_channel() {
    let mut table = RoutingTable::new();
    let a = table.register(key("a"), 2);
    let b = table.register(key("b"), 3);
    let run = [
        ("a", "a1"),
        ("x", "lost"),
        ("b", "b1"),
        ("a", "a2"),
        ("a", "a3"),
        ("b", "b2"),
        ("x", "lost too"),
        ("b", "b3"),
        ("b", "b4"),
    ];
    let mut outcomes = Vec::new();
    for (to, payload) in run {
        outcomes.push(table.route(&key(to), key(payload)));
    }
    assert_eq!(
        outcomes,
        vec![
            RouteOutcome::Delivered,
            RouteOutcome::NoConsumer,
            RouteOutcome::Delivered,
            RouteOutcome::Delivered,
            RouteOutcome::Saturated,
            RouteOutcome::Delivered,
            RouteOutcome::NoConsumer,
            RouteOutcome::Delivered,
            RouteOutcome::Saturated,
        ]
    );
    assert_eq!(drain(&mut table, &a), vec![key("a1"), key("a2")]);
    assert_eq!(drain(&mut table, &b), vec![key("b1"), key("b2"), key("b3")]);
}
