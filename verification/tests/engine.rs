use delay_queue::msg_type::{rdb_load, rdb_save, Mode, MsgHeap};
use delay_queue::queue_manager::handle_heap_msg;
use delay_queue::{push_delay_message, PushError, NANOS_PER_SECOND, SLEEP_SECOND};

const NOW: u64 = 1_700_000_000 * NANOS_PER_SECOND;

fn parsed(payload: &str) -> serde_json::Value {
    serde_json::from_str(payload).unwrap()
}

#[test]
fn push_returns_id_and_stores_message() {
    let mut heap = MsgHeap::new();
    let id = push_delay_message(
        &mut heap,
        "orders".to_string(),
        "hello".to_string(),
        "2",
        "p2p",
        NOW,
    )
    .unwrap();
    assert_eq!(id.len(), 32);
    assert_eq!(heap.len(), 1);
    let m = heap.peek().unwrap();
    assert_eq!(m.id, id);
    assert_eq!(m.queue_name, "orders");
    assert_eq!(m.msg, "hello");
    assert_eq!(m.delay_time, NOW + 2 * NANOS_PER_SECOND);
    assert_eq!(m.mode, Mode::P2P);
}

#[test]
fn push_rejects_bad_mode_without_side_effect() {
    let mut heap = MsgHeap::new();
    let r = push_delay_message(
        &mut heap,
        "orders".to_string(),
        "hello".to_string(),
        "2",
        "multicast",
        NOW,
    );
    assert_eq!(r.unwrap_err(), PushError::InvalidMode);
    assert_eq!(heap.len(), 0);
}

#[test]
fn push_rejects_bad_delay_without_side_effect() {
    let mut heap = MsgHeap::new();
    for delay in ["", "abc", "-1", "2.5", "18446744073709551616"] {
        let r = push_delay_message(
            &mut heap,
            "orders".to_string(),
            "hello".to_string(),
            delay,
            "p2p",
            NOW,
        );
        assert_eq!(r.unwrap_err(), PushError::InvalidDelay);
        assert_eq!(heap.len(), 0);
    }
}

#[test]
fn push_rejects_delay_beyond_range() {
    let mut heap = MsgHeap::new();
    // the delay itself parses, but the deadline would not fit in 64 bits
    let r = push_delay_message(
        &mut heap,
        "orders".to_string(),
        "hello".to_string(),
        "18446744073",
        "p2p",
        NOW,
    );
    assert_eq!(r.unwrap_err(), PushError::InvalidDelay);
    assert_eq!(heap.len(), 0);
}

#[test]
fn drain_leaves_future_messages_and_arms_deadline() {
    let mut heap = MsgHeap::new();
    push_delay_message(&mut heap, "orders".to_string(), "hello".to_string(), "2", "p2p", NOW)
        .unwrap();
    let (calls, sleep) = handle_heap_msg(&mut heap, NOW);
    assert!(calls.is_empty());
    assert_eq!(sleep, 2 * NANOS_PER_SECOND);
    assert_eq!(heap.len(), 1);
}

#[test]
fn concrete_scenario_p2p_and_broadcast() {
    let mut heap = MsgHeap::new();
    let id = push_delay_message(&mut heap, "orders".to_string(), "hello".to_string(), "2", "p2p", NOW)
        .unwrap();

    // after two seconds have passed, exactly one list append to "orders"
    let (calls, _) = handle_heap_msg(&mut heap, NOW + 2 * NANOS_PER_SECOND);
    assert_eq!(calls.len(), 1);
    assert_eq!(calls[0].command, "RPUSH");
    assert_eq!(calls[0].queue_name, "orders");
    let v = parsed(&calls[0].payload);
    assert_eq!(v.get("msg").unwrap().as_str().unwrap(), "hello");
    assert_eq!(v.get("id").unwrap().as_str().unwrap(), id);
    assert_eq!(
        v.get("delay_time").unwrap().as_u64().unwrap(),
        (NOW + 2 * NANOS_PER_SECOND) / NANOS_PER_SECOND
    );
    assert!(heap.is_empty());

    // a broadcast with no delay goes out on the next wake
    push_delay_message(&mut heap, "alerts".to_string(), "fire".to_string(), "0", "broadcast", NOW)
        .unwrap();
    let (calls, sleep) = handle_heap_msg(&mut heap, NOW);
    assert_eq!(calls.len(), 1);
    assert_eq!(calls[0].command, "PUBLISH");
    assert_eq!(calls[0].queue_name, "alerts");
    let v = parsed(&calls[0].payload);
    assert_eq!(v.get("msg").unwrap().as_str().unwrap(), "fire");
    assert_eq!(v.get("mode").unwrap().as_str().unwrap(), "broadcast");
    assert_eq!(sleep, SLEEP_SECOND * NANOS_PER_SECOND);
}

#[test]
fn burst_of_five_due_messages_drains_in_one_wake() {
    let mut heap = MsgHeap::new();
    for i in 0..5 {
        push_delay_message(
            &mut heap,
            format!("q{i}"),
            format!("m{i}"),
            "0",
            "p2p",
            NOW,
        )
        .unwrap();
    }
    let (calls, sleep) = handle_heap_msg(&mut heap, NOW);
    assert_eq!(calls.len(), 5);
    assert!(heap.is_empty());
    assert_eq!(sleep, SLEEP_SECOND * NANOS_PER_SECOND);
    let mut queues: Vec<String> = calls.iter().map(|c| c.queue_name.clone()).collect();
    queues.sort();
    assert_eq!(queues, vec!["q0", "q1", "q2", "q3", "q4"]);
}

#[test]
fn dispatch_order_is_non_decreasing_in_deadline() {
    let mut heap = MsgHeap::new();
    for delay in ["3", "1", "4", "1", "5", "9", "2", "6"] {
        push_delay_message(&mut heap, "q".to_string(), delay.to_string(), delay, "p2p", NOW)
            .unwrap();
    }
    let (calls, _) = handle_heap_msg(&mut heap, NOW + 9 * NANOS_PER_SECOND);
    assert_eq!(calls.len(), 8);
    let times: Vec<u64> = calls
        .iter()
        .map(|c| parsed(&c.payload).get("delay_time").unwrap().as_u64().unwrap())
        .collect();
    for w in times.windows(2) {
        assert!(w[0] <= w[1]);
    }
}

#[test]
fn no_message_dispatched_before_its_deadline() {
    let mut heap = MsgHeap::new();
    for delay in ["0", "1", "2", "3"] {
        push_delay_message(&mut heap, "q".to_string(), delay.to_string(), delay, "p2p", NOW)
            .unwrap();
    }
    let mut dispatched = 0;
    for step in 0..4u64 {
        let now = NOW + step * NANOS_PER_SECOND;
        let (calls, _) = handle_heap_msg(&mut heap, now);
        for c in &calls {
            let due = parsed(&c.payload).get("delay_time").unwrap().as_u64().unwrap();
            assert!(due * NANOS_PER_SECOND <= now);
        }
        dispatched += calls.len();
    }
    assert_eq!(dispatched, 4);
    assert!(heap.is_empty());
}

#[test]
fn restart_recovers_pending_messages() {
    let mut heap = MsgHeap::new();
    let mut ids = Vec::new();
    for (queue, delay) in [("a", "1"), ("b", "2"), ("c", "3")] {
        let id = push_delay_message(
            &mut heap,
            queue.to_string(),
            format!("payload-{queue}"),
            delay,
            "p2p",
            NOW,
        )
        .unwrap();
        ids.push(id);
    }

    // simulate a process restart: persist, then reload into a fresh store
    let fields = rdb_save(&heap);
    let mut recovered = rdb_load(&fields).unwrap();
    assert_eq!(recovered.len(), 3);

    let mut seen = Vec::new();
    for step in 1..=3u64 {
        let now = NOW + step * NANOS_PER_SECOND;
        let (calls, _) = handle_heap_msg(&mut recovered, now);
        assert_eq!(calls.len(), 1);
        let v = parsed(&calls[0].payload);
        // dispatched exactly at its original deadline
        assert_eq!(v.get("delay_time").unwrap().as_u64().unwrap(), now / NANOS_PER_SECOND);
        seen.push(v.get("id").unwrap().as_str().unwrap().to_string());
    }
    assert!(recovered.is_empty());
    let mut want = ids.clone();
    want.sort();
    seen.sort();
    assert_eq!(seen, want);
}
