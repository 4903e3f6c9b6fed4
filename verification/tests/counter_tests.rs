use gossip_glomers::counter::{
    CounterMessage, CounterNode, CounterPayload, Pending, GLOBAL_KEY, PRECONDITION_FAILED, STORE_ID,
};
use gossip_glomers::error::NodeError;
use gossip_glomers::message::{Body, Message};
use gossip_glomers::sender::Sender;

fn counter_node(id: &str, next_id: u64) -> CounterNode {
    let ids = vec!["n0".to_string(), "n1".to_string(), "n2".to_string()];
    CounterNode::new(Sender::starting_at(id.to_string(), ids, next_id))
}

fn from_client(msg_id: u64, fields: CounterPayload) -> CounterMessage {
    Message {
        src: "c4".to_string(),
        dest: "n0".to_string(),
        body: Body { msg_id: Some(msg_id), in_reply_to: None, fields },
    }
}

fn from_store(in_reply_to: Option<u64>, fields: CounterPayload) -> CounterMessage {
    Message {
        src: STORE_ID.to_string(),
        dest: "n0".to_string(),
        body: Body { msg_id: Some(0), in_reply_to, fields },
    }
}

fn is_read_of_global(m: &CounterMessage) -> bool {
    m.dest == STORE_ID
        && m.body.in_reply_to.is_none()
        && matches!(&m.body.fields, CounterPayload::Read { key: Some(k) } if k == GLOBAL_KEY)
}

#[test]
fn the_store_is_addressed_by_its_names() {
    assert_eq!(STORE_ID, "seq-kv");
    assert_eq!(GLOBAL_KEY, "global");
    assert_eq!(PRECONDITION_FAILED, 22);
}

#[test]
fn a_new_counter_is_empty() {
    let node = counter_node("n0", 10);
    assert_eq!(node.delta(), 0);
    assert_eq!(node.last_known_global(), 0);
    assert_eq!(node.pending(), None);
}

#[test]
fn start_writes_zero_to_the_store() {
    let mut node = counter_node("n0", 10);
    let out = node.start().unwrap();
    assert_eq!(out.len(), 1);
    assert_eq!(out[0].src, "n0");
    assert_eq!(out[0].dest, STORE_ID);
    assert_eq!(out[0].body.msg_id, Some(10));
    assert_eq!(out[0].body.in_reply_to, None);
    match &out[0].body.fields {
        CounterPayload::Write { key, value } => assert_eq!((key.as_str(), *value), ("global", 0)),
        other => panic!("unexpected request {:?}", other),
    }
    assert_eq!(node.delta(), 0);
    assert_eq!(node.pending(), None);
    let mut last = counter_node("n0", u64::MAX);
    assert_eq!(last.start().unwrap_err(), NodeError::IdsExhausted);
}

#[test]
fn add_takes_the_increment_asks_the_store_and_acknowledges() {
    let mut node = counter_node("n0", 10);
    let out = node.add(&from_client(1, CounterPayload::Add { delta: 3 }), 3).unwrap();
    assert_eq!(node.delta(), 3);
    assert_eq!(node.last_known_global(), 0);
    assert_eq!(out.len(), 2);
    assert!(is_read_of_global(&out[0]));
    assert_eq!(out[0].src, "n0");
    assert_eq!(out[0].body.msg_id, Some(10));
    assert_eq!(out[1].dest, "c4");
    assert_eq!(out[1].body.msg_id, Some(11));
    assert_eq!(out[1].body.in_reply_to, Some(1));
    assert!(matches!(out[1].body.fields, CounterPayload::AddOk));
}

#[test]
fn add_fails_when_the_sum_does_not_fit() {
    let mut node = counter_node("n0", 10);
    node.add(&from_client(1, CounterPayload::Add { delta: u64::MAX }), u64::MAX).unwrap();
    let r = node.add(&from_client(2, CounterPayload::Add { delta: 1 }), 1);
    assert_eq!(r.unwrap_err(), NodeError::Overflow);
    assert_eq!(node.delta(), u64::MAX);
}

#[test]
fn add_fails_when_request_ids_run_out() {
    let mut node = counter_node("n0", u64::MAX - 1);
    let r = node.add(&from_client(1, CounterPayload::Add { delta: 3 }), 3);
    assert_eq!(r.unwrap_err(), NodeError::IdsExhausted);
    assert_eq!(node.delta(), 0);
}

#[test]
fn read_returns_the_value_observed_last() {
    let mut node = counter_node("n0", 10);
    node.observe(41).unwrap();
    let out = node.read(&from_client(6, CounterPayload::Read { key: None })).unwrap();
    assert_eq!(out.len(), 1);
    assert_eq!(out[0].dest, "c4");
    assert_eq!(out[0].body.in_reply_to, Some(6));
    assert!(matches!(out[0].body.fields, CounterPayload::ReadOk { value: 41 }));
}

#[test]
fn observe_without_increments_only_records_the_value() {
    let mut node = counter_node("n0", 10);
    let out = node.observe(9).unwrap();
    assert!(out.is_empty());
    assert_eq!(node.last_known_global(), 9);
    assert_eq!(node.pending(), None);
}

#[test]
fn observe_with_increments_starts_a_compare_and_swap() {
    let mut node = counter_node("n0", 10);
    node.add(&from_client(1, CounterPayload::Add { delta: 3 }), 3).unwrap();
    let out = node.observe(9).unwrap();
    assert_eq!(out.len(), 1);
    assert_eq!(out[0].dest, STORE_ID);
    assert_eq!(out[0].body.msg_id, Some(12));
    match &out[0].body.fields {
        CounterPayload::Cas { key, from, to, create_if_not_exists } => {
            assert_eq!(key, GLOBAL_KEY);
            assert_eq!((*from, *to, *create_if_not_exists), (9, 12, true));
        }
        other => panic!("unexpected request {:?}", other),
    }
    assert_eq!(node.last_known_global(), 9);
    assert_eq!(node.pending(), Some(Pending { id: 12, delta: 3, expected: 12 }));
}

#[test]
fn only_one_compare_and_swap_is_in_flight() {
    let mut node = counter_node("n0", 10);
    node.add(&from_client(1, CounterPayload::Add { delta: 3 }), 3).unwrap();
    node.observe(9).unwrap();
    node.add(&from_client(2, CounterPayload::Add { delta: 4 }), 4).unwrap();
    let out = node.observe(20).unwrap();
    assert!(out.is_empty());
    assert_eq!(node.last_known_global(), 20);
    assert_eq!(node.pending(), Some(Pending { id: 12, delta: 3, expected: 12 }));
    assert_eq!(node.delta(), 7);
}

#[test]
fn observe_fails_when_the_new_value_does_not_fit() {
    let mut node = counter_node("n0", 10);
    node.add(&from_client(1, CounterPayload::Add { delta: 3 }), 3).unwrap();
    let r = node.observe(u64::MAX - 2);
    assert_eq!(r.unwrap_err(), NodeError::Overflow);
    assert_eq!(node.last_known_global(), 0);
    assert_eq!(node.pending(), None);
}

#[test]
fn confirm_merges_the_increments_that_were_sent() {
    let mut node = counter_node("n0", 10);
    node.add(&from_client(1, CounterPayload::Add { delta: 3 }), 3).unwrap();
    node.observe(9).unwrap();
    node.add(&from_client(2, CounterPayload::Add { delta: 4 }), 4).unwrap();
    let out = node.confirm(Some(12)).unwrap();
    assert!(out.is_empty());
    assert_eq!(node.delta(), 4);
    assert_eq!(node.last_known_global(), 12);
    assert_eq!(node.pending(), None);
}

#[test]
fn confirm_of_nothing_in_flight_is_an_error() {
    let mut node = counter_node("n0", 10);
    assert_eq!(node.confirm(Some(12)).unwrap_err(), NodeError::UnmatchedReply);
    node.add(&from_client(1, CounterPayload::Add { delta: 3 }), 3).unwrap();
    node.observe(9).unwrap();
    assert_eq!(node.confirm(Some(13)).unwrap_err(), NodeError::UnmatchedReply);
    assert_eq!(node.confirm(None).unwrap_err(), NodeError::UnmatchedReply);
    assert_eq!(node.delta(), 3);
    assert_eq!(node.pending(), Some(Pending { id: 12, delta: 3, expected: 12 }));
}

#[test]
fn a_failed_precondition_is_retried() {
    let mut node = counter_node("n0", 10);
    node.add(&from_client(1, CounterPayload::Add { delta: 3 }), 3).unwrap();
    node.observe(9).unwrap();
    let out = node.reject(Some(12), 22).unwrap();
    assert_eq!(out.len(), 1);
    assert!(is_read_of_global(&out[0]));
    assert_eq!(out[0].body.msg_id, Some(13));
    assert_eq!(node.pending(), None);
    assert_eq!(node.delta(), 3);
    let out = node.observe(15).unwrap();
    assert!(matches!(out[0].body.fields, CounterPayload::Cas { from: 15, to: 18, .. }));
}

#[test]
fn a_failed_precondition_for_another_request_keeps_what_is_in_flight() {
    let mut node = counter_node("n0", 10);
    node.add(&from_client(1, CounterPayload::Add { delta: 3 }), 3).unwrap();
    node.observe(9).unwrap();
    let out = node.reject(Some(10), 22).unwrap();
    assert!(is_read_of_global(&out[0]));
    assert_eq!(node.pending(), Some(Pending { id: 12, delta: 3, expected: 12 }));
}

#[test]
fn any_other_store_error_stops_the_node() {
    let mut node = counter_node("n0", 10);
    assert_eq!(node.reject(Some(1), 20).unwrap_err(), NodeError::FatalStore { code: 20 });
    assert_eq!(node.reject(None, 0).unwrap_err(), NodeError::FatalStore { code: 0 });
    assert_eq!(node.reject(None, 23).unwrap_err(), NodeError::FatalStore { code: 23 });
}

#[test]
fn tick_asks_the_store() {
    let mut node = counter_node("n0", 10);
    let out = node.tick().unwrap();
    assert_eq!(out.len(), 1);
    assert!(is_read_of_global(&out[0]));
    assert_eq!(out[0].body.msg_id, Some(10));
}

#[test]
fn handle_routes_by_payload() {
    let mut node = counter_node("n0", 10);
    let out = node.handle(&from_client(1, CounterPayload::Add { delta: 5 })).unwrap();
    assert_eq!(out.len(), 2);
    assert_eq!(node.delta(), 5);
    let out = node.handle(&from_store(Some(10), CounterPayload::ReadOk { value: 2 })).unwrap();
    assert!(matches!(out[0].body.fields, CounterPayload::Cas { from: 2, to: 7, .. }));
    let id = out[0].body.msg_id;
    let out = node.handle(&from_store(id, CounterPayload::CasOk)).unwrap();
    assert!(out.is_empty());
    assert_eq!(node.delta(), 0);
    let out = node.handle(&from_client(2, CounterPayload::Read { key: None })).unwrap();
    assert!(matches!(out[0].body.fields, CounterPayload::ReadOk { value: 7 }));
    assert!(node.handle(&from_store(None, CounterPayload::WriteOk)).unwrap().is_empty());
    let out = node
        .handle(&from_store(Some(1), CounterPayload::Error { code: 22, text: "raced".to_string() }))
        .unwrap();
    assert!(is_read_of_global(&out[0]));
}

#[test]
fn handle_has_no_handler_for_requests_to_the_store() {
    let mut node = counter_node("n0", 10);
    let key = || "global".to_string();
    let refused = vec![
        CounterPayload::AddOk,
        CounterPayload::Read { key: Some(key()) },
        CounterPayload::Write { key: key(), value: 1 },
        CounterPayload::Cas { key: key(), from: 0, to: 1, create_if_not_exists: true },
    ];
    for payload in refused {
        assert_eq!(node.handle(&from_client(1, payload)).unwrap_err(), NodeError::UnsupportedType);
    }
    let r = node.handle(&from_store(None, CounterPayload::Error { code: 20, text: String::new() }));
    assert_eq!(r.unwrap_err(), NodeError::FatalStore { code: 20 });
}

/// A store that handles every request once and in order.
fn run_to_convergence(adds: &[(usize, u64)]) {
    let mut nodes: Vec<CounterNode> = (0..3).map(|i| counter_node(&format!("n{}", i), 1000 * i as u64)).collect();
    let mut store: u64 = 0;
    let mut total: u64 = 0;
    let mut to_store: Vec<(usize, CounterMessage)> = Vec::new();
    for node in nodes.iter_mut() {
        match node.start().unwrap().remove(0).body.fields {
            CounterPayload::Write { value, .. } => store = value,
            other => panic!("unexpected request {:?}", other),
        }
    }
    for (i, delta) in adds {
        let out = nodes[*i].handle(&from_client(1, CounterPayload::Add { delta: *delta })).unwrap();
        total += delta;
        to_store.extend(out.into_iter().filter(|m| m.dest == STORE_ID).map(|m| (*i, m)));
    }
    for _round in 0..4 {
        for i in 0..3 {
            to_store.extend(nodes[i].tick().unwrap().into_iter().map(|m| (i, m)));
        }
        while !to_store.is_empty() {
            let (i, request) = to_store.remove(0);
            let answer = match request.body.fields {
                CounterPayload::Read { .. } => CounterPayload::ReadOk { value: store },
                CounterPayload::Cas { from, to, .. } => {
                    if store == from {
                        store = to;
                        CounterPayload::CasOk
                    } else {
                        CounterPayload::Error { code: 22, text: "precondition failed".to_string() }
                    }
                }
                other => panic!("unexpected request {:?}", other),
            };
            let out = nodes[i].handle(&from_store(request.body.msg_id, answer)).unwrap();
            to_store.extend(out.into_iter().map(|m| (i, m)));
            for node in nodes.iter() {
                assert!(node.last_known_global() <= total);
            }
            assert!(store <= total);
        }
    }
    assert_eq!(store, total);
    for node in nodes.iter() {
        assert_eq!(node.delta(), 0);
        assert_eq!(node.pending(), None);
        assert_eq!(node.last_known_global(), total);
    }
}

#[test]
fn concurrent_adds_converge_on_their_sum() {
    run_to_convergence(&[(0, 3), (1, 4), (2, 5)]);
    run_to_convergence(&[(0, 1), (0, 1), (0, 1), (1, 10), (2, 100), (1, 7)]);
    run_to_convergence(&[]);
    run_to_convergence(&[(2, 0), (1, 9)]);
}
