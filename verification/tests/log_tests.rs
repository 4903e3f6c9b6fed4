use gossip_glomers::error::NodeError;
use gossip_glomers::log::{binary_search, LogMessage, LogNode, LogPayload, LogService, POLL_CAP};
use gossip_glomers::message::{Body, Message};
use gossip_glomers::sender::Sender;
use gossip_glomers::strmap::StrMap;

fn log_with_offsets(offsets: &[i64]) -> LogService {
    let mut service = LogService::new();
    for (i, offset) in offsets.iter().enumerate() {
        assert_eq!(service.send_at("k", 100 + i, *offset), Ok(*offset));
    }
    service
}

fn ask_for(key: &str, offset: i64) -> StrMap<i64> {
    let mut ask: StrMap<i64> = StrMap::new();
    ask.insert(key.to_string(), offset);
    ask
}

fn log_request(msg_id: Option<u64>, fields: LogPayload) -> LogMessage {
    Message {
        src: "c7".to_string(),
        dest: "n0".to_string(),
        body: Body { msg_id, in_reply_to: None, fields },
    }
}

fn log_node() -> LogNode {
    LogNode::new(Sender::starting_at("n0".to_string(), vec!["n0".to_string()], 40))
}

#[test]
fn binary_search_finds_first_offset_at_or_after() {
    let log: Vec<(i64, usize)> = vec![(0, 7), (10, 8), (20, 9)];
    assert_eq!(binary_search(&log, 11), 2);
    assert_eq!(binary_search(&log, 10), 1);
    assert_eq!(binary_search(&log, 0), 0);
    assert_eq!(binary_search(&log, -5), 0);
    assert_eq!(binary_search(&log, 20), 2);
    assert_eq!(binary_search(&log, 25), 3);
}

#[test]
fn binary_search_on_empty_and_single_logs() {
    let empty: Vec<(i64, usize)> = vec![];
    assert_eq!(binary_search(&empty, 3), 0);
    let one: Vec<(i64, usize)> = vec![(5, 1)];
    assert_eq!(binary_search(&one, 4), 0);
    assert_eq!(binary_search(&one, 5), 0);
    assert_eq!(binary_search(&one, 6), 1);
}

#[test]
fn binary_search_agrees_with_a_linear_scan() {
    let log: Vec<(i64, u8)> = (0..37).map(|i| (i * 3 - 20, 0u8)).collect();
    for target in -25..100 {
        let expected = log.iter().position(|e| e.0 >= target).unwrap_or(log.len());
        assert_eq!(binary_search(&log, target), expected);
    }
}

#[test]
fn poll_between_offsets_starts_at_the_next_entry() {
    let service = log_with_offsets(&[0, 10, 20]);
    let got = service.poll(&ask_for("k", 11));
    assert_eq!(got.len(), 1);
    assert_eq!(got.get("k"), Some(&vec![(20i64, 102usize)]));
}

#[test]
fn poll_from_the_first_offset_returns_everything() {
    let service = log_with_offsets(&[0, 10, 20]);
    let got = service.poll(&ask_for("k", 0));
    assert_eq!(got.get("k"), Some(&vec![(0i64, 100usize), (10, 101), (20, 102)]));
}

#[test]
fn poll_past_the_last_offset_returns_an_empty_sequence() {
    let service = log_with_offsets(&[0, 10, 20]);
    let got = service.poll(&ask_for("k", 25));
    assert_eq!(got.get("k"), Some(&vec![]));
}

#[test]
fn poll_leaves_out_keys_without_a_log() {
    let service = log_with_offsets(&[0, 10, 20]);
    let mut ask = ask_for("k", 10);
    ask.insert("missing".to_string(), 0);
    let got = service.poll(&ask);
    assert_eq!(got.len(), 1);
    assert!(got.get("missing").is_none());
    assert_eq!(got.get("k"), Some(&vec![(10i64, 101usize), (20, 102)]));
}

#[test]
fn poll_returns_at_most_the_cap() {
    let offsets: Vec<i64> = (0..15).map(|i| i * 2).collect();
    let service = log_with_offsets(&offsets);
    let got = service.poll(&ask_for("k", 5));
    let entries = got.get("k").unwrap();
    assert_eq!(POLL_CAP, 10);
    assert_eq!(entries.len(), 10);
    assert_eq!(entries[0], (6, 103));
    assert_eq!(entries[9], (24, 112));
}

#[test]
fn send_at_takes_the_clock_when_it_is_ahead() {
    let mut service = LogService::new();
    assert_eq!(service.send_at("a", 1, 500), Ok(500));
    assert_eq!(service.send_at("a", 2, 700), Ok(700));
}

#[test]
fn send_at_steps_past_the_last_offset_when_the_clock_is_not_ahead() {
    let mut service = LogService::new();
    assert_eq!(service.send_at("a", 1, 500), Ok(500));
    assert_eq!(service.send_at("a", 2, 500), Ok(501));
    assert_eq!(service.send_at("a", 3, -9), Ok(502));
    assert_eq!(service.send_at("b", 4, -9), Ok(-9));
}

#[test]
fn send_at_fails_when_no_offset_is_left() {
    let mut service = LogService::new();
    assert_eq!(service.send_at("a", 1, i64::MAX), Ok(i64::MAX));
    assert_eq!(service.send_at("a", 2, 0), Err(NodeError::OffsetsExhausted));
    let got = service.poll(&ask_for("a", 0));
    assert_eq!(got.get("a"), Some(&vec![(i64::MAX, 1usize)]));
}

#[test]
fn two_sends_to_one_key_return_increasing_offsets() {
    let mut service = LogService::new();
    let first = service.send("k", 11).unwrap();
    let second = service.send("k", 12).unwrap();
    let third = service.send("k", 13).unwrap();
    assert!(first < second);
    assert!(second < third);
    let got = service.poll(&ask_for("k", second));
    assert_eq!(got.get("k"), Some(&vec![(second, 12usize), (third, 13)]));
    let got = service.poll(&ask_for("k", first));
    assert_eq!(got.get("k").unwrap()[0], (first, 11));
}

#[test]
fn send_reads_the_system_clock() {
    let mut service = LogService::new();
    let offset = service.send("k", 1).unwrap();
    // Microseconds since 1970: later than the year 2020, earlier than the year 2200.
    assert!(offset > 1_577_836_800_000_000);
    assert!(offset < 7_258_118_400_000_000);
}

#[test]
fn committed_offsets_are_listed() {
    let mut service = LogService::new();
    service.commit_offsets(&ask_for("k", 20));
    let listed = service.list_committed_offsets(&vec!["k".to_string()]);
    assert_eq!(listed.len(), 1);
    assert_eq!(listed.get("k"), Some(&20));
}

#[test]
fn uncommitted_keys_are_left_out() {
    let mut service = LogService::new();
    service.commit_offsets(&ask_for("k", 20));
    let listed = service.list_committed_offsets(&vec!["k".to_string(), "other".to_string()]);
    assert_eq!(listed.len(), 1);
    assert!(listed.get("other").is_none());
    assert!(!listed.contains_key("other"));
}

#[test]
fn a_later_commit_replaces_an_earlier_one() {
    let mut service = LogService::new();
    service.commit_offsets(&ask_for("k", 20));
    let mut second = ask_for("k", 5);
    second.insert("j".to_string(), 9);
    service.commit_offsets(&second);
    let keys = vec!["j".to_string(), "k".to_string(), "k".to_string()];
    let listed = service.list_committed_offsets(&keys);
    assert_eq!(listed.len(), 2);
    assert_eq!(listed.get("k"), Some(&5));
    assert_eq!(listed.get("j"), Some(&9));
}

#[test]
fn log_node_answers_a_send_with_its_offset() {
    let mut node = log_node();
    let request = log_request(Some(3), LogPayload::Send { key: "k".to_string(), msg: 77 });
    let out = node.handle_at(&request, 1000).unwrap();
    assert_eq!(out.len(), 1);
    assert_eq!(out[0].src, "n0");
    assert_eq!(out[0].dest, "c7");
    assert_eq!(out[0].body.msg_id, Some(40));
    assert_eq!(out[0].body.in_reply_to, Some(3));
    assert!(matches!(out[0].body.fields, LogPayload::SendOk { offset: 1000 }));
    let got = node.service().poll(&ask_for("k", 0));
    assert_eq!(got.get("k"), Some(&vec![(1000i64, 77usize)]));
}

#[test]
fn log_node_answers_a_poll() {
    let mut node = log_node();
    for (i, now) in [0i64, 10, 20].iter().enumerate() {
        let request = log_request(Some(i as u64), LogPayload::Send { key: "k".to_string(), msg: i });
        node.handle_at(&request, *now).unwrap();
    }
    let out = node.handle_at(&log_request(Some(9), LogPayload::Poll { offsets: ask_for("k", 11) }), 0).unwrap();
    assert_eq!(out.len(), 1);
    assert_eq!(out[0].body.in_reply_to, Some(9));
    assert_eq!(out[0].body.msg_id, Some(43));
    match &out[0].body.fields {
        LogPayload::PollOk { msgs } => assert_eq!(msgs.get("k"), Some(&vec![(20i64, 2usize)])),
        other => panic!("unexpected reply {:?}", other),
    }
}

#[test]
fn log_node_commits_and_lists() {
    let mut node = log_node();
    let out = node
        .handle_at(&log_request(Some(1), LogPayload::CommitOffsets { offsets: ask_for("k", 20) }), 0)
        .unwrap();
    assert!(matches!(out[0].body.fields, LogPayload::CommitOffsetsOk));
    assert_eq!(out[0].body.in_reply_to, Some(1));
    let keys = vec!["k".to_string(), "x".to_string()];
    let out = node.handle_at(&log_request(None, LogPayload::ListCommittedOffsets { keys }), 0).unwrap();
    assert_eq!(out[0].body.in_reply_to, None);
    match &out[0].body.fields {
        LogPayload::ListCommittedOffsetsOk { offsets } => {
            assert_eq!(offsets.len(), 1);
            assert_eq!(offsets.get("k"), Some(&20));
        }
        other => panic!("unexpected reply {:?}", other),
    }
}

#[test]
fn log_node_has_no_handler_for_replies() {
    let mut node = log_node();
    let r = node.handle_at(&log_request(Some(1), LogPayload::SendOk { offset: 3 }), 0);
    assert_eq!(r.unwrap_err(), NodeError::UnsupportedType);
    let r = node.handle(&log_request(Some(1), LogPayload::Error { code: 20, text: "x".to_string() }));
    assert_eq!(r.unwrap_err(), NodeError::UnsupportedType);
}

#[test]
fn log_node_handles_a_send_with_the_clock() {
    let mut node = log_node();
    let first = node.handle(&log_request(Some(1), LogPayload::Send { key: "k".to_string(), msg: 1 })).unwrap();
    let second = node.handle(&log_request(Some(2), LogPayload::Send { key: "k".to_string(), msg: 2 })).unwrap();
    let a = match first[0].body.fields {
        LogPayload::SendOk { offset } => offset,
        _ => panic!("no offset"),
    };
    let b = match second[0].body.fields {
        LogPayload::SendOk { offset } => offset,
        _ => panic!("no offset"),
    };
    assert!(a < b);
}

#[test]
fn log_node_stops_when_request_ids_run_out() {
    let sender = Sender::starting_at("n0".to_string(), vec!["n0".to_string()], u64::MAX);
    let mut node = LogNode::new(sender);
    let r = node.handle_at(&log_request(Some(1), LogPayload::Send { key: "k".to_string(), msg: 1 }), 5);
    assert_eq!(r.unwrap_err(), NodeError::IdsExhausted);
    assert!(node.service().poll(&ask_for("k", 0)).get("k").is_none());
}
