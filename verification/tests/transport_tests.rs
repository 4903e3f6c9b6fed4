use std::collections::hash_map::DefaultHasher;
use std::hash::{Hash, Hasher};

use gossip_glomers::echo::{echo, EchoMessage, EchoPayload};
use gossip_glomers::error::NodeError;
use gossip_glomers::message::{Body, Init, InitOk, Message};
use gossip_glomers::sender::{handshake, Sender};
use gossip_glomers::unique_id::{generate, IdMessage, IdPayload};

fn init_request(node: &str, all: &[&str], msg_id: Option<u64>) -> Message<Body<Init>> {
    Message {
        src: "c0".to_string(),
        dest: node.to_string(),
        body: Body {
            msg_id,
            in_reply_to: None,
            fields: Init {
                node_id: node.to_string(),
                node_ids: all.iter().map(|s| s.to_string()).collect(),
            },
        },
    }
}

fn sender_at(next_id: u64) -> Sender {
    Sender::starting_at("n1".to_string(), vec!["n1".to_string(), "n2".to_string()], next_id)
}

#[test]
fn a_new_sender_has_no_identity() {
    let sender = Sender::new();
    assert_eq!(sender.node_id(), "");
    assert!(sender.node_ids().is_empty());
    assert_eq!(sender.next_id(), 0);
    assert_eq!(sender.ids_left(), u64::MAX);
}

#[test]
fn init_takes_the_identity_of_the_handshake() {
    let mut sender = Sender::new();
    sender.init(&init_request("n2", &["n1", "n2", "n3"], Some(1)));
    assert_eq!(sender.node_id(), "n2");
    assert_eq!(sender.node_ids(), &vec!["n1".to_string(), "n2".to_string(), "n3".to_string()]);
}

#[test]
fn the_first_request_id_depends_on_the_node_id_alone() {
    let mut a = Sender::new();
    a.init(&init_request("n2", &["n1", "n2"], Some(1)));
    let mut b = Sender::new();
    b.init(&init_request("n2", &["n2", "n7", "n9"], None));
    let mut c = Sender::new();
    c.init(&init_request("n3", &["n1", "n2"], Some(1)));
    assert_eq!(a.next_id(), b.next_id());
    assert_ne!(a.next_id(), c.next_id());
}

#[test]
fn the_first_request_id_is_the_hash_of_the_node_id() {
    let mut sender = Sender::new();
    sender.init(&init_request("n2", &["n1", "n2"], Some(1)));
    let mut hasher = DefaultHasher::new();
    "n2".to_string().hash(&mut hasher);
    assert_eq!(sender.next_id(), hasher.finish());
}

#[test]
fn handshake_acknowledges_the_request() {
    let request = init_request("n1", &["n1", "n2"], Some(17));
    let (sender, ack) = handshake(&request).unwrap();
    assert_eq!(sender.node_id(), "n1");
    assert_eq!(ack.src, "n1");
    assert_eq!(ack.dest, "c0");
    assert_eq!(ack.body.in_reply_to, Some(17));
    assert_eq!(ack.body.fields, InitOk {});
    let first = ack.body.msg_id.unwrap();
    assert_eq!(sender.next_id(), first + 1);
}

#[test]
fn message_gives_out_increasing_request_ids() {
    let mut sender = sender_at(5);
    let a = sender.message("n2", 11u64).unwrap();
    let b = sender.message("c3", 12u64).unwrap();
    assert_eq!(a.src, "n1");
    assert_eq!(a.dest, "n2");
    assert_eq!(a.body.msg_id, Some(5));
    assert_eq!(a.body.in_reply_to, None);
    assert_eq!(a.body.fields, 11);
    assert_eq!(b.dest, "c3");
    assert_eq!(b.body.msg_id, Some(6));
    assert_eq!(sender.next_id(), 7);
}

#[test]
fn respond_reuses_the_request_id_as_correlation_id() {
    let mut sender = sender_at(5);
    let request = Message {
        src: "c9".to_string(),
        dest: "n1".to_string(),
        body: Body { msg_id: Some(123), in_reply_to: None, fields: 0u8 },
    };
    let reply = sender.respond(&request, 7u64).unwrap();
    assert_eq!(reply.src, "n1");
    assert_eq!(reply.dest, "c9");
    assert_eq!(reply.body.msg_id, Some(5));
    assert_eq!(reply.body.in_reply_to, Some(123));
    assert_eq!(reply.body.fields, 7);
}

#[test]
fn respond_omits_the_correlation_id_when_the_request_has_no_id() {
    let mut sender = sender_at(5);
    let request = Message {
        src: "n2".to_string(),
        dest: "n1".to_string(),
        body: Body { msg_id: None, in_reply_to: Some(4), fields: 0u8 },
    };
    let reply = sender.respond(&request, 7u64).unwrap();
    assert_eq!(reply.body.in_reply_to, None);
    assert_eq!(reply.body.msg_id, Some(5));
}

#[test]
fn the_last_request_id_is_never_given_out() {
    let mut sender = sender_at(u64::MAX - 1);
    assert_eq!(sender.ids_left(), 1);
    let a = sender.message("n2", 1u8).unwrap();
    assert_eq!(a.body.msg_id, Some(u64::MAX - 1));
    assert_eq!(sender.ids_left(), 0);
    assert_eq!(sender.message("n2", 1u8).unwrap_err(), NodeError::IdsExhausted);
    let request = Message {
        src: "c9".to_string(),
        dest: "n1".to_string(),
        body: Body { msg_id: Some(1), in_reply_to: None, fields: 0u8 },
    };
    assert_eq!(sender.respond(&request, 1u8).unwrap_err(), NodeError::IdsExhausted);
    assert_eq!(sender.next_id(), u64::MAX);
}

#[test]
fn echo_returns_the_text() {
    let mut sender = sender_at(1);
    let request: EchoMessage = Message {
        src: "c2".to_string(),
        dest: "n1".to_string(),
        body: Body {
            msg_id: Some(8),
            in_reply_to: None,
            fields: EchoPayload::Echo { echo: Some("Please echo 35".to_string()) },
        },
    };
    let out = echo(&mut sender, &request).unwrap();
    assert_eq!(out.len(), 1);
    assert_eq!(out[0].dest, "c2");
    assert_eq!(out[0].body.msg_id, Some(1));
    assert_eq!(out[0].body.in_reply_to, Some(8));
    match &out[0].body.fields {
        EchoPayload::EchoOk { echo } => assert_eq!(echo.as_deref(), Some("Please echo 35")),
        other => panic!("unexpected reply {:?}", other),
    }
}

#[test]
fn echo_has_no_handler_for_its_own_reply() {
    let mut sender = sender_at(1);
    let request: EchoMessage = Message {
        src: "c2".to_string(),
        dest: "n1".to_string(),
        body: Body { msg_id: Some(8), in_reply_to: None, fields: EchoPayload::EchoOk { echo: None } },
    };
    assert_eq!(echo(&mut sender, &request).unwrap_err(), NodeError::UnsupportedType);
    assert_eq!(sender.next_id(), 1);
}

#[test]
fn generated_ids_differ() {
    let mut sender = sender_at(1000);
    let request: IdMessage = Message {
        src: "c2".to_string(),
        dest: "n1".to_string(),
        body: Body { msg_id: Some(8), in_reply_to: None, fields: IdPayload::Generate },
    };
    let a = generate(&mut sender, &request).unwrap();
    let b = generate(&mut sender, &request).unwrap();
    assert_eq!(a.len(), 1);
    assert_eq!(a[0].body.fields, IdPayload::GenerateOk { id: 1000 });
    assert_eq!(a[0].body.msg_id, Some(1000));
    assert_eq!(a[0].body.in_reply_to, Some(8));
    assert_eq!(b[0].body.fields, IdPayload::GenerateOk { id: 1001 });
}

#[test]
fn generate_has_no_handler_for_its_own_reply() {
    let mut sender = sender_at(1000);
    let request: IdMessage = Message {
        src: "c2".to_string(),
        dest: "n1".to_string(),
        body: Body { msg_id: Some(8), in_reply_to: None, fields: IdPayload::GenerateOk { id: 3 } },
    };
    assert_eq!(generate(&mut sender, &request).unwrap_err(), NodeError::UnsupportedType);
}
