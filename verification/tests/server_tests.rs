use gossip_glomers::broadcast::{Broadcast, BroadcastPayload, Overlay, Read};
use gossip_glomers::counter::CounterPayload;
use gossip_glomers::echo::EchoPayload;
use gossip_glomers::error::NodeError;
use gossip_glomers::log::LogPayload;
use gossip_glomers::message::{Body, Init, InitOk, Message};
use gossip_glomers::server::{Envelope, Event, Payload, Server, Workload};
use gossip_glomers::unique_id::IdPayload;

fn hello(node: &str, all: &[&str]) -> Message<Body<Init>> {
    Message {
        src: "c0".to_string(),
        dest: node.to_string(),
        body: Body {
            msg_id: Some(1),
            in_reply_to: None,
            fields: Init {
                node_id: node.to_string(),
                node_ids: all.iter().map(|s| s.to_string()).collect(),
            },
        },
    }
}

fn started(workload: Workload) -> (Server, u64) {
    let (server, ack) = Server::new(&hello("n1", &["n0", "n1", "n2"]), workload).unwrap();
    (server, ack.body.msg_id.unwrap() + 1)
}

fn to_node(msg_id: u64, fields: Payload) -> Envelope {
    Message {
        src: "c5".to_string(),
        dest: "n1".to_string(),
        body: Body { msg_id: Some(msg_id), in_reply_to: None, fields },
    }
}

#[test]
fn a_server_starts_with_the_handshake() {
    let (_, ack) = Server::new(&hello("n1", &["n0", "n1"]), Workload::Echo).unwrap();
    assert_eq!(ack.src, "n1");
    assert_eq!(ack.dest, "c0");
    assert_eq!(ack.body.in_reply_to, Some(1));
    assert_eq!(ack.body.fields, InitOk {});
}

#[test]
fn a_skip_overlay_needs_the_node_among_the_node_ids() {
    let r = Server::new(&hello("n9", &["n0", "n1"]), Workload::Broadcast(Overlay::Skip));
    assert_eq!(r.err(), Some(NodeError::MissingSelf));
    assert!(Server::new(&hello("n9", &["n0", "n1"]), Workload::Broadcast(Overlay::FullMesh)).is_ok());
    assert!(Server::new(&hello("n9", &["n0", "n1"]), Workload::Counter).is_ok());
}

#[test]
fn the_echo_workload_echoes() {
    let (mut server, next) = started(Workload::Echo);
    let request = to_node(3, Payload::Echo(EchoPayload::Echo { echo: Some("hi".to_string()) }));
    let out = server.serve(Event::Inbound(request)).unwrap();
    assert_eq!(out.len(), 1);
    assert_eq!(out[0].dest, "c5");
    assert_eq!(out[0].body.msg_id, Some(next));
    assert_eq!(out[0].body.in_reply_to, Some(3));
    match &out[0].body.fields {
        Payload::Echo(EchoPayload::EchoOk { echo }) => assert_eq!(echo.as_deref(), Some("hi")),
        other => panic!("unexpected reply {:?}", other),
    }
    assert!(server.serve(Event::Timer).unwrap().is_empty());
}

#[test]
fn the_id_workload_generates_ids() {
    let (mut server, next) = started(Workload::UniqueIds);
    let a = server.serve(Event::Inbound(to_node(3, Payload::Id(IdPayload::Generate)))).unwrap();
    let b = server.serve(Event::Inbound(to_node(4, Payload::Id(IdPayload::Generate)))).unwrap();
    assert!(matches!(a[0].body.fields, Payload::Id(IdPayload::GenerateOk { id }) if id == next));
    assert!(matches!(b[0].body.fields, Payload::Id(IdPayload::GenerateOk { id }) if id == next + 1));
}

#[test]
fn the_broadcast_workload_delivers_and_gossips() {
    let (mut server, next) = started(Workload::Broadcast(Overlay::FullMesh));
    let request = to_node(3, Payload::Broadcast(BroadcastPayload::Broadcast(Broadcast::new(9))));
    let out = server.serve(Event::Inbound(request)).unwrap();
    assert_eq!(out.len(), 3);
    assert_eq!(out[0].dest, "n0");
    assert_eq!(out[1].dest, "n2");
    assert_eq!(out[2].dest, "c5");
    assert_eq!(out[2].body.msg_id, Some(next + 2));
    assert!(matches!(&out[0].body.fields, Payload::Broadcast(BroadcastPayload::Propagate(p)) if p.message == 9));
    assert!(matches!(out[2].body.fields, Payload::Broadcast(BroadcastPayload::BroadcastOk(_))));
    let gossip = server.serve(Event::Timer).unwrap();
    assert_eq!(gossip.len(), 2);
    assert!(matches!(&gossip[0].body.fields, Payload::Broadcast(BroadcastPayload::Gossip(g)) if g.messages == vec![9]));
    let read = server.serve(Event::Inbound(to_node(4, Payload::Broadcast(BroadcastPayload::Read(Read::new()))))).unwrap();
    assert!(matches!(&read[0].body.fields, Payload::Broadcast(BroadcastPayload::ReadOk(r)) if r.messages == vec![9]));
}

#[test]
fn only_the_counter_workload_sends_something_when_it_starts() {
    for workload in [Workload::Echo, Workload::UniqueIds, Workload::Broadcast(Overlay::Skip), Workload::Log] {
        let (mut server, _) = started(workload);
        assert!(server.start().unwrap().is_empty());
    }
    let (mut server, next) = started(Workload::Counter);
    let out = server.start().unwrap();
    assert_eq!(out.len(), 1);
    assert_eq!(out[0].dest, "seq-kv");
    assert_eq!(out[0].body.msg_id, Some(next));
    assert!(matches!(&out[0].body.fields, Payload::Counter(CounterPayload::Write { key, value: 0 }) if key == "global"));
    let ok = to_node(1, Payload::Counter(CounterPayload::WriteOk));
    assert!(server.handle(ok).unwrap().is_empty());
}

#[test]
fn the_counter_workload_adds_and_looks_at_the_store() {
    let (mut server, next) = started(Workload::Counter);
    let out = server.serve(Event::Inbound(to_node(3, Payload::Counter(CounterPayload::Add { delta: 2 })))).unwrap();
    assert_eq!(out.len(), 2);
    assert_eq!(out[0].dest, "seq-kv");
    assert_eq!(out[0].body.msg_id, Some(next));
    assert!(matches!(out[1].body.fields, Payload::Counter(CounterPayload::AddOk)));
    let tick = server.serve(Event::Timer).unwrap();
    assert_eq!(tick.len(), 1);
    assert!(matches!(&tick[0].body.fields, Payload::Counter(CounterPayload::Read { key: Some(k) }) if k == "global"));
}

#[test]
fn the_log_workload_appends_and_polls() {
    let (mut server, _) = started(Workload::Log);
    let send = |msg: usize| Payload::Log(LogPayload::Send { key: "k".to_string(), msg });
    let a = server.serve_at(Event::Inbound(to_node(1, send(7))), 50).unwrap();
    let b = server.serve_at(Event::Inbound(to_node(2, send(8))), 50).unwrap();
    assert!(matches!(a[0].body.fields, Payload::Log(LogPayload::SendOk { offset: 50 })));
    assert!(matches!(b[0].body.fields, Payload::Log(LogPayload::SendOk { offset: 51 })));
    let c = server.serve(Event::Inbound(to_node(3, send(9)))).unwrap();
    assert!(matches!(c[0].body.fields, Payload::Log(LogPayload::SendOk { offset }) if offset > 51));
    assert!(server.tick().unwrap().is_empty());
}

#[test]
fn a_payload_of_another_workload_has_no_handler() {
    for workload in [
        Workload::Echo,
        Workload::UniqueIds,
        Workload::Broadcast(Overlay::Supplied),
        Workload::Counter,
        Workload::Log,
    ] {
        let (mut server, _) = started(workload);
        let strangers = vec![
            (Workload::Echo, Payload::Echo(EchoPayload::Echo { echo: None })),
            (Workload::UniqueIds, Payload::Id(IdPayload::Generate)),
            (Workload::Broadcast(Overlay::Supplied), Payload::Broadcast(BroadcastPayload::Read(Read::new()))),
            (Workload::Counter, Payload::Counter(CounterPayload::Read { key: None })),
            (Workload::Log, Payload::Log(LogPayload::ListCommittedOffsets { keys: vec![] })),
        ];
        for (family, payload) in strangers {
            let r = server.handle_at(to_node(1, payload), 0);
            if family == workload {
                assert!(r.is_ok());
            } else {
                assert_eq!(r.unwrap_err(), NodeError::UnsupportedType);
            }
        }
    }
}
