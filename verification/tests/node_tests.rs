use recipe_share::catalog::{create_record, publish_record, Record};
use recipe_share::codec::{decode_envelope, encode_envelope};
use recipe_share::envelope::{Envelope, ListMode};
use recipe_share::event::{step, Action, Event, NetEvent, Node};
use recipe_share::membership::Membership;
use recipe_share::protocol::{handle_payload, respond_with_public_records, Inbound};

#[test]
fn discovering_a_peer_twice_equals_discovering_it_once() {
    let mut once = Membership::new();
    once.on_discovered(b"QmA".to_vec());

    let mut twice = Membership::new();
    twice.on_discovered(b"QmA".to_vec());
    twice.on_discovered(b"QmA".to_vec());

    assert_eq!(once.list_known_peers(), twice.list_known_peers());
    assert_eq!(twice.list_known_peers(), vec![b"QmA".to_vec()]);
}

#[test]
fn expiry_removes_only_unconfirmed_peers() {
    let mut m = Membership::new();
    m.on_discovered(b"QmA".to_vec());
    m.on_discovered(b"QmB".to_vec());

    // Another discovery source still reports QmA: the removal is a no-op.
    m.on_expired(b"QmA", true);
    assert!(m.knows(b"QmA"));

    // No source reports it any more: it leaves the view.
    m.on_expired(b"QmA", false);
    assert!(!m.knows(b"QmA"));
    assert_eq!(m.list_known_peers(), vec![b"QmB".to_vec()]);
}

#[test]
fn one_request_is_answered_only_by_its_target() {
    let req = encode_envelope(&Envelope::Request { mode: ListMode::One(b"QmX".to_vec()) });

    // A node whose identity is not the target ignores the request.
    assert!(matches!(handle_payload(b"QmY", b"QmSender", &req), Inbound::Ignore));

    // The target builds exactly one response, addressed to the sender.
    match handle_payload(b"QmX", b"QmSender", &req) {
        Inbound::BuildResponse { receiver } => assert_eq!(receiver, b"QmSender".to_vec()),
        _ => panic!("the target must answer"),
    }
}

#[test]
fn all_requests_are_answered_by_every_node() {
    let req = encode_envelope(&Envelope::Request { mode: ListMode::All });
    match handle_payload(b"QmAnyone", b"QmSender", &req) {
        Inbound::BuildResponse { receiver } => assert_eq!(receiver, b"QmSender".to_vec()),
        _ => panic!("an all-request must be answered"),
    }
}

#[test]
fn a_response_for_someone_else_is_not_surfaced() {
    let resp = encode_envelope(&Envelope::Response {
        mode: ListMode::All,
        data: vec![Record {
            id: 0,
            name: b"Soup".to_vec(),
            ingredients: b"w".to_vec(),
            instructions: b"b".to_vec(),
            public: true,
        }],
        receiver: b"QmY".to_vec(),
    });
    assert!(matches!(handle_payload(b"QmX", b"QmSender", &resp), Inbound::Ignore));
    assert!(matches!(handle_payload(b"QmY", b"QmSender", &resp), Inbound::SurfaceRecords(_)));
}

#[test]
fn responses_carry_only_public_records() {
    let catalog = vec![
        Record {
            id: 0,
            name: b"secret".to_vec(),
            ingredients: b"i".to_vec(),
            instructions: b"s".to_vec(),
            public: false,
        },
        Record {
            id: 1,
            name: b"shared".to_vec(),
            ingredients: b"i".to_vec(),
            instructions: b"s".to_vec(),
            public: true,
        },
    ];
    match respond_with_public_records(&catalog, b"QmAsker".to_vec()) {
        Envelope::Response { data, receiver, .. } => {
            assert_eq!(receiver, b"QmAsker".to_vec());
            assert_eq!(data.len(), 1);
            assert_eq!(data[0].name, b"shared".to_vec());
        }
        _ => panic!("a response was expected"),
    }
}

#[test]
fn step_dispatches_user_commands() {
    let mut node = Node::new(b"QmSelf".to_vec());

    match step(&mut node, Event::Input(b"ls p".to_vec())) {
        Some(Action::ShowPeers(peers)) => assert!(peers.is_empty()),
        _ => panic!("ls p must show peers"),
    }
    assert!(matches!(
        step(&mut node, Event::Input(b"ls r".to_vec())),
        Some(Action::ShowLocalCatalog)
    ));
    match step(&mut node, Event::Input(b"ls r all".to_vec())) {
        Some(Action::PublishPayload(p)) => assert_eq!(p, br#"{"mode":"ALL"}"#.to_vec()),
        _ => panic!("ls r all must broadcast"),
    }
    match step(&mut node, Event::Input(b"create r a|b|c".to_vec())) {
        Some(Action::CreateRecord { name, .. }) => assert_eq!(name, b"a".to_vec()),
        _ => panic!("create must reach the store"),
    }
    assert!(matches!(
        step(&mut node, Event::Input(b"publish r 3".to_vec())),
        Some(Action::PublishRecord { id: 3 })
    ));
    assert!(matches!(
        step(&mut node, Event::Input(b"publish r x".to_vec())),
        Some(Action::ReportInvalidId)
    ));
    assert!(matches!(
        step(&mut node, Event::Input(b"create r a|b".to_vec())),
        Some(Action::ReportMalformedCreate)
    ));
    assert!(matches!(
        step(&mut node, Event::Input(b"frobnicate".to_vec())),
        Some(Action::ReportUnknownCommand)
    ));
}

#[test]
fn step_maintains_the_overlay_view() {
    let mut node = Node::new(b"QmSelf".to_vec());
    assert!(step(&mut node, Event::Net(NetEvent::Discovered(b"QmA".to_vec()))).is_none());
    assert!(step(&mut node, Event::Net(NetEvent::ListenerReady)).is_none());
    match step(&mut node, Event::Input(b"ls p".to_vec())) {
        Some(Action::ShowPeers(peers)) => assert_eq!(peers, vec![b"QmA".to_vec()]),
        _ => panic!("ls p must show peers"),
    }
    assert!(step(
        &mut node,
        Event::Net(NetEvent::Expired { peer: b"QmA".to_vec(), still_reported: false }),
    )
    .is_none());
    match step(&mut node, Event::Input(b"ls p".to_vec())) {
        Some(Action::ShowPeers(peers)) => assert!(peers.is_empty()),
        _ => panic!("ls p must show peers"),
    }
}

/// The full exchange: A creates and publishes a record, B asks all nodes,
/// A answers, and B surfaces exactly the one public record.
#[test]
fn two_nodes_exchange_one_published_record() {
    let a_id = b"QmNodeA".to_vec();
    let b_id = b"QmNodeB".to_vec();
    let mut node_a = Node::new(a_id.clone());
    let mut node_b = Node::new(b_id.clone());
    let mut store_a: Vec<Record> = Vec::new();

    // The two nodes discover each other.
    step(&mut node_a, Event::Net(NetEvent::Discovered(b_id.clone())));
    step(&mut node_b, Event::Net(NetEvent::Discovered(a_id.clone())));

    // A creates a private record; the store applies the action.
    match step(&mut node_a, Event::Input(b"create r Soup|water,salt|boil".to_vec())) {
        Some(Action::CreateRecord { name, ingredients, instructions }) => {
            let id = create_record(&mut store_a, name, ingredients, instructions);
            assert_eq!(id, 0);
        }
        _ => panic!("create must reach the store"),
    }

    // A publishes it.
    match step(&mut node_a, Event::Input(b"publish r 0".to_vec())) {
        Some(Action::PublishRecord { id }) => publish_record(&mut store_a, id),
        _ => panic!("publish must reach the store"),
    }

    // B broadcasts an all-request.
    let request = match step(&mut node_b, Event::Input(b"ls r all".to_vec())) {
        Some(Action::PublishPayload(p)) => p,
        _ => panic!("ls r all must broadcast"),
    };

    // A receives it and asks for a response to be built off the loop.
    let receiver = match step(
        &mut node_a,
        Event::Net(NetEvent::Message { source: b_id.clone(), payload: request }),
    ) {
        Some(Action::BuildResponse { receiver }) => receiver,
        _ => panic!("A must answer an all-request"),
    };
    assert_eq!(receiver, b_id);

    // The response task reads the store and queues the envelope; the loop
    // then serializes and floods it.
    let response_env = respond_with_public_records(&store_a, receiver);
    let response = match step(&mut node_a, Event::ResponseReady(response_env)) {
        Some(Action::PublishPayload(p)) => p,
        _ => panic!("a ready response must be flooded"),
    };
    assert!(decode_envelope(&response).is_some());

    // B receives it and surfaces exactly one record: Soup, public.
    match step(
        &mut node_b,
        Event::Net(NetEvent::Message { source: a_id.clone(), payload: response }),
    ) {
        Some(Action::SurfaceRecords(records)) => {
            assert_eq!(records.len(), 1);
            assert_eq!(records[0].id, 0);
            assert_eq!(records[0].name, b"Soup".to_vec());
            assert!(records[0].public);
        }
        _ => panic!("B must surface the response addressed to it"),
    }
}

/// Without discovery the overlay stays empty: `ls p` prints nothing, and a
/// broadcast request has no peer to reach, so no response ever comes back.
#[test]
fn isolated_nodes_see_no_peers_and_get_no_answers() {
    let mut node_a = Node::new(b"QmNodeA".to_vec());
    let mut node_b = Node::new(b"QmNodeB".to_vec());

    for node in [&mut node_a, &mut node_b] {
        match step(node, Event::Input(b"ls p".to_vec())) {
            Some(Action::ShowPeers(peers)) => assert!(peers.is_empty()),
            _ => panic!("ls p must show peers"),
        }
    }

    // A asks; the flood reaches the overlay's peers, of which there are none.
    match step(&mut node_a, Event::Input(b"ls r all".to_vec())) {
        Some(Action::PublishPayload(_)) => {
            match step(&mut node_a, Event::Input(b"ls p".to_vec())) {
                Some(Action::ShowPeers(peers)) => assert!(peers.is_empty()),
                _ => panic!("ls p must show peers"),
            }
        }
        _ => panic!("ls r all must broadcast"),
    }

    // Nothing was delivered to B, so B surfaces nothing and answers nothing:
    // the only events it ever sees are non-events.
    assert!(step(&mut node_b, Event::Net(NetEvent::Other)).is_none());
}
