//! Nodes that throw to one another. What the sockets would carry is handed across by hand.

use liquid_metal::address::{Address, Ip};
use liquid_metal::naming::{host_label, hostname, mix_node_id, parse_peer};
use liquid_metal::net::{
    publish_screen_size, Discovery, Inbound, Net, NetConfig, NetEvent, Outbound, BEACON_INTERVAL,
    CONNECT_TIMEOUT_MS, PEER_TIMEOUT, SEEN_RING,
};
use liquid_metal::peers::{arrange, choose_peer, Peer, Pin};
use liquid_metal::receipt::{report, Awaiting, Delivery, Reading, Setback, ACK_TIMEOUT};
use liquid_metal::single::Single;
use liquid_metal::wire::{
    decode, encode_ack, encode_nack, frame, Beacon, Edge, Kind, Message, NackReason, SatState,
    Throw, DISCOVERY_PORT,
};

fn single(x: f32) -> Single {
    Single { bits: x.to_bits() }
}

fn loopback() -> Ip {
    Ip { v6: false, bits: 0x7f00_0001, text: "127.0.0.1".into() }
}

fn at(port: u16) -> Address {
    Address::new(loopback(), port)
}

/// A peer named with its port.
fn pin(edge: Option<Edge>, addr: Address) -> Pin {
    Pin { edge, addr, bare: false }
}

fn node(capacity: u16, id: u64, port: u16, peers: &[Address]) -> Net {
    Net::start(
        NetConfig {
            group: "test".into(),
            name: "test-node".into(),
            capacity,
            discovery: false,
            pinned: peers.iter().map(|a| pin(None, a.clone())).collect(),
        },
        id,
        port,
    )
}

fn a_throw() -> (Single, (Single, Single), Vec<SatState>) {
    (
        single(0.4),
        (single(1.25), single(-0.3)),
        vec![
            SatState {
                off_x: single(1.1),
                off_y: single(-0.2),
                vel_x: single(0.4),
                vel_y: single(0.1),
            };
            8
        ],
    )
}

fn throw_right(net: &mut Net) -> Outbound {
    let (along, vel, sats) = a_throw();
    net.throw(Edge::Right, along, vel, sats, 0).expect("a peer to throw to")
}

/// Serve a connection that brings `bytes` and then nothing more: what is sent back, the
/// throws that arrived, and what is written to the log if the connection is closed.
fn serve(net: &mut Net, bytes: &[u8], from: &Address) -> (Vec<u8>, Vec<Throw>, Option<String>) {
    let mut buf = bytes.to_vec();
    let mut sent = Vec::new();
    let mut arrived = Vec::new();
    loop {
        match net.receive(&buf, from, 0) {
            Inbound::Wait => return (sent, arrived, None),
            Inbound::Skip { used } => {
                buf.drain(..used);
            }
            Inbound::Reply { used, reply } => {
                buf.drain(..used);
                sent.extend(reply);
            }
            Inbound::Offer { used, throw } => {
                buf.drain(..used);
                sent.extend(net.settle(throw.throw_id, true));
                arrived.push(throw);
            }
            Inbound::Close { note } => return (sent, arrived, Some(note)),
        }
    }
}

/// What the sender makes of the bytes that came back.
fn outcome(out: &Outbound, reply: Vec<u8>) -> NetEvent {
    let mut waiting = Awaiting::new(out.throw_id, 0);
    let said = waiting.on_read(Reading::Bytes(reply)).expect("an answer");
    report(out.throw_id, out.peer.label(), said)
}

#[test]
fn a_throw_crosses_two_real_sockets() {
    let mut catcher = node(4, 1, 5001, &[]);
    let mut thrower = node(4, 2, 5002, &[at(5001)]);

    let (along, vel, sats) = a_throw();
    let out = throw_right(&mut thrower);
    assert_eq!(out.peer.addr, at(5001));

    let (reply, arrived, _) = serve(&mut catcher, &out.bytes, &at(40000));
    assert_eq!(arrived.len(), 1, "the blob arrives");
    let got = &arrived[0];
    assert_eq!(got.throw_id, out.throw_id);
    assert_eq!(got.edge, Edge::Right, "the edge it left by survives the trip");
    assert_eq!(got.along, along);
    assert_eq!((got.vel_x, got.vel_y), vel);
    assert_eq!(got.sats, sats, "the thrown shape survives the trip");
    assert_eq!(got.from_port, 5002, "a return address came with it");

    match outcome(&out, reply) {
        NetEvent::Landed { throw_id, .. } => assert_eq!(throw_id, out.throw_id),
        other => panic!("the sender is told it landed, not {other:?}"),
    }
}

#[test]
fn catching_a_blob_teaches_you_where_to_throw_it_back() {
    let mut catcher = node(4, 1, 5001, &[]);
    let mut thrower = node(4, 2, 5002, &[at(5001)]);
    assert!(catcher.peers(0).is_empty(), "the catcher starts knowing nobody");

    let out = throw_right(&mut thrower);
    let (_, arrived, _) = serve(&mut catcher, &out.bytes, &at(40000));
    assert_eq!(arrived.len(), 1, "the blob arrives");

    let known = catcher.peers(0);
    assert_eq!(known.len(), 1, "the catcher learned exactly one peer");
    assert_eq!(known[0].addr.port, 5002);
    // And that is where a throw back goes.
    let back = throw_right(&mut catcher);
    assert_eq!(back.peer.addr, at(5002));
}

#[test]
fn a_full_screen_refuses_the_throw_and_says_why() {
    let mut catcher = node(1, 1, 5001, &[]);
    catcher.set_resident(1); // its one slot is taken
    let mut thrower = node(4, 2, 5002, &[at(5001)]);

    let out = throw_right(&mut thrower);
    let (reply, arrived, _) = serve(&mut catcher, &out.bytes, &at(40000));
    assert!(arrived.is_empty());
    match outcome(&out, reply) {
        NetEvent::Refused { throw_id, why, .. } => {
            assert_eq!(throw_id, out.throw_id);
            assert_eq!(why, NackReason::Full);
            assert_eq!(why.explain(), "the other screen is full");
        }
        other => panic!("a refusal comes back, not {other:?}"),
    }
}

/// Nobody listening. The sender has to find out promptly, because a blob is sitting off the
/// edge of its screen waiting to be told.
#[test]
fn a_throw_into_the_void_is_reported_lost() {
    let mut thrower = node(4, 2, 5002, &[at(1)]);
    let (along, vel, sats) = a_throw();
    let out = thrower.throw(Edge::Left, along, vel, sats, 0).expect("a pinned peer");
    assert_eq!(out.peer.addr, at(1));
    match report(out.throw_id, out.peer.label(), Err("connection refused".into())) {
        NetEvent::Lost { throw_id, peer, why } => {
            assert_eq!(throw_id, out.throw_id);
            assert_eq!(peer, "127.0.0.1:1 (127.0.0.1:1)");
            assert!(!why.is_empty(), "a loss has to come with a reason");
        }
        other => panic!("the loss is reported, not {other:?}"),
    }
    // Neither connecting nor waiting for the receipt takes long.
    assert!(CONNECT_TIMEOUT_MS * 1_000_000 + ACK_TIMEOUT < 3_000_000_000);
    let waiting = Awaiting::new(out.throw_id, 0);
    assert_eq!(waiting.expired(ACK_TIMEOUT - 1), None);
    assert_eq!(waiting.expired(ACK_TIMEOUT).as_deref(), Some("no receipt within the deadline"));
}

#[test]
fn a_throw_delivered_twice_lands_once() {
    let mut catcher = node(4, 1, 5001, &[]);
    let msg = Throw {
        throw_id: 0xabcd,
        from_node: 1,
        from_port: 9999,
        edge: Edge::Top,
        along: single(0.5),
        vel_x: single(0.0),
        vel_y: single(1.0),
        sats: Vec::new(),
    }
    .encode();

    let mut twice = msg.clone();
    twice.extend_from_slice(&msg);
    let (reply, arrived, _) = serve(&mut catcher, &twice, &at(40000));

    let mut acks = 0;
    let mut buf = reply;
    while let Ok((m, used)) = decode(&buf) {
        buf.drain(..used);
        if matches!(m, Message::Ack(0xabcd)) {
            acks += 1;
        }
    }
    assert_eq!(acks, 2, "both copies should be acknowledged");
    assert_eq!(arrived.len(), 1, "the duplicate became a second blob");
}

#[test]
fn garbage_on_the_wire_is_ignored_and_the_node_survives() {
    let mut catcher = node(4, 1, 5001, &[]);
    let (reply, arrived, note) =
        serve(&mut catcher, b"GET / HTTP/1.1\r\nHost: x\r\n\r\n", &at(40000));
    assert!(arrived.is_empty(), "garbage should never look like a blob");
    assert!(reply.is_empty());
    assert_eq!(
        note.as_deref(),
        Some("dropped a frame from 127.0.0.1:40000: not a liquidMetal frame")
    );

    // And the node still works afterwards.
    let mut thrower = node(4, 2, 5002, &[at(5001)]);
    let out = throw_right(&mut thrower);
    let (_, arrived, _) = serve(&mut catcher, &out.bytes, &at(40001));
    assert_eq!(arrived.len(), 1, "the node stopped working after being fed garbage");
}

#[test]
fn with_a_single_peer_every_edge_is_a_door() {
    let n = node(4, 1, 5001, &[at(9)]);
    assert_eq!(n.portal_edges(0), 0b1111);
    for e in Edge::ALL {
        assert_eq!(n.peer_for_edge(e, 0).map(|p| p.addr), Some(at(9)));
    }
}

#[test]
fn with_no_peers_nothing_is_a_door() {
    let n = node(4, 1, 5001, &[]);
    assert_eq!(n.portal_edges(0), 0);
    for e in Edge::ALL {
        assert!(n.peer_for_edge(e, 0).is_none());
    }
}

#[test]
fn a_pinned_peer_owns_only_its_own_edge() {
    let n = Net::start(
        NetConfig {
            group: "test".into(),
            name: "t".into(),
            capacity: 4,
            discovery: false,
            pinned: vec![pin(Some(Edge::Left), at(9))],
        },
        1,
        5001,
    );
    assert_eq!(n.peer_for_edge(Edge::Left, 0).map(|p| p.addr), Some(at(9)));
    assert!(n.peer_for_edge(Edge::Right, 0).is_none());
    assert_eq!(n.portal_edges(0), Edge::Left.bit());
}

#[test]
fn peer_specs_parse() {
    let p = parse_peer("right=127.0.0.1:5000").unwrap();
    assert_eq!(p.dial, "127.0.0.1:5000");
    let named = p.resolve(Ok(vec![at(5000)])).unwrap();
    assert_eq!(named.edge, Some(Edge::Right));
    assert_eq!(named.addr, at(5000));
    assert!(!named.bare);

    let p = parse_peer("127.0.0.1:5000").unwrap();
    assert_eq!(p.edge, None);
    assert_eq!(p.dial, "127.0.0.1:5000");

    // A bare host gets the discovery port, which is only useful once a beacon has been
    // heard.
    let p = parse_peer("127.0.0.1").unwrap();
    assert_eq!(p.dial, format!("127.0.0.1:{DISCOVERY_PORT}"));
    let named = p.resolve(Ok(vec![at(DISCOVERY_PORT)])).unwrap();
    assert_eq!((named.addr.port, named.bare), (DISCOVERY_PORT, true));
    // The same port, named explicitly, is a port like any other.
    let p = parse_peer(&format!("127.0.0.1:{DISCOVERY_PORT}")).unwrap();
    assert!(!p.bare && !p.resolve(Ok(vec![at(DISCOVERY_PORT)])).unwrap().bare);

    assert!(parse_peer("sideways=127.0.0.1:1").is_err());
    assert!(parse_peer("").is_err());
    assert!(parse_peer("=127.0.0.1:1").is_err());
}

#[test]
fn node_ids_do_not_collide() {
    let ids: std::collections::HashSet<u64> =
        (0..1000).map(|i| mix_node_id(4321, 1_700_000_000_000_000_000 + i, 0x7f00_1000)).collect();
    assert_eq!(ids.len(), 1000);
    assert_eq!(mix_node_id(1, 0, 0), 1 << 32);
    assert_eq!(mix_node_id(0, 1, 0), 0x9e37_79b9_7f4a_7c15);
    assert_eq!(mix_node_id(0, 0, 1), 1 << 17);
}

// ---------------------------------------------------------------------------

#[test]
fn peers_are_named_by_edge_or_by_nothing() {
    for (text, edge) in [
        ("left=h:1", Edge::Left),
        ("RIGHT=h:1", Edge::Right),
        (" up =h:1", Edge::Top),
        ("top=h:1", Edge::Top),
        ("down=h:1", Edge::Bottom),
        ("bottom=h:1", Edge::Bottom),
    ] {
        let p = parse_peer(text).unwrap();
        assert_eq!(p.edge, Some(edge));
        assert_eq!(p.dial, "h:1");
    }
    assert_eq!(
        parse_peer("sideways=h").unwrap_err(),
        "\"sideways\" is not an edge; use left, right, top or bottom"
    );
    assert_eq!(parse_peer("left=  ").unwrap_err(), "no host given");
}

#[test]
fn a_name_is_looked_up_once_and_version_four_is_preferred() {
    let six = Address::new(Ip { v6: true, bits: 1, text: "::1".into() }, 7);
    let p = parse_peer("  box  ").unwrap();
    assert_eq!(p.host, "box");
    let named = p.resolve(Ok(vec![six.clone(), at(7)])).unwrap();
    assert_eq!((named.edge, named.addr), (None, at(7)));
    assert_eq!(p.resolve(Ok(vec![six.clone()])).unwrap().addr, six);
    assert_eq!(p.resolve(Ok(vec![])).unwrap_err(), "\"box\" resolved to no addresses");
    assert_eq!(
        p.resolve(Err("no such host".into())).unwrap_err(),
        "could not resolve \"box\": no such host"
    );
}

#[test]
fn a_machine_has_a_name() {
    let name = hostname();
    assert!(!name.is_empty());
    assert_eq!(name, host_label(&name));
    // The name that the operating system gives, where it gives one.
    let raw = gethostname::gethostname();
    assert_eq!(name, host_label(&raw.to_string_lossy()));
    assert_eq!(host_label("  workshop\n"), "workshop");
    assert_eq!(host_label(" \t "), "liquidmetal");
}

#[test]
fn an_address_is_written_with_its_port() {
    assert_eq!(at(80).text(), "127.0.0.1:80");
    let mut six = Address::new(Ip { v6: true, bits: 1, text: "::1".into() }, 80);
    assert_eq!(six.text(), "[::1]:80");
    six.scope = 3;
    assert_eq!(six.text(), "[::1%3]:80");
    assert!(!six.same(&at(80)));
    assert!(at(80).same(&at(80)) && !at(80).same(&at(81)));
}

#[test]
fn throw_ids_do_not_repeat() {
    let mut thrower = node(4, 7, 5002, &[at(5001)]);
    let a = throw_right(&mut thrower);
    let b = throw_right(&mut thrower);
    assert_ne!(a.throw_id, b.throw_id);
    assert_eq!(a.throw_id, (7 << 16) ^ 1);
    assert_eq!(b.throw_id, (7 << 16) ^ 2);
}

#[test]
fn accepting_never_overfills() {
    let mut catcher = node(2, 1, 5001, &[]);
    let mut thrower = node(4, 2, 5002, &[at(5001)]);
    let mut arrived = 0;
    let mut refused = 0;
    for _ in 0..5 {
        let out = throw_right(&mut thrower);
        let (reply, got, _) = serve(&mut catcher, &out.bytes, &at(40000));
        arrived += got.len();
        if let NetEvent::Refused { .. } = outcome(&out, reply) {
            refused += 1;
        }
    }
    assert_eq!((arrived, refused), (2, 3));
    // A promised slot is used up when its blob is on the screen, and not before.
    catcher.set_resident(2);
    catcher.commit_arrival();
    catcher.commit_arrival();
    catcher.commit_arrival();
    let out = throw_right(&mut thrower);
    assert!(serve(&mut catcher, &out.bytes, &at(40000)).1.is_empty());
    catcher.set_resident(1);
    let out = throw_right(&mut thrower);
    assert_eq!(serve(&mut catcher, &out.bytes, &at(40000)).1.len(), 1);
}

/// A refused throw was never accepted: once there is room, the same throw lands.
#[test]
fn a_refused_throw_is_not_acknowledged_later() {
    let mut catcher = node(1, 1, 5001, &[]);
    catcher.set_resident(1);
    let mut thrower = node(4, 2, 5002, &[at(5001)]);
    let out = throw_right(&mut thrower);
    assert!(serve(&mut catcher, &out.bytes, &at(40000)).1.is_empty());
    catcher.set_resident(0);
    assert_eq!(serve(&mut catcher, &out.bytes, &at(40000)).1.len(), 1);
}

#[test]
fn a_throw_that_nobody_takes_is_refused() {
    let mut catcher = node(1, 1, 5001, &[]);
    let mut thrower = node(4, 2, 5002, &[at(5001)]);
    let out = throw_right(&mut thrower);
    match catcher.receive(&out.bytes, &at(40000), 0) {
        Inbound::Offer { used, throw } => {
            assert_eq!(used, out.bytes.len());
            let reply = catcher.settle(throw.throw_id, false);
            assert_eq!(reply, encode_nack(throw.throw_id, NackReason::Full));
        }
        other => panic!("{other:?}"),
    }
    // Nothing was promised: the slot is still free.
    assert_eq!(serve(&mut catcher, &out.bytes, &at(40000)).1.len(), 1);
}

#[test]
fn an_unknown_kind_is_passed_over() {
    let mut catcher = node(4, 1, 5001, &[]);
    let mut thrower = node(4, 2, 5002, &[at(5001)]);
    let mut bytes = frame(Kind::Beacon, &[1, 2, 3]);
    bytes[6..8].copy_from_slice(&999u16.to_le_bytes());
    let out = throw_right(&mut thrower);
    let mut both = bytes.clone();
    both.extend_from_slice(&out.bytes);
    let (reply, arrived, note) = serve(&mut catcher, &both, &at(40000));
    assert_eq!(note, None);
    assert_eq!(arrived.len(), 1);
    // And likewise on the way back.
    let mut answer = bytes;
    answer.extend(reply);
    assert!(matches!(outcome(&out, answer), NetEvent::Landed { .. }));
}

#[test]
fn only_the_last_accepted_throws_are_remembered() {
    let mut catcher = node(4, 1, 5001, &[]);
    let mut first = None;
    for id in 0..=SEEN_RING as u64 {
        let t = Throw {
            throw_id: id,
            from_node: 2,
            from_port: 0,
            edge: Edge::Top,
            along: single(0.5),
            vel_x: single(0.0),
            vel_y: single(1.0),
            sats: Vec::new(),
        }
        .encode();
        assert_eq!(serve(&mut catcher, &t, &at(40000)).1.len(), 1);
        catcher.commit_arrival();
        if id == 0 {
            first = Some(t);
        } else if id == 1 {
            assert!(serve(&mut catcher, &t, &at(40000)).1.is_empty());
        }
    }
    // The oldest has been pushed out.
    assert_eq!(serve(&mut catcher, &first.unwrap(), &at(40000)).1.len(), 1);
    // A port of zero is no return address.
    assert!(catcher.peers(0).is_empty());
}

#[test]
fn a_receipt_is_waited_for() {
    let mut w = Awaiting::new(5, 0);
    let ack = encode_ack(5);
    assert!(w.on_read(Reading::Bytes(ack[..7].to_vec())).is_none());
    assert_eq!(w.on_read(Reading::Bytes(ack[7..].to_vec())), Some(Ok(Delivery::Ack)));

    // A receipt for another throw is not ours.
    let mut w = Awaiting::new(5, 0);
    let mut bytes = encode_ack(4);
    bytes.extend(encode_nack(5, NackReason::WrongGroup));
    assert_eq!(
        w.on_read(Reading::Bytes(bytes)),
        Some(Ok(Delivery::Nack(NackReason::WrongGroup)))
    );

    let mut w = Awaiting::new(5, 0);
    assert_eq!(
        w.on_read(Reading::Closed),
        Some(Err("the peer closed the connection without a receipt".to_string()))
    );
    assert_eq!(
        w.on_read(Reading::TimedOut),
        Some(Err("no receipt within the deadline".to_string()))
    );
    assert_eq!(
        w.on_read(Reading::Failed("reset".into())),
        Some(Err("reading the receipt failed: reset".to_string()))
    );
    assert_eq!(
        w.on_read(Reading::Bytes(b"HTTP/1.1 400".to_vec())),
        Some(Err("the receipt did not parse: not a liquidMetal frame".to_string()))
    );
}

fn beacon(id: u64, name: &str, group: &str) -> Vec<u8> {
    Beacon {
        node_id: id,
        tcp_port: 6000 + id as u16,
        screen_w: 1920,
        screen_h: 1080,
        blobs: 0,
        capacity: 1,
        group: group.into(),
        name: name.into(),
    }
    .encode()
}

#[test]
fn a_beacon_makes_a_peer_until_it_falls_silent() {
    let mut n = node(4, 1, 5001, &[]);
    match n.hear(&beacon(2, "bench", "test"), &loopback(), 0) {
        Some(NetEvent::PeerUp { name, addr, screen }) => {
            assert_eq!((name.as_str(), addr, screen), ("bench (127.0.0.1:6002)", at(6002), (1920, 1080)));
        }
        other => panic!("{other:?}"),
    }
    // Heard again, it is no news.
    assert!(n.hear(&beacon(2, "bench", "test"), &loopback(), 10).is_none());
    assert_eq!(n.portal_edges(10), 0b1111);
    // Neither ourselves, nor another group, nor noise makes a peer.
    assert!(n.hear(&beacon(1, "me", "test"), &loopback(), 10).is_none());
    assert!(n.hear(&beacon(3, "them", "other"), &loopback(), 10).is_none());
    assert!(n.hear(b"noise", &loopback(), 10).is_none());
    assert_eq!(n.peers(10).len(), 1);

    let mut d = Discovery::new();
    let (_, gone) = d.tick(&mut n, 10 + PEER_TIMEOUT).expect("the first beacon is due at once");
    assert!(gone.is_empty());
    assert!(d.tick(&mut n, 10 + PEER_TIMEOUT + BEACON_INTERVAL - 1).is_none());
    let (_, gone) = d.tick(&mut n, 10 + PEER_TIMEOUT + BEACON_INTERVAL).expect("due again");
    assert_eq!(gone.len(), 1);
    assert!(matches!(&gone[0], NetEvent::PeerDown { name } if name == "bench (127.0.0.1:6002)"));
    assert_eq!(n.portal_edges(10 + PEER_TIMEOUT + BEACON_INTERVAL), 0);
}

#[test]
fn the_beacon_says_what_the_node_is() {
    let mut n = node(3, 77, 5001, &[]);
    n.set_resident(2);
    publish_screen_size(&mut n, 800, 600);
    match decode(&n.beacon()).unwrap().0 {
        Message::Beacon(b) => assert_eq!(
            b,
            Beacon {
                node_id: 77,
                tcp_port: 5001,
                screen_w: 800,
                screen_h: 600,
                blobs: 2,
                capacity: 3,
                group: "test".into(),
                name: "test-node".into(),
            }
        ),
        other => panic!("{other:?}"),
    }
}

fn peer(id: u64, name: &str, full: bool, edge: Option<Edge>) -> Peer {
    Peer {
        node_id: id,
        addr: at(id as u16),
        name: name.into(),
        screen: (0, 0),
        blobs: if full { 1 } else { 0 },
        capacity: 1,
        last_seen: 0,
        pinned_edge: edge,
    }
}

#[test]
fn peers_are_dealt_to_the_edges_in_order() {
    let list = arrange(vec![peer(3, "c", false, None), peer(1, "a", false, None)]);
    let names: Vec<&str> = list.iter().map(|p| p.name.as_str()).collect();
    assert_eq!(names, ["a", "c"]);
    let behind: Vec<String> =
        Edge::ALL.iter().map(|e| choose_peer(&list, &vec![], *e).unwrap().name).collect();
    assert!(behind.contains(&"a".to_string()) && behind.contains(&"c".to_string()));

    // A full peer waits while another has room.
    let list = arrange(vec![peer(1, "a", true, None), peer(2, "b", false, None)]);
    for e in Edge::ALL {
        assert_eq!(choose_peer(&list, &vec![], e).unwrap().name, "b");
    }
    // One that is all there is gets the throw, full or not: it will say so itself.
    let list = arrange(vec![peer(1, "a", true, None)]);
    assert!(list[0].looks_full());
    assert_eq!(choose_peer(&list, &vec![], Edge::Left).unwrap().name, "a");
    assert_eq!(peer(9, "", false, None).label(), "127.0.0.1:9");
}

fn pinning(pinned: Vec<Pin>) -> Net {
    Net::start(
        NetConfig {
            group: "test".into(),
            name: "t".into(),
            capacity: 4,
            discovery: true,
            pinned,
        },
        1,
        5001,
    )
}

fn door(n: &Net, edge: Edge) -> Option<Address> {
    n.peer_for_edge(edge, 0).map(|p| p.addr)
}

#[test]
fn a_pin_holds_once_the_peer_is_heard() {
    // Node 3 announces port 6003, which is pinned to the left; node 5 announces 6005.
    let mut n = pinning(vec![pin(Some(Edge::Left), at(6003))]);
    n.hear(&beacon(3, "c", "test"), &loopback(), 0);
    n.hear(&beacon(5, "e", "test"), &loopback(), 0);
    assert_eq!(door(&n, Edge::Left), Some(at(6003)));
    assert_eq!(n.peer_for_edge(Edge::Left, 0).unwrap().name, "c", "what was heard is known");
    for e in [Edge::Right, Edge::Top, Edge::Bottom] {
        assert_eq!(door(&n, e), Some(at(6005)), "a pinned peer is behind no other edge");
    }
    // Alone, the pinned peer opens its own edge and nothing else.
    let mut n = pinning(vec![pin(Some(Edge::Left), at(6003))]);
    n.hear(&beacon(3, "c", "test"), &loopback(), 0);
    assert_eq!(n.portal_edges(0), Edge::Left.bit());
}

#[test]
fn a_pin_holds_once_the_peer_has_thrown() {
    let mut n = pinning(vec![pin(Some(Edge::Top), at(5002)), pin(None, at(9))]);
    let mut thrower = node(4, 2, 5002, &[at(5001)]);
    let out = throw_right(&mut thrower);
    serve(&mut n, &out.bytes, &at(40000));
    assert_eq!(door(&n, Edge::Top), Some(at(5002)));
    assert_eq!(door(&n, Edge::Right), Some(at(9)));
}

#[test]
fn one_peer_can_be_pinned_to_two_edges() {
    let n = pinning(vec![pin(Some(Edge::Left), at(9)), pin(Some(Edge::Right), at(9))]);
    assert_eq!((door(&n, Edge::Left), door(&n, Edge::Right)), (Some(at(9)), Some(at(9))));
    assert_eq!((door(&n, Edge::Top), door(&n, Edge::Bottom)), (None, None));
    assert_eq!(n.peers(0).len(), 1);
}

#[test]
fn of_two_peers_pinned_to_one_edge_the_first_listed_wins() {
    // Nothing but the address tells these two apart, and `...:10` is written before `...:9`.
    let n = pinning(vec![pin(Some(Edge::Left), at(9)), pin(Some(Edge::Left), at(10))]);
    assert_eq!(n.peers(0).iter().map(|p| p.addr.port).collect::<Vec<_>>(), [10, 9]);
    assert_eq!(door(&n, Edge::Left), Some(at(10)));
    // One that has been heard is listed by its node id, behind those of which there is none.
    let pins = vec![pin(Some(Edge::Left), at(6003)), pin(Some(Edge::Left), at(6005))];
    let mut n = pinning(pins);
    n.hear(&beacon(3, "c", "test"), &loopback(), 0);
    assert_eq!(door(&n, Edge::Left), Some(at(6005)));
    n.hear(&beacon(5, "e", "test"), &loopback(), 0);
    assert_eq!(door(&n, Edge::Left), Some(at(6003)));
}

/// A peer named without a port.
fn host(edge: Option<Edge>) -> Pin {
    Pin { edge, addr: at(DISCOVERY_PORT), bare: true }
}

#[test]
fn a_bare_host_is_reached_once_its_beacon_is_heard() {
    let mut n = pinning(vec![host(Some(Edge::Left)), pin(Some(Edge::Top), at(9))]);
    assert_eq!(door(&n, Edge::Left), Some(at(DISCOVERY_PORT)));
    n.hear(&beacon(3, "c", "test"), &loopback(), 0);
    assert_eq!(door(&n, Edge::Left), Some(at(6003)));
    // A second node on that host does not take its place, nor a port that was named.
    n.hear(&beacon(5, "e", "test"), &loopback(), 1);
    assert_eq!((door(&n, Edge::Left), door(&n, Edge::Top)), (Some(at(6003)), Some(at(9))));
    // Once the first has fallen silent, the host is where it is heard next.
    n.prune(PEER_TIMEOUT + 1);
    n.hear(&beacon(5, "e", "test"), &loopback(), PEER_TIMEOUT + 2);
    assert_eq!(door(&n, Edge::Left), Some(at(6005)));
    // A beacon from another host says nothing about this one.
    let elsewhere = Ip { v6: false, bits: 0x0a00_0001, text: "10.0.0.1".into() };
    let mut n = pinning(vec![host(Some(Edge::Left))]);
    n.hear(&beacon(3, "c", "test"), &elsewhere, 0);
    assert_eq!(door(&n, Edge::Left), Some(at(DISCOVERY_PORT)));
    // Unpinned, the host is one peer and not two.
    let mut n = pinning(vec![host(None)]);
    n.hear(&beacon(3, "c", "test"), &loopback(), 0);
    assert_eq!(n.peers(0).len(), 1);
    assert_eq!(door(&n, Edge::Right), Some(at(6003)));
}

#[test]
fn a_named_port_is_kept_whichever_it_is() {
    let mut n = pinning(vec![pin(Some(Edge::Left), at(DISCOVERY_PORT))]);
    n.hear(&beacon(3, "c", "test"), &loopback(), 0);
    assert_eq!(door(&n, Edge::Left), Some(at(DISCOVERY_PORT)));
}

#[test]
fn a_setback_says_what_went_wrong() {
    assert_eq!(Setback::Unreachable(at(9)).describe("no"), "could not reach 127.0.0.1:9: no");
    assert_eq!(Setback::ReadTimeout.describe("no"), "could not set a read timeout: no");
    assert_eq!(Setback::WriteTimeout.describe("no"), "could not set a write timeout: no");
    assert_eq!(Setback::Unsent.describe("no"), "could not send the throw: no");
}

#[test]
fn the_first_receipt_in_all_the_bytes_decides() {
    // The refusal comes before the acknowledgement, in whatever pieces.
    let mut bytes = encode_ack(41);
    bytes.extend(encode_nack(42, NackReason::Full));
    bytes.extend(encode_ack(42));
    for size in 1..=bytes.len() {
        let mut w = Awaiting::new(42, 0);
        let said = bytes
            .chunks(size)
            .filter_map(|part| {
                assert!(w.expired(ACK_TIMEOUT - 1).is_none());
                w.on_read(Reading::Bytes(part.to_vec()))
            })
            .next();
        assert_eq!(said, Some(Ok(Delivery::Nack(NackReason::Full))), "pieces of {size}");
    }
    // Receipts for others only, and then nothing more: it is lost.
    let mut w = Awaiting::new(42, 0);
    assert!(w.on_read(Reading::Bytes(encode_ack(41))).is_none());
    let why = w.expired(ACK_TIMEOUT).expect("the wait is over");
    match report(42, "b".into(), Err(why)) {
        NetEvent::Lost { throw_id, why, .. } => assert!(throw_id == 42 && !why.is_empty()),
        other => panic!("{other:?}"),
    }
}

#[test]
fn a_connection_is_answered_in_order_however_it_comes() {
    let mut stream = Vec::new();
    let mut want = Vec::new();
    let mut thrower = node(4, 2, 5002, &[at(5001)]);
    for k in 0..4 {
        let out = throw_right(&mut thrower);
        stream.extend(&out.bytes);
        stream.extend(beacon(7, "x", "test"));
        let full = encode_nack(out.throw_id, NackReason::Full);
        want.extend(if k < 2 { encode_ack(out.throw_id) } else { full });
    }
    let mut whole = node(2, 1, 5001, &[]);
    let (sent, arrived, note) = serve(&mut whole, &stream, &at(40000));
    assert_eq!((sent, arrived.len(), note), (want.clone(), 2, None));

    // Byte by byte, the answers are the same.
    let mut slow = node(2, 1, 5001, &[]);
    let (mut buf, mut sent, mut caught) = (Vec::new(), Vec::new(), 0);
    for byte in stream {
        buf.push(byte);
        match slow.receive(&buf, &at(40000), 0) {
            Inbound::Wait => {}
            Inbound::Skip { used } => {
                buf.drain(..used);
            }
            Inbound::Reply { used, reply } => {
                buf.drain(..used);
                sent.extend(reply);
            }
            Inbound::Offer { used, throw } => {
                buf.drain(..used);
                sent.extend(slow.settle(throw.throw_id, true));
                caught += 1;
            }
            Inbound::Close { note } => panic!("{note}"),
        }
    }
    assert_eq!((sent, caught, buf.len()), (want, 2, 0));
}

#[test]
fn a_receipt_may_come_in_pieces() {
    let mut receipt = encode_ack(41);
    receipt.extend(encode_nack(42, NackReason::Full));
    let mut w = Awaiting::new(42, 0);
    let last = receipt.pop().unwrap();
    for byte in receipt {
        assert!(w.on_read(Reading::Bytes(vec![byte])).is_none());
    }
    assert_eq!(w.on_read(Reading::Bytes(vec![last])), Some(Ok(Delivery::Nack(NackReason::Full))));
}
