use bevy_prototype_networking_laminar::{
    process_network_events, Connection, Endpoint, Message, NetworkDelivery, NetworkEvent,
    NetworkResource, NextStep, SendConfig, SocketInstruction, TransportConfig, TransportEvent,
    Worker, IDLE_SLEEP_MICROS,
};
use bevy::app::Events;

fn local(port: u16) -> Endpoint {
    Endpoint::V4 { ip: 0x7f00_0001, port }
}

/// Runs one tick on an empty queue and returns what it published: for each
/// event its kind (0 connect, 1 disconnect, 2 message), connection, payload.
fn tick(net: &mut NetworkResource, events: Vec<NetworkEvent>) -> Vec<(u8, Connection, Vec<u8>)> {
    let mut queue = Events::<NetworkEvent>::default();
    process_network_events(net, events, &mut queue);
    let mut reader = queue.get_reader();
    reader
        .iter(&queue)
        .map(|e| match e {
            NetworkEvent::Connected(c) => (0u8, *c, Vec::new()),
            NetworkEvent::Disconnected(c) => (1u8, *c, Vec::new()),
            NetworkEvent::Message(c, b) => (2u8, *c, b.to_vec()),
        })
        .collect()
}

#[test]
fn transport_defaults() {
    let config = TransportConfig::default();
    assert_eq!(config.idle_connection_timeout_ms, 2000);
    assert_eq!(config.heartbeat_interval_ms, Some(1000));
    assert_eq!(config.max_packets_in_flight, 2048);
}

#[test]
fn new_worker_owns_nothing() {
    let worker = Worker::new();
    assert!(worker.sockets().is_empty());
}

#[test]
fn add_socket_registers_each_handle_once() {
    let mut net = NetworkResource::new();
    let a = net.bind(Ok(())).unwrap();
    let b = net.bind(Ok(())).unwrap();
    let mut worker = Worker::new();
    assert!(!worker.owns(a));
    worker.apply(SocketInstruction::AddSocket(a));
    assert!(worker.owns(a));
    assert!(!worker.owns(b));
    worker.apply(SocketInstruction::AddSocket(b));
    worker.apply(SocketInstruction::AddSocket(a));
    assert_eq!(worker.sockets(), &vec![a, b]);
}

#[test]
fn messages_of_unknown_sockets_are_dropped() {
    let mut net = NetworkResource::new();
    let a = net.bind(Ok(())).unwrap();
    let b = net.bind(Ok(())).unwrap();
    let mut worker = Worker::new();
    worker.apply(SocketInstruction::AddSocket(a));
    let msgs: Vec<Message> = vec![
        net.send_with_config(
            local(1),
            b"one",
            NetworkDelivery::ReliableOrdered(Some(1)),
            SendConfig { socket: Some(a) },
        ),
        net.send_with_config(
            local(2),
            b"two",
            NetworkDelivery::ReliableOrdered(Some(1)),
            SendConfig { socket: Some(b) },
        ),
        net.send_with_config(
            local(3),
            b"three",
            NetworkDelivery::UnreliableUnordered,
            SendConfig { socket: Some(a) },
        ),
    ];
    let out = worker.route(msgs);
    assert_eq!(out.len(), 2);
    assert_eq!(out[0].destination, local(1));
    assert_eq!(out[0].payload(), b"one".to_vec());
    assert_eq!(out[0].delivery, NetworkDelivery::ReliableOrdered(Some(1)));
    assert_eq!(out[0].socket_handle, a);
    assert_eq!(out[1].destination, local(3));
    assert_eq!(out[1].payload(), b"three".to_vec());
    assert_eq!(out[1].delivery, NetworkDelivery::UnreliableUnordered);
}

#[test]
fn instructions_are_carried_out_before_messages_are_routed() {
    let mut net = NetworkResource::new();
    let a = net.bind(Ok(())).unwrap();
    let msg = net.send(local(7), b"early", NetworkDelivery::ReliableUnordered);
    let mut worker = Worker::new();
    let out = worker.take_in(vec![SocketInstruction::AddSocket(a)], vec![msg]);
    assert_eq!(out.len(), 1);
    assert_eq!(out[0].socket_handle, a);
    assert_eq!(out[0].payload(), b"early".to_vec());
    assert_eq!(worker.sockets(), &vec![a]);
}

#[test]
fn take_in_without_instruction_drops_the_message() {
    let mut net = NetworkResource::new();
    let _a = net.bind(Ok(())).unwrap();
    let msg = net.send(local(7), b"lost", NetworkDelivery::ReliableUnordered);
    let mut worker = Worker::new();
    let out = worker.take_in(Vec::new(), vec![msg]);
    assert!(out.is_empty());
    assert!(worker.sockets().is_empty());
}

#[test]
fn transport_events_are_translated() {
    let mut net = NetworkResource::new();
    let h = net.bind(Ok(())).unwrap();
    let c = Connection { addr: local(12350), socket: h };
    match Worker::translate(h, TransportEvent::Connect(local(12350))) {
        NetworkEvent::Connected(got) => assert_eq!(got, c),
        other => panic!("{:?}", other),
    }
    match Worker::translate(h, TransportEvent::Disconnect(local(12350))) {
        NetworkEvent::Disconnected(got) => assert_eq!(got, c),
        other => panic!("{:?}", other),
    }
    match Worker::translate(h, TransportEvent::Timeout(local(12350))) {
        NetworkEvent::Disconnected(got) => assert_eq!(got, c),
        other => panic!("{:?}", other),
    }
    match Worker::translate(h, TransportEvent::Packet(local(12350), vec![1, 2, 3])) {
        NetworkEvent::Message(got, payload) => {
            assert_eq!(got, c);
            assert_eq!(payload.to_vec(), vec![1u8, 2, 3]);
        }
        other => panic!("{:?}", other),
    }
}

#[test]
fn report_keeps_the_order_of_the_transport() {
    let mut net = NetworkResource::new();
    let h = net.bind(Ok(())).unwrap();
    let told = Worker::report(
        h,
        vec![
            TransportEvent::Connect(local(1)),
            TransportEvent::Packet(local(1), b"a".to_vec()),
            TransportEvent::Packet(local(1), b"b".to_vec()),
            TransportEvent::Timeout(local(1)),
        ],
    );
    assert_eq!(told.len(), 4);
    assert!(matches!(told[0], NetworkEvent::Connected(c) if c.addr == local(1) && c.socket == h));
    assert!(matches!(&told[1], NetworkEvent::Message(_, b) if &b[..] == b"a"));
    assert!(matches!(&told[2], NetworkEvent::Message(_, b) if &b[..] == b"b"));
    assert!(matches!(told[3], NetworkEvent::Disconnected(c) if c.addr == local(1)));
    assert!(Worker::report(h, Vec::new()).is_empty());
}

#[test]
fn after_pass_sleeps_only_when_idle() {
    assert_eq!(IDLE_SLEEP_MICROS, 1000);
    assert_eq!(Worker::after_pass(false, 0), NextStep::Sleep(1000));
    assert_eq!(Worker::after_pass(false, 1), NextStep::Continue);
    assert_eq!(Worker::after_pass(false, 250), NextStep::Continue);
    assert_eq!(Worker::after_pass(true, 0), NextStep::Exit);
    assert_eq!(Worker::after_pass(true, 3), NextStep::Exit);
}

/// Server and client in one process, with the transport replaced by handing
/// each datagram over as a packet from the sender's endpoint.
#[test]
fn loopback_reliable_ordered() {
    let server_addr = local(12351);
    let client_addr = local(12350);
    let mut net = NetworkResource::new();
    let server = net.bind(Ok(())).unwrap();
    let client = net.bind(Ok(())).unwrap();
    let mut worker = Worker::new();

    let mut outbound = Vec::new();
    for i in 0..100 {
        outbound.push(net.send_with_config(
            server_addr,
            format!("n={}", i).as_bytes(),
            NetworkDelivery::ReliableOrdered(Some(1)),
            SendConfig { socket: Some(client) },
        ));
    }
    let to_transport = worker.take_in(
        vec![SocketInstruction::AddSocket(server), SocketInstruction::AddSocket(client)],
        outbound,
    );
    assert_eq!(to_transport.len(), 100);

    let mut arriving = vec![TransportEvent::Connect(client_addr)];
    for m in &to_transport {
        assert_eq!(m.socket_handle, client);
        assert_eq!(m.destination, server_addr);
        assert_eq!(m.delivery, NetworkDelivery::ReliableOrdered(Some(1)));
        arriving.push(TransportEvent::Packet(client_addr, m.payload()));
    }
    let told = Worker::report(server, arriving);
    let published = tick(&mut net, told);

    let from_client = Connection { addr: client_addr, socket: server };
    assert_eq!(published.len(), 101);
    for (i, e) in published.iter().take(100).enumerate() {
        assert_eq!(*e, (2u8, from_client, format!("n={}", i).into_bytes()));
    }
    assert_eq!(published[100], (0u8, from_client, Vec::new()));
    assert_eq!(net.connections(), &vec![from_client]);
}

/// Two sockets take turns: the server asks, the client answers.
#[test]
fn ping_pong_alternation() {
    let server_addr = local(12351);
    let client_addr = local(12350);
    let mut net = NetworkResource::new();
    let server = net.bind(Ok(())).unwrap();
    let client = net.bind(Ok(())).unwrap();
    let mut worker = Worker::new();
    worker.apply(SocketInstruction::AddSocket(server));
    worker.apply(SocketInstruction::AddSocket(client));

    let mut seen: Vec<(Connection, Vec<u8>)> = Vec::new();
    let mut from_server = true;
    for _ in 0..4 {
        let (to, from_addr, text, socket, receiver) = if from_server {
            (client_addr, server_addr, "How are things?", server, client)
        } else {
            (server_addr, client_addr, "Good. Thanks!", client, server)
        };
        let msg = net.send_with_config(
            to,
            text.as_bytes(),
            NetworkDelivery::ReliableSequenced(Some(1)),
            SendConfig { socket: Some(socket) },
        );
        let routed = worker.route(vec![msg]);
        assert_eq!(routed.len(), 1);
        let told =
            Worker::report(receiver, vec![TransportEvent::Packet(from_addr, routed[0].payload())]);
        for (kind, c, payload) in tick(&mut net, told) {
            if kind == 2 {
                seen.push((c, payload));
            }
        }
        from_server = !from_server;
    }
    let at_client = Connection { addr: server_addr, socket: client };
    let at_server = Connection { addr: client_addr, socket: server };
    assert_eq!(
        seen,
        vec![
            (at_client, b"How are things?".to_vec()),
            (at_server, b"Good. Thanks!".to_vec()),
            (at_client, b"How are things?".to_vec()),
            (at_server, b"Good. Thanks!".to_vec()),
        ]
    );
}

/// A peer that falls silent is reported by the transport as timed out; the
/// host sees one disconnect.
#[test]
fn disconnect_via_idle_timeout() {
    let mut net = NetworkResource::new();
    let a = net.bind(Ok(())).unwrap();
    let peer = local(12350);
    let up = Worker::report(
        a,
        vec![TransportEvent::Connect(peer), TransportEvent::Packet(peer, b"hi".to_vec())],
    );
    let first = tick(&mut net, up);
    assert_eq!(first.len(), 2);
    let c = Connection { addr: peer, socket: a };
    assert!(net.has_connection(c));
    let down =
        Worker::report(a, vec![TransportEvent::Timeout(peer), TransportEvent::Disconnect(peer)]);
    let second = tick(&mut net, down);
    assert_eq!(second, vec![(1u8, c, Vec::new())]);
    assert!(!net.has_connection(c));
}
