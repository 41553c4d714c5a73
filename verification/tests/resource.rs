use bevy_prototype_networking_laminar::{
    BindError, Connection, Endpoint, NetworkDelivery, NetworkResource, SendConfig,
};

fn local(port: u16) -> Endpoint {
    Endpoint::V4 { ip: 0x7f00_0001, port }
}

#[test]
fn new_resource_is_empty() {
    let net = NetworkResource::new();
    assert_eq!(net.default_socket(), None);
    assert!(net.bound_sockets().is_empty());
    assert!(net.connections().is_empty());
}

#[test]
fn bind_records_handle_and_sets_default() {
    let mut net = NetworkResource::new();
    let a = net.bind(Ok(())).unwrap();
    assert_eq!(net.bound_sockets(), &vec![a]);
    assert_eq!(net.default_socket(), Some(a));
    let b = net.bind(Ok(())).unwrap();
    assert_ne!(a, b);
    assert_eq!(net.bound_sockets(), &vec![a, b]);
    assert_eq!(net.default_socket(), Some(a));
}

#[test]
fn bind_failure_changes_nothing() {
    let mut net = NetworkResource::new();
    assert_eq!(net.bind(Err(BindError::AddressInUse)), Err(BindError::AddressInUse));
    assert_eq!(net.bind(Err(BindError::InvalidAddress)), Err(BindError::InvalidAddress));
    assert_eq!(net.bind(Err(BindError::PermissionDenied)), Err(BindError::PermissionDenied));
    assert_eq!(net.bind(Err(BindError::Transport)), Err(BindError::Transport));
    assert_eq!(net.default_socket(), None);
    assert!(net.bound_sockets().is_empty());
    let a = net.bind(Ok(())).unwrap();
    assert_eq!(net.bind(Err(BindError::AddressInUse)), Err(BindError::AddressInUse));
    assert_eq!(net.bound_sockets(), &vec![a]);
    assert_eq!(net.default_socket(), Some(a));
}

#[test]
fn handles_are_version_four_uuids() {
    let mut net = NetworkResource::new();
    for _ in 0..16 {
        let h = net.bind(Ok(())).unwrap();
        let bits = h.as_u128();
        assert_eq!((bits >> 76) & 0xf, 4);
        assert_eq!((bits >> 62) & 0x3, 2);
    }
    assert_eq!(net.bound_sockets().len(), 16);
}

#[test]
fn add_connection_is_idempotent() {
    let mut net = NetworkResource::new();
    let a = net.bind(Ok(())).unwrap();
    let c = Connection { addr: local(12350), socket: a };
    assert!(!net.has_connection(c));
    net.add_connection(c);
    assert!(net.has_connection(c));
    net.add_connection(c);
    assert_eq!(net.connections(), &vec![c]);
}

#[test]
fn remove_connection_keeps_the_order_of_the_rest() {
    let mut net = NetworkResource::new();
    let a = net.bind(Ok(())).unwrap();
    let c1 = Connection { addr: local(1), socket: a };
    let c2 = Connection { addr: local(2), socket: a };
    let c3 = Connection { addr: local(3), socket: a };
    net.add_connection(c1);
    net.add_connection(c2);
    net.add_connection(c3);
    net.remove_connection(c2);
    assert_eq!(net.connections(), &vec![c1, c3]);
    net.remove_connection(c2);
    assert_eq!(net.connections(), &vec![c1, c3]);
    net.remove_connection(c1);
    net.remove_connection(c3);
    assert!(net.connections().is_empty());
}

#[test]
fn same_remote_on_two_sockets_is_two_connections() {
    let mut net = NetworkResource::new();
    let a = net.bind(Ok(())).unwrap();
    let b = net.bind(Ok(())).unwrap();
    let on_a = Connection { addr: local(9), socket: a };
    let on_b = Connection { addr: local(9), socket: b };
    assert_ne!(on_a, on_b);
    net.add_connection(on_a);
    net.add_connection(on_b);
    assert_eq!(net.connections().len(), 2);
    assert_eq!(net.connections_for_socket(a), vec![on_a]);
    assert_eq!(net.connections_for_socket(b), vec![on_b]);
}

#[test]
fn resolve_socket_prefers_the_choice_and_checks_that_it_is_bound() {
    let mut net = NetworkResource::new();
    assert_eq!(net.resolve_socket(None), None);
    let mut other = NetworkResource::new();
    let stranger = other.bind(Ok(())).unwrap();
    assert_eq!(net.resolve_socket(Some(stranger)), None);
    let a = net.bind(Ok(())).unwrap();
    let b = net.bind(Ok(())).unwrap();
    assert_eq!(net.resolve_socket(None), Some(a));
    assert_eq!(net.resolve_socket(Some(b)), Some(b));
    assert_eq!(net.resolve_socket(Some(stranger)), None);
    assert_eq!(net.get_socket_or_default(None), a);
    assert_eq!(net.get_socket_or_default(Some(b)), b);
}

#[test]
fn send_without_config_leaves_from_the_first_bound_socket() {
    let mut net = NetworkResource::new();
    let a = net.bind(Ok(())).unwrap();
    let _b = net.bind(Ok(())).unwrap();
    let msg = net.send(local(12351), b"hello", NetworkDelivery::UnreliableUnordered);
    assert_eq!(msg.socket_handle, a);
    assert_eq!(msg.destination, local(12351));
    assert_eq!(msg.delivery, NetworkDelivery::UnreliableUnordered);
    assert_eq!(msg.payload(), b"hello".to_vec());
    assert_eq!(&msg.message[..], b"hello");
}

#[test]
fn send_with_config_leaves_from_the_chosen_socket() {
    let mut net = NetworkResource::new();
    let _a = net.bind(Ok(())).unwrap();
    let b = net.bind(Ok(())).unwrap();
    let msg = net.send_with_config(
        local(12350),
        b"Good. Thanks!",
        NetworkDelivery::ReliableSequenced(Some(1)),
        SendConfig { socket: Some(b) },
    );
    assert_eq!(msg.socket_handle, b);
    assert_eq!(msg.destination, local(12350));
    assert_eq!(msg.delivery, NetworkDelivery::ReliableSequenced(Some(1)));
    assert_eq!(msg.payload(), b"Good. Thanks!".to_vec());
}

#[test]
fn send_copies_the_payload() {
    let mut net = NetworkResource::new();
    let _a = net.bind(Ok(())).unwrap();
    let mut data = vec![1u8, 2, 3];
    let msg = net.send(local(1), &data, NetworkDelivery::ReliableUnordered);
    data[0] = 9;
    assert_eq!(msg.payload(), vec![1u8, 2, 3]);
    let empty = net.send(local(1), &[], NetworkDelivery::ReliableUnordered);
    assert_eq!(empty.payload(), Vec::<u8>::new());
}

#[test]
fn broadcast_sends_one_message_per_connection_of_the_socket() {
    let mut net = NetworkResource::new();
    let a = net.bind(Ok(())).unwrap();
    let b = net.bind(Ok(())).unwrap();
    let c1 = Connection { addr: local(1), socket: a };
    let c2 = Connection { addr: local(2), socket: b };
    let c3 = Connection { addr: local(3), socket: a };
    let c4 = Connection { addr: local(4), socket: a };
    net.add_connection(c1);
    net.add_connection(c2);
    net.add_connection(c3);
    net.add_connection(c4);
    let msgs = net.broadcast(b"tick", NetworkDelivery::ReliableOrdered(None));
    assert_eq!(msgs.len(), net.connections_for_socket(a).len());
    assert_eq!(msgs.len(), 3);
    let to: Vec<Endpoint> = msgs.iter().map(|m| m.destination).collect();
    assert_eq!(to, vec![local(1), local(3), local(4)]);
    for m in &msgs {
        assert_eq!(m.socket_handle, a);
        assert_eq!(m.delivery, NetworkDelivery::ReliableOrdered(None));
        assert_eq!(m.payload(), b"tick".to_vec());
    }
    let on_b = net.broadcast_with_config(
        b"tock",
        NetworkDelivery::UnreliableSequenced(Some(7)),
        SendConfig { socket: Some(b) },
    );
    assert_eq!(on_b.len(), 1);
    assert_eq!(on_b[0].destination, local(2));
    assert_eq!(on_b[0].socket_handle, b);
    assert_eq!(on_b[0].payload(), b"tock".to_vec());
}

#[test]
fn broadcast_without_connections_sends_nothing() {
    let mut net = NetworkResource::new();
    let _a = net.bind(Ok(())).unwrap();
    assert!(net.broadcast(b"x", NetworkDelivery::UnreliableUnordered).is_empty());
}

#[test]
fn send_config_default_chooses_no_socket() {
    assert_eq!(SendConfig::default().socket, None);
}
