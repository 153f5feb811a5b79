//! The dispatch table, the service bus lifecycle, the ping exchange and
//! the handshake state machine.

use birdnet::connection::ConnectionService;
use birdnet::connection::MessageForConnection;
use birdnet::datagram::InternalMessage;
use birdnet::datagram::Datagram;
use birdnet::dispatch::dispatch;
use birdnet::open_connection::MessageForOpenConnection;
use birdnet::open_connection::OpenConnectionService;
use birdnet::open_connection::OpenState;
use birdnet::open_connection::RejectReason;
use birdnet::ping::UnconnectedPong;
use birdnet::ping_service::MessageForPing;
use birdnet::ping_service::PingService;
use birdnet::reliability::Ordering;
use birdnet::reliability::Reliability;
use birdnet::service::SendError;
use birdnet::service::Service;
use birdnet::service::ServiceError;
use birdnet::service::ServiceKind;
use birdnet::service::ServiceManager;
use birdnet::service::ServiceMessage;
use birdnet::service::ServiceOutput;
use birdnet::service::connection_service_name;
use birdnet::service::open_connection_service_name;
use birdnet::service::ping_service_name;
use birdnet::types::RakString;
use birdnet::types::SystemAddress;
use birdnet::writer::encode_to_vec;

fn addr(last: u32) -> SystemAddress {
    SystemAddress::V4 { ip: 0x7f000000 + last, port: 19132 }
}

fn ping_service() -> Service {
    Service::new(ServiceKind::Ping(PingService::new(7, RakString(String::from("MOTD")))))
}

#[test]
fn dispatch_table() {
    // byte 0x01 routes to ping
    let routes = dispatch(addr(1), vec![0x01, 0xaa], false);
    assert_eq!(routes.len(), 1);
    assert_eq!(routes[0].service, "ping");
    assert!(matches!(
        routes[0].message,
        ServiceMessage::Ping(MessageForPing::RecvPing(_, _))
    ));

    // byte 0x08 routes to open_connection
    let routes = dispatch(addr(1), vec![0x08], false);
    assert_eq!(routes.len(), 1);
    assert_eq!(routes[0].service, "open_connection");

    // byte 0x17 routes to both open_connection and connection
    let routes = dispatch(addr(1), vec![0x17], false);
    assert_eq!(routes.len(), 2);
    assert_eq!(routes[0].service, "open_connection");
    assert_eq!(routes[1].service, "connection");

    // byte 0xff routes nowhere and does not error
    let routes = dispatch(addr(1), vec![0xff, 1, 2], false);
    assert_eq!(routes.len(), 0);

    // an empty payload routes nowhere
    let routes = dispatch(addr(1), Vec::new(), true);
    assert_eq!(routes.len(), 0);
}

#[test]
fn dispatch_open_connections_ping_needs_permission() {
    let routes = dispatch(addr(1), vec![0x02], false);
    assert_eq!(routes.len(), 0);
    let routes = dispatch(addr(1), vec![0x02], true);
    assert_eq!(routes.len(), 1);
    assert_eq!(routes[0].service, "ping");
}

#[test]
fn dispatch_datagram_range() {
    for b in [0x80u8, 0x84, 0x8f] {
        let routes = dispatch(addr(1), vec![b, 0, 0, 0], false);
        assert_eq!(routes.len(), 1);
        assert_eq!(routes[0].service, "connection");
        assert!(matches!(
            routes[0].message,
            ServiceMessage::Connection(MessageForConnection::RecvDatagram(_, _))
        ));
    }
    assert_eq!(dispatch(addr(1), vec![0x90], false).len(), 0);
}

#[test]
fn bus_lifecycle() {
    let mut bus = ServiceManager::new();
    assert!(bus.register(ping_service_name(), ping_service()).is_ok());

    // a second registration under the same name hands both back
    let (name, service) = bus.register(ping_service_name(), ping_service()).unwrap_err();
    assert_eq!(name, "ping");
    assert!(!service.is_disposed());

    // send to a name never registered is not-found
    let err = bus
        .send(
            &connection_service_name(),
            ServiceMessage::Ping(MessageForPing::Ping(addr(1))),
            0,
        )
        .unwrap_err();
    assert_eq!(err, SendError::NotFound);

    // a disposed service can never be registered
    let mut dead = ping_service();
    dead.shutdown();
    assert!(dead.is_disposed());
    let rejected = bus.register(connection_service_name(), dead);
    assert!(rejected.is_err());

    // shutdown removes; a second shutdown of the same name is a no-op
    bus.shutdown(&ping_service_name());
    bus.shutdown(&ping_service_name());
    let err = bus
        .send(
            &ping_service_name(),
            ServiceMessage::Ping(MessageForPing::Ping(addr(1))),
            0,
        )
        .unwrap_err();
    assert_eq!(err, SendError::NotFound);
}

#[test]
fn message_for_wrong_kind_is_ignored() {
    let mut bus = ServiceManager::new();
    bus.register(ping_service_name(), ping_service()).unwrap();
    let out = bus
        .send(
            &ping_service_name(),
            ServiceMessage::Connection(MessageForConnection::RecvConnectionLost(addr(1))),
            0,
        )
        .unwrap();
    assert!(matches!(out, ServiceOutput::Ignored));
}

#[test]
fn disposed_service_refuses_messages() {
    let mut service = ping_service();
    service.shutdown();
    let err = service
        .message(ServiceMessage::Ping(MessageForPing::Ping(addr(1))), 0)
        .unwrap_err();
    assert_eq!(err, ServiceError::Disposed);
}

#[test]
fn ping_exchange() {
    let mut service = PingService::new(7, RakString(String::from("MOTD")));

    // the first local ping goes out
    let out = service.handle_message(MessageForPing::Ping(addr(9)), 1000).unwrap();
    let ping_bytes = match out {
        ServiceOutput::Send(out) => {
            assert_eq!(out.len(), 1);
            assert_eq!(out[0].0, addr(9));
            out.into_iter().next().unwrap().1
        }
        _ => panic!("expected an outgoing ping"),
    };
    assert_eq!(ping_bytes[0], 0x01);

    // a second ping to the same address before the first resolves fails
    let err = service.handle_message(MessageForPing::Ping(addr(9)), 2000).unwrap_err();
    assert_eq!(err, ServiceError::AlreadyRequested);

    // a pong addressed to the pending ping resolves exactly it
    let pong = UnconnectedPong {
        id: 0x1c,
        ping_time: 1000,
        server_id: 99,
        information: RakString(String::from("server")),
    };
    let pong_bytes = encode_to_vec(&pong).unwrap();
    let out = service
        .handle_message(MessageForPing::RecvPong(addr(9), pong_bytes), 3000)
        .unwrap();
    match out {
        ServiceOutput::Resolved(a, p) => {
            assert_eq!(a, addr(9));
            assert_eq!(p.ping_time, 1000);
            assert_eq!(p.server_id, 99);
            assert_eq!(p.information.into_inner(), "server");
        }
        _ => panic!("expected the pending ping to resolve"),
    }

    // the pending entry is gone, so the address can be pinged again
    assert!(service.handle_message(MessageForPing::Ping(addr(9)), 4000).is_ok());
}

#[test]
fn ping_service_answers_pings() {
    let mut service = PingService::new(0xbeef, RakString(String::from("MOTD")));
    let ping = birdnet::ping::UnconnectedPing { id: 0x01, ping_time: 555, client_id: 3 };
    let out = service
        .handle_message(
            MessageForPing::RecvPing(addr(4), encode_to_vec(&ping).unwrap()),
            0,
        )
        .unwrap();
    match out {
        ServiceOutput::Send(out) => {
            assert_eq!(out.len(), 1);
            assert_eq!(out[0].0, addr(4));
            let mut reader = birdnet::reader::BinaryReader::new(out[0].1.clone());
            let pong: UnconnectedPong =
                birdnet::reader::BinaryDecode::decode(&mut reader).unwrap();
            assert_eq!(pong.id, 0x1c);
            assert_eq!(pong.ping_time, 555);
            assert_eq!(pong.server_id, 0xbeef);
            assert_eq!(pong.information.into_inner(), "MOTD");
        }
        _ => panic!("expected a pong"),
    }

    // a malformed ping is dropped without effect
    let out = service
        .handle_message(MessageForPing::RecvPing(addr(4), vec![0x01, 0x02]), 0)
        .unwrap();
    assert!(matches!(out, ServiceOutput::Ignored));
}

#[test]
fn handshake_completes() {
    // the client side
    let mut client = OpenConnectionService::new(1, 100, 1400, false);
    // the server side
    let mut server = OpenConnectionService::new(2, 200, 1200, true);

    let out = client
        .handle_message(MessageForOpenConnection::Connect(addr(2)))
        .unwrap();
    let request1 = match out {
        ServiceOutput::Send(mut out) => out.remove(0).1,
        _ => panic!("expected the first request"),
    };
    assert_eq!(client.session_state(addr(2)), Some(OpenState::RequestSent1));

    // connecting again while the handshake runs fails
    let err = client
        .handle_message(MessageForOpenConnection::Connect(addr(2)))
        .unwrap_err();
    assert_eq!(err, ServiceError::AlreadyRequested);

    let out = server
        .handle_message(MessageForOpenConnection::RecvRequest1(addr(1), request1))
        .unwrap();
    let reply1 = match out {
        ServiceOutput::Send(mut out) => out.remove(0).1,
        _ => panic!("expected the first reply"),
    };
    assert_eq!(reply1[0], 0x06);

    let out = client
        .handle_message(MessageForOpenConnection::RecvReply1(addr(2), reply1))
        .unwrap();
    let request2 = match out {
        ServiceOutput::Send(mut out) => out.remove(0).1,
        _ => panic!("expected the second request"),
    };
    assert_eq!(client.session_state(addr(2)), Some(OpenState::RequestSent2));

    let out = server
        .handle_message(MessageForOpenConnection::RecvRequest2(addr(1), request2))
        .unwrap();
    let reply2 = match out {
        ServiceOutput::Send(mut out) => out.remove(0).1,
        _ => panic!("expected the second reply"),
    };
    assert_eq!(reply2[0], 0x08);

    let out = client
        .handle_message(MessageForOpenConnection::RecvReply2(addr(2), reply2))
        .unwrap();
    assert!(matches!(out, ServiceOutput::Established(a) if a == addr(2)));
    assert_eq!(client.session_state(addr(2)), Some(OpenState::Connected));
}

#[test]
fn handshake_version_mismatch_is_rejected() {
    // a server that speaks another protocol version answers with the
    // version rejection
    let mut server = OpenConnectionService::new(2, 200, 1200, true);
    let bad = birdnet::open::OpenConnectionRequest1 { id: 0x05, protocol: 250, mtu_size: 600 };
    let out = server
        .handle_message(
            MessageForOpenConnection::RecvRequest1(addr(1), encode_to_vec(&bad).unwrap()),
        )
        .unwrap();
    let rejection = match out {
        ServiceOutput::Send(mut out) => out.remove(0).1,
        _ => panic!("expected a rejection"),
    };
    assert_eq!(rejection[0], 0x19);

    // the client parks the session as terminally rejected
    let mut client = OpenConnectionService::new(1, 100, 1400, false);
    client
        .handle_message(MessageForOpenConnection::Connect(addr(2)))
        .unwrap();
    client
        .handle_message(
            MessageForOpenConnection::RecvIncompatibleProtocolVersion(addr(2), rejection),
        )
        .unwrap();
    assert_eq!(
        client.session_state(addr(2)),
        Some(OpenState::Rejected(RejectReason::IncompatibleVersion))
    );
}

#[test]
fn handshake_refuses_unsolicited_when_full() {
    let mut server = OpenConnectionService::new(2, 200, 1200, false);
    let req = birdnet::open::OpenConnectionRequest1 {
        id: 0x05,
        protocol: birdnet::constants::RAKNET_PROTOCOL_VERSION,
        mtu_size: 600,
    };
    let out = server
        .handle_message(
            MessageForOpenConnection::RecvRequest1(addr(1), encode_to_vec(&req).unwrap()),
        )
        .unwrap();
    let rejection = match out {
        ServiceOutput::Send(mut out) => out.remove(0).1,
        _ => panic!("expected a rejection"),
    };
    assert_eq!(rejection[0], 0x14);
}

#[test]
fn handshake_ban_and_disconnect() {
    let mut client = OpenConnectionService::new(1, 100, 1400, false);
    client
        .handle_message(MessageForOpenConnection::Connect(addr(2)))
        .unwrap();
    client
        .handle_message(MessageForOpenConnection::RecvConnectionBanned(addr(2)))
        .unwrap();
    assert_eq!(
        client.session_state(addr(2)),
        Some(OpenState::Rejected(RejectReason::Banned))
    );
    client
        .handle_message(MessageForOpenConnection::RecvDisconnectionNotification(addr(2)))
        .unwrap();
    assert_eq!(client.session_state(addr(2)), None);
}

#[test]
fn connection_service_decodes_datagrams() {
    let packet = InternalMessage::new(
        Reliability::Unreliable,
        Ordering::Unordered,
        false,
        None,
        b"payload".to_vec(),
    )
    .unwrap();
    let datagram = Datagram::new(3, vec![packet]).unwrap();
    let mut bytes = vec![0x84];
    bytes.extend_from_slice(&encode_to_vec(&datagram).unwrap());

    let mut service = ConnectionService::new();
    let out = service
        .handle_message(MessageForConnection::RecvDatagram(addr(6), bytes))
        .unwrap();
    match out {
        ServiceOutput::Received(a, d) => {
            assert_eq!(a, addr(6));
            assert_eq!(d.sequence_number(), 3);
            assert_eq!(d.packets().len(), 1);
            assert_eq!(d.packets()[0].payload(), &b"payload".to_vec());
        }
        _ => panic!("expected the decoded datagram"),
    }

    // a truncated datagram is dropped, never fatal
    let out = service
        .handle_message(MessageForConnection::RecvDatagram(addr(6), vec![0x84, 0x01]))
        .unwrap();
    assert!(matches!(out, ServiceOutput::Ignored));

    // acks are an extension point and are consumed without effect
    let out = service
        .handle_message(MessageForConnection::RecvAck(addr(6), vec![0xc0, 0, 1]))
        .unwrap();
    assert!(matches!(out, ServiceOutput::Ignored));
}

#[test]
fn bus_routes_dispatch_output_end_to_end() {
    let mut bus = ServiceManager::new();
    bus.register(ping_service_name(), ping_service()).unwrap();
    bus.register(
        open_connection_service_name(),
        Service::new(ServiceKind::OpenConnection(OpenConnectionService::new(7, 7, 1400, true))),
    )
    .unwrap();
    bus.register(
        connection_service_name(),
        Service::new(ServiceKind::Connection(ConnectionService::new())),
    )
    .unwrap();

    let ping = birdnet::ping::UnconnectedPing { id: 0x01, ping_time: 1, client_id: 2 };
    let payload = encode_to_vec(&ping).unwrap();
    let routes = dispatch(addr(3), payload, false);
    assert_eq!(routes.len(), 1);
    let mut replies = 0;
    for route in routes {
        match bus.send(&route.service, route.message, 0).unwrap() {
            ServiceOutput::Send(out) => {
                replies += out.len();
            }
            _ => {}
        }
    }
    assert_eq!(replies, 1);
}
