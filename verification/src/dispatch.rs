//! The packet dispatcher: the byte-to-route table that turns one received
//! UDP payload into typed messages for named services.
//!
//! The first byte of the payload selects the route.  A payload can go to
//! two services (a disconnection notice and a ban concern both the
//! handshake and the connection service); an empty payload or an unknown
//! byte goes nowhere, and never fails the receive loop.

use vstd::prelude::*;

verus! {

use crate::connection::MessageForConnection;
use crate::open_connection::MessageForOpenConnection;
use crate::ping_service::MessageForPing;
use crate::service::ServiceMessage;
use crate::types::SystemAddress;

/// One routing decision: the target service's name and the message to
/// deliver to it.
pub struct Route {
    pub service: String,
    pub message: ServiceMessage,
}

/// Route one received payload.  The table, by leading byte:
///
/// | byte        | routed to                                            |
/// |-------------|------------------------------------------------------|
/// | 0x01        | ping                                                 |
/// | 0x02        | ping, only when unsolicited connections are allowed  |
/// | 0x1c        | ping                                                 |
/// | 0x05 - 0x08 | open_connection                                      |
/// | 0x15        | open_connection and connection                       |
/// | 0x16        | connection                                           |
/// | 0x17        | open_connection and connection                       |
/// | 0x19        | open_connection                                      |
/// | 0xc0, 0xa0  | connection                                           |
/// | 0x80 - 0x8f | connection                                           |
/// | other       | nowhere                                              |
pub fn dispatch(addr: SystemAddress, buff: Vec<u8>, allow_incoming: bool) -> (r: Vec<Route>)
    ensures
        buff@.len() == 0 ==> r@.len() == 0,
        buff@.len() > 0 ==> {
            let b = buff@[0];
            if b == 0x01 || (b == 0x02 && allow_incoming) {
                r@.len() == 1 && r@[0].service@ == "ping"@ && (r@[0].message matches
                    ServiceMessage::Ping(MessageForPing::RecvPing(a, p)) && a == addr && p@
                    == buff@)
            } else if b == 0x1c {
                r@.len() == 1 && r@[0].service@ == "ping"@ && (r@[0].message matches
                    ServiceMessage::Ping(MessageForPing::RecvPong(a, p)) && a == addr && p@
                    == buff@)
            } else if b == 0x05 {
                r@.len() == 1 && r@[0].service@ == "open_connection"@ && (r@[0].message matches
                    ServiceMessage::OpenConnection(MessageForOpenConnection::RecvRequest1(a, p))
                    && a == addr && p@ == buff@)
            } else if b == 0x06 {
                r@.len() == 1 && r@[0].service@ == "open_connection"@ && (r@[0].message matches
                    ServiceMessage::OpenConnection(MessageForOpenConnection::RecvReply1(a, p)) && a
                    == addr && p@ == buff@)
            } else if b == 0x07 {
                r@.len() == 1 && r@[0].service@ == "open_connection"@ && (r@[0].message matches
                    ServiceMessage::OpenConnection(MessageForOpenConnection::RecvRequest2(a, p))
                    && a == addr && p@ == buff@)
            } else if b == 0x08 {
                r@.len() == 1 && r@[0].service@ == "open_connection"@ && (r@[0].message matches
                    ServiceMessage::OpenConnection(MessageForOpenConnection::RecvReply2(a, p)) && a
                    == addr && p@ == buff@)
            } else if b == 0x15 {
                r@.len() == 2 && r@[0].service@ == "open_connection"@ && (r@[0].message matches
                    ServiceMessage::OpenConnection(
                    MessageForOpenConnection::RecvDisconnectionNotification(a),
                ) && a == addr) && r@[1].service@ == "connection"@ && (r@[1].message matches
                    ServiceMessage::Connection(
                    MessageForConnection::RecvDisconnectionNotification(a),
                ) && a == addr)
            } else if b == 0x16 {
                r@.len() == 1 && r@[0].service@ == "connection"@ && (r@[0].message matches
                    ServiceMessage::Connection(MessageForConnection::RecvConnectionLost(a)) && a
                    == addr)
            } else if b == 0x17 {
                r@.len() == 2 && r@[0].service@ == "open_connection"@ && (r@[0].message matches
                    ServiceMessage::OpenConnection(MessageForOpenConnection::RecvConnectionBanned(
                        a,
                    ),
                ) && a == addr) && r@[1].service@ == "connection"@ && (r@[1].message matches
                    ServiceMessage::Connection(MessageForConnection::RecvConnectionBanned(a)) && a
                    == addr)
            } else if b == 0x19 {
                r@.len() == 1 && r@[0].service@ == "open_connection"@ && (r@[0].message matches
                    ServiceMessage::OpenConnection(
                    MessageForOpenConnection::RecvIncompatibleProtocolVersion(a, p),
                ) && a == addr && p@ == buff@)
            } else if b == 0xc0 {
                r@.len() == 1 && r@[0].service@ == "connection"@ && (r@[0].message matches
                    ServiceMessage::Connection(MessageForConnection::RecvAck(a, p)) && a == addr
                    && p@ == buff@)
            } else if b == 0xa0 {
                r@.len() == 1 && r@[0].service@ == "connection"@ && (r@[0].message matches
                    ServiceMessage::Connection(MessageForConnection::RecvNack(a, p)) && a == addr
                    && p@ == buff@)
            } else if 0x80 <= b <= 0x8f {
                r@.len() == 1 && r@[0].service@ == "connection"@ && (r@[0].message matches
                    ServiceMessage::Connection(MessageForConnection::RecvDatagram(a, p)) && a
                    == addr && p@ == buff@)
            } else {
                r@.len() == 0
            }
        },
{
    let mut routes: Vec<Route> = Vec::new();
    if buff.len() == 0 {
        return routes;
    }
    let b = buff[0];
    if b == 0x01 || (b == 0x02 && allow_incoming) {
        routes.push(
            Route {
                service: crate::service::ping_service_name(),
                message: ServiceMessage::Ping(MessageForPing::RecvPing(addr, buff)),
            },
        );
    } else if b == 0x1c {
        routes.push(
            Route {
                service: crate::service::ping_service_name(),
                message: ServiceMessage::Ping(MessageForPing::RecvPong(addr, buff)),
            },
        );
    } else if b == 0x05 {
        routes.push(
            Route {
                service: crate::service::open_connection_service_name(),
                message: ServiceMessage::OpenConnection(
                    MessageForOpenConnection::RecvRequest1(addr, buff),
                ),
            },
        );
    } else if b == 0x06 {
        routes.push(
            Route {
                service: crate::service::open_connection_service_name(),
                message: ServiceMessage::OpenConnection(
                    MessageForOpenConnection::RecvReply1(addr, buff),
                ),
            },
        );
    } else if b == 0x07 {
        routes.push(
            Route {
                service: crate::service::open_connection_service_name(),
                message: ServiceMessage::OpenConnection(
                    MessageForOpenConnection::RecvRequest2(addr, buff),
                ),
            },
        );
    } else if b == 0x08 {
        routes.push(
            Route {
                service: crate::service::open_connection_service_name(),
                message: ServiceMessage::OpenConnection(
                    MessageForOpenConnection::RecvReply2(addr, buff),
                ),
            },
        );
    } else if b == 0x15 {
        routes.push(
            Route {
                service: crate::service::open_connection_service_name(),
                message: ServiceMessage::OpenConnection(
                    MessageForOpenConnection::RecvDisconnectionNotification(addr),
                ),
            },
        );
        routes.push(
            Route {
                service: crate::service::connection_service_name(),
                message: ServiceMessage::Connection(
                    MessageForConnection::RecvDisconnectionNotification(addr),
                ),
            },
        );
    } else if b == 0x16 {
        routes.push(
            Route {
                service: crate::service::connection_service_name(),
                message: ServiceMessage::Connection(
                    MessageForConnection::RecvConnectionLost(addr),
                ),
            },
        );
    } else if b == 0x17 {
        routes.push(
            Route {
                service: crate::service::open_connection_service_name(),
                message: ServiceMessage::OpenConnection(
                    MessageForOpenConnection::RecvConnectionBanned(addr),
                ),
            },
        );
        routes.push(
            Route {
                service: crate::service::connection_service_name(),
                message: ServiceMessage::Connection(
                    MessageForConnection::RecvConnectionBanned(addr),
                ),
            },
        );
    } else if b == 0x19 {
        routes.push(
            Route {
                service: crate::service::open_connection_service_name(),
                message: ServiceMessage::OpenConnection(
                    MessageForOpenConnection::RecvIncompatibleProtocolVersion(addr, buff),
                ),
            },
        );
    } else if b == 0xc0 {
        routes.push(
            Route {
                service: crate::service::connection_service_name(),
                message: ServiceMessage::Connection(MessageForConnection::RecvAck(addr, buff)),
            },
        );
    } else if b == 0xa0 {
        routes.push(
            Route {
                service: crate::service::connection_service_name(),
                message: ServiceMessage::Connection(MessageForConnection::RecvNack(addr, buff)),
            },
        );
    } else if 0x80 <= b && b <= 0x8f {
        routes.push(
            Route {
                service: crate::service::connection_service_name(),
                message: ServiceMessage::Connection(
                    MessageForConnection::RecvDatagram(addr, buff),
                ),
            },
        );
    }
    routes
}

} // verus!
