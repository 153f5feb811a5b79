//! The connection service: the consumer of the reliable-channel packet
//! flow of an established session.
//!
//! Its one implemented duty is decoding received datagrams and handing
//! the packets inside them upward.  Acknowledgment bookkeeping and
//! ordered/sequenced reassembly are deliberate extension points and are
//! not part of this core, so acks, nacks and loss notices are consumed
//! without effect.

use vstd::prelude::*;

verus! {

use crate::datagram::Datagram;
use crate::datagram::spec_parse_datagram;
use crate::reader::BinaryReader;
use crate::service::ServiceError;
use crate::service::ServiceOutput;
use crate::types::SystemAddress;

/// The messages the dispatcher routes to the connection service.
pub enum MessageForConnection {
    RecvDisconnectionNotification(SystemAddress),
    RecvConnectionLost(SystemAddress),
    RecvConnectionBanned(SystemAddress),
    RecvAck(SystemAddress, Vec<u8>),
    RecvNack(SystemAddress, Vec<u8>),
    RecvDatagram(SystemAddress, Vec<u8>),
}

/// The connection service carries no state of its own yet: reassembly
/// and acknowledgment state would live here.
#[derive(Debug)]
pub struct ConnectionService {}

/// What one delivery to the connection service returns.  A datagram
/// whose payload decodes completely comes back as its packets; anything
/// else, a malformed datagram included, is consumed without effect and
/// never fails the receive path.
pub open spec fn connection_step(
    msg: MessageForConnection,
    r: Result<ServiceOutput, ServiceError>,
) -> bool {
    match msg {
        MessageForConnection::RecvDatagram(addr, buff) => {
            if buff@.len() > 0 && 0x80 <= buff@[0] <= 0x8f {
                match spec_parse_datagram(buff@.skip(1)) {
                    Some(dv) => r matches Ok(ServiceOutput::Received(a, d)) && a == addr && d@
                        == dv,
                    None => r matches Ok(o) && o is Ignored,
                }
            } else {
                r matches Ok(o) && o is Ignored
            }
        },
        _ => r matches Ok(o) && o is Ignored,
    }
}

impl ConnectionService {
    pub fn new() -> (r: ConnectionService) {
        ConnectionService {  }
    }

    /// Handle one message; see [`connection_step`] for exactly what
    /// comes back.
    pub fn handle_message(&mut self, message: MessageForConnection) -> (r: Result<
        ServiceOutput,
        ServiceError,
    >)
        ensures
            connection_step(message, r),
    {
        match message {
            MessageForConnection::RecvDatagram(addr, buff) => {
                let ghost b = buff@;
                if buff.len() == 0 {
                    return Ok(ServiceOutput::Ignored);
                }
                let lead = buff[0];
                if lead < 0x80 || lead > 0x8f {
                    return Ok(ServiceOutput::Ignored);
                }
                let mut reader = BinaryReader::new(buff);
                let _ = match reader.read_u8() {
                    Ok(v) => v,
                    Err(_) => {
                        proof {
                            assert(false);
                        }
                        return Ok(ServiceOutput::Ignored);
                    },
                };
                match reader.read::<Datagram>() {
                    Ok(datagram) => Ok(ServiceOutput::Received(addr, datagram)),
                    Err(_) => Ok(ServiceOutput::Ignored),
                }
            },
            _ => Ok(ServiceOutput::Ignored),
        }
    }
}

} // verus!
