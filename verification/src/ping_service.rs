//! The keep-alive service: answers pings with pongs and tracks the
//! pings this peer has sent that still await their answer.

use vstd::prelude::*;

verus! {

use vstd::utf8::encode_utf8;
use crate::ping::UnconnectedPing;
use crate::ping::UnconnectedPong;
use crate::ping::UnconnectedPongView;
use crate::ping::spec_encode_unconnected_ping;
use crate::ping::spec_encode_unconnected_pong;
use crate::ping::spec_parse_unconnected_ping;
use crate::ping::spec_parse_unconnected_pong;
use crate::reader::BinaryReader;
use crate::service::ServiceError;
use crate::service::ServiceOutput;
use crate::types::RakString;
use crate::types::SystemAddress;
use crate::writer::encode_to_vec;

/// The messages the dispatcher and the local runtime hand to the ping
/// service: a ping or pong received from the wire, or a local request to
/// ping an address.
pub enum MessageForPing {
    RecvPing(SystemAddress, Vec<u8>),
    RecvPong(SystemAddress, Vec<u8>),
    Ping(SystemAddress),
}

/// The abstract state of the ping service.
#[verifier::ext_equal]
pub struct PingServiceView {
    pub server_id: u64,
    pub information: Seq<char>,
    pub pending: Seq<SystemAddress>,
}

/// The ping service's state: this peer's id, the information string it
/// advertises in pongs, and the addresses of its own outstanding pings.
#[derive(Debug)]
pub struct PingService {
    server_id: u64,
    information: RakString,
    pending: Vec<SystemAddress>,
}

impl View for PingService {
    type V = PingServiceView;

    closed spec fn view(&self) -> PingServiceView {
        PingServiceView {
            server_id: self.server_id,
            information: self.information@,
            pending: self.pending@,
        }
    }
}

/// Whether an address awaits a pong.
pub open spec fn spec_pending_contains(p: Seq<SystemAddress>, addr: SystemAddress) -> bool {
    exists|i: int| 0 <= i < p.len() && #[trigger] p[i] == addr
}

/// How one delivery changes the ping service and what it returns.
///
/// A received ping that decodes is answered with a pong echoing its
/// timestamp and carrying this peer's id and information string.  A
/// received pong that decodes and matches a pending ping resolves
/// exactly that pending entry and removes it.  A local ping request to
/// an address already awaiting its answer fails; otherwise the address
/// becomes pending and a ping carrying the caller's clock goes out.
/// Anything that does not decode is consumed without effect.
pub open spec fn ping_step(
    pre: PingServiceView,
    msg: MessageForPing,
    now: u64,
    post: PingServiceView,
    r: Result<ServiceOutput, ServiceError>,
) -> bool {
    &&& post.server_id == pre.server_id
    &&& post.information == pre.information
    &&& match msg {
        MessageForPing::RecvPing(addr, buff) => {
            &&& post.pending == pre.pending
            &&& match spec_parse_unconnected_ping(buff@) {
                Some((ping, n)) => r matches Ok(ServiceOutput::Send(out)) && out@.len() == 1
                    && out@[0].0 == addr && out@[0].1@ == spec_encode_unconnected_pong(
                    UnconnectedPongView {
                        id: 0x1c,
                        ping_time: ping.ping_time,
                        server_id: pre.server_id,
                        information: pre.information,
                    },
                ),
                None => r matches Ok(o) && o is Ignored,
            }
        },
        MessageForPing::RecvPong(addr, buff) => {
            match spec_parse_unconnected_pong(buff@) {
                Some((pong, n)) => {
                    if spec_pending_contains(pre.pending, addr) {
                        &&& r matches Ok(ServiceOutput::Resolved(a, p)) && a == addr && p@ == pong
                        &&& exists|i: int|
                            0 <= i < pre.pending.len() && pre.pending[i] == addr && post.pending
                                == pre.pending.remove(i)
                    } else {
                        r matches Ok(o) && o is Ignored && post.pending == pre.pending
                    }
                },
                None => r matches Ok(o) && o is Ignored && post.pending == pre.pending,
            }
        },
        MessageForPing::Ping(addr) => {
            if spec_pending_contains(pre.pending, addr) {
                &&& r == Err::<ServiceOutput, ServiceError>(ServiceError::AlreadyRequested)
                &&& post.pending == pre.pending
            } else {
                &&& post.pending == pre.pending.push(addr)
                &&& r matches Ok(ServiceOutput::Send(out)) && out@.len() == 1 && out@[0].0 == addr
                    && out@[0].1@ == spec_encode_unconnected_ping(
                    UnconnectedPing { id: 0x01, ping_time: now, client_id: pre.server_id },
                )
            }
        },
    }
}

/// Well-formedness of the ping service: the advertised string always
/// fits a pong's length field, and no address is pending twice.
/// Constructors establish it and every method keeps it.
pub open spec fn ping_wf(v: PingServiceView) -> bool {
    &&& encode_utf8(v.information).len() <= RakString::max_len()
    &&& forall|i: int, j: int|
        0 <= i < j < v.pending.len() ==> #[trigger] v.pending[i] != #[trigger] v.pending[j]
}

impl PingService {
    /// See [`ping_wf`].
    pub open spec fn wf(self) -> bool {
        ping_wf(self@)
    }

    /// A fresh service with no outstanding pings.  The information
    /// string must fit the 16-bit length field a pong stores it in.
    pub fn new(server_id: u64, information: RakString) -> (r: PingService)
        requires
            encode_utf8(information@).len() <= RakString::max_len(),
        ensures
            r@ == (PingServiceView {
                server_id,
                information: information@,
                pending: Seq::<SystemAddress>::empty(),
            }),
            r.wf(),
    {
        let s = PingService { server_id, information, pending: Vec::new() };
        proof {
            assert(s@ =~= PingServiceView {
                server_id,
                information: information@,
                pending: Seq::<SystemAddress>::empty(),
            });
        }
        s
    }

    /// Find an address in the pending list.
    fn find_pending(&self, addr: SystemAddress) -> (r: Option<usize>)
        ensures
            r is Some ==> 0 <= r->Some_0 < self@.pending.len() && self@.pending[r->Some_0 as int]
                == addr,
            r is None ==> !spec_pending_contains(self@.pending, addr),
    {
        let n = self.pending.len();
        let mut i: usize = 0;
        while i < n
            invariant
                i <= n,
                n == self@.pending.len(),
                n == self.pending@.len(),
                self@.pending == self.pending@,
                forall|j: int| 0 <= j < i ==> #[trigger] self@.pending[j] != addr,
            decreases n - i,
        {
            if self.pending[i] == addr {
                return Some(i);
            }
            i += 1;
        }
        None
    }

    /// Handle one message; see [`ping_step`] for exactly what changes
    /// and what comes back.  `now` is the caller's clock reading, used
    /// only when a new outbound ping is stamped.
    pub fn handle_message(&mut self, message: MessageForPing, now: u64) -> (r: Result<
        ServiceOutput,
        ServiceError,
    >)
        requires
            old(self).wf(),
        ensures
            final(self).wf(),
            ping_step(old(self)@, message, now, final(self)@, r),
    {
        match message {
            MessageForPing::RecvPing(addr, buff) => {
                let mut reader = BinaryReader::new(buff);
                match reader.read::<UnconnectedPing>() {
                    Ok(ping) => {
                        let pong = UnconnectedPong {
                            id: 0x1c,
                            ping_time: ping.ping_time,
                            server_id: self.server_id,
                            information: RakString(self.information.0.clone()),
                        };
                        match encode_to_vec(&pong) {
                            Ok(bytes) => {
                                let mut out: Vec<(SystemAddress, Vec<u8>)> = Vec::new();
                                out.push((addr, bytes));
                                Ok(ServiceOutput::Send(out))
                            },
                            Err(_) => {
                                proof {
                                    assert(false);
                                }
                                Ok(ServiceOutput::Ignored)
                            },
                        }
                    },
                    Err(_) => Ok(ServiceOutput::Ignored),
                }
            },
            MessageForPing::RecvPong(addr, buff) => {
                let mut reader = BinaryReader::new(buff);
                match reader.read::<UnconnectedPong>() {
                    Ok(pong) => {
                        match self.find_pending(addr) {
                            Some(i) => {
                                let ghost pre = self.pending@;
                                self.pending.remove(i);
                                proof {
                                    assert forall|a: int, b: int|
                                        0 <= a < b < self.pending@.len() implies #[trigger] self.pending@[a]
                                        != #[trigger] self.pending@[b] by {
                                        let a0: int = if a < i {
                                            a
                                        } else {
                                            a + 1
                                        };
                                        let b0: int = if b < i {
                                            b
                                        } else {
                                            b + 1
                                        };
                                        assert(self.pending@[a] == pre[a0]);
                                        assert(self.pending@[b] == pre[b0]);
                                    }
                                }
                                Ok(ServiceOutput::Resolved(addr, pong))
                            },
                            None => Ok(ServiceOutput::Ignored),
                        }
                    },
                    Err(_) => Ok(ServiceOutput::Ignored),
                }
            },
            MessageForPing::Ping(addr) => {
                if self.find_pending(addr).is_some() {
                    return Err(ServiceError::AlreadyRequested);
                }
                let ping = UnconnectedPing { id: 0x01, ping_time: now, client_id: self.server_id };
                match encode_to_vec(&ping) {
                    Ok(bytes) => {
                        self.pending.push(addr);
                        let mut out: Vec<(SystemAddress, Vec<u8>)> = Vec::new();
                        out.push((addr, bytes));
                        Ok(ServiceOutput::Send(out))
                    },
                    Err(_) => {
                        proof {
                            assert(false);
                        }
                        Err(ServiceError::AlreadyRequested)
                    },
                }
            },
        }
    }

    /// The shutdown hook: forget every outstanding ping.
    pub fn shutdown(&mut self)
        requires
            old(self).wf(),
        ensures
            final(self).wf(),
            final(self)@ == (PingServiceView {
                server_id: old(self)@.server_id,
                information: old(self)@.information,
                pending: Seq::<SystemAddress>::empty(),
            }),
    {
        self.pending.clear();
        proof {
            assert(self@ =~= PingServiceView {
                server_id: old(self)@.server_id,
                information: old(self)@.information,
                pending: Seq::<SystemAddress>::empty(),
            });
        }
    }
}

} // verus!
