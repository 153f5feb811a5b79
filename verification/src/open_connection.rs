//! The handshake service: drives the open-connection exchange in both
//! directions.
//!
//! As a client it keeps one small state machine per remote address,
//! advancing from the first request to the connected state as the
//! server's replies arrive; a failure is a terminal rejection, not a
//! retry.  As a server it answers well-formed requests statelessly,
//! validating the offline sentinel and the protocol version on every
//! step.

use vstd::prelude::*;

verus! {

use crate::constants::RAKNET_PROTOCOL_VERSION;
use crate::disconnect::IncompatibleProtocolVersion;
use crate::disconnect::NoFreeIncomingConnections;
use crate::disconnect::spec_encode_rejection;
use crate::disconnect::spec_encode_incompatible_version;
use crate::disconnect::spec_parse_incompatible_version;
use crate::open::MTU_OVERHEAD;
use crate::open::OpenConnectionReply1;
use crate::open::OpenConnectionReply2;
use crate::open::OpenConnectionRequest1;
use crate::open::OpenConnectionRequest2;
use crate::open::spec_encode_open_reply1;
use crate::open::spec_encode_open_reply2;
use crate::open::spec_encode_open_request1;
use crate::open::spec_encode_open_request2;
use crate::open::spec_parse_open_reply1;
use crate::open::spec_parse_open_reply2;
use crate::open::spec_parse_open_request1;
use crate::open::spec_parse_open_request2;
use crate::reader::BinaryReader;
use crate::service::ServiceError;
use crate::service::ServiceOutput;
use crate::types::SystemAddress;
use crate::writer::encode_to_vec;

/// The messages the dispatcher and the local runtime hand to the
/// handshake service.  `Connect` is the local request to start a
/// handshake; the rest arrive from the wire.
pub enum MessageForOpenConnection {
    Connect(SystemAddress),
    RecvRequest1(SystemAddress, Vec<u8>),
    RecvRequest2(SystemAddress, Vec<u8>),
    RecvReply1(SystemAddress, Vec<u8>),
    RecvReply2(SystemAddress, Vec<u8>),
    RecvDisconnectionNotification(SystemAddress),
    RecvConnectionBanned(SystemAddress),
    RecvIncompatibleProtocolVersion(SystemAddress, Vec<u8>),
}

/// Why a handshake ended without a connection.
#[derive(Clone, Copy, Debug, PartialEq, Eq, Structural)]
pub enum RejectReason {
    IncompatibleVersion,
    Banned,
}

/// Where one outbound handshake stands.
#[derive(Clone, Copy, Debug, PartialEq, Eq, Structural)]
pub enum OpenState {
    RequestSent1,
    RequestSent2,
    Connected,
    Rejected(RejectReason),
}

/// One outbound handshake: the remote address and its state.
#[derive(Clone, Copy, Debug, PartialEq, Eq, Structural)]
pub struct Session {
    pub addr: SystemAddress,
    pub state: OpenState,
}

/// The abstract state of the handshake service.
#[verifier::ext_equal]
pub struct OpenServiceView {
    pub server_id: u64,
    pub client_id: u64,
    pub max_mtu: u16,
    pub allow_incoming: bool,
    pub sessions: Seq<Session>,
}

/// The handshake service's state: this peer's ids and limits, and the
/// outbound handshakes in flight.
#[derive(Debug)]
pub struct OpenConnectionService {
    server_id: u64,
    client_id: u64,
    max_mtu: u16,
    allow_incoming: bool,
    sessions: Vec<Session>,
}

impl View for OpenConnectionService {
    type V = OpenServiceView;

    closed spec fn view(&self) -> OpenServiceView {
        OpenServiceView {
            server_id: self.server_id,
            client_id: self.client_id,
            max_mtu: self.max_mtu,
            allow_incoming: self.allow_incoming,
            sessions: self.sessions@,
        }
    }
}

/// Whether a handshake with this address exists.
pub open spec fn spec_has_session(s: Seq<Session>, addr: SystemAddress) -> bool {
    exists|i: int| 0 <= i < s.len() && #[trigger] s[i].addr == addr
}

/// Whether the handshake with this address stands in this state.
pub open spec fn spec_session_in_state(
    s: Seq<Session>,
    addr: SystemAddress,
    state: OpenState,
) -> bool {
    exists|i: int| 0 <= i < s.len() && #[trigger] s[i] == (Session { addr, state })
}

/// `post` is `pre` with the session for `addr` moved to `state`.
pub open spec fn spec_session_updated(
    pre: Seq<Session>,
    post: Seq<Session>,
    addr: SystemAddress,
    state: OpenState,
) -> bool {
    exists|i: int|
        0 <= i < pre.len() && #[trigger] pre[i].addr == addr && post == pre.update(
            i,
            Session { addr, state },
        )
}

/// `post` is `pre` with the session for `addr` dropped.
pub open spec fn spec_session_removed(
    pre: Seq<Session>,
    post: Seq<Session>,
    addr: SystemAddress,
) -> bool {
    exists|i: int| 0 <= i < pre.len() && #[trigger] pre[i].addr == addr && post == pre.remove(i)
}

/// The smaller of a requested MTU and this peer's ceiling.
pub open spec fn spec_agreed_mtu(requested: u16, max_mtu: u16) -> u16 {
    if requested < max_mtu {
        requested
    } else {
        max_mtu
    }
}

/// How one delivery changes the handshake service and what it returns.
///
/// Locally requested connects send the first request and record the
/// session; the server's replies advance it and send the next request;
/// the second reply completes it.  Incoming requests are answered
/// statelessly: a version mismatch with the version rejection, a full
/// peer with the no-free-slots rejection, a good request with the
/// matching reply.  Rejections received from the wire park the session
/// in a terminal rejected state; a disconnection notice drops it.
/// Anything that does not decode is consumed without effect.
pub open spec fn open_step(
    pre: OpenServiceView,
    msg: MessageForOpenConnection,
    post: OpenServiceView,
    r: Result<ServiceOutput, ServiceError>,
) -> bool {
    &&& post.server_id == pre.server_id
    &&& post.client_id == pre.client_id
    &&& post.max_mtu == pre.max_mtu
    &&& post.allow_incoming == pre.allow_incoming
    &&& match msg {
        MessageForOpenConnection::Connect(addr) => {
            if spec_has_session(pre.sessions, addr) {
                &&& r == Err::<ServiceOutput, ServiceError>(ServiceError::AlreadyRequested)
                &&& post.sessions == pre.sessions
            } else {
                &&& post.sessions == pre.sessions.push(
                    Session { addr, state: OpenState::RequestSent1 },
                )
                &&& r matches Ok(ServiceOutput::Send(out)) && out@.len() == 1 && out@[0].0 == addr
                    && out@[0].1@ == spec_encode_open_request1(
                    OpenConnectionRequest1 {
                        id: 0x05,
                        protocol: RAKNET_PROTOCOL_VERSION,
                        mtu_size: pre.max_mtu,
                    },
                )
            }
        },
        MessageForOpenConnection::RecvRequest1(addr, buff) => {
            &&& post.sessions == pre.sessions
            &&& match spec_parse_open_request1(buff@) {
                Some((req, n)) => r matches Ok(ServiceOutput::Send(out)) && out@.len() == 1
                    && out@[0].0 == addr && out@[0].1@ == (if req.protocol
                    != RAKNET_PROTOCOL_VERSION {
                    spec_encode_incompatible_version(
                        IncompatibleProtocolVersion {
                            id: 0x19,
                            protocol: RAKNET_PROTOCOL_VERSION,
                            server_id: pre.server_id,
                        },
                    )
                } else if !pre.allow_incoming {
                    spec_encode_rejection(0x14, pre.server_id)
                } else {
                    spec_encode_open_reply1(
                        OpenConnectionReply1 {
                            id: 0x06,
                            server_id: pre.server_id,
                            security: false,
                            mtu_size: spec_agreed_mtu(req.mtu_size, pre.max_mtu),
                        },
                    )
                }),
                None => r matches Ok(o) && o is Ignored,
            }
        },
        MessageForOpenConnection::RecvRequest2(addr, buff) => {
            &&& post.sessions == pre.sessions
            &&& match spec_parse_open_request2(buff@) {
                Some((req, n)) => {
                    if pre.allow_incoming {
                        r matches Ok(ServiceOutput::Send(out)) && out@.len() == 1 && out@[0].0
                            == addr && out@[0].1@ == spec_encode_open_reply2(
                            OpenConnectionReply2 {
                                id: 0x08,
                                server_id: pre.server_id,
                                client_address: addr,
                                mtu_size: spec_agreed_mtu(req.mtu_size, pre.max_mtu),
                                security: false,
                            },
                        )
                    } else {
                        r matches Ok(o) && o is Ignored
                    }
                },
                None => r matches Ok(o) && o is Ignored,
            }
        },
        MessageForOpenConnection::RecvReply1(addr, buff) => {
            match spec_parse_open_reply1(buff@) {
                Some((reply, n)) => {
                    if spec_session_in_state(pre.sessions, addr, OpenState::RequestSent1) {
                        &&& spec_session_updated(
                            pre.sessions,
                            post.sessions,
                            addr,
                            OpenState::RequestSent2,
                        )
                        &&& r matches Ok(ServiceOutput::Send(out)) && out@.len() == 1 && out@[0].0
                            == addr && out@[0].1@ == spec_encode_open_request2(
                            OpenConnectionRequest2 {
                                id: 0x07,
                                server_address: addr,
                                mtu_size: reply.mtu_size,
                                client_id: pre.client_id,
                            },
                        )
                    } else {
                        r matches Ok(o) && o is Ignored && post.sessions == pre.sessions
                    }
                },
                None => r matches Ok(o) && o is Ignored && post.sessions == pre.sessions,
            }
        },
        MessageForOpenConnection::RecvReply2(addr, buff) => {
            match spec_parse_open_reply2(buff@) {
                Some((reply, n)) => {
                    if spec_session_in_state(pre.sessions, addr, OpenState::RequestSent2) {
                        &&& spec_session_updated(
                            pre.sessions,
                            post.sessions,
                            addr,
                            OpenState::Connected,
                        )
                        &&& r matches Ok(ServiceOutput::Established(a)) && a == addr
                    } else {
                        r matches Ok(o) && o is Ignored && post.sessions == pre.sessions
                    }
                },
                None => r matches Ok(o) && o is Ignored && post.sessions == pre.sessions,
            }
        },
        MessageForOpenConnection::RecvDisconnectionNotification(addr) => {
            &&& r matches Ok(o) && o is Ignored
            &&& if spec_has_session(pre.sessions, addr) {
                spec_session_removed(pre.sessions, post.sessions, addr)
            } else {
                post.sessions == pre.sessions
            }
        },
        MessageForOpenConnection::RecvConnectionBanned(addr) => {
            &&& r matches Ok(o) && o is Ignored
            &&& if spec_has_session(pre.sessions, addr) {
                spec_session_updated(
                    pre.sessions,
                    post.sessions,
                    addr,
                    OpenState::Rejected(RejectReason::Banned),
                )
            } else {
                post.sessions == pre.sessions
            }
        },
        MessageForOpenConnection::RecvIncompatibleProtocolVersion(addr, buff) => {
            match spec_parse_incompatible_version(buff@) {
                Some((rej, n)) => {
                    &&& r matches Ok(o) && o is Ignored
                    &&& if spec_has_session(pre.sessions, addr) {
                        spec_session_updated(
                            pre.sessions,
                            post.sessions,
                            addr,
                            OpenState::Rejected(RejectReason::IncompatibleVersion),
                        )
                    } else {
                        post.sessions == pre.sessions
                    }
                },
                None => r matches Ok(o) && o is Ignored && post.sessions == pre.sessions,
            }
        },
    }
}

/// Well-formedness of the handshake service: the MTU ceiling covers the
/// handshake's own overhead, and no address has two sessions.
/// Constructors establish it and every method keeps it.
pub open spec fn open_wf(v: OpenServiceView) -> bool {
    &&& v.max_mtu >= MTU_OVERHEAD
    &&& forall|i: int, j: int|
        0 <= i < j < v.sessions.len() ==> #[trigger] v.sessions[i].addr
            != #[trigger] v.sessions[j].addr
}

impl OpenConnectionService {
    /// See [`open_wf`].
    pub open spec fn wf(self) -> bool {
        open_wf(self@)
    }

    /// A fresh service with no handshake in flight.  The MTU ceiling
    /// must at least cover the first request's own overhead.
    pub fn new(server_id: u64, client_id: u64, max_mtu: u16, allow_incoming: bool) -> (r:
        OpenConnectionService)
        requires
            max_mtu >= MTU_OVERHEAD,
        ensures
            r@ == (OpenServiceView {
                server_id,
                client_id,
                max_mtu,
                allow_incoming,
                sessions: Seq::<Session>::empty(),
            }),
            r.wf(),
    {
        let s = OpenConnectionService {
            server_id,
            client_id,
            max_mtu,
            allow_incoming,
            sessions: Vec::new(),
        };
        proof {
            assert(s@ =~= OpenServiceView {
                server_id,
                client_id,
                max_mtu,
                allow_incoming,
                sessions: Seq::<Session>::empty(),
            });
        }
        s
    }

    /// Find the session for an address.
    fn find_session(&self, addr: SystemAddress) -> (r: Option<usize>)
        ensures
            r is Some ==> 0 <= r->Some_0 < self@.sessions.len()
                && self@.sessions[r->Some_0 as int].addr == addr,
            r is None ==> !spec_has_session(self@.sessions, addr),
    {
        let n = self.sessions.len();
        let mut i: usize = 0;
        while i < n
            invariant
                i <= n,
                n == self@.sessions.len(),
                n == self.sessions@.len(),
                self@.sessions == self.sessions@,
                forall|j: int| 0 <= j < i ==> #[trigger] self@.sessions[j].addr != addr,
            decreases n - i,
        {
            if self.sessions[i].addr == addr {
                return Some(i);
            }
            i += 1;
        }
        None
    }

    /// Where the handshake with this address stands, if one exists.
    pub fn session_state(&self, addr: SystemAddress) -> (r: Option<OpenState>)
        requires
            self.wf(),
        ensures
            r is Some <==> spec_has_session(self@.sessions, addr),
            r matches Some(state) ==> spec_session_in_state(self@.sessions, addr, state),
    {
        match self.find_session(addr) {
            Some(i) => {
                let state = self.sessions[i].state;
                proof {
                    assert(self@.sessions[i as int] == (Session {
                        addr: self@.sessions[i as int].addr,
                        state,
                    }));
                }
                Some(state)
            },
            None => None,
        }
    }

    /// Handle one message; see [`open_step`] for exactly what changes
    /// and what comes back.
    pub fn handle_message(&mut self, message: MessageForOpenConnection) -> (r: Result<
        ServiceOutput,
        ServiceError,
    >)
        requires
            old(self).wf(),
        ensures
            final(self).wf(),
            open_step(old(self)@, message, final(self)@, r),
    {
        match message {
            MessageForOpenConnection::Connect(addr) => {
                if self.find_session(addr).is_some() {
                    return Err(ServiceError::AlreadyRequested);
                }
                let request = OpenConnectionRequest1 {
                    id: 0x05,
                    protocol: RAKNET_PROTOCOL_VERSION,
                    mtu_size: self.max_mtu,
                };
                match encode_to_vec(&request) {
                    Ok(bytes) => {
                        self.sessions.push(Session { addr, state: OpenState::RequestSent1 });
                        let mut out: Vec<(SystemAddress, Vec<u8>)> = Vec::new();
                        out.push((addr, bytes));
                        Ok(ServiceOutput::Send(out))
                    },
                    Err(_) => {
                        proof {
                            assert(false);
                        }
                        Err(ServiceError::AlreadyRequested)
                    },
                }
            },
            MessageForOpenConnection::RecvRequest1(addr, buff) => {
                let mut reader = BinaryReader::new(buff);
                match reader.read::<OpenConnectionRequest1>() {
                    Ok(req) => {
                        let bytes = if req.protocol != RAKNET_PROTOCOL_VERSION {
                            let rejection = IncompatibleProtocolVersion {
                                id: 0x19,
                                protocol: RAKNET_PROTOCOL_VERSION,
                                server_id: self.server_id,
                            };
                            match encode_to_vec(&rejection) {
                                Ok(bytes) => bytes,
                                Err(_) => {
                                    proof {
                                        assert(false);
                                    }
                                    return Ok(ServiceOutput::Ignored);
                                },
                            }
                        } else if !self.allow_incoming {
                            let rejection = NoFreeIncomingConnections {
                                id: 0x14,
                                server_id: self.server_id,
                            };
                            match encode_to_vec(&rejection) {
                                Ok(bytes) => bytes,
                                Err(_) => {
                                    proof {
                                        assert(false);
                                    }
                                    return Ok(ServiceOutput::Ignored);
                                },
                            }
                        } else {
                            let reply = OpenConnectionReply1 {
                                id: 0x06,
                                server_id: self.server_id,
                                security: false,
                                mtu_size: if req.mtu_size < self.max_mtu {
                                    req.mtu_size
                                } else {
                                    self.max_mtu
                                },
                            };
                            match encode_to_vec(&reply) {
                                Ok(bytes) => bytes,
                                Err(_) => {
                                    proof {
                                        assert(false);
                                    }
                                    return Ok(ServiceOutput::Ignored);
                                },
                            }
                        };
                        let mut out: Vec<(SystemAddress, Vec<u8>)> = Vec::new();
                        out.push((addr, bytes));
                        Ok(ServiceOutput::Send(out))
                    },
                    Err(_) => Ok(ServiceOutput::Ignored),
                }
            },
            MessageForOpenConnection::RecvRequest2(addr, buff) => {
                let mut reader = BinaryReader::new(buff);
                match reader.read::<OpenConnectionRequest2>() {
                    Ok(req) => {
                        if !self.allow_incoming {
                            return Ok(ServiceOutput::Ignored);
                        }
                        let reply = OpenConnectionReply2 {
                            id: 0x08,
                            server_id: self.server_id,
                            client_address: addr,
                            mtu_size: if req.mtu_size < self.max_mtu {
                                req.mtu_size
                            } else {
                                self.max_mtu
                            },
                            security: false,
                        };
                        match encode_to_vec(&reply) {
                            Ok(bytes) => {
                                let mut out: Vec<(SystemAddress, Vec<u8>)> = Vec::new();
                                out.push((addr, bytes));
                                Ok(ServiceOutput::Send(out))
                            },
                            Err(_) => {
                                proof {
                                    assert(false);
                                }
                                Ok(ServiceOutput::Ignored)
                            },
                        }
                    },
                    Err(_) => Ok(ServiceOutput::Ignored),
                }
            },
            MessageForOpenConnection::RecvReply1(addr, buff) => {
                let mut reader = BinaryReader::new(buff);
                match reader.read::<OpenConnectionReply1>() {
                    Ok(reply) => {
                        match self.find_session(addr) {
                            Some(i) => {
                                if !matches!(self.sessions[i].state, OpenState::RequestSent1) {
                                    proof {
                                        assert forall|j: int|
                                            0 <= j < self@.sessions.len() implies #[trigger] self@.sessions[j]
                                            != (Session { addr, state: OpenState::RequestSent1 }) by {
                                            if self@.sessions[j] == (Session {
                                                addr,
                                                state: OpenState::RequestSent1,
                                            }) {
                                                assert(self@.sessions[j].addr == addr);
                                                assert(j == i);
                                            }
                                        }
                                        assert(!spec_session_in_state(
                                            self@.sessions,
                                            addr,
                                            OpenState::RequestSent1,
                                        ));
                                    }
                                    return Ok(ServiceOutput::Ignored);
                                }
                                let request = OpenConnectionRequest2 {
                                    id: 0x07,
                                    server_address: addr,
                                    mtu_size: reply.mtu_size,
                                    client_id: self.client_id,
                                };
                                match encode_to_vec(&request) {
                                    Ok(bytes) => {
                                        self.sessions[i] = Session {
                                            addr,
                                            state: OpenState::RequestSent2,
                                        };
                                        let mut out: Vec<(SystemAddress, Vec<u8>)> = Vec::new();
                                        out.push((addr, bytes));
                                        Ok(ServiceOutput::Send(out))
                                    },
                                    Err(_) => {
                                        proof {
                                            assert(false);
                                        }
                                        Ok(ServiceOutput::Ignored)
                                    },
                                }
                            },
                            None => {
                                proof {
                                    assert forall|j: int|
                                        0 <= j < self@.sessions.len() implies #[trigger] self@.sessions[j]
                                        != (Session { addr, state: OpenState::RequestSent1 }) by {
                                        if self@.sessions[j] == (Session {
                                            addr,
                                            state: OpenState::RequestSent1,
                                        }) {
                                            assert(self@.sessions[j].addr == addr);
                                        }
                                    }
                                    assert(!spec_session_in_state(
                                        self@.sessions,
                                        addr,
                                        OpenState::RequestSent1,
                                    ));
                                }
                                Ok(ServiceOutput::Ignored)
                            },
                        }
                    },
                    Err(_) => Ok(ServiceOutput::Ignored),
                }
            },
            MessageForOpenConnection::RecvReply2(addr, buff) => {
                let mut reader = BinaryReader::new(buff);
                match reader.read::<OpenConnectionReply2>() {
                    Ok(_reply) => {
                        match self.find_session(addr) {
                            Some(i) => {
                                if !matches!(self.sessions[i].state, OpenState::RequestSent2) {
                                    proof {
                                        assert forall|j: int|
                                            0 <= j < self@.sessions.len() implies #[trigger] self@.sessions[j]
                                            != (Session { addr, state: OpenState::RequestSent2 }) by {
                                            if self@.sessions[j] == (Session {
                                                addr,
                                                state: OpenState::RequestSent2,
                                            }) {
                                                assert(self@.sessions[j].addr == addr);
                                                assert(j == i);
                                            }
                                        }
                                        assert(!spec_session_in_state(
                                            self@.sessions,
                                            addr,
                                            OpenState::RequestSent2,
                                        ));
                                    }
                                    return Ok(ServiceOutput::Ignored);
                                }
                                self.sessions[i] = Session { addr, state: OpenState::Connected };
                                Ok(ServiceOutput::Established(addr))
                            },
                            None => {
                                proof {
                                    assert forall|j: int|
                                        0 <= j < self@.sessions.len() implies #[trigger] self@.sessions[j]
                                        != (Session { addr, state: OpenState::RequestSent2 }) by {
                                        if self@.sessions[j] == (Session {
                                            addr,
                                            state: OpenState::RequestSent2,
                                        }) {
                                            assert(self@.sessions[j].addr == addr);
                                        }
                                    }
                                    assert(!spec_session_in_state(
                                        self@.sessions,
                                        addr,
                                        OpenState::RequestSent2,
                                    ));
                                }
                                Ok(ServiceOutput::Ignored)
                            },
                        }
                    },
                    Err(_) => Ok(ServiceOutput::Ignored),
                }
            },
            MessageForOpenConnection::RecvDisconnectionNotification(addr) => {
                match self.find_session(addr) {
                    Some(i) => {
                        let ghost pre = self.sessions@;
                        self.sessions.remove(i);
                        proof {
                            assert forall|a: int, b: int|
                                0 <= a < b < self.sessions@.len() implies #[trigger] self.sessions@[a].addr
                                != #[trigger] self.sessions@[b].addr by {
                                let a0: int = if a < i {
                                    a
                                } else {
                                    a + 1
                                };
                                let b0: int = if b < i {
                                    b
                                } else {
                                    b + 1
                                };
                                assert(self.sessions@[a] == pre[a0]);
                                assert(self.sessions@[b] == pre[b0]);
                            }
                        }
                        Ok(ServiceOutput::Ignored)
                    },
                    None => Ok(ServiceOutput::Ignored),
                }
            },
            MessageForOpenConnection::RecvConnectionBanned(addr) => {
                match self.find_session(addr) {
                    Some(i) => {
                        self.sessions[i] = Session {
                            addr,
                            state: OpenState::Rejected(RejectReason::Banned),
                        };
                        Ok(ServiceOutput::Ignored)
                    },
                    None => Ok(ServiceOutput::Ignored),
                }
            },
            MessageForOpenConnection::RecvIncompatibleProtocolVersion(addr, buff) => {
                let mut reader = BinaryReader::new(buff);
                match reader.read::<IncompatibleProtocolVersion>() {
                    Ok(_rej) => {
                        match self.find_session(addr) {
                            Some(i) => {
                                self.sessions[i] = Session {
                                    addr,
                                    state: OpenState::Rejected(RejectReason::IncompatibleVersion),
                                };
                                Ok(ServiceOutput::Ignored)
                            },
                            None => Ok(ServiceOutput::Ignored),
                        }
                    },
                    Err(_) => Ok(ServiceOutput::Ignored),
                }
            },
        }
    }
}

} // verus!
