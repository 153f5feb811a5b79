//! The service bus: a registry of named, independently lifecycled
//! message handlers.
//!
//! Services are a closed set of kinds; each handles its own typed
//! messages and produces outgoing packets as plain address/byte pairs.
//! Registration, delivery and shutdown follow the lifecycle rules: names
//! are unique for the bus's lifetime, a disposed service can never be
//! registered or reached again, and shutting a name down twice is a
//! no-op the second time.

use vstd::prelude::*;

verus! {

use crate::connection::ConnectionService;
use crate::connection::MessageForConnection;
use crate::connection::connection_step;
use crate::datagram::Datagram;
use crate::open_connection::MessageForOpenConnection;
use crate::open_connection::OpenConnectionService;
use crate::open_connection::OpenServiceView;
use crate::open_connection::open_step;
use crate::ping::UnconnectedPong;
use crate::ping_service::MessageForPing;
use crate::ping_service::PingService;
use crate::ping_service::PingServiceView;
use crate::ping_service::ping_step;
use crate::types::SystemAddress;

/// What a handler asks the runtime to do with its result.
#[derive(Debug)]
pub enum ServiceOutput {
    /// Nothing: the message was consumed, or silently dropped.
    Ignored,
    /// Transmit these byte strings to these addresses.
    Send(Vec<(SystemAddress, Vec<u8>)>),
    /// The pending ping to this address is complete, with this pong.
    Resolved(SystemAddress, UnconnectedPong),
    /// A datagram arrived from this address and decoded to these packets.
    Received(SystemAddress, Datagram),
    /// The handshake with this address reached the connected state.
    Established(SystemAddress),
}

/// Why a handler refused a message.
#[derive(Clone, Copy, Debug, PartialEq, Eq, Structural)]
pub enum ServiceError {
    /// The service was already shut down.
    Disposed,
    /// A request to this address is already awaiting its answer.
    AlreadyRequested,
}

/// Why the bus could not deliver a message.
#[derive(Clone, Copy, Debug, PartialEq, Eq, Structural)]
pub enum SendError {
    /// No service is registered under the name.
    NotFound,
    /// The service was already shut down.
    Disposed,
    /// A request to this address is already awaiting its answer.
    AlreadyRequested,
}

/// One protocol-wide message type, a variant per service kind.  A
/// message handed to a service of another kind is silently ignored.
pub enum ServiceMessage {
    Ping(MessageForPing),
    OpenConnection(MessageForOpenConnection),
    Connection(MessageForConnection),
}

/// The closed set of service kinds the bus can host.
#[derive(Debug)]
pub enum ServiceKind {
    Ping(PingService),
    OpenConnection(OpenConnectionService),
    Connection(ConnectionService),
}

/// The abstract state of a service kind.
pub enum ServiceKindView {
    Ping(PingServiceView),
    OpenConnection(OpenServiceView),
    Connection,
}

impl View for ServiceKind {
    type V = ServiceKindView;

    open spec fn view(&self) -> ServiceKindView {
        match self {
            ServiceKind::Ping(p) => ServiceKindView::Ping(p@),
            ServiceKind::OpenConnection(o) => ServiceKindView::OpenConnection(o@),
            ServiceKind::Connection(_) => ServiceKindView::Connection,
        }
    }
}

/// Well-formedness of a service kind: its handler's own invariant.
pub open spec fn service_kind_wf(k: ServiceKindView) -> bool {
    match k {
        ServiceKindView::Ping(p) => crate::ping_service::ping_wf(p),
        ServiceKindView::OpenConnection(o) => crate::open_connection::open_wf(o),
        ServiceKindView::Connection => true,
    }
}

/// The abstract state of a registered service.
#[verifier::ext_equal]
pub struct ServiceView {
    pub kind: ServiceKindView,
    pub disposed: bool,
}

/// How one delivery changes a service and what it returns: the union of
/// the three kinds' step relations, with a kind mismatch ignored.
pub open spec fn service_kind_step(
    pre: ServiceKindView,
    msg: ServiceMessage,
    now: u64,
    post: ServiceKindView,
    r: Result<ServiceOutput, ServiceError>,
) -> bool {
    match (pre, msg) {
        (ServiceKindView::Ping(p), ServiceMessage::Ping(m)) => (post matches ServiceKindView::Ping(
            q,
        ) && ping_step(p, m, now, q, r)),
        (ServiceKindView::OpenConnection(o), ServiceMessage::OpenConnection(m)) => (
        post matches ServiceKindView::OpenConnection(q) && open_step(o, m, q, r)),
        (ServiceKindView::Connection, ServiceMessage::Connection(m)) => post
            == ServiceKindView::Connection && connection_step(m, r),
        _ => post == pre && (r matches Ok(o) && o is Ignored),
    }
}

/// A named service's lifecycle wrapper: its handler state and the
/// disposed-exactly-once flag.
#[derive(Debug)]
pub struct Service {
    kind: ServiceKind,
    disposed: bool,
}

impl View for Service {
    type V = ServiceView;

    closed spec fn view(&self) -> ServiceView {
        ServiceView { kind: self.kind@, disposed: self.disposed }
    }
}

/// How one delivery changes a whole service: a disposed service refuses
/// every message unchanged; a live one steps its kind.
pub open spec fn service_step(
    pre: ServiceView,
    msg: ServiceMessage,
    now: u64,
    post: ServiceView,
    r: Result<ServiceOutput, ServiceError>,
) -> bool {
    if pre.disposed {
        post == pre && r == Err::<ServiceOutput, ServiceError>(ServiceError::Disposed)
    } else {
        post.disposed == false && service_kind_step(pre.kind, msg, now, post.kind, r)
    }
}

impl Service {
    /// Well-formedness: the handler's own invariant.  Constructors
    /// establish it and every method keeps it.
    pub open spec fn wf(self) -> bool {
        service_kind_wf(self@.kind)
    }

    /// Wrap a handler as a live service.
    pub fn new(kind: ServiceKind) -> (r: Service)
        requires
            service_kind_wf(kind@),
        ensures
            r@.kind == kind@,
            r@.disposed == false,
            r.wf(),
    {
        Service { kind, disposed: false }
    }

    pub fn is_disposed(&self) -> (r: bool)
        ensures
            r == self@.disposed,
    {
        self.disposed
    }

    /// Deliver one message.  Delivery to a disposed service always
    /// fails; otherwise the kind's own step relation says exactly what
    /// changes and what comes back.
    pub fn message(&mut self, msg: ServiceMessage, now: u64) -> (r: Result<
        ServiceOutput,
        ServiceError,
    >)
        requires
            old(self).wf(),
        ensures
            final(self).wf(),
            service_step(old(self)@, msg, now, final(self)@, r),
    {
        if self.disposed {
            return Err(ServiceError::Disposed);
        }
        match (&mut self.kind, msg) {
            (ServiceKind::Ping(p), ServiceMessage::Ping(m)) => p.handle_message(m, now),
            (ServiceKind::OpenConnection(o), ServiceMessage::OpenConnection(m)) => o.handle_message(
                m,
            ),
            (ServiceKind::Connection(c), ServiceMessage::Connection(m)) => c.handle_message(m),
            _ => Ok(ServiceOutput::Ignored),
        }
    }

    /// Dispose the service: run its shutdown hook and mark it so that
    /// every later delivery fails.  Disposing twice changes nothing the
    /// second time.
    pub fn shutdown(&mut self)
        requires
            old(self).wf(),
        ensures
            final(self).wf(),
            final(self)@.disposed == true,
            old(self)@.disposed ==> final(self)@ == old(self)@,
            !old(self)@.disposed ==> match old(self)@.kind {
                ServiceKindView::Ping(p) => final(self)@.kind == ServiceKindView::Ping(
                    PingServiceView {
                        server_id: p.server_id,
                        information: p.information,
                        pending: Seq::<SystemAddress>::empty(),
                    },
                ),
                _ => final(self)@.kind == old(self)@.kind,
            },
    {
        if self.disposed {
            return ;
        }
        self.disposed = true;
        match &mut self.kind {
            ServiceKind::Ping(p) => p.shutdown(),
            ServiceKind::OpenConnection(_) => {},
            ServiceKind::Connection(_) => {},
        }
    }
}

/// One bus entry: a service under its registered name.
pub struct RegisteredService {
    pub name: String,
    pub service: Service,
}

/// The process-wide registry of services by name.
pub struct ServiceManager {
    services: Vec<RegisteredService>,
}

impl View for ServiceManager {
    type V = Seq<(Seq<char>, ServiceView)>;

    closed spec fn view(&self) -> Seq<(Seq<char>, ServiceView)> {
        self.services@.map_values(|e: RegisteredService| (e.name@, e.service@))
    }
}

/// Whether some entry carries this name.
pub open spec fn spec_contains_name(m: Seq<(Seq<char>, ServiceView)>, name: Seq<char>) -> bool {
    exists|i: int| 0 <= i < m.len() && #[trigger] m[i].0 == name
}

impl ServiceManager {
    /// Well-formedness: names are unique, no registered service is
    /// disposed, and every registered service keeps its own invariant.
    /// Constructors establish it and every method keeps it.
    pub open spec fn wf(self) -> bool {
        &&& forall|i: int, j: int|
            0 <= i < j < self@.len() ==> #[trigger] self@[i].0 != #[trigger] self@[j].0
        &&& forall|i: int| 0 <= i < self@.len() ==> !(#[trigger] self@[i].1.disposed)
        &&& forall|i: int| 0 <= i < self@.len() ==> service_kind_wf((#[trigger] self@[i]).1.kind)
    }

    /// An empty registry.
    pub fn new() -> (r: ServiceManager)
        ensures
            r@ == Seq::<(Seq<char>, ServiceView)>::empty(),
            r.wf(),
    {
        let m = ServiceManager { services: Vec::new() };
        proof {
            assert(m@ =~= Seq::<(Seq<char>, ServiceView)>::empty());
        }
        m
    }

    /// Register a service under a name.  Fails, handing both inputs
    /// back, when the service is already disposed or the name is taken;
    /// names are never overwritten.
    pub fn register(&mut self, name: String, service: Service) -> (r: Result<
        (),
        (String, Service),
    >)
        requires
            old(self).wf(),
            service.wf(),
        ensures
            final(self).wf(),
            ({
                let rejected = service@.disposed || spec_contains_name(old(self)@, name@);
                if rejected {
                    final(self)@ == old(self)@ && (r matches Err((n, s)) && n@ == name@ && s@
                        == service@)
                } else {
                    r is Ok && final(self)@ == old(self)@.push((name@, service@))
                }
            }),
    {
        if service.is_disposed() {
            return Err((name, service));
        }
        let n = self.services.len();
        let mut i: usize = 0;
        while i < n
            invariant
                i <= n,
                n == self@.len(),
                self@ == old(self)@,
                n == self.services@.len(),
                self@ == self.services@.map_values(
                    |e: RegisteredService| (e.name@, e.service@),
                ),
                old(self).wf(),
                forall|j: int| 0 <= j < i ==> #[trigger] self@[j].0 != name@,
            decreases n - i,
        {
            if self.services[i].name == name {
                proof {
                    assert(self@[i as int].0 == name@);
                }
                return Err((name, service));
            }
            i += 1;
        }
        let ghost pre = self@;
        self.services.push(RegisteredService { name, service });
        proof {
            assert(self@ =~= pre.push((name@, service@)));
        }
        Ok(())
    }

    /// Deliver a message to the named service.  An unknown name fails
    /// with not-found and changes nothing; otherwise exactly that
    /// service steps and every other entry is untouched.
    pub fn send(&mut self, name: &String, message: ServiceMessage, now: u64) -> (r: Result<
        ServiceOutput,
        SendError,
    >)
        requires
            old(self).wf(),
        ensures
            final(self).wf(),
            !spec_contains_name(old(self)@, name@) ==> final(self)@ == old(self)@ && r == Err::<
                ServiceOutput,
                SendError,
            >(SendError::NotFound),
            spec_contains_name(old(self)@, name@) ==> exists|i: int|
                {
                    &&& 0 <= i < old(self)@.len()
                    &&& #[trigger] old(self)@[i].0 == name@
                    &&& final(self)@.len() == old(self)@.len()
                    &&& (forall|j: int|
                        0 <= j < final(self)@.len() && j != i ==> #[trigger] final(self)@[j]
                            == old(self)@[j])
                    &&& final(self)@[i].0 == name@
                    &&& match r {
                        Ok(out) => service_step(
                            old(self)@[i].1,
                            message,
                            now,
                            final(self)@[i].1,
                            Ok(out),
                        ),
                        Err(e) => e != SendError::NotFound && service_step(
                            old(self)@[i].1,
                            message,
                            now,
                            final(self)@[i].1,
                            Err(
                                match e {
                                    SendError::Disposed => ServiceError::Disposed,
                                    _ => ServiceError::AlreadyRequested,
                                },
                            ),
                        ),
                    }
                },
    {
        let n = self.services.len();
        let mut i: usize = 0;
        while i < n
            invariant
                i <= n,
                n == self@.len(),
                self@ == old(self)@,
                n == self.services@.len(),
                self@ == self.services@.map_values(
                    |e: RegisteredService| (e.name@, e.service@),
                ),
                old(self).wf(),
                forall|j: int| 0 <= j < i ==> #[trigger] self@[j].0 != name@,
            decreases n - i,
        {
            if self.services[i].name == *name {
                let ghost pre = self@;
                proof {
                    assert(pre[i as int].1 == self.services@[i as int].service@);
                }
                let entry = &mut self.services[i];
                let result = entry.service.message(message, now);
                proof {
                    assert(self@ =~= pre.update(
                        i as int,
                        (pre[i as int].0, self.services@[i as int].service@),
                    ));
                    assert(self@[i as int].0 == name@);
                    assert(self@[i as int].1 == self.services@[i as int].service@);
                    assert(service_kind_wf(self@[i as int].1.kind));
                    assert(!self@[i as int].1.disposed);
                }
                return match result {
                    Ok(out) => Ok(out),
                    Err(ServiceError::Disposed) => Err(SendError::Disposed),
                    Err(ServiceError::AlreadyRequested) => Err(SendError::AlreadyRequested),
                };
            }
            i += 1;
        }
        Err(SendError::NotFound)
    }

    /// Remove and dispose the named service.  Absent names change
    /// nothing, so a second shutdown of the same name is a no-op.
    pub fn shutdown(&mut self, name: &String)
        requires
            old(self).wf(),
        ensures
            final(self).wf(),
            !spec_contains_name(old(self)@, name@) ==> final(self)@ == old(self)@,
            spec_contains_name(old(self)@, name@) ==> exists|i: int|
                {
                    &&& 0 <= i < old(self)@.len()
                    &&& #[trigger] old(self)@[i].0 == name@
                    &&& final(self)@ == old(self)@.remove(i)
                },
    {
        let n = self.services.len();
        let mut i: usize = 0;
        while i < n
            invariant
                i <= n,
                n == self@.len(),
                self@ == old(self)@,
                n == self.services@.len(),
                self@ == self.services@.map_values(
                    |e: RegisteredService| (e.name@, e.service@),
                ),
                old(self).wf(),
                forall|j: int| 0 <= j < i ==> #[trigger] self@[j].0 != name@,
            decreases n - i,
        {
            if self.services[i].name == *name {
                let ghost pre = self@;
                proof {
                    assert(pre[i as int].1 == self.services@[i as int].service@);
                    assert(pre[i as int].0 == name@);
                }
                let mut entry = self.services.remove(i);
                entry.service.shutdown();
                proof {
                    assert(self@ =~= pre.remove(i as int));
                    assert forall|a: int, b: int|
                        0 <= a < b < self@.len() implies #[trigger] self@[a].0
                        != #[trigger] self@[b].0 by {
                        let a0: int = if a < i {
                            a
                        } else {
                            a + 1
                        };
                        let b0: int = if b < i {
                            b
                        } else {
                            b + 1
                        };
                        assert(self@[a] == pre[a0]);
                        assert(self@[b] == pre[b0]);
                    }
                    assert forall|a: int|
                        0 <= a < self@.len() implies !(#[trigger] self@[a]).1.disposed
                        && service_kind_wf(self@[a].1.kind) by {
                        let a0: int = if a < i {
                            a
                        } else {
                            a + 1
                        };
                        assert(self@[a] == pre[a0]);
                    }
                }
                return ;
            }
            i += 1;
        }
    }
}

/// The name the ping service is registered under.
pub fn ping_service_name() -> (r: String)
    ensures
        r@ == "ping"@,
{
    String::from_str("ping")
}

/// The name the handshake service is registered under.
pub fn open_connection_service_name() -> (r: String)
    ensures
        r@ == "open_connection"@,
{
    String::from_str("open_connection")
}

/// The name the connection service is registered under.
pub fn connection_service_name() -> (r: String)
    ensures
        r@ == "connection"@,
{
    String::from_str("connection")
}

} // verus!
