//! The registry of services that runners have registered with the daemon,
//! their states and upstream ports, and who waits for them to start.
//!
//! Channels to runners and to waiting requests live with the socket code; the
//! registry knows them by number and says, for each event, which of them to
//! answer and how.

use vstd::prelude::*;
use crate::daemon::routing::{HostRouting, RoutingError};
use crate::ipc::{PortRequest, ProcessKind, Register, RunnerMessage};
use crate::text::{chars_of, concat, debug_quoted, debug_str, decimal, decimal_string, owned, str_eq};

verus! {

/// The life cycle of a service.
#[derive(Debug, Clone, Copy, PartialEq, Eq, Structural)]
pub enum ServiceState {
    Dormant,
    Starting,
    Ready,
    Failed,
}

/// A registered service.
pub struct Service {
    pub register: Register,
    pub active_port: Option<u16>,
    pub state: ServiceState,
    pub last_error: Option<String>,
    /// The number of the runner connection that registered the service.
    pub control: u64,
    /// The numbers of the requests that wait for the service to start.
    pub waiters: Vec<u64>,
}

/// Why a registration is refused.
#[derive(Debug, Clone)]
pub enum RegisterError {
    ZeroPort,
    InvalidRange { start: u16, end: u16 },
    MissingPortRequest,
    WorkerWithPort,
    AlreadyRegistered { name: String },
}

/// Why no upstream port can be chosen.
#[derive(Debug, Clone, Copy, PartialEq, Eq, Structural)]
pub enum PortError {
    Unavailable { port: u16 },
    NoFreePort { start: u16, end: u16 },
}

/// Why a launch is refused.
#[derive(Debug, Clone, Copy, PartialEq, Eq, Structural)]
pub enum LaunchError {
    NotRegistered,
    NotStartable,
    BadPort,
}

/// What starting a service takes, as far as the registry can tell.
#[derive(Debug, Clone, Copy, PartialEq, Eq, Structural)]
pub enum StartPlan {
    /// No service has the name.
    NotRegistered,
    /// The service is ready: nothing to wait for.
    AlreadyReady,
    /// The service is starting; the request now waits with the others.
    Waiting,
    /// The service must be launched, on a port chosen for `request`.
    Launch { kind: ProcessKind, request: Option<PortRequest> },
}

/// The registration problem of a service kind and port request, if any.
pub open spec fn register_problem(kind: ProcessKind, request: Option<PortRequest>) -> Option<
    RegisterError,
> {
    match (kind, request) {
        (ProcessKind::Http, Some(PortRequest::Fixed { port })) => if port > 0 {
            None
        } else {
            Some(RegisterError::ZeroPort)
        },
        (ProcessKind::Http, Some(PortRequest::Range { start, end })) => if start > 0 && start
            <= end {
            None
        } else {
            Some(RegisterError::InvalidRange { start, end })
        },
        (ProcessKind::Http, None) => Some(RegisterError::MissingPortRequest),
        (ProcessKind::Worker, Some(_)) => Some(RegisterError::WorkerWithPort),
        (ProcessKind::Worker, None) => None,
    }
}

/// `p` is a port that `request` allows.
pub open spec fn port_in_request(p: u16, request: PortRequest) -> bool {
    match request {
        PortRequest::Fixed { port } => p == port,
        PortRequest::Range { start, end } => start <= p <= end,
    }
}

/// A service whose registration is valid and whose port, if any, is one
/// that its request allows.
pub open spec fn service_wf(s: Service) -> bool {
    &&& register_problem(s.register.kind, s.register.port_request) is None
    &&& (s.active_port matches Some(p) ==> s.register.kind == ProcessKind::Http
        && port_in_request(p, s.register.port_request->0))
}

/// The name of service `i`.
pub open spec fn name_at(ss: Seq<Service>, i: int) -> Seq<char> {
    ss[i].register.name@
}

/// No two services share a name.
pub open spec fn names_distinct(ss: Seq<Service>) -> bool {
    forall|i: int, j: int|
        0 <= i < ss.len() && 0 <= j < ss.len() && i != j ==> name_at(ss, i) != name_at(ss, j)
}

/// No two services hold the same upstream port.
pub open spec fn ports_distinct(ss: Seq<Service>) -> bool {
    forall|i: int, j: int|
        0 <= i < ss.len() && 0 <= j < ss.len() && i != j && (#[trigger] ss[i]).active_port
            is Some ==> ss[i].active_port != (#[trigger] ss[j]).active_port
}

/// Some service holds port `p`.
pub open spec fn port_in_use(ss: Seq<Service>, p: u16) -> bool {
    exists|i: int| 0 <= i < ss.len() && (#[trigger] ss[i]).active_port == Some(p)
}

/// Some service is named `name`.
pub open spec fn has_name(ss: Seq<Service>, name: Seq<char>) -> bool {
    exists|i: int| 0 <= i < ss.len() && name_at(ss, i) == name
}

/// The index of the service named `name`.
pub open spec fn index_of(ss: Seq<Service>, name: Seq<char>) -> Option<int> {
    if has_name(ss, name) {
        Some(choose|i: int| 0 <= i < ss.len() && name_at(ss, i) == name)
    } else {
        None
    }
}

/// The services, unchanged but for service `i`, which becomes `s`.
pub open spec fn same_except(a: Seq<Service>, b: Seq<Service>, i: int) -> bool {
    &&& a.len() == b.len()
    &&& forall|j: int| 0 <= j < a.len() && j != i ==> a[j] == b[j]
}

/// The daemon's registry: its routing, its public URL settings and the
/// registered services.
pub struct Registry {
    host_routing: HostRouting,
    public_port: u16,
    route_host: Option<String>,
    tls_enabled: bool,
    services: Vec<Service>,
}

impl Registry {
    /// The registered services, in registration order.
    pub closed spec fn entries(self) -> Seq<Service> {
        self.services@
    }

    /// The host routing.
    pub closed spec fn routing(self) -> HostRouting {
        self.host_routing
    }

    /// The port that public URLs carry.
    pub closed spec fn port(self) -> u16 {
        self.public_port
    }

    /// The path-routing host, if any.
    pub closed spec fn path_host(self) -> Option<Seq<char>> {
        match self.route_host {
            Some(h) => Some(h@),
            None => None,
        }
    }

    /// Whether public URLs use `https`.
    pub closed spec fn tls(self) -> bool {
        self.tls_enabled
    }

    /// Distinct names, distinct upstream ports, valid registrations.
    pub open spec fn wf(self) -> bool {
        &&& names_distinct(self.entries())
        &&& ports_distinct(self.entries())
        &&& forall|i: int| 0 <= i < self.entries().len() ==> service_wf(#[trigger] self.entries()[i])
    }

    /// An empty registry.
    pub fn new(host_routing: HostRouting, public_port: u16, route_host: Option<String>, tls_enabled: bool) -> (r: Self)
        ensures
            r.wf(),
            r.entries().len() == 0,
            r.routing() == host_routing,
            r.port() == public_port,
            r.path_host() == match route_host {
                Some(h) => Some(h@),
                None => None::<Seq<char>>,
            },
            r.tls() == tls_enabled,
    {
        Registry { host_routing, public_port, route_host, tls_enabled, services: Vec::new() }
    }

    /// The host routing.
    pub fn host_routing(&self) -> (r: &HostRouting)
        ensures
            *r == self.routing(),
    {
        &self.host_routing
    }

    /// Service `i`.
    pub fn service(&self, i: usize) -> (r: &Service)
        requires
            i < self.entries().len(),
        ensures
            *r == self.entries()[i as int],
    {
        &self.services[i]
    }

    /// The port that public URLs carry.
    pub fn public_port(&self) -> (r: u16)
        ensures
            r == self.port(),
    {
        self.public_port
    }

    /// Whether public URLs use `https`.
    pub fn tls_enabled(&self) -> (r: bool)
        ensures
            r == self.tls(),
    {
        self.tls_enabled
    }

    /// The path-routing host, if any.
    pub fn route_host(&self) -> (r: Option<&str>)
        ensures
            match r {
                Some(h) => self.path_host() == Some(h@),
                None => self.path_host() is None,
            },
    {
        match &self.route_host {
            Some(h) => Some(h.as_str()),
            None => None,
        }
    }

    /// The number of registered services.
    pub fn len(&self) -> (r: usize)
        ensures
            r == self.entries().len(),
    {
        self.services.len()
    }

    /// The index of the service named `name`.
    pub fn find(&self, name: &str) -> (r: Option<usize>)
        requires
            self.wf(),
        ensures
            match r {
                Some(i) => index_of(self.entries(), name@) == Some(i as int) && i < self.entries().len(),
                None => index_of(self.entries(), name@) is None,
            },
    {
        let ss = &self.services;
        let mut i: usize = 0;
        while i < ss.len()
            invariant
                i <= ss.len(),
                ss@ == self.entries(),
                names_distinct(ss@),
                forall|j: int| 0 <= j < i ==> name_at(ss@, j) != name@,
            decreases ss.len() - i,
        {
            if str_eq(ss[i].register.name.as_str(), name) {
                proof {
                    let k = choose|k: int| 0 <= k < ss@.len() && name_at(ss@, k) == name@;
                    assert(name_at(ss@, i as int) == name@);
                    assert(k == i);
                }
                return Some(i);
            }
            i = i + 1;
        }
        None
    }

    /// Whether a service is named `name`.
    pub fn has_service(&self, name: &str) -> (r: bool)
        requires
            self.wf(),
        ensures
            r == has_name(self.entries(), name@),
    {
        self.find(name).is_some()
    }

    /// Registers a service for the runner connection `control`: an HTTP
    /// service needs a port request (a fixed port above zero or a range
    /// `start..=end` with `0 < start <= end`), a worker must have none, and
    /// the name must be free. The new service is dormant.
    pub fn register(&mut self, register: Register, control: u64) -> (r: Result<(), RegisterError>)
        requires
            old(self).wf(),
        ensures
            final(self).wf(),
            final(self).routing() == old(self).routing(),
            final(self).port() == old(self).port(),
            final(self).path_host() == old(self).path_host(),
            final(self).tls() == old(self).tls(),
            match register_problem(register.kind, register.port_request) {
                Some(e) => r matches Err(f) && f == e && final(self).entries() == old(self).entries(),
                None => if has_name(old(self).entries(), register.name@) {
                    r matches Err(RegisterError::AlreadyRegistered { name }) && name@ == register.name@
                        && final(self).entries() == old(self).entries()
                } else {
                    &&& r is Ok
                    &&& final(self).entries().len() == old(self).entries().len() + 1
                    &&& final(self).entries().take(old(self).entries().len() as int) == old(self).entries()
                    &&& {
                        let s = final(self).entries().last();
                        &&& s.register == register
                        &&& s.active_port is None
                        &&& s.state == ServiceState::Dormant
                        &&& s.last_error is None
                        &&& s.control == control
                        &&& s.waiters@.len() == 0
                    }
                },
            },
    {
        match (register.kind, register.port_request) {
            (ProcessKind::Http, Some(PortRequest::Fixed { port })) => {
                if port == 0 {
                    return Err(RegisterError::ZeroPort);
                }
            },
            (ProcessKind::Http, Some(PortRequest::Range { start, end })) => {
                if !(start > 0 && start <= end) {
                    return Err(RegisterError::InvalidRange { start, end });
                }
            },
            (ProcessKind::Http, None) => {
                return Err(RegisterError::MissingPortRequest);
            },
            (ProcessKind::Worker, Some(_)) => {
                return Err(RegisterError::WorkerWithPort);
            },
            (ProcessKind::Worker, None) => {},
        }
        if self.find(register.name.as_str()).is_some() {
            let name = owned(register.name.as_str());
            return Err(RegisterError::AlreadyRegistered { name });
        }
        let ghost old_ss = self.services@;
        let ghost reg_name = register.name@;
        let s = Service {
            register,
            active_port: None,
            state: ServiceState::Dormant,
            last_error: None,
            control,
            waiters: Vec::new(),
        };
        self.services.push(s);
        proof {
            let ss = self.services@;
            assert(ss.take(old_ss.len() as int) =~= old_ss);
            assert(!has_name(old_ss, reg_name));
            assert(name_at(ss, old_ss.len() as int) == reg_name);
            assert forall|i: int, j: int|
                0 <= i < ss.len() && 0 <= j < ss.len() && i != j implies name_at(ss, i) != name_at(
                ss,
                j,
            ) by {
                if i < old_ss.len() && j < old_ss.len() {
                    assert(ss[i] == old_ss[i] && ss[j] == old_ss[j]);
                    assert(names_distinct(old_ss));
                    assert(name_at(old_ss, i) != name_at(old_ss, j));
                } else if i < old_ss.len() {
                    assert(ss[i] == old_ss[i]);
                    assert(name_at(old_ss, i) != reg_name);
                    assert(j == old_ss.len());
                } else {
                    assert(ss[j] == old_ss[j]);
                    assert(name_at(old_ss, j) != reg_name);
                    assert(i == old_ss.len());
                }
            }
            assert forall|i: int, j: int|
                0 <= i < ss.len() && 0 <= j < ss.len() && i != j && (#[trigger] ss[i]).active_port
                    is Some implies ss[i].active_port != (#[trigger] ss[j]).active_port by {
                if i < old_ss.len() && j < old_ss.len() {
                    assert(ss[i] == old_ss[i] && ss[j] == old_ss[j]);
                }
            }
            assert forall|i: int| 0 <= i < ss.len() implies service_wf(#[trigger] ss[i]) by {
                if i < old_ss.len() {
                    assert(ss[i] == old_ss[i]);
                }
            }
        }
        Ok(())
    }

    /// Applies a runner's report: `Ready` makes the service ready, `Stopped`
    /// dormant and `Failed` failed with the error kept for the status page;
    /// the last two release its upstream port. Every waiter of the service is
    /// answered: `Ok` for `Ready`, else the error (`stopped` for `Stopped`).
    /// A report for an unknown name, and a `Register`, change nothing.
    pub fn apply_runner_message(&mut self, message: RunnerMessage) -> (r: Notice)
        requires
            old(self).wf(),
        ensures
            final(self).wf(),
            final(self).routing() == old(self).routing(),
            final(self).port() == old(self).port(),
            final(self).path_host() == old(self).path_host(),
            final(self).tls() == old(self).tls(),
            match message_target(message) {
                None => final(self).entries() == old(self).entries() && r.waiters@.len() == 0,
                Some(name) => match index_of(old(self).entries(), name) {
                    None => final(self).entries() == old(self).entries() && r.waiters@.len() == 0,
                    Some(i) => {
                        let o = old(self).entries()[i];
                        let n = final(self).entries()[i];
                        &&& same_except(old(self).entries(), final(self).entries(), i)
                        &&& n.register == o.register
                        &&& n.control == o.control
                        &&& n.waiters@.len() == 0
                        &&& r.waiters@ == o.waiters@
                        &&& match message {
                            RunnerMessage::Ready { .. } => {
                                &&& n.state == ServiceState::Ready
                                &&& n.last_error is None
                                &&& n.active_port == o.active_port
                                &&& r.result is Ok
                            },
                            RunnerMessage::Stopped { .. } => {
                                &&& n.state == ServiceState::Dormant
                                &&& n.last_error is None
                                &&& n.active_port is None
                                &&& r.result matches Err(e) && e@ == "stopped"@
                            },
                            RunnerMessage::Failed { error, .. } => {
                                &&& n.state == ServiceState::Failed
                                &&& n.last_error matches Some(e) && e@ == error@
                                &&& n.active_port is None
                                &&& r.result matches Err(e) && e@ == error@
                            },
                            RunnerMessage::Register(_) => false,
                        }
                    },
                },
            },
    {
        let (name, state, result, release, last_error) = match message {
            RunnerMessage::Ready { name } => (name, ServiceState::Ready, Ok(()), false, None),
            RunnerMessage::Stopped { name } => (
                name,
                ServiceState::Dormant,
                Err(owned("stopped")),
                true,
                None,
            ),
            RunnerMessage::Failed { name, error } => {
                let copy = owned(error.as_str());
                (name, ServiceState::Failed, Err(copy), true, Some(error))
            },
            RunnerMessage::Register(_) => {
                return Notice { waiters: Vec::new(), result: Ok(()) };
            },
        };
        let i = match self.find(name.as_str()) {
            Some(i) => i,
            None => {
                return Notice { waiters: Vec::new(), result };
            },
        };
        let ghost o = self.services@;
        let mut s = self.services.remove(i);
        assert(s == o[i as int]);
        let mut waiters: Vec<u64> = Vec::new();
        std::mem::swap(&mut waiters, &mut s.waiters);
        s.state = state;
        s.last_error = last_error;
        if release {
            s.active_port = None;
        }
        self.services.insert(i, s);
        proof {
            let ss = self.services@;
            assert(ss =~= o.update(i as int, s));
            assert forall|a: int, b: int|
                0 <= a < ss.len() && 0 <= b < ss.len() && a != b implies name_at(ss, a) != name_at(
                ss,
                b,
            ) by {
                assert(name_at(o, a) != name_at(o, b));
            }
            assert forall|a: int, b: int|
                0 <= a < ss.len() && 0 <= b < ss.len() && a != b && (#[trigger] ss[a]).active_port
                    is Some implies ss[a].active_port != (#[trigger] ss[b]).active_port by {
                assert(o[a].active_port is Some ==> o[a].active_port != o[b].active_port);
            }
            assert forall|a: int| 0 <= a < ss.len() implies service_wf(#[trigger] ss[a]) by {
                assert(service_wf(o[a]));
            }
        }
        Notice { waiters, result }
    }

    /// Removes service `name` when `control` is the connection that
    /// registered it, and returns its waiters, to be told that the runner
    /// disconnected. A later registration under the same name, from another
    /// connection, is left alone.
    pub fn unregister(&mut self, name: &str, control: u64) -> (r: Vec<u64>)
        requires
            old(self).wf(),
        ensures
            final(self).wf(),
            final(self).routing() == old(self).routing(),
            final(self).port() == old(self).port(),
            final(self).path_host() == old(self).path_host(),
            final(self).tls() == old(self).tls(),
            match index_of(old(self).entries(), name@) {
                Some(i) => if old(self).entries()[i].control == control {
                    final(self).entries() == old(self).entries().remove(i) && r@ == old(
                        self,
                    ).entries()[i].waiters@
                } else {
                    final(self).entries() == old(self).entries() && r@.len() == 0
                },
                None => final(self).entries() == old(self).entries() && r@.len() == 0,
            },
    {
        let i = match self.find(name) {
            Some(i) => i,
            None => return Vec::new(),
        };
        if self.services[i].control != control {
            return Vec::new();
        }
        let ghost o = self.services@;
        let s = self.services.remove(i);
        proof {
            let ss = self.services@;
            assert(ss =~= o.remove(i as int));
            assert forall|a: int, b: int|
                0 <= a < ss.len() && 0 <= b < ss.len() && a != b implies name_at(ss, a) != name_at(
                ss,
                b,
            ) by {
                let a0 = if a < i { a } else { a + 1 };
                let b0 = if b < i { b } else { b + 1 };
                assert(ss[a] == o[a0] && ss[b] == o[b0]);
                assert(name_at(o, a0) != name_at(o, b0));
            }
            assert forall|a: int, b: int|
                0 <= a < ss.len() && 0 <= b < ss.len() && a != b && (#[trigger] ss[a]).active_port
                    is Some implies ss[a].active_port != (#[trigger] ss[b]).active_port by {
                let a0 = if a < i { a } else { a + 1 };
                let b0 = if b < i { b } else { b + 1 };
                assert(ss[a] == o[a0] && ss[b] == o[b0]);
                assert(o[a0].active_port is Some ==> o[a0].active_port != o[b0].active_port);
            }
            assert forall|a: int| 0 <= a < ss.len() implies service_wf(#[trigger] ss[a]) by {
                let a0 = if a < i { a } else { a + 1 };
                assert(ss[a] == o[a0]);
                assert(service_wf(o[a0]));
            }
        }
        s.waiters
    }

    /// The first step of starting service `name` for the request numbered
    /// `waiter`. A starting service takes the request as one more waiter;
    /// a ready one needs nothing; a dormant or failed one must be launched
    /// on a port chosen for its request.
    pub fn begin_start(&mut self, name: &str, waiter: u64) -> (r: StartPlan)
        requires
            old(self).wf(),
        ensures
            final(self).wf(),
            final(self).routing() == old(self).routing(),
            final(self).port() == old(self).port(),
            final(self).path_host() == old(self).path_host(),
            final(self).tls() == old(self).tls(),
            match index_of(old(self).entries(), name@) {
                None => r == StartPlan::NotRegistered && final(self).entries() == old(self).entries(),
                Some(i) => {
                    let o = old(self).entries()[i];
                    match o.state {
                        ServiceState::Ready => r == StartPlan::AlreadyReady && final(self).entries()
                            == old(self).entries(),
                        ServiceState::Starting => {
                            let n = final(self).entries()[i];
                            &&& r == StartPlan::Waiting
                            &&& same_except(old(self).entries(), final(self).entries(), i)
                            &&& n.register == o.register
                            &&& n.state == o.state
                            &&& n.active_port == o.active_port
                            &&& n.last_error == o.last_error
                            &&& n.control == o.control
                            &&& n.waiters@ == o.waiters@.push(waiter)
                        },
                        _ => r == (StartPlan::Launch {
                            kind: o.register.kind,
                            request: o.register.port_request,
                        }) && final(self).entries() == old(self).entries(),
                    }
                },
            },
    {
        let i = match self.find(name) {
            Some(i) => i,
            None => return StartPlan::NotRegistered,
        };
        match self.services[i].state {
            ServiceState::Ready => StartPlan::AlreadyReady,
            ServiceState::Starting => {
                let ghost o = self.services@;
                let mut s = self.services.remove(i);
                assert(s == o[i as int]);
                s.waiters.push(waiter);
                self.services.insert(i, s);
                proof {
                    let ss = self.services@;
                    assert(ss =~= o.update(i as int, s));
                    assert forall|a: int, b: int|
                        0 <= a < ss.len() && 0 <= b < ss.len() && a != b implies name_at(ss, a)
                            != name_at(ss, b) by {
                        assert(name_at(o, a) != name_at(o, b));
                    }
                    assert forall|a: int, b: int|
                        0 <= a < ss.len() && 0 <= b < ss.len() && a != b && (#[trigger] ss[a]).active_port
                            is Some implies ss[a].active_port != (#[trigger] ss[b]).active_port by {
                        assert(o[a].active_port is Some ==> o[a].active_port != o[b].active_port);
                    }
                    assert forall|a: int| 0 <= a < ss.len() implies service_wf(#[trigger] ss[a]) by {
                        assert(service_wf(o[a]));
                    }
                }
                StartPlan::Waiting
            },
            _ => StartPlan::Launch {
                kind: self.services[i].register.kind,
                request: self.services[i].register.port_request,
            },
        }
    }

    /// Whether some service holds port `p`.
    pub fn port_used(&self, p: u16) -> (r: bool)
        ensures
            r == port_in_use(self.entries(), p),
    {
        let mut i: usize = 0;
        while i < self.services.len()
            invariant
                i <= self.services.len(),
                forall|j: int| 0 <= j < i ==> (#[trigger] self.services@[j]).active_port != Some(p),
            decreases self.services.len() - i,
        {
            if let Some(q) = self.services[i].active_port {
                if q == p {
                    assert(self.services@[i as int].active_port == Some(p));
                    return true;
                }
            }
            i = i + 1;
        }
        false
    }

    /// The next port to try for `request`, at or above `from`: the fixed
    /// port if no service holds it, or the lowest port of the range that no
    /// service holds. Whether the port can be bound is for the caller to find
    /// out; if it cannot, the caller asks again from the next port.
    pub fn port_candidate(&self, request: PortRequest, from: u32) -> (r: Result<u16, PortError>)
        ensures
            match request {
                PortRequest::Fixed { port } => if from <= port && !port_in_use(self.entries(), port) {
                    r == Ok::<u16, PortError>(port)
                } else {
                    r == Err::<u16, PortError>(PortError::Unavailable { port })
                },
                PortRequest::Range { start, end } => match r {
                    Ok(p) => {
                        &&& start <= p <= end
                        &&& from <= p
                        &&& !port_in_use(self.entries(), p)
                        &&& forall|q: u16|
                            start <= q < p && from <= q ==> #[trigger] port_in_use(self.entries(), q)
                    },
                    Err(e) => {
                        &&& e == PortError::NoFreePort { start, end }
                        &&& forall|q: u16|
                            start <= q <= end && from <= q ==> #[trigger] port_in_use(self.entries(), q)
                    },
                },
            },
    {
        match request {
            PortRequest::Fixed { port } => {
                if from <= port as u32 && !self.port_used(port) {
                    Ok(port)
                } else {
                    Err(PortError::Unavailable { port })
                }
            },
            PortRequest::Range { start, end } => {
                let mut p: u32 = if (start as u32) < from {
                    from
                } else {
                    start as u32
                };
                while p <= end as u32
                    invariant
                        request == (PortRequest::Range { start, end }),
                        p >= from,
                        p >= start,
                        forall|q: u16|
                            start <= q < p && from <= q ==> #[trigger] port_in_use(self.entries(), q),
                    decreases end as u32 + 1 - p,
                {
                    if !self.port_used(p as u16) {
                        return Ok(p as u16);
                    }
                    p = p + 1;
                }
                Err(PortError::NoFreePort { start, end })
            },
        }
    }

    /// Launches service `name` on `port` for the request numbered `waiter`:
    /// the service must be dormant or failed, and `port` must be a port that
    /// its request allows and no service holds (HTTP) or none (worker). The
    /// service becomes starting, holds the port and has the waiter.
    pub fn launch(&mut self, name: &str, port: Option<u16>, waiter: u64) -> (r: Result<(), LaunchError>)
        requires
            old(self).wf(),
        ensures
            final(self).wf(),
            final(self).routing() == old(self).routing(),
            final(self).port() == old(self).port(),
            final(self).path_host() == old(self).path_host(),
            final(self).tls() == old(self).tls(),
            match index_of(old(self).entries(), name@) {
                None => r == Err::<(), LaunchError>(LaunchError::NotRegistered) && final(self).entries()
                    == old(self).entries(),
                Some(i) => {
                    let o = old(self).entries()[i];
                    if o.state == ServiceState::Starting || o.state == ServiceState::Ready {
                        r == Err::<(), LaunchError>(LaunchError::NotStartable) && final(self).entries()
                            == old(self).entries()
                    } else if !(match (o.register.kind, port) {
                        (ProcessKind::Http, Some(p)) => port_in_request(p, o.register.port_request->0)
                            && !port_in_use(old(self).entries(), p),
                        (ProcessKind::Worker, None) => true,
                        _ => false,
                    }) {
                        r == Err::<(), LaunchError>(LaunchError::BadPort) && final(self).entries()
                            == old(self).entries()
                    } else {
                        let n = final(self).entries()[i];
                        &&& r is Ok
                        &&& same_except(old(self).entries(), final(self).entries(), i)
                        &&& n.register == o.register
                        &&& n.state == ServiceState::Starting
                        &&& n.active_port == port
                        &&& n.last_error == o.last_error
                        &&& n.control == o.control
                        &&& n.waiters@ == o.waiters@.push(waiter)
                    }
                },
            },
    {
        let i = match self.find(name) {
            Some(i) => i,
            None => return Err(LaunchError::NotRegistered),
        };
        let st = self.services[i].state;
        if st == ServiceState::Starting || st == ServiceState::Ready {
            return Err(LaunchError::NotStartable);
        }
        let ok = match (self.services[i].register.kind, port) {
            (ProcessKind::Http, Some(p)) => {
                let inside = match self.services[i].register.port_request {
                    Some(PortRequest::Fixed { port: q }) => p == q,
                    Some(PortRequest::Range { start, end }) => start <= p && p <= end,
                    None => false,
                };
                inside && !self.port_used(p)
            },
            (ProcessKind::Worker, None) => true,
            _ => false,
        };
        if !ok {
            return Err(LaunchError::BadPort);
        }
        let ghost o = self.services@;
        let mut s = self.services.remove(i);
        assert(s == o[i as int]);
        s.state = ServiceState::Starting;
        s.active_port = port;
        s.waiters.push(waiter);
        self.services.insert(i, s);
        proof {
            let ss = self.services@;
            assert(ss =~= o.update(i as int, s));
            assert forall|a: int, b: int|
                0 <= a < ss.len() && 0 <= b < ss.len() && a != b implies name_at(ss, a) != name_at(
                ss,
                b,
            ) by {
                assert(name_at(o, a) != name_at(o, b));
            }
            assert forall|a: int, b: int|
                0 <= a < ss.len() && 0 <= b < ss.len() && a != b && (#[trigger] ss[a]).active_port
                    is Some implies ss[a].active_port != (#[trigger] ss[b]).active_port by {
                if a == i {
                    if ss[b].active_port == port {
                        assert(o[b].active_port == port);
                        assert(port_in_use(o, port->0));
                    }
                } else if b == i {
                    if ss[a].active_port == port {
                        assert(o[a].active_port == port);
                        assert(port_in_use(o, port->0));
                    }
                } else {
                    assert(o[a].active_port is Some ==> o[a].active_port != o[b].active_port);
                }
            }
            assert forall|a: int| 0 <= a < ss.len() implies service_wf(#[trigger] ss[a]) by {
                assert(service_wf(o[a]));
            }
        }
        Ok(())
    }

    /// The runner connection of service `name`, to which a stop goes.
    pub fn control_of(&self, name: &str) -> (r: Option<u64>)
        requires
            self.wf(),
        ensures
            match index_of(self.entries(), name@) {
                Some(i) => r == Some(self.entries()[i].control),
                None => r is None,
            },
    {
        match self.find(name) {
            Some(i) => Some(self.services[i].control),
            None => None,
        }
    }

    /// The upstream port of service `name`.
    pub fn upstream_port(&self, name: &str) -> (r: Result<u16, String>)
        requires
            self.wf(),
        ensures
            match index_of(self.entries(), name@) {
                Some(i) if self.entries()[i].active_port is Some => r == Ok::<u16, String>(
                    self.entries()[i].active_port->0,
                ),
                _ => r matches Err(m) && m@ == "service "@ + debug_str(name@)
                    + " has no active upstream port"@,
            },
    {
        if let Some(i) = self.find(name) {
            if let Some(p) = self.services[i].active_port {
                return Ok(p);
            }
        }
        let q = debug_quoted(name);
        let a = concat("service ", q.as_str());
        Err(concat(a.as_str(), " has no active upstream port"))
    }
}

/// The service that a runner's report is about; `None` for a registration.
pub open spec fn message_target(m: RunnerMessage) -> Option<Seq<char>> {
    match m {
        RunnerMessage::Ready { name } => Some(name@),
        RunnerMessage::Stopped { name } => Some(name@),
        RunnerMessage::Failed { name, .. } => Some(name@),
        RunnerMessage::Register(_) => None,
    }
}

/// The requests to answer after a report, and the answer.
pub struct Notice {
    pub waiters: Vec<u64>,
    pub result: Result<(), String>,
}

/// The message of a registration error.
pub open spec fn register_error_text(e: RegisterError) -> Seq<char> {
    match e {
        RegisterError::ZeroPort => "upstream port must be greater than zero"@,
        RegisterError::InvalidRange { start, end } => "invalid port range "@ + decimal(start as nat)
            + seq!['-'] + decimal(end as nat),
        RegisterError::MissingPortRequest => "HTTP service registration requires a port request"@,
        RegisterError::WorkerWithPort => "worker registration must not request a port"@,
        RegisterError::AlreadyRegistered { name } => "service "@ + debug_str(name@)
            + " is already registered"@,
    }
}

/// The message of a port error.
pub open spec fn port_error_text(e: PortError) -> Seq<char> {
    match e {
        PortError::Unavailable { port } => "upstream port "@ + decimal(port as nat)
            + " is unavailable"@,
        PortError::NoFreePort { start, end } => "no free port found in range "@ + decimal(
            start as nat,
        ) + seq!['-'] + decimal(end as nat),
    }
}

/// The text of `a`, a number `n` and `b`.
fn around_number(a: &str, n: u16, b: &str) -> (r: String)
    ensures
        r@ == a@ + decimal(n as nat) + b@,
{
    let mut v = chars_of(a);
    let mut d = crate::text::decimal_chars(n as u64);
    v.append(&mut d);
    let mut t = chars_of(b);
    v.append(&mut t);
    crate::text::string_of(&v)
}

/// The text of `a` and a port range.
fn with_range(a: &str, start: u16, end: u16) -> (r: String)
    ensures
        r@ == a@ + decimal(start as nat) + seq!['-'] + decimal(end as nat),
{
    let mut v = chars_of(a);
    let mut d = crate::text::decimal_chars(start as u64);
    v.append(&mut d);
    v.push('-');
    let mut e = crate::text::decimal_chars(end as u64);
    v.append(&mut e);
    crate::text::string_of(&v)
}

/// The message of a launch error.
pub open spec fn launch_error_text(e: LaunchError) -> Seq<char> {
    match e {
        LaunchError::NotRegistered => "service not registered"@,
        LaunchError::NotStartable => "service is already starting or ready"@,
        LaunchError::BadPort => "upstream port is not available to this service"@,
    }
}

impl LaunchError {
    /// The error's message.
    pub fn message(&self) -> (r: String)
        ensures
            r@ == launch_error_text(*self),
    {
        match self {
            LaunchError::NotRegistered => owned("service not registered"),
            LaunchError::NotStartable => owned("service is already starting or ready"),
            LaunchError::BadPort => owned("upstream port is not available to this service"),
        }
    }
}

impl RegisterError {
    /// The error's message.
    pub fn message(&self) -> (r: String)
        ensures
            r@ == register_error_text(*self),
    {
        match self {
            RegisterError::ZeroPort => owned("upstream port must be greater than zero"),
            RegisterError::InvalidRange { start, end } => with_range("invalid port range ", *start, *end),
            RegisterError::MissingPortRequest => owned("HTTP service registration requires a port request"),
            RegisterError::WorkerWithPort => owned("worker registration must not request a port"),
            RegisterError::AlreadyRegistered { name } => {
                let q = debug_quoted(name.as_str());
                let a = concat("service ", q.as_str());
                concat(a.as_str(), " is already registered")
            },
        }
    }
}

impl PortError {
    /// The error's message.
    pub fn message(&self) -> (r: String)
        ensures
            r@ == port_error_text(*self),
    {
        match self {
            PortError::Unavailable { port } => around_number("upstream port ", *port, " is unavailable"),
            PortError::NoFreePort { start, end } => with_range("no free port found in range ", *start, *end),
        }
    }
}

/// The client's answer to `lazy start <name>`: ready, or the error.
pub open spec fn start_reply_spec(name: Seq<char>, result: Result<(), Seq<char>>) -> Seq<char> {
    match result {
        Ok(()) => name + ": ready\n"@,
        Err(e) => name + ": "@ + e + seq!['\n'],
    }
}

/// The client's answer to `lazy stop <name>`: stopping, or the error.
pub open spec fn stop_reply_spec(name: Seq<char>, result: Result<(), Seq<char>>) -> Seq<char> {
    match result {
        Ok(()) => name + ": stopping\n"@,
        Err(e) => name + ": "@ + e + seq!['\n'],
    }
}

/// `e` as the view of an error text.
pub open spec fn err_view(r: Result<(), &str>) -> Result<(), Seq<char>> {
    match r {
        Ok(()) => Ok(()),
        Err(e) => Err(e@),
    }
}

/// The client's answer to `lazy start <name>`.
pub fn start_reply(name: &str, result: Result<(), &str>) -> (r: String)
    ensures
        r@ == start_reply_spec(name@, err_view(result)),
{
    match result {
        Ok(()) => concat(name, ": ready\n"),
        Err(e) => {
            let a = concat(name, ": ");
            let mut v = chars_of(a.as_str());
            let mut ec = chars_of(e);
            v.append(&mut ec);
            v.push('\n');
            crate::text::string_of(&v)
        },
    }
}

/// The client's answer to `lazy stop <name>`.
pub fn stop_reply(name: &str, result: Result<(), &str>) -> (r: String)
    ensures
        r@ == stop_reply_spec(name@, err_view(result)),
{
    match result {
        Ok(()) => concat(name, ": stopping\n"),
        Err(e) => {
            let a = concat(name, ": ");
            let mut v = chars_of(a.as_str());
            let mut ec = chars_of(e);
            v.append(&mut ec);
            v.push('\n');
            crate::text::string_of(&v)
        },
    }
}

/// How the wait of a start request ended.
#[derive(Debug)]
pub enum WaitOutcome {
    /// The runner's report answered it.
    Answered(Result<(), String>),
    /// The answer can no longer come: the runner went away.
    RunnerGone,
    /// The start took longer than the daemon waits.
    TimedOut,
}

/// The answer to a start request that needs no wait: an error for a service
/// that is not registered, success for one that is ready; `None` where the
/// request waits for the service to start.
pub fn immediate_start_result(plan: StartPlan) -> (r: Option<Result<(), String>>)
    ensures
        match plan {
            StartPlan::NotRegistered => r matches Some(Err(e)) && e@ == "service not registered"@,
            StartPlan::AlreadyReady => r matches Some(Ok(())),
            _ => r is None,
        },
{
    match plan {
        StartPlan::NotRegistered => Some(Err(not_registered())),
        StartPlan::AlreadyReady => Some(Ok(())),
        _ => None,
    }
}

/// The answer to a start request once its wait ended: the runner's answer,
/// or the error for a runner that went away or a start that took too long.
pub fn wait_result(outcome: WaitOutcome) -> (r: Result<(), String>)
    ensures
        match outcome {
            WaitOutcome::Answered(a) => r == a,
            WaitOutcome::RunnerGone => r matches Err(e) && e@ == "runner disconnected"@,
            WaitOutcome::TimedOut => r matches Err(e) && e@ == "timed out waiting for service"@,
        },
{
    match outcome {
        WaitOutcome::Answered(result) => result,
        WaitOutcome::RunnerGone => Err(owned("runner disconnected")),
        WaitOutcome::TimedOut => Err(owned("timed out waiting for service")),
    }
}

/// The error of a request for a service that is not registered.
pub fn not_registered() -> (r: String)
    ensures
        r@ == "service not registered"@,
{
    owned("service not registered")
}

/// Once a service reports that it stopped or failed, the port that it held
/// is free for any other service.
pub proof fn lemma_stopped_service_frees_its_port(
    before: Seq<Service>,
    after: Seq<Service>,
    i: int,
    p: u16,
)
    requires
        ports_distinct(before),
        0 <= i < before.len(),
        before[i].active_port == Some(p),
        same_except(before, after, i),
        after[i].active_port is None,
    ensures
        !port_in_use(after, p),
{
    assert forall|j: int| 0 <= j < after.len() implies (#[trigger] after[j]).active_port != Some(p) by {
        if j != i {
            assert(after[j] == before[j]);
            assert(before[i].active_port != before[j].active_port);
        }
    }
}

} // verus!
