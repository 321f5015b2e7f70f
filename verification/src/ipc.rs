//! The messages that runners, clients and the daemon exchange over the
//! control socket. Each message travels as one line of JSON; the framing and
//! the encoding live with the socket code.

use vstd::prelude::*;

verus! {

/// What a registered service runs.
#[derive(Debug, Clone, Copy, PartialEq, Eq, Structural)]
pub enum ProcessKind {
    Http,
    Worker,
}

/// The upstream port that an HTTP service wants when it starts.
#[derive(Debug, Clone, Copy, PartialEq, Eq, Structural)]
pub enum PortRequest {
    /// Exactly this port.
    Fixed { port: u16 },
    /// The first free port from `start` to `end`, both included.
    Range { start: u16, end: u16 },
}

/// A runner's registration of a service.
#[derive(Debug, Clone)]
pub struct Register {
    pub name: String,
    pub kind: ProcessKind,
    pub port_request: Option<PortRequest>,
}

/// Messages from a runner to the daemon.
#[derive(Debug, Clone)]
pub enum RunnerMessage {
    Register(Register),
    Ready { name: String },
    Stopped { name: String },
    Failed { name: String, error: String },
}

/// Messages from the daemon to a runner.
#[derive(Debug, Clone)]
pub enum DaemonMessage {
    Registered { url: Option<String> },
    Start { port: Option<u16> },
    Stop,
    Error { message: String },
}

/// Requests from the command-line client.
#[derive(Debug, Clone)]
pub enum ClientRequest {
    Status,
    Start { name: String },
    Stop { name: String },
}

/// The first message on a control connection.
#[derive(Debug, Clone)]
pub enum SocketMessage {
    RunnerRegister { register: Register },
    Client { request: ClientRequest },
}

} // verus!
