//! The runner's decisions: what it registers, how it waits for the daemon
//! and for its server's port, and what it does with each message of the
//! daemon and each change of its child process. Sockets, timers and the
//! child process itself belong to the caller, which performs the actions
//! returned here and reports back what happened.

use vstd::prelude::*;
use crate::command::framework::{prepared_args, words};
use crate::command::{command_hint, host_for_spec, opt_view, prepare_http_command, public_hostname_spec, pairs, PreparedCommand};
use crate::ipc::{DaemonMessage, PortRequest, ProcessKind, Register, RunnerMessage};
use crate::text::{chars_of, concat, debug_quoted, debug_str, decimal, owned, string_of};

verus! {

/// How long the runner waits between two attempts, in milliseconds.
pub const RETRY_INTERVAL_MS: u64 = 100;

/// How long an HTTP server has to open its port, in milliseconds.
pub const READINESS_TIMEOUT_MS: u64 = 300000;

/// How long a worker must keep running after it was spawned before it is
/// reported ready, in milliseconds: one that exits sooner is reported as
/// failed with its exit, not as ready.
pub const WORKER_SETTLE_MS: u64 = 1000;

/// The registration of an HTTP service: the fixed upstream port when one was
/// given, else the range `range_start..=range_end` to choose from.
pub fn http_registration(name: String, upstream_port: Option<u16>, range_start: u16, range_end: u16) -> (r: Register)
    ensures
        r.name == name,
        r.kind == ProcessKind::Http,
        r.port_request == Some(
            match upstream_port {
                Some(port) => PortRequest::Fixed { port },
                None => PortRequest::Range { start: range_start, end: range_end },
            },
        ),
{
    let request = match upstream_port {
        Some(port) => PortRequest::Fixed { port },
        None => PortRequest::Range { start: range_start, end: range_end },
    };
    Register { name, kind: ProcessKind::Http, port_request: Some(request) }
}

/// The registration of a worker, which asks for no port.
pub fn worker_registration(name: String) -> (r: Register)
    ensures
        r.name == name,
        r.kind == ProcessKind::Worker,
        r.port_request is None,
{
    Register { name, kind: ProcessKind::Worker, port_request: None }
}

/// What to do after a failed attempt to connect.
#[derive(Debug, Clone)]
pub enum RetryStep {
    /// Stop, with this error.
    Fail { message: String },
    /// Try again after this many milliseconds.
    Retry { wait_ms: u64 },
}

/// The smaller of two numbers.
pub open spec fn min_u64(a: u64, b: u64) -> u64 {
    if a <= b {
        a
    } else {
        b
    }
}

/// After a failed connection to the daemon at `path` (with `error`): without
/// a deadline the runner gives up at once; with one, it gives up once the
/// deadline has come, and otherwise waits until the deadline or for the
/// retry interval, whichever is shorter.
pub fn daemon_connect_step(path: &str, error: &str, deadline_ms: Option<u64>, now_ms: u64) -> (r: RetryStep)
    ensures
        match deadline_ms {
            None => r matches RetryStep::Fail { message } && message@
                == "could not connect to lazy daemon at "@ + path@,
            Some(d) => if now_ms >= d {
                r matches RetryStep::Fail { message } && message@ == "timed out waiting for lazy daemon at "@
                    + path@ + ": "@ + error@
            } else {
                r == RetryStep::Retry { wait_ms: min_u64((d - now_ms) as u64, RETRY_INTERVAL_MS) }
            },
        },
{
    match deadline_ms {
        None => RetryStep::Fail { message: concat("could not connect to lazy daemon at ", path) },
        Some(d) => {
            if now_ms >= d {
                let a = concat("timed out waiting for lazy daemon at ", path);
                let b = concat(a.as_str(), ": ");
                RetryStep::Fail { message: concat(b.as_str(), error) }
            } else {
                let left = d - now_ms;
                let wait_ms = if left <= RETRY_INTERVAL_MS {
                    left
                } else {
                    RETRY_INTERVAL_MS
                };
                RetryStep::Retry { wait_ms }
            }
        },
    }
}

/// The text `a` followed by the decimal digits of `n`.
fn with_number(a: &str, n: u64) -> (r: String)
    ensures
        r@ == a@ + decimal(n as nat),
{
    let mut v = chars_of(a);
    let mut d = crate::text::decimal_chars(n);
    v.append(&mut d);
    string_of(&v)
}

/// Whether the server's port is open yet: once a connection to `port`
/// succeeds it is ready; once the deadline has come it has failed; otherwise
/// the runner tries again after the retry interval.
pub fn port_wait_step(port: u16, connected: bool, deadline_ms: u64, now_ms: u64) -> (r: Option<RetryStep>)
    ensures
        connected ==> r is None,
        !connected && now_ms >= deadline_ms ==> (r matches Some(RetryStep::Fail { message })
            && message@ == "timed out waiting for loopback port "@ + decimal(port as nat)),
        !connected && now_ms < deadline_ms ==> r == Some(
            RetryStep::Retry { wait_ms: RETRY_INTERVAL_MS },
        ),
{
    if connected {
        None
    } else if now_ms >= deadline_ms {
        Some(RetryStep::Fail { message: with_number("timed out waiting for loopback port ", port as u64) })
    } else {
        Some(RetryStep::Retry { wait_ms: RETRY_INTERVAL_MS })
    }
}

/// The `Debug` text of a daemon message.
pub open spec fn daemon_message_debug(m: DaemonMessage) -> Seq<char> {
    match m {
        DaemonMessage::Registered { url } => match url {
            Some(u) => "Registered { url: Some("@ + debug_str(u@) + ") }"@,
            None => "Registered { url: None }"@,
        },
        DaemonMessage::Start { port } => match port {
            Some(p) => "Start { port: Some("@ + decimal(p as nat) + ") }"@,
            None => "Start { port: None }"@,
        },
        DaemonMessage::Stop => "Stop"@,
        DaemonMessage::Error { message } => "Error { message: "@ + debug_str(message@) + " }"@,
    }
}

/// `a`, the `Debug` text of `s`, then `b`.
fn around_debug(a: &str, s: &str, b: &str) -> (r: String)
    ensures
        r@ == a@ + debug_str(s@) + b@,
{
    let q = debug_quoted(s);
    let x = concat(a, q.as_str());
    concat(x.as_str(), b)
}

/// The `Debug` text of a daemon message.
pub fn daemon_message_text(m: &DaemonMessage) -> (r: String)
    ensures
        r@ == daemon_message_debug(*m),
{
    match m {
        DaemonMessage::Registered { url } => match url {
            Some(u) => around_debug("Registered { url: Some(", u.as_str(), ") }"),
            None => owned("Registered { url: None }"),
        },
        DaemonMessage::Start { port } => match port {
            Some(p) => {
                let a = with_number("Start { port: Some(", *p as u64);
                concat(a.as_str(), ") }")
            },
            None => owned("Start { port: None }"),
        },
        DaemonMessage::Stop => owned("Stop"),
        DaemonMessage::Error { message } => around_debug("Error { message: ", message.as_str(), " }"),
    }
}

/// The daemon's answer to a registration: the public URL that it assigned
/// (if any), or the error that it sent; no answer, or any other message, is
/// an error too.
pub fn registration_outcome(response: Option<DaemonMessage>) -> (r: Result<Option<String>, String>)
    ensures
        match response {
            None => r matches Err(e) && e@ == "daemon disconnected during registration"@,
            Some(DaemonMessage::Registered { url }) => r == Ok::<Option<String>, String>(url),
            Some(DaemonMessage::Error { message }) => r == Err::<Option<String>, String>(message),
            Some(m) => r matches Err(e) && e@ == "unexpected daemon response: "@
                + daemon_message_debug(m),
        },
{
    match response {
        None => Err(owned("daemon disconnected during registration")),
        Some(DaemonMessage::Registered { url }) => Ok(url),
        Some(DaemonMessage::Error { message }) => Err(message),
        Some(m) => {
            let t = daemon_message_text(&m);
            Err(concat("unexpected daemon response: ", t.as_str()))
        },
    }
}

/// The URL that an HTTP runner announces: the daemon's, else `http://` and
/// the service name.
pub fn public_url(url: Option<String>, name: &str) -> (r: String)
    ensures
        match url {
            Some(u) => r == u,
            None => r@ == "http://"@ + name@,
        },
{
    match url {
        Some(u) => u,
        None => concat("http://", name),
    }
}

/// Where the runner's child process is.
#[derive(Debug, Clone, Copy, PartialEq, Eq, Structural)]
pub enum Phase {
    /// No child process.
    Idle,
    /// A child was launched; it is not ready yet. An HTTP child becomes ready
    /// when `port` opens, a worker once it has kept running for
    /// `WORKER_SETTLE_MS`.
    Starting { port: Option<u16> },
    /// The child is running and was reported ready.
    Running,
}

/// What happens to a runner.
#[derive(Debug, Clone)]
pub enum RunnerEvent {
    /// A message from the daemon.
    Message(DaemonMessage),
    /// The child process was spawned.
    Spawned,
    /// The child process could not be spawned.
    SpawnFailed { error: String },
    /// The child's port opened.
    PortReady,
    /// The worker child was still running when its settling time ended.
    Settled,
    /// The child's port did not open in time.
    PortTimedOut { error: String },
    /// The child process exited with this code.
    Exited { code: u32 },
    /// The control connection to the daemon was lost.
    Disconnected,
}

/// What the runner asks its caller to do, in order.
#[derive(Debug, Clone)]
pub enum RunnerAction {
    /// Send this message to the daemon.
    Send(RunnerMessage),
    /// Print this line on standard output.
    Print(String),
    /// Print this line on standard error.
    PrintError(String),
    /// Spawn this command.
    Spawn(PreparedCommand),
    /// Wait for this loopback port to open, then report.
    WaitForPort { port: u16 },
    /// Wait this many milliseconds, then report `Settled`.
    WaitToSettle { ms: u64 },
    /// Kill the child process, if there is one.
    Kill,
    /// Stop running.
    Exit,
}

/// A runner message, as the texts it carries.
pub enum MessageView {
    Ready(Seq<char>),
    Stopped(Seq<char>),
    Failed(Seq<char>, Seq<char>),
    Register(Seq<char>),
}

/// A runner action, as the values it carries.
pub enum ActionView {
    Send(MessageView),
    Print(Seq<char>),
    PrintError(Seq<char>),
    Spawn(Seq<Seq<char>>, Seq<(Seq<char>, Seq<char>)>),
    WaitForPort(u16),
    WaitToSettle(u64),
    Kill,
    Exit,
}

/// The view of a runner message.
pub open spec fn message_view(m: RunnerMessage) -> MessageView {
    match m {
        RunnerMessage::Ready { name } => MessageView::Ready(name@),
        RunnerMessage::Stopped { name } => MessageView::Stopped(name@),
        RunnerMessage::Failed { name, error } => MessageView::Failed(name@, error@),
        RunnerMessage::Register(reg) => MessageView::Register(reg.name@),
    }
}

/// The view of an action.
pub open spec fn action_view(a: RunnerAction) -> ActionView {
    match a {
        RunnerAction::Send(m) => ActionView::Send(message_view(m)),
        RunnerAction::Print(s) => ActionView::Print(s@),
        RunnerAction::PrintError(s) => ActionView::PrintError(s@),
        RunnerAction::Spawn(c) => ActionView::Spawn(words(c.argv@), pairs(c.env@)),
        RunnerAction::WaitForPort { port } => ActionView::WaitForPort(port),
        RunnerAction::WaitToSettle { ms } => ActionView::WaitToSettle(ms),
        RunnerAction::Kill => ActionView::Kill,
        RunnerAction::Exit => ActionView::Exit,
    }
}

/// The view of a list of actions.
pub open spec fn actions_view(v: Seq<RunnerAction>) -> Seq<ActionView> {
    Seq::new(v.len(), |i: int| action_view(v[i]))
}

/// The view of an optional text.
pub open spec fn opt_text(s: Option<String>) -> Option<Seq<char>> {
    match s {
        Some(x) => Some(x@),
        None => None,
    }
}

/// A runner: its service, the command it runs and where its child is.
pub struct Runner {
    pub name: String,
    pub kind: ProcessKind,
    /// The command line as given.
    pub command: Vec<String>,
    /// The URL announced to an HTTP server.
    pub public_url: String,
    /// The framework named on the command line, if any.
    pub framework: Option<String>,
    /// The text of `package.json` in the working directory, if it was read.
    pub package_json: Option<String>,
    pub phase: Phase,
}

/// The command line and environment that start the child on `port`: for an
/// HTTP service, the prepared command (and none without a port); for a
/// worker, the command as given, with no extra environment.
pub open spec fn launch_spec(r: Runner, port: Option<u16>) -> Option<
    (Seq<Seq<char>>, Seq<(Seq<char>, Seq<char>)>),
> {
    let argv = words(r.command@);
    let framework = opt_text(r.framework);
    match r.kind {
        ProcessKind::Http => match port {
            Some(p) => Some(
                (
                    prepared_args(
                        argv,
                        p,
                        Some(host_for_spec(argv, framework)),
                        command_hint(argv, framework, opt_text(r.package_json)),
                    ),
                    seq![
                        ("PORT"@, decimal(p as nat)),
                        ("LAZY_URL"@, r.public_url@),
                        ("__VITE_ADDITIONAL_SERVER_ALLOWED_HOSTS"@, public_hostname_spec(r.public_url@)),
                        ("HOST"@, host_for_spec(argv, framework)),
                    ],
                ),
            ),
            None => None,
        },
        ProcessKind::Worker => Some((argv, Seq::empty())),
    }
}

/// The line printed when the child starts.
pub open spec fn starting_line(name: Seq<char>) -> Seq<char> {
    "lazy: starting "@ + name
}

/// The error reported when the child exits with `code`.
pub open spec fn exit_text(code: u32) -> Seq<char> {
    "process exited with code "@ + decimal(code as nat)
}

/// What a `Start` does: a running child is reported ready at once; while a
/// child is starting nothing is done (its outcome answers); otherwise the
/// child is launched, unless there is no command to launch.
pub open spec fn start_spec(r: Runner, port: Option<u16>) -> (Phase, Seq<ActionView>) {
    let name = r.name@;
    match r.phase {
        Phase::Running => (Phase::Running, seq![ActionView::Send(MessageView::Ready(name))]),
        Phase::Starting { port: q } => (Phase::Starting { port: q }, Seq::empty()),
        Phase::Idle => match launch_spec(r, port) {
            None => (
                Phase::Idle,
                seq![ActionView::Send(MessageView::Failed(name, "no upstream port was assigned"@))],
            ),
            Some((argv, env)) => if argv.len() == 0 {
                (
                    Phase::Idle,
                    seq![
                        ActionView::Print(starting_line(name)),
                        ActionView::Send(MessageView::Failed(name, "empty command"@)),
                    ],
                )
            } else {
                (
                    Phase::Starting {
                        port: match r.kind {
                            ProcessKind::Http => port,
                            ProcessKind::Worker => None,
                        },
                    },
                    seq![ActionView::Print(starting_line(name)), ActionView::Spawn(argv, env)],
                )
            },
        },
    }
}

/// The new phase and the actions for `event`.
pub open spec fn step_spec(r: Runner, event: RunnerEvent) -> (Phase, Seq<ActionView>) {
    let name = r.name@;
    match event {
        RunnerEvent::Message(DaemonMessage::Start { port }) => start_spec(r, port),
        RunnerEvent::Message(DaemonMessage::Stop) => (
            Phase::Idle,
            seq![
                ActionView::Print("lazy: stopping "@ + name),
                ActionView::Kill,
                ActionView::Send(MessageView::Stopped(name)),
                ActionView::Print("lazy: waiting for activation"@),
            ],
        ),
        RunnerEvent::Message(DaemonMessage::Registered { .. }) => (r.phase, Seq::empty()),
        RunnerEvent::Message(DaemonMessage::Error { message }) => (
            r.phase,
            seq![ActionView::PrintError("lazy: daemon error: "@ + message@)],
        ),
        RunnerEvent::Spawned => match r.phase {
            Phase::Starting { port: Some(p) } => (r.phase, seq![ActionView::WaitForPort(p)]),
            Phase::Starting { port: None } => (
                r.phase,
                seq![ActionView::WaitToSettle(WORKER_SETTLE_MS)],
            ),
            _ => (r.phase, Seq::empty()),
        },
        RunnerEvent::SpawnFailed { error } => match r.phase {
            Phase::Starting { .. } => (
                Phase::Idle,
                seq![ActionView::Send(MessageView::Failed(name, error@))],
            ),
            _ => (r.phase, Seq::empty()),
        },
        RunnerEvent::PortReady | RunnerEvent::Settled => match r.phase {
            Phase::Starting { .. } => (Phase::Running, seq![ActionView::Send(MessageView::Ready(name))]),
            _ => (r.phase, Seq::empty()),
        },
        RunnerEvent::PortTimedOut { error } => match r.phase {
            Phase::Starting { .. } => (
                Phase::Idle,
                seq![ActionView::Kill, ActionView::Send(MessageView::Failed(name, error@))],
            ),
            _ => (r.phase, Seq::empty()),
        },
        RunnerEvent::Exited { code } => match r.phase {
            Phase::Idle => (Phase::Idle, Seq::empty()),
            _ => (Phase::Idle, seq![ActionView::Send(MessageView::Failed(name, exit_text(code)))]),
        },
        RunnerEvent::Disconnected => (Phase::Idle, seq![ActionView::Kill, ActionView::Exit]),
    }
}

/// A copy of a list of strings.
fn copy_words(v: &Vec<String>) -> (r: Vec<String>)
    ensures
        words(r@) == words(v@),
{
    let mut r: Vec<String> = Vec::new();
    let mut i: usize = 0;
    while i < v.len()
        invariant
            i <= v.len(),
            r@.len() == i,
            forall|j: int| 0 <= j < i ==> (#[trigger] r@[j])@ == v@[j]@,
        decreases v.len() - i,
    {
        let w = owned(v[i].as_str());
        r.push(w);
        i = i + 1;
    }
    assert(words(r@) =~= words(v@));
    r
}

/// The report that the runner's service is ready.
fn ready(name: &str) -> (r: RunnerAction)
    ensures
        action_view(r) == ActionView::Send(MessageView::Ready(name@)),
{
    RunnerAction::Send(RunnerMessage::Ready { name: owned(name) })
}

/// The report that the runner's service failed with `error`.
fn failed(name: &str, error: String) -> (r: RunnerAction)
    ensures
        action_view(r) == ActionView::Send(MessageView::Failed(name@, error@)),
{
    RunnerAction::Send(RunnerMessage::Failed { name: owned(name), error })
}

impl Runner {
    /// A runner whose child has not started.
    pub fn new(
        name: String,
        kind: ProcessKind,
        command: Vec<String>,
        public_url: String,
        framework: Option<String>,
        package_json: Option<String>,
    ) -> (r: Self)
        ensures
            r.name == name,
            r.kind == kind,
            r.command == command,
            r.public_url == public_url,
            r.framework == framework,
            r.package_json == package_json,
            r.phase == Phase::Idle,
    {
        Runner { name, kind, command, public_url, framework, package_json, phase: Phase::Idle }
    }

    /// The command that starts the child on `port`, if it can start.
    fn launch(&self, port: Option<u16>) -> (r: Option<PreparedCommand>)
        ensures
            match (r, launch_spec(*self, port)) {
                (Some(c), Some((argv, env))) => words(c.argv@) == argv && pairs(c.env@) == env,
                (None, None) => true,
                _ => false,
            },
    {
        match self.kind {
            ProcessKind::Http => match port {
                Some(p) => {
                    let framework = match &self.framework {
                        Some(f) => Some(f.as_str()),
                        None => None,
                    };
                    let package_json = match &self.package_json {
                        Some(t) => Some(t.as_str()),
                        None => None,
                    };
                    assert(opt_view(framework) == opt_text(self.framework));
                    assert(opt_view(package_json) == opt_text(self.package_json));
                    let argv = copy_words(&self.command);
                    Some(prepare_http_command(argv, p, self.public_url.as_str(), framework, package_json))
                },
                None => None,
            },
            ProcessKind::Worker => {
                let argv = copy_words(&self.command);
                let env: Vec<(String, String)> = Vec::new();
                assert(pairs(env@) =~= Seq::empty());
                Some(PreparedCommand { argv, env })
            },
        }
    }

    fn start(&mut self, port: Option<u16>) -> (r: Vec<RunnerAction>)
        ensures
            final(self).phase == start_spec(*old(self), port).0,
            actions_view(r@) == start_spec(*old(self), port).1,
            final(self).name == old(self).name,
            final(self).kind == old(self).kind,
            final(self).command == old(self).command,
            final(self).public_url == old(self).public_url,
            final(self).framework == old(self).framework,
            final(self).package_json == old(self).package_json,
    {
        let mut out: Vec<RunnerAction> = Vec::new();
        match self.phase {
            Phase::Running => {
                out.push(ready(self.name.as_str()));
            },
            Phase::Starting { .. } => {},
            Phase::Idle => {
                match self.launch(port) {
                    None => {
                        out.push(failed(self.name.as_str(), owned("no upstream port was assigned")));
                    },
                    Some(c) => {
                        let line = concat("lazy: starting ", self.name.as_str());
                        out.push(RunnerAction::Print(line));
                        if c.argv.len() == 0 {
                            out.push(failed(self.name.as_str(), owned("empty command")));
                        } else {
                            self.phase = Phase::Starting {
                                port: match self.kind {
                                    ProcessKind::Http => port,
                                    ProcessKind::Worker => None,
                                },
                            };
                            out.push(RunnerAction::Spawn(c));
                        }
                    },
                }
            },
        }
        assert(actions_view(out@) =~= start_spec(*old(self), port).1);
        out
    }

    /// Handles one event: sets the new phase and returns the actions to
    /// perform, in order. The service, command and settings do not change.
    pub fn step(&mut self, event: RunnerEvent) -> (r: Vec<RunnerAction>)
        ensures
            final(self).phase == step_spec(*old(self), event).0,
            actions_view(r@) == step_spec(*old(self), event).1,
            final(self).name == old(self).name,
            final(self).kind == old(self).kind,
            final(self).command == old(self).command,
            final(self).public_url == old(self).public_url,
            final(self).framework == old(self).framework,
            final(self).package_json == old(self).package_json,
    {
        let mut out: Vec<RunnerAction> = Vec::new();
        match event {
            RunnerEvent::Message(DaemonMessage::Start { port }) => {
                return self.start(port);
            },
            RunnerEvent::Message(DaemonMessage::Stop) => {
                out.push(RunnerAction::Print(concat("lazy: stopping ", self.name.as_str())));
                out.push(RunnerAction::Kill);
                out.push(RunnerAction::Send(RunnerMessage::Stopped { name: owned(self.name.as_str()) }));
                out.push(RunnerAction::Print(owned("lazy: waiting for activation")));
                self.phase = Phase::Idle;
            },
            RunnerEvent::Message(DaemonMessage::Registered { .. }) => {},
            RunnerEvent::Message(DaemonMessage::Error { message }) => {
                out.push(RunnerAction::PrintError(concat("lazy: daemon error: ", message.as_str())));
            },
            RunnerEvent::Spawned => {
                match self.phase {
                    Phase::Starting { port: Some(p) } => {
                        out.push(RunnerAction::WaitForPort { port: p });
                    },
                    Phase::Starting { port: None } => {
                        out.push(RunnerAction::WaitToSettle { ms: WORKER_SETTLE_MS });
                    },
                    _ => {},
                }
            },
            RunnerEvent::SpawnFailed { error } => {
                if let Phase::Starting { .. } = self.phase {
                    out.push(failed(self.name.as_str(), error));
                    self.phase = Phase::Idle;
                }
            },
            RunnerEvent::PortReady | RunnerEvent::Settled => {
                if let Phase::Starting { .. } = self.phase {
                    out.push(ready(self.name.as_str()));
                    self.phase = Phase::Running;
                }
            },
            RunnerEvent::PortTimedOut { error } => {
                if let Phase::Starting { .. } = self.phase {
                    out.push(RunnerAction::Kill);
                    out.push(failed(self.name.as_str(), error));
                    self.phase = Phase::Idle;
                }
            },
            RunnerEvent::Exited { code } => {
                match self.phase {
                    Phase::Idle => {},
                    _ => {
                        let e = with_number("process exited with code ", code as u64);
                        out.push(failed(self.name.as_str(), e));
                        self.phase = Phase::Idle;
                    },
                }
            },
            RunnerEvent::Disconnected => {
                out.push(RunnerAction::Kill);
                out.push(RunnerAction::Exit);
                self.phase = Phase::Idle;
            },
        }
        assert(actions_view(out@) =~= step_spec(*old(self), event).1);
        out
    }
}

/// Once the child has exited or was stopped, the next `Start` launches it
/// again: the runner is starting and spawns the command.
pub proof fn lemma_start_after_exit_or_stop_relaunches(r: Runner, event: RunnerEvent, port: Option<u16>)
    requires
        event matches RunnerEvent::Exited { .. } || event matches RunnerEvent::Message(DaemonMessage::Stop),
        launch_spec(r, port) matches Some((argv, _)) && argv.len() > 0,
    ensures
        ({
            let after = Runner { phase: step_spec(r, event).0, ..r };
            let (phase, actions) = step_spec(after, RunnerEvent::Message(DaemonMessage::Start { port }));
            &&& phase is Starting
            &&& actions.len() == 2
            &&& launch_spec(r, port) matches Some((argv, env)) && actions[1] == ActionView::Spawn(
                argv,
                env,
            )
        }),
{
    let after = Runner { phase: step_spec(r, event).0, ..r };
    assert(launch_spec(after, port) == launch_spec(r, port));
}

/// A child that exits before it is ready is reported as failed with its
/// exit, and no `Ready` is sent for it: spawning a child reports nothing to
/// the daemon, and an exit while starting answers with the exit.
pub proof fn lemma_exit_before_ready_is_reported_as_failure(r: Runner, code: u32)
    requires
        r.phase is Starting,
    ensures
        ({
            let (phase, actions) = step_spec(r, RunnerEvent::Spawned);
            &&& phase == r.phase
            &&& forall|i: int| 0 <= i < actions.len() ==> !(#[trigger] actions[i] is Send)
        }),
        step_spec(Runner { phase: step_spec(r, RunnerEvent::Spawned).0, ..r }, RunnerEvent::Exited { code })
            == (Phase::Idle, seq![ActionView::Send(MessageView::Failed(r.name@, exit_text(code)))]),
{
}

} // verus!
