//! Where the daemon keeps its state, and the checks made before the control
//! socket is created or removed. The file-system calls themselves are made
//! by the caller, which hands over what it observed.

use vstd::prelude::*;
use crate::text::{chars_of, decimal, owned, string_of};

verus! {

/// The permissions of the state directory: the owner only.
pub const STATE_DIR_MODE: u32 = 0o700;

/// The permissions of the control socket: the owner only.
pub const CONTROL_SOCKET_MODE: u32 = 0o600;

/// The errors of the state directory and the control socket.
#[derive(Debug, Clone)]
pub enum StateError {
    AlreadyConfigured,
    NoHome,
    NotADirectory { path: String },
    WrongOwner { path: String, owner: u32, euid: u32 },
    NotASocket { path: String },
    AlreadyListening { path: String },
    Changed { path: String },
}

/// The message of each error.
pub open spec fn state_error_text(e: StateError) -> Seq<char> {
    match e {
        StateError::AlreadyConfigured => "state directory was already configured"@,
        StateError::NoHome => "could not locate home directory"@,
        StateError::NotADirectory { path } => "state directory "@ + path@ + " is not a directory"@,
        StateError::WrongOwner { path, owner, euid } => path@ + " is owned by UID "@ + decimal(
            owner as nat,
        ) + ", but lazy is running as UID "@ + decimal(euid as nat),
        StateError::NotASocket { path } => "refusing to remove non-socket control path "@ + path@,
        StateError::AlreadyListening { path } => "another lazy daemon is already listening at "@
            + path@,
        StateError::Changed { path } => "control socket "@ + path@
            + " changed while checking whether it was stale"@,
    }
}

fn push_str(v: &mut Vec<char>, s: &str)
    ensures
        final(v)@ == old(v)@ + s@,
{
    let mut c = chars_of(s);
    v.append(&mut c);
}

impl StateError {
    /// The error's message.
    pub fn message(&self) -> (r: String)
        ensures
            r@ == state_error_text(*self),
    {
        let mut v: Vec<char> = Vec::new();
        match self {
            StateError::AlreadyConfigured => push_str(&mut v, "state directory was already configured"),
            StateError::NoHome => push_str(&mut v, "could not locate home directory"),
            StateError::NotADirectory { path } => {
                push_str(&mut v, "state directory ");
                push_str(&mut v, path.as_str());
                push_str(&mut v, " is not a directory");
            },
            StateError::WrongOwner { path, owner, euid } => {
                push_str(&mut v, path.as_str());
                push_str(&mut v, " is owned by UID ");
                let mut a = crate::text::decimal_chars(*owner as u64);
                v.append(&mut a);
                push_str(&mut v, ", but lazy is running as UID ");
                let mut b = crate::text::decimal_chars(*euid as u64);
                v.append(&mut b);
            },
            StateError::NotASocket { path } => {
                push_str(&mut v, "refusing to remove non-socket control path ");
                push_str(&mut v, path.as_str());
            },
            StateError::AlreadyListening { path } => {
                push_str(&mut v, "another lazy daemon is already listening at ");
                push_str(&mut v, path.as_str());
            },
            StateError::Changed { path } => {
                push_str(&mut v, "control socket ");
                push_str(&mut v, path.as_str());
                push_str(&mut v, " changed while checking whether it was stale");
            },
        }
        assert(v@ =~= state_error_text(*self));
        string_of(&v)
    }
}

/// Records the state directory chosen on the command line; it can be chosen
/// once only.
pub fn set_state_dir(configured: &mut Option<String>, path: String) -> (r: Result<(), StateError>)
    ensures
        match *old(configured) {
            Some(_) => r matches Err(StateError::AlreadyConfigured) && *final(configured) == *old(
                configured,
            ),
            None => r is Ok && *final(configured) == Some(path),
        },
{
    if configured.is_some() {
        return Err(StateError::AlreadyConfigured);
    }
    *configured = Some(path);
    Ok(())
}

/// `dir` joined with the relative name `name`: a `/` between them unless
/// `dir` is empty or already ends with one.
pub open spec fn join_spec(dir: Seq<char>, name: Seq<char>) -> Seq<char> {
    if dir.len() == 0 || dir.last() == '/' {
        dir + name
    } else {
        dir + seq!['/'] + name
    }
}

/// `dir` joined with the relative name `name`, as `Path::join` does for a
/// name without separators.
pub fn join_path(dir: &str, name: &str) -> (r: String)
    ensures
        r@ == join_spec(dir@, name@),
{
    let mut v = chars_of(dir);
    if v.len() > 0 && v[v.len() - 1] != '/' {
        v.push('/');
    }
    push_str(&mut v, name);
    string_of(&v)
}

/// The state directory: the one chosen, else `.lazy` in the home directory.
pub open spec fn state_dir_spec(configured: Option<Seq<char>>, home: Option<Seq<char>>) -> Result<
    Seq<char>,
    StateError,
> {
    match configured {
        Some(d) => Ok(d),
        None => match home {
            Some(h) => Ok(join_spec(h, ".lazy"@)),
            None => Err(StateError::NoHome),
        },
    }
}

/// The state directory: `configured`, else `.lazy` under `home`.
pub fn state_dir(configured: Option<&str>, home: Option<&str>) -> (r: Result<String, StateError>)
    ensures
        match (r, state_dir_spec(
            match configured {
                Some(c) => Some(c@),
                None => None,
            },
            match home {
                Some(h) => Some(h@),
                None => None,
            },
        )) {
            (Ok(d), Ok(e)) => d@ == e,
            (Err(StateError::NoHome), Err(StateError::NoHome)) => true,
            _ => false,
        },
{
    match configured {
        Some(d) => Ok(owned(d)),
        None => match home {
            Some(h) => Ok(join_path(h, ".lazy")),
            None => Err(StateError::NoHome),
        },
    }
}

/// The control socket in state directory `state_dir`.
pub fn socket_path(state_dir: &str) -> (r: String)
    ensures
        r@ == join_spec(state_dir@, "lazy.sock"@),
{
    join_path(state_dir, "lazy.sock")
}

/// Whether a path belongs to the user that lazy runs as.
pub fn ensure_current_user_owns(path: &str, owner: u32, euid: u32) -> (r: Result<(), StateError>)
    ensures
        owner == euid ==> r is Ok,
        owner != euid ==> (r matches Err(StateError::WrongOwner { path: p, owner: o, euid: e })
            && p@ == path@ && o == owner && e == euid),
{
    if owner != euid {
        return Err(StateError::WrongOwner { path: owned(path), owner, euid });
    }
    Ok(())
}

/// The check of the state directory after it was created: a directory,
/// owned by the user that lazy runs as.
pub fn check_state_dir(path: &str, is_dir: bool, owner: u32, euid: u32) -> (r: Result<(), StateError>)
    ensures
        !is_dir ==> (r matches Err(StateError::NotADirectory { path: p }) && p@ == path@),
        is_dir && owner == euid ==> r is Ok,
        is_dir && owner != euid ==> (r matches Err(
            StateError::WrongOwner { path: p, owner: o, euid: e },
        ) && p@ == path@ && o == owner && e == euid),
{
    if !is_dir {
        return Err(StateError::NotADirectory { path: owned(path) });
    }
    ensure_current_user_owns(path, owner, euid)
}

/// What was found at the control-socket path.
#[derive(Debug, Clone, Copy, PartialEq, Eq, Structural)]
pub enum SocketProbe {
    Missing,
    Present { is_socket: bool, owner: u32, device: u64, inode: u64 },
}

/// The next step in removing a stale control socket.
#[derive(Debug, Clone)]
pub enum StaleStep {
    /// Nothing left to do.
    Done,
    /// Try to connect to the socket, to see whether a daemon listens.
    Connect,
    /// Look at the path again, just before removing it.
    Recheck,
    /// Remove the path.
    Remove,
    /// Stop with this error.
    Refuse(StateError),
}

/// The first check: a missing path needs nothing; anything but a socket of
/// the user that lazy runs as is refused; a socket is then probed.
pub fn stale_socket_first(path: &str, probe: SocketProbe, euid: u32) -> (r: StaleStep)
    ensures
        match probe {
            SocketProbe::Missing => r is Done,
            SocketProbe::Present { is_socket, owner, .. } => if !is_socket {
                r matches StaleStep::Refuse(StateError::NotASocket { path: p }) && p@ == path@
            } else if owner != euid {
                r matches StaleStep::Refuse(StateError::WrongOwner { path: p, owner: o, euid: e })
                    && p@ == path@ && o == owner && e == euid
            } else {
                r is Connect
            },
        },
{
    match probe {
        SocketProbe::Missing => StaleStep::Done,
        SocketProbe::Present { is_socket, owner, .. } => {
            if !is_socket {
                return StaleStep::Refuse(StateError::NotASocket { path: owned(path) });
            }
            match ensure_current_user_owns(path, owner, euid) {
                Ok(()) => StaleStep::Connect,
                Err(e) => StaleStep::Refuse(e),
            }
        },
    }
}

/// After the connection attempt: a daemon that accepts means the socket is
/// live and stays; a refused connection (or a path gone meanwhile) means it
/// is stale.
pub fn stale_socket_after_connect(path: &str, accepted: bool) -> (r: StaleStep)
    ensures
        accepted ==> (r matches StaleStep::Refuse(StateError::AlreadyListening { path: p })
            && p@ == path@),
        !accepted ==> r is Recheck,
{
    if accepted {
        StaleStep::Refuse(StateError::AlreadyListening { path: owned(path) })
    } else {
        StaleStep::Recheck
    }
}

/// Before removing: the path must still be the socket first seen (same
/// device and inode); if it is gone, nothing is left to do.
pub fn stale_socket_before_remove(path: &str, first: SocketProbe, now: SocketProbe) -> (r: StaleStep)
    ensures
        match (first, now) {
            (_, SocketProbe::Missing) => r is Done,
            (
                SocketProbe::Present { device: d0, inode: i0, .. },
                SocketProbe::Present { device: d1, inode: i1, .. },
            ) => if d0 == d1 && i0 == i1 {
                r is Remove
            } else {
                r matches StaleStep::Refuse(StateError::Changed { path: p }) && p@ == path@
            },
            (SocketProbe::Missing, SocketProbe::Present { .. }) => r matches StaleStep::Refuse(
                StateError::Changed { path: p },
            ) && p@ == path@,
        },
{
    match (first, now) {
        (_, SocketProbe::Missing) => StaleStep::Done,
        (
            SocketProbe::Present { device: d0, inode: i0, .. },
            SocketProbe::Present { device: d1, inode: i1, .. },
        ) => {
            if d0 == d1 && i0 == i1 {
                StaleStep::Remove
            } else {
                StaleStep::Refuse(StateError::Changed { path: owned(path) })
            }
        },
        (SocketProbe::Missing, SocketProbe::Present { .. }) => StaleStep::Refuse(
            StateError::Changed { path: owned(path) },
        ),
    }
}

/// The control socket that this daemon created: it removes the socket on
/// exit only if the path still holds that socket.
pub struct ControlSocketGuard {
    pub path: String,
    pub device: u64,
    pub inode: u64,
}

impl ControlSocketGuard {
    /// The guard of the socket at `path`, with the device and inode seen
    /// right after it was bound.
    pub fn new(path: String, device: u64, inode: u64) -> (r: Self)
        ensures
            r.path == path,
            r.device == device,
            r.inode == inode,
    {
        ControlSocketGuard { path, device, inode }
    }

    /// Whether the path, as now found, is still this daemon's socket and may
    /// be removed: a socket of the user that lazy runs as, with the same
    /// device and inode.
    pub fn owns(&self, now: SocketProbe, euid: u32) -> (r: bool)
        ensures
            r == match now {
                SocketProbe::Present { is_socket, owner, device, inode } => is_socket && owner
                    == euid && device == self.device && inode == self.inode,
                SocketProbe::Missing => false,
            },
    {
        match now {
            SocketProbe::Present { is_socket, owner, device, inode } => is_socket && owner == euid
                && device == self.device && inode == self.inode,
            SocketProbe::Missing => false,
        }
    }
}

} // verus!
