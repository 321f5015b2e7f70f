//! Choosing the listening socket that systemd hands over by name.
//!
//! systemd passes descriptors from 3 upwards and names them, colon-separated,
//! in `LISTEN_FDNAMES`; `LISTEN_PID` names the process they are meant for.

use vstd::prelude::*;
use crate::text::{chars_of, debug_quoted, debug_str, decimal, split_char, split_chars};

verus! {

/// Why no activated descriptor can be chosen.
#[derive(Debug, Clone)]
pub enum ActivationError {
    /// `LISTEN_PID` names another process.
    WrongProcess { pid: u64, expected: u32 },
    /// `LISTEN_FDNAMES` has a different number of names than `LISTEN_FDS`.
    NameCount { names: usize, count: usize },
    /// Not exactly one descriptor has the name.
    NotExactlyOne { name: String, found: usize },
    /// The descriptor number does not fit in a C `int`.
    TooLarge,
}

/// The number of entries of `names` equal to `name`.
pub open spec fn count_named(names: Seq<Seq<char>>, name: Seq<char>) -> nat
    decreases names.len(),
{
    if names.len() == 0 {
        0
    } else {
        count_named(names.drop_last(), name) + if names.last() == name {
            1nat
        } else {
            0nat
        }
    }
}

/// The outcome of choosing descriptor `name`: the descriptor number (3 plus
/// the index of the one entry of `names` equal to `name`) or the error.
pub open spec fn select_fd_spec(
    name: Seq<char>,
    expected_pid: u32,
    pid: u64,
    count: usize,
    names: Seq<char>,
) -> Result<int, ActivationError> {
    let parts = split_char(names, ':');
    if pid != expected_pid {
        Err(ActivationError::WrongProcess { pid, expected: expected_pid })
    } else if parts.len() != count {
        Err(ActivationError::NameCount { names: parts.len() as usize, count })
    } else if count_named(parts, name) != 1 {
        Err(ActivationError::NotExactlyOne { name: arbitrary(), found: count_named(parts, name) as usize })
    } else {
        let k = choose|k: int| 0 <= k < parts.len() && parts[k] == name;
        if 3 + k <= i32::MAX {
            Ok(3 + k)
        } else {
            Err(ActivationError::TooLarge)
        }
    }
}

proof fn lemma_count_named_step(names: Seq<Seq<char>>, name: Seq<char>, k: int)
    requires
        0 <= k < names.len(),
    ensures
        count_named(names.take(k + 1), name) == count_named(names.take(k), name) + if names[k]
            == name {
            1nat
        } else {
            0nat
        },
{
    assert(names.take(k + 1).drop_last() =~= names.take(k));
}

proof fn lemma_count_named_zero(names: Seq<Seq<char>>, name: Seq<char>)
    requires
        forall|k: int| 0 <= k < names.len() ==> names[k] != name,
    ensures
        count_named(names, name) == 0,
    decreases names.len(),
{
    if names.len() > 0 {
        lemma_count_named_zero(names.drop_last(), name);
    }
}

proof fn lemma_count_named_one(names: Seq<Seq<char>>, name: Seq<char>, j: int)
    requires
        0 <= j < names.len(),
        names[j] == name,
        count_named(names, name) == 1,
    ensures
        forall|k: int| 0 <= k < names.len() && names[k] == name ==> k == j,
    decreases names.len(),
{
    let l = names.len() - 1;
    assert forall|k: int| 0 <= k < l implies names.drop_last()[k] == names[k] by {}
    if j == l {
        if exists|k: int| 0 <= k < l && names[k] == name {
            let k = choose|k: int| 0 <= k < l && names[k] == name;
            lemma_count_named_positive(names.drop_last(), name, k);
        }
    } else {
        if names.last() == name {
            lemma_count_named_positive(names.drop_last(), name, j);
        } else {
            lemma_count_named_one(names.drop_last(), name, j);
        }
    }
}

proof fn lemma_count_named_positive(names: Seq<Seq<char>>, name: Seq<char>, j: int)
    requires
        0 <= j < names.len(),
        names[j] == name,
    ensures
        count_named(names, name) >= 1,
    decreases names.len(),
{
    if j < names.len() - 1 {
        lemma_count_named_positive(names.drop_last(), name, j);
    }
}

/// Chooses the activated descriptor named `name`: `LISTEN_PID` (`pid`) must
/// be this process (`expected_pid`), `LISTEN_FDNAMES` (`names`) must name
/// `count` descriptors, and exactly one of them must be `name`.
pub fn select_systemd_fd(
    name: &str,
    expected_pid: u32,
    pid: u64,
    count: usize,
    names: &str,
) -> (r: Result<i32, ActivationError>)
    ensures
        match (r, select_fd_spec(name@, expected_pid, pid, count, names@)) {
            (Ok(fd), Ok(n)) => fd == n,
            (Err(ActivationError::NotExactlyOne { name: e, found }), Err(
                ActivationError::NotExactlyOne { found: f, .. },
            )) => e@ == name@ && found == f,
            (Err(e), Err(f)) => e == f,
            _ => false,
        },
{
    if pid != expected_pid as u64 {
        return Err(ActivationError::WrongProcess { pid, expected: expected_pid });
    }
    let c = chars_of(names);
    let parts = split_chars(&c, ':');
    if parts.len() != count {
        return Err(ActivationError::NameCount { names: parts.len(), count });
    }
    let ghost ps = split_char(names@, ':');
    let target = chars_of(name);
    let mut found: usize = 0;
    let mut first: usize = 0;
    let mut k: usize = 0;
    while k < parts.len()
        invariant
            k <= parts.len(),
            target@ == name@,
            parts@.len() == ps.len(),
            forall|j: int| 0 <= j < parts@.len() ==> (#[trigger] parts@[j])@ == ps[j],
            found == count_named(ps.take(k as int), name@),
            found <= k,
            found > 0 ==> first < k && ps[first as int] == name@,
            found == 0 ==> forall|j: int| 0 <= j < k ==> ps[j] != name@,
        decreases parts.len() - k,
    {
        proof {
            lemma_count_named_step(ps, name@, k as int);
        }
        let part: &Vec<char> = &parts[k];
        assert(part@ == ps[k as int]);
        let same = crate::text::chars_eq(part.as_slice(), target.as_slice());
        assert(same == (ps[k as int] == name@));
        if same {
            if found == 0 {
                first = k;
            }
            found = found + 1;
        }
        k = k + 1;
    }
    assert(ps.take(ps.len() as int) =~= ps);
    if found != 1 {
        let n = crate::text::string_of(&target);
        return Err(ActivationError::NotExactlyOne { name: n, found });
    }
    proof {
        lemma_count_named_one(ps, name@, first as int);
        let k0 = choose|k: int| 0 <= k < ps.len() && ps[k] == name@;
        assert(k0 == first);
    }
    if first > 2147483644 {
        return Err(ActivationError::TooLarge);
    }
    Ok((3 + first) as i32)
}

/// The message of an activation error.
pub open spec fn activation_error_text(e: ActivationError) -> Seq<char> {
    match e {
        ActivationError::WrongProcess { pid, expected } => "LISTEN_PID is "@ + decimal(pid as nat)
            + ", expected "@ + decimal(expected as nat),
        ActivationError::NameCount { names, count } => "LISTEN_FDNAMES contains "@ + decimal(
            names as nat,
        ) + " names for "@ + decimal(count as nat) + " descriptors"@,
        ActivationError::NotExactlyOne { name, found } => "expected exactly one activated socket named "@
            + debug_str(name@) + ", found "@ + decimal(found as nat),
        ActivationError::TooLarge => "activated descriptor number is too large"@,
    }
}

fn push_str(v: &mut Vec<char>, s: &str)
    ensures
        final(v)@ == old(v)@ + s@,
{
    let mut c = chars_of(s);
    v.append(&mut c);
}

fn push_number(v: &mut Vec<char>, n: u64)
    ensures
        final(v)@ == old(v)@ + decimal(n as nat),
{
    let mut c = crate::text::decimal_chars(n);
    v.append(&mut c);
}

impl ActivationError {
    /// The error's message.
    pub fn message(&self) -> (r: String)
        ensures
            r@ == activation_error_text(*self),
    {
        let mut v: Vec<char> = Vec::new();
        match self {
            ActivationError::WrongProcess { pid, expected } => {
                push_str(&mut v, "LISTEN_PID is ");
                push_number(&mut v, *pid);
                push_str(&mut v, ", expected ");
                push_number(&mut v, *expected as u64);
            },
            ActivationError::NameCount { names, count } => {
                push_str(&mut v, "LISTEN_FDNAMES contains ");
                push_number(&mut v, *names as u64);
                push_str(&mut v, " names for ");
                push_number(&mut v, *count as u64);
                push_str(&mut v, " descriptors");
            },
            ActivationError::NotExactlyOne { name, found } => {
                push_str(&mut v, "expected exactly one activated socket named ");
                let q = debug_quoted(name.as_str());
                push_str(&mut v, q.as_str());
                push_str(&mut v, ", found ");
                push_number(&mut v, *found as u64);
            },
            ActivationError::TooLarge => {
                push_str(&mut v, "activated descriptor number is too large");
            },
        }
        assert(v@ =~= activation_error_text(*self));
        crate::text::string_of(&v)
    }
}

/// The values by which the socket calls name a stream socket and the two IP
/// address families; the caller takes them from the C library.
#[derive(Debug, Clone, Copy)]
pub struct SocketConstants {
    pub stream: i32,
    pub inet: i32,
    pub inet6: i32,
}

/// Why an activated descriptor cannot serve as the proxy's listener.
#[derive(Debug, Clone, Copy, PartialEq, Eq, Structural)]
pub enum DescriptorProblem {
    NotStream,
    NotInet,
    NotListening,
}

/// The message of each descriptor problem.
pub open spec fn descriptor_problem_text(p: DescriptorProblem) -> Seq<char> {
    match p {
        DescriptorProblem::NotStream => "activated descriptor is not a TCP stream socket"@,
        DescriptorProblem::NotInet => "activated descriptor is not a TCP/IP socket"@,
        DescriptorProblem::NotListening => "activated descriptor is not a listening socket"@,
    }
}

impl DescriptorProblem {
    /// The problem's message.
    pub fn message(&self) -> (r: String)
        ensures
            r@ == descriptor_problem_text(*self),
    {
        match self {
            DescriptorProblem::NotStream => crate::text::owned("activated descriptor is not a TCP stream socket"),
            DescriptorProblem::NotInet => crate::text::owned("activated descriptor is not a TCP/IP socket"),
            DescriptorProblem::NotListening => crate::text::owned("activated descriptor is not a listening socket"),
        }
    }
}

/// Whether an activated descriptor can be adopted as the proxy's listener,
/// from its socket type, its address family and, where the system tells it,
/// whether it accepts connections (`1` when it does); the checks come in
/// this order.
pub fn check_activated_descriptor(
    socket_type: i32,
    family: i32,
    accepting: Option<i32>,
    constants: SocketConstants,
) -> (r: Result<(), DescriptorProblem>)
    ensures
        socket_type != constants.stream ==> r == Err::<(), DescriptorProblem>(DescriptorProblem::NotStream),
        socket_type == constants.stream && family != constants.inet && family != constants.inet6 ==> r
            == Err::<(), DescriptorProblem>(DescriptorProblem::NotInet),
        socket_type == constants.stream && (family == constants.inet || family == constants.inet6) ==> r
            == match accepting {
            Some(a) => if a == 1 {
                Ok::<(), DescriptorProblem>(())
            } else {
                Err(DescriptorProblem::NotListening)
            },
            None => Ok(()),
        },
{
    if socket_type != constants.stream {
        return Err(DescriptorProblem::NotStream);
    }
    if family != constants.inet && family != constants.inet6 {
        return Err(DescriptorProblem::NotInet);
    }
    match accepting {
        Some(a) => if a == 1 {
            Ok(())
        } else {
            Err(DescriptorProblem::NotListening)
        },
        None => Ok(()),
    }
}

} // verus!
