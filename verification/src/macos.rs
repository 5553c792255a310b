//! Recording on macOS, through the kernel trace facility.
//!
//! macOS has no unprivileged way to follow a process tree. Configuring kernel
//! tracing needs root, but the kernel keeps granting access to the process that
//! owns the session, so recording is privileged only while it starts:
//!
//! 1. set up and enable the trace session (root, a handful of `sysctl` calls),
//! 2. drop privileges permanently to the person who ran the recording,
//! 3. start the build, read events, and write the trace as that person.
//!
//! So the build never runs as root, the trace file belongs to its owner, and
//! nothing privileged is left running.

use self::kdebug::Session;
use self::tracker::Clock;
#[allow(unused_imports)]
use self::kdebug::threads_in;
#[allow(unused_imports)]
use crate::json::text_referred;
use crate::text::{characters, copy_range, from_utf8, parse_u32, push_unsigned};
#[allow(unused_imports)]
use crate::text::{decimal, text_of, unsigned_value};
use vstd::prelude::*;
use vstd::string::*;
#[allow(unused_imports)]
use vstd::utf8::*;

pub mod eslogger;
pub mod event;
pub mod helper;
pub mod kdebug;
pub mod laws;
pub mod recon;
pub mod tracker;

verus! {

/// Kernel buffer, in events. A parallel build produces a few million events a
/// second, and the recorder reads every millisecond or so; this is room for
/// roughly a hundred times that, so a stall does not lose events.
pub const BUFFER_EVENTS: usize = 524288;

/// How long to wait for the kernel to fill a batch. Short enough that a
/// process's command line is still readable when its exec is seen, long enough
/// that reading does not cost a core of its own.
pub const READ_INTERVAL_MS: u64 = 2;

/// How often to look for the end of a build whose last exits were not seen.
pub const LIVENESS_INTERVAL_NS: u64 = 250_000_000;

/// How long to keep reading after the build, to collect trailing events.
pub const DRAIN_NS: u64 = 50_000_000;

const SIGNAL_EXIT_STATUS_OFFSET: i32 = 128;

/// A trace session, owned and enabled, with privileges already dropped.
pub struct Prepared {
    pub session: Session,
    pub clock: Clock,
    pub threads: Vec<(u64, i32)>,
}

/// Gathers what recording starts from: an enabled session, the clock as of
/// now, and the threads in the `length` bytes that the kernel wrote to `map`.
pub fn prepare(session: Session, clock: Clock, map: &[u8], length: usize) -> (prepared: Prepared)
    ensures
        prepared.session == session,
        prepared.clock == clock,
        prepared.threads@ == threads_in(map@, length as nat),
{
    let threads = session.thread_map(map, length);
    Prepared { session, clock, threads }
}

/// Why recording cannot start for this person.
#[derive(Clone, Copy, Debug, PartialEq, Eq, Structural)]
pub enum TargetError {
    NeedsRoot,
    RefusesRoot,
}

impl TargetError {
    pub open spec fn text(&self) -> Seq<char> {
        match self {
            TargetError::NeedsRoot => "recording on macOS needs root to start kernel tracing; run it with sudo"@,
            TargetError::RefusesRoot => "refusing to run the build as root; start the recording as yourself with sudo, not from a root shell"@,
        }
    }

    pub fn message(&self) -> (message: &'static str)
        ensures
            message@ == self.text(),
    {
        match self {
            TargetError::NeedsRoot => "recording on macOS needs root to start kernel tracing; run it with sudo",
            TargetError::RefusesRoot => "refusing to run the build as root; start the recording as yourself with sudo, not from a root shell",
        }
    }
}

/// The number in an environment variable that may be missing.
pub open spec fn number_in(value: Option<Seq<char>>) -> Option<u32> {
    match value {
        Some(value) => match unsigned_value(value) {
            Some(number) => if number <= u32::MAX {
                Some(number as u32)
            } else {
                None
            },
            None => None,
        },
        None => None,
    }
}

fn number(value: Option<&str>) -> (number: Option<u32>)
    ensures
        number == number_in(text_referred(value)),
{
    match value {
        Some(value) => parse_u32(characters(value).as_slice()),
        None => None,
    }
}

/// Who the build runs as: whoever started the recording, or whom sudo names.
pub open spec fn target(
    uid: u32,
    euid: u32,
    gid: u32,
    sudo_uid: Option<Seq<char>>,
    sudo_gid: Option<Seq<char>>,
) -> Result<(u32, u32), TargetError> {
    if euid != 0 {
        Err(TargetError::NeedsRoot)
    } else if uid != 0 {
        Ok((uid, gid))
    } else {
        match (number_in(sudo_uid), number_in(sudo_gid)) {
            (Some(uid), Some(gid)) => if uid != 0 {
                Ok((uid, gid))
            } else {
                Err(TargetError::RefusesRoot)
            },
            _ => Err(TargetError::RefusesRoot),
        }
    }
}

/// Who to become: whoever invoked the recording, never root. `sudo_uid` and
/// `sudo_gid` are what sudo says of that person.
pub fn target_user(
    uid: u32,
    euid: u32,
    gid: u32,
    sudo_uid: Option<&str>,
    sudo_gid: Option<&str>,
) -> (target: Result<(u32, u32), TargetError>)
    ensures
        target == self::target(uid, euid, gid, text_referred(sudo_uid), text_referred(sudo_gid)),
        target is Ok ==> target->Ok_0.0 != 0,
{
    if euid != 0 {
        return Err(TargetError::NeedsRoot);
    }
    // Started from a setuid copy: become the real user. Not advertised, but it
    // needs no special handling beyond dropping to whoever ran it.
    if uid != 0 {
        return Ok((uid, gid));
    }
    match (number(sudo_uid), number(sudo_gid)) {
        (Some(uid), Some(gid)) => if uid != 0 {
            Ok((uid, gid))
        } else {
            Err(TargetError::RefusesRoot)
        },
        _ => Err(TargetError::RefusesRoot),
    }
}

/// A variable, if it has a value.
pub open spec fn variable(key: Seq<char>, value: Option<Seq<char>>) -> Seq<(Seq<char>, Seq<char>)> {
    match value {
        Some(value) => seq![(key, value)],
        None => seq![],
    }
}

/// What some variables are set to.
pub open spec fn settings(variables: Seq<(&'static str, String)>) -> Seq<(Seq<char>, Seq<char>)> {
    variables.map_values(|variable: (&'static str, String)| (variable.0@, variable.1@))
}

fn set_variable(
    variables: &mut Vec<(&'static str, String)>,
    key: &'static str,
    value: &Option<String>,
)
    ensures
        settings(final(variables)@) == settings(old(variables)@) + variable(
            key@,
            text_of(*value),
        ),
{
    let ghost before = settings(variables@);
    if let Some(value) = value {
        variables.push((key, value.clone()));
    }
    assert(settings(variables@) =~= before + variable(key@, text_of(*value)));
}

/// The variables that say who runs a build.
pub open spec fn environment(
    name: Option<Seq<char>>,
    home: Option<Seq<char>>,
    shell: Option<Seq<char>>,
    sudo_home: Option<Seq<char>>,
) -> Seq<(Seq<char>, Seq<char>)> {
    variable("USER"@, name) + variable("LOGNAME"@, name) + variable(
        "HOME"@,
        if sudo_home is Some {
            sudo_home
        } else {
            home
        },
    ) + variable("SHELL"@, shell)
}

/// Puts back what sudo replaced, so the build sees its own environment: what
/// the user database says of the person, and the home that sudo kept.
pub fn user_environment(
    name: Option<String>,
    home: Option<String>,
    shell: Option<String>,
    sudo_home: Option<String>,
) -> (variables: Vec<(&'static str, String)>)
    ensures
        settings(variables@) == environment(
            text_of(name),
            text_of(home),
            text_of(shell),
            text_of(sudo_home),
        ),
{
    let mut variables: Vec<(&'static str, String)> = Vec::new();
    assert(settings(variables@) =~= Seq::<(Seq<char>, Seq<char>)>::empty());
    set_variable(&mut variables, "USER", &name);
    set_variable(&mut variables, "LOGNAME", &name);
    let home = if sudo_home.is_some() {
        sudo_home
    } else {
        home
    };
    set_variable(&mut variables, "HOME", &home);
    set_variable(&mut variables, "SHELL", &shell);
    assert(settings(variables@) =~= variable("USER"@, text_of(name)) + variable(
        "LOGNAME"@,
        text_of(name),
    ) + variable("HOME"@, text_of(home)) + variable("SHELL"@, text_of(shell)));
    variables
}

/// The text of a buffer of which `length` bytes, a zero byte at the end among
/// them, were written.
pub open spec fn temporary_text(buffer: Seq<u8>, length: int) -> Option<Seq<char>> {
    if length > 1 && valid_utf8(buffer.take(length - 1)) {
        Some(decode_utf8(buffer.take(length - 1)))
    } else {
        None
    }
}

/// The per-user temporary directory in what the system wrote to `buffer`:
/// `length` counts the zero byte at its end and is at most one without a
/// directory.
pub fn temporary_directory(buffer: &[u8], length: usize) -> (directory: Option<String>)
    requires
        length <= buffer@.len() + 1,
    ensures
        text_of(directory) == temporary_text(buffer@, length as int),
{
    if length <= 1 {
        return None;
    }
    assert(buffer@.subrange(0, length - 1) =~= buffer@.take(length - 1));
    from_utf8(copy_range(buffer, 0, length - 1))
}

/// What the exit status of a command amounts to: its code, or the signal that
/// ended it.
pub open spec fn status_code(code: Option<i32>, signal: Option<i32>) -> u8 {
    match (code, signal) {
        (Some(code), _) => if code < 0 {
            0
        } else if code > 255 {
            255
        } else {
            code as u8
        },
        (None, Some(signal)) => if 128 + signal > 255 {
            255
        } else {
            (128 + signal) as u8
        },
        _ => 1,
    }
}

pub fn exit_status_code(code: Option<i32>, signal: Option<i32>) -> (status: u8)
    requires
        signal is Some ==> signal->0 <= i32::MAX - 128,
    ensures
        status == status_code(code, signal),
{
    match (code, signal) {
        (Some(code), _) => if code < 0 {
            0
        } else if code > 255 {
            255
        } else {
            code as u8
        },
        (None, Some(signal)) => {
            let sum: i32 = SIGNAL_EXIT_STATUS_OFFSET + signal;
            if sum > 255 {
                255
            } else {
                #[verifier::truncate]
                (sum as u8)
            }
        },
        _ => 1,
    }
}

/// How far a recording has come. Like the Linux tracer, it waits for
/// everything the build started, not only the command itself. Times are in
/// nanoseconds since the recording began.
#[derive(Clone, Copy, Debug)]
pub struct Progress {
    pub root_exited: bool,
    pub last_check_ns: u64,
    /// When the build was found to be over.
    pub ended_ns: Option<u64>,
}

/// What a recording does after it has read what there was.
#[derive(Clone, Copy, Debug, PartialEq, Eq, Structural)]
pub enum Turn {
    Read,
    /// Find out whether the build is over, then read on.
    Check,
    Stop,
}

/// How far a recording has come after a check.
pub open spec fn settled_by(
    progress: Progress,
    root_exited: bool,
    anything_alive: bool,
    now_ns: u64,
) -> Progress {
    Progress {
        root_exited: progress.root_exited || root_exited,
        ended_ns: if (progress.root_exited || root_exited) && !anything_alive {
            Some(now_ns)
        } else {
            progress.ended_ns
        },
        ..progress
    }
}

impl Progress {
    pub open spec fn turn(self, now_ns: u64) -> Turn {
        match self.ended_ns {
            Some(ended_ns) => if now_ns - ended_ns > DRAIN_NS {
                Turn::Stop
            } else {
                Turn::Read
            },
            None => if now_ns - self.last_check_ns >= LIVENESS_INTERVAL_NS {
                Turn::Check
            } else {
                Turn::Read
            },
        }
    }

    pub fn new() -> (progress: Self)
        ensures
            progress == (Progress { root_exited: false, last_check_ns: 0, ended_ns: None }),
    {
        Progress { root_exited: false, last_check_ns: 0, ended_ns: None }
    }

    pub fn next(&mut self, now_ns: u64) -> (turn: Turn)
        ensures
            turn == old(self).turn(now_ns),
            *final(self) == (Progress {
                last_check_ns: if turn == Turn::Check {
                    now_ns
                } else {
                    old(self).last_check_ns
                },
                ..*old(self)
            }),
            turn == Turn::Check ==> final(self).last_check_ns == now_ns,
            turn != Turn::Check ==> *final(self) == *old(self),
    {
        match self.ended_ns {
            Some(ended_ns) => if now_ns > ended_ns && now_ns - ended_ns > DRAIN_NS {
                Turn::Stop
            } else {
                Turn::Read
            },
            None => if now_ns >= self.last_check_ns && now_ns - self.last_check_ns
                >= LIVENESS_INTERVAL_NS {
                self.last_check_ns = now_ns;
                Turn::Check
            } else {
                Turn::Read
            },
        }
    }

    /// Takes note of a check: whether the command has ended, and whether
    /// anything the build started still exists. Events trail the processes,
    /// so the latter decides.
    pub fn checked(&mut self, root_exited: bool, anything_alive: bool, now_ns: u64)
        ensures
            *final(self) == settled_by(*old(self), root_exited, anything_alive, now_ns),
    {
        self.root_exited = self.root_exited || root_exited;
        if self.root_exited && !anything_alive {
            self.ended_ns = Some(now_ns);
        }
    }
}

/// What is said of processes named after their program alone.
pub open spec fn unnamed_text(unnamed: u64) -> Seq<char> {
    decimal(unnamed as int)
        + " processes ended before their command line could be read; they are named after their program alone"@
}

/// What is said of events that the kernel dropped.
pub open spec fn dropped_text(dropped: u64) -> Seq<char> {
    "The kernel dropped events "@ + decimal(dropped as int)
        + " times while the build ran; the trace may be missing processes or files"@
}

pub fn unnamed_note(unnamed: u64) -> (note: Option<String>)
    ensures
        text_of(note) == (if unnamed > 0 {
            Some(unnamed_text(unnamed))
        } else {
            None
        }),
        note is None <==> unnamed == 0,
{
    if unnamed == 0 {
        return None;
    }
    let mut note = String::new();
    push_unsigned(&mut note, unnamed);
    note.append(
        " processes ended before their command line could be read; they are named after their program alone",
    );
    assert(note@ =~= unnamed_text(unnamed));
    Some(note)
}

pub fn dropped_note(dropped: u64) -> (note: Option<String>)
    ensures
        text_of(note) == (if dropped > 0 {
            Some(dropped_text(dropped))
        } else {
            None
        }),
        note is None <==> dropped == 0,
{
    if dropped == 0 {
        return None;
    }
    let mut note = "The kernel dropped events ".to_owned();
    push_unsigned(&mut note, dropped);
    note.append(" times while the build ran; the trace may be missing processes or files");
    Some(note)
}

} // verus!
