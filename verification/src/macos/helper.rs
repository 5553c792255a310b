//! The privileged half of macOS recording.
//!
//! Endpoint Security clients must run as root, so the recorder starts this
//! helper through `sudo` (or as an installed setuid copy of the binary). It
//! runs `eslogger`, which reports every process on the machine, and passes
//! on only events from processes descended from the recorder. Everything
//! else — parsing the build's events, writing the trace, running the build
//! itself — stays unprivileged.
//!
//! Protocol, one line at a time:
//! - stdout carries `eslogger` JSON lines verbatim, plus control lines
//!   `{"buildprof":"ready"}`, `{"buildprof":"synced","dropped":N}` and
//!   `{"buildprof":"error","message":…}`.
//! - stdin takes `sync`, answered once every event raised before it has been
//!   passed on. End of input stops the helper.
//!
//! Readiness and sync both use a probe: the helper forks a child that exits
//! at once, and waits to see that fork in the stream. `eslogger` subscribes
//! to all event types together and delivers them in order, so seeing the
//! probe proves the subscription is live, or that everything before it has
//! arrived.

use super::eslogger::Envelope;
use crate::json::quote;
#[allow(unused_imports)]
use crate::json::{quoted, unescaped};
use crate::text::{
    bytes_as_characters, characters, from_utf8_lossy, parse_i32, push_unsigned, same_bytes,
    same_text, trim_range,
};
#[allow(unused_imports)]
use crate::text::{byte_characters, contents, decimal, decimal_value, decoded, trimmed};
use std::collections::HashSet;
use vstd::prelude::*;
use vstd::string::*;
#[allow(unused_imports)]
use vstd::utf8::*;

pub mod laws;

verus! {

broadcast use vstd::std_specs::hash::group_hash_axioms;

/// Versioned so a stale installed setuid helper refuses a newer recorder.
pub const HELPER_ARG: &'static str = "__endpoint-security-helper-v1";

pub const ESLOGGER: &'static str = "/usr/bin/eslogger";

pub const PROBE_INTERVAL_NS: u64 = 50_000_000;

pub const READY_TIMEOUT_NS: u64 = 15_000_000_000;

/// What this process was started as.
#[derive(Clone, Copy, Debug, PartialEq, Eq, Structural)]
pub enum Role {
    Recorder,
    Helper,
    /// A setuid copy must not do anything but help.
    Refused,
}

pub fn role(first_argument: Option<&[u8]>, setuid: bool) -> (role: Role)
    ensures
        role == (if first_argument is Some && first_argument->0@ == encode_utf8(HELPER_ARG@) {
            Role::Helper
        } else if setuid {
            Role::Refused
        } else {
            Role::Recorder
        }),
        role == Role::Helper <==> first_argument is Some && first_argument->0@ == encode_utf8(
            "__endpoint-security-helper-v1"@,
        ),
        setuid ==> role != Role::Recorder,
        !setuid ==> role != Role::Refused,
{
    let requested = match first_argument {
        Some(argument) => same_bytes(argument, HELPER_ARG.as_bytes()),
        None => false,
    };
    if requested {
        Role::Helper
    } else if setuid {
        Role::Refused
    } else {
        Role::Recorder
    }
}

/// Why the helper does not start.
#[derive(Debug)]
pub enum HelperError {
    RootPidMissing,
    UnknownArgument { argument: String },
    NotRoot,
    RootPidThroughSetuid,
    NoParent,
}

#[verifier::ext_equal]
pub enum HelperErrorView {
    RootPidMissing,
    UnknownArgument { argument: Seq<char> },
    NotRoot,
    RootPidThroughSetuid,
    NoParent,
}

impl View for HelperError {
    type V = HelperErrorView;

    open spec fn view(&self) -> HelperErrorView {
        match self {
            HelperError::RootPidMissing => HelperErrorView::RootPidMissing,
            HelperError::UnknownArgument { argument } => HelperErrorView::UnknownArgument {
                argument: argument@,
            },
            HelperError::NotRoot => HelperErrorView::NotRoot,
            HelperError::RootPidThroughSetuid => HelperErrorView::RootPidThroughSetuid,
            HelperError::NoParent => HelperErrorView::NoParent,
        }
    }
}

impl HelperErrorView {
    pub open spec fn text(self) -> Seq<char> {
        match self {
            HelperErrorView::RootPidMissing => "--root-pid needs a process id"@,
            HelperErrorView::UnknownArgument { argument } => "unknown helper argument "@ + argument,
            HelperErrorView::NotRoot => "the helper is not running as root"@,
            HelperErrorView::RootPidThroughSetuid => "--root-pid is not accepted through setuid"@,
            HelperErrorView::NoParent => "the helper has no parent to record"@,
        }
    }
}

impl HelperError {
    pub fn message(&self) -> (message: String)
        ensures
            message@ == self@.text(),
    {
        match self {
            HelperError::RootPidMissing => "--root-pid needs a process id".to_owned(),
            HelperError::UnknownArgument { argument } => {
                let mut message = "unknown helper argument ".to_owned();
                message.append(argument.as_str());
                message
            },
            HelperError::NotRoot => "the helper is not running as root".to_owned(),
            HelperError::RootPidThroughSetuid => "--root-pid is not accepted through setuid".to_owned(),
            HelperError::NoParent => "the helper has no parent to record".to_owned(),
        }
    }
}

/// What the helper was asked for.
#[derive(Clone, Copy, Debug, PartialEq, Eq, Structural)]
pub struct HelperOptions {
    pub root_pid: Option<i32>,
    pub file_events: bool,
}

/// The process id in an argument: one that can be recorded.
pub open spec fn recordable(argument: Seq<u8>) -> Option<i32> {
    match decimal_value(byte_characters(argument)) {
        Some(pid) => if 1 < pid <= i32::MAX {
            Some(pid as i32)
        } else {
            None
        },
        None => None,
    }
}

/// What the arguments from `at` on ask for, beyond what is known already.
pub open spec fn options_from(args: Seq<Seq<u8>>, at: int, known: HelperOptions) -> Result<
    HelperOptions,
    HelperErrorView,
>
    decreases args.len() - at,
{
    if at >= args.len() {
        Ok(known)
    } else if args[at] == encode_utf8("--file-events"@) {
        options_from(args, at + 1, HelperOptions { file_events: true, ..known })
    } else if args[at] == encode_utf8("--root-pid"@) {
        if at + 1 < args.len() && recordable(args[at + 1]) is Some {
            options_from(
                args,
                at + 2,
                HelperOptions { root_pid: recordable(args[at + 1]), ..known },
            )
        } else {
            Err(HelperErrorView::RootPidMissing)
        }
    } else {
        Err(HelperErrorView::UnknownArgument { argument: decoded(args[at]) })
    }
}

/// What reading the helper's arguments came to.
pub open spec fn options_view(options: Result<HelperOptions, HelperError>) -> Result<
    HelperOptions,
    HelperErrorView,
> {
    match options {
        Ok(options) => Ok(options),
        Err(error) => Err(error@),
    }
}

fn recordable_pid(argument: &[u8]) -> (pid: Option<i32>)
    ensures
        pid == recordable(argument@),
{
    let text = bytes_as_characters(argument);
    assert(text@.subrange(0, text@.len() as int) =~= text@);
    match parse_i32(text.as_slice(), 0, text.len()) {
        Some(pid) => if pid > 1 {
            Some(pid)
        } else {
            None
        },
        None => None,
    }
}

/// Reads the helper's arguments.
pub fn parse_arguments(args: &[Vec<u8>]) -> (options: Result<HelperOptions, HelperError>)
    ensures
        options_view(options) == options_from(
            contents(args@),
            0,
            HelperOptions { root_pid: None, file_events: false },
        ),
{
    let ghost all = contents(args@);
    let mut options = HelperOptions { root_pid: None, file_events: false };
    let mut at: usize = 0;
    while at < args.len()
        invariant
            all == contents(args@),
            options_from(all, 0, HelperOptions { root_pid: None, file_events: false })
                == options_from(all, at as int, options),
        decreases args@.len() - at,
    {
        let argument = args[at].as_slice();
        assert(all[at as int] == argument@);
        if same_bytes(argument, "--file-events".as_bytes()) {
            options.file_events = true;
            at = at + 1;
        } else if same_bytes(argument, "--root-pid".as_bytes()) {
            if at + 1 >= args.len() {
                return Err(HelperError::RootPidMissing);
            }
            assert(all[at + 1] == args@[at + 1]@);
            match recordable_pid(args[at + 1].as_slice()) {
                Some(pid) => {
                    options.root_pid = Some(pid);
                    at = at + 2;
                },
                None => {
                    return Err(HelperError::RootPidMissing);
                },
            }
        } else {
            return Err(HelperError::UnknownArgument { argument: from_utf8_lossy(argument) });
        }
    }
    Ok(options)
}

/// What choosing whose events to pass on came to.
pub open spec fn root_view(root: Result<i32, HelperError>) -> Result<i32, HelperErrorView> {
    match root {
        Ok(pid) => Ok(pid),
        Err(error) => Err(error@),
    }
}

/// Whose events are passed on.
pub open spec fn root_of(
    options: HelperOptions,
    setuid: bool,
    euid: u32,
    parent: i32,
) -> Result<i32, HelperErrorView> {
    let wanted = match options.root_pid {
        Some(pid) => pid,
        None => parent,
    };
    if euid != 0 {
        Err(HelperErrorView::NotRoot)
    } else if options.root_pid is Some && setuid {
        Err(HelperErrorView::RootPidThroughSetuid)
    } else if wanted <= 1 {
        Err(HelperErrorView::NoParent)
    } else {
        Ok(wanted)
    }
}

/// Whose events to pass on. Only someone who is already root (through sudo)
/// may choose; through setuid, it is always the caller's own tree.
pub fn choose_root(options: &HelperOptions, setuid: bool, euid: u32, parent: i32) -> (root: Result<
    i32,
    HelperError,
>)
    ensures
        root_view(root) == root_of(*options, setuid, euid, parent),
{
    if euid != 0 {
        return Err(HelperError::NotRoot);
    }
    let root_pid: i32 = match options.root_pid {
        Some(pid) => if setuid {
            return Err(HelperError::RootPidThroughSetuid);
        } else {
            pid
        },
        None => parent,
    };
    if root_pid <= 1 {
        return Err(HelperError::NoParent);
    }
    Ok(root_pid)
}

/// What becomes of a line from `eslogger`.
#[derive(Clone, Copy, Debug, PartialEq, Eq, Structural)]
pub enum Verdict {
    Skip,
    Forward,
    /// The helper itself forked this child.
    Probe(i32),
}

/// What a filter knows at one moment.
#[verifier::ext_equal]
pub struct FilterView {
    pub helper_pid: i32,
    pub followed: Set<i32>,
    pub next_seq: Option<u64>,
    pub dropped: u64,
}

/// Follows the recorder's descendants through the system-wide stream.
pub struct Filter {
    helper_pid: i32,
    followed: HashSet<i32>,
    next_seq: Option<u64>,
    dropped: u64,
}

impl View for Filter {
    type V = FilterView;

    closed spec fn view(&self) -> FilterView {
        FilterView {
            helper_pid: self.helper_pid,
            followed: self.followed@,
            next_seq: self.next_seq,
            dropped: self.dropped,
        }
    }
}

impl FilterView {
    /// How many events are missing before one with the given number.
    pub open spec fn gap(self, envelope: Envelope) -> int {
        match (envelope.global_seq_num, self.next_seq) {
            (Some(seq), Some(expected)) => if seq > expected {
                seq - expected
            } else {
                0
            },
            _ => 0,
        }
    }

    /// Whether the numbers of an envelope can be counted on.
    pub open spec fn countable(self, envelope: Envelope) -> bool {
        &&& envelope.global_seq_num != Some(u64::MAX)
        &&& self.dropped + self.gap(envelope) <= u64::MAX
    }

    /// After an envelope's number was taken note of.
    pub open spec fn counted(self, envelope: Envelope) -> FilterView {
        match envelope.global_seq_num {
            Some(seq) => FilterView {
                dropped: (self.dropped + self.gap(envelope)) as u64,
                next_seq: Some((seq + 1) as u64),
                ..self
            },
            None => self,
        }
    }

    /// Whether a process belongs to the recording: it is followed, or its
    /// parent is.
    pub open spec fn claims(self, envelope: Envelope) -> bool {
        self.followed.contains(envelope.process.audit_token.pid) || self.followed.contains(
            envelope.process.ppid,
        )
    }

    pub open spec fn verdict(self, envelope: Envelope) -> Verdict {
        if envelope.process.audit_token.pid == self.helper_pid {
            match envelope.event.fork {
                Some(fork) => Verdict::Probe(fork.child.audit_token.pid),
                None => Verdict::Skip,
            }
        } else if self.claims(envelope) {
            Verdict::Forward
        } else {
            Verdict::Skip
        }
    }

    /// After an envelope.
    pub open spec fn observed(self, envelope: Envelope) -> FilterView {
        let counted = self.counted(envelope);
        let pid = envelope.process.audit_token.pid;
        if self.verdict(envelope) != Verdict::Forward {
            counted
        } else {
            let claimed = counted.followed.insert(pid);
            let grown = match envelope.event.fork {
                Some(fork) => claimed.insert(fork.child.audit_token.pid),
                None => claimed,
            };
            FilterView {
                followed: if envelope.event.exit is Some {
                    // Its pid may be reused by an unrelated process.
                    grown.remove(pid)
                } else {
                    grown
                },
                ..counted
            }
        }
    }
}

/// Only the recorder's descendants are followed: an envelope adds at most the
/// process it is about, claimed through a followed parent, and the child that
/// one forked, and what is not passed on changes nobody's standing.
pub proof fn lemma_only_descendants_followed(state: FilterView, envelope: Envelope, pid: i32)
    ensures
        ({
            let after = state.observed(envelope);
            &&& after.followed.contains(pid) && !state.followed.contains(pid) ==> {
                &&& state.claims(envelope)
                &&& pid == envelope.process.audit_token.pid || (envelope.event.fork is Some
                    && pid == envelope.event.fork->0.child.audit_token.pid)
            }
            &&& state.verdict(envelope) != Verdict::Forward ==> after.followed == state.followed
        }),
{
}

/// A process that ended is forgotten: its pid may be reused.
pub proof fn lemma_exited_pid_forgotten(state: FilterView, envelope: Envelope)
    requires
        envelope.event.exit is Some,
        state.verdict(envelope) == Verdict::Forward,
    ensures
        !state.observed(envelope).followed.contains(envelope.process.audit_token.pid),
{
}

impl Filter {
    pub fn new(root_pid: i32, helper_pid: i32) -> (filter: Self)
        ensures
            filter@ == (FilterView {
                helper_pid,
                followed: set![root_pid],
                next_seq: None,
                dropped: 0,
            }),
    {
        let mut followed: HashSet<i32> = HashSet::new();
        followed.insert(root_pid);
        let filter = Filter { helper_pid, followed, next_seq: None, dropped: 0 };
        assert(filter@.followed =~= set![root_pid]);
        filter
    }

    /// Events Endpoint Security discarded because the client fell behind.
    pub fn dropped(&self) -> (dropped: u64)
        ensures
            dropped == self@.dropped,
    {
        self.dropped
    }

    /// Whether the numbers of an envelope can be counted on.
    pub fn can_count(&self, envelope: &Envelope) -> (countable: bool)
        ensures
            countable == self@.countable(*envelope),
    {
        match envelope.global_seq_num {
            Some(seq) => {
                if seq == u64::MAX {
                    return false;
                }
                match self.next_seq {
                    Some(expected) => if seq > expected {
                        self.dropped <= u64::MAX - (seq - expected)
                    } else {
                        true
                    },
                    None => true,
                }
            },
            None => true,
        }
    }

    pub fn observe(&mut self, envelope: &Envelope) -> (verdict: Verdict)
        requires
            old(self)@.countable(*envelope),
        ensures
            verdict == old(self)@.verdict(*envelope),
            final(self)@ == old(self)@.observed(*envelope),
    {
        if let Some(seq) = envelope.global_seq_num {
            if let Some(expected) = self.next_seq {
                if seq > expected {
                    self.dropped = self.dropped + (seq - expected);
                }
            }
            self.next_seq = Some(seq + 1);
        }
        assert(self@ == old(self)@.counted(*envelope));
        let pid: i32 = envelope.process.audit_token.pid;
        if pid == self.helper_pid {
            return match &envelope.event.fork {
                Some(fork) => Verdict::Probe(fork.child.audit_token.pid),
                None => Verdict::Skip,
            };
        }
        // A process whose fork was not seen — started with posix_spawn, or
        // before its exit was reported — is claimed through its parent.
        if !self.followed.contains(&pid) {
            if !self.followed.contains(&envelope.process.ppid) {
                return Verdict::Skip;
            }
            self.followed.insert(pid);
        }
        assert(self@.followed =~= old(self)@.followed.insert(pid));
        if let Some(fork) = &envelope.event.fork {
            self.followed.insert(fork.child.audit_token.pid);
        }
        if envelope.event.exit.is_some() {
            self.followed.remove(&pid);
        }
        Verdict::Forward
    }

    fn forget_drops(&mut self)
        ensures
            final(self)@ == (FilterView { dropped: 0, ..old(self)@ }),
    {
        self.dropped = 0;
    }
}

/// The control line that says recording can begin.
pub open spec fn ready_text() -> Seq<char> {
    "{\"buildprof\":\"ready\"}"@
}

pub fn ready_line() -> (line: String)
    ensures
        line@ == ready_text(),
{
    "{\"buildprof\":\"ready\"}".to_owned()
}

/// The control line that answers a sync.
pub open spec fn synced_text(dropped: u64) -> Seq<char> {
    "{\"buildprof\":\"synced\",\"dropped\":"@ + decimal(dropped as int) + "}"@
}

pub fn synced_line(dropped: u64) -> (line: String)
    ensures
        line@ == synced_text(dropped),
{
    let mut line = "{\"buildprof\":\"synced\",\"dropped\":".to_owned();
    push_unsigned(&mut line, dropped);
    line.append("}");
    line
}

/// The control line that says why the helper stopped, with the message as
/// JSON.
pub open spec fn error_text(message: Seq<char>) -> Seq<char> {
    "{\"buildprof\":\"error\",\"message\":"@ + message + "}"@
}

pub fn error_line(message: &str) -> (line: String)
    ensures
        line@ == error_text(quoted(message@)),
        unescaped(message@) ==> line@ == error_text(seq!['"'] + message@ + seq!['"']),
{
    let mut line = "{\"buildprof\":\"error\",\"message\":".to_owned();
    line.append(quote(message).as_str());
    line.append("}");
    line
}

/// How far the helper has come.
#[derive(Clone, Copy, Debug, PartialEq, Eq, Structural)]
pub enum Phase {
    /// It is not known yet that events arrive.
    Starting,
    Running,
    /// A sync waits for its answer.
    Syncing,
}

/// What the helper gets to see.
pub enum Input {
    /// A line from `eslogger`, as far as it could be read.
    Event { envelope: Option<Envelope> },
    EventsClosed,
    Command { line: String },
    CommandsClosed,
}

/// What the helper does about it.
#[derive(Clone, Copy, Debug, PartialEq, Eq, Structural)]
pub enum Action {
    Nothing,
    /// Pass the line on.
    Forward,
    /// Say that recording can begin.
    Ready,
    /// Answer a sync.
    Synced { dropped: u64 },
    /// Stop, because `eslogger` did.
    EventsClosed,
    /// Stop, because the recorder is done.
    Finished,
}

/// What the helper has to do on its own.
#[derive(Clone, Copy, Debug, PartialEq, Eq, Structural)]
pub enum Due {
    Nothing,
    Probe,
    /// Stop: no events have arrived for too long.
    GiveUp,
}

#[verifier::ext_equal]
pub struct PumpView {
    pub filter: FilterView,
    pub phase: Phase,
    pub probes: Set<i32>,
    /// When the last probe was made, since the start.
    pub last_probe_ns: Option<u64>,
}

/// Passes events on, and finds out by probes how far they have arrived.
pub struct Pump {
    filter: Filter,
    phase: Phase,
    probes: HashSet<i32>,
    last_probe_ns: Option<u64>,
}

impl View for Pump {
    type V = PumpView;

    closed spec fn view(&self) -> PumpView {
        PumpView {
            filter: self.filter@,
            phase: self.phase,
            probes: self.probes@,
            last_probe_ns: self.last_probe_ns,
        }
    }
}

impl PumpView {
    /// Whether it is time for another probe.
    pub open spec fn probe_due(self, now_ns: u64) -> bool {
        self.phase != Phase::Running && match self.last_probe_ns {
            Some(last) => now_ns - last >= PROBE_INTERVAL_NS,
            None => true,
        }
    }

    /// What is due at a point in time since the start.
    pub open spec fn due(self, now_ns: u64) -> Due {
        if !self.probe_due(now_ns) {
            Due::Nothing
        } else if self.phase == Phase::Starting && now_ns > READY_TIMEOUT_NS {
            Due::GiveUp
        } else {
            Due::Probe
        }
    }

    /// The phase that a probe which came back ends, if it was waited for.
    pub open spec fn answers(self, child: i32) -> bool {
        self.probes.contains(child) && self.phase != Phase::Running
    }

    pub open spec fn action(self, envelope: Envelope) -> Action {
        match self.filter.verdict(envelope) {
            Verdict::Skip => Action::Nothing,
            // Nothing is passed on until the recorder can tell the build's
            // events from the startup's.
            Verdict::Forward => if self.phase != Phase::Starting {
                Action::Forward
            } else {
                Action::Nothing
            },
            Verdict::Probe(child) => if !self.answers(child) {
                Action::Nothing
            } else if self.phase == Phase::Starting {
                Action::Ready
            } else {
                Action::Synced { dropped: self.filter.counted(envelope).dropped }
            },
        }
    }

    /// After a line from `eslogger`.
    pub open spec fn fed(self, envelope: Envelope) -> PumpView {
        let filter = self.filter.observed(envelope);
        match self.filter.verdict(envelope) {
            Verdict::Probe(child) => if self.answers(child) {
                PumpView {
                    filter: if self.phase == Phase::Starting {
                        FilterView { dropped: 0, ..filter }
                    } else {
                        filter
                    },
                    phase: Phase::Running,
                    // A retried startup probe must not answer a later sync.
                    probes: Set::empty(),
                    last_probe_ns: None,
                }
            } else {
                PumpView { filter, probes: self.probes.remove(child), ..self }
            },
            _ => PumpView { filter, ..self },
        }
    }

    /// After a sync was asked for. A probe made before it must not answer it:
    /// events may have been raised in between.
    pub open spec fn syncing(self) -> PumpView {
        PumpView {
            phase: Phase::Syncing,
            probes: Set::empty(),
            last_probe_ns: None,
            ..self
        }
    }

    /// What is done about an input.
    pub open spec fn answer(self, input: Input) -> Action {
        match input {
            Input::Event { envelope: Some(envelope) } => self.action(envelope),
            Input::Event { envelope: None } => Action::Nothing,
            Input::EventsClosed => Action::EventsClosed,
            Input::Command { .. } => Action::Nothing,
            Input::CommandsClosed => Action::Finished,
        }
    }

    /// After an input.
    pub open spec fn given(self, input: Input) -> PumpView {
        match input {
            Input::Event { envelope: Some(envelope) } => self.fed(envelope),
            Input::Command { line } => if trimmed(line@) == "sync"@ {
                self.syncing()
            } else {
                self
            },
            _ => self,
        }
    }

    /// After a probe was made.
    pub open spec fn probing(self, child: i32, now_ns: u64) -> PumpView {
        PumpView { probes: self.probes.insert(child), last_probe_ns: Some(now_ns), ..self }
    }
}

/// Until a probe has come back nothing is passed on, and a sync is answered
/// only by a probe of the helper's own that it still waits for. Whatever was
/// probed before an answer cannot be taken for a later one's.
pub proof fn lemma_answers_need_probes(state: PumpView, envelope: Envelope)
    ensures
        state.phase == Phase::Starting ==> state.action(envelope) != Action::Forward,
        (state.action(envelope) == Action::Ready || state.action(envelope) is Synced) ==> {
            &&& state.phase != Phase::Running
            &&& envelope.process.audit_token.pid == state.filter.helper_pid
            &&& envelope.event.fork is Some
            &&& state.probes.contains(envelope.event.fork->0.child.audit_token.pid)
            &&& state.fed(envelope).phase == Phase::Running
            &&& state.fed(envelope).probes == Set::<i32>::empty()
        },
        state.phase == Phase::Running ==> state.fed(envelope).phase == Phase::Running,
{
}

/// What a pump is told, one thing at a time.
pub enum Told {
    Probed { child: i32, now_ns: u64 },
    Event { envelope: Envelope },
    Sync,
}

impl PumpView {
    /// After some things were told.
    pub open spec fn after(self, told: Seq<Told>) -> PumpView
        decreases told.len(),
    {
        if told.len() == 0 {
            self
        } else {
            let before = self.after(told.drop_last());
            match told.last() {
                Told::Probed { child, now_ns } => before.probing(child, now_ns),
                Told::Event { envelope } => before.fed(envelope),
                Told::Sync => before.syncing(),
            }
        }
    }
}

/// Whether a probe was made, and after every sync.
pub open spec fn probed_since_sync(told: Seq<Told>, child: i32) -> bool {
    exists|i: int| #[trigger]
        is_probe(told, i, child) && forall|j: int| i < j < told.len() ==> !(#[trigger] told[j] is Sync)
}

pub open spec fn is_probe(told: Seq<Told>, i: int, child: i32) -> bool {
    0 <= i < told.len() && (told[i] matches Told::Probed { child: made, .. } && made == child)
}

proof fn lemma_probes_since_sync(start: PumpView, told: Seq<Told>)
    requires
        start.probes == Set::<i32>::empty(),
    ensures
        forall|child: i32| #[trigger]
            start.after(told).probes.contains(child) ==> probed_since_sync(told, child),
        start.after(told).phase == Phase::Syncing && start.phase != Phase::Syncing ==> exists|i: int|
            0 <= i < told.len() && #[trigger] told[i] is Sync,
    decreases told.len(),
{
    if told.len() > 0 {
        let fewer = told.drop_last();
        let before = start.after(fewer);
        let after = start.after(told);
        lemma_probes_since_sync(start, fewer);
        assert forall|child: i32| #[trigger] after.probes.contains(child) implies probed_since_sync(
            told,
            child,
        ) by {
            if before.probes.contains(child) {
                let i = choose|i: int| #[trigger]
                    is_probe(fewer, i, child) && forall|j: int|
                        i < j < fewer.len() ==> !(#[trigger] fewer[j] is Sync);
                assert(is_probe(told, i, child));
                assert forall|j: int| i < j < told.len() implies !(#[trigger] told[j] is Sync) by {
                    if j < fewer.len() {
                        assert(fewer[j] == told[j]);
                    }
                }
            } else {
                assert(is_probe(told, told.len() - 1, child));
            }
        }
        if after.phase == Phase::Syncing && start.phase != Phase::Syncing {
            if told.last() is Sync {
                assert(told[told.len() - 1] is Sync);
            } else {
                let i = choose|i: int| 0 <= i < fewer.len() && #[trigger] fewer[i] is Sync;
                assert(told[i] is Sync);
            }
        }
    }
}

/// A sync is answered only once a probe came back that was made after it: by
/// then every event raised before the sync has been seen, and what was to be
/// passed on has been.
pub proof fn lemma_sync_answered_by_later_probe(start: PumpView, told: Seq<Told>, envelope: Envelope)
    requires
        start.phase == Phase::Starting,
        start.probes == Set::<i32>::empty(),
        start.after(told).action(envelope) is Synced,
    ensures
        exists|i: int| 0 <= i < told.len() && #[trigger] told[i] is Sync,
        envelope.event.fork is Some,
        probed_since_sync(told, envelope.event.fork->0.child.audit_token.pid),
{
    lemma_probes_since_sync(start, told);
}

impl Pump {
    pub fn new(root_pid: i32, helper_pid: i32) -> (pump: Self)
        ensures
            pump@ == (PumpView {
                filter: FilterView {
                    helper_pid,
                    followed: set![root_pid],
                    next_seq: None,
                    dropped: 0,
                },
                phase: Phase::Starting,
                probes: Set::empty(),
                last_probe_ns: None,
            }),
    {
        Pump {
            filter: Filter::new(root_pid, helper_pid),
            phase: Phase::Starting,
            probes: HashSet::new(),
            last_probe_ns: None,
        }
    }

    /// What is due, `now_ns` after the start.
    pub fn due(&self, now_ns: u64) -> (due: Due)
        ensures
            due == self@.due(now_ns),
    {
        if self.phase == Phase::Running {
            return Due::Nothing;
        }
        if let Some(last) = self.last_probe_ns {
            if now_ns < last || now_ns - last < PROBE_INTERVAL_NS {
                return Due::Nothing;
            }
        }
        if self.phase == Phase::Starting && now_ns > READY_TIMEOUT_NS {
            Due::GiveUp
        } else {
            Due::Probe
        }
    }

    /// Takes note of a probe that was made.
    pub fn probed(&mut self, child: i32, now_ns: u64)
        ensures
            final(self)@ == old(self)@.probing(child, now_ns),
    {
        self.probes.insert(child);
        self.last_probe_ns = Some(now_ns);
    }

    /// Whether the numbers of an envelope can be counted on.
    pub fn can_count(&self, envelope: &Envelope) -> (countable: bool)
        ensures
            countable == self@.filter.countable(*envelope),
    {
        self.filter.can_count(envelope)
    }

    pub fn handle(&mut self, input: Input) -> (action: Action)
        requires
            input matches Input::Event { envelope: Some(envelope) }
                ==> old(self)@.filter.countable(envelope),
        ensures
            action == old(self)@.answer(input),
            final(self)@ == old(self)@.given(input),
    {
        match input {
            Input::Event { envelope } => match envelope {
                Some(envelope) => self.feed(&envelope),
                None => Action::Nothing,
            },
            Input::EventsClosed => Action::EventsClosed,
            Input::Command { line } => {
                let all = characters(line.as_str());
                assert(all@.subrange(0, all@.len() as int) =~= all@);
                let (from, to) = trim_range(all.as_slice(), 0, all.len());
                if same_text(line.as_str().substring_char(from, to), "sync") {
                    self.phase = Phase::Syncing;
                    self.probes.clear();
                    self.last_probe_ns = None;
                }
                Action::Nothing
            },
            Input::CommandsClosed => Action::Finished,
        }
    }

    fn feed(&mut self, envelope: &Envelope) -> (action: Action)
        requires
            old(self)@.filter.countable(*envelope),
        ensures
            action == old(self)@.action(*envelope),
            final(self)@ == old(self)@.fed(*envelope),
    {
        match self.filter.observe(envelope) {
            Verdict::Skip => Action::Nothing,
            Verdict::Forward => if self.phase != Phase::Starting {
                Action::Forward
            } else {
                Action::Nothing
            },
            Verdict::Probe(child) => {
                let known = self.probes.remove(&child);
                if !known || self.phase == Phase::Running {
                    return Action::Nothing;
                }
                let action = if self.phase == Phase::Starting {
                    self.filter.forget_drops();
                    Action::Ready
                } else {
                    Action::Synced { dropped: self.filter.dropped() }
                };
                self.phase = Phase::Running;
                self.last_probe_ns = None;
                self.probes.clear();
                action
            },
        }
    }
}

} // verus!
