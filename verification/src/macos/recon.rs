//! Turning kernel trace events into what the build did.
//!
//! The kernel reports every process on the machine, so this follows the ones
//! the build started: a process is part of the build if the process that
//! created it was. Command lines are not in the trace at all, and are read from
//! the process itself as soon as its execution appears.

use super::event::{Event, Message};
#[allow(unused_imports)]
use super::event::{message_views, EventView, MessageView};
use super::kdebug;
use super::tracker::Clock;
use crate::text::{from_utf8_lossy, nul_position, copy_range};
#[allow(unused_imports)]
use crate::text::{before_nul, decoded, views};
use std::collections::{HashMap, HashSet};
use vstd::prelude::*;
use vstd::string::*;

pub mod laws;

verus! {

broadcast use vstd::std_specs::hash::group_hash_axioms;

pub const NEWTHREAD: u32 = 0x0700_0004;

pub const DATA_EXEC: u32 = 0x0700_0008;

pub const STRING_EXEC: u32 = 0x0701_0008;

pub const LOST_EVENTS: u32 = 0x0702_0008;

pub const PROC_EXIT: u32 = 0x0401_0004;

/// How long an exit is held before it is believed, in trace time. The kernel
/// also reports an exit when a process replaces its image, and the new image
/// then goes on doing things; anything further from the pid cancels the exit.
pub const EXIT_HOLD_NS: u64 = 10_000_000;

/// Attempts to read a command line before giving up on it. A read lands
/// before the new image is ready surprisingly often.
pub const ARGV_ATTEMPTS: u32 = 5;

/// How much later than its exec a process may claim to have started before it
/// is taken to be a different process that reused the pid.
pub const REUSE_TOLERANCE_NS: u128 = 2_000_000;

#[derive(Clone, Copy, Debug, PartialEq, Eq, Structural)]
pub struct HeldExit {
    pub pid: i32,
    pub mach_time: u64,
    pub stat: i32,
    pub believe_after: u64,
}

/// An execution whose command line could not be read yet.
#[derive(Clone, Copy, Debug, PartialEq, Eq, Structural)]
pub struct Retry {
    pub pid: i32,
    pub mach_time: u64,
    pub attempt: u32,
}

/// A command line as read from a process.
#[derive(Debug)]
pub struct CommandLine {
    pub executable: String,
    pub argv: Vec<String>,
}

#[verifier::ext_equal]
pub struct CommandLineView {
    pub executable: Seq<char>,
    pub argv: Seq<Seq<char>>,
}

impl View for CommandLine {
    type V = CommandLineView;

    open spec fn view(&self) -> CommandLineView {
        CommandLineView { executable: self.executable@, argv: views(self.argv@) }
    }
}

/// What a command line that may be missing holds.
pub open spec fn line_of(line: Option<CommandLine>) -> Option<CommandLineView> {
    match line {
        Some(line) => Some(line@),
        None => None,
    }
}

/// An execution that was not reported yet, with its command line if that was
/// read meanwhile.
struct Pending {
    retry: Retry,
    line: Option<CommandLine>,
}

#[verifier::ext_equal]
pub struct PendingView {
    pub retry: Retry,
    pub line: Option<CommandLineView>,
}

impl View for Pending {
    type V = PendingView;

    closed spec fn view(&self) -> PendingView {
        PendingView { retry: self.retry, line: line_of(self.line) }
    }
}

spec fn pending_views(pending: Seq<Pending>) -> Seq<PendingView> {
    pending.map_values(|pending: Pending| pending@)
}

/// What a collector knows at one moment.
#[verifier::ext_equal]
pub struct CollectorView {
    pub root: i32,
    /// Ticks for which an exit is held.
    pub hold: u64,
    /// Processes that are part of the build.
    pub processes: Set<i32>,
    /// The process of each thread on the machine.
    pub threads: Map<u64, i32>,
    /// The program each process is running, for the ones whose command line
    /// could not be read.
    pub names: Map<i32, Seq<char>>,
    pub held: Seq<HeldExit>,
    pub retries: Seq<Retry>,
    pub dropped: u64,
    pub unnamed: u64,
}

/// The exits of other processes than `pid`.
pub open spec fn without_exits(held: Seq<HeldExit>, pid: i32) -> Seq<HeldExit>
    decreases held.len(),
{
    if held.len() == 0 {
        held
    } else if held.last().pid == pid {
        without_exits(held.drop_last(), pid)
    } else {
        without_exits(held.drop_last(), pid).push(held.last())
    }
}

/// The exits that are to be believed by now, or those that are not.
pub open spec fn due(held: Seq<HeldExit>, now: u64, believed: bool) -> Seq<HeldExit>
    decreases held.len(),
{
    if held.len() == 0 {
        held
    } else if (held.last().believe_after <= now) == believed {
        due(held.drop_last(), now, believed).push(held.last())
    } else {
        due(held.drop_last(), now, believed)
    }
}

/// What is reported of an exit.
pub open spec fn exit_message(exit: HeldExit) -> MessageView {
    MessageView {
        mach_time: exit.mach_time,
        pid: exit.pid,
        ppid: 0,
        event: EventView::Exit { stat: exit.stat },
    }
}

/// What is reported of an execution.
pub open spec fn exec_message(pid: i32, mach_time: u64, line: CommandLineView) -> MessageView {
    MessageView {
        mach_time,
        pid,
        ppid: 0,
        event: EventView::Exec { argv: line.argv, executable: line.executable },
    }
}

/// The eight bytes of a word, least significant first.
pub open spec fn word_bytes(word: u64) -> Seq<u8> {
    seq![
        (word % 0x100) as u8,
        (word / 0x100 % 0x100) as u8,
        (word / 0x1_0000 % 0x100) as u8,
        (word / 0x100_0000 % 0x100) as u8,
        (word / 0x1_0000_0000 % 0x100) as u8,
        (word / 0x100_0000_0000 % 0x100) as u8,
        (word / 0x1_0000_0000_0000 % 0x100) as u8,
        (word / 0x100_0000_0000_0000 % 0x100) as u8,
    ]
}

/// The bytes of some words, in order.
pub open spec fn words_bytes(words: Seq<u64>) -> Seq<u8>
    decreases words.len(),
{
    if words.len() == 0 {
        Seq::empty()
    } else {
        words_bytes(words.drop_last()) + word_bytes(words.last())
    }
}

/// The name packed into some words.
pub open spec fn packed_name(words: Seq<u64>) -> Seq<char> {
    decoded(before_nul(words_bytes(words)))
}

/// Names arrive as little-endian words packed with the bytes of the name.
pub fn decode_string(words: &[u64]) -> (name: String)
    ensures
        name@ == packed_name(words@),
{
    let mut bytes: Vec<u8> = Vec::new();
    for i in 0..words.len()
        invariant
            bytes@ == words_bytes(words@.take(i as int)),
    {
        let word: u64 = words[i];
        let ghost before = bytes@;
        bytes.push((word % 0x100) as u8);
        bytes.push((word / 0x100 % 0x100) as u8);
        bytes.push((word / 0x1_0000 % 0x100) as u8);
        bytes.push((word / 0x100_0000 % 0x100) as u8);
        bytes.push((word / 0x1_0000_0000 % 0x100) as u8);
        bytes.push((word / 0x100_0000_0000 % 0x100) as u8);
        bytes.push((word / 0x1_0000_0000_0000 % 0x100) as u8);
        bytes.push((word / 0x100_0000_0000_0000 % 0x100) as u8);
        assert(bytes@ =~= before + word_bytes(word));
        assert(words@.take(i + 1).drop_last() =~= words@.take(i as int));
    }
    assert(words@.take(words@.len() as int) =~= words@);
    let end: usize = nul_position(bytes.as_slice(), 0);
    assert(bytes@.skip(0) =~= bytes@);
    let name = copy_range(bytes.as_slice(), 0, end);
    from_utf8_lossy(name.as_slice())
}

/// Whether a process that claims to have started at `started_ns` can be the
/// one that was seen to exec: a later start means the pid was reused. Both
/// times are in nanoseconds since the epoch, the exec's as the recording's
/// start and what the trace clock made of it since.
pub fn is_same_process(
    clock: &Clock,
    origin_wall_ns: u128,
    mach_time: u64,
    started_ns: u128,
) -> (same: bool)
    requires
        clock.denom > 0,
        origin_wall_ns + u64::MAX + REUSE_TOLERANCE_NS <= u128::MAX,
    ensures
        same == (started_ns <= origin_wall_ns + clock.since(mach_time) + REUSE_TOLERANCE_NS),
        same <==> started_ns - origin_wall_ns - clock.since(mach_time) <= 2_000_000,
{
    started_ns <= origin_wall_ns + clock.ns(mach_time) as u128 + REUSE_TOLERANCE_NS
}

/// The executions of a process, or those of all others.
pub open spec fn pending_of(pending: Seq<PendingView>, pid: i32, mine: bool) -> Seq<PendingView>
    decreases pending.len(),
{
    if pending.len() == 0 {
        pending
    } else if (pending.last().retry.pid == pid) == mine {
        pending_of(pending.drop_last(), pid, mine).push(pending.last())
    } else {
        pending_of(pending.drop_last(), pid, mine)
    }
}

/// The executions of processes of which no exit is among `exits`.
pub open spec fn left_over(exits: Seq<HeldExit>, pending: Seq<PendingView>) -> Seq<PendingView>
    decreases exits.len(),
{
    if exits.len() == 0 {
        pending
    } else {
        pending_of(left_over(exits.drop_last(), pending), exits.last().pid, false)
    }
}

/// How many executions are without their command lines.
pub open spec fn unread(pending: Seq<PendingView>) -> nat
    decreases pending.len(),
{
    if pending.len() == 0 {
        0
    } else if pending.last().line is None {
        unread(pending.drop_last()) + 1
    } else {
        unread(pending.drop_last())
    }
}

pub open spec fn retries_of(pending: Seq<PendingView>) -> Seq<Retry> {
    pending.map_values(|pending: PendingView| pending.retry)
}

impl CollectorView {
    /// An execution the kernel named but whose arguments are lost.
    pub open spec fn named(self, pid: i32) -> CommandLineView {
        let executable = if self.names.contains_key(pid) {
            self.names[pid]
        } else {
            Seq::empty()
        };
        CommandLineView { executable, argv: seq![executable] }
    }

    /// What is reported of an execution at last: its command line, or the
    /// program alone if that could not be read.
    pub open spec fn exec_report(self, pending: PendingView) -> MessageView {
        exec_message(
            pending.retry.pid,
            pending.retry.mach_time,
            match pending.line {
                Some(line) => line,
                None => self.named(pending.retry.pid),
            },
        )
    }

    pub open spec fn exec_reports(self, pending: Seq<PendingView>) -> Seq<MessageView> {
        pending.map_values(|pending: PendingView| self.exec_report(pending))
    }

    /// After some executions were reported.
    pub open spec fn reported(self, pending: Seq<PendingView>) -> CollectorView {
        CollectorView { unnamed: (self.unnamed + unread(pending)) as u64, ..self }
    }

    /// After some exits were believed: the processes are gone, but for the
    /// root, which is followed to the end. Of the executions that wait, those
    /// of the processes that ended are reported first, so that they are named
    /// after their programs at least.
    pub open spec fn exited(self, exits: Seq<HeldExit>, pending: Seq<PendingView>) -> CollectorView
        decreases exits.len(),
    {
        if exits.len() == 0 {
            self
        } else {
            let pid = exits.last().pid;
            let before = self.exited(exits.drop_last(), pending).reported(
                pending_of(left_over(exits.drop_last(), pending), pid, true),
            );
            CollectorView {
                processes: if pid != before.root {
                    before.processes.remove(pid)
                } else {
                    before.processes
                },
                names: before.names.remove(pid),
                ..before
            }
        }
    }

    /// What is reported when some exits are believed.
    pub open spec fn exit_reports(
        self,
        exits: Seq<HeldExit>,
        pending: Seq<PendingView>,
    ) -> Seq<MessageView>
        decreases exits.len(),
    {
        if exits.len() == 0 {
            Seq::empty()
        } else {
            let exit = exits.last();
            let mine = pending_of(left_over(exits.drop_last(), pending), exit.pid, true);
            (self.exit_reports(exits.drop_last(), pending) + self.exited(
                exits.drop_last(),
                pending,
            ).exec_reports(mine)).push(exit_message(exit))
        }
    }

    /// The command line that was read for one of several executions.
    pub open spec fn nth_line(lines: Seq<Option<CommandLineView>>, n: int) -> Option<CommandLineView> {
        if n < lines.len() {
            lines[n]
        } else {
            None
        }
    }

    /// The executions that wait, with what could be read of their command
    /// lines.
    pub open spec fn waiting(self, lines: Seq<Option<CommandLineView>>) -> Seq<PendingView> {
        Seq::new(
            self.retries.len(),
            |i: int| PendingView { retry: self.retries[i], line: Self::nth_line(lines, i) },
        )
    }

    /// After a thread was created: `parent` is the process that did so, if it
    /// is known. An exit reported of `parent` before was an image being
    /// replaced.
    pub open spec fn threaded(self, parent: Option<i32>, child_thread: u64, pid: i32) -> CollectorView {
        let threads = self.threads.insert(child_thread, pid);
        match parent {
            Some(parent) => {
                let held = without_exits(self.held, parent);
                if parent != pid && self.processes.contains(parent) {
                    CollectorView {
                        threads,
                        held: without_exits(held, pid),
                        processes: self.processes.insert(pid),
                        ..self
                    }
                } else if parent != pid && pid != self.root {
                    // Someone else now has this pid; stop following it.
                    CollectorView { threads, held, processes: self.processes.remove(pid), ..self }
                } else {
                    CollectorView { threads, held, ..self }
                }
            },
            None => CollectorView { threads, ..self },
        }
    }

    /// The process of a thread, if it is known.
    pub open spec fn owner(self, thread: u64) -> Option<i32> {
        if self.threads.contains_key(thread) {
            Some(self.threads[thread])
        } else {
            None
        }
    }

    /// After a process did something: an exit reported of it before was an
    /// image being replaced, and other exits may have been held long enough.
    pub open spec fn alive(self, pid: i32, now: u64) -> CollectorView {
        let held = without_exits(self.held, pid);
        CollectorView { held, ..self }.believed(now)
    }

    /// What is reported when a process did something.
    pub open spec fn alive_messages(self, pid: i32, now: u64) -> Seq<MessageView> {
        let held = without_exits(self.held, pid);
        CollectorView { held, ..self }.believed_messages(now)
    }

    /// With no execution waiting and other exits held.
    pub open spec fn holding(self, held: Seq<HeldExit>) -> CollectorView {
        CollectorView { held, retries: Seq::empty(), ..self }
    }

    /// After the exits that were held long enough were believed.
    pub open spec fn believed(self, now: u64) -> CollectorView {
        let exits = due(self.held, now, true);
        let pending = self.waiting(Seq::empty());
        CollectorView {
            retries: retries_of(left_over(exits, pending)),
            ..self.holding(due(self.held, now, false)).exited(exits, pending)
        }
    }

    /// What is reported when exits were held long enough.
    pub open spec fn believed_messages(self, now: u64) -> Seq<MessageView> {
        self.holding(due(self.held, now, false)).exit_reports(
            due(self.held, now, true),
            self.waiting(Seq::empty()),
        )
    }

    /// After an event.
    pub open spec fn observed(
        self,
        event: kdebug::Event,
        line: Option<CommandLineView>,
    ) -> CollectorView {
        if event.kind() == NEWTHREAD {
            self.threaded(self.owner(event.thread), event.args@[0], event.args@[1] as i32)
        } else if event.kind() == LOST_EVENTS {
            CollectorView { dropped: (self.dropped + 1) as u64, ..self }
        } else {
            match self.owner(event.thread) {
                None => self,
                Some(pid) => {
                    let alive = self.alive(pid, event.timestamp);
                    if !alive.processes.contains(pid) {
                        alive
                    } else if event.kind() == DATA_EXEC && line is None {
                        CollectorView {
                            retries: alive.retries.push(
                                Retry { pid, mach_time: event.timestamp, attempt: 1 },
                            ),
                            ..alive
                        }
                    } else if event.kind() == STRING_EXEC {
                        CollectorView {
                            names: alive.names.insert(pid, packed_name(event.args@)),
                            ..alive
                        }
                    } else if event.kind() == PROC_EXIT && event.ends() {
                        CollectorView {
                            held: alive.held.push(
                                HeldExit {
                                    pid,
                                    mach_time: event.timestamp,
                                    stat: event.args@[1] as i32,
                                    believe_after: (event.timestamp + self.hold) as u64,
                                },
                            ),
                            ..alive
                        }
                    } else {
                        alive
                    }
                },
            }
        }
    }

    /// What is reported after an event.
    pub open spec fn observed_messages(
        self,
        event: kdebug::Event,
        line: Option<CommandLineView>,
    ) -> Seq<MessageView> {
        if event.kind() == NEWTHREAD {
            let pid = event.args@[1] as i32;
            match self.owner(event.thread) {
                Some(parent) => if parent != pid && self.processes.contains(parent) {
                    seq![
                        MessageView {
                            mach_time: event.timestamp,
                            pid: parent,
                            ppid: 0,
                            event: EventView::Fork { child: pid },
                        },
                    ]
                } else {
                    seq![]
                },
                None => seq![],
            }
        } else if event.kind() == LOST_EVENTS {
            seq![]
        } else {
            match self.owner(event.thread) {
                None => seq![],
                Some(pid) => {
                    let exits = self.alive_messages(pid, event.timestamp);
                    if event.kind() == DATA_EXEC && self.alive(
                        pid,
                        event.timestamp,
                    ).processes.contains(pid) && line is Some {
                        exits.push(exec_message(pid, event.timestamp, line->0))
                    } else {
                        exits
                    }
                },
            }
        }
    }

    /// The process whose command line an event asks for, if it does.
    pub open spec fn asks_for(self, event: kdebug::Event) -> Option<i32> {
        match self.owner(event.thread) {
            Some(pid) => if event.kind() == DATA_EXEC && self.processes.contains(pid) {
                Some(pid)
            } else {
                None
            },
            None => None,
        }
    }
}

/// Whether an execution is not waited for any longer.
pub open spec fn is_settled(pending: PendingView) -> bool {
    pending.line is Some || pending.retry.attempt + 1 >= ARGV_ATTEMPTS
}

/// The executions that are not waited for any longer.
pub open spec fn settled(pending: Seq<PendingView>) -> Seq<PendingView>
    decreases pending.len(),
{
    if pending.len() == 0 {
        pending
    } else if is_settled(pending.last()) {
        settled(pending.drop_last()).push(pending.last())
    } else {
        settled(pending.drop_last())
    }
}

/// The executions whose command lines are to be read once more.
pub open spec fn unsettled(pending: Seq<PendingView>) -> Seq<Retry>
    decreases pending.len(),
{
    if pending.len() == 0 {
        Seq::empty()
    } else if is_settled(pending.last()) {
        unsettled(pending.drop_last())
    } else {
        unsettled(pending.drop_last()).push(
            Retry {
                attempt: (pending.last().retry.attempt + 1) as u32,
                ..pending.last().retry
            },
        )
    }
}

impl CollectorView {
    /// After the executions that wait were followed up, with what could be
    /// read of their command lines.
    pub open spec fn ticked(self, lines: Seq<Option<CommandLineView>>) -> CollectorView {
        CollectorView {
            retries: unsettled(self.waiting(lines)),
            ..self.reported(settled(self.waiting(lines)))
        }
    }

    /// What is reported when the executions that wait are followed up.
    pub open spec fn ticked_messages(self, lines: Seq<Option<CommandLineView>>) -> Seq<MessageView> {
        self.exec_reports(settled(self.waiting(lines)))
    }

    /// After every exit still held was believed, with no execution left
    /// waiting.
    pub open spec fn drained(self, lines: Seq<Option<CommandLineView>>) -> CollectorView {
        self.holding(Seq::empty()).exited(self.held, self.waiting(lines))
    }

    /// After a flush.
    pub open spec fn flushed(self, lines: Seq<Option<CommandLineView>>) -> CollectorView {
        self.drained(lines).reported(left_over(self.held, self.waiting(lines)))
    }

    /// What a flush reports: every exit still held, each after the executions
    /// of its process that wait, and then the other executions.
    pub open spec fn flushed_messages(self, lines: Seq<Option<CommandLineView>>) -> Seq<MessageView> {
        self.holding(Seq::empty()).exit_reports(self.held, self.waiting(lines)) + self.drained(
            lines,
        ).exec_reports(left_over(self.held, self.waiting(lines)))
    }
}

/// What some command lines that may be missing hold.
pub open spec fn lines_of(lines: Seq<Option<CommandLine>>) -> Seq<Option<CommandLineView>> {
    lines.map_values(|line: Option<CommandLine>| line_of(line))
}

/// Whether one of some exits is that of a process.
spec fn exit_of(exits: Seq<HeldExit>, pid: i32) -> bool {
    exists|i: int| 0 <= i < exits.len() && (#[trigger] exits[i]).pid == pid
}

/// Whether one of some executions is that of a process.
spec fn exec_of(pending: Seq<PendingView>, pid: i32) -> bool {
    exists|i: int| 0 <= i < pending.len() && (#[trigger] pending[i]).retry.pid == pid
}

proof fn lemma_exit_of(exits: Seq<HeldExit>, pid: i32)
    requires
        exits.len() > 0,
    ensures
        exit_of(exits, pid) <==> exit_of(exits.drop_last(), pid) || exits.last().pid == pid,
{
    let fewer = exits.drop_last();
    if exit_of(fewer, pid) {
        let i = choose|i: int| 0 <= i < fewer.len() && (#[trigger] fewer[i]).pid == pid;
        assert(exits[i].pid == pid);
    }
    if exits.last().pid == pid {
        assert(exits[exits.len() - 1].pid == pid);
    }
    if exit_of(exits, pid) && exits.last().pid != pid {
        let i = choose|i: int| 0 <= i < exits.len() && (#[trigger] exits[i]).pid == pid;
        assert(fewer[i].pid == pid);
    }
}

proof fn lemma_pending_of(pending: Seq<PendingView>, pid: i32)
    ensures
        ({
            let mine = pending_of(pending, pid, true);
            let others = pending_of(pending, pid, false);
            &&& mine.len() + others.len() == pending.len()
            &&& unread(mine) <= mine.len()
            &&& forall|i: int| 0 <= i < mine.len() ==> (#[trigger] mine[i]).retry.pid == pid
            &&& mine.len() > 0 ==> exec_of(pending, pid)
            &&& forall|other: i32| #[trigger]
                exec_of(others, other) <==> other != pid && exec_of(pending, other)
        }),
    decreases pending.len(),
{
    let mine = pending_of(pending, pid, true);
    let others = pending_of(pending, pid, false);
    if pending.len() > 0 {
        let fewer = pending.drop_last();
        let last = pending.last();
        lemma_pending_of(fewer, pid);
        lemma_unread(mine);
        assert(pending[pending.len() - 1] == last);
        if exec_of(fewer, pid) {
            let i = choose|i: int| 0 <= i < fewer.len() && (#[trigger] fewer[i]).retry.pid == pid;
            assert(pending[i] == fewer[i]);
        }
        let kept = pending_of(fewer, pid, false);
        assert forall|other: i32| #[trigger] exec_of(others, other) <==> other != pid && exec_of(
            pending,
            other,
        ) by {
            assert(exec_of(kept, other) <==> other != pid && exec_of(fewer, other));
            if exec_of(pending, other) {
                let i = choose|i: int|
                    0 <= i < pending.len() && (#[trigger] pending[i]).retry.pid == other;
                if i < fewer.len() {
                    assert(fewer[i].retry.pid == other);
                }
            }
            if exec_of(fewer, other) {
                let i = choose|i: int|
                    0 <= i < fewer.len() && (#[trigger] fewer[i]).retry.pid == other;
                assert(pending[i].retry.pid == other);
            }
            if exec_of(kept, other) {
                let i = choose|i: int| 0 <= i < kept.len() && (#[trigger] kept[i]).retry.pid == other;
                assert(others[i].retry.pid == other);
            }
            if exec_of(others, other) {
                let i = choose|i: int|
                    0 <= i < others.len() && (#[trigger] others[i]).retry.pid == other;
                if i < kept.len() {
                    assert(kept[i].retry.pid == other);
                }
            }
            if last.retry.pid != pid {
                assert(others[others.len() - 1] == last);
            }
        }
    }
}

proof fn lemma_next_pending(pending: Seq<Pending>, all: Seq<PendingView>, done: int)
    requires
        pending.len() > 0,
        0 <= done <= all.len(),
        pending_views(pending) == all.skip(done),
    ensures
        done < all.len(),
        pending[0]@ == all[done],
        pending_views(pending.remove(0)) == all.skip(done + 1),
{
    assert(pending_views(pending).len() == pending.len());
    assert(pending_views(pending)[0] == all.skip(done)[0]);
    assert forall|i: int| 0 <= i < pending.len() - 1 implies #[trigger] pending_views(
        pending.remove(0),
    )[i] == all.skip(done + 1)[i] by {
        assert(pending_views(pending)[i + 1] == all.skip(done)[i + 1]);
    }
    assert(pending_views(pending.remove(0)) =~= all.skip(done + 1));
}

proof fn lemma_unread(pending: Seq<PendingView>)
    ensures
        unread(pending) <= pending.len(),
    decreases pending.len(),
{
    if pending.len() > 0 {
        lemma_unread(pending.drop_last());
    }
}

proof fn lemma_left_over(exits: Seq<HeldExit>, pending: Seq<PendingView>)
    ensures
        forall|pid: i32| #[trigger]
            exec_of(left_over(exits, pending), pid) <==> exec_of(pending, pid) && !exit_of(
                exits,
                pid,
            ),
    decreases exits.len(),
{
    if exits.len() > 0 {
        let fewer = exits.drop_last();
        lemma_left_over(fewer, pending);
        lemma_pending_of(left_over(fewer, pending), exits.last().pid);
        assert forall|pid: i32| #[trigger]
            exec_of(left_over(exits, pending), pid) <==> exec_of(pending, pid) && !exit_of(
                exits,
                pid,
            ) by {
            lemma_exit_of(exits, pid);
            assert(exec_of(left_over(fewer, pending), pid) <==> exec_of(pending, pid) && !exit_of(
                fewer,
                pid,
            ));
        }
    }
}

proof fn lemma_exited_frame(
    state: CollectorView,
    exits: Seq<HeldExit>,
    pending: Seq<PendingView>,
)
    ensures
        ({
            let after = state.exited(exits, pending);
            &&& after.root == state.root
            &&& after.hold == state.hold
            &&& after.threads == state.threads
            &&& after.held == state.held
            &&& after.retries == state.retries
            &&& after.dropped == state.dropped
            &&& after.processes.subset_of(state.processes)
            &&& forall|pid: i32|
                #![trigger after.processes.contains(pid)]
                #![trigger state.processes.contains(pid)]
                after.processes.contains(pid) <==> state.processes.contains(pid) && (pid
                    == state.root || !exit_of(exits, pid))
        }),
    decreases exits.len(),
{
    if exits.len() > 0 {
        let fewer = exits.drop_last();
        lemma_exited_frame(state, fewer, pending);
        let after = state.exited(exits, pending);
        assert forall|pid: i32| after.processes.contains(pid) <==> state.processes.contains(pid)
            && (pid == state.root || !exit_of(exits, pid)) by {
            lemma_exit_of(exits, pid);
            assert(state.exited(fewer, pending).processes.contains(pid)
                <==> state.processes.contains(pid) && (pid == state.root || !exit_of(fewer, pid)));
        }
    }
}

proof fn lemma_exit_reports(
    state: CollectorView,
    exits: Seq<HeldExit>,
    pending: Seq<PendingView>,
)
    ensures
        ({
            let messages = state.exit_reports(exits, pending);
            &&& forall|i: int|
                #![trigger messages[i]]
                0 <= i < messages.len() ==> {
                    &&& messages[i].ppid == 0
                    &&& messages[i].event is Exit || messages[i].event is Exec
                    &&& exit_of(exits, messages[i].pid)
                    &&& messages[i].event is Exec ==> exec_of(pending, messages[i].pid)
                }
            &&& forall|pid: i32| #[trigger] ended(messages, pid) <==> exit_of(exits, pid)
            &&& forall|i: int, j: int|
                0 <= i < j < messages.len() && (#[trigger] messages[i]).event is Exit && (
                #[trigger] messages[j]).event is Exec ==> messages[i].pid != messages[j].pid
        }),
    decreases exits.len(),
{
    if exits.len() > 0 {
        let fewer = exits.drop_last();
        let last = exits.last();
        let rest = left_over(fewer, pending);
        let mine = pending_of(rest, last.pid, true);
        let said = state.exit_reports(fewer, pending);
        let named = state.exited(fewer, pending).exec_reports(mine);
        let messages = state.exit_reports(exits, pending);
        lemma_exit_reports(state, fewer, pending);
        lemma_left_over(fewer, pending);
        lemma_pending_of(rest, last.pid);
        lemma_exit_of(exits, last.pid);
        assert forall|i: int| 0 <= i < messages.len() implies (#[trigger] messages[i]) == (if i
            < said.len() {
            said[i]
        } else if i < said.len() + named.len() {
            named[i - said.len()]
        } else {
            exit_message(last)
        }) by {
        }
        assert forall|i: int| 0 <= i < named.len() implies (#[trigger] named[i]).pid == last.pid
            && named[i].event is Exec && named[i].ppid == 0 by {
            assert(mine[i].retry.pid == last.pid);
        }
        if mine.len() > 0 {
            assert(exec_of(rest, last.pid));
            assert(exec_of(pending, last.pid) && !exit_of(fewer, last.pid));
        }
        assert forall|i: int|
            #![trigger messages[i]]
            0 <= i < messages.len() implies {
            &&& messages[i].ppid == 0
            &&& messages[i].event is Exit || messages[i].event is Exec
            &&& exit_of(exits, messages[i].pid)
            &&& messages[i].event is Exec ==> exec_of(pending, messages[i].pid)
        } by {
            lemma_exit_of(exits, messages[i].pid);
            if i < said.len() {
                assert(messages[i] == said[i]);
            } else if i < said.len() + named.len() {
                assert(messages[i] == named[i - said.len()]);
            }
        }
        assert forall|pid: i32| #[trigger] ended(messages, pid) <==> exit_of(exits, pid) by {
            lemma_exit_of(exits, pid);
            assert(ended(said, pid) <==> exit_of(fewer, pid));
            if ended(said, pid) {
                let i = choose|i: int|
                    0 <= i < said.len() && (#[trigger] said[i]).pid == pid && said[i].event is Exit;
                assert(messages[i] == said[i]);
            }
            if last.pid == pid {
                assert(messages[messages.len() - 1] == exit_message(last));
            }
            if ended(messages, pid) {
                let i = choose|i: int|
                    0 <= i < messages.len() && (#[trigger] messages[i]).pid == pid
                        && messages[i].event is Exit;
                if i < said.len() {
                    assert(said[i] == messages[i]);
                }
            }
        }
        assert forall|i: int, j: int|
            0 <= i < j < messages.len() && (#[trigger] messages[i]).event is Exit && (
            #[trigger] messages[j]).event is Exec implies messages[i].pid != messages[j].pid by {
            if j < said.len() {
                assert(messages[i] == said[i] && messages[j] == said[j]);
            } else {
                assert(messages[j] == named[j - said.len()]);
                assert(messages[i] == said[i]);
                assert(ended(said, messages[i].pid));
            }
        }
    }
}

proof fn lemma_due(held: Seq<HeldExit>, now: u64, believed: bool)
    ensures
        forall|i: int|
            0 <= i < due(held, now, believed).len() ==> held.contains(
                #[trigger] due(held, now, believed)[i],
            ) && (due(held, now, believed)[i].believe_after <= now) == believed,
    decreases held.len(),
{
    if held.len() > 0 {
        lemma_due(held.drop_last(), now, believed);
        let part = due(held, now, believed);
        assert forall|i: int| 0 <= i < part.len() implies held.contains(#[trigger] part[i]) && (
        part[i].believe_after <= now) == believed by {
            let fewer = due(held.drop_last(), now, believed);
            if i < fewer.len() {
                assert(part[i] == fewer[i]);
                let j = choose|j: int|
                    0 <= j < held.drop_last().len() && held.drop_last()[j] == fewer[i];
                assert(held[j] == part[i]);
            } else {
                assert(held[held.len() - 1] == part[i]);
            }
        }
    }
}

proof fn lemma_without_exits(held: Seq<HeldExit>, pid: i32)
    ensures
        forall|i: int|
            0 <= i < without_exits(held, pid).len() ==> (#[trigger] without_exits(held, pid)[i]).pid
                != pid && held.contains(without_exits(held, pid)[i]),
    decreases held.len(),
{
    if held.len() > 0 {
        lemma_without_exits(held.drop_last(), pid);
        let fewer = without_exits(held.drop_last(), pid);
        let part = without_exits(held, pid);
        assert forall|i: int| 0 <= i < part.len() implies (#[trigger] part[i]).pid != pid
            && held.contains(part[i]) by {
            if i < fewer.len() {
                assert(part[i] == fewer[i]);
                let j = choose|j: int|
                    0 <= j < held.drop_last().len() && held.drop_last()[j] == fewer[i];
                assert(held[j] == part[i]);
            } else {
                assert(held[held.len() - 1] == part[i]);
            }
        }
    }
}

/// Something a process did never ends its own following.
proof fn lemma_alive_keeps(state: CollectorView, pid: i32, now: u64)
    ensures
        state.alive(pid, now).processes.contains(pid) == state.processes.contains(pid),
{
    let held = without_exits(state.held, pid);
    let cancelled = CollectorView { held, ..state };
    lemma_without_exits(state.held, pid);
    lemma_due(held, now, true);
    let exits = due(held, now, true);
    lemma_exited_frame(
        cancelled.holding(due(held, now, false)),
        exits,
        cancelled.waiting(Seq::empty()),
    );
    assert forall|i: int| 0 <= i < exits.len() implies (#[trigger] exits[i]).pid != pid by {
        assert(held.contains(exits[i]));
    }
}

pub struct Collector {
    root: i32,
    hold: u64,
    processes: HashSet<i32>,
    threads: HashMap<u64, i32>,
    names: HashMap<i32, String>,
    held_exits: Vec<HeldExit>,
    argv_retries: Vec<Retry>,
    dropped: u64,
    unnamed: u64,
}

impl View for Collector {
    type V = CollectorView;

    closed spec fn view(&self) -> CollectorView {
        CollectorView {
            root: self.root,
            hold: self.hold,
            processes: self.processes@,
            threads: self.threads@,
            names: self.names@.map_values(|name: String| name@),
            held: self.held_exits@,
            retries: self.argv_retries@,
            dropped: self.dropped,
            unnamed: self.unnamed,
        }
    }
}

impl Collector {
    /// The root is always followed.
    pub closed spec fn wf(&self) -> bool {
        self@.processes.contains(self@.root)
    }

    pub proof fn lemma_root_followed(&self)
        requires
            self.wf(),
        ensures
            self@.processes.contains(self@.root),
    {
    }

    /// Follows what `root` starts; an exit is held for `exit_hold` ticks.
    pub fn new(root: i32, exit_hold: u64) -> (collector: Self)
        ensures
            collector.wf(),
            collector@ == (CollectorView {
                root,
                hold: exit_hold,
                processes: set![root],
                threads: Map::empty(),
                names: Map::empty(),
                held: Seq::empty(),
                retries: Seq::empty(),
                dropped: 0,
                unnamed: 0,
            }),
    {
        let mut processes: HashSet<i32> = HashSet::new();
        processes.insert(root);
        let collector = Collector {
            root,
            hold: exit_hold,
            processes,
            threads: HashMap::new(),
            names: HashMap::new(),
            held_exits: Vec::new(),
            argv_retries: Vec::new(),
            dropped: 0,
            unnamed: 0,
        };
        assert(collector@.names =~= Map::empty());
        assert(collector@.processes =~= set![root]);
        collector
    }

    /// Threads that existed before tracing started.
    pub fn seed_threads(&mut self, map: &[(u64, i32)])
        requires
            old(self).wf(),
        ensures
            final(self).wf(),
            final(self)@ == (CollectorView {
                threads: seeded(old(self)@.threads, map@),
                ..old(self)@
            }),
    {
        for i in 0..map.len()
            invariant
                self.wf(),
                self@ == (CollectorView {
                    threads: seeded(old(self)@.threads, map@.take(i as int)),
                    ..old(self)@
                }),
        {
            let (thread, pid) = map[i];
            self.threads.insert(thread, pid);
            assert(map@.take(i + 1).drop_last() =~= map@.take(i as int));
        }
        assert(map@.take(map@.len() as int) =~= map@);
    }

    /// The process whose command line is to be read and handed to `observe`
    /// along with an event, if there is one.
    pub fn wants_command_line(&self, event: &kdebug::Event) -> (pid: Option<i32>)
        ensures
            pid == self@.asks_for(*event),
    {
        match self.threads.get(&event.thread) {
            Some(pid) => if event.code() == DATA_EXEC && self.processes.contains(pid) {
                Some(*pid)
            } else {
                None
            },
            None => None,
        }
    }

    /// How often the kernel dropped events because the buffer filled.
    pub fn dropped(&self) -> (dropped: u64)
        ensures
            dropped == self@.dropped,
    {
        self.dropped
    }

    /// Processes whose command line was gone before it could be read, and
    /// which are named after their program alone.
    pub fn unnamed(&self) -> (unnamed: u64)
        ensures
            unnamed == self@.unnamed,
    {
        self.unnamed
    }

    /// Takes note of an event: `line` is what could be read of the command
    /// line that it asks for. What the build did is added to `out`.
    pub fn observe(&mut self, event: &kdebug::Event, line: Option<CommandLine>, out: &mut Vec<Message>)
        requires
            old(self).wf(),
            event.kind() == LOST_EVENTS ==> old(self)@.dropped < u64::MAX,
            event.kind() == PROC_EXIT && event.ends() ==> event.timestamp + old(self)@.hold
                <= u64::MAX,
            old(self)@.unnamed + old(self)@.retries.len() <= u64::MAX,
        ensures
            final(self).wf(),
            final(self)@ == old(self)@.observed(*event, line_of(line)),
            message_views(final(out)@) == message_views(old(out)@) + old(self)@.observed_messages(
                *event,
                line_of(line),
            ),
    {
        let code: u32 = event.code();
        let ghost state = self@;
        let ghost before = message_views(out@);
        assert(before + Seq::<MessageView>::empty() =~= before);
        if code == NEWTHREAD {
            let child_thread: u64 = event.args[0];
            let pid: i32 = #[verifier::truncate] (event.args[1] as i32);
            let parent = match self.threads.get(&event.thread) {
                Some(parent) => Some(*parent),
                None => None,
            };
            self.threads.insert(child_thread, pid);
            if let Some(parent) = parent {
                self.cancel_exit(parent);
                if parent != pid {
                    if self.processes.contains(&parent) {
                        self.cancel_exit(pid);
                        self.processes.insert(pid);
                        let message = Message {
                            mach_time: event.timestamp,
                            pid: parent,
                            ppid: 0,
                            event: Event::Fork { child: pid },
                        };
                        out.push(message);
                        assert(message_views(out@) =~= before + seq![message@]);
                    } else if pid != self.root {
                        // Someone else now has this pid; stop following it.
                        self.processes.remove(&pid);
                    }
                }
            }
            return;
        }
        if code == LOST_EVENTS {
            self.dropped = self.dropped + 1;
            return;
        }
        let pid: i32 = match self.threads.get(&event.thread) {
            Some(pid) => *pid,
            None => {
                return;
            },
        };
        // Anything further from a pid means its reported exit was an image
        // being replaced, not the process ending.
        self.cancel_exit(pid);
        self.believe_exits(event.timestamp, out);
        assert(self@ == state.alive(pid, event.timestamp));
        if !self.processes.contains(&pid) {
            return;
        }
        let ghost alive = self@;
        let ghost so_far = message_views(out@);
        if code == DATA_EXEC {
            match line {
                Some(line) => {
                    let ghost read = line@;
                    let message = Message {
                        mach_time: event.timestamp,
                        pid,
                        ppid: 0,
                        event: Event::Exec { argv: line.argv, executable: line.executable },
                    };
                    out.push(message);
                    assert(message@ == exec_message(pid, event.timestamp, read));
                    assert(message_views(out@) =~= so_far.push(message@));
                    assert(so_far.push(message@) =~= before + state.alive_messages(
                        pid,
                        event.timestamp,
                    ).push(message@));
                },
                // Either the image is still being set up, or the process is
                // already gone. Come back to it: the kernel names the program
                // in the event after this one, so even giving up reads better
                // later.
                None => {
                    self.argv_retries.push(
                        Retry { pid, mach_time: event.timestamp, attempt: 1 },
                    );
                },
            }
        } else if code == STRING_EXEC {
            // The kernel names the new program right after the execution.
            let name = decode_string(event.args.as_slice());
            self.names.insert(pid, name);
            assert(self@.names =~= alive.names.insert(pid, name@));
        } else if code == PROC_EXIT && event.is_end() {
            let stat: i32 = #[verifier::truncate] (event.args[1] as i32);
            self.held_exits.push(
                HeldExit {
                    pid,
                    mach_time: event.timestamp,
                    stat,
                    believe_after: event.timestamp + self.hold,
                },
            );
        }
    }

    fn cancel_exit(&mut self, pid: i32)
        requires
            old(self).wf(),
        ensures
            final(self).wf(),
            final(self)@ == (CollectorView {
                held: without_exits(old(self)@.held, pid),
                ..old(self)@
            }),
    {
        let mut kept: Vec<HeldExit> = Vec::new();
        for i in 0..self.held_exits.len()
            invariant
                kept@ == without_exits(self.held_exits@.take(i as int), pid),
        {
            let exit = self.held_exits[i];
            assert(self.held_exits@.take(i + 1).drop_last() =~= self.held_exits@.take(i as int));
            if exit.pid != pid {
                kept.push(exit);
            }
        }
        assert(self.held_exits@.take(self.held_exits@.len() as int) =~= self.held_exits@);
        self.held_exits = kept;
    }

    fn believe_exits(&mut self, now: u64, out: &mut Vec<Message>)
        requires
            old(self).wf(),
            old(self)@.unnamed + old(self)@.retries.len() <= u64::MAX,
        ensures
            final(self).wf(),
            final(self)@ == old(self)@.believed(now),
            final(self)@.hold == old(self)@.hold,
            message_views(final(out)@) == message_views(old(out)@) + old(self)@.believed_messages(
                now,
            ),
    {
        let ghost state = self@;
        let ghost so_far = message_views(out@);
        let mut kept: Vec<HeldExit> = Vec::new();
        let mut believed: Vec<HeldExit> = Vec::new();
        for i in 0..self.held_exits.len()
            invariant
                kept@ == due(self.held_exits@.take(i as int), now, false),
                believed@ == due(self.held_exits@.take(i as int), now, true),
        {
            let exit = self.held_exits[i];
            assert(self.held_exits@.take(i + 1).drop_last() =~= self.held_exits@.take(i as int));
            if exit.believe_after <= now {
                believed.push(exit);
            } else {
                kept.push(exit);
            }
        }
        assert(self.held_exits@.take(self.held_exits@.len() as int) =~= self.held_exits@);
        self.held_exits = kept;
        if believed.len() == 0 {
            proof {
                assert(retries_of(state.waiting(Seq::empty())) =~= state.retries);
                assert(self@ =~= state.believed(now));
                assert(message_views(out@) =~= so_far + state.believed_messages(now));
            }
            return;
        }
        let pending = self.take_pending(Vec::new());
        assert(lines_of(Seq::<Option<CommandLine>>::empty()) =~= Seq::empty());
        proof {
            lemma_exited_frame(
                state.holding(kept@),
                believed@,
                state.waiting(Seq::empty()),
            );
        }
        let rest = self.emit_exits(believed.as_slice(), pending, out);
        let ghost left = pending_views(rest@);
        for i in 0..rest.len()
            invariant
                self.wf(),
                left == pending_views(rest@),
                self@ == (CollectorView {
                    retries: retries_of(left.take(i as int)),
                    ..state.holding(due(state.held, now, false)).exited(
                        due(state.held, now, true),
                        state.waiting(Seq::empty()),
                    )
                }),
        {
            self.argv_retries.push(rest[i].retry);
            assert(left[i as int] == rest@[i as int]@);
            assert(retries_of(left.take(i + 1)) =~= retries_of(left.take(i as int)).push(
                rest@[i as int].retry,
            ));
        }
        assert(left.take(left.len() as int) =~= left);
    }

    /// Takes the executions that wait, each with the command line that was
    /// read for it.
    fn take_pending(&mut self, lines: Vec<Option<CommandLine>>) -> (pending: Vec<Pending>)
        requires
            old(self).wf(),
        ensures
            final(self).wf(),
            final(self)@ == (CollectorView { retries: Seq::empty(), ..old(self)@ }),
            pending_views(pending@) == old(self)@.waiting(lines_of(lines@)),
            pending@.len() == old(self)@.retries.len(),
    {
        let ghost given = lines_of(lines@);
        let mut lines = lines;
        let mut retries: Vec<Retry> = Vec::new();
        std::mem::swap(&mut retries, &mut self.argv_retries);
        let mut pending: Vec<Pending> = Vec::new();
        assert(given.skip(0) =~= given);
        for i in 0..retries.len()
            invariant
                retries@ == old(self)@.retries,
                pending_views(pending@) =~= old(self)@.waiting(given).take(i as int),
                i < given.len() ==> lines_of(lines@) == given.skip(i as int),
                i >= given.len() ==> lines@.len() == 0,
        {
            let ghost left = lines@;
            let line = if lines.len() > 0 {
                lines.remove(0)
            } else {
                None
            };
            proof {
                if i < given.len() {
                    assert(lines_of(left).len() == left.len());
                    assert(lines_of(left)[0] == given.skip(i as int)[0]);
                    assert forall|j: int| 0 <= j < left.len() - 1 implies #[trigger] lines_of(
                        lines@,
                    )[j] == given.skip(i + 1)[j] by {
                        assert(lines_of(left)[j + 1] == given.skip(i as int)[j + 1]);
                    }
                    assert(lines_of(lines@) =~= given.skip(i + 1));
                }
            }
            let ghost paired = pending@;
            pending.push(Pending { retry: retries[i], line });
            proof {
                assert(pending_views(pending@) =~= pending_views(paired).push(
                    old(self)@.waiting(given)[i as int],
                ));
            }
        }
        assert(pending_views(pending@) =~= old(self)@.waiting(given));
        assert(pending_views(pending@).len() == pending@.len());
        pending
    }

    /// Reports some exits, each after the executions of its process. The other
    /// executions are handed back.
    fn emit_exits(
        &mut self,
        exits: &[HeldExit],
        pending: Vec<Pending>,
        out: &mut Vec<Message>,
    ) -> (rest: Vec<Pending>)
        requires
            old(self).wf(),
            old(self)@.unnamed + pending@.len() <= u64::MAX,
        ensures
            final(self).wf(),
            final(self)@ == old(self)@.exited(exits@, pending_views(pending@)),
            final(self)@.unnamed + rest@.len() <= old(self)@.unnamed + pending@.len(),
            pending_views(rest@) == left_over(exits@, pending_views(pending@)),
            message_views(final(out)@) == message_views(old(out)@) + old(self)@.exit_reports(
                exits@,
                pending_views(pending@),
            ),
    {
        let ghost all = pending_views(pending@);
        let mut rest = pending;
        assert(exits@.take(0) =~= Seq::<HeldExit>::empty());
        assert(message_views(out@) =~= message_views(out@) + self@.exit_reports(
            exits@.take(0),
            all,
        ));
        for i in 0..exits.len()
            invariant
                self.wf(),
                all.len() == pending@.len(),
                old(self)@.unnamed + pending@.len() <= u64::MAX,
                self@ == old(self)@.exited(exits@.take(i as int), all),
                self@.unnamed + rest@.len() <= old(self)@.unnamed + pending@.len(),
                pending_views(rest@) == left_over(exits@.take(i as int), all),
                message_views(out@) == message_views(old(out)@) + old(self)@.exit_reports(
                    exits@.take(i as int),
                    all,
                ),
        {
            let exit = exits[i];
            let ghost state = self@;
            let ghost mine = pending_of(pending_views(rest@), exit.pid, true);
            rest = self.emit_execs_of(exit.pid, rest, out);
            let ghost so_far = message_views(out@);
            if exit.pid != self.root {
                self.processes.remove(&exit.pid);
            }
            self.names.remove(&exit.pid);
            let message = Message {
                mach_time: exit.mach_time,
                pid: exit.pid,
                ppid: 0,
                event: Event::Exit { stat: exit.stat },
            };
            out.push(message);
            proof {
                assert(exits@.take(i + 1).drop_last() =~= exits@.take(i as int));
                assert(self@.names =~= state.names.remove(exit.pid));
                assert(message_views(out@) =~= so_far.push(message@));
                assert(message_views(old(out)@) + old(self)@.exit_reports(exits@.take(i + 1), all)
                    =~= so_far.push(exit_message(exit)));
            }
        }
        assert(exits@.take(exits@.len() as int) =~= exits@);
        rest
    }

    /// Reports the executions of a process; those of others are handed back.
    fn emit_execs_of(&mut self, pid: i32, pending: Vec<Pending>, out: &mut Vec<Message>) -> (others:
        Vec<Pending>)
        requires
            old(self).wf(),
            old(self)@.unnamed + pending@.len() <= u64::MAX,
        ensures
            final(self).wf(),
            final(self)@ == old(self)@.reported(pending_of(pending_views(pending@), pid, true)),
            final(self)@.unnamed + others@.len() <= old(self)@.unnamed + pending@.len(),
            pending_views(others@) == pending_of(pending_views(pending@), pid, false),
            message_views(final(out)@) == message_views(old(out)@) + old(self)@.exec_reports(
                pending_of(pending_views(pending@), pid, true),
            ),
    {
        let ghost all = pending_views(pending@);
        let ghost before = message_views(out@);
        let mut pending = pending;
        let mut others: Vec<Pending> = Vec::new();
        let ghost mut done: int = 0;
        assert(all.take(0) =~= Seq::<PendingView>::empty());
        assert(before + self@.exec_reports(Seq::empty()) =~= before);
        assert(pending_views(others@) =~= Seq::<PendingView>::empty());
        assert(all.skip(0) =~= all);
        while pending.len() > 0
            invariant
                self.wf(),
                0 <= done <= all.len(),
                old(self)@.unnamed + all.len() <= u64::MAX,
                pending_views(pending@) == all.skip(done),
                self@ == old(self)@.reported(pending_of(all.take(done), pid, true)),
                pending_views(others@) == pending_of(all.take(done), pid, false),
                message_views(out@) == before + old(self)@.exec_reports(
                    pending_of(all.take(done), pid, true),
                ),
            decreases pending@.len(),
        {
            let ghost left = pending@;
            let next = pending.remove(0);
            let ghost mine = pending_of(all.take(done), pid, true);
            proof {
                lemma_next_pending(left, all, done);
                assert(all.take(done + 1).drop_last() =~= all.take(done));
                lemma_pending_of(all.take(done), pid);
                lemma_unread(mine);
            }
            if next.retry.pid == pid {
                assert(mine.push(next@).drop_last() =~= mine);
                self.emit_exec(next, out);
                assert(old(self)@.exec_reports(mine.push(all[done])) =~= old(self)@.exec_reports(
                    mine,
                ).push(old(self)@.exec_report(all[done])));
                assert(message_views(out@) =~= before + old(self)@.exec_reports(
                    mine.push(all[done]),
                ));
            } else {
                let ghost kept = others@;
                others.push(next);
                assert(pending_views(others@) =~= pending_views(kept).push(next@));
            }
            proof {
                done = done + 1;
            }
        }
        assert(all.take(done) =~= all);
        proof {
            lemma_pending_of(all, pid);
            lemma_unread(pending_of(all, pid, true));
        }
        others
    }

    /// Reports some executions.
    fn emit_execs(&mut self, pending: Vec<Pending>, out: &mut Vec<Message>)
        requires
            old(self).wf(),
            old(self)@.unnamed + pending@.len() <= u64::MAX,
        ensures
            final(self).wf(),
            final(self)@ == old(self)@.reported(pending_views(pending@)),
            message_views(final(out)@) == message_views(old(out)@) + old(self)@.exec_reports(
                pending_views(pending@),
            ),
    {
        let ghost all = pending_views(pending@);
        let ghost before = message_views(out@);
        let mut pending = pending;
        let ghost mut done: int = 0;
        assert(all.take(0) =~= Seq::<PendingView>::empty());
        assert(before + self@.exec_reports(Seq::empty()) =~= before);
        assert(all.skip(0) =~= all);
        while pending.len() > 0
            invariant
                self.wf(),
                0 <= done <= all.len(),
                old(self)@.unnamed + all.len() <= u64::MAX,
                pending_views(pending@) == all.skip(done),
                self@ == old(self)@.reported(all.take(done)),
                message_views(out@) == before + old(self)@.exec_reports(all.take(done)),
            decreases pending@.len(),
        {
            let ghost left = pending@;
            let next = pending.remove(0);
            proof {
                lemma_next_pending(left, all, done);
                assert(all.take(done + 1).drop_last() =~= all.take(done));
                lemma_unread(all.take(done));
            }
            self.emit_exec(next, out);
            assert(message_views(out@) =~= before + old(self)@.exec_reports(all.take(done + 1)));
            proof {
                done = done + 1;
            }
        }
        assert(all.take(done) =~= all);
    }

    /// Reports an execution, after its program alone if its command line is
    /// missing.
    fn emit_exec(&mut self, pending: Pending, out: &mut Vec<Message>)
        requires
            old(self).wf(),
            old(self)@.unnamed < u64::MAX,
        ensures
            final(self).wf(),
            final(self)@ == (CollectorView {
                unnamed: (old(self)@.unnamed + if pending@.line is None {
                    1int
                } else {
                    0
                }) as u64,
                ..old(self)@
            }),
            message_views(final(out)@) == message_views(old(out)@).push(
                old(self)@.exec_report(pending@),
            ),
    {
        let ghost before = message_views(out@);
        let Pending { retry, line } = pending;
        match line {
            Some(line) => {
                let ghost read = line@;
                let message = Message {
                    mach_time: retry.mach_time,
                    pid: retry.pid,
                    ppid: 0,
                    event: Event::Exec { argv: line.argv, executable: line.executable },
                };
                out.push(message);
                assert(message@ == exec_message(retry.pid, retry.mach_time, read));
                assert(message_views(out@) =~= before.push(message@));
            },
            // Gone before its command line could be read.
            None => self.emit_named_exec(retry.pid, retry.mach_time, out),
        }
    }
}

/// Threads with more of them known; later ones win.
pub open spec fn seeded(threads: Map<u64, i32>, map: Seq<(u64, i32)>) -> Map<u64, i32>
    decreases map.len(),
{
    if map.len() == 0 {
        threads
    } else {
        seeded(threads, map.drop_last()).insert(map.last().0, map.last().1)
    }
}

proof fn lemma_settled(pending: Seq<PendingView>)
    ensures
        unread(settled(pending)) <= settled(pending).len() <= pending.len(),
        forall|pid: i32| #[trigger] exec_of(settled(pending), pid) ==> exec_of(pending, pid),
        forall|i: int|
            0 <= i < unsettled(pending).len() ==> exec_of(
                pending,
                (#[trigger] unsettled(pending)[i]).pid,
            ),
    decreases pending.len(),
{
    if pending.len() > 0 {
        let fewer = pending.drop_last();
        lemma_settled(fewer);
        lemma_unread(settled(pending));
        assert(pending[pending.len() - 1] == pending.last());
        assert forall|pid: i32| exec_of(fewer, pid) implies #[trigger] exec_of(pending, pid) by {
            let i = choose|i: int| 0 <= i < fewer.len() && (#[trigger] fewer[i]).retry.pid == pid;
            assert(pending[i] == fewer[i]);
        }
        assert forall|pid: i32| #[trigger] exec_of(settled(pending), pid) implies exec_of(
            pending,
            pid,
        ) by {
            let part = settled(pending);
            let i = choose|i: int| 0 <= i < part.len() && (#[trigger] part[i]).retry.pid == pid;
            if i < settled(fewer).len() {
                assert(settled(fewer)[i] == part[i]);
                assert(exec_of(settled(fewer), pid));
            }
        }
        assert forall|i: int| 0 <= i < unsettled(pending).len() implies exec_of(
            pending,
            (#[trigger] unsettled(pending)[i]).pid,
        ) by {
            if i < unsettled(fewer).len() {
                assert(unsettled(fewer)[i] == unsettled(pending)[i]);
                assert(exec_of(fewer, unsettled(fewer)[i].pid));
            }
        }
    }
}

impl Collector {
    /// The executions whose command lines are to be read again and handed to
    /// `tick` or `flush`, in this order.
    pub fn retries(&self) -> (retries: Vec<Retry>)
        ensures
            retries@ == self@.retries,
    {
        let mut retries: Vec<Retry> = Vec::new();
        for i in 0..self.argv_retries.len()
            invariant
                retries@ =~= self.argv_retries@.take(i as int),
        {
            retries.push(self.argv_retries[i]);
        }
        assert(self.argv_retries@.take(self.argv_retries@.len() as int) =~= self.argv_retries@);
        retries
    }

    /// Follows up the command lines that were not ready yet.
    pub fn tick(&mut self, lines: Vec<Option<CommandLine>>, out: &mut Vec<Message>)
        requires
            old(self).wf(),
            old(self)@.unnamed + old(self)@.retries.len() <= u64::MAX,
        ensures
            final(self).wf(),
            final(self)@ == old(self)@.ticked(lines_of(lines@)),
            message_views(final(out)@) == message_views(old(out)@) + old(self)@.ticked_messages(
                lines_of(lines@),
            ),
    {
        let ghost state = self@;
        let ghost before = message_views(out@);
        let mut pending = self.take_pending(lines);
        let ghost all = pending_views(pending@);
        let ghost mut done: int = 0;
        assert(all.take(0) =~= Seq::<PendingView>::empty());
        assert(before + self@.exec_reports(Seq::empty()) =~= before);
        assert(all.skip(0) =~= all);
        while pending.len() > 0
            invariant
                self.wf(),
                0 <= done <= all.len(),
                all == state.waiting(lines_of(lines@)),
                state.unnamed + all.len() <= u64::MAX,
                pending_views(pending@) == all.skip(done),
                self@ == (CollectorView {
                    retries: unsettled(all.take(done)),
                    ..state.reported(settled(all.take(done)))
                }),
                message_views(out@) == before + state.exec_reports(settled(all.take(done))),
            decreases pending@.len(),
        {
            let ghost left = pending@;
            let next = pending.remove(0);
            let ghost so_far = settled(all.take(done));
            proof {
                lemma_next_pending(left, all, done);
                assert(all.take(done + 1).drop_last() =~= all.take(done));
                lemma_settled(all.take(done));
                assert(so_far.push(all[done]).drop_last() =~= so_far);
            }
            if next.line.is_none() && next.retry.attempt < ARGV_ATTEMPTS - 1 {
                let Retry { pid, mach_time, attempt } = next.retry;
                self.argv_retries.push(Retry { pid, mach_time, attempt: attempt + 1 });
            } else {
                self.emit_exec(next, out);
                assert(message_views(out@) =~= before + state.exec_reports(
                    so_far.push(all[done]),
                ));
            }
            proof {
                done = done + 1;
            }
        }
        assert(all.take(done) =~= all);
    }

    /// Gives out everything still held back, at the end of a recording.
    pub fn flush(&mut self, lines: Vec<Option<CommandLine>>, out: &mut Vec<Message>)
        requires
            old(self).wf(),
            old(self)@.unnamed + old(self)@.retries.len() <= u64::MAX,
        ensures
            final(self).wf(),
            final(self)@ == old(self)@.flushed(lines_of(lines@)),
            message_views(final(out)@) == message_views(old(out)@) + old(self)@.flushed_messages(
                lines_of(lines@),
            ),
    {
        let ghost state = self@;
        let pending = self.take_pending(lines);
        let mut exits: Vec<HeldExit> = Vec::new();
        std::mem::swap(&mut exits, &mut self.held_exits);
        assert(self@ =~= state.holding(Seq::empty()));
        let rest = self.emit_exits(exits.as_slice(), pending, out);
        self.emit_execs(rest, out);
        assert(message_views(out@) =~= message_views(old(out)@) + state.flushed_messages(
            lines_of(lines@),
        ));
    }

    /// Pids the build started that have not been seen to exit, in no
    /// particular order.
    pub fn live_pids(&self) -> (pids: Vec<i32>)
        ensures
            pids@.no_duplicates(),
            pids@.to_set() == self@.processes,
    {
        let mut pids: Vec<i32> = Vec::new();
        for pid in iter: self.processes.iter()
            invariant
                pids@ == iter.seq().unref().take(iter.index() as int),
        {
            pids.push(*pid);
            assert(pids@ =~= iter.seq().unref().take(iter.index() + 1));
        }
        assert(pids@ =~= vstd::std_specs::iter::IteratorSpec::remaining(
            &self.processes.iter(),
        ).unref());
        pids
    }

    /// Reports an execution the kernel named but whose arguments are lost.
    fn emit_named_exec(&mut self, pid: i32, mach_time: u64, out: &mut Vec<Message>)
        requires
            old(self).wf(),
            old(self)@.unnamed < u64::MAX,
        ensures
            final(self).wf(),
            final(self)@ == (CollectorView {
                unnamed: (old(self)@.unnamed + 1) as u64,
                ..old(self)@
            }),
            message_views(final(out)@) == message_views(old(out)@).push(
                exec_message(pid, mach_time, old(self)@.named(pid)),
            ),
    {
        let ghost before = message_views(out@);
        self.unnamed = self.unnamed + 1;
        let executable = match self.names.get(&pid) {
            Some(name) => name.clone(),
            None => String::new(),
        };
        let mut argv: Vec<String> = Vec::new();
        argv.push(executable.clone());
        assert(views(argv@) =~= seq![executable@]);
        let message = Message {
            mach_time,
            pid,
            ppid: 0,
            event: Event::Exec { argv, executable },
        };
        out.push(message);
        assert(message@ == exec_message(pid, mach_time, old(self)@.named(pid)));
        assert(message_views(out@) =~= before.push(message@));
    }
}

/// Whether a run of reports says that a process was created.
pub open spec fn created(reports: Seq<MessageView>, pid: i32) -> bool {
    exists|i: int|
        0 <= i < reports.len() && (#[trigger] reports[i]).event == (EventView::Fork { child: pid })
}

/// Whether a run of reports says that a process ended.
pub open spec fn ended(reports: Seq<MessageView>, pid: i32) -> bool {
    exists|i: int|
        0 <= i < reports.len() && (#[trigger] reports[i]).pid == pid && reports[i].event is Exit
}

/// Only what the build starts is followed: an event adds at most the process
/// that a followed one created, and the root is never let go.
pub proof fn lemma_only_descendants_followed(
    state: CollectorView,
    event: kdebug::Event,
    line: Option<CommandLineView>,
    pid: i32,
)
    requires
        state.processes.contains(state.root),
    ensures
        ({
            let after = state.observed(event, line);
            &&& after.root == state.root
            &&& after.processes.contains(after.root)
            &&& after.processes.contains(pid) && !state.processes.contains(pid) ==> {
                &&& event.kind() == NEWTHREAD
                &&& event.args@[1] as i32 == pid
                &&& state.owner(event.thread) is Some
                &&& state.processes.contains(state.owner(event.thread)->0)
            }
        }),
{
    if let Some(owner) = state.owner(event.thread) {
        lemma_alive(state, owner, event.timestamp);
    }
}

proof fn lemma_alive(state: CollectorView, pid: i32, now: u64)
    ensures
        ({
            let after = state.alive(pid, now);
            let messages = state.alive_messages(pid, now);
            let held = without_exits(state.held, pid);
            let exits = due(held, now, true);
            &&& after == (CollectorView {
                processes: after.processes,
                names: after.names,
                held: due(held, now, false),
                retries: after.retries,
                unnamed: after.unnamed,
                ..state
            })
            &&& !exit_of(exits, pid)
            &&& forall|other: i32| #[trigger]
                exit_of(exits, other) ==> other != pid && exit_of(state.held, other)
            &&& forall|other: i32| #[trigger]
                exit_of(after.held, other) ==> other != pid && exit_of(state.held, other)
            &&& forall|other: i32|
                #![trigger after.processes.contains(other)]
                #![trigger state.processes.contains(other)]
                after.processes.contains(other) <==> state.processes.contains(other) && (other
                    == state.root || !ended(messages, other))
            &&& forall|i: int|
                #![trigger messages[i]]
                0 <= i < messages.len() ==> {
                    &&& messages[i].ppid == 0
                    &&& messages[i].event is Exit || messages[i].event is Exec
                    &&& messages[i].pid != pid
                    &&& exit_of(state.held, messages[i].pid)
                }
            &&& forall|i: int, j: int|
                0 <= i < j < messages.len() && (#[trigger] messages[i]).event is Exit && (
                #[trigger] messages[j]).event is Exec ==> messages[i].pid != messages[j].pid
            &&& forall|i: int|
                0 <= i < after.retries.len() ==> retry_of(
                    state.retries,
                    (#[trigger] after.retries[i]).pid,
                ) && !ended(messages, after.retries[i].pid)
        }),
{
    let held = without_exits(state.held, pid);
    let cancelled = CollectorView { held, ..state };
    let exits = due(held, now, true);
    let kept = due(held, now, false);
    let pending = cancelled.waiting(Seq::empty());
    let after = state.alive(pid, now);
    let messages = state.alive_messages(pid, now);
    lemma_without_exits(state.held, pid);
    lemma_due(held, now, true);
    lemma_due(held, now, false);
    lemma_exited_frame(cancelled.holding(kept), exits, pending);
    lemma_exit_reports(cancelled.holding(kept), exits, pending);
    lemma_left_over(exits, pending);
    assert forall|other: i32| #[trigger] exit_of(exits, other) implies other != pid && exit_of(
        state.held,
        other,
    ) by {
        let i = choose|i: int| 0 <= i < exits.len() && (#[trigger] exits[i]).pid == other;
        assert(held.contains(exits[i]));
        let j = choose|j: int| 0 <= j < held.len() && held[j] == exits[i];
        assert(state.held.contains(held[j]));
    }
    assert forall|other: i32| #[trigger] exit_of(kept, other) implies other != pid && exit_of(
        state.held,
        other,
    ) by {
        let i = choose|i: int| 0 <= i < kept.len() && (#[trigger] kept[i]).pid == other;
        assert(held.contains(kept[i]));
        let j = choose|j: int| 0 <= j < held.len() && held[j] == kept[i];
        assert(state.held.contains(held[j]));
    }
    assert forall|other: i32| after.processes.contains(other) <==> state.processes.contains(other)
        && (other == state.root || !ended(messages, other)) by {
        assert(ended(messages, other) <==> exit_of(exits, other));
        assert(cancelled.holding(kept).exited(exits, pending).processes.contains(other)
            <==> state.processes.contains(other) && (other == state.root || !exit_of(exits, other)));
    }
    let rest = left_over(exits, pending);
    assert forall|i: int| 0 <= i < after.retries.len() implies retry_of(
        state.retries,
        (#[trigger] after.retries[i]).pid,
    ) && !ended(messages, after.retries[i].pid) by {
        let other = after.retries[i].pid;
        assert(rest[i].retry.pid == other);
        assert(exec_of(rest, other));
        assert(ended(messages, other) <==> exit_of(exits, other));
        lemma_waiting(cancelled, Seq::empty(), other);
    }
}

/// Whether one of some executions that wait is that of a process.
spec fn retry_of(retries: Seq<Retry>, pid: i32) -> bool {
    exists|i: int| 0 <= i < retries.len() && (#[trigger] retries[i]).pid == pid
}

proof fn lemma_waiting(state: CollectorView, lines: Seq<Option<CommandLineView>>, pid: i32)
    ensures
        exec_of(state.waiting(lines), pid) <==> retry_of(state.retries, pid),
{
    let pending = state.waiting(lines);
    if exec_of(pending, pid) {
        let i = choose|i: int| 0 <= i < pending.len() && (#[trigger] pending[i]).retry.pid == pid;
        assert(state.retries[i].pid == pid);
    }
    if retry_of(state.retries, pid) {
        let i = choose|i: int|
            0 <= i < state.retries.len() && (#[trigger] state.retries[i]).pid == pid;
        assert(pending[i].retry.pid == pid);
    }
}

/// An exit is only believed when nothing follows it: once a process does
/// anything more, starting a thread included, no exit of it that was reported
/// before is held any longer, and none is passed on.
pub proof fn lemma_exit_cancelled_by_activity(
    state: CollectorView,
    event: kdebug::Event,
    line: Option<CommandLineView>,
    pid: i32,
)
    requires
        state.owner(event.thread) == Some(pid),
        event.kind() != LOST_EVENTS,
    ensures
        ({
            let messages = state.observed_messages(event, line);
            let held = state.observed(event, line).held;
            &&& forall|i: int|
                0 <= i < messages.len() && (#[trigger] messages[i]).event is Exit
                    ==> messages[i].pid != pid
            &&& forall|i: int|
                0 <= i < held.len() && (#[trigger] held[i]).pid == pid ==> held[i].mach_time
                    == event.timestamp && event.kind() == PROC_EXIT && event.ends()
        }),
{
    lemma_alive(state, pid, event.timestamp);
    let messages = state.observed_messages(event, line);
    let said = state.alive_messages(pid, event.timestamp);
    assert forall|i: int| 0 <= i < messages.len() && (#[trigger] messages[i]).event is Exit implies messages[i].pid
        != pid by {
        if event.kind() != NEWTHREAD {
            assert(i < said.len());
            assert(messages[i] == said[i]);
        }
    }
    let after = state.observed(event, line).held;
    let held = without_exits(state.held, pid);
    let kept = state.alive(pid, event.timestamp).held;
    let child = event.args@[1] as i32;
    lemma_without_exits(state.held, pid);
    lemma_without_exits(held, child);
    assert forall|i: int| 0 <= i < after.len() && (#[trigger] after[i]).pid == pid implies after[i].mach_time
        == event.timestamp && event.kind() == PROC_EXIT && event.ends() by {
        if event.kind() == NEWTHREAD {
            assert(held.contains(after[i]));
        } else if i < kept.len() {
            assert(after[i] == kept[i]);
            assert(exit_of(kept, pid));
        }
    }
}

/// A command line matters to an event only if the collector asked for it.
pub proof fn lemma_command_line_asked_for(
    state: CollectorView,
    event: kdebug::Event,
    line: Option<CommandLineView>,
)
    requires
        state.asks_for(event) is None,
    ensures
        state.observed(event, line) == state.observed(event, None),
        state.observed_messages(event, line) == state.observed_messages(event, None),
{
    if let Some(owner) = state.owner(event.thread) {
        lemma_alive_keeps(state, owner, event.timestamp);
    }
}

/// What a collector is given at one moment.
pub enum Input {
    Threads { map: Seq<(u64, i32)> },
    Event { event: kdebug::Event, line: Option<CommandLineView> },
    Tick { lines: Seq<Option<CommandLineView>> },
    Flush { lines: Seq<Option<CommandLineView>> },
}

impl CollectorView {
    /// After one input.
    pub open spec fn given(self, input: Input) -> CollectorView {
        match input {
            Input::Threads { map } => CollectorView {
                threads: seeded(self.threads, map),
                ..self
            },
            Input::Event { event, line } => self.observed(event, line),
            Input::Tick { lines } => self.ticked(lines),
            Input::Flush { lines } => self.flushed(lines),
        }
    }

    /// What one input makes a collector report.
    pub open spec fn given_messages(self, input: Input) -> Seq<MessageView> {
        match input {
            Input::Threads { .. } => Seq::empty(),
            Input::Event { event, line } => self.observed_messages(event, line),
            Input::Tick { lines } => self.ticked_messages(lines),
            Input::Flush { lines } => self.flushed_messages(lines),
        }
    }

    /// After a run of inputs.
    pub open spec fn after(self, inputs: Seq<Input>) -> CollectorView
        decreases inputs.len(),
    {
        if inputs.len() == 0 {
            self
        } else {
            self.after(inputs.drop_last()).given(inputs.last())
        }
    }

    /// What a run of inputs makes a collector report.
    pub open spec fn reports(self, inputs: Seq<Input>) -> Seq<MessageView>
        decreases inputs.len(),
    {
        if inputs.len() == 0 {
            Seq::empty()
        } else {
            self.reports(inputs.drop_last()) + self.after(inputs.drop_last()).given_messages(
                inputs.last(),
            )
        }
    }

    /// Whether a process is followed, or something of it is held back.
    spec fn concerns(self, pid: i32) -> bool {
        self.processes.contains(pid) || exit_of(self.held, pid) || retry_of(self.retries, pid)
    }
}

impl CollectorView {
    /// Whether an event shows that a process nobody follows created another
    /// one under this pid, so that its old holder is no longer followed.
    pub open spec fn lets_go(self, event: kdebug::Event, pid: i32) -> bool {
        &&& event.kind() == NEWTHREAD
        &&& event.args@[1] as i32 == pid
        &&& self.owner(event.thread) is Some
        &&& self.owner(event.thread)->0 != pid
        &&& !self.processes.contains(self.owner(event.thread)->0)
    }
}

/// What a step of a collector keeps to.
spec fn sound_step(
    state: CollectorView,
    after: CollectorView,
    messages: Seq<MessageView>,
    input: Input,
) -> bool {
    &&& after.root == state.root
    &&& after.processes.contains(after.root)
    &&& forall|i: int|
        #![trigger messages[i]]
        0 <= i < messages.len() ==> state.concerns(messages[i].pid) && messages[i].ppid == 0
    &&& forall|pid: i32| #[trigger]
        after.concerns(pid) ==> state.concerns(pid) || created(messages, pid)
    &&& forall|pid: i32| #[trigger]
        after.processes.contains(pid) ==> state.processes.contains(pid) || created(messages, pid)
    &&& forall|pid: i32| #[trigger] created(messages, pid) ==> after.processes.contains(pid)
    &&& forall|pid: i32|
        state.processes.contains(pid) && !#[trigger] after.processes.contains(pid) ==> pid
            != state.root && (ended(messages, pid) || (input matches Input::Event { event, .. }
            && state.lets_go(event, pid)))
    &&& forall|pid: i32|
        pid != state.root && #[trigger] ended(messages, pid) ==> !after.processes.contains(pid)
    &&& forall|i: int, j: int|
        0 <= i < j < messages.len() && (#[trigger] messages[i]).event is Exit && (
        #[trigger] messages[j]).event is Exec ==> messages[i].pid != messages[j].pid
    &&& forall|i: int|
        0 <= i < after.retries.len() ==> !ended(messages, (#[trigger] after.retries[i]).pid)
}

proof fn lemma_observed(state: CollectorView, event: kdebug::Event, line: Option<CommandLineView>)
    requires
        state.processes.contains(state.root),
    ensures
        sound_step(
            state,
            state.observed(event, line),
            state.observed_messages(event, line),
            Input::Event { event, line },
        ),
{
    let after = state.observed(event, line);
    let messages = state.observed_messages(event, line);
    if let Some(owner) = state.owner(event.thread) {
        if event.kind() == NEWTHREAD {
            let child = event.args@[1] as i32;
            let held = without_exits(state.held, owner);
            lemma_without_exits(state.held, owner);
            lemma_without_exits(held, child);
            if owner != child && state.processes.contains(owner) {
                assert(messages[0].event == (EventView::Fork { child }));
                assert(created(messages, child));
            }
            assert forall|pid: i32| #[trigger] after.concerns(pid) implies state.concerns(pid)
                || created(messages, pid) by {
                if exit_of(after.held, pid) {
                    let i = choose|i: int|
                        0 <= i < after.held.len() && (#[trigger] after.held[i]).pid == pid;
                    assert(held.contains(after.held[i]) || state.held.contains(after.held[i]));
                    if held.contains(after.held[i]) {
                        let j = choose|j: int| 0 <= j < held.len() && held[j] == after.held[i];
                        assert(state.held.contains(held[j]));
                    }
                    let k = choose|k: int|
                        0 <= k < state.held.len() && state.held[k] == after.held[i];
                    assert(state.held[k].pid == pid);
                }
            }
        } else if event.kind() != LOST_EVENTS {
            lemma_alive(state, owner, event.timestamp);
            let alive = state.alive(owner, event.timestamp);
            let said = state.alive_messages(owner, event.timestamp);
            assert forall|i: int| 0 <= i < said.len() implies #[trigger] messages[i] == said[i] by {
            }
            assert forall|pid: i32| #[trigger] ended(messages, pid) <==> ended(said, pid) by {
                if ended(said, pid) {
                    let i = choose|i: int|
                        0 <= i < said.len() && (#[trigger] said[i]).pid == pid
                            && said[i].event is Exit;
                    assert(messages[i] == said[i]);
                }
                if ended(messages, pid) {
                    let i = choose|i: int|
                        0 <= i < messages.len() && (#[trigger] messages[i]).pid == pid
                            && messages[i].event is Exit;
                    assert(messages[i] == said[i]);
                }
            }
            assert(!ended(said, owner));
            assert forall|i: int|
                #![trigger messages[i]]
                0 <= i < messages.len() implies state.concerns(messages[i].pid)
                && messages[i].ppid == 0 by {
                if i < said.len() {
                    assert(messages[i] == said[i]);
                }
            }
            assert forall|pid: i32| #[trigger] after.concerns(pid) implies state.concerns(pid) by {
                if exit_of(after.held, pid) && pid != owner {
                    let i = choose|i: int|
                        0 <= i < after.held.len() && (#[trigger] after.held[i]).pid == pid;
                    assert(after.held[i] == alive.held[i]);
                    assert(exit_of(alive.held, pid));
                }
                if retry_of(after.retries, pid) && pid != owner {
                    let i = choose|i: int|
                        0 <= i < after.retries.len() && (#[trigger] after.retries[i]).pid == pid;
                    assert(after.retries[i] == alive.retries[i]);
                }
                if pid == owner && !state.processes.contains(owner) {
                    assert(!alive.processes.contains(owner));
                    if exit_of(alive.held, pid) {
                        assert(false);
                    }
                    if retry_of(alive.retries, pid) {
                        let i = choose|i: int|
                            0 <= i < alive.retries.len() && (#[trigger] alive.retries[i]).pid == pid;
                        assert(retry_of(state.retries, alive.retries[i].pid));
                    }
                }
            }
            assert forall|i: int, j: int|
                0 <= i < j < messages.len() && (#[trigger] messages[i]).event is Exit && (
                #[trigger] messages[j]).event is Exec implies messages[i].pid
                != messages[j].pid by {
                assert(messages[i] == said[i]);
                if j < said.len() {
                    assert(messages[j] == said[j]);
                }
            }
            assert forall|i: int| 0 <= i < after.retries.len() implies !ended(
                messages,
                (#[trigger] after.retries[i]).pid,
            ) by {
                if i < alive.retries.len() {
                    assert(after.retries[i] == alive.retries[i]);
                }
            }
            assert forall|pid: i32| !#[trigger] created(messages, pid) by {
                if created(messages, pid) {
                    let i = choose|i: int|
                        0 <= i < messages.len() && (#[trigger] messages[i]).event
                            == (EventView::Fork { child: pid });
                    if i < said.len() {
                        assert(messages[i] == said[i]);
                    }
                }
            }
        }
    }
}

proof fn lemma_ticked(state: CollectorView, lines: Seq<Option<CommandLineView>>)
    requires
        state.processes.contains(state.root),
    ensures
        sound_step(
            state,
            state.ticked(lines),
            state.ticked_messages(lines),
            Input::Tick { lines },
        ),
{
    let pending = state.waiting(lines);
    let after = state.ticked(lines);
    let messages = state.ticked_messages(lines);
    lemma_settled(pending);
    assert forall|i: int| 0 <= i < messages.len() implies (#[trigger] messages[i]).event is Exec
        && messages[i].ppid == 0 && retry_of(state.retries, messages[i].pid) by {
        assert(messages[i].pid == settled(pending)[i].retry.pid);
        assert(exec_of(settled(pending), messages[i].pid));
        lemma_waiting(state, lines, messages[i].pid);
    }
    assert forall|pid: i32| #[trigger] after.concerns(pid) implies state.concerns(pid) by {
        if retry_of(after.retries, pid) {
            let i = choose|i: int|
                0 <= i < after.retries.len() && (#[trigger] after.retries[i]).pid == pid;
            assert(exec_of(pending, unsettled(pending)[i].pid));
            lemma_waiting(state, lines, pid);
        }
    }
}

proof fn lemma_flushed(state: CollectorView, lines: Seq<Option<CommandLineView>>)
    requires
        state.processes.contains(state.root),
    ensures
        sound_step(
            state,
            state.flushed(lines),
            state.flushed_messages(lines),
            Input::Flush { lines },
        ),
        state.flushed(lines).held == Seq::<HeldExit>::empty(),
        state.flushed(lines).retries == Seq::<Retry>::empty(),
{
    let base = state.holding(Seq::empty());
    let pending = state.waiting(lines);
    let rest = left_over(state.held, pending);
    let drained = state.drained(lines);
    let said = base.exit_reports(state.held, pending);
    let named = drained.exec_reports(rest);
    let after = state.flushed(lines);
    let messages = state.flushed_messages(lines);
    lemma_exited_frame(base, state.held, pending);
    lemma_exit_reports(base, state.held, pending);
    lemma_left_over(state.held, pending);
    assert forall|i: int| 0 <= i < messages.len() implies (#[trigger] messages[i]) == (if i
        < said.len() {
        said[i]
    } else {
        named[i - said.len()]
    }) by {
    }
    assert forall|i: int| 0 <= i < named.len() implies (#[trigger] named[i]).event is Exec
        && named[i].ppid == 0 && retry_of(state.retries, named[i].pid) && !exit_of(
        state.held,
        named[i].pid,
    ) by {
        assert(named[i].pid == rest[i].retry.pid);
        assert(exec_of(rest, named[i].pid));
        lemma_waiting(state, lines, named[i].pid);
    }
    assert forall|i: int|
        #![trigger messages[i]]
        0 <= i < messages.len() implies state.concerns(messages[i].pid) && messages[i].ppid == 0
        && !(messages[i].event is Fork) by {
        if i < said.len() {
            assert(messages[i] == said[i]);
        } else {
            assert(messages[i] == named[i - said.len()]);
        }
    }
    assert forall|pid: i32| #[trigger] ended(messages, pid) <==> exit_of(state.held, pid) by {
        assert(ended(said, pid) <==> exit_of(state.held, pid));
        if ended(said, pid) {
            let i = choose|i: int|
                0 <= i < said.len() && (#[trigger] said[i]).pid == pid && said[i].event is Exit;
            assert(messages[i] == said[i]);
        }
        if ended(messages, pid) {
            let i = choose|i: int|
                0 <= i < messages.len() && (#[trigger] messages[i]).pid == pid
                    && messages[i].event is Exit;
            if i < said.len() {
                assert(messages[i] == said[i]);
            } else {
                assert(messages[i] == named[i - said.len()]);
            }
        }
    }
    assert forall|i: int, j: int|
        0 <= i < j < messages.len() && (#[trigger] messages[i]).event is Exit && (
        #[trigger] messages[j]).event is Exec implies messages[i].pid != messages[j].pid by {
        if i >= said.len() {
            assert(messages[i] == named[i - said.len()]);
        } else if j < said.len() {
            assert(messages[i] == said[i] && messages[j] == said[j]);
        } else {
            assert(messages[i] == said[i]);
            assert(messages[j] == named[j - said.len()]);
        }
    }
    assert forall|pid: i32| !#[trigger] created(messages, pid) by {
        if created(messages, pid) {
            let i = choose|i: int|
                0 <= i < messages.len() && (#[trigger] messages[i]).event == (EventView::Fork {
                    child: pid,
                });
            assert(!(messages[i].event is Fork));
        }
    }
    assert forall|pid: i32| after.processes.contains(pid) <==> state.processes.contains(pid) && (pid
        == state.root || !exit_of(state.held, pid)) by {
        assert(drained.processes.contains(pid) <==> base.processes.contains(pid) && (pid
            == base.root || !exit_of(state.held, pid)));
    }
}

proof fn lemma_step(state: CollectorView, input: Input)
    requires
        state.processes.contains(state.root),
    ensures
        sound_step(state, state.given(input), state.given_messages(input), input),
{
    match input {
        Input::Threads { .. } => {},
        Input::Event { event, line } => {
            lemma_observed(state, event, line);
            lemma_only_descendants_followed(state, event, line, state.root);
        },
        Input::Tick { lines } => lemma_ticked(state, lines),
        Input::Flush { lines } => lemma_flushed(state, lines),
    }
}

/// What a process ran is reported before its end: an exit that is reported
/// leaves no execution of its process to be reported after it, neither in the
/// same step nor later.
pub proof fn lemma_executions_reported_before_exit(state: CollectorView, input: Input)
    requires
        state.processes.contains(state.root),
    ensures
        ({
            let messages = state.given_messages(input);
            let retries = state.given(input).retries;
            &&& forall|i: int, j: int|
                0 <= i < j < messages.len() && (#[trigger] messages[i]).event is Exit && (
                #[trigger] messages[j]).event is Exec ==> messages[i].pid != messages[j].pid
            &&& forall|i: int|
                0 <= i < retries.len() ==> !ended(messages, (#[trigger] retries[i]).pid)
        }),
{
    lemma_step(state, input);
}

/// The reports of exits among some reports.
pub open spec fn exits_in(reports: Seq<MessageView>) -> Seq<MessageView>
    decreases reports.len(),
{
    if reports.len() == 0 {
        reports
    } else if reports.last().event is Exit {
        exits_in(reports.drop_last()).push(reports.last())
    } else {
        exits_in(reports.drop_last())
    }
}

proof fn lemma_exits_in(first: Seq<MessageView>, second: Seq<MessageView>)
    requires
        forall|i: int| 0 <= i < second.len() ==> !((#[trigger] second[i]).event is Exit),
    ensures
        exits_in(first + second) == exits_in(first),
    decreases second.len(),
{
    if second.len() == 0 {
        assert(first + second =~= first);
    } else {
        assert(!(second[second.len() - 1].event is Exit));
        lemma_exits_in(first, second.drop_last());
        assert((first + second).drop_last() =~= first + second.drop_last());
    }
}

proof fn lemma_pending_of_nobody(pending: Seq<PendingView>, pid: i32)
    requires
        !exec_of(pending, pid),
    ensures
        pending_of(pending, pid, true) == Seq::<PendingView>::empty(),
        pending_of(pending, pid, false) == pending,
    decreases pending.len(),
{
    if pending.len() > 0 {
        let fewer = pending.drop_last();
        assert(pending[pending.len() - 1].retry.pid != pid);
        assert forall|i: int| 0 <= i < fewer.len() implies (#[trigger] fewer[i]).retry.pid
            != pid by {
            assert(pending[i] == fewer[i]);
        }
        lemma_pending_of_nobody(fewer, pid);
        assert(fewer.push(pending.last()) =~= pending);
    }
}

proof fn lemma_all_given_out(
    state: CollectorView,
    exits: Seq<HeldExit>,
    pending: Seq<PendingView>,
)
    ensures
        ({
            let reports = state.exit_reports(exits, pending);
            let plain = exits.map_values(|exit: HeldExit| exit_message(exit));
            let apart = forall|pid: i32| #[trigger] exit_of(exits, pid) ==> !exec_of(pending, pid);
            &&& exits_in(reports) == plain
            &&& reports.len() + left_over(exits, pending).len() == exits.len() + pending.len()
            &&& apart ==> reports == plain && left_over(exits, pending) == pending
            &&& forall|pid: i32|
                #![trigger state.exited(exits, pending).named(pid)]
                !exit_of(exits, pid) ==> state.exited(exits, pending).named(pid) == state.named(pid)
        }),
    decreases exits.len(),
{
    let reports = state.exit_reports(exits, pending);
    let plain = exits.map_values(|exit: HeldExit| exit_message(exit));
    if exits.len() == 0 {
        assert(reports =~= plain);
    } else {
        let fewer = exits.drop_last();
        let last = exits.last();
        let before = fewer.map_values(|exit: HeldExit| exit_message(exit));
        let rest = left_over(fewer, pending);
        let mine = pending_of(rest, last.pid, true);
        let said = state.exit_reports(fewer, pending);
        let execs = state.exited(fewer, pending).exec_reports(mine);
        lemma_all_given_out(state, fewer, pending);
        lemma_pending_of(rest, last.pid);
        lemma_exits_in(said, execs);
        assert(reports.drop_last() =~= said + execs);
        assert(plain =~= before.push(exit_message(last)));
        assert forall|pid: i32| #[trigger] exit_of(fewer, pid) implies exit_of(exits, pid) by {
            lemma_exit_of(exits, pid);
        }
        if forall|pid: i32| #[trigger] exit_of(exits, pid) ==> !exec_of(pending, pid) {
            lemma_exit_of(exits, last.pid);
            assert(exit_of(exits, last.pid));
            lemma_pending_of_nobody(pending, last.pid);
            assert(execs =~= Seq::<MessageView>::empty());
            assert(reports =~= plain);
        }
        assert forall|pid: i32|
            #![trigger state.exited(exits, pending).named(pid)]
            !exit_of(exits, pid) implies state.exited(exits, pending).named(pid) == state.named(
            pid,
        ) by {
            lemma_exit_of(exits, pid);
            assert(state.exited(fewer, pending).named(pid) == state.named(pid));
        }
    }
}

/// A flush gives out everything held back, once: the exits in the order in
/// which they are held, and every execution that waits. Where no process has
/// both, all exits come first.
pub proof fn lemma_flush_gives_out_all(state: CollectorView, lines: Seq<Option<CommandLineView>>)
    ensures
        ({
            let reports = state.flushed_messages(lines);
            let exits = state.held.map_values(|exit: HeldExit| exit_message(exit));
            &&& exits_in(reports) == exits
            &&& reports.len() == state.held.len() + state.retries.len()
            &&& (forall|i: int, j: int|
                0 <= i < state.held.len() && 0 <= j < state.retries.len() ==> (
                #[trigger] state.held[i]).pid != (#[trigger] state.retries[j]).pid) ==> reports
                == exits + state.exec_reports(state.waiting(lines))
        }),
{
    let base = state.holding(Seq::empty());
    let pending = state.waiting(lines);
    let rest = left_over(state.held, pending);
    let said = base.exit_reports(state.held, pending);
    let execs = state.drained(lines).exec_reports(rest);
    lemma_all_given_out(base, state.held, pending);
    lemma_exits_in(said, execs);
    if forall|i: int, j: int|
        0 <= i < state.held.len() && 0 <= j < state.retries.len() ==> (#[trigger] state.held[i]).pid
            != (#[trigger] state.retries[j]).pid {
        assert forall|pid: i32| #[trigger] exit_of(state.held, pid) implies !exec_of(
            pending,
            pid,
        ) by {
            lemma_waiting(state, lines, pid);
        }
        assert forall|i: int| 0 <= i < rest.len() implies #[trigger] execs[i] == state.exec_report(
            pending[i],
        ) by {
            let pid = pending[i].retry.pid;
            assert(exec_of(pending, pid));
            assert(state.drained(lines).named(pid) == base.named(pid));
        }
        assert(execs =~= state.exec_reports(pending));
    }
}

/// A second flush reports nothing and changes nothing.
pub proof fn lemma_flush_once(
    state: CollectorView,
    lines: Seq<Option<CommandLineView>>,
    again: Seq<Option<CommandLineView>>,
)
    requires
        state.processes.contains(state.root),
    ensures
        state.flushed(lines).flushed(again) == state.flushed(lines),
        state.flushed(lines).flushed_messages(again) == Seq::<MessageView>::empty(),
{
    let once = state.flushed(lines);
    lemma_flushed(state, lines);
    assert(once.waiting(again) =~= Seq::<PendingView>::empty());
    assert(once.flushed(again) =~= once);
    assert(once.flushed_messages(again) =~= Seq::<MessageView>::empty());
}

/// Which pids are live is told by the reports: one comes in exactly when its
/// creation is reported, and one goes when its end is reported, unless it is
/// the root, or when someone else turns out to hold it.
pub proof fn lemma_live_pids_follow_reports(state: CollectorView, input: Input, pid: i32)
    requires
        state.processes.contains(state.root),
    ensures
        ({
            let after = state.given(input);
            let messages = state.given_messages(input);
            &&& after.processes.contains(state.root)
            &&& created(messages, pid) ==> after.processes.contains(pid)
            &&& after.processes.contains(pid) ==> state.processes.contains(pid) || created(
                messages,
                pid,
            )
            &&& pid != state.root && ended(messages, pid) ==> !after.processes.contains(pid)
            &&& state.processes.contains(pid) && !after.processes.contains(pid) ==> pid
                != state.root && (ended(messages, pid) || (input matches Input::Event { event, .. }
                && state.lets_go(event, pid)))
        }),
{
    lemma_step(state, input);
}

proof fn lemma_run(start: CollectorView, inputs: Seq<Input>)
    requires
        start.processes == set![start.root],
        start.held.len() == 0,
        start.retries.len() == 0,
    ensures
        ({
            let after = start.after(inputs);
            let reports = start.reports(inputs);
            &&& after.root == start.root
            &&& after.processes.contains(after.root)
            &&& forall|pid: i32| #[trigger]
                after.concerns(pid) ==> pid == start.root || created(reports, pid)
            &&& forall|i: int|
                0 <= i < reports.len() ==> (#[trigger] reports[i]).pid == start.root || created(
                    reports.take(i),
                    reports[i].pid,
                )
            &&& forall|i: int| 0 <= i < reports.len() ==> (#[trigger] reports[i]).ppid == 0
        }),
    decreases inputs.len(),
{
    if inputs.len() > 0 {
        let fewer = inputs.drop_last();
        let input = inputs.last();
        lemma_run(start, fewer);
        let state = start.after(fewer);
        let said = start.reports(fewer);
        let messages = state.given_messages(input);
        let reports = start.reports(inputs);
        let after = start.after(inputs);
        lemma_step(state, input);
        assert forall|pid: i32| #[trigger] after.concerns(pid) implies pid == start.root || created(
            reports,
            pid,
        ) by {
            assert(state.concerns(pid) || created(messages, pid));
            if created(messages, pid) {
                let j = choose|j: int|
                    0 <= j < messages.len() && (#[trigger] messages[j]).event == (EventView::Fork {
                        child: pid,
                    });
                assert(reports[said.len() + j] == messages[j]);
            } else if pid != start.root {
                let j = choose|j: int|
                    0 <= j < said.len() && (#[trigger] said[j]).event == (EventView::Fork {
                        child: pid,
                    });
                assert(reports[j] == said[j]);
            }
        }
        assert forall|i: int| 0 <= i < reports.len() implies (#[trigger] reports[i]).pid
            == start.root || created(reports.take(i), reports[i].pid) by {
            let pid = reports[i].pid;
            if i < said.len() {
                assert(reports[i] == said[i]);
                assert(reports.take(i) =~= said.take(i));
            } else {
                assert(reports[i] == messages[i - said.len()]);
                assert(state.concerns(pid));
                if pid != start.root {
                    let j = choose|j: int|
                        0 <= j < said.len() && (#[trigger] said[j]).event == (EventView::Fork {
                            child: pid,
                        });
                    assert(reports.take(i)[j] == said[j]);
                }
            }
        }
        assert forall|i: int| 0 <= i < reports.len() implies (#[trigger] reports[i]).ppid == 0 by {
            if i < said.len() {
                assert(reports[i] == said[i]);
            } else {
                assert(reports[i] == messages[i - said.len()]);
            }
        }
    }
}

/// Over a whole recording, everything reported is about the command itself or
/// about a process whose creation was reported before, and says nothing of a
/// parent.
pub proof fn lemma_reports_about_the_build(start: CollectorView, inputs: Seq<Input>, i: int)
    requires
        start.processes == set![start.root],
        start.held.len() == 0,
        start.retries.len() == 0,
        0 <= i < start.reports(inputs).len(),
    ensures
        ({
            let reports = start.reports(inputs);
            &&& reports[i].pid == start.root || created(reports.take(i), reports[i].pid)
            &&& reports[i].ppid == 0
        }),
{
    lemma_run(start, inputs);
}

} // verus!
