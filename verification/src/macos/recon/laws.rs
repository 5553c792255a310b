//! What the kernel's records come to, one by one.

#[allow(unused_imports)]
use super::{
    due, exec_message, exit_message, is_settled, kdebug, left_over, packed_name, pending_of,
    retries_of, seeded, settled, unread, unsettled, without_exits, word_bytes, words_bytes, CollectorView,
    CommandLineView, HeldExit, PendingView, Retry,
};
#[allow(unused_imports)]
use crate::macos::event::{EventView, MessageView};
#[allow(unused_imports)]
use crate::text::laws::{lemma_c_string, lemma_decoded};
#[allow(unused_imports)]
use crate::text::{before_nul, decoded};
use vstd::prelude::*;
#[allow(unused_imports)]
use vstd::utf8::encode_utf8;

verus! {

/// Whether nothing waits to be reported.
pub open spec fn idle(state: CollectorView) -> bool {
    state.held.len() == 0 && state.retries.len() == 0
}

/// Whether a thread is one of a process of the build.
pub open spec fn runs(state: CollectorView, thread: u64, pid: i32) -> bool {
    &&& state.threads.contains_key(thread)
    &&& state.threads[thread] == pid
    &&& state.processes.contains(pid)
}

proof fn lemma_idle(state: CollectorView, pid: i32, now: u64)
    requires
        idle(state),
    ensures
        state.alive(pid, now) == state,
        state.alive_messages(pid, now) == Seq::<MessageView>::empty(),
{
    let held = without_exits(state.held, pid);
    assert(held =~= Seq::<HeldExit>::empty());
    assert(state.held =~= Seq::<HeldExit>::empty());
    assert(state.retries =~= Seq::<Retry>::empty());
    let quiet = CollectorView { held, ..state };
    assert(due(held, now, true) =~= Seq::<HeldExit>::empty());
    assert(due(held, now, false) =~= Seq::<HeldExit>::empty());
    let pending = quiet.waiting(Seq::empty());
    assert(pending =~= Seq::<PendingView>::empty());
    assert(left_over(Seq::<HeldExit>::empty(), pending) == pending);
    assert(retries_of(pending) =~= Seq::<Retry>::empty());
    assert(state.alive(pid, now) =~= state);
}

/// A process that creates another is reported to have, when it did, and what
/// the other one does is part of the build from then on.
pub proof fn lemma_creation_reported(state: CollectorView, event: kdebug::Event, pid: i32)
    requires
        event.debugid == 0x0700_0004,
        runs(state, event.thread, pid),
        event.args@[1] as i32 != pid,
    ensures
        ({
            let child = event.args@[1] as i32;
            let after = state.observed(event, None);
            &&& state.observed_messages(event, None) == seq![
                MessageView {
                    mach_time: event.timestamp,
                    pid,
                    ppid: 0,
                    event: EventView::Fork { child },
                },
            ]
            &&& runs(after, event.args@[0], child)
        }),
{
}

/// What a process outside the build creates is not part of it, and a pid that
/// was is not any longer once such a process has it.
pub proof fn lemma_strangers_ignored(state: CollectorView, event: kdebug::Event, pid: i32)
    requires
        event.debugid == 0x0700_0004,
        state.threads.contains_key(event.thread),
        state.threads[event.thread] == pid,
        !state.processes.contains(pid),
        event.args@[1] as i32 != pid,
        event.args@[1] as i32 != state.root,
    ensures
        state.observed_messages(event, None) == Seq::<MessageView>::empty(),
        !state.observed(event, None).processes.contains(event.args@[1] as i32),
{
}

/// Events that the kernel lost are counted, and nothing else changes.
pub proof fn lemma_loss_counted(state: CollectorView, event: kdebug::Event)
    requires
        event.debugid == 0x0702_0008,
        state.dropped < u64::MAX,
    ensures
        state.observed(event, None) == (CollectorView { dropped: (state.dropped + 1) as u64, ..state }),
        state.observed_messages(event, None) == Seq::<MessageView>::empty(),
{
}

/// An execution is reported when it happened, with the command line that was
/// read.
pub proof fn lemma_execution_reported(
    state: CollectorView,
    event: kdebug::Event,
    pid: i32,
    line: CommandLineView,
)
    requires
        event.debugid == 0x0700_0008,
        runs(state, event.thread, pid),
        idle(state),
    ensures
        state.asks_for(event) == Some(pid),
        state.observed_messages(event, Some(line)) == seq![
            MessageView {
                mach_time: event.timestamp,
                pid,
                ppid: 0,
                event: EventView::Exec { argv: line.argv, executable: line.executable },
            },
        ],
        state.observed(event, Some(line)) == state,
{
    lemma_idle(state, pid, event.timestamp);
}

/// An execution whose command line cannot be read yet is reported as soon as
/// it can, with the time at which it happened.
pub proof fn lemma_execution_reported_late(
    state: CollectorView,
    event: kdebug::Event,
    pid: i32,
    line: CommandLineView,
)
    requires
        event.debugid == 0x0700_0008,
        runs(state, event.thread, pid),
        idle(state),
    ensures
        ({
            let after = state.observed(event, None);
            let later = after.ticked(seq![None]);
            let report = MessageView {
                mach_time: event.timestamp,
                pid,
                ppid: 0,
                event: EventView::Exec { argv: line.argv, executable: line.executable },
            };
            &&& state.observed_messages(event, None) == Seq::<MessageView>::empty()
            &&& after.ticked_messages(seq![Some(line)]) == seq![report]
            &&& after.ticked(seq![Some(line)]) == state
            &&& after.ticked_messages(seq![None]) == Seq::<MessageView>::empty()
            &&& later.ticked_messages(seq![Some(line)]) == seq![report]
        }),
{
    lemma_idle(state, pid, event.timestamp);
    let after = state.observed(event, None);
    let retry = Retry { pid, mach_time: event.timestamp, attempt: 1 };
    assert(state.retries =~= Seq::<Retry>::empty());
    assert(after.retries =~= seq![retry]);
    lemma_one_followed_up(after, retry, Some(line));
    lemma_one_followed_up(after, retry, None);
    let later = after.ticked(seq![None]);
    let again = Retry { attempt: 2, ..retry };
    assert(later.retries =~= seq![again]);
    lemma_one_followed_up(later, again, Some(line));
    assert(after.ticked(seq![Some(line)]) =~= state);
}

proof fn lemma_one_followed_up(
    state: CollectorView,
    retry: Retry,
    line: Option<CommandLineView>,
)
    requires
        state.retries == seq![retry],
        retry.attempt < 100,
    ensures
        ({
            let pending = PendingView { retry, line };
            let waiting = state.waiting(seq![line]);
            &&& waiting == seq![pending]
            &&& settled(waiting) == (if is_settled(pending) {
                seq![pending]
            } else {
                seq![]
            })
            &&& unsettled(waiting) == (if is_settled(pending) {
                seq![]
            } else {
                seq![Retry { attempt: (retry.attempt + 1) as u32, ..retry }]
            })
            &&& unread(settled(waiting)) == (if is_settled(pending) && line is None {
                1nat
            } else {
                0nat
            })
            &&& state.exec_reports(settled(waiting)) == (if is_settled(pending) {
                seq![state.exec_report(pending)]
            } else {
                seq![]
            })
        }),
{
    let pending = PendingView { retry, line };
    let waiting = state.waiting(seq![line]);
    assert(waiting =~= seq![pending]);
    assert(waiting.drop_last() =~= Seq::<PendingView>::empty());
    assert(waiting.last() == pending);
    assert(settled(waiting.drop_last()) =~= Seq::<PendingView>::empty());
    assert(unsettled(waiting.drop_last()) =~= Seq::<Retry>::empty());
    assert(settled(waiting) =~= if is_settled(pending) {
        seq![pending]
    } else {
        seq![]
    });
    assert(unsettled(waiting) =~= if is_settled(pending) {
        seq![]
    } else {
        seq![Retry { attempt: (retry.attempt + 1) as u32, ..retry }]
    });
    let done = settled(waiting);
    if is_settled(pending) {
        assert(done.drop_last() =~= Seq::<PendingView>::empty());
        assert(unread(done.drop_last()) == 0);
    }
    assert(state.exec_reports(done) =~= if is_settled(pending) {
        seq![state.exec_report(pending)]
    } else {
        seq![]
    });
}

/// After the fifth attempt in vain an execution is reported with the program
/// that the kernel named alone, and counted; before, it is tried once more.
pub proof fn lemma_command_line_given_up(state: CollectorView, retry: Retry, program: Seq<char>)
    requires
        state.retries == seq![retry],
        state.names.contains_key(retry.pid),
        state.names[retry.pid] == program,
        1 <= retry.attempt < 5,
        state.unnamed < u64::MAX,
    ensures
        ({
            let after = state.ticked(seq![None]);
            let reports = state.ticked_messages(seq![None]);
            if retry.attempt == 4 {
                &&& reports == seq![
                    MessageView {
                        mach_time: retry.mach_time,
                        pid: retry.pid,
                        ppid: 0,
                        event: EventView::Exec { argv: seq![program], executable: program },
                    },
                ]
                &&& after.retries == Seq::<Retry>::empty()
                &&& after.unnamed == state.unnamed + 1
            } else {
                &&& reports == Seq::<MessageView>::empty()
                &&& after.retries == seq![Retry { attempt: (retry.attempt + 1) as u32, ..retry }]
                &&& after.unnamed == state.unnamed
            }
        }),
{
    lemma_one_followed_up(state, retry, None);
}

/// The program that the kernel names is the one a process is known by.
pub proof fn lemma_program_noted(
    state: CollectorView,
    event: kdebug::Event,
    pid: i32,
    name: Seq<char>,
    rest: Seq<u8>,
)
    requires
        event.debugid == 0x0701_0008,
        runs(state, event.thread, pid),
        idle(state),
        forall|i: int| 0 <= i < encode_utf8(name).len() ==> #[trigger] encode_utf8(name)[i] != 0,
        words_bytes(event.args@) == encode_utf8(name).push(0) + rest || words_bytes(event.args@)
            == encode_utf8(name),
    ensures
        ({
            let after = state.observed(event, None);
            &&& after.names.contains_key(pid)
            &&& after.names[pid] == name
            &&& after.named(pid).executable == name
            &&& after.named(pid).argv == seq![name]
            &&& state.observed_messages(event, None) == Seq::<MessageView>::empty()
        }),
{
    lemma_idle(state, pid, event.timestamp);
    lemma_c_string(encode_utf8(name), rest);
    lemma_decoded(name);
}

/// The end of a process is reported when it happened, with the status it ended
/// with, once the time to hold it is over and the process did nothing more; or
/// when the recording ends.
pub proof fn lemma_end_reported(
    state: CollectorView,
    event: kdebug::Event,
    pid: i32,
    other: i32,
    now: u64,
)
    requires
        event.debugid == 0x0401_0006,
        runs(state, event.thread, pid),
        idle(state),
        event.timestamp + state.hold <= u64::MAX,
        other != pid,
    ensures
        ({
            let after = state.observed(event, None);
            let report = MessageView {
                mach_time: event.timestamp,
                pid,
                ppid: 0,
                event: EventView::Exit { stat: event.args@[1] as i32 },
            };
            &&& state.observed_messages(event, None) == Seq::<MessageView>::empty()
            &&& after.flushed_messages(Seq::empty()) == seq![report]
            &&& now >= event.timestamp + state.hold ==> after.alive_messages(other, now) == seq![
                report,
            ]
            &&& now < event.timestamp + state.hold ==> after.alive_messages(other, now) == Seq::<
                MessageView,
            >::empty()
            &&& after.alive_messages(pid, now) == Seq::<MessageView>::empty()
        }),
{
    lemma_end_held(state, event, pid);
    let after = state.observed(event, None);
    lemma_held_given_out(after, after.held[0]);
    lemma_held_believed(after, after.held[0], other, now);
    lemma_held_cancelled(after, after.held[0], now);
}

proof fn lemma_end_held(state: CollectorView, event: kdebug::Event, pid: i32)
    requires
        event.debugid == 0x0401_0006,
        runs(state, event.thread, pid),
        idle(state),
        event.timestamp + state.hold <= u64::MAX,
    ensures
        state.observed_messages(event, None) == Seq::<MessageView>::empty(),
        state.observed(event, None).retries.len() == 0,
        state.observed(event, None).held == seq![
            HeldExit {
                pid,
                mach_time: event.timestamp,
                stat: event.args@[1] as i32,
                believe_after: (event.timestamp + state.hold) as u64,
            },
        ],
{
    lemma_idle(state, pid, event.timestamp);
    let debugid = event.debugid;
    assert((debugid / 2) % 2 == 1);
    assert(debugid / 4 * 4 == 0x0401_0004);
    assert(state.held =~= Seq::<HeldExit>::empty());
}

proof fn lemma_held_given_out(state: CollectorView, exit: HeldExit)
    requires
        state.held == seq![exit],
        state.retries.len() == 0,
    ensures
        state.flushed_messages(Seq::empty()) == seq![exit_message(exit)],
{
    let pending = state.waiting(Seq::empty());
    assert(pending =~= Seq::<PendingView>::empty());
    lemma_one_exit(state.holding(Seq::empty()), exit);
    assert(state.flushed_messages(Seq::empty()) =~= seq![exit_message(exit)]);
}

proof fn lemma_held_believed(state: CollectorView, exit: HeldExit, other: i32, now: u64)
    requires
        state.held == seq![exit],
        state.retries.len() == 0,
        other != exit.pid,
    ensures
        state.alive_messages(other, now) == (if exit.believe_after <= now {
            seq![exit_message(exit)]
        } else {
            seq![]
        }),
{
    assert(state.held.drop_last() =~= Seq::<HeldExit>::empty());
    assert(without_exits(state.held.drop_last(), other) =~= Seq::<HeldExit>::empty());
    assert(without_exits(state.held, other) =~= state.held);
    assert(due(state.held.drop_last(), now, true) =~= Seq::<HeldExit>::empty());
    assert(state.waiting(Seq::empty()) =~= Seq::<PendingView>::empty());
    assert(due(state.held, now, true) =~= if exit.believe_after <= now {
        seq![exit]
    } else {
        seq![]
    });
    lemma_one_exit(state.holding(due(state.held, now, false)), exit);
}

proof fn lemma_held_cancelled(state: CollectorView, exit: HeldExit, now: u64)
    requires
        state.held == seq![exit],
        state.retries.len() == 0,
    ensures
        state.alive_messages(exit.pid, now) == Seq::<MessageView>::empty(),
{
    assert(state.held.drop_last() =~= Seq::<HeldExit>::empty());
    assert(state.held.last() == exit);
    assert(without_exits(state.held.drop_last(), exit.pid) =~= Seq::<HeldExit>::empty());
    let held = without_exits(state.held, exit.pid);
    assert(held =~= Seq::<HeldExit>::empty());
    assert(due(held, now, true) =~= Seq::<HeldExit>::empty());
}

proof fn lemma_one_exit(state: CollectorView, exit: HeldExit)
    ensures
        ({
            let nothing = Seq::<PendingView>::empty();
            &&& state.exit_reports(seq![exit], nothing) == seq![exit_message(exit)]
            &&& left_over(seq![exit], nothing) == nothing
        }),
{
    let nothing = Seq::<PendingView>::empty();
    let exits = seq![exit];
    assert(exits.drop_last() =~= Seq::<HeldExit>::empty());
    assert(exits.last() == exit);
    assert(left_over(exits.drop_last(), nothing) == nothing);
    assert(pending_of(nothing, exit.pid, true) =~= nothing);
    assert(pending_of(nothing, exit.pid, false) =~= nothing);
    let before = state.exited(exits.drop_last(), nothing);
    assert(before.exec_reports(nothing) =~= Seq::<MessageView>::empty());
    assert(state.exit_reports(exits.drop_last(), nothing) =~= Seq::<MessageView>::empty());
    assert(state.exit_reports(exits, nothing) =~= seq![exit_message(exit)]);
}

/// Each command line that was read belongs to the execution at the same place.
pub proof fn lemma_lines_in_order(
    state: CollectorView,
    lines: Seq<Option<CommandLineView>>,
    i: int,
)
    requires
        0 <= i < state.retries.len(),
    ensures
        state.waiting(lines).len() == state.retries.len(),
        state.waiting(lines)[i].retry == state.retries[i],
        i < lines.len() ==> state.waiting(lines)[i].line == lines[i],
        i >= lines.len() ==> state.waiting(lines)[i].line is None,
{
}

/// Each execution that is reported is so for its own process and time.
pub proof fn lemma_reports_in_order(state: CollectorView, pending: Seq<PendingView>, i: int)
    requires
        0 <= i < pending.len(),
    ensures
        ({
            let report = state.exec_reports(pending)[i];
            &&& state.exec_reports(pending).len() == pending.len()
            &&& report.pid == pending[i].retry.pid
            &&& report.mach_time == pending[i].retry.mach_time
            &&& pending[i].line matches Some(line) ==> report.event == (EventView::Exec {
                argv: line.argv,
                executable: line.executable,
            })
        }),
{
}

/// A thread that existed before belongs to the process that the map names, the
/// last one if it names several.
pub proof fn lemma_thread_seeded(
    threads: Map<u64, i32>,
    map: Seq<(u64, i32)>,
    thread: u64,
    pid: i32,
    other: u64,
)
    requires
        other != thread,
    ensures
        ({
            let more = seeded(threads, map.push((thread, pid)));
            &&& more.contains_key(thread)
            &&& more[thread] == pid
            &&& more.contains_key(other) == seeded(threads, map).contains_key(other)
            &&& more[other] == seeded(threads, map)[other]
            &&& seeded(threads, Seq::empty()) == threads
        }),
{
    assert(map.push((thread, pid)).drop_last() =~= map);
}

} // verus!
