//! What the privileged half passes on, and to whom it answers.

#[allow(unused_imports)]
use super::{
    error_text, options_from, ready_text, recordable, root_of, synced_text, Action, Due, FilterView,
    HelperErrorView, HelperOptions, Input, Phase, PumpView, Verdict,
};
#[allow(unused_imports)]
use crate::macos::eslogger::Envelope;
#[allow(unused_imports)]
use crate::text::laws::lemma_trimmed;
#[allow(unused_imports)]
use crate::text::{
    byte_characters, decimal, decimal_value, decoded, digits, is_digit, is_white,
    lemma_decimal_round_trip, lemma_digits_value, trimmed,
};
use vstd::prelude::*;
use vstd::string::*;
#[allow(unused_imports)]
use vstd::utf8::*;

verus! {

/// What a followed process does is passed on, and what a process does whose
/// parent is followed; what any other does is not.
pub proof fn lemma_passed_on(state: FilterView, envelope: Envelope)
    requires
        envelope.process.audit_token.pid != state.helper_pid,
    ensures
        state.verdict(envelope) == Verdict::Forward <==> state.followed.contains(
            envelope.process.audit_token.pid,
        ) || state.followed.contains(envelope.process.ppid),
        state.verdict(envelope) == Verdict::Forward || state.verdict(envelope) == Verdict::Skip,
{
}

/// The child of a process that is passed on is followed, and so is the process
/// until it ends.
pub proof fn lemma_children_followed(state: FilterView, envelope: Envelope)
    requires
        state.verdict(envelope) == Verdict::Forward,
    ensures
        ({
            let after = state.observed(envelope);
            let pid = envelope.process.audit_token.pid;
            &&& envelope.event.exit is None ==> after.followed.contains(pid)
            &&& envelope.event.exit is Some ==> !after.followed.contains(pid)
            &&& envelope.event.fork matches Some(fork) ==> fork.child.audit_token.pid != pid
                ==> after.followed.contains(fork.child.audit_token.pid)
            &&& after.helper_pid == state.helper_pid
        }),
{
}

/// A gap between the numbers of two envelopes counts as that many lost events.
pub proof fn lemma_losses_counted(state: FilterView, first: Envelope, second: Envelope)
    requires
        first.global_seq_num is Some,
        second.global_seq_num is Some,
        first.global_seq_num->0 < second.global_seq_num->0 < u64::MAX,
        state.countable(first),
        state.observed(first).countable(second),
    ensures
        state.observed(first).observed(second).dropped - state.observed(first).dropped
            == second.global_seq_num->0 - first.global_seq_num->0 - 1,
{
}

/// A probe that comes back says that recording can begin, once, and what was
/// lost before does not count.
pub proof fn lemma_ready(state: PumpView, envelope: Envelope, child: i32)
    requires
        state.phase == Phase::Starting,
        envelope.process.audit_token.pid == state.filter.helper_pid,
        envelope.event.fork is Some,
        envelope.event.fork->0.child.audit_token.pid == child,
        state.probes.contains(child),
    ensures
        state.action(envelope) == Action::Ready,
        state.fed(envelope).phase == Phase::Running,
        state.fed(envelope).filter.dropped == 0,
        state.fed(envelope).action(envelope) == Action::Nothing,
{
}

/// A sync is answered with the number of events that were lost.
pub proof fn lemma_synced(state: PumpView, envelope: Envelope, child: i32)
    requires
        state.phase == Phase::Syncing,
        envelope.process.audit_token.pid == state.filter.helper_pid,
        envelope.event.fork is Some,
        envelope.event.fork->0.child.audit_token.pid == child,
        state.probes.contains(child),
    ensures
        state.action(envelope) == (Action::Synced { dropped: state.fed(envelope).filter.dropped }),
        state.fed(envelope).phase == Phase::Running,
{
}

/// What belongs to the recording is passed on once it has begun, and while a
/// sync waits too.
pub proof fn lemma_forwarded(state: PumpView, envelope: Envelope)
    requires
        state.filter.verdict(envelope) == Verdict::Forward,
    ensures
        state.action(envelope) == Action::Forward <==> state.phase != Phase::Starting,
        state.action(envelope) == Action::Nothing <==> state.phase == Phase::Starting,
{
}

/// While something is waited for a probe is made every fifty milliseconds, and
/// after fifteen seconds without a first answer the helper gives up.
pub proof fn lemma_due(state: PumpView, now_ns: u64)
    ensures
        state.phase == Phase::Running ==> state.due(now_ns) == Due::Nothing,
        state.last_probe_ns matches Some(last) ==> now_ns < last + 50_000_000 ==> state.due(now_ns)
            == Due::Nothing,
        state.phase == Phase::Syncing && state.last_probe_ns is None ==> state.due(now_ns)
            == Due::Probe,
        state.phase == Phase::Starting && state.last_probe_ns is None && now_ns <= 15_000_000_000
            ==> state.due(now_ns) == Due::Probe,
        state.phase == Phase::Starting && state.last_probe_ns is None && now_ns > 15_000_000_000
            ==> state.due(now_ns) == Due::GiveUp,
        state.phase == Phase::Syncing ==> (state.last_probe_ns matches Some(last) ==> now_ns >= last
            + 50_000_000 ==> state.due(now_ns) == Due::Probe),
{
}

/// A line that says `sync` asks for one, with white space around it or not,
/// and nothing else does; the helper ends with its input, and when there are
/// no more events.
pub proof fn lemma_inputs(state: PumpView, before: Seq<char>, after: Seq<char>, line: String)
    requires
        forall|i: int| 0 <= i < before.len() ==> is_white(#[trigger] before[i]),
        forall|i: int| 0 <= i < after.len() ==> is_white(#[trigger] after[i]),
    ensures
        line@ == before + "sync"@ + after ==> state.given(Input::Command { line }).phase
            == Phase::Syncing && state.given(Input::Command { line }).probes == Set::<i32>::empty(),
        trimmed(line@) != "sync"@ ==> state.given(Input::Command { line }) == state,
        state.answer(Input::Command { line }) == Action::Nothing,
        state.answer(Input::CommandsClosed) == Action::Finished,
        state.answer(Input::EventsClosed) == Action::EventsClosed,
        state.answer(Input::Event { envelope: None }) == Action::Nothing,
        state.given(Input::Event { envelope: None }) == state,
{
    reveal_strlit("sync");
    assert(!is_white('s') && !is_white('c'));
    lemma_trimmed(before, "sync"@, after);
}

/// The control lines, as the recorder reads them.
pub proof fn lemma_control_lines(dropped: u64, message: Seq<char>)
    ensures
        ready_text() == "{\"buildprof\":\"ready\"}"@,
        synced_text(dropped) == "{\"buildprof\":\"synced\",\"dropped\":"@ + decimal(dropped as int)
            + "}"@,
        error_text(message) == "{\"buildprof\":\"error\",\"message\":"@ + message + "}"@,
{
}

/// The helper takes the process to follow and whether files matter, in any
/// order; any other argument is refused.
pub proof fn lemma_helper_arguments(pid: i32, other: Seq<u8>)
    requires
        pid > 1,
        other != encode_utf8("--file-events"@),
        other != encode_utf8("--root-pid"@),
    ensures
        ({
            let nothing = HelperOptions { root_pid: None, file_events: false };
            let files = encode_utf8("--file-events"@);
            let root = encode_utf8("--root-pid"@);
            let number = encode_utf8(decimal(pid as int));
            &&& options_from(Seq::empty(), 0, nothing) == Ok::<HelperOptions, HelperErrorView>(
                nothing,
            )
            &&& options_from(seq![root, number], 0, nothing) == Ok::<
                HelperOptions,
                HelperErrorView,
            >(HelperOptions { root_pid: Some(pid), file_events: false })
            &&& options_from(seq![files, root, number], 0, nothing) == Ok::<
                HelperOptions,
                HelperErrorView,
            >(HelperOptions { root_pid: Some(pid), file_events: true })
            &&& options_from(seq![root, number, files], 0, nothing) == Ok::<
                HelperOptions,
                HelperErrorView,
            >(HelperOptions { root_pid: Some(pid), file_events: true })
            &&& options_from(seq![root], 0, nothing) == Err::<HelperOptions, HelperErrorView>(
                HelperErrorView::RootPidMissing,
            )
            &&& options_from(seq![other], 0, nothing) == Err::<HelperOptions, HelperErrorView>(
                HelperErrorView::UnknownArgument { argument: decoded(other) },
            )
        }),
{
    reveal_with_fuel(options_from, 4);
    lemma_pid_read(pid);
    lemma_flags_differ();
}

proof fn lemma_flags_differ()
    ensures
        encode_utf8("--file-events"@) != encode_utf8("--root-pid"@),
{
    reveal_strlit("--file-events");
    reveal_strlit("--root-pid");
    encode_utf8_decode_utf8("--file-events"@);
    encode_utf8_decode_utf8("--root-pid"@);
    assert("--file-events"@.len() != "--root-pid"@.len());
}

/// Only a process that can be recorded is taken: the first one is not.
pub proof fn lemma_pid_read(pid: i32)
    ensures
        pid > 1 ==> recordable(encode_utf8(decimal(pid as int))) == Some(pid),
        0 <= pid <= 1 ==> recordable(encode_utf8(decimal(pid as int))) is None,
{
    broadcast use vstd::utf8::group_utf8_lib;

    if pid >= 0 {
        let text = decimal(pid as int);
        lemma_decimal_round_trip(pid as int);
        lemma_digits_value(pid as nat);
        assert forall|i: int| 0 <= i < text.len() implies '\0' <= #[trigger] text[i]
            <= '\u{7f}' by {
            assert(is_digit(text[i]));
        }
        assert(is_ascii_chars(text));
        assert(byte_characters(encode_utf8(text)) =~= text) by {
            assert forall|i: int| 0 <= i < text.len() implies byte_characters(encode_utf8(text))[i]
                == text[i] by {
                assert(text[i] as u8 == encode_utf8(text)[i]);
                assert(is_digit(text[i]));
            }
        }
    }
}

/// Only root passes events on, and only someone who is root without setuid
/// says whose: anyone else gets those of their own tree.
pub proof fn lemma_root_chosen(pid: i32, files: bool, setuid: bool, euid: u32, parent: i32)
    requires
        pid > 1,
        parent > 1,
    ensures
        ({
            let chosen = HelperOptions { root_pid: Some(pid), file_events: files };
            let open = HelperOptions { root_pid: None, file_events: files };
            &&& euid != 0 ==> root_of(open, setuid, euid, parent) == Err::<i32, HelperErrorView>(
                HelperErrorView::NotRoot,
            )
            &&& euid != 0 ==> root_of(chosen, setuid, euid, parent) == Err::<
                i32,
                HelperErrorView,
            >(HelperErrorView::NotRoot)
            &&& root_of(open, setuid, 0, parent) == Ok::<i32, HelperErrorView>(parent)
            &&& root_of(chosen, false, 0, parent) == Ok::<i32, HelperErrorView>(pid)
            &&& root_of(chosen, true, 0, parent) == Err::<i32, HelperErrorView>(
                HelperErrorView::RootPidThroughSetuid,
            )
            &&& root_of(open, setuid, 0, 1) == Err::<i32, HelperErrorView>(
                HelperErrorView::NoParent,
            )
        }),
{
}

} // verus!
