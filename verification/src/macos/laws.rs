//! What a recording on macOS shows of a build.

#[allow(unused_imports)]
use super::event::{EventView, MessageView};
#[allow(unused_imports)]
use super::tracker::{consistent, record_packets, Clock, ProcessStateView, Record, TrackerView};
#[allow(unused_imports)]
use super::{
    environment, settled_by, status_code, target, temporary_text, Progress, TargetError, Turn,
};
#[allow(unused_imports)]
use crate::ancestry::{lemma_birth, lemma_end_remembered};
#[allow(unused_imports)]
use crate::perfetto::reading::{
    bits_of, is_at, is_named, lemma_segment_shown, shows_exit_code, shows_no, shows_number,
    shows_text,
};
#[allow(unused_imports)]
use crate::text::laws::{lemma_decoded, lemma_file_name, lemma_unsigned_read_back, names_file};
#[allow(unused_imports)]
use crate::text::{decimal, text_of};
use vstd::prelude::*;
#[allow(unused_imports)]
use vstd::utf8::*;

verus! {

/// The message that a process ended.
pub open spec fn exit_of(pid: i32, stat: i32, mach_time: u64) -> MessageView {
    MessageView { mach_time, pid, ppid: 0, event: EventView::Exit { stat } }
}

/// When a followed process ends, what is written of it last shows the low byte
/// of its exit status if it exited, and 128 more than the signal if one ended
/// it, with the program and command it had, from when that began until now.
/// Nothing is known of it any longer, and if it was the command itself, that
/// is what the recording hands on.
pub proof fn lemma_exit_shown(state: TrackerView, pid: i32, stat: i32, mach_time: u64, now_ns: u64)
    requires
        state.processes.contains_key(pid),
        stat != 1 || state.processes[pid].process.execed,
    ensures
        ({
            let known = state.processes[pid];
            let before = known.segment;
            let message = exit_of(pid, stat, mach_time);
            let records = state.handle_records(message, now_ns);
            let packets = record_packets(records.last());
            let after = state.handled(message, now_ns);
            let code = if stat % 128 == 0 {
                (stat as int / 256) % 256
            } else {
                128 + stat as int % 128
            };
            &&& records.len() > 0
            &&& packets.len() == 2
            &&& shows_exit_code(packets[0], code)
            &&& is_at(packets[0], before.start_ns)
            &&& now_ns > before.start_ns ==> is_at(packets[1], now_ns)
            &&& is_named(packets[0], before.name)
            &&& shows_text(packets[0], 1, before.command)
            &&& shows_text(packets[0], 2, before.cwd)
            &&& shows_number(packets[0], 3, bits_of(known.process.pid as int))
            &&& shows_number(packets[0], 4, bits_of(known.process.parent_pid as int))
            &&& shows_number(packets[0], 5, bits_of(known.process.build_parent_pid as int))
            &&& !after.processes.contains_key(pid)
            &&& pid == state.root_pid ==> after.root_exit_code == Some(code as u8)
            &&& pid != state.root_pid ==> after.root_exit_code == state.root_exit_code
            &&& forall|other: i32|
                other != pid && #[trigger] state.processes.contains_key(other)
                    ==> after.processes.contains_key(other) && after.processes[other]
                    == state.processes[other]
        }),
{
    let message = exit_of(pid, stat, mach_time);
    let records = state.handle_records(message, now_ns);
    if let Record::Segment { process, segment } = records.last() {
        lemma_segment_shown(process, segment);
    }
}

/// A process that a followed one creates is followed from then on, below it,
/// and looks like it until it runs a program of its own.
pub proof fn lemma_fork_followed(
    state: TrackerView,
    pid: i32,
    child: i32,
    mach_time: u64,
    now_ns: u64,
)
    requires
        state.processes.contains_key(pid),
        !state.processes.contains_key(child),
    ensures
        ({
            let message = MessageView {
                mach_time,
                pid,
                ppid: 0,
                event: EventView::Fork { child },
            };
            let after = state.handled(message, now_ns);
            let made = after.processes[child];
            let parent = state.processes[pid].segment;
            &&& state.handle_records(message, now_ns) == Seq::<Record>::empty()
            &&& after.processes.contains_key(child)
            &&& made.process.pid == child
            &&& made.process.parent_pid == pid
            &&& made.process.build_parent_pid == state.ancestry.nearest(pid)
            &&& !made.process.execed
            &&& made.segment.start_ns == now_ns
            &&& made.segment.name == "fork:"@ + parent.name
            &&& made.segment.command == parent.command
            &&& made.segment.cwd == parent.cwd
            &&& made.segment.exit_code is None
            &&& after.processes[pid] == state.processes[pid]
        }),
{
}

/// The first program of a process names all of it, from its beginning on, and
/// nothing is written yet.
pub proof fn lemma_first_program_named(
    state: TrackerView,
    pid: i32,
    directory: Seq<char>,
    program: Seq<char>,
    argv: Seq<Seq<char>>,
    mach_time: u64,
    now_ns: u64,
)
    requires
        state.processes.contains_key(pid),
        !state.processes[pid].process.execed,
        names_file(program),
        directory.len() == 0 || directory.last() == '/',
    ensures
        ({
            let executable = directory + program;
            let message = MessageView {
                mach_time,
                pid,
                ppid: 0,
                event: EventView::Exec { argv, executable },
            };
            let before = state.processes[pid];
            let after = state.handled(message, now_ns).processes[pid];
            &&& state.handle_records(message, now_ns) == Seq::<Record>::empty()
            &&& after.process.execed
            &&& after.process.pid == before.process.pid
            &&& after.process.parent_pid == before.process.parent_pid
            &&& after.process.build_parent_pid == before.process.build_parent_pid
            &&& after.segment.name == program
            &&& after.segment.command == executable
            &&& after.segment.start_ns == before.segment.start_ns
            &&& after.segment.cwd == before.segment.cwd
            &&& state.observed(message, now_ns) == Some(executable)
        }),
{
    lemma_file_name(directory, program);
}

/// Another program of a process ends what is shown of the one before, without
/// an exit code, and begins anew.
pub proof fn lemma_next_program_shown(
    state: TrackerView,
    pid: i32,
    directory: Seq<char>,
    program: Seq<char>,
    argv: Seq<Seq<char>>,
    mach_time: u64,
    now_ns: u64,
)
    requires
        state.processes.contains_key(pid),
        state.processes[pid].process.execed,
        state.processes[pid].segment.exit_code is None,
        names_file(program),
        directory.len() == 0 || directory.last() == '/',
    ensures
        ({
            let executable = directory + program;
            let message = MessageView {
                mach_time,
                pid,
                ppid: 0,
                event: EventView::Exec { argv, executable },
            };
            let before = state.processes[pid].segment;
            let after = state.handled(message, now_ns).processes[pid];
            let records = state.handle_records(message, now_ns);
            let packets = record_packets(records.last());
            &&& records.len() > 0
            &&& packets.len() == 2
            &&& is_at(packets[0], before.start_ns)
            &&& now_ns > before.start_ns ==> is_at(packets[1], now_ns)
            &&& is_named(packets[0], before.name)
            &&& shows_text(packets[0], 1, before.command)
            &&& shows_no(packets[0], 7)
            &&& after.process == state.processes[pid].process
            &&& after.segment.name == program
            &&& after.segment.command == executable
            &&& after.segment.start_ns == now_ns
            &&& after.segment.exit_code is None
        }),
{
    lemma_file_name(directory, program);
    let executable = directory + program;
    let message = MessageView {
        mach_time,
        pid,
        ppid: 0,
        event: EventView::Exec { argv, executable },
    };
    let records = state.handle_records(message, now_ns);
    if let Record::Segment { process, segment } = records.last() {
        lemma_segment_shown(process, segment);
    }
}

/// A process whose creation was not seen is followed from its first program
/// on, if its parent is.
pub proof fn lemma_spawn_followed(
    state: TrackerView,
    pid: i32,
    parent: i32,
    argv: Seq<Seq<char>>,
    executable: Seq<char>,
    mach_time: u64,
    now_ns: u64,
)
    requires
        !state.processes.contains_key(pid),
        state.processes.contains_key(parent),
    ensures
        ({
            let message = MessageView {
                mach_time,
                pid,
                ppid: parent,
                event: EventView::Exec { argv, executable },
            };
            let after = state.handled(message, now_ns);
            &&& after.processes.contains_key(pid)
            &&& after.processes[pid].process.pid == pid
            &&& after.processes[pid].process.parent_pid == parent
            &&& after.processes[pid].process.execed
            &&& after.processes[pid].segment.start_ns == now_ns
            &&& after.processes[pid].segment.command == executable
        }),
{
}

/// What still runs when recording ends is shown until then, as not ended.
pub proof fn lemma_still_running_shown(state: TrackerView, pid: i32, end_ns: u64)
    requires
        state.processes.contains_key(pid),
        state.processes[pid].segment.exit_code is None,
        end_ns > state.processes[pid].segment.start_ns,
    ensures
        ({
            let before = state.processes[pid].segment;
            let records = state.cut_off(pid, end_ns);
            let packets = record_packets(records.last());
            &&& records.len() > 0
            &&& packets.len() == 2
            &&& is_at(packets[0], before.start_ns)
            &&& is_at(packets[1], end_ns)
            &&& is_named(packets[0], before.name)
            &&& shows_text(packets[0], 1, before.command)
            &&& shows_no(packets[0], 7)
        }),
{
    if let Record::Segment { process, segment } = state.cut_off(pid, end_ns).last() {
        lemma_segment_shown(process, segment);
    }
}

/// The clock counts whole nanoseconds from its origin, and none before it.
pub proof fn lemma_clock(clock: Clock, mach_time: u64)
    requires
        clock.denom > 0,
    ensures
        mach_time <= clock.origin ==> clock.since(mach_time) == 0,
        mach_time > clock.origin && clock.since(mach_time) < u64::MAX ==> {
            let ticks = mach_time - clock.origin;
            clock.since(mach_time) * clock.denom <= ticks * clock.numer < (clock.since(mach_time)
                + 1) * clock.denom
        },
{
    let ticks = if mach_time < clock.origin {
        0
    } else {
        mach_time - clock.origin
    };
    let product = ticks * clock.numer;
    let denom = clock.denom as int;
    assert(0 * clock.numer as int == 0) by (nonlinear_arith);
    vstd::arithmetic::div_mod::lemma_div_of0(denom);
    assert(0 <= product) by (nonlinear_arith)
        requires
            product == ticks * clock.numer,
            0 <= ticks,
            0 <= clock.numer,
    ;
    vstd::arithmetic::div_mod::lemma_fundamental_div_mod(product, denom);
    vstd::arithmetic::div_mod::lemma_div_pos_is_pos(product, denom);
    let whole = product / denom;
    assert(whole * denom <= product < (whole + 1) * denom) by (nonlinear_arith)
        requires
            product == denom * whole + product % denom,
            0 <= product % denom < denom,
    ;
}

/// The exit status of a command is its code or, where a signal ended it, 128
/// more than that; a command that has neither failed.
pub proof fn lemma_status_code(code: i32, signal: i32)
    ensures
        0 <= code <= 255 ==> status_code(Some(code), None) == code,
        0 < signal < 128 ==> status_code(None, Some(signal)) == 128 + signal,
        status_code(None, None) == 1,
{
}

/// The build never runs as root: it runs as whoever started the recording, and
/// as whom sudo names if that was root.
pub proof fn lemma_target(uid: u32, euid: u32, gid: u32, sudo_uid: u32, sudo_gid: u32)
    ensures
        euid != 0 ==> target(
            uid,
            euid,
            gid,
            Some(decimal(sudo_uid as int)),
            Some(decimal(sudo_gid as int)),
        ) == Err::<(u32, u32), TargetError>(TargetError::NeedsRoot),
        euid == 0 && uid != 0 ==> target(
            uid,
            euid,
            gid,
            Some(decimal(sudo_uid as int)),
            Some(decimal(sudo_gid as int)),
        ) == Ok::<(u32, u32), TargetError>((uid, gid)),
        euid == 0 && uid == 0 && sudo_uid != 0 ==> target(
            uid,
            euid,
            gid,
            Some(decimal(sudo_uid as int)),
            Some(decimal(sudo_gid as int)),
        ) == Ok::<(u32, u32), TargetError>((sudo_uid, sudo_gid)),
        euid == 0 && uid == 0 && sudo_uid == 0 ==> target(
            uid,
            euid,
            gid,
            Some(decimal(sudo_uid as int)),
            Some(decimal(sudo_gid as int)),
        ) == Err::<(u32, u32), TargetError>(TargetError::RefusesRoot),
        euid == 0 && uid == 0 ==> target(uid, euid, gid, None, None) == Err::<
            (u32, u32),
            TargetError,
        >(TargetError::RefusesRoot),
{
    lemma_unsigned_read_back(sudo_uid as nat);
    lemma_unsigned_read_back(sudo_gid as nat);
}

/// The build sees who runs it: their name under both variables, their shell,
/// and their home, the one that sudo kept before that of the user database.
pub proof fn lemma_environment(
    name: Seq<char>,
    home: Seq<char>,
    shell: Seq<char>,
    kept: Seq<char>,
)
    ensures
        environment(Some(name), Some(home), Some(shell), Some(kept)) == seq![
            ("USER"@, name),
            ("LOGNAME"@, name),
            ("HOME"@, kept),
            ("SHELL"@, shell),
        ],
        environment(Some(name), Some(home), Some(shell), None) == seq![
            ("USER"@, name),
            ("LOGNAME"@, name),
            ("HOME"@, home),
            ("SHELL"@, shell),
        ],
        environment(None, None, None, None) == Seq::<(Seq<char>, Seq<char>)>::empty(),
        environment(None, Some(home), None, None) == seq![("HOME"@, home)],
{
}

/// The temporary directory is the text before the zero byte that the length
/// counts.
pub proof fn lemma_temporary_directory(text: Seq<char>, rest: Seq<u8>)
    requires
        text.len() > 0,
    ensures
        ({
            let bytes = encode_utf8(text);
            temporary_text(bytes.push(0) + rest, bytes.len() as int + 1) == Some(text)
        }),
        temporary_text(rest, 1) is None,
        temporary_text(rest, 0) is None,
{
    let bytes = encode_utf8(text);
    encode_utf8_valid_utf8(text);
    encode_utf8_decode_utf8(text);
    assert((bytes.push(0) + rest).take(bytes.len() as int) =~= bytes);
    if bytes.len() == 0 {
        assert(decode_utf8(bytes) == Seq::<char>::empty());
    }
}

/// A recording looks every quarter of a second whether the build is over, and
/// reads for fifty milliseconds more once it is.
pub proof fn lemma_turns(progress: Progress, now_ns: u64)
    ensures
        progress.ended_ns is None ==> progress.turn(now_ns) != Turn::Stop,
        progress.ended_ns is None && now_ns >= progress.last_check_ns + 250_000_000
            ==> progress.turn(now_ns) == Turn::Check,
        progress.ended_ns is None && now_ns < progress.last_check_ns + 250_000_000
            ==> progress.turn(now_ns) == Turn::Read,
        progress.ended_ns matches Some(ended_ns) ==> (progress.turn(now_ns) == Turn::Stop <==> now_ns
            > ended_ns + 50_000_000),
        progress.ended_ns matches Some(ended_ns) ==> progress.turn(now_ns) != Turn::Check,
{
}

/// The build is over once its command has ended and nothing that it started is
/// left, and not before.
pub proof fn lemma_over(progress: Progress, root_exited: bool, anything_alive: bool, now_ns: u64)
    requires
        progress.ended_ns is None,
    ensures
        ({
            let after = settled_by(progress, root_exited, anything_alive, now_ns);
            &&& after.ended_ns is Some <==> (progress.root_exited || root_exited)
                && !anything_alive
            &&& after.ended_ns is Some ==> after.ended_ns == Some(now_ns)
            &&& after.root_exited <==> progress.root_exited || root_exited
            &&& after.last_check_ns == progress.last_check_ns
        }),
{
}

/// The build parent of a process is the nearest process above it that has run
/// a program: forks in between are passed over, unless they ran one before.
pub proof fn lemma_build_parent(
    state: TrackerView,
    parent: i32,
    middle: i32,
    child: i32,
    argv: Seq<Seq<char>>,
    executable: Seq<char>,
    stat: i32,
    mach_time: u64,
    now_ns: u64,
)
    requires
        consistent(state),
        state.processes.contains_key(parent),
        state.processes[parent].process.execed,
        !state.processes.contains_key(middle),
        !state.processes.contains_key(child),
        child != middle,
    ensures
        ({
            let fork = |pid: i32, child: i32|
                MessageView { mach_time, pid, ppid: 0, event: EventView::Fork { child } };
            let exec = MessageView {
                mach_time,
                pid: middle,
                ppid: 0,
                event: EventView::Exec { argv, executable },
            };
            let forked = state.handled(fork(parent, middle), now_ns);
            let orphaned = forked.handled(exit_of(parent, stat, mach_time), now_ns);
            let running = forked.handled(exec, now_ns);
            &&& forked.processes[middle].process.build_parent_pid == parent
            &&& forked.handled(
                fork(middle, child),
                now_ns,
            ).processes[child].process.build_parent_pid == parent
            &&& orphaned.handled(
                fork(middle, child),
                now_ns,
            ).processes[child].process.build_parent_pid == parent
            &&& running.handled(
                fork(middle, child),
                now_ns,
            ).processes[child].process.build_parent_pid == middle
        }),
{
    let fork = MessageView {
        mach_time,
        pid: parent,
        ppid: 0,
        event: EventView::Fork { child: middle },
    };
    let forked = state.handled(fork, now_ns);
    assert(state.ancestry.members.contains_key(parent));
    assert(!state.ancestry.members.contains_key(middle));
    lemma_birth(state.ancestry, middle, parent, parent);
    assert(forked.ancestry.nearest(middle) == parent);
    lemma_end_remembered(forked.ancestry, parent, middle);
}

/// A command that ends without having run anything else is shown from the
/// start of the recording until now, under the name, command and directory it
/// was started with.
pub proof fn lemma_command_recorded(
    pid: i32,
    name: Seq<char>,
    command: Seq<char>,
    cwd: Seq<char>,
    stat: i32,
    mach_time: u64,
    now_ns: u64,
)
    requires
        stat != 1,
        now_ns > 0,
    ensures
        ({
            let state = TrackerView::fresh(pid, name, command, cwd);
            let message = exit_of(pid, stat, mach_time);
            let records = state.handle_records(message, now_ns);
            let packets = record_packets(records.last());
            &&& consistent(state)
            &&& records.len() == 2
            &&& records[0] == (Record::Started { pid })
            &&& is_at(packets[0], 0)
            &&& is_at(packets[1], now_ns)
            &&& is_named(packets[0], name)
            &&& shows_text(packets[0], 1, command)
            &&& shows_text(packets[0], 2, cwd)
            &&& shows_number(packets[0], 3, bits_of(pid as int))
            &&& state.handled(message, now_ns).root_exit_code is Some
        }),
{
    let state = TrackerView::fresh(pid, name, command, cwd);
    assert(state.ancestry.members.dom() =~= state.processes.dom());
    lemma_exit_shown(state, pid, stat, mach_time, now_ns);
}

} // verus!
