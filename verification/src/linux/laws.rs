//! What a recording on Linux shows of a build.

#[allow(unused_imports)]
use super::{
    begun, consistent, end_after, exec_name, failure_of, kind_of, reason, terminated, ptrace, request_of, rename_side, tracee::resolved, AT_FDCWD,
    EventKind, Next, OpenFlags, PathAt, SeccompRead, SeccompRequest, StartFailure, SyscallReturn,
    TracerView, WaitFailure,
};
#[allow(unused_imports)]
use crate::ancestry::{lemma_birth, lemma_end_remembered};
#[allow(unused_imports)]
use crate::linux::seccomp::{renames, SyscallNumbers};
#[allow(unused_imports)]
use crate::model::{Process, SegmentView};
#[allow(unused_imports)]
use crate::perfetto::reading::{
    bits_of, introduces, is_at, is_named, lemma_open_shown, lemma_rename_shown,
    lemma_segment_shown, lemma_tracks_introduced, shows_exit_code, shows_no, shows_number, shows_text,
};
#[allow(unused_imports)]
use crate::perfetto::{file_open_packet, rename_packet, segment_packets};
#[allow(unused_imports)]
use crate::status::{clamped, exit_code};
#[allow(unused_imports)]
use crate::text::laws::{
    lemma_c_string, lemma_decoded, lemma_file_name, lemma_joined, lemma_joined_path, names_file,
};
#[allow(unused_imports)]
use crate::text::{bytes_of, decimal, decoded, file_name, joined, text_of};
use vstd::prelude::*;
#[allow(unused_imports)]
use vstd::utf8::encode_utf8;

verus! {

/// Whether a task is the only one left of a process.
pub open spec fn alone(state: TracerView, tid: i32, pid: i32) -> bool {
    &&& state.tasks.contains_key(tid)
    &&& state.tasks[tid] == pid
    &&& forall|other: i32|
        other != tid && #[trigger] state.tasks.contains_key(other) ==> state.tasks[other] != pid
}

/// When the last task of a process ends, what is written of it shows the low
/// byte of its exit status if it exited, and 128 more than the signal if one
/// ended it, with the program, command and directory it had, from when that
/// began until now.
pub proof fn lemma_exit_status_shown(
    state: TracerView,
    tid: i32,
    pid: i32,
    status: i32,
    now_ns: u64,
)
    requires
        alone(state, tid, pid),
        state.processes.contains_key(pid),
        state.processes[pid].segment is Some,
        status % 128 != 127,
    ensures
        ({
            let known = state.processes[pid];
            let before = known.segment->0;
            match state.last_segment(tid, exit_code(status), now_ns) {
                Some((process, segment)) => {
                    let packets = segment_packets(process, segment);
                    &&& shows_exit_code(
                        packets[0],
                        if status % 128 == 0 {
                            (status as int / 256) % 256
                        } else {
                            128 + status as int % 128
                        },
                    )
                    &&& is_at(packets[0], before.start_ns)
                    &&& now_ns > before.start_ns ==> is_at(packets[1], now_ns)
                    &&& is_named(packets[0], before.name)
                    &&& shows_text(packets[0], 1, before.command)
                    &&& shows_text(packets[0], 2, before.cwd)
                    &&& shows_number(packets[0], 3, bits_of(known.process.pid as int))
                    &&& shows_number(packets[0], 4, bits_of(known.process.parent_pid as int))
                    &&& shows_number(packets[0], 5, bits_of(known.process.build_parent_pid as int))
                    &&& shows_number(
                        packets[0],
                        6,
                        if known.process.execed {
                            1
                        } else {
                            0
                        },
                    )
                },
                None => false,
            }
        }),
{
    let left = state.tasks.remove(tid);
    if left.contains_value(pid) {
        let other = choose|other: i32| #[trigger]
            left.dom().contains(other) && left[other] == pid;
        assert(state.tasks.contains_key(other));
    }
    let (process, segment) = state.last_segment(tid, exit_code(status), now_ns)->0;
    lemma_segment_shown(process, segment);
}

/// Two ends of a process look alike only if its exit status, or the signal
/// that ended it, is the same.
pub proof fn lemma_ends_told_apart(
    state: TracerView,
    tid: i32,
    pid: i32,
    status: i32,
    other_status: i32,
    now_ns: u64,
)
    requires
        alone(state, tid, pid),
        state.processes.contains_key(pid),
        state.processes[pid].segment is Some,
        status % 128 == 0 <==> other_status % 128 == 0,
        state.last_segment(tid, exit_code(status), now_ns) == state.last_segment(
            tid,
            exit_code(other_status),
            now_ns,
        ),
    ensures
        if status % 128 == 0 {
            (status as int / 256) % 256 == (other_status as int / 256) % 256
        } else {
            status as int % 128 == other_status as int % 128
        },
{
    let left = state.tasks.remove(tid);
    if left.contains_value(pid) {
        let other = choose|other: i32| #[trigger]
            left.dom().contains(other) && left[other] == pid;
        assert(state.tasks.contains_key(other));
    }
}

/// A recording ends as its command did: with the low byte of its exit status,
/// or with 128 more than the signal that ended it. No other task's end
/// matters, and before the command ended nothing is known.
pub proof fn lemma_command_decides(state: TracerView, tid: i32, status: i32, now_ns: u64)
    requires
        status % 128 != 127,
    ensures
        ({
            let after = state.exited(tid, exit_code(status), now_ns);
            if tid == state.root_pid {
                after.root_exit_code == Some(
                    if status % 128 == 0 {
                        ((status as int / 256) % 256) as u8
                    } else {
                        (128 + status as int % 128) as u8
                    },
                )
            } else {
                after.root_exit_code == state.root_exit_code
            }
        }),
{
}

/// A task that ended is forgotten: it is no longer waited for, belongs to no
/// process and awaits no call.
pub proof fn lemma_ended_task_forgotten(state: TracerView, tid: i32, code: u32, now_ns: u64, other: i32)
    requires
        other != tid,
    ensures
        ({
            let after = state.exited(tid, code, now_ns);
            &&& !after.active.contains(tid)
            &&& !after.started.contains(tid)
            &&& !after.tasks.contains_key(tid)
            &&& !after.newborns.contains_key(tid)
            &&& !after.pending(tid)
            &&& after.active.contains(other) == state.active.contains(other)
            &&& after.tasks.contains_key(other) == state.tasks.contains_key(other)
            &&& state.tasks.contains_key(other) ==> after.tasks[other] == state.tasks[other]
            &&& after.pending(other) == state.pending(other)
        }),
{
}

/// A path as the process that used it saw it.
pub open spec fn placed(directory: Seq<char>, path: Seq<char>) -> Seq<char> {
    if path.len() > 0 && path[0] == '/' {
        path
    } else if directory.len() > 0 && directory.last() != '/' {
        directory + seq!['/'] + path
    } else {
        directory + path
    }
}

/// Whether some memory holds a text as a C string.
pub open spec fn holds_c_string(memory: Seq<u8>, text: Seq<char>) -> bool {
    &&& forall|i: int| 0 <= i < encode_utf8(text).len() ==> #[trigger] encode_utf8(text)[i] != 0
    &&& exists|rest: Seq<u8>| memory == #[trigger] (encode_utf8(text).push(0) + rest)
}

proof fn lemma_path_read(memory: Seq<u8>, text: Seq<char>)
    requires
        holds_c_string(memory, text),
    ensures
        decoded(crate::text::before_nul(memory)) == text,
{
    let rest = choose|rest: Seq<u8>| memory == #[trigger] (encode_utf8(text).push(0) + rest);
    lemma_c_string(encode_utf8(text), rest);
    lemma_decoded(text);
}

/// A rename that a process makes and that succeeds is recorded once, under the
/// process, from the old path in the old directory to the new path in the new
/// one. One that fails is not recorded.
pub proof fn lemma_rename_recorded(
    state: TracerView,
    tid: i32,
    pid: i32,
    read: SeccompRead,
    old_path: Seq<char>,
    old_directory: Seq<char>,
    new_path: Seq<char>,
    new_directory: Seq<char>,
    now_ns: u64,
    value: i64,
    link: Option<Seq<char>>,
    cwd: Option<Seq<char>>,
)
    requires
        state.tasks.contains_key(tid),
        state.tasks[tid] == pid,
        old_path.len() > 0,
        new_path.len() > 0,
        read matches SeccompRead::Rename {
            from: Some(from),
            from_base: Some(from_base),
            to: Some(to),
            to_base: Some(to_base),
        } && holds_c_string(from@, old_path) && from_base@ == old_directory && holds_c_string(
            to@,
            new_path,
        ) && to_base@ == new_directory,
    ensures
        ({
            let entered = state.entered(tid, read, now_ns);
            let returned = Some(SyscallReturn { op: 2, value });
            let packets = entered.return_packets(tid, returned, link, cwd);
            &&& entered.pending(tid)
            &&& value != 0 ==> packets.len() == 0
            &&& value == 0 ==> {
                &&& packets.len() == 1
                &&& is_at(packets[0], now_ns)
                &&& shows_text(packets[0], 11, placed(old_directory, old_path))
                &&& shows_text(packets[0], 12, placed(new_directory, new_path))
                &&& shows_number(packets[0], 13, bits_of(pid as int))
            }
            &&& !entered.returned(tid, returned).pending_renames.contains_key(tid)
        }),
{
    if let SeccompRead::Rename { from, from_base, to, to_base } = read {
        lemma_path_read(from->0@, old_path);
        lemma_path_read(to->0@, new_path);
        lemma_joined_path(old_directory, old_path);
        lemma_joined_path(new_directory, new_path);
        let entered = state.entered(tid, read, now_ns);
        lemma_rename_shown(pid, entered.pending_renames[tid]);
    }
}

/// A rename of which a path could not be read is not recorded.
pub proof fn lemma_unreadable_rename_ignored(state: TracerView, tid: i32, read: SeccompRead, now_ns: u64)
    requires
        read matches SeccompRead::Rename { from, to, .. } && (from is None || to is None),
    ensures
        state.entered(tid, read, now_ns) == state,
{
}

/// A file that a process opens is recorded once the call succeeded, under the
/// process: at the time the call was made, where its descriptor leads or else
/// under the path it was opened by, with the flags and the descriptor. One
/// that could not be opened is not recorded.
pub proof fn lemma_open_recorded(
    state: TracerView,
    tid: i32,
    pid: i32,
    read: SeccompRead,
    path: Seq<char>,
    flags: u64,
    now_ns: u64,
    value: i64,
    link: Option<Seq<char>>,
    cwd: Seq<char>,
)
    requires
        state.tasks.contains_key(tid),
        state.tasks[tid] == pid,
        !state.pending_renames.contains_key(tid),
        value <= i32::MAX,
        read matches SeccompRead::Open { path: Some(memory), flags: Some(given) } && holds_c_string(
            memory@,
            path,
        ) && given == flags,
    ensures
        ({
            let entered = state.entered(tid, read, now_ns);
            let returned = Some(SyscallReturn { op: 2, value });
            let packets = entered.return_packets(tid, returned, link, Some(cwd));
            &&& entered.pending(tid)
            &&& value < 0 ==> packets.len() == 0
            &&& value >= 0 ==> {
                &&& packets.len() == 1
                &&& is_at(packets[0], now_ns)
                &&& match link {
                    Some(link) => shows_text(packets[0], 8, link),
                    None => shows_text(packets[0], 8, placed(cwd, path)),
                }
                &&& shows_number(packets[0], 9, flags)
                &&& shows_number(packets[0], 10, value as u64)
                &&& shows_number(packets[0], 13, bits_of(pid as int))
            }
            &&& !entered.returned(tid, returned).pending_opens.contains_key(tid)
        }),
{
    if let SeccompRead::Open { path: memory, .. } = read {
        lemma_path_read(memory->0@, path);
        lemma_joined_path(cwd, path);
        let entered = state.entered(tid, read, now_ns);
        if value >= 0 {
            lemma_open_shown(pid, entered.opened(tid, value, link, Some(cwd)));
        }
    }
}

/// A path that cannot be read is shown as such, and flags that cannot as none.
pub proof fn lemma_unreadable_open_recorded(
    state: TracerView,
    tid: i32,
    pid: i32,
    read: SeccompRead,
    now_ns: u64,
)
    requires
        state.tasks.contains_key(tid),
        state.tasks[tid] == pid,
        !state.pending_renames.contains_key(tid),
        read matches SeccompRead::Open { path: None, flags: None },
    ensures
        ({
            let entered = state.entered(tid, read, now_ns);
            let packets = entered.return_packets(
                tid,
                Some(SyscallReturn { op: 2, value: 3 }),
                None,
                None,
            );
            &&& packets.len() == 1
            &&& shows_text(packets[0], 8, "<unreadable path>"@)
            &&& shows_number(packets[0], 9, 0)
        }),
{
    let entered = state.entered(tid, read, now_ns);
    lemma_open_shown(pid, entered.opened(tid, 3, None, None));
}

/// Until a call returns nothing is recorded of it, and it stays awaited.
pub proof fn lemma_call_awaited(
    state: TracerView,
    tid: i32,
    returned: SyscallReturn,
    link: Option<Seq<char>>,
    cwd: Option<Seq<char>>,
)
    requires
        returned.op != 2,
    ensures
        state.return_packets(tid, Some(returned), link, cwd).len() == 0,
        state.returned(tid, Some(returned)) == state,
{
}

/// A process forked by another begins now, below that one, with the command
/// and directory of that one and a name that says it is a fork of it. It has
/// run nothing of its own and has not ended. Others stay as they were.
pub proof fn lemma_fork_recorded(
    state: TracerView,
    tid: i32,
    child: i32,
    parent: i32,
    now_ns: u64,
    other: i32,
)
    requires
        child != parent,
        !state.processes.contains_key(child),
        state.processes.contains_key(parent),
        state.processes[parent].segment is Some,
        other != child,
    ensures
        ({
            let after = state.registered(tid, child, parent, now_ns);
            let above = state.processes[parent].segment->0;
            let known = after.processes[child];
            &&& after.processes.contains_key(child)
            &&& known.process.pid == child
            &&& known.process.parent_pid == parent
            &&& !known.process.execed
            &&& state.processes[parent].process.execed && state.ancestry.members.contains_key(
                parent,
            ) && state.ancestry.members[parent].execed ==> known.process.build_parent_pid == parent
            &&& known.segment matches Some(segment) && {
                &&& segment.start_ns == now_ns
                &&& segment.name == "fork:"@ + above.name
                &&& segment.command == above.command
                &&& segment.cwd == above.cwd
                &&& segment.exit_code is None
            }
            &&& after.tasks.contains_key(tid) && after.tasks[tid] == child
            &&& after.processes.contains_key(other) == state.processes.contains_key(other)
            &&& after.processes[other] == state.processes[other]
        }),
{
}

/// A thread makes no process: what is known of processes stays as it was, and
/// the thread belongs to the process that started it.
pub proof fn lemma_thread_recorded(state: TracerView, tid: i32, pid: i32, now_ns: u64)
    ensures
        ({
            let after = state.registered(tid, pid, pid, now_ns);
            &&& after.processes == state.processes
            &&& after.tasks.contains_key(tid)
            &&& after.tasks[tid] == pid
        }),
{
}

/// The first program that a process runs takes over what is shown of it from
/// its start on, under the program's file name, with the arguments one after
/// the other and the directory.
pub proof fn lemma_first_program(
    state: TracerView,
    tid: i32,
    pid: i32,
    directory: Seq<char>,
    program: Seq<char>,
    arguments: Seq<Seq<char>>,
    cwd: Seq<char>,
    parent_pid: Option<i32>,
    now_ns: u64,
)
    requires
        state.tasks.contains_key(tid),
        state.tasks[tid] == pid,
        state.processes.contains_key(pid),
        !state.processes[pid].process.execed,
        state.processes[pid].segment is Some,
        directory.len() == 0 || directory.last() == '/',
        names_file(program),
    ensures
        ({
            let before = state.processes[pid];
            let argv = seq![directory + program] + arguments;
            let after = state.execed(tid, argv, cwd, parent_pid, now_ns).processes[pid];
            &&& after.process == (Process { execed: true, ..before.process })
            &&& after.segment matches Some(segment) && {
                &&& segment.start_ns == before.segment->0.start_ns
                &&& segment.name == program
                &&& segment.cwd == cwd
                &&& segment.exit_code == before.segment->0.exit_code
                &&& arguments.len() == 0 ==> segment.command == directory + program
            }
            &&& state.exec_packets(tid, now_ns).len() == 0
        }),
{
    let argv = seq![directory + program] + arguments;
    lemma_file_name(directory, program);
    assert(argv[0] == directory + program);
    if arguments.len() == 0 {
        assert(argv =~= seq![directory + program]);
        lemma_joined(Seq::empty(), directory + program, " "@);
    }
}

/// Each argument of a program is shown behind the ones before it, after a
/// space.
pub proof fn lemma_command_shown(
    state: TracerView,
    tid: i32,
    pid: i32,
    argv: Seq<Seq<char>>,
    last: Seq<char>,
    cwd: Seq<char>,
    parent_pid: Option<i32>,
    now_ns: u64,
)
    requires
        state.tasks.contains_key(tid),
        state.tasks[tid] == pid,
        state.processes.contains_key(pid),
        state.processes[pid].segment is Some,
        argv.len() > 0,
    ensures
        ({
            let shorter = state.execed(tid, argv, cwd, parent_pid, now_ns).processes[pid].segment;
            let longer = state.execed(
                tid,
                argv.push(last),
                cwd,
                parent_pid,
                now_ns,
            ).processes[pid].segment;
            &&& shorter is Some
            &&& longer is Some
            &&& longer->0.command == shorter->0.command + " "@ + last
            &&& longer->0.name == shorter->0.name
        }),
{
    lemma_joined(argv, last, " "@);
    assert(argv.push(last)[0] == argv[0]);
}

/// A program that replaces another ends what was shown of that one, which
/// keeps its name, command, directory and start, and is shown from now on.
pub proof fn lemma_next_program(
    state: TracerView,
    tid: i32,
    pid: i32,
    directory: Seq<char>,
    program: Seq<char>,
    arguments: Seq<Seq<char>>,
    cwd: Seq<char>,
    parent_pid: Option<i32>,
    now_ns: u64,
)
    requires
        state.tasks.contains_key(tid),
        state.tasks[tid] == pid,
        state.processes.contains_key(pid),
        state.processes[pid].process.execed,
        state.processes[pid].segment is Some,
        directory.len() == 0 || directory.last() == '/',
        names_file(program),
    ensures
        ({
            let before = state.processes[pid];
            let shown = before.segment->0;
            let argv = seq![directory + program] + arguments;
            let after = state.execed(tid, argv, cwd, parent_pid, now_ns).processes[pid];
            let packets = state.exec_packets(tid, now_ns);
            &&& after.process == before.process
            &&& after.segment matches Some(segment) && {
                &&& segment.start_ns == now_ns
                &&& segment.name == program
                &&& segment.cwd == cwd
                &&& segment.exit_code is None
            }
            &&& packets.len() == 2
            &&& is_at(packets[0], shown.start_ns)
            &&& now_ns > shown.start_ns ==> is_at(packets[1], now_ns)
            &&& is_named(packets[0], shown.name)
            &&& shows_text(packets[0], 1, shown.command)
            &&& shows_text(packets[0], 2, shown.cwd)
            &&& shown.exit_code is None ==> shows_no(packets[0], 7)
        }),
{
    let argv = seq![directory + program] + arguments;
    lemma_file_name(directory, program);
    assert(argv[0] == directory + program);
    let (process, segment) = state.replaced(tid, now_ns)->0;
    lemma_segment_shown(process, segment);
}

/// A process whose command line cannot be read is named after its task.
pub proof fn lemma_nameless_program(tid: i32)
    ensures
        super::exec_arguments(tid, None) == seq!["pid:"@ + decimal(tid as int)],
        exec_name(tid, Seq::empty()) == "pid:"@ + decimal(tid as int),
{
}

/// A process first seen when it ran a program is shown from then on, below the
/// parent it says it has.
pub proof fn lemma_adopted(
    state: TracerView,
    tid: i32,
    argv: Seq<Seq<char>>,
    cwd: Seq<char>,
    parent: i32,
    now_ns: u64,
)
    requires
        !state.tasks.contains_key(tid),
        !state.processes.contains_key(tid),
    ensures
        ({
            let after = state.execed(tid, argv, cwd, Some(parent), now_ns);
            let known = after.processes[tid];
            &&& after.processes.contains_key(tid)
            &&& known.process.pid == tid
            &&& known.process.parent_pid == parent
            &&& known.process.execed
            &&& known.segment matches Some(segment) && segment.start_ns == now_ns && segment.cwd
                == cwd
            &&& after.active.contains(tid)
            &&& after.tasks.contains_key(tid)
        }),
{
}

/// What still runs when recording ends is shown until then, as not ended.
pub proof fn lemma_cut_off_shown(state: TracerView, pid: i32, end_ns: u64)
    requires
        state.processes.contains_key(pid),
        state.processes[pid].segment is Some,
        state.processes[pid].segment->0.exit_code is None,
        end_ns > state.processes[pid].segment->0.start_ns,
    ensures
        ({
            let shown = state.processes[pid].segment->0;
            let packets = state.processes[pid].cut_off_packets(end_ns);
            &&& packets.len() == 2
            &&& is_at(packets[0], shown.start_ns)
            &&& is_at(packets[1], end_ns)
            &&& is_named(packets[0], shown.name)
            &&& shows_text(packets[0], 1, shown.command)
            &&& shows_no(packets[0], 7)
        }),
{
    let (process, segment) = state.processes[pid].cut_off(end_ns)->0;
    lemma_segment_shown(process, segment);
}

/// A signal that stops a task is handed on to it, unless it is the stop with
/// which every task begins.
pub proof fn lemma_signal_handed_on(state: TracerView, tid: i32, signal: i32)
    requires
        0 < signal < 128,
        signal != 19 || state.started.contains(tid),
    ensures
        state.after_stop(tid, (signal * 256 + 127) as i32) == (Next::Resume {
            signal,
            to_syscall: state.pending(tid),
        }),
{
    let status = (signal * 256 + 127) as i32;
    assert(status / 65536 == 0);
    assert(status / 256 == signal);
}

/// The stop with which a task begins is kept from it, and the task runs.
pub proof fn lemma_initial_stop_kept(state: TracerView, tid: i32, tgid: Option<i32>, now_ns: u64)
    requires
        !state.started.contains(tid),
    ensures
        state.after_stop(tid, 0x137f) == (Next::Resume { signal: 0, to_syscall: false }),
        state.at_stop(tid, 0x137f, tgid, now_ns).started.contains(tid),
        state.at_stop(tid, 0x137f, tgid, now_ns).active.contains(tid),
{
    assert(0x137fi32 / 65536 == 0);
    assert(0x137fi32 / 256 == 19);
}

/// A stop for a ptrace event or at a system call is looked at as such.
pub proof fn lemma_events_told_apart(state: TracerView, tid: i32, event: int)
    requires
        0 < event < 0x8000,
    ensures
        state.after_stop(tid, (event * 65536 + 0x57f) as i32) == (Next::Event {
            event: event as u32,
        }),
        state.after_stop(tid, 0x857f) == Next::Syscall,
{
    let status = (event * 65536 + 0x57f) as i32;
    assert(status as int == event * 65536 + 0x57f);
    assert(status as int / 65536 == event);
    assert((status as int / 65536) % 65536 == event);
    assert(0x857fi32 / 65536 == 0);
    assert(0x857fi32 / 256 == 0x85);
}

/// What is read of a system call: the two paths of a rename, each with the
/// directory it is relative to, and the path and flags of an open.
pub proof fn lemma_arguments_of_calls(numbers: SyscallNumbers, nr: i64, args: Seq<u64>)
    requires
        args.len() == 6,
        numbers.openat != numbers.openat2,
        numbers.openat != numbers.renameat,
        numbers.openat != numbers.renameat2,
        numbers.openat2 != numbers.renameat,
        numbers.openat2 != numbers.renameat2,
        numbers.rename != Some(numbers.openat),
        numbers.rename != Some(numbers.openat2),
        numbers.rename != Some(numbers.renameat),
        numbers.rename != Some(numbers.renameat2),
    ensures
        request_of(numbers, numbers.openat, args) == (SeccompRequest::Open {
            path: args[1],
            flags: OpenFlags::Known { flags: args[2] },
        }),
        request_of(numbers, numbers.openat2, args) == (SeccompRequest::Open {
            path: args[1],
            flags: OpenFlags::InMemory { address: args[2] },
        }),
        nr == numbers.renameat || nr == numbers.renameat2 ==> request_of(numbers, nr, args) == (
        SeccompRequest::Rename {
            from: PathAt { dirfd: args[0] as i32, address: args[1] },
            to: PathAt { dirfd: args[2] as i32, address: args[3] },
        }),
        numbers.rename == Some(nr) ==> request_of(numbers, nr, args) == (SeccompRequest::Rename {
            from: PathAt { dirfd: (-100) as i32, address: args[0] },
            to: PathAt { dirfd: (-100) as i32, address: args[1] },
        }),
{
}

/// A stop for a new task, for a program that was run and for a filtered call
/// are told apart by the numbers that Linux gives them.
pub proof fn lemma_event_kinds(event: u32)
    ensures
        kind_of(event) == EventKind::NewTask <==> 1 <= event <= 3,
        kind_of(event) == EventKind::Exec <==> event == 4,
        kind_of(event) == EventKind::Seccomp <==> event == 7,
{
}

/// An interrupted wait is made again, and recording is over once no child is
/// left; anything else is an error.
pub proof fn lemma_wait_failures(errno: i32)
    ensures
        failure_of(errno) == WaitFailure::Retry <==> errno == 4,
        failure_of(errno) == WaitFailure::Finished <==> errno == 10,
{
}

/// A tracee that is gone is no error, and nothing else is passed over.
pub proof fn lemma_only_gone_passed_over<T>(result: Result<T, i32>)
    ensures
        ptrace::unless_dead(result) is Err <==> (result matches Err(error) && error != 3),
        ptrace::unless_dead(result) == Ok::<Option<T>, i32>(None) <==> result == Err::<T, i32>(3),
        result matches Ok(value) ==> ptrace::unless_dead(result) == Ok::<Option<T>, i32>(
            Some(value),
        ),
        result matches Err(error) ==> error != 3 ==> ptrace::unless_dead(result) == Err::<
            Option<T>,
            i32,
        >(error),
{
}

/// A command can be traced if and only if it stops before it begins. One that
/// exits with 126 was not permitted to be.
pub proof fn lemma_begun(status: i32)
    ensures
        begun(status) is Ok <==> status % 256 == 127,
        begun(status) == Err::<(), StartFailure>(StartFailure::NotPermitted) <==> status % 128 == 0
            && (status as int / 256) % 256 == 126,
{
}

/// A recording comes to the exit code of the command, and to one if the
/// command's end was not seen.
pub proof fn lemma_outcome(state: TracerView, end_ns: u64)
    ensures
        state.outcome(end_ns) matches Ok(code) ==> {
            &&& state.root_exit_code is Some ==> state.root_exit_code == Some(code)
            &&& state.root_exit_code is None ==> code == 1
        },
        state.outcome(end_ns) is Ok <==> forall|pid: i32| #[trigger]
            state.processes.contains_key(pid) ==> state.processes[pid].cut_off_fits(end_ns),
{
}

/// The build parent of a process is the process that created it if that one
/// has run a program, and so it is if nothing is known of that one.
pub proof fn lemma_build_parent(
    state: TracerView,
    tid: i32,
    child: i32,
    parent: i32,
    now_ns: u64,
)
    requires
        consistent(state),
        child != parent,
        !state.processes.contains_key(child),
        state.processes.contains_key(parent) ==> state.processes[parent].process.execed,
    ensures
        state.registered(tid, child, parent, now_ns).processes[child].process.build_parent_pid
            == parent,
{
    assert(state.ancestry.members.contains_key(parent) == state.processes.contains_key(parent));
}

/// Processes that never ran a program are passed over: below a fork of a
/// process that did, a new process counts to that one, even once it has ended.
/// If the fork runs a program before, a new process counts to the fork.
pub proof fn lemma_build_parent_past_forks(
    state: TracerView,
    parent_tid: i32,
    parent: i32,
    middle: i32,
    child: i32,
    argv: Seq<Seq<char>>,
    cwd: Seq<char>,
    code: u32,
    now_ns: u64,
)
    requires
        consistent(state),
        state.processes.contains_key(parent),
        state.processes[parent].process.execed,
        !state.processes.contains_key(middle),
        !state.processes.contains_key(child),
        child != middle,
        parent_tid != middle,
        alone(state, parent_tid, parent),
    ensures
        ({
            let forked = state.registered(middle, middle, parent, now_ns);
            let orphaned = forked.exited(parent_tid, code, now_ns);
            let running = forked.execed(middle, argv, cwd, None, now_ns);
            &&& forked.registered(
                child,
                child,
                middle,
                now_ns,
            ).processes[child].process.build_parent_pid == parent
            &&& orphaned.registered(
                child,
                child,
                middle,
                now_ns,
            ).processes[child].process.build_parent_pid == parent
            &&& running.registered(
                child,
                child,
                middle,
                now_ns,
            ).processes[child].process.build_parent_pid == middle
        }),
{
    let forked = state.registered(middle, middle, parent, now_ns);
    assert(state.ancestry.members.contains_key(parent));
    assert(!state.ancestry.members.contains_key(middle));
    lemma_birth(state.ancestry, middle, parent, parent);
    assert(forked.ancestry.nearest(middle) == parent);
    let left = forked.tasks.remove(parent_tid);
    assert(!left.contains_value(parent)) by {
        if left.contains_value(parent) {
            let other = choose|other: i32| #[trigger]
                left.dom().contains(other) && left[other] == parent;
            assert(other != middle);
            assert(state.tasks.contains_key(other));
        }
    }
    lemma_end_remembered(forked.ancestry, parent, middle);
    let orphaned = forked.exited(parent_tid, code, now_ns);
    assert(orphaned.ancestry == forked.ancestry.gone(parent));
    assert(!orphaned.processes.contains_key(child));
}

/// A process of which not even the parent can be told stands below none.
pub proof fn lemma_adopted_by_nobody(
    state: TracerView,
    tid: i32,
    argv: Seq<Seq<char>>,
    cwd: Seq<char>,
    now_ns: u64,
)
    requires
        !state.tasks.contains_key(tid),
        !state.processes.contains_key(tid),
    ensures
        state.execed(tid, argv, cwd, None, now_ns).processes[tid].process.parent_pid == 0,
{
}

/// A process that becomes known gets its tracks at once, whether it was forked
/// or first seen when it ran a program.
pub proof fn lemma_tracks_of_new_processes(
    state: TracerView,
    tid: i32,
    pid: i32,
    parent: i32,
    now_ns: u64,
)
    requires
        !state.processes.contains_key(pid),
        pid != parent,
    ensures
        ({
            let forked = state.announcement(pid, parent);
            let found = state.exec_packets(tid, now_ns);
            let track = (4 * (pid as int % 0x1_0000_0000) + 1) as u64;
            let files = (4 * (pid as int % 0x1_0000_0000) + 2) as u64;
            &&& forked.len() == 2
            &&& introduces(forked[0], track)
            &&& introduces(forked[1], files)
            &&& state.tgid(tid) == pid ==> found.len() == 2 && introduces(found[0], track)
                && introduces(found[1], files)
        }),
{
    lemma_tracks_introduced(pid);
}

/// A task that another creates runs, belongs to the process that it names, or
/// is one of its own, and is known to come from the process of the other.
pub proof fn lemma_new_task(
    state: TracerView,
    tid: i32,
    child: i32,
    pid: i32,
    now_ns: u64,
)
    requires
        !state.processes.contains_key(child),
        !state.processes.contains_key(pid),
        pid != state.tgid(tid),
        child != state.tgid(tid),
    ensures
        ({
            let parent = state.tgid(tid);
            let named = state.created(tid, child, Some(pid), now_ns);
            let unnamed = state.created(tid, child, None, now_ns);
            &&& named.tasks.contains_key(child) && named.tasks[child] == pid
            &&& named.processes.contains_key(pid)
            &&& named.processes[pid].process.parent_pid == parent
            &&& unnamed.tasks.contains_key(child) && unnamed.tasks[child] == child
            &&& unnamed.processes.contains_key(child)
            &&& unnamed.processes[child].process.parent_pid == parent
            &&& unnamed.active.contains(child)
            &&& unnamed.newborns.contains_key(child) && unnamed.newborns[child] == parent
            &&& forall|other: i32|
                other != child && #[trigger] state.active.contains(other)
                    ==> unnamed.active.contains(other)
        }),
{
}

/// A command that ends without having run anything else is shown from the
/// start of the recording until now, under the name, command and directory it
/// was started with, and the recording comes to its exit code.
pub proof fn lemma_command_recorded(
    child: i32,
    name: Seq<char>,
    command: Seq<char>,
    cwd: Seq<char>,
    status: i32,
    now_ns: u64,
)
    requires
        status % 128 != 127,
        now_ns > 0,
    ensures
        ({
            let state = TracerView::fresh(child, name, command, cwd);
            let code = if status % 128 == 0 {
                (status as int / 256) % 256
            } else {
                128 + status as int % 128
            };
            &&& state.active.contains(child)
            &&& consistent(state)
            &&& state.exited(child, exit_code(status), now_ns).root_exit_code == Some(code as u8)
            &&& match state.last_segment(child, exit_code(status), now_ns) {
                Some((process, segment)) => {
                    let packets = segment_packets(process, segment);
                    &&& is_at(packets[0], 0)
                    &&& is_at(packets[1], now_ns)
                    &&& is_named(packets[0], name)
                    &&& shows_text(packets[0], 1, command)
                    &&& shows_text(packets[0], 2, cwd)
                    &&& shows_number(packets[0], 3, bits_of(child as int))
                    &&& shows_number(packets[0], 4, 0)
                    &&& shows_number(packets[0], 6, 0)
                    &&& shows_exit_code(packets[0], code)
                },
                None => false,
            }
        }),
{
    let state = TracerView::fresh(child, name, command, cwd);
    assert(state.ancestry.members.dom() =~= state.processes.dom());
    assert(alone(state, child, child));
    assert(bits_of(0) == 0);
    lemma_exit_status_shown(state, child, child, status, now_ns);
}

/// The arguments of a command are handed to the system as they are, each with
/// a zero byte behind it.
pub proof fn lemma_terminated(command: Seq<Vec<u8>>, i: int)
    requires
        0 <= i < command.len(),
    ensures
        terminated(command).len() == command.len(),
        terminated(command)[i] == command[i]@ + seq![0u8],
{
    assert(command[i]@.push(0) =~= command[i]@ + seq![0u8]);
}

/// The words for the errors that a child can tell of are those of Linux's
/// error numbers.
pub proof fn lemma_reasons()
    ensures
        reason(1) == "operation not permitted"@,
        reason(2) == "no such file or directory"@,
        reason(8) == "not an executable"@,
        reason(13) == "permission denied"@,
        reason(22) == "invalid argument"@,
        reason(38) == "not supported by this kernel"@,
{
}

} // verus!
