use buildprof::blind_spots::BlindSpots;
use buildprof::linux::ptrace::{
    allow_dead, ignore_dead, wexitstatus, wifexited, wifsignaled, wifstopped, wstopevent, wstopsig,
    wtermsig, ECHILD, EINTR, ESRCH, EVENT_EXEC, EVENT_FORK, EVENT_SECCOMP, SYSCALL_INFO_EXIT,
    SYSCALL_INFO_SECCOMP,
};
use buildprof::linux::seccomp::{
    filter_instructions, is_bare_rename, is_rename, traced_syscalls, SockFilter, SyscallNumbers,
    RET_ALLOW, RET_TRACE,
};
use buildprof::linux::tracee::{
    c_string, command_line, executable_name, read_command_line, read_ppid, read_tgid, read_word,
    resolve_at_path, resolve_open_path,
};
use buildprof::linux::{
    errno_digits, event_kind, failure_reason, initial_stop, make_argv, seccomp_request,
    wait_failure, Awaited, CommandError, EventKind, Next, OpenFlags, PathAt, SeccompRead,
    SeccompRequest, StartFailure, SyscallReturn, Tracer, WaitFailure, AT_FDCWD,
};
use buildprof::model::{Process, Segment};
use buildprof::perfetto::Writer;
use buildprof::status::{clamp_code, exit_code_of};

const SIGTRAP_STOP: i32 = 0x057f;
const SIGSTOP_STOP: i32 = 0x137f;

/// A stop for a ptrace event.
fn event_stop(event: u32) -> i32 {
    SIGTRAP_STOP | ((event as i32) << 16)
}

fn resume(to_syscall: bool) -> Next {
    Next::Resume { signal: 0, to_syscall }
}

/// A tracer of `make`, pid 10, and the trace it writes.
fn tracer() -> (Tracer, Writer) {
    let mut writer = Writer::create();
    let tracer =
        Tracer::new(10, "make".into(), "make all".into(), "/src".into(), &mut writer).unwrap();
    writer.take();
    (tracer, writer)
}

/// Whether a text stands in a trace.
fn holds(trace: &[u8], text: &str) -> bool {
    trace.windows(text.len()).any(|window| window == text.as_bytes())
}

#[test]
fn a_command_is_followed_until_it_ends() {
    let (mut tracer, mut writer) = tracer();
    let mut spots = BlindSpots::default();
    assert!(tracer.running());
    assert_eq!(
        tracer.handle_wait(10, event_stop(EVENT_EXEC), None, 5, &mut writer),
        Ok(Next::Event { event: EVENT_EXEC })
    );
    let argv = Some(vec!["cc".to_owned(), "-c".to_owned()]);
    assert_eq!(
        tracer.handle_exec(10, argv, Some("/b".into()), None, 5, &mut writer, &mut spots),
        Ok(resume(false))
    );
    assert_eq!(
        tracer.handle_wait(10, 3 << 8, None, 9, &mut writer),
        Ok(Next::Exited { process: Some((10, 0)) })
    );
    assert!(!tracer.running());
    let trace = writer.take();
    assert!(holds(&trace, "cc -c") && holds(&trace, "/b"));
    assert_eq!(tracer.finish(12, &mut writer), Ok(3));
    assert!(writer.take().is_empty());
}

#[test]
fn a_child_is_awaited_with_its_parent() {
    let (mut tracer, mut writer) = tracer();
    assert_eq!(
        tracer.handle_wait(10, event_stop(EVENT_FORK), None, 3, &mut writer),
        Ok(Next::Event { event: EVENT_FORK })
    );
    assert_eq!(tracer.handle_new_task(10, 11, Some(11), 3, &mut writer), Ok(resume(false)));
    // The first stop of a new task is not passed on to it.
    assert_eq!(
        tracer.handle_wait(11, SIGSTOP_STOP, Some(11), 4, &mut writer),
        Ok(resume(false))
    );
    // A later one is.
    assert_eq!(
        tracer.handle_wait(11, SIGSTOP_STOP, Some(11), 5, &mut writer),
        Ok(Next::Resume { signal: 19, to_syscall: false })
    );
    tracer.handle_wait(10, 0, None, 6, &mut writer).unwrap();
    assert!(tracer.running(), "the child still runs");
    tracer.handle_wait(11, 9, Some(11), 7, &mut writer).unwrap();
    assert!(!tracer.running());
    let trace = writer.take();
    assert!(holds(&trace, "fork:make"));
    assert_eq!(tracer.finish(8, &mut writer), Ok(0));
}

#[test]
fn what_still_runs_is_written_at_the_end() {
    let (tracer, mut writer) = tracer();
    assert_eq!(tracer.finish(20, &mut writer), Ok(1));
    assert!(holds(&writer.take(), "make all"));
}

#[test]
fn opened_files_are_written_once_the_call_returns() {
    let (mut tracer, mut writer) = tracer();
    assert_eq!(
        tracer.handle_wait(10, event_stop(EVENT_SECCOMP), None, 3, &mut writer),
        Ok(Next::Event { event: EVENT_SECCOMP })
    );
    let read = SeccompRead::Open { path: Some(b"a.c\0junk".to_vec()), flags: Some(1) };
    tracer.handle_seccomp(10, read, 3);
    assert_eq!(tracer.awaited(10), Awaited::Open);
    assert_eq!(tracer.handle_wait(10, 0x857f, None, 4, &mut writer), Ok(Next::Syscall));
    let entry = Some(SyscallReturn { op: SYSCALL_INFO_SECCOMP, value: 0 });
    assert_eq!(
        tracer.handle_syscall_stop(10, entry, None, Some("/src".into()), &mut writer),
        Ok(resume(true))
    );
    let exit = Some(SyscallReturn { op: SYSCALL_INFO_EXIT, value: 3 });
    assert_eq!(
        tracer.handle_syscall_stop(10, exit, None, Some("/src".into()), &mut writer),
        Ok(resume(false))
    );
    assert_eq!(tracer.awaited(10), Awaited::Nothing);
    let trace = writer.take();
    assert!(holds(&trace, "/src/a.c") && !holds(&trace, "junk"));
}

#[test]
fn failed_calls_leave_no_trace() {
    let (mut tracer, mut writer) = tracer();
    let failed = Some(SyscallReturn { op: SYSCALL_INFO_EXIT, value: -2 });
    tracer.handle_seccomp(10, SeccompRead::Open { path: None, flags: None }, 3);
    tracer.handle_syscall_stop(10, failed, None, None, &mut writer).unwrap();
    let read = SeccompRead::Rename {
        from: Some(b"a\0".to_vec()),
        from_base: Some("/src".into()),
        to: Some(b"/b\0".to_vec()),
        to_base: None,
    };
    tracer.handle_seccomp(10, read, 4);
    assert_eq!(tracer.awaited(10), Awaited::Rename);
    tracer.handle_syscall_stop(10, failed, None, None, &mut writer).unwrap();
    assert!(writer.take().is_empty());
}

#[test]
fn moved_files_are_written_with_both_paths() {
    let (mut tracer, mut writer) = tracer();
    let read = SeccompRead::Rename {
        from: Some(b"a\0".to_vec()),
        from_base: Some("/src".into()),
        to: Some(b"/b\0".to_vec()),
        to_base: None,
    };
    tracer.handle_seccomp(10, read, 4);
    let exit = Some(SyscallReturn { op: SYSCALL_INFO_EXIT, value: 0 });
    tracer.handle_syscall_stop(10, exit, None, None, &mut writer).unwrap();
    let trace = writer.take();
    assert!(holds(&trace, "/src/a") && holds(&trace, "/b"));
}

#[test]
fn a_thread_belongs_to_its_process() {
    let (mut tracer, mut writer) = tracer();
    tracer.handle_new_task(10, 12, Some(10), 3, &mut writer).unwrap();
    assert!(writer.take().is_empty(), "a thread has no tracks");
    assert_eq!(
        tracer.handle_wait(12, 0, None, 4, &mut writer),
        Ok(Next::Exited { process: None })
    );
    assert!(tracer.running());
}

#[test]
fn programs_that_hide_work_are_noticed() {
    let (mut tracer, mut writer) = tracer();
    let mut spots = BlindSpots::default();
    let argv = Some(vec!["/usr/bin/docker".to_owned()]);
    tracer.handle_exec(10, argv, None, None, 5, &mut writer, &mut spots).unwrap();
    assert_eq!(spots.report()[0][0].text, "docker");
}

#[test]
fn wait_statuses_are_told_apart() {
    assert!(wifexited(0x0300) && !wifsignaled(0x0300) && !wifstopped(0x0300));
    assert_eq!(wexitstatus(0x0300), 3);
    assert!(wifsignaled(0x0009) && !wifexited(0x0009) && !wifstopped(0x0009));
    assert_eq!(wtermsig(0x0009), 9);
    assert_eq!(wtermsig(0x008b), 11, "a core dump does not change the signal");
    assert!(wifstopped(SIGSTOP_STOP) && !wifexited(SIGSTOP_STOP) && !wifsignaled(SIGSTOP_STOP));
    assert_eq!(wstopsig(SIGSTOP_STOP), 19);
    assert_eq!(wstopevent(event_stop(EVENT_SECCOMP)), EVENT_SECCOMP);
    assert!(!wifexited(0xffff) && !wifsignaled(0xffff) && !wifstopped(0xffff));
}

#[test]
fn exit_codes_follow_the_shell() {
    assert_eq!(exit_code_of(0), 0);
    assert_eq!(exit_code_of(42 << 8), 42);
    assert_eq!(exit_code_of(9), 137);
    assert_eq!(clamp_code(137), 137);
    assert_eq!(clamp_code(300), 255);
}

#[test]
fn a_task_may_be_gone() {
    assert_eq!(allow_dead(Ok::<i64, i32>(4)), Ok(Some(4)));
    assert_eq!(allow_dead(Err::<i64, i32>(ESRCH)), Ok(None));
    assert_eq!(allow_dead(Err::<i64, i32>(1)), Err(1));
    assert_eq!(ignore_dead(Err(ESRCH)), Ok(()));
    assert_eq!(ignore_dead(Ok(7)), Ok(()));
    assert_eq!(ignore_dead(Err(1)), Err(1));
}

fn numbers() -> SyscallNumbers {
    SyscallNumbers { openat: 257, openat2: 437, renameat: 264, renameat2: 316, rename: Some(82) }
}

/// Runs a filter on a system call's number.
fn run(filter: &[SockFilter], nr: u32) -> u32 {
    let mut at = 0;
    let mut accumulator = 0;
    loop {
        let instruction = &filter[at];
        at += 1;
        match instruction.code {
            0x20 => accumulator = nr,
            0x15 => {
                at += usize::from(if accumulator == instruction.k {
                    instruction.jt
                } else {
                    instruction.jf
                });
            }
            0x06 => return instruction.k,
            code => panic!("{code}"),
        }
    }
}

#[test]
fn exactly_the_traced_calls_stop() {
    let traced = traced_syscalls(&numbers());
    let filter = filter_instructions(&traced);
    for nr in 0..500 {
        let expected = if traced.contains(&nr) { RET_TRACE } else { RET_ALLOW };
        assert_eq!(run(&filter, nr as u32), expected, "{nr}");
    }
    assert_eq!(traced.len(), 5);
}

#[test]
fn requests_say_what_to_read() {
    let args = [1, 2, 3, 4, 5, 6];
    let request =
        |nr: u64| seccomp_request(&numbers(), SYSCALL_INFO_SECCOMP, nr, &args);
    assert_eq!(
        request(257),
        Some(SeccompRequest::Open { path: 2, flags: OpenFlags::Known { flags: 3 } })
    );
    assert_eq!(
        request(437),
        Some(SeccompRequest::Open { path: 2, flags: OpenFlags::InMemory { address: 3 } })
    );
    assert_eq!(
        request(82),
        Some(SeccompRequest::Rename {
            from: PathAt { dirfd: AT_FDCWD, address: 1 },
            to: PathAt { dirfd: AT_FDCWD, address: 2 },
        })
    );
    assert_eq!(
        request(316),
        Some(SeccompRequest::Rename {
            from: PathAt { dirfd: 1, address: 2 },
            to: PathAt { dirfd: 3, address: 4 },
        })
    );
    assert_eq!(seccomp_request(&numbers(), SYSCALL_INFO_EXIT, 257, &args), None);
    assert!(is_rename(&numbers(), 264) && !is_bare_rename(&numbers(), 264));
    assert!(is_bare_rename(&numbers(), 82));
}

#[test]
fn events_are_sorted_by_kind() {
    assert_eq!(event_kind(EVENT_FORK), EventKind::NewTask);
    assert_eq!(event_kind(EVENT_EXEC), EventKind::Exec);
    assert_eq!(event_kind(EVENT_SECCOMP), EventKind::Seccomp);
    assert_eq!(event_kind(6), EventKind::Other);
    assert_eq!(wait_failure(EINTR), WaitFailure::Retry);
    assert_eq!(wait_failure(ECHILD), WaitFailure::Finished);
    assert_eq!(wait_failure(1), WaitFailure::Fatal);
}

#[test]
fn commands_must_be_ones_the_system_takes() {
    assert_eq!(make_argv(&[]), Err(CommandError::Empty));
    assert_eq!(CommandError::Empty.message(), "empty command");
    assert_eq!(make_argv(&[b"a\0b".to_vec()]), Err(CommandError::NulByte));
    assert_eq!(CommandError::NulByte.message(), "command argument contains a NUL byte");
    assert_eq!(make_argv(&[b"cc".to_vec(), vec![]]), Ok(vec![b"cc\0".to_vec(), vec![0]]));
}

#[test]
fn a_command_stops_before_it_runs() {
    assert_eq!(initial_stop(SIGSTOP_STOP), Ok(()));
    assert_eq!(initial_stop(126 << 8), Err(StartFailure::NotPermitted));
    assert_eq!(initial_stop(0), Err(StartFailure::DidNotStop));
    assert_eq!(StartFailure::DidNotStop.message(), "traced child did not stop before exec");
}

#[test]
fn failures_are_written_without_taking_memory() {
    let mut buffer = [0; 11];
    let start = errno_digits(-2147483648, &mut buffer);
    assert_eq!(&buffer[start..], b"2147483648");
    let start = errno_digits(0, &mut buffer);
    assert_eq!(&buffer[start..], b"0");
    assert_eq!(failure_reason(2), "no such file or directory");
    assert_eq!(failure_reason(99), "");
}

#[test]
fn paths_are_resolved_against_their_directory() {
    let base = Some("/src".to_owned());
    assert_eq!(resolve_at_path(&base, "a"), "/src/a");
    assert_eq!(resolve_at_path(&base, "/a"), "/a");
    assert_eq!(resolve_at_path(&None, "a"), "a");
    assert_eq!(resolve_open_path(&Some("/real".into()), &base, "a"), "/real");
    assert_eq!(resolve_open_path(&None, &base, "a"), "/src/a");
}

#[test]
fn texts_in_memory_end_with_a_zero() {
    assert_eq!(c_string(b"ab\0cd"), "ab");
    assert_eq!(c_string(b"ab"), "ab");
    assert_eq!(c_string(&[0xff, 0]), "\u{fffd}");
    let mut memory = Vec::new();
    assert!(read_word(&mut memory, b"abcdefgh", 4096));
    assert!(!read_word(&mut memory, b"ij\0klmno", 4096));
    assert_eq!(c_string(&memory), "abcdefghij");
}

#[test]
fn the_system_tells_of_processes() {
    let status = "Name:\tcc\nTgid:\t 12\nPid:\t13\nPPid:\t7\n";
    assert_eq!(read_tgid(status), Some(12));
    assert_eq!(read_ppid(status), Some(7));
    assert_eq!(read_ppid("Name:\tcc\n"), None);
    assert_eq!(
        read_command_line(b"cc\0-c\0a.c\0"),
        Some(vec!["cc".to_owned(), "-c".to_owned(), "a.c".to_owned()])
    );
    assert_eq!(read_command_line(b""), None);
}

#[test]
fn commands_are_named_after_their_program() {
    assert_eq!(command_line(&[b"cc".to_vec(), b"a.c".to_vec()]), "cc a.c");
    assert_eq!(executable_name(b"/usr/bin/cc"), "cc");
    assert_eq!(executable_name(b".."), "..");
    assert_eq!(executable_name(&[b'/', 0xff]), "\u{fffd}");
}

#[test]
fn registering_a_task_twice_is_harmless() {
    let (mut tracer, mut writer) = tracer();
    tracer.handle_new_task(10, 11, Some(11), 3, &mut writer).unwrap();
    assert!(tracer.is_newborn(11));
    assert!(!writer.take().is_empty(), "a new process has tracks");
    tracer.handle_wait(11, SIGSTOP_STOP, Some(11), 4, &mut writer).unwrap();
    assert!(!tracer.is_newborn(11));
    assert!(writer.take().is_empty(), "its tracks are introduced once");
    assert_eq!(tracer.handle_other_event(11), resume(false));
}

#[test]
fn programs_of_a_process_follow_each_other() {
    let (mut tracer, mut writer) = tracer();
    let mut spots = BlindSpots::default();
    for (name, now_ns) in [("sh", 5), ("cc", 7), ("ld", 7)] {
        let argv = Some(vec![name.to_owned()]);
        tracer.handle_exec(10, argv, None, None, now_ns, &mut writer, &mut spots).unwrap();
    }
    assert_eq!(
        tracer.handle_wait(10, 0, None, 9, &mut writer),
        Ok(Next::Exited { process: Some((10, 7)) })
    );
}

#[test]
fn a_process_first_seen_when_it_runs_a_program_is_taken_in() {
    let (mut tracer, mut writer) = tracer();
    let mut spots = BlindSpots::default();
    tracer.handle_exec(40, None, None, Some(10), 5, &mut writer, &mut spots).unwrap();
    assert!(holds(&writer.take(), "buildprof.processes"));
    assert_eq!(
        tracer.handle_wait(40, 0, None, 9, &mut writer),
        Ok(Next::Exited { process: Some((40, 5)) })
    );
    assert!(holds(&writer.take(), "pid:40"));
}

#[test]
fn the_build_parent_is_the_nearest_ancestor_that_ran_a_program() {
    let (mut tracer, mut writer) = tracer();
    let mut spots = BlindSpots::default();
    tracer.handle_new_task(10, 11, Some(11), 3, &mut writer).unwrap();
    // The program runs after its first child was created.
    let argv = Some(vec!["make".to_owned()]);
    tracer
        .handle_exec(10, argv, Some("/src".into()), None, 4, &mut writer, &mut spots)
        .unwrap();
    tracer.handle_new_task(11, 12, Some(12), 5, &mut writer).unwrap();
    tracer.handle_wait(10, 0, None, 6, &mut writer).unwrap();
    writer.take();
    tracer.handle_new_task(12, 13, Some(13), 7, &mut writer).unwrap();
    tracer.handle_wait(13, 0, None, 10, &mut writer).unwrap();

    let mut expected = Writer::create();
    let segment = |name: &str, command: &str, start_ns: u64, end_ns: u64| Segment {
        start_ns,
        end_ns,
        name: name.into(),
        command: command.into(),
        cwd: "/src".into(),
        exit_code: Some(0),
    };
    let root = Process { pid: 10, parent_pid: 0, build_parent_pid: 0, execed: true };
    expected.segment(root, &segment("make", "make", 0, 6)).unwrap();
    expected.take();
    expected.process_started(13).unwrap();
    let last = Process { pid: 13, parent_pid: 12, build_parent_pid: 10, execed: false };
    expected
        .segment(last, &segment("fork:fork:fork:make", "make all", 7, 10))
        .unwrap();
    assert_eq!(writer.take(), expected.take());
}

#[test]
fn a_pid_used_again_is_announced_again() {
    let (mut tracer, mut writer) = tracer();
    let mut announced = Writer::create();
    announced.take();
    announced.process_started(11).unwrap();
    let announcement = announced.take();
    for now_ns in [3, 5] {
        tracer.handle_new_task(10, 11, Some(11), now_ns, &mut writer).unwrap();
        assert_eq!(writer.take(), announcement);
        tracer.handle_wait(11, SIGSTOP_STOP, Some(11), now_ns, &mut writer).unwrap();
        assert!(writer.take().is_empty(), "announced only once");
        tracer.handle_wait(11, 0, None, now_ns + 1, &mut writer).unwrap();
        assert!(!writer.take().is_empty(), "written when its last task ends");
    }
}
