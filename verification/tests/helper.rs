use buildprof::macos::eslogger::{
    AuditToken, Envelope, EnvelopeEvent, EnvelopeFork, EnvelopeProcess,
};
use buildprof::macos::helper::{
    choose_root, error_line, parse_arguments, ready_line, role, synced_line, Action, Due, Filter,
    HelperError, HelperOptions, Input, Pump, Role, Verdict, HELPER_ARG,
};
use serde_json::Value;

fn line(pid: i32, ppid: i32, mach_time: u64, seq: u64, event: &str) -> String {
    format!(
        r#"{{"schema_version":1,"version":7,"mach_time":{mach_time},"time":"2026-09-14T10:00:00.000000000Z","global_seq_num":{seq},"seq_num":{seq},"event_type":0,"process":{{"audit_token":{{"asid":100001,"auid":501,"egid":20,"euid":501,"pid":{pid},"pidversion":1,"rgid":20,"ruid":501}},"ppid":{ppid},"original_ppid":{ppid},"group_id":{pid},"session_id":1,"is_platform_binary":true,"is_es_client":false,"executable":{{"path":"/bin/sh","path_truncated":false}}}},"event":{event}}}"#
    )
}

fn fork(child: i32) -> String {
    format!(
        r#"{{"fork":{{"child":{{"audit_token":{{"pid":{child},"pidversion":2}},"ppid":0,"original_ppid":0,"executable":{{"path":"/bin/sh","path_truncated":false}}}}}}}}"#
    )
}

fn exec(argv: &[&str], cwd: &str) -> String {
    format!(
        r#"{{"exec":{{"target":{{"audit_token":{{"pid":1,"pidversion":3}},"executable":{{"path":"/usr/bin/{}","path_truncated":false}}}},"args":{},"cwd":{{"path":"{cwd}","path_truncated":false}},"dyld_exec_path":"/usr/bin/cc","script":null}}}}"#,
        argv[0],
        serde_json::to_string(argv).unwrap()
    )
}

fn exit(stat: i32) -> String {
    format!(r#"{{"exit":{{"stat":{stat}}}}}"#)
}

fn process(value: &Value) -> EnvelopeProcess {
    EnvelopeProcess {
        audit_token: AuditToken { pid: value["audit_token"]["pid"].as_i64().unwrap() as i32 },
        ppid: value["ppid"].as_i64().unwrap() as i32,
    }
}

fn envelope(line: &str) -> Envelope {
    let value: Value = serde_json::from_str(line).unwrap();
    let event = &value["event"];
    Envelope {
        process: process(&value["process"]),
        global_seq_num: value["global_seq_num"].as_u64(),
        event: EnvelopeEvent {
            fork: event.get("fork").map(|fork| EnvelopeFork { child: process(&fork["child"]) }),
            exit: event.get("exit").map(|_| ()),
        },
    }
}

fn observe(filter: &mut Filter, line: &str) -> Verdict {
    filter.observe(&envelope(line))
}

#[test]
fn follows_only_the_recorders_descendants() {
    let mut filter = Filter::new(100, 50);
    assert_eq!(observe(&mut filter, &line(100, 1, 1, 1, &fork(101))), Verdict::Forward);
    assert_eq!(
        observe(&mut filter, &line(101, 100, 2, 2, &exec(&["make"], "/"))),
        Verdict::Forward
    );
    assert_eq!(observe(&mut filter, &line(101, 100, 3, 3, &fork(102))), Verdict::Forward);
    assert_eq!(observe(&mut filter, &line(102, 101, 4, 4, &exit(0))), Verdict::Forward);
    assert_eq!(
        observe(&mut filter, &line(999, 1, 5, 5, &fork(1000))),
        Verdict::Skip,
        "unrelated processes are not passed on"
    );
    assert_eq!(
        observe(&mut filter, &line(102, 1, 6, 6, &exec(&["reused"], "/"))),
        Verdict::Skip,
        "an exited pid is forgotten"
    );
}

#[test]
fn claims_spawned_children_through_their_parent() {
    let mut filter = Filter::new(100, 50);
    assert_eq!(
        observe(&mut filter, &line(103, 100, 1, 1, &exec(&["cc"], "/"))),
        Verdict::Forward
    );
    assert_eq!(observe(&mut filter, &line(103, 100, 2, 2, &exit(0))), Verdict::Forward);
}

#[test]
fn recognizes_its_own_probes_and_counts_drops() {
    let mut filter = Filter::new(100, 50);
    assert_eq!(
        observe(&mut filter, &line(50, 40, 1, 7, &fork(51))),
        Verdict::Probe(51)
    );
    assert_eq!(observe(&mut filter, &line(51, 50, 1, 8, &exit(0))), Verdict::Skip);
    assert_eq!(filter.dropped(), 0);
    observe(&mut filter, &line(999, 1, 1, 12, &exit(0)));
    assert_eq!(filter.dropped(), 3);
}

fn words(arguments: &[&str]) -> Vec<Vec<u8>> {
    arguments.iter().map(|argument| argument.as_bytes().to_vec()).collect()
}

#[test]
fn a_setuid_copy_only_helps() {
    assert_eq!(role(Some(HELPER_ARG.as_bytes()), true), Role::Helper);
    assert_eq!(role(Some(HELPER_ARG.as_bytes()), false), Role::Helper);
    assert_eq!(role(Some(b"record"), true), Role::Refused);
    assert_eq!(role(None, true), Role::Refused);
    assert_eq!(role(None, false), Role::Recorder);
}

#[test]
fn helper_arguments_are_checked() {
    assert_eq!(
        parse_arguments(&words(&["--root-pid", "12", "--file-events"])).unwrap(),
        HelperOptions { root_pid: Some(12), file_events: true }
    );
    for arguments in [&["--root-pid"][..], &["--root-pid", "1"], &["--root-pid", "x"]] {
        let error = parse_arguments(&words(arguments)).unwrap_err();
        assert_eq!(error.message(), "--root-pid needs a process id");
    }
    let error = parse_arguments(&[vec![b'a', 0xff]]).unwrap_err();
    assert_eq!(error.message(), "unknown helper argument a\u{fffd}");
}

#[test]
fn only_root_may_choose_whom_to_record() {
    let own = HelperOptions { root_pid: None, file_events: false };
    let chosen = HelperOptions { root_pid: Some(12), file_events: false };
    assert_eq!(choose_root(&own, true, 0, 40).unwrap(), 40);
    assert_eq!(choose_root(&chosen, false, 0, 40).unwrap(), 12);
    assert!(matches!(choose_root(&chosen, true, 0, 40), Err(HelperError::RootPidThroughSetuid)));
    assert!(matches!(choose_root(&own, true, 501, 40), Err(HelperError::NotRoot)));
    let orphaned = choose_root(&own, false, 0, 1).unwrap_err();
    assert_eq!(orphaned.message(), "the helper has no parent to record");
}

#[test]
fn control_lines_are_json() {
    assert_eq!(ready_line(), r#"{"buildprof":"ready"}"#);
    assert_eq!(synced_line(3), r#"{"buildprof":"synced","dropped":3}"#);
    assert_eq!(
        error_line("no \"luck\"\n"),
        r#"{"buildprof":"error","message":"no \"luck\"\n"}"#
    );
}

fn event(line: &str) -> Input {
    Input::Event { envelope: Some(envelope(line)) }
}

#[test]
fn nothing_is_passed_on_before_a_probe_came_back() {
    let mut pump = Pump::new(100, 50);
    assert_eq!(pump.due(0), Due::Probe);
    pump.probed(51, 0);
    assert_eq!(pump.due(1), Due::Nothing);
    assert_eq!(pump.due(50_000_000), Due::Probe);
    assert_eq!(pump.handle(event(&line(100, 1, 1, 1, &fork(101)))), Action::Nothing);
    assert_eq!(pump.handle(event(&line(50, 40, 1, 9, &fork(77)))), Action::Nothing);
    assert_eq!(pump.handle(event(&line(50, 40, 1, 10, &fork(51)))), Action::Ready);
    assert_eq!(pump.due(u64::MAX), Due::Nothing);
    assert_eq!(pump.handle(event(&line(101, 100, 1, 11, &exit(0)))), Action::Forward);
    // What was lost before the start does not count.
    assert_eq!(pump.handle(Input::Command { line: " sync\n".into() }), Action::Nothing);
    assert_eq!(pump.due(60_000_000), Due::Probe);
    pump.probed(52, 60_000_000);
    // A probe from before answers nothing.
    assert_eq!(pump.handle(event(&line(50, 40, 1, 12, &fork(51)))), Action::Nothing);
    assert_eq!(
        pump.handle(event(&line(50, 40, 1, 15, &fork(52)))),
        Action::Synced { dropped: 2 }
    );
    assert_eq!(pump.handle(Input::CommandsClosed), Action::Finished);
    assert_eq!(pump.handle(Input::EventsClosed), Action::EventsClosed);
    assert_eq!(pump.handle(Input::Event { envelope: None }), Action::Nothing);
}

#[test]
fn the_helper_gives_up_when_no_events_arrive() {
    let mut pump = Pump::new(100, 50);
    pump.probed(51, 15_000_000_000);
    assert_eq!(pump.due(15_050_000_000), Due::GiveUp);
    assert_eq!(pump.due(15_049_999_999), Due::Nothing);
}

#[test]
fn a_sync_is_answered_by_a_probe_made_after_it() {
    let mut pump = Pump::new(100, 50);
    pump.probed(51, 0);
    // Asked for while starting.
    pump.handle(Input::Command { line: "sync".into() });
    assert_eq!(pump.due(1), Due::Probe);
    assert_eq!(pump.handle(event(&line(50, 40, 1, 1, &fork(51)))), Action::Nothing);
    pump.probed(52, 1);
    // Asked for again while the first is waiting.
    pump.handle(Input::Command { line: "sync".into() });
    assert_eq!(pump.handle(event(&line(50, 40, 1, 2, &fork(52)))), Action::Nothing);
    assert_eq!(pump.due(2), Due::Probe);
    pump.probed(53, 2);
    assert_eq!(pump.handle(event(&line(101, 100, 1, 3, &exit(0)))), Action::Forward);
    assert_eq!(
        pump.handle(event(&line(50, 40, 1, 4, &fork(53)))),
        Action::Synced { dropped: 0 }
    );
}
