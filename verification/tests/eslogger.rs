use buildprof::macos::eslogger::{linux_open_flags, parse, subscribed_events, Event, Message};

fn line(pid: i32, ppid: i32, mach_time: u64, seq: u64, event: &str) -> String {
    format!(
        r#"{{"schema_version":1,"version":7,"mach_time":{mach_time},"time":"2026-09-14T10:00:00.000000000Z","global_seq_num":{seq},"seq_num":{seq},"event_type":0,"process":{{"audit_token":{{"asid":100001,"auid":501,"egid":20,"euid":501,"pid":{pid},"pidversion":1,"rgid":20,"ruid":501}},"ppid":{ppid},"original_ppid":{ppid},"group_id":{pid},"session_id":1,"is_platform_binary":true,"is_es_client":false,"executable":{{"path":"/bin/sh","path_truncated":false}}}},"event":{event}}}"#
    )
}

fn fork(child: i32) -> String {
    format!(
        r#"{{"fork":{{"child":{{"audit_token":{{"pid":{child},"pidversion":2}},"ppid":0,"original_ppid":0,"executable":{{"path":"/bin/sh","path_truncated":false}}}}}}}}"#
    )
}

fn exec(argv: &[&str], cwd: &str) -> String {
    format!(
        r#"{{"exec":{{"target":{{"audit_token":{{"pid":1,"pidversion":3}},"executable":{{"path":"/usr/bin/{}","path_truncated":false}}}},"args":{},"cwd":{{"path":"{cwd}","path_truncated":false}},"dyld_exec_path":"/usr/bin/cc","script":null}}}}"#,
        argv[0],
        serde_json::to_string(argv).unwrap()
    )
}

fn exit(stat: i32) -> String {
    format!(r#"{{"exit":{{"stat":{stat}}}}}"#)
}

#[test]
fn parses_process_lifecycle() {
    let fork_line = line(10, 1, 5, 1, &fork(11));
    assert_eq!(
        parse(&fork_line),
        Some(Message { mach_time: 5, pid: 10, ppid: 1, event: Event::Fork { child: 11 } })
    );
    let exec_line = line(11, 10, 6, 2, &exec(&["cc", "-c", "a.c"], "/src"));
    assert_eq!(
        parse(&exec_line).unwrap().event,
        Event::Exec {
            argv: vec!["cc".into(), "-c".into(), "a.c".into()],
            cwd: "/src".into(),
            executable: "/usr/bin/cc".into(),
        }
    );
    assert_eq!(parse(&line(11, 10, 7, 3, &exit(256))).unwrap().event, Event::Exit { stat: 256 });
}

#[test]
fn parses_file_events() {
    let open = r#"{"open":{"fflag":514,"file":{"path":"/src/a.o","path_truncated":false}}}"#;
    assert_eq!(
        parse(&line(11, 10, 8, 4, open)).unwrap().event,
        Event::Open { path: "/src/a.o".into(), fflag: 514 }
    );
    let replace = r#"{"rename":{"source":{"path":"/src/.a.tmp"},"destination_type":0,"destination":{"existing_file":{"path":"/src/a"}}}}"#;
    assert_eq!(
        parse(&line(11, 10, 9, 5, replace)).unwrap().event,
        Event::Rename { from: "/src/.a.tmp".into(), to: "/src/a".into() }
    );
    let created = r#"{"create":{"destination_type":1,"destination":{"new_path":{"dir":{"path":"/src"},"filename":"out.tmp","mode":420}}}}"#;
    assert_eq!(
        parse(&line(11, 10, 9, 7, created)).unwrap().event,
        Event::Open { path: "/src/out.tmp".into(), fflag: 0x202 }
    );
    let directory = r#"{"create":{"destination_type":0,"destination":{"existing_file":{"path":"/src/target","stat":{"st_mode":16877}}}}}"#;
    assert_eq!(parse(&line(11, 10, 9, 8, directory)), None);
    let create = r#"{"rename":{"source":{"path":"/src/.a.tmp"},"destination_type":1,"destination":{"new_path":{"dir":{"path":"/src/"},"filename":"a"}}}}"#;
    assert_eq!(
        parse(&line(11, 10, 9, 6, create)).unwrap().event,
        Event::Rename { from: "/src/.a.tmp".into(), to: "/src/a".into() }
    );
}

#[test]
fn skips_lines_of_an_unexpected_shape() {
    assert_eq!(parse("not json"), None);
    assert_eq!(parse(r#"{"buildprof":"ready"}"#), None);
    assert_eq!(parse(&line(1, 0, 1, 1, r#"{"mmap":{}}"#)), None);
}

#[test]
fn translates_kernel_file_flags() {
    // O_RDONLY
    assert_eq!(linux_open_flags(0x1), 0);
    // O_WRONLY | O_CREAT | O_TRUNC, as FWRITE | O_CREAT | O_TRUNC
    assert_eq!(linux_open_flags(0x2 | 0x200 | 0x400), 0o1 | 0o100 | 0o1000);
    // O_RDWR | O_APPEND
    assert_eq!(linux_open_flags(0x3 | 0x8), 0o2 | 0o2000);
}

#[test]
fn asks_for_file_events_only_when_they_are_wanted() {
    assert_eq!(subscribed_events(false), ["fork", "exec", "exit"]);
    assert_eq!(subscribed_events(true), ["fork", "exec", "exit", "open", "create", "rename"]);
}
