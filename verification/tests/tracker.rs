use buildprof::blind_spots::BlindSpots;
use buildprof::macos::event::{Event, Message};
use buildprof::macos::tracker::{Clock, Entry, Records, TraceSink, Tracker};
use buildprof::model::{Process, Segment};
use buildprof::perfetto::Writer;

/// What was recorded, in words.
fn described(records: &Records) -> Vec<String> {
    records
        .entries
        .iter()
        .map(|entry| match entry {
            Entry::Started { pid } => format!("start {pid}"),
            Entry::Segment { process, segment } => format!(
                "segment {} parent={} build_parent={} execed={} {}..{} {:?} exit={:?}",
                process.pid,
                process.parent_pid,
                process.build_parent_pid,
                process.execed,
                segment.start_ns,
                segment.end_ns,
                segment.command,
                segment.exit_code
            ),
        })
        .collect()
}

fn clock() -> Clock {
    Clock { origin: 1000, numer: 1, denom: 1 }
}

/// A message from `pid`, at `mach_time`.
fn at(mach_time: u64, pid: i32, ppid: i32, event: Event) -> Message {
    Message { mach_time, pid, ppid, event }
}

fn exec(program: &str) -> Event {
    let executable = format!("/usr/bin/{program}");
    Event::Exec { argv: vec![executable.clone()], executable }
}

fn tracker<'a>(
    records: &'a mut Records,
    blind_spots: &'a mut BlindSpots,
    name: &str,
) -> Tracker<'a, Records> {
    Tracker::new(records, blind_spots, clock(), 10, name.into(), name.into(), "/src".into())
}

#[test]
fn records_a_build_tree() {
    let mut records = Records::new();
    let mut blind_spots = BlindSpots::default();
    let mut tracker = tracker(&mut records, &mut blind_spots, "make");
    for message in [
        at(1001, 10, 1, exec("make")),
        at(1010, 10, 1, Event::Fork { child: 11 }),
        // A child started with posix_spawn is claimed through its parent.
        at(1015, 12, 10, exec("cc")),
        at(1020, 11, 10, exec("sh")),
        at(1040, 12, 10, Event::Exit { stat: 0 }),
        at(1041, 99, 1, exec("unrelated")),
        at(1050, 11, 10, Event::Exit { stat: 2 << 8 }),
        at(1060, 10, 1, Event::Exit { stat: 0 }),
    ] {
        tracker.handle(message).unwrap();
    }
    assert_eq!(tracker.root_exit_code(), Some(0));
    tracker.finish(1070).unwrap();
    assert_eq!(
        described(&records),
        [
            "start 12",
            r#"segment 12 parent=10 build_parent=10 execed=true 15..40 "/usr/bin/cc" exit=Some(0)"#,
            "start 11",
            r#"segment 11 parent=10 build_parent=10 execed=true 10..50 "/usr/bin/sh" exit=Some(2)"#,
            "start 10",
            r#"segment 10 parent=0 build_parent=0 execed=true 0..60 "/usr/bin/make" exit=Some(0)"#,
        ]
    );
}

#[test]
fn a_second_exec_starts_a_new_segment() {
    let mut records = Records::new();
    let mut blind_spots = BlindSpots::default();
    let mut tracker = tracker(&mut records, &mut blind_spots, "sh");
    for message in [
        at(1001, 10, 1, exec("sh")),
        at(1005, 10, 1, exec("cc")),
        at(1009, 10, 1, Event::Exit { stat: 9 }),
    ] {
        tracker.handle(message).unwrap();
    }
    assert_eq!(tracker.root_exit_code(), Some(9 + 128));
    assert_eq!(
        described(&records)[1..],
        [
            r#"segment 10 parent=0 build_parent=0 execed=true 0..5 "/usr/bin/sh" exit=None"#,
            r#"segment 10 parent=0 build_parent=0 execed=true 5..9 "/usr/bin/cc" exit=Some(137)"#,
        ]
    );
}

#[test]
fn a_failed_spawn_leaves_nothing_behind() {
    let mut records = Records::new();
    let mut blind_spots = BlindSpots::default();
    let mut tracker = tracker(&mut records, &mut blind_spots, "make");
    for message in [
        at(1001, 10, 1, exec("make")),
        // posix_spawnp trying a PATH directory without the program.
        at(1002, 10, 1, Event::Fork { child: 13 }),
        at(1003, 13, 10, Event::Exit { stat: 1 }),
        at(1004, 10, 1, Event::Exit { stat: 0 }),
    ] {
        tracker.handle(message).unwrap();
    }
    tracker.finish(1005).unwrap();
    let records = described(&records);
    assert!(!records.iter().any(|record| record.contains(" 13 ")), "{:?}", records);
}

#[test]
fn converts_mach_ticks() {
    let clock = Clock { origin: 100, numer: 125, denom: 3 };
    assert_eq!(clock.ns(103), 125);
    assert_eq!(clock.ns(50), 0, "events before the origin clamp to it");
}

#[test]
fn clocks_do_not_run_over() {
    let clock = Clock { origin: 0, numer: u32::MAX, denom: 1 };
    assert_eq!(clock.ns(u64::MAX), u64::MAX);
    assert_eq!(clock.elapsed_ns(2), 2 * u64::from(u32::MAX));
}

#[test]
fn what_still_runs_is_closed_at_the_end() {
    let mut records = Records::new();
    let mut blind_spots = BlindSpots::default();
    let tracker = tracker(&mut records, &mut blind_spots, "make");
    tracker.finish(1500).unwrap();
    let records = described(&records);
    assert_eq!(records.len(), 2);
    assert_eq!(records[0], "start 10");
    assert!(records[1].contains(" 0..500 "), "{records:?}");
}

#[test]
fn blind_spots_of_executed_programs_are_noticed() {
    let mut records = Records::new();
    let mut blind_spots = BlindSpots::default();
    let mut tracker = tracker(&mut records, &mut blind_spots, "make");
    tracker.handle(at(1001, 10, 1, exec("docker"))).unwrap();
    tracker.finish(1002).unwrap();
    assert_eq!(blind_spots.report()[0][0].text, "docker");
}

#[test]
fn a_failed_spawn_under_a_pid_used_before_leaves_nothing_behind() {
    let mut records = Records::new();
    let mut blind_spots = BlindSpots::default();
    let mut tracker = tracker(&mut records, &mut blind_spots, "make");
    for message in [
        at(1001, 10, 1, exec("make")),
        at(1002, 10, 1, Event::Fork { child: 13 }),
        at(1003, 13, 10, exec("cc")),
        at(1004, 13, 10, Event::Exit { stat: 0 }),
        at(1005, 10, 1, Event::Fork { child: 13 }),
    ] {
        tracker.handle(message).unwrap();
    }
    let before = described(tracker.sink);
    assert_eq!(tracker.handle(at(1006, 13, 10, Event::Exit { stat: 1 })), Ok(()));
    assert_eq!(described(tracker.sink), before);
    assert_eq!(
        before,
        [
            "start 13",
            r#"segment 13 parent=10 build_parent=10 execed=true 2..4 "/usr/bin/cc" exit=Some(0)"#,
        ]
    );
}

#[test]
fn work_belongs_to_the_nearest_ancestor_that_ran_a_program() {
    let mut records = Records::new();
    let mut blind_spots = BlindSpots::default();
    let mut tracker = tracker(&mut records, &mut blind_spots, "make");
    for message in [
        at(1002, 10, 0, Event::Fork { child: 11 }),
        // The program runs after its first child was created.
        at(1003, 10, 0, exec("make")),
        at(1004, 11, 0, Event::Fork { child: 12 }),
        at(1010, 12, 0, Event::Exit { stat: 0 }),
    ] {
        tracker.handle(message).unwrap();
    }
    assert_eq!(
        described(tracker.sink),
        [
            "start 12",
            r#"segment 12 parent=11 build_parent=10 execed=false 4..10 "make" exit=Some(0)"#,
        ]
    );
}

#[test]
fn an_ancestor_that_ended_is_remembered() {
    let mut records = Records::new();
    let mut blind_spots = BlindSpots::default();
    let mut tracker = tracker(&mut records, &mut blind_spots, "make");
    for message in [
        at(1001, 10, 1, exec("make")),
        at(1002, 10, 1, Event::Fork { child: 11 }),
        at(1003, 11, 10, exec("sh")),
        at(1004, 11, 10, Event::Fork { child: 12 }),
        at(1005, 12, 11, Event::Fork { child: 13 }),
        at(1006, 11, 10, Event::Exit { stat: 0 }),
        at(1007, 12, 1, Event::Exit { stat: 0 }),
        at(1008, 13, 1, Event::Fork { child: 14 }),
        at(1009, 14, 13, Event::Exit { stat: 0 }),
    ] {
        tracker.handle(message).unwrap();
    }
    let records = described(tracker.sink);
    assert!(
        records[5].starts_with("segment 14 parent=13 build_parent=11 execed=false 8..9 "),
        "{records:?}"
    );
}

#[test]
fn each_process_is_announced_right_before_its_first_segment() {
    let mut records = Records::new();
    let mut blind_spots = BlindSpots::default();
    let mut tracker = tracker(&mut records, &mut blind_spots, "make");
    for message in [
        at(1001, 10, 1, exec("make")),
        at(1002, 10, 1, exec("ninja")),
        at(1003, 10, 1, Event::Fork { child: 11 }),
        at(1004, 11, 10, exec("cc")),
    ] {
        tracker.handle(message).unwrap();
    }
    tracker.finish(1010).unwrap();
    let records = described(&records);
    assert_eq!(records[0], "start 10");
    assert!(records[1].starts_with("segment 10 "));
    assert_eq!(records.iter().filter(|record| *record == "start 10").count(), 1);
    let child = records.iter().position(|record| record == "start 11").unwrap();
    assert!(records[child + 1].starts_with("segment 11 "));
    assert!(records[child + 1].contains(" 3..10 "));
    assert_eq!(records.len(), 5);
}

#[test]
fn what_is_recorded_stands_in_the_trace() {
    let mut writer = Writer::create();
    writer.take();
    let mut expected = Writer::create();
    expected.take();
    let process = Process { pid: 10, parent_pid: 0, build_parent_pid: 0, execed: true };
    let segment = Segment {
        start_ns: 0,
        end_ns: 9,
        name: "cc".into(),
        command: "/usr/bin/cc".into(),
        cwd: "/src".into(),
        exit_code: Some(0),
    };
    expected.process_started(10).unwrap();
    expected.segment(process, &segment).unwrap();

    let mut blind_spots = BlindSpots::default();
    let mut sink = TraceSink::new(&mut writer);
    let mut tracker = Tracker::new(
        &mut sink,
        &mut blind_spots,
        clock(),
        10,
        "cc".into(),
        "cc".into(),
        "/src".into(),
    );
    tracker.handle(at(1001, 10, 1, exec("cc"))).unwrap();
    assert!(tracker.sink.take().is_empty());
    tracker.handle(at(1009, 10, 1, Event::Exit { stat: 0 })).unwrap();
    assert_eq!(tracker.sink.take(), expected.take());
    assert!(tracker.sink.take().is_empty());
    tracker.finish(1010).unwrap();
    assert!(writer.take().is_empty());
}
