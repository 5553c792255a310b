use buildprof::macos::event::{Event, Message};
use buildprof::macos::kdebug;
use buildprof::macos::recon::{
    decode_string, Collector, CommandLine, ARGV_ATTEMPTS, DATA_EXEC, EXIT_HOLD_NS, LOST_EVENTS,
    NEWTHREAD, PROC_EXIT, STRING_EXEC,
};

/// Builds the trace events a build produces.
struct Stream {
    events: Vec<kdebug::Event>,
    time: u64,
}

impl Stream {
    fn new() -> Self {
        Self { events: Vec::new(), time: 1_000 }
    }

    fn push(&mut self, thread: u64, debugid: u32, args: [u64; 4]) -> &mut Self {
        self.time += 10;
        self.events.push(kdebug::Event { timestamp: self.time, args, thread, debugid });
        self
    }

    /// An execution: the kernel reports it, then names the program.
    fn exec(&mut self, thread: u64, pid: i32, name: &str) -> &mut Self {
        let mut bytes = name.as_bytes().to_vec();
        bytes.resize(32, 0);
        let mut words = [0; 4];
        for (word, chunk) in words.iter_mut().zip(bytes.chunks(8)) {
            *word = u64::from_le_bytes(chunk.try_into().expect("8 bytes"));
        }
        self.push(thread, DATA_EXEC, [pid as u64, 0, 0, 0]);
        self.push(thread, STRING_EXEC, words)
    }

    fn collect(&self, collector: &mut Collector) -> Vec<Message> {
        let mut out = Vec::new();
        for event in &self.events {
            collector.observe(event, None, &mut out);
        }
        collector.flush(Vec::new(), &mut out);
        out
    }
}

fn collector() -> Collector {
    let mut collector = Collector::new(100, EXIT_HOLD_NS);
    collector.seed_threads(&[(10, 100)]);
    collector
}

#[test]
fn an_execution_whose_command_line_is_gone_is_named_after_its_program() {
    let mut stream = Stream::new();
    stream.exec(10, 100, "make");
    let mut collector = collector();
    let messages = stream.collect(&mut collector);
    assert_eq!(
        messages,
        [Message {
            mach_time: 1_010,
            pid: 100,
            ppid: 0,
            event: Event::Exec { argv: vec!["make".into()], executable: "make".into() },
        }]
    );
    assert_eq!(collector.unnamed(), 1);
}

#[test]
fn a_new_process_is_followed_and_its_parent_reported() {
    let mut stream = Stream::new();
    stream.push(10, NEWTHREAD, [11, 200, 0, 0]).exec(11, 200, "cc");
    let messages = stream.collect(&mut collector());
    assert!(matches!(messages[0].event, Event::Fork { child: 200 }));
    assert_eq!(messages[0].pid, 100);
    assert!(matches!(
        &messages[1].event,
        Event::Exec { executable, .. } if executable == "cc"
    ));
    assert_eq!(messages[1].pid, 200);
}

#[test]
fn unrelated_processes_are_ignored() {
    let mut stream = Stream::new();
    stream.exec(99, 999, "someone-else");
    let mut collector = collector();
    collector.seed_threads(&[(99, 999)]);
    assert_eq!(stream.collect(&mut collector), []);
}

#[test]
fn an_exit_is_only_believed_when_nothing_follows_it() {
    // The kernel reports an exit when an image is replaced, too.
    let mut stream = Stream::new();
    stream.push(10, PROC_EXIT | 2, [100, 0, 0, 0]).exec(10, 100, "still-here");
    let messages = stream.collect(&mut collector());
    assert!(
        !messages.iter().any(|message| matches!(message.event, Event::Exit { .. })),
        "{messages:?}"
    );

    // With nothing after it, the exit stands, with its wait status.
    let mut stream = Stream::new();
    stream.push(10, PROC_EXIT | 2, [100, 256, 0, 0]);
    let messages = stream.collect(&mut collector());
    assert_eq!(
        messages,
        [Message { mach_time: 1_010, pid: 100, ppid: 0, event: Event::Exit { stat: 256 } }]
    );
}

#[test]
fn names_are_packed_into_words() {
    assert_eq!(decode_string(&[0x0000_0065_6b61_6d]), "make");
    assert_eq!(decode_string(&[0x6161_6161_6161_6161, 0x62]), "aaaaaaaab");
    assert_eq!(decode_string(&[0xff]), "\u{fffd}");
    assert_eq!(decode_string(&[]), "");
}

#[test]
fn command_lines_are_asked_for_at_executions_of_the_build() {
    let mut stream = Stream::new();
    stream.exec(10, 100, "make").exec(99, 999, "other");
    let mut collector = collector();
    collector.seed_threads(&[(99, 999)]);
    let asked: Vec<Option<i32>> =
        stream.events.iter().map(|event| collector.wants_command_line(event)).collect();
    assert_eq!(asked, [Some(100), None, None, None]);
}

#[test]
fn a_command_line_that_could_be_read_is_reported_at_once() {
    let mut stream = Stream::new();
    stream.exec(10, 100, "make");
    let mut out = Vec::new();
    let mut collector = collector();
    let line = CommandLine {
        executable: "/usr/bin/make".into(),
        argv: vec!["make".into(), "-j8".into()],
    };
    collector.observe(&stream.events[0], Some(line), &mut out);
    assert_eq!(
        out,
        [Message {
            mach_time: 1_010,
            pid: 100,
            ppid: 0,
            event: Event::Exec {
                argv: vec!["make".into(), "-j8".into()],
                executable: "/usr/bin/make".into(),
            },
        }]
    );
    assert!(collector.retries().is_empty());
}

#[test]
fn reading_a_command_line_is_given_up_after_some_attempts() {
    let mut stream = Stream::new();
    stream.exec(10, 100, "make");
    let mut out = Vec::new();
    let mut collector = collector();
    for event in &stream.events {
        collector.observe(event, None, &mut out);
    }
    for attempt in 1..ARGV_ATTEMPTS {
        assert_eq!(collector.retries()[0].attempt, attempt);
        collector.tick(vec![None], &mut out);
    }
    assert!(collector.retries().is_empty());
    assert_eq!(out.len(), 1);
    assert_eq!(collector.unnamed(), 1);
}

#[test]
fn an_exit_is_believed_once_it_was_held_long_enough() {
    let mut collector = collector();
    let mut out = Vec::new();
    let mut stream = Stream::new();
    stream.push(10, NEWTHREAD, [11, 200, 0, 0]).push(11, PROC_EXIT | 2, [200, 9, 0, 0]);
    stream.time += EXIT_HOLD_NS;
    stream.push(10, DATA_EXEC, [100, 0, 0, 0]);
    for event in &stream.events[..2] {
        collector.observe(event, None, &mut out);
    }
    let mut live = collector.live_pids();
    live.sort_unstable();
    assert_eq!(live, [100, 200]);
    collector.observe(&stream.events[2], None, &mut out);
    assert_eq!(collector.live_pids(), [100]);
    assert_eq!(
        out[1],
        Message { mach_time: 1_020, pid: 200, ppid: 0, event: Event::Exit { stat: 9 } }
    );
}

#[test]
fn lost_events_are_counted() {
    let mut stream = Stream::new();
    stream.push(10, LOST_EVENTS, [0; 4]).push(77, LOST_EVENTS, [0; 4]);
    let mut collector = collector();
    assert_eq!(stream.collect(&mut collector), []);
    assert_eq!(collector.dropped(), 2);
}

#[test]
fn a_thread_started_after_an_exit_cancels_it() {
    let mut stream = Stream::new();
    stream.push(10, PROC_EXIT | 2, [100, 0, 0, 0]).push(10, NEWTHREAD, [12, 100, 0, 0]);
    assert_eq!(stream.collect(&mut collector()), []);

    // A child counts, too.
    let mut stream = Stream::new();
    stream.push(10, PROC_EXIT | 2, [100, 0, 0, 0]).push(10, NEWTHREAD, [12, 200, 0, 0]);
    let messages = stream.collect(&mut collector());
    assert_eq!(messages.len(), 1);
    assert!(matches!(messages[0].event, Event::Fork { child: 200 }));
}

#[test]
fn a_second_flush_has_nothing_to_report() {
    let mut stream = Stream::new();
    stream.exec(10, 100, "make").push(10, PROC_EXIT | 2, [100, 256, 0, 0]);
    let mut collector = collector();
    assert_eq!(stream.collect(&mut collector).len(), 2);
    let mut out = Vec::new();
    collector.flush(Vec::new(), &mut out);
    assert_eq!(out, []);
}

/// What a message says, in words.
fn said(message: &Message) -> String {
    match &message.event {
        Event::Fork { child } => format!("{} fork {child}", message.pid),
        Event::Exec { argv, executable } => {
            assert_eq!(argv, &[executable.clone()]);
            format!("{} exec {executable}", message.pid)
        }
        Event::Exit { stat } => format!("{} exit {stat}", message.pid),
    }
}

#[test]
fn what_a_process_ran_is_reported_before_its_end() {
    let mut stream = Stream::new();
    stream
        .push(10, NEWTHREAD, [11, 200, 0, 0])
        .exec(11, 200, "cc")
        .exec(10, 100, "make")
        .push(11, PROC_EXIT | 2, [200, 9, 0, 0]);
    // At the end of a recording.
    let mut flushed = collector();
    let messages: Vec<_> = stream.collect(&mut flushed).iter().map(said).collect();
    assert_eq!(messages, ["100 fork 200", "200 exec cc", "200 exit 9", "100 exec make"]);
    assert_eq!(flushed.unnamed(), 2);

    // When the end is believed.
    let mut collector = collector();
    stream.time += EXIT_HOLD_NS;
    stream.push(10, DATA_EXEC + 4, [0; 4]);
    let mut out = Vec::new();
    for event in &stream.events {
        collector.observe(event, None, &mut out);
    }
    let messages: Vec<_> = out.iter().map(said).collect();
    assert_eq!(messages, ["100 fork 200", "200 exec cc", "200 exit 9"]);
    assert_eq!(collector.unnamed(), 1);
    assert_eq!(collector.retries().len(), 1);
    assert_eq!(collector.retries()[0].pid, 100);
}

#[test]
fn a_command_line_read_at_the_last_moment_is_reported() {
    let mut stream = Stream::new();
    stream
        .push(10, NEWTHREAD, [11, 200, 0, 0])
        .exec(10, 100, "make")
        .exec(11, 200, "cc")
        .push(11, PROC_EXIT | 2, [200, 0, 0, 0]);
    let mut collector = collector();
    let mut out = Vec::new();
    for event in &stream.events {
        collector.observe(event, None, &mut out);
    }
    let line = CommandLine { executable: "clang".into(), argv: vec!["clang".into()] };
    collector.flush(vec![None, Some(line)], &mut out);
    let messages: Vec<_> = out[1..].iter().map(said).collect();
    assert_eq!(messages, ["200 exec clang", "200 exit 0", "100 exec make"]);
    assert_eq!(collector.unnamed(), 1);
}

#[test]
fn exits_come_first_where_no_process_has_both() {
    let mut stream = Stream::new();
    stream
        .push(10, NEWTHREAD, [11, 200, 0, 0])
        .push(10, NEWTHREAD, [12, 300, 0, 0])
        .exec(10, 100, "make")
        .push(12, PROC_EXIT | 2, [300, 3, 0, 0])
        .push(11, PROC_EXIT | 2, [200, 2, 0, 0]);
    let messages: Vec<_> = stream.collect(&mut collector()).iter().map(said).collect();
    assert_eq!(messages[2..], ["300 exit 3", "200 exit 2", "100 exec make"]);
}
