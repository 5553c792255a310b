use buildprof::args::{
    default_handoff, examples, find_example, from_cli, in_ssh_session, parse, Args, Cli, CliError,
    Handoff, ParseError, Source, Surroundings, DEFAULT_UI_URL, DEV_UI_URL,
};

/// Nobody at a terminal, no display and no SSH connection.
fn nowhere() -> Surroundings {
    Surroundings {
        stdin_is_terminal: false,
        stdout_is_terminal: false,
        ssh_connection: false,
        ssh_tty: false,
        ssh_client: false,
        display: false,
        wayland_display: false,
        linux: true,
    }
}

/// Someone at a terminal with a display.
fn desktop() -> Surroundings {
    Surroundings { stdin_is_terminal: true, stdout_is_terminal: true, display: true, ..nowhere() }
}

fn argv(args: &[&str]) -> Vec<Vec<u8>> {
    args.iter().map(|arg| arg.as_bytes().to_vec()).collect()
}

fn parse_strings(args: &[&str]) -> Args {
    from_cli(Cli::parse_from_argv(&argv(args)).unwrap(), &desktop()).unwrap()
}

fn refused(args: &[&str]) -> CliError {
    Cli::parse_from_argv(&argv(args)).unwrap_err()
}

struct Recording {
    output: Vec<u8>,
    command: Vec<Vec<u8>>,
    compiler_traces: bool,
    file_events: bool,
    handoff: Option<Handoff>,
    wait: Option<u64>,
}

fn recording(args: &[&str]) -> Recording {
    let Args::Record { output, command, compiler_traces, file_events, handoff, wait } =
        parse_strings(args)
    else {
        panic!("expected record arguments")
    };
    Recording { output, command, compiler_traces, file_events, handoff, wait }
}

#[test]
fn parses_explicit_record_subcommand() {
    let recording =
        recording(&["buildprof", "record", "-o", "out.pftrace", "--", "make", "-j8"]);
    assert_eq!(recording.output, b"out.pftrace");
    assert_eq!(recording.command, [b"make".to_vec(), b"-j8".to_vec()]);
}

#[test]
fn defaults_to_recording_without_subcommand() {
    let recording = recording(&["buildprof", "--", "make"]);
    assert_eq!(recording.output, b"output.buildprof");
    assert_eq!(recording.command, [b"make".to_vec()]);
    assert!(!recording.compiler_traces);
    assert_eq!(recording.wait, Some(600));
}

#[test]
fn compiler_traces_can_be_enabled() {
    assert!(recording(&["buildprof", "--compiler-traces", "--", "make"]).compiler_traces);
}

#[test]
fn opening_can_be_disabled() {
    assert_eq!(recording(&["buildprof", "--no-open", "--", "make"]).handoff, None);
}

#[test]
fn wait_can_be_disabled() {
    assert_eq!(recording(&["buildprof", "--wait", "0", "--", "make"]).wait, None);
}

#[test]
fn parses_open_subcommand() {
    let Args::Open { source: Source::Trace(trace), url, wait, .. } =
        parse_strings(&["buildprof", "open", "--wait", "30", "trace.pftrace"])
    else {
        panic!("expected open arguments for a trace")
    };
    assert_eq!(trace, b"trace.pftrace");
    assert_eq!(url, DEFAULT_UI_URL);
    assert_eq!(wait, Some(30));
}

#[test]
fn open_supports_dev_server_and_custom_url() {
    let Args::Open { url, .. } =
        parse_strings(&["buildprof", "open", "--dev-server", "trace.pftrace"])
    else {
        panic!("expected open arguments")
    };
    assert_eq!(url, DEV_UI_URL);

    let Args::Open { url, .. } = parse_strings(&[
        "buildprof",
        "open",
        "trace.pftrace",
        "--url",
        "https://example.com/ui/",
    ]) else {
        panic!("expected open arguments")
    };
    assert_eq!(url, "https://example.com/ui/");
}

#[test]
fn open_can_select_a_hosted_example() {
    let Args::Open { source: Source::Example(example), .. } =
        parse_strings(&["buildprof", "open", "--example", "ripgrep"])
    else {
        panic!("expected open arguments for an example")
    };
    assert_eq!(example.name, "ripgrep");
}

#[test]
fn unknown_examples_are_rejected_with_the_available_names() {
    let argv = argv(&["buildprof", "open", "--example", "nope"]);
    let error = from_cli(Cli::parse_from_argv(&argv).unwrap(), &desktop()).unwrap_err();
    assert!(error.contains("nope"));
    assert!(error.contains("ripgrep"));
}

#[test]
fn open_requires_a_trace_or_an_example() {
    let argv = argv(&["buildprof", "open"]);
    assert!(Cli::parse_from_argv(&argv).is_err());
}

#[test]
fn lists_examples() {
    assert!(matches!(parse_strings(&["buildprof", "examples"]), Args::Examples));
}

#[test]
fn file_events_can_be_disabled() {
    assert!(recording(&["buildprof", "--", "make"]).file_events);
    assert!(!recording(&["buildprof", "--no-file-events", "--", "make"]).file_events);
}

#[test]
fn global_flags_may_stand_on_either_side_of_a_subcommand() {
    let before = recording(&["buildprof", "--wait=5", "-oa.buildprof", "record", "make"]);
    assert_eq!((before.wait, before.output), (Some(5), b"a.buildprof".to_vec()));
    let after = recording(&["buildprof", "record", "--output=b.buildprof", "--no-open", "make"]);
    assert_eq!((after.handoff, after.output), (None, b"b.buildprof".to_vec()));
}

#[test]
fn arguments_after_the_dashes_are_passed_through_unchanged() {
    let words = ["--wait", "--", "-o", "open", "--no-such-flag", ""];
    let expected: Vec<Vec<u8>> = words.iter().map(|word| word.as_bytes().to_vec()).collect();
    let mut bare = vec!["buildprof", "--"];
    bare.extend(words);
    assert_eq!(recording(&bare).command, expected);
    let mut named = vec!["buildprof", "record", "--"];
    named.extend(words);
    assert_eq!(recording(&named).command, expected);
}

#[test]
fn commands_need_not_be_text() {
    let argv = vec![b"buildprof".to_vec(), b"--".to_vec(), vec![0xff, 0xfe]];
    let cli = Cli::parse_from_argv(&argv).unwrap();
    assert_eq!(cli.command, [vec![0xff, 0xfe]]);
}

#[test]
fn each_kind_of_mistake_is_told_apart() {
    assert_eq!(refused(&["buildprof"]), CliError::Help);
    assert_eq!(refused(&["buildprof", "--help"]), CliError::Help);
    assert_eq!(refused(&["buildprof", "-V"]), CliError::Version);
    assert_eq!(refused(&["buildprof", "--nope", "--", "make"]), CliError::UnknownFlag { at: 1 });
    assert_eq!(refused(&["buildprof", "record", "--url", "x"]), CliError::UnknownFlag { at: 2 });
    assert_eq!(refused(&["buildprof", "record", "--wait"]), CliError::MissingValue { at: 2 });
    assert_eq!(refused(&["buildprof", "--wait", "soon", "--", "make"]), CliError::InvalidValue {
        at: 1
    });
    assert_eq!(refused(&["buildprof", "--no-open=1", "--", "make"]), CliError::InvalidValue {
        at: 1
    });
    assert_eq!(refused(&["buildprof", "make"]), CliError::UnexpectedArgument { at: 1 });
    assert_eq!(refused(&["buildprof", "examples", "x"]), CliError::UnexpectedArgument { at: 2 });
    assert_eq!(refused(&["buildprof", "--"]), CliError::MissingCommand);
    assert_eq!(refused(&["buildprof", "record"]), CliError::MissingCommand);
    assert_eq!(refused(&["buildprof", "open"]), CliError::MissingTrace);
    assert_eq!(refused(&["buildprof", "open", "a", "b"]), CliError::Conflict);
    assert_eq!(refused(&["buildprof", "open", "a", "--example", "ripgrep"]), CliError::Conflict);
    assert_eq!(
        refused(&["buildprof", "open", "a", "--dev-server", "--url", "u"]),
        CliError::Conflict
    );
}

#[test]
fn mistakes_are_put_into_words() {
    let argv = vec![b"buildprof".to_vec(), vec![b'-', b'x', 0xff]];
    let error = Cli::parse_from_argv(&argv).unwrap_err();
    assert_eq!(error, CliError::UnknownFlag { at: 1 });
    assert_eq!(error.message(&argv), "unknown flag `-x\u{fffd}`");
    assert_eq!(
        CliError::MissingTrace.message(&argv),
        "open needs a trace path or --example <NAME>"
    );
}

#[test]
fn a_command_line_is_settled_in_one_go() {
    assert!(matches!(
        parse(&argv(&["buildprof", "examples"]), &nowhere()),
        Ok(Args::Examples)
    ));
    assert!(matches!(
        parse(&argv(&["buildprof"]), &nowhere()),
        Err(ParseError::Cli { error: CliError::Help })
    ));
    let Err(ParseError::Request { message }) =
        parse(&argv(&["buildprof", "open", "--example", "nope"]), &nowhere())
    else {
        panic!("expected a refusal")
    };
    assert_eq!(message, "unknown example `nope`; available: ripgrep");
}

#[test]
fn a_browser_is_launched_only_where_it_can_be_seen() {
    assert_eq!(default_handoff(&nowhere()), None);
    assert_eq!(default_handoff(&desktop()), Some(Handoff::Browser));
    let headless = Surroundings { display: false, ..desktop() };
    assert_eq!(default_handoff(&headless), None);
    assert_eq!(
        default_handoff(&Surroundings { wayland_display: true, ..headless }),
        Some(Handoff::Browser)
    );
    assert_eq!(
        default_handoff(&Surroundings { linux: false, ..headless }),
        Some(Handoff::Browser)
    );
    let remote = Surroundings { ssh_tty: true, ..desktop() };
    assert!(in_ssh_session(&remote));
    assert_eq!(default_handoff(&remote), Some(Handoff::Ssh));
    let piped = Surroundings { stdout_is_terminal: false, ..remote };
    assert_eq!(default_handoff(&piped), None);
}

#[test]
fn examples_are_found_by_name() {
    assert_eq!(examples().len(), 1);
    assert_eq!(find_example("ripgrep").unwrap().file, "ripgrep-release-clean.buildprof");
    assert!(find_example("ripgre").is_err());
}
