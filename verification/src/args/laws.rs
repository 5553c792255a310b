//! What the command line means, flag by flag.

#[allow(unused_imports)]
use super::{
    command_line, concluded, decided, first_position, handoff_for, hosted_examples, named, scan,
    setting_of, subcommand_of, switch_of, token_of, waited, ActionView, ArgsView, CliError,
    CliView, Example, Handoff, ScanView, Setting, SourceView, Subcommand, Surroundings, Switch,
    Token,
};
#[allow(unused_imports)]
use crate::text::laws::{lemma_encoded, lemma_unsigned_read_back};
#[allow(unused_imports)]
use crate::text::{byte_characters, decimal, digits, is_digit, unsigned_value};
use vstd::prelude::*;
use vstd::string::*;
#[allow(unused_imports)]
use vstd::utf8::*;

verus! {

/// A trace or an example is opened over SSH if one of the variables of an SSH
/// session is set, and in a browser here if none is.
pub proof fn lemma_open_handoff(cli: CliView, surroundings: Surroundings)
    ensures
        decided(cli, surroundings) matches Ok(ArgsView::Open { handoff, .. }) ==> {
            if surroundings.ssh_connection || surroundings.ssh_tty || surroundings.ssh_client {
                handoff == Handoff::Ssh
            } else {
                handoff == Handoff::Browser
            }
        },
{
}

/// What `open` shows is the trace or the example that was named, at the URL
/// that was given, at the development server if that was asked for, and at the
/// UI of this release otherwise.
pub proof fn lemma_open_source(
    cli: CliView,
    surroundings: Surroundings,
    path: Seq<u8>,
    url: Option<Seq<char>>,
    dev_server: bool,
)
    requires
        cli.action == Some(
            ActionView::Open { trace: Some(path), example: None, dev_server, url },
        ),
    ensures
        decided(cli, surroundings) matches Ok(ArgsView::Open { source, url: shown_at, wait, .. })
            && {
            &&& source == (SourceView::Trace { path })
            &&& url matches Some(url) ==> shown_at == url
            &&& url is None && dev_server ==> shown_at == "http://localhost:10000"@
            &&& url is None && !dev_server ==> shown_at == "https://buildprof.lalitm.com/v0.2.7"@
            &&& cli.wait == 0 ==> wait is None
            &&& cli.wait > 0 ==> wait == Some(cli.wait)
        },
{
}

/// An example that is hosted is found under its name, and no other name is
/// taken for one.
pub proof fn lemma_example_found(
    cli: CliView,
    surroundings: Surroundings,
    name: Seq<char>,
    url: Option<Seq<char>>,
    dev_server: bool,
)
    requires
        cli.action == Some(
            ActionView::Open { trace: None, example: Some(name), dev_server, url },
        ),
    ensures
        match decided(cli, surroundings) {
            Ok(ArgsView::Open { source: SourceView::Example { example }, .. }) => example.name@
                == name && hosted_examples().contains(example),
            Ok(_) => false,
            Err(_) => forall|i: int|
                0 <= i < hosted_examples().len() ==> (#[trigger] hosted_examples()[i]).name@
                    != name,
        },
{
    lemma_named(hosted_examples(), name);
}

proof fn lemma_named(examples: Seq<Example>, name: Seq<char>)
    ensures
        match named(examples, name) {
            Some(example) => example.name@ == name && examples.contains(example),
            None => forall|i: int|
                0 <= i < examples.len() ==> (#[trigger] examples[i]).name@ != name,
        },
    decreases examples.len(),
{
    if examples.len() > 0 && examples[0].name@ != name {
        let rest = examples.skip(1);
        lemma_named(rest, name);
        match named(rest, name) {
            Some(example) => {
                let i = choose|i: int| 0 <= i < rest.len() && rest[i] == example;
                assert(examples[i + 1] == example);
            },
            None => {
                assert forall|i: int| 0 <= i < examples.len() implies (
                #[trigger] examples[i]).name@ != name by {
                    if i > 0 {
                        assert(rest[i - 1] == examples[i]);
                    }
                }
            },
        }
    }
}

/// A recording is of the command that was given, into the file that was named,
/// with compilers' traces if they were asked for and files unless they were
/// declined.
pub proof fn lemma_recording_asked_for(
    cli: CliView,
    surroundings: Surroundings,
    command: Seq<Seq<u8>>,
)
    requires
        cli.action is None && cli.command == command || cli.action == Some(
            ActionView::Record { command },
        ),
    ensures
        decided(cli, surroundings) matches Ok(
            ArgsView::Record {
                output,
                command: recorded,
                compiler_traces,
                file_events,
                wait,
                ..
            },
        ) && {
            &&& output == cli.output
            &&& recorded == command
            &&& compiler_traces == cli.compiler_traces
            &&& file_events != cli.no_file_events
            &&& cli.wait == 0 ==> wait is None
            &&& cli.wait > 0 ==> wait == Some(cli.wait)
        },
{
}

/// A finished recording is handed over only where someone is at the terminal
/// and did not decline: over SSH in an SSH session, and otherwise to a browser
/// where one can be seen.
pub proof fn lemma_recording_handoff(cli: CliView, surroundings: Surroundings)
    ensures
        decided(cli, surroundings) matches Ok(ArgsView::Record { handoff, .. }) ==> {
            let someone = surroundings.stdin_is_terminal && surroundings.stdout_is_terminal;
            let ssh = surroundings.ssh_connection || surroundings.ssh_tty
                || surroundings.ssh_client;
            let visible = !surroundings.linux || surroundings.display
                || surroundings.wayland_display;
            &&& cli.no_open || !someone ==> handoff is None
            &&& !cli.no_open && someone && ssh ==> handoff == Some(Handoff::Ssh)
            &&& !cli.no_open && someone && !ssh && visible ==> handoff == Some(Handoff::Browser)
            &&& !cli.no_open && someone && !ssh && !visible ==> handoff is None
        },
{
}

/// Listing the examples asks for nothing else.
pub proof fn lemma_examples_listed(cli: CliView, surroundings: Surroundings)
    ensures
        cli.action == Some(ActionView::Examples) <==> decided(cli, surroundings) == Ok::<
            ArgsView,
            Seq<char>,
        >(ArgsView::Examples),
{
}

/// What some flags at the front of a command line add to the rest of it: the
/// switches hold, and the settings do unless the rest makes others.
pub open spec fn fronted(state: ScanView, front: ScanView) -> ScanView {
    ScanView {
        output: match state.output {
            Some(output) => Some(output),
            None => front.output,
        },
        compiler_traces: state.compiler_traces || front.compiler_traces,
        no_open: state.no_open || front.no_open,
        no_file_events: state.no_file_events || front.no_file_events,
        wait: match state.wait {
            Some(wait) => Some(wait),
            None => front.wait,
        },
        ..state
    }
}

proof fn lemma_scan_fronted(
    args: Seq<Seq<u8>>,
    at: int,
    state: ScanView,
    longer: Seq<Seq<u8>>,
    further: int,
    front: ScanView,
)
    requires
        0 <= at <= args.len(),
        further >= 0,
        longer.len() - further == args.len() - at,
        longer.skip(further) == args.skip(at),
        scan(args, at, state) is Ok,
    ensures
        scan(longer, further, fronted(state, front)) == Ok::<ScanView, CliError>(
            fronted(scan(args, at, state)->Ok_0, front),
        ),
    decreases args.len() - at,
{
    if at < args.len() {
        assert(longer.skip(further)[0] == args.skip(at)[0]);
        assert(longer[further] == args[at]);
        assert(longer.skip(further + 1) =~= longer.skip(further).skip(1));
        assert(args.skip(at + 1) =~= args.skip(at).skip(1));
        let fronted_state = fronted(state, front);
        match token_of(args[at], state.subcommand) {
            Token::Dashes => {},
            Token::Switch { switch } => {
                let next = state.switched(switch)->Ok_0;
                assert(fronted_state.switched(switch)->Ok_0 =~= fronted(next, front));
                lemma_scan_fronted(args, at + 1, next, longer, further + 1, front);
            },
            Token::Setting { setting, value } => match value {
                Some(value) => {
                    let next = state.set(setting, value)->0;
                    assert(fronted_state.set(setting, value)->0 =~= fronted(next, front));
                    lemma_scan_fronted(args, at + 1, next, longer, further + 1, front);
                },
                None => {
                    assert(longer.skip(further)[1] == args.skip(at)[1]);
                    assert(longer[further + 1] == args[at + 1]);
                    assert(longer.skip(further + 2) =~= longer.skip(further).skip(2));
                    assert(args.skip(at + 2) =~= args.skip(at).skip(2));
                    let next = state.set(setting, args[at + 1])->0;
                    assert(fronted_state.set(setting, args[at + 1])->0 =~= fronted(next, front));
                    lemma_scan_fronted(args, at + 2, next, longer, further + 2, front);
                },
            },
            Token::SwitchWithValue => {},
            Token::Unknown => {},
            Token::Word => {
                let next = state.worded(args[at])->0;
                assert(fronted_state.worded(args[at])->0 =~= fronted(next, front));
                lemma_scan_fronted(args, at + 1, next, longer, further + 1, front);
            },
        }
    }
}

/// Whether a flag is spelled with two hyphens and without `=`.
spec fn plain_flag(flag: Seq<char>) -> bool {
    &&& is_ascii_chars(flag)
    &&& flag.len() > 2
    &&& flag[0] == '-'
    &&& flag[1] == '-'
    &&& forall|i: int| 0 <= i < flag.len() ==> #[trigger] flag[i] != '='
}

proof fn lemma_no_equals(bytes: Seq<u8>, from: int)
    requires
        0 <= from <= bytes.len(),
        forall|i: int| 0 <= i < bytes.len() ==> #[trigger] bytes[i] != 61,
    ensures
        first_position(bytes, 61, from) == bytes.len(),
    decreases bytes.len() - from,
{
    if from < bytes.len() {
        lemma_no_equals(bytes, from + 1);
    }
}

proof fn lemma_flag(flag: Seq<char>, subcommand: Option<Subcommand>)
    requires
        plain_flag(flag),
    ensures
        ({
            let bytes = encode_utf8(flag);
            token_of(bytes, subcommand) == (match switch_of(bytes, subcommand) {
                Some(switch) => Token::Switch { switch },
                None => match setting_of(bytes, subcommand) {
                    Some(setting) => Token::Setting { setting, value: None },
                    None => Token::Unknown,
                },
            })
        }),
{
    broadcast use vstd::utf8::group_utf8_lib;

    let bytes = encode_utf8(flag);
    assert(bytes.len() == flag.len());
    assert forall|i: int| 0 <= i < bytes.len() implies #[trigger] bytes[i] != 61 by {
        assert(flag[i] as u8 == bytes[i]);
    }
    assert(flag[0] as u8 == bytes[0]);
    assert(flag[1] as u8 == bytes[1]);
    lemma_no_equals(bytes, 0);
    assert(bytes.take(bytes.len() as int) =~= bytes);
    reveal_strlit("--");
    reveal_strlit("-o");
    assert(is_ascii_chars("--"@));
    assert(is_ascii_chars("-o"@));
    let short = encode_utf8("-o"@);
    assert("-o"@[1] as u8 == short[1]);
    if short.is_prefix_of(bytes) {
        assert(bytes.subrange(0, 2)[1] == bytes[1]);
    }
}

proof fn lemma_different(flag: Seq<char>, other: Seq<char>)
    requires
        flag != other,
    ensures
        encode_utf8(flag) != encode_utf8(other),
{
    encode_utf8_decode_utf8(flag);
    encode_utf8_decode_utf8(other);
}

proof fn lemma_front_switch(
    program: Seq<u8>,
    flag: Seq<char>,
    switch: Switch,
    rest: Seq<Seq<u8>>,
    cli: CliView,
)
    requires
        plain_flag(flag),
        switch_of(encode_utf8(flag), None) == Some(switch),
        switch == Switch::CompilerTraces || switch == Switch::NoOpen || switch
            == Switch::NoFileEvents,
        rest.len() > 0,
        command_line(seq![program] + rest) == Ok::<CliView, CliError>(cli),
    ensures
        command_line(seq![program, encode_utf8(flag)] + rest) == Ok::<CliView, CliError>(
            CliView {
                compiler_traces: cli.compiler_traces || switch == Switch::CompilerTraces,
                no_open: cli.no_open || switch == Switch::NoOpen,
                no_file_events: cli.no_file_events || switch == Switch::NoFileEvents,
                ..cli
            },
        ),
{
    let args = seq![program] + rest;
    let longer = seq![program, encode_utf8(flag)] + rest;
    let front = ScanView::nothing().switched(switch)->Ok_0;
    lemma_flag(flag, None);
    assert(longer[1] == encode_utf8(flag));
    assert(longer.skip(2) =~= rest);
    assert(args.skip(1) =~= rest);
    assert(fronted(ScanView::nothing(), front) =~= front);
    lemma_scan_fronted(args, 1, ScanView::nothing(), longer, 2, front);
    assert(scan(longer, 1, ScanView::nothing()) == scan(longer, 2, front));
}

/// `--compiler-traces`, `--no-open` and `--no-file-events` in front of a
/// command line turn on what they say and change nothing else of it.
pub proof fn lemma_switches(program: Seq<u8>, rest: Seq<Seq<u8>>, cli: CliView)
    requires
        rest.len() > 0,
        command_line(seq![program] + rest) == Ok::<CliView, CliError>(cli),
    ensures
        command_line(seq![program, encode_utf8("--compiler-traces"@)] + rest) == Ok::<
            CliView,
            CliError,
        >(CliView { compiler_traces: true, ..cli }),
        command_line(seq![program, encode_utf8("--no-open"@)] + rest) == Ok::<CliView, CliError>(
            CliView { no_open: true, ..cli },
        ),
        command_line(seq![program, encode_utf8("--no-file-events"@)] + rest) == Ok::<
            CliView,
            CliError,
        >(CliView { no_file_events: true, ..cli }),
{
    reveal_strlit("--compiler-traces");
    reveal_strlit("--no-open");
    reveal_strlit("--no-file-events");
    assert("--compiler-traces"@.len() != "--no-open"@.len());
    assert("--no-file-events"@.len() != "--no-open"@.len());
    assert("--no-file-events"@.len() != "--compiler-traces"@.len());
    lemma_different("--no-open"@, "--compiler-traces"@);
    lemma_different("--no-file-events"@, "--compiler-traces"@);
    lemma_different("--no-file-events"@, "--no-open"@);
    lemma_front_switch(program, "--compiler-traces"@, Switch::CompilerTraces, rest, cli);
    lemma_front_switch(program, "--no-open"@, Switch::NoOpen, rest, cli);
    lemma_front_switch(program, "--no-file-events"@, Switch::NoFileEvents, rest, cli);
}

/// Without flags a recording goes to `output.buildprof`, with files and
/// without compilers' traces, is opened, and a browser is waited for for ten
/// minutes.
pub proof fn lemma_defaults(program: Seq<u8>, command: Seq<Seq<u8>>)
    requires
        command.len() > 0,
    ensures
        command_line(seq![program, encode_utf8("--"@)] + command) == Ok::<CliView, CliError>(
            CliView {
                output: encode_utf8("output.buildprof"@),
                compiler_traces: false,
                no_open: false,
                no_file_events: false,
                wait: 600,
                command,
                action: None,
            },
        ),
{
    lemma_dashes(program, command, ScanView::nothing());
}

proof fn lemma_dashes(program: Seq<u8>, command: Seq<Seq<u8>>, state: ScanView)
    requires
        command.len() > 0,
    ensures
        ({
            let args = seq![program, encode_utf8("--"@)] + command;
            scan(args, 1, state) == Ok::<ScanView, CliError>(
                ScanView { words: state.words + command, ..state },
            )
        }),
{
    let args = seq![program, encode_utf8("--"@)] + command;
    assert(args[1] == encode_utf8("--"@));
    assert(args.skip(2) =~= command);
    assert(Seq::<Seq<u8>>::empty() + command =~= command);
}

/// `--output` and `-o` name the file to record to, and `--wait` the seconds to
/// wait for a browser; the command stays as it is.
pub proof fn lemma_settings(
    program: Seq<u8>,
    path: Seq<u8>,
    seconds: u64,
    command: Seq<Seq<u8>>,
)
    requires
        command.len() > 0,
    ensures
        ({
            let dashes = encode_utf8("--"@);
            let plain = command_line(seq![program, dashes] + command)->Ok_0;
            &&& command_line(seq![program, encode_utf8("--output"@), path, dashes] + command)
                == Ok::<CliView, CliError>(CliView { output: path, ..plain })
            &&& command_line(seq![program, encode_utf8("-o"@), path, dashes] + command) == Ok::<
                CliView,
                CliError,
            >(CliView { output: path, ..plain })
            &&& command_line(
                seq![program, encode_utf8("--wait"@), encode_utf8(decimal(seconds as int)), dashes]
                    + command,
            ) == Ok::<CliView, CliError>(CliView { wait: seconds, ..plain })
        }),
{
    broadcast use vstd::utf8::group_utf8_lib;

    let nothing = ScanView::nothing();
    let plain_args = seq![program, encode_utf8("--"@)] + command;
    lemma_defaults(program, command);
    lemma_dashes(program, command, nothing);
    reveal_strlit("--output");
    reveal_strlit("--wait");
    reveal_strlit("-o");
    reveal_strlit("--compiler-traces");
    reveal_strlit("--no-open");
    reveal_strlit("--no-file-events");
    reveal_strlit("--dev-server");
    reveal_strlit("--help");
    reveal_strlit("-h");
    reveal_strlit("--version");
    reveal_strlit("-V");
    lemma_flag("--output"@, None);
    lemma_flag("--wait"@, None);
    assert("--output"@[2] == 'o');
    assert("--no-open"@.len() == 9 && "--output"@.len() == 8 && "--wait"@.len() == 6);
    assert("--compiler-traces"@.len() == 17 && "--no-file-events"@.len() == 16);
    assert("--help"@[2] == 'h' && "--wait"@[2] == 'w');
    lemma_different("--output"@, "--compiler-traces"@);
    lemma_different("--output"@, "--no-open"@);
    lemma_different("--output"@, "--no-file-events"@);
    lemma_different("--output"@, "--help"@);
    lemma_different("--output"@, "-h"@);
    lemma_different("--output"@, "--version"@);
    lemma_different("--output"@, "-V"@);
    lemma_different("--wait"@, "--compiler-traces"@);
    lemma_different("--wait"@, "--no-open"@);
    lemma_different("--wait"@, "--no-file-events"@);
    lemma_different("--wait"@, "--help"@);
    lemma_different("--wait"@, "-h"@);
    lemma_different("--wait"@, "--version"@);
    lemma_different("--wait"@, "-V"@);
    lemma_different("--wait"@, "--output"@);
    lemma_setting(program, encode_utf8("--output"@), Setting::Output, path, command);
    lemma_setting(
        program,
        encode_utf8("--wait"@),
        Setting::Wait,
        encode_utf8(decimal(seconds as int)),
        command,
    );
    assert(is_ascii_chars("-o"@));
    let short = encode_utf8("-o"@);
    assert(short.len() == 2);
    assert("-o"@[0] as u8 == short[0]);
    assert("-o"@[1] as u8 == short[1]);
    reveal_strlit("--");
    assert(is_ascii_chars("--"@));
    assert("--"@[1] as u8 == encode_utf8("--"@)[1]);
    assert(short =~= short.subrange(0, 2));
    lemma_setting(program, short, Setting::Output, path, command);
    let digits = decimal(seconds as int);
    lemma_unsigned_read_back(seconds as nat);
    crate::text::lemma_digits_value(seconds as nat);
    assert forall|i: int| 0 <= i < digits.len() implies '\0' <= #[trigger] digits[i]
        <= '\u{7f}' by {
        assert(is_digit(digits[i]));
    }
    assert(is_ascii_chars(digits));
    assert(byte_characters(encode_utf8(digits)) =~= digits) by {
        assert forall|i: int| 0 <= i < digits.len() implies byte_characters(encode_utf8(digits))[i]
            == digits[i] by {
            assert(digits[i] as u8 == encode_utf8(digits)[i]);
            assert(is_digit(digits[i]));
        }
    }
}

proof fn lemma_setting(
    program: Seq<u8>,
    flag: Seq<u8>,
    setting: Setting,
    value: Seq<u8>,
    command: Seq<Seq<u8>>,
)
    requires
        command.len() > 0,
        token_of(flag, None) == (Token::Setting { setting, value: None }),
    ensures
        ({
            let longer = seq![program, flag, value, encode_utf8("--"@)] + command;
            let state = ScanView::nothing().set(setting, value);
            state matches Some(state) ==> scan(longer, 1, ScanView::nothing()) == Ok::<
                ScanView,
                CliError,
            >(ScanView { words: state.words + command, ..state })
        }),
{
    let longer = seq![program, flag, value, encode_utf8("--"@)] + command;
    assert(longer[1] == flag);
    assert(longer[2] == value);
    assert(longer[3] == encode_utf8("--"@));
    assert(longer.skip(4) =~= command);
    if let Some(state) = ScanView::nothing().set(setting, value) {
        assert(scan(longer, 1, ScanView::nothing()) == scan(longer, 3, state));
    }
}

/// `open` shows the trace at a path that does not look like a flag.
pub proof fn lemma_open_path(program: Seq<u8>, path: Seq<u8>)
    requires
        path.len() > 0,
        path[0] != 45,
    ensures
        command_line(seq![program, encode_utf8("open"@), path]) matches Ok(cli) && cli.action
            == Some(
            ActionView::Open { trace: Some(path), example: None, dev_server: false, url: None },
        ),
{
    broadcast use vstd::utf8::group_utf8_lib;

    let args = seq![program, encode_utf8("open"@), path];
    reveal_strlit("open");
    reveal_strlit("record");
    reveal_strlit("--");
    assert(is_ascii_chars("open"@));
    assert(is_ascii_chars("--"@));
    assert("open"@[0] as u8 == encode_utf8("open"@)[0]);
    assert("--"@[0] as u8 == encode_utf8("--"@)[0]);
    assert("open"@.len() != "record"@.len());
    lemma_different("open"@, "record"@);
    let named = ScanView { subcommand: Some(Subcommand::Open), ..ScanView::nothing() };
    assert(token_of(args[1], None) == Token::Word);
    assert(token_of(args[2], Some(Subcommand::Open)) == Token::Word);
    assert(ScanView::nothing().worded(args[1]) == Some(named));
    assert(scan(args, 1, ScanView::nothing()) == scan(args, 2, named));
    let done = ScanView { words: Seq::<Seq<u8>>::empty().push(path), ..named };
    assert(named.worded(path) == Some(done));
    assert(scan(args, 2, named) == scan(args, 3, done));
    assert(done.words[0] == path);
}

/// What the flags of `open` are.
proof fn lemma_open_flags()
    ensures
        ({
            let open = Some(Subcommand::Open);
            &&& token_of(encode_utf8("--example"@), open) == (Token::Setting {
                setting: Setting::Example,
                value: None,
            })
            &&& token_of(encode_utf8("--url"@), open) == (Token::Setting {
                setting: Setting::Url,
                value: None,
            })
            &&& token_of(encode_utf8("--dev-server"@), open) == (Token::Switch {
                switch: Switch::DevServer,
            })
            &&& token_of(encode_utf8("--help"@), None) == (Token::Switch { switch: Switch::Help })
            &&& token_of(encode_utf8("--version"@), None) == (Token::Switch {
                switch: Switch::Version,
            })
            &&& token_of(encode_utf8("--example"@), None) == Token::Unknown
            &&& token_of(encode_utf8("--url"@), None) == Token::Unknown
            &&& token_of(encode_utf8("--dev-server"@), None) == Token::Unknown
        }),
{
    reveal_strlit("--compiler-traces");
    reveal_strlit("--no-open");
    reveal_strlit("--no-file-events");
    reveal_strlit("--dev-server");
    reveal_strlit("--help");
    reveal_strlit("-h");
    reveal_strlit("--version");
    reveal_strlit("-V");
    reveal_strlit("--output");
    reveal_strlit("--wait");
    reveal_strlit("--example");
    reveal_strlit("--url");
    assert("--compiler-traces"@.len() == 17 && "--no-open"@.len() == 9 && "--no-file-events"@.len()
        == 16 && "--dev-server"@.len() == 12 && "--help"@.len() == 6 && "-h"@.len() == 2);
    assert("--version"@.len() == 9 && "-V"@.len() == 2 && "--output"@.len() == 8 && "--wait"@.len()
        == 6 && "--example"@.len() == 9 && "--url"@.len() == 5);
    assert("--no-open"@[2] == 'n' && "--version"@[2] == 'v' && "--example"@[2] == 'e'
        && "--help"@[2] == 'h' && "--wait"@[2] == 'w');
    lemma_flag("--example"@, Some(Subcommand::Open));
    lemma_flag("--url"@, Some(Subcommand::Open));
    lemma_flag("--dev-server"@, Some(Subcommand::Open));
    lemma_flag("--example"@, None);
    lemma_flag("--url"@, None);
    lemma_flag("--dev-server"@, None);
    lemma_flag("--help"@, None);
    lemma_flag("--version"@, None);
    lemma_unlike("--example"@);
    lemma_unlike("--url"@);
    lemma_unlike("--dev-server"@);
    lemma_unlike("--help"@);
    lemma_unlike("--version"@);
}

proof fn lemma_unlike(flag: Seq<char>)
    ensures
        flag != "--compiler-traces"@ ==> encode_utf8(flag) != encode_utf8("--compiler-traces"@),
        flag != "--no-open"@ ==> encode_utf8(flag) != encode_utf8("--no-open"@),
        flag != "--no-file-events"@ ==> encode_utf8(flag) != encode_utf8("--no-file-events"@),
        flag != "--dev-server"@ ==> encode_utf8(flag) != encode_utf8("--dev-server"@),
        flag != "--help"@ ==> encode_utf8(flag) != encode_utf8("--help"@),
        flag != "-h"@ ==> encode_utf8(flag) != encode_utf8("-h"@),
        flag != "--version"@ ==> encode_utf8(flag) != encode_utf8("--version"@),
        flag != "-V"@ ==> encode_utf8(flag) != encode_utf8("-V"@),
        flag != "--output"@ ==> encode_utf8(flag) != encode_utf8("--output"@),
        flag != "--wait"@ ==> encode_utf8(flag) != encode_utf8("--wait"@),
        flag != "--example"@ ==> encode_utf8(flag) != encode_utf8("--example"@),
{
    encode_utf8_decode_utf8(flag);
    encode_utf8_decode_utf8("--compiler-traces"@);
    encode_utf8_decode_utf8("--no-open"@);
    encode_utf8_decode_utf8("--no-file-events"@);
    encode_utf8_decode_utf8("--dev-server"@);
    encode_utf8_decode_utf8("--help"@);
    encode_utf8_decode_utf8("-h"@);
    encode_utf8_decode_utf8("--version"@);
    encode_utf8_decode_utf8("-V"@);
    encode_utf8_decode_utf8("--output"@);
    encode_utf8_decode_utf8("--wait"@);
    encode_utf8_decode_utf8("--example"@);
}

/// The subcommand `open`, as the reading of a command line takes it up.
spec fn opening() -> ScanView {
    ScanView { subcommand: Some(Subcommand::Open), ..ScanView::nothing() }
}

proof fn lemma_opening(args: Seq<Seq<u8>>)
    requires
        args.len() > 1,
        args[1] == encode_utf8("open"@),
    ensures
        scan(args, 1, ScanView::nothing()) == scan(args, 2, opening()),
{
    broadcast use vstd::utf8::group_utf8_lib;

    reveal_strlit("open");
    reveal_strlit("record");
    reveal_strlit("--");
    assert(is_ascii_chars("open"@));
    assert(is_ascii_chars("--"@));
    assert("open"@[0] as u8 == encode_utf8("open"@)[0]);
    assert("--"@[0] as u8 == encode_utf8("--"@)[0]);
    assert("open"@.len() != "record"@.len());
    lemma_different("open"@, "record"@);
    assert(token_of(args[1], None) == Token::Word);
    assert(ScanView::nothing().worded(args[1]) == Some(opening()));
}

/// A word stands for itself once there is a subcommand.
proof fn lemma_word(path: Seq<u8>, subcommand: Option<Subcommand>)
    requires
        path.len() > 0,
        path[0] != 45,
    ensures
        token_of(path, subcommand) == Token::Word,
{
    broadcast use vstd::utf8::group_utf8_lib;

    reveal_strlit("--");
    assert(is_ascii_chars("--"@));
    assert("--"@[0] as u8 == encode_utf8("--"@)[0]);
}

/// `open --example` shows the example with that name, in place of a trace.
pub proof fn lemma_open_example(program: Seq<u8>, name: Seq<char>)
    ensures
        command_line(
            seq![program, encode_utf8("open"@), encode_utf8("--example"@), encode_utf8(name)],
        ) matches Ok(cli) && cli.action == Some(
            ActionView::Open {
                trace: None,
                example: Some(name),
                dev_server: false,
                url: None,
            },
        ),
{
    let args = seq![program, encode_utf8("open"@), encode_utf8("--example"@), encode_utf8(name)];
    lemma_opening(args);
    lemma_open_flags();
    encode_utf8_valid_utf8(name);
    encode_utf8_decode_utf8(name);
    let next = ScanView { example: Some(name), ..opening() };
    assert(opening().set(Setting::Example, args[3]) == Some(next));
    assert(args[2] == encode_utf8("--example"@));
    assert(scan(args, 2, opening()) == scan(args, 4, next));
}

/// `--url` names the UI to open a trace in, and `--dev-server` takes the one
/// of the development server.
pub proof fn lemma_open_elsewhere(program: Seq<u8>, path: Seq<u8>, url: Seq<char>)
    requires
        path.len() > 0,
        path[0] != 45,
    ensures
        command_line(
            seq![program, encode_utf8("open"@), path, encode_utf8("--url"@), encode_utf8(url)],
        ) matches Ok(cli) && cli.action == Some(
            ActionView::Open {
                trace: Some(path),
                example: None,
                dev_server: false,
                url: Some(url),
            },
        ),
        command_line(
            seq![program, encode_utf8("open"@), path, encode_utf8("--dev-server"@)],
        ) matches Ok(cli) && cli.action == Some(
            ActionView::Open { trace: Some(path), example: None, dev_server: true, url: None },
        ),
{
    let args = seq![program, encode_utf8("open"@), path, encode_utf8("--url"@), encode_utf8(url)];
    lemma_opening(args);
    lemma_open_flags();
    lemma_word(path, Some(Subcommand::Open));
    encode_utf8_valid_utf8(url);
    encode_utf8_decode_utf8(url);
    let named = ScanView { words: Seq::<Seq<u8>>::empty().push(path), ..opening() };
    assert(named.words[0] == path);
    assert(opening().worded(path) == Some(named));
    assert(args[2] == path);
    assert(scan(args, 2, opening()) == scan(args, 3, named));
    let next = ScanView { url: Some(url), ..named };
    assert(named.set(Setting::Url, args[4]) == Some(next));
    assert(args[3] == encode_utf8("--url"@));
    assert(scan(args, 3, named) == scan(args, 5, next));
    let others = seq![program, encode_utf8("open"@), path, encode_utf8("--dev-server"@)];
    lemma_opening(others);
    assert(others[2] == path);
    assert(scan(others, 2, opening()) == scan(others, 3, named));
    let local = ScanView { dev_server: true, ..named };
    assert(others[3] == encode_utf8("--dev-server"@));
    assert(scan(others, 3, named) == scan(others, 4, local));
}

/// `open` needs one trace or one example, and not both.
pub proof fn lemma_open_refused(
    program: Seq<u8>,
    path: Seq<u8>,
    other: Seq<u8>,
    name: Seq<char>,
)
    requires
        path.len() > 0,
        path[0] != 45,
        other.len() > 0,
        other[0] != 45,
    ensures
        command_line(seq![program, encode_utf8("open"@)]) == Err::<CliView, CliError>(
            CliError::MissingTrace,
        ),
        command_line(seq![program, encode_utf8("open"@), path, other]) == Err::<CliView, CliError>(
            CliError::Conflict,
        ),
        command_line(
            seq![program, encode_utf8("open"@), path, encode_utf8("--example"@), encode_utf8(name)],
        ) == Err::<CliView, CliError>(CliError::Conflict),
{
    let open = encode_utf8("open"@);
    let bare = seq![program, open];
    lemma_opening(bare);
    assert(scan(bare, 2, opening()) == Ok::<ScanView, CliError>(opening()));
    lemma_word(path, Some(Subcommand::Open));
    lemma_word(other, Some(Subcommand::Open));
    let named = ScanView { words: Seq::<Seq<u8>>::empty().push(path), ..opening() };
    let two = seq![program, open, path, other];
    lemma_opening(two);
    assert(two[2] == path && two[3] == other);
    assert(scan(two, 2, opening()) == scan(two, 3, named));
    let both = ScanView { words: named.words.push(other), ..named };
    assert(scan(two, 3, named) == scan(two, 4, both));
    assert(both.words.len() == 2);
    let mixed = seq![program, open, path, encode_utf8("--example"@), encode_utf8(name)];
    lemma_opening(mixed);
    lemma_open_flags();
    encode_utf8_valid_utf8(name);
    assert(mixed[2] == path && mixed[3] == encode_utf8("--example"@) && mixed[4] == encode_utf8(
        name,
    ));
    assert(scan(mixed, 2, opening()) == scan(mixed, 3, named));
    let next = ScanView { example: Some(decode_utf8(encode_utf8(name))), ..named };
    assert(named.set(Setting::Example, mixed[4]) == Some(next));
    assert(scan(mixed, 3, named) == scan(mixed, 5, next));
}

proof fn lemma_subcommand_words()
    ensures
        token_of(encode_utf8("record"@), None) == Token::Word,
        token_of(encode_utf8("examples"@), None) == Token::Word,
        subcommand_of(encode_utf8("record"@)) == Some(Subcommand::Record),
        subcommand_of(encode_utf8("examples"@)) == Some(Subcommand::Examples),
{
    broadcast use vstd::utf8::group_utf8_lib;

    reveal_strlit("record");
    reveal_strlit("examples");
    reveal_strlit("open");
    assert(is_ascii_chars("record"@));
    assert(is_ascii_chars("examples"@));
    assert("record"@[0] as u8 == encode_utf8("record"@)[0]);
    assert("examples"@[0] as u8 == encode_utf8("examples"@)[0]);
    assert("record"@.len() == 6 && "examples"@.len() == 8 && "open"@.len() == 4);
    lemma_different("examples"@, "record"@);
    lemma_different("examples"@, "open"@);
    lemma_word(encode_utf8("record"@), None);
    lemma_word(encode_utf8("examples"@), None);
}

/// `record` takes the command behind `--`, and needs one.
pub proof fn lemma_record_subcommand(program: Seq<u8>, command: Seq<Seq<u8>>)
    requires
        command.len() > 0,
    ensures
        command_line(
            seq![program, encode_utf8("record"@), encode_utf8("--"@)] + command,
        ) matches Ok(cli) && cli.action == Some(ActionView::Record { command }),
        command_line(seq![program, encode_utf8("record"@)]) == Err::<CliView, CliError>(
            CliError::MissingCommand,
        ),
{
    lemma_subcommand_words();
    let recording = ScanView { subcommand: Some(Subcommand::Record), ..ScanView::nothing() };
    let args = seq![program, encode_utf8("record"@), encode_utf8("--"@)] + command;
    assert(args[1] == encode_utf8("record"@));
    assert(args[2] == encode_utf8("--"@));
    assert(args.skip(3) =~= command);
    assert(Seq::<Seq<u8>>::empty() + command =~= command);
    assert(ScanView::nothing().worded(args[1]) == Some(recording));
    assert(scan(args, 1, ScanView::nothing()) == scan(args, 2, recording));
    assert(token_of(args[2], Some(Subcommand::Record)) == Token::Dashes);
    let bare = seq![program, encode_utf8("record"@)];
    assert(bare[1] == encode_utf8("record"@));
    assert(scan(bare, 1, ScanView::nothing()) == scan(bare, 2, recording));
}

/// `examples` lists the examples.
pub proof fn lemma_examples_subcommand(program: Seq<u8>)
    ensures
        command_line(seq![program, encode_utf8("examples"@)]) matches Ok(cli) && cli.action
            == Some(ActionView::Examples),
{
    lemma_subcommand_words();
    let listing = ScanView { subcommand: Some(Subcommand::Examples), ..ScanView::nothing() };
    let args = seq![program, encode_utf8("examples"@)];
    assert(args[1] == encode_utf8("examples"@));
    assert(scan(args, 1, ScanView::nothing()) == scan(args, 2, listing));
}

/// Help is given where it or nothing is asked for, and the version where that
/// is, whatever follows.
pub proof fn lemma_help_asked_for(program: Seq<u8>, rest: Seq<Seq<u8>>)
    ensures
        command_line(seq![program]) == Err::<CliView, CliError>(CliError::Help),
        command_line(seq![program, encode_utf8("--help"@)] + rest) == Err::<CliView, CliError>(
            CliError::Help,
        ),
        command_line(seq![program, encode_utf8("--version"@)] + rest) == Err::<CliView, CliError>(
            CliError::Version,
        ),
{
    lemma_open_flags();
    let help = seq![program, encode_utf8("--help"@)] + rest;
    assert(help[1] == encode_utf8("--help"@));
    let version = seq![program, encode_utf8("--version"@)] + rest;
    assert(version[1] == encode_utf8("--version"@));
}

/// What the flags of `open` are is unknown before it, and so is any word that
/// is no subcommand; the position is told.
pub proof fn lemma_out_of_place(program: Seq<u8>, word: Seq<u8>, rest: Seq<Seq<u8>>)
    requires
        word.len() > 0,
        word[0] != 45,
        subcommand_of(word) is None,
    ensures
        command_line(seq![program, encode_utf8("--url"@)] + rest) == Err::<CliView, CliError>(
            CliError::UnknownFlag { at: 1 },
        ),
        command_line(seq![program, word] + rest) == Err::<CliView, CliError>(
            CliError::UnexpectedArgument { at: 1 },
        ),
{
    lemma_open_flags();
    lemma_word(word, None);
    let flagged = seq![program, encode_utf8("--url"@)] + rest;
    assert(flagged[1] == encode_utf8("--url"@));
    let worded = seq![program, word] + rest;
    assert(worded[1] == word);
}

} // verus!
