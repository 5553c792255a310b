//! What the command line asks for.

use crate::text::{
    bytes_as_characters, bytes_start_with, copy_bytes, copy_range, from_utf8, from_utf8_lossy,
    join_texts, parse_u64, same_bytes, same_text,
};
#[allow(unused_imports)]
use crate::text::{
    byte_characters, bytes_of, contents, decoded, joined, text_of, unsigned_value, views,
};
use vstd::prelude::*;
use vstd::string::*;
#[allow(unused_imports)]
use vstd::utf8::*;

pub mod laws;

verus! {

/// Every release of the UI stays deployed under its own version directory, so
/// a CLI always opens the UI it was released with.
pub const DEFAULT_UI_URL: &'static str = "https://buildprof.lalitm.com/v0.2.7";

pub const DEV_UI_URL: &'static str = "http://localhost:10000";

pub const EXAMPLES_URL: &'static str = "https://buildprof.lalitm.com/examples";

pub const DEFAULT_OUTPUT: &'static str = "output.buildprof";

/// Seconds to wait for a browser unless the command line says otherwise.
pub const DEFAULT_WAIT: u64 = 600;

/// The command line as it was read.
#[derive(Debug)]
pub struct Cli {
    /// Output trace path.
    pub output: Vec<u8>,
    /// Collect supported compiler-internal traces.
    pub compiler_traces: bool,
    /// Do not open the completed trace in a browser.
    pub no_open: bool,
    /// Do not record which files are opened and moved.
    pub no_file_events: bool,
    /// Seconds to wait for a browser to fetch the trace; 0 waits forever.
    pub wait: u64,
    /// Command to record when the `record` subcommand is omitted.
    pub command: Vec<Vec<u8>>,
    pub action: Option<Action>,
}

#[derive(Debug)]
pub enum Action {
    /// Record a command and all of the processes it starts.
    Record { command: Vec<Vec<u8>> },
    /// Serve a trace locally and open it in the Buildprof UI.
    Open {
        trace: Option<Vec<u8>>,
        example: Option<String>,
        dev_server: bool,
        url: Option<String>,
    },
    /// List the hosted example recordings.
    Examples,
}

#[verifier::ext_equal]
pub struct CliView {
    pub output: Seq<u8>,
    pub compiler_traces: bool,
    pub no_open: bool,
    pub no_file_events: bool,
    pub wait: u64,
    pub command: Seq<Seq<u8>>,
    pub action: Option<ActionView>,
}

#[verifier::ext_equal]
pub enum ActionView {
    Record { command: Seq<Seq<u8>> },
    Open {
        trace: Option<Seq<u8>>,
        example: Option<Seq<char>>,
        dev_server: bool,
        url: Option<Seq<char>>,
    },
    Examples,
}

impl View for Action {
    type V = ActionView;

    open spec fn view(&self) -> ActionView {
        match self {
            Action::Record { command } => ActionView::Record { command: contents(command@) },
            Action::Open { trace, example, dev_server, url } => ActionView::Open {
                trace: bytes_of(*trace),
                example: text_of(*example),
                dev_server: *dev_server,
                url: text_of(*url),
            },
            Action::Examples => ActionView::Examples,
        }
    }
}

impl View for Cli {
    type V = CliView;

    open spec fn view(&self) -> CliView {
        CliView {
            output: self.output@,
            compiler_traces: self.compiler_traces,
            no_open: self.no_open,
            no_file_events: self.no_file_events,
            wait: self.wait,
            command: contents(self.command@),
            action: match self.action {
                Some(action) => Some(action@),
                None => None,
            },
        }
    }
}

/// Why a command line is not carried out.
#[derive(Clone, Copy, Debug, PartialEq, Eq, Structural)]
pub enum CliError {
    /// The usage was asked for, or nothing was.
    Help,
    Version,
    /// The argument at this position is a flag that does not exist here.
    UnknownFlag { at: usize },
    /// The flag at this position lacks its value.
    MissingValue { at: usize },
    /// The flag at this position takes no value, or not the one it was given.
    InvalidValue { at: usize },
    /// The argument at this position has no meaning here.
    UnexpectedArgument { at: usize },
    MissingCommand,
    /// Neither a trace nor an example was named.
    MissingTrace,
    /// Both a trace and an example were named, or too many traces, or both a
    /// URL and the development server.
    Conflict,
}

/// Which subcommand was named.
#[derive(Clone, Copy, Debug, PartialEq, Eq, Structural)]
pub enum Subcommand {
    Record,
    Open,
    Examples,
}

/// A flag that stands on its own.
#[derive(Clone, Copy, Debug, PartialEq, Eq, Structural)]
pub enum Switch {
    CompilerTraces,
    NoOpen,
    NoFileEvents,
    DevServer,
    Help,
    Version,
}

/// A flag that takes a value.
#[derive(Clone, Copy, Debug, PartialEq, Eq, Structural)]
pub enum Setting {
    Output,
    Wait,
    Example,
    Url,
}

/// What an argument before `--` is.
#[verifier::ext_equal]
pub enum Token {
    /// `--` itself.
    Dashes,
    Switch { switch: Switch },
    /// A flag with the value attached to it, if one is.
    Setting { setting: Setting, value: Option<Seq<u8>> },
    /// A switch with a value attached to it.
    SwitchWithValue,
    Unknown,
    Word,
}

/// The switch that a long flag is, for the subcommand named so far.
pub open spec fn switch_of(name: Seq<u8>, subcommand: Option<Subcommand>) -> Option<Switch> {
    if name == encode_utf8("--compiler-traces"@) {
        Some(Switch::CompilerTraces)
    } else if name == encode_utf8("--no-open"@) {
        Some(Switch::NoOpen)
    } else if name == encode_utf8("--no-file-events"@) {
        Some(Switch::NoFileEvents)
    } else if name == encode_utf8("--dev-server"@) && subcommand == Some(Subcommand::Open) {
        Some(Switch::DevServer)
    } else if name == encode_utf8("--help"@) || name == encode_utf8("-h"@) {
        Some(Switch::Help)
    } else if name == encode_utf8("--version"@) || name == encode_utf8("-V"@) {
        Some(Switch::Version)
    } else {
        None
    }
}

/// The setting that a long flag is, for the subcommand named so far.
pub open spec fn setting_of(name: Seq<u8>, subcommand: Option<Subcommand>) -> Option<Setting> {
    if name == encode_utf8("--output"@) {
        Some(Setting::Output)
    } else if name == encode_utf8("--wait"@) {
        Some(Setting::Wait)
    } else if name == encode_utf8("--example"@) && subcommand == Some(Subcommand::Open) {
        Some(Setting::Example)
    } else if name == encode_utf8("--url"@) && subcommand == Some(Subcommand::Open) {
        Some(Setting::Url)
    } else {
        None
    }
}

/// Where a byte first stands in a run, at `from` or later; past the end if it
/// does not.
pub open spec fn first_position(bytes: Seq<u8>, byte: u8, from: int) -> int
    decreases bytes.len() - from,
{
    if from >= bytes.len() {
        bytes.len() as int
    } else if bytes[from] == byte {
        from
    } else {
        first_position(bytes, byte, from + 1)
    }
}

/// What an argument before `--` is, for the subcommand named so far.
pub open spec fn token_of(argument: Seq<u8>, subcommand: Option<Subcommand>) -> Token {
    let dashes = encode_utf8("--"@);
    let short_output = encode_utf8("-o"@);
    let equals = first_position(argument, 61, 0);
    let name = argument.take(equals);
    if argument == dashes {
        Token::Dashes
    } else if argument.len() < 2 || argument[0] != 45 {
        Token::Word
    } else if short_output.is_prefix_of(argument) {
        Token::Setting {
            setting: Setting::Output,
            value: if argument.len() > 2 {
                Some(argument.skip(2))
            } else {
                None
            },
        }
    } else if switch_of(name, subcommand) is Some {
        if equals < argument.len() {
            Token::SwitchWithValue
        } else {
            Token::Switch { switch: switch_of(name, subcommand)->0 }
        }
    } else if setting_of(name, subcommand) is Some {
        Token::Setting {
            setting: setting_of(name, subcommand)->0,
            value: if equals < argument.len() {
                Some(argument.skip(equals + 1))
            } else {
                None
            },
        }
    } else {
        Token::Unknown
    }
}

pub open spec fn subcommand_of(word: Seq<u8>) -> Option<Subcommand> {
    if word == encode_utf8("record"@) {
        Some(Subcommand::Record)
    } else if word == encode_utf8("open"@) {
        Some(Subcommand::Open)
    } else if word == encode_utf8("examples"@) {
        Some(Subcommand::Examples)
    } else {
        None
    }
}

/// What was read of a command line so far.
#[verifier::ext_equal]
pub struct ScanView {
    pub output: Option<Seq<u8>>,
    pub compiler_traces: bool,
    pub no_open: bool,
    pub no_file_events: bool,
    pub wait: Option<u64>,
    pub subcommand: Option<Subcommand>,
    pub words: Seq<Seq<u8>>,
    pub example: Option<Seq<char>>,
    pub dev_server: bool,
    pub url: Option<Seq<char>>,
}

impl ScanView {
    pub open spec fn nothing() -> ScanView {
        ScanView {
            output: None,
            compiler_traces: false,
            no_open: false,
            no_file_events: false,
            wait: None,
            subcommand: None,
            words: Seq::empty(),
            example: None,
            dev_server: false,
            url: None,
        }
    }

    /// After a switch, or why it ends the reading.
    pub open spec fn switched(self, switch: Switch) -> Result<ScanView, CliError> {
        match switch {
            Switch::CompilerTraces => Ok(ScanView { compiler_traces: true, ..self }),
            Switch::NoOpen => Ok(ScanView { no_open: true, ..self }),
            Switch::NoFileEvents => Ok(ScanView { no_file_events: true, ..self }),
            Switch::DevServer => Ok(ScanView { dev_server: true, ..self }),
            Switch::Help => Err(CliError::Help),
            Switch::Version => Err(CliError::Version),
        }
    }

    /// After a setting, if its value makes sense; a later one wins.
    pub open spec fn set(self, setting: Setting, value: Seq<u8>) -> Option<ScanView> {
        match setting {
            Setting::Output => Some(ScanView { output: Some(value), ..self }),
            Setting::Wait => match unsigned_value(byte_characters(value)) {
                Some(seconds) => if seconds <= u64::MAX {
                    Some(ScanView { wait: Some(seconds as u64), ..self })
                } else {
                    None
                },
                None => None,
            },
            Setting::Example => if valid_utf8(value) {
                Some(ScanView { example: Some(decode_utf8(value)), ..self })
            } else {
                None
            },
            Setting::Url => if valid_utf8(value) {
                Some(ScanView { url: Some(decode_utf8(value)), ..self })
            } else {
                None
            },
        }
    }

    /// After a word: the first one names a subcommand.
    pub open spec fn worded(self, word: Seq<u8>) -> Option<ScanView> {
        match self.subcommand {
            Some(_) => Some(ScanView { words: self.words.push(word), ..self }),
            None => match subcommand_of(word) {
                Some(subcommand) => Some(ScanView { subcommand: Some(subcommand), ..self }),
                None => None,
            },
        }
    }
}

/// Reads the arguments from `at` on.
pub open spec fn scan(args: Seq<Seq<u8>>, at: int, state: ScanView) -> Result<ScanView, CliError>
    decreases args.len() - at,
{
    if at >= args.len() {
        Ok(state)
    } else {
        match token_of(args[at], state.subcommand) {
            // Everything after `--` is passed through unchanged.
            Token::Dashes => Ok(ScanView { words: state.words + args.skip(at + 1), ..state }),
            Token::Switch { switch } => match state.switched(switch) {
                Ok(state) => scan(args, at + 1, state),
                Err(error) => Err(error),
            },
            Token::Setting { setting, value } => match value {
                Some(value) => match state.set(setting, value) {
                    Some(state) => scan(args, at + 1, state),
                    None => Err(CliError::InvalidValue { at: at as usize }),
                },
                None => if at + 1 < args.len() {
                    match state.set(setting, args[at + 1]) {
                        Some(state) => scan(args, at + 2, state),
                        None => Err(CliError::InvalidValue { at: at as usize }),
                    }
                } else {
                    Err(CliError::MissingValue { at: at as usize })
                },
            },
            Token::SwitchWithValue => Err(CliError::InvalidValue { at: at as usize }),
            Token::Unknown => Err(CliError::UnknownFlag { at: at as usize }),
            Token::Word => match state.worded(args[at]) {
                Some(state) => scan(args, at + 1, state),
                None => Err(CliError::UnexpectedArgument { at: at as usize }),
            },
        }
    }
}

/// What a command line that was read to its end asks for.
pub open spec fn concluded(state: ScanView, length: int) -> Result<CliView, CliError> {
    let cli = CliView {
        output: match state.output {
            Some(output) => output,
            None => encode_utf8(DEFAULT_OUTPUT@),
        },
        compiler_traces: state.compiler_traces,
        no_open: state.no_open,
        no_file_events: state.no_file_events,
        wait: match state.wait {
            Some(wait) => wait,
            None => DEFAULT_WAIT,
        },
        command: Seq::empty(),
        action: None,
    };
    match state.subcommand {
        None => if state.words.len() == 0 {
            Err(CliError::MissingCommand)
        } else {
            Ok(CliView { command: state.words, ..cli })
        },
        Some(Subcommand::Record) => if state.words.len() == 0 {
            Err(CliError::MissingCommand)
        } else {
            Ok(
                CliView {
                    action: Some(ActionView::Record { command: state.words }),
                    ..cli
                },
            )
        },
        Some(Subcommand::Examples) => if state.words.len() > 0 {
            Err(CliError::UnexpectedArgument { at: (length - 1) as usize })
        } else {
            Ok(CliView { action: Some(ActionView::Examples), ..cli })
        },
        Some(Subcommand::Open) => if state.words.len() > 1 || (state.words.len() == 1
            && state.example is Some) || (state.dev_server && state.url is Some) {
            Err(CliError::Conflict)
        } else if state.words.len() == 0 && state.example is None {
            Err(CliError::MissingTrace)
        } else {
            Ok(
                CliView {
                    action: Some(
                        ActionView::Open {
                            trace: if state.words.len() == 1 {
                                Some(state.words[0])
                            } else {
                                None
                            },
                            example: state.example,
                            dev_server: state.dev_server,
                            url: state.url,
                        },
                    ),
                    ..cli
                },
            )
        },
    }
}

/// What a command line asks for; its first argument is the program itself.
pub open spec fn command_line(argv: Seq<Seq<u8>>) -> Result<CliView, CliError> {
    if argv.len() <= 1 {
        Err(CliError::Help)
    } else {
        match scan(argv, 1, ScanView::nothing()) {
            Ok(state) => concluded(state, argv.len() as int),
            Err(error) => Err(error),
        }
    }
}

/// What was read of a command line so far.
struct Scan {
    output: Option<Vec<u8>>,
    compiler_traces: bool,
    no_open: bool,
    no_file_events: bool,
    wait: Option<u64>,
    subcommand: Option<Subcommand>,
    words: Vec<Vec<u8>>,
    example: Option<String>,
    dev_server: bool,
    url: Option<String>,
}

impl View for Scan {
    type V = ScanView;

    closed spec fn view(&self) -> ScanView {
        ScanView {
            output: bytes_of(self.output),
            compiler_traces: self.compiler_traces,
            no_open: self.no_open,
            no_file_events: self.no_file_events,
            wait: self.wait,
            subcommand: self.subcommand,
            words: contents(self.words@),
            example: text_of(self.example),
            dev_server: self.dev_server,
            url: text_of(self.url),
        }
    }
}

fn find_switch(name: &[u8], subcommand: Option<Subcommand>) -> (switch: Option<Switch>)
    ensures
        switch == switch_of(name@, subcommand),
{
    let opening = match subcommand {
        Some(Subcommand::Open) => true,
        _ => false,
    };
    if same_bytes(name, "--compiler-traces".as_bytes()) {
        Some(Switch::CompilerTraces)
    } else if same_bytes(name, "--no-open".as_bytes()) {
        Some(Switch::NoOpen)
    } else if same_bytes(name, "--no-file-events".as_bytes()) {
        Some(Switch::NoFileEvents)
    } else if opening && same_bytes(name, "--dev-server".as_bytes()) {
        Some(Switch::DevServer)
    } else if same_bytes(name, "--help".as_bytes()) || same_bytes(name, "-h".as_bytes()) {
        Some(Switch::Help)
    } else if same_bytes(name, "--version".as_bytes()) || same_bytes(name, "-V".as_bytes()) {
        Some(Switch::Version)
    } else {
        None
    }
}

fn find_setting(name: &[u8], subcommand: Option<Subcommand>) -> (setting: Option<Setting>)
    ensures
        setting == setting_of(name@, subcommand),
{
    let opening = match subcommand {
        Some(Subcommand::Open) => true,
        _ => false,
    };
    if same_bytes(name, "--output".as_bytes()) {
        Some(Setting::Output)
    } else if same_bytes(name, "--wait".as_bytes()) {
        Some(Setting::Wait)
    } else if opening && same_bytes(name, "--example".as_bytes()) {
        Some(Setting::Example)
    } else if opening && same_bytes(name, "--url".as_bytes()) {
        Some(Setting::Url)
    } else {
        None
    }
}

/// What an argument before `--` is.
enum Word {
    Dashes,
    Switch(Switch),
    Setting(Setting, Option<Vec<u8>>),
    SwitchWithValue,
    Unknown,
    Word,
}

impl Word {
    spec fn token(self) -> Token {
        match self {
            Word::Dashes => Token::Dashes,
            Word::Switch(switch) => Token::Switch { switch },
            Word::Setting(setting, value) => Token::Setting { setting, value: bytes_of(value) },
            Word::SwitchWithValue => Token::SwitchWithValue,
            Word::Unknown => Token::Unknown,
            Word::Word => Token::Word,
        }
    }
}

fn classify(argument: &[u8], subcommand: Option<Subcommand>) -> (word: Word)
    ensures
        word.token() == token_of(argument@, subcommand),
{
    if same_bytes(argument, "--".as_bytes()) {
        return Word::Dashes;
    }
    if argument.len() < 2 || argument[0] != 45 {
        return Word::Word;
    }
    if bytes_start_with(argument, "-o".as_bytes()) {
        if argument.len() > 2 {
            let value = copy_range(argument, 2, argument.len());
            assert(value@ =~= argument@.skip(2));
            return Word::Setting(Setting::Output, Some(value));
        }
        return Word::Setting(Setting::Output, None);
    }
    let length: usize = argument.len();
    let mut equals: usize = 0;
    while equals < length && argument[equals] != 61
        invariant
            equals <= length,
            length == argument@.len(),
            first_position(argument@, 61, 0) == first_position(argument@, 61, equals as int),
        decreases length - equals,
    {
        equals = equals + 1;
    }
    let name = copy_range(argument, 0, equals);
    assert(name@ =~= argument@.take(equals as int));
    if let Some(switch) = find_switch(name.as_slice(), subcommand) {
        if equals < length {
            return Word::SwitchWithValue;
        }
        return Word::Switch(switch);
    }
    if let Some(setting) = find_setting(name.as_slice(), subcommand) {
        if equals < length {
            let value = copy_range(argument, equals + 1, length);
            assert(value@ =~= argument@.skip(equals + 1));
            return Word::Setting(setting, Some(value));
        }
        return Word::Setting(setting, None);
    }
    Word::Unknown
}

fn named_subcommand(word: &[u8]) -> (subcommand: Option<Subcommand>)
    ensures
        subcommand == subcommand_of(word@),
{
    if same_bytes(word, "record".as_bytes()) {
        Some(Subcommand::Record)
    } else if same_bytes(word, "open".as_bytes()) {
        Some(Subcommand::Open)
    } else if same_bytes(word, "examples".as_bytes()) {
        Some(Subcommand::Examples)
    } else {
        None
    }
}

impl Scan {
    fn switch(&mut self, switch: Switch) -> (error: Option<CliError>)
        ensures
            match error {
                Some(error) => old(self)@.switched(switch) == Err::<ScanView, CliError>(error),
                None => old(self)@.switched(switch) == Ok::<ScanView, CliError>(final(self)@),
            },
    {
        match switch {
            Switch::CompilerTraces => {
                self.compiler_traces = true;
            },
            Switch::NoOpen => {
                self.no_open = true;
            },
            Switch::NoFileEvents => {
                self.no_file_events = true;
            },
            Switch::DevServer => {
                self.dev_server = true;
            },
            Switch::Help => {
                return Some(CliError::Help);
            },
            Switch::Version => {
                return Some(CliError::Version);
            },
        }
        None
    }

    fn set(&mut self, setting: Setting, value: Vec<u8>) -> (sensible: bool)
        ensures
            match old(self)@.set(setting, value@) {
                Some(after) => sensible && final(self)@ == after,
                None => !sensible,
            },
    {
        match setting {
            Setting::Output => {
                self.output = Some(value);
                true
            },
            Setting::Wait => match parse_u64(bytes_as_characters(value.as_slice()).as_slice()) {
                Some(seconds) => {
                    self.wait = Some(seconds);
                    true
                },
                None => false,
            },
            Setting::Example => match from_utf8(value) {
                Some(example) => {
                    self.example = Some(example);
                    true
                },
                None => false,
            },
            Setting::Url => match from_utf8(value) {
                Some(url) => {
                    self.url = Some(url);
                    true
                },
                None => false,
            },
        }
    }

    fn word(&mut self, word: &[u8]) -> (expected: bool)
        ensures
            match old(self)@.worded(word@) {
                Some(after) => expected && final(self)@ == after,
                None => !expected,
            },
    {
        match self.subcommand {
            Some(_) => {
                let copy = copy_bytes(word);
                self.words.push(copy);
                assert(self@.words =~= old(self)@.words.push(word@));
                true
            },
            None => match named_subcommand(word) {
                Some(subcommand) => {
                    self.subcommand = Some(subcommand);
                    true
                },
                None => false,
            },
        }
    }

    fn rest(&mut self, args: &[Vec<u8>], from: usize)
        requires
            from <= args@.len(),
        ensures
            final(self)@ == (ScanView {
                words: old(self)@.words + contents(args@).skip(from as int),
                ..old(self)@
            }),
    {
        let ghost before = self@;
        let ghost all = contents(args@);
        for i in from..args.len()
            invariant
                all == contents(args@),
                self@ == (ScanView {
                    words: before.words + all.subrange(from as int, i as int),
                    ..before
                }),
        {
            let copy = copy_bytes(args[i].as_slice());
            let ghost words = self@.words;
            assert(all[i as int] == copy@);
            self.words.push(copy);
            assert(self@.words =~= words.push(copy@));
            assert(words.push(copy@) =~= before.words + all.subrange(from as int, i + 1));
        }
        assert(all.skip(from as int) =~= all.subrange(from as int, all.len() as int));
    }

    fn conclude(self, length: usize) -> (cli: Result<Cli, CliError>)
        requires
            length > 0,
        ensures
            cli_view(cli) == concluded(self@, length as int),
    {
        let output = match self.output {
            Some(output) => output,
            None => copy_bytes(DEFAULT_OUTPUT.as_bytes()),
        };
        let wait: u64 = match self.wait {
            Some(wait) => wait,
            None => DEFAULT_WAIT,
        };
        let mut cli = Cli {
            output,
            compiler_traces: self.compiler_traces,
            no_open: self.no_open,
            no_file_events: self.no_file_events,
            wait,
            command: Vec::new(),
            action: None,
        };
        assert(contents(cli.command@) =~= Seq::<Seq<u8>>::empty());
        let mut words = self.words;
        match self.subcommand {
            None => {
                if words.len() == 0 {
                    return Err(CliError::MissingCommand);
                }
                cli.command = words;
            },
            Some(Subcommand::Record) => {
                if words.len() == 0 {
                    return Err(CliError::MissingCommand);
                }
                cli.action = Some(Action::Record { command: words });
            },
            Some(Subcommand::Examples) => {
                if words.len() > 0 {
                    return Err(CliError::UnexpectedArgument { at: length - 1 });
                }
                cli.action = Some(Action::Examples);
            },
            Some(Subcommand::Open) => {
                if words.len() > 1 || (words.len() == 1 && self.example.is_some()) || (
                self.dev_server && self.url.is_some()) {
                    return Err(CliError::Conflict);
                }
                if words.len() == 0 && self.example.is_none() {
                    return Err(CliError::MissingTrace);
                }
                let trace = words.pop();
                cli.action = Some(
                    Action::Open {
                        trace,
                        example: self.example,
                        dev_server: self.dev_server,
                        url: self.url,
                    },
                );
            },
        }
        Ok(cli)
    }
}

/// What reading a command line came to.
pub open spec fn cli_view(cli: Result<Cli, CliError>) -> Result<CliView, CliError> {
    match cli {
        Ok(cli) => Ok(cli@),
        Err(error) => Err(error),
    }
}

impl Cli {
    /// Reads a command line; its first argument is the program itself.
    pub fn parse_from_argv(argv: &[Vec<u8>]) -> (cli: Result<Self, CliError>)
        ensures
            cli_view(cli) == command_line(contents(argv@)),
            cli matches Err(error) ==> (error.position() matches Some(at) ==> at < argv@.len()),
    {
        let length: usize = argv.len();
        proof {
            lemma_error_positions(contents(argv@));
        }
        if argv.len() <= 1 {
            return Err(CliError::Help);
        }
        let ghost all = contents(argv@);
        let mut state = Scan {
            output: None,
            compiler_traces: false,
            no_open: false,
            no_file_events: false,
            wait: None,
            subcommand: None,
            words: Vec::new(),
            example: None,
            dev_server: false,
            url: None,
        };
        assert(state@ =~= ScanView::nothing());
        let mut at: usize = 1;
        while at < argv.len()
            invariant_except_break
                scan(all, 1, ScanView::nothing()) == scan(all, at as int, state@),
            invariant
                all == contents(argv@),
                argv@.len() > 1,
                at <= argv@.len(),
            ensures
                scan(all, 1, ScanView::nothing()) == Ok::<ScanView, CliError>(state@),
            decreases argv@.len() - at,
        {
            let argument = argv[at].as_slice();
            assert(all[at as int] == argument@);
            match classify(argument, state.subcommand) {
                Word::Dashes => {
                    state.rest(argv, at + 1);
                    break;
                },
                Word::Switch(switch) => {
                    if let Some(error) = state.switch(switch) {
                        return Err(error);
                    }
                    at = at + 1;
                },
                Word::Setting(setting, value) => match value {
                    Some(value) => {
                        if !state.set(setting, value) {
                            return Err(CliError::InvalidValue { at });
                        }
                        at = at + 1;
                    },
                    None => {
                        if at + 1 >= argv.len() {
                            return Err(CliError::MissingValue { at });
                        }
                        assert(all[at + 1] == argv@[at + 1]@);
                        if !state.set(setting, copy_bytes(argv[at + 1].as_slice())) {
                            return Err(CliError::InvalidValue { at });
                        }
                        at = at + 2;
                    },
                },
                Word::SwitchWithValue => {
                    return Err(CliError::InvalidValue { at });
                },
                Word::Unknown => {
                    return Err(CliError::UnknownFlag { at });
                },
                Word::Word => {
                    if !state.word(argument) {
                        return Err(CliError::UnexpectedArgument { at });
                    }
                    at = at + 1;
                },
            }
        }
        state.conclude(length)
    }
}

impl CliError {
    /// What to tell whoever gave the command line.
    pub open spec fn text(self, argv: Seq<Seq<u8>>) -> Seq<char> {
        match self {
            CliError::Help => "the usage was asked for"@,
            CliError::Version => "the version was asked for"@,
            CliError::UnknownFlag { at } => "unknown flag `"@ + decoded(argv[at as int]) + "`"@,
            CliError::MissingValue { at } => "`"@ + decoded(argv[at as int])
                + "` needs a value"@,
            CliError::InvalidValue { at } => "invalid value for `"@ + decoded(argv[at as int])
                + "`"@,
            CliError::UnexpectedArgument { at } => "unexpected argument `"@ + decoded(
                argv[at as int],
            ) + "`"@,
            CliError::MissingCommand => "a command to record is needed after `--`"@,
            CliError::MissingTrace => "open needs a trace path or --example <NAME>"@,
            CliError::Conflict => "open was given arguments that exclude each other"@,
        }
    }

    /// The argument that the error is about, if it is about one.
    pub open spec fn position(self) -> Option<usize> {
        match self {
            CliError::UnknownFlag { at } => Some(at),
            CliError::MissingValue { at } => Some(at),
            CliError::InvalidValue { at } => Some(at),
            CliError::UnexpectedArgument { at } => Some(at),
            _ => None,
        }
    }

    pub fn message(&self, argv: &[Vec<u8>]) -> (message: String)
        requires
            self.position() matches Some(at) ==> at < argv@.len(),
        ensures
            message@ == self.text(contents(argv@)),
    {
        match *self {
            CliError::Help => "the usage was asked for".to_owned(),
            CliError::Version => "the version was asked for".to_owned(),
            CliError::UnknownFlag { at } => about("unknown flag `", argv[at].as_slice(), "`"),
            CliError::MissingValue { at } => about("`", argv[at].as_slice(), "` needs a value"),
            CliError::InvalidValue { at } => about("invalid value for `", argv[at].as_slice(), "`"),
            CliError::UnexpectedArgument { at } => about(
                "unexpected argument `",
                argv[at].as_slice(),
                "`",
            ),
            CliError::MissingCommand => "a command to record is needed after `--`".to_owned(),
            CliError::MissingTrace => "open needs a trace path or --example <NAME>".to_owned(),
            CliError::Conflict => "open was given arguments that exclude each other".to_owned(),
        }
    }
}

fn about(before: &str, argument: &[u8], after: &str) -> (text: String)
    ensures
        text@ == before@ + decoded(argument@) + after@,
{
    let mut text = before.to_owned();
    text.append(from_utf8_lossy(argument).as_str());
    text.append(after);
    text
}

proof fn lemma_scan_positions(args: Seq<Seq<u8>>, at: int, state: ScanView)
    requires
        0 <= at,
        args.len() <= usize::MAX,
    ensures
        scan(args, at, state) matches Err(error) ==> (error.position() matches Some(position)
            ==> position < args.len()),
    decreases args.len() - at,
{
    if at < args.len() {
        match token_of(args[at], state.subcommand) {
            Token::Switch { switch } => {
                if let Ok(next) = state.switched(switch) {
                    lemma_scan_positions(args, at + 1, next);
                }
            },
            Token::Setting { setting, value } => match value {
                Some(value) => {
                    if let Some(next) = state.set(setting, value) {
                        lemma_scan_positions(args, at + 1, next);
                    }
                },
                None => {
                    if at + 1 < args.len() {
                        if let Some(next) = state.set(setting, args[at + 1]) {
                            lemma_scan_positions(args, at + 2, next);
                        }
                    }
                },
            },
            Token::Word => {
                if let Some(next) = state.worded(args[at]) {
                    lemma_scan_positions(args, at + 1, next);
                }
            },
            _ => {},
        }
    }
}

/// An error about an argument names one that the command line has.
pub proof fn lemma_error_positions(argv: Seq<Seq<u8>>)
    requires
        argv.len() <= usize::MAX,
    ensures
        command_line(argv) matches Err(error) ==> (error.position() matches Some(position)
            ==> position < argv.len()),
{
    lemma_scan_positions(argv, 1, ScanView::nothing());
}

/// Arguments after `--` are passed through unchanged, whatever they look
/// like, with or without the `record` subcommand.
pub proof fn lemma_command_passed_through(program: Seq<u8>, command: Seq<Seq<u8>>)
    requires
        command.len() > 0,
    ensures
        command_line(seq![program, encode_utf8("--"@)] + command) matches Ok(cli) && cli.command
            == command && cli.action is None,
        command_line(seq![program, encode_utf8("record"@), encode_utf8("--"@)] + command)
            matches Ok(cli) && cli.action == Some(ActionView::Record { command }),
{
    broadcast use vstd::utf8::group_utf8_lib;

    reveal_strlit("--");
    reveal_strlit("record");
    let bare = seq![program, encode_utf8("--"@)] + command;
    assert(bare.skip(2) =~= command);
    assert(Seq::<Seq<u8>>::empty() + command =~= command);
    let named = seq![program, encode_utf8("record"@), encode_utf8("--"@)] + command;
    assert(named.skip(3) =~= command);
    assert(is_ascii_chars("record"@));
    assert(encode_utf8("record"@).len() == 6);
    assert(encode_utf8("record"@)[0] == 114);
    assert(is_ascii_chars("--"@));
    assert(encode_utf8("--"@).len() == 2);
    let dashes = encode_utf8("--"@);
    assert(token_of(dashes, None) == Token::Dashes);
    assert(token_of(dashes, Some(Subcommand::Record)) == Token::Dashes);
    assert(token_of(encode_utf8("record"@), None) == Token::Word);
    reveal_with_fuel(scan, 3);
}

/// How a finished trace reaches a browser.
#[derive(Clone, Copy, Debug, PartialEq, Eq, Structural)]
pub enum Handoff {
    /// Launch a browser on this machine.
    Browser,
    /// Print port-forwarding instructions and wait for a browser elsewhere.
    Ssh,
}

/// A recording hosted next to the UI.
#[derive(Clone, Copy, Debug)]
pub struct Example {
    pub name: &'static str,
    pub file: &'static str,
    pub description: &'static str,
}

/// What `open` should show.
#[derive(Debug)]
pub enum Source {
    Trace(Vec<u8>),
    Example(Example),
}

/// What to do; waits are in seconds, and without one the wait is forever.
#[allow(inconsistent_fields)]
#[derive(Debug)]
pub enum Args {
    Record {
        output: Vec<u8>,
        command: Vec<Vec<u8>>,
        compiler_traces: bool,
        file_events: bool,
        /// `None` leaves the trace on disk and prints where to open it.
        handoff: Option<Handoff>,
        wait: Option<u64>,
    },
    Open { source: Source, url: String, handoff: Handoff, wait: Option<u64> },
    Examples,
}

/// What the decisions below need to know of the terminal and the environment.
#[derive(Clone, Copy, Debug)]
pub struct Surroundings {
    pub stdin_is_terminal: bool,
    pub stdout_is_terminal: bool,
    /// Whether `SSH_CONNECTION` is set, and so on.
    pub ssh_connection: bool,
    pub ssh_tty: bool,
    pub ssh_client: bool,
    pub display: bool,
    pub wayland_display: bool,
    /// Whether a browser needs one of the displays.
    pub linux: bool,
}

/// Whether this terminal is at the far end of an SSH connection, in which
/// case a browser launched here would be invisible.
pub fn in_ssh_session(surroundings: &Surroundings) -> (found: bool)
    ensures
        found == ssh_session(*surroundings),
{
    surroundings.ssh_connection || surroundings.ssh_tty || surroundings.ssh_client
}

pub open spec fn ssh_session(surroundings: Surroundings) -> bool {
    surroundings.ssh_connection || surroundings.ssh_tty || surroundings.ssh_client
}

/// How a trace is handed over unless the command line says not to: only with
/// someone at the terminal, and a browser only where it can be seen.
pub open spec fn handoff_for(surroundings: Surroundings) -> Option<Handoff> {
    if !surroundings.stdin_is_terminal || !surroundings.stdout_is_terminal {
        None
    } else if ssh_session(surroundings) {
        Some(Handoff::Ssh)
    } else if surroundings.linux && !surroundings.display && !surroundings.wayland_display {
        None
    } else {
        Some(Handoff::Browser)
    }
}

pub fn default_handoff(surroundings: &Surroundings) -> (handoff: Option<Handoff>)
    ensures
        handoff == handoff_for(*surroundings),
{
    if !surroundings.stdin_is_terminal || !surroundings.stdout_is_terminal {
        return None;
    }
    if in_ssh_session(surroundings) {
        return Some(Handoff::Ssh);
    }
    if surroundings.linux {
        let has_display = surroundings.display || surroundings.wayland_display;
        if has_display {
            Some(Handoff::Browser)
        } else {
            None
        }
    } else {
        Some(Handoff::Browser)
    }
}

/// The hosted recordings.
pub open spec fn hosted_examples() -> Seq<Example> {
    seq![
        Example {
            name: "ripgrep",
            file: "ripgrep-release-clean.buildprof",
            description: "A clean `cargo build --release` of ripgrep",
        },
    ]
}

pub fn examples() -> (all: Vec<Example>)
    ensures
        all@ == hosted_examples(),
{
    let mut all: Vec<Example> = Vec::new();
    all.push(
        Example {
            name: "ripgrep",
            file: "ripgrep-release-clean.buildprof",
            description: "A clean `cargo build --release` of ripgrep",
        },
    );
    all
}

/// The first of some examples with a name.
pub open spec fn named(examples: Seq<Example>, name: Seq<char>) -> Option<Example>
    decreases examples.len(),
{
    if examples.len() == 0 {
        None
    } else if examples[0].name@ == name {
        Some(examples[0])
    } else {
        named(examples.skip(1), name)
    }
}

/// The names of some examples.
pub open spec fn example_names(examples: Seq<Example>) -> Seq<Seq<char>> {
    examples.map_values(|example: Example| example.name@)
}

/// What is said of an example that is not hosted.
pub open spec fn unknown_example(name: Seq<char>) -> Seq<char> {
    "unknown example `"@ + name + "`; available: "@ + joined(
        example_names(hosted_examples()),
        ", "@,
    )
}

pub fn find_example(name: &str) -> (found: Result<Example, String>)
    ensures
        match found {
            Ok(example) => named(hosted_examples(), name@) == Some(example),
            Err(message) => named(hosted_examples(), name@) is None && message@
                == unknown_example(name@),
        },
{
    let all = examples();
    let mut names: Vec<String> = Vec::new();
    assert(all@.skip(0) =~= all@);
    for i in 0..all.len()
        invariant
            all@ == hosted_examples(),
            named(all@, name@) == named(all@.skip(i as int), name@),
            views(names@) == example_names(all@.take(i as int)),
    {
        if same_text(all[i].name, name) {
            return Ok(all[i]);
        }
        let ghost before = names@;
        names.push(all[i].name.to_owned());
        assert(views(names@) =~= views(before).push(all@[i as int].name@));
        assert(example_names(all@.take(i + 1)) =~= example_names(all@.take(i as int)).push(
            all@[i as int].name@,
        ));
        assert(all@.skip(i as int).skip(1) =~= all@.skip(i + 1));
    }
    assert(all@.take(all@.len() as int) =~= all@);
    let mut message = "unknown example `".to_owned();
    message.append(name);
    message.append("`; available: ");
    message.append(join_texts(names.as_slice(), ", ").as_str());
    Err(message)
}

#[verifier::ext_equal]
pub enum SourceView {
    Trace { path: Seq<u8> },
    Example { example: Example },
}

#[allow(inconsistent_fields)]
#[verifier::ext_equal]
pub enum ArgsView {
    Record {
        output: Seq<u8>,
        command: Seq<Seq<u8>>,
        compiler_traces: bool,
        file_events: bool,
        handoff: Option<Handoff>,
        wait: Option<u64>,
    },
    Open { source: SourceView, url: Seq<char>, handoff: Handoff, wait: Option<u64> },
    Examples,
}

impl View for Args {
    type V = ArgsView;

    open spec fn view(&self) -> ArgsView {
        match self {
            Args::Record { output, command, compiler_traces, file_events, handoff, wait } => {
                ArgsView::Record {
                    output: output@,
                    command: contents(command@),
                    compiler_traces: *compiler_traces,
                    file_events: *file_events,
                    handoff: *handoff,
                    wait: *wait,
                }
            },
            Args::Open { source, url, handoff, wait } => ArgsView::Open {
                source: match source {
                    Source::Trace(path) => SourceView::Trace { path: path@ },
                    Source::Example(example) => SourceView::Example { example: *example },
                },
                url: url@,
                handoff: *handoff,
                wait: *wait,
            },
            Args::Examples => ArgsView::Examples,
        }
    }
}

/// How long a wait of so many seconds is: none at all means forever.
pub open spec fn waited(seconds: u64) -> Option<u64> {
    if seconds > 0 {
        Some(seconds)
    } else {
        None
    }
}

/// What a command line comes to, where it runs.
pub open spec fn decided(cli: CliView, surroundings: Surroundings) -> Result<ArgsView, Seq<char>> {
    let record = |command: Seq<Seq<u8>>|
        ArgsView::Record {
            output: cli.output,
            command,
            compiler_traces: cli.compiler_traces,
            file_events: !cli.no_file_events,
            handoff: if cli.no_open {
                None
            } else {
                handoff_for(surroundings)
            },
            wait: waited(cli.wait),
        };
    match cli.action {
        None => Ok(record(cli.command)),
        Some(ActionView::Record { command }) => Ok(record(command)),
        Some(ActionView::Examples) => Ok(ArgsView::Examples),
        Some(ActionView::Open { trace, example, dev_server, url }) => {
            let opened = |source: SourceView|
                ArgsView::Open {
                    source,
                    url: match url {
                        Some(url) => url,
                        None => if dev_server {
                            DEV_UI_URL@
                        } else {
                            DEFAULT_UI_URL@
                        },
                    },
                    handoff: if ssh_session(surroundings) {
                        Handoff::Ssh
                    } else {
                        Handoff::Browser
                    },
                    wait: waited(cli.wait),
                };
            match (trace, example) {
                (Some(path), None) => Ok(opened(SourceView::Trace { path })),
                (None, Some(name)) => match named(hosted_examples(), name) {
                    Some(example) => Ok(opened(SourceView::Example { example })),
                    None => Err(unknown_example(name)),
                },
                _ => Err("open needs a trace path or --example <NAME>"@),
            }
        },
    }
}

/// Settles what to do about a command line.
pub fn from_cli(cli: Cli, surroundings: &Surroundings) -> (args: Result<Args, String>)
    ensures
        match args {
            Ok(args) => decided(cli@, *surroundings) == Ok::<ArgsView, Seq<char>>(args@),
            Err(message) => decided(cli@, *surroundings) == Err::<ArgsView, Seq<char>>(message@),
        },
        args matches Ok(Args::Open { handoff, .. }) ==> handoff == (if surroundings.ssh_connection
            || surroundings.ssh_tty || surroundings.ssh_client {
            Handoff::Ssh
        } else {
            Handoff::Browser
        }),
{
    let wait: Option<u64> = if cli.wait > 0 {
        Some(cli.wait)
    } else {
        None
    };
    let handoff = if cli.no_open {
        None
    } else {
        default_handoff(surroundings)
    };
    let command = match cli.action {
        Some(Action::Open { trace, example, dev_server, url }) => {
            let source = match (trace, example) {
                (Some(trace), None) => Source::Trace(trace),
                (None, Some(name)) => match find_example(name.as_str()) {
                    Ok(example) => Source::Example(example),
                    Err(message) => {
                        return Err(message);
                    },
                },
                _ => {
                    return Err("open needs a trace path or --example <NAME>".to_owned());
                },
            };
            let url = match url {
                Some(url) => url,
                None => if dev_server {
                    DEV_UI_URL.to_owned()
                } else {
                    DEFAULT_UI_URL.to_owned()
                },
            };
            let handoff = if in_ssh_session(surroundings) {
                Handoff::Ssh
            } else {
                Handoff::Browser
            };
            return Ok(Args::Open { source, url, handoff, wait });
        },
        Some(Action::Examples) => {
            return Ok(Args::Examples);
        },
        Some(Action::Record { command }) => command,
        None => cli.command,
    };
    Ok(
        Args::Record {
            output: cli.output,
            command,
            compiler_traces: cli.compiler_traces,
            file_events: !cli.no_file_events,
            handoff,
            wait,
        },
    )
}

/// Reads a command line and settles what to do about it.
pub fn parse(argv: &[Vec<u8>], surroundings: &Surroundings) -> (args: Result<Args, ParseError>)
    ensures
        match args {
            Ok(args) => command_line(contents(argv@)) matches Ok(cli) && decided(
                cli,
                *surroundings,
            ) == Ok::<ArgsView, Seq<char>>(args@),
            Err(ParseError::Cli { error }) => {
                &&& command_line(contents(argv@)) == Err::<CliView, CliError>(error)
                &&& error.position() matches Some(at) ==> at < argv@.len()
            },
            Err(ParseError::Request { message }) => command_line(contents(argv@)) matches Ok(cli)
                && decided(cli, *surroundings) == Err::<ArgsView, Seq<char>>(message@),
        },
        args matches Ok(Args::Open { handoff, .. }) ==> handoff == (if surroundings.ssh_connection
            || surroundings.ssh_tty || surroundings.ssh_client {
            Handoff::Ssh
        } else {
            Handoff::Browser
        }),
{
    match Cli::parse_from_argv(argv) {
        Ok(cli) => match from_cli(cli, surroundings) {
            Ok(args) => Ok(args),
            Err(message) => Err(ParseError::Request { message }),
        },
        Err(error) => Err(ParseError::Cli { error }),
    }
}

/// Why a command line leads to nothing.
#[derive(Debug)]
pub enum ParseError {
    /// It could not be read.
    Cli { error: CliError },
    /// It asks for what cannot be done.
    Request { message: String },
}

} // verus!
