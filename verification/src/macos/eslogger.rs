//! Reading `eslogger`'s JSON Lines. Apple models the output on
//! `es_message_t` but promises no schema stability, so every field is read
//! defensively: a line that no longer has the expected shape is skipped
//! rather than failing the recording.

use crate::json::{parse_json, Json};
#[allow(unused_imports)]
use crate::json::{json_of, lemma_items, member_of, referred, text_referred, JsonView};
use crate::text::{characters, same_text};
#[allow(unused_imports)]
use crate::text::views;
use vstd::prelude::*;
use vstd::string::*;

pub mod laws;

verus! {

pub const S_IFMT: u32 = 0o170000;

pub const S_IFDIR: u32 = 0o040000;

pub const FREAD: u64 = 0x1;

pub const FWRITE: u64 = 0x2;

pub const DARWIN_APPEND: u64 = 0x8;

pub const DARWIN_CREAT: u64 = 0x200;

pub const DARWIN_TRUNC: u64 = 0x400;

pub const DARWIN_EXCL: u64 = 0x800;

pub const LINUX_WRONLY: u64 = 0o1;

pub const LINUX_RDWR: u64 = 0o2;

pub const LINUX_CREAT: u64 = 0o100;

pub const LINUX_EXCL: u64 = 0o200;

pub const LINUX_TRUNC: u64 = 0o1000;

pub const LINUX_APPEND: u64 = 0o2000;

/// One event from a process the recorder follows.
#[derive(Debug, PartialEq)]
pub struct Message {
    /// `mach_absolute_time()` when the event happened.
    pub mach_time: u64,
    pub pid: i32,
    pub ppid: i32,
    pub event: Event,
}

#[derive(Debug, PartialEq)]
pub enum Event {
    Fork { child: i32 },
    Exec { argv: Vec<String>, cwd: String, executable: String },
    /// `stat` is a `wait(2)` status.
    Exit { stat: i32 },
    /// `fflag` holds kernel `FREAD`/`FWRITE` bits, not `open(2)` flags.
    Open { path: String, fflag: u64 },
    Rename { from: String, to: String },
}

#[verifier::ext_equal]
pub struct MessageView {
    pub mach_time: u64,
    pub pid: i32,
    pub ppid: i32,
    pub event: EventView,
}

#[verifier::ext_equal]
pub enum EventView {
    Fork { child: i32 },
    Exec { argv: Seq<Seq<char>>, cwd: Seq<char>, executable: Seq<char> },
    Exit { stat: i32 },
    Open { path: Seq<char>, fflag: u64 },
    Rename { from: Seq<char>, to: Seq<char> },
}

impl View for Event {
    type V = EventView;

    open spec fn view(&self) -> EventView {
        match self {
            Event::Fork { child } => EventView::Fork { child: *child },
            Event::Exec { argv, cwd, executable } => EventView::Exec {
                argv: views(argv@),
                cwd: cwd@,
                executable: executable@,
            },
            Event::Exit { stat } => EventView::Exit { stat: *stat },
            Event::Open { path, fflag } => EventView::Open { path: path@, fflag: *fflag },
            Event::Rename { from, to } => EventView::Rename { from: from@, to: to@ },
        }
    }
}

impl View for Message {
    type V = MessageView;

    open spec fn view(&self) -> MessageView {
        MessageView {
            mach_time: self.mach_time,
            pid: self.pid,
            ppid: self.ppid,
            event: self.event@,
        }
    }
}

/// The text of a string that may be missing, or nothing.
pub open spec fn or_empty(text: Option<Seq<char>>) -> Seq<char> {
    match text {
        Some(text) => text,
        None => Seq::empty(),
    }
}

/// The integer that a value which may be missing holds.
pub open spec fn integer_of(value: Option<JsonView>) -> Option<i64> {
    match value {
        Some(value) => value.integer(),
        None => None,
    }
}

/// The text that a value which may be missing holds.
pub open spec fn text_in(value: Option<JsonView>) -> Option<Seq<char>> {
    match value {
        Some(value) => value.text(),
        None => None,
    }
}

/// `es_process_t` identifies a process by its audit token.
pub open spec fn pid_of(process: JsonView) -> Option<i32> {
    match integer_of(member_of(process.member("audit_token"@), "pid"@)) {
        Some(pid) => Some(pid as i32),
        None => None,
    }
}

pub open spec fn path_of(file: Option<JsonView>) -> Option<Seq<char>> {
    text_in(member_of(file, "path"@))
}

/// A text without the slashes it ends in.
pub open spec fn without_slashes(text: Seq<char>) -> Seq<char>
    decreases text.len(),
{
    if text.len() > 0 && text.last() == '/' {
        without_slashes(text.drop_last())
    } else {
        text
    }
}

/// A rename or create destination is a union: an existing file, or a
/// directory and the name the new file takes inside it.
pub open spec fn destination_of(destination: JsonView) -> Option<Seq<char>> {
    let new_path = destination.member("new_path"@);
    match path_of(destination.member("existing_file"@)) {
        Some(path) => Some(path),
        None => match (
            path_of(member_of(new_path, "dir"@)),
            text_in(member_of(new_path, "filename"@)),
        ) {
            (Some(dir), Some(filename)) => Some(without_slashes(dir) + "/"@ + filename),
            _ => None,
        },
    }
}

/// The file mode of a destination; zero if it is not known.
pub open spec fn mode_of(destination: JsonView) -> i64 {
    let existing = integer_of(
        member_of(member_of(destination.member("existing_file"@), "stat"@), "st_mode"@),
    );
    let created = integer_of(member_of(destination.member("new_path"@), "mode"@));
    match existing {
        Some(mode) => mode,
        None => match created {
            Some(mode) => mode,
            None => 0,
        },
    }
}

/// The arguments of a program; what is not a text counts as an empty one.
pub open spec fn argv_of(args: Option<JsonView>) -> Seq<Seq<char>> {
    match args {
        Some(JsonView::List { items }) => items.map_values(
            |item: JsonView| or_empty(item.text()),
        ),
        _ => Seq::empty(),
    }
}

/// The event that the one entry of a message's `event` object stands for.
pub open spec fn event_of(kind: Seq<char>, body: JsonView) -> Option<EventView> {
    if kind == "fork"@ {
        match body.member("child"@) {
            Some(child) => match pid_of(child) {
                Some(child) => Some(EventView::Fork { child }),
                None => None,
            },
            None => None,
        }
    } else if kind == "exec"@ {
        Some(
            EventView::Exec {
                argv: argv_of(body.member("args"@)),
                cwd: or_empty(path_of(body.member("cwd"@))),
                executable: or_empty(
                    path_of(member_of(body.member("target"@), "executable"@)),
                ),
            },
        )
    } else if kind == "exit"@ {
        match integer_of(body.member("stat"@)) {
            Some(stat) => Some(EventView::Exit { stat: stat as i32 }),
            None => None,
        }
    } else if kind == "open"@ {
        match path_of(body.member("file"@)) {
            Some(path) => Some(
                EventView::Open {
                    path,
                    fflag: match integer_of(body.member("fflag"@)) {
                        Some(fflag) => fflag as u64,
                        None => 0,
                    },
                },
            ),
            None => None,
        }
    } else if kind == "create"@ {
        // Recorded as the write open that created it, as on Linux, where
        // directories are not opens at all.
        match body.member("destination"@) {
            Some(destination) => if mode_of(destination) as u32 & S_IFMT == S_IFDIR {
                None
            } else {
                match destination_of(destination) {
                    Some(path) => Some(
                        EventView::Open { path, fflag: FWRITE | DARWIN_CREAT },
                    ),
                    None => None,
                }
            },
            None => None,
        }
    } else if kind == "rename"@ {
        match (path_of(body.member("source"@)), body.member("destination"@)) {
            (Some(from), Some(destination)) => match destination_of(destination) {
                Some(to) => Some(EventView::Rename { from, to }),
                None => None,
            },
            _ => None,
        }
    } else {
        None
    }
}

/// The message that a line of `eslogger`'s output stands for.
pub open spec fn message_of(root: JsonView) -> Option<MessageView> {
    match (root.member("process"@), root.member("mach_time"@), root.member("event"@)) {
        (Some(process), Some(mach_time), Some(event)) => match (
            pid_of(process),
            mach_time.unsigned(),
            event.first_entry(),
        ) {
            (Some(pid), Some(mach_time), Some((kind, body))) => match event_of(kind, body) {
                Some(event) => Some(
                    MessageView {
                        mach_time,
                        pid,
                        ppid: match integer_of(process.member("ppid"@)) {
                            Some(ppid) => ppid as i32,
                            None => 0,
                        },
                        event,
                    },
                ),
                None => None,
            },
            _ => None,
        },
        _ => None,
    }
}

fn int_in(value: Option<&Json>) -> (number: Option<i64>)
    ensures
        number == integer_of(referred(value)),
{
    match value {
        Some(value) => value.as_integer(),
        None => None,
    }
}

fn member_in<'a>(value: Option<&'a Json>, key: &str) -> (member: Option<&'a Json>)
    ensures
        referred(member) == member_of(referred(value), key@),
{
    match value {
        Some(value) => value.get(key),
        None => None,
    }
}

fn audit_pid(process: &Json) -> (pid: Option<i32>)
    ensures
        pid == pid_of(process@),
{
    match int_in(member_in(process.get("audit_token"), "pid")) {
        Some(pid) => Some(#[verifier::truncate] (pid as i32)),
        None => None,
    }
}

fn file_path<'a>(file: Option<&'a Json>) -> (path: Option<&'a str>)
    ensures
        text_referred(path) == path_of(referred(file)),
{
    match member_in(file, "path") {
        Some(path) => path.as_str(),
        None => None,
    }
}

/// A file's path as a string of its own, or an empty one.
fn path_or_empty(file: Option<&Json>) -> (path: String)
    ensures
        path@ == or_empty(path_of(referred(file))),
{
    match file_path(file) {
        Some(path) => path.to_owned(),
        None => String::new(),
    }
}

fn trim_slashes(text: &str) -> (trimmed: &str)
    ensures
        trimmed@ == without_slashes(text@),
{
    let all = characters(text);
    let mut length: usize = all.len();
    assert(text@.take(length as int) =~= text@);
    while length > 0 && all[length - 1] == '/'
        invariant
            all@ == text@,
            length <= text@.len(),
            without_slashes(text@) == without_slashes(text@.take(length as int)),
        decreases length,
    {
        assert(text@.take(length as int).drop_last() =~= text@.take(length - 1));
        length = length - 1;
    }
    assert(text@.subrange(0, length as int) =~= text@.take(length as int));
    text.substring_char(0, length)
}

/// The text of a string that may be missing.
pub open spec fn owned_text(text: Option<String>) -> Option<Seq<char>> {
    match text {
        Some(text) => Some(text@),
        None => None,
    }
}

fn destination_path(destination: &Json) -> (path: Option<String>)
    ensures
        owned_text(path) == destination_of(destination@),
{
    if let Some(path) = file_path(destination.get("existing_file")) {
        return Some(path.to_owned());
    }
    let new_path = destination.get("new_path");
    let dir = match file_path(member_in(new_path, "dir")) {
        Some(dir) => dir,
        None => {
            return None;
        },
    };
    let filename = match member_in(new_path, "filename") {
        Some(filename) => filename.as_str(),
        None => None,
    };
    match filename {
        Some(filename) => {
            let mut path = trim_slashes(dir).to_owned();
            path.append("/");
            path.append(filename);
            Some(path)
        },
        None => None,
    }
}

fn arguments(args: Option<&Json>) -> (argv: Vec<String>)
    ensures
        views(argv@) == argv_of(referred(args)),
{
    let mut argv: Vec<String> = Vec::new();
    if let Some(Json::List { items }) = args {
        let ghost wanted = argv_of(referred(args));
        proof {
            lemma_items(args->0);
        }
        for i in 0..items.len()
            invariant
                wanted.len() == items@.len(),
                forall|j: int|
                    0 <= j < items@.len() ==> #[trigger] wanted[j] == or_empty(items@[j]@.text()),
                views(argv@) =~= wanted.take(i as int),
        {
            let argument = match items[i].as_str() {
                Some(text) => text.to_owned(),
                None => String::new(),
            };
            let ghost before = views(argv@);
            assert(wanted[i as int] == argument@);
            argv.push(argument);
            assert(views(argv@) =~= before.push(argument@));
        }
        assert(wanted.take(items@.len() as int) =~= wanted);
    } else {
        assert(views(argv@) =~= Seq::<Seq<char>>::empty());
    }
    argv
}

/// What an event that may be missing says.
pub open spec fn event_view(event: Option<Event>) -> Option<EventView> {
    match event {
        Some(event) => Some(event@),
        None => None,
    }
}

/// What a message that may be missing says.
pub open spec fn message_view(message: Option<Message>) -> Option<MessageView> {
    match message {
        Some(message) => Some(message@),
        None => None,
    }
}

fn event_named(kind: &str, body: &Json) -> (event: Option<Event>)
    ensures
        event_view(event) == event_of(kind@, body@),
{
    if same_text(kind, "fork") {
        match body.get("child") {
            Some(child) => match audit_pid(child) {
                Some(child) => Some(Event::Fork { child }),
                None => None,
            },
            None => None,
        }
    } else if same_text(kind, "exec") {
        Some(
            Event::Exec {
                argv: arguments(body.get("args")),
                cwd: path_or_empty(body.get("cwd")),
                executable: path_or_empty(member_in(body.get("target"), "executable")),
            },
        )
    } else if same_text(kind, "exit") {
        match int_in(body.get("stat")) {
            Some(stat) => Some(Event::Exit { stat: #[verifier::truncate] (stat as i32) }),
            None => None,
        }
    } else if same_text(kind, "open") {
        match file_path(body.get("file")) {
            Some(path) => Some(
                Event::Open {
                    path: path.to_owned(),
                    fflag: match int_in(body.get("fflag")) {
                        Some(fflag) => #[verifier::truncate] (fflag as u64),
                        None => 0,
                    },
                },
            ),
            None => None,
        }
    } else if same_text(kind, "create") {
        match body.get("destination") {
            Some(destination) => if creates_directory(destination) {
                None
            } else {
                match destination_path(destination) {
                    Some(path) => Some(Event::Open { path, fflag: FWRITE | DARWIN_CREAT }),
                    None => None,
                }
            },
            None => None,
        }
    } else if same_text(kind, "rename") {
        match (file_path(body.get("source")), body.get("destination")) {
            (Some(from), Some(destination)) => match destination_path(destination) {
                Some(to) => Some(Event::Rename { from: from.to_owned(), to }),
                None => None,
            },
            _ => None,
        }
    } else {
        None
    }
}

fn creates_directory(destination: &Json) -> (directory: bool)
    ensures
        directory == (mode_of(destination@) as u32 & S_IFMT == S_IFDIR),
{
    let existing = int_in(
        member_in(member_in(destination.get("existing_file"), "stat"), "st_mode"),
    );
    let mode: i64 = match existing {
        Some(mode) => mode,
        None => match int_in(member_in(destination.get("new_path"), "mode")) {
            Some(mode) => mode,
            None => 0,
        },
    };
    (#[verifier::truncate] (mode as u32)) & S_IFMT == S_IFDIR
}

/// The message that a line of `eslogger`'s output stands for, once the line
/// is read as JSON.
pub fn interpret(root: &Json) -> (message: Option<Message>)
    ensures
        message_view(message) == message_of(root@),
{
    let process = match root.get("process") {
        Some(process) => process,
        None => {
            return None;
        },
    };
    let pid: i32 = match audit_pid(process) {
        Some(pid) => pid,
        None => {
            return None;
        },
    };
    let ppid: i32 = match int_in(process.get("ppid")) {
        Some(ppid) => #[verifier::truncate] (ppid as i32),
        None => 0,
    };
    let mach_time: u64 = match root.get("mach_time") {
        Some(mach_time) => match mach_time.as_u64() {
            Some(mach_time) => mach_time,
            None => {
                return None;
            },
        },
        None => {
            return None;
        },
    };
    let event = match root.get("event") {
        Some(event) => event,
        None => {
            return None;
        },
    };
    match event {
        Json::Object { entries } => {
            if entries.len() == 0 {
                return None;
            }
            proof {
                lemma_items(event);
            }
            assert(event@.first_entry() == Some((entries@[0].0@, entries@[0].1@)));
            match event_named(entries[0].0.as_str(), &entries[0].1) {
                Some(event) => Some(Message { mach_time, pid, ppid, event }),
                None => None,
            }
        },
        _ => None,
    }
}

/// Reads a line of `eslogger`'s output; `None` if it has not the expected
/// shape.
pub fn parse(line: &str) -> (message: Option<Message>)
    ensures
        message_view(message) == (match json_of(line@) {
            Some(root) => message_of(root),
            None => None,
        }),
{
    match parse_json(line) {
        Some(root) => interpret(&root),
        None => None,
    }
}

/// The access that kernel file flags stand for, as the flags of `open(2)`.
pub open spec fn access_flags(fflag: u64) -> u64 {
    if fflag & FREAD != 0 && fflag & FWRITE != 0 {
        LINUX_RDWR
    } else if fflag & FWRITE != 0 {
        LINUX_WRONLY
    } else {
        0
    }
}

/// One flag in place of another.
pub open spec fn flag_for(fflag: u64, darwin: u64, linux: u64) -> u64 {
    if fflag & darwin != 0 {
        linux
    } else {
        0
    }
}

/// Kernel file flags as the flags of `open(2)` on Linux.
pub open spec fn open_flags(fflag: u64) -> int {
    access_flags(fflag) + flag_for(fflag, DARWIN_APPEND, LINUX_APPEND) + flag_for(
        fflag,
        DARWIN_CREAT,
        LINUX_CREAT,
    ) + flag_for(fflag, DARWIN_TRUNC, LINUX_TRUNC) + flag_for(fflag, DARWIN_EXCL, LINUX_EXCL)
}

/// Kernel file flags (`sys/fcntl.h`) as the Linux `open(2)` flags the trace
/// format stores, so the UI decodes write intent the same way on both.
pub fn linux_open_flags(fflag: u64) -> (flags: u64)
    ensures
        flags == open_flags(fflag),
{
    let mut flags: u64 = if fflag & FWRITE != 0 {
        if fflag & FREAD != 0 {
            LINUX_RDWR
        } else {
            LINUX_WRONLY
        }
    } else {
        0
    };
    if fflag & DARWIN_APPEND != 0 {
        assert(flags | 0o2000 == flags + 0o2000) by (bit_vector)
            requires
                flags < 4,
        ;
        flags = flags | LINUX_APPEND;
    }
    if fflag & DARWIN_CREAT != 0 {
        assert(flags | 0o100 == flags + 0o100) by (bit_vector)
            requires
                flags < 4 || 0o2000 <= flags < 0o2004,
        ;
        flags = flags | LINUX_CREAT;
    }
    let ghost low: u64 = access_flags(fflag);
    if fflag & DARWIN_TRUNC != 0 {
        assert(flags | 0o1000 == flags + 0o1000) by (bit_vector)
            requires
                flags < 0o104 || 0o2000 <= flags < 0o2104,
        ;
        flags = flags | LINUX_TRUNC;
    }
    if fflag & DARWIN_EXCL != 0 {
        assert(flags | 0o200 == flags + 0o200) by (bit_vector)
            requires
                flags < 0o104 || 0o1000 <= flags < 0o1104 || 0o2000 <= flags < 0o2104 || 0o3000
                    <= flags < 0o3104,
        ;
        flags = flags | LINUX_EXCL;
    }
    flags
}

/// The names of event types.
pub open spec fn names_of(names: Seq<&'static str>) -> Seq<Seq<char>> {
    names.map_values(|name: &'static str| name@)
}

/// Event types the recorder subscribes to, by `eslogger` short name. A file
/// that did not exist yet reports `create` and no `open`.
pub open spec fn subscribed_names(file_events: bool) -> Seq<Seq<char>> {
    seq!["fork"@, "exec"@, "exit"@] + if file_events {
        seq!["open"@, "create"@, "rename"@]
    } else {
        seq![]
    }
}

pub fn subscribed_events(file_events: bool) -> (names: Vec<&'static str>)
    ensures
        names_of(names@) == subscribed_names(file_events),
{
    let mut names: Vec<&'static str> = Vec::new();
    names.push("fork");
    names.push("exec");
    names.push("exit");
    if file_events {
        names.push("open");
        names.push("create");
        names.push("rename");
    }
    assert(names_of(names@) =~= subscribed_names(file_events));
    names
}

/// The few fields the privileged helper needs to decide whether a line
/// belongs to the recording.
#[derive(Clone, Copy, Debug)]
pub struct Envelope {
    pub process: EnvelopeProcess,
    pub global_seq_num: Option<u64>,
    pub event: EnvelopeEvent,
}

#[derive(Clone, Copy, Debug)]
pub struct EnvelopeProcess {
    pub audit_token: AuditToken,
    pub ppid: i32,
}

#[derive(Clone, Copy, Debug)]
pub struct AuditToken {
    pub pid: i32,
}

#[derive(Clone, Copy, Debug)]
pub struct EnvelopeEvent {
    pub fork: Option<EnvelopeFork>,
    /// Whether the process ended; nothing more is needed of how.
    pub exit: Option<()>,
}

#[derive(Clone, Copy, Debug)]
pub struct EnvelopeFork {
    pub child: EnvelopeProcess,
}

} // verus!
