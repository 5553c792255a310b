//! Best-effort compiler-internal trace capture.
//!
//! Compiler flags are added by private wrappers. This is opt-in and may change
//! compiler cache keys; requesting the detail trace takes precedence over
//! preserving cache hits.

use crate::perfetto::{WriteError, Writer};
#[allow(unused_imports)]
use crate::perfetto::reading::{is_at, lemma_slice_shown};
#[allow(unused_imports)]
use crate::perfetto::wire::{fits, Field};
#[allow(unused_imports)]
use crate::perfetto::{compiler_track_packet, unsigned_pid, SliceView};
#[allow(unused_imports)]
use crate::text::{
    after_last, all_digits, byte_characters, bytes_of, contents, decimal, decimal_value, decoded,
    digits_value, file_name, holds_text, is_digit, join_bytes, lemma_after_last,
    lemma_decimal_injective, ranges_of, split, text_of, Symbol,
};
use crate::text::{
    bytes_file_name, bytes_start_with, characters, contains_text, copy_bytes, copy_range,
    from_utf8, from_utf8_lossy, join_path_bytes, parse_i32, push_unsigned, same_bytes, same_text,
    split_ranges,
};
use std::collections::HashSet;
use vstd::prelude::*;
use vstd::string::*;
#[allow(unused_imports)]
use vstd::utf8::*;

pub mod laws;

verus! {

broadcast use vstd::std_specs::hash::group_hash_axioms;

pub const PROFILE_DIR_ENV: &'static str = "BUILDPROF_COMPILER_PROFILE_DIR";

pub const REAL_RUST_WRAPPER_ENV: &'static str = "BUILDPROF_REAL_RUSTC_WRAPPER";

pub const REAL_CLANG_ENV: &'static str = "BUILDPROF_REAL_CLANG";

pub const REAL_CLANGXX_ENV: &'static str = "BUILDPROF_REAL_CLANGXX";

pub const RUST_WRAPPER_KIND: &'static str = "buildprof-rustc-wrapper";

pub const CLANG_WRAPPER_KIND: &'static str = "clang";

pub const CLANGXX_WRAPPER_KIND: &'static str = "clang++";

pub const RUST_BACKEND: &'static str = "Rust";

pub const CLANG_BACKEND: &'static str = "Clang";

pub const LLD_BACKEND: &'static str = "LLD";

pub const PROFILE_DIRECTORY_PREFIX: &'static str = "buildprof-compilers";

pub const CLANG_TRACE_PREFIX: &'static str = "clang";

pub const LLD_TRACE_PREFIX: &'static str = "lld";

pub const RUST_PROFILE_EXTENSION: &'static str = "mm_profdata";

pub const WRAPPER_DIRECTORY_NAME: &'static str = "bin";

pub const MINIMUM_COMPILER_EVENT_NS: u64 = 1;

pub const WRAPPER_FAILURE_EXIT_CODE: u8 = 126;

/// Which compiler a trace is from.
#[derive(Clone, Copy, Debug, PartialEq, Eq, Structural)]
pub enum Backend {
    Rust,
    Clang,
    Lld,
}

impl Backend {
    pub open spec fn title(self) -> Seq<char> {
        match self {
            Backend::Rust => RUST_BACKEND@,
            Backend::Clang => CLANG_BACKEND@,
            Backend::Lld => LLD_BACKEND@,
        }
    }

    pub open spec fn index(self) -> int {
        match self {
            Backend::Rust => 0,
            Backend::Clang => 1,
            Backend::Lld => 2,
        }
    }

    pub fn name(&self) -> (name: &'static str)
        ensures
            name@ == self.title(),
    {
        match self {
            Backend::Rust => RUST_BACKEND,
            Backend::Clang => CLANG_BACKEND,
            Backend::Lld => LLD_BACKEND,
        }
    }
}

/// The number that a compiler's thread is remembered by.
pub open spec fn track_key(pid: i32, thread_id: u32, backend: Backend) -> u128 {
    ((unsigned_pid(pid) * 0x1_0000_0000 + thread_id) * 4 + backend.index()) as u128
}

/// Every thread of every compiler has a number of its own.
pub proof fn lemma_track_keys_distinct(
    pid: i32,
    thread_id: u32,
    backend: Backend,
    other_pid: i32,
    other_thread_id: u32,
    other_backend: Backend,
)
    ensures
        track_key(pid, thread_id, backend) == track_key(
            other_pid,
            other_thread_id,
            other_backend,
        ) <==> pid == other_pid && thread_id == other_thread_id && backend == other_backend,
{
}

fn track_number(pid: i32, thread_id: u32, backend: Backend) -> (key: u128)
    ensures
        key == track_key(pid, thread_id, backend),
{
    let owner: u128 = if pid < 0 {
        (pid as i64 + 0x1_0000_0000) as u128
    } else {
        pid as u128
    };
    let index: u128 = match backend {
        Backend::Rust => 0,
        Backend::Clang => 1,
        Backend::Lld => 2,
    };
    (owner * 0x1_0000_0000 + thread_id as u128) * 4 + index
}

/// An event of a time trace, with its times in nanoseconds since the trace
/// began.
#[derive(Debug)]
pub struct ClangEvent {
    pub phase: String,
    pub name: String,
    pub category: String,
    pub timestamp_ns: u64,
    pub duration_ns: u64,
    pub thread_id: u32,
    pub detail: Option<String>,
}

/// Whether an event of a time trace is a phase of its own and not a total.
pub open spec fn imported(phase: Seq<char>, name: Seq<char>) -> bool {
    phase == "X"@ && !"Total "@.is_prefix_of(name)
}

/// A stretch of time, but never an empty one.
pub open spec fn lasting(duration_ns: u64) -> u64 {
    if duration_ns < 1 {
        1
    } else {
        duration_ns
    }
}

/// What an event of a time trace shows.
pub open spec fn clang_slice(
    pid: i32,
    trace_start_ns: u64,
    backend: Backend,
    event: ClangEvent,
) -> SliceView {
    SliceView {
        pid,
        thread_id: event.thread_id,
        backend: backend.title(),
        category: event.category@,
        name: event.name@,
        start_ns: crate::perfetto::later(trace_start_ns, event.timestamp_ns),
        duration_ns: lasting(event.duration_ns),
        detail: text_of(event.detail),
    }
}

/// Nanoseconds from one point in time to another: none if it is earlier, and
/// no more than fit.
pub open spec fn between(origin_ns: int, time_ns: int) -> u64 {
    if time_ns <= origin_ns {
        0
    } else if time_ns - origin_ns > u64::MAX {
        u64::MAX
    } else {
        (time_ns - origin_ns) as u64
    }
}

/// What an interval of a Rust self-profile shows.
pub open spec fn rust_slice(
    pid: i32,
    thread_id: u32,
    label: Seq<char>,
    kind: Seq<char>,
    start_time_ns: int,
    end_time_ns: int,
    origin_ns: int,
) -> SliceView {
    SliceView {
        pid,
        thread_id,
        backend: RUST_BACKEND@,
        category: kind,
        name: label,
        start_ns: between(origin_ns, start_time_ns),
        duration_ns: lasting(between(start_time_ns, end_time_ns)),
        detail: None,
    }
}

/// When a time trace began, since the recording did.
pub open spec fn trace_start(
    beginning_of_time_us: Option<u64>,
    origin_ns: int,
    process_start_ns: u64,
) -> u64 {
    match beginning_of_time_us {
        Some(beginning_us) => between(origin_ns, beginning_us * 1000),
        None => process_start_ns,
    }
}

/// Nanoseconds since `origin`; both times are in nanoseconds since the epoch.
pub fn system_time_ns(time_ns: i128, origin_ns: i128) -> (ns: u64)
    ensures
        ns == between(origin_ns as int, time_ns as int),
{
    if time_ns <= origin_ns {
        return 0;
    }
    match time_ns.checked_sub(origin_ns) {
        Some(elapsed) => if elapsed > u64::MAX as i128 {
            u64::MAX
        } else {
            elapsed as u64
        },
        None => u64::MAX,
    }
}

/// When a time trace began since the recording did: as it says itself, in
/// microseconds since the epoch, or else when its process did.
pub fn time_trace_start_ns(
    beginning_of_time_us: Option<u64>,
    origin_ns: i128,
    process_start_ns: u64,
) -> (start_ns: u64)
    ensures
        start_ns == trace_start(beginning_of_time_us, origin_ns as int, process_start_ns),
{
    match beginning_of_time_us {
        Some(beginning_us) => system_time_ns(beginning_us as i128 * 1000, origin_ns),
        None => process_start_ns,
    }
}

/// What compilers have shown so far.
pub struct Capture {
    declared_tracks: HashSet<u128>,
}

impl Capture {
    /// The threads whose tracks are in the trace.
    pub closed spec fn declared(&self) -> Set<u128> {
        self.declared_tracks@
    }

    pub fn new() -> (capture: Self)
        ensures
            capture.declared() == Set::<u128>::empty(),
    {
        Capture { declared_tracks: HashSet::new() }
    }

    /// Shows what a compiler did for a while, on a track of its own thread
    /// that is introduced when it is first needed.
    pub fn write_event(
        &mut self,
        writer: &mut Writer,
        pid: i32,
        thread_id: u32,
        backend: Backend,
        name: &str,
        category: &str,
        start_ns: u64,
        duration_ns: u64,
        detail: Option<&str>,
    ) -> (result: Result<(), WriteError>)
        requires
            old(writer).wf(),
        ensures
            final(writer).wf(),
            final(self).declared() == old(self).declared().insert(
                track_key(pid, thread_id, backend),
            ),
            shown(
                old(writer),
                final(writer),
                old(self).declared().contains(track_key(pid, thread_id, backend)),
                SliceView {
                    pid,
                    thread_id,
                    backend: backend.title(),
                    category: category@,
                    name: name@,
                    start_ns,
                    duration_ns,
                    detail: crate::perfetto::proto::characters(detail),
                },
                result,
            ),
    {
        let key: u128 = track_number(pid, thread_id, backend);
        if self.declared_tracks.insert(key) {
            writer.compiler_track(pid, thread_id, backend.name())?;
        }
        writer.compiler_slice(
            pid,
            thread_id,
            backend.name(),
            category,
            name,
            start_ns,
            duration_ns,
            detail,
        )
    }

    /// Shows an event of a time trace, unless it is one that adds nothing.
    pub fn import_clang_event(
        &mut self,
        writer: &mut Writer,
        pid: i32,
        trace_start_ns: u64,
        backend: Backend,
        event: &ClangEvent,
    ) -> (result: Result<(), WriteError>)
        requires
            old(writer).wf(),
        ensures
            final(writer).wf(),
            if imported(event.phase@, event.name@) {
                let key = track_key(pid, event.thread_id, backend);
                &&& final(self).declared() == old(self).declared().insert(key)
                &&& shown(
                    old(writer),
                    final(writer),
                    old(self).declared().contains(key),
                    clang_slice(pid, trace_start_ns, backend, *event),
                    result,
                )
                &&& result is Ok && trace_start_ns + event.timestamp_ns <= u64::MAX ==> is_at(
                    final(writer)@[final(writer)@.len() - 2],
                    (trace_start_ns + event.timestamp_ns) as u64,
                )
            } else {
                &&& result is Ok
                &&& final(self).declared() == old(self).declared()
                &&& final(writer).extends(old(writer), Seq::empty())
            },
    {
        if !same_text(event.phase.as_str(), "X") || starts_with_total(event.name.as_str()) {
            assert(writer@ =~= old(writer)@ + Seq::empty());
            return Ok(());
        }
        let start_ns: u64 = trace_start_ns.saturating_add(event.timestamp_ns);
        let duration_ns: u64 = if event.duration_ns < MINIMUM_COMPILER_EVENT_NS {
            MINIMUM_COMPILER_EVENT_NS
        } else {
            event.duration_ns
        };
        let detail = match &event.detail {
            Some(detail) => Some(detail.as_str()),
            None => None,
        };
        proof {
            lemma_slice_shown(
                clang_slice(pid, trace_start_ns, backend, *event),
                old(writer).names(),
                old(writer).values(),
            );
        }
        self.write_event(
            writer,
            pid,
            event.thread_id,
            backend,
            event.name.as_str(),
            event.category.as_str(),
            start_ns,
            duration_ns,
            detail,
        )
    }

    /// Shows an interval of a Rust self-profile; its times and the recording's
    /// origin are in nanoseconds since the epoch.
    pub fn import_rust_interval(
        &mut self,
        writer: &mut Writer,
        pid: i32,
        thread_id: u32,
        label: &str,
        kind: &str,
        start_time_ns: i128,
        end_time_ns: i128,
        origin_ns: i128,
    ) -> (result: Result<(), WriteError>)
        requires
            old(writer).wf(),
        ensures
            final(writer).wf(),
            final(self).declared() == old(self).declared().insert(
                track_key(pid, thread_id, Backend::Rust),
            ),
            shown(
                old(writer),
                final(writer),
                old(self).declared().contains(track_key(pid, thread_id, Backend::Rust)),
                rust_slice(
                    pid,
                    thread_id,
                    label@,
                    kind@,
                    start_time_ns as int,
                    end_time_ns as int,
                    origin_ns as int,
                ),
                result,
            ),
    {
        let start_ns: u64 = system_time_ns(start_time_ns, origin_ns);
        let elapsed: u64 = system_time_ns(end_time_ns, start_time_ns);
        let duration_ns: u64 = if elapsed < MINIMUM_COMPILER_EVENT_NS {
            MINIMUM_COMPILER_EVENT_NS
        } else {
            elapsed
        };
        self.write_event(
            writer,
            pid,
            thread_id,
            Backend::Rust,
            label,
            kind,
            start_ns,
            duration_ns,
            None,
        )
    }
}

/// What a writer holds after a slice was shown: first its track, unless that
/// is `declared` already, then the slice, each if it can be written.
pub open spec fn shown(
    before: &Writer,
    after: &Writer,
    declared: bool,
    slice: SliceView,
    result: Result<(), WriteError>,
) -> bool {
    let track = compiler_track_packet(slice.pid, slice.thread_id, slice.backend);
    let names = before.names();
    let values = before.values();
    let introduced = if declared {
        before@
    } else {
        before@.push(track)
    };
    if !declared && !fits(track) {
        &&& result == Err::<(), WriteError>(WriteError::TooLong)
        &&& after.extends(before, Seq::empty())
    } else {
        &&& result == slice.outcome(names, values)
        &&& after@ == (if result is Ok {
            introduced + slice.packets(names, values)
        } else {
            introduced
        })
        &&& after.names() == (if result is Ok {
            slice.names_after(names)
        } else {
            names
        })
        &&& after.values() == (if result is Ok {
            slice.values_after(values)
        } else {
            values
        })
    }
}

fn starts_with_total(name: &str) -> (found: bool)
    ensures
        found == "Total "@.is_prefix_of(name@),
{
    let all = characters(name);
    let wanted = characters("Total ");
    if all.len() < wanted.len() {
        return false;
    }
    for i in 0..wanted.len()
        invariant
            all@ == name@,
            wanted@ == "Total "@,
            wanted@.len() <= all@.len(),
            forall|j: int| 0 <= j < i ==> wanted@[j] == all@[j],
    {
        if all[i] != wanted[i] {
            assert(name@.subrange(0, wanted@.len() as int)[i as int] == name@[i as int]);
            return false;
        }
    }
    assert("Total "@ =~= name@.subrange(0, wanted@.len() as int));
    true
}

/// The name of the file that a compiler is told to write its trace to.
pub open spec fn trace_file(prefix: Seq<char>, pid: u32) -> Seq<char> {
    prefix + "-"@ + decimal(pid as int) + ".json"@
}

pub fn trace_file_name(prefix: &str, pid: u32) -> (name: String)
    ensures
        name@ == trace_file(prefix@, pid),
{
    let mut name = prefix.to_owned();
    name.append("-");
    push_unsigned(&mut name, pid as u64);
    name.append(".json");
    name
}

/// Each process has a trace file of its own: what is read under a pid is what
/// a compiler with that pid was told to write.
pub proof fn lemma_trace_files_distinct(prefix: Seq<char>, pid: u32, other: u32)
    ensures
        trace_file(prefix, pid) == trace_file(prefix, other) <==> pid == other,
{
    if trace_file(prefix, pid) == trace_file(prefix, other) {
        let start = prefix.len() as int + "-"@.len();
        let name = trace_file(prefix, pid);
        let end = name.len() - ".json"@.len();
        assert(name.subrange(start, end) =~= decimal(pid as int));
        assert(trace_file(prefix, other).subrange(start, end) =~= decimal(other as int));
        lemma_decimal_injective(pid as int, other as int);
    }
}

/// A file name taken apart at its last dot, unless it begins there.
pub open spec fn stem_and_extension(name: Seq<u8>) -> Option<(Seq<u8>, Seq<u8>)> {
    let start = after_last(name, 46);
    if start > 1 {
        Some((name.take(start - 1), name.skip(start as int)))
    } else {
        None
    }
}

/// The number after the last hyphen of a text, if it is a pid.
pub open spec fn trailing_pid(stem: Seq<char>) -> Option<i32> {
    let start = after_last(stem, 45);
    if start == 0 {
        None
    } else {
        match decimal_value(stem.skip(start as int)) {
            Some(pid) => if i32::MIN <= pid <= i32::MAX {
                Some(pid as i32)
            } else {
                None
            },
            None => None,
        }
    }
}

/// The process that a Rust self-profile is of, by its file name.
pub open spec fn profile_pid(path: Seq<u8>) -> Option<i32> {
    match file_name(path) {
        Some(name) => match stem_and_extension(name) {
            Some((stem, extension)) => if extension == encode_utf8(RUST_PROFILE_EXTENSION@)
                && valid_utf8(stem) {
                trailing_pid(decode_utf8(stem))
            } else {
                None
            },
            None => None,
        },
        None => None,
    }
}

proof fn lemma_last_part<A: Symbol>(before: Seq<A>, after: Seq<A>, separator: int)
    requires
        before.len() > 0,
        before.last().code() == separator,
        forall|i: int| 0 <= i < after.len() ==> (#[trigger] after[i]).code() != separator,
    ensures
        after_last(before + after, separator) == before.len(),
    decreases after.len(),
{
    if after.len() == 0 {
        assert(before + after =~= before);
    } else {
        assert((before + after).last() == after.last());
        assert((before + after).drop_last() =~= before + after.drop_last());
        assert forall|i: int| 0 <= i < after.drop_last().len() implies (
        #[trigger] after.drop_last()[i]).code() != separator by {
            assert(after.drop_last()[i] == after[i]);
        }
        lemma_last_part(before, after.drop_last(), separator);
    }
}

proof fn lemma_whole_name(name: Seq<u8>)
    requires
        name.len() > 2,
        forall|i: int| 0 <= i < name.len() ==> #[trigger] name[i] != 47,
    ensures
        file_name(name) == Some(name),
{
    lemma_after_last(name, 47);
    let start = after_last(name, 47);
    if start > 0 {
        assert(name[start - 1].code() == 47);
    }
    assert(name.skip(0) =~= name);
}

/// The name of a Rust self-profile.
pub open spec fn profile_name(program: Seq<char>, number: Seq<char>) -> Seq<u8> {
    encode_utf8(program + "-"@ + number) + encode_utf8("."@) + encode_utf8(
        RUST_PROFILE_EXTENSION@,
    )
}

/// The pid in the name of a self-profile is read back, with any number of
/// zeros in front of it and whatever the program is called.
pub proof fn lemma_profile_pid_read_back(program: Seq<char>, number: Seq<char>)
    requires
        forall|i: int|
            0 <= i < profile_name(program, number).len() ==> #[trigger] profile_name(
                program,
                number,
            )[i] != 47,
        number.len() > 0,
        all_digits(number),
        digits_value(number) <= i32::MAX,
    ensures
        profile_pid(profile_name(program, number)) == Some(digits_value(number) as i32),
{
    broadcast use vstd::utf8::group_utf8_lib;

    let text = program + "-"@ + number;
    let stem = encode_utf8(text);
    let dot = encode_utf8("."@);
    let extension = encode_utf8(RUST_PROFILE_EXTENSION@);
    let name = profile_name(program, number);
    reveal_strlit(".");
    reveal_strlit("-");
    reveal_strlit("mm_profdata");
    assert(is_ascii_chars("."@));
    assert(is_ascii_chars(RUST_PROFILE_EXTENSION@));
    assert(dot =~= seq![46u8]);
    assert(extension.len() == 11);
    assert forall|i: int| 0 <= i < extension.len() implies (#[trigger] extension[i]).code() != 46 by {
        assert(RUST_PROFILE_EXTENSION@[i] as u8 == extension[i]);
    }
    assert(name.len() > 2);
    lemma_whole_name(name);
    assert((stem + dot).last() == 46u8);
    lemma_last_part(stem + dot, extension, 46);
    assert(text.len() > 0);
    assert(stem.len() > 0) by {
        if stem.len() == 0 {
            assert(stem =~= encode_utf8(Seq::<char>::empty()));
            assert(decode_utf8(stem) == text);
            assert(decode_utf8(encode_utf8(Seq::<char>::empty())) == Seq::<char>::empty());
        }
    }
    assert(name.take(stem.len() as int) =~= stem);
    assert(name.skip(stem.len() as int + 1) =~= extension);
    let head = program + "-"@;
    assert(head.last() == '-');
    assert forall|i: int| 0 <= i < number.len() implies (#[trigger] number[i]).code() != 45 by {
        assert(is_digit(number[i]));
    }
    lemma_last_part(head, number, 45);
    assert(text.skip(head.len() as int) =~= number);
    assert(is_digit(number[0]));
}

/// Where the part after the last symbol with the given number begins.
fn part_start<A: Symbol>(text: &[A], separator: u8) -> (start: usize)
    ensures
        start == after_last(text@, separator as int),
{
    let mut start: usize = text.len();
    assert(text@.take(start as int) =~= text@);
    while start > 0 && !text[start - 1].is(separator)
        invariant
            start <= text@.len(),
            after_last(text@, separator as int) == after_last(
                text@.take(start as int),
                separator as int,
            ),
        decreases start,
    {
        assert(text@.take(start as int).drop_last() =~= text@.take(start - 1));
        start = start - 1;
    }
    start
}

pub fn rust_profile_pid(path: &[u8]) -> (pid: Option<i32>)
    ensures
        pid == profile_pid(path@),
{
    let name = match bytes_file_name(path) {
        Some(name) => name,
        None => {
            return None;
        },
    };
    let start: usize = part_start(name.as_slice(), 46);
    proof {
        lemma_after_last(name@, 46);
    }
    if start <= 1 {
        return None;
    }
    let extension = copy_range(name.as_slice(), start, name.len());
    assert(extension@ =~= name@.skip(start as int));
    if !same_bytes(extension.as_slice(), RUST_PROFILE_EXTENSION.as_bytes()) {
        return None;
    }
    let stem = copy_range(name.as_slice(), 0, start - 1);
    assert(stem@ =~= name@.take(start - 1));
    let stem = match from_utf8(stem) {
        Some(stem) => characters(stem.as_str()),
        None => {
            return None;
        },
    };
    let digits: usize = part_start(stem.as_slice(), 45);
    proof {
        lemma_after_last(stem@, 45);
        assert(stem@.skip(digits as int) =~= stem@.subrange(digits as int, stem@.len() as int));
    }
    if digits == 0 {
        return None;
    }
    parse_i32(stem.as_slice(), digits, stem.len())
}

/// Whether an argument makes rustc print something and compile nothing.
pub open spec fn informs(argument: Seq<u8>) -> bool {
    ||| argument == encode_utf8("--version"@)
    ||| argument == encode_utf8("-V"@)
    ||| argument == encode_utf8("-vV"@)
    ||| argument == encode_utf8("--print"@)
    ||| encode_utf8("--print="@).is_prefix_of(argument)
}

pub fn is_rust_information_argument(argument: &[u8]) -> (found: bool)
    ensures
        found == informs(argument@),
{
    same_bytes(argument, "--version".as_bytes()) || same_bytes(argument, "-V".as_bytes())
        || same_bytes(argument, "-vV".as_bytes()) || same_bytes(argument, "--print".as_bytes())
        || bytes_start_with(argument, "--print=".as_bytes())
}

/// Whether an argument keeps Clang from linking.
pub open spec fn stops_early(argument: Seq<u8>) -> bool {
    ||| argument == encode_utf8("-c"@)
    ||| argument == encode_utf8("-S"@)
    ||| argument == encode_utf8("-E"@)
    ||| argument == encode_utf8("-M"@)
    ||| argument == encode_utf8("-MM"@)
    ||| argument == encode_utf8("-fsyntax-only"@)
    ||| argument == encode_utf8("-cc1"@)
}

/// Whether a run of Clang links.
pub open spec fn links(arguments: Seq<Seq<u8>>) -> bool {
    forall|i: int| 0 <= i < arguments.len() ==> !stops_early(#[trigger] arguments[i])
}

pub fn clang_invocation_links(arguments: &[Vec<u8>]) -> (linking: bool)
    ensures
        linking == links(contents(arguments@)),
{
    let ghost all = contents(arguments@);
    for i in 0..arguments.len()
        invariant
            all == contents(arguments@),
            forall|j: int| 0 <= j < i ==> !stops_early(#[trigger] all[j]),
    {
        let argument = arguments[i].as_slice();
        assert(all[i as int] == argument@);
        if same_bytes(argument, "-c".as_bytes()) || same_bytes(argument, "-S".as_bytes())
            || same_bytes(argument, "-E".as_bytes()) || same_bytes(argument, "-M".as_bytes())
            || same_bytes(argument, "-MM".as_bytes()) || same_bytes(
            argument,
            "-fsyntax-only".as_bytes(),
        ) || same_bytes(argument, "-cc1".as_bytes()) {
            assert(stops_early(all[i as int]));
            return false;
        }
    }
    true
}

/// The linker that an argument selects.
pub open spec fn selected_linker(argument: Seq<u8>) -> Option<Seq<u8>> {
    let fuse = encode_utf8("-fuse-ld="@);
    let path = encode_utf8("--ld-path="@);
    if fuse.is_prefix_of(argument) {
        Some(argument.skip(fuse.len() as int))
    } else if path.is_prefix_of(argument) {
        Some(argument.skip(path.len() as int))
    } else {
        None
    }
}

/// Whether an argument selects LLD.
pub open spec fn selects_lld(argument: Seq<u8>) -> bool {
    argument == encode_utf8("-fuse-ld=lld"@) || match selected_linker(argument) {
        Some(linker) => file_name(linker) == Some(encode_utf8("ld.lld"@)),
        None => false,
    }
}

/// Whether a run of Clang selects LLD.
pub open spec fn uses_lld(arguments: Seq<Seq<u8>>) -> bool {
    exists|i: int| 0 <= i < arguments.len() && selects_lld(#[trigger] arguments[i])
}

fn argument_selects_lld(argument: &[u8]) -> (found: bool)
    ensures
        found == selects_lld(argument@),
{
    if same_bytes(argument, "-fuse-ld=lld".as_bytes()) {
        return true;
    }
    let fuse = "-fuse-ld=".as_bytes();
    let path = "--ld-path=".as_bytes();
    let skipped: usize = if bytes_start_with(argument, fuse) {
        fuse.len()
    } else if bytes_start_with(argument, path) {
        path.len()
    } else {
        return false;
    };
    let linker = copy_range(argument, skipped, argument.len());
    assert(linker@ =~= argument@.skip(skipped as int));
    match bytes_file_name(linker.as_slice()) {
        Some(name) => same_bytes(name.as_slice(), "ld.lld".as_bytes()),
        None => false,
    }
}

pub fn clang_invocation_uses_lld(arguments: &[Vec<u8>]) -> (found: bool)
    ensures
        found == uses_lld(contents(arguments@)),
{
    let ghost all = contents(arguments@);
    for i in 0..arguments.len()
        invariant
            all == contents(arguments@),
            forall|j: int| 0 <= j < i ==> !selects_lld(#[trigger] all[j]),
    {
        assert(all[i as int] == arguments@[i as int]@);
        if argument_selects_lld(arguments[i].as_slice()) {
            return true;
        }
    }
    false
}

/// What a wrapper finds in its environment.
pub struct WrapperEnvironment {
    pub profile_dir: Option<Vec<u8>>,
    pub real_rust_wrapper: Option<Vec<u8>>,
    pub real_clang: Option<Vec<u8>>,
    pub real_clangxx: Option<Vec<u8>>,
}

/// A command to run in place of a wrapper.
pub struct WrappedCommand {
    pub program: Vec<u8>,
    pub arguments: Vec<Vec<u8>>,
}

#[verifier::ext_equal]
pub struct WrappedCommandView {
    pub program: Seq<u8>,
    pub arguments: Seq<Seq<u8>>,
}

impl View for WrappedCommand {
    type V = WrappedCommandView;

    open spec fn view(&self) -> WrappedCommandView {
        WrappedCommandView { program: self.program@, arguments: contents(self.arguments@) }
    }
}

/// An option that names a file, as far as its path can be written.
pub open spec fn path_option(option: Seq<char>, path: Seq<u8>) -> Seq<u8> {
    encode_utf8(option + decoded(path))
}

/// How rustc is run: through another wrapper if there was one, and with
/// self-profiling unless it only prints something.
pub open spec fn rust_command(
    arguments: Seq<Seq<u8>>,
    profile_dir: Seq<u8>,
    wrapper: Option<Seq<u8>>,
) -> Option<WrappedCommandView> {
    if arguments.len() == 0 {
        None
    } else {
        let rest = arguments.skip(1);
        let profile = if exists|i: int| 0 <= i < rest.len() && informs(#[trigger] rest[i]) {
            seq![]
        } else {
            seq![
                path_option("-Zself-profile="@, profile_dir),
                encode_utf8("-Zself-profile-events=generic-activity"@),
            ]
        };
        Some(
            match wrapper {
                Some(wrapper) => WrappedCommandView {
                    program: wrapper,
                    arguments: seq![arguments[0]] + rest + profile,
                },
                None => WrappedCommandView { program: arguments[0], arguments: rest + profile },
            },
        )
    }
}

/// How Clang is run: with a time trace, and one of LLD if that links.
pub open spec fn clang_command(
    clang: Seq<u8>,
    arguments: Seq<Seq<u8>>,
    profile_dir: Seq<u8>,
    pid: u32,
) -> WrappedCommandView {
    WrappedCommandView {
        program: clang,
        arguments: arguments + seq![
            path_option(
                "-ftime-trace="@,
                join_bytes(profile_dir, encode_utf8(trace_file(CLANG_TRACE_PREFIX@, pid))),
            ),
        ] + if links(arguments) && uses_lld(arguments) {
            seq![
                path_option(
                    "-Wl,--time-trace="@,
                    join_bytes(profile_dir, encode_utf8(trace_file(LLD_TRACE_PREFIX@, pid))),
                ),
            ]
        } else {
            seq![]
        },
    }
}

/// What a process invoked under a wrapper's name runs; `None` if it was not,
/// or lacks what a wrapper needs.
pub open spec fn wrapped(
    invoked_as: Seq<u8>,
    arguments: Seq<Seq<u8>>,
    environment: WrapperEnvironment,
    pid: u32,
) -> Option<WrappedCommandView> {
    let kind = file_name(invoked_as);
    match bytes_of(environment.profile_dir) {
        None => None,
        Some(profile_dir) => if kind == Some(encode_utf8(RUST_WRAPPER_KIND@)) {
            rust_command(arguments, profile_dir, bytes_of(environment.real_rust_wrapper))
        } else if kind == Some(encode_utf8(CLANG_WRAPPER_KIND@)) {
            match bytes_of(environment.real_clang) {
                Some(clang) => Some(clang_command(clang, arguments, profile_dir, pid)),
                None => None,
            }
        } else if kind == Some(encode_utf8(CLANGXX_WRAPPER_KIND@)) {
            match bytes_of(environment.real_clangxx) {
                Some(clang) => Some(clang_command(clang, arguments, profile_dir, pid)),
                None => None,
            }
        } else {
            None
        },
    }
}

/// A compiler behind a wrapper sees every argument it was given, in order,
/// with options of the wrapper's own only after them, and another wrapper
/// around rustc stays in the chain.
pub proof fn lemma_arguments_kept(
    invoked_as: Seq<u8>,
    arguments: Seq<Seq<u8>>,
    environment: WrapperEnvironment,
    pid: u32,
)
    ensures
        wrapped(invoked_as, arguments, environment, pid) matches Some(command) ==> {
            if file_name(invoked_as) == Some(encode_utf8(RUST_WRAPPER_KIND@)) {
                match bytes_of(environment.real_rust_wrapper) {
                    Some(wrapper) => command.program == wrapper && arguments.is_prefix_of(
                        command.arguments,
                    ),
                    None => command.program == arguments[0] && arguments.skip(1).is_prefix_of(
                        command.arguments,
                    ),
                }
            } else {
                &&& arguments.is_prefix_of(command.arguments)
                &&& Some(command.program) == bytes_of(environment.real_clang)
                    || Some(command.program) == bytes_of(environment.real_clangxx)
            }
        },
{
    if let Some(command) = wrapped(invoked_as, arguments, environment, pid) {
        if file_name(invoked_as) == Some(encode_utf8(RUST_WRAPPER_KIND@)) {
            let rest = arguments.skip(1);
            assert(seq![arguments[0]] + rest =~= arguments);
            if bytes_of(environment.real_rust_wrapper) is Some {
                assert(arguments =~= command.arguments.subrange(0, arguments.len() as int));
            } else {
                assert(rest =~= command.arguments.subrange(0, rest.len() as int));
            }
        } else {
            assert(arguments =~= command.arguments.subrange(0, arguments.len() as int));
        }
    }
}

fn option_with_path(option: &str, path: &[u8]) -> (argument: Vec<u8>)
    ensures
        argument@ == path_option(option@, path@),
{
    let mut text = option.to_owned();
    text.append(from_utf8_lossy(path).as_str());
    copy_bytes(text.as_str().as_bytes())
}

/// Adds copies of some arguments, from the given one on.
fn push_arguments(target: &mut Vec<Vec<u8>>, arguments: &[Vec<u8>], from: usize)
    requires
        from <= arguments@.len(),
    ensures
        contents(final(target)@) == contents(old(target)@) + contents(arguments@).skip(
            from as int,
        ),
{
    let ghost before = contents(target@);
    let ghost all = contents(arguments@);
    for i in from..arguments.len()
        invariant
            all == contents(arguments@),
            contents(target@) =~= before + all.subrange(from as int, i as int),
    {
        let copy = copy_bytes(arguments[i].as_slice());
        let ghost so_far = contents(target@);
        assert(all[i as int] == copy@);
        target.push(copy);
        assert(contents(target@) =~= so_far.push(copy@));
    }
    assert(all.skip(from as int) =~= all.subrange(from as int, all.len() as int));
}

fn push_argument(target: &mut Vec<Vec<u8>>, argument: Vec<u8>)
    ensures
        contents(final(target)@) == contents(old(target)@).push(argument@),
{
    target.push(argument);
    assert(contents(target@) =~= contents(old(target)@).push(argument@));
}

/// What a command that may be missing is.
pub open spec fn command_view(command: Option<WrappedCommand>) -> Option<WrappedCommandView> {
    match command {
        Some(command) => Some(command@),
        None => None,
    }
}

fn wrap_rust(arguments: &[Vec<u8>], profile_dir: &[u8], wrapper: &Option<Vec<u8>>) -> (command:
    Option<WrappedCommand>)
    ensures
        command_view(command) == rust_command(
            contents(arguments@),
            profile_dir@,
            bytes_of(*wrapper),
        ),
{
    if arguments.len() == 0 {
        return None;
    }
    let ghost all = contents(arguments@);
    let ghost rest = all.skip(1);
    let mut informing = false;
    for i in 1..arguments.len()
        invariant
            all == contents(arguments@),
            rest == all.skip(1),
            informing == exists|j: int| 0 <= j < i - 1 && informs(#[trigger] rest[j]),
    {
        assert(rest[i - 1] == arguments@[i as int]@);
        if is_rust_information_argument(arguments[i].as_slice()) {
            informing = true;
        }
    }
    let rustc = copy_bytes(arguments[0].as_slice());
    assert(all[0] == rustc@);
    let mut added: Vec<Vec<u8>> = Vec::new();
    assert(contents(added@) =~= Seq::<Seq<u8>>::empty());
    let program = match wrapper {
        Some(wrapper) => {
            push_argument(&mut added, rustc);
            copy_bytes(wrapper.as_slice())
        },
        None => rustc,
    };
    push_arguments(&mut added, arguments, 1);
    if !informing {
        push_argument(&mut added, option_with_path("-Zself-profile=", profile_dir));
        push_argument(
            &mut added,
            copy_bytes("-Zself-profile-events=generic-activity".as_bytes()),
        );
    }
    let command = WrappedCommand { program, arguments: added };
    assert(command@ =~= rust_command(all, profile_dir@, bytes_of(*wrapper))->0);
    Some(command)
}

fn wrap_clang(clang: &[u8], arguments: &[Vec<u8>], profile_dir: &[u8], pid: u32) -> (command:
    WrappedCommand)
    ensures
        command@ == clang_command(clang@, contents(arguments@), profile_dir@, pid),
{
    let ghost all = contents(arguments@);
    let trace_lld = clang_invocation_links(arguments) && clang_invocation_uses_lld(arguments);
    let mut added: Vec<Vec<u8>> = Vec::new();
    assert(contents(added@) =~= Seq::<Seq<u8>>::empty());
    push_arguments(&mut added, arguments, 0);
    assert(all.skip(0) =~= all);
    let name = trace_file_name(CLANG_TRACE_PREFIX, pid);
    let output = join_path_bytes(profile_dir, name.as_str().as_bytes());
    push_argument(&mut added, option_with_path("-ftime-trace=", output.as_slice()));
    if trace_lld {
        let name = trace_file_name(LLD_TRACE_PREFIX, pid);
        let output = join_path_bytes(profile_dir, name.as_str().as_bytes());
        push_argument(&mut added, option_with_path("-Wl,--time-trace=", output.as_slice()));
    }
    let command = WrappedCommand { program: copy_bytes(clang), arguments: added };
    assert(command@ =~= clang_command(clang@, all, profile_dir@, pid));
    command
}

/// What to run when this process was invoked under a wrapper's name, with the
/// arguments that follow the name.
pub fn run_wrapper(
    invoked_as: &[u8],
    arguments: &[Vec<u8>],
    environment: &WrapperEnvironment,
    pid: u32,
) -> (command: Option<WrappedCommand>)
    ensures
        command_view(command) == wrapped(
            invoked_as@,
            contents(arguments@),
            *environment,
            pid,
        ),
{
    let kind = match bytes_file_name(invoked_as) {
        Some(kind) => kind,
        None => {
            return None;
        },
    };
    let profile_dir = match &environment.profile_dir {
        Some(profile_dir) => profile_dir,
        None => {
            return None;
        },
    };
    if same_bytes(kind.as_slice(), RUST_WRAPPER_KIND.as_bytes()) {
        return wrap_rust(arguments, profile_dir.as_slice(), &environment.real_rust_wrapper);
    }
    let clang = if same_bytes(kind.as_slice(), CLANG_WRAPPER_KIND.as_bytes()) {
        &environment.real_clang
    } else if same_bytes(kind.as_slice(), CLANGXX_WRAPPER_KIND.as_bytes()) {
        &environment.real_clangxx
    } else {
        return None;
    };
    match clang {
        Some(clang) => Some(
            wrap_clang(clang.as_slice(), arguments, profile_dir.as_slice(), pid),
        ),
        None => None,
    }
}

/// Whether the version that rustc gives is one that can profile itself.
pub open spec fn can_profile(version: Seq<char>) -> bool {
    holds_text(version, "nightly"@) || holds_text(version, "-dev"@)
}

/// Whether rustc's version is one that can profile itself.
pub fn is_nightly(version: &[u8]) -> (nightly: bool)
    ensures
        nightly == can_profile(decoded(version@)),
{
    let text = from_utf8_lossy(version);
    contains_text(text.as_str(), "nightly") || contains_text(text.as_str(), "-dev")
}

/// Where a wrapper stands.
pub fn wrapper_path(directory: &[u8], name: &str) -> (path: Vec<u8>)
    ensures
        path@ == join_bytes(
            join_bytes(directory@, encode_utf8(WRAPPER_DIRECTORY_NAME@)),
            encode_utf8(name@),
        ),
{
    let shims = join_path_bytes(directory, WRAPPER_DIRECTORY_NAME.as_bytes());
    join_path_bytes(shims.as_slice(), name.as_bytes())
}

/// A search path with the directory of the wrappers in front.
pub open spec fn behind_shims(shims: Seq<u8>, path: Seq<u8>) -> Seq<u8> {
    shims + encode_utf8(":"@) + path
}

/// A search path that begins with the directory of the wrappers.
pub fn shimmed_path(shims: &[u8], path: &[u8]) -> (longer: Vec<u8>)
    ensures
        longer@ == behind_shims(shims@, path@),
{
    let mut longer = copy_bytes(shims);
    longer.extend_from_slice(":".as_bytes());
    let ghost start = longer@;
    longer.extend_from_slice(path);
    assert(start =~= shims@ + encode_utf8(":"@));
    assert(longer@ =~= start + path@);
    longer
}

/// Where a program may stand, for a search path.
pub open spec fn candidates(path: Seq<u8>, program: Seq<u8>) -> Seq<Seq<u8>> {
    split(path, 58).map_values(|directory: Seq<u8>| join_bytes(directory, program))
}

/// Where to look for a program, in order; the first that is a file is it.
pub fn find_on_path(path: &[u8], program: &str) -> (found: Vec<Vec<u8>>)
    ensures
        contents(found@) == candidates(path@, encode_utf8(program@)),
{
    let ranges = split_ranges(path, 58);
    let mut found: Vec<Vec<u8>> = Vec::new();
    let ghost wanted = candidates(path@, encode_utf8(program@));
    for i in 0..ranges.len()
        invariant
            ranges_of(path@, ranges@) == split(path@, 58),
            wanted == candidates(path@, encode_utf8(program@)),
            forall|j: int|
                0 <= j < ranges@.len() ==> (#[trigger] ranges@[j]).0 <= ranges@[j].1
                    <= path@.len(),
            contents(found@) =~= wanted.take(i as int),
    {
        let (start, end) = ranges[i];
        proof {
            let range = ranges@[i as int];
            assert(ranges_of(path@, ranges@)[i as int] == path@.subrange(
                start as int,
                end as int,
            ));
            assert(wanted.len() == ranges@.len());
        }
        let directory = copy_range(path, start, end);
        let candidate = join_path_bytes(directory.as_slice(), program.as_bytes());
        assert(wanted[i as int] == candidate@);
        push_argument(&mut found, candidate);
    }
    assert(wanted.take(ranges@.len() as int) =~= wanted) by {
        assert(ranges_of(path@, ranges@).len() == ranges@.len());
    }
    found
}

} // verus!
