//! The kernel trace facility, which reports every process and file event on the
//! machine as compact binary records.
//!
//! Configuring it needs root, but the kernel grants further access to the
//! process that owns the session, so the recorder sets the session up and then
//! drops privileges for the rest of the recording.
//!
//! The interface is private to Apple: `sysctl(KERN_KDEBUG, …)`, as used by
//! `fs_usage(1)` and `ktrace(1)`. It can change between releases. What to ask
//! of it and what its answers mean is decided here; the calls themselves are
//! made by whoever holds the session.

use crate::text::{copy_range, from_utf8_lossy, nul_position, split_ranges};
#[allow(unused_imports)]
use crate::text::{before_nul, decoded, ranges_of, split, views};
use vstd::prelude::*;

pub mod laws;

verus! {

pub const CTL_KERN: i32 = 1;

pub const KERN_KDEBUG: i32 = 24;

pub const KERN_PROCARGS2: i32 = 49;

pub const KERN_KDENABLE: i32 = 3;

pub const KERN_KDSETBUF: i32 = 4;

pub const KERN_KDSETUP: i32 = 6;

pub const KERN_KDREMOVE: i32 = 7;

pub const KERN_KDREADTR: i32 = 10;

pub const KERN_KDTHRMAP: i32 = 12;

pub const KERN_KDSET_TYPEFILTER: i32 = 22;

pub const KERN_KDBUFWAIT: i32 = 23;

pub const KDEBUG_ENABLE_TRACE: i32 = 1;

pub const TYPEFILTER_BYTES: usize = 8192;

/// Events the kernel writes per read, sized so a read covers a few
/// milliseconds of even a very parallel build.
pub const READ_EVENTS: usize = 131072;

pub const EVENT_BYTES: usize = 64;

pub const THREAD_MAP_BYTES: usize = 2097152;

const THREAD_ENTRY_BYTES: usize = 32;

pub const EPERM: i32 = 1;

pub const EBUSY: i32 = 16;

/// One kernel trace record.
#[derive(Clone, Copy, Debug, PartialEq)]
pub struct Event {
    /// `mach_absolute_time()` when the event happened.
    pub timestamp: u64,
    pub args: [u64; 4],
    pub thread: u64,
    pub debugid: u32,
}

impl Event {
    /// The event kind, without the start/end bits.
    pub open spec fn kind(&self) -> u32 {
        (self.debugid / 4 * 4) as u32
    }

    pub open spec fn starts(&self) -> bool {
        self.debugid % 2 == 1
    }

    pub open spec fn ends(&self) -> bool {
        (self.debugid / 2) % 2 == 1
    }

    pub fn code(&self) -> (code: u32)
        ensures
            code == self.kind(),
    {
        let debugid: u32 = self.debugid;
        assert(debugid & !3u32 == debugid / 4 * 4) by (bit_vector);
        debugid & !3u32
    }

    pub fn is_start(&self) -> (start: bool)
        ensures
            start == self.starts(),
    {
        let debugid: u32 = self.debugid;
        assert(debugid & 1 == debugid % 2) by (bit_vector);
        debugid & 1 != 0
    }

    pub fn is_end(&self) -> (end: bool)
        ensures
            end == self.ends(),
    {
        let debugid: u32 = self.debugid;
        assert((debugid & 2 != 0) == ((debugid / 2) % 2 == 1)) by (bit_vector);
        debugid & 2 != 0
    }
}

/// Four bytes as a number, least significant first.
pub open spec fn half_at(bytes: Seq<u8>, at: int) -> u32 {
    (bytes[at] + 0x100 * bytes[at + 1] + 0x1_0000 * bytes[at + 2] + 0x100_0000 * bytes[at
        + 3]) as u32
}

/// Eight bytes as a number, least significant first.
pub open spec fn word_at(bytes: Seq<u8>, at: int) -> u64 {
    (half_at(bytes, at) + 0x1_0000_0000 * half_at(bytes, at + 4)) as u64
}

/// A number as the signed one that its bits stand for.
pub open spec fn signed_half(value: u32) -> i32 {
    if value < 0x8000_0000 {
        value as i32
    } else {
        (value - 0x1_0000_0000) as i32
    }
}

fn half(bytes: &[u8], at: usize) -> (value: u32)
    requires
        at + 4 <= bytes@.len(),
    ensures
        value == half_at(bytes@, at as int),
{
    bytes[at] as u32 + 0x100 * bytes[at + 1] as u32 + 0x1_0000 * bytes[at + 2] as u32 + 0x100_0000
        * bytes[at + 3] as u32
}

fn word(bytes: &[u8], at: usize) -> (value: u64)
    requires
        at + 8 <= bytes@.len(),
    ensures
        value == word_at(bytes@, at as int),
{
    assert(at + 8 <= bytes.len());
    half(bytes, at) as u64 + 0x1_0000_0000 * half(bytes, at + 4) as u64
}

fn signed(value: u32) -> (number: i32)
    ensures
        number == signed_half(value),
{
    if value < 0x8000_0000 {
        value as i32
    } else {
        (value as i64 - 0x1_0000_0000) as i32
    }
}

/// The event that a record holds.
pub open spec fn event_at(bytes: Seq<u8>, at: int) -> Event {
    Event {
        timestamp: word_at(bytes, at),
        args: [
            word_at(bytes, at + 8),
            word_at(bytes, at + 16),
            word_at(bytes, at + 24),
            word_at(bytes, at + 32),
        ],
        thread: word_at(bytes, at + 40),
        debugid: half_at(bytes, at + 48),
    }
}

fn decode_at(bytes: &[u8], at: usize) -> (event: Event)
    requires
        at + 64 <= bytes@.len(),
    ensures
        event == event_at(bytes@, at as int),
{
    assert(at + 64 <= bytes.len());
    Event {
        timestamp: word(bytes, at),
        args: [word(bytes, at + 8), word(bytes, at + 16), word(bytes, at + 24), word(bytes, at + 32)],
        thread: word(bytes, at + 40),
        debugid: half(bytes, at + 48),
    }
}

pub fn decode(record: &[u8; EVENT_BYTES]) -> (event: Event)
    ensures
        event == event_at(record@, 0),
{
    decode_at(record.as_slice(), 0)
}

/// What becomes of a session when a step of setting it up fails.
#[derive(Clone, Copy, Debug, PartialEq, Eq, Structural)]
pub enum OnFailure {
    /// The next step is taken.
    Ignore,
    /// There is no session.
    Fail,
    /// There is no session, and what was set up is taken down.
    TearDown,
}

/// One request to the trace facility.
#[derive(Debug)]
pub struct Step {
    pub op: i32,
    pub value: Option<i32>,
    /// What to hand over along with the request.
    pub filter: Option<Vec<u8>>,
    pub on_failure: OnFailure,
}

#[verifier::ext_equal]
pub struct StepView {
    pub op: i32,
    pub value: Option<i32>,
    pub filter: Option<Seq<u8>>,
    pub on_failure: OnFailure,
}

impl View for Step {
    type V = StepView;

    open spec fn view(&self) -> StepView {
        StepView {
            op: self.op,
            value: self.value,
            filter: match self.filter {
                Some(filter) => Some(filter@),
                None => None,
            },
            on_failure: self.on_failure,
        }
    }
}

pub open spec fn step_views(steps: Seq<Step>) -> Seq<StepView> {
    steps.map_values(|step: Step| step@)
}

fn step(op: i32, value: Option<i32>, on_failure: OnFailure) -> (step: Step)
    ensures
        step@ == plain_step(op, value, on_failure),
{
    Step { op, value, filter: None, on_failure }
}

pub open spec fn plain_step(op: i32, value: Option<i32>, on_failure: OnFailure) -> StepView {
    StepView { op, value, filter: None, on_failure }
}

/// Subclasses the recorder subscribes to. Class 7 (`DBG_TRACE`, process
/// lifecycle) is always enabled by the kernel.
pub open spec fn subscriptions() -> Seq<(u16, u16)> {
    seq![
        // BSD process: proc_exit, with its wait status
        (0x04, 0x01),
        // BSD syscalls: the open, rename, chdir and fd family
        (0x04, 0x0c),
        // File system: VFS_LOOKUP path records
        (0x03, 0x01),
    ]
}

/// Whether a bit of a type filter is set.
pub open spec fn bit_set(filter: Seq<u8>, bit: int) -> bool {
    (filter[bit / 8] >> ((bit % 8) as u8)) & 1 == 1u8
}

/// Whether one of some subclasses has the given bit in a type filter.
pub open spec fn subscribed(subclasses: Seq<(u16, u16)>, bit: int) -> bool {
    exists|i: int|
        0 <= i < subclasses.len() && (#[trigger] subclasses[i]).0 * 256 + subclasses[i].1 == bit
}

/// Whether a type filter lets through exactly what is subscribed to.
pub open spec fn exact_filter(filter: Seq<u8>) -> bool {
    &&& filter.len() == TYPEFILTER_BYTES
    &&& forall|bit: int|
        0 <= bit < 8 * TYPEFILTER_BYTES ==> (#[trigger] bit_set(filter, bit) <==> subscribed(
            subscriptions(),
            bit,
        ))
}

proof fn lemma_set_bit(byte: u8, at: u8, other: u8)
    requires
        at < 8,
        other < 8,
    ensures
        ((byte | (1u8 << at)) >> other) & 1 == 1u8 <==> (at == other || (byte >> other) & 1
            == 1u8),
{
    assert(((byte | (1u8 << at)) >> other) & 1 == 1u8 <==> (at == other || (byte >> other) & 1
        == 1u8)) by (bit_vector)
        requires
            at < 8,
            other < 8,
    ;
}

fn type_filter() -> (filter: Vec<u8>)
    ensures
        exact_filter(filter@),
{
    let mut filter: Vec<u8> = Vec::new();
    filter.resize(TYPEFILTER_BYTES, 0);
    let subclasses: [(u16, u16); 3] = [(0x04, 0x01), (0x04, 0x0c), (0x03, 0x01)];
    proof {
        assert forall|bit: int| 0 <= bit < 8 * TYPEFILTER_BYTES implies !#[trigger] bit_set(
            filter@,
            bit,
        ) by {
            let shift = (bit % 8) as u8;
            assert((0u8 >> shift) & 1 == 0u8) by (bit_vector);
        }
        assert(subclasses@ =~= subscriptions());
    }
    for i in 0..3usize
        invariant
            filter@.len() == TYPEFILTER_BYTES,
            subclasses@ == subscriptions(),
            forall|bit: int|
                0 <= bit < 8 * TYPEFILTER_BYTES ==> (#[trigger] bit_set(filter@, bit)
                    <==> subscribed(subclasses@.take(i as int), bit)),
    {
        let (class, subclass) = subclasses[i];
        assert(class < 256 && subclass < 256);
        let bit: usize = class as usize * 256 + subclass as usize;
        let at: u8 = (bit % 8) as u8;
        let ghost before = filter@;
        let byte: u8 = filter[bit / 8];
        filter.set(bit / 8, byte | (1u8 << at));
        proof {
            let done = subclasses@.take(i as int);
            let more = subclasses@.take(i + 1);
            assert(more =~= done.push((class, subclass)));
            assert forall|other: int| 0 <= other < 8 * TYPEFILTER_BYTES implies (#[trigger] bit_set(
                filter@,
                other,
            ) <==> subscribed(more, other)) by {
                if other / 8 == bit / 8 {
                    lemma_set_bit(byte, at, (other % 8) as u8);
                }
                assert(bit_set(filter@, other) <==> (other == bit || bit_set(before, other)));
                if subscribed(done, other) {
                    let j = choose|j: int|
                        0 <= j < done.len() && (#[trigger] done[j]).0 * 256 + done[j].1 == other;
                    assert(more[j] == done[j]);
                }
                if subscribed(more, other) && other != bit {
                    let j = choose|j: int|
                        0 <= j < more.len() && (#[trigger] more[j]).0 * 256 + more[j].1 == other;
                    assert(done[j] == more[j]);
                }
                if other == bit {
                    assert(more[i as int] == (class, subclass));
                }
            }
        }
    }
    assert(subclasses@.take(3) =~= subscriptions());
    filter
}

/// An enabled trace session, with room for what it reads.
pub struct Session {
    pub buffer: Vec<u8>,
}

impl Session {
    /// What configures and enables tracing, step by step. The steps must be
    /// taken as root; afterwards the recorder may drop privileges and keep
    /// reading.
    pub fn start(buffer_events: usize) -> (started: (Self, Vec<Step>))
        ensures
            started.0.buffer@ == Seq::new((READ_EVENTS * EVENT_BYTES) as nat, |i: int| 0u8),
            ({
                let steps = step_views(started.1@);
                &&& steps.len() == 6
                // Take over any session left behind by an earlier run.
                &&& steps[0] == plain_step(KERN_KDENABLE, Some(0), OnFailure::Ignore)
                &&& steps[1] == plain_step(KERN_KDREMOVE, None, OnFailure::Ignore)
                &&& steps[2] == plain_step(
                    KERN_KDSETBUF,
                    Some(buffer_events as i32),
                    OnFailure::Fail,
                )
                &&& steps[3] == plain_step(KERN_KDSETUP, None, OnFailure::Fail)
                &&& steps[4].op == KERN_KDSET_TYPEFILTER
                &&& steps[4].value is None
                &&& steps[4].filter is Some && exact_filter(steps[4].filter->0)
                &&& steps[4].on_failure == OnFailure::TearDown
                &&& steps[5] == plain_step(
                    KERN_KDENABLE,
                    Some(KDEBUG_ENABLE_TRACE),
                    OnFailure::TearDown,
                )
                &&& steps[0].op == 3 && steps[0].value == Some(0i32)
                &&& steps[1].op == 7 && steps[2].op == 4 && steps[3].op == 6 && steps[4].op == 22
                &&& steps[5].op == 3 && steps[5].value == Some(1i32)
            }),
    {
        let mut steps: Vec<Step> = Vec::new();
        steps.push(step(KERN_KDENABLE, Some(0), OnFailure::Ignore));
        steps.push(step(KERN_KDREMOVE, None, OnFailure::Ignore));
        let events: i32 = #[verifier::truncate] (buffer_events as i32);
        steps.push(step(KERN_KDSETBUF, Some(events), OnFailure::Fail));
        steps.push(step(KERN_KDSETUP, None, OnFailure::Fail));
        steps.push(
            Step {
                op: KERN_KDSET_TYPEFILTER,
                value: None,
                filter: Some(type_filter()),
                on_failure: OnFailure::TearDown,
            },
        );
        steps.push(step(KERN_KDENABLE, Some(KDEBUG_ENABLE_TRACE), OnFailure::TearDown));
        let mut buffer: Vec<u8> = Vec::new();
        buffer.resize(READ_EVENTS * EVENT_BYTES, 0);
        assert(buffer@ =~= Seq::new((READ_EVENTS * EVENT_BYTES) as nat, |i: int| 0u8));
        (Session { buffer }, steps)
    }

    /// What stops tracing and frees the buffers; failures are ignored.
    pub fn stop() -> (steps: Vec<Step>)
        ensures
            step_views(steps@) == seq![
                plain_step(KERN_KDENABLE, Some(0), OnFailure::Ignore),
                plain_step(KERN_KDREMOVE, None, OnFailure::Ignore),
            ],
    {
        let mut steps: Vec<Step> = Vec::new();
        steps.push(step(KERN_KDENABLE, Some(0), OnFailure::Ignore));
        steps.push(step(KERN_KDREMOVE, None, OnFailure::Ignore));
        assert(step_views(steps@) =~= seq![
            plain_step(KERN_KDENABLE, Some(0), OnFailure::Ignore),
            plain_step(KERN_KDREMOVE, None, OnFailure::Ignore),
        ]);
        steps
    }

    /// Whether the kernel has a batch worth reading, by the length that
    /// waiting for one left behind.
    pub fn wait(&self, length: usize) -> (ready: bool)
        ensures
            ready == (length != 0),
    {
        length != 0
    }

    /// Threads that already existed when tracing started, as (thread, pid),
    /// from the `length` bytes that the kernel wrote to `map`.
    pub fn thread_map(&self, map: &[u8], length: usize) -> (threads: Vec<(u64, i32)>)
        ensures
            threads@ == threads_in(map@, length as nat),
    {
        let used: usize = if length < map.len() {
            length
        } else {
            map.len()
        };
        let count: usize = used / THREAD_ENTRY_BYTES;
        let mut threads: Vec<(u64, i32)> = Vec::new();
        for i in 0..count
            invariant
                count * 32 <= map@.len(),
                map@.len() <= usize::MAX,
                threads@ =~= Seq::new(
                    i as nat,
                    |i: int| (word_at(map@, 32 * i), signed_half(half_at(map@, 32 * i + 8))),
                ),
        {
            let at: usize = i * THREAD_ENTRY_BYTES;
            threads.push((word(map, at), signed(half(map, at + 8))));
        }
        threads
    }

    /// What the kernel had buffered, oldest first: the first `events` records
    /// of the buffer. The kernel returns a count of events, not of bytes.
    pub fn read(&self, events: usize) -> (read: Vec<Event>)
        ensures
            read@ == events_in(self.buffer@, events as nat),
    {
        let room: usize = self.buffer.len() / EVENT_BYTES;
        let count: usize = if events < room {
            events
        } else {
            room
        };
        let mut read: Vec<Event> = Vec::new();
        for i in 0..count
            invariant
                count * 64 <= self.buffer@.len(),
                self.buffer@.len() <= usize::MAX,
                read@ =~= Seq::new(i as nat, |i: int| event_at(self.buffer@, 64 * i)),
        {
            read.push(decode_at(self.buffer.as_slice(), i * EVENT_BYTES));
        }
        read
    }
}

/// The threads in the first `length` bytes of a thread map, with the process
/// of each.
pub open spec fn threads_in(map: Seq<u8>, length: nat) -> Seq<(u64, i32)> {
    Seq::new(
        (filled(map.len(), length) / 32) as nat,
        |i: int| (word_at(map, 32 * i), signed_half(half_at(map, 32 * i + 8))),
    )
}

/// The first `events` records of a buffer, as far as it goes.
pub open spec fn events_in(buffer: Seq<u8>, events: nat) -> Seq<Event> {
    Seq::new((filled(buffer.len(), events * 64) / 64) as nat, |i: int| event_at(buffer, 64 * i))
}

/// How much of a buffer holds what was written to it.
pub open spec fn filled(room: nat, written: nat) -> nat {
    if written < room {
        written
    } else {
        room
    }
}

/// What is known of a failure beyond its error number.
pub open spec fn explanation(errno: i32) -> Option<Seq<char>> {
    if errno == EBUSY {
        Some("another program is using the kernel trace facility (Instruments, ktrace, fs_usage or a system diagnostic); stop it and try again"@)
    } else if errno == EPERM {
        Some("the kernel trace facility needs root"@)
    } else {
        None
    }
}

/// Explains the failures people can do something about.
pub fn describe(errno: i32) -> (words: Option<&'static str>)
    ensures
        match words {
            Some(words) => explanation(errno) == Some(words@),
            None => explanation(errno) is None,
        },
{
    if errno == EBUSY {
        Some("another program is using the kernel trace facility (Instruments, ktrace, fs_usage or a system diagnostic); stop it and try again")
    } else if errno == EPERM {
        Some("the kernel trace facility needs root")
    } else {
        None
    }
}

/// Why a command line could not be had.
#[derive(Clone, Copy, Debug, PartialEq, Eq, Structural)]
pub enum CommandLineError {
    /// The kernel refused, with this error number.
    Refused { errno: i32 },
    /// The kernel returned less than a count of arguments.
    Short,
}

/// Bytes without the zero bytes they begin with.
pub open spec fn after_zeros(bytes: Seq<u8>) -> Seq<u8>
    decreases bytes.len(),
{
    if bytes.len() > 0 && bytes[0] == 0 {
        after_zeros(bytes.skip(1))
    } else {
        bytes
    }
}

/// The texts of some arguments.
pub open spec fn lossy(arguments: Seq<Seq<u8>>) -> Seq<Seq<char>> {
    arguments.map_values(|argument: Seq<u8>| decoded(argument))
}

/// How many arguments a process says it has.
pub open spec fn argument_count(data: Seq<u8>) -> int {
    if signed_half(half_at(data, 0)) < 0 {
        0
    } else {
        signed_half(half_at(data, 0)) as int
    }
}

/// The program in `[argc][executable path][padding][argv][envp]`.
pub open spec fn program_of(data: Seq<u8>) -> Seq<u8> {
    before_nul(data.skip(4))
}

/// The arguments in `[argc][executable path][padding][argv][envp]`.
pub open spec fn arguments_of(data: Seq<u8>) -> Seq<Seq<u8>> {
    let all = split(after_zeros(data.skip(4 + program_of(data).len() as int)), 0);
    if all.len() < argument_count(data) {
        all
    } else {
        all.take(argument_count(data))
    }
}

/// The command line of a running process, as `(executable, argv)`, from what
/// the kernel wrote to `buffer`: `read` is how much that was, or the error
/// number.
///
/// The kernel refuses with `EINVAL` while a process is still setting up its
/// new image after `exec`, and once it has exited, so callers retry briefly.
pub fn command_line(read: Result<usize, i32>, buffer: &[u8]) -> (line: Result<
    (String, Vec<String>),
    CommandLineError,
>)
    ensures
        match read {
            Err(errno) => line == Err::<(String, Vec<String>), CommandLineError>(
                CommandLineError::Refused { errno },
            ),
            Ok(length) => {
                let data = buffer@.take(filled(buffer@.len(), length as nat) as int);
                match line {
                    Err(error) => error == CommandLineError::Short && data.len() < 4,
                    Ok((executable, argv)) => {
                        &&& data.len() >= 4
                        &&& executable@ == decoded(program_of(data))
                        &&& views(argv@) == lossy(arguments_of(data))
                    },
                }
            },
        },
{
    let length: usize = match read {
        Ok(length) => length,
        Err(errno) => {
            return Err(CommandLineError::Refused { errno });
        },
    };
    let used: usize = if length < buffer.len() {
        length
    } else {
        buffer.len()
    };
    let ghost data = buffer@.take(used as int);
    if used < 4 {
        return Err(CommandLineError::Short);
    }
    let owned = copy_range(buffer, 0, used);
    assert(owned@ =~= data);
    let count: i32 = signed(half(owned.as_slice(), 0));
    let executable_end: usize = nul_position(owned.as_slice(), 4);
    let executable_bytes = copy_range(owned.as_slice(), 4, executable_end);
    let executable = from_utf8_lossy(executable_bytes.as_slice());
    let mut start: usize = executable_end;
    while start < used && owned[start] == 0
        invariant
            executable_end <= start <= used,
            used == owned@.len(),
            after_zeros(owned@.skip(executable_end as int)) == after_zeros(
                owned@.skip(start as int),
            ),
        decreases used - start,
    {
        assert(owned@.skip(start as int).skip(1) =~= owned@.skip(start + 1));
        start = start + 1;
    }
    let rest = copy_range(owned.as_slice(), start, used);
    assert(rest@ =~= after_zeros(data.skip(4 + program_of(data).len() as int))) by {
        assert(rest@ =~= owned@.skip(start as int));
    }
    let ranges = split_ranges(rest.as_slice(), 0);
    let wanted: usize = if count < 0 {
        0
    } else if (ranges.len() as u128) < count as u128 {
        ranges.len()
    } else {
        count as usize
    };
    let mut argv: Vec<String> = Vec::new();
    let ghost all = split(rest@, 0);
    assert(wanted == if all.len() < argument_count(data) {
        all.len() as int
    } else {
        argument_count(data)
    });
    for i in 0..wanted
        invariant
            wanted <= ranges@.len(),
            all == ranges_of(rest@, ranges@),
            forall|j: int|
                0 <= j < ranges@.len() ==> (#[trigger] ranges@[j]).0 <= ranges@[j].1
                    <= rest@.len(),
            views(argv@) =~= lossy(all.take(i as int)),
    {
        let (from, to) = ranges[i];
        assert(all[i as int] == rest@.subrange(from as int, to as int)) by {
            let range = ranges@[i as int];
        }
        let argument = copy_range(rest.as_slice(), from, to);
        let text = from_utf8_lossy(argument.as_slice());
        let ghost before = views(argv@);
        argv.push(text);
        assert(views(argv@) =~= before.push(text@));
    }
    assert(all.take(all.len() as int) =~= all);
    Ok((executable, argv))
}

/// Nanoseconds since the epoch.
pub open spec fn since_epoch(seconds: u64, microseconds: u32) -> int {
    seconds * 1_000_000_000 + microseconds * 1000
}

/// When a process started, in nanoseconds since the epoch, which identifies
/// it apart from its pid: pids are reused, and a build can burn through
/// thousands of them.
pub fn start_time(seconds: u64, microseconds: u32) -> (started_ns: u128)
    requires
        microseconds * 1000 <= u32::MAX,
    ensures
        started_ns == since_epoch(seconds, microseconds),
{
    seconds as u128 * 1_000_000_000 + (microseconds * 1000) as u128
}

} // verus!
