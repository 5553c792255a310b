//! Incremental Perfetto trace output.

use crate::model::{FileOpen, Process, Rename, Segment};
#[allow(unused_imports)]
use crate::model::{FileOpenView, RenameView, SegmentView};
#[allow(unused_imports)]
use crate::text::decimal;
use crate::text::{push_signed, push_unsigned, same_text};
use proto::{
    AttributeValue, BuildprofEvent, DebugAnnotation, ExtensionDescriptor, InternedData,
    InternedString, Packet, Payload, TraceAttribute, TraceAttributes, TrackDescriptor, TrackEvent,
};
#[allow(unused_imports)]
use proto::{
    compiler_args, interned_data, interned_string, long_attribute, nested, open_args, packet,
    rename_args, segment_args, text_attribute, track_descriptor, track_event,
};
use vstd::hash_map::StringHashMap;
use vstd::prelude::*;
use wire::{measure, Encoder};
#[allow(unused_imports)]
use wire::{fits, lemma_message_length, message_bytes, Field, Message};

pub mod proto;
pub mod reading;
pub mod wire;

verus! {

/// The release that records; the viewer picks the matching version by it.
pub const VERSION: &'static str = "0.2.7";

/// The layout of what a trace holds.
pub const TRACE_FORMAT: i64 = 1;

pub const PROCESS_MERGE_KEY: &'static str = "buildprof.processes";

pub const FILE_MERGE_KEY: &'static str = "buildprof.files";

pub const PROCESS_CATEGORY: &'static str = "buildprof.process";

pub const FILE_CATEGORY: &'static str = "buildprof.file";

pub const RENAME_CATEGORY: &'static str = "buildprof.rename";

pub const COMPILER_CATEGORY: &'static str = "buildprof.compiler";

const TRACK_UUID_PID_SHIFT: u64 = 2;

const PROCESS_TRACK_DISCRIMINATOR: u64 = 1;

const FILE_TRACK_DISCRIMINATOR: u64 = 2;

const COMPILER_TRACK_NAMESPACE: u64 = 0x8000_0000_0000_0000;

const COMPILER_TRACK_PID_SHIFT: u64 = 31;

const COMPILER_TRACK_BACKEND_SHIFT: u64 = 29;

const COMPILER_TRACK_THREAD_MASK: u64 = 0x1fff_ffff;

pub const MINIMUM_SLICE_DURATION_NS: u64 = 1;

/// Why an event could not be added to a trace.
#[derive(Clone, Copy, Debug, PartialEq, Eq, Structural)]
pub enum WriteError {
    /// The packet would be longer than memory can hold.
    TooLong,
    /// There is no number left for another string.
    TooManyStrings,
}

/// A pid as the unsigned number that its bits stand for.
pub open spec fn unsigned_pid(pid: i32) -> int {
    if pid < 0 {
        pid + 0x1_0000_0000
    } else {
        pid as int
    }
}

/// The track that shows when a process ran.
pub open spec fn process_track(pid: i32) -> u64 {
    (unsigned_pid(pid) * 4 + 1) as u64
}

/// The track that shows which files a process opened.
pub open spec fn file_track(pid: i32) -> u64 {
    (unsigned_pid(pid) * 4 + 2) as u64
}

pub open spec fn backend_discriminator(backend: Seq<char>) -> int {
    if backend == "Rust"@ {
        0
    } else if backend == "Clang"@ {
        1
    } else if backend == "LLD"@ {
        2
    } else {
        3
    }
}

/// The track that shows the inside of one thread of a compiler.
pub open spec fn compiler_track(pid: i32, thread_id: u32, backend: Seq<char>) -> u64 {
    (0x8000_0000_0000_0000 + unsigned_pid(pid) * 0x8000_0000 + backend_discriminator(backend)
        * 0x2000_0000 + thread_id % 0x2000_0000) as u64
}

/// The tracks of a process are never mistaken for each other, for those of
/// another process, for a compiler's, or, unless the pid is zero, for the
/// track all others hang from.
pub proof fn lemma_process_tracks_distinct(
    pid: i32,
    other: i32,
    compiler_pid: i32,
    thread_id: u32,
    backend: Seq<char>,
)
    ensures
        process_track(pid) == process_track(other) <==> pid == other,
        file_track(pid) == file_track(other) <==> pid == other,
        process_track(pid) != file_track(other),
        process_track(pid) != compiler_track(compiler_pid, thread_id, backend),
        file_track(pid) != compiler_track(compiler_pid, thread_id, backend),
        pid != 0 ==> process_track(pid) != proto::ROOT_TRACK_UUID,
        file_track(pid) != proto::ROOT_TRACK_UUID,
        compiler_track(compiler_pid, thread_id, backend) != proto::ROOT_TRACK_UUID,
{
}

/// Compilers share a track only within one process, one backend and, as far
/// as thread numbers fit in twenty-nine bits, one thread.
pub proof fn lemma_compiler_tracks_distinct(
    pid: i32,
    thread_id: u32,
    backend: Seq<char>,
    other_pid: i32,
    other_thread_id: u32,
    other_backend: Seq<char>,
)
    requires
        thread_id < 0x2000_0000,
        other_thread_id < 0x2000_0000,
    ensures
        compiler_track(pid, thread_id, backend) == compiler_track(
            other_pid,
            other_thread_id,
            other_backend,
        ) <==> {
            &&& pid == other_pid
            &&& thread_id == other_thread_id
            &&& backend_discriminator(backend) == backend_discriminator(other_backend)
        },
        is_backend(backend) && is_backend(other_backend) ==> (backend_discriminator(backend)
            == backend_discriminator(other_backend) <==> backend == other_backend),
{
}

/// Whether a backend is one of those that are known by name.
pub open spec fn is_backend(backend: Seq<char>) -> bool {
    backend == "Rust"@ || backend == "Clang"@ || backend == "LLD"@
}

pub fn process_track_uuid(pid: i32) -> (uuid: u64)
    ensures
        uuid == process_track(pid),
{
    assert(((pid as u32 as u64) << 2) | 1 == (pid as u32 as u64) * 4 + 1) by (bit_vector);
    assert(pid as u32 as int == if pid < 0 {
        pid + 0x1_0000_0000
    } else {
        pid as int
    }) by (bit_vector);
    ((pid as u32 as u64) << TRACK_UUID_PID_SHIFT) | PROCESS_TRACK_DISCRIMINATOR
}

pub fn file_track_uuid(pid: i32) -> (uuid: u64)
    ensures
        uuid == file_track(pid),
{
    assert(((pid as u32 as u64) << 2) | 2 == (pid as u32 as u64) * 4 + 2) by (bit_vector);
    assert(pid as u32 as int == if pid < 0 {
        pid + 0x1_0000_0000
    } else {
        pid as int
    }) by (bit_vector);
    ((pid as u32 as u64) << TRACK_UUID_PID_SHIFT) | FILE_TRACK_DISCRIMINATOR
}

fn compiler_backend_discriminator(backend: &str) -> (discriminator: u64)
    ensures
        discriminator == backend_discriminator(backend@),
{
    if same_text(backend, "Rust") {
        0
    } else if same_text(backend, "Clang") {
        1
    } else if same_text(backend, "LLD") {
        2
    } else {
        3
    }
}

pub fn compiler_track_uuid(pid: i32, thread_id: u32, backend: &str) -> (uuid: u64)
    ensures
        uuid == compiler_track(pid, thread_id, backend@),
{
    let discriminator: u64 = compiler_backend_discriminator(backend);
    assert(pid as u32 as int == if pid < 0 {
        pid + 0x1_0000_0000
    } else {
        pid as int
    }) by (bit_vector);
    let owner: u64 = pid as u32 as u64;
    let thread: u64 = thread_id as u64;
    assert(0x8000_0000_0000_0000u64 | (owner << 31) | (discriminator << 29) | (thread
        & 0x1fff_ffff) == 0x8000_0000_0000_0000 + owner * 0x8000_0000 + discriminator * 0x2000_0000
        + thread % 0x2000_0000) by (bit_vector)
        requires
            owner <= 0xffff_ffff,
            discriminator < 4,
            thread <= 0xffff_ffff,
    ;
    COMPILER_TRACK_NAMESPACE | (owner << COMPILER_TRACK_PID_SHIFT) | (discriminator
        << COMPILER_TRACK_BACKEND_SHIFT) | (thread & COMPILER_TRACK_THREAD_MASK)
}

/// The packets of a trace as fields of the whole.
pub open spec fn trace_fields(packets: Seq<Seq<Field>>) -> Seq<Field> {
    packets.map_values(|packet: Seq<Field>| nested(proto::TRACE_PACKET, packet))
}

/// The bytes that a trace made of `packets` takes.
pub open spec fn trace_bytes(packets: Seq<Seq<Field>>) -> Seq<u8> {
    message_bytes(trace_fields(packets))
}

/// A trace can be written piece by piece: its bytes are those of the pieces.
pub proof fn lemma_trace_concat(first: Seq<Seq<Field>>, second: Seq<Seq<Field>>)
    ensures
        trace_bytes(first + second) == trace_bytes(first) + trace_bytes(second),
{
    assert(trace_fields(first + second) =~= trace_fields(first) + trace_fields(second));
    wire::lemma_message_concat(trace_fields(first), trace_fields(second));
}

/// A reader of the bytes of a trace finds each of its packets, in order.
pub proof fn lemma_trace_readable(packets: Seq<Seq<Field>>)
    requires
        forall|i: int| 0 <= i < packets.len() ==> fits(#[trigger] packets[i]),
    ensures
        wire::read_message(trace_bytes(packets)) == Some(trace_fields(packets)),
{
    let fields = trace_fields(packets);
    assert forall|i: int| 0 <= i < fields.len() && #[trigger] fields[i] is Bytes implies fields[i]
        ->content.len() <= u64::MAX by {
        assert(fits(packets[i]));
    }
    wire::lemma_message_round_trip(fields);
}

/// A packet that introduces a track.
pub open spec fn descriptor_packet(
    uuid: u64,
    parent_uuid: Option<u64>,
    name: Seq<char>,
    merge_key: Option<Seq<char>>,
) -> Seq<Field> {
    packet(
        None,
        true,
        None,
        nested(
            proto::PACKET_TRACK_DESCRIPTOR,
            track_descriptor(uuid, parent_uuid, name, merge_key),
        ),
    )
}

/// A packet that holds an event on a track.
pub open spec fn event_packet(
    timestamp_ns: u64,
    event_type: u32,
    track_uuid: u64,
    category: Option<Seq<char>>,
    name: Option<Seq<char>>,
    annotation: Option<(u64, u64)>,
    args: Seq<Field>,
) -> Seq<Field> {
    packet(
        Some(timestamp_ns),
        true,
        match annotation {
            Some(_) => Some(proto::SEQUENCE_NEEDS_INCREMENTAL_STATE),
            None => None,
        },
        nested(
            proto::PACKET_TRACK_EVENT,
            track_event(event_type, track_uuid, category, name, annotation, args),
        ),
    )
}

/// A packet that ends the slice last begun on a track.
pub open spec fn slice_end_packet(timestamp_ns: u64, track_uuid: u64) -> Seq<Field> {
    event_packet(
        timestamp_ns,
        proto::TYPE_SLICE_END,
        track_uuid,
        None,
        None,
        None,
        Seq::empty(),
    )
}

/// A packet that holds attributes of the whole trace.
pub open spec fn attributes_packet(attributes: Seq<Seq<Field>>) -> Seq<Field> {
    packet(
        None,
        false,
        None,
        nested(
            proto::PACKET_TRACE_ATTRIBUTES,
            attributes.map_values(
                |attribute: Seq<Field>| nested(proto::ATTRIBUTES_ATTRIBUTE, attribute),
            ),
        ),
    )
}

/// The packet that describes the extension of track events.
pub open spec fn extension_packet() -> Seq<Field> {
    packet(
        None,
        false,
        None,
        nested(proto::PACKET_EXTENSION_DESCRIPTOR, ExtensionDescriptor.fields()),
    )
}

/// The packet that introduces the track all others hang from.
pub open spec fn root_track_packet() -> Seq<Field> {
    packet(
        None,
        true,
        Some(proto::SEQUENCE_INCREMENTAL_STATE_CLEARED),
        nested(
            proto::PACKET_TRACK_DESCRIPTOR,
            track_descriptor(proto::ROOT_TRACK_UUID, None, "Build"@, None),
        ),
    )
}

/// The packets that every trace begins with: how to read buildprof's own
/// fields, which release recorded, and the track all others hang from.
pub open spec fn preamble() -> Seq<Seq<Field>> {
    seq![extension_packet(), attributes_packet(preamble_attributes()), root_track_packet()]
}

/// The packet that says what a recording was asked to collect.
pub open spec fn collection_options_packet(
    file_events: bool,
    compiler_traces: bool,
) -> Seq<Field> {
    attributes_packet(
        seq![
            long_attribute("buildprof.file_events"@, flag(file_events)),
            long_attribute("buildprof.compiler_traces"@, flag(compiler_traces)),
        ],
    )
}

/// A truth value as a number.
pub open spec fn flag(value: bool) -> i64 {
    if value {
        1
    } else {
        0
    }
}

/// The packets that introduce the tracks of a process.
pub open spec fn process_started_packets(pid: i32) -> Seq<Seq<Field>> {
    seq![
        descriptor_packet(
            process_track(pid),
            Some(proto::ROOT_TRACK_UUID),
            "Processes"@,
            Some(PROCESS_MERGE_KEY@),
        ),
        descriptor_packet(
            file_track(pid),
            Some(proto::ROOT_TRACK_UUID),
            "File opens"@,
            Some(FILE_MERGE_KEY@),
        ),
    ]
}

/// The packet that begins the slice of a segment.
pub open spec fn segment_begin(process: Process, segment: SegmentView) -> Seq<Field> {
    event_packet(
        segment.start_ns,
        proto::TYPE_SLICE_BEGIN,
        process_track(process.pid),
        Some(PROCESS_CATEGORY@),
        Some(segment.name),
        None,
        segment_args(process, segment),
    )
}

/// When the slice of a segment ends: a slice is never empty, unless it begins
/// at the last moment that a trace can hold.
pub open spec fn slice_end(segment: SegmentView) -> u64 {
    if segment.start_ns < u64::MAX && segment.end_ns < segment.start_ns + 1 {
        (segment.start_ns + 1) as u64
    } else if segment.end_ns < segment.start_ns {
        segment.start_ns
    } else {
        segment.end_ns
    }
}

/// The packets of a segment.
pub open spec fn segment_packets(process: Process, segment: SegmentView) -> Seq<Seq<Field>> {
    seq![
        segment_begin(process, segment),
        slice_end_packet(slice_end(segment), process_track(process.pid)),
    ]
}

/// The packet of a file that was opened.
pub open spec fn file_open_packet(pid: i32, open: FileOpenView) -> Seq<Field> {
    event_packet(
        open.timestamp_ns,
        proto::TYPE_INSTANT,
        file_track(pid),
        Some(FILE_CATEGORY@),
        Some("open"@),
        None,
        open_args(pid, open),
    )
}

/// The packet of a file that was moved.
pub open spec fn rename_packet(pid: i32, rename: RenameView) -> Seq<Field> {
    event_packet(
        rename.timestamp_ns,
        proto::TYPE_INSTANT,
        file_track(pid),
        Some(RENAME_CATEGORY@),
        Some("rename"@),
        None,
        rename_args(pid, rename),
    )
}

/// The name of a compiler's track.
pub open spec fn compiler_track_name(pid: i32, thread_id: u32, backend: Seq<char>) -> Seq<char> {
    backend + " compiler [pid "@ + decimal(pid as int) + "] · thread "@ + decimal(thread_id as int)
}

/// The packet that introduces the track of one thread of a compiler.
pub open spec fn compiler_track_packet(
    pid: i32,
    thread_id: u32,
    backend: Seq<char>,
) -> Seq<Field> {
    descriptor_packet(
        compiler_track(pid, thread_id, backend),
        Some(proto::ROOT_TRACK_UUID),
        compiler_track_name(pid, thread_id, backend),
        None,
    )
}

/// The number that a string has, or gets if it is new.
pub open spec fn iid(table: Map<Seq<char>, u64>, value: Seq<char>) -> u64 {
    if table.contains_key(value) {
        table[value]
    } else {
        (table.len() + 1) as u64
    }
}

/// Whether a string is new and there is no number left for it.
pub open spec fn exhausted(table: Map<Seq<char>, u64>, value: Seq<char>) -> bool {
    !table.contains_key(value) && table.len() >= usize::MAX
}

/// A table after a string was looked up in it.
pub open spec fn interned(table: Map<Seq<char>, u64>, value: Seq<char>) -> Map<Seq<char>, u64> {
    if table.contains_key(value) {
        table
    } else {
        table.insert(value, iid(table, value))
    }
}

/// No two strings of a table share a number, and none has number zero.
pub open spec fn numbered(table: Map<Seq<char>, u64>) -> bool {
    &&& table.dom().finite()
    &&& forall|value: Seq<char>| #[trigger]
        table.contains_key(value) ==> 1 <= table[value] <= table.len()
    &&& forall|a: Seq<char>, b: Seq<char>|
        #![trigger table[a], table[b]]
        table.contains_key(a) && table.contains_key(b) && table[a] == table[b] ==> a == b
}

/// A string keeps its number, and a new one gets a number of its own.
pub proof fn lemma_interned(table: Map<Seq<char>, u64>, value: Seq<char>)
    requires
        numbered(table),
        !exhausted(table, value),
    ensures
        numbered(interned(table, value)),
        interned(table, value).contains_key(value),
        interned(table, value)[value] == iid(table, value),
        forall|other: Seq<char>| #[trigger]
            table.contains_key(other) ==> interned(table, value).contains_key(other) && interned(
                table,
                value,
            )[other] == table[other],
{
}

/// A table that started empty, after some strings were looked up in it.
pub open spec fn interned_all(values: Seq<Seq<char>>) -> Map<Seq<char>, u64>
    decreases values.len(),
{
    if values.len() == 0 {
        Map::empty()
    } else {
        interned(interned_all(values.drop_last()), values.last())
    }
}

/// Some strings without repeats, in the order of their first appearance.
pub open spec fn firsts(values: Seq<Seq<char>>) -> Seq<Seq<char>>
    decreases values.len(),
{
    if values.len() == 0 {
        Seq::empty()
    } else if firsts(values.drop_last()).contains(values.last()) {
        firsts(values.drop_last())
    } else {
        firsts(values.drop_last()).push(values.last())
    }
}

/// Strings that are looked up in a table that starts empty are numbered 1, 2,
/// 3 and so on in the order of their first appearance.
pub proof fn lemma_numbers_in_order(values: Seq<Seq<char>>)
    requires
        firsts(values).len() <= usize::MAX,
    ensures
        ({
            let table = interned_all(values);
            let order = firsts(values);
            &&& numbered(table)
            &&& table.len() == order.len()
            &&& order.no_duplicates()
            &&& forall|value: Seq<char>| #[trigger]
                table.contains_key(value) <==> order.contains(value)
            &&& forall|value: Seq<char>| #[trigger]
                order.contains(value) <==> values.contains(value)
            &&& forall|i: int| 0 <= i < order.len() ==> table[#[trigger] order[i]] == i + 1
        }),
    decreases values.len(),
{
    let table = interned_all(values);
    let order = firsts(values);
    if values.len() > 0 {
        let fewer = values.drop_last();
        let last = values.last();
        let before = interned_all(fewer);
        let known = firsts(fewer);
        lemma_numbers_in_order(fewer);
        lemma_interned(before, last);
        assert forall|value: Seq<char>| #[trigger] order.contains(value) <==> values.contains(
            value,
        ) by {
            assert(known.contains(value) <==> fewer.contains(value));
            if fewer.contains(value) {
                let i = choose|i: int| 0 <= i < fewer.len() && fewer[i] == value;
                assert(values[i] == value);
            }
            if values.contains(value) && value != last {
                let i = choose|i: int| 0 <= i < values.len() && values[i] == value;
                assert(fewer[i] == value);
            }
            assert(values[values.len() - 1] == last);
            if known.contains(value) {
                let i = choose|i: int| 0 <= i < known.len() && known[i] == value;
                assert(order[i] == value);
            }
            if !known.contains(last) {
                assert(order[known.len() as int] == last);
            }
        }
        assert forall|value: Seq<char>| #[trigger] table.contains_key(value) <==> order.contains(
            value,
        ) by {
            assert(before.contains_key(value) <==> known.contains(value));
            assert(order.contains(value) <==> known.contains(value) || value == last) by {
                if known.contains(value) {
                    let i = choose|i: int| 0 <= i < known.len() && known[i] == value;
                    assert(order[i] == value);
                }
                if !known.contains(last) {
                    assert(order[known.len() as int] == last);
                }
            }
        }
        assert forall|i: int| 0 <= i < order.len() implies table[#[trigger] order[i]] == i + 1 by {
            if i < known.len() {
                assert(order[i] == known[i]);
                assert(known.contains(known[i]));
            }
        }
    }
}

/// A string is new exactly when it did not appear before, and at every
/// appearance it has the number that it keeps to the end.
pub proof fn lemma_number_kept(values: Seq<Seq<char>>, at: int)
    requires
        firsts(values).len() <= usize::MAX,
        0 <= at < values.len(),
    ensures
        ({
            let before = interned_all(values.take(at));
            &&& !before.contains_key(values[at]) <==> forall|i: int|
                0 <= i < at ==> #[trigger] values[i] != values[at]
            &&& iid(before, values[at]) == interned_all(values)[values[at]]
        }),
    decreases values.len(),
{
    let fewer = values.drop_last();
    let value = values[at];
    lemma_numbers_in_order(values);
    assert(firsts(fewer).len() <= firsts(values).len());
    lemma_numbers_in_order(fewer);
    lemma_interned(interned_all(fewer), values.last());
    if at < fewer.len() {
        lemma_number_kept(fewer, at);
        assert(fewer.take(at) =~= values.take(at));
        assert(fewer.contains(fewer[at]));
        assert(firsts(fewer).contains(value));
        assert(interned_all(fewer).contains_key(value));
        if forall|i: int| 0 <= i < at ==> #[trigger] fewer[i] != fewer[at] {
            assert forall|i: int| 0 <= i < at implies #[trigger] values[i] != value by {
                assert(fewer[i] == values[i]);
            }
        } else {
            let i = choose|i: int| 0 <= i < at && #[trigger] fewer[i] == fewer[at];
            assert(values[i] == value);
        }
    } else {
        assert(values.take(at) =~= fewer);
        assert(firsts(fewer).contains(value) <==> fewer.contains(value));
        if fewer.contains(value) {
            let i = choose|i: int| 0 <= i < fewer.len() && fewer[i] == value;
            assert(values[i] == value);
        }
        if exists|i: int| 0 <= i < at && #[trigger] values[i] == value {
            let i = choose|i: int| 0 <= i < at && #[trigger] values[i] == value;
            assert(fewer[i] == value);
        }
    }
}

/// The packets that tell a reader the strings of an annotation it does not
/// know yet.
pub open spec fn interning_packets(
    names: Map<Seq<char>, u64>,
    values: Map<Seq<char>, u64>,
    name: Seq<char>,
    value: Seq<char>,
) -> Seq<Seq<Field>> {
    if names.contains_key(name) && values.contains_key(value) {
        seq![]
    } else {
        seq![
            packet(
                None,
                true,
                None,
                nested(
                    proto::PACKET_INTERNED_DATA,
                    interned_data(
                        if names.contains_key(name) {
                            None
                        } else {
                            Some((iid(names, name), name))
                        },
                        if values.contains_key(value) {
                            None
                        } else {
                            Some((iid(values, value), value))
                        },
                    ),
                ),
            ),
        ]
    }
}

/// The packet that begins the slice of a compiler's event.
pub open spec fn compiler_slice_begin(
    pid: i32,
    thread_id: u32,
    backend: Seq<char>,
    category: Seq<char>,
    name: Seq<char>,
    start_ns: u64,
    annotation: Option<(u64, u64)>,
) -> Seq<Field> {
    event_packet(
        start_ns,
        proto::TYPE_SLICE_BEGIN,
        compiler_track(pid, thread_id, backend),
        Some(COMPILER_CATEGORY@),
        Some(name),
        annotation,
        compiler_args(pid, backend, category),
    )
}

/// A point in time some way after another, or the last that a trace can hold.
pub open spec fn later(start_ns: u64, duration_ns: u64) -> u64 {
    if start_ns + duration_ns > u64::MAX {
        u64::MAX
    } else {
        (start_ns + duration_ns) as u64
    }
}

/// What a compiler did for a while.
#[verifier::ext_equal]
pub struct SliceView {
    pub pid: i32,
    pub thread_id: u32,
    pub backend: Seq<char>,
    pub category: Seq<char>,
    pub name: Seq<char>,
    pub start_ns: u64,
    pub duration_ns: u64,
    pub detail: Option<Seq<char>>,
}

impl SliceView {
    /// The packets that introduce the strings of the slice's detail.
    pub open spec fn introduction(
        self,
        names: Map<Seq<char>, u64>,
        values: Map<Seq<char>, u64>,
    ) -> Seq<Seq<Field>> {
        match self.detail {
            Some(detail) => interning_packets(names, values, "detail"@, detail),
            None => seq![],
        }
    }

    /// The packet that begins the slice.
    pub open spec fn begin(
        self,
        names: Map<Seq<char>, u64>,
        values: Map<Seq<char>, u64>,
    ) -> Seq<Field> {
        compiler_slice_begin(
            self.pid,
            self.thread_id,
            self.backend,
            self.category,
            self.name,
            self.start_ns,
            match self.detail {
                Some(detail) => Some((iid(names, "detail"@), iid(values, detail))),
                None => None,
            },
        )
    }

    /// Everything that is written of the slice.
    pub open spec fn packets(
        self,
        names: Map<Seq<char>, u64>,
        values: Map<Seq<char>, u64>,
    ) -> Seq<Seq<Field>> {
        self.introduction(names, values) + seq![
            self.begin(names, values),
            slice_end_packet(
                later(self.start_ns, self.duration_ns),
                compiler_track(self.pid, self.thread_id, self.backend),
            ),
        ]
    }

    /// Whether the slice can be written.
    pub open spec fn outcome(
        self,
        names: Map<Seq<char>, u64>,
        values: Map<Seq<char>, u64>,
    ) -> Result<(), WriteError> {
        let known = self.introduction(names, values);
        if self.detail is Some && (exhausted(names, "detail"@) || exhausted(
            values,
            self.detail->0,
        )) {
            Err(WriteError::TooManyStrings)
        } else if (known.len() > 0 && !fits(known[0])) || !fits(self.begin(names, values)) {
            Err(WriteError::TooLong)
        } else {
            Ok(())
        }
    }

    pub open spec fn names_after(self, names: Map<Seq<char>, u64>) -> Map<Seq<char>, u64> {
        match self.detail {
            Some(_) => interned(names, "detail"@),
            None => names,
        }
    }

    pub open spec fn values_after(self, values: Map<Seq<char>, u64>) -> Map<Seq<char>, u64> {
        match self.detail {
            Some(detail) => interned(values, detail),
            None => values,
        }
    }
}

proof fn lemma_encoded_length(value: Seq<char>)
    ensures
        vstd::utf8::encode_utf8(value).len() <= 4 * value.len(),
    decreases value.len(),
{
    if value.len() > 0 {
        lemma_encoded_length(value.drop_first());
        assert(vstd::utf8::encode_scalar(value[0] as u32).len() <= 4);
    }
}

proof fn lemma_slice_end_fits(timestamp_ns: u64, track_uuid: u64)
    ensures
        fits(slice_end_packet(timestamp_ns, track_uuid)),
{
    let event = track_event(
        proto::TYPE_SLICE_END,
        track_uuid,
        None,
        None,
        None,
        Seq::empty(),
    );
    assert(event.len() == 2);
    lemma_message_length(event, 2, 0);
    lemma_message_length(slice_end_packet(timestamp_ns, track_uuid), 3, 40);
}

/// A track whose name and merge key are short is always introduced.
proof fn lemma_descriptor_fits(
    uuid: u64,
    parent_uuid: Option<u64>,
    name: Seq<char>,
    merge_key: Option<Seq<char>>,
    sequence_flags: Option<u64>,
)
    requires
        name.len() <= 1000,
        merge_key is Some ==> merge_key->0.len() <= 1000,
    ensures
        fits(
            packet(
                None,
                true,
                sequence_flags,
                nested(
                    proto::PACKET_TRACK_DESCRIPTOR,
                    track_descriptor(uuid, parent_uuid, name, merge_key),
                ),
            ),
        ),
{
    lemma_encoded_length(name);
    if merge_key is Some {
        lemma_encoded_length(merge_key->0);
    }
    let descriptor = track_descriptor(uuid, parent_uuid, name, merge_key);
    lemma_message_length(descriptor, 5, 4000);
    lemma_message_length(
        packet(None, true, sequence_flags, nested(proto::PACKET_TRACK_DESCRIPTOR, descriptor)),
        3,
        20100,
    );
}

proof fn lemma_field_descriptor_length(
    name: Seq<char>,
    field_number: u32,
    field_type: u32,
    message_type: Option<Seq<char>>,
    extendee: Option<Seq<char>>,
)
    requires
        name.len() <= 100,
        message_type is Some ==> message_type->0.len() <= 100,
        extendee is Some ==> extendee->0.len() <= 100,
    ensures
        message_bytes(
            proto::field_descriptor(name, field_number, field_type, message_type, extendee),
        ).len() <= 2520,
{
    lemma_encoded_length(name);
    if message_type is Some {
        lemma_encoded_length(message_type->0);
    }
    if extendee is Some {
        lemma_encoded_length(extendee->0);
    }
    lemma_message_length(
        proto::field_descriptor(name, field_number, field_type, message_type, extendee),
        6,
        400,
    );
}

proof fn lemma_event_descriptor_length()
    ensures
        message_bytes(proto::BuildprofEventDescriptor.fields()).len() <= 40640,
{
    reveal_strlit("BuildprofEvent");
    reveal_strlit("cmd");
    reveal_strlit("cwd");
    reveal_strlit("pid");
    reveal_strlit("ppid");
    reveal_strlit("build_ppid");
    reveal_strlit("execed");
    reveal_strlit("exit_code");
    reveal_strlit("path");
    reveal_strlit("flags");
    reveal_strlit("fd");
    reveal_strlit("from");
    reveal_strlit("to");
    reveal_strlit("owner_pid");
    reveal_strlit("backend");
    reveal_strlit("compiler_category");
    lemma_encoded_length("BuildprofEvent"@);
    let table = proto::buildprof_event_fields();
    let fields = proto::BuildprofEventDescriptor.fields();
    assert forall|i: int| 0 <= i < fields.len() && #[trigger] fields[i] is Bytes implies fields[i]
        ->content.len() <= 2520 by {
        if i > 0 {
            let field = table[i - 1];
            assert(field.0.len() <= 100);
            lemma_field_descriptor_length(field.0, field.1, field.2, None, None);
        }
    }
    lemma_message_length(fields, 16, 2520);
}

#[verifier::spinoff_prover]
proof fn lemma_extension_descriptor_fits()
    ensures
        fits(extension_packet()),
{
    lemma_event_descriptor_length();
    reveal_strlit("BuildprofExtension");
    reveal_strlit("debug");
    reveal_strlit(".buildprof.protos.BuildprofEvent");
    reveal_strlit(".perfetto.protos.TrackEvent");
    lemma_encoded_length("BuildprofExtension"@);
    lemma_field_descriptor_length(
        "debug"@,
        proto::BUILDPROF_EXTENSION_FIELD,
        proto::TYPE_MESSAGE,
        Some(".buildprof.protos.BuildprofEvent"@),
        Some(".perfetto.protos.TrackEvent"@),
    );
    lemma_message_length(proto::ExtensionWrapperDescriptor.fields(), 2, 2520);
    reveal_strlit("buildprof_extension.proto");
    reveal_strlit("buildprof.protos");
    reveal_strlit("protos/perfetto/trace/track_event/track_event.proto");
    reveal_strlit("proto2");
    lemma_encoded_length("buildprof_extension.proto"@);
    lemma_encoded_length("buildprof.protos"@);
    lemma_encoded_length("protos/perfetto/trace/track_event/track_event.proto"@);
    lemma_encoded_length("proto2"@);
    lemma_message_length(proto::FileDescriptor.fields(), 6, 40640);
    lemma_message_length(proto::DescriptorSet.fields(), 1, 243960);
    lemma_message_length(ExtensionDescriptor.fields(), 1, 243980);
    lemma_message_length(extension_packet(), 1, 244000);
}

proof fn lemma_attributes_fit(attributes: Seq<Seq<Field>>)
    requires
        attributes.len() <= 2,
        forall|i: int, j: int|
            0 <= i < attributes.len() && 0 <= j < attributes[i].len()
                && #[trigger] attributes[i][j] is Bytes ==> attributes[i][j]->content.len() <= 400,
        forall|i: int| 0 <= i < attributes.len() ==> (#[trigger] attributes[i]).len() <= 2,
    ensures
        fits(attributes_packet(attributes)),
{
    let fields = attributes.map_values(
        |attribute: Seq<Field>| nested(proto::ATTRIBUTES_ATTRIBUTE, attribute),
    );
    assert forall|i: int| 0 <= i < fields.len() && #[trigger] fields[i] is Bytes implies fields[i]
        ->content.len() <= 840 by {
        lemma_message_length(attributes[i], 2, 400);
    }
    lemma_message_length(fields, 2, 840);
    lemma_message_length(attributes_packet(attributes), 1, 1720);
}

proof fn lemma_root_track_fits()
    ensures
        fits(root_track_packet()),
{
    reveal_strlit("Build");
    lemma_descriptor_fits(
        proto::ROOT_TRACK_UUID,
        None,
        "Build"@,
        None,
        Some(proto::SEQUENCE_INCREMENTAL_STATE_CLEARED),
    );
}

#[verifier::spinoff_prover]
proof fn lemma_preamble_attributes_fit()
    ensures
        fits(attributes_packet(preamble_attributes())),
{
    reveal_strlit("buildprof.version");
    reveal_strlit("buildprof.trace_format");
    reveal_strlit("0.2.7");
    lemma_encoded_length("buildprof.version"@);
    lemma_encoded_length("buildprof.trace_format"@);
    lemma_encoded_length("0.2.7"@);
    lemma_attributes_fit(preamble_attributes());
}

/// Incrementally writes trace packets.
///
/// What has been written is taken away in pieces, so that no more of a trace
/// is held than its owner lets pile up.
pub struct Writer {
    encoder: Encoder,
    packets: Ghost<Seq<Seq<Field>>>,
    annotation_names: StringHashMap<u64>,
    annotation_values: StringHashMap<u64>,
}

impl View for Writer {
    type V = Seq<Seq<Field>>;

    /// The packets written and not taken away yet.
    closed spec fn view(&self) -> Seq<Seq<Field>> {
        self.packets@
    }
}

impl Writer {
    pub closed spec fn wf(&self) -> bool {
        &&& self.encoder.wf()
        &&& !self.encoder.counting()
        &&& self.encoder.start() == Seq::<u8>::empty()
        &&& self.encoder@ == trace_fields(self.packets@)
        &&& numbered(self.annotation_names@)
        &&& numbered(self.annotation_values@)
    }

    /// The numbers that annotation names have.
    pub closed spec fn names(&self) -> Map<Seq<char>, u64> {
        self.annotation_names@
    }

    /// The numbers that annotation values have.
    pub closed spec fn values(&self) -> Map<Seq<char>, u64> {
        self.annotation_values@
    }

    /// Whether this writer is `before` with `packets` written and nothing
    /// else changed.
    pub open spec fn extends(&self, before: &Writer, packets: Seq<Seq<Field>>) -> bool {
        &&& self.wf()
        &&& self@ == before@ + packets
        &&& self.names() == before.names()
        &&& self.values() == before.values()
    }

    /// The tables of a writer number their strings without a repeat.
    pub proof fn lemma_numbered(&self)
        requires
            self.wf(),
        ensures
            numbered(self.names()),
            numbered(self.values()),
    {
    }

    /// Starts a trace.
    pub fn create() -> (writer: Self)
        ensures
            writer.wf(),
            writer@ == preamble(),
            writer.names() == Map::<Seq<char>, u64>::empty(),
            writer.values() == Map::<Seq<char>, u64>::empty(),
    {
        let mut writer = Writer {
            encoder: Encoder::writer(),
            packets: Ghost(Seq::empty()),
            annotation_names: StringHashMap::new(),
            annotation_values: StringHashMap::new(),
        };
        assert(trace_fields(Seq::empty()) =~= Seq::<Field>::empty());
        writer.write_preamble();
        assert(writer@ =~= preamble());
        writer
    }

    fn write_preamble(&mut self)
        requires
            old(self).wf(),
        ensures
            final(self).extends(old(self), preamble()),
    {
        self.write_extension();
        self.write_preamble_attributes();
        self.write_root_track();
        assert(self@ =~= old(self)@ + preamble());
    }

    #[verifier::spinoff_prover]
    fn write_extension(&mut self)
        requires
            old(self).wf(),
        ensures
            final(self).extends(old(self), seq![extension_packet()]),
    {
        proof {
            lemma_extension_descriptor_fits();
        }
        self.packet(
            &Packet {
                timestamp: None,
                sequence: false,
                sequence_flags: None,
                payload: Payload::ExtensionDescriptor(ExtensionDescriptor),
            },
        );
        assert(self@ =~= old(self)@ + seq![extension_packet()]);
    }

    #[verifier::spinoff_prover]
    fn write_preamble_attributes(&mut self)
        requires
            old(self).wf(),
        ensures
            final(self).extends(old(self), seq![attributes_packet(preamble_attributes())]),
    {
        proof {
            lemma_preamble_attributes_fit();
        }
        let attributes = [
            TraceAttribute { key: "buildprof.version", value: AttributeValue::Str(VERSION) },
            TraceAttribute {
                key: "buildprof.trace_format",
                value: AttributeValue::Long(TRACE_FORMAT),
            },
        ];
        self.trace_attributes(&attributes, Ghost(preamble_attributes()));
        assert(self@ =~= old(self)@ + seq![attributes_packet(preamble_attributes())]);
    }

    #[verifier::spinoff_prover]
    fn write_root_track(&mut self)
        requires
            old(self).wf(),
        ensures
            final(self).extends(old(self), seq![root_track_packet()]),
    {
        proof {
            lemma_root_track_fits();
        }
        self.packet(
            &Packet {
                timestamp: None,
                sequence: true,
                sequence_flags: Some(proto::SEQUENCE_INCREMENTAL_STATE_CLEARED),
                payload: Payload::TrackDescriptor(
                    TrackDescriptor {
                        uuid: proto::ROOT_TRACK_UUID,
                        parent_uuid: None,
                        name: "Build",
                        merge_key: None,
                    },
                ),
            },
        );
        assert(self@ =~= old(self)@ + seq![root_track_packet()]);
    }

    fn trace_attributes(
        &mut self,
        attributes: &[TraceAttribute],
        Ghost(expected): Ghost<Seq<Seq<Field>>>,
    )
        requires
            old(self).wf(),
            attributes@.len() == expected.len(),
            forall|i: int| 0 <= i < expected.len() ==> attributes@[i].fields() == #[trigger] expected[i],
            fits(attributes_packet(expected)),
        ensures
            final(self).wf(),
            final(self)@ == old(self)@.push(attributes_packet(expected)),
            final(self).names() == old(self).names(),
            final(self).values() == old(self).values(),
    {
        let message = TraceAttributes { attributes };
        assert(message.fields() =~= expected.map_values(
            |attribute: Seq<Field>| nested(proto::ATTRIBUTES_ATTRIBUTE, attribute),
        )) by {
            assert forall|i: int| 0 <= i < expected.len() implies message.fields()[i] == nested(
                proto::ATTRIBUTES_ATTRIBUTE,
                expected[i],
            ) by {
                assert(attributes@[i].fields() == expected[i]);
            }
        }
        self.packet(
            &Packet {
                timestamp: None,
                sequence: false,
                sequence_flags: None,
                payload: Payload::TraceAttributes(message),
            },
        );
    }

    /// Writes down what the recording was asked to collect.
    pub fn collection_options(&mut self, file_events: bool, compiler_traces: bool)
        requires
            old(self).wf(),
        ensures
            final(self).wf(),
            final(self)@ == old(self)@.push(
                collection_options_packet(file_events, compiler_traces),
            ),
            final(self).names() == old(self).names(),
            final(self).values() == old(self).values(),
    {
        let attributes = [
            TraceAttribute {
                key: "buildprof.file_events",
                value: AttributeValue::Long(
                    if file_events {
                        1
                    } else {
                        0
                    },
                ),
            },
            TraceAttribute {
                key: "buildprof.compiler_traces",
                value: AttributeValue::Long(
                    if compiler_traces {
                        1
                    } else {
                        0
                    },
                ),
            },
        ];
        let ghost expected = seq![
            long_attribute("buildprof.file_events"@, flag(file_events)),
            long_attribute("buildprof.compiler_traces"@, flag(compiler_traces)),
        ];
        proof {
            reveal_strlit("buildprof.file_events");
            reveal_strlit("buildprof.compiler_traces");
            lemma_encoded_length("buildprof.file_events"@);
            lemma_encoded_length("buildprof.compiler_traces"@);
            lemma_attributes_fit(expected);
        }
        self.trace_attributes(&attributes, Ghost(expected));
    }

    fn packet(&mut self, packet: &Packet)
        requires
            old(self).wf(),
            fits(packet.fields()),
        ensures
            final(self).wf(),
            final(self)@ == old(self)@.push(packet.fields()),
            final(self).names() == old(self).names(),
            final(self).values() == old(self).values(),
    {
        self.encoder.message(proto::TRACE_PACKET, packet);
        proof {
            let packets = self.packets@.push(packet.fields());
            assert(trace_fields(packets) =~= trace_fields(self.packets@).push(
                nested(proto::TRACE_PACKET, packet.fields()),
            ));
            self.packets@ = packets;
        }
    }

    fn checked_packet(&mut self, packet: &Packet) -> (result: Result<(), WriteError>)
        requires
            old(self).wf(),
        ensures
            final(self).wf(),
            result == (if fits(packet.fields()) {
                Ok::<(), WriteError>(())
            } else {
                Err(WriteError::TooLong)
            }),
            final(self)@ == (if fits(packet.fields()) {
                old(self)@.push(packet.fields())
            } else {
                old(self)@
            }),
            final(self).names() == old(self).names(),
            final(self).values() == old(self).values(),
    {
        match measure(packet) {
            Some(length) => {
                self.encoder.delimited(proto::TRACE_PACKET, packet, length);
                proof {
                    let packets = self.packets@.push(packet.fields());
                    assert(trace_fields(packets) =~= trace_fields(self.packets@).push(
                        nested(proto::TRACE_PACKET, packet.fields()),
                    ));
                    self.packets@ = packets;
                }
                Ok(())
            },
            None => Err(WriteError::TooLong),
        }
    }

    /// Introduces the tracks of a process.
    pub fn process_started(&mut self, pid: i32) -> (result: Result<(), WriteError>)
        requires
            old(self).wf(),
        ensures
            final(self).wf(),
            result is Ok,
            final(self)@ == old(self)@ + process_started_packets(pid),
            final(self).names() == old(self).names(),
            final(self).values() == old(self).values(),
    {
        proof {
            reveal_strlit("Processes");
            reveal_strlit("File opens");
            reveal_strlit("buildprof.processes");
            reveal_strlit("buildprof.files");
            lemma_descriptor_fits(
                process_track(pid),
                Some(proto::ROOT_TRACK_UUID),
                "Processes"@,
                Some(PROCESS_MERGE_KEY@),
                None,
            );
            lemma_descriptor_fits(
                file_track(pid),
                Some(proto::ROOT_TRACK_UUID),
                "File opens"@,
                Some(FILE_MERGE_KEY@),
                None,
            );
        }
        self.packet(
            &Packet {
                timestamp: None,
                sequence: true,
                sequence_flags: None,
                payload: Payload::TrackDescriptor(
                    TrackDescriptor {
                        uuid: process_track_uuid(pid),
                        parent_uuid: Some(proto::ROOT_TRACK_UUID),
                        name: "Processes",
                        merge_key: Some(PROCESS_MERGE_KEY),
                    },
                ),
            },
        );
        self.packet(
            &Packet {
                timestamp: None,
                sequence: true,
                sequence_flags: None,
                payload: Payload::TrackDescriptor(
                    TrackDescriptor {
                        uuid: file_track_uuid(pid),
                        parent_uuid: Some(proto::ROOT_TRACK_UUID),
                        name: "File opens",
                        merge_key: Some(FILE_MERGE_KEY),
                    },
                ),
            },
        );
        Ok(())
    }

    /// Shows a stretch of a process's life as a slice. A segment that cannot
    /// be written leaves no trace at all.
    pub fn segment(&mut self, process: Process, segment: &Segment) -> (result: Result<
        (),
        WriteError,
    >)
        requires
            old(self).wf(),
        ensures
            final(self).wf(),
            result == (if fits(segment_begin(process, segment@)) {
                Ok::<(), WriteError>(())
            } else {
                Err(WriteError::TooLong)
            }),
            final(self)@ == (if result is Ok {
                old(self)@ + segment_packets(process, segment@)
            } else {
                old(self)@
            }),
            final(self).names() == old(self).names(),
            final(self).values() == old(self).values(),
    {
        let track_uuid: u64 = process_track_uuid(process.pid);
        let begin = Packet {
            timestamp: Some(segment.start_ns),
            sequence: true,
            sequence_flags: None,
            payload: Payload::TrackEvent(
                TrackEvent {
                    event_type: proto::TYPE_SLICE_BEGIN,
                    track_uuid,
                    category: Some(PROCESS_CATEGORY),
                    name: Some(segment.name.as_str()),
                    annotation: None,
                    args: BuildprofEvent::Segment { process, segment },
                },
            ),
        };
        assert(begin.fields() == segment_begin(process, segment@));
        if let Err(error) = self.checked_packet(&begin) {
            return Err(error);
        }
        let soonest: u64 = segment.start_ns.saturating_add(MINIMUM_SLICE_DURATION_NS);
        let end_ns: u64 = if segment.end_ns < soonest {
            soonest
        } else {
            segment.end_ns
        };
        self.slice_end(end_ns, track_uuid);
        assert(self@ =~= old(self)@ + segment_packets(process, segment@));
        Ok(())
    }

    fn slice_end(&mut self, timestamp_ns: u64, track_uuid: u64)
        requires
            old(self).wf(),
        ensures
            final(self).wf(),
            final(self)@ == old(self)@.push(slice_end_packet(timestamp_ns, track_uuid)),
            final(self).names() == old(self).names(),
            final(self).values() == old(self).values(),
    {
        proof {
            lemma_slice_end_fits(timestamp_ns, track_uuid);
        }
        self.packet(
            &Packet {
                timestamp: Some(timestamp_ns),
                sequence: true,
                sequence_flags: None,
                payload: Payload::TrackEvent(
                    TrackEvent {
                        event_type: proto::TYPE_SLICE_END,
                        track_uuid,
                        category: None,
                        name: None,
                        annotation: None,
                        args: BuildprofEvent::Nothing,
                    },
                ),
            },
        );
    }

    /// Shows that a process opened a file.
    pub fn file_open(&mut self, pid: i32, open: &FileOpen) -> (result: Result<(), WriteError>)
        requires
            old(self).wf(),
        ensures
            final(self).wf(),
            result == (if fits(file_open_packet(pid, open@)) {
                Ok::<(), WriteError>(())
            } else {
                Err(WriteError::TooLong)
            }),
            final(self)@ == (if result is Ok {
                old(self)@.push(file_open_packet(pid, open@))
            } else {
                old(self)@
            }),
            final(self).names() == old(self).names(),
            final(self).values() == old(self).values(),
    {
        let packet = Packet {
            timestamp: Some(open.timestamp_ns),
            sequence: true,
            sequence_flags: None,
            payload: Payload::TrackEvent(
                TrackEvent {
                    event_type: proto::TYPE_INSTANT,
                    track_uuid: file_track_uuid(pid),
                    category: Some(FILE_CATEGORY),
                    name: Some("open"),
                    annotation: None,
                    args: BuildprofEvent::Open { owner_pid: pid, open },
                },
            ),
        };
        assert(packet.fields() == file_open_packet(pid, open@));
        self.checked_packet(&packet)
    }

    /// Shows that a process moved a file.
    pub fn rename(&mut self, pid: i32, rename: &Rename) -> (result: Result<(), WriteError>)
        requires
            old(self).wf(),
        ensures
            final(self).wf(),
            result == (if fits(rename_packet(pid, rename@)) {
                Ok::<(), WriteError>(())
            } else {
                Err(WriteError::TooLong)
            }),
            final(self)@ == (if result is Ok {
                old(self)@.push(rename_packet(pid, rename@))
            } else {
                old(self)@
            }),
            final(self).names() == old(self).names(),
            final(self).values() == old(self).values(),
    {
        let packet = Packet {
            timestamp: Some(rename.timestamp_ns),
            sequence: true,
            sequence_flags: None,
            payload: Payload::TrackEvent(
                TrackEvent {
                    event_type: proto::TYPE_INSTANT,
                    track_uuid: file_track_uuid(pid),
                    category: Some(RENAME_CATEGORY),
                    name: Some("rename"),
                    annotation: None,
                    args: BuildprofEvent::Rename { owner_pid: pid, rename },
                },
            ),
        };
        assert(packet.fields() == rename_packet(pid, rename@));
        self.checked_packet(&packet)
    }

    /// Introduces the track of one thread of a compiler.
    pub fn compiler_track(&mut self, pid: i32, thread_id: u32, backend: &str) -> (result: Result<
        (),
        WriteError,
    >)
        requires
            old(self).wf(),
        ensures
            final(self).wf(),
            result == (if fits(compiler_track_packet(pid, thread_id, backend@)) {
                Ok::<(), WriteError>(())
            } else {
                Err(WriteError::TooLong)
            }),
            final(self)@ == (if result is Ok {
                old(self)@.push(compiler_track_packet(pid, thread_id, backend@))
            } else {
                old(self)@
            }),
            final(self).names() == old(self).names(),
            final(self).values() == old(self).values(),
    {
        let mut name = backend.to_owned();
        name.append(" compiler [pid ");
        push_signed(&mut name, pid as i64);
        name.append("] · thread ");
        push_unsigned(&mut name, thread_id as u64);
        let packet = Packet {
            timestamp: None,
            sequence: true,
            sequence_flags: None,
            payload: Payload::TrackDescriptor(
                TrackDescriptor {
                    uuid: compiler_track_uuid(pid, thread_id, backend),
                    parent_uuid: Some(proto::ROOT_TRACK_UUID),
                    name: name.as_str(),
                    merge_key: None,
                },
            ),
        };
        assert(packet.fields() == compiler_track_packet(pid, thread_id, backend@));
        self.checked_packet(&packet)
    }

    /// Shows what a compiler did for a while as a slice, with `detail` as its
    /// annotation. An event that cannot be written leaves no trace at all.
    pub fn compiler_slice(
        &mut self,
        pid: i32,
        thread_id: u32,
        backend: &str,
        event_category: &str,
        name: &str,
        start_ns: u64,
        duration_ns: u64,
        detail: Option<&str>,
    ) -> (result: Result<(), WriteError>)
        requires
            old(self).wf(),
        ensures
            final(self).wf(),
            ({
                let slice = SliceView {
                    pid,
                    thread_id,
                    backend: backend@,
                    category: event_category@,
                    name: name@,
                    start_ns,
                    duration_ns,
                    detail: proto::characters(detail),
                };
                let names = old(self).names();
                let values = old(self).values();
                &&& result == slice.outcome(names, values)
                &&& final(self)@ == (if result is Ok {
                    old(self)@ + slice.packets(names, values)
                } else {
                    old(self)@
                })
                &&& final(self).names() == (if result is Ok {
                    slice.names_after(names)
                } else {
                    names
                })
                &&& final(self).values() == (if result is Ok {
                    slice.values_after(values)
                } else {
                    values
                })
            }),
    {
        let track_uuid: u64 = compiler_track_uuid(pid, thread_id, backend);
        let annotation = match detail {
            Some(detail) => match self.annotation("detail", detail) {
                Some(annotation) => Some(annotation),
                None => {
                    return Err(WriteError::TooManyStrings);
                },
            },
            None => None,
        };
        let begin = Packet {
            timestamp: Some(start_ns),
            sequence: true,
            sequence_flags: if detail.is_some() {
                Some(proto::SEQUENCE_NEEDS_INCREMENTAL_STATE)
            } else {
                None
            },
            payload: Payload::TrackEvent(
                TrackEvent {
                    event_type: proto::TYPE_SLICE_BEGIN,
                    track_uuid,
                    category: Some(COMPILER_CATEGORY),
                    name: Some(name),
                    annotation,
                    args: BuildprofEvent::Compiler {
                        owner_pid: pid,
                        backend,
                        category: event_category,
                    },
                },
            ),
        };
        if let Some(detail) = detail {
            if let Err(error) = self.intern_debug_annotation("detail", detail, measure(&begin).is_some()) {
                return Err(error);
            }
        }
        if let Err(error) = self.checked_packet(&begin) {
            return Err(error);
        }
        self.slice_end(start_ns.saturating_add(duration_ns), track_uuid);
        Ok(())
    }

    /// The numbers that the strings of an annotation have or would get.
    fn annotation(&self, name: &str, value: &str) -> (annotation: Option<DebugAnnotation>)
        requires
            self.wf(),
        ensures
            match annotation {
                Some(annotation) => {
                    &&& !exhausted(self.names(), name@)
                    &&& !exhausted(self.values(), value@)
                    &&& annotation.name_iid == iid(self.names(), name@)
                    &&& annotation.value_iid == iid(self.values(), value@)
                },
                None => exhausted(self.names(), name@) || exhausted(self.values(), value@),
            },
    {
        match (lookup(&self.annotation_names, name), lookup(&self.annotation_values, value)) {
            (Some((name_iid, _)), Some((value_iid, _))) => Some(
                DebugAnnotation { name_iid, value_iid },
            ),
            _ => None,
        }
    }

    /// Tells a reader the strings of an annotation that it does not know yet,
    /// provided the event they belong to can be written too.
    fn intern_debug_annotation(&mut self, name: &str, value: &str, wanted: bool) -> (result: Result<
        (),
        WriteError,
    >)
        requires
            old(self).wf(),
            !exhausted(old(self).names(), name@),
            !exhausted(old(self).values(), value@),
        ensures
            final(self).wf(),
            ({
                let known = interning_packets(old(self).names(), old(self).values(), name@, value@);
                &&& result == (if !wanted || (known.len() > 0 && !fits(known[0])) {
                    Err::<(), WriteError>(WriteError::TooLong)
                } else {
                    Ok(())
                })
                &&& final(self)@ == (if result is Ok {
                    old(self)@ + known
                } else {
                    old(self)@
                })
                &&& final(self).names() == (if result is Ok {
                    interned(old(self).names(), name@)
                } else {
                    old(self).names()
                })
                &&& final(self).values() == (if result is Ok {
                    interned(old(self).values(), value@)
                } else {
                    old(self).values()
                })
            }),
    {
        if !wanted {
            return Err(WriteError::TooLong);
        }
        let (name_iid, new_name) = match lookup(&self.annotation_names, name) {
            Some(found) => found,
            None => (0, false),
        };
        let (value_iid, new_value) = match lookup(&self.annotation_values, value) {
            Some(found) => found,
            None => (0, false),
        };
        if new_name || new_value {
            let packet = Packet {
                timestamp: None,
                sequence: true,
                sequence_flags: None,
                payload: Payload::InternedData(
                    InternedData {
                        name: if new_name {
                            Some(InternedString { iid: name_iid, value: name })
                        } else {
                            None
                        },
                        value: if new_value {
                            Some(InternedString { iid: value_iid, value })
                        } else {
                            None
                        },
                    },
                ),
            };
            if let Err(error) = self.checked_packet(&packet) {
                return Err(error);
            }
        }
        proof {
            lemma_interned(self.annotation_names@, name@);
            lemma_interned(self.annotation_values@, value@);
        }
        if new_name {
            self.annotation_names.insert(name.to_owned(), name_iid);
        }
        if new_value {
            self.annotation_values.insert(value.to_owned(), value_iid);
        }
        Ok(())
    }

    /// Hands out the bytes of the packets written so far and starts over with
    /// none; packets written later continue the trace.
    pub fn take(&mut self) -> (bytes: Vec<u8>)
        requires
            old(self).wf(),
        ensures
            bytes@ == trace_bytes(old(self)@),
            final(self).wf(),
            final(self)@ == Seq::<Seq<Field>>::empty(),
            final(self).names() == old(self).names(),
            final(self).values() == old(self).values(),
    {
        let bytes = self.encoder.take();
        proof {
            self.packets@ = Seq::empty();
            assert(trace_fields(Seq::empty()) =~= Seq::<Field>::empty());
        }
        bytes
    }

    /// Ends the trace: what is left of its bytes.
    pub fn finish(self) -> (bytes: Vec<u8>)
        requires
            self.wf(),
        ensures
            bytes@ == trace_bytes(self@),
    {
        let mut writer = self;
        writer.take()
    }
}

/// The attributes that every trace begins with.
pub open spec fn preamble_attributes() -> Seq<Seq<Field>> {
    seq![
        text_attribute("buildprof.version"@, VERSION@),
        long_attribute("buildprof.trace_format"@, TRACE_FORMAT),
    ]
}

/// The number that a string has or would get, and whether it is new.
fn lookup(table: &StringHashMap<u64>, value: &str) -> (found: Option<(u64, bool)>)
    ensures
        match found {
            Some((number, new)) => {
                &&& !exhausted(table@, value@)
                &&& number == iid(table@, value@)
                &&& new == !table@.contains_key(value@)
            },
            None => exhausted(table@, value@),
        },
{
    if let Some(number) = table.get(value) {
        return Some((*number, false));
    }
    let length: usize = table.len();
    if length == usize::MAX {
        return None;
    }
    Some((length as u64 + 1, true))
}

/// A slice covers its segment, and more than an instant.
pub proof fn lemma_slice_covers_segment(segment: SegmentView)
    ensures
        slice_end(segment) >= segment.end_ns,
        segment.start_ns < u64::MAX ==> slice_end(segment) > segment.start_ns,
        segment.end_ns > segment.start_ns ==> slice_end(segment) == segment.end_ns,
{
}

/// Whether a text is short enough for every event that it can be part of.
pub open spec fn moderate(value: Seq<char>) -> bool {
    vstd::utf8::encode_utf8(value).len() <= 0x100_0000
}

proof fn lemma_event_fits(
    timestamp_ns: u64,
    event_type: u32,
    track_uuid: u64,
    category: Seq<char>,
    name: Seq<char>,
    annotation: Option<(u64, u64)>,
    args: Seq<Field>,
)
    requires
        category.len() <= 100,
        moderate(name),
        args.len() <= 7,
        forall|i: int|
            0 <= i < args.len() && #[trigger] args[i] is Bytes ==> args[i]->content.len()
                <= 0x100_0000,
    ensures
        fits(
            event_packet(
                timestamp_ns,
                event_type,
                track_uuid,
                Some(category),
                Some(name),
                annotation,
                args,
            ),
        ),
{
    lemma_encoded_length(category);
    lemma_message_length(args, 7, 0x100_0000);
    if let Some((name_iid, value_iid)) = annotation {
        lemma_message_length(proto::debug_annotation(name_iid, value_iid), 2, 0);
    }
    let event = track_event(
        event_type,
        track_uuid,
        Some(category),
        Some(name),
        annotation,
        args,
    );
    lemma_message_length(event, 6, 7 * (20 + 0x100_0000));
    lemma_message_length(
        event_packet(
            timestamp_ns,
            event_type,
            track_uuid,
            Some(category),
            Some(name),
            annotation,
            args,
        ),
        4,
        6 * (20 + 7 * (20 + 0x100_0000)),
    );
}

/// A segment whose texts take at most sixteen megabytes each is always
/// written.
pub proof fn lemma_moderate_segment_fits(process: Process, segment: SegmentView)
    requires
        moderate(segment.name),
        moderate(segment.command),
        moderate(segment.cwd),
    ensures
        fits(segment_begin(process, segment)),
{
    reveal_strlit("buildprof.process");
    lemma_event_fits(
        segment.start_ns,
        proto::TYPE_SLICE_BEGIN,
        process_track(process.pid),
        PROCESS_CATEGORY@,
        segment.name,
        None,
        segment_args(process, segment),
    );
}

/// An open of a file whose path takes at most sixteen megabytes is always
/// written.
pub proof fn lemma_moderate_open_fits(pid: i32, open: FileOpenView)
    requires
        moderate(open.path),
    ensures
        fits(file_open_packet(pid, open)),
{
    reveal_strlit("buildprof.file");
    reveal_strlit("open");
    lemma_encoded_length("open"@);
    lemma_event_fits(
        open.timestamp_ns,
        proto::TYPE_INSTANT,
        file_track(pid),
        FILE_CATEGORY@,
        "open"@,
        None,
        open_args(pid, open),
    );
}

/// A rename between paths of at most sixteen megabytes is always written.
pub proof fn lemma_moderate_rename_fits(pid: i32, rename: RenameView)
    requires
        moderate(rename.from),
        moderate(rename.to),
    ensures
        fits(rename_packet(pid, rename)),
{
    reveal_strlit("buildprof.rename");
    reveal_strlit("rename");
    lemma_encoded_length("rename"@);
    lemma_event_fits(
        rename.timestamp_ns,
        proto::TYPE_INSTANT,
        file_track(pid),
        RENAME_CATEGORY@,
        "rename"@,
        None,
        rename_args(pid, rename),
    );
}

/// A compiler's event whose texts take at most sixteen megabytes each is
/// always begun.
pub proof fn lemma_moderate_compiler_slice_fits(
    pid: i32,
    thread_id: u32,
    backend: Seq<char>,
    category: Seq<char>,
    name: Seq<char>,
    start_ns: u64,
    annotation: Option<(u64, u64)>,
)
    requires
        moderate(backend),
        moderate(category),
        moderate(name),
    ensures
        fits(
            compiler_slice_begin(pid, thread_id, backend, category, name, start_ns, annotation),
        ),
{
    reveal_strlit("buildprof.compiler");
    lemma_event_fits(
        start_ns,
        proto::TYPE_SLICE_BEGIN,
        compiler_track(pid, thread_id, backend),
        COMPILER_CATEGORY@,
        name,
        annotation,
        compiler_args(pid, backend, category),
    );
}

} // verus!
