//! What a viewer finds in the packets of a trace.
//!
//! A viewer knows the fields of a packet by their numbers. The laws here say
//! under which numbers it finds what was recorded.

use super::proto;
use super::wire::{message_bytes, Field};
#[allow(unused_imports)]
use super::wire::Message;
#[allow(unused_imports)]
use super::{
    attributes_packet, collection_options_packet, compiler_track_packet, event_packet,
    file_open_packet, process_started_packets, rename_packet, segment_packets, slice_end_packet,
    SliceView,
};
#[allow(unused_imports)]
use crate::model::{FileOpenView, Process, RenameView, SegmentView};
use vstd::prelude::*;
#[allow(unused_imports)]
use vstd::utf8::encode_utf8;

verus! {

/// The number that a field is known by.
pub open spec fn number_of(field: Field) -> u32 {
    match field {
        Field::Varint { number, .. } => number,
        Field::Bytes { number, .. } => number,
    }
}

/// Whether a message has a field, and no other under the same number.
pub open spec fn says(message: Seq<Field>, field: Field) -> bool {
    &&& exists|i: int| 0 <= i < message.len() && #[trigger] message[i] == field
    &&& forall|i: int|
        0 <= i < message.len() && number_of(#[trigger] message[i]) == number_of(field)
            ==> message[i] == field
}

/// Whether a message has no field under a number.
pub open spec fn lacks(message: Seq<Field>, number: u32) -> bool {
    forall|i: int| 0 <= i < message.len() ==> number_of(#[trigger] message[i]) != number
}

pub open spec fn says_number(message: Seq<Field>, number: u32, value: u64) -> bool {
    says(message, Field::Varint { number, value })
}

pub open spec fn says_text(message: Seq<Field>, number: u32, text: Seq<char>) -> bool {
    says(message, Field::Bytes { number, content: encode_utf8(text) })
}

pub open spec fn says_message(message: Seq<Field>, number: u32, inner: Seq<Field>) -> bool {
    says(message, Field::Bytes { number, content: message_bytes(inner) })
}

/// A signed number as a viewer finds it.
pub open spec fn bits_of(value: int) -> u64 {
    (value % 0x1_0000_0000_0000_0000) as u64
}

/// Whether a packet holds a track event.
pub open spec fn has_event(packet: Seq<Field>, event: Seq<Field>) -> bool {
    says_message(packet, 11, event)
}

/// Whether a packet holds a track event with buildprof's own fields.
pub open spec fn has_fields(packet: Seq<Field>, event: Seq<Field>, fields: Seq<Field>) -> bool {
    has_event(packet, event) && says_message(event, 9900, fields)
}

/// Whether a packet is of a point in time.
pub open spec fn is_at(packet: Seq<Field>, time_ns: u64) -> bool {
    says_number(packet, 8, time_ns)
}

/// Whether a packet begins a slice, on a track.
pub open spec fn begins_slice(packet: Seq<Field>, track: u64) -> bool {
    exists|event: Seq<Field>| #[trigger]
        has_event(packet, event) && says_number(event, 9, 1) && says_number(event, 11, track)
}

/// Whether a packet ends a slice, on a track.
pub open spec fn ends_slice(packet: Seq<Field>, track: u64) -> bool {
    exists|event: Seq<Field>| #[trigger]
        has_event(packet, event) && says_number(event, 9, 2) && says_number(event, 11, track)
}

/// Whether a packet is about a moment, on a track.
pub open spec fn is_instant(packet: Seq<Field>, track: u64) -> bool {
    exists|event: Seq<Field>| #[trigger]
        has_event(packet, event) && says_number(event, 9, 3) && says_number(event, 11, track)
}

/// Whether the event of a packet has a name.
pub open spec fn is_named(packet: Seq<Field>, name: Seq<char>) -> bool {
    exists|event: Seq<Field>| #[trigger] has_event(packet, event) && says_text(event, 23, name)
}

/// Whether the event of a packet has a category.
pub open spec fn is_categorised(packet: Seq<Field>, category: Seq<char>) -> bool {
    exists|event: Seq<Field>| #[trigger] has_event(packet, event) && says_text(event, 22, category)
}

/// Whether a packet shows a text among buildprof's own fields.
pub open spec fn shows_text(packet: Seq<Field>, number: u32, text: Seq<char>) -> bool {
    exists|event: Seq<Field>, fields: Seq<Field>| #[trigger]
        has_fields(packet, event, fields) && says_text(fields, number, text)
}

/// Whether a packet shows a number among buildprof's own fields.
pub open spec fn shows_number(packet: Seq<Field>, number: u32, value: u64) -> bool {
    exists|event: Seq<Field>, fields: Seq<Field>| #[trigger]
        has_fields(packet, event, fields) && says_number(fields, number, value)
}

/// Whether a packet leaves out one of buildprof's own fields.
pub open spec fn shows_no(packet: Seq<Field>, number: u32) -> bool {
    exists|event: Seq<Field>, fields: Seq<Field>| #[trigger]
        has_fields(packet, event, fields) && lacks(fields, number)
}

/// Whether a packet shows the exit code of a process.
pub open spec fn shows_exit_code(packet: Seq<Field>, code: int) -> bool {
    shows_number(packet, 7, code as u64)
}

/// Whether a packet introduces a track.
pub open spec fn introduces(packet: Seq<Field>, track: u64) -> bool {
    exists|descriptor: Seq<Field>| #[trigger]
        says_message(packet, 60, descriptor) && says_number(descriptor, 1, track)
}

proof fn lemma_event(
    timestamp_ns: u64,
    event_type: u32,
    track_uuid: u64,
    category: Option<Seq<char>>,
    name: Option<Seq<char>>,
    annotation: Option<(u64, u64)>,
    args: Seq<Field>,
)
    ensures
        ({
            let packet = event_packet(
                timestamp_ns,
                event_type,
                track_uuid,
                category,
                name,
                annotation,
                args,
            );
            let event = proto::track_event(
                event_type,
                track_uuid,
                category,
                name,
                annotation,
                args,
            );
            &&& is_at(packet, timestamp_ns)
            &&& has_event(packet, event)
            &&& says_number(event, 9, event_type as u64)
            &&& says_number(event, 11, track_uuid)
            &&& name matches Some(name) ==> says_text(event, 23, name)
            &&& category matches Some(category) ==> says_text(event, 22, category)
            &&& event_type != 2 ==> says_message(event, 9900, args)
        }),
{
    let packet = event_packet(
        timestamp_ns,
        event_type,
        track_uuid,
        category,
        name,
        annotation,
        args,
    );
    let event = proto::track_event(event_type, track_uuid, category, name, annotation, args);
    assert(packet[0] == Field::Varint { number: 8, value: timestamp_ns });
    assert(packet[packet.len() - 1] == Field::Bytes { number: 11, content: message_bytes(event) });
    let heading = proto::event_heading(event_type, track_uuid, category, name);
    assert(event[0] == Field::Varint { number: 9, value: event_type as u64 });
    assert(event[1] == Field::Varint { number: 11, value: track_uuid });
    if let Some(category) = category {
        assert(heading[2] == Field::Bytes { number: 22, content: encode_utf8(category) });
        assert(event[2] == heading[2]);
    }
    if let Some(name) = name {
        assert(heading[heading.len() - 1] == Field::Bytes {
            number: 23,
            content: encode_utf8(name),
        });
        assert(event[heading.len() - 1] == heading[heading.len() - 1]);
    }
    if event_type != 2 {
        assert(event[event.len() - 1] == Field::Bytes {
            number: 9900,
            content: message_bytes(args),
        });
    }
}

proof fn lemma_slice_end(timestamp_ns: u64, track_uuid: u64)
    ensures
        is_at(slice_end_packet(timestamp_ns, track_uuid), timestamp_ns),
        ends_slice(slice_end_packet(timestamp_ns, track_uuid), track_uuid),
{
    lemma_event(timestamp_ns, 2, track_uuid, None, None, None, Seq::empty());
}

/// Of a segment a viewer finds, on the track of its process, when it began and
/// ended, its program, command and directory, the process with its parents,
/// and how it ended, if it did.
pub proof fn lemma_segment_shown(process: Process, segment: SegmentView)
    ensures
        ({
            let packets = segment_packets(process, segment);
            let begin = packets[0];
            let end = packets[1];
            let track = (4 * (process.pid as int % 0x1_0000_0000) + 1) as u64;
            &&& packets.len() == 2
            &&& is_at(begin, segment.start_ns)
            &&& begins_slice(begin, track)
            &&& ends_slice(end, track)
            &&& segment.end_ns > segment.start_ns ==> is_at(end, segment.end_ns)
            &&& is_named(begin, segment.name)
            &&& is_categorised(begin, "buildprof.process"@)
            &&& shows_text(begin, 1, segment.command)
            &&& shows_text(begin, 2, segment.cwd)
            &&& shows_number(begin, 3, bits_of(process.pid as int))
            &&& shows_number(begin, 4, bits_of(process.parent_pid as int))
            &&& shows_number(begin, 5, bits_of(process.build_parent_pid as int))
            &&& shows_number(
                begin,
                6,
                if process.execed {
                    1
                } else {
                    0
                },
            )
            &&& match segment.exit_code {
                Some(code) => shows_exit_code(begin, code as int),
                None => shows_no(begin, 7),
            }
        }),
{
    let args = proto::segment_args(process, segment);
    let track = super::process_track(process.pid);
    let event = proto::track_event(
        1,
        track,
        Some(super::PROCESS_CATEGORY@),
        Some(segment.name),
        None,
        args,
    );
    let begin = segment_packets(process, segment)[0];
    lemma_event(
        segment.start_ns,
        1,
        track,
        Some(super::PROCESS_CATEGORY@),
        Some(segment.name),
        None,
        args,
    );
    lemma_slice_end(super::slice_end(segment), track);
    assert(has_fields(begin, event, args));
    assert(args[0] == Field::Bytes { number: 1, content: encode_utf8(segment.command) });
    assert(args[1] == Field::Bytes { number: 2, content: encode_utf8(segment.cwd) });
    assert(args[2] == Field::Varint { number: 3, value: bits_of(process.pid as int) });
    assert(args[3] == Field::Varint { number: 4, value: bits_of(process.parent_pid as int) });
    assert(args[4] == Field::Varint {
        number: 5,
        value: bits_of(process.build_parent_pid as int),
    });
    assert(args[5] == Field::Varint {
        number: 6,
        value: if process.execed {
            1
        } else {
            0
        },
    });
    if let Some(code) = segment.exit_code {
        assert(args[6] == Field::Varint { number: 7, value: code as u64 });
        assert(says_number(args, 7, code as u64));
    } else {
        assert(lacks(args, 7));
    }
    assert(says_text(args, 1, segment.command));
    assert(says_text(args, 2, segment.cwd));
    assert(says_number(args, 3, bits_of(process.pid as int)));
    assert(says_number(args, 4, bits_of(process.parent_pid as int)));
    assert(says_number(args, 5, bits_of(process.build_parent_pid as int)));
    assert(says_number(
        args,
        6,
        if process.execed {
            1
        } else {
            0
        },
    ));
}

/// Of a file that was opened a viewer finds, on the file track of the process
/// that did, when, under which path, with which flags and as which descriptor.
pub proof fn lemma_open_shown(pid: i32, open: FileOpenView)
    ensures
        ({
            let packet = file_open_packet(pid, open);
            &&& is_at(packet, open.timestamp_ns)
            &&& is_instant(packet, (4 * (pid as int % 0x1_0000_0000) + 2) as u64)
            &&& is_categorised(packet, "buildprof.file"@)
            &&& shows_text(packet, 8, open.path)
            &&& shows_number(packet, 9, open.flags)
            &&& shows_number(packet, 10, bits_of(open.fd as int))
            &&& shows_number(packet, 13, bits_of(pid as int))
        }),
{
    let args = proto::open_args(pid, open);
    let track = super::file_track(pid);
    let packet = file_open_packet(pid, open);
    let event = proto::track_event(
        3,
        track,
        Some(super::FILE_CATEGORY@),
        Some("open"@),
        None,
        args,
    );
    lemma_event(
        open.timestamp_ns,
        3,
        track,
        Some(super::FILE_CATEGORY@),
        Some("open"@),
        None,
        args,
    );
    assert(has_fields(packet, event, args));
    assert(args[0] == Field::Bytes { number: 8, content: encode_utf8(open.path) });
    assert(args[1] == Field::Varint { number: 13, value: bits_of(pid as int) });
    assert(args[2] == Field::Varint { number: 9, value: open.flags });
    assert(args[3] == Field::Varint { number: 10, value: bits_of(open.fd as int) });
    assert(says_text(args, 8, open.path));
    assert(says_number(args, 13, bits_of(pid as int)));
    assert(says_number(args, 9, open.flags));
    assert(says_number(args, 10, bits_of(open.fd as int)));
}

/// Of a file that was moved a viewer finds, on the file track of the process
/// that did, when, from where and to where.
pub proof fn lemma_rename_shown(pid: i32, rename: RenameView)
    ensures
        ({
            let packet = rename_packet(pid, rename);
            &&& is_at(packet, rename.timestamp_ns)
            &&& is_instant(packet, (4 * (pid as int % 0x1_0000_0000) + 2) as u64)
            &&& is_categorised(packet, "buildprof.rename"@)
            &&& shows_text(packet, 11, rename.from)
            &&& shows_text(packet, 12, rename.to)
            &&& shows_number(packet, 13, bits_of(pid as int))
        }),
{
    let args = proto::rename_args(pid, rename);
    let track = super::file_track(pid);
    let packet = rename_packet(pid, rename);
    let event = proto::track_event(
        3,
        track,
        Some(super::RENAME_CATEGORY@),
        Some("rename"@),
        None,
        args,
    );
    lemma_event(
        rename.timestamp_ns,
        3,
        track,
        Some(super::RENAME_CATEGORY@),
        Some("rename"@),
        None,
        args,
    );
    assert(has_fields(packet, event, args));
    assert(args[0] == Field::Bytes { number: 11, content: encode_utf8(rename.from) });
    assert(args[1] == Field::Bytes { number: 12, content: encode_utf8(rename.to) });
    assert(args[2] == Field::Varint { number: 13, value: bits_of(pid as int) });
    assert(says_text(args, 11, rename.from));
    assert(says_text(args, 12, rename.to));
    assert(says_number(args, 13, bits_of(pid as int)));
}

/// Of a phase of a compiler a viewer finds, last of all, a slice on a track
/// that was introduced for its thread, with its times, name, category, backend
/// and process.
pub proof fn lemma_slice_shown(
    slice: SliceView,
    names: Map<Seq<char>, u64>,
    values: Map<Seq<char>, u64>,
)
    ensures
        ({
            let packets = slice.packets(names, values);
            let begin = packets[packets.len() - 2];
            let end = packets[packets.len() - 1];
            let track = super::compiler_track(slice.pid, slice.thread_id, slice.backend);
            &&& packets.len() >= 2
            &&& is_at(begin, slice.start_ns)
            &&& begins_slice(begin, track)
            &&& ends_slice(end, track)
            &&& slice.start_ns + slice.duration_ns <= u64::MAX ==> is_at(
                end,
                (slice.start_ns + slice.duration_ns) as u64,
            )
            &&& slice.start_ns + slice.duration_ns > u64::MAX ==> is_at(end, u64::MAX)
            &&& is_named(begin, slice.name)
            &&& is_categorised(begin, "buildprof.compiler"@)
            &&& shows_number(begin, 13, bits_of(slice.pid as int))
            &&& shows_text(begin, 14, slice.backend)
            &&& shows_text(begin, 15, slice.category)
            &&& introduces(
                compiler_track_packet(slice.pid, slice.thread_id, slice.backend),
                track,
            )
        }),
{
    let args = proto::compiler_args(slice.pid, slice.backend, slice.category);
    let track = super::compiler_track(slice.pid, slice.thread_id, slice.backend);
    let packets = slice.packets(names, values);
    let begin = packets[packets.len() - 2];
    let annotation = match slice.detail {
        Some(detail) => Some((super::iid(names, "detail"@), super::iid(values, detail))),
        None => None,
    };
    let event = proto::track_event(
        1,
        track,
        Some(super::COMPILER_CATEGORY@),
        Some(slice.name),
        annotation,
        args,
    );
    assert(begin == slice.begin(names, values));
    lemma_event(
        slice.start_ns,
        1,
        track,
        Some(super::COMPILER_CATEGORY@),
        Some(slice.name),
        annotation,
        args,
    );
    lemma_slice_end(super::later(slice.start_ns, slice.duration_ns), track);
    assert(has_fields(begin, event, args));
    assert(args[0] == Field::Varint { number: 13, value: bits_of(slice.pid as int) });
    assert(args[1] == Field::Bytes { number: 14, content: encode_utf8(slice.backend) });
    assert(args[2] == Field::Bytes { number: 15, content: encode_utf8(slice.category) });
    assert(says_number(args, 13, bits_of(slice.pid as int)));
    assert(says_text(args, 14, slice.backend));
    assert(says_text(args, 15, slice.category));
    lemma_introduced(
        track,
        Some(1),
        super::compiler_track_name(slice.pid, slice.thread_id, slice.backend),
        None,
    );
}

/// Whether the event of a packet is annotated with numbers for a name and a
/// value.
pub open spec fn is_annotated(packet: Seq<Field>, name_iid: u64, value_iid: u64) -> bool {
    exists|event: Seq<Field>, annotation: Seq<Field>|
        #![trigger has_event(packet, event), says_message(event, 4, annotation)]
        has_event(packet, event) && says_message(event, 4, annotation) && says_number(
            annotation,
            1,
            name_iid,
        ) && says_number(annotation, 17, value_iid)
}

/// Whether a packet tells which string a number stands for, among the names
/// (3) or the values (29) of annotations.
pub open spec fn tells(packet: Seq<Field>, table: u32, iid: u64, string: Seq<char>) -> bool {
    exists|data: Seq<Field>, entry: Seq<Field>|
        #![trigger says_message(packet, 12, data), says_message(data, table, entry)]
        says_message(packet, 12, data) && says_message(data, table, entry) && says_number(
            entry,
            1,
            iid,
        ) && says_text(entry, 2, string)
}

proof fn lemma_told(iid: u64, string: Seq<char>)
    ensures
        says_number(proto::interned_string(iid, string), 1, iid),
        says_text(proto::interned_string(iid, string), 2, string),
{
    let entry = proto::interned_string(iid, string);
    assert(entry[0] == Field::Varint { number: 1, value: iid });
    assert(entry[1] == Field::Bytes { number: 2, content: encode_utf8(string) });
}

/// The detail of a phase is shown by a number, which a viewer is told before
/// it is first used.
pub proof fn lemma_detail_shown(
    slice: SliceView,
    detail: Seq<char>,
    names: Map<Seq<char>, u64>,
    values: Map<Seq<char>, u64>,
)
    requires
        slice.detail == Some(detail),
    ensures
        ({
            let packets = slice.packets(names, values);
            let begin = packets[packets.len() - 2];
            let name_iid = super::iid(names, "detail"@);
            let value_iid = super::iid(values, detail);
            &&& is_annotated(begin, name_iid, value_iid)
            &&& !values.contains_key(detail) ==> packets.len() == 3 && tells(
                packets[0],
                29,
                value_iid,
                detail,
            )
            &&& !names.contains_key("detail"@) ==> packets.len() == 3 && tells(
                packets[0],
                3,
                name_iid,
                "detail"@,
            )
            &&& names.contains_key("detail"@) && values.contains_key(detail) ==> packets.len() == 2
        }),
{
    let packets = slice.packets(names, values);
    let begin = packets[packets.len() - 2];
    let name_iid = super::iid(names, "detail"@);
    let value_iid = super::iid(values, detail);
    let args = proto::compiler_args(slice.pid, slice.backend, slice.category);
    let track = super::compiler_track(slice.pid, slice.thread_id, slice.backend);
    let event = proto::track_event(
        1,
        track,
        Some(super::COMPILER_CATEGORY@),
        Some(slice.name),
        Some((name_iid, value_iid)),
        args,
    );
    let annotation = proto::debug_annotation(name_iid, value_iid);
    assert(begin == slice.begin(names, values));
    lemma_event(
        slice.start_ns,
        1,
        track,
        Some(super::COMPILER_CATEGORY@),
        Some(slice.name),
        Some((name_iid, value_iid)),
        args,
    );
    assert(event[4] == Field::Bytes { number: 4, content: message_bytes(annotation) });
    assert(says_message(event, 4, annotation));
    assert(annotation[0] == Field::Varint { number: 1, value: name_iid });
    assert(annotation[1] == Field::Varint { number: 17, value: value_iid });
    assert(says_number(annotation, 1, name_iid));
    assert(says_number(annotation, 17, value_iid));
    if !names.contains_key("detail"@) || !values.contains_key(detail) {
        let name = if names.contains_key("detail"@) {
            None
        } else {
            Some((name_iid, "detail"@))
        };
        let value = if values.contains_key(detail) {
            None
        } else {
            Some((value_iid, detail))
        };
        let data = proto::interned_data(name, value);
        let packet = packets[0];
        assert(packet == super::interning_packets(names, values, "detail"@, detail)[0]);
        assert(packet[packet.len() - 1] == Field::Bytes {
            number: 12,
            content: message_bytes(data),
        });
        assert(says_message(packet, 12, data));
        lemma_told(name_iid, "detail"@);
        lemma_told(value_iid, detail);
        if name is Some {
            let entry = proto::interned_string(name_iid, "detail"@);
            assert(data[0] == Field::Bytes { number: 3, content: message_bytes(entry) });
            assert(says_message(data, 3, entry));
        }
        if value is Some {
            let entry = proto::interned_string(value_iid, detail);
            assert(data[data.len() - 1] == Field::Bytes {
                number: 29,
                content: message_bytes(entry),
            });
            assert(says_message(data, 29, entry));
        }
    }
}

/// The descriptor that a trace carries tells a viewer the name of each of
/// buildprof's own fields, as they are used: `cmd` is field 1, and so on.
pub proof fn lemma_fields_described(i: int)
    requires
        0 <= i < 15,
    ensures
        ({
            let (name, number, kind) = proto::buildprof_event_fields()[i];
            &&& proto::buildprof_event_fields().len() == 15
            &&& number == i + 1
            &&& (i == 0 ==> name == "cmd"@) && (i == 1 ==> name == "cwd"@) && (i == 2 ==> name
                == "pid"@) && (i == 3 ==> name == "ppid"@) && (i == 4 ==> name == "build_ppid"@)
            &&& (i == 5 ==> name == "execed"@) && (i == 6 ==> name == "exit_code"@) && (i == 7
                ==> name == "path"@) && (i == 8 ==> name == "flags"@) && (i == 9 ==> name
                == "fd"@)
            &&& (i == 10 ==> name == "from"@) && (i == 11 ==> name == "to"@) && (i == 12 ==> name
                == "owner_pid"@) && (i == 13 ==> name == "backend"@) && (i == 14 ==> name
                == "compiler_category"@)
            &&& kind == (if i == 0 || i == 1 || i == 7 || i == 10 || i == 11 || i == 13 || i == 14 {
                9u32
            } else if i == 5 {
                8
            } else if i == 6 {
                13
            } else if i == 8 {
                4
            } else {
                5
            })
        }),
{
}

proof fn lemma_introduced(
    uuid: u64,
    parent_uuid: Option<u64>,
    name: Seq<char>,
    merge_key: Option<Seq<char>>,
)
    ensures
        ({
            let packet = super::descriptor_packet(uuid, parent_uuid, name, merge_key);
            let descriptor = proto::track_descriptor(uuid, parent_uuid, name, merge_key);
            &&& introduces(packet, uuid)
            &&& says_message(packet, 60, descriptor)
            &&& says_number(descriptor, 1, uuid)
            &&& says_text(descriptor, 2, name)
            &&& parent_uuid matches Some(parent) ==> says_number(descriptor, 5, parent)
        }),
{
    let packet = super::descriptor_packet(uuid, parent_uuid, name, merge_key);
    let descriptor = proto::track_descriptor(uuid, parent_uuid, name, merge_key);
    assert(packet[packet.len() - 1] == Field::Bytes {
        number: 60,
        content: message_bytes(descriptor),
    });
    assert(descriptor[0] == Field::Varint { number: 1, value: uuid });
    assert(descriptor[1] == Field::Bytes { number: 2, content: encode_utf8(name) });
    if let Some(parent) = parent_uuid {
        assert(descriptor[2] == Field::Varint { number: 5, value: parent });
    }
    assert(says_message(packet, 60, descriptor));
    assert(says_number(descriptor, 1, uuid));
}

/// The tracks on which a process is shown are introduced when it starts: one
/// for what it ran and one for its files, both below the track of the build.
pub proof fn lemma_tracks_introduced(pid: i32)
    ensures
        ({
            let packets = process_started_packets(pid);
            let track = (4 * (pid as int % 0x1_0000_0000) + 1) as u64;
            let files = (4 * (pid as int % 0x1_0000_0000) + 2) as u64;
            &&& packets.len() == 2
            &&& introduces(packets[0], track)
            &&& introduces(packets[1], files)
            &&& hangs_below(packets[0], 1)
            &&& hangs_below(packets[1], 1)
        }),
{
    lemma_introduced(
        super::process_track(pid),
        Some(1),
        "Processes"@,
        Some(super::PROCESS_MERGE_KEY@),
    );
    lemma_introduced(
        super::file_track(pid),
        Some(1),
        "File opens"@,
        Some(super::FILE_MERGE_KEY@),
    );
}

/// Whether the track that a packet introduces hangs below another.
pub open spec fn hangs_below(packet: Seq<Field>, parent: u64) -> bool {
    exists|descriptor: Seq<Field>| #[trigger]
        says_message(packet, 60, descriptor) && says_number(descriptor, 5, parent)
}

/// Whether a packet gives the whole trace an attribute, a number under a key.
pub open spec fn has_number_attribute(packet: Seq<Field>, key: Seq<char>, value: u64) -> bool {
    exists|attributes: Seq<Field>, i: int, attribute: Seq<Field>|
        #![trigger says_message(packet, 126, attributes), attributes[i], message_bytes(attribute)]
        says_message(packet, 126, attributes) && 0 <= i < attributes.len() && attributes[i] == (
        Field::Bytes { number: 1, content: message_bytes(attribute) }) && says_text(
            attribute,
            1,
            key,
        ) && says_number(attribute, 2, value)
}

/// A trace says whether it was to hold files and compilers' phases.
pub proof fn lemma_options_shown(file_events: bool, compiler_traces: bool)
    ensures
        ({
            let packet = collection_options_packet(file_events, compiler_traces);
            &&& has_number_attribute(
                packet,
                "buildprof.file_events"@,
                if file_events {
                    1
                } else {
                    0
                },
            )
            &&& has_number_attribute(
                packet,
                "buildprof.compiler_traces"@,
                if compiler_traces {
                    1
                } else {
                    0
                },
            )
        }),
{
    let packet = collection_options_packet(file_events, compiler_traces);
    let first = proto::long_attribute("buildprof.file_events"@, super::flag(file_events));
    let second = proto::long_attribute("buildprof.compiler_traces"@, super::flag(compiler_traces));
    let all = seq![first, second];
    let attributes = all.map_values(
        |attribute: Seq<Field>| proto::nested(proto::ATTRIBUTES_ATTRIBUTE, attribute),
    );
    assert(packet == attributes_packet(all));
    assert(packet[packet.len() - 1] == Field::Bytes {
        number: 126,
        content: message_bytes(attributes),
    });
    assert(says_message(packet, 126, attributes));
    assert(attributes[0] == Field::Bytes { number: 1, content: message_bytes(first) });
    assert(attributes[1] == Field::Bytes { number: 1, content: message_bytes(second) });
    assert(first[0] == Field::Bytes {
        number: 1,
        content: encode_utf8("buildprof.file_events"@),
    });
    assert(first[1] == Field::Varint { number: 2, value: super::flag(file_events) as u64 });
    assert(second[0] == Field::Bytes {
        number: 1,
        content: encode_utf8("buildprof.compiler_traces"@),
    });
    assert(second[1] == Field::Varint { number: 2, value: super::flag(compiler_traces) as u64 });
}

/// Whether a packet gives the whole trace an attribute, a text under a key.
pub open spec fn has_text_attribute(packet: Seq<Field>, key: Seq<char>, value: Seq<char>) -> bool {
    exists|attributes: Seq<Field>, i: int, attribute: Seq<Field>|
        #![trigger says_message(packet, 126, attributes), attributes[i], message_bytes(attribute)]
        says_message(packet, 126, attributes) && 0 <= i < attributes.len() && attributes[i] == (
        Field::Bytes { number: 1, content: message_bytes(attribute) }) && says_text(
            attribute,
            1,
            key,
        ) && says_text(attribute, 3, value)
}

/// Whether the track that a packet introduces has a name.
pub open spec fn names_track(packet: Seq<Field>, name: Seq<char>) -> bool {
    exists|descriptor: Seq<Field>| #[trigger]
        says_message(packet, 60, descriptor) && says_text(descriptor, 2, name)
}

/// A trace begins with how to read it: the descriptor of buildprof's own
/// fields, the release and the format, and the track of the build. With that
/// packet a viewer forgets the strings that came before.
pub proof fn lemma_preamble_shown()
    ensures
        super::preamble().len() == 3,
        says_message(super::preamble()[0], 72, proto::ExtensionDescriptor.fields()),
        has_text_attribute(super::preamble()[1], "buildprof.version"@, "0.2.7"@),
        has_number_attribute(super::preamble()[1], "buildprof.trace_format"@, 1),
        introduces(super::preamble()[2], 1),
        names_track(super::preamble()[2], "Build"@),
        says_number(super::preamble()[2], 13, 1),
{
    let first = super::preamble()[0];
    assert(first[0] == Field::Bytes {
        number: 72,
        content: message_bytes(proto::ExtensionDescriptor.fields()),
    });
    let packet = super::preamble()[1];
    let all = super::preamble_attributes();
    let attributes = all.map_values(
        |attribute: Seq<Field>| proto::nested(proto::ATTRIBUTES_ATTRIBUTE, attribute),
    );
    assert(packet[packet.len() - 1] == Field::Bytes {
        number: 126,
        content: message_bytes(attributes),
    });
    assert(says_message(packet, 126, attributes));
    let version = proto::text_attribute("buildprof.version"@, "0.2.7"@);
    let format = proto::long_attribute("buildprof.trace_format"@, 1);
    assert(attributes[0] == Field::Bytes { number: 1, content: message_bytes(version) });
    assert(attributes[1] == Field::Bytes { number: 1, content: message_bytes(format) });
    assert(version[0] == Field::Bytes { number: 1, content: encode_utf8("buildprof.version"@) });
    assert(version[1] == Field::Bytes { number: 3, content: encode_utf8("0.2.7"@) });
    assert(says_text(version, 1, "buildprof.version"@) && says_text(version, 3, "0.2.7"@));
    assert(format[0] == Field::Bytes {
        number: 1,
        content: encode_utf8("buildprof.trace_format"@),
    });
    assert(format[1] == Field::Varint { number: 2, value: 1 });
    assert(says_text(format, 1, "buildprof.trace_format"@) && says_number(format, 2, 1));
    let root = super::preamble()[2];
    let descriptor = proto::track_descriptor(1, None, "Build"@, None);
    assert(root[0] == Field::Varint { number: 10, value: 1 });
    assert(root[1] == Field::Varint { number: 13, value: 1 });
    assert(root[2] == Field::Bytes { number: 60, content: message_bytes(descriptor) });
    assert(says_message(root, 60, descriptor));
    assert(descriptor[0] == Field::Varint { number: 1, value: 1 });
    assert(descriptor[1] == Field::Bytes { number: 2, content: encode_utf8("Build"@) });
    assert(says_number(descriptor, 1, 1) && says_text(descriptor, 2, "Build"@));
}

/// The track of a compiler's thread is introduced below the track of the
/// build, under a name that says which compiler, process and thread it is.
pub proof fn lemma_compiler_track_introduced(pid: i32, thread_id: u32, backend: Seq<char>)
    ensures
        ({
            let packet = compiler_track_packet(pid, thread_id, backend);
            &&& introduces(packet, super::compiler_track(pid, thread_id, backend))
            &&& hangs_below(packet, 1)
            &&& names_track(
                packet,
                backend + " compiler [pid "@ + crate::text::decimal(pid as int) + "] · thread "@
                    + crate::text::decimal(thread_id as int),
            )
        }),
{
    let name = super::compiler_track_name(pid, thread_id, backend);
    let uuid = super::compiler_track(pid, thread_id, backend);
    lemma_introduced(uuid, Some(1), name, None);
    let packet = compiler_track_packet(pid, thread_id, backend);
    let descriptor = proto::track_descriptor(uuid, Some(1), name, None);
    assert(packet[packet.len() - 1] == Field::Bytes {
        number: 60,
        content: message_bytes(descriptor),
    });
    assert(says_message(packet, 60, descriptor));
    assert(descriptor[1] == Field::Bytes { number: 2, content: encode_utf8(name) });
    assert(says_text(descriptor, 2, name));
}

/// An event whose strings stand in an earlier packet says that it needs them.
pub proof fn lemma_strings_needed(
    slice: SliceView,
    detail: Seq<char>,
    names: Map<Seq<char>, u64>,
    values: Map<Seq<char>, u64>,
)
    requires
        slice.detail == Some(detail),
    ensures
        says_number(slice.begin(names, values), 13, 2),
        says_number(slice.begin(names, values), 10, 1),
{
    let packet = slice.begin(names, values);
    assert(packet[1] == Field::Varint { number: 10, value: 1 });
    assert(packet[2] == Field::Varint { number: 13, value: 2 });
}

} // verus!
