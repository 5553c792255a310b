//! Handwritten Perfetto protobuf schema.
//!
//! The borrowed message types encode only the public fields buildprof uses.
//! Field numbers come from Perfetto's `TracePacket`, `TrackDescriptor`, and
//! `TrackEvent` proto definitions.

use super::wire::{Encoder, Field, Message};
#[allow(unused_imports)]
use super::wire::{fits, lemma_nested_fits, message_bytes, signed_bits};
use crate::model::{FileOpen, Process, Rename, Segment};
#[allow(unused_imports)]
use crate::model::{FileOpenView, RenameView, SegmentView};
use vstd::prelude::*;
#[allow(unused_imports)]
use vstd::utf8::encode_utf8;

verus! {

pub const PACKET_SEQUENCE_ID: u64 = 1;

pub const ROOT_TRACK_UUID: u64 = 1;

pub const TYPE_SLICE_BEGIN: u32 = 1;

pub const TYPE_SLICE_END: u32 = 2;

pub const TYPE_INSTANT: u32 = 3;

/// Perfetto reserves TrackEvent field numbers 1000 and above for extensions.
pub const BUILDPROF_EXTENSION_FIELD: u32 = 9900;

pub const MERGE_BY_KEY: u64 = 3;

pub const SEQUENCE_INCREMENTAL_STATE_CLEARED: u64 = 1;

pub const SEQUENCE_NEEDS_INCREMENTAL_STATE: u64 = 2;

pub const TRACE_PACKET: u32 = 1;

pub const PACKET_TIMESTAMP: u32 = 8;

pub const PACKET_TRUSTED_SEQUENCE: u32 = 10;

pub const PACKET_TRACK_EVENT: u32 = 11;

pub const PACKET_INTERNED_DATA: u32 = 12;

pub const PACKET_SEQUENCE_FLAGS: u32 = 13;

pub const PACKET_TRACK_DESCRIPTOR: u32 = 60;

pub const PACKET_EXTENSION_DESCRIPTOR: u32 = 72;

pub const PACKET_TRACE_ATTRIBUTES: u32 = 126;

pub const PACKET_ZSTD_COMPRESSED: u32 = 133;

pub const ATTRIBUTES_ATTRIBUTE: u32 = 1;

pub const ATTRIBUTE_KEY: u32 = 1;

pub const ATTRIBUTE_LONG_VALUE: u32 = 2;

pub const ATTRIBUTE_STRING_VALUE: u32 = 3;

pub const TRACK_UUID: u32 = 1;

pub const TRACK_NAME: u32 = 2;

pub const TRACK_PARENT_UUID: u32 = 5;

pub const TRACK_SIBLING_MERGE_BEHAVIOR: u32 = 15;

pub const TRACK_SIBLING_MERGE_KEY: u32 = 16;

pub const EVENT_DEBUG_ANNOTATIONS: u32 = 4;

pub const EVENT_TYPE: u32 = 9;

pub const EVENT_TRACK_UUID: u32 = 11;

pub const EVENT_CATEGORIES: u32 = 22;

pub const EVENT_NAME: u32 = 23;

pub const INTERNED_ANNOTATION_NAMES: u32 = 3;

pub const INTERNED_ANNOTATION_STRING_VALUES: u32 = 29;

pub const INTERNED_IID: u32 = 1;

pub const INTERNED_VALUE: u32 = 2;

pub const ANNOTATION_NAME_IID: u32 = 1;

pub const ANNOTATION_STRING_VALUE_IID: u32 = 17;

pub const BUILDPROF_COMMAND: u32 = 1;

pub const BUILDPROF_CWD: u32 = 2;

pub const BUILDPROF_PID: u32 = 3;

pub const BUILDPROF_PARENT_PID: u32 = 4;

pub const BUILDPROF_BUILD_PARENT_PID: u32 = 5;

pub const BUILDPROF_EXECED: u32 = 6;

pub const BUILDPROF_EXIT_CODE: u32 = 7;

pub const BUILDPROF_PATH: u32 = 8;

pub const BUILDPROF_FLAGS: u32 = 9;

pub const BUILDPROF_FD: u32 = 10;

pub const BUILDPROF_FROM: u32 = 11;

pub const BUILDPROF_TO: u32 = 12;

pub const BUILDPROF_OWNER_PID: u32 = 13;

pub const BUILDPROF_BACKEND: u32 = 14;

pub const BUILDPROF_COMPILER_CATEGORY: u32 = 15;

pub const EXTENSION_SET: u32 = 1;

pub const DESCRIPTOR_SET_FILE: u32 = 1;

pub const FILE_NAME: u32 = 1;

pub const FILE_PACKAGE: u32 = 2;

pub const FILE_DEPENDENCY: u32 = 3;

pub const FILE_MESSAGE_TYPE: u32 = 4;

pub const FILE_SYNTAX: u32 = 12;

pub const MESSAGE_NAME: u32 = 1;

pub const MESSAGE_FIELD: u32 = 2;

pub const MESSAGE_EXTENSION: u32 = 6;

pub const FIELD_NAME: u32 = 1;

pub const FIELD_EXTENDEE: u32 = 2;

pub const FIELD_NUMBER: u32 = 3;

pub const FIELD_LABEL: u32 = 4;

pub const FIELD_TYPE: u32 = 5;

pub const FIELD_TYPE_NAME: u32 = 6;

pub const LABEL_OPTIONAL: u64 = 1;

pub const TYPE_UINT64: u32 = 4;

pub const TYPE_INT32: u32 = 5;

pub const TYPE_BOOL: u32 = 8;

pub const TYPE_STRING: u32 = 9;

pub const TYPE_MESSAGE: u32 = 11;

pub const TYPE_UINT32: u32 = 13;

/// A field that holds a number.
pub open spec fn number(field: u32, value: u64) -> Field {
    Field::Varint { number: field, value }
}

/// A field that holds a signed 32-bit number.
pub open spec fn signed_number(field: u32, value: i32) -> Field {
    number(field, signed_bits(value as i64))
}

/// A field that holds a truth value.
pub open spec fn truth(field: u32, value: bool) -> Field {
    number(
        field,
        if value {
            1
        } else {
            0
        },
    )
}

/// A field that holds a text.
pub open spec fn text(field: u32, value: Seq<char>) -> Field {
    Field::Bytes { number: field, content: encode_utf8(value) }
}

/// A field that holds a message.
pub open spec fn nested(field: u32, fields: Seq<Field>) -> Field {
    Field::Bytes { number: field, content: message_bytes(fields) }
}

/// A field that is there only if it has a value.
pub open spec fn optional(field: Option<Field>) -> Seq<Field> {
    match field {
        Some(field) => seq![field],
        None => seq![],
    }
}

/// A value stored in Perfetto's metadata table under `trace_attribute.<key>`.
#[derive(Clone, Copy, Debug)]
pub enum AttributeValue<'a> {
    Long(i64),
    Str(&'a str),
}

pub struct TraceAttribute<'a> {
    pub key: &'a str,
    pub value: AttributeValue<'a>,
}

pub open spec fn long_attribute(key: Seq<char>, value: i64) -> Seq<Field> {
    seq![text(ATTRIBUTE_KEY, key), number(ATTRIBUTE_LONG_VALUE, signed_bits(value))]
}

pub open spec fn text_attribute(key: Seq<char>, value: Seq<char>) -> Seq<Field> {
    seq![text(ATTRIBUTE_KEY, key), text(ATTRIBUTE_STRING_VALUE, value)]
}

impl Message for TraceAttribute<'_> {
    open spec fn fields(&self) -> Seq<Field> {
        match self.value {
            AttributeValue::Long(value) => long_attribute(self.key@, value),
            AttributeValue::Str(value) => text_attribute(self.key@, value@),
        }
    }

    fn encode(&self, encoder: &mut Encoder) {
        encoder.string(ATTRIBUTE_KEY, self.key);
        match self.value {
            AttributeValue::Long(value) => encoder.signed(ATTRIBUTE_LONG_VALUE, value),
            AttributeValue::Str(value) => encoder.string(ATTRIBUTE_STRING_VALUE, value),
        }
    }
}

pub struct TraceAttributes<'a> {
    pub attributes: &'a [TraceAttribute<'a>],
}

impl Message for TraceAttributes<'_> {
    open spec fn fields(&self) -> Seq<Field> {
        self.attributes@.map_values(
            |attribute: TraceAttribute| nested(ATTRIBUTES_ATTRIBUTE, attribute.fields()),
        )
    }

    fn encode(&self, encoder: &mut Encoder) {
        for i in 0..self.attributes.len()
            invariant
                encoder.wf(),
                encoder.counting() || fits(self.fields()),
                encoder.counting() == old(encoder).counting(),
                encoder.start() == old(encoder).start(),
                encoder@ =~= old(encoder)@ + self.fields().take(i as int),
        {
            proof {
                lemma_nested_fits(self.fields(), i as int);
            }
            encoder.message(ATTRIBUTES_ATTRIBUTE, &self.attributes[i]);
        }
    }
}

/// A string given a number for later events to refer to it by.
pub struct InternedString<'a> {
    pub iid: u64,
    pub value: &'a str,
}

impl Message for InternedString<'_> {
    open spec fn fields(&self) -> Seq<Field> {
        interned_string(self.iid, self.value@)
    }

    fn encode(&self, encoder: &mut Encoder) {
        encoder.uint(INTERNED_IID, self.iid);
        encoder.string(INTERNED_VALUE, self.value);
    }
}

pub open spec fn interned_string(iid: u64, value: Seq<char>) -> Seq<Field> {
    seq![number(INTERNED_IID, iid), text(INTERNED_VALUE, value)]
}

/// The strings of a debug annotation that a reader has not been told yet.
pub struct InternedData<'a> {
    pub name: Option<InternedString<'a>>,
    pub value: Option<InternedString<'a>>,
}

pub open spec fn interned_data(
    name: Option<(u64, Seq<char>)>,
    value: Option<(u64, Seq<char>)>,
) -> Seq<Field> {
    optional(
        match name {
            Some((iid, name)) => Some(
                nested(INTERNED_ANNOTATION_NAMES, interned_string(iid, name)),
            ),
            None => None,
        },
    ) + optional(
        match value {
            Some((iid, value)) => Some(
                nested(INTERNED_ANNOTATION_STRING_VALUES, interned_string(iid, value)),
            ),
            None => None,
        },
    )
}

impl Message for InternedData<'_> {
    open spec fn fields(&self) -> Seq<Field> {
        interned_data(
            match self.name {
                Some(name) => Some((name.iid, name.value@)),
                None => None,
            },
            match self.value {
                Some(value) => Some((value.iid, value.value@)),
                None => None,
            },
        )
    }

    fn encode(&self, encoder: &mut Encoder) {
        if let Some(name) = &self.name {
            proof {
                lemma_nested_fits(self.fields(), 0);
            }
            encoder.message(INTERNED_ANNOTATION_NAMES, name);
        }
        if let Some(value) = &self.value {
            proof {
                lemma_nested_fits(self.fields(), encoder@.len() - old(encoder)@.len());
            }
            encoder.message(INTERNED_ANNOTATION_STRING_VALUES, value);
        }
    }
}

pub struct TrackDescriptor<'a> {
    pub uuid: u64,
    pub parent_uuid: Option<u64>,
    pub name: &'a str,
    pub merge_key: Option<&'a str>,
}

pub open spec fn track_descriptor(
    uuid: u64,
    parent_uuid: Option<u64>,
    name: Seq<char>,
    merge_key: Option<Seq<char>>,
) -> Seq<Field> {
    seq![number(TRACK_UUID, uuid), text(TRACK_NAME, name)] + match parent_uuid {
        Some(parent_uuid) => seq![number(TRACK_PARENT_UUID, parent_uuid)],
        None => seq![],
    } + match merge_key {
        Some(merge_key) => seq![
            number(TRACK_SIBLING_MERGE_BEHAVIOR, MERGE_BY_KEY),
            text(TRACK_SIBLING_MERGE_KEY, merge_key),
        ],
        None => seq![],
    }
}

impl Message for TrackDescriptor<'_> {
    open spec fn fields(&self) -> Seq<Field> {
        track_descriptor(
            self.uuid,
            self.parent_uuid,
            self.name@,
            characters(self.merge_key),
        )
    }

    fn encode(&self, encoder: &mut Encoder) {
        encoder.uint(TRACK_UUID, self.uuid);
        encoder.string(TRACK_NAME, self.name);
        if let Some(parent_uuid) = self.parent_uuid {
            encoder.uint(TRACK_PARENT_UUID, parent_uuid);
        }
        if let Some(merge_key) = self.merge_key {
            encoder.uint(TRACK_SIBLING_MERGE_BEHAVIOR, MERGE_BY_KEY);
            encoder.string(TRACK_SIBLING_MERGE_KEY, merge_key);
        }
    }
}

pub struct DebugAnnotation {
    pub name_iid: u64,
    pub value_iid: u64,
}

impl Message for DebugAnnotation {
    open spec fn fields(&self) -> Seq<Field> {
        debug_annotation(self.name_iid, self.value_iid)
    }

    fn encode(&self, encoder: &mut Encoder) {
        encoder.uint(ANNOTATION_NAME_IID, self.name_iid);
        encoder.uint(ANNOTATION_STRING_VALUE_IID, self.value_iid);
    }
}

pub open spec fn debug_annotation(name_iid: u64, value_iid: u64) -> Seq<Field> {
    seq![number(ANNOTATION_NAME_IID, name_iid), number(ANNOTATION_STRING_VALUE_IID, value_iid)]
}

/// What an event says of a stretch of a process's life.
pub open spec fn segment_args(process: Process, segment: SegmentView) -> Seq<Field> {
    seq![
        text(BUILDPROF_COMMAND, segment.command),
        text(BUILDPROF_CWD, segment.cwd),
        signed_number(BUILDPROF_PID, process.pid),
        signed_number(BUILDPROF_PARENT_PID, process.parent_pid),
        signed_number(BUILDPROF_BUILD_PARENT_PID, process.build_parent_pid),
        truth(BUILDPROF_EXECED, process.execed),
    ] + match segment.exit_code {
        Some(exit_code) => seq![number(BUILDPROF_EXIT_CODE, exit_code as u64)],
        None => seq![],
    }
}

/// What an event says of a file that was opened.
pub open spec fn open_args(owner_pid: i32, open: FileOpenView) -> Seq<Field> {
    seq![
        text(BUILDPROF_PATH, open.path),
        signed_number(BUILDPROF_OWNER_PID, owner_pid),
        number(BUILDPROF_FLAGS, open.flags),
        signed_number(BUILDPROF_FD, open.fd),
    ]
}

/// What an event says of a file that was moved.
pub open spec fn rename_args(owner_pid: i32, rename: RenameView) -> Seq<Field> {
    seq![
        text(BUILDPROF_FROM, rename.from),
        text(BUILDPROF_TO, rename.to),
        signed_number(BUILDPROF_OWNER_PID, owner_pid),
    ]
}

/// What an event says of a phase inside a compiler.
pub open spec fn compiler_args(
    owner_pid: i32,
    backend: Seq<char>,
    category: Seq<char>,
) -> Seq<Field> {
    seq![
        signed_number(BUILDPROF_OWNER_PID, owner_pid),
        text(BUILDPROF_BACKEND, backend),
        text(BUILDPROF_COMPILER_CATEGORY, category),
    ]
}

/// What buildprof adds to an event: how a process ran, a file it opened or
/// moved, or where inside a compiler it was.
pub enum BuildprofEvent<'a> {
    Nothing,
    Segment { process: Process, segment: &'a Segment },
    Open { owner_pid: i32, open: &'a FileOpen },
    Rename { owner_pid: i32, rename: &'a Rename },
    Compiler { owner_pid: i32, backend: &'a str, category: &'a str },
}

impl Message for BuildprofEvent<'_> {
    open spec fn fields(&self) -> Seq<Field> {
        match self {
            BuildprofEvent::Nothing => seq![],
            BuildprofEvent::Segment { process, segment } => segment_args(*process, segment@),
            BuildprofEvent::Open { owner_pid, open } => open_args(*owner_pid, open@),
            BuildprofEvent::Rename { owner_pid, rename } => rename_args(*owner_pid, rename@),
            BuildprofEvent::Compiler { owner_pid, backend, category } => compiler_args(
                *owner_pid,
                backend@,
                category@,
            ),
        }
    }

    fn encode(&self, encoder: &mut Encoder) {
        match self {
            BuildprofEvent::Nothing => {},
            BuildprofEvent::Segment { process, segment } => {
                encoder.string(BUILDPROF_COMMAND, segment.command.as_str());
                encoder.string(BUILDPROF_CWD, segment.cwd.as_str());
                encoder.signed(BUILDPROF_PID, process.pid as i64);
                encoder.signed(BUILDPROF_PARENT_PID, process.parent_pid as i64);
                encoder.signed(BUILDPROF_BUILD_PARENT_PID, process.build_parent_pid as i64);
                encoder.boolean(BUILDPROF_EXECED, process.execed);
                if let Some(exit_code) = segment.exit_code {
                    encoder.uint(BUILDPROF_EXIT_CODE, exit_code as u64);
                }
            },
            BuildprofEvent::Open { owner_pid, open } => {
                encoder.string(BUILDPROF_PATH, open.path.as_str());
                encoder.signed(BUILDPROF_OWNER_PID, *owner_pid as i64);
                encoder.uint(BUILDPROF_FLAGS, open.flags);
                encoder.signed(BUILDPROF_FD, open.fd as i64);
            },
            BuildprofEvent::Rename { owner_pid, rename } => {
                encoder.string(BUILDPROF_FROM, rename.from.as_str());
                encoder.string(BUILDPROF_TO, rename.to.as_str());
                encoder.signed(BUILDPROF_OWNER_PID, *owner_pid as i64);
            },
            BuildprofEvent::Compiler { owner_pid, backend, category } => {
                encoder.signed(BUILDPROF_OWNER_PID, *owner_pid as i64);
                encoder.string(BUILDPROF_BACKEND, backend);
                encoder.string(BUILDPROF_COMPILER_CATEGORY, category);
            },
        }
    }
}

pub struct TrackEvent<'a> {
    pub event_type: u32,
    pub track_uuid: u64,
    pub category: Option<&'a str>,
    pub name: Option<&'a str>,
    pub annotation: Option<DebugAnnotation>,
    pub args: BuildprofEvent<'a>,
}

/// The fields of a track event before those that hold a message.
pub open spec fn event_heading(
    event_type: u32,
    track_uuid: u64,
    category: Option<Seq<char>>,
    name: Option<Seq<char>>,
) -> Seq<Field> {
    seq![number(EVENT_TYPE, event_type as u64), number(EVENT_TRACK_UUID, track_uuid)] + optional(
        match category {
            Some(category) => Some(text(EVENT_CATEGORIES, category)),
            None => None,
        },
    ) + optional(
        match name {
            Some(name) => Some(text(EVENT_NAME, name)),
            None => None,
        },
    )
}

pub open spec fn track_event(
    event_type: u32,
    track_uuid: u64,
    category: Option<Seq<char>>,
    name: Option<Seq<char>>,
    annotation: Option<(u64, u64)>,
    args: Seq<Field>,
) -> Seq<Field> {
    event_heading(event_type, track_uuid, category, name) + optional(
        match annotation {
            Some((name_iid, value_iid)) => Some(
                nested(EVENT_DEBUG_ANNOTATIONS, debug_annotation(name_iid, value_iid)),
            ),
            None => None,
        },
    ) + optional(
        if event_type != TYPE_SLICE_END {
            Some(nested(BUILDPROF_EXTENSION_FIELD, args))
        } else {
            None
        },
    )
}

/// The characters of a text that may be missing.
pub open spec fn characters(value: Option<&str>) -> Option<Seq<char>> {
    match value {
        Some(value) => Some(value@),
        None => None,
    }
}

impl TrackEvent<'_> {
    fn encode_heading(&self, encoder: &mut Encoder)
        requires
            old(encoder).wf(),
        ensures
            final(encoder).wf(),
            final(encoder).counting() == old(encoder).counting(),
            final(encoder).start() == old(encoder).start(),
            final(encoder)@ == old(encoder)@ + event_heading(
                self.event_type,
                self.track_uuid,
                characters(self.category),
                characters(self.name),
            ),
    {
        encoder.uint(EVENT_TYPE, self.event_type as u64);
        encoder.uint(EVENT_TRACK_UUID, self.track_uuid);
        if let Some(category) = self.category {
            encoder.string(EVENT_CATEGORIES, category);
        }
        if let Some(name) = self.name {
            encoder.string(EVENT_NAME, name);
        }
    }
}

impl Message for TrackEvent<'_> {
    open spec fn fields(&self) -> Seq<Field> {
        track_event(
            self.event_type,
            self.track_uuid,
            characters(self.category),
            characters(self.name),
            match self.annotation {
                Some(annotation) => Some((annotation.name_iid, annotation.value_iid)),
                None => None,
            },
            self.args.fields(),
        )
    }

    fn encode(&self, encoder: &mut Encoder) {
        self.encode_heading(encoder);
        if let Some(annotation) = &self.annotation {
            proof {
                lemma_nested_fits(self.fields(), encoder@.len() - old(encoder)@.len());
            }
            encoder.message(EVENT_DEBUG_ANNOTATIONS, annotation);
        }
        if self.event_type != TYPE_SLICE_END {
            proof {
                lemma_nested_fits(self.fields(), encoder@.len() - old(encoder)@.len());
            }
            encoder.message(BUILDPROF_EXTENSION_FIELD, &self.args);
        }
    }
}

/// How one field of a message is described to a reader.
pub struct FieldDescriptor<'a> {
    pub name: &'a str,
    pub number: u32,
    pub field_type: u32,
    pub message_type: Option<&'a str>,
    pub extendee: Option<&'a str>,
}

pub open spec fn field_descriptor(
    name: Seq<char>,
    field_number: u32,
    field_type: u32,
    message_type: Option<Seq<char>>,
    extendee: Option<Seq<char>>,
) -> Seq<Field> {
    seq![text(FIELD_NAME, name)] + optional(
        match extendee {
            Some(extendee) => Some(text(FIELD_EXTENDEE, extendee)),
            None => None,
        },
    ) + seq![
        number(FIELD_NUMBER, field_number as u64),
        number(FIELD_LABEL, LABEL_OPTIONAL),
        number(FIELD_TYPE, field_type as u64),
    ] + optional(
        match message_type {
            Some(message_type) => Some(text(FIELD_TYPE_NAME, message_type)),
            None => None,
        },
    )
}

impl Message for FieldDescriptor<'_> {
    open spec fn fields(&self) -> Seq<Field> {
        field_descriptor(
            self.name@,
            self.number,
            self.field_type,
            characters(self.message_type),
            characters(self.extendee),
        )
    }

    fn encode(&self, encoder: &mut Encoder) {
        encoder.string(FIELD_NAME, self.name);
        if let Some(extendee) = self.extendee {
            encoder.string(FIELD_EXTENDEE, extendee);
        }
        encoder.uint(FIELD_NUMBER, self.number as u64);
        encoder.uint(FIELD_LABEL, LABEL_OPTIONAL);
        encoder.uint(FIELD_TYPE, self.field_type as u64);
        if let Some(message_type) = self.message_type {
            encoder.string(FIELD_TYPE_NAME, message_type);
        }
    }
}

/// The name, number and type of each field of a `BuildprofEvent`.
pub open spec fn buildprof_event_fields() -> Seq<(Seq<char>, u32, u32)> {
    seq![
        ("cmd"@, BUILDPROF_COMMAND, TYPE_STRING),
        ("cwd"@, BUILDPROF_CWD, TYPE_STRING),
        ("pid"@, BUILDPROF_PID, TYPE_INT32),
        ("ppid"@, BUILDPROF_PARENT_PID, TYPE_INT32),
        ("build_ppid"@, BUILDPROF_BUILD_PARENT_PID, TYPE_INT32),
        ("execed"@, BUILDPROF_EXECED, TYPE_BOOL),
        ("exit_code"@, BUILDPROF_EXIT_CODE, TYPE_UINT32),
        ("path"@, BUILDPROF_PATH, TYPE_STRING),
        ("flags"@, BUILDPROF_FLAGS, TYPE_UINT64),
        ("fd"@, BUILDPROF_FD, TYPE_INT32),
        ("from"@, BUILDPROF_FROM, TYPE_STRING),
        ("to"@, BUILDPROF_TO, TYPE_STRING),
        ("owner_pid"@, BUILDPROF_OWNER_PID, TYPE_INT32),
        ("backend"@, BUILDPROF_BACKEND, TYPE_STRING),
        ("compiler_category"@, BUILDPROF_COMPILER_CATEGORY, TYPE_STRING),
    ]
}

/// Describes `BuildprofEvent` itself.
pub struct BuildprofEventDescriptor;

impl Message for BuildprofEventDescriptor {
    open spec fn fields(&self) -> Seq<Field> {
        seq![text(MESSAGE_NAME, "BuildprofEvent"@)] + buildprof_event_fields().map_values(
            |field: (Seq<char>, u32, u32)|
                nested(MESSAGE_FIELD, field_descriptor(field.0, field.1, field.2, None, None)),
        )
    }

    fn encode(&self, encoder: &mut Encoder) {
        encoder.string(MESSAGE_NAME, "BuildprofEvent");
        let fields: [(&str, u32, u32); 15] = [
            ("cmd", BUILDPROF_COMMAND, TYPE_STRING),
            ("cwd", BUILDPROF_CWD, TYPE_STRING),
            ("pid", BUILDPROF_PID, TYPE_INT32),
            ("ppid", BUILDPROF_PARENT_PID, TYPE_INT32),
            ("build_ppid", BUILDPROF_BUILD_PARENT_PID, TYPE_INT32),
            ("execed", BUILDPROF_EXECED, TYPE_BOOL),
            ("exit_code", BUILDPROF_EXIT_CODE, TYPE_UINT32),
            ("path", BUILDPROF_PATH, TYPE_STRING),
            ("flags", BUILDPROF_FLAGS, TYPE_UINT64),
            ("fd", BUILDPROF_FD, TYPE_INT32),
            ("from", BUILDPROF_FROM, TYPE_STRING),
            ("to", BUILDPROF_TO, TYPE_STRING),
            ("owner_pid", BUILDPROF_OWNER_PID, TYPE_INT32),
            ("backend", BUILDPROF_BACKEND, TYPE_STRING),
            ("compiler_category", BUILDPROF_COMPILER_CATEGORY, TYPE_STRING),
        ];
        for i in 0..15usize
            invariant
                encoder.wf(),
                encoder.counting() || fits(self.fields()),
                encoder.counting() == old(encoder).counting(),
                encoder.start() == old(encoder).start(),
                fields@.len() == 15,
                forall|j: int|
                    0 <= j < 15 ==> (#[trigger] fields@[j].0@, fields@[j].1, fields@[j].2)
                        == buildprof_event_fields()[j],
                encoder@ =~= old(encoder)@ + self.fields().take(i + 1),
        {
            proof {
                lemma_nested_fits(self.fields(), i + 1);
                assert(fields@[i as int].0@ == buildprof_event_fields()[i as int].0);
            }
            let (name, number, field_type) = fields[i];
            encoder.message(
                MESSAGE_FIELD,
                &FieldDescriptor { name, number, field_type, message_type: None, extendee: None },
            );
        }
    }
}

/// Describes the field that carries a `BuildprofEvent` inside a track event.
pub struct ExtensionWrapperDescriptor;

impl Message for ExtensionWrapperDescriptor {
    open spec fn fields(&self) -> Seq<Field> {
        seq![
            text(MESSAGE_NAME, "BuildprofExtension"@),
            nested(
                MESSAGE_EXTENSION,
                field_descriptor(
                    "debug"@,
                    BUILDPROF_EXTENSION_FIELD,
                    TYPE_MESSAGE,
                    Some(".buildprof.protos.BuildprofEvent"@),
                    Some(".perfetto.protos.TrackEvent"@),
                ),
            ),
        ]
    }

    fn encode(&self, encoder: &mut Encoder) {
        encoder.string(MESSAGE_NAME, "BuildprofExtension");
        proof {
            lemma_nested_fits(self.fields(), 1);
        }
        encoder.message(
            MESSAGE_EXTENSION,
            &FieldDescriptor {
                name: "debug",
                number: BUILDPROF_EXTENSION_FIELD,
                field_type: TYPE_MESSAGE,
                message_type: Some(".buildprof.protos.BuildprofEvent"),
                extendee: Some(".perfetto.protos.TrackEvent"),
            },
        );
    }
}

/// The schema file that holds both descriptors.
pub struct FileDescriptor;

impl Message for FileDescriptor {
    open spec fn fields(&self) -> Seq<Field> {
        seq![
            text(FILE_NAME, "buildprof_extension.proto"@),
            text(FILE_PACKAGE, "buildprof.protos"@),
            text(FILE_DEPENDENCY, "protos/perfetto/trace/track_event/track_event.proto"@),
            nested(FILE_MESSAGE_TYPE, BuildprofEventDescriptor.fields()),
            nested(FILE_MESSAGE_TYPE, ExtensionWrapperDescriptor.fields()),
            text(FILE_SYNTAX, "proto2"@),
        ]
    }

    fn encode(&self, encoder: &mut Encoder) {
        encoder.string(FILE_NAME, "buildprof_extension.proto");
        encoder.string(FILE_PACKAGE, "buildprof.protos");
        encoder.string(FILE_DEPENDENCY, "protos/perfetto/trace/track_event/track_event.proto");
        proof {
            lemma_nested_fits(self.fields(), 3);
            lemma_nested_fits(self.fields(), 4);
        }
        encoder.message(FILE_MESSAGE_TYPE, &BuildprofEventDescriptor);
        encoder.message(FILE_MESSAGE_TYPE, &ExtensionWrapperDescriptor);
        encoder.string(FILE_SYNTAX, "proto2");
    }
}

pub struct DescriptorSet;

impl Message for DescriptorSet {
    open spec fn fields(&self) -> Seq<Field> {
        seq![nested(DESCRIPTOR_SET_FILE, FileDescriptor.fields())]
    }

    fn encode(&self, encoder: &mut Encoder) {
        proof {
            lemma_nested_fits(self.fields(), 0);
        }
        encoder.message(DESCRIPTOR_SET_FILE, &FileDescriptor);
    }
}

/// Tells a reader how to decode the fields that buildprof adds to events.
pub struct ExtensionDescriptor;

impl Message for ExtensionDescriptor {
    open spec fn fields(&self) -> Seq<Field> {
        seq![nested(EXTENSION_SET, DescriptorSet.fields())]
    }

    fn encode(&self, encoder: &mut Encoder) {
        proof {
            lemma_nested_fits(self.fields(), 0);
        }
        encoder.message(EXTENSION_SET, &DescriptorSet);
    }
}

/// What a packet is about.
pub enum Payload<'a> {
    ExtensionDescriptor(ExtensionDescriptor),
    TraceAttributes(TraceAttributes<'a>),
    TrackDescriptor(TrackDescriptor<'a>),
    TrackEvent(TrackEvent<'a>),
    InternedData(InternedData<'a>),
    /// A batch of complete packets compressed with zstd. Trace Processor
    /// expands these while tokenizing, so the batch must not itself contain
    /// compressed packets.
    ZstdCompressedPackets(&'a [u8]),
}

impl Payload<'_> {
    /// The packet's field that holds the payload.
    pub open spec fn field(&self) -> Field {
        match self {
            Payload::ExtensionDescriptor(message) => nested(
                PACKET_EXTENSION_DESCRIPTOR,
                message.fields(),
            ),
            Payload::TraceAttributes(message) => nested(PACKET_TRACE_ATTRIBUTES, message.fields()),
            Payload::TrackDescriptor(message) => nested(PACKET_TRACK_DESCRIPTOR, message.fields()),
            Payload::TrackEvent(message) => nested(PACKET_TRACK_EVENT, message.fields()),
            Payload::InternedData(message) => nested(PACKET_INTERNED_DATA, message.fields()),
            Payload::ZstdCompressedPackets(packets) => Field::Bytes {
                number: PACKET_ZSTD_COMPRESSED,
                content: packets@,
            },
        }
    }
}

pub struct Packet<'a> {
    pub timestamp: Option<u64>,
    /// Whether the packet belongs to buildprof's packet sequence.
    pub sequence: bool,
    pub sequence_flags: Option<u64>,
    pub payload: Payload<'a>,
}

pub open spec fn packet(
    timestamp: Option<u64>,
    sequence: bool,
    sequence_flags: Option<u64>,
    payload: Field,
) -> Seq<Field> {
    optional(
        match timestamp {
            Some(timestamp) => Some(number(PACKET_TIMESTAMP, timestamp)),
            None => None,
        },
    ) + optional(
        if sequence {
            Some(number(PACKET_TRUSTED_SEQUENCE, PACKET_SEQUENCE_ID))
        } else {
            None
        },
    ) + optional(
        match sequence_flags {
            Some(flags) => Some(number(PACKET_SEQUENCE_FLAGS, flags)),
            None => None,
        },
    ) + seq![payload]
}

impl Message for Packet<'_> {
    open spec fn fields(&self) -> Seq<Field> {
        packet(self.timestamp, self.sequence, self.sequence_flags, self.payload.field())
    }

    fn encode(&self, encoder: &mut Encoder) {
        if let Some(timestamp) = self.timestamp {
            encoder.uint(PACKET_TIMESTAMP, timestamp);
        }
        if self.sequence {
            encoder.uint(PACKET_TRUSTED_SEQUENCE, PACKET_SEQUENCE_ID);
        }
        if let Some(flags) = self.sequence_flags {
            encoder.uint(PACKET_SEQUENCE_FLAGS, flags);
        }
        proof {
            if !(self.payload is ZstdCompressedPackets) {
                lemma_nested_fits(self.fields(), self.fields().len() - 1);
            }
        }
        match &self.payload {
            Payload::ExtensionDescriptor(message) => {
                encoder.message(PACKET_EXTENSION_DESCRIPTOR, message);
            },
            Payload::TraceAttributes(message) => {
                encoder.message(PACKET_TRACE_ATTRIBUTES, message);
            },
            Payload::TrackDescriptor(message) => {
                encoder.message(PACKET_TRACK_DESCRIPTOR, message);
            },
            Payload::TrackEvent(message) => {
                encoder.message(PACKET_TRACK_EVENT, message);
            },
            Payload::InternedData(message) => {
                encoder.message(PACKET_INTERNED_DATA, message);
            },
            Payload::ZstdCompressedPackets(packets) => {
                encoder.bytes(PACKET_ZSTD_COMPRESSED, packets);
            },
        }
    }
}

} // verus!
