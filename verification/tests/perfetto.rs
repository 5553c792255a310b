use buildprof::model::{FileOpen, Process, Rename, Segment};
use buildprof::perfetto::{
    compiler_track_uuid, file_track_uuid, process_track_uuid, Writer, VERSION,
};

/// A field of a message: its number, and either a number or bytes.
#[derive(Clone, Debug, PartialEq)]
enum Field {
    Number(u64, u64),
    Bytes(u64, Vec<u8>),
}

fn varint(bytes: &[u8], at: &mut usize) -> u64 {
    let mut value = 0;
    for shift in (0..64).step_by(7) {
        let byte = bytes[*at];
        *at += 1;
        value |= u64::from(byte & 0x7f) << shift;
        if byte < 0x80 {
            break;
        }
    }
    value
}

fn fields(bytes: &[u8]) -> Vec<Field> {
    let mut at = 0;
    let mut all = Vec::new();
    while at < bytes.len() {
        let key = varint(bytes, &mut at);
        let value = varint(bytes, &mut at);
        if key % 8 == 0 {
            all.push(Field::Number(key / 8, value));
        } else {
            assert_eq!(key % 8, 2);
            all.push(Field::Bytes(key / 8, bytes[at..at + value as usize].to_vec()));
            at += value as usize;
        }
    }
    all
}

/// The first field with a number, as bytes.
fn bytes(message: &[u8], number: u64) -> Option<Vec<u8>> {
    fields(message).into_iter().find_map(|field| match field {
        Field::Bytes(found, bytes) if found == number => Some(bytes),
        _ => None,
    })
}

fn text(message: &[u8], number: u64) -> Option<String> {
    bytes(message, number).map(|bytes| String::from_utf8(bytes).unwrap())
}

fn number(message: &[u8], number: u64) -> Option<u64> {
    fields(message).into_iter().find_map(|field| match field {
        Field::Number(found, value) if found == number => Some(value),
        _ => None,
    })
}

fn packets(trace: &[u8]) -> Vec<Vec<u8>> {
    fields(trace)
        .into_iter()
        .map(|field| match field {
            Field::Bytes(1, packet) => packet,
            field => panic!("{field:?}"),
        })
        .collect()
}

/// A writer whose preamble is already taken.
fn writer() -> Writer {
    let mut writer = Writer::create();
    writer.take();
    writer
}

fn process() -> Process {
    Process { pid: 7, parent_pid: 3, build_parent_pid: 2, execed: true }
}

fn segment(start_ns: u64, end_ns: u64) -> Segment {
    Segment {
        start_ns,
        end_ns,
        name: "cc".into(),
        command: "cc -c a.c".into(),
        cwd: "/src".into(),
        exit_code: Some(1),
    }
}

const TIMESTAMP: u64 = 8;
const EVENT: u64 = 11;
const INTERNED: u64 = 12;
const DESCRIPTOR: u64 = 60;
const ATTRIBUTES: u64 = 126;
const EXTENSION: u64 = 9900;

#[test]
fn every_trace_says_which_release_recorded_it() {
    let trace = Writer::create().finish();
    let packets = packets(&trace);
    assert_eq!(packets.len(), 3);
    let attributes: Vec<Vec<u8>> = fields(&bytes(&packets[1], ATTRIBUTES).unwrap())
        .into_iter()
        .map(|field| match field {
            Field::Bytes(1, attribute) => attribute,
            field => panic!("{field:?}"),
        })
        .collect();
    assert_eq!(text(&attributes[0], 1).unwrap(), "buildprof.version");
    assert_eq!(text(&attributes[0], 3).unwrap(), VERSION);
    assert_eq!(text(&attributes[1], 1).unwrap(), "buildprof.trace_format");
    let root = bytes(&packets[2], DESCRIPTOR).unwrap();
    assert_eq!((number(&root, 1), text(&root, 2)), (Some(1), Some("Build".into())));
}

#[test]
fn options_are_kept_in_the_trace() {
    let mut writer = writer();
    writer.collection_options(true, false);
    let packets = packets(&writer.take());
    let attributes = bytes(&packets[0], ATTRIBUTES).unwrap();
    let all: Vec<(String, u64)> = fields(&attributes)
        .into_iter()
        .map(|field| match field {
            Field::Bytes(1, attribute) => {
                (text(&attribute, 1).unwrap(), number(&attribute, 2).unwrap())
            }
            field => panic!("{field:?}"),
        })
        .collect();
    assert_eq!(
        all,
        [("buildprof.file_events".to_owned(), 1), ("buildprof.compiler_traces".to_owned(), 0)]
    );
}

#[test]
fn a_process_has_two_tracks() {
    let mut writer = writer();
    writer.process_started(7).unwrap();
    let packets = packets(&writer.take());
    assert_eq!(packets.len(), 2);
    let tracks: Vec<Vec<u8>> =
        packets.iter().map(|packet| bytes(packet, DESCRIPTOR).unwrap()).collect();
    assert_eq!((number(&tracks[0], 1), number(&tracks[0], 5)), (Some(29), Some(1)));
    assert_eq!(text(&tracks[0], 2).unwrap(), "Processes");
    assert_eq!((number(&tracks[1], 1), number(&tracks[1], 5)), (Some(30), Some(1)));
    assert_eq!(text(&tracks[1], 16).unwrap(), "buildprof.files");
}

#[test]
fn a_segment_is_a_slice_with_its_command() {
    let mut writer = writer();
    writer.segment(process(), &segment(5, 9)).unwrap();
    let packets = packets(&writer.take());
    assert_eq!(packets.len(), 2);
    assert_eq!(number(&packets[0], TIMESTAMP), Some(5));
    assert_eq!(number(&packets[1], TIMESTAMP), Some(9));
    let begin = bytes(&packets[0], EVENT).unwrap();
    assert_eq!((number(&begin, 9), number(&begin, 11)), (Some(1), Some(29)));
    assert_eq!(text(&begin, 22).unwrap(), "buildprof.process");
    assert_eq!(text(&begin, 23).unwrap(), "cc");
    let args = bytes(&begin, EXTENSION).unwrap();
    assert_eq!(text(&args, 1).unwrap(), "cc -c a.c");
    assert_eq!(text(&args, 2).unwrap(), "/src");
    let numbers: Vec<Option<u64>> = (3..8).map(|field| number(&args, field)).collect();
    assert_eq!(numbers, [Some(7), Some(3), Some(2), Some(1), Some(1)]);
    let end = bytes(&packets[1], EVENT).unwrap();
    assert_eq!((number(&end, 9), number(&end, 11)), (Some(2), Some(29)));
}

#[test]
fn slices_are_never_empty() {
    for (start, end, expected) in
        [(5, 5, 6), (5, 2, 6), (5, 9, 9), (u64::MAX, 0, u64::MAX), (0, 0, 1)]
    {
        let mut writer = writer();
        writer.segment(process(), &segment(start, end)).unwrap();
        let packets = packets(&writer.take());
        assert_eq!(number(&packets[1], TIMESTAMP), Some(expected));
    }
}

#[test]
fn file_events_stand_on_the_file_track() {
    let mut writer = writer();
    let open = FileOpen { timestamp_ns: 4, path: "/src/a".into(), flags: 0o1, fd: -1 };
    writer.file_open(7, &open).unwrap();
    let rename = Rename { timestamp_ns: 6, from: "/src/.a".into(), to: "/src/a".into() };
    writer.rename(7, &rename).unwrap();
    let packets = packets(&writer.take());
    let opened = bytes(&packets[0], EVENT).unwrap();
    assert_eq!((number(&opened, 9), number(&opened, 11)), (Some(3), Some(30)));
    let args = bytes(&opened, EXTENSION).unwrap();
    assert_eq!(text(&args, 8).unwrap(), "/src/a");
    assert_eq!((number(&args, 9), number(&args, 10)), (Some(1), Some(u64::MAX)));
    let moved = bytes(&packets[1], EVENT).unwrap();
    assert_eq!(text(&moved, 22).unwrap(), "buildprof.rename");
    let args = bytes(&moved, EXTENSION).unwrap();
    assert_eq!(text(&args, 11).unwrap(), "/src/.a");
    assert_eq!(text(&args, 12).unwrap(), "/src/a");
}

#[test]
fn negative_pids_have_tracks_of_their_own() {
    let mut writer = writer();
    writer.process_started(-1).unwrap();
    let packets = packets(&writer.take());
    let track = bytes(&packets[0], DESCRIPTOR).unwrap();
    assert_eq!(number(&track, 1), Some(0xffff_ffff * 4 + 1));
}

#[test]
fn compiler_threads_are_named() {
    let mut writer = writer();
    writer.compiler_track(7, 2, "Clang").unwrap();
    let packets = packets(&writer.take());
    let track = bytes(&packets[0], DESCRIPTOR).unwrap();
    assert_eq!(
        number(&track, 1),
        Some((1 << 63) | (7 << 31) | (1 << 29) | 2)
    );
    assert_eq!(text(&track, 2).unwrap(), "Clang compiler [pid 7] \u{b7} thread 2");
}

#[test]
fn details_are_told_once() {
    let mut writer = writer();
    writer.compiler_slice(7, 2, "Clang", "Source", "parse", 10, 5, Some("a.h")).unwrap();
    let first = packets(&writer.take());
    assert_eq!(first.len(), 3);
    assert!(bytes(&first[0], INTERNED).is_some());
    let interned = bytes(&first[0], INTERNED).unwrap();
    let value = bytes(&interned, 29).unwrap();
    assert_eq!((number(&value, 1), text(&value, 2)), (Some(1), Some("a.h".into())));
    writer.compiler_slice(7, 2, "Clang", "Source", "parse", 20, 5, Some("a.h")).unwrap();
    let again = packets(&writer.take());
    assert_eq!(again.len(), 2);
    let annotation = bytes(&bytes(&again[0], EVENT).unwrap(), 4).unwrap();
    assert_eq!((number(&annotation, 1), number(&annotation, 17)), (Some(1), Some(1)));
    writer.compiler_slice(7, 2, "Clang", "Source", "parse", 30, 5, Some("b.h")).unwrap();
    let other = packets(&writer.take());
    let value = bytes(&bytes(&other[0], INTERNED).unwrap(), 29).unwrap();
    assert_eq!((number(&value, 1), text(&value, 2)), (Some(2), Some("b.h".into())));
    writer.compiler_slice(7, 2, "Clang", "Source", "parse", u64::MAX, 5, None).unwrap();
    let last = packets(&writer.take());
    assert_eq!(last.len(), 2);
    assert_eq!(number(&last[1], TIMESTAMP), Some(u64::MAX));
}

#[test]
fn a_trace_is_the_sum_of_its_pieces() {
    let whole = {
        let mut writer = Writer::create();
        writer.process_started(7).unwrap();
        writer.segment(process(), &segment(1, 2)).unwrap();
        writer.finish()
    };
    let mut writer = Writer::create();
    let mut pieces = writer.take();
    writer.process_started(7).unwrap();
    pieces.extend(writer.take());
    writer.segment(process(), &segment(1, 2)).unwrap();
    pieces.extend(writer.finish());
    assert_eq!(pieces, whole);
}

#[test]
fn tracks_are_not_mistaken_for_each_other() {
    let mut tracks = vec![1];
    for pid in [1, 7, -1, i32::MIN, i32::MAX] {
        tracks.extend([process_track_uuid(pid), file_track_uuid(pid)]);
        for backend in ["Rust", "Clang", "LLD"] {
            for thread in [0, 1, (1 << 29) - 1] {
                tracks.push(compiler_track_uuid(pid, thread, backend));
            }
        }
    }
    let all = tracks.len();
    tracks.sort_unstable();
    tracks.dedup();
    assert_eq!(tracks.len(), all);
    assert_eq!(process_track_uuid(7), 29);
    assert_eq!(file_track_uuid(7), 30);
    assert_eq!(compiler_track_uuid(7, 2, "LLD"), (1 << 63) | (7 << 31) | (2 << 29) | 2);
}

#[test]
fn details_are_numbered_in_order_of_appearance() {
    let mut writer = writer();
    let mut numbers = Vec::new();
    for detail in ["c", "a", "c", "b", "a", "c"] {
        writer.compiler_slice(7, 2, "Clang", "Source", "parse", 1, 1, Some(detail)).unwrap();
        let told = packets(&writer.take());
        let begin = &told[told.len() - 2];
        let annotation = bytes(&bytes(begin, EVENT).unwrap(), 4).unwrap();
        numbers.push((told.len() - 2, number(&annotation, 17).unwrap()));
    }
    assert_eq!(numbers, [(1, 1), (1, 2), (0, 1), (1, 3), (0, 2), (0, 1)]);
}
