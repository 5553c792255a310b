use buildprof::macos::kdebug::{
    command_line, decode, describe, start_time, CommandLineError, Session, EVENT_BYTES,
};

#[test]
fn decodes_a_record() {
    let mut record = [0_u8; EVENT_BYTES];
    record[0..8].copy_from_slice(&1_234_u64.to_le_bytes());
    record[8..16].copy_from_slice(&7_u64.to_le_bytes());
    record[40..48].copy_from_slice(&99_u64.to_le_bytes());
    record[48..52].copy_from_slice(&0x0401_0006_u32.to_le_bytes());
    let event = decode(&record);
    assert_eq!(event.timestamp, 1_234);
    assert_eq!(event.args[0], 7);
    assert_eq!(event.thread, 99);
    assert_eq!(event.code(), 0x0401_0004);
    assert!(event.is_end() && !event.is_start());
}

#[test]
fn missing_process_is_an_error() {
    let buffer = vec![0_u8; 1 << 16];
    // The kernel itself has no argv to read, which is refused with EINVAL.
    assert!(command_line(Err(22), &buffer).is_err());
}

/// The bytes the kernel gives for a process.
fn procargs(argc: i32, rest: &[u8]) -> Vec<u8> {
    let mut bytes = argc.to_le_bytes().to_vec();
    bytes.extend_from_slice(rest);
    bytes
}

#[test]
fn a_command_line_ends_before_the_environment() {
    let buffer = procargs(2, b"/bin/cc\0\0\0\0cc\0-c\0HOME=/\0");
    let (executable, argv) = command_line(Ok(buffer.len()), &buffer).unwrap();
    assert_eq!(executable, "/bin/cc");
    assert_eq!(argv, ["cc", "-c"]);
}

#[test]
fn command_lines_may_hold_anything() {
    let buffer = procargs(3, b"/bin/\xff\0a\0\0b\0");
    let (executable, argv) = command_line(Ok(buffer.len()), &buffer).unwrap();
    assert_eq!(executable, "/bin/\u{fffd}");
    assert_eq!(argv, ["a", "", "b"]);
    let negative = procargs(-1, b"/bin/sh\0sh\0");
    assert!(command_line(Ok(negative.len()), &negative).unwrap().1.is_empty());
    assert_eq!(command_line(Ok(3), &buffer), Err(CommandLineError::Short));
    assert_eq!(command_line(Err(22), &buffer), Err(CommandLineError::Refused { errno: 22 }));
}

#[test]
fn start_times_are_counted_in_nanoseconds() {
    assert_eq!(start_time(3, 250), 3_000_250_000);
    assert!(start_time(0, 999_999) < start_time(1, 0));
}

#[test]
fn events_are_read_in_order() {
    let (mut session, steps) = Session::start(1024);
    assert!(!steps.is_empty());
    for (index, byte) in [1_u8, 2, 3].iter().enumerate() {
        session.buffer[index * EVENT_BYTES] = *byte;
    }
    let times: Vec<u64> = session.read(2).iter().map(|event| event.timestamp).collect();
    assert_eq!(times, [1, 2]);
}

#[test]
fn only_known_refusals_are_explained() {
    assert!(describe(1).is_some());
    assert!(describe(16).is_some());
    assert!(describe(1) != describe(16));
    assert_eq!(describe(2), None);
}
