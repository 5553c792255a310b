use buildprof::macos::kdebug::Session;
use buildprof::macos::recon::is_same_process;
use buildprof::macos::tracker::Clock;
use buildprof::macos::{
    dropped_note, exit_status_code, prepare, target_user, temporary_directory, unnamed_note,
    user_environment, Progress, TargetError, Turn, DRAIN_NS, LIVENESS_INTERVAL_NS,
};

fn clock() -> Clock {
    Clock { origin: 0, numer: 1, denom: 1 }
}

#[test]
fn recording_never_becomes_root() {
    assert_eq!(target_user(501, 501, 20, None, None), Err(TargetError::NeedsRoot));
    assert_eq!(target_user(501, 0, 20, None, None), Ok((501, 20)));
    assert_eq!(target_user(0, 0, 0, Some("501"), Some("20")), Ok((501, 20)));
    assert_eq!(target_user(0, 0, 0, Some("0"), Some("0")), Err(TargetError::RefusesRoot));
    assert_eq!(target_user(0, 0, 0, Some("501"), None), Err(TargetError::RefusesRoot));
    assert_eq!(target_user(0, 0, 0, Some("4294967296"), Some("20")), Err(TargetError::RefusesRoot));
    assert!(TargetError::NeedsRoot.message().ends_with("run it with sudo"));
    assert!(TargetError::RefusesRoot.message().starts_with("refusing to run the build as root"));
}

#[test]
fn the_build_sees_its_own_environment() {
    let some = |text: &str| Some(text.to_owned());
    let variables =
        user_environment(some("ann"), some("/Users/ann"), some("/bin/zsh"), None);
    let all: Vec<(&str, &str)> =
        variables.iter().map(|(key, value)| (*key, value.as_str())).collect();
    assert_eq!(
        all,
        [("USER", "ann"), ("LOGNAME", "ann"), ("HOME", "/Users/ann"), ("SHELL", "/bin/zsh")]
    );
    let variables = user_environment(None, some("/Users/ann"), None, some("/home"));
    assert_eq!(variables, [("HOME", "/home".to_owned())]);
}

#[test]
fn temporary_directories_end_with_a_zero() {
    assert_eq!(temporary_directory(b"/tmp/\0\0\0", 6), Some("/tmp/".to_owned()));
    assert_eq!(temporary_directory(b"/tmp/", 1), None);
    assert_eq!(temporary_directory(b"/tmp/", 0), None);
    assert_eq!(temporary_directory(&[0xff, 0], 2), None);
}

#[test]
fn a_commands_end_becomes_an_exit_status() {
    assert_eq!(exit_status_code(Some(3), None), 3);
    assert_eq!(exit_status_code(Some(300), None), 255);
    assert_eq!(exit_status_code(None, Some(9)), 137);
    assert_eq!(exit_status_code(None, None), 1);
}

#[test]
fn recording_goes_on_until_everything_has_ended() {
    let mut progress = Progress::new();
    assert_eq!(progress.next(0), Turn::Read);
    assert_eq!(progress.next(LIVENESS_INTERVAL_NS), Turn::Check);
    progress.checked(true, true, LIVENESS_INTERVAL_NS);
    assert_eq!(progress.next(LIVENESS_INTERVAL_NS + 1), Turn::Read);
    let later = 2 * LIVENESS_INTERVAL_NS;
    assert_eq!(progress.next(later), Turn::Check);
    progress.checked(false, false, later);
    assert_eq!(progress.ended_ns, Some(later));
    assert_eq!(progress.next(later + DRAIN_NS), Turn::Read);
    assert_eq!(progress.next(later + DRAIN_NS + 1), Turn::Stop);
}

#[test]
fn gaps_in_a_recording_are_mentioned() {
    assert_eq!(unnamed_note(0), None);
    assert!(unnamed_note(2).unwrap().starts_with("2 processes ended before"));
    assert_eq!(dropped_note(0), None);
    assert!(dropped_note(3).unwrap().starts_with("The kernel dropped events 3 times"));
}

#[test]
fn threads_are_read_from_the_kernels_map() {
    let (session, _) = Session::start(16);
    let mut map = vec![0_u8; 64];
    map[0..8].copy_from_slice(&7_u64.to_le_bytes());
    map[8..12].copy_from_slice(&100_i32.to_le_bytes());
    map[32..40].copy_from_slice(&8_u64.to_le_bytes());
    map[40..44].copy_from_slice(&(-1_i32).to_le_bytes());
    let prepared = prepare(session, clock(), &map, 64);
    assert_eq!(prepared.threads, [(7, 100), (8, -1)]);
    let (session, _) = Session::start(16);
    assert_eq!(prepare(session, clock(), &map, 40).threads, [(7, 100)]);
}

#[test]
fn a_process_that_started_later_is_another_one() {
    assert!(is_same_process(&clock(), 1_000_000, 5, 1_000_005));
    assert!(is_same_process(&clock(), 1_000_000, 5, 3_000_005));
    assert!(!is_same_process(&clock(), 1_000_000, 5, 3_000_006));
}
