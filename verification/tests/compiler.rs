use buildprof::compiler::{
    clang_invocation_links, clang_invocation_uses_lld, find_on_path, is_nightly,
    is_rust_information_argument, run_wrapper, rust_profile_pid, shimmed_path, system_time_ns,
    time_trace_start_ns, trace_file_name, wrapper_path, Backend, Capture, ClangEvent,
    WrapperEnvironment,
};
use buildprof::perfetto::Writer;

fn arguments(words: &[&str]) -> Vec<Vec<u8>> {
    words.iter().map(|word| word.as_bytes().to_vec()).collect()
}

#[test]
fn reads_zero_padded_rust_profile_pid() {
    assert_eq!(rust_profile_pid(b"compiler_fixture-0011754.mm_profdata"), Some(11_754));
}

#[test]
fn ignores_other_profile_files() {
    assert_eq!(rust_profile_pid(b"compiler_fixture.json"), None);
    assert_eq!(rust_profile_pid(b"compiler_fixture.mm_profdata"), None);
}

#[test]
fn identifies_rust_information_only_arguments() {
    assert!(is_rust_information_argument(b"--print"));
    assert!(is_rust_information_argument(b"--print=cfg"));
    assert!(is_rust_information_argument(b"-vV"));
    assert!(!is_rust_information_argument(b"--crate-name"));
}

#[test]
fn identifies_clang_link_invocations() {
    assert!(clang_invocation_links(&arguments(&["main.o", "-o", "app"])));
    assert!(clang_invocation_links(&arguments(&["main.cc", "-o", "app"])));
    assert!(!clang_invocation_links(&arguments(&["-c", "main.cc"])));
    assert!(!clang_invocation_links(&arguments(&["-fsyntax-only", "main.cc"])));
}

#[test]
fn identifies_explicit_lld_selection() {
    assert!(clang_invocation_uses_lld(&arguments(&["-fuse-ld=lld"])));
    assert!(clang_invocation_uses_lld(&arguments(&["--ld-path=/usr/lib/llvm/bin/ld.lld"])));
    assert!(!clang_invocation_uses_lld(&arguments(&["-fuse-ld=gold"])));
    assert!(!clang_invocation_uses_lld(&arguments(&["main.o"])));
}

#[test]
fn compilers_have_names() {
    assert_eq!(Backend::Rust.name(), "Rust");
    assert_eq!(Backend::Clang.name(), "Clang");
    assert_eq!(Backend::Lld.name(), "LLD");
}

#[test]
fn times_are_counted_from_the_recordings_start() {
    assert_eq!(system_time_ns(1_500, 1_000), 500);
    assert_eq!(system_time_ns(900, 1_000), 0);
    assert_eq!(system_time_ns(i128::MAX, i128::MIN), u64::MAX);
    assert_eq!(time_trace_start_ns(Some(3), 1_000, 77), 2_000);
    assert_eq!(time_trace_start_ns(None, 1_000, 77), 77);
}

fn clang_event(phase: &str, name: &str) -> ClangEvent {
    ClangEvent {
        phase: phase.into(),
        name: name.into(),
        category: "Source".into(),
        timestamp_ns: 10,
        duration_ns: 0,
        thread_id: 4,
        detail: Some("a.h".into()),
    }
}

#[test]
fn totals_and_marks_are_left_out() {
    let mut writer = Writer::create();
    writer.take();
    let mut capture = Capture::new();
    for event in [clang_event("i", "mark"), clang_event("X", "Total Source")] {
        capture.import_clang_event(&mut writer, 7, 100, Backend::Clang, &event).unwrap();
    }
    assert!(writer.take().is_empty());
    let event = clang_event("X", "Source");
    capture.import_clang_event(&mut writer, 7, 100, Backend::Clang, &event).unwrap();
    let first = writer.take();
    capture.import_clang_event(&mut writer, 7, 100, Backend::Clang, &event).unwrap();
    let second = writer.take();
    let track = "Clang compiler [pid 7]".as_bytes();
    assert!(first.windows(track.len()).any(|window| window == track));
    assert!(!second.windows(track.len()).any(|window| window == track), "one track a thread");
}

#[test]
fn intervals_of_a_self_profile_are_shown() {
    let mut writer = Writer::create();
    writer.take();
    let mut capture = Capture::new();
    capture
        .import_rust_interval(&mut writer, 7, 1, "typeck", "Query", 1_100, 1_050, 1_000)
        .unwrap();
    let trace = writer.take();
    assert!(trace.windows(6).any(|window| window == b"typeck"));
}

fn environment() -> WrapperEnvironment {
    WrapperEnvironment {
        profile_dir: Some(b"/p".to_vec()),
        real_rust_wrapper: None,
        real_clang: Some(b"/usr/bin/clang".to_vec()),
        real_clangxx: None,
    }
}

#[test]
fn rustc_profiles_itself_behind_a_wrapper() {
    let wrapper = b"/x/buildprof-rustc-wrapper";
    let command =
        run_wrapper(wrapper, &arguments(&["rustc", "--crate-name", "a"]), &environment(), 9)
            .unwrap();
    assert_eq!(command.program, b"rustc");
    assert_eq!(command.arguments[..2], arguments(&["--crate-name", "a"])[..]);
    assert!(command.arguments.iter().any(|argument| argument == b"-Zself-profile=/p"));
    let printed =
        run_wrapper(wrapper, &arguments(&["rustc", "-vV"]), &environment(), 9).unwrap();
    assert_eq!(printed.arguments, arguments(&["-vV"]));
    let chained = WrapperEnvironment {
        real_rust_wrapper: Some(b"sccache".to_vec()),
        ..environment()
    };
    let command = run_wrapper(wrapper, &arguments(&["rustc", "-vV"]), &chained, 9).unwrap();
    assert_eq!(command.program, b"sccache");
    assert_eq!(command.arguments[0], b"rustc");
    assert!(run_wrapper(wrapper, &[], &environment(), 9).is_none());
}

#[test]
fn clang_traces_its_time_behind_a_wrapper() {
    let command =
        run_wrapper(b"clang", &arguments(&["-c", "a.c"]), &environment(), 9).unwrap();
    assert_eq!(command.program, b"/usr/bin/clang");
    assert!(command.arguments.iter().any(|argument| argument.starts_with(b"-ftime-trace=/p/")));
    assert!(run_wrapper(b"clang++", &arguments(&["-c"]), &environment(), 9).is_none());
    assert!(run_wrapper(b"buildprof", &[], &environment(), 9).is_none());
    let outside = WrapperEnvironment { profile_dir: None, ..environment() };
    assert!(run_wrapper(b"clang", &[], &outside, 9).is_none());
}

#[test]
fn only_some_rust_compilers_profile_themselves() {
    assert!(is_nightly(b"rustc 1.90.0-nightly (abc 2025-01-01)"));
    assert!(is_nightly(b"rustc 1.90.0-dev"));
    assert!(!is_nightly(b"rustc 1.90.0 (abc 2025-01-01)"));
}

#[test]
fn wrappers_stand_first_on_the_search_path() {
    assert_eq!(wrapper_path(b"/p", "clang"), b"/p/bin/clang");
    assert_eq!(shimmed_path(b"/p/bin", b"/usr/bin:/bin"), b"/p/bin:/usr/bin:/bin");
    assert_eq!(
        find_on_path(b"/usr/bin::bin/", "clang"),
        [b"/usr/bin/clang".to_vec(), b"clang".to_vec(), b"bin/clang".to_vec()]
    );
}

#[test]
fn profile_names_are_read_back() {
    assert_eq!(rust_profile_pid(b"/p/a-b-00012.mm_profdata"), Some(12));
    assert_eq!(rust_profile_pid(b"a-x.mm_profdata"), None);
    assert_eq!(rust_profile_pid(b"a-12"), None);
    assert_eq!(trace_file_name("clang", 9), "clang-9.json");
    assert_ne!(trace_file_name("lld", 1), trace_file_name("lld", 11));
}
