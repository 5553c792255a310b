//! What can be relied on of compilers' traces and of the wrappers that ask
//! for them.

#[allow(unused_imports)]
use super::{
    behind_shims, between, can_profile, candidates, clang_command, clang_slice, imported, informs, lasting,
    lemma_profile_pid_read_back, links, path_option, profile_name, profile_pid, rust_command, rust_slice, selected_linker, selects_lld, stops_early, trace_file,
    trace_start, uses_lld, wrapped, Backend, ClangEvent, WrappedCommandView, WrapperEnvironment,
};
#[allow(unused_imports)]
use crate::perfetto::reading::{
    begins_slice, bits_of, ends_slice, is_annotated, is_at, is_named, lemma_detail_shown,
    lemma_slice_shown, shows_number, shows_text,
};
#[allow(unused_imports)]
use crate::perfetto::{compiler_track, iid};
#[allow(unused_imports)]
use crate::text::laws::{
    lemma_decoded, lemma_encoded, lemma_file_name, lemma_joined_path_bytes, lemma_split,
    lemma_split_apart, names_file, without,
};
#[allow(unused_imports)]
use crate::text::{
    all_digits, bytes_of, decimal, decoded, digits_value, file_name, holds_text, join_bytes, split,
    text_of, Symbol,
};
use vstd::prelude::*;
use vstd::string::*;
#[allow(unused_imports)]
use vstd::utf8::*;

verus! {

/// A phase of Clang or LLD is shown as long after the start of its trace as it
/// says, for as long as it says but at least a nanosecond, under its own name,
/// category and detail, on the track of its thread.
pub proof fn lemma_phase_placed(
    pid: i32,
    trace_start_ns: u64,
    backend: Backend,
    event: ClangEvent,
    names: Map<Seq<char>, u64>,
    values: Map<Seq<char>, u64>,
)
    requires
        trace_start_ns + event.timestamp_ns <= u64::MAX,
    ensures
        ({
            let slice = clang_slice(pid, trace_start_ns, backend, event);
            let packets = slice.packets(names, values);
            let begin = packets[packets.len() - 2];
            let end = packets[packets.len() - 1];
            let start_ns = trace_start_ns + event.timestamp_ns;
            let title = match backend {
                Backend::Rust => "Rust"@,
                Backend::Clang => "Clang"@,
                Backend::Lld => "LLD"@,
            };
            let track = compiler_track(pid, event.thread_id, title);
            &&& is_at(begin, start_ns as u64)
            &&& event.duration_ns > 0 && start_ns + event.duration_ns <= u64::MAX ==> is_at(
                end,
                (start_ns + event.duration_ns) as u64,
            )
            &&& event.duration_ns == 0 && start_ns < u64::MAX ==> is_at(end, (start_ns + 1) as u64)
            &&& begins_slice(begin, track)
            &&& ends_slice(end, track)
            &&& is_named(begin, event.name@)
            &&& shows_text(begin, 15, event.category@)
            &&& shows_text(begin, 14, title)
            &&& shows_number(begin, 13, bits_of(pid as int))
            &&& event.detail matches Some(detail) ==> is_annotated(
                begin,
                iid(names, "detail"@),
                iid(values, detail@),
            )
        }),
{
    let slice = clang_slice(pid, trace_start_ns, backend, event);
    lemma_slice_shown(slice, names, values);
    if let Some(detail) = event.detail {
        lemma_detail_shown(slice, detail@, names, values);
    }
}

/// Two phases of one trace are shown as far apart as they were.
pub proof fn lemma_phases_apart(
    pid: i32,
    trace_start_ns: u64,
    backend: Backend,
    first: ClangEvent,
    second: ClangEvent,
)
    requires
        trace_start_ns + first.timestamp_ns <= u64::MAX,
        trace_start_ns + second.timestamp_ns <= u64::MAX,
    ensures
        clang_slice(pid, trace_start_ns, backend, second).start_ns - clang_slice(
            pid,
            trace_start_ns,
            backend,
            first,
        ).start_ns == second.timestamp_ns - first.timestamp_ns,
        clang_slice(pid, trace_start_ns, backend, first).start_ns - trace_start_ns
            == first.timestamp_ns,
{
}

/// A phase that begins after the last moment of a trace is shown there.
pub proof fn lemma_phase_at_the_end(
    pid: i32,
    trace_start_ns: u64,
    backend: Backend,
    event: ClangEvent,
)
    requires
        trace_start_ns + event.timestamp_ns > u64::MAX,
    ensures
        clang_slice(pid, trace_start_ns, backend, event).start_ns == u64::MAX,
{
}

/// Only complete events are phases, and totals are not.
pub proof fn lemma_phases_chosen(name: Seq<char>, phase: Seq<char>)
    ensures
        !(name.len() >= 6 && name[0] == 'T' && name[1] == 'o' && name[2] == 't' && name[3] == 'a'
            && name[4] == 'l' && name[5] == ' ') ==> imported(seq!['X'], name),
        phase != seq!['X'] ==> !imported(phase, name),
        !imported(phase, seq!['T', 'o', 't', 'a', 'l', ' '] + name),
{
    reveal_strlit("X");
    reveal_strlit("Total ");
    assert("X"@ =~= seq!['X']);
    assert("Total "@ =~= seq!['T', 'o', 't', 'a', 'l', ' ']);
    let total = seq!['T', 'o', 't', 'a', 'l', ' '] + name;
    assert("Total "@ =~= total.subrange(0, 6));
    if "Total "@.is_prefix_of(name) {
        assert(name.subrange(0, 6)[0] == name[0]);
        assert(name.subrange(0, 6)[1] == name[1]);
        assert(name.subrange(0, 6)[2] == name[2]);
        assert(name.subrange(0, 6)[3] == name[3]);
        assert(name.subrange(0, 6)[4] == name[4]);
        assert(name.subrange(0, 6)[5] == name[5]);
    }
}

/// An interval of a Rust self-profile is shown as long after the start of the
/// recording as it began, until it ended, under its own label and kind.
pub proof fn lemma_interval_placed(
    pid: i32,
    thread_id: u32,
    label: Seq<char>,
    kind: Seq<char>,
    start_time_ns: int,
    end_time_ns: int,
    origin_ns: int,
    names: Map<Seq<char>, u64>,
    values: Map<Seq<char>, u64>,
)
    requires
        origin_ns <= start_time_ns < end_time_ns,
        end_time_ns - origin_ns <= u64::MAX,
    ensures
        ({
            let slice = rust_slice(
                pid,
                thread_id,
                label,
                kind,
                start_time_ns,
                end_time_ns,
                origin_ns,
            );
            let packets = slice.packets(names, values);
            let begin = packets[packets.len() - 2];
            let end = packets[packets.len() - 1];
            let track = compiler_track(pid, thread_id, "Rust"@);
            &&& is_at(begin, (start_time_ns - origin_ns) as u64)
            &&& is_at(end, (end_time_ns - origin_ns) as u64)
            &&& begins_slice(begin, track)
            &&& ends_slice(end, track)
            &&& is_named(begin, label)
            &&& shows_text(begin, 15, kind)
            &&& shows_text(begin, 14, "Rust"@)
            &&& shows_number(begin, 13, bits_of(pid as int))
        }),
{
    let slice = rust_slice(pid, thread_id, label, kind, start_time_ns, end_time_ns, origin_ns);
    lemma_slice_shown(slice, names, values);
}

/// An interval from before the recording is shown at its start, and one that
/// takes no time for a nanosecond.
pub proof fn lemma_odd_intervals(
    pid: i32,
    thread_id: u32,
    label: Seq<char>,
    kind: Seq<char>,
    start_time_ns: int,
    end_time_ns: int,
    origin_ns: int,
)
    ensures
        ({
            let slice = rust_slice(
                pid,
                thread_id,
                label,
                kind,
                start_time_ns,
                end_time_ns,
                origin_ns,
            );
            &&& start_time_ns <= origin_ns ==> slice.start_ns == 0
            &&& end_time_ns <= start_time_ns ==> slice.duration_ns == 1
        }),
{
}

/// A time trace begins when it says, in microseconds, and without a word of
/// its own when its process did.
pub proof fn lemma_trace_start(beginning_us: u64, origin_ns: int, process_start_ns: u64)
    requires
        origin_ns <= beginning_us * 1000,
        beginning_us * 1000 - origin_ns <= u64::MAX,
    ensures
        origin_ns + trace_start(Some(beginning_us), origin_ns, process_start_ns) == beginning_us
            * 1000,
        trace_start(None, origin_ns, process_start_ns) == process_start_ns,
{
}

/// Whether an argument keeps Clang from linking.
pub open spec fn keeps_from_linking(argument: Seq<u8>) -> bool {
    ||| argument == encode_utf8("-c"@)
    ||| argument == encode_utf8("-S"@)
    ||| argument == encode_utf8("-E"@)
    ||| argument == encode_utf8("-M"@)
    ||| argument == encode_utf8("-MM"@)
    ||| argument == encode_utf8("-fsyntax-only"@)
    ||| argument == encode_utf8("-cc1"@)
}

/// Whether an argument asks for LLD by name, or by the path of its program in
/// some directory.
pub open spec fn asks_for_lld(argument: Seq<u8>) -> bool {
    ||| argument == encode_utf8("-fuse-ld=lld"@)
    ||| exists|directory: Seq<u8>|
        (directory.len() == 0 || directory.last() == 47) && (argument == encode_utf8("-fuse-ld="@)
            + #[trigger] (directory + encode_utf8("ld.lld"@)))
    ||| exists|directory: Seq<u8>|
        (directory.len() == 0 || directory.last() == 47) && (argument == encode_utf8("--ld-path="@)
            + #[trigger] (directory + encode_utf8("ld.lld"@)))
}

/// Whether an argument says which linker to use.
pub open spec fn names_linker(argument: Seq<u8>) -> bool {
    encode_utf8("-fuse-ld="@).is_prefix_of(argument) || encode_utf8("--ld-path="@).is_prefix_of(
        argument,
    )
}

proof fn lemma_asks_for_lld(argument: Seq<u8>)
    requires
        asks_for_lld(argument),
    ensures
        selects_lld(argument),
{
    broadcast use vstd::utf8::group_utf8_lib;

    let fuse = encode_utf8("-fuse-ld="@);
    let path = encode_utf8("--ld-path="@);
    let lld = encode_utf8("ld.lld"@);
    if argument != encode_utf8("-fuse-ld=lld"@) {
        reveal_strlit("ld.lld");
        reveal_strlit("-fuse-ld=");
        reveal_strlit("--ld-path=");
        assert(is_ascii_chars("ld.lld"@));
        assert(is_ascii_chars("-fuse-ld="@));
        assert(is_ascii_chars("--ld-path="@));
        assert(lld.len() == 6);
        assert forall|i: int| 0 <= i < lld.len() implies (#[trigger] lld[i]) != 47 by {
            assert("ld.lld"@[i] as u8 == lld[i]);
        }
        assert(names_file(lld));
        if exists|directory: Seq<u8>|
            (directory.len() == 0 || directory.last() == 47) && (argument == fuse
                + #[trigger] (directory + lld)) {
            let directory = choose|directory: Seq<u8>|
                (directory.len() == 0 || directory.last() == 47) && (argument == fuse
                    + #[trigger] (directory + lld));
            assert(fuse =~= argument.subrange(0, fuse.len() as int));
            assert(argument.skip(fuse.len() as int) =~= directory + lld);
            lemma_file_name(directory, lld);
        } else {
            let directory = choose|directory: Seq<u8>|
                (directory.len() == 0 || directory.last() == 47) && (argument == path
                    + #[trigger] (directory + lld));
            assert(path =~= argument.subrange(0, path.len() as int));
            assert(argument[1] == path[1]);
            assert("--ld-path="@[1] as u8 == path[1]);
            assert("-fuse-ld="@[1] as u8 == fuse[1]);
            if fuse.is_prefix_of(argument) {
                assert(argument.subrange(0, fuse.len() as int)[1] == argument[1]);
            }
            assert(argument.skip(path.len() as int) =~= directory + lld);
            lemma_file_name(directory, lld);
        }
    }
}

proof fn lemma_selects_lld(argument: Seq<u8>)
    requires
        selects_lld(argument),
    ensures
        names_linker(argument),
{
    if argument == encode_utf8("-fuse-ld=lld"@) {
        reveal_strlit("-fuse-ld=lld");
        reveal_strlit("-fuse-ld=");
        reveal_strlit("lld");
        assert("-fuse-ld=lld"@ =~= "-fuse-ld="@ + "lld"@);
        lemma_encoded("-fuse-ld="@, "lld"@);
        assert(encode_utf8("-fuse-ld="@) =~= argument.subrange(
            0,
            encode_utf8("-fuse-ld="@).len() as int,
        ));
    }
}

proof fn lemma_trace_path(directory: Seq<char>, prefix: Seq<char>, pid: u32, option: Seq<char>)
    requires
        directory.len() > 0,
        encode_utf8(directory).len() > 0,
        encode_utf8(directory).last() != 47,
        prefix == "clang"@ || prefix == "lld"@,
    ensures
        path_option(
            option,
            join_bytes(encode_utf8(directory), encode_utf8(trace_file(prefix, pid))),
        ) == encode_utf8(
            option + (directory + "/"@ + prefix + "-"@ + decimal(pid as int) + ".json"@),
        ),
{
    broadcast use vstd::utf8::group_utf8_lib;

    let name = trace_file(prefix, pid);
    let rest = "-"@ + decimal(pid as int) + ".json"@;
    reveal_strlit("clang");
    reveal_strlit("lld");
    reveal_strlit("/");
    assert(is_ascii_chars(prefix));
    assert(name =~= prefix + rest);
    lemma_encoded(prefix, rest);
    assert(encode_utf8(name)[0] == encode_utf8(prefix)[0]);
    assert(prefix[0] as u8 == encode_utf8(prefix)[0]);
    lemma_joined_path_bytes(encode_utf8(directory), encode_utf8(name));
    assert(is_ascii_chars("/"@));
    assert(encode_utf8("/"@) =~= seq![47u8]);
    lemma_encoded(directory, "/"@);
    lemma_encoded(directory + "/"@, name);
    let path = directory + "/"@ + name;
    assert(join_bytes(encode_utf8(directory), encode_utf8(name)) =~= encode_utf8(path));
    lemma_decoded(path);
    assert(path =~= directory + "/"@ + prefix + "-"@ + decimal(pid as int) + ".json"@);
}

/// Clang is always told to write its own trace to a file named after its pid.
/// LLD is told so too in a run that links with it: none of whose arguments
/// keeps it from linking, and one of which asks for LLD.
pub proof fn lemma_clang_traced(
    clang: Seq<u8>,
    arguments: Seq<Seq<u8>>,
    directory: Seq<char>,
    pid: u32,
)
    requires
        directory.len() > 0,
        encode_utf8(directory).len() > 0,
        encode_utf8(directory).last() != 47,
    ensures
        ({
            let command = clang_command(clang, arguments, encode_utf8(directory), pid);
            let file = |prefix: Seq<char>|
                directory + "/"@ + prefix + "-"@ + decimal(pid as int) + ".json"@;
            &&& command.program == clang
            &&& command.arguments.contains(encode_utf8("-ftime-trace="@ + file("clang"@)))
            &&& (forall|i: int|
                0 <= i < arguments.len() ==> !keeps_from_linking(#[trigger] arguments[i])) && (
            exists|i: int| 0 <= i < arguments.len() && asks_for_lld(#[trigger] arguments[i]))
                ==> command.arguments.contains(
                encode_utf8("-Wl,--time-trace="@ + file("lld"@)),
            )
        }),
{
    let command = clang_command(clang, arguments, encode_utf8(directory), pid);
    lemma_trace_path(directory, "clang"@, pid, "-ftime-trace="@);
    lemma_trace_path(directory, "lld"@, pid, "-Wl,--time-trace="@);
    let own = path_option(
        "-ftime-trace="@,
        join_bytes(encode_utf8(directory), encode_utf8(trace_file("clang"@, pid))),
    );
    assert(command.arguments[arguments.len() as int] == own);
    if (forall|i: int| 0 <= i < arguments.len() ==> !keeps_from_linking(#[trigger] arguments[i]))
        && (exists|i: int| 0 <= i < arguments.len() && asks_for_lld(#[trigger] arguments[i])) {
        assert forall|i: int| 0 <= i < arguments.len() implies !stops_early(
            #[trigger] arguments[i],
        ) by {
            assert(!keeps_from_linking(arguments[i]));
        }
        let i = choose|i: int| 0 <= i < arguments.len() && asks_for_lld(#[trigger] arguments[i]);
        lemma_asks_for_lld(arguments[i]);
        assert(links(arguments) && uses_lld(arguments));
        assert(command.arguments[arguments.len() as int + 1] == path_option(
            "-Wl,--time-trace="@,
            join_bytes(encode_utf8(directory), encode_utf8(trace_file("lld"@, pid))),
        ));
    }
}

/// A linker is told nothing in a run that does not link, or does not say that
/// it links with LLD.
pub proof fn lemma_linker_left_alone(
    clang: Seq<u8>,
    arguments: Seq<Seq<u8>>,
    profile_dir: Seq<u8>,
    pid: u32,
    at: int,
)
    requires
        (exists|i: int| 0 <= i < arguments.len() && keeps_from_linking(#[trigger] arguments[i])) || (
        forall|i: int| 0 <= i < arguments.len() ==> !names_linker(#[trigger] arguments[i])),
        arguments.len() <= at < clang_command(clang, arguments, profile_dir, pid).arguments.len(),
    ensures
        !encode_utf8("-Wl,"@).is_prefix_of(
            clang_command(clang, arguments, profile_dir, pid).arguments[at],
        ),
{
    broadcast use vstd::utf8::group_utf8_lib;

    let command = clang_command(clang, arguments, profile_dir, pid);
    if exists|i: int| 0 <= i < arguments.len() && keeps_from_linking(#[trigger] arguments[i]) {
        let i = choose|i: int|
            0 <= i < arguments.len() && keeps_from_linking(#[trigger] arguments[i]);
        assert(stops_early(arguments[i]));
        assert(!links(arguments));
    } else {
        assert forall|i: int| 0 <= i < arguments.len() implies !selects_lld(
            #[trigger] arguments[i],
        ) by {
            assert(!names_linker(arguments[i]));
            if selects_lld(arguments[i]) {
                lemma_selects_lld(arguments[i]);
            }
        }
        assert(!uses_lld(arguments));
    }
    assert(command.arguments.len() == arguments.len() + 1);
    let path = join_bytes(profile_dir, encode_utf8(trace_file("clang"@, pid)));
    assert(command.arguments[at] == path_option("-ftime-trace="@, path));
    reveal_strlit("-ftime-trace=");
    reveal_strlit("-Wl,");
    assert(is_ascii_chars("-ftime-trace="@));
    assert(is_ascii_chars("-Wl,"@));
    lemma_encoded("-ftime-trace="@, decoded(path));
    let own = command.arguments[at];
    let wanted = encode_utf8("-Wl,"@);
    assert(own[1] == encode_utf8("-ftime-trace="@)[1]);
    assert("-ftime-trace="@[1] as u8 == own[1]);
    assert("-Wl,"@[1] as u8 == wanted[1]);
    if wanted.is_prefix_of(own) {
        assert(own.subrange(0, wanted.len() as int)[1] == own[1]);
    }
}

/// Whether an argument makes rustc only print something.
pub open spec fn only_prints(argument: Seq<u8>) -> bool {
    ||| argument == encode_utf8("--version"@)
    ||| argument == encode_utf8("-V"@)
    ||| argument == encode_utf8("-vV"@)
    ||| argument == encode_utf8("--print"@)
    ||| encode_utf8("--print="@).is_prefix_of(argument)
}

/// Rustc is told to profile itself into the directory for profiles, unless it
/// only prints something: then it runs as it was asked to. Another wrapper
/// runs it in either case.
pub proof fn lemma_rustc_traced(
    arguments: Seq<Seq<u8>>,
    directory: Seq<char>,
    wrapper: Option<Seq<u8>>,
)
    requires
        arguments.len() > 0,
    ensures
        rust_command(arguments, encode_utf8(directory), wrapper) matches Some(command) && {
            let given = match wrapper {
                Some(_) => arguments,
                None => arguments.skip(1),
            };
            &&& command.program == (match wrapper {
                Some(wrapper) => wrapper,
                None => arguments[0],
            })
            &&& given.is_prefix_of(command.arguments)
            &&& if exists|i: int| 1 <= i < arguments.len() && only_prints(#[trigger] arguments[i]) {
                command.arguments == given
            } else {
                &&& command.arguments.len() == given.len() + 2
                &&& command.arguments.contains(encode_utf8("-Zself-profile="@ + directory))
                &&& command.arguments.contains(
                    encode_utf8("-Zself-profile-events=generic-activity"@),
                )
            }
        },
        rust_command(Seq::empty(), encode_utf8(directory), wrapper) is None,
{
    let rest = arguments.skip(1);
    let given = match wrapper {
        Some(_) => arguments,
        None => rest,
    };
    let command = rust_command(arguments, encode_utf8(directory), wrapper)->0;
    assert(seq![arguments[0]] + rest =~= arguments);
    lemma_decoded(directory);
    assert(given =~= command.arguments.subrange(0, given.len() as int));
    if exists|i: int| 1 <= i < arguments.len() && only_prints(#[trigger] arguments[i]) {
        let i = choose|i: int| 1 <= i < arguments.len() && only_prints(#[trigger] arguments[i]);
        assert(informs(rest[i - 1]));
        assert(command.arguments =~= given);
    } else {
        assert forall|i: int| 0 <= i < rest.len() implies !informs(#[trigger] rest[i]) by {
            assert(rest[i] == arguments[i + 1]);
            assert(!only_prints(arguments[i + 1]));
        }
        assert(command.arguments[given.len() as int] == encode_utf8(
            "-Zself-profile="@ + directory,
        ));
        assert(command.arguments[given.len() as int + 1] == encode_utf8(
            "-Zself-profile-events=generic-activity"@,
        ));
    }
}

/// Which compiler a wrapper runs is told by the name it was invoked under,
/// wherever it stands.
pub proof fn lemma_wrappers_told_apart(
    directory: Seq<u8>,
    arguments: Seq<Seq<u8>>,
    environment: WrapperEnvironment,
    pid: u32,
)
    requires
        directory.len() == 0 || directory.last() == 47,
        environment.profile_dir is Some,
        environment.real_clang is Some,
        environment.real_clangxx is Some,
    ensures
        ({
            let profile_dir = environment.profile_dir->0@;
            &&& wrapped(directory + encode_utf8("clang"@), arguments, environment, pid) == Some(
                clang_command(environment.real_clang->0@, arguments, profile_dir, pid),
            )
            &&& wrapped(directory + encode_utf8("clang++"@), arguments, environment, pid) == Some(
                clang_command(environment.real_clangxx->0@, arguments, profile_dir, pid),
            )
            &&& wrapped(
                directory + encode_utf8("buildprof-rustc-wrapper"@),
                arguments,
                environment,
                pid,
            ) == rust_command(arguments, profile_dir, bytes_of(environment.real_rust_wrapper))
        }),
{
    broadcast use vstd::utf8::group_utf8_lib;

    reveal_strlit("clang");
    reveal_strlit("clang++");
    reveal_strlit("buildprof-rustc-wrapper");
    lemma_plain_name("clang"@);
    lemma_plain_name("clang++"@);
    lemma_plain_name("buildprof-rustc-wrapper"@);
    lemma_file_name(directory, encode_utf8("clang"@));
    lemma_file_name(directory, encode_utf8("clang++"@));
    lemma_file_name(directory, encode_utf8("buildprof-rustc-wrapper"@));
    assert(encode_utf8("clang"@).len() == 5);
    assert(encode_utf8("clang++"@).len() == 7);
    assert(encode_utf8("buildprof-rustc-wrapper"@).len() == 23);
}

proof fn lemma_plain_name(name: Seq<char>)
    requires
        is_ascii_chars(name),
        name.len() > 2,
        forall|i: int| 0 <= i < name.len() ==> #[trigger] name[i] != '/',
    ensures
        names_file(encode_utf8(name)),
        encode_utf8(name).len() == name.len(),
{
    broadcast use vstd::utf8::group_utf8_lib;

    let bytes = encode_utf8(name);
    assert forall|i: int| 0 <= i < bytes.len() implies (#[trigger] bytes[i]) != 47 by {
        assert(name[i] as u8 == bytes[i]);
    }
    assert(crate::text::laws::without(bytes, 47));
}

/// A process that was not invoked as a wrapper, or without a directory for
/// profiles, wraps nothing.
pub proof fn lemma_nothing_wrapped(
    invoked_as: Seq<u8>,
    arguments: Seq<Seq<u8>>,
    environment: WrapperEnvironment,
    pid: u32,
)
    requires
        environment.profile_dir is None || (file_name(invoked_as) != Some(encode_utf8("clang"@))
            && file_name(invoked_as) != Some(encode_utf8("clang++"@)) && file_name(invoked_as)
            != Some(encode_utf8("buildprof-rustc-wrapper"@))),
    ensures
        wrapped(invoked_as, arguments, environment, pid) is None,
{
}

/// A nightly or self-built rustc can profile itself, and no other.
pub proof fn lemma_can_profile(before: Seq<char>, after: Seq<char>, version: Seq<char>)
    ensures
        can_profile(before + "nightly"@ + after),
        can_profile(before + "-dev"@ + after),
        can_profile(version) ==> holds_text(version, "nightly"@) || holds_text(version, "-dev"@),
{
    crate::text::laws::lemma_holds(before, "nightly"@, after);
    crate::text::laws::lemma_holds(before, "-dev"@, after);
}

/// On the search path of a build the wrappers come first, and then whatever
/// was on it before, in the same order.
pub proof fn lemma_shims_first(shims: Seq<u8>, path: Seq<u8>, program: Seq<u8>)
    requires
        without(shims, 58),
    ensures
        candidates(behind_shims(shims, path), program) == seq![join_bytes(shims, program)]
            + candidates(path, program),
{
    broadcast use vstd::utf8::group_utf8_lib;

    reveal_strlit(":");
    assert(is_ascii_chars(":"@));
    assert(":"@[0] as u8 == encode_utf8(":"@)[0]);
    assert(behind_shims(shims, path) =~= shims.push(58u8) + path);
    lemma_split_apart(shims, 58u8, path);
    lemma_split(shims, 58u8, shims);
    assert(candidates(behind_shims(shims, path), program) =~= seq![join_bytes(shims, program)]
        + candidates(path, program));
}

/// Each directory of a search path is looked in, in turn.
pub proof fn lemma_search_in_order(first: Seq<u8>, rest: Seq<u8>, program: Seq<u8>)
    requires
        without(first, 58),
    ensures
        candidates(first, program) == seq![join_bytes(first, program)],
        candidates(first.push(58) + rest, program) == seq![join_bytes(first, program)]
            + candidates(rest, program),
{
    lemma_split_apart(first, 58u8, rest);
    lemma_split(first, 58u8, first);
    assert(candidates(first, program) =~= seq![join_bytes(first, program)]);
    assert(candidates(first.push(58) + rest, program) =~= seq![join_bytes(first, program)]
        + candidates(rest, program));
}

/// The self-profile of a process is found by the number in its file name.
pub proof fn lemma_profile_found(program: Seq<char>, number: Seq<char>)
    requires
        without(encode_utf8(program + "-"@ + number + ".mm_profdata"@), 47),
        number.len() > 0,
        all_digits(number),
        digits_value(number) <= i32::MAX,
    ensures
        profile_pid(encode_utf8(program + "-"@ + number + ".mm_profdata"@)) == Some(
            digits_value(number) as i32,
        ),
{
    reveal_strlit(".mm_profdata");
    reveal_strlit(".");
    reveal_strlit("mm_profdata");
    let text = program + "-"@ + number;
    assert(".mm_profdata"@ =~= "."@ + "mm_profdata"@);
    lemma_encoded("."@, "mm_profdata"@);
    lemma_encoded(text, ".mm_profdata"@);
    let name = encode_utf8(text + ".mm_profdata"@);
    assert(name =~= profile_name(program, number));
    assert forall|i: int| 0 <= i < name.len() implies #[trigger] name[i] != 47 by {
        assert(name[i].code() != 47);
    }
    lemma_profile_pid_read_back(program, number);
}

} // verus!
