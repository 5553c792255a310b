//! What the kernel's bytes mean.

#[allow(unused_imports)]
use super::{
    after_zeros, argument_count, arguments_of, event_at, events_in, explanation, half_at, program_of,
    signed_half, since_epoch, threads_in, word_at, Event,
};
#[allow(unused_imports)]
use crate::macos::recon::word_bytes;
#[allow(unused_imports)]
use crate::text::laws::{lemma_c_string, lemma_split, lemma_split_apart, without};
#[allow(unused_imports)]
use crate::text::{before_nul, split, Symbol};
use vstd::prelude::*;

verus! {

/// The four bytes of half a word, least significant first.
pub open spec fn half_bytes(half: u32) -> Seq<u8> {
    word_bytes(half as u64).take(4)
}

proof fn lemma_half_read(half: u32)
    ensures
        half_bytes(half).len() == 4,
        half_at(half_bytes(half), 0) == half,
{
    let bytes = half_bytes(half);
    let word = half as u64;
    assert(bytes[0] == (word % 0x100) as u8);
    assert(bytes[1] == (word / 0x100 % 0x100) as u8);
    assert(bytes[2] == (word / 0x1_0000 % 0x100) as u8);
    assert(bytes[3] == (word / 0x100_0000 % 0x100) as u8);
    assert(half == half % 0x100 + 0x100 * (half / 0x100 % 0x100) + 0x1_0000 * (half / 0x1_0000
        % 0x100) + 0x100_0000 * (half / 0x100_0000 % 0x100)) by (bit_vector);
}

/// A word that was written least significant byte first is read as the number
/// it is.
pub proof fn lemma_word_read(word: u64)
    ensures
        word_bytes(word).len() == 8,
        word_at(word_bytes(word), 0) == word,
{
    let bytes = word_bytes(word);
    let low = (word % 0x1_0000_0000) as u32;
    let high = (word / 0x1_0000_0000) as u32;
    assert(word % 0x100 == (word % 0x1_0000_0000) % 0x100 && word / 0x100 % 0x100 == (word
        % 0x1_0000_0000) / 0x100 % 0x100 && word / 0x1_0000 % 0x100 == (word % 0x1_0000_0000)
        / 0x1_0000 % 0x100 && word / 0x100_0000 % 0x100 == (word % 0x1_0000_0000) / 0x100_0000
        % 0x100 && word / 0x100_0000_0000 % 0x100 == (word / 0x1_0000_0000) / 0x100 % 0x100
        && word / 0x1_0000_0000_0000 % 0x100 == (word / 0x1_0000_0000) / 0x1_0000 % 0x100 && word
        / 0x100_0000_0000_0000 % 0x100 == (word / 0x1_0000_0000) / 0x100_0000 % 0x100)
        by (bit_vector);
    lemma_half_read(low);
    lemma_half_read(high);
    assert(bytes.take(4) =~= half_bytes(low));
    assert(bytes.skip(4) =~= half_bytes(high));
    lemma_half_moved(bytes, half_bytes(low), 0);
    lemma_half_moved(bytes, half_bytes(high), 4);
}

proof fn lemma_half_moved(bytes: Seq<u8>, half: Seq<u8>, at: int)
    requires
        half.len() == 4,
        0 <= at <= bytes.len() - 4,
        bytes.subrange(at, at + 4) == half,
    ensures
        half_at(bytes, at) == half_at(half, 0),
{
    let part = bytes.subrange(at, at + 4);
    assert(part[0] == bytes[at] && part[1] == bytes[at + 1] && part[2] == bytes[at + 2] && part[3]
        == bytes[at + 3]);
}

proof fn lemma_word_moved(bytes: Seq<u8>, word: u64, at: int)
    requires
        0 <= at <= bytes.len() - 8,
        bytes.subrange(at, at + 8) == word_bytes(word),
    ensures
        word_at(bytes, at) == word,
{
    lemma_word_read(word);
    let part = word_bytes(word);
    assert(bytes.subrange(at, at + 4) =~= part.subrange(0, 4)) by {
        assert forall|i: int| 0 <= i < 4 implies bytes.subrange(at, at + 4)[i] == part.subrange(
            0,
            4,
        )[i] by {
            assert(bytes.subrange(at, at + 8)[i] == part[i]);
        }
    }
    assert(bytes.subrange(at + 4, at + 8) =~= part.subrange(4, 8)) by {
        assert forall|i: int| 0 <= i < 4 implies bytes.subrange(at + 4, at + 8)[i]
            == part.subrange(4, 8)[i] by {
            assert(bytes.subrange(at, at + 8)[i + 4] == part[i + 4]);
        }
    }
    lemma_half_moved(bytes, part.subrange(0, 4), at);
    lemma_half_moved(part, part.subrange(0, 4), 0);
    lemma_half_moved(bytes, part.subrange(4, 8), at + 4);
    lemma_half_moved(part, part.subrange(4, 8), 4);
}

/// A record that the kernel wrote is read as the event it stands for: when it
/// happened, its four arguments, the thread and the kind.
pub proof fn lemma_record_read(bytes: Seq<u8>, at: int, event: Event)
    requires
        0 <= at <= bytes.len() - 64,
        bytes.subrange(at, at + 8) == word_bytes(event.timestamp),
        bytes.subrange(at + 8, at + 16) == word_bytes(event.args@[0]),
        bytes.subrange(at + 16, at + 24) == word_bytes(event.args@[1]),
        bytes.subrange(at + 24, at + 32) == word_bytes(event.args@[2]),
        bytes.subrange(at + 32, at + 40) == word_bytes(event.args@[3]),
        bytes.subrange(at + 40, at + 48) == word_bytes(event.thread),
        bytes.subrange(at + 48, at + 52) == half_bytes(event.debugid),
    ensures
        ({
            let read = event_at(bytes, at);
            &&& read.timestamp == event.timestamp
            &&& read.args@[0] == event.args@[0]
            &&& read.args@[1] == event.args@[1]
            &&& read.args@[2] == event.args@[2]
            &&& read.args@[3] == event.args@[3]
            &&& read.thread == event.thread
            &&& read.debugid == event.debugid
        }),
{
    lemma_word_moved(bytes, event.timestamp, at);
    lemma_word_moved(bytes, event.args@[0], at + 8);
    lemma_word_moved(bytes, event.args@[1], at + 16);
    lemma_word_moved(bytes, event.args@[2], at + 24);
    lemma_word_moved(bytes, event.args@[3], at + 32);
    lemma_word_moved(bytes, event.thread, at + 40);
    lemma_half_read(event.debugid);
    lemma_half_moved(bytes, half_bytes(event.debugid), at + 48);
}

/// The two lowest bits of an event's number say whether something starts or
/// ends, and the others of what kind it is.
pub proof fn lemma_kinds(event: Event, kind: u32)
    requires
        kind % 4 == 0,
    ensures
        event.debugid == kind ==> event.kind() == kind && !event.starts() && !event.ends(),
        event.debugid == kind + 1 ==> event.kind() == kind && event.starts() && !event.ends(),
        event.debugid == kind + 2 ==> event.kind() == kind && !event.starts() && event.ends(),
{
}

/// Each entry of a thread map says whose thread one is.
pub proof fn lemma_thread_listed(map: Seq<u8>, length: int, i: int, thread: u64, pid: i32)
    requires
        0 <= i,
        32 * (i + 1) <= length <= map.len(),
        map.subrange(32 * i, 32 * i + 8) == word_bytes(thread),
        map.subrange(32 * i + 8, 32 * i + 12) == half_bytes(
            (if pid < 0 {
                pid + 0x1_0000_0000
            } else {
                pid as int
            }) as u32,
        ),
    ensures
        threads_in(map, length as nat).len() == length / 32,
        threads_in(map, length as nat)[i] == (thread, pid),
{
    let bits = (if pid < 0 {
        pid + 0x1_0000_0000
    } else {
        pid as int
    }) as u32;
    lemma_word_moved(map, thread, 32 * i);
    lemma_half_read(bits);
    lemma_half_moved(map, half_bytes(bits), 32 * i + 8);
}

/// As many records are read as there are, in their order, and no more than
/// there is room for.
pub proof fn lemma_records_read(buffer: Seq<u8>, events: nat, i: int)
    ensures
        64 * events <= buffer.len() ==> events_in(buffer, events).len() == events,
        64 * events > buffer.len() ==> events_in(buffer, events).len() == buffer.len() / 64,
        0 <= i < events_in(buffer, events).len() ==> events_in(buffer, events)[i] == event_at(
            buffer,
            64 * i,
        ),
{
}

/// The time a process started at, in nanoseconds.
pub proof fn lemma_started(seconds: u64, microseconds: u32)
    ensures
        since_epoch(0, 0) == 0,
        since_epoch(seconds, microseconds) - since_epoch(seconds, 0) == 1000 * microseconds,
        since_epoch(seconds, microseconds) - since_epoch(0, microseconds) == 1_000_000_000
            * seconds,
{
}

/// Two failures are explained: another user of the facility, and too few
/// privileges.
pub proof fn lemma_explained(errno: i32)
    ensures
        explanation(errno) is Some <==> errno == 1 || errno == 16,
        explanation(1) == Some("the kernel trace facility needs root"@),
        explanation(1) != explanation(16),
{
    reveal_strlit("the kernel trace facility needs root");
    reveal_strlit(
        "another program is using the kernel trace facility (Instruments, ktrace, fs_usage or a system diagnostic); stop it and try again",
    );
    assert("the kernel trace facility needs root"@.len() == 36);
}

/// Some arguments, each with a zero byte behind it.
pub open spec fn ended_by_zeros(arguments: Seq<Seq<u8>>) -> Seq<u8>
    decreases arguments.len(),
{
    if arguments.len() == 0 {
        Seq::empty()
    } else {
        ended_by_zeros(arguments.drop_last()) + arguments.last().push(0)
    }
}

proof fn lemma_arguments_split(arguments: Seq<Seq<u8>>, rest: Seq<u8>)
    requires
        forall|i: int| 0 <= i < arguments.len() ==> without(#[trigger] arguments[i], 0),
    ensures
        split(ended_by_zeros(arguments) + rest, 0) == arguments + split(rest, 0),
    decreases arguments.len(),
{
    if arguments.len() == 0 {
        assert(ended_by_zeros(arguments) + rest =~= rest);
        assert(arguments + split(rest, 0) =~= split(rest, 0));
    } else {
        let fewer = arguments.drop_last();
        let last = arguments.last();
        assert forall|i: int| 0 <= i < fewer.len() implies without(#[trigger] fewer[i], 0) by {
            assert(fewer[i] == arguments[i]);
        }
        assert(without(arguments[arguments.len() - 1], 0));
        lemma_arguments_split(fewer, last.push(0) + rest);
        assert(ended_by_zeros(arguments) + rest =~= ended_by_zeros(fewer) + (last.push(0) + rest));
        lemma_split_apart(last, 0u8, rest);
        lemma_split(last, 0u8, last);
        assert(fewer + (seq![last] + split(rest, 0)) =~= arguments + split(rest, 0));
    }
}

proof fn lemma_zeros_skipped(zeros: Seq<u8>, rest: Seq<u8>)
    requires
        forall|i: int| 0 <= i < zeros.len() ==> #[trigger] zeros[i] == 0,
        rest.len() > 0,
        rest[0] != 0,
    ensures
        after_zeros(zeros + rest) == rest,
    decreases zeros.len(),
{
    if zeros.len() == 0 {
        assert(zeros + rest =~= rest);
    } else {
        let fewer = zeros.skip(1);
        assert((zeros + rest)[0] == zeros[0]);
        assert((zeros + rest).skip(1) =~= fewer + rest);
        assert forall|i: int| 0 <= i < fewer.len() implies #[trigger] fewer[i] == 0 by {
            assert(fewer[i] == zeros[i + 1]);
        }
        lemma_zeros_skipped(fewer, rest);
    }
}

/// A command line is read as it was laid out: the number of arguments, the
/// program, zeros, the arguments and what follows them.
pub proof fn lemma_command_line_read(
    program: Seq<u8>,
    zeros: Seq<u8>,
    arguments: Seq<Seq<u8>>,
    environment: Seq<u8>,
)
    requires
        without(program, 0),
        zeros.len() > 0,
        forall|i: int| 0 <= i < zeros.len() ==> #[trigger] zeros[i] == 0,
        0 < arguments.len() < 0x8000_0000,
        forall|i: int| 0 <= i < arguments.len() ==> without(#[trigger] arguments[i], 0),
        arguments[0].len() > 0,
    ensures
        ({
            let data = half_bytes(arguments.len() as u32) + program + zeros + ended_by_zeros(
                arguments,
            ) + environment;
            &&& program_of(data) == program
            &&& arguments_of(data) == arguments
        }),
{
    let count = arguments.len() as u32;
    let listed = ended_by_zeros(arguments);
    let data = half_bytes(count) + program + zeros + listed + environment;
    lemma_half_read(count);
    assert(data.subrange(0, 4) =~= half_bytes(count));
    lemma_half_moved(data, half_bytes(count), 0);
    assert forall|i: int| 0 <= i < program.len() implies #[trigger] program[i] != 0 by {
        assert(program[i].code() != 0);
    }
    let behind = zeros.skip(1) + listed + environment;
    assert(data.skip(4) =~= program.push(0) + behind);
    lemma_c_string(program, behind);
    let rest = data.skip(4 + program.len() as int);
    assert(rest =~= zeros + (listed + environment));
    lemma_first_listed(arguments);
    assert((listed + environment)[0] == listed[0]);
    lemma_zeros_skipped(zeros, listed + environment);
    lemma_arguments_split(arguments, environment);
    let all = split(listed + environment, 0);
    assert(all.take(arguments.len() as int) =~= arguments);
}

proof fn lemma_first_listed(arguments: Seq<Seq<u8>>)
    requires
        arguments.len() > 0,
        arguments[0].len() > 0,
        without(arguments[0], 0),
    ensures
        ended_by_zeros(arguments).len() > 0,
        ended_by_zeros(arguments)[0] == arguments[0][0],
        ended_by_zeros(arguments)[0] != 0,
    decreases arguments.len(),
{
    assert(arguments[0][0].code() != 0);
    if arguments.len() == 1 {
        assert(ended_by_zeros(arguments.drop_last()) =~= Seq::<u8>::empty());
        assert(ended_by_zeros(arguments) =~= arguments[0].push(0));
    } else {
        assert(arguments.drop_last()[0] == arguments[0]);
        lemma_first_listed(arguments.drop_last());
    }
}

} // verus!
