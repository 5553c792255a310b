//! Make sense of process metadata and memory read while a tracee is stopped.

use crate::text::{
    bytes_file_name, characters, copy_range, from_utf8_lossy, is_absolute, join_path, join_texts,
    nul_position, parse_i32, split_ranges, trim_range,
};
#[allow(unused_imports)]
use crate::text::{
    absolute, before_nul, decimal_value, decoded, file_name, join, joined, ranges_of, split,
    text_of, trimmed, views,
};
use vstd::prelude::*;
use vstd::string::*;

pub mod laws;

verus! {

pub const MAX_PATH_BYTES: usize = 4096;

/// The text of a C string at the start of what was read from memory.
pub fn c_string(memory: &[u8]) -> (text: String)
    ensures
        text@ == decoded(before_nul(memory@)),
{
    let length: usize = nul_position(memory, 0);
    assert(memory@.skip(0) =~= memory@);
    let bytes = copy_range(memory, 0, length);
    from_utf8_lossy(bytes.as_slice())
}

/// Takes up a word read from memory, no further than `limit` bytes in all.
/// Reading goes on only while there is room and no zero byte was met.
pub fn read_word(memory: &mut Vec<u8>, word: &[u8], limit: usize) -> (more: bool)
    requires
        old(memory)@.len() <= limit,
    ensures
        ({
            let room = limit - old(memory)@.len();
            let taken = if word@.len() < room {
                word@
            } else {
                word@.take(room)
            };
            &&& final(memory)@ == old(memory)@ + taken
            &&& more == (final(memory)@.len() < limit && !taken.contains(0))
        }),
{
    let room: usize = limit - memory.len();
    let amount: usize = if word.len() < room {
        word.len()
    } else {
        room
    };
    let ghost start = memory@;
    let mut zero = false;
    for i in 0..amount
        invariant
            amount <= word@.len(),
            memory@ =~= start + word@.take(i as int),
            zero == word@.take(i as int).contains(0),
    {
        proof {
            let done = word@.take(i as int);
            let more = word@.take(i + 1);
            assert(more =~= done.push(word@[i as int]));
            if zero {
                let at = choose|at: int| 0 <= at < done.len() && done[at] == 0;
                assert(more[at] == 0);
            }
            if word@[i as int] == 0 {
                assert(more[i as int] == 0);
            }
            if more.contains(0) && !zero {
                let at = choose|at: int| 0 <= at < more.len() && more[at] == 0;
                assert(at == i || done[at] == 0);
            }
        }
        memory.push(word[i]);
        if word[i] == 0 {
            zero = true;
        }
    }
    assert(word@.len() < room ==> word@.take(amount as int) =~= word@);
    memory.len() < limit && !zero
}

/// A path as seen by a process: relative ones start at `base`, if it is known.
pub open spec fn resolved(base: Option<Seq<char>>, path: Seq<char>) -> Seq<char> {
    match base {
        Some(base) => join(base, path),
        None => path,
    }
}

/// Resolve a path relative to a directory: the working directory, or the one
/// that an open descriptor stands for.
pub fn resolve_at_path(base: &Option<String>, raw_path: &str) -> (path: String)
    ensures
        path@ == resolved(text_of(*base), raw_path@),
{
    if is_absolute(raw_path) {
        return raw_path.to_owned();
    }
    match base {
        Some(base) => join_path(base.as_str(), raw_path),
        None => raw_path.to_owned(),
    }
}

/// The path of an opened file: where its descriptor leads, or else the path
/// it was opened by.
pub fn resolve_open_path(link: &Option<String>, cwd: &Option<String>, raw_path: &str) -> (path:
    String)
    ensures
        path@ == (match text_of(*link) {
            Some(link) => link,
            None => resolved(text_of(*cwd), raw_path@),
        }),
{
    match link {
        Some(link) => link.as_str().to_owned(),
        None => resolve_at_path(cwd, raw_path),
    }
}

/// The texts of the arguments that are not empty.
pub open spec fn arguments(pieces: Seq<Seq<u8>>) -> Seq<Seq<char>>
    decreases pieces.len(),
{
    if pieces.len() == 0 {
        Seq::empty()
    } else if pieces.last().len() == 0 {
        arguments(pieces.drop_last())
    } else {
        arguments(pieces.drop_last()).push(decoded(pieces.last()))
    }
}

/// The arguments in a `cmdline` file, unless it holds none.
pub fn read_command_line(bytes: &[u8]) -> (argv: Option<Vec<String>>)
    ensures
        match argv {
            Some(argv) => argv@.len() > 0 && views(argv@) == arguments(split(bytes@, 0)),
            None => arguments(split(bytes@, 0)).len() == 0,
        },
{
    let ranges = split_ranges(bytes, 0);
    let mut argv: Vec<String> = Vec::new();
    let ghost pieces = split(bytes@, 0);
    for i in 0..ranges.len()
        invariant
            pieces == split(bytes@, 0),
            pieces == ranges_of(bytes@, ranges@),
            forall|j: int|
                0 <= j < ranges@.len() ==> (#[trigger] ranges@[j]).0 <= ranges@[j].1
                    <= bytes@.len(),
            views(argv@) == arguments(pieces.take(i as int)),
    {
        let (start, end) = ranges[i];
        proof {
            let range = ranges@[i as int];
            let done = pieces.take(i as int);
            let more = pieces.take(i + 1);
            assert(more.drop_last() =~= done);
            assert(more.last() == bytes@.subrange(start as int, end as int));
        }
        if start < end {
            let argument = copy_range(bytes, start, end);
            let text = from_utf8_lossy(argument.as_slice());
            let ghost before = views(argv@);
            argv.push(text);
            assert(views(argv@) =~= before.push(text@));
        }
    }
    assert(pieces.take(ranges@.len() as int) =~= pieces);
    assert(views(argv@).len() == argv@.len());
    if argv.len() == 0 {
        None
    } else {
        Some(argv)
    }
}

/// The number on a line, if the line is about `field`.
pub open spec fn line_value(line: Seq<char>, field: Seq<char>) -> Option<i32> {
    if field.is_prefix_of(line) {
        match decimal_value(trimmed(line.skip(field.len() as int))) {
            Some(value) => if i32::MIN <= value <= i32::MAX {
                Some(value as i32)
            } else {
                None
            },
            None => None,
        }
    } else {
        None
    }
}

/// The number on the first line that holds one for `field`.
pub open spec fn field_value(lines: Seq<Seq<char>>, field: Seq<char>) -> Option<i32>
    decreases lines.len(),
{
    if lines.len() == 0 {
        None
    } else {
        match line_value(lines[0], field) {
            Some(value) => Some(value),
            None => field_value(lines.skip(1), field),
        }
    }
}

fn has_prefix(text: &[char], start: usize, end: usize, prefix: &[char]) -> (found: bool)
    requires
        start <= end <= text@.len(),
    ensures
        found == prefix@.is_prefix_of(text@.subrange(start as int, end as int)),
{
    let ghost line = text@.subrange(start as int, end as int);
    if end - start < prefix.len() {
        return false;
    }
    for i in 0..prefix.len()
        invariant
            start <= end <= text@.len(),
            end - start >= prefix@.len(),
            line == text@.subrange(start as int, end as int),
            forall|j: int| 0 <= j < i ==> prefix@[j] == line[j],
    {
        if text[start + i] != prefix[i] {
            assert(line.subrange(0, prefix@.len() as int)[i as int] == line[i as int]);
            return false;
        }
    }
    assert(prefix@ =~= line.subrange(0, prefix@.len() as int));
    true
}

/// A number in a process's `status` file.
pub fn status_field(status: &str, field: &str) -> (value: Option<i32>)
    ensures
        value == field_value(split(status@, 10), field@),
{
    let text = characters(status);
    let prefix = characters(field);
    let ranges = split_ranges(text.as_slice(), 10);
    let ghost lines = split(text@, 10);
    assert(lines.skip(0) =~= lines);
    for i in 0..ranges.len()
        invariant
            prefix@ == field@,
            lines == split(status@, 10),
            lines == ranges_of(text@, ranges@),
            forall|j: int|
                0 <= j < ranges@.len() ==> (#[trigger] ranges@[j]).0 <= ranges@[j].1
                    <= text@.len(),
            field_value(lines, field@) == field_value(lines.skip(i as int), field@),
    {
        let (start, end) = ranges[i];
        proof {
            let range = ranges@[i as int];
            assert(lines.skip(i as int)[0] == text@.subrange(start as int, end as int));
            assert(lines.skip(i as int).skip(1) =~= lines.skip(i + 1));
        }
        if has_prefix(text.as_slice(), start, end, prefix.as_slice()) {
            let after: usize = start + prefix.len();
            proof {
                assert(text@.subrange(start as int, end as int).skip(field@.len() as int)
                    =~= text@.subrange(after as int, end as int));
            }
            let (from, to) = trim_range(text.as_slice(), after, end);
            if let Some(value) = parse_i32(text.as_slice(), from, to) {
                return Some(value);
            }
        }
    }
    assert(lines.skip(ranges@.len() as int).len() == 0);
    None
}

/// The parent of a process, by its `status` file.
pub fn read_ppid(status: &str) -> (pid: Option<i32>)
    ensures
        pid == field_value(split(status@, 10), "PPid:"@),
{
    status_field(status, "PPid:")
}

/// The process that a task belongs to, by its `status` file.
pub fn read_tgid(status: &str) -> (pid: Option<i32>)
    ensures
        pid == field_value(split(status@, 10), "Tgid:"@),
{
    status_field(status, "Tgid:")
}

/// The texts of a command's arguments.
pub open spec fn lossy_texts(command: Seq<Vec<u8>>) -> Seq<Seq<char>> {
    command.map_values(|argument: Vec<u8>| decoded(argument@))
}

/// A command as one line of text.
pub fn command_line(command: &[Vec<u8>]) -> (line: String)
    ensures
        line@ == joined(lossy_texts(command@), " "@),
{
    let mut texts: Vec<String> = Vec::new();
    for i in 0..command.len()
        invariant
            views(texts@) =~= lossy_texts(command@).take(i as int),
    {
        let text = from_utf8_lossy(command[i].as_slice());
        let ghost before = views(texts@);
        texts.push(text);
        assert(views(texts@) =~= before.push(text@));
    }
    assert(lossy_texts(command@).take(command@.len() as int) =~= lossy_texts(command@));
    join_texts(texts.as_slice(), " ")
}

/// The name a program goes by: its file name, or the whole if it has none.
pub open spec fn program_name(command: Seq<u8>) -> Seq<char> {
    match file_name(command) {
        Some(name) => decoded(name),
        None => decoded(command),
    }
}

pub fn executable_name(command: &[u8]) -> (name: String)
    ensures
        name@ == program_name(command@),
{
    match bytes_file_name(command) {
        Some(name) => from_utf8_lossy(name.as_slice()),
        None => from_utf8_lossy(command),
    }
}

} // verus!
