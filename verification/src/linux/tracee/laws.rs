//! What can be relied on of what is read about a process.

#[allow(unused_imports)]
use super::{arguments, field_value, line_value, program_name, resolved};
#[allow(unused_imports)]
use crate::text::laws::{
    lemma_decoded, lemma_file_name, lemma_joined_path, lemma_split, lemma_trimmed, names_file,
    without,
};
#[allow(unused_imports)]
use crate::text::{
    decimal, decimal_value, decoded, digits, file_name, is_digit, is_white,
    lemma_decimal_round_trip, lemma_digits_value, split, trimmed,
};
use vstd::prelude::*;
use vstd::string::*;
#[allow(unused_imports)]
use vstd::utf8::encode_utf8;

verus! {

/// A number in a status file is read from the line that begins with its
/// field's name, white space left out.
pub proof fn lemma_status_line(field: Seq<char>, value: i32, before: Seq<char>, after: Seq<char>)
    requires
        value >= 0,
        forall|i: int| 0 <= i < before.len() ==> is_white(#[trigger] before[i]),
        forall|i: int| 0 <= i < after.len() ==> is_white(#[trigger] after[i]),
    ensures
        line_value(field + (before + decimal(value as int) + after), field) == Some(value),
{
    let text = decimal(value as int);
    let line = field + (before + text + after);
    assert(line.subrange(0, field.len() as int) =~= field);
    assert(line.skip(field.len() as int) =~= before + text + after);
    lemma_decimal_round_trip(value as int);
    lemma_digits_value(value as nat);
    assert(is_digit(text[0]));
    assert(is_digit(text[text.len() - 1]));
    lemma_trimmed(before, text, after);
}

/// Lines about other fields do not matter, and later ones neither.
pub proof fn lemma_status_lines(
    earlier: Seq<Seq<char>>,
    line: Seq<char>,
    later: Seq<Seq<char>>,
    field: Seq<char>,
    value: i32,
)
    requires
        forall|i: int| 0 <= i < earlier.len() ==> !field.is_prefix_of(#[trigger] earlier[i]),
        line_value(line, field) == Some(value),
    ensures
        field_value(earlier + seq![line] + later, field) == Some(value),
    decreases earlier.len(),
{
    let lines = earlier + seq![line] + later;
    if earlier.len() == 0 {
        assert(lines[0] == line);
    } else {
        assert(lines[0] == earlier[0]);
        assert(!field.is_prefix_of(earlier[0]));
        let fewer = earlier.skip(1);
        assert(lines.skip(1) =~= fewer + seq![line] + later);
        assert forall|i: int| 0 <= i < fewer.len() implies !field.is_prefix_of(
            #[trigger] fewer[i],
        ) by {
            assert(fewer[i] == earlier[i + 1]);
        }
        lemma_status_lines(fewer, line, later, field, value);
    }
}

/// Without a line about a field there is no number for it.
pub proof fn lemma_status_without(lines: Seq<Seq<char>>, field: Seq<char>)
    requires
        forall|i: int| 0 <= i < lines.len() ==> !field.is_prefix_of(#[trigger] lines[i]),
    ensures
        field_value(lines, field) is None,
    decreases lines.len(),
{
    if lines.len() > 0 {
        let rest = lines.skip(1);
        assert(!field.is_prefix_of(lines[0]));
        assert forall|i: int| 0 <= i < rest.len() implies !field.is_prefix_of(
            #[trigger] rest[i],
        ) by {
            assert(rest[i] == lines[i + 1]);
        }
        lemma_status_without(rest, field);
    }
}

/// What a `cmdline` file holds for some arguments: each with a zero byte
/// behind it.
pub open spec fn cmdline(argv: Seq<Seq<char>>) -> Seq<u8>
    decreases argv.len(),
{
    if argv.len() == 0 {
        Seq::empty()
    } else {
        cmdline(argv.drop_last()) + encode_utf8(argv.last()).push(0)
    }
}

/// The arguments in a `cmdline` file are those of the command, in their order;
/// only empty ones are left out.
pub proof fn lemma_command_line(argv: Seq<Seq<char>>)
    requires
        forall|i: int|
            0 <= i < argv.len() ==> argv[i].len() > 0 && without(
                encode_utf8(#[trigger] argv[i]),
                0,
            ),
    ensures
        arguments(split(cmdline(argv), 0)) == argv,
    decreases argv.len(),
{
    let empty = Seq::<u8>::empty();
    lemma_split(empty, 0u8, empty);
    if argv.len() == 0 {
        let pieces = split(cmdline(argv), 0);
        assert(pieces =~= seq![empty]);
        assert(pieces.drop_last() =~= Seq::<Seq<u8>>::empty());
        assert(arguments(pieces.drop_last()) =~= argv);
        assert(pieces.last().len() == 0);
    } else {
        let fewer = argv.drop_last();
        let last = argv.last();
        let bytes = encode_utf8(last);
        assert(without(encode_utf8(argv[argv.len() - 1]), 0));
        assert forall|i: int| 0 <= i < fewer.len() implies fewer[i].len() > 0 && without(
            encode_utf8(#[trigger] fewer[i]),
            0,
        ) by {
            assert(fewer[i] == argv[i]);
        }
        lemma_command_line(fewer);
        lemma_decoded(last);
        if bytes.len() == 0 {
            assert(bytes =~= encode_utf8(Seq::<char>::empty()));
            lemma_decoded(Seq::<char>::empty());
        }
        let all = cmdline(argv);
        // The last piece, behind the last zero byte, is empty.
        lemma_split(cmdline(fewer) + bytes, 0u8, empty);
        assert(all =~= (cmdline(fewer) + bytes).push(0) + empty);
        let pieces = split(all, 0);
        let inner = split(cmdline(fewer) + bytes, 0);
        assert(pieces == inner.push(empty));
        assert(pieces.drop_last() =~= inner);
        assert(arguments(pieces) == arguments(inner));
        if fewer.len() == 0 {
            assert(cmdline(fewer) + bytes =~= bytes);
            lemma_split(empty, 0u8, bytes);
            assert(inner =~= seq![bytes]);
            assert(inner.drop_last() =~= Seq::<Seq<u8>>::empty());
            assert(arguments(inner.drop_last()) =~= Seq::<Seq<char>>::empty());
            assert(arguments(inner) =~= argv);
        } else {
            let head = cmdline(fewer.drop_last()) + encode_utf8(fewer.last());
            assert(cmdline(fewer) =~= head.push(0));
            lemma_split(head, 0u8, bytes);
            lemma_split(head, 0u8, empty);
            assert(head.push(0) + empty =~= head.push(0));
            let outer = split(cmdline(fewer), 0);
            assert(outer == split(head, 0).push(empty));
            assert(outer.drop_last() =~= split(head, 0));
            assert(arguments(outer) == arguments(split(head, 0)));
            assert(inner == split(head, 0).push(bytes));
            assert(inner.drop_last() =~= split(head, 0));
            assert(arguments(inner) =~= argv);
        }
    }
}

/// A program is known by its file name, wherever it is installed.
pub proof fn lemma_program_name(directory: Seq<u8>, name: Seq<char>)
    requires
        names_file(encode_utf8(name)),
        directory.len() == 0 || directory.last() == 47,
    ensures
        program_name(directory + encode_utf8(name)) == name,
{
    lemma_file_name(directory, encode_utf8(name));
    lemma_decoded(name);
}

/// A relative path starts at the directory, and an absolute one is the same
/// from anywhere.
pub proof fn lemma_resolved(base: Seq<char>, path: Seq<char>)
    ensures
        path.len() > 0 && path[0] == '/' ==> resolved(Some(base), path) == path,
        base.len() > 0 && base.last() != '/' && path.len() > 0 && path[0] != '/' ==> resolved(
            Some(base),
            path,
        ) == base + seq!['/'] + path,
        resolved(None, path) == path,
{
    lemma_joined_path(base, path);
}

} // verus!
