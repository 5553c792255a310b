//! What can be relied on of texts and paths.

#[allow(unused_imports)]
use super::{
    absolute, after_last, all_digits, before_nul, decimal, decimal_value, decoded, digits, file_name,
    holds_text, is_digit, is_white, join, join_bytes, joined, lemma_after_last,
    lemma_decimal_round_trip, split, trimmed, unsigned_value, Symbol,
};
use vstd::prelude::*;
#[allow(unused_imports)]
use vstd::utf8::*;

verus! {

/// Whether a sequence is without a symbol.
pub open spec fn without<A: Symbol>(text: Seq<A>, code: int) -> bool {
    forall|i: int| 0 <= i < text.len() ==> (#[trigger] text[i]).code() != code
}

/// Whether a component of a path names a file.
pub open spec fn names_file<A: Symbol>(name: Seq<A>) -> bool {
    &&& name.len() > 0
    &&& without(name, 47)
    &&& !(name.len() == 1 && name[0].code() == 46)
    &&& !(name.len() == 2 && name[0].code() == 46 && name[1].code() == 46)
}

pub proof fn lemma_last_piece<A: Symbol>(before: Seq<A>, after: Seq<A>, separator: int)
    requires
        before.len() == 0 || before.last().code() == separator,
        without(after, separator),
    ensures
        after_last(before + after, separator) == before.len(),
    decreases after.len(),
{
    let all = before + after;
    if after.len() == 0 {
        assert(all =~= before);
    } else {
        assert(all.last() == after[after.len() - 1]);
        assert(all.drop_last() =~= before + after.drop_last());
        assert(without(after.drop_last(), separator)) by {
            assert forall|i: int| 0 <= i < after.len() - 1 implies (
            #[trigger] after.drop_last()[i]).code() != separator by {
                assert(after.drop_last()[i] == after[i]);
            }
        }
        lemma_last_piece(before, after.drop_last(), separator);
    }
}

/// The file name of a path is what follows its last slash, and all of a path
/// without one.
pub proof fn lemma_file_name<A: Symbol>(directory: Seq<A>, name: Seq<A>)
    requires
        names_file(name),
        directory.len() == 0 || directory.last().code() == 47,
    ensures
        file_name(directory + name) == Some(name),
{
    lemma_last_piece(directory, name, 47);
    assert((directory + name).skip(directory.len() as int) =~= name);
}

/// A path that ends in a slash names the same file as without it.
pub proof fn lemma_trailing_slash<A: Symbol>(path: Seq<A>, slash: A)
    requires
        slash.code() == 47,
    ensures
        file_name(path.push(slash)) == file_name(path),
{
    let longer = path.push(slash);
    assert(longer.take(longer.len() - 1) =~= path);
    assert(longer.skip(longer.len() as int).len() == 0);
}

/// What has no separator is one piece, and a separator parts what stands on
/// its two sides.
pub proof fn lemma_split<A: Symbol>(before: Seq<A>, separator: A, last: Seq<A>)
    requires
        without(last, separator.code()),
    ensures
        split(last, separator.code()) == seq![last],
        split(before.push(separator) + last, separator.code()) == split(
            before,
            separator.code(),
        ).push(last),
{
    lemma_last_piece(Seq::<A>::empty(), last, separator.code());
    assert(Seq::<A>::empty() + last =~= last);
    let head = before.push(separator);
    lemma_last_piece(head, last, separator.code());
    let all = head + last;
    assert(all.take(head.len() - 1) =~= before);
    assert(all.skip(head.len() as int) =~= last);
}

/// A separator parts what stands on its two sides, whatever other separators
/// there are.
pub proof fn lemma_split_apart<A: Symbol>(before: Seq<A>, separator: A, after: Seq<A>)
    ensures
        split(before.push(separator) + after, separator.code()) == split(
            before,
            separator.code(),
        ) + split(after, separator.code()),
    decreases after.len(),
{
    let code = separator.code();
    let all = before.push(separator) + after;
    lemma_after_last(after, code);
    let start = after_last(after, code) as int;
    if start == 0 {
        assert(without(after, code)) by {
            assert forall|i: int| 0 <= i < after.len() implies (#[trigger] after[i]).code()
                != code by {}
        }
        lemma_split(before, separator, after);
        assert(split(before, code).push(after) =~= split(before, code) + seq![after]);
    } else {
        let head = after.take(start - 1);
        let tail = after.skip(start);
        let found = after[start - 1];
        assert(without(tail, code)) by {
            assert forall|i: int| 0 <= i < tail.len() implies (#[trigger] tail[i]).code()
                != code by {
                assert(tail[i] == after[i + start]);
            }
        }
        assert(after =~= head.push(found) + tail);
        lemma_split(head, found, tail);
        lemma_split_apart(before, separator, head);
        let front = before.push(separator) + head;
        assert(all =~= front.push(found) + tail);
        lemma_split(front, found, tail);
        assert(split(all, code) =~= split(before, code) + split(after, code));
    }
}

/// A C string ends before its first zero byte, whatever follows.
pub proof fn lemma_c_string(text: Seq<u8>, rest: Seq<u8>)
    requires
        forall|i: int| 0 <= i < text.len() ==> #[trigger] text[i] != 0,
    ensures
        before_nul(text) == text,
        before_nul(text.push(0) + rest) == text,
    decreases text.len(),
{
    let all = text.push(0) + rest;
    if text.len() > 0 {
        let shorter = text.skip(1);
        assert forall|i: int| 0 <= i < shorter.len() implies #[trigger] shorter[i] != 0 by {
            assert(shorter[i] == text[i + 1]);
        }
        lemma_c_string(shorter, rest);
        assert(all.skip(1) =~= shorter.push(0) + rest);
        assert(seq![text[0]] + shorter =~= text);
    }
}

/// Bytes that encode a text are read as that text.
pub proof fn lemma_decoded(text: Seq<char>)
    ensures
        decoded(encode_utf8(text)) == text,
{
    encode_utf8_valid_utf8(text);
    encode_utf8_decode_utf8(text);
}

/// Texts put together are encoded one after the other.
pub proof fn lemma_encoded(first: Seq<char>, second: Seq<char>)
    ensures
        encode_utf8(first + second) == encode_utf8(first) + encode_utf8(second),
    decreases first.len(),
{
    if first.len() == 0 {
        assert(first + second =~= second);
        assert(encode_utf8(first) + encode_utf8(second) =~= encode_utf8(second));
    } else {
        lemma_encoded(first.drop_first(), second);
        assert((first + second).drop_first() =~= first.drop_first() + second);
        assert(encode_utf8(first + second) =~= encode_utf8(first) + encode_utf8(second));
    }
}

/// Another part goes behind the others, with the separator in between.
pub proof fn lemma_joined(parts: Seq<Seq<char>>, last: Seq<char>, separator: Seq<char>)
    ensures
        joined(seq![last], separator) == last,
        parts.len() > 0 ==> joined(parts.push(last), separator) == joined(parts, separator)
            + separator + last,
{
    assert(parts.push(last).drop_last() =~= parts);
}

/// White space around a text does not count, and none else is lost.
pub proof fn lemma_trimmed(before: Seq<char>, text: Seq<char>, after: Seq<char>)
    requires
        forall|i: int| 0 <= i < before.len() ==> is_white(#[trigger] before[i]),
        forall|i: int| 0 <= i < after.len() ==> is_white(#[trigger] after[i]),
        text.len() > 0,
        !is_white(text[0]),
        !is_white(text.last()),
    ensures
        trimmed(before + text + after) == text,
    decreases before.len() + after.len(),
{
    let all = before + text + after;
    if before.len() > 0 {
        assert(all[0] == before[0]);
        let shorter = before.skip(1);
        assert forall|i: int| 0 <= i < shorter.len() implies is_white(#[trigger] shorter[i]) by {
            assert(shorter[i] == before[i + 1]);
        }
        assert(all.skip(1) =~= shorter + text + after);
        lemma_trimmed(shorter, text, after);
    } else {
        assert(all[0] == text[0]);
        if after.len() > 0 {
            assert(all.last() == after[after.len() - 1]);
            let shorter = after.drop_last();
            assert forall|i: int| 0 <= i < shorter.len() implies is_white(#[trigger] shorter[i]) by {
                assert(shorter[i] == after[i]);
            }
            assert(all.drop_last() =~= before + text + shorter);
            lemma_trimmed(before, text, shorter);
        } else {
            assert(all =~= text);
        }
    }
}

/// A path that starts at the root stays as it is; any other comes behind the
/// directory, with one slash in between.
pub proof fn lemma_joined_path(directory: Seq<char>, path: Seq<char>)
    ensures
        path.len() > 0 && path[0] == '/' ==> join(directory, path) == path,
        directory.len() > 0 && directory.last() != '/' && (path.len() == 0 || path[0] != '/')
            ==> join(directory, path) == directory + seq!['/'] + path,
        directory.len() > 0 && directory.last() == '/' && (path.len() == 0 || path[0] != '/')
            ==> join(directory, path) == directory + path,
{
}

/// The same of paths given as bytes.
pub proof fn lemma_joined_path_bytes(directory: Seq<u8>, path: Seq<u8>)
    ensures
        path.len() > 0 && path[0] == 47 ==> join_bytes(directory, path) == path,
        directory.len() > 0 && directory.last() != 47 && (path.len() == 0 || path[0] != 47)
            ==> join_bytes(directory, path) == directory + seq![47u8] + path,
        directory.len() > 0 && directory.last() == 47 && (path.len() == 0 || path[0] != 47)
            ==> join_bytes(directory, path) == directory + path,
{
}

/// A text holds a part that stands in it, and nothing longer than itself.
pub proof fn lemma_holds(before: Seq<char>, part: Seq<char>, after: Seq<char>)
    ensures
        holds_text(before + part + after, part),
        after.len() > 0 ==> !holds_text(part, part + after),
{
    let text = before + part + after;
    let at = before.len() as int;
    assert(text.subrange(at, at + part.len()) =~= part);
}

/// A number without a sign is read as the number it is.
pub proof fn lemma_unsigned_read_back(value: nat)
    ensures
        unsigned_value(decimal(value as int)) == Some(value as int),
{
    lemma_decimal_round_trip(value as int);
    super::lemma_digits_value(value);
    assert(is_digit(digits(value)[0]));
}

} // verus!
