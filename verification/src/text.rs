//! Texts and paths: comparing and splitting them, and writing and reading
//! numbers in them.

use vstd::prelude::*;
#[allow(unused_imports)]
use vstd::string::*;
#[allow(unused_imports)]
use vstd::utf8::*;

pub mod laws;

verus! {

/// The decimal digit for a number below ten.
pub open spec fn digit(value: nat) -> char {
    (48 + value) as char
}

/// The decimal digits of a number, without leading zeroes.
pub open spec fn digits(value: nat) -> Seq<char>
    decreases value,
{
    if value < 10 {
        seq![digit(value)]
    } else {
        digits(value / 10).push(digit(value % 10))
    }
}

/// A number in decimal, with a minus sign if it is negative.
pub open spec fn decimal(value: int) -> Seq<char> {
    if value < 0 {
        seq!['-'] + digits((-value) as nat)
    } else {
        digits(value as nat)
    }
}

/// Whether a character is one of the ten decimal digits.
pub open spec fn is_digit(c: char) -> bool {
    '0' <= c <= '9'
}

/// The number that decimal digits stand for.
pub open spec fn digits_value(text: Seq<char>) -> nat
    decreases text.len(),
{
    if text.len() == 0 {
        0
    } else {
        digits_value(text.drop_last()) * 10 + (text.last() as nat - 48) as nat
    }
}

pub open spec fn all_digits(text: Seq<char>) -> bool {
    forall|i: int| 0 <= i < text.len() ==> is_digit(#[trigger] text[i])
}

/// The number that a text holds in decimal: an optional sign and at least one
/// digit, nothing else.
pub open spec fn decimal_value(text: Seq<char>) -> Option<int> {
    let signed = text.len() > 0 && (text[0] == '-' || text[0] == '+');
    let magnitude = if signed {
        text.skip(1)
    } else {
        text
    };
    if magnitude.len() == 0 || !all_digits(magnitude) {
        None
    } else if signed && text[0] == '-' {
        Some(-(digits_value(magnitude) as int))
    } else {
        Some(digits_value(magnitude) as int)
    }
}

pub proof fn lemma_digits_value(value: nat)
    ensures
        all_digits(digits(value)),
        digits(value).len() > 0,
        digits_value(digits(value)) == value,
    decreases value,
{
    let text = digits(value);
    if value < 10 {
        assert(text.drop_last() =~= Seq::<char>::empty());
        assert(digits_value(text.drop_last()) == 0);
    } else {
        lemma_digits_value(value / 10);
        assert(text.drop_last() =~= digits(value / 10));
    }
}

/// A number written in decimal is read back as the same number.
pub proof fn lemma_decimal_round_trip(value: int)
    ensures
        decimal_value(decimal(value)) == Some(value),
{
    let magnitude = if value < 0 {
        (-value) as nat
    } else {
        value as nat
    };
    lemma_digits_value(magnitude);
    if value < 0 {
        assert(decimal(value).skip(1) =~= digits(magnitude));
    } else {
        assert(is_digit(decimal(value)[0]));
    }
}

/// Two numbers written in decimal look the same only if they are the same.
pub proof fn lemma_decimal_injective(a: int, b: int)
    requires
        decimal(a) == decimal(b),
    ensures
        a == b,
{
    lemma_decimal_round_trip(a);
    lemma_decimal_round_trip(b);
}

fn push_digit(out: &mut String, value: u64)
    requires
        value < 10,
    ensures
        final(out)@ == old(out)@.push(digit(value as nat)),
{
    proof {
        reveal_strlit("0");
        reveal_strlit("1");
        reveal_strlit("2");
        reveal_strlit("3");
        reveal_strlit("4");
        reveal_strlit("5");
        reveal_strlit("6");
        reveal_strlit("7");
        reveal_strlit("8");
        reveal_strlit("9");
    }
    let text = match value {
        0 => "0",
        1 => "1",
        2 => "2",
        3 => "3",
        4 => "4",
        5 => "5",
        6 => "6",
        7 => "7",
        8 => "8",
        _ => "9",
    };
    assert(text@ =~= seq![digit(value as nat)]);
    out.append(text);
}

/// Appends a number in decimal.
pub fn push_unsigned(out: &mut String, value: u64)
    ensures
        final(out)@ == old(out)@ + decimal(value as int),
    decreases value,
{
    if value >= 10 {
        push_unsigned(out, value / 10);
    }
    push_digit(out, value % 10);
}

/// Appends a number in decimal, with a minus sign if it is negative.
pub fn push_signed(out: &mut String, value: i64)
    ensures
        final(out)@ == old(out)@ + decimal(value as int),
{
    if value < 0 {
        proof {
            reveal_strlit("-");
            assert("-"@ =~= seq!['-']);
        }
        out.append("-");
        push_unsigned(out, (-(value + 1)) as u64 + 1);
    } else {
        push_unsigned(out, value as u64);
    }
}

/// A number in decimal, as a text of its own.
pub fn decimal_text(value: i64) -> (text: String)
    ensures
        text@ == decimal(value as int),
{
    let mut text = String::new();
    push_signed(&mut text, value);
    assert(Seq::<char>::empty() + decimal(value as int) =~= decimal(value as int));
    text
}

/// Whether two runs of bytes are the same.
pub fn same_bytes(a: &[u8], b: &[u8]) -> (same: bool)
    ensures
        same == (a@ == b@),
{
    if a.len() != b.len() {
        return false;
    }
    for i in 0..a.len()
        invariant
            a@.len() == b@.len(),
            a@.take(i as int) =~= b@.take(i as int),
    {
        if a[i] != b[i] {
            assert(a@[i as int] != b@[i as int]);
            return false;
        }
        assert(a@.take(i + 1) =~= a@.take(i as int).push(a@[i as int]));
        assert(b@.take(i + 1) =~= b@.take(i as int).push(b@[i as int]));
    }
    assert(a@.take(a@.len() as int) =~= a@);
    assert(b@.take(b@.len() as int) =~= b@);
    true
}

/// Whether two texts are the same.
pub fn same_text(a: &str, b: &str) -> (same: bool)
    ensures
        same == (a@ == b@),
{
    proof {
        encode_utf8_decode_utf8(a@);
        encode_utf8_decode_utf8(b@);
    }
    same_bytes(a.as_bytes(), b.as_bytes())
}

/// Whether a run of bytes begins with another.
pub fn bytes_start_with(bytes: &[u8], prefix: &[u8]) -> (starts: bool)
    ensures
        starts == prefix@.is_prefix_of(bytes@),
{
    if prefix.len() > bytes.len() {
        return false;
    }
    for i in 0..prefix.len()
        invariant
            prefix@.len() <= bytes@.len(),
            forall|j: int| 0 <= j < i ==> prefix@[j] == bytes@[j],
    {
        if prefix[i] != bytes[i] {
            assert(bytes@.subrange(0, prefix@.len() as int)[i as int] == bytes@[i as int]);
            return false;
        }
    }
    assert(prefix@ =~= bytes@.subrange(0, prefix@.len() as int));
    true
}

/// What texts and paths are made of: characters, or bytes.
pub trait Symbol: Sized {
    /// The number of the symbol; ASCII characters have the same as bytes and
    /// as characters.
    spec fn code(&self) -> int;

    /// Whether this symbol has the given number.
    fn is(&self, code: u8) -> (same: bool)
        ensures
            same == (self.code() == code),
    ;
}

impl Symbol for u8 {
    open spec fn code(&self) -> int {
        *self as int
    }

    fn is(&self, code: u8) -> (same: bool) {
        *self == code
    }
}

impl Symbol for char {
    open spec fn code(&self) -> int {
        *self as int
    }

    fn is(&self, code: u8) -> (same: bool) {
        *self == code as char
    }
}

pub const SLASH: u8 = 47;

pub const DOT: u8 = 46;

/// Where the part of a sequence after its last `separator` begins.
pub open spec fn after_last<A: Symbol>(path: Seq<A>, separator: int) -> nat
    decreases path.len(),
{
    if path.len() == 0 || path.last().code() == separator {
        path.len()
    } else {
        after_last(path.drop_last(), separator)
    }
}

pub proof fn lemma_after_last<A: Symbol>(path: Seq<A>, separator: int)
    ensures
        after_last(path, separator) <= path.len(),
        forall|i: int|
            after_last(path, separator) <= i < path.len() ==> #[trigger] path[i].code()
                != separator,
        after_last(path, separator) > 0 ==> path[after_last(path, separator) - 1].code()
            == separator,
    decreases path.len(),
{
    if path.len() > 0 && path.last().code() != separator {
        lemma_after_last(path.drop_last(), separator);
        assert forall|i: int| after_last(path, separator) <= i < path.len() implies #[trigger] path[i].code() != separator by {
            if i < path.len() - 1 {
                assert(path.drop_last()[i] == path[i]);
            }
        }
    }
}

/// The last component of a path, unless the path ends in a root or in `..`.
/// Repeated and trailing slashes and `.` components do not count.
pub open spec fn file_name<A: Symbol>(path: Seq<A>) -> Option<Seq<A>>
    decreases path.len(),
    via file_name_decreases::<A>
{
    let start = after_last(path, 47);
    let last = path.skip(start as int);
    if last.len() == 0 || (last.len() == 1 && last[0].code() == 46) {
        if start == 0 {
            None
        } else {
            file_name(path.take(start - 1))
        }
    } else if last.len() == 2 && last[0].code() == 46 && last[1].code() == 46 {
        None
    } else {
        Some(last)
    }
}

#[via_fn]
proof fn file_name_decreases<A: Symbol>(path: Seq<A>) {
    lemma_after_last(path, 47);
}

/// A file name holds no slash and is neither empty nor `.` nor `..`.
pub proof fn lemma_file_name_plain<A: Symbol>(path: Seq<A>)
    requires
        file_name(path) is Some,
    ensures
        file_name(path)->0.len() > 0,
        forall|i: int|
            0 <= i < file_name(path)->0.len() ==> #[trigger] file_name(path)->0[i].code() != 47,
        file_name(path)->0.len() == 1 ==> file_name(path)->0[0].code() != 46,
        file_name(path)->0.len() == 2 ==> !(file_name(path)->0[0].code() == 46 && file_name(
            path,
        )->0[1].code() == 46),
    decreases path.len(),
{
    lemma_after_last(path, 47);
    let start = after_last(path, 47);
    let last = path.skip(start as int);
    if last.len() == 0 || (last.len() == 1 && last[0].code() == 46) {
        lemma_file_name_plain(path.take(start - 1));
    }
}

/// Where in a path its file name stands.
fn file_name_range<A: Symbol>(path: &[A]) -> (range: Option<(usize, usize)>)
    ensures
        match range {
            Some((start, end)) => start <= end <= path@.len() && file_name(path@) == Some(
                path@.subrange(start as int, end as int),
            ),
            None => file_name(path@) is None,
        },
{
    let mut end: usize = path.len();
    assert(path@.take(end as int) =~= path@);
    loop
        invariant
            end <= path@.len(),
            file_name(path@) == file_name(path@.take(end as int)),
        decreases end,
    {
        let ghost part = path@.take(end as int);
        let mut start: usize = end;
        assert(part.take(end as int) =~= part);
        while start > 0 && !path[start - 1].is(SLASH)
            invariant
                start <= end <= path@.len(),
                part == path@.take(end as int),
                after_last(part, 47) == after_last(part.take(start as int), 47),
            decreases start,
        {
            assert(part.take(start as int).drop_last() =~= part.take(start - 1));
            start = start - 1;
        }
        proof {
            assert(after_last(part, 47) == start);
            assert(part.skip(start as int) =~= path@.subrange(start as int, end as int));
        }
        let length: usize = end - start;
        if length == 0 || (length == 1 && path[start].is(DOT)) {
            if start == 0 {
                return None;
            }
            assert(part.take(start - 1) =~= path@.take(start - 1));
            end = start - 1;
        } else if length == 2 && path[start].is(DOT) && path[start + 1].is(DOT) {
            return None;
        } else {
            return Some((start, end));
        }
    }
}

/// The characters of a text, one by one.
pub fn characters(text: &str) -> (all: Vec<char>)
    ensures
        all@ == text@,
{
    let mut all: Vec<char> = Vec::new();
    for c in iter: text.chars()
        invariant
            iter.seq() == text@,
            all@ == iter.seq().take(iter.index() as int),
    {
        all.push(c);
    }
    assert(text@.take(text@.len() as int) =~= text@);
    all
}

/// The file name of a path given as text.
pub fn text_file_name(path: &str) -> (name: Option<String>)
    ensures
        match name {
            Some(name) => file_name(path@) == Some(name@),
            None => file_name(path@) is None,
        },
{
    let all = characters(path);
    match file_name_range(all.as_slice()) {
        Some((start, end)) => Some(path.substring_char(start, end).to_owned()),
        None => None,
    }
}

/// The file name of a path given as bytes.
pub fn bytes_file_name(path: &[u8]) -> (name: Option<Vec<u8>>)
    ensures
        match name {
            Some(name) => file_name(path@) == Some(name@),
            None => file_name(path@) is None,
        },
{
    match file_name_range(path) {
        Some((start, end)) => Some(copy_range(path, start, end)),
        None => None,
    }
}

/// Some of the bytes of a run.
pub fn copy_range(bytes: &[u8], start: usize, end: usize) -> (copy: Vec<u8>)
    requires
        start <= end <= bytes@.len(),
    ensures
        copy@ == bytes@.subrange(start as int, end as int),
{
    let mut copy: Vec<u8> = Vec::new();
    for i in start..end
        invariant
            end <= bytes@.len(),
            copy@ =~= bytes@.subrange(start as int, i as int),
    {
        copy.push(bytes[i]);
    }
    copy
}

/// A copy of a run of bytes.
pub fn copy_bytes(bytes: &[u8]) -> (copy: Vec<u8>)
    ensures
        copy@ == bytes@,
{
    assert(bytes@.subrange(0, bytes@.len() as int) =~= bytes@);
    copy_range(bytes, 0, bytes.len())
}

/// Whether a path starts at the root.
pub open spec fn absolute<A: Symbol>(path: Seq<A>) -> bool {
    path.len() > 0 && path[0].code() == 47
}

/// A path taken relative to a directory.
pub open spec fn join(base: Seq<char>, path: Seq<char>) -> Seq<char> {
    if absolute(path) {
        path
    } else if base.len() == 0 || base.last() == '/' {
        base + path
    } else {
        base + seq!['/'] + path
    }
}

/// Whether a path given as text starts at the root.
pub fn is_absolute(path: &str) -> (found: bool)
    ensures
        found == absolute(path@),
{
    path.unicode_len() > 0 && path.get_char(0).is(SLASH)
}

/// Takes a path relative to a directory.
pub fn join_path(base: &str, path: &str) -> (joined: String)
    ensures
        joined@ == join(base@, path@),
{
    if is_absolute(path) {
        return path.to_owned();
    }
    let mut joined = base.to_owned();
    let length: usize = base.unicode_len();
    if length > 0 && base.get_char(length - 1) != '/' {
        proof {
            reveal_strlit("/");
            assert("/"@ =~= seq!['/']);
        }
        joined.append("/");
    }
    joined.append(path);
    joined
}

/// The text that bytes stand for, each ill-formed part replaced.
pub uninterp spec fn utf8_lossy(bytes: Seq<u8>) -> Seq<char>;

/// Decodes bytes with `String::from_utf8_lossy`. What is well-formed UTF-8 is
/// decoded as it stands; the contract leaves open how ill-formed parts are
/// replaced, beyond that the same bytes always give the same text.
#[verifier::external_body]
pub(crate) fn from_utf8_lossy(bytes: &[u8]) -> (text: String)
    ensures
        text@ == utf8_lossy(bytes@),
        valid_utf8(bytes@) ==> text@ == decode_utf8(bytes@),
{
    String::from_utf8_lossy(bytes).into_owned()
}

/// The text that bytes stand for: well-formed UTF-8 as it decodes, and
/// anything else with its ill-formed parts replaced.
pub open spec fn decoded(bytes: Seq<u8>) -> Seq<char> {
    if valid_utf8(bytes) {
        decode_utf8(bytes)
    } else {
        utf8_lossy(bytes)
    }
}

/// Texts put together, with `separator` between each two.
pub open spec fn joined(parts: Seq<Seq<char>>, separator: Seq<char>) -> Seq<char>
    decreases parts.len(),
{
    if parts.len() == 0 {
        Seq::empty()
    } else if parts.len() == 1 {
        parts[0]
    } else {
        joined(parts.drop_last(), separator) + separator + parts.last()
    }
}

/// The texts of a run of strings.
pub open spec fn views(parts: Seq<String>) -> Seq<Seq<char>> {
    parts.map_values(|part: String| part@)
}

/// The text of a string that may be missing.
pub open spec fn text_of(value: Option<String>) -> Option<Seq<char>> {
    match value {
        Some(value) => Some(value@),
        None => None,
    }
}

/// The contents of a buffer that may be missing.
pub open spec fn bytes_of(value: Option<Vec<u8>>) -> Option<Seq<u8>> {
    match value {
        Some(value) => Some(value@),
        None => None,
    }
}

/// The contents of some buffers.
pub open spec fn contents(buffers: Seq<Vec<u8>>) -> Seq<Seq<u8>> {
    buffers.map_values(|buffer: Vec<u8>| buffer@)
}

/// Puts texts together, with `separator` between each two.
pub fn join_texts(parts: &[String], separator: &str) -> (text: String)
    ensures
        text@ == joined(views(parts@), separator@),
{
    let mut text = String::new();
    for i in 0..parts.len()
        invariant
            text@ == joined(views(parts@).take(i as int), separator@),
    {
        let ghost done = views(parts@).take(i as int);
        let ghost more = views(parts@).take(i + 1);
        if i > 0 {
            text.append(separator);
        }
        text.append(parts[i].as_str());
        proof {
            assert(more.drop_last() =~= done);
            assert(more.last() == parts@[i as int]@);
            if i == 0 {
                assert(text@ =~= parts@[0]@);
            }
        }
    }
    assert(views(parts@).take(parts@.len() as int) =~= views(parts@));
    text
}

/// Whether a character counts as white space.
pub open spec fn is_white(c: char) -> bool {
    ||| '\u{9}' <= c <= '\u{d}'
    ||| c == ' '
    ||| c == '\u{85}'
    ||| c == '\u{a0}'
    ||| c == '\u{1680}'
    ||| '\u{2000}' <= c <= '\u{200a}'
    ||| c == '\u{2028}'
    ||| c == '\u{2029}'
    ||| c == '\u{202f}'
    ||| c == '\u{205f}'
    ||| c == '\u{3000}'
}

fn is_whitespace(c: char) -> (white: bool)
    ensures
        white == is_white(c),
{
    ('\u{9}' <= c && c <= '\u{d}') || c == ' ' || c == '\u{85}' || c == '\u{a0}' || c
        == '\u{1680}' || ('\u{2000}' <= c && c <= '\u{200a}') || c == '\u{2028}' || c
        == '\u{2029}' || c == '\u{202f}' || c == '\u{205f}' || c == '\u{3000}'
}

/// A text without the white space around it.
pub open spec fn trimmed(text: Seq<char>) -> Seq<char>
    decreases text.len(),
{
    if text.len() == 0 {
        text
    } else if is_white(text[0]) {
        trimmed(text.skip(1))
    } else if is_white(text.last()) {
        trimmed(text.drop_last())
    } else {
        text
    }
}

/// Where a part of a text stands once the white space around it is gone.
pub fn trim_range(text: &[char], from: usize, to: usize) -> (range: (usize, usize))
    requires
        from <= to <= text@.len(),
    ensures
        from <= range.0 <= range.1 <= to,
        text@.subrange(range.0 as int, range.1 as int) == trimmed(
            text@.subrange(from as int, to as int),
        ),
{
    let mut start: usize = from;
    while start < to && is_whitespace(text[start])
        invariant
            from <= start <= to <= text@.len(),
            trimmed(text@.subrange(start as int, to as int)) == trimmed(
                text@.subrange(from as int, to as int),
            ),
        decreases to - start,
    {
        let ghost part = text@.subrange(start as int, to as int);
        assert(part.skip(1) =~= text@.subrange(start + 1, to as int));
        start = start + 1;
    }
    let mut end: usize = to;
    while start < end && is_whitespace(text[end - 1])
        invariant
            from <= start <= end <= to <= text@.len(),
            start < to ==> !is_white(text@[start as int]),
            trimmed(text@.subrange(start as int, end as int)) == trimmed(
                text@.subrange(from as int, to as int),
            ),
        decreases end,
    {
        let ghost part = text@.subrange(start as int, end as int);
        assert(part.drop_last() =~= text@.subrange(start as int, end - 1));
        end = end - 1;
    }
    (start, end)
}

/// The number that some decimal digits stand for, as far as it is at most
/// `limit`.
fn parse_digits(text: &[char], from: usize, to: usize, limit: u64) -> (value: Option<u64>)
    requires
        from <= to <= text@.len(),
    ensures
        ({
            let part = text@.subrange(from as int, to as int);
            value == (if part.len() > 0 && all_digits(part) && digits_value(part) <= limit {
                Some(digits_value(part) as u64)
            } else {
                None
            })
        }),
{
    let ghost part = text@.subrange(from as int, to as int);
    if from == to {
        return None;
    }
    let mut value: u128 = 0;
    for i in from..to
        invariant
            to <= text@.len(),
            part == text@.subrange(from as int, to as int),
            value <= limit,
            all_digits(part.take(i - from)),
            value == digits_value(part.take(i - from)),
    {
        let c = text[i];
        assert(part[i - from] == c);
        if !('0' <= c && c <= '9') {
            return None;
        }
        assert(part.take(i - from + 1).drop_last() =~= part.take(i - from));
        value = value * 10 + (c as u128 - 48);
        if value > limit as u128 {
            proof {
                lemma_digits_value_grows(part, i - from + 1);
            }
            return None;
        }
    }
    assert(part.take(to - from) =~= part);
    Some(value as u64)
}

proof fn lemma_digits_value_grows(text: Seq<char>, length: int)
    requires
        0 <= length <= text.len(),
    ensures
        digits_value(text) >= digits_value(text.take(length)),
    decreases text.len(),
{
    if length == text.len() {
        assert(text.take(length) =~= text);
    } else {
        lemma_digits_value_grows(text.drop_last(), length);
        assert(text.drop_last().take(length) =~= text.take(length));
    }
}

/// Reads a signed number in decimal.
pub fn parse_i32(text: &[char], from: usize, to: usize) -> (value: Option<i32>)
    requires
        from <= to <= text@.len(),
    ensures
        match decimal_value(text@.subrange(from as int, to as int)) {
            Some(number) => value == (if i32::MIN <= number <= i32::MAX {
                Some(number as i32)
            } else {
                None
            }),
            None => value is None,
        },
{
    let ghost part = text@.subrange(from as int, to as int);
    if from < to && (text[from] == '-' || text[from] == '+') {
        assert(part.skip(1) =~= text@.subrange(from + 1, to as int));
        if text[from] == '-' {
            match parse_digits(text, from + 1, to, 0x8000_0000) {
                Some(value) => Some((-(value as i64)) as i32),
                None => None,
            }
        } else {
            match parse_digits(text, from + 1, to, 0x7fff_ffff) {
                Some(value) => Some(value as i32),
                None => None,
            }
        }
    } else {
        match parse_digits(text, from, to, 0x7fff_ffff) {
            Some(value) => Some(value as i32),
            None => None,
        }
    }
}

/// The pieces of a sequence between its separators, empty ones included.
pub open spec fn split<A: Symbol>(text: Seq<A>, separator: int) -> Seq<Seq<A>>
    decreases text.len(),
    via split_decreases::<A>
{
    let start = after_last(text, separator);
    if start == 0 {
        seq![text]
    } else {
        split(text.take(start - 1), separator).push(text.skip(start as int))
    }
}

#[via_fn]
proof fn split_decreases<A: Symbol>(text: Seq<A>, separator: int) {
    lemma_after_last(text, separator);
}

proof fn lemma_split_push<A: Symbol>(text: Seq<A>, symbol: A, separator: int)
    ensures
        split(text, separator).len() > 0,
        split(text.push(symbol), separator) == (if symbol.code() == separator {
            split(text, separator).push(Seq::empty())
        } else {
            split(text, separator).drop_last().push(split(text, separator).last().push(symbol))
        }),
{
    let longer = text.push(symbol);
    let start = after_last(text, separator);
    lemma_after_last(text, separator);
    assert(longer.drop_last() =~= text);
    if symbol.code() == separator {
        assert(longer.take(longer.len() - 1) =~= text);
        assert(longer.skip(longer.len() as int) =~= Seq::<A>::empty());
    } else if start == 0 {
        assert(split(text, separator).drop_last().push(longer) =~= seq![longer]);
        assert(split(text, separator).last() =~= text);
    } else {
        assert(longer.take(start - 1) =~= text.take(start - 1));
        assert(longer.skip(start as int) =~= text.skip(start as int).push(symbol));
        assert(split(text, separator).drop_last() =~= split(text.take(start - 1), separator));
    }
}

/// The parts of a sequence that some ranges stand for.
pub open spec fn ranges_of<A>(text: Seq<A>, ranges: Seq<(usize, usize)>) -> Seq<Seq<A>> {
    ranges.map_values(|range: (usize, usize)| text.subrange(range.0 as int, range.1 as int))
}

/// Where the pieces of a sequence between its separators stand.
pub fn split_ranges<A: Symbol>(text: &[A], separator: u8) -> (ranges: Vec<(usize, usize)>)
    ensures
        forall|i: int|
            0 <= i < ranges@.len() ==> (#[trigger] ranges@[i]).0 <= ranges@[i].1 <= text@.len(),
        ranges_of(text@, ranges@) == split(text@, separator as int),
{
    let mut ranges: Vec<(usize, usize)> = Vec::new();
    let mut start: usize = 0;
    proof {
        assert(text@.take(0) =~= Seq::<A>::empty());
        assert(split(Seq::<A>::empty(), separator as int) =~= seq![Seq::<A>::empty()]);
        assert(ranges_of(text@, ranges@).push(text@.subrange(0, 0)) =~= seq![Seq::<A>::empty()]);
    }
    for i in 0..text.len()
        invariant
            start <= i,
            forall|j: int|
                0 <= j < ranges@.len() ==> (#[trigger] ranges@[j]).0 <= ranges@[j].1
                    <= text@.len(),
            split(text@.take(i as int), separator as int) == ranges_of(text@, ranges@).push(
                text@.subrange(start as int, i as int),
            ),
    {
        proof {
            let done = text@.take(i as int);
            lemma_split_push(done, text@[i as int], separator as int);
            assert(done.push(text@[i as int]) =~= text@.take(i + 1));
        }
        let ghost before = ranges_of(text@, ranges@);
        let ghost piece = text@.subrange(start as int, i as int);
        if text[i].is(separator) {
            ranges.push((start, i));
            start = i + 1;
            proof {
                assert(ranges_of(text@, ranges@) =~= before.push(piece));
                assert(text@.subrange(start as int, i + 1) =~= Seq::<A>::empty());
            }
        } else {
            proof {
                assert(before.push(piece).drop_last() =~= before);
                assert(piece.push(text@[i as int]) =~= text@.subrange(start as int, i + 1));
            }
        }
    }
    let ghost before = ranges_of(text@, ranges@);
    ranges.push((start, text.len()));
    proof {
        assert(text@.take(text@.len() as int) =~= text@);
        assert(ranges_of(text@, ranges@) =~= before.push(
            text@.subrange(start as int, text@.len() as int),
        ));
    }
    ranges
}

/// The bytes before the first zero byte, or all if there is none.
pub open spec fn before_nul(bytes: Seq<u8>) -> Seq<u8>
    decreases bytes.len(),
{
    if bytes.len() == 0 || bytes[0] == 0 {
        Seq::empty()
    } else {
        seq![bytes[0]] + before_nul(bytes.skip(1))
    }
}

proof fn lemma_before_nul(bytes: Seq<u8>, length: int)
    requires
        0 <= length <= bytes.len(),
        length < bytes.len() ==> bytes[length] == 0,
        forall|i: int| 0 <= i < length ==> bytes[i] != 0,
    ensures
        before_nul(bytes) == bytes.take(length),
    decreases length,
{
    if length > 0 {
        lemma_before_nul(bytes.skip(1), length - 1);
        assert(bytes.take(length) =~= seq![bytes[0]] + bytes.skip(1).take(length - 1));
    } else {
        assert(bytes.take(0) =~= Seq::<u8>::empty());
    }
}

/// Where the first zero byte stands, at `from` or later; past the end if
/// there is none.
pub fn nul_position(bytes: &[u8], from: usize) -> (position: usize)
    requires
        from <= bytes@.len(),
    ensures
        from <= position <= bytes@.len(),
        position - from == before_nul(bytes@.skip(from as int)).len(),
        bytes@.subrange(from as int, position as int) == before_nul(bytes@.skip(from as int)),
{
    let mut position: usize = from;
    while position < bytes.len() && bytes[position] != 0
        invariant
            from <= position <= bytes@.len(),
            forall|i: int| from <= i < position ==> bytes@[i] != 0,
        decreases bytes@.len() - position,
    {
        position = position + 1;
    }
    proof {
        let part = bytes@.skip(from as int);
        assert forall|i: int| 0 <= i < position - from implies part[i] != 0 by {
            assert(part[i] == bytes@[from + i]);
        }
        lemma_before_nul(part, position - from);
        assert(part.take(position - from) =~= bytes@.subrange(from as int, position as int));
    }
    position
}

/// The unsigned number that a text holds in decimal: an optional plus sign
/// and at least one digit, nothing else.
pub open spec fn unsigned_value(text: Seq<char>) -> Option<int> {
    if text.len() > 0 && text[0] == '-' {
        None
    } else {
        decimal_value(text)
    }
}

fn parse_unsigned(text: &[char], limit: u64) -> (value: Option<u64>)
    ensures
        match unsigned_value(text@) {
            Some(number) => value == (if number <= limit {
                Some(number as u64)
            } else {
                None
            }),
            None => value is None,
        },
{
    let start: usize = if text.len() > 0 && text[0] == '+' {
        1
    } else {
        0
    };
    proof {
        if text@.len() > 0 {
            assert(text@.skip(1) =~= text@.subrange(1, text@.len() as int));
        }
        assert(text@.subrange(0, text@.len() as int) =~= text@);
        if text@.len() > 0 && text@[0] == '-' {
            assert(!is_digit(text@[0]));
        }
    }
    parse_digits(text, start, text.len(), limit)
}

/// Reads an unsigned number in decimal, if it fits in 32 bits.
pub fn parse_u32(text: &[char]) -> (value: Option<u32>)
    ensures
        match unsigned_value(text@) {
            Some(number) => value == (if number <= u32::MAX {
                Some(number as u32)
            } else {
                None
            }),
            None => value is None,
        },
{
    match parse_unsigned(text, 0xffff_ffff) {
        Some(value) => Some(value as u32),
        None => None,
    }
}

/// Reads an unsigned number in decimal, if it fits in 64 bits.
pub fn parse_u64(text: &[char]) -> (value: Option<u64>)
    ensures
        match unsigned_value(text@) {
            Some(number) => value == (if number <= u64::MAX {
                Some(number as u64)
            } else {
                None
            }),
            None => value is None,
        },
{
    parse_unsigned(text, u64::MAX)
}

/// The characters that bytes stand for one by one.
pub open spec fn byte_characters(bytes: Seq<u8>) -> Seq<char> {
    bytes.map_values(|byte: u8| byte as char)
}

/// Takes bytes for characters one by one.
pub fn bytes_as_characters(bytes: &[u8]) -> (text: Vec<char>)
    ensures
        text@ == byte_characters(bytes@),
{
    let mut text: Vec<char> = Vec::new();
    for i in 0..bytes.len()
        invariant
            text@ =~= byte_characters(bytes@).take(i as int),
    {
        text.push(bytes[i] as char);
    }
    assert(text@ =~= byte_characters(bytes@));
    text
}

/// A path given as bytes taken relative to a directory.
pub open spec fn join_bytes(base: Seq<u8>, path: Seq<u8>) -> Seq<u8> {
    if absolute(path) {
        path
    } else if base.len() == 0 || base.last() == 47 {
        base + path
    } else {
        base + seq![47u8] + path
    }
}

/// Takes a path given as bytes relative to a directory.
pub fn join_path_bytes(base: &[u8], path: &[u8]) -> (joined: Vec<u8>)
    ensures
        joined@ == join_bytes(base@, path@),
{
    let mut joined: Vec<u8> = Vec::new();
    if !(path.len() > 0 && path[0] == SLASH) {
        joined.extend_from_slice(base);
        assert(joined@ =~= base@);
        if base.len() > 0 && base[base.len() - 1] != SLASH {
            joined.push(SLASH);
        }
    }
    let ghost start = joined@;
    joined.extend_from_slice(path);
    assert(joined@ =~= start + path@);
    assert(joined@ =~= join_bytes(base@, path@));
    joined
}

/// Whether a text holds another one somewhere.
pub open spec fn holds_text(text: Seq<char>, part: Seq<char>) -> bool {
    exists|at: int|
        0 <= at <= text.len() - part.len() && #[trigger] text.subrange(at, at + part.len())
            == part
}

/// Finds out whether a text holds another one somewhere.
pub fn contains_text(text: &str, part: &str) -> (found: bool)
    ensures
        found == holds_text(text@, part@),
{
    let all = characters(text);
    let wanted = characters(part);
    let mut at: usize = 0;
    while at <= all.len() && all.len() - at >= wanted.len()
        invariant
            all@ == text@,
            wanted@ == part@,
            at <= all@.len() + 1,
            forall|i: int| 0 <= i < at && i <= text@.len() - part@.len() ==> #[trigger] text@.subrange(i, i + part@.len())
                != part@,
        decreases all@.len() + 1 - at,
    {
        let mut length: usize = 0;
        while length < wanted.len() && all[at + length] == wanted[length]
            invariant
                all@ == text@,
                wanted@ == part@,
                length <= wanted@.len(),
                at + wanted@.len() <= all@.len(),
                all@.len() <= usize::MAX,
                forall|i: int| 0 <= i < length ==> all@[at + i] == wanted@[i],
            decreases wanted@.len() - length,
        {
            length = length + 1;
        }
        if length == wanted.len() {
            assert(text@.subrange(at as int, at + part@.len()) =~= part@);
            return true;
        }
        assert(text@.subrange(at as int, at + part@.len())[length as int] != part@[length as int]);
        if at == all.len() {
            return false;
        }
        at = at + 1;
    }
    false
}

/// Decodes bytes with `String::from_utf8`, which succeeds exactly for
/// well-formed UTF-8 and then gives the text it stands for.
#[verifier::external_body]
pub(crate) fn from_utf8(bytes: Vec<u8>) -> (text: Option<String>)
    ensures
        match text {
            Some(text) => valid_utf8(bytes@) && text@ == decode_utf8(bytes@),
            None => !valid_utf8(bytes@),
        },
{
    String::from_utf8(bytes).ok()
}

} // verus!
