//! Protobuf wire encoder.
//!
//! A nested message is measured with a counting pass immediately before its
//! bytes are written, so no message is ever encoded into a buffer of its own.

use vstd::prelude::*;
use vstd::utf8::encode_utf8;

verus! {

const VARINT: u64 = 0;

const LENGTH_DELIMITED: u64 = 2;

const VARINT_CONTINUATION_BIT: u64 = 0x80;

const VARINT_PAYLOAD_MASK: u64 = 0x7f;

const MAX_VARINT_BYTES: usize = 10;

/// One field of a protobuf message, as a reader of the message sees it.
#[verifier::ext_equal]
pub enum Field {
    Varint { number: u32, value: u64 },
    Bytes { number: u32, content: Seq<u8> },
}

/// The base-128 encoding of `value`: seven bits a byte, least significant
/// first, the top bit of a byte set when another one follows.
pub open spec fn varint_bytes(value: nat) -> Seq<u8>
    decreases value,
{
    if value < 128 {
        seq![value as u8]
    } else {
        seq![(128 + value % 128) as u8] + varint_bytes(value / 128)
    }
}

/// The bytes of a field's key.
pub open spec fn key_bytes(number: u32, wire_type: nat) -> Seq<u8> {
    varint_bytes(number as nat * 8 + wire_type)
}

/// The bytes of one field.
pub open spec fn field_bytes(field: Field) -> Seq<u8> {
    match field {
        Field::Varint { number, value } => key_bytes(number, 0) + varint_bytes(value as nat),
        Field::Bytes { number, content } => key_bytes(number, 2) + varint_bytes(content.len()) + content,
    }
}

/// The bytes of a message: those of its fields, in order.
pub open spec fn message_bytes(fields: Seq<Field>) -> Seq<u8>
    decreases fields.len(),
{
    if fields.len() == 0 {
        Seq::empty()
    } else {
        message_bytes(fields.drop_last()) + field_bytes(fields.last())
    }
}

/// Whether the bytes of a message can be held in memory at all.
pub open spec fn fits(fields: Seq<Field>) -> bool {
    message_bytes(fields).len() <= usize::MAX
}

/// A varint at the start of `bytes`: its value and how many bytes it takes.
pub open spec fn read_varint(bytes: Seq<u8>) -> Option<(nat, nat)>
    decreases bytes.len(),
{
    if bytes.len() == 0 {
        None
    } else if bytes[0] < 128 {
        Some((bytes[0] as nat, 1))
    } else {
        match read_varint(bytes.drop_first()) {
            Some((rest, length)) => Some(((bytes[0] - 128) as nat + 128 * rest, length + 1)),
            None => None,
        }
    }
}

/// A field at the start of `bytes`, and how many bytes it takes.
pub open spec fn read_field(bytes: Seq<u8>) -> Option<(Field, nat)> {
    match read_varint(bytes) {
        None => None,
        Some((key, key_length)) => {
            let rest = bytes.skip(key_length as int);
            match read_varint(rest) {
                None => None,
                Some((value, length)) => if key % 8 == 0 {
                    Some(
                        (
                            Field::Varint { number: (key / 8) as u32, value: value as u64 },
                            key_length + length,
                        ),
                    )
                } else if key % 8 == 2 && length + value <= rest.len() {
                    Some(
                        (
                            Field::Bytes {
                                number: (key / 8) as u32,
                                content: rest.subrange(length as int, (length + value) as int),
                            },
                            key_length + length + value,
                        ),
                    )
                } else {
                    None
                },
            }
        },
    }
}

/// The fields that a reader finds in the bytes of a message.
pub open spec fn read_message(bytes: Seq<u8>) -> Option<Seq<Field>>
    decreases bytes.len(),
{
    if bytes.len() == 0 {
        Some(Seq::empty())
    } else {
        match read_field(bytes) {
            Some((field, length)) => if 0 < length <= bytes.len() {
                match read_message(bytes.skip(length as int)) {
                    Some(fields) => Some(seq![field] + fields),
                    None => None,
                }
            } else {
                None
            },
            None => None,
        }
    }
}

/// Appending one field appends its bytes.
pub proof fn lemma_message_push(fields: Seq<Field>, field: Field)
    ensures
        message_bytes(fields.push(field)) == message_bytes(fields) + field_bytes(field),
{
    assert(fields.push(field).drop_last() =~= fields);
}

/// The bytes of two runs of fields are those of the first, then the second.
pub proof fn lemma_message_concat(first: Seq<Field>, second: Seq<Field>)
    ensures
        message_bytes(first + second) == message_bytes(first) + message_bytes(second),
    decreases second.len(),
{
    if second.len() == 0 {
        assert(first + second =~= first);
    } else {
        lemma_message_concat(first, second.drop_last());
        assert((first + second).drop_last() =~= first + second.drop_last());
    }
}

/// What a field holds is no longer than the message it stands in.
pub proof fn lemma_nested_fits(fields: Seq<Field>, index: int)
    requires
        0 <= index < fields.len(),
        fields[index] is Bytes,
    ensures
        fields[index]->content.len() <= message_bytes(fields).len(),
{
    let first = fields.take(index + 1);
    let rest = fields.skip(index + 1);
    assert(first + rest =~= fields);
    lemma_message_concat(first, rest);
    assert(first.last() == fields[index]);
}

proof fn lemma_varint_length(value: nat)
    requires
        value <= u64::MAX,
    ensures
        varint_bytes(value).len() <= 10,
{
    reveal_with_fuel(varint_bytes, 11);
}

/// A message of at most `count` fields takes at most twenty bytes and the
/// longest content for each.
pub proof fn lemma_message_length(fields: Seq<Field>, count: nat, limit: nat)
    requires
        fields.len() <= count,
        limit <= u64::MAX,
        forall|i: int|
            0 <= i < fields.len() && #[trigger] fields[i] is Bytes ==> fields[i]->content.len()
                <= limit,
    ensures
        message_bytes(fields).len() <= count * (20 + limit),
    decreases fields.len(),
{
    if fields.len() > 0 {
        let last = fields.last();
        let rest = fields.drop_last();
        assert forall|i: int| 0 <= i < rest.len() && #[trigger] rest[i] is Bytes implies rest[i]
            ->content.len() <= limit by {
            assert(rest[i] == fields[i]);
        }
        lemma_message_length(rest, (count - 1) as nat, limit);
        match last {
            Field::Varint { number, value } => {
                lemma_varint_length(number as nat * 8);
                lemma_varint_length(value as nat);
            },
            Field::Bytes { number, content } => {
                assert(fields[fields.len() - 1] is Bytes);
                lemma_varint_length(number as nat * 8 + 2);
                lemma_varint_length(content.len());
            },
        }
        assert(count * (20 + limit) == (count - 1) * (20 + limit) + (20 + limit))
            by (nonlinear_arith);
    } else {
        assert(0 <= count * (20 + limit)) by (nonlinear_arith);
    }
}

proof fn lemma_varint_nonempty(value: nat)
    ensures
        varint_bytes(value).len() > 0,
{
}

/// A varint is read back as it was written, whatever follows it.
pub proof fn lemma_varint_round_trip(value: nat, rest: Seq<u8>)
    ensures
        read_varint(varint_bytes(value) + rest) == Some((value, varint_bytes(value).len())),
    decreases value,
{
    let bytes = varint_bytes(value) + rest;
    if value >= 128 {
        lemma_varint_round_trip(value / 128, rest);
        assert(bytes.drop_first() =~= varint_bytes(value / 128) + rest);
        assert(bytes[0] == 128 + value % 128);
    }
}

proof fn lemma_parts(key: Seq<u8>, value: Seq<u8>, content: Seq<u8>, rest: Seq<u8>)
    ensures
        key + value + content + rest == key + (value + (content + rest)),
        (key + (value + (content + rest))).skip(key.len() as int) == value + (content + rest),
        (value + (content + rest)).subrange(
            value.len() as int,
            (value.len() + content.len()) as int,
        ) == content,
{
    assert(key + value + content + rest =~= key + (value + (content + rest)));
    assert((key + (value + (content + rest))).skip(key.len() as int) =~= value + (content + rest));
    assert((value + (content + rest)).subrange(
        value.len() as int,
        (value.len() + content.len()) as int,
    ) =~= content);
}

/// A field is read back as it was written, whatever follows it.
#[verifier::spinoff_prover]
pub proof fn lemma_field_round_trip(field: Field, rest: Seq<u8>)
    requires
        field is Bytes ==> field->content.len() <= u64::MAX,
    ensures
        read_field(field_bytes(field) + rest) == Some((field, field_bytes(field).len())),
{
    match field {
        Field::Varint { number, value } => {
            let key = number as nat * 8;
            let none = Seq::<u8>::empty();
            lemma_parts(varint_bytes(key), varint_bytes(value as nat), none, rest);
            assert(none + rest =~= rest);
            assert(field_bytes(field) + none =~= field_bytes(field));
            lemma_varint_round_trip(key, varint_bytes(value as nat) + rest);
            lemma_varint_round_trip(value as nat, rest);
        },
        Field::Bytes { number, content } => {
            let key = number as nat * 8 + 2;
            lemma_parts(varint_bytes(key), varint_bytes(content.len()), content, rest);
            lemma_varint_round_trip(key, varint_bytes(content.len()) + (content + rest));
            lemma_varint_round_trip(content.len(), content + rest);
        },
    }
}

proof fn lemma_message_first(field: Field, rest: Seq<Field>)
    ensures
        message_bytes(seq![field] + rest) == field_bytes(field) + message_bytes(rest),
{
    lemma_message_concat(seq![field], rest);
    assert(seq![field].drop_last() =~= Seq::<Field>::empty());
    assert(message_bytes(seq![field]) =~= field_bytes(field)) by {
        assert(message_bytes(seq![field]) == message_bytes(seq![field].drop_last()) + field_bytes(
            field,
        ));
    }
}

/// Every message is read back as it was written: the encoding of its fields
/// determines them.
pub proof fn lemma_message_round_trip(fields: Seq<Field>)
    requires
        forall|i: int|
            0 <= i < fields.len() && #[trigger] fields[i] is Bytes
                ==> fields[i]->content.len() <= u64::MAX,
    ensures
        read_message(message_bytes(fields)) == Some(fields),
    decreases fields.len(),
{
    if fields.len() > 0 {
        let field = fields[0];
        let rest = fields.drop_first();
        assert(fields =~= seq![field] + rest);
        assert forall|i: int| 0 <= i < rest.len() && #[trigger] rest[i] is Bytes implies rest[i]
            ->content.len() <= u64::MAX by {
            assert(rest[i] == fields[i + 1]);
        }
        lemma_message_first(field, rest);
        lemma_field_round_trip(field, message_bytes(rest));
        let bytes = message_bytes(fields);
        let length = field_bytes(field).len();
        assert(bytes.skip(length as int) =~= message_bytes(rest));
        match field {
            Field::Varint { number, value } => lemma_varint_nonempty(number as nat * 8),
            Field::Bytes { number, content } => lemma_varint_nonempty(number as nat * 8 + 2),
        }
        lemma_message_round_trip(rest);
    }
}

/// A message that can be encoded field by field.
pub trait Message {
    /// The fields of the message, in the order they are written.
    spec fn fields(&self) -> Seq<Field>;

    /// Adds the fields of the message to what `encoder` holds.
    fn encode(&self, encoder: &mut Encoder)
        requires
            old(encoder).wf(),
            old(encoder).counting() || fits(self.fields()),
        ensures
            final(encoder).wf(),
            final(encoder).counting() == old(encoder).counting(),
            final(encoder).start() == old(encoder).start(),
            final(encoder)@ == old(encoder)@ + self.fields(),
    ;
}

enum Output {
    /// The length so far, or `None` once it is past what memory can hold.
    Counter(Option<usize>),
    Writer(Vec<u8>),
}

/// Encodes fields, or only measures what encoding them would take.
pub struct Encoder {
    output: Output,
    /// What the output held before the message that is being encoded.
    start: Ghost<Seq<u8>>,
    fields: Ghost<Seq<Field>>,
}

impl View for Encoder {
    type V = Seq<Field>;

    /// The fields added so far.
    closed spec fn view(&self) -> Seq<Field> {
        self.fields@
    }
}

impl Encoder {
    /// Whether this encoder only measures.
    pub closed spec fn counting(&self) -> bool {
        self.output is Counter
    }

    /// The output before the message whose fields are being added.
    pub closed spec fn start(&self) -> Seq<u8> {
        self.start@
    }

    /// The output stands for `bytes`: it holds them, or their length.
    spec fn holds(&self, bytes: Seq<u8>) -> bool {
        match self.output {
            Output::Counter(length) => length == (if bytes.len() <= usize::MAX {
                Some(bytes.len() as usize)
            } else {
                None
            }),
            Output::Writer(written) => written@ == bytes,
        }
    }

    /// The output stands for the encoding of the fields added so far.
    pub closed spec fn wf(&self) -> bool {
        self.holds(self.start@ + message_bytes(self.fields@))
    }

    pub fn writer() -> (encoder: Self)
        ensures
            encoder.wf(),
            !encoder.counting(),
            encoder.start() == Seq::<u8>::empty(),
            encoder@ == Seq::<Field>::empty(),
    {
        Encoder { output: Output::Writer(Vec::new()), start: Ghost(Seq::empty()), fields: Ghost(Seq::empty()) }
    }

    fn counter() -> (encoder: Self)
        ensures
            encoder.wf(),
            encoder.counting(),
            encoder.start() == Seq::<u8>::empty(),
            encoder@ == Seq::<Field>::empty(),
    {
        Encoder { output: Output::Counter(Some(0)), start: Ghost(Seq::empty()), fields: Ghost(Seq::empty()) }
    }

    /// Hands out the bytes written so far and starts over with none.
    pub fn take(&mut self) -> (bytes: Vec<u8>)
        requires
            old(self).wf(),
            !old(self).counting(),
            old(self).start() == Seq::<u8>::empty(),
        ensures
            bytes@ == message_bytes(old(self)@),
            final(self).wf(),
            !final(self).counting(),
            final(self).start() == Seq::<u8>::empty(),
            final(self)@ == Seq::<Field>::empty(),
    {
        let mut taken = Encoder::writer();
        std::mem::swap(self, &mut taken);
        match taken.output {
            Output::Writer(bytes) => bytes,
            Output::Counter(_) => Vec::new(),
        }
    }

    /// Adds an unsigned number.
    pub fn uint(&mut self, field: u32, value: u64)
        requires
            old(self).wf(),
        ensures
            final(self).wf(),
            final(self).counting() == old(self).counting(),
            final(self).start() == old(self).start(),
            final(self)@ == old(self)@.push(Field::Varint { number: field, value }),
    {
        let ghost before = self.start@ + message_bytes(self.fields@);
        self.key(field, VARINT, Ghost(before));
        self.varint(value, Ghost(before + key_bytes(field, 0)));
        proof {
            let added = Field::Varint { number: field, value };
            lemma_message_push(self.fields@, added);
            assert(self.start@ + message_bytes(self.fields@.push(added)) =~= before + key_bytes(field, 0) + varint_bytes(
                value as nat,
            ));
            self.fields@ = self.fields@.push(added);
        }
    }

    /// Adds a signed number, which takes the bits of its two's complement.
    pub fn signed(&mut self, field: u32, value: i64)
        requires
            old(self).wf(),
        ensures
            final(self).wf(),
            final(self).counting() == old(self).counting(),
            final(self).start() == old(self).start(),
            final(self)@ == old(self)@.push(
                Field::Varint { number: field, value: signed_bits(value) },
            ),
    {
        let bits: u64 = value as u64;
        assert(value >= 0 ==> value as u64 == value) by (bit_vector);
        assert(value < 0 ==> value as u64 == value + 0x1_0000_0000_0000_0000) by (bit_vector);
        self.uint(field, bits)
    }

    /// Adds a truth value.
    pub fn boolean(&mut self, field: u32, value: bool)
        requires
            old(self).wf(),
        ensures
            final(self).wf(),
            final(self).counting() == old(self).counting(),
            final(self).start() == old(self).start(),
            final(self)@ == old(self)@.push(
                Field::Varint {
                    number: field,
                    value: if value {
                        1
                    } else {
                        0
                    },
                },
            ),
    {
        self.uint(
            field,
            if value {
                1
            } else {
                0
            },
        )
    }

    /// Adds a text, in UTF-8.
    pub fn string(&mut self, field: u32, value: &str)
        requires
            old(self).wf(),
        ensures
            final(self).wf(),
            final(self).counting() == old(self).counting(),
            final(self).start() == old(self).start(),
            final(self)@ == old(self)@.push(
                Field::Bytes { number: field, content: encode_utf8(value@) },
            ),
    {
        self.bytes(field, value.as_bytes())
    }

    /// Adds a run of bytes.
    pub fn bytes(&mut self, field: u32, value: &[u8])
        requires
            old(self).wf(),
        ensures
            final(self).wf(),
            final(self).counting() == old(self).counting(),
            final(self).start() == old(self).start(),
            final(self)@ == old(self)@.push(Field::Bytes { number: field, content: value@ }),
    {
        let ghost before = self.start@ + message_bytes(self.fields@);
        let length: u64 = value.len() as u64;
        self.key(field, LENGTH_DELIMITED, Ghost(before));
        self.varint(length, Ghost(before + key_bytes(field, 2)));
        self.write(value, Ghost(before + key_bytes(field, 2) + varint_bytes(length as nat)));
        proof {
            let added = Field::Bytes { number: field, content: value@ };
            lemma_message_push(self.fields@, added);
            assert(self.start@ + message_bytes(self.fields@.push(added)) =~= before + key_bytes(field, 2) + varint_bytes(
                length as nat,
            ) + value@);
            self.fields@ = self.fields@.push(added);
        }
    }

    /// Adds a nested message.
    pub fn message<M: Message>(&mut self, field: u32, message: &M)
        requires
            old(self).wf(),
            old(self).counting() || fits(message.fields()),
        ensures
            final(self).wf(),
            final(self).counting() == old(self).counting(),
            final(self).start() == old(self).start(),
            final(self)@ == old(self)@.push(
                Field::Bytes { number: field, content: message_bytes(message.fields()) },
            ),
    {
        let measured = measure(message);
        match measured {
            Some(length) => self.delimited(field, message, length),
            None => {
                let ghost before = self.fields@;
                self.output = Output::Counter(None);
                proof {
                    let added = Field::Bytes {
                        number: field,
                        content: message_bytes(message.fields()),
                    };
                    lemma_message_push(before, added);
                    self.fields@ = before.push(added);
                }
            },
        }
    }

    /// Adds a nested message whose length is already known.
    pub fn delimited<M: Message>(&mut self, field: u32, message: &M, length: usize)
        requires
            old(self).wf(),
            length == message_bytes(message.fields()).len(),
        ensures
            final(self).wf(),
            final(self).counting() == old(self).counting(),
            final(self).start() == old(self).start(),
            final(self)@ == old(self)@.push(
                Field::Bytes { number: field, content: message_bytes(message.fields()) },
            ),
    {
        let ghost before = self.start@ + message_bytes(self.fields@);
        let ghost added = Field::Bytes { number: field, content: message_bytes(message.fields()) };
        let ghost head = key_bytes(field, 2) + varint_bytes(length as nat);
        self.key(field, LENGTH_DELIMITED, Ghost(before));
        self.varint(length as u64, Ghost(before + key_bytes(field, 2)));
        let ghost outer_start = self.start@;
        let ghost outer_fields = self.fields@;
        let ghost body = message_bytes(message.fields());
        proof {
            assert(before + key_bytes(field, 2) + varint_bytes(length as nat) =~= before + head);
            lemma_message_push(outer_fields, added);
            assert(outer_start + message_bytes(outer_fields.push(added)) =~= before + head + body);
        }
        if let Output::Counter(total) = self.output {
            self.output = Output::Counter(
                match total {
                    Some(total) => total.checked_add(length),
                    None => None,
                },
            );
        } else {
            proof {
                self.start@ = before + head;
                self.fields@ = Seq::empty();
                assert(self.start@ + message_bytes(self.fields@) =~= before + head);
            }
            message.encode(self);
            assert(Seq::<Field>::empty() + message.fields() =~= message.fields());
        }
        proof {
            self.start@ = outer_start;
            self.fields@ = outer_fields.push(added);
        }
    }

    fn key(&mut self, field: u32, wire_type: u64, Ghost(before): Ghost<Seq<u8>>)
        requires
            old(self).holds(before),
            wire_type < 8,
        ensures
            final(self).holds(before + key_bytes(field, wire_type as nat)),
            final(self).counting() == old(self).counting(),
            final(self).start == old(self).start,
            final(self).fields == old(self).fields,
    {
        let number: u64 = field as u64;
        assert((number << 3) | wire_type == number * 8 + wire_type) by (bit_vector)
            requires
                number <= 0xffff_ffff,
                wire_type < 8,
        ;
        self.varint((number << 3) | wire_type, Ghost(before))
    }

    fn varint(&mut self, value: u64, Ghost(before): Ghost<Seq<u8>>)
        requires
            old(self).holds(before),
        ensures
            final(self).holds(before + varint_bytes(value as nat)),
            final(self).counting() == old(self).counting(),
            final(self).start == old(self).start,
            final(self).fields == old(self).fields,
    {
        let mut bytes: [u8; MAX_VARINT_BYTES] = [0;MAX_VARINT_BYTES];
        let mut length: usize = 0;
        let mut rest: u64 = value;
        assert(u64::MAX >> 0u64 == u64::MAX) by (bit_vector);
        while rest >= VARINT_CONTINUATION_BIT
            invariant
                length < MAX_VARINT_BYTES,
                varint_bytes(value as nat) =~= bytes@.take(length as int) + varint_bytes(
                    rest as nat,
                ),
                rest <= u64::MAX >> ((7 * length) as u64),
            decreases rest,
        {
            proof {
                let shift: u64 = (7 * length) as u64;
                assert(length < MAX_VARINT_BYTES - 1) by {
                    if length == 9 {
                        assert(u64::MAX >> 63u64 == 1u64) by (bit_vector);
                    }
                }
                assert(rest >> 7 <= u64::MAX >> ((shift + 7) as u64)) by (bit_vector)
                    requires
                        rest <= u64::MAX >> shift,
                        shift <= 56,
                ;
                assert(rest >> 7 == rest / 128) by (bit_vector);
                assert((rest & 0x7f) | 0x80 == 128 + rest % 128) by (bit_vector);
            }
            let ghost done = bytes@.take(length as int);
            let byte: u8 = ((rest & VARINT_PAYLOAD_MASK) | VARINT_CONTINUATION_BIT) as u8;
            bytes[length] = byte;
            proof {
                assert(varint_bytes(rest as nat) == seq![byte] + varint_bytes(rest as nat / 128));
                assert(bytes@.take(length + 1) =~= done + seq![byte]);
            }
            rest = rest >> 7;
            length = length + 1;
        }
        let ghost done = bytes@.take(length as int);
        bytes[length] = rest as u8;
        proof {
            assert(varint_bytes(rest as nat) == seq![rest as u8]);
            assert(bytes@.take(length + 1) =~= done + seq![rest as u8]);
            assert(bytes@.subrange(0, length + 1) =~= bytes@.take(length + 1));
        }
        self.write(vstd::slice::slice_subrange(bytes.as_slice(), 0, length + 1), Ghost(before))
    }

    fn write(&mut self, bytes: &[u8], Ghost(before): Ghost<Seq<u8>>)
        requires
            old(self).holds(before),
        ensures
            final(self).holds(before + bytes@),
            final(self).counting() == old(self).counting(),
            final(self).start == old(self).start,
            final(self).fields == old(self).fields,
    {
        match &mut self.output {
            Output::Counter(length) => {
                *length = match *length {
                    Some(length) => length.checked_add(bytes.len()),
                    None => None,
                };
            },
            Output::Writer(output) => {
                let ghost written = output@;
                output.extend_from_slice(bytes);
                assert(output@ =~= written + bytes@);
            },
        }
    }
}

/// The bits of a signed number's two's complement.
pub open spec fn signed_bits(value: i64) -> u64 {
    if value >= 0 {
        value as u64
    } else {
        (value + 0x1_0000_0000_0000_0000) as u64
    }
}

/// The length of a message's encoding, if memory can hold that much.
pub fn measure<M: Message>(message: &M) -> (length: Option<usize>)
    ensures
        length == (if fits(message.fields()) {
            Some(message_bytes(message.fields()).len() as usize)
        } else {
            None
        }),
{
    let mut counter = Encoder::counter();
    message.encode(&mut counter);
    assert(Seq::<Field>::empty() + message.fields() =~= message.fields());
    match counter.output {
        Output::Counter(length) => length,
        Output::Writer(_) => None,
    }
}

} // verus!
