//! Schema-less inspection of protobuf wire-format bytes and gRPC framing.
use vstd::prelude::*;
use vstd::slice::{slice_subrange, slice_to_vec};
use vstd::arithmetic::power2::pow2;
use crate::wire::{varint_decoding, varint_bytes, le_bytes, little_endian, read_u32_le, read_u64_le};

pub use crate::wire::decode_varint;
pub use crate::framing::{GrpcFrame, parse_grpc_frames};
pub use crate::hexdump::hex_dump;
pub use crate::render::format_grpc_message;

verus! {

/// Wire types as defined by the protobuf encoding.
#[derive(Debug, Clone, Copy, PartialEq, Eq, Structural)]
pub enum WireType {
    /// Varint (int32, int64, uint32, uint64, sint32, sint64, bool, enum)
    Varint,
    /// 64-bit (fixed64, sfixed64, double)
    Bit64,
    /// Length-delimited (string, bytes, embedded messages, packed repeated fields)
    LengthDelimited,
    /// Start group (deprecated)
    StartGroup,
    /// End group (deprecated)
    EndGroup,
    /// 32-bit (fixed32, sfixed32, float)
    Bit32,
    /// Unknown wire type
    Unknown(u32),
}

/// The wire type that the low three bits of a tag (or any number) name.
pub open spec fn wire_type_of(value: u32) -> WireType {
    if value == 0 {
        WireType::Varint
    } else if value == 1 {
        WireType::Bit64
    } else if value == 2 {
        WireType::LengthDelimited
    } else if value == 3 {
        WireType::StartGroup
    } else if value == 4 {
        WireType::EndGroup
    } else if value == 5 {
        WireType::Bit32
    } else {
        WireType::Unknown(value)
    }
}

impl From<u32> for WireType {
    fn from(value: u32) -> (r: Self) {
        match value {
            0 => WireType::Varint,
            1 => WireType::Bit64,
            2 => WireType::LengthDelimited,
            3 => WireType::StartGroup,
            4 => WireType::EndGroup,
            5 => WireType::Bit32,
            v => WireType::Unknown(v),
        }
    }
}

impl vstd::std_specs::convert::FromSpecImpl<u32> for WireType {
    open spec fn obeys_from_spec() -> bool {
        true
    }

    open spec fn from_spec(v: u32) -> Self {
        wire_type_of(v)
    }
}

/// A single decoded protobuf field.
#[derive(Debug, PartialEq)]
pub struct ProtoField {
    /// The field number from the protobuf tag.
    pub field_number: u32,
    /// The wire type of this field.
    pub wire_type: WireType,
    /// The decoded value.
    pub value: ProtoValue,
}

/// A decoded protobuf value.
#[derive(Debug, PartialEq)]
pub enum ProtoValue {
    /// A varint-encoded integer.
    Varint(u64),
    /// A 32-bit fixed value.
    Fixed32(u32),
    /// A 64-bit fixed value.
    Fixed64(u64),
    /// Length-delimited bytes: a string, raw bytes, or a message that did not decode.
    Bytes(Vec<u8>),
    /// Nested message fields (when the bytes decode as protobuf).
    Nested(Vec<ProtoField>),
}

impl ProtoValue {
    /// A copy of the value, field by field.
    fn deep_copy(&self) -> (r: Self)
        ensures
            r.model() == self.model(),
        decreases self,
    {
        match self {
            ProtoValue::Varint(v) => ProtoValue::Varint(*v),
            ProtoValue::Fixed32(v) => ProtoValue::Fixed32(*v),
            ProtoValue::Fixed64(v) => ProtoValue::Fixed64(*v),
            ProtoValue::Bytes(b) => ProtoValue::Bytes(slice_to_vec(b.as_slice())),
            ProtoValue::Nested(fields) => {
                let mut copy: Vec<ProtoField> = Vec::new();
                let mut i: usize = 0;
                proof {
                    lemma_fields_model_index(fields@);
                }
                while i < fields.len()
                    invariant
                        *self == ProtoValue::Nested(*fields),
                        i <= fields@.len(),
                        copy@.len() == i,
                        fields_model(fields@).len() == fields@.len(),
                        forall|j: int| 0 <= j < fields@.len() ==> #[trigger] fields_model(fields@)[j] == fields@[j].model(),
                        forall|j: int| 0 <= j < i ==> #[trigger] copy@[j].model() == fields@[j].model(),
                    decreases fields@.len() - i,
                {
                    proof {
                        assert(decreases_to!(*self => self->Nested_0));
                        assert(decreases_to!(self->Nested_0 => self->Nested_0@));
                    }
                    let f = fields[i].deep_copy();
                    copy.push(f);
                    i = i + 1;
                }
                proof {
                    lemma_fields_model_index(copy@);
                    assert(fields_model(copy@) =~= fields_model(fields@));
                }
                ProtoValue::Nested(copy)
            },
        }
    }
}

impl ProtoField {
    /// A copy of the field.
    fn deep_copy(&self) -> (r: Self)
        ensures
            r.model() == self.model(),
        decreases self,
    {
        ProtoField {
            field_number: self.field_number,
            wire_type: self.wire_type,
            value: self.value.deep_copy(),
        }
    }
}

impl Clone for ProtoValue {
    fn clone(&self) -> (r: Self)
        ensures
            r.model() == self.model(),
    {
        self.deep_copy()
    }
}

impl Clone for ProtoField {
    fn clone(&self) -> (r: Self)
        ensures
            r.model() == self.model(),
    {
        self.deep_copy()
    }
}

/// Mathematical model of a decoded field.
pub struct FieldModel {
    pub field_number: u32,
    pub wire_type: WireType,
    pub value: FieldValue,
}

/// Mathematical model of a decoded value.
pub enum FieldValue {
    Varint(u64),
    Fixed32(u32),
    Fixed64(u64),
    Bytes(Seq<u8>),
    Nested(Seq<FieldModel>),
}

impl ProtoValue {
    pub open spec fn model(self) -> FieldValue
        decreases self,
    {
        match self {
            ProtoValue::Varint(v) => FieldValue::Varint(v),
            ProtoValue::Fixed32(v) => FieldValue::Fixed32(v),
            ProtoValue::Fixed64(v) => FieldValue::Fixed64(v),
            ProtoValue::Bytes(b) => FieldValue::Bytes(b@),
            ProtoValue::Nested(fs) => FieldValue::Nested(fields_model(fs@)),
        }
    }
}

impl ProtoField {
    pub open spec fn model(self) -> FieldModel
        decreases self,
    {
        FieldModel {
            field_number: self.field_number,
            wire_type: self.wire_type,
            value: self.value.model(),
        }
    }
}

/// The models of a sequence of decoded fields, in order.
pub open spec fn fields_model(fs: Seq<ProtoField>) -> Seq<FieldModel>
    decreases fs,
{
    if fs.len() == 0 {
        Seq::empty()
    } else {
        seq![fs[0].model()] + fields_model(fs.drop_first())
    }
}


/// A field's value as it stands on the wire, before any attempt to read
/// length-delimited bytes as a nested message.
pub enum RawValue {
    Varint(u64),
    Fixed64(u64),
    Fixed32(u32),
    Delimited(Seq<u8>),
}

/// The field number that a tag carries: the tag shifted right by three,
/// reduced to 32 bits.
pub open spec fn tag_field_number(tag: u64) -> u32 {
    ((tag / 8) % 0x1_0000_0000) as u32
}

/// The wire-type code that a tag carries: its low three bits.
pub open spec fn tag_wire_code(tag: u64) -> u32 {
    (tag % 8) as u32
}

/// The field at the front of `s`: number, wire type, raw value and the number of
/// bytes it occupies. `None` when the tag or the value is malformed or cut off,
/// when the field number is zero, and for group and unknown wire types.
pub open spec fn raw_field(s: Seq<u8>) -> Option<(u32, WireType, RawValue, nat)> {
    match varint_decoding(s) {
        None => None,
        Some((tag, t)) => {
            let number = tag_field_number(tag);
            let wire = wire_type_of(tag_wire_code(tag));
            let rest = s.skip(t as int);
            if number == 0 {
                None
            } else {
                match wire {
                    WireType::Varint => match varint_decoding(rest) {
                        Some((v, n)) => Some((number, wire, RawValue::Varint(v), t + n)),
                        None => None,
                    },
                    WireType::Bit64 => if rest.len() >= 8 {
                        Some((number, wire, RawValue::Fixed64(little_endian(rest.take(8)) as u64), t + 8))
                    } else {
                        None
                    },
                    WireType::Bit32 => if rest.len() >= 4 {
                        Some((number, wire, RawValue::Fixed32(little_endian(rest.take(4)) as u32), t + 4))
                    } else {
                        None
                    },
                    WireType::LengthDelimited => match varint_decoding(rest) {
                        Some((len, n)) => {
                            let size = (len as usize) as nat;
                            if n + size <= rest.len() {
                                Some((number, wire, RawValue::Delimited(rest.subrange(n as int, (n + size) as int)), t + n + size))
                            } else {
                                None
                            }
                        },
                        None => None,
                    },
                    _ => None,
                }
            }
        },
    }
}

/// The value of a field given its raw value and, for length-delimited bytes, the
/// result of decoding them as a message: a non-empty decoding makes a nested
/// message, anything else leaves the bytes as they are.
pub open spec fn field_value(raw: RawValue, nested: Option<Seq<FieldModel>>) -> FieldValue {
    match raw {
        RawValue::Varint(v) => FieldValue::Varint(v),
        RawValue::Fixed64(v) => FieldValue::Fixed64(v),
        RawValue::Fixed32(v) => FieldValue::Fixed32(v),
        RawValue::Delimited(body) => match nested {
            Some(inner) => if inner.len() > 0 {
                FieldValue::Nested(inner)
            } else {
                FieldValue::Bytes(body)
            },
            None => FieldValue::Bytes(body),
        },
    }
}

/// The fields of the protobuf message `s`, read front to back; `None` when any
/// field is malformed. Length-delimited values are themselves decoded as messages.
pub open spec fn decode_message(s: Seq<u8>) -> Option<Seq<FieldModel>>
    decreases s.len(),
{
    if s.len() == 0 {
        Some(Seq::empty())
    } else {
        match raw_field(s) {
            None => None,
            Some((number, wire, raw, n)) => {
                proof {
                    lemma_raw_field_bounds(s);
                }
                let nested = match raw {
                    RawValue::Delimited(body) => decode_message(body),
                    _ => None,
                };
                let field = FieldModel { field_number: number, wire_type: wire, value: field_value(raw, nested) };
                match decode_message(s.skip(n as int)) {
                    Some(rest) => Some(seq![field] + rest),
                    None => None,
                }
            },
        }
    }
}

/// A field takes at least one byte and no more than there are; a length-delimited
/// body is strictly shorter than the input.
pub proof fn lemma_raw_field_bounds(s: Seq<u8>)
    ensures
        raw_field(s) matches Some((_, _, raw, n)) ==> {
            &&& 0 < n <= s.len()
            &&& raw matches RawValue::Delimited(body) ==> body.len() < s.len()
        },
{
    crate::wire::lemma_varint_span_bounds(s, 10);
    if let Some((tag, t)) = varint_decoding(s) {
        let rest = s.skip(t as int);
        crate::wire::lemma_varint_span_bounds(rest, 10);
    }
}


/// A field that reads from `a` reads the same from `a` followed by more bytes.
pub proof fn lemma_raw_field_prefix(a: Seq<u8>, b: Seq<u8>)
    ensures
        raw_field(a) is Some ==> raw_field(a + b) == raw_field(a),
{
    crate::wire::lemma_varint_decoding_prefix(a, b);
    if let Some((tag, t)) = varint_decoding(a) {
        crate::wire::lemma_varint_span_bounds(a, 10);
        let rest = a.skip(t as int);
        assert((a + b).skip(t as int) =~= rest + b);
        crate::wire::lemma_varint_decoding_prefix(rest, b);
        crate::wire::lemma_varint_span_bounds(rest, 10);
        if rest.len() >= 8 {
            assert((rest + b).take(8) =~= rest.take(8));
        }
        if rest.len() >= 4 {
            assert((rest + b).take(4) =~= rest.take(4));
        }
        if let Some((len, n)) = varint_decoding(rest) {
            let size = (len as usize) as nat;
            if n + size <= rest.len() {
                assert((rest + b).subrange(n as int, (n + size) as int) =~= rest.subrange(
                    n as int,
                    (n + size) as int,
                ));
            }
        }
    }
}

/// Decoding distributes over concatenation: when `a` decodes to the fields `fa`,
/// the bytes `a` followed by `b` decode to `fa` followed by the fields of `b`,
/// and fail exactly when `b` fails.
pub proof fn lemma_decode_concat(a: Seq<u8>, b: Seq<u8>)
    requires
        decode_message(a) is Some,
    ensures
        decode_message(a + b) == prepend_fields(decode_message(a).unwrap(), decode_message(b)),
    decreases a.len(),
{
    if a.len() == 0 {
        assert(a + b =~= b);
        match decode_message(b) {
            Some(fb) => {
                assert(Seq::<FieldModel>::empty() + fb =~= fb);
            },
            None => {},
        }
    } else {
        lemma_raw_field_prefix(a, b);
        lemma_raw_field_bounds(a);
        let (number, wire, raw, n) = raw_field(a).unwrap();
        assert((a + b).len() > 0);
        assert((a + b).skip(n as int) =~= a.skip(n as int) + b);
        lemma_decode_concat(a.skip(n as int), b);
        let fa = decode_message(a).unwrap();
        let rest_a = decode_message(a.skip(n as int)).unwrap();
        match decode_message(b) {
            Some(fb) => {
                assert(fa =~= fa.take(1) + rest_a);
                assert(fa + fb =~= fa.take(1) + (rest_a + fb));
            },
            None => {},
        }
    }
}

/// A field's tag carries its number in full: when the tag is the varint of
/// `8 * number + code`, for any field number protobuf allows (below `2^29`), the
/// first decoded field has exactly that number and the wire type of `code`.
pub proof fn lemma_tag_number_roundtrip(number: u32, code: u32, rest: Seq<u8>)
    requires
        1 <= number < 0x2000_0000,
        code < 8,
    ensures
        decode_message(varint_bytes((8 * number + code) as nat) + rest) matches Some(fs) ==> {
            &&& fs.len() > 0
            &&& fs[0].field_number == number
            &&& fs[0].wire_type == wire_type_of(code)
        },
{
    let tag: u64 = (8 * number + code) as u64;
    crate::wire::lemma_varint_roundtrip(tag, rest);
    assert(tag / 8 == number);
    assert(tag % 8 == code);
    let s = varint_bytes((8 * number + code) as nat) + rest;
    assert(s.len() > 0);
    lemma_raw_field_bounds(s);
}

/// A varint field reads back: the tag for `number` with wire type varint,
/// followed by the varint of `value`, decodes to exactly that one field.
pub proof fn lemma_varint_field_roundtrip(number: u32, value: u64)
    requires
        1 <= number < 0x2000_0000,
    ensures
        decode_message(varint_bytes(8 * number as nat) + varint_bytes(value as nat)) == Some(
            seq![
                FieldModel {
                    field_number: number,
                    wire_type: WireType::Varint,
                    value: FieldValue::Varint(value),
                },
            ],
        ),
{
    let tag: u64 = (8 * number) as u64;
    let body = varint_bytes(value as nat);
    crate::wire::lemma_varint_roundtrip(tag, body);
    crate::wire::lemma_varint_roundtrip(value, Seq::<u8>::empty());
    assert(body + Seq::<u8>::empty() =~= body);
    assert(tag / 8 == number);
    assert(tag % 8 == 0);
    let s = varint_bytes(8 * number as nat) + body;
    let t = varint_bytes(8 * number as nat).len();
    assert(s.skip(t as int) =~= body);
    assert(s.skip((t + body.len()) as int) =~= Seq::<u8>::empty());
    assert(decode_message(s.skip((t + body.len()) as int)) == Some(Seq::<FieldModel>::empty()));
    let f = FieldModel { field_number: number, wire_type: WireType::Varint, value: FieldValue::Varint(value) };
    assert(seq![f] + Seq::<FieldModel>::empty() =~= seq![f]);
}

/// A 64-bit field reads back: the tag for `number` with wire type 64-bit,
/// followed by the eight little-endian bytes of `value`, decodes to that field.
pub proof fn lemma_fixed64_field_roundtrip(number: u32, value: u64)
    requires
        1 <= number < 0x2000_0000,
    ensures
        decode_message(varint_bytes((8 * number + 1) as nat) + le_bytes(value as nat, 8)) == Some(
            seq![
                FieldModel {
                    field_number: number,
                    wire_type: WireType::Bit64,
                    value: FieldValue::Fixed64(value),
                },
            ],
        ),
{
    let tag: u64 = (8 * number + 1) as u64;
    let body = le_bytes(value as nat, 8);
    assert(pow2(64) == 0x1_0000_0000_0000_0000) by {
        vstd::arithmetic::power2::lemma2_to64_rest();
    }
    crate::wire::lemma_little_endian_roundtrip(value as nat, 8);
    crate::wire::lemma_varint_roundtrip(tag, body);
    assert(tag / 8 == number);
    assert(tag % 8 == 1);
    let s = varint_bytes(tag as nat) + body;
    let t = varint_bytes(tag as nat).len();
    assert(s.skip(t as int) =~= body);
    assert(body.take(8) =~= body);
    assert(s.skip((t + 8) as int) =~= Seq::<u8>::empty());
    assert(varint_bytes((8 * number + 1) as nat) == varint_bytes(tag as nat));
    assert(varint_decoding(s) == Some((tag, t)));
    assert(tag_field_number(tag) == number);
    assert(wire_type_of(tag_wire_code(tag)) == WireType::Bit64);
    assert(s.skip(t as int).len() >= 8);
    assert(little_endian(s.skip(t as int).take(8)) as u64 == value);
    assert(raw_field(s) == Some((number, WireType::Bit64, RawValue::Fixed64(value), (t + 8) as nat)));
    lemma_raw_field_bounds(s);
    assert(decode_message(Seq::<u8>::empty()) == Some(Seq::<FieldModel>::empty()));
    let f = FieldModel { field_number: number, wire_type: WireType::Bit64, value: FieldValue::Fixed64(value) };
    assert(seq![f] + Seq::<FieldModel>::empty() =~= seq![f]);
}

/// A 32-bit field reads back: the tag for `number` with wire type 32-bit,
/// followed by the four little-endian bytes of `value`, decodes to that field.
pub proof fn lemma_fixed32_field_roundtrip(number: u32, value: u32)
    requires
        1 <= number < 0x2000_0000,
    ensures
        decode_message(varint_bytes((8 * number + 5) as nat) + le_bytes(value as nat, 4)) == Some(
            seq![
                FieldModel {
                    field_number: number,
                    wire_type: WireType::Bit32,
                    value: FieldValue::Fixed32(value),
                },
            ],
        ),
{
    let tag: u64 = (8 * number + 5) as u64;
    let body = le_bytes(value as nat, 4);
    assert(pow2(32) == 0x1_0000_0000) by {
        vstd::arithmetic::power2::lemma2_to64();
    }
    crate::wire::lemma_little_endian_roundtrip(value as nat, 4);
    crate::wire::lemma_varint_roundtrip(tag, body);
    assert(tag / 8 == number);
    assert(tag % 8 == 5);
    let s = varint_bytes(tag as nat) + body;
    let t = varint_bytes(tag as nat).len();
    assert(s.skip(t as int) =~= body);
    assert(body.take(4) =~= body);
    assert(s.skip((t + 4) as int) =~= Seq::<u8>::empty());
    assert(varint_bytes((8 * number + 5) as nat) == varint_bytes(tag as nat));
    assert(varint_decoding(s) == Some((tag, t)));
    assert(tag_field_number(tag) == number);
    assert(wire_type_of(tag_wire_code(tag)) == WireType::Bit32);
    assert(s.skip(t as int).len() >= 4);
    assert(little_endian(s.skip(t as int).take(4)) as u32 == value);
    assert(raw_field(s) == Some((number, WireType::Bit32, RawValue::Fixed32(value), (t + 4) as nat)));
    lemma_raw_field_bounds(s);
    assert(decode_message(Seq::<u8>::empty()) == Some(Seq::<FieldModel>::empty()));
    let f = FieldModel { field_number: number, wire_type: WireType::Bit32, value: FieldValue::Fixed32(value) };
    assert(seq![f] + Seq::<FieldModel>::empty() =~= seq![f]);
}

/// A length-delimited field reads back: the tag for `number` with wire type
/// length-delimited, the varint of the payload's length, then the payload,
/// decodes to one field whose value is the payload as a nested message when it
/// decodes to at least one field, and the payload's bytes otherwise.
pub proof fn lemma_delimited_field_roundtrip(number: u32, payload: Seq<u8>)
    requires
        1 <= number < 0x2000_0000,
        payload.len() < 0x1_0000_0000,
    ensures
        decode_message(
            varint_bytes((8 * number + 2) as nat) + varint_bytes(payload.len()) + payload,
        ) == Some(
            seq![
                FieldModel {
                    field_number: number,
                    wire_type: WireType::LengthDelimited,
                    value: match decode_message(payload) {
                        Some(inner) => if inner.len() > 0 {
                            FieldValue::Nested(inner)
                        } else {
                            FieldValue::Bytes(payload)
                        },
                        None => FieldValue::Bytes(payload),
                    },
                },
            ],
        ),
{
    let tag: u64 = (8 * number + 2) as u64;
    let len: u64 = payload.len() as u64;
    let lb = varint_bytes(len as nat);
    let s = varint_bytes(tag as nat) + lb + payload;
    assert(s =~= varint_bytes(tag as nat) + (lb + payload));
    crate::wire::lemma_varint_roundtrip(tag, lb + payload);
    crate::wire::lemma_varint_roundtrip(len, payload);
    assert(tag / 8 == number);
    assert(tag % 8 == 2);
    let t = varint_bytes(tag as nat).len();
    let n = lb.len();
    assert(s.skip(t as int) =~= lb + payload);
    assert((len as usize) as nat == payload.len());
    assert((lb + payload).subrange(n as int, (n + payload.len()) as int) =~= payload);
    lemma_raw_field_bounds(s);
    assert(s.skip((t + n + payload.len()) as int) =~= Seq::<u8>::empty());
    assert(decode_message(Seq::<u8>::empty()) == Some(Seq::<FieldModel>::empty()));
    let f = FieldModel {
        field_number: number,
        wire_type: WireType::LengthDelimited,
        value: field_value(RawValue::Delimited(payload), decode_message(payload)),
    };
    assert(seq![f] + Seq::<FieldModel>::empty() =~= seq![f]);
}

/// A decoded field has a non-zero number and a value of the kind its wire type
/// carries; a nested message is never empty.
pub open spec fn field_is_well_typed(f: FieldModel) -> bool {
    &&& f.field_number != 0
    &&& match f.wire_type {
        WireType::Varint => f.value is Varint,
        WireType::Bit64 => f.value is Fixed64,
        WireType::Bit32 => f.value is Fixed32,
        WireType::LengthDelimited => match f.value {
            FieldValue::Bytes(_) => true,
            FieldValue::Nested(inner) => inner.len() > 0,
            _ => false,
        },
        _ => false,
    }
}

/// Every field that decoding yields is well typed: no field number zero, no
/// group or unknown wire type, and a value that agrees with the wire type.
pub proof fn lemma_decoded_fields_well_typed(s: Seq<u8>)
    ensures
        decode_message(s) matches Some(fs) ==> forall|i: int|
            0 <= i < fs.len() ==> field_is_well_typed(#[trigger] fs[i]),
    decreases s.len(),
{
    if s.len() > 0 {
        lemma_raw_field_bounds(s);
        if let Some((number, wire, raw, n)) = raw_field(s) {
            lemma_decoded_fields_well_typed(s.skip(n as int));
            if let Some(fs) = decode_message(s) {
                let rest = decode_message(s.skip(n as int)).unwrap();
                assert forall|i: int| 0 <= i < fs.len() implies field_is_well_typed(#[trigger] fs[i]) by {
                    if i > 0 {
                        assert(fs[i] == rest[i - 1]);
                    }
                }
            }
        }
    }
}

/// Prepends decoded fields to the result of decoding what follows them.
pub open spec fn prepend_fields(front: Seq<FieldModel>, rest: Option<Seq<FieldModel>>) -> Option<Seq<FieldModel>> {
    match rest {
        Some(r) => Some(front + r),
        None => None,
    }
}

/// The model of `fs` with one more field is the model of `fs` with that field's model.
pub proof fn lemma_fields_model_push(fs: Seq<ProtoField>, f: ProtoField)
    ensures
        fields_model(fs.push(f)) == fields_model(fs).push(f.model()),
        fields_model(fs).len() == fs.len(),
    decreases fs.len(),
{
    if fs.len() == 0 {
        assert(fs.push(f).drop_first() =~= Seq::<ProtoField>::empty());
        assert(fields_model(fs.push(f).drop_first()) =~= Seq::<FieldModel>::empty());
        assert(fs.push(f)[0] == f);
        assert(fields_model(fs.push(f)) =~= seq![f.model()]);
    } else {
        lemma_fields_model_push(fs.drop_first(), f);
        assert(fs.push(f).drop_first() =~= fs.drop_first().push(f));
        assert(fields_model(fs.push(f)) =~= fields_model(fs).push(f.model()));
    }
}

/// The model of a sequence of fields has one model per field, in the same places.
pub proof fn lemma_fields_model_index(fs: Seq<ProtoField>)
    ensures
        fields_model(fs).len() == fs.len(),
        forall|i: int| 0 <= i < fs.len() ==> #[trigger] fields_model(fs)[i] == fs[i].model(),
    decreases fs.len(),
{
    if fs.len() > 0 {
        lemma_fields_model_index(fs.drop_first());
        assert forall|i: int| 0 <= i < fs.len() implies #[trigger] fields_model(fs)[i] == fs[i].model() by {
            if i > 0 {
                assert(fields_model(fs)[i] == fields_model(fs.drop_first())[i - 1]);
            }
        }
    }
}

/// The raw value of a field as read from a buffer: length-delimited bytes are
/// given by their range in the buffer.
enum RawRead {
    Varint(u64),
    Fixed64(u64),
    Fixed32(u32),
    Delimited(usize, usize),
}

spec fn raw_read_model(r: RawRead, data: Seq<u8>) -> RawValue {
    match r {
        RawRead::Varint(v) => RawValue::Varint(v),
        RawRead::Fixed64(v) => RawValue::Fixed64(v),
        RawRead::Fixed32(v) => RawValue::Fixed32(v),
        RawRead::Delimited(a, b) => RawValue::Delimited(data.subrange(a as int, b as int)),
    }
}

/// Reads the field that starts at `pos`: its number, wire type, raw value and
/// the position just after it.
fn read_raw_field(data: &[u8], pos: usize) -> (r: Option<(u32, WireType, RawRead, usize)>)
    requires
        pos < data@.len(),
    ensures
        match r {
            Some((number, wire, raw, next)) => {
                &&& pos < next <= data@.len()
                &&& raw_field(data@.skip(pos as int)) == Some(
                    (number, wire, raw_read_model(raw, data@), (next - pos) as nat),
                )
                &&& raw matches RawRead::Delimited(a, b) ==> pos < a <= b <= data@.len()
            },
            None => raw_field(data@.skip(pos as int)) is None,
        },
{
    let ghost s = data@.skip(pos as int);
    let rest = slice_subrange(data, pos, data.len());
    assert(rest@ =~= s);
    let (tag, tag_len) = match decode_varint(rest) {
        Some(x) => x,
        None => return None,
    };
    proof {
        crate::wire::lemma_varint_span_bounds(rest@, 10);
    }
    let p = pos + tag_len;
    let wire_type_raw = (tag & 0x07) as u32;
    let field_number = (tag >> 3) as u32;
    proof {
        assert(tag & 0x07 == tag % 8) by (bit_vector);
        assert((tag >> 3) == tag / 8) by (bit_vector);
        assert(((tag >> 3) as u32) == ((tag >> 3) % 0x1_0000_0000) as u32) by (bit_vector);
        assert(field_number == tag_field_number(tag));
        assert(wire_type_raw == tag_wire_code(tag));
        assert(s.skip(tag_len as int) =~= data@.skip(p as int));
    }
    if field_number == 0 {
        return None;
    }
    let wire_type = WireType::from(wire_type_raw);
    match wire_type {
        WireType::Varint => {
            let after = slice_subrange(data, p, data.len());
            assert(after@ =~= data@.skip(p as int));
            match decode_varint(after) {
                Some((v, n)) => {
                    proof {
                        crate::wire::lemma_varint_span_bounds(after@, 10);
                    }
                    Some((field_number, wire_type, RawRead::Varint(v), p + n))
                },
                None => None,
            }
        },
        WireType::Bit64 => {
            if data.len() - p < 8 {
                None
            } else {
                let bytes = slice_subrange(data, p, p + 8);
                let v = read_u64_le(bytes);
                assert(bytes@.take(8) =~= data@.skip(p as int).take(8));
                Some((field_number, wire_type, RawRead::Fixed64(v), p + 8))
            }
        },
        WireType::Bit32 => {
            if data.len() - p < 4 {
                None
            } else {
                let bytes = slice_subrange(data, p, p + 4);
                let v = read_u32_le(bytes);
                assert(bytes@.take(4) =~= data@.skip(p as int).take(4));
                Some((field_number, wire_type, RawRead::Fixed32(v), p + 4))
            }
        },
        WireType::LengthDelimited => {
            let after = slice_subrange(data, p, data.len());
            assert(after@ =~= data@.skip(p as int));
            match decode_varint(after) {
                Some((len, n)) => {
                    proof {
                        crate::wire::lemma_varint_span_bounds(after@, 10);
                    }
                    let q = p + n;
                    let size = len as usize;
                    if size > data.len() - q {
                        None
                    } else {
                        assert(data@.skip(p as int).subrange(n as int, (n + size) as int)
                            =~= data@.subrange(q as int, (q + size) as int));
                        Some((field_number, wire_type, RawRead::Delimited(q, q + size), q + size))
                    }
                },
                None => None,
            }
        },
        _ => None,
    }
}

/// Attempts to decode raw bytes as protobuf wire-format fields.
///
/// Returns `None` if the bytes do not look like valid protobuf.
pub fn decode_protobuf(data: &[u8]) -> (r: Option<Vec<ProtoField>>)
    ensures
        match r {
            Some(fields) => decode_message(data@) == Some(fields_model(fields@)),
            None => decode_message(data@) is None,
        },
    decreases data@.len(),
{
    let mut fields: Vec<ProtoField> = Vec::new();
    let mut pos: usize = 0;
    assert(data@.skip(0) =~= data@);
    assert(fields_model(fields@) =~= Seq::<FieldModel>::empty());
    while pos < data.len()
        invariant
            pos <= data@.len(),
            decode_message(data@) == prepend_fields(
                fields_model(fields@),
                decode_message(data@.skip(pos as int)),
            ),
        decreases data@.len() - pos,
    {
        let ghost s = data@.skip(pos as int);
        let (field_number, wire_type, raw, next) = match read_raw_field(data, pos) {
            Some(x) => x,
            None => return None,
        };
        let ghost nested_spec = match raw_read_model(raw, data@) {
            RawValue::Delimited(body) => decode_message(body),
            _ => None,
        };
        let value = match raw {
            RawRead::Varint(v) => ProtoValue::Varint(v),
            RawRead::Fixed64(v) => ProtoValue::Fixed64(v),
            RawRead::Fixed32(v) => ProtoValue::Fixed32(v),
            RawRead::Delimited(a, b) => {
                let payload = slice_subrange(data, a, b);
                match decode_protobuf(payload) {
                    Some(nested) => {
                        if nested.len() > 0 {
                            proof {
                                lemma_fields_model_push(nested@, nested@[0]);
                            }
                            ProtoValue::Nested(nested)
                        } else {
                            proof {
                                assert(fields_model(nested@) =~= Seq::<FieldModel>::empty());
                            }
                            ProtoValue::Bytes(slice_to_vec(payload))
                        }
                    },
                    None => ProtoValue::Bytes(slice_to_vec(payload)),
                }
            },
        };
        let field = ProtoField { field_number, wire_type, value };
        assert(field.model().value == field_value(raw_read_model(raw, data@), nested_spec));
        let ghost old_fields = fields@;
        let ghost old_pos = pos;
        fields.push(field);
        pos = next;
        proof {
            lemma_fields_model_push(old_fields, field);
            assert(s.skip((next - old_pos) as int) =~= data@.skip(pos as int));
            assert(s.len() > 0);
        }
    }
    Some(fields)
}

} // verus!
