//! Human-readable renderings of decoded protobuf fields and gRPC frames.
use vstd::prelude::*;
use vstd::utf8::{valid_utf8, decode_utf8};
use crate::text::{decimal, hex, push_char, push_radix};
use crate::inspect::{WireType, FieldValue, FieldModel, ProtoValue, ProtoField, fields_model, lemma_fields_model_index};
use crate::framing::{FrameModel, GrpcFrame, frames_of, frames_model, parse_grpc_frames};

verus! {

broadcast use vstd::string::group_string_axioms;

/// How a wire type is written in renderings.
pub open spec fn wire_type_text(w: WireType) -> Seq<char> {
    match w {
        WireType::Varint => "varint"@,
        WireType::Bit64 => "64-bit"@,
        WireType::LengthDelimited => "length-delimited"@,
        WireType::StartGroup => "start-group"@,
        WireType::EndGroup => "end-group"@,
        WireType::Bit32 => "32-bit"@,
        WireType::Unknown(v) => "unknown("@ + decimal(v as nat) + ")"@,
    }
}

/// A control character: the Unicode general category `Cc`.
pub open spec fn is_control(c: char) -> bool {
    (c as u32) <= 0x1f || (0x7f <= (c as u32) && (c as u32) <= 0x9f)
}

/// Text is shown as a string when every character is printable or a line break or tab.
pub open spec fn shows_as_string(t: Seq<char>) -> bool {
    forall|i: int|
        0 <= i < t.len() ==> !is_control(#[trigger] t[i]) || t[i] == '\n' || t[i] == '\r' || t[i]
            == '\t'
}

/// Each byte as two lower-case hexadecimal digits.
pub open spec fn hex_bytes(b: Seq<u8>) -> Seq<char>
    decreases b.len(),
{
    if b.len() == 0 {
        Seq::empty()
    } else {
        hex_bytes(b.drop_last()) + hex(b.last() as nat, 2)
    }
}

/// Length-delimited bytes: quoted text when they are UTF-8 that shows as a string,
/// hexadecimal after `0x` otherwise.
pub open spec fn bytes_text(b: Seq<u8>) -> Seq<char> {
    if valid_utf8(b) && shows_as_string(decode_utf8(b)) {
        seq!['"'] + decode_utf8(b) + seq!['"']
    } else {
        "0x"@ + hex_bytes(b)
    }
}

/// Decodes UTF-8.
/// Trusted: `std::str::from_utf8` succeeds exactly on valid UTF-8, and the
/// string it gives holds the characters that the bytes encode.
#[verifier::external_body]
fn utf8_str(bytes: &[u8]) -> (r: Option<&str>)
    ensures
        r is Some <==> valid_utf8(bytes@),
        r matches Some(s) ==> s@ == decode_utf8(bytes@),
{
    std::str::from_utf8(bytes).ok()
}

/// Whether a character is a control character.
fn char_is_control(c: char) -> (r: bool)
    ensures
        r == is_control(c),
{
    let v = c as u32;
    v <= 0x1f || (0x7f <= v && v <= 0x9f)
}

/// Whether the text shows as a string.
fn str_shows_as_string(s: &str) -> (r: bool)
    ensures
        r == shows_as_string(s@),
{
    for c in it: s.chars()
        invariant
            it.seq() == s@,
            forall|j: int| 0 <= j < it.index() ==> !is_control(#[trigger] s@[j]) || s@[j] == '\n' || s@[j] == '\r' || s@[j] == '\t',
    {
        if char_is_control(c) && c != '\n' && c != '\r' && c != '\t' {
            return false;
        }
    }
    true
}

/// Appends the rendering of length-delimited bytes.
fn push_bytes_text(out: &mut String, b: &[u8])
    ensures
        final(out)@ == old(out)@ + bytes_text(b@),
{
    if let Some(s) = utf8_str(b) {
        if str_shows_as_string(s) {
            push_char(out, '"');
            out.append(s);
            push_char(out, '"');
            return;
        }
    }
    out.append("0x");
    let mut i: usize = 0;
    while i < b.len()
        invariant
            i <= b@.len(),
            out@ == old(out)@ + "0x"@ + hex_bytes(b@.take(i as int)),
        decreases b@.len() - i,
    {
        push_radix(out, b[i] as u64, 16, 2);
        assert(b@.take(i + 1).drop_last() =~= b@.take(i as int));
        i = i + 1;
    }
    assert(b@.take(b@.len() as int) =~= b@);
}


/// How a decoded value is written: decimal for varints, zero-padded hexadecimal
/// for fixed-width values, `bytes_text` for bytes, and a nested message's fields
/// between braces, separated by commas.
pub open spec fn value_text(v: FieldValue) -> Seq<char>
    decreases v,
{
    match v {
        FieldValue::Varint(n) => decimal(n as nat),
        FieldValue::Fixed32(n) => "0x"@ + hex(n as nat, 8),
        FieldValue::Fixed64(n) => "0x"@ + hex(n as nat, 16),
        FieldValue::Bytes(b) => bytes_text(b),
        FieldValue::Nested(fs) => "{ "@ + fields_listing(fs) + " }"@,
    }
}

/// The renderings of `fs`, separated by `", "`.
pub open spec fn fields_listing(fs: Seq<FieldModel>) -> Seq<char>
    decreases fs,
{
    if fs.len() == 0 {
        Seq::empty()
    } else if fs.len() == 1 {
        field_text(fs[0])
    } else {
        fields_listing(fs.drop_last()) + ", "@ + field_text(fs.last())
    }
}

/// How a decoded field is written: `field <number> (<wire type>): <value>`.
pub open spec fn field_text(f: FieldModel) -> Seq<char>
    decreases f,
{
    "field "@ + decimal(f.field_number as nat) + " ("@ + wire_type_text(f.wire_type) + "): "@
        + value_text(f.value)
}

/// Appends the rendering of a wire type.
pub fn push_wire_type_text(out: &mut String, w: WireType)
    ensures
        final(out)@ == old(out)@ + wire_type_text(w),
{
    match w {
        WireType::Varint => out.append("varint"),
        WireType::Bit64 => out.append("64-bit"),
        WireType::LengthDelimited => out.append("length-delimited"),
        WireType::StartGroup => out.append("start-group"),
        WireType::EndGroup => out.append("end-group"),
        WireType::Bit32 => out.append("32-bit"),
        WireType::Unknown(v) => {
            out.append("unknown(");
            push_radix(out, v as u64, 10, 1);
            out.append(")");
        },
    }
}

/// Appends the rendering of a decoded value.
pub fn push_value_text(out: &mut String, v: &ProtoValue)
    ensures
        final(out)@ == old(out)@ + value_text(v.model()),
    decreases v,
{
    match v {
        ProtoValue::Varint(n) => {
            assert(v.model() == FieldValue::Varint(*n));
            push_radix(out, *n, 10, 1);
        },
        ProtoValue::Fixed32(n) => {
            out.append("0x");
            push_radix(out, *n as u64, 16, 8);
        },
        ProtoValue::Fixed64(n) => {
            out.append("0x");
            push_radix(out, *n, 16, 16);
        },
        ProtoValue::Bytes(b) => push_bytes_text(out, b.as_slice()),
        ProtoValue::Nested(fields) => {
            out.append("{ ");
            let ghost fs = crate::inspect::fields_model(fields@);
            proof {
                crate::inspect::lemma_fields_model_index(fields@);
                assert(fs.take(0) =~= Seq::<FieldModel>::empty());
            }
            let mut i: usize = 0;
            while i < fields.len()
                invariant
                    i <= fields@.len(),
                    *v == ProtoValue::Nested(*fields),
                    fs == crate::inspect::fields_model(fields@),
                    fs.len() == fields@.len(),
                    forall|j: int| 0 <= j < fields@.len() ==> #[trigger] fs[j] == fields@[j].model(),
                    out@ == old(out)@ + "{ "@ + fields_listing(fs.take(i as int)),
                decreases fields@.len() - i,
            {
                if i > 0 {
                    out.append(", ");
                }
                proof {
                    assert(decreases_to!(*v => v->Nested_0));
                    assert(decreases_to!(v->Nested_0 => v->Nested_0@));
                    assert(decreases_to!(fields@ => fields@[i as int]));
                }
                push_field_text(out, &fields[i]);
                proof {
                    assert(fs.take(i + 1).drop_last() =~= fs.take(i as int));
                    assert(fs.take(i + 1).last() == fields@[i as int].model());
                    if i == 0 {
                        assert(fs.take(1)[0] == fields@[0].model());
                    }
                }
                i = i + 1;
            }
            assert(fs.take(fields@.len() as int) =~= fs);
            assert(v.model() == FieldValue::Nested(fs));
            out.append(" }");
        },
    }
}

/// Appends the rendering of a decoded field.
pub fn push_field_text(out: &mut String, f: &ProtoField)
    ensures
        final(out)@ == old(out)@ + field_text(f.model()),
    decreases f,
{
    out.append("field ");
    push_radix(out, f.field_number as u64, 10, 1);
    out.append(" (");
    push_wire_type_text(out, f.wire_type);
    out.append("): ");
    push_value_text(out, &f.value);
}


/// How a boolean is written.
pub open spec fn bool_text(b: bool) -> Seq<char> {
    if b {
        "true"@
    } else {
        "false"@
    }
}

/// Each field's rendering on a line of its own, indented by two spaces.
pub open spec fn field_lines(fs: Seq<FieldModel>) -> Seq<char>
    decreases fs.len(),
{
    if fs.len() == 0 {
        Seq::empty()
    } else {
        field_lines(fs.drop_last()) + "\n  "@ + field_text(fs.last())
    }
}

/// How a frame is written: a summary line, then its decoded fields, or a note on
/// the raw size when it was not decoded.
pub open spec fn frame_text(f: FrameModel) -> Seq<char> {
    "gRPC frame (compressed="@ + bool_text(f.compressed) + ", "@ + decimal(f.payload.len()) + " bytes)"@
        + match f.decoded_fields {
        Some(fs) => field_lines(fs),
        None => "\n  <raw bytes: "@ + decimal(f.payload.len()) + " bytes>"@,
    }
}

/// The renderings of frames, one after another on separate lines.
pub open spec fn frames_listing(fs: Seq<FrameModel>) -> Seq<char>
    decreases fs.len(),
{
    if fs.len() == 0 {
        Seq::empty()
    } else if fs.len() == 1 {
        frame_text(fs[0])
    } else {
        frames_listing(fs.drop_last()) + "\n"@ + frame_text(fs.last())
    }
}

/// How gRPC request or response data is written: its frames, or a note on the
/// raw size when it holds no complete frame.
pub open spec fn grpc_message_text(data: Seq<u8>) -> Seq<char> {
    let frames = frames_of(data);
    if frames.len() == 0 {
        "  <no valid gRPC frames, "@ + decimal(data.len()) + " raw bytes>"@
    } else {
        frames_listing(frames)
    }
}

/// Appends the rendering of a frame.
pub fn push_frame_text(out: &mut String, frame: &GrpcFrame)
    ensures
        final(out)@ == old(out)@ + frame_text(frame.model()),
{
    out.append("gRPC frame (compressed=");
    if frame.compressed {
        out.append("true");
    } else {
        out.append("false");
    }
    out.append(", ");
    push_radix(out, frame.payload.len() as u64, 10, 1);
    out.append(" bytes)");
    match &frame.decoded_fields {
        Some(fields) => {
            let ghost fs = fields_model(fields@);
            proof {
                lemma_fields_model_index(fields@);
                assert(fs.take(0) =~= Seq::<FieldModel>::empty());
            }
            let ghost head = out@;
            let mut i: usize = 0;
            while i < fields.len()
                invariant
                    i <= fields@.len(),
                    fs.len() == fields@.len(),
                    forall|j: int| 0 <= j < fields@.len() ==> #[trigger] fs[j] == fields@[j].model(),
                    out@ == head + field_lines(fs.take(i as int)),
                decreases fields@.len() - i,
            {
                out.append("\n  ");
                push_field_text(out, &fields[i]);
                assert(fs.take(i + 1).drop_last() =~= fs.take(i as int));
                i = i + 1;
            }
            assert(fs.take(fields@.len() as int) =~= fs);
        },
        None => {
            out.append("\n  <raw bytes: ");
            push_radix(out, frame.payload.len() as u64, 10, 1);
            out.append(" bytes>");
        },
    }
}

/// Formats gRPC request/response data into a human-readable string.
pub fn format_grpc_message(data: &[u8]) -> (r: String)
    ensures
        r@ == grpc_message_text(data@),
{
    let frames = parse_grpc_frames(data);
    let ghost fm = frames_model(frames@);
    let mut result = String::new();
    if frames.len() == 0 {
        result.append("  <no valid gRPC frames, ");
        push_radix(&mut result, data.len() as u64, 10, 1);
        result.append(" raw bytes>");
        return result;
    }
    assert(fm.take(0) =~= Seq::<FrameModel>::empty());
    let mut i: usize = 0;
    while i < frames.len()
        invariant
            i <= frames@.len(),
            fm == frames_model(frames@),
            result@ == frames_listing(fm.take(i as int)),
        decreases frames@.len() - i,
    {
        if i > 0 {
            push_char(&mut result, '\n');
        }
        push_frame_text(&mut result, &frames[i]);
        assert(fm.take(i + 1).drop_last() =~= fm.take(i as int));
        assert("\n"@ =~= seq!['\n']) by {
            reveal_strlit("\n");
        }
        i = i + 1;
    }
    assert(fm.take(frames@.len() as int) =~= fm);
    result
}


impl WireType {
    /// The wire type as text: `varint`, `64-bit`, `length-delimited`,
    /// `start-group`, `end-group`, `32-bit` or `unknown(<code>)`.
    pub fn to_display_string(&self) -> (r: String)
        ensures
            r@ == wire_type_text(*self),
    {
        let mut s = String::new();
        push_wire_type_text(&mut s, *self);
        s
    }
}

impl ProtoValue {
    /// The value as text, as [`value_text`] describes it.
    pub fn to_display_string(&self) -> (r: String)
        ensures
            r@ == value_text(self.model()),
    {
        let mut s = String::new();
        push_value_text(&mut s, self);
        s
    }
}

impl ProtoField {
    /// The field as text: `field <number> (<wire type>): <value>`.
    pub fn to_display_string(&self) -> (r: String)
        ensures
            r@ == field_text(self.model()),
    {
        let mut s = String::new();
        push_field_text(&mut s, self);
        s
    }
}

impl GrpcFrame {
    /// The frame as text, as [`frame_text`] describes it.
    pub fn to_display_string(&self) -> (r: String)
        ensures
            r@ == frame_text(self.model()),
    {
        let mut s = String::new();
        push_frame_text(&mut s, self);
        s
    }
}

/// The rendering of each field as a line of its own.
pub open spec fn field_line(f: FieldModel) -> Seq<char> {
    "\n  "@ + field_text(f)
}

/// The lines of `fs` are the lines of each field, one after another.
proof fn lemma_field_lines_flatten(fs: Seq<FieldModel>)
    ensures
        field_lines(fs) == fs.map_values(|f: FieldModel| field_line(f)).flatten_alt(),
    decreases fs.len(),
{
    let lines = fs.map_values(|f: FieldModel| field_line(f));
    if fs.len() > 0 {
        lemma_field_lines_flatten(fs.drop_last());
        assert(lines.drop_last() =~= fs.drop_last().map_values(|f: FieldModel| field_line(f)));
        assert(lines.last() == field_line(fs.last()));
    } else {
        assert(lines.len() == 0);
    }
}

/// A frame's rendering lists every decoded field, in order: after the summary
/// line comes one indented line per field, and nothing else.
pub proof fn lemma_frame_lists_every_field(frame: FrameModel, fs: Seq<FieldModel>)
    requires
        frame.decoded_fields == Some(fs),
    ensures
        frame_text(frame) == "gRPC frame (compressed="@ + bool_text(frame.compressed) + ", "@
            + decimal(frame.payload.len()) + " bytes)"@ + fs.map_values(
            |f: FieldModel| "\n  "@ + field_text(f),
        ).flatten(),
{
    lemma_field_lines_flatten(fs);
    let lines = fs.map_values(|f: FieldModel| field_line(f));
    lines.lemma_flatten_and_flatten_alt_are_equivalent();
    assert(lines =~= fs.map_values(|f: FieldModel| "\n  "@ + field_text(f)));
}

/// A character that renderings print as it is: a tab, a line break, printable
/// ASCII, or any character from U+00A0 on.
pub open spec fn prints_as_itself(c: char) -> bool {
    ||| c == '\n'
    ||| c == '\r'
    ||| c == '\t'
    ||| (0x20 <= (c as u32) && (c as u32) <= 0x7e)
    ||| (c as u32) >= 0xa0
}

/// Each byte as two hexadecimal digits, one byte after another.
proof fn lemma_hex_bytes_flatten(b: Seq<u8>)
    ensures
        hex_bytes(b) == b.map_values(|x: u8| hex(x as nat, 2)).flatten_alt(),
    decreases b.len(),
{
    let digits = b.map_values(|x: u8| hex(x as nat, 2));
    if b.len() > 0 {
        lemma_hex_bytes_flatten(b.drop_last());
        assert(digits.drop_last() =~= b.drop_last().map_values(|x: u8| hex(x as nat, 2)));
    } else {
        assert(digits.len() == 0);
    }
}

/// Length-delimited bytes that are UTF-8 text of characters that print as
/// themselves (non-ASCII letters such as `é` included) render as that text
/// between double quotes.
pub proof fn lemma_text_bytes_render_quoted(b: Seq<u8>)
    requires
        valid_utf8(b),
        forall|i: int| 0 <= i < decode_utf8(b).len() ==> prints_as_itself(#[trigger] decode_utf8(b)[i]),
    ensures
        bytes_text(b) == seq!['"'] + decode_utf8(b) + seq!['"'],
{
    let t = decode_utf8(b);
    assert forall|i: int| 0 <= i < t.len() implies !is_control(#[trigger] t[i]) || t[i] == '\n'
        || t[i] == '\r' || t[i] == '\t' by {
        assert(prints_as_itself(t[i]));
    }
}

/// Bytes that are not UTF-8, or whose text holds a character that does not
/// print as itself (a control character other than tab and line breaks),
/// render as `0x` and two hexadecimal digits per byte.
pub proof fn lemma_other_bytes_render_hex(b: Seq<u8>)
    requires
        !valid_utf8(b) || exists|i: int| 0 <= i < decode_utf8(b).len() && !prints_as_itself(#[trigger] decode_utf8(b)[i]),
    ensures
        bytes_text(b) == "0x"@ + b.map_values(|x: u8| hex(x as nat, 2)).flatten(),
{
    lemma_hex_bytes_flatten(b);
    b.map_values(|x: u8| hex(x as nat, 2)).lemma_flatten_and_flatten_alt_are_equivalent();
    if valid_utf8(b) {
        let t = decode_utf8(b);
        let i = choose|i: int| 0 <= i < t.len() && !prints_as_itself(#[trigger] t[i]);
        assert(is_control(t[i]) && t[i] != '\n' && t[i] != '\r' && t[i] != '\t');
        assert(!shows_as_string(t));
    }
}

/// The fields of a nested message are listed in order, separated by `", "`:
/// the first field's rendering, then for each further field a comma, a space
/// and its rendering.
pub proof fn lemma_nested_lists_every_field(fs: Seq<FieldModel>)
    requires
        fs.len() > 0,
    ensures
        fields_listing(fs) == field_text(fs[0]) + fs.drop_first().map_values(
            |f: FieldModel| ", "@ + field_text(f),
        ).flatten_alt(),
    decreases fs.len(),
{
    let rest = fs.drop_first().map_values(|f: FieldModel| ", "@ + field_text(f));
    if fs.len() == 1 {
        assert(rest.len() == 0);
        assert(field_text(fs[0]) + rest.flatten_alt() =~= field_text(fs[0]));
    } else {
        lemma_nested_lists_every_field(fs.drop_last());
        assert(fs.drop_last()[0] == fs[0]);
        assert(rest.drop_last() =~= fs.drop_last().drop_first().map_values(
            |f: FieldModel| ", "@ + field_text(f),
        ));
        assert(rest.last() == ", "@ + field_text(fs.last()));
    }
}

/// Frames are listed in order, one below the other: the first frame's
/// rendering, then for each further frame a line break and its rendering.
pub proof fn lemma_message_lists_every_frame(fs: Seq<FrameModel>)
    requires
        fs.len() > 0,
    ensures
        frames_listing(fs) == frame_text(fs[0]) + fs.drop_first().map_values(
            |f: FrameModel| "\n"@ + frame_text(f),
        ).flatten_alt(),
    decreases fs.len(),
{
    let rest = fs.drop_first().map_values(|f: FrameModel| "\n"@ + frame_text(f));
    if fs.len() == 1 {
        assert(rest.len() == 0);
        assert(frame_text(fs[0]) + rest.flatten_alt() =~= frame_text(fs[0]));
    } else {
        lemma_message_lists_every_frame(fs.drop_last());
        assert(fs.drop_last()[0] == fs[0]);
        assert(rest.drop_last() =~= fs.drop_last().drop_first().map_values(
            |f: FrameModel| "\n"@ + frame_text(f),
        ));
        assert(rest.last() == "\n"@ + frame_text(fs.last()));
    }
}

} // verus!
