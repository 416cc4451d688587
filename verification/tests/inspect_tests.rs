use tonic_debug::framing::GrpcFrame;
use tonic_debug::inspect::{
    decode_protobuf, decode_varint, format_grpc_message, hex_dump, parse_grpc_frames, ProtoField,
    ProtoValue, WireType,
};

#[test]
fn test_decode_varint() {
    // Single byte varint: 1
    assert_eq!(decode_varint(&[0x01]), Some((1, 1)));
    // Single byte varint: 127
    assert_eq!(decode_varint(&[0x7F]), Some((127, 1)));
    // Two byte varint: 128
    assert_eq!(decode_varint(&[0x80, 0x01]), Some((128, 2)));
    // Two byte varint: 300
    assert_eq!(decode_varint(&[0xAC, 0x02]), Some((300, 2)));
}

#[test]
fn test_decode_simple_protobuf() {
    // Field 1, varint, value 150 (encoded as: 08 96 01)
    let data = vec![0x08, 0x96, 0x01];
    let fields = decode_protobuf(&data).unwrap();
    assert_eq!(fields.len(), 1);
    assert_eq!(fields[0].field_number, 1);
    assert_eq!(fields[0].wire_type, WireType::Varint);
    match &fields[0].value {
        ProtoValue::Varint(v) => assert_eq!(*v, 150),
        _ => panic!("Expected varint"),
    }
}

#[test]
fn test_decode_string_field() {
    // Field 2, length-delimited, value "testing" (encoded as: 12 07 74 65 73 74 69 6e 67)
    let data = vec![0x12, 0x07, 0x74, 0x65, 0x73, 0x74, 0x69, 0x6e, 0x67];
    let fields = decode_protobuf(&data).unwrap();
    assert_eq!(fields.len(), 1);
    assert_eq!(fields[0].field_number, 2);
    assert_eq!(fields[0].wire_type, WireType::LengthDelimited);
    match &fields[0].value {
        ProtoValue::Bytes(b) => assert_eq!(b, b"testing"),
        _ => panic!("Expected bytes"),
    }
}

#[test]
fn test_parse_grpc_frame() {
    // gRPC frame: uncompressed, 3-byte payload (field 1, varint 150)
    let mut data = vec![0x00]; // compressed flag = false
    data.extend_from_slice(&3u32.to_be_bytes()); // length = 3
    data.extend_from_slice(&[0x08, 0x96, 0x01]); // protobuf payload

    let frames = parse_grpc_frames(&data);
    assert_eq!(frames.len(), 1);
    assert!(!frames[0].compressed);
    assert!(frames[0].decoded_fields.is_some());
    let fields = frames[0].decoded_fields.as_ref().unwrap();
    assert_eq!(fields.len(), 1);
    assert_eq!(fields[0].field_number, 1);
}

#[test]
fn test_invalid_protobuf() {
    // Random bytes that don't form valid protobuf
    let data = vec![
        0xFF, 0xFF, 0xFF, 0xFF, 0xFF, 0xFF, 0xFF, 0xFF, 0xFF, 0xFF, 0xFF,
    ];
    assert!(decode_protobuf(&data).is_none());
}

#[test]
fn test_hex_dump() {
    let data = b"Hello, World!";
    let dump = hex_dump(data, 256);
    assert!(dump.contains("48 65 6c 6c"));
    assert!(dump.contains("|Hello, World!|"));
}

#[test]
fn test_empty_data() {
    let fields = decode_protobuf(&[]);
    assert_eq!(fields, Some(vec![]));
}

#[test]
fn test_wire_type_display() {
    assert_eq!(WireType::Varint.to_display_string(), "varint");
    assert_eq!(WireType::LengthDelimited.to_display_string(), "length-delimited");
    assert_eq!(WireType::Unknown(99).to_display_string(), "unknown(99)");
}

#[test]
fn varint_of_ten_bytes_keeps_the_low_bit_of_the_last() {
    let data = [0xFF, 0xFF, 0xFF, 0xFF, 0xFF, 0xFF, 0xFF, 0xFF, 0xFF, 0x01];
    assert_eq!(decode_varint(&data), Some((u64::MAX, 10)));
    let data = [0x80, 0x80, 0x80, 0x80, 0x80, 0x80, 0x80, 0x80, 0x80, 0x7F];
    assert_eq!(decode_varint(&data), Some((1u64 << 63, 10)));
}

#[test]
fn varint_longer_than_ten_bytes_or_cut_off_is_rejected() {
    let data = [0x80, 0x80, 0x80, 0x80, 0x80, 0x80, 0x80, 0x80, 0x80, 0x80, 0x01];
    assert_eq!(decode_varint(&data), None);
    assert_eq!(decode_varint(&[0x80]), None);
    assert_eq!(decode_varint(&[]), None);
}

#[test]
fn varint_ignores_trailing_bytes() {
    assert_eq!(decode_varint(&[0xAC, 0x02, 0xFF, 0x00]), Some((300, 2)));
}

#[test]
fn fixed64_and_fixed32_are_little_endian() {
    // field 1, 64-bit; field 2, 32-bit
    let data = [
        0x09, 0x01, 0x02, 0x03, 0x04, 0x05, 0x06, 0x07, 0x08, 0x15, 0x0A, 0x0B, 0x0C, 0x0D,
    ];
    let fields = decode_protobuf(&data).unwrap();
    assert_eq!(fields.len(), 2);
    assert_eq!(fields[0].wire_type, WireType::Bit64);
    assert_eq!(fields[0].value, ProtoValue::Fixed64(0x0807060504030201));
    assert_eq!(fields[1].field_number, 2);
    assert_eq!(fields[1].wire_type, WireType::Bit32);
    assert_eq!(fields[1].value, ProtoValue::Fixed32(0x0D0C0B0A));
}

#[test]
fn truncated_fixed_width_values_are_rejected() {
    assert_eq!(decode_protobuf(&[0x09, 0x01, 0x02, 0x03]), None);
    assert_eq!(decode_protobuf(&[0x15, 0x01, 0x02, 0x03]), None);
}

#[test]
fn field_number_zero_is_rejected() {
    assert_eq!(decode_protobuf(&[0x00, 0x01]), None);
}

#[test]
fn group_and_unknown_wire_types_are_rejected() {
    assert_eq!(decode_protobuf(&[0x0B]), None); // start group
    assert_eq!(decode_protobuf(&[0x0C]), None); // end group
    assert_eq!(decode_protobuf(&[0x0E, 0x00]), None); // wire type 6
}

#[test]
fn length_beyond_the_data_is_rejected() {
    assert_eq!(decode_protobuf(&[0x12, 0x05, 0x61]), None);
    // A length that does not fit in the address space is rejected, not a panic.
    let data = [0x12, 0xFF, 0xFF, 0xFF, 0xFF, 0xFF, 0xFF, 0xFF, 0xFF, 0xFF, 0x01, 0x61];
    assert_eq!(decode_protobuf(&data), None);
}

#[test]
fn nested_message_is_decoded() {
    // field 3, length 3: { field 1 (varint): 150 }
    let data = [0x1A, 0x03, 0x08, 0x96, 0x01];
    let fields = decode_protobuf(&data).unwrap();
    assert_eq!(fields.len(), 1);
    assert_eq!(
        fields[0].value,
        ProtoValue::Nested(vec![ProtoField {
            field_number: 1,
            wire_type: WireType::Varint,
            value: ProtoValue::Varint(150),
        }])
    );
    assert_eq!(
        fields[0].to_display_string(),
        "field 3 (length-delimited): { field 1 (varint): 150 }"
    );
}

#[test]
fn empty_length_delimited_value_stays_bytes() {
    let fields = decode_protobuf(&[0x12, 0x00]).unwrap();
    assert_eq!(fields[0].value, ProtoValue::Bytes(vec![]));
}

#[test]
fn decoding_concatenated_messages_concatenates_fields() {
    let a = [0x08, 0x96, 0x01];
    let b = [0x12, 0x07, 0x74, 0x65, 0x73, 0x74, 0x69, 0x6e, 0x67];
    let mut ab = a.to_vec();
    ab.extend_from_slice(&b);
    let mut expected = decode_protobuf(&a).unwrap();
    expected.extend(decode_protobuf(&b).unwrap());
    assert_eq!(decode_protobuf(&ab), Some(expected));
    let mut bad = a.to_vec();
    bad.push(0x00);
    assert_eq!(decode_protobuf(&bad), None);
}

#[test]
fn decoded_fields_are_well_typed() {
    let data = [0x08, 0x01, 0x11, 1, 2, 3, 4, 5, 6, 7, 8, 0x1A, 0x01, 0x41, 0x25, 1, 2, 3, 4];
    let fields = decode_protobuf(&data).unwrap();
    assert_eq!(fields.len(), 4);
    for f in &fields {
        assert_ne!(f.field_number, 0);
        match (&f.wire_type, &f.value) {
            (WireType::Varint, ProtoValue::Varint(_)) => {}
            (WireType::Bit64, ProtoValue::Fixed64(_)) => {}
            (WireType::Bit32, ProtoValue::Fixed32(_)) => {}
            (WireType::LengthDelimited, ProtoValue::Bytes(_)) => {}
            (WireType::LengthDelimited, ProtoValue::Nested(inner)) => assert!(!inner.is_empty()),
            _ => panic!("value does not agree with the wire type"),
        }
    }
}

#[test]
fn values_render_as_documented() {
    assert_eq!(ProtoValue::Varint(42).to_display_string(), "42");
    assert_eq!(ProtoValue::Fixed32(0xAB).to_display_string(), "0x000000ab");
    assert_eq!(ProtoValue::Fixed64(1).to_display_string(), "0x0000000000000001");
    assert_eq!(
        ProtoValue::Bytes(b"hello world".to_vec()).to_display_string(),
        "\"hello world\""
    );
    assert_eq!(ProtoValue::Bytes(b"a\tb\n".to_vec()).to_display_string(), "\"a\tb\n\"");
    assert_eq!(ProtoValue::Bytes(vec![0x00, 0x41]).to_display_string(), "0x0041");
    assert_eq!(ProtoValue::Bytes(vec![0xFF, 0xFE]).to_display_string(), "0xfffe");
    assert_eq!(ProtoValue::Bytes(vec![]).to_display_string(), "\"\"");
    let field = ProtoField {
        field_number: 2,
        wire_type: WireType::LengthDelimited,
        value: ProtoValue::Bytes(b"hello world".to_vec()),
    };
    assert_eq!(field.to_display_string(), "field 2 (length-delimited): \"hello world\"");
    assert_eq!(WireType::Bit64.to_display_string(), "64-bit");
    assert_eq!(WireType::Bit32.to_display_string(), "32-bit");
    assert_eq!(WireType::StartGroup.to_display_string(), "start-group");
    assert_eq!(WireType::EndGroup.to_display_string(), "end-group");
}

#[test]
fn nested_fields_are_separated_by_commas() {
    let value = ProtoValue::Nested(vec![
        ProtoField { field_number: 1, wire_type: WireType::Varint, value: ProtoValue::Varint(1) },
        ProtoField { field_number: 2, wire_type: WireType::Varint, value: ProtoValue::Varint(2) },
    ]);
    assert_eq!(
        value.to_display_string(),
        "{ field 1 (varint): 1, field 2 (varint): 2 }"
    );
}

#[test]
fn wire_type_from_code() {
    assert_eq!(WireType::from(0), WireType::Varint);
    assert_eq!(WireType::from(1), WireType::Bit64);
    assert_eq!(WireType::from(2), WireType::LengthDelimited);
    assert_eq!(WireType::from(3), WireType::StartGroup);
    assert_eq!(WireType::from(4), WireType::EndGroup);
    assert_eq!(WireType::from(5), WireType::Bit32);
    assert_eq!(WireType::from(7), WireType::Unknown(7));
}

#[test]
fn frames_stop_at_a_cut_off_frame() {
    let mut data = vec![0x00, 0, 0, 0, 2, 0x08, 0x01];
    data.extend_from_slice(&[0x01, 0, 0, 0, 9, 0x00]);
    let frames = parse_grpc_frames(&data);
    assert_eq!(frames.len(), 1);
    assert_eq!(frames[0].payload, vec![0x08, 0x01]);
    assert!(parse_grpc_frames(&[0x00, 0x00, 0x00]).is_empty());
}

#[test]
fn compressed_frames_are_not_decoded() {
    let data = [0x01, 0, 0, 0, 3, 0x08, 0x96, 0x01];
    let frames = parse_grpc_frames(&data);
    assert_eq!(frames.len(), 1);
    assert!(frames[0].compressed);
    assert!(frames[0].decoded_fields.is_none());
    assert_eq!(
        frames[0].to_display_string(),
        "gRPC frame (compressed=true, 3 bytes)\n  <raw bytes: 3 bytes>"
    );
}

#[test]
fn written_frames_read_back() {
    let payloads: Vec<Vec<u8>> = vec![vec![0x08, 0x2A], vec![], vec![0xFF; 300]];
    let mut data = Vec::new();
    for p in &payloads {
        data.push(0x00);
        data.extend_from_slice(&(p.len() as u32).to_be_bytes());
        data.extend_from_slice(p);
    }
    let frames: Vec<GrpcFrame> = parse_grpc_frames(&data);
    assert_eq!(frames.len(), 3);
    for (f, p) in frames.iter().zip(&payloads) {
        assert!(!f.compressed);
        assert_eq!(&f.payload, p);
    }
    assert!(frames[2].decoded_fields.is_none());
}

#[test]
fn grpc_message_renders_frames() {
    let data = [0x00, 0, 0, 0, 3, 0x08, 0x96, 0x01, 0x00, 0, 0, 0, 0];
    assert_eq!(
        format_grpc_message(&data),
        "gRPC frame (compressed=false, 3 bytes)\n  field 1 (varint): 150\ngRPC frame (compressed=false, 0 bytes)"
    );
    assert_eq!(format_grpc_message(&[1, 2]), "  <no valid gRPC frames, 2 raw bytes>");
}

#[test]
fn hex_dump_rows_and_truncation() {
    let data: Vec<u8> = (0u8..20).collect();
    assert_eq!(
        hex_dump(&data, 18),
        "  0000: 00 01 02 03 04 05 06 07  08 09 0a 0b 0c 0d 0e 0f  |................|\n  0010: 10 11                                             |..|\n  ... (2 bytes truncated)"
    );
    assert_eq!(hex_dump(b"Hi", 16), "  0000: 48 69                                             |Hi|");
    assert_eq!(hex_dump(b"", 16), "");
}

#[test]
fn cloned_fields_are_equal() {
    let data = [0x1A, 0x05, 0x0A, 0x03, 0x08, 0x96, 0x01, 0x10, 0x07];
    let fields = decode_protobuf(&data).unwrap();
    let copy: Vec<ProtoField> = fields.iter().map(|f| f.clone()).collect();
    assert_eq!(copy, fields);
    assert_eq!(copy[0].value.clone(), fields[0].value);
}
