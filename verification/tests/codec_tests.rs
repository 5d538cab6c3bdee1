//! End-to-end tests of the byte codec, the schema guard, and the session
//! driver, on concrete values and streams.

use savefile::containers::{regular_serialize_vec, serialize_vec_u8_bulk, Removed};
use savefile::mapping::Mapping;
use savefile::de::Deserializer;
use savefile::diff::diff_schema;
use savefile::schema::{Field, Schema, SchemaEnum, SchemaPrimitive, SchemaStruct, Variant};
use savefile::ser::Serializer;
use savefile::traits::{Deserialize, Serialize, WithSchema};
use savefile::{load, load_noschema, save, save_noschema, SavefileError};

#[test]
fn save_u32_noschema_exact_bytes() {
    let mut out: Vec<u8> = Vec::new();
    save_noschema(&mut out, 1, &0x01020304u32).unwrap();
    assert_eq!(out, vec![0x01, 0x00, 0x00, 0x00, 0x04, 0x03, 0x02, 0x01]);
    let back: u32 = load_noschema(&out[..], 1).unwrap();
    assert_eq!(back, 0x01020304);
}

#[test]
fn save_string_noschema_exact_bytes() {
    let mut out: Vec<u8> = Vec::new();
    save_noschema(&mut out, 0, &String::from("h\u{e9}llo")).unwrap();
    let expected = vec![
        0x00, 0x00, 0x00, 0x00, // version
        0x06, 0x00, 0x00, 0x00, 0x00, 0x00, 0x00, 0x00, // byte length
        0x68, 0xc3, 0xa9, 0x6c, 0x6c, 0x6f, // UTF-8 bytes
    ];
    assert_eq!(out, expected);
    let back: String = load_noschema(&out[..], 0).unwrap();
    assert_eq!(back, "h\u{e9}llo");
}

#[test]
fn save_vec_u8_bulk_exact_bytes() {
    let data: Vec<u8> = vec![1, 2, 3];
    let mut bulk = Serializer::new(0);
    serialize_vec_u8_bulk(&data, &mut bulk).unwrap();
    let mut general = Serializer::new(0);
    regular_serialize_vec(&data, &mut general).unwrap();
    // The bulk path writes exactly the bytes the general path writes.
    assert_eq!(bulk.output, general.output);
    let mut out: Vec<u8> = Vec::new();
    save_noschema(&mut out, 0, &data).unwrap();
    let expected = vec![
        0x00, 0x00, 0x00, 0x00, // version
        0x03, 0x00, 0x00, 0x00, 0x00, 0x00, 0x00, 0x00, // element count
        0x01, 0x02, 0x03,
    ];
    assert_eq!(out, expected);
    let back: Vec<u8> = load_noschema(&out[..], 0).unwrap();
    assert_eq!(back, data);
}

#[test]
fn round_trip_primitives_with_schema() {
    let mut out: Vec<u8> = Vec::new();
    save(&mut out, 3, &0xdeadbeefu32).unwrap();
    let back: u32 = load(&out[..], 3).unwrap();
    assert_eq!(back, 0xdeadbeef);

    let mut out2: Vec<u8> = Vec::new();
    save(&mut out2, 0, &(-12345i64)).unwrap();
    let back2: i64 = load(&out2[..], 0).unwrap();
    assert_eq!(back2, -12345);

    let mut out3: Vec<u8> = Vec::new();
    save(&mut out3, 0, &String::from("nested strings survive")).unwrap();
    let back3: String = load(&out3[..], 0).unwrap();
    assert_eq!(back3, "nested strings survive");
}

#[test]
fn round_trip_nested_vectors_with_schema() {
    let value: Vec<Vec<u16>> = vec![vec![1, 2], vec![], vec![65535]];
    let mut out: Vec<u8> = Vec::new();
    save(&mut out, 7, &value).unwrap();
    let back: Vec<Vec<u16>> = load(&out[..], 7).unwrap();
    assert_eq!(back, value);
}

#[test]
fn round_trip_vec_of_strings() {
    let value: Vec<String> = vec![String::from("a"), String::from(""), String::from("zz")];
    let mut out: Vec<u8> = Vec::new();
    save(&mut out, 1, &value).unwrap();
    let back: Vec<String> = load(&out[..], 1).unwrap();
    assert_eq!(back, value);
}

#[test]
fn schema_is_pure() {
    // Two independent computations give structurally equal trees.
    assert_eq!(u32::schema(0), u32::schema(0));
    assert_eq!(<Vec<String>>::schema(5), <Vec<String>>::schema(5));
}

fn sample_struct_schema(second_field: Schema) -> Schema {
    Schema::Struct(SchemaStruct {
        dbg_name: String::from("Point"),
        fields: vec![
            Field {
                name: String::from("x"),
                value: Box::new(Schema::Primitive(SchemaPrimitive::schema_u32)),
            },
            Field { name: String::from("y"), value: Box::new(second_field) },
        ],
    })
}

#[test]
fn diff_is_reflexive_on_defined_schemas() {
    let a = sample_struct_schema(Schema::Primitive(SchemaPrimitive::schema_u32));
    let b = sample_struct_schema(Schema::Primitive(SchemaPrimitive::schema_u32));
    assert_eq!(diff_schema(&a, &b, String::from(".")), None);
}

#[test]
fn diff_reports_path_of_first_difference() {
    let a = sample_struct_schema(Schema::Primitive(SchemaPrimitive::schema_u32));
    let b = sample_struct_schema(Schema::Primitive(SchemaPrimitive::schema_u64));
    let msg = diff_schema(&a, &b, String::from(".")).unwrap();
    assert!(msg.contains("./y"), "message was: {}", msg);
    assert!(msg.contains("u32"), "message was: {}", msg);
    assert!(msg.contains("u64"), "message was: {}", msg);
}

#[test]
fn diff_reports_nested_vector_path() {
    let elem_a = sample_struct_schema(Schema::Primitive(SchemaPrimitive::schema_u32));
    let elem_b = sample_struct_schema(Schema::Primitive(SchemaPrimitive::schema_string));
    let a = Schema::Vector(Box::new(elem_a));
    let b = Schema::Vector(Box::new(elem_b));
    let msg = diff_schema(&a, &b, String::from(".")).unwrap();
    assert!(msg.contains("./*/y"), "message was: {}", msg);
}

#[test]
fn diff_rejects_undefined_on_either_side() {
    let a = Schema::Undefined;
    let b = Schema::Undefined;
    let msg = diff_schema(&a, &b, String::from(".")).unwrap();
    assert!(msg.contains("Undefined"), "message was: {}", msg);
}

#[test]
fn diff_reports_kind_mismatch() {
    let a = Schema::Primitive(SchemaPrimitive::schema_u32);
    let b = Schema::Vector(Box::new(Schema::Primitive(SchemaPrimitive::schema_u32)));
    let msg = diff_schema(&a, &b, String::from(".")).unwrap();
    assert!(msg.contains("primitive"), "message was: {}", msg);
    assert!(msg.contains("vector"), "message was: {}", msg);
}

#[test]
fn diff_reports_enum_discriminator_mismatch() {
    let a = Schema::Enum(SchemaEnum {
        variants: vec![Variant { name: String::from("On"), discriminator: 0, fields: vec![] }],
    });
    let b = Schema::Enum(SchemaEnum {
        variants: vec![Variant { name: String::from("On"), discriminator: 1, fields: vec![] }],
    });
    assert!(diff_schema(&a, &b, String::from(".")).is_some());
}

#[test]
fn incompatible_schema_on_load() {
    // Write a u64 with its schema, then try to read it back as a u32.
    let mut out: Vec<u8> = Vec::new();
    save(&mut out, 1, &7u64).unwrap();
    let res: Result<u32, SavefileError> = load(&out[..], 1);
    match res {
        Err(SavefileError::IncompatibleSchema { message }) => {
            assert!(message.contains("u32"), "message was: {}", message);
            assert!(message.contains("u64"), "message was: {}", message);
        },
        other => panic!("expected IncompatibleSchema, got {:?}", other),
    }
}

#[test]
fn newer_file_version_is_rejected() {
    let mut out: Vec<u8> = Vec::new();
    save(&mut out, 2, &1u32).unwrap();
    let res: Result<u32, SavefileError> = load(&out[..], 1);
    match res {
        Err(SavefileError::NewerFileVersion { file_version, memory_version }) => {
            assert_eq!(file_version, 2);
            assert_eq!(memory_version, 1);
        },
        other => panic!("expected NewerFileVersion, got {:?}", other),
    }
}

#[test]
fn corrupt_primitive_discriminator_is_fatal() {
    // version 0, schema tag 3 (primitive), then discriminator 99.
    let stream = vec![
        0x00, 0x00, 0x00, 0x00, // version
        0x03, 0x00, // schema tag: primitive
        0x63, 0x00, // discriminator 99
        0x2a, 0x00, 0x00, 0x00, // payload that is never reached
    ];
    let res: Result<u32, SavefileError> = load(&stream[..], 0);
    assert!(matches!(res, Err(SavefileError::CorruptStream { .. })), "got {:?}", res);
}

#[test]
fn corrupt_schema_tag_is_fatal() {
    let stream = vec![
        0x00, 0x00, 0x00, 0x00, // version
        0x09, 0x00, // schema tag 9: outside the closed set
    ];
    let res: Result<u32, SavefileError> = load(&stream[..], 0);
    assert!(matches!(res, Err(SavefileError::CorruptStream { .. })), "got {:?}", res);
}

#[test]
fn truncated_stream_is_an_io_error() {
    let res: Result<u32, SavefileError> = load(&[][..], 0);
    assert!(matches!(res, Err(SavefileError::IOError { .. })), "got {:?}", res);
    let res2: Result<u32, SavefileError> = load_noschema(&[0x00, 0x00, 0x00, 0x00, 0x01][..], 0);
    assert!(matches!(res2, Err(SavefileError::IOError { .. })), "got {:?}", res2);
}

#[test]
fn invalid_utf8_is_reported() {
    let stream = vec![
        0x00, 0x00, 0x00, 0x00, // version
        0x02, 0x00, 0x00, 0x00, 0x00, 0x00, 0x00, 0x00, // byte length 2
        0xff, 0xfe, // not valid UTF-8
    ];
    let res: Result<String, SavefileError> = load_noschema(&stream[..], 0);
    assert!(matches!(res, Err(SavefileError::InvalidUtf8 { .. })), "got {:?}", res);
}

#[test]
fn removed_field_refuses_to_serialize() {
    let mut out: Vec<u8> = Vec::new();
    let res = save_noschema(&mut out, 1, &Removed::<u32>::new());
    assert!(matches!(res, Err(SavefileError::RemovedFieldWritten)), "got {:?}", res);
}

#[test]
fn removed_field_discards_exactly_its_value() {
    // A u32 on the wire is consumed by a removed-field placeholder, and the
    // bytes after it are left for the next read.
    let mut out: Vec<u8> = Vec::new();
    save_noschema(&mut out, 0, &0xaabbccddu32).unwrap();
    out.push(0x5a); // one trailing byte the placeholder must not touch
    let mut d = Deserializer::new_raw(&out[4..]);
    let placeholder: Removed<u32> = Deserialize::deserialize(&mut d).unwrap();
    assert_eq!(placeholder, Removed::<u32>::new());
    assert_eq!(d.input, &[0x5a]);
}

#[test]
fn schema_round_trips_through_its_own_codec() {
    let schema = Schema::Vector(Box::new(sample_struct_schema(Schema::Enum(SchemaEnum {
        variants: vec![
            Variant {
                name: String::from("Off"),
                discriminator: 0,
                fields: vec![],
            },
            Variant {
                name: String::from("On"),
                discriminator: 1,
                fields: vec![Field {
                    name: String::from("level"),
                    value: Box::new(Schema::Primitive(SchemaPrimitive::schema_u8)),
                }],
            },
        ],
    }))));
    let mut ser = Serializer::new_raw();
    schema.serialize(&mut ser).unwrap();
    let bytes = ser.into_bytes();
    let mut d = Deserializer::new_raw(&bytes[..]);
    let back: Schema = Deserialize::deserialize(&mut d).unwrap();
    assert_eq!(back, schema);
    assert_eq!(d.input.len(), 0);
}

#[test]
fn writer_primitives_use_little_endian() {
    let mut s = Serializer::new(0);
    s.write_u16(0x0102).unwrap();
    s.write_i32(-2).unwrap();
    s.write_usize(5).unwrap();
    let bytes = s.into_bytes();
    assert_eq!(
        bytes,
        vec![
            0x02, 0x01, // u16
            0xfe, 0xff, 0xff, 0xff, // i32 -2
            0x05, 0x00, 0x00, 0x00, 0x00, 0x00, 0x00, 0x00, // usize as u64
        ]
    );
    let mut d = Deserializer::new_raw(&bytes[..]);
    assert_eq!(d.read_u16().unwrap(), 0x0102);
    assert_eq!(d.read_i32().unwrap(), -2);
    assert_eq!(d.read_usize().unwrap(), 5);
}

#[test]
fn signed_extremes_round_trip() {
    let mut out: Vec<u8> = Vec::new();
    save_noschema(&mut out, 0, &i8::MIN).unwrap();
    assert_eq!(load_noschema::<i8>(&out[..], 0).unwrap(), i8::MIN);
    let mut out2: Vec<u8> = Vec::new();
    save_noschema(&mut out2, 0, &isize::MIN).unwrap();
    assert_eq!(load_noschema::<isize>(&out2[..], 0).unwrap(), isize::MIN);
    let mut out3: Vec<u8> = Vec::new();
    save_noschema(&mut out3, 0, &u64::MAX).unwrap();
    assert_eq!(load_noschema::<u64>(&out3[..], 0).unwrap(), u64::MAX);
}

#[test]
fn save_mapping_exact_shape() {
    let mut m: Mapping<String, u32> = Mapping::new();
    m.insert(String::from("a"), 1);
    m.insert(String::from("b"), 2);
    let mut out: Vec<u8> = Vec::new();
    save(&mut out, 0, &m).unwrap();
    // The stream is the version, the schema header, then the pair count and
    // the two {string, u32} pairs.
    let schema = <Mapping<String, u32>>::schema(0);
    let mut ser = Serializer::new_raw();
    schema.serialize(&mut ser).unwrap();
    let slen = ser.into_bytes().len();
    assert_eq!(
        &out[4 + slen..4 + slen + 8],
        &[0x02, 0x00, 0x00, 0x00, 0x00, 0x00, 0x00, 0x00]
    );
    let pair_bytes = 2 * (8 + 1 + 4); // each pair: string length + byte + u32
    assert_eq!(out.len(), 4 + slen + 8 + pair_bytes);
    let back: Mapping<String, u32> = load(&out[..], 0).unwrap();
    assert_eq!(back.len(), 2);
    assert_eq!(back.get(&String::from("a")), Some(&1));
    assert_eq!(back.get(&String::from("b")), Some(&2));
    assert_eq!(back.get(&String::from("c")), None);
}

#[test]
fn mapping_insert_overwrites() {
    let mut m: Mapping<u32, String> = Mapping::new();
    m.insert(7, String::from("first"));
    m.insert(7, String::from("second"));
    assert_eq!(m.len(), 1);
    assert_eq!(m.get(&7), Some(&String::from("second")));
}

#[test]
fn mapping_round_trips_integer_keys() {
    let mut m: Mapping<u32, String> = Mapping::new();
    m.insert(1, String::from("one"));
    m.insert(2, String::from("two"));
    let mut out: Vec<u8> = Vec::new();
    save(&mut out, 3, &m).unwrap();
    let back: Mapping<u32, String> = load(&out[..], 3).unwrap();
    assert_eq!(back.len(), 2);
    assert_eq!(back.get(&1), Some(&String::from("one")));
    assert_eq!(back.get(&2), Some(&String::from("two")));
}

#[test]
fn mapping_duplicate_wire_keys_last_wins() {
    // count 2, then ("a", 1) and ("a", 2): the later pair overwrites.
    let mut stream: Vec<u8> = Vec::new();
    stream.extend_from_slice(&[0x00, 0x00, 0x00, 0x00]); // version
    stream.extend_from_slice(&[0x02, 0x00, 0x00, 0x00, 0x00, 0x00, 0x00, 0x00]);
    stream.extend_from_slice(&[0x01, 0x00, 0x00, 0x00, 0x00, 0x00, 0x00, 0x00, 0x61]);
    stream.extend_from_slice(&[0x01, 0x00, 0x00, 0x00]);
    stream.extend_from_slice(&[0x01, 0x00, 0x00, 0x00, 0x00, 0x00, 0x00, 0x00, 0x61]);
    stream.extend_from_slice(&[0x02, 0x00, 0x00, 0x00]);
    let back: Mapping<String, u32> = load_noschema(&stream[..], 0).unwrap();
    assert_eq!(back.len(), 1);
    assert_eq!(back.get(&String::from("a")), Some(&2));
}
