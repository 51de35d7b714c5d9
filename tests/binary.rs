use alice::binary_reader::{decode_tokens, BinaryReader};
use alice::binary_writer::BinaryWriter;
use alice::value::{tag, Error, Token, Value};
use alice::reader::TokenReader;
use alice::writer::Writer;

fn b(x: f64) -> u64 {
    x.to_bits()
}

fn written(values: Vec<Value<u64>>) -> Vec<u8> {
    let mut writer = BinaryWriter::new(Vec::new());
    for v in values.iter() {
        writer.write_value(v);
    }
    writer.into_inner()
}

fn read_all(bytes: Vec<u8>) -> Vec<Result<Token<u64>, Error>> {
    let mut reader = BinaryReader::new(bytes);
    let mut out = Vec::new();
    loop {
        let t = reader.read_next();
        let done = matches!(t, Ok(Token::EndOfFile) | Err(_));
        out.push(t);
        if done {
            return out;
        }
    }
}

#[test]
fn tag_macro() {
    assert_eq!(tag(b'S', b'H', b'A', b'P'), 1397244240u32);
    assert_eq!(tag(b'P', b'A', b'T', b'H'), 1346458696u32);
}

#[test]
fn binary_writer_write_simple() {
    let mut writer = BinaryWriter::new(Vec::new());
    writer.write_start();
    writer.write_end();
    assert_eq!(writer.into_inner(), vec![0xfe, 0xef]);
}

fn simple_values() -> Vec<Value<u64>> {
    vec![
        Value::Bool(false),
        Value::Bool(true),
        Value::Int(0),
        Value::Int(6),
        Value::Int(128),
        Value::Int(1000),
        Value::Int(-310138),
        Value::Double(b(67245.375)),
        Value::Vec2((b(67245.375), b(3464.85))),
        Value::Vec3((b(67245.375), b(3464.85), b(-8769.4565))),
        Value::Vec4((b(67245.375), b(3464.85), b(-8769.4565), b(-1882.52))),
        Value::Box2(((b(67245.375), b(3464.85)), (b(-8769.4565), b(-1882.52)))),
        Value::Tag(tag(b'S', b'H', b'A', b'P')),
    ]
}

fn simple_bytes() -> Vec<u8> {
    vec![
        0x00, 0x00, 0x00, 0x01, 0x01, 0x00, 0x01, 0x0c, 0x01, 0x80, 0x02, 0x01, 0xd0, 0x0f, 0x01,
        0xf3, 0xed, 0x25, 0x02, 0x00, 0x00, 0x00, 0x00, 0xd6, 0x6a, 0xf0, 0x40, 0x03, 0x00, 0x00,
        0x00, 0x00, 0xd6, 0x6a, 0xf0, 0x40, 0x33, 0x33, 0x33, 0x33, 0xb3, 0x11, 0xab, 0x40, 0x04,
        0x00, 0x00, 0x00, 0x00, 0xd6, 0x6a, 0xf0, 0x40, 0x33, 0x33, 0x33, 0x33, 0xb3, 0x11, 0xab,
        0x40, 0x50, 0x8d, 0x97, 0x6e, 0xba, 0x20, 0xc1, 0xc0, 0x05, 0x00, 0x00, 0x00, 0x00, 0xd6,
        0x6a, 0xf0, 0x40, 0x33, 0x33, 0x33, 0x33, 0xb3, 0x11, 0xab, 0x40, 0x50, 0x8d, 0x97, 0x6e,
        0xba, 0x20, 0xc1, 0xc0, 0xae, 0x47, 0xe1, 0x7a, 0x14, 0x6a, 0x9d, 0xc0, 0x06, 0x00, 0x00,
        0x00, 0x00, 0xd6, 0x6a, 0xf0, 0x40, 0x33, 0x33, 0x33, 0x33, 0xb3, 0x11, 0xab, 0x40, 0x50,
        0x8d, 0x97, 0x6e, 0xba, 0x20, 0xc1, 0xc0, 0xae, 0x47, 0xe1, 0x7a, 0x14, 0x6a, 0x9d, 0xc0,
        0xee, 0x53, 0x48, 0x41, 0x50,
    ]
}

#[test]
fn binary_writer_write_simple_values() {
    assert_eq!(written(simple_values()), simple_bytes());
}

#[test]
fn binary_reader_read_simple() {
    let got = read_all(vec![0xfe, 0xef]);
    assert_eq!(got, vec![Ok(Token::Start), Ok(Token::End), Ok(Token::EndOfFile)]);
}

#[test]
fn binary_reader_read_simple_values() {
    let got = read_all(simple_bytes());
    let mut expected: Vec<Result<Token<u64>, Error>> =
        simple_values().into_iter().map(|v| Ok(Token::Value(v))).collect();
    expected.push(Ok(Token::EndOfFile));
    assert_eq!(got, expected);
}

fn setup(bytes: Vec<u8>) -> TokenReader {
    TokenReader::new(decode_tokens(bytes).unwrap())
}

const LOREM: &str = "Lorem ipsum dolor sit amet, consectetur adipiscing elit, sed do eiusmod tempor incididunt ut labore et dolore magna aliqua. Ut enim ad minim veniam";

#[test]
fn binary_writer_write_string() {
    let bytes = written(vec![
        Value::String("".to_string()),
        Value::String("Hello".to_string()),
        Value::String("Héllø".to_string()),
        Value::String(LOREM.to_string()),
    ]);
    let mut expected = vec![0x07, 0x00, 0x07, 0x05, 0x48, 0x65, 0x6c, 0x6c, 0x6f, 0x07, 0x07];
    expected.extend_from_slice(&[0x48, 0xc3, 0xa9, 0x6c, 0x6c, 0xc3, 0xb8, 0x07, 0x93, 0x01]);
    expected.extend_from_slice(LOREM.as_bytes());
    assert_eq!(bytes, expected);
}

#[test]
fn binary_writer_write_blob() {
    let bytes = written(vec![
        Value::Blob(vec![]),
        Value::Blob(vec![0x48, 0x65, 0x6c, 0x6c, 0x6f]),
        Value::Blob(vec![0x48, 0xc3, 0xa9, 0x6c, 0x6c, 0xc3, 0xb8]),
        Value::Blob(LOREM.as_bytes().to_vec()),
    ]);
    let mut expected = vec![0x08, 0x00, 0x08, 0x05, 0x48, 0x65, 0x6c, 0x6c, 0x6f, 0x08, 0x07];
    expected.extend_from_slice(&[0x48, 0xc3, 0xa9, 0x6c, 0x6c, 0xc3, 0xb8, 0x08, 0x93, 0x01]);
    expected.extend_from_slice(LOREM.as_bytes());
    assert_eq!(bytes, expected);
}

#[test]
fn binary_reader_read_string() {
    let mut bytes = vec![0x07, 0x00, 0x07, 0x05, 0x48, 0x65, 0x6c, 0x6c, 0x6f, 0x07, 0x07];
    bytes.extend_from_slice(&[0x48, 0xc3, 0xa9, 0x6c, 0x6c, 0xc3, 0xb8, 0x07, 0x93, 0x01]);
    bytes.extend_from_slice(LOREM.as_bytes());
    let got = read_all(bytes);
    assert_eq!(
        got,
        vec![
            Ok(Token::Value(Value::String("".to_string()))),
            Ok(Token::Value(Value::String("Hello".to_string()))),
            Ok(Token::Value(Value::String("Héllø".to_string()))),
            Ok(Token::Value(Value::String(LOREM.to_string()))),
            Ok(Token::EndOfFile),
        ]
    );
}

#[test]
fn binary_reader_read_blob() {
    let mut bytes = vec![0x08, 0x00, 0x08, 0x05, 0x48, 0x65, 0x6c, 0x6c, 0x6f, 0x08, 0x07];
    bytes.extend_from_slice(&[0x48, 0xc3, 0xa9, 0x6c, 0x6c, 0xc3, 0xb8, 0x08, 0x93, 0x01]);
    bytes.extend_from_slice(LOREM.as_bytes());
    let got = read_all(bytes);
    assert_eq!(
        got,
        vec![
            Ok(Token::Value(Value::Blob(vec![]))),
            Ok(Token::Value(Value::Blob(vec![0x48, 0x65, 0x6c, 0x6c, 0x6f]))),
            Ok(Token::Value(Value::Blob(vec![0x48, 0xc3, 0xa9, 0x6c, 0x6c, 0xc3, 0xb8]))),
            Ok(Token::Value(Value::Blob(LOREM.as_bytes().to_vec()))),
            Ok(Token::EndOfFile),
        ]
    );
}

fn array_values() -> Vec<Value<u64>> {
    vec![
        Value::BoolArray(vec![]),
        Value::BoolArray(vec![true, false, true]),
        Value::IntArray(vec![]),
        Value::IntArray(vec![6, 128, 1000]),
        Value::DoubleArray(vec![]),
        Value::DoubleArray(vec![b(67245.375), b(3464.85), b(-8769.4565)]),
        Value::Vec2Array(vec![]),
        Value::Vec2Array(vec![(b(67245.375), b(3464.85)), (b(-8769.4565), b(-1882.52))]),
        Value::Vec3Array(vec![]),
        Value::Vec3Array(vec![
            (b(67245.375), b(3464.85), b(-8769.4565)),
            (b(-1882.52), b(67245.375), b(3464.85)),
        ]),
        Value::Vec4Array(vec![]),
        Value::Vec4Array(vec![
            (b(67245.375), b(3464.85), b(-8769.4565), b(-1882.52)),
            (b(-1882.52), b(-8769.4565), b(3464.85), b(67245.375)),
        ]),
        Value::Box2Array(vec![]),
        Value::Box2Array(vec![
            ((b(67245.375), b(3464.85)), (b(-8769.4565), b(-1882.52))),
            ((b(-1882.52), b(-8769.4565)), (b(3464.85), b(67245.375))),
        ]),
    ]
}

const DA: [u8; 8] = [0x00, 0x00, 0x00, 0x00, 0xd6, 0x6a, 0xf0, 0x40];
const DB: [u8; 8] = [0x33, 0x33, 0x33, 0x33, 0xb3, 0x11, 0xab, 0x40];
const DC: [u8; 8] = [0x50, 0x8d, 0x97, 0x6e, 0xba, 0x20, 0xc1, 0xc0];
const DD: [u8; 8] = [0xae, 0x47, 0xe1, 0x7a, 0x14, 0x6a, 0x9d, 0xc0];

#[test]
fn binary_writer_write_arrays() {
    let mut expected: Vec<u8> = vec![0x80, 0x00, 0x80, 0x03, 0x01, 0x00, 0x01];
    expected.extend_from_slice(&[0x81, 0x00, 0x81, 0x03, 0x0c, 0x80, 0x02, 0xd0, 0x0f]);
    expected.extend_from_slice(&[0x82, 0x00, 0x82, 0x03]);
    for d in [DA, DB, DC] {
        expected.extend_from_slice(&d);
    }
    expected.extend_from_slice(&[0x83, 0x00, 0x83, 0x02]);
    for d in [DA, DB, DC, DD] {
        expected.extend_from_slice(&d);
    }
    expected.extend_from_slice(&[0x84, 0x00, 0x84, 0x02]);
    for d in [DA, DB, DC, DD, DA, DB] {
        expected.extend_from_slice(&d);
    }
    expected.extend_from_slice(&[0x85, 0x00, 0x85, 0x02]);
    for d in [DA, DB, DC, DD, DD, DC, DB, DA] {
        expected.extend_from_slice(&d);
    }
    expected.extend_from_slice(&[0x86, 0x00, 0x86, 0x02]);
    for d in [DA, DB, DC, DD, DD, DC, DB, DA] {
        expected.extend_from_slice(&d);
    }
    assert_eq!(written(array_values()), expected);
}

#[test]
fn binary_reader_read_arrays() {
    let got = read_all(written(array_values()));
    let mut expected: Vec<Result<Token<u64>, Error>> =
        array_values().into_iter().map(|v| Ok(Token::Value(v))).collect();
    expected.push(Ok(Token::EndOfFile));
    assert_eq!(got, expected);
}

#[test]
fn empty_arrays_round_trip() {
    let empties: Vec<Value<u64>> = vec![
        Value::BoolArray(vec![]),
        Value::IntArray(vec![]),
        Value::DoubleArray(vec![]),
        Value::Vec2Array(vec![]),
        Value::Vec3Array(vec![]),
        Value::Vec4Array(vec![]),
        Value::Box2Array(vec![]),
    ];
    let bytes = written(empties);
    assert_eq!(
        bytes,
        vec![0x80, 0x00, 0x81, 0x00, 0x82, 0x00, 0x83, 0x00, 0x84, 0x00, 0x85, 0x00, 0x86, 0x00]
    );
    let mut reader = setup(bytes);
    assert_eq!(reader.expect_bool_array().unwrap(), Vec::<bool>::new());
    assert_eq!(reader.expect_int_array().unwrap(), Vec::<i32>::new());
    assert_eq!(reader.expect_double_array().unwrap(), Vec::<u64>::new());
    assert_eq!(reader.expect_vec2_array().unwrap(), Vec::<(u64, u64)>::new());
    assert_eq!(reader.expect_vec3_array().unwrap(), Vec::<(u64, u64, u64)>::new());
    assert_eq!(reader.expect_vec4_array().unwrap(), Vec::<(u64, u64, u64, u64)>::new());
    assert_eq!(reader.expect_box2_array().unwrap().len(), 0);
}

#[test]
fn every_kind_round_trips() {
    let mut values = simple_values();
    values.extend(array_values());
    values.push(Value::String("Héllø \"quoted\"".to_string()));
    values.push(Value::Blob(vec![0, 255, 34]));
    values.push(Value::Int(i32::MIN));
    values.push(Value::Int(i32::MAX));
    let got = read_all(written(values));
    let mut expected: Vec<Result<Token<u64>, Error>> = simple_values()
        .into_iter()
        .chain(array_values())
        .chain(vec![
            Value::String("Héllø \"quoted\"".to_string()),
            Value::Blob(vec![0, 255, 34]),
            Value::Int(i32::MIN),
            Value::Int(i32::MAX),
        ])
        .map(|v| Ok(Token::Value(v)))
        .collect();
    expected.push(Ok(Token::EndOfFile));
    assert_eq!(got, expected);
}

#[test]
fn int_scenario_bytes() {
    assert_eq!(written(vec![Value::Int(1000)]), vec![0x01, 0xd0, 0x0f]);
    assert_eq!(read_all(vec![0x01, 0xd0, 0x0f])[0], Ok(Token::Value(Value::Int(1000))));
    assert_eq!(written(vec![Value::Int(-310138)]), vec![0x01, 0xf3, 0xed, 0x25]);
}

#[test]
fn vec2_scenario_bytes() {
    let bytes = written(vec![Value::Vec2((b(67245.375), b(3464.85)))]);
    assert_eq!(
        bytes,
        vec![
            0x03, 0x00, 0x00, 0x00, 0x00, 0xd6, 0x6a, 0xf0, 0x40, 0x33, 0x33, 0x33, 0x33, 0xb3,
            0x11, 0xab, 0x40
        ]
    );
}

#[test]
fn tag_scenario_bytes() {
    let shap = tag(b'S', b'H', b'A', b'P');
    let bytes = written(vec![Value::Tag(shap)]);
    assert_eq!(bytes, vec![0xee, 0x53, 0x48, 0x41, 0x50]);
    assert_eq!(read_all(bytes)[0], Ok(Token::Value(Value::Tag(shap))));
}

#[test]
fn varint_longer_than_ten_bytes_is_rejected() {
    let mut bytes = vec![0x01];
    bytes.extend_from_slice(&[0x80; 10]);
    bytes.push(0x00);
    assert_eq!(read_all(bytes)[0], Err(Error::InvalidToken));
    let mut bytes = vec![0x07];
    bytes.extend_from_slice(&[0x80; 9]);
    bytes.push(0x00);
    assert_eq!(read_all(bytes)[0], Ok(Token::Value(Value::String(String::new()))));
}

#[test]
fn int_outside_range_is_rejected() {
    // zig-zag of 2^31 is 2^32: one past the largest i32
    assert_eq!(read_all(vec![0x01, 0x80, 0x80, 0x80, 0x80, 0x10])[0], Err(Error::Range));
    // zig-zag of -2^31 - 1 is 2^32 + 1
    assert_eq!(read_all(vec![0x01, 0x81, 0x80, 0x80, 0x80, 0x10])[0], Err(Error::Range));
    // the largest 10-byte varint does not fit in 64 bits either
    let mut bytes = vec![0x01];
    bytes.extend_from_slice(&[0xff; 9]);
    bytes.push(0x7f);
    assert_eq!(read_all(bytes)[0], Err(Error::Range));
    assert_eq!(
        read_all(vec![0x01, 0xfe, 0xff, 0xff, 0xff, 0x0f])[0],
        Ok(Token::Value(Value::Int(i32::MAX)))
    );
    assert_eq!(
        read_all(vec![0x01, 0xff, 0xff, 0xff, 0xff, 0x0f])[0],
        Ok(Token::Value(Value::Int(i32::MIN)))
    );
}

#[test]
fn decoding_errors() {
    assert_eq!(read_all(vec![0x09])[0], Err(Error::InvalidToken));
    assert_eq!(read_all(vec![0x02, 0x00, 0x00])[0], Err(Error::UnexpectedEndOfFile));
    assert_eq!(read_all(vec![0x07, 0x02, 0xc3, 0x28])[0], Err(Error::Range));
    assert_eq!(read_all(vec![0x08, 0x05, 0x01])[0], Err(Error::UnexpectedEndOfFile));
    assert_eq!(read_all(vec![0x81, 0x02, 0x02])[0], Err(Error::UnexpectedEndOfFile));
    assert_eq!(decode_tokens(vec![0xfe, 0x09]), Err(Error::InvalidToken));
}

#[test]
fn empty_group_round_trips() {
    let mut writer = BinaryWriter::new(Vec::new());
    writer.write_start();
    writer.write_end();
    assert_eq!(decode_tokens(writer.into_inner()), Ok(vec![Token::Start, Token::End]));
}

#[test]
fn skip_to_end() {
    let mut reader = setup(vec![]);
    reader.skip_to_end().unwrap();
    assert_eq!(reader.read_next(), Token::EndOfFile);

    let mut reader = setup(vec![0xfe, 0xef]);
    reader.skip_to_end().unwrap();
    assert_eq!(reader.read_next(), Token::EndOfFile);

    let mut reader = setup(vec![0xef, 0xef]);
    reader.skip_to_end().unwrap();
    assert_eq!(reader.read_next(), Token::End);
    assert_eq!(reader.read_next(), Token::EndOfFile);

    let mut reader = setup(vec![0xfe, 0xef, 0xef]);
    reader.skip_to_end().unwrap();
    assert_eq!(reader.read_next(), Token::EndOfFile);

    let mut reader = setup(vec![0xfe, 0xef, 0xef, 0xef]);
    reader.skip_to_end().unwrap();
    assert_eq!(reader.read_next(), Token::End);
    assert_eq!(reader.read_next(), Token::EndOfFile);

    let mut reader = setup(vec![0xfe]);
    assert_eq!(reader.skip_to_end(), Err(Error::UnexpectedEndOfFile));

    let mut bytes = vec![0x00, 0x01, 0x01, 0xf3, 0xed, 0x25, 0xee, 0x53, 0x48, 0x41, 0x50];
    bytes.extend_from_slice(&[0x07, 0x05, 0x48, 0x65, 0x6c, 0x6c, 0x6f]);
    bytes.extend_from_slice(&[0x81, 0x03, 0x0c, 0x80, 0x02, 0xd0, 0x0f, 0xef, 0xef]);
    let mut reader = setup(bytes);
    reader.skip_to_end().unwrap();
    assert_eq!(reader.read_next(), Token::End);
    assert_eq!(reader.read_next(), Token::EndOfFile);
}

#[test]
fn skip_then_next_token_follows_group() {
    // inside a group: a value, a nested group, then the closing End, then a tag
    let mut writer = BinaryWriter::new(Vec::new());
    writer.write_value(&Value::Int(1));
    writer.write_start();
    writer.write_value(&Value::Bool(true));
    writer.write_end();
    writer.write_end();
    writer.write_value(&Value::Tag(7));
    let mut reader = setup(writer.into_inner());
    reader.skip_to_end().unwrap();
    assert_eq!(reader.read_next(), Token::Value(Value::Tag(7)));
}

#[test]
fn expect_start() {
    assert!(setup(vec![0xfe]).expect_start().is_ok());
    assert_eq!(setup(vec![0xef]).expect_start(), Err(Error::UnexpectedToken));
    assert_eq!(setup(vec![0x01, 0x01]).expect_start(), Err(Error::UnexpectedToken));
}

#[test]
fn expect_start_or_end() {
    assert_eq!(setup(vec![0xfe]).expect_start_or_end(), Ok(true));
    assert_eq!(setup(vec![0xef]).expect_start_or_end(), Ok(false));
    assert_eq!(setup(vec![]).expect_start_or_end(), Ok(false));
    assert!(setup(vec![0x01, 0x01]).expect_start_or_end().is_err());
}

#[test]
fn expect_simple_values() {
    let mut reader = setup(written(simple_values()));
    assert_eq!(reader.expect_bool().unwrap(), false);
    assert_eq!(reader.expect_bool().unwrap(), true);
    for v in [0, 6, 128, 1000, -310138] {
        assert_eq!(reader.expect_int().unwrap(), v);
    }
    assert_eq!(reader.expect_double().unwrap(), b(67245.375));
    assert_eq!(reader.expect_vec2().unwrap(), (b(67245.375), b(3464.85)));
    assert_eq!(reader.expect_vec3().unwrap(), (b(67245.375), b(3464.85), b(-8769.4565)));
    assert_eq!(
        reader.expect_vec4().unwrap(),
        (b(67245.375), b(3464.85), b(-8769.4565), b(-1882.52))
    );
    assert_eq!(
        reader.expect_box2().unwrap(),
        ((b(67245.375), b(3464.85)), (b(-8769.4565), b(-1882.52)))
    );
    assert_eq!(reader.expect_tag().unwrap(), tag(b'S', b'H', b'A', b'P'));
}

#[test]
fn expect_simple_values_fail() {
    assert!(setup(vec![0xfe]).expect_bool().is_err());
    assert!(setup(vec![0xfe]).expect_int().is_err());
    assert!(setup(vec![0xfe]).expect_double().is_err());
    assert!(setup(vec![0xfe]).expect_vec2().is_err());
    assert!(setup(vec![0xfe]).expect_vec3().is_err());
    assert!(setup(vec![0xfe]).expect_vec4().is_err());
    assert!(setup(vec![0xfe]).expect_box2().is_err());
    assert!(setup(vec![0xfe]).expect_tag().is_err());
}

#[test]
fn expect_arrays() {
    let mut reader =
        setup(vec![0x80, 0x00, 0x81, 0x00, 0x82, 0x00, 0x83, 0x00, 0x84, 0x00, 0x85, 0x00, 0x86, 0x00]);
    assert!(reader.expect_bool_array().unwrap().is_empty());
    assert!(reader.expect_int_array().unwrap().is_empty());
    assert!(reader.expect_double_array().unwrap().is_empty());
    assert!(reader.expect_vec2_array().unwrap().is_empty());
    assert!(reader.expect_vec3_array().unwrap().is_empty());
    assert!(reader.expect_vec4_array().unwrap().is_empty());
    assert!(reader.expect_box2_array().unwrap().is_empty());
}

#[test]
fn expect_arrays_fail() {
    assert!(setup(vec![0xfe]).expect_bool_array().is_err());
    assert!(setup(vec![0xfe]).expect_int_array().is_err());
    assert!(setup(vec![0xfe]).expect_double_array().is_err());
    assert!(setup(vec![0xfe]).expect_vec2_array().is_err());
    assert!(setup(vec![0xfe]).expect_vec3_array().is_err());
    assert!(setup(vec![0xfe]).expect_vec4_array().is_err());
    assert!(setup(vec![0xfe]).expect_box2_array().is_err());
}

#[test]
fn expect_string() {
    let mut reader = setup(vec![0x07, 0x05, 0x48, 0x65, 0x6c, 0x6c, 0x6f, 0xfe]);
    assert_eq!(reader.expect_string().unwrap(), "Hello".to_string());
    assert!(reader.expect_string().is_err());
}

#[test]
fn expect_blob() {
    let mut reader = setup(vec![0x08, 0x05, 0x48, 0x65, 0x6c, 0x6c, 0x6f, 0xfe]);
    assert_eq!(reader.expect_blob().unwrap(), vec![0x48, 0x65, 0x6c, 0x6c, 0x6f]);
    assert!(reader.expect_blob().is_err());
}

#[test]
fn expect_or_end_variants() {
    let mut reader = setup(vec![0x01, 0x02, 0xef, 0xef]);
    assert_eq!(reader.expect_int_or_end(), Ok(Some(1)));
    assert_eq!(reader.expect_tag_or_end(), Ok(None));
    assert_eq!(reader.expect_vec2_or_end(), Ok(None));
    assert_eq!(reader.expect_string_or_end(), Err(Error::UnexpectedToken));
}
