use alice::text_reader::TextReader;
use alice::text_writer::TextWriter;
use alice::value::{tag, Error, Token, Value};

fn d(s: &str) -> Vec<u8> {
    s.as_bytes().to_vec()
}

fn read_all(text: &str) -> Vec<Result<Token<Vec<u8>>, Error>> {
    let mut reader = TextReader::new(text.as_bytes().to_vec());
    let mut out = Vec::new();
    loop {
        let t = reader.read_next();
        let done = matches!(t, Ok(Token::EndOfFile) | Err(_));
        out.push(t);
        if done {
            return out;
        }
    }
}

fn write_tokens(tokens: &[Token<Vec<u8>>]) -> String {
    let mut writer = TextWriter::new(Vec::new());
    for t in tokens {
        match t {
            Token::Start => writer.write_start(),
            Token::End => writer.write_end(),
            Token::Value(v) => writer.write_value(v),
            Token::EndOfFile => {},
        }
    }
    String::from_utf8(writer.into_inner()).unwrap()
}

fn written(values: Vec<Value<Vec<u8>>>) -> String {
    let tokens: Vec<Token<Vec<u8>>> = values.into_iter().map(Token::Value).collect();
    write_tokens(&tokens)
}

fn values_of(text: &str) -> Vec<Value<Vec<u8>>> {
    read_all(text)
        .into_iter()
        .filter_map(|t| match t.unwrap() {
            Token::Value(v) => Some(v),
            _ => None,
        })
        .collect()
}

const LOREM: &str = "Lorem ipsum dolor sit amet, consectetur adipiscing elit, sed do eiusmod tempor incididunt ut labore et dolore magna aliqua. Ut enim ad minim veniam";

#[test]
fn text_writer_write_simple() {
    let mut writer = TextWriter::new(Vec::new());
    writer.write_start();
    writer.write_end();
    assert_eq!(String::from_utf8(writer.into_inner()).unwrap(), "()");
}

fn simple_values() -> Vec<Value<Vec<u8>>> {
    vec![
        Value::Bool(false),
        Value::Bool(true),
        Value::Int(0),
        Value::Int(6),
        Value::Int(128),
        Value::Int(1000),
        Value::Int(-310138),
        Value::Double(d("0.0")),
        Value::Double(d("67245.375")),
        Value::Vec2((d("0.0"), d("1.0"))),
        Value::Vec2((d("67245.375"), d("3464.85"))),
        Value::Vec3((d("0.0"), d("1.0"), d("2.0"))),
        Value::Vec3((d("67245.375"), d("3464.85"), d("-8769.4565"))),
        Value::Vec4((d("0.0"), d("1.0"), d("2.0"), d("3.0"))),
        Value::Vec4((d("67245.375"), d("3464.85"), d("-8769.4565"), d("-1882.52"))),
        Value::Box2(((d("0.0"), d("1.0")), (d("2.0"), d("3.0")))),
        Value::Box2(((d("67245.375"), d("3464.85")), (d("-8769.4565"), d("-1882.52")))),
        Value::Tag(tag(b'S', b'H', b'A', b'P')),
    ]
}

const SIMPLE_TEXT: &str = "false true 0 6 128 1000 -310138 0.0 67245.375 [0.0 1.0] [67245.375 3464.85] [0.0 1.0 2.0] [67245.375 3464.85 -8769.4565] [0.0 1.0 2.0 3.0] [67245.375 3464.85 -8769.4565 -1882.52] [[0.0 1.0] [2.0 3.0]] [[67245.375 3464.85] [-8769.4565 -1882.52]] SHAP";

#[test]
fn text_writer_write_simple_values() {
    assert_eq!(written(simple_values()), SIMPLE_TEXT);
}

#[test]
fn text_writer_write_string() {
    let out = written(vec![
        Value::String("".to_string()),
        Value::String("Hello".to_string()),
        Value::String("Héllø".to_string()),
        Value::String(LOREM.to_string()),
        Value::String("abc\"def\"ghi".to_string()),
    ]);
    assert_eq!(
        out,
        format!("\"\" \"Hello\" \"Héllø\" \"{}\" \"abc\"\"def\"\"ghi\"", LOREM)
    );
}

#[test]
fn text_writer_write_blob() {
    let out = written(vec![
        Value::Blob(vec![]),
        Value::Blob(vec![0x48, 0x65, 0x0c, 0x6c, 0x6f]),
        Value::Blob(vec![0x48, 0xc3, 0xa9, 0x6c, 0x6c, 0xc3, 0xb8]),
        Value::Blob(LOREM.as_bytes().to_vec()),
    ]);
    assert_eq!(
        out,
        "0x 0x48650c6c6f 0x48c3a96c6cc3b8 0x4c6f72656d20697073756d20646f6c6f722073697420616d65742c20636f6e73656374657475722061646970697363696e6720656c69742c2073656420646f20656975736d6f642074656d706f7220696e6369646964756e74207574206c61626f726520657420646f6c6f7265206d61676e6120616c697175612e20557420656e696d206164206d696e696d2076656e69616d"
    );
}

#[test]
fn text_writer_write_arrays() {
    let out = written(vec![
        Value::BoolArray(vec![]),
        Value::BoolArray(vec![true, false, true]),
        Value::IntArray(vec![]),
        Value::IntArray(vec![6, 128, 1000]),
        Value::DoubleArray(vec![]),
        Value::DoubleArray(vec![d("67245.375"), d("3464.85"), d("-8769.4565")]),
        Value::Vec2Array(vec![]),
        Value::Vec2Array(vec![(d("67245.375"), d("3464.85")), (d("-8769.4565"), d("-1882.52"))]),
        Value::Vec3Array(vec![]),
        Value::Vec3Array(vec![
            (d("67245.375"), d("3464.85"), d("-8769.4565")),
            (d("-1882.52"), d("67245.375"), d("3464.85")),
        ]),
        Value::Vec4Array(vec![]),
        Value::Vec4Array(vec![
            (d("67245.375"), d("3464.85"), d("-8769.4565"), d("-1882.52")),
            (d("-1882.52"), d("-8769.4565"), d("3464.85"), d("67245.375")),
        ]),
        Value::Box2Array(vec![]),
        Value::Box2Array(vec![
            ((d("67245.375"), d("3464.85")), (d("-8769.4565"), d("-1882.52"))),
            ((d("-1882.52"), d("-8769.4565")), (d("3464.85"), d("67245.375"))),
        ]),
    ]);
    assert_eq!(out, "{\n} {\n  true\n  false\n  true\n} {\n} {\n  6\n  128\n  1000\n} {\n} {\n  67245.375\n  3464.85\n  -8769.4565\n} {\n} {\n  [67245.375 3464.85]\n  [-8769.4565 -1882.52]\n} {\n} {\n  [67245.375 3464.85 -8769.4565]\n  [-1882.52 67245.375 3464.85]\n} {\n} {\n  [67245.375 3464.85 -8769.4565 -1882.52]\n  [-1882.52 -8769.4565 3464.85 67245.375]\n} {\n} {\n  [[67245.375 3464.85] [-8769.4565 -1882.52]]\n  [[-1882.52 -8769.4565] [3464.85 67245.375]]\n}");
}

#[test]
fn indentation() {
    let tokens = vec![
        Token::Start,
        Token::Value(Value::Tag(tag(b'D', b'I', b'C', b'T'))),
        Token::Value(Value::String("one".to_string())),
        Token::Value(Value::Int(1)),
        Token::Value(Value::String("two".to_string())),
        Token::Start,
        Token::Value(Value::Tag(tag(b'A', b'B', b'C', b'D'))),
        Token::Value(Value::Vec2Array(vec![
            (d("1.0"), d("2.0")),
            (d("3.0"), d("4.0")),
            (d("5.0"), d("6.0")),
        ])),
        Token::End,
        Token::Value(Value::String("three".to_string())),
        Token::Value(Value::Bool(false)),
        Token::End,
    ];
    assert_eq!(
        write_tokens(&tokens),
        "(DICT \"one\" 1 \"two\"\n  (ABCD {\n      [1.0 2.0]\n      [3.0 4.0]\n      [5.0 6.0]\n    }) \"three\" false)"
    );
}

#[test]
fn text_reader_read_simple() {
    assert_eq!(read_all("()"), vec![Ok(Token::Start), Ok(Token::End), Ok(Token::EndOfFile)]);
}

#[test]
fn text_reader_read_simple_values() {
    let text = format!("\n  {} ", SIMPLE_TEXT);
    assert_eq!(values_of(&text), simple_values());
    let more = values_of(" -1.25e123 1.25e-123 ");
    assert_eq!(more, vec![Value::Double(d("-1.25e123")), Value::Double(d("1.25e-123"))]);
}

#[test]
fn text_reader_read_string() {
    let text = format!(
        "\n \"\"\n \"Hello\"\n \"Héllø\"\n \"one \"\"two\"\" three\"\n \"{}\" ",
        LOREM
    );
    assert_eq!(
        values_of(&text),
        vec![
            Value::String("".to_string()),
            Value::String("Hello".to_string()),
            Value::String("Héllø".to_string()),
            Value::String("one \"two\" three".to_string()),
            Value::String(LOREM.to_string()),
        ]
    );
}

#[test]
fn text_reader_read_blob() {
    assert_eq!(
        values_of(" 0x 0x48656c6c6f 0x48c3a96c6cc3b8 "),
        vec![
            Value::Blob(vec![]),
            Value::Blob(vec![0x48, 0x65, 0x6c, 0x6c, 0x6f]),
            Value::Blob(vec![0x48, 0xc3, 0xa9, 0x6c, 0x6c, 0xc3, 0xb8]),
        ]
    );
}

#[test]
fn text_reader_read_arrays() {
    let text = "{true false true}\n{6 128 1000}\n{67245.375 3464.85 -8769.4565}\n{[67245.375 3464.85] [-8769.4565 -1882.52]}\n{[67245.375 3464.85 -8769.4565] [-1882.52 67245.375 3464.85]}\n{[67245.375 3464.85 -8769.4565 -1882.52]\n [-1882.52 -8769.4565 3464.85 67245.375]}\n{[[67245.375 3464.85] [-8769.4565 -1882.52]]\n [[-1882.52 -8769.4565] [3464.85 67245.375]]}";
    assert_eq!(
        values_of(text),
        vec![
            Value::BoolArray(vec![true, false, true]),
            Value::IntArray(vec![6, 128, 1000]),
            Value::DoubleArray(vec![d("67245.375"), d("3464.85"), d("-8769.4565")]),
            Value::Vec2Array(vec![(d("67245.375"), d("3464.85")), (d("-8769.4565"), d("-1882.52"))]),
            Value::Vec3Array(vec![
                (d("67245.375"), d("3464.85"), d("-8769.4565")),
                (d("-1882.52"), d("67245.375"), d("3464.85")),
            ]),
            Value::Vec4Array(vec![
                (d("67245.375"), d("3464.85"), d("-8769.4565"), d("-1882.52")),
                (d("-1882.52"), d("-8769.4565"), d("3464.85"), d("67245.375")),
            ]),
            Value::Box2Array(vec![
                ((d("67245.375"), d("3464.85")), (d("-8769.4565"), d("-1882.52"))),
                ((d("-1882.52"), d("-8769.4565")), (d("3464.85"), d("67245.375"))),
            ]),
        ]
    );
}

#[test]
fn dict_stream_round_trips_to_normal_form() {
    let input = "(DICT \"one\" 1 \"two\" (ABCD {\n      [1.0 2.0]\n      [3.0 4.0]\n    }) \"three\" false)";
    let normal = "(DICT \"one\" 1 \"two\"\n  (ABCD {\n      [1.0 2.0]\n      [3.0 4.0]\n    }) \"three\" false)";
    let tokens: Vec<Token<Vec<u8>>> = read_all(input).into_iter().map(|t| t.unwrap()).collect();
    assert_eq!(write_tokens(&tokens), normal);
    let again: Vec<Token<Vec<u8>>> = read_all(normal).into_iter().map(|t| t.unwrap()).collect();
    assert_eq!(again, tokens);
    assert_eq!(write_tokens(&again), normal);
}

#[test]
fn text_values_round_trip() {
    let text = written(simple_values());
    assert_eq!(values_of(&format!("{} ", text)), simple_values());
}

#[test]
fn string_needs_a_terminator_after_its_quote() {
    assert_eq!(read_all("\"abc\"x ")[0], Err(Error::InvalidToken));
    assert_eq!(read_all("\"abc\"")[0], Err(Error::UnexpectedEndOfFile));
    assert_eq!(read_all("(\"a\"\"b\")")[1], Ok(Token::Value(Value::String("a\"b".to_string()))));
    assert_eq!(read_all("\"a\"]")[0], Ok(Token::Value(Value::String("a".to_string()))));
}

#[test]
fn text_lexical_errors() {
    assert_eq!(read_all("SHAPE ")[0], Err(Error::InvalidToken));
    assert_eq!(read_all("SHA ")[0], Err(Error::InvalidToken));
    assert_eq!(read_all("tru ")[0], Err(Error::InvalidToken));
    assert_eq!(read_all("2147483648 ")[0], Err(Error::Range));
    assert_eq!(read_all("-2147483648 ")[0], Ok(Token::Value(Value::Int(i32::MIN))));
    assert_eq!(read_all("- ")[0], Err(Error::InvalidToken));
    assert_eq!(read_all("1. ")[0], Err(Error::InvalidToken));
    assert_eq!(read_all("1.5e ")[0], Err(Error::InvalidToken));
    assert_eq!(read_all("0x123 ")[0], Err(Error::InvalidToken));
    assert_eq!(read_all("[1 2] ")[0], Err(Error::InvalidToken));
    assert_eq!(read_all("{} ")[0], Err(Error::InvalidToken));
    assert_eq!(read_all("{1 true} ")[0], Err(Error::InvalidToken));
    assert_eq!(read_all("] ")[0], Err(Error::InvalidToken));
    assert_eq!(read_all("12")[0], Err(Error::UnexpectedEndOfFile));
    assert_eq!(read_all("\"\u{ff}\" ").len(), 2);
}
