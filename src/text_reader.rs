use vstd::prelude::*;
use crate::binary_reader::string_from_utf8;
use crate::value::{spec_tag, Error, Tag, Token, TokenView, Value, ValueView};
use crate::text_writer::{
    bool_text, box2_text, digits, escape, hex_digit, hex_text, int_text, latin1, tag_text, value_text,
    vec2_text, vec3_text, vec4_text,
};
use vstd::utf8::{decode_utf8, encode_utf8, valid_utf8};

verus! {

// ---------------------------------------------------------------------------
// The lexical level of the text encoding, as functions from the input and a
// position to the token found and the position after it.

pub open spec fn is_space(b: u8) -> bool {
    b == 32 || b == 9 || b == 10 || b == 13
}

/// What may follow a tag, number, boolean, blob or string.
pub open spec fn is_terminator(b: u8) -> bool {
    is_space(b) || b == 41 || b == 93 || b == 125
}

pub open spec fn is_digit(b: u8) -> bool {
    48 <= b <= 57
}

pub open spec fn is_tag_char(b: u8) -> bool {
    (65 <= b <= 90) || is_digit(b) || b == 95
}

pub open spec fn hex_value(b: u8) -> Option<u8> {
    if is_digit(b) {
        Some((b - 48) as u8)
    } else if 97 <= b <= 102 {
        Some((b - 87) as u8)
    } else {
        None
    }
}

pub enum Lexeme {
    Start,
    End,
    VecStart,
    VecEnd,
    ArrayStart,
    ArrayEnd,
    Tag(Tag),
    Bool(bool),
    Int(i32),
    /// The decimal literal of a double.
    Double(Seq<u8>),
    String(Seq<char>),
    Blob(Seq<u8>),
    EndOfFile,
}

pub open spec fn skip_spaces(s: Seq<u8>, i: nat) -> nat
    decreases s.len() - i,
{
    if i < s.len() && is_space(s[i as int]) {
        skip_spaces(s, i + 1)
    } else {
        i
    }
}

pub open spec fn lex_tag(s: Seq<u8>, i: nat, count: nat, tag: nat) -> Result<(Lexeme, nat), Error>
    decreases s.len() - i,
{
    if i >= s.len() {
        Err(Error::UnexpectedEndOfFile)
    } else if count == 4 && is_terminator(s[i as int]) {
        Ok((Lexeme::Tag(tag as u32), i))
    } else if count < 4 && is_tag_char(s[i as int]) {
        lex_tag(s, i + 1, count + 1, (tag * 256 + s[i as int]) as nat)
    } else {
        Err(Error::InvalidToken)
    }
}

/// The rest of the word `w` from its `k`th letter, then a terminator.
pub open spec fn lex_word(s: Seq<u8>, i: nat, w: Seq<u8>, k: nat, value: bool) -> Result<(Lexeme, nat), Error>
    decreases w.len() - k,
{
    if i >= s.len() {
        Err(Error::UnexpectedEndOfFile)
    } else if k < w.len() {
        if s[i as int] == w[k as int] {
            lex_word(s, i + 1, w, k + 1, value)
        } else {
            Err(Error::InvalidToken)
        }
    } else if is_terminator(s[i as int]) {
        Ok((Lexeme::Bool(value), i))
    } else {
        Err(Error::InvalidToken)
    }
}

/// The bytes of a string after its opening quote; `closing` when the last
/// byte was a quote that may end it.
pub open spec fn lex_string(s: Seq<u8>, i: nat, closing: bool, acc: Seq<u8>) -> Result<(Seq<u8>, nat), Error>
    decreases s.len() - i,
{
    if i >= s.len() {
        Err(Error::UnexpectedEndOfFile)
    } else if closing {
        if is_terminator(s[i as int]) {
            Ok((acc, i))
        } else if s[i as int] == 34 {
            lex_string(s, i + 1, false, acc.push(34))
        } else {
            Err(Error::InvalidToken)
        }
    } else if s[i as int] == 34 {
        lex_string(s, i + 1, true, acc)
    } else {
        lex_string(s, i + 1, false, acc.push(s[i as int]))
    }
}

/// The value of a sequence of decimal digits.
pub open spec fn digits_value(ds: Seq<u8>) -> nat
    decreases ds.len(),
{
    if ds.len() == 0 {
        0
    } else {
        digits_value(ds.drop_last()) * 10 + (ds.last() - 48) as nat
    }
}

/// An integer literal: an optional `-`, then at least one digit.
pub open spec fn int_literal(buf: Seq<u8>) -> Result<i32, Error> {
    if buf.len() > 0 && buf[0] == 45 {
        if buf.len() == 1 {
            Err(Error::InvalidToken)
        } else if digits_value(buf.skip(1)) <= 0x8000_0000 {
            Ok((0 - digits_value(buf.skip(1))) as i32)
        } else {
            Err(Error::Range)
        }
    } else if digits_value(buf) <= 0x7fff_ffff {
        Ok(digits_value(buf) as i32)
    } else {
        Err(Error::Range)
    }
}

/// The part of a double literal after its `.`. `phase` is 0 before the
/// first fraction digit, 1 among them, 2 just after `e`, 3 just after `e-`,
/// 4 among the exponent digits.
pub open spec fn lex_fraction(s: Seq<u8>, i: nat, phase: nat, buf: Seq<u8>) -> Result<(Lexeme, nat), Error>
    decreases s.len() - i,
{
    if i >= s.len() {
        Err(Error::UnexpectedEndOfFile)
    } else {
        let b = s[i as int];
        if is_terminator(b) {
            if phase == 1 || phase == 4 {
                Ok((Lexeme::Double(buf), i))
            } else {
                Err(Error::InvalidToken)
            }
        } else if is_digit(b) {
            lex_fraction(
                s,
                i + 1,
                if phase <= 1 {
                    1
                } else {
                    4
                },
                buf.push(b),
            )
        } else if b == 101 && phase == 1 {
            lex_fraction(s, i + 1, 2, buf.push(b))
        } else if b == 45 && phase == 2 {
            lex_fraction(s, i + 1, 3, buf.push(b))
        } else {
            Err(Error::InvalidToken)
        }
    }
}

/// The hex digits of a blob after `0x`; `high` holds the first digit of an
/// unfinished pair.
pub open spec fn lex_blob(s: Seq<u8>, i: nat, high: Option<u8>, acc: Seq<u8>) -> Result<(Lexeme, nat), Error>
    decreases s.len() - i,
{
    if i >= s.len() {
        Err(Error::UnexpectedEndOfFile)
    } else {
        let b = s[i as int];
        if is_terminator(b) && high is None {
            Ok((Lexeme::Blob(acc), i))
        } else {
            match hex_value(b) {
                Some(v) => match high {
                    Some(h) => lex_blob(s, i + 1, None, acc.push((h * 16 + v) as u8)),
                    None => lex_blob(s, i + 1, Some(v), acc),
                },
                None => Err(Error::InvalidToken),
            }
        }
    }
}

/// A number: an integer, a double (from its `.`) or a blob (from `0x`).
pub open spec fn lex_number(s: Seq<u8>, i: nat, buf: Seq<u8>) -> Result<(Lexeme, nat), Error>
    decreases s.len() - i,
{
    if i >= s.len() {
        Err(Error::UnexpectedEndOfFile)
    } else {
        let b = s[i as int];
        if is_terminator(b) {
            match int_literal(buf) {
                Ok(v) => Ok((Lexeme::Int(v), i)),
                Err(e) => Err(e),
            }
        } else if b == 45 && buf.len() == 0 {
            lex_number(s, i + 1, buf.push(b))
        } else if is_digit(b) {
            lex_number(s, i + 1, buf.push(b))
        } else if b == 46 && buf.len() > 0 && buf.last() != 45 {
            lex_fraction(s, i + 1, 0, buf.push(b))
        } else if b == 120 && buf == seq![48u8] {
            lex_blob(s, i + 1, None, seq![])
        } else {
            Err(Error::InvalidToken)
        }
    }
}

/// The lexeme that starts at the first byte from `i` on that is no space.
pub open spec fn lex(s: Seq<u8>, i: nat) -> Result<(Lexeme, nat), Error> {
    let j = skip_spaces(s, i);
    if j >= s.len() {
        Ok((Lexeme::EndOfFile, j))
    } else {
        let b = s[j as int];
        if b == 40 {
            Ok((Lexeme::Start, j + 1))
        } else if b == 41 {
            Ok((Lexeme::End, j + 1))
        } else if b == 91 {
            Ok((Lexeme::VecStart, j + 1))
        } else if b == 93 {
            Ok((Lexeme::VecEnd, j + 1))
        } else if b == 123 {
            Ok((Lexeme::ArrayStart, j + 1))
        } else if b == 125 {
            Ok((Lexeme::ArrayEnd, j + 1))
        } else if b == 34 {
            match lex_string(s, j + 1, false, seq![]) {
                Ok((bytes, k)) => if valid_utf8(bytes) {
                    Ok((Lexeme::String(decode_utf8(bytes)), k))
                } else {
                    Err(Error::Range)
                },
                Err(e) => Err(e),
            }
        } else if 65 <= b <= 90 {
            lex_tag(s, j, 0, 0)
        } else if is_digit(b) || b == 45 {
            lex_number(s, j, seq![])
        } else if b == 116 {
            lex_word(s, j, seq![116u8, 114u8, 117u8, 101u8], 0, true)
        } else if b == 102 {
            lex_word(s, j, seq![102u8, 97u8, 108u8, 115u8, 101u8], 0, false)
        } else {
            Err(Error::InvalidToken)
        }
    }
}

// ---------------------------------------------------------------------------
// Values from lexemes.

pub type Lit = Seq<u8>;

pub open spec fn lit2(x: (Vec<u8>, Vec<u8>)) -> (Lit, Lit) {
    (x.0@, x.1@)
}

pub open spec fn lit3(x: (Vec<u8>, Vec<u8>, Vec<u8>)) -> (Lit, Lit, Lit) {
    (x.0@, x.1@, x.2@)
}

pub open spec fn lit4(x: (Vec<u8>, Vec<u8>, Vec<u8>, Vec<u8>)) -> (Lit, Lit, Lit, Lit) {
    (x.0@, x.1@, x.2@, x.3@)
}

pub open spec fn litb(x: ((Vec<u8>, Vec<u8>), (Vec<u8>, Vec<u8>))) -> ((Lit, Lit), (Lit, Lit)) {
    (lit2(x.0), lit2(x.1))
}

/// A text value with its literals as byte sequences.
pub open spec fn text_value(v: Value<Vec<u8>>) -> ValueView<Lit> {
    match v {
        Value::Tag(x) => ValueView::Tag(x),
        Value::Bool(x) => ValueView::Bool(x),
        Value::BoolArray(x) => ValueView::BoolArray(x@),
        Value::Int(x) => ValueView::Int(x),
        Value::IntArray(x) => ValueView::IntArray(x@),
        Value::Double(x) => ValueView::Double(x@),
        Value::DoubleArray(x) => ValueView::DoubleArray(x@.map_values(|y: Vec<u8>| y@)),
        Value::Vec2(x) => ValueView::Vec2(lit2(x)),
        Value::Vec2Array(x) => ValueView::Vec2Array(x@.map_values(|y: (Vec<u8>, Vec<u8>)| lit2(y))),
        Value::Vec3(x) => ValueView::Vec3(lit3(x)),
        Value::Vec3Array(x) => ValueView::Vec3Array(
            x@.map_values(|y: (Vec<u8>, Vec<u8>, Vec<u8>)| lit3(y)),
        ),
        Value::Vec4(x) => ValueView::Vec4(lit4(x)),
        Value::Vec4Array(x) => ValueView::Vec4Array(
            x@.map_values(|y: (Vec<u8>, Vec<u8>, Vec<u8>, Vec<u8>)| lit4(y)),
        ),
        Value::Box2(x) => ValueView::Box2(litb(x)),
        Value::Box2Array(x) => ValueView::Box2Array(
            x@.map_values(|y: ((Vec<u8>, Vec<u8>), (Vec<u8>, Vec<u8>))| litb(y)),
        ),
        Value::String(x) => ValueView::String(x@),
        Value::Blob(x) => ValueView::Blob(x@),
    }
}

pub open spec fn text_token(t: Token<Vec<u8>>) -> TokenView<Lit> {
    match t {
        Token::Start => TokenView::Start,
        Token::End => TokenView::End,
        Token::Value(v) => TokenView::Value(text_value(v)),
        Token::EndOfFile => TokenView::EndOfFile,
    }
}

/// A vector or box after its `[`, with the coordinates `xs` read so far.
pub open spec fn read_vec_spec(s: Seq<u8>, i: nat, xs: Seq<Lit>) -> Result<(ValueView<Lit>, nat), Error>
    decreases s.len() - i, 0nat,
{
    match lex(s, i) {
        Ok((t, k)) => if k <= i || k > s.len() {
            Err(Error::InvalidToken)
        } else {
            match t {
                Lexeme::VecEnd => if xs.len() == 2 {
                    Ok((ValueView::Vec2((xs[0], xs[1])), k))
                } else if xs.len() == 3 {
                    Ok((ValueView::Vec3((xs[0], xs[1], xs[2])), k))
                } else if xs.len() == 4 {
                    Ok((ValueView::Vec4((xs[0], xs[1], xs[2], xs[3])), k))
                } else {
                    Err(Error::InvalidToken)
                },
                Lexeme::VecStart => if xs.len() == 0 {
                    read_box2_spec(s, k)
                } else {
                    Err(Error::InvalidToken)
                },
                Lexeme::Double(d) => if xs.len() < 4 {
                    read_vec_spec(s, k, xs.push(d))
                } else {
                    Err(Error::InvalidToken)
                },
                _ => Err(Error::InvalidToken),
            }
        },
        Err(e) => Err(e),
    }
}

/// A box after its second `[`: two vectors of two, then `]`.
pub open spec fn read_box2_spec(s: Seq<u8>, i: nat) -> Result<(ValueView<Lit>, nat), Error>
    decreases s.len() - i, 1nat,
{
    match read_vec_spec(s, i, seq![]) {
        Ok((ValueView::Vec2(a), k)) => if k <= i || k > s.len() {
            Err(Error::InvalidToken)
        } else {
            match lex(s, k) {
                Ok((Lexeme::VecStart, k2)) => if k2 <= k || k2 > s.len() {
                    Err(Error::InvalidToken)
                } else {
                    match read_vec_spec(s, k2, seq![]) {
                        Ok((ValueView::Vec2(b), k3)) => match lex(s, k3) {
                            Ok((Lexeme::VecEnd, k4)) => Ok((ValueView::Box2((a, b)), k4)),
                            Ok(_) => Err(Error::InvalidToken),
                            Err(e) => Err(e),
                        },
                        Ok(_) => Err(Error::InvalidToken),
                        Err(e) => Err(e),
                    }
                },
                Ok(_) => Err(Error::InvalidToken),
                Err(e) => Err(e),
            }
        },
        Ok(_) => Err(Error::InvalidToken),
        Err(e) => Err(e),
    }
}

pub open spec fn bools_spec(s: Seq<u8>, i: nat, acc: Seq<bool>) -> Result<(ValueView<Lit>, nat), Error>
    decreases s.len() - i,
{
    match lex(s, i) {
        Ok((t, k)) => if k <= i || k > s.len() {
            Err(Error::InvalidToken)
        } else {
            match t {
                Lexeme::Bool(v) => bools_spec(s, k, acc.push(v)),
                Lexeme::ArrayEnd => Ok((ValueView::BoolArray(acc), k)),
                _ => Err(Error::InvalidToken),
            }
        },
        Err(e) => Err(e),
    }
}

pub open spec fn ints_spec(s: Seq<u8>, i: nat, acc: Seq<i32>) -> Result<(ValueView<Lit>, nat), Error>
    decreases s.len() - i,
{
    match lex(s, i) {
        Ok((t, k)) => if k <= i || k > s.len() {
            Err(Error::InvalidToken)
        } else {
            match t {
                Lexeme::Int(v) => ints_spec(s, k, acc.push(v)),
                Lexeme::ArrayEnd => Ok((ValueView::IntArray(acc), k)),
                _ => Err(Error::InvalidToken),
            }
        },
        Err(e) => Err(e),
    }
}

pub open spec fn doubles_spec(s: Seq<u8>, i: nat, acc: Seq<Lit>) -> Result<(ValueView<Lit>, nat), Error>
    decreases s.len() - i,
{
    match lex(s, i) {
        Ok((t, k)) => if k <= i || k > s.len() {
            Err(Error::InvalidToken)
        } else {
            match t {
                Lexeme::Double(v) => doubles_spec(s, k, acc.push(v)),
                Lexeme::ArrayEnd => Ok((ValueView::DoubleArray(acc), k)),
                _ => Err(Error::InvalidToken),
            }
        },
        Err(e) => Err(e),
    }
}

pub open spec fn vec2s_spec(s: Seq<u8>, i: nat, acc: Seq<(Lit, Lit)>) -> Result<(ValueView<Lit>, nat), Error>
    decreases s.len() - i,
{
    match lex(s, i) {
        Ok((t, k)) => if k <= i || k > s.len() {
            Err(Error::InvalidToken)
        } else {
            match t {
                Lexeme::VecStart => match read_vec_spec(s, k, seq![]) {
                    Ok((ValueView::Vec2(v), k2)) => if k2 <= k || k2 > s.len() {
                        Err(Error::InvalidToken)
                    } else {
                        vec2s_spec(s, k2, acc.push(v))
                    },
                    Ok(_) => Err(Error::InvalidToken),
                    Err(e) => Err(e),
                },
                Lexeme::ArrayEnd => Ok((ValueView::Vec2Array(acc), k)),
                _ => Err(Error::InvalidToken),
            }
        },
        Err(e) => Err(e),
    }
}

pub open spec fn vec3s_spec(s: Seq<u8>, i: nat, acc: Seq<(Lit, Lit, Lit)>) -> Result<(ValueView<Lit>, nat), Error>
    decreases s.len() - i,
{
    match lex(s, i) {
        Ok((t, k)) => if k <= i || k > s.len() {
            Err(Error::InvalidToken)
        } else {
            match t {
                Lexeme::VecStart => match read_vec_spec(s, k, seq![]) {
                    Ok((ValueView::Vec3(v), k2)) => if k2 <= k || k2 > s.len() {
                        Err(Error::InvalidToken)
                    } else {
                        vec3s_spec(s, k2, acc.push(v))
                    },
                    Ok(_) => Err(Error::InvalidToken),
                    Err(e) => Err(e),
                },
                Lexeme::ArrayEnd => Ok((ValueView::Vec3Array(acc), k)),
                _ => Err(Error::InvalidToken),
            }
        },
        Err(e) => Err(e),
    }
}

pub open spec fn vec4s_spec(s: Seq<u8>, i: nat, acc: Seq<(Lit, Lit, Lit, Lit)>) -> Result<(ValueView<Lit>, nat), Error>
    decreases s.len() - i,
{
    match lex(s, i) {
        Ok((t, k)) => if k <= i || k > s.len() {
            Err(Error::InvalidToken)
        } else {
            match t {
                Lexeme::VecStart => match read_vec_spec(s, k, seq![]) {
                    Ok((ValueView::Vec4(v), k2)) => if k2 <= k || k2 > s.len() {
                        Err(Error::InvalidToken)
                    } else {
                        vec4s_spec(s, k2, acc.push(v))
                    },
                    Ok(_) => Err(Error::InvalidToken),
                    Err(e) => Err(e),
                },
                Lexeme::ArrayEnd => Ok((ValueView::Vec4Array(acc), k)),
                _ => Err(Error::InvalidToken),
            }
        },
        Err(e) => Err(e),
    }
}

pub open spec fn box2s_spec(s: Seq<u8>, i: nat, acc: Seq<((Lit, Lit), (Lit, Lit))>) -> Result<(ValueView<Lit>, nat), Error>
    decreases s.len() - i,
{
    match lex(s, i) {
        Ok((t, k)) => if k <= i || k > s.len() {
            Err(Error::InvalidToken)
        } else {
            match t {
                Lexeme::VecStart => match read_vec_spec(s, k, seq![]) {
                    Ok((ValueView::Box2(v), k2)) => if k2 <= k || k2 > s.len() {
                        Err(Error::InvalidToken)
                    } else {
                        box2s_spec(s, k2, acc.push(v))
                    },
                    Ok(_) => Err(Error::InvalidToken),
                    Err(e) => Err(e),
                },
                Lexeme::ArrayEnd => Ok((ValueView::Box2Array(acc), k)),
                _ => Err(Error::InvalidToken),
            }
        },
        Err(e) => Err(e),
    }
}

/// An array after its `{`: the kind of the first element decides the kind
/// of the array; an empty array has none and is refused.
pub open spec fn read_array_spec(s: Seq<u8>, i: nat) -> Result<(ValueView<Lit>, nat), Error> {
    match lex(s, i) {
        Ok((t, k)) => if k <= i || k > s.len() {
            Err(Error::InvalidToken)
        } else {
            match t {
                Lexeme::Bool(v) => bools_spec(s, k, seq![v]),
                Lexeme::Int(v) => ints_spec(s, k, seq![v]),
                Lexeme::Double(v) => doubles_spec(s, k, seq![v]),
                Lexeme::VecStart => match read_vec_spec(s, k, seq![]) {
                    Ok((ValueView::Vec2(v), k2)) => vec2s_spec(s, k2, seq![v]),
                    Ok((ValueView::Vec3(v), k2)) => vec3s_spec(s, k2, seq![v]),
                    Ok((ValueView::Vec4(v), k2)) => vec4s_spec(s, k2, seq![v]),
                    Ok((ValueView::Box2(v), k2)) => box2s_spec(s, k2, seq![v]),
                    Ok(_) => Err(Error::InvalidToken),
                    Err(e) => Err(e),
                },
                _ => Err(Error::InvalidToken),
            }
        },
        Err(e) => Err(e),
    }
}

/// The token that starts at position `i`, and the position after it.
pub open spec fn read_next_spec(s: Seq<u8>, i: nat) -> Result<(TokenView<Lit>, nat), Error> {
    match lex(s, i) {
        Ok((t, k)) => match t {
            Lexeme::Start => Ok((TokenView::Start, k)),
            Lexeme::End => Ok((TokenView::End, k)),
            Lexeme::EndOfFile => Ok((TokenView::EndOfFile, k)),
            Lexeme::Tag(x) => Ok((TokenView::Value(ValueView::Tag(x)), k)),
            Lexeme::Bool(x) => Ok((TokenView::Value(ValueView::Bool(x)), k)),
            Lexeme::Int(x) => Ok((TokenView::Value(ValueView::Int(x)), k)),
            Lexeme::Double(x) => Ok((TokenView::Value(ValueView::Double(x)), k)),
            Lexeme::String(x) => Ok((TokenView::Value(ValueView::String(x)), k)),
            Lexeme::Blob(x) => Ok((TokenView::Value(ValueView::Blob(x)), k)),
            Lexeme::VecStart => match read_vec_spec(s, k, seq![]) {
                Ok((v, k2)) => Ok((TokenView::Value(v), k2)),
                Err(e) => Err(e),
            },
            Lexeme::ArrayStart => match read_array_spec(s, k) {
                Ok((v, k2)) => Ok((TokenView::Value(v), k2)),
                Err(e) => Err(e),
            },
            _ => Err(Error::InvalidToken),
        },
        Err(e) => Err(e),
    }
}

/// A lexeme as read, with owned contents.
pub enum SubToken {
    Start,
    End,
    VecStart,
    VecEnd,
    ArrayStart,
    ArrayEnd,
    Tag(Tag),
    Bool(bool),
    Int(i32),
    Double(Vec<u8>),
    String(String),
    Blob(Vec<u8>),
    EndOfFile,
}

impl View for SubToken {
    type V = Lexeme;

    open spec fn view(&self) -> Lexeme {
        match self {
            SubToken::Start => Lexeme::Start,
            SubToken::End => Lexeme::End,
            SubToken::VecStart => Lexeme::VecStart,
            SubToken::VecEnd => Lexeme::VecEnd,
            SubToken::ArrayStart => Lexeme::ArrayStart,
            SubToken::ArrayEnd => Lexeme::ArrayEnd,
            SubToken::Tag(t) => Lexeme::Tag(*t),
            SubToken::Bool(b) => Lexeme::Bool(*b),
            SubToken::Int(i) => Lexeme::Int(*i),
            SubToken::Double(d) => Lexeme::Double(d@),
            SubToken::String(x) => Lexeme::String(x@),
            SubToken::Blob(b) => Lexeme::Blob(b@),
            SubToken::EndOfFile => Lexeme::EndOfFile,
        }
    }
}

/// `buf` is an optional `-` followed by decimal digits.
pub open spec fn int_shaped(buf: Seq<u8>) -> bool {
    forall|k: int| 0 <= k < buf.len() && !(k == 0 && buf[0] == 45) ==> #[trigger] is_digit(buf[k])
}

fn is_terminator_byte(b: u8) -> (r: bool)
    ensures
        r == is_terminator(b),
{
    b == 32 || b == 9 || b == 10 || b == 13 || b == 41 || b == 93 || b == 125
}

fn int_of(buf: &Vec<u8>) -> (r: Result<i32, Error>)
    requires
        int_shaped(buf@),
    ensures
        r == int_literal(buf@),
{
    let neg = buf.len() > 0 && buf[0] == 45;
    if neg && buf.len() == 1 {
        return Err(Error::InvalidToken);
    }
    let start: usize = if neg {
        1
    } else {
        0
    };
    let mut acc: u64 = 0;
    let mut i: usize = start;
    assert(buf@.subrange(start as int, start as int) =~= seq![]);
    while i < buf.len()
        invariant
            start <= i <= buf@.len(),
            start == (if neg {
                1int
            } else {
                0int
            }),
            neg == (buf@.len() > 0 && buf@[0] == 45),
            int_shaped(buf@),
            acc <= 0x8000_0000 * 10 + 9,
            digits_value(buf@.subrange(start as int, i as int)) <= 0x8000_0000 ==> acc
                == digits_value(buf@.subrange(start as int, i as int)),
            digits_value(buf@.subrange(start as int, i as int)) > 0x8000_0000 ==> acc
                > 0x8000_0000,
        decreases buf@.len() - i,
    {
        assert(is_digit(buf@[i as int]));
        let d = buf[i] - 48;
        let ghost ds = buf@.subrange(start as int, i + 1);
        assert(ds.drop_last() =~= buf@.subrange(start as int, i as int));
        if acc <= 0x8000_0000 {
            acc = acc * 10 + d as u64;
        }
        i = i + 1;
    }
    if neg {
        assert(buf@.skip(1) =~= buf@.subrange(1, buf@.len() as int));
        if acc <= 0x8000_0000 {
            Ok((0 - (acc as i64)) as i32)
        } else {
            Err(Error::Range)
        }
    } else {
        assert(buf@ =~= buf@.subrange(0, buf@.len() as int));
        if acc <= 0x7fff_ffff {
            Ok(acc as i32)
        } else {
            Err(Error::Range)
        }
    }
}

/// Reads tokens in the text encoding from a byte buffer.
pub struct TextReader {
    pub input: Vec<u8>,
    pub pos: usize,
}

impl TextReader {
    pub open spec fn wf(&self) -> bool {
        self.pos <= self.input@.len()
    }

    pub fn new(input: Vec<u8>) -> (r: TextReader)
        ensures
            r.wf(),
            r.pos == 0,
            r.input@ == input@,
    {
        TextReader { input, pos: 0 }
    }

    fn skip_spaces(&mut self)
        requires
            old(self).wf(),
        ensures
            final(self).pos >= old(self).pos,
            final(self).wf(),
            final(self).input == old(self).input,
            final(self).pos == skip_spaces(old(self).input@, old(self).pos as nat),
    {
        while self.pos < self.input.len() && (self.input[self.pos] == 32 || self.input[self.pos]
            == 9 || self.input[self.pos] == 10 || self.input[self.pos] == 13)
            invariant
                self.wf(),
                self.input == old(self).input,
                self.pos >= old(self).pos,
                skip_spaces(old(self).input@, old(self).pos as nat) == skip_spaces(
                    self.input@,
                    self.pos as nat,
                ),
            decreases self.input@.len() - self.pos,
        {
            self.pos = self.pos + 1;
        }
    }

    fn lex_tag(&mut self) -> (r: Result<SubToken, Error>)
        requires
            old(self).wf(),
        ensures
            final(self).pos >= old(self).pos,
            r is Ok ==> final(self).pos > old(self).pos,
            final(self).wf(),
            final(self).input == old(self).input,
            match lex_tag(old(self).input@, old(self).pos as nat, 0, 0) {
                Ok((t, k)) => r matches Ok(x) && x.view() == t && final(self).pos == k,
                Err(e) => r matches Err(e2) && e2 == e,
            },
    {
        let mut count: usize = 0;
        let mut tag: u64 = 0;
        loop
            invariant
                self.wf(),
                self.input == old(self).input,
                count <= 4,
                self.pos == old(self).pos + count,
                count == 0 ==> tag == 0,
                count <= 1 ==> tag < 0x100,
                count <= 2 ==> tag < 0x10000,
                count <= 3 ==> tag < 0x1000000,
                tag < 0x100000000,
                lex_tag(old(self).input@, old(self).pos as nat, 0, 0) == lex_tag(
                    self.input@,
                    self.pos as nat,
                    count as nat,
                    tag as nat,
                ),
            decreases self.input@.len() - self.pos,
        {
            if self.pos >= self.input.len() {
                return Err(Error::UnexpectedEndOfFile);
            }
            let b = self.input[self.pos];
            if count == 4 && is_terminator_byte(b) {
                return Ok(SubToken::Tag(tag as u32));
            }
            if count < 4 && ((65 <= b && b <= 90) || (48 <= b && b <= 57) || b == 95) {
                tag = tag * 256 + b as u64;
                count = count + 1;
                self.pos = self.pos + 1;
            } else {
                return Err(Error::InvalidToken);
            }
        }
    }

    fn lex_word(&mut self, w: &Vec<u8>, value: bool) -> (r: Result<SubToken, Error>)
        requires
            old(self).wf(),
            w@.len() > 0,
        ensures
            final(self).pos >= old(self).pos,
            r is Ok ==> final(self).pos > old(self).pos,
            final(self).wf(),
            final(self).input == old(self).input,
            match lex_word(old(self).input@, old(self).pos as nat, w@, 0, value) {
                Ok((t, k)) => r matches Ok(x) && x.view() == t && final(self).pos == k,
                Err(e) => r matches Err(e2) && e2 == e,
            },
    {
        let mut k: usize = 0;
        while k < w.len()
            invariant
                self.wf(),
                self.input == old(self).input,
                k <= w@.len(),
                self.pos == old(self).pos + k,
                lex_word(old(self).input@, old(self).pos as nat, w@, 0, value) == lex_word(
                    self.input@,
                    self.pos as nat,
                    w@,
                    k as nat,
                    value,
                ),
            decreases w@.len() - k,
        {
            if self.pos >= self.input.len() {
                return Err(Error::UnexpectedEndOfFile);
            }
            if self.input[self.pos] != w[k] {
                return Err(Error::InvalidToken);
            }
            self.pos = self.pos + 1;
            k = k + 1;
        }
        if self.pos >= self.input.len() {
            return Err(Error::UnexpectedEndOfFile);
        }
        if is_terminator_byte(self.input[self.pos]) {
            Ok(SubToken::Bool(value))
        } else {
            Err(Error::InvalidToken)
        }
    }

    fn lex_string(&mut self) -> (r: Result<Vec<u8>, Error>)
        requires
            old(self).wf(),
        ensures
            final(self).pos >= old(self).pos,
            final(self).wf(),
            final(self).input == old(self).input,
            match lex_string(old(self).input@, old(self).pos as nat, false, seq![]) {
                Ok((t, k)) => r matches Ok(x) && x@ == t && final(self).pos == k,
                Err(e) => r matches Err(e2) && e2 == e,
            },
    {
        let mut closing = false;
        let mut acc: Vec<u8> = Vec::new();
        loop
            invariant
                self.wf(),
                self.input == old(self).input,
                self.pos >= old(self).pos,
                lex_string(old(self).input@, old(self).pos as nat, false, seq![]) == lex_string(
                    self.input@,
                    self.pos as nat,
                    closing,
                    acc@,
                ),
            decreases self.input@.len() - self.pos,
        {
            if self.pos >= self.input.len() {
                return Err(Error::UnexpectedEndOfFile);
            }
            let b = self.input[self.pos];
            if closing {
                if is_terminator_byte(b) {
                    return Ok(acc);
                } else if b == 34 {
                    acc.push(34);
                    closing = false;
                } else {
                    return Err(Error::InvalidToken);
                }
            } else if b == 34 {
                closing = true;
            } else {
                acc.push(b);
            }
            self.pos = self.pos + 1;
        }
    }

    fn lex_fraction(&mut self, start: Vec<u8>) -> (r: Result<SubToken, Error>)
        requires
            old(self).wf(),
        ensures
            final(self).pos >= old(self).pos,
            final(self).wf(),
            final(self).input == old(self).input,
            match lex_fraction(old(self).input@, old(self).pos as nat, 0, start@) {
                Ok((t, k)) => r matches Ok(x) && x.view() == t && final(self).pos == k,
                Err(e) => r matches Err(e2) && e2 == e,
            },
    {
        let mut buf = start;
        let ghost b0 = buf@;
        let mut phase: u8 = 0;
        loop
            invariant
                self.wf(),
                self.input == old(self).input,
                phase <= 4,
                b0 == start@,
                self.pos >= old(self).pos,
                lex_fraction(old(self).input@, old(self).pos as nat, 0, b0) == lex_fraction(
                    self.input@,
                    self.pos as nat,
                    phase as nat,
                    buf@,
                ),
            decreases self.input@.len() - self.pos,
        {
            if self.pos >= self.input.len() {
                return Err(Error::UnexpectedEndOfFile);
            }
            let b = self.input[self.pos];
            if is_terminator_byte(b) {
                if phase == 1 || phase == 4 {
                    return Ok(SubToken::Double(buf));
                }
                return Err(Error::InvalidToken);
            } else if 48 <= b && b <= 57 {
                phase = if phase <= 1 {
                    1
                } else {
                    4
                };
            } else if b == 101 && phase == 1 {
                phase = 2;
            } else if b == 45 && phase == 2 {
                phase = 3;
            } else {
                return Err(Error::InvalidToken);
            }
            buf.push(b);
            self.pos = self.pos + 1;
        }
    }

    fn lex_blob(&mut self) -> (r: Result<SubToken, Error>)
        requires
            old(self).wf(),
        ensures
            final(self).pos >= old(self).pos,
            final(self).wf(),
            final(self).input == old(self).input,
            match lex_blob(old(self).input@, old(self).pos as nat, None, seq![]) {
                Ok((t, k)) => r matches Ok(x) && x.view() == t && final(self).pos == k,
                Err(e) => r matches Err(e2) && e2 == e,
            },
    {
        let mut high: Option<u8> = None;
        let mut acc: Vec<u8> = Vec::new();
        loop
            invariant
                self.wf(),
                self.input == old(self).input,
                high matches Some(h) ==> h < 16,
                self.pos >= old(self).pos,
                lex_blob(old(self).input@, old(self).pos as nat, None, seq![]) == lex_blob(
                    self.input@,
                    self.pos as nat,
                    high,
                    acc@,
                ),
            decreases self.input@.len() - self.pos,
        {
            if self.pos >= self.input.len() {
                return Err(Error::UnexpectedEndOfFile);
            }
            let b = self.input[self.pos];
            if is_terminator_byte(b) && high.is_none() {
                return Ok(SubToken::Blob(acc));
            }
            let v: u8 = if 48 <= b && b <= 57 {
                b - 48
            } else if 97 <= b && b <= 102 {
                b - 87
            } else {
                return Err(Error::InvalidToken);
            };
            match high {
                Some(h) => {
                    acc.push(h * 16 + v);
                    high = None;
                },
                None => {
                    high = Some(v);
                },
            }
            self.pos = self.pos + 1;
        }
    }

    fn lex_number(&mut self) -> (r: Result<SubToken, Error>)
        requires
            old(self).wf(),
            old(self).pos < old(self).input@.len(),
            !is_terminator(old(self).input@[old(self).pos as int]),
        ensures
            final(self).pos >= old(self).pos,
            r is Ok ==> final(self).pos > old(self).pos,
            final(self).wf(),
            final(self).input == old(self).input,
            match lex_number(old(self).input@, old(self).pos as nat, seq![]) {
                Ok((t, k)) => r matches Ok(x) && x.view() == t && final(self).pos == k,
                Err(e) => r matches Err(e2) && e2 == e,
            },
    {
        let mut buf: Vec<u8> = Vec::new();
        loop
            invariant
                self.wf(),
                self.input == old(self).input,
                int_shaped(buf@),
                self.pos == old(self).pos + buf@.len(),
                old(self).pos < old(self).input@.len(),
                !is_terminator(old(self).input@[old(self).pos as int]),
                lex_number(old(self).input@, old(self).pos as nat, seq![]) == lex_number(
                    self.input@,
                    self.pos as nat,
                    buf@,
                ),
            decreases self.input@.len() - self.pos,
        {
            if self.pos >= self.input.len() {
                return Err(Error::UnexpectedEndOfFile);
            }
            let b = self.input[self.pos];
            if is_terminator_byte(b) {
                return match int_of(&buf) {
                    Ok(v) => Ok(SubToken::Int(v)),
                    Err(e) => Err(e),
                };
            } else if (b == 45 && buf.len() == 0) || (48 <= b && b <= 57) {
                buf.push(b);
                self.pos = self.pos + 1;
                assert(int_shaped(buf@));
            } else if b == 46 && buf.len() > 0 && buf[buf.len() - 1] != 45 {
                buf.push(b);
                self.pos = self.pos + 1;
                return self.lex_fraction(buf);
            } else if b == 120 && buf.len() == 1 && buf[0] == 48 {
                assert(buf@ =~= seq![48u8]);
                self.pos = self.pos + 1;
                return self.lex_blob();
            } else {
                proof {
                    if b == 120 {
                        assert(buf@ == seq![48u8] ==> buf@.len() == 1 && buf@[0] == 48);
                    }
                }
                return Err(Error::InvalidToken);
            }
        }
    }

    /// Reads the next lexeme.
    fn lex(&mut self) -> (r: Result<SubToken, Error>)
        requires
            old(self).wf(),
        ensures
            r matches Ok(t) && !(t is EndOfFile) ==> final(self).pos > old(self).pos,
            final(self).pos >= old(self).pos,
            final(self).wf(),
            final(self).input == old(self).input,
            match lex(old(self).input@, old(self).pos as nat) {
                Ok((t, k)) => r matches Ok(x) && x.view() == t && final(self).pos == k,
                Err(e) => r matches Err(e2) && e2 == e,
            },
    {
        self.skip_spaces();
        if self.pos >= self.input.len() {
            return Ok(SubToken::EndOfFile);
        }
        let b = self.input[self.pos];
        if b == 40 {
            self.pos = self.pos + 1;
            Ok(SubToken::Start)
        } else if b == 41 {
            self.pos = self.pos + 1;
            Ok(SubToken::End)
        } else if b == 91 {
            self.pos = self.pos + 1;
            Ok(SubToken::VecStart)
        } else if b == 93 {
            self.pos = self.pos + 1;
            Ok(SubToken::VecEnd)
        } else if b == 123 {
            self.pos = self.pos + 1;
            Ok(SubToken::ArrayStart)
        } else if b == 125 {
            self.pos = self.pos + 1;
            Ok(SubToken::ArrayEnd)
        } else if b == 34 {
            self.pos = self.pos + 1;
            match self.lex_string() {
                Ok(bytes) => match string_from_utf8(bytes) {
                    Some(x) => Ok(SubToken::String(x)),
                    None => Err(Error::Range),
                },
                Err(e) => Err(e),
            }
        } else if 65 <= b && b <= 90 {
            self.lex_tag()
        } else if (48 <= b && b <= 57) || b == 45 {
            self.lex_number()
        } else if b == 116 {
            let w = vec![116u8, 114u8, 117u8, 101u8];
            self.lex_word(&w, true)
        } else if b == 102 {
            let w = vec![102u8, 97u8, 108u8, 115u8, 101u8];
            self.lex_word(&w, false)
        } else {
            Err(Error::InvalidToken)
        }
    }

    /// A vector or box after its `[`.
    fn read_vec(&mut self) -> (r: Result<Value<Vec<u8>>, Error>)
        requires
            old(self).wf(),
        ensures
            final(self).wf(),
            final(self).input == old(self).input,
            final(self).pos >= old(self).pos,
            r is Ok ==> final(self).pos > old(self).pos,
            match read_vec_spec(old(self).input@, old(self).pos as nat, seq![]) {
                Ok((v, k)) => r matches Ok(x) && text_value(x) == v && final(self).pos == k,
                Err(e) => r matches Err(e2) && e2 == e,
            },
        decreases old(self).input@.len() - old(self).pos, 0nat,
    {
        let mut xs: Vec<Vec<u8>> = Vec::new();
        assert(xs@.map_values(|y: Vec<u8>| y@) =~= seq![]);
        loop
            invariant
                self.wf(),
                self.input == old(self).input,
                self.pos >= old(self).pos,
                xs@.len() <= 4,
                read_vec_spec(old(self).input@, old(self).pos as nat, seq![]) == read_vec_spec(
                    self.input@,
                    self.pos as nat,
                    xs@.map_values(|y: Vec<u8>| y@),
                ),
            decreases self.input@.len() - self.pos,
        {
            let ghost lits = xs@.map_values(|y: Vec<u8>| y@);
            match self.lex() {
                Ok(SubToken::VecEnd) => {
                    if xs.len() == 2 {
                        let y = xs.pop().unwrap();
                        let x = xs.pop().unwrap();
                        return Ok(Value::Vec2((x, y)));
                    } else if xs.len() == 3 {
                        let z = xs.pop().unwrap();
                        let y = xs.pop().unwrap();
                        let x = xs.pop().unwrap();
                        return Ok(Value::Vec3((x, y, z)));
                    } else if xs.len() == 4 {
                        let w = xs.pop().unwrap();
                        let z = xs.pop().unwrap();
                        let y = xs.pop().unwrap();
                        let x = xs.pop().unwrap();
                        return Ok(Value::Vec4((x, y, z, w)));
                    } else {
                        return Err(Error::InvalidToken);
                    }
                },
                Ok(SubToken::VecStart) => {
                    if xs.len() == 0 {
                        return self.read_box2();
                    } else {
                        return Err(Error::InvalidToken);
                    }
                },
                Ok(SubToken::Double(d)) => {
                    if xs.len() < 4 {
                        xs.push(d);
                        assert(xs@.map_values(|y: Vec<u8>| y@) =~= lits.push(xs@[xs@.len() - 1]@));
                    } else {
                        return Err(Error::InvalidToken);
                    }
                },
                Ok(_) => return Err(Error::InvalidToken),
                Err(e) => return Err(e),
            }
        }
    }

    /// A box after its second `[`.
    fn read_box2(&mut self) -> (r: Result<Value<Vec<u8>>, Error>)
        requires
            old(self).wf(),
        ensures
            final(self).wf(),
            final(self).input == old(self).input,
            final(self).pos >= old(self).pos,
            r is Ok ==> final(self).pos > old(self).pos,
            match read_box2_spec(old(self).input@, old(self).pos as nat) {
                Ok((v, k)) => r matches Ok(x) && text_value(x) == v && final(self).pos == k,
                Err(e) => r matches Err(e2) && e2 == e,
            },
        decreases old(self).input@.len() - old(self).pos, 1nat,
    {
        let a = match self.read_vec() {
            Ok(Value::Vec2(a)) => a,
            Ok(_) => return Err(Error::InvalidToken),
            Err(e) => return Err(e),
        };
        match self.lex() {
            Ok(SubToken::VecStart) => {},
            Ok(_) => return Err(Error::InvalidToken),
            Err(e) => return Err(e),
        }
        let b = match self.read_vec() {
            Ok(Value::Vec2(b)) => b,
            Ok(_) => return Err(Error::InvalidToken),
            Err(e) => return Err(e),
        };
        match self.lex() {
            Ok(SubToken::VecEnd) => Ok(Value::Box2((a, b))),
            Ok(_) => Err(Error::InvalidToken),
            Err(e) => Err(e),
        }
    }

    fn read_bools(&mut self, first: bool) -> (r: Result<Value<Vec<u8>>, Error>)
        requires
            old(self).wf(),
        ensures
            final(self).wf(),
            final(self).input == old(self).input,
            final(self).pos >= old(self).pos,
            match bools_spec(old(self).input@, old(self).pos as nat, seq![first]) {
                Ok((v, k)) => r matches Ok(x) && text_value(x) == v && final(self).pos == k,
                Err(e) => r matches Err(e2) && e2 == e,
            },
    {
        let mut acc: Vec<bool> = Vec::new();
        acc.push(first);
        assert(acc@ =~= seq![acc@[0]]);
        loop
            invariant
                self.wf(),
                self.input == old(self).input,
                self.pos >= old(self).pos,
                bools_spec(old(self).input@, old(self).pos as nat, seq![first]) == bools_spec(
                    self.input@,
                    self.pos as nat,
                    acc@,
                ),
            decreases self.input@.len() - self.pos,
        {
            let ghost before = acc@;
            match self.lex() {
                Ok(SubToken::Bool(x)) => {
                    let ghost gx = x;
                    acc.push(x);
                    assert(acc@ =~= before.push(gx));
                },
                Ok(SubToken::ArrayEnd) => return Ok(Value::BoolArray(acc)),
                Ok(_) => return Err(Error::InvalidToken),
                Err(e) => return Err(e),
            }
        }
    }

    fn read_ints(&mut self, first: i32) -> (r: Result<Value<Vec<u8>>, Error>)
        requires
            old(self).wf(),
        ensures
            final(self).wf(),
            final(self).input == old(self).input,
            final(self).pos >= old(self).pos,
            match ints_spec(old(self).input@, old(self).pos as nat, seq![first]) {
                Ok((v, k)) => r matches Ok(x) && text_value(x) == v && final(self).pos == k,
                Err(e) => r matches Err(e2) && e2 == e,
            },
    {
        let mut acc: Vec<i32> = Vec::new();
        acc.push(first);
        assert(acc@ =~= seq![acc@[0]]);
        loop
            invariant
                self.wf(),
                self.input == old(self).input,
                self.pos >= old(self).pos,
                ints_spec(old(self).input@, old(self).pos as nat, seq![first]) == ints_spec(
                    self.input@,
                    self.pos as nat,
                    acc@,
                ),
            decreases self.input@.len() - self.pos,
        {
            let ghost before = acc@;
            match self.lex() {
                Ok(SubToken::Int(x)) => {
                    let ghost gx = x;
                    acc.push(x);
                    assert(acc@ =~= before.push(gx));
                },
                Ok(SubToken::ArrayEnd) => return Ok(Value::IntArray(acc)),
                Ok(_) => return Err(Error::InvalidToken),
                Err(e) => return Err(e),
            }
        }
    }

    fn read_doubles(&mut self, first: Vec<u8>) -> (r: Result<Value<Vec<u8>>, Error>)
        requires
            old(self).wf(),
        ensures
            final(self).wf(),
            final(self).input == old(self).input,
            final(self).pos >= old(self).pos,
            match doubles_spec(old(self).input@, old(self).pos as nat, seq![first@]) {
                Ok((v, k)) => r matches Ok(x) && text_value(x) == v && final(self).pos == k,
                Err(e) => r matches Err(e2) && e2 == e,
            },
    {
        let mut acc: Vec<Vec<u8>> = Vec::new();
        acc.push(first);
        assert(acc@.map_values(|y: Vec<u8>| y@) =~= seq![acc@[0]@]);
        loop
            invariant
                self.wf(),
                self.input == old(self).input,
                self.pos >= old(self).pos,
                doubles_spec(old(self).input@, old(self).pos as nat, seq![first@]) == doubles_spec(
                    self.input@,
                    self.pos as nat,
                    acc@.map_values(|y: Vec<u8>| y@),
                ),
            decreases self.input@.len() - self.pos,
        {
            let ghost before = acc@.map_values(|y: Vec<u8>| y@);
            match self.lex() {
                Ok(SubToken::Double(x)) => {
                    let ghost gx = x@;
                    acc.push(x);
                    assert(acc@.map_values(|y: Vec<u8>| y@) =~= before.push(gx));
                },
                Ok(SubToken::ArrayEnd) => return Ok(Value::DoubleArray(acc)),
                Ok(_) => return Err(Error::InvalidToken),
                Err(e) => return Err(e),
            }
        }
    }

    fn read_vec2s(&mut self, first: (Vec<u8>, Vec<u8>)) -> (r: Result<Value<Vec<u8>>, Error>)
        requires
            old(self).wf(),
        ensures
            final(self).wf(),
            final(self).input == old(self).input,
            final(self).pos >= old(self).pos,
            match vec2s_spec(old(self).input@, old(self).pos as nat, seq![lit2(first)]) {
                Ok((v, k)) => r matches Ok(x) && text_value(x) == v && final(self).pos == k,
                Err(e) => r matches Err(e2) && e2 == e,
            },
    {
        let mut acc: Vec<(Vec<u8>, Vec<u8>)> = Vec::new();
        acc.push(first);
        assert(acc@.map_values(|y: (Vec<u8>, Vec<u8>)| lit2(y)) =~= seq![lit2(acc@[0])]);
        loop
            invariant
                self.wf(),
                self.input == old(self).input,
                self.pos >= old(self).pos,
                vec2s_spec(old(self).input@, old(self).pos as nat, seq![lit2(first)]) == vec2s_spec(
                    self.input@,
                    self.pos as nat,
                    acc@.map_values(|y: (Vec<u8>, Vec<u8>)| lit2(y)),
                ),
            decreases self.input@.len() - self.pos,
        {
            let ghost before = acc@.map_values(|y: (Vec<u8>, Vec<u8>)| lit2(y));
            match self.lex() {
                Ok(SubToken::VecStart) => {
                    match self.read_vec() {
                        Ok(Value::Vec2(x)) => {
                            let ghost gx = lit2(x);
                            acc.push(x);
                            assert(acc@.map_values(|y: (Vec<u8>, Vec<u8>)| lit2(y)) =~= before.push(gx));
                        },
                        Ok(_) => return Err(Error::InvalidToken),
                        Err(e) => return Err(e),
                    }
                },
                Ok(SubToken::ArrayEnd) => return Ok(Value::Vec2Array(acc)),
                Ok(_) => return Err(Error::InvalidToken),
                Err(e) => return Err(e),
            }
        }
    }

    fn read_vec3s(&mut self, first: (Vec<u8>, Vec<u8>, Vec<u8>)) -> (r: Result<Value<Vec<u8>>, Error>)
        requires
            old(self).wf(),
        ensures
            final(self).wf(),
            final(self).input == old(self).input,
            final(self).pos >= old(self).pos,
            match vec3s_spec(old(self).input@, old(self).pos as nat, seq![lit3(first)]) {
                Ok((v, k)) => r matches Ok(x) && text_value(x) == v && final(self).pos == k,
                Err(e) => r matches Err(e2) && e2 == e,
            },
    {
        let mut acc: Vec<(Vec<u8>, Vec<u8>, Vec<u8>)> = Vec::new();
        acc.push(first);
        assert(acc@.map_values(|y: (Vec<u8>, Vec<u8>, Vec<u8>)| lit3(y)) =~= seq![lit3(acc@[0])]);
        loop
            invariant
                self.wf(),
                self.input == old(self).input,
                self.pos >= old(self).pos,
                vec3s_spec(old(self).input@, old(self).pos as nat, seq![lit3(first)]) == vec3s_spec(
                    self.input@,
                    self.pos as nat,
                    acc@.map_values(|y: (Vec<u8>, Vec<u8>, Vec<u8>)| lit3(y)),
                ),
            decreases self.input@.len() - self.pos,
        {
            let ghost before = acc@.map_values(|y: (Vec<u8>, Vec<u8>, Vec<u8>)| lit3(y));
            match self.lex() {
                Ok(SubToken::VecStart) => {
                    match self.read_vec() {
                        Ok(Value::Vec3(x)) => {
                            let ghost gx = lit3(x);
                            acc.push(x);
                            assert(acc@.map_values(|y: (Vec<u8>, Vec<u8>, Vec<u8>)| lit3(y)) =~= before.push(gx));
                        },
                        Ok(_) => return Err(Error::InvalidToken),
                        Err(e) => return Err(e),
                    }
                },
                Ok(SubToken::ArrayEnd) => return Ok(Value::Vec3Array(acc)),
                Ok(_) => return Err(Error::InvalidToken),
                Err(e) => return Err(e),
            }
        }
    }

    fn read_vec4s(&mut self, first: (Vec<u8>, Vec<u8>, Vec<u8>, Vec<u8>)) -> (r: Result<Value<Vec<u8>>, Error>)
        requires
            old(self).wf(),
        ensures
            final(self).wf(),
            final(self).input == old(self).input,
            final(self).pos >= old(self).pos,
            match vec4s_spec(old(self).input@, old(self).pos as nat, seq![lit4(first)]) {
                Ok((v, k)) => r matches Ok(x) && text_value(x) == v && final(self).pos == k,
                Err(e) => r matches Err(e2) && e2 == e,
            },
    {
        let mut acc: Vec<(Vec<u8>, Vec<u8>, Vec<u8>, Vec<u8>)> = Vec::new();
        acc.push(first);
        assert(acc@.map_values(|y: (Vec<u8>, Vec<u8>, Vec<u8>, Vec<u8>)| lit4(y)) =~= seq![lit4(acc@[0])]);
        loop
            invariant
                self.wf(),
                self.input == old(self).input,
                self.pos >= old(self).pos,
                vec4s_spec(old(self).input@, old(self).pos as nat, seq![lit4(first)]) == vec4s_spec(
                    self.input@,
                    self.pos as nat,
                    acc@.map_values(|y: (Vec<u8>, Vec<u8>, Vec<u8>, Vec<u8>)| lit4(y)),
                ),
            decreases self.input@.len() - self.pos,
        {
            let ghost before = acc@.map_values(|y: (Vec<u8>, Vec<u8>, Vec<u8>, Vec<u8>)| lit4(y));
            match self.lex() {
                Ok(SubToken::VecStart) => {
                    match self.read_vec() {
                        Ok(Value::Vec4(x)) => {
                            let ghost gx = lit4(x);
                            acc.push(x);
                            assert(acc@.map_values(|y: (Vec<u8>, Vec<u8>, Vec<u8>, Vec<u8>)| lit4(y)) =~= before.push(gx));
                        },
                        Ok(_) => return Err(Error::InvalidToken),
                        Err(e) => return Err(e),
                    }
                },
                Ok(SubToken::ArrayEnd) => return Ok(Value::Vec4Array(acc)),
                Ok(_) => return Err(Error::InvalidToken),
                Err(e) => return Err(e),
            }
        }
    }

    fn read_box2s(&mut self, first: ((Vec<u8>, Vec<u8>), (Vec<u8>, Vec<u8>))) -> (r: Result<Value<Vec<u8>>, Error>)
        requires
            old(self).wf(),
        ensures
            final(self).wf(),
            final(self).input == old(self).input,
            final(self).pos >= old(self).pos,
            match box2s_spec(old(self).input@, old(self).pos as nat, seq![litb(first)]) {
                Ok((v, k)) => r matches Ok(x) && text_value(x) == v && final(self).pos == k,
                Err(e) => r matches Err(e2) && e2 == e,
            },
    {
        let mut acc: Vec<((Vec<u8>, Vec<u8>), (Vec<u8>, Vec<u8>))> = Vec::new();
        acc.push(first);
        assert(acc@.map_values(|y: ((Vec<u8>, Vec<u8>), (Vec<u8>, Vec<u8>))| litb(y)) =~= seq![litb(acc@[0])]);
        loop
            invariant
                self.wf(),
                self.input == old(self).input,
                self.pos >= old(self).pos,
                box2s_spec(old(self).input@, old(self).pos as nat, seq![litb(first)]) == box2s_spec(
                    self.input@,
                    self.pos as nat,
                    acc@.map_values(|y: ((Vec<u8>, Vec<u8>), (Vec<u8>, Vec<u8>))| litb(y)),
                ),
            decreases self.input@.len() - self.pos,
        {
            let ghost before = acc@.map_values(|y: ((Vec<u8>, Vec<u8>), (Vec<u8>, Vec<u8>))| litb(y));
            match self.lex() {
                Ok(SubToken::VecStart) => {
                    match self.read_vec() {
                        Ok(Value::Box2(x)) => {
                            let ghost gx = litb(x);
                            acc.push(x);
                            assert(acc@.map_values(|y: ((Vec<u8>, Vec<u8>), (Vec<u8>, Vec<u8>))| litb(y)) =~= before.push(gx));
                        },
                        Ok(_) => return Err(Error::InvalidToken),
                        Err(e) => return Err(e),
                    }
                },
                Ok(SubToken::ArrayEnd) => return Ok(Value::Box2Array(acc)),
                Ok(_) => return Err(Error::InvalidToken),
                Err(e) => return Err(e),
            }
        }
    }

    /// An array after its `{`.
    fn read_array(&mut self) -> (r: Result<Value<Vec<u8>>, Error>)
        requires
            old(self).wf(),
        ensures
            final(self).wf(),
            final(self).input == old(self).input,
            final(self).pos >= old(self).pos,
            match read_array_spec(old(self).input@, old(self).pos as nat) {
                Ok((v, k)) => r matches Ok(x) && text_value(x) == v && final(self).pos == k,
                Err(e) => r matches Err(e2) && e2 == e,
            },
    {
        match self.lex() {
            Ok(SubToken::Bool(v)) => self.read_bools(v),
            Ok(SubToken::Int(v)) => self.read_ints(v),
            Ok(SubToken::Double(v)) => self.read_doubles(v),
            Ok(SubToken::VecStart) => match self.read_vec() {
                Ok(Value::Vec2(v)) => self.read_vec2s(v),
                Ok(Value::Vec3(v)) => self.read_vec3s(v),
                Ok(Value::Vec4(v)) => self.read_vec4s(v),
                Ok(Value::Box2(v)) => self.read_box2s(v),
                Ok(_) => Err(Error::InvalidToken),
                Err(e) => Err(e),
            },
            Ok(_) => Err(Error::InvalidToken),
            Err(e) => Err(e),
        }
    }

    /// Reads the next token: `EndOfFile` once only spaces are left.
    pub fn read_next(&mut self) -> (r: Result<Token<Vec<u8>>, Error>)
        requires
            old(self).wf(),
        ensures
            final(self).wf(),
            final(self).input == old(self).input,
            match read_next_spec(old(self).input@, old(self).pos as nat) {
                Ok((t, k)) => r matches Ok(x) && text_token(x) == t && final(self).pos == k,
                Err(e) => r matches Err(e2) && e2 == e,
            },
    {
        match self.lex() {
            Ok(SubToken::Start) => Ok(Token::Start),
            Ok(SubToken::End) => Ok(Token::End),
            Ok(SubToken::EndOfFile) => Ok(Token::EndOfFile),
            Ok(SubToken::Tag(x)) => Ok(Token::Value(Value::Tag(x))),
            Ok(SubToken::Bool(x)) => Ok(Token::Value(Value::Bool(x))),
            Ok(SubToken::Int(x)) => Ok(Token::Value(Value::Int(x))),
            Ok(SubToken::Double(x)) => Ok(Token::Value(Value::Double(x))),
            Ok(SubToken::String(x)) => Ok(Token::Value(Value::String(x))),
            Ok(SubToken::Blob(x)) => Ok(Token::Value(Value::Blob(x))),
            Ok(SubToken::VecStart) => match self.read_vec() {
                Ok(v) => Ok(Token::Value(v)),
                Err(e) => Err(e),
            },
            Ok(SubToken::ArrayStart) => match self.read_array() {
                Ok(v) => Ok(Token::Value(v)),
                Err(e) => Err(e),
            },
            Ok(_) => Err(Error::InvalidToken),
            Err(e) => Err(e),
        }
    }
}

// ---------------------------------------------------------------------------
// Reading back what the writer wrote.

/// Text round trip for booleans: `true` or `false`, then a space, reads back.
pub proof fn lemma_text_bool_round_trip(b: bool, r: Seq<u8>)
    ensures
        read_next_spec(bool_text(b) + seq![32u8] + r, 0) == Ok::<(TokenView<Lit>, nat), Error>(
            (TokenView::Value(ValueView::Bool(b)), bool_text(b).len()),
        ),
{
    let s = bool_text(b) + seq![32u8] + r;
    let w = bool_text(b);
    assert(forall|k: int| 0 <= k < w.len() ==> s[k] == w[k]);
    assert(s[w.len() as int] == 32u8);
    assert(skip_spaces(s, 0) == 0);
    if b {
        assert(w =~= seq![116u8, 114u8, 117u8, 101u8]);
        assert(lex_word(s, 4, w, 4, true) == Ok::<(Lexeme, nat), Error>((Lexeme::Bool(true), 4)));
        assert(lex_word(s, 0, w, 0, true) == lex_word(s, 4, w, 4, true)) by {
            reveal_with_fuel(lex_word, 5);
        }
    } else {
        assert(w =~= seq![102u8, 97u8, 108u8, 115u8, 101u8]);
        assert(lex_word(s, 5, w, 5, false) == Ok::<(Lexeme, nat), Error>((Lexeme::Bool(false), 5)));
        assert(lex_word(s, 0, w, 0, false) == lex_word(s, 5, w, 5, false)) by {
            reveal_with_fuel(lex_word, 6);
        }
    }
}

/// Reading the doubled-quote form of `b` from position `i` adds `b` to what
/// was read and stops just after it, in the same state.
proof fn lemma_lex_escaped(s: Seq<u8>, i: nat, b: Seq<u8>, acc: Seq<u8>)
    requires
        i + escape(b).len() <= s.len(),
        s.subrange(i as int, (i + escape(b).len()) as int) == escape(b),
    ensures
        lex_string(s, i, false, acc) == lex_string(s, i + escape(b).len(), false, acc + b),
    decreases b.len(),
{
    if b.len() == 0 {
        assert(acc + b =~= acc);
    } else {
        let init = b.drop_last();
        let last = b.last();
        let k = i + escape(init).len();
        assert(escape(b).subrange(0, escape(init).len() as int) =~= escape(init));
        assert(s.subrange(i as int, k as int) =~= s.subrange(i as int, (i + escape(b).len()) as int).subrange(
            0,
            escape(init).len() as int,
        ));
        lemma_lex_escaped(s, i, init, acc);
        assert(s[k as int] == s.subrange(i as int, (i + escape(b).len()) as int)[escape(init).len() as int]);
        reveal_with_fuel(lex_string, 3);
        if last == 34 {
            assert(s[(k + 1) as int] == s.subrange(i as int, (i + escape(b).len()) as int)[(escape(init).len() + 1) as int]);
            assert((acc + init).push(34) =~= acc + b);
        } else {
            assert((acc + init).push(last) =~= acc + b);
        }
    }
}

/// Text round trip for strings: a string written with its quotes doubled,
/// then a space, reads back as the same characters.
pub proof fn lemma_text_string_round_trip(c: Seq<char>, r: Seq<u8>)
    ensures
        read_next_spec(seq![34u8] + escape(encode_utf8(c)) + seq![34u8] + seq![32u8] + r, 0)
            == Ok::<(TokenView<Lit>, nat), Error>(
            (TokenView::Value(ValueView::String(c)), escape(encode_utf8(c)).len() + 2),
        ),
{
    let b = encode_utf8(c);
    let e = escape(b);
    let s = seq![34u8] + e + seq![34u8] + seq![32u8] + r;
    assert(s.subrange(1, (1 + e.len()) as int) =~= e);
    assert(s[0] == 34u8);
    assert(s[(1 + e.len()) as int] == 34u8);
    assert(s[(2 + e.len()) as int] == 32u8);
    assert(skip_spaces(s, 0) == 0);
    lemma_lex_escaped(s, 1, b, seq![]);
    assert(seq![] + b =~= b);
    reveal_with_fuel(lex_string, 3);
    vstd::utf8::encode_utf8_valid_utf8(c);
    vstd::utf8::encode_utf8_decode_utf8(c);
}

proof fn lemma_digits(n: nat)
    ensures
        digits(n).len() >= 1,
        forall|k: int| 0 <= k < digits(n).len() ==> #[trigger] is_digit(digits(n)[k]),
        digits_value(digits(n)) == n,
    decreases n,
{
    if n >= 10 {
        lemma_digits(n / 10);
        let d = digits(n / 10);
        assert(digits(n).drop_last() =~= d);
        assert(digits(n).last() == (n % 10 + 48) as u8);
        assert(((n % 10 + 48) as u8) as int == n % 10 + 48);
        assert(n == (n / 10) * 10 + n % 10);
        assert(digits_value(digits(n)) == digits_value(d) * 10 + (n % 10));
    } else {
        assert(digits(n).drop_last() =~= seq![]);
        assert(((n + 48) as u8) as int == n + 48);
        assert(digits_value(digits(n)) == digits_value(seq![]) * 10 + n);
    }
}

/// Reading decimal digits from position `i` adds them to the literal read
/// so far.
proof fn lemma_lex_digits(s: Seq<u8>, i: nat, ds: Seq<u8>, buf: Seq<u8>)
    requires
        i + ds.len() <= s.len(),
        s.subrange(i as int, (i + ds.len()) as int) == ds,
        forall|k: int| 0 <= k < ds.len() ==> #[trigger] is_digit(ds[k]),
    ensures
        lex_number(s, i, buf) == lex_number(s, i + ds.len(), buf + ds),
    decreases ds.len(),
{
    if ds.len() == 0 {
        assert(buf + ds =~= buf);
    } else {
        let init = ds.drop_last();
        let k = i + init.len();
        assert(s.subrange(i as int, k as int) =~= ds.subrange(0, init.len() as int));
        assert(ds.subrange(0, init.len() as int) =~= init);
        lemma_lex_digits(s, i, init, buf);
        assert(s[k as int] == ds[init.len() as int]);
        assert(is_digit(ds[init.len() as int]));
        assert((buf + init).push(ds.last()) =~= buf + ds);
    }
}

/// Text round trip for integers: the decimal form, then a space, reads back.
pub proof fn lemma_text_int_round_trip(x: i32, r: Seq<u8>)
    ensures
        read_next_spec(int_text(x as int) + seq![32u8] + r, 0) == Ok::<(TokenView<Lit>, nat), Error>(
            (TokenView::Value(ValueView::Int(x)), int_text(x as int).len()),
        ),
{
    let t = int_text(x as int);
    let s = t + seq![32u8] + r;
    assert(s[t.len() as int] == 32u8);
    if x < 0 {
        let n = (-(x as int)) as nat;
        let ds = digits(n);
        lemma_digits(n);
        assert(t =~= seq![45u8] + ds);
        assert(s[0] == 45u8);
        assert(s.subrange(1, (1 + ds.len()) as int) =~= ds);
        lemma_lex_digits(s, 1, ds, seq![45u8]);
        assert((seq![45u8] + ds).skip(1) =~= ds);
        assert(lex_number(s, 0, seq![]) == lex_number(s, 1, seq![45u8])) by {
            assert(seq![].push(45u8) =~= seq![45u8]);
        }
    } else {
        let n = x as nat;
        let ds = digits(n);
        lemma_digits(n);
        assert(t == ds);
        assert(s.subrange(0, ds.len() as int) =~= ds);
        assert(is_digit(ds[0]));
        lemma_lex_digits(s, 0, ds, seq![]);
        assert(seq![] + ds =~= ds);
    }
    assert(skip_spaces(s, 0) == 0);
}

proof fn lemma_hex_digit(v: u8)
    requires
        v < 16,
    ensures
        hex_value(hex_digit(v)) == Some(v),
        !is_terminator(hex_digit(v)),
{
}

/// Reading the hex pairs of `b` from position `i`, with no digit pending,
/// adds the bytes of `b` to what was read.
proof fn lemma_lex_hex(s: Seq<u8>, i: nat, b: Seq<u8>, acc: Seq<u8>)
    requires
        i + hex_text(b).len() <= s.len(),
        s.subrange(i as int, (i + hex_text(b).len()) as int) == hex_text(b),
    ensures
        hex_text(b).len() == 2 * b.len(),
        lex_blob(s, i, None, acc) == lex_blob(s, i + hex_text(b).len(), None, acc + b),
    decreases b.len(),
{
    if b.len() == 0 {
        assert(acc + b =~= acc);
    } else {
        let init = b.drop_last();
        let x = b.last();
        let k = i + hex_text(init).len();
        assert(hex_text(b).subrange(0, hex_text(init).len() as int) =~= hex_text(init));
        assert(s.subrange(i as int, k as int) =~= s.subrange(
            i as int,
            (i + hex_text(b).len()) as int,
        ).subrange(0, hex_text(init).len() as int));
        lemma_lex_hex(s, i, init, acc);
        let whole = s.subrange(i as int, (i + hex_text(b).len()) as int);
        assert(hex_text(b) == hex_text(init) + seq![hex_digit(x / 16), hex_digit(x % 16)]);
        assert(whole[hex_text(init).len() as int] == hex_digit(x / 16));
        assert(whole[(hex_text(init).len() + 1) as int] == hex_digit(x % 16));
        assert(s[k as int] == whole[hex_text(init).len() as int]);
        assert(s[(k + 1) as int] == whole[(hex_text(init).len() + 1) as int]);
        lemma_hex_digit(x / 16);
        lemma_hex_digit(x % 16);
        reveal_with_fuel(lex_blob, 3);
        assert(((x / 16) * 16 + x % 16) as u8 == x);
        assert((acc + init).push(x) =~= acc + b);
    }
}

/// Text round trip for blobs: `0x` and the hex pairs, then a space, read
/// back as the same bytes.
pub proof fn lemma_text_blob_round_trip(b: Seq<u8>, r: Seq<u8>)
    ensures
        read_next_spec(seq![48u8, 120u8] + hex_text(b) + seq![32u8] + r, 0) == Ok::<
            (TokenView<Lit>, nat),
            Error,
        >((TokenView::Value(ValueView::Blob(b)), hex_text(b).len() + 2)),
{
    let h = hex_text(b);
    let s = seq![48u8, 120u8] + h + seq![32u8] + r;
    assert(s[0] == 48u8);
    assert(s[1] == 120u8);
    assert(s.subrange(2, (2 + h.len()) as int) =~= h);
    assert(s[(2 + h.len()) as int] == 32u8);
    assert(skip_spaces(s, 0) == 0);
    lemma_lex_hex(s, 2, b, seq![]);
    assert(seq![] + b =~= b);
    assert(seq![].push(48u8) =~= seq![48u8]);
    reveal_with_fuel(lex_number, 3);
}

pub open spec fn all_digits(ds: Seq<u8>) -> bool {
    forall|k: int| 0 <= k < ds.len() ==> #[trigger] is_digit(ds[k])
}

/// A double literal of the grammar: an optional `-`, integer digits, `.`,
/// fraction digits, and optionally `e`, an optional `-` and exponent digits.
pub open spec fn double_literal(neg: bool, ip: Seq<u8>, fp: Seq<u8>, exp: Option<(bool, Seq<u8>)>) -> Seq<u8> {
    (if neg {
        seq![45u8]
    } else {
        seq![]
    }) + ip + seq![46u8] + fp + match exp {
        Some((eneg, ep)) => seq![101u8] + (if eneg {
            seq![45u8]
        } else {
            seq![]
        }) + ep,
        None => seq![],
    }
}

/// Reading digits inside a double literal moves to the digits phase.
proof fn lemma_fraction_digits(s: Seq<u8>, i: nat, ds: Seq<u8>, phase: nat, buf: Seq<u8>)
    requires
        ds.len() > 0,
        i + ds.len() <= s.len(),
        s.subrange(i as int, (i + ds.len()) as int) == ds,
        all_digits(ds),
        phase <= 4,
    ensures
        lex_fraction(s, i, phase, buf) == lex_fraction(
            s,
            i + ds.len(),
            if phase <= 1 {
                1
            } else {
                4
            },
            buf + ds,
        ),
    decreases ds.len(),
{
    let init = ds.drop_last();
    let k = i + init.len();
    assert(s[k as int] == ds[init.len() as int]);
    assert(is_digit(ds[init.len() as int]));
    assert((buf + init).push(ds.last()) =~= buf + ds);
    if init.len() > 0 {
        assert(s.subrange(i as int, k as int) =~= ds.subrange(0, init.len() as int));
        assert(ds.subrange(0, init.len() as int) =~= init);
        lemma_fraction_digits(s, i, init, phase, buf);
    } else {
        assert(buf + init =~= buf);
    }
}

pub open spec fn exponent_text(exp: Option<(bool, Seq<u8>)>) -> Seq<u8> {
    match exp {
        Some((eneg, ep)) => seq![101u8] + (if eneg {
            seq![45u8]
        } else {
            seq![]
        }) + ep,
        None => seq![],
    }
}

proof fn lemma_exponent_tail(s: Seq<u8>, m: nat, buf: Seq<u8>, exp: Option<(bool, Seq<u8>)>)
    requires
        exp matches Some((_, ep)) ==> ep.len() > 0 && all_digits(ep),
        m + exponent_text(exp).len() < s.len(),
        s.subrange(m as int, (m + exponent_text(exp).len()) as int) == exponent_text(exp),
        is_terminator(s[(m + exponent_text(exp).len()) as int]),
    ensures
        lex_fraction(s, m, 1, buf) == Ok::<(Lexeme, nat), Error>(
            (Lexeme::Double(buf + exponent_text(exp)), m + exponent_text(exp).len()),
        ),
{
    let t = exponent_text(exp);
    match exp {
        None => {
            assert(t =~= seq![]);
            assert(buf + t =~= buf);
            assert(m < s.len());
            assert(is_terminator(s[m as int]));
            assert(lex_fraction(s, m, 1, buf) == Ok::<(Lexeme, nat), Error>(
                (Lexeme::Double(buf), m),
            ));
        },
        Some((eneg, ep)) => {
            assert(s[m as int] == t[0]);
            let buf2 = buf.push(101u8);
            let whole = s.subrange(m as int, (m + t.len()) as int);
            if eneg {
                assert(t =~= seq![101u8, 45u8] + ep);
                assert(s[(m + 1) as int] == t[1]);
                assert(whole.subrange(2, t.len() as int) =~= ep);
                assert(s.subrange((m + 2) as int, (m + 2 + ep.len()) as int) =~= whole.subrange(
                    2,
                    t.len() as int,
                ));
                lemma_fraction_digits(s, m + 2, ep, 3, buf2.push(45u8));
                assert(buf + t =~= buf2.push(45u8) + ep);
            } else {
                assert(t =~= seq![101u8] + ep);
                assert(whole.subrange(1, t.len() as int) =~= ep);
                assert(s.subrange((m + 1) as int, (m + 1 + ep.len()) as int) =~= whole.subrange(
                    1,
                    t.len() as int,
                ));
                lemma_fraction_digits(s, m + 1, ep, 2, buf2);
                assert(buf + t =~= buf2 + ep);
            }
        },
    }
}

/// A double literal of the grammar at position `i`, followed by a
/// terminator, is read as that literal.
proof fn lemma_lex_double(
    s: Seq<u8>,
    i: nat,
    neg: bool,
    ip: Seq<u8>,
    fp: Seq<u8>,
    exp: Option<(bool, Seq<u8>)>,
)
    requires
        ip.len() > 0 && all_digits(ip),
        fp.len() > 0 && all_digits(fp),
        exp matches Some((_, ep)) ==> ep.len() > 0 && all_digits(ep),
        i + double_literal(neg, ip, fp, exp).len() < s.len(),
        s.subrange(i as int, (i + double_literal(neg, ip, fp, exp).len()) as int) == double_literal(
            neg,
            ip,
            fp,
            exp,
        ),
        is_terminator(s[(i + double_literal(neg, ip, fp, exp).len()) as int]),
    ensures
        lex(s, i) == Ok::<(Lexeme, nat), Error>(
            (
                Lexeme::Double(double_literal(neg, ip, fp, exp)),
                i + double_literal(neg, ip, fp, exp).len(),
            ),
        ),
{
    let d = double_literal(neg, ip, fp, exp);
    let w = s.subrange(i as int, (i + d.len()) as int);
    let sign: Seq<u8> = if neg {
        seq![45u8]
    } else {
        seq![]
    };
    let a = i + sign.len();
    let head = sign + ip;
    let k = i + head.len();
    let t = exponent_text(exp);
    let buf = head.push(46u8) + fp;
    let m = k + 1 + fp.len();
    assert(d =~= buf + t);
    assert(s.subrange(a as int, k as int) =~= w.subrange(sign.len() as int, head.len() as int));
    assert(w.subrange(sign.len() as int, head.len() as int) =~= ip);
    assert(s[k as int] == w[head.len() as int]);
    assert(s.subrange((k + 1) as int, m as int) =~= w.subrange(
        (head.len() + 1) as int,
        (m - i) as int,
    ));
    assert(w.subrange((head.len() + 1) as int, (m - i) as int) =~= fp);
    assert(s.subrange(m as int, (m + t.len()) as int) =~= w.subrange((m - i) as int, d.len() as int));
    assert(w.subrange((m - i) as int, d.len() as int) =~= t);
    lemma_exponent_tail(s, m, buf, exp);
    lemma_fraction_digits(s, k + 1, fp, 0, head.push(46u8));
    lemma_lex_digits(s, a, ip, sign);
    assert(is_digit(ip[ip.len() - 1]));
    assert(head.last() == ip.last());
    assert(lex_number(s, k, head) == lex_fraction(s, k + 1, 0, head.push(46u8)));
    if neg {
        assert(s[i as int] == w[0]);
        assert(seq![].push(45u8) =~= sign);
        assert(lex_number(s, i, seq![]) == lex_number(s, i + 1, sign));
    } else {
        assert(is_digit(ip[0]));
        assert(s[i as int] == w[0]);
        assert(sign + ip =~= ip);
        assert(head =~= ip);
    }
    assert(skip_spaces(s, i) == i);
}

/// Text round trip for doubles: a literal of the grammar, then a space,
/// reads back as the same literal.
pub proof fn lemma_text_double_round_trip(
    neg: bool,
    ip: Seq<u8>,
    fp: Seq<u8>,
    exp: Option<(bool, Seq<u8>)>,
    r: Seq<u8>,
)
    requires
        ip.len() > 0 && all_digits(ip),
        fp.len() > 0 && all_digits(fp),
        exp matches Some((_, ep)) ==> ep.len() > 0 && all_digits(ep),
    ensures
        read_next_spec(double_literal(neg, ip, fp, exp) + seq![32u8] + r, 0) == Ok::<
            (TokenView<Lit>, nat),
            Error,
        >(
            (
                TokenView::Value(ValueView::Double(double_literal(neg, ip, fp, exp))),
                double_literal(neg, ip, fp, exp).len(),
            ),
        ),
{
    let d = double_literal(neg, ip, fp, exp);
    let s = d + seq![32u8] + r;
    assert(s.subrange(0, d.len() as int) =~= d);
    assert(s[d.len() as int] == 32u8);
    lemma_lex_double(s, 0, neg, ip, fp, exp);
}

/// Text round trip for tags: four tag characters, the first a letter, then
/// a space, read back as the same tag.
pub proof fn lemma_text_tag_round_trip(a: u8, b: u8, c: u8, d: u8, r: Seq<u8>)
    requires
        65 <= a <= 90,
        is_tag_char(b),
        is_tag_char(c),
        is_tag_char(d),
    ensures
        read_next_spec(tag_text(spec_tag(a, b, c, d)) + seq![32u8] + r, 0) == Ok::<
            (TokenView<Lit>, nat),
            Error,
        >((TokenView::Value(ValueView::Tag(spec_tag(a, b, c, d))), 4)),
{
    let t = spec_tag(a, b, c, d);
    let v = a as int * 0x1000000 + b as int * 0x10000 + c as int * 0x100 + d as int;
    assert(0 <= v < 0x100000000);
    assert(t as int == v);
    assert(v / 0x1000000 == a as int) by (nonlinear_arith)
        requires
            v == a as int * 0x1000000 + b as int * 0x10000 + c as int * 0x100 + d as int,
            0 <= b < 256,
            0 <= c < 256,
            0 <= d < 256,
    ;
    assert(v / 0x10000 % 0x100 == b as int) by (nonlinear_arith)
        requires
            v == a as int * 0x1000000 + b as int * 0x10000 + c as int * 0x100 + d as int,
            0 <= a < 256,
            0 <= b < 256,
            0 <= c < 256,
            0 <= d < 256,
    ;
    assert(v / 0x100 % 0x100 == c as int) by (nonlinear_arith)
        requires
            v == a as int * 0x1000000 + b as int * 0x10000 + c as int * 0x100 + d as int,
            0 <= a < 256,
            0 <= b < 256,
            0 <= c < 256,
            0 <= d < 256,
    ;
    assert(v % 0x100 == d as int) by (nonlinear_arith)
        requires
            v == a as int * 0x1000000 + b as int * 0x10000 + c as int * 0x100 + d as int,
            0 <= a < 256,
            0 <= b < 256,
            0 <= c < 256,
            0 <= d < 256,
    ;
    assert(tag_text(t) =~= seq![a, b, c, d]);
    let s = tag_text(t) + seq![32u8] + r;
    assert(s[0] == a && s[1] == b && s[2] == c && s[3] == d && s[4] == 32u8);
    assert(skip_spaces(s, 0) == 0);
    assert(((a as nat * 256 + b) * 256 + c) * 256 + d == v);
    reveal_with_fuel(lex_tag, 5);
}

/// Coordinates separated by spaces, then `]`.
pub open spec fn coords_text(xs: Seq<Lit>) -> Seq<u8>
    decreases xs.len(),
{
    if xs.len() <= 1 {
        if xs.len() == 1 {
            xs[0] + seq![93u8]
        } else {
            seq![93u8]
        }
    } else {
        xs[0] + seq![32u8] + coords_text(xs.drop_first())
    }
}

/// `d` is a double literal of the grammar.
pub open spec fn is_literal(d: Seq<u8>) -> bool {
    exists|neg: bool, ip: Seq<u8>, fp: Seq<u8>, exp: Option<(bool, Seq<u8>)>|
        d == double_literal(neg, ip, fp, exp) && ip.len() > 0 && all_digits(ip) && fp.len() > 0
            && all_digits(fp) && (exp matches Some((_, ep)) ==> ep.len() > 0 && all_digits(ep))
}

proof fn lemma_lex_literal(s: Seq<u8>, i: nat, d: Seq<u8>)
    requires
        is_literal(d),
        i + d.len() < s.len(),
        s.subrange(i as int, (i + d.len()) as int) == d,
        is_terminator(s[(i + d.len()) as int]),
    ensures
        lex(s, i) == Ok::<(Lexeme, nat), Error>((Lexeme::Double(d), i + d.len())),
        d.len() > 0,
{
    let (neg, ip, fp, exp) = choose|neg: bool, ip: Seq<u8>, fp: Seq<u8>, exp: Option<(bool, Seq<u8>)>|
        d == double_literal(neg, ip, fp, exp) && ip.len() > 0 && all_digits(ip) && fp.len() > 0
            && all_digits(fp) && (exp matches Some((_, ep)) ==> ep.len() > 0 && all_digits(ep));
    lemma_lex_double(s, i, neg, ip, fp, exp);
}

proof fn lemma_lex_after_space(s: Seq<u8>, i: nat)
    requires
        i < s.len(),
        is_space(s[i as int]),
    ensures
        lex(s, i) == lex(s, i + 1),
{
    assert(skip_spaces(s, i) == skip_spaces(s, i + 1));
}

/// The coordinates of a vector after its `[`, read from position `i`.
proof fn lemma_vec_coords(s: Seq<u8>, i: nat, xs: Seq<Lit>, acc: Seq<Lit>) -> (end: nat)
    requires
        xs.len() >= 1,
        acc.len() + xs.len() <= 4,
        forall|k: int| 0 <= k < xs.len() ==> is_literal(#[trigger] xs[k]),
        i + coords_text(xs).len() <= s.len(),
        s.subrange(i as int, (i + coords_text(xs).len()) as int) == coords_text(xs),
    ensures
        end + 1 == i + coords_text(xs).len(),
        read_vec_spec(s, i, acc) == read_vec_spec(s, end, acc + xs),
    decreases xs.len(),
{
    let x = xs[0];
    let w = coords_text(xs);
    let k = i + x.len();
    assert(w.subrange(0, x.len() as int) =~= x);
    assert(s.subrange(i as int, k as int) =~= w.subrange(0, x.len() as int));
    assert(s[k as int] == w[x.len() as int]);
    if xs.len() == 1 {
        assert(w =~= x + seq![93u8]);
        lemma_lex_literal(s, i, x);
        assert(acc.push(x) =~= acc + xs);
        assert(read_vec_spec(s, i, acc) == read_vec_spec(s, k, acc.push(x)));
        k
    } else {
        let rest = xs.drop_first();
        assert(w =~= x + seq![32u8] + coords_text(rest));
        lemma_lex_literal(s, i, x);
        assert(s.subrange((k + 1) as int, (k + 1 + coords_text(rest).len()) as int) =~= w.subrange(
            (x.len() + 1) as int,
            w.len() as int,
        ));
        assert(w.subrange((x.len() + 1) as int, w.len() as int) =~= coords_text(rest));
        assert forall|j: int| 0 <= j < rest.len() implies is_literal(#[trigger] rest[j]) by {
            assert(rest[j] == xs[j + 1]);
        }
        let end = lemma_vec_coords(s, k + 1, rest, acc.push(x));
        assert(read_vec_spec(s, i, acc) == read_vec_spec(s, k, acc.push(x)));
        lemma_lex_after_space(s, k);
        let y = rest[0];
        let cr = coords_text(rest);
        if rest.len() == 1 {
            assert(cr =~= y + seq![93u8]);
        } else {
            assert(cr =~= y + seq![32u8] + coords_text(rest.drop_first()));
        }
        assert(cr.subrange(0, y.len() as int) =~= y);
        assert(s.subrange((k + 1) as int, (k + 1 + y.len()) as int) =~= cr.subrange(0, y.len() as int));
        assert(s[(k + 1 + y.len()) as int] == cr[y.len() as int]);
        lemma_lex_literal(s, k + 1, y);
        assert(read_vec_spec(s, k, acc.push(x)) == read_vec_spec(s, k + 1, acc.push(x)));
        assert(acc.push(x) + rest =~= acc + xs);
        end
    }
}

/// A vector of two, three or four coordinates read from `[` on.
proof fn lemma_vec_at(s: Seq<u8>, i: nat, xs: Seq<Lit>) -> (end: nat)
    requires
        2 <= xs.len() <= 4,
        forall|k: int| 0 <= k < xs.len() ==> is_literal(#[trigger] xs[k]),
        i + 1 + coords_text(xs).len() <= s.len(),
        s[i as int] == 91u8,
        s.subrange((i + 1) as int, (i + 1 + coords_text(xs).len()) as int) == coords_text(xs),
    ensures
        end == i + 1 + coords_text(xs).len(),
        read_vec_spec(s, i + 1, seq![]) == Ok::<(ValueView<Lit>, nat), Error>(
            (
                if xs.len() == 2 {
                    ValueView::Vec2((xs[0], xs[1]))
                } else if xs.len() == 3 {
                    ValueView::Vec3((xs[0], xs[1], xs[2]))
                } else {
                    ValueView::Vec4((xs[0], xs[1], xs[2], xs[3]))
                },
                end,
            ),
        ),
{
    let e = lemma_vec_coords(s, i + 1, xs, seq![]);
    assert(seq![] + xs =~= xs);
    let w = coords_text(xs);
    assert(s[e as int] == w[(w.len() - 1) as int]);
    assert(w[(w.len() - 1) as int] == 93u8) by {
        lemma_coords_last(xs);
    }
    assert(skip_spaces(s, e) == e);
    e + 1
}

proof fn lemma_coords_last(xs: Seq<Lit>)
    ensures
        coords_text(xs).len() >= 1,
        coords_text(xs)[coords_text(xs).len() - 1] == 93u8,
    decreases xs.len(),
{
    if xs.len() > 1 {
        lemma_coords_last(xs.drop_first());
        let w = coords_text(xs);
        assert(w =~= xs[0] + seq![32u8] + coords_text(xs.drop_first()));
    }
}

/// The values whose coordinates are all double literals of the grammar.
pub open spec fn vector_literals(v: ValueView<Vec<u8>>) -> bool {
    match v {
        ValueView::Vec2(x) => is_literal(x.0@) && is_literal(x.1@),
        ValueView::Vec3(x) => is_literal(x.0@) && is_literal(x.1@) && is_literal(x.2@),
        ValueView::Vec4(x) => is_literal(x.0@) && is_literal(x.1@) && is_literal(x.2@) && is_literal(
            x.3@,
        ),
        ValueView::Box2(x) => is_literal(x.0.0@) && is_literal(x.0.1@) && is_literal(x.1.0@)
            && is_literal(x.1.1@),
        _ => false,
    }
}

pub open spec fn vector_read(v: ValueView<Vec<u8>>) -> ValueView<Lit> {
    match v {
        ValueView::Vec2(x) => ValueView::Vec2(lit2(x)),
        ValueView::Vec3(x) => ValueView::Vec3(lit3(x)),
        ValueView::Vec4(x) => ValueView::Vec4(lit4(x)),
        ValueView::Box2(x) => ValueView::Box2(litb(x)),
        _ => ValueView::Bool(false),
    }
}

proof fn lemma_box2_tail(s: Seq<u8>, a: (Lit, Lit), b: (Lit, Lit), j: nat, e2: nat)
    requires
        read_vec_spec(s, 2, seq![]) == Ok::<(ValueView<Lit>, nat), Error>((ValueView::Vec2(a), j)),
        2 < j,
        j + 1 < e2,
        e2 < s.len(),
        s[j as int] == 32u8,
        s[(j + 1) as int] == 91u8,
        read_vec_spec(s, j + 2, seq![]) == Ok::<(ValueView<Lit>, nat), Error>(
            (ValueView::Vec2(b), e2),
        ),
        s[e2 as int] == 93u8,
    ensures
        read_box2_spec(s, 2) == Ok::<(ValueView<Lit>, nat), Error>((ValueView::Box2((a, b)), e2 + 1)),
{
    lemma_lex_after_space(s, j);
    assert(skip_spaces(s, j + 1) == j + 1);
    assert(lex(s, j) == Ok::<(Lexeme, nat), Error>((Lexeme::VecStart, j + 2)));
    assert(skip_spaces(s, e2) == e2);
    assert(lex(s, e2) == Ok::<(Lexeme, nat), Error>((Lexeme::VecEnd, e2 + 1)));
}

proof fn lemma_box2_start(s: Seq<u8>, v: ValueView<Lit>, e: nat)
    requires
        s.len() > 2,
        s[0] == 91u8,
        s[1] == 91u8,
        read_box2_spec(s, 2) == Ok::<(ValueView<Lit>, nat), Error>((v, e)),
    ensures
        read_next_spec(s, 0) == Ok::<(TokenView<Lit>, nat), Error>((TokenView::Value(v), e)),
{
    assert(skip_spaces(s, 0) == 0);
    assert(skip_spaces(s, 1) == 1);
    assert(lex(s, 1) == Ok::<(Lexeme, nat), Error>((Lexeme::VecStart, 2)));
    assert(read_vec_spec(s, 1, seq![]) == read_box2_spec(s, 2));
}

proof fn lemma_text_box2_round_trip(v: ValueView<Vec<u8>>, r: Seq<u8>)
    requires
        v is Box2,
        vector_literals(v),
    ensures
        read_next_spec(value_text(v, 0) + seq![32u8] + r, 0) == Ok::<(TokenView<Lit>, nat), Error>(
            (TokenView::Value(vector_read(v)), value_text(v, 0).len()),
        ),
{
    let t = value_text(v, 0);
    let s = t + seq![32u8] + r;
    let x = v->Box2_0;
    let a = seq![x.0.0@, x.0.1@];
    let b = seq![x.1.0@, x.1.1@];
    let ca = coords_text(a);
    let cb = coords_text(b);
    assert(a.drop_first() =~= seq![x.0.1@]);
    assert(b.drop_first() =~= seq![x.1.1@]);
    assert(ca =~= x.0.0@ + seq![32u8] + (x.0.1@ + seq![93u8])) by {
        reveal_with_fuel(coords_text, 3);
    }
    assert(cb =~= x.1.0@ + seq![32u8] + (x.1.1@ + seq![93u8])) by {
        reveal_with_fuel(coords_text, 3);
    }
    assert(t =~= seq![91u8, 91u8] + ca + seq![32u8, 91u8] + cb + seq![93u8]);
    assert forall|k: int| 0 <= k < a.len() implies is_literal(#[trigger] a[k]) by {}
    assert forall|k: int| 0 <= k < b.len() implies is_literal(#[trigger] b[k]) by {}
    let j = 2 + ca.len();
    assert(s.subrange(2, j as int) =~= ca);
    assert(s[1] == 91u8);
    let e1 = lemma_vec_at(s, 1, a);
    assert(s[j as int] == 32u8);
    assert(s[(j + 1) as int] == 91u8);
    assert(s.subrange((j + 2) as int, (j + 2 + cb.len()) as int) =~= cb);
    let e2 = lemma_vec_at(s, j + 1, b);
    assert(s[e2 as int] == 93u8);
    assert(s[0] == 91u8);
    lemma_box2_tail(s, (x.0.0@, x.0.1@), (x.1.0@, x.1.1@), j, e2);
    lemma_box2_start(s, ValueView::Box2(litb(x)), e2 + 1);
}

#[verifier::rlimit(50)]
proof fn lemma_text_vecn_round_trip(v: ValueView<Vec<u8>>, r: Seq<u8>)
    requires
        v is Vec2 || v is Vec3 || v is Vec4,
        vector_literals(v),
    ensures
        read_next_spec(value_text(v, 0) + seq![32u8] + r, 0) == Ok::<(TokenView<Lit>, nat), Error>(
            (TokenView::Value(vector_read(v)), value_text(v, 0).len()),
        ),
{
    let t = value_text(v, 0);
    let s = t + seq![32u8] + r;
    assert(s.subrange(0, t.len() as int) =~= t);
    let xs = match v {
        ValueView::Vec2(x) => seq![x.0@, x.1@],
        ValueView::Vec3(x) => seq![x.0@, x.1@, x.2@],
        ValueView::Vec4(x) => seq![x.0@, x.1@, x.2@, x.3@],
        _ => seq![],
    };
    let c = coords_text(xs);
    reveal_with_fuel(coords_text, 5);
    match v {
        ValueView::Vec2(x) => {
            assert(xs.drop_first() =~= seq![x.1@]);
            assert(c =~= x.0@ + seq![32u8] + (x.1@ + seq![93u8]));
        },
        ValueView::Vec3(x) => {
            assert(xs.drop_first() =~= seq![x.1@, x.2@]);
            assert(xs.drop_first().drop_first() =~= seq![x.2@]);
            assert(c =~= x.0@ + seq![32u8] + (x.1@ + seq![32u8] + (x.2@ + seq![93u8])));
        },
        ValueView::Vec4(x) => {
            assert(xs.drop_first() =~= seq![x.1@, x.2@, x.3@]);
            assert(xs.drop_first().drop_first() =~= seq![x.2@, x.3@]);
            assert(xs.drop_first().drop_first().drop_first() =~= seq![x.3@]);
            assert(c =~= x.0@ + seq![32u8] + (x.1@ + seq![32u8] + (x.2@ + seq![32u8] + (
            x.3@ + seq![93u8]))));
        },
        _ => {},
    }
    assert(t =~= seq![91u8] + c);
    assert forall|k: int| 0 <= k < xs.len() implies is_literal(#[trigger] xs[k]) by {}
    assert(s.subrange(1, (1 + c.len()) as int) =~= c);
    assert(s[0] == 91u8);
    let e = lemma_vec_at(s, 0, xs);
    assert(skip_spaces(s, 0) == 0);
}

/// Text round trip for vectors and boxes: one written with double literals
/// of the grammar, then a space, reads back with the same literals.
pub proof fn lemma_text_vector_round_trip(v: ValueView<Vec<u8>>, r: Seq<u8>)
    requires
        vector_literals(v),
    ensures
        read_next_spec(value_text(v, 0) + seq![32u8] + r, 0) == Ok::<(TokenView<Lit>, nat), Error>(
            (TokenView::Value(vector_read(v)), value_text(v, 0).len()),
        ),
{
    if v is Box2 {
        lemma_text_box2_round_trip(v, r);
    } else {
        lemma_text_vecn_round_trip(v, r);
    }
}

} // verus!
