use vstd::prelude::*;

verus! {

/// A four-character code packed big-endian into 32 bits.
pub type Tag = u32;

/// A typed value of the data format, generic over how a double is carried:
/// the binary codec and the scene model carry IEEE-754 bit patterns (`u64`),
/// the text codec carries decimal literals (`Vec<u8>`).
#[derive(Debug, PartialEq)]
pub enum Value<D> {
    Tag(Tag),
    Bool(bool),
    BoolArray(Vec<bool>),
    Int(i32),
    IntArray(Vec<i32>),
    Double(D),
    DoubleArray(Vec<D>),
    Vec2((D, D)),
    Vec2Array(Vec<(D, D)>),
    Vec3((D, D, D)),
    Vec3Array(Vec<(D, D, D)>),
    Vec4((D, D, D, D)),
    Vec4Array(Vec<(D, D, D, D)>),
    Box2(((D, D), (D, D))),
    Box2Array(Vec<((D, D), (D, D))>),
    String(String),
    Blob(Vec<u8>),
}

/// The mathematical model of a `Value`: arrays and strings as sequences.
pub enum ValueView<D> {
    Tag(Tag),
    Bool(bool),
    BoolArray(Seq<bool>),
    Int(i32),
    IntArray(Seq<i32>),
    Double(D),
    DoubleArray(Seq<D>),
    Vec2((D, D)),
    Vec2Array(Seq<(D, D)>),
    Vec3((D, D, D)),
    Vec3Array(Seq<(D, D, D)>),
    Vec4((D, D, D, D)),
    Vec4Array(Seq<(D, D, D, D)>),
    Box2(((D, D), (D, D))),
    Box2Array(Seq<((D, D), (D, D))>),
    String(Seq<char>),
    Blob(Seq<u8>),
}

impl<D> View for Value<D> {
    type V = ValueView<D>;

    open spec fn view(&self) -> ValueView<D> {
        match self {
            Value::Tag(t) => ValueView::Tag(*t),
            Value::Bool(b) => ValueView::Bool(*b),
            Value::BoolArray(v) => ValueView::BoolArray(v@),
            Value::Int(i) => ValueView::Int(*i),
            Value::IntArray(v) => ValueView::IntArray(v@),
            Value::Double(d) => ValueView::Double(*d),
            Value::DoubleArray(v) => ValueView::DoubleArray(v@),
            Value::Vec2(x) => ValueView::Vec2(*x),
            Value::Vec2Array(v) => ValueView::Vec2Array(v@),
            Value::Vec3(x) => ValueView::Vec3(*x),
            Value::Vec3Array(v) => ValueView::Vec3Array(v@),
            Value::Vec4(x) => ValueView::Vec4(*x),
            Value::Vec4Array(v) => ValueView::Vec4Array(v@),
            Value::Box2(x) => ValueView::Box2(*x),
            Value::Box2Array(v) => ValueView::Box2Array(v@),
            Value::String(s) => ValueView::String(s@),
            Value::Blob(v) => ValueView::Blob(v@),
        }
    }
}

/// One element of a token stream.
#[derive(Debug, PartialEq)]
pub enum Token<D> {
    Start,
    End,
    Value(Value<D>),
    EndOfFile,
}

pub enum TokenView<D> {
    Start,
    End,
    Value(ValueView<D>),
    EndOfFile,
}

impl<D> View for Token<D> {
    type V = TokenView<D>;

    open spec fn view(&self) -> TokenView<D> {
        match self {
            Token::Start => TokenView::Start,
            Token::End => TokenView::End,
            Token::Value(v) => TokenView::Value(v@),
            Token::EndOfFile => TokenView::EndOfFile,
        }
    }
}

/// The errors that decoding and schema reading produce.
#[derive(Clone, Copy, Debug, PartialEq, Eq, Structural)]
pub enum Error {
    /// The input at the current position begins no known token.
    InvalidToken,
    /// A well-formed token of the wrong kind was met.
    UnexpectedToken,
    /// The input ended inside a value or an open group.
    UnexpectedEndOfFile,
    /// A decoded integer does not fit its type, or a string is not UTF-8.
    Range,
    /// A node kind or event kind outside the closed set.
    UnknownTag,
}

pub open spec fn spec_tag(a: u8, b: u8, c: u8, d: u8) -> u32 {
    (a as int * 0x1000000 + b as int * 0x10000 + c as int * 0x100 + d as int) as u32
}

/// Packs four characters big-endian into a tag.
pub fn tag(a: u8, b: u8, c: u8, d: u8) -> (r: Tag)
    ensures
        r == spec_tag(a, b, c, d),
{
    (a as u32) * 0x1000000 + (b as u32) * 0x10000 + (c as u32) * 0x100 + d as u32
}

} // verus!
