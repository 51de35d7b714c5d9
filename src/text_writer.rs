use vstd::prelude::*;
use crate::value::{Tag, Value, ValueView};
use vstd::utf8::encode_utf8;

verus! {

// ---------------------------------------------------------------------------
// The written form of values in the text encoding. A double is carried as
// the bytes of its decimal literal and written as they are.

pub open spec fn digits(n: nat) -> Seq<u8>
    decreases n,
{
    if n < 10 {
        seq![(n + 48) as u8]
    } else {
        digits(n / 10).push((n % 10 + 48) as u8)
    }
}

/// A decimal integer, with a leading `-` when negative.
pub open spec fn int_text(i: int) -> Seq<u8> {
    if i < 0 {
        seq![45u8] + digits((-i) as nat)
    } else {
        digits(i as nat)
    }
}

pub open spec fn bool_text(b: bool) -> Seq<u8> {
    if b {
        seq![116u8, 114u8, 117u8, 101u8]
    } else {
        seq![102u8, 97u8, 108u8, 115u8, 101u8]
    }
}

/// One character of a tag: a byte from U+0000..U+00FF, UTF-8 encoded.
pub open spec fn latin1(b: u8) -> Seq<u8> {
    if b < 0x80 {
        seq![b]
    } else {
        seq![(0xc0 + b / 64) as u8, (0x80 + b % 64) as u8]
    }
}

pub open spec fn tag_text(t: Tag) -> Seq<u8> {
    latin1((t / 0x1000000) as u8) + latin1((t / 0x10000 % 0x100) as u8) + latin1(
        (t / 0x100 % 0x100) as u8,
    ) + latin1((t % 0x100) as u8)
}

pub open spec fn hex_digit(x: u8) -> u8 {
    if x < 10 {
        (x + 48) as u8
    } else {
        (x + 87) as u8
    }
}

/// Two lower-case hexadecimal digits per byte.
pub open spec fn hex_text(b: Seq<u8>) -> Seq<u8>
    decreases b.len(),
{
    if b.len() == 0 {
        seq![]
    } else {
        hex_text(b.drop_last()) + seq![hex_digit(b.last() / 16), hex_digit(b.last() % 16)]
    }
}

/// Every `"` doubled.
pub open spec fn escape(b: Seq<u8>) -> Seq<u8>
    decreases b.len(),
{
    if b.len() == 0 {
        seq![]
    } else if b.last() == 34 {
        escape(b.drop_last()) + seq![34u8, 34u8]
    } else {
        escape(b.drop_last()) + seq![b.last()]
    }
}

pub open spec fn vec2_text(x: (Vec<u8>, Vec<u8>)) -> Seq<u8> {
    seq![91u8] + x.0@ + seq![32u8] + x.1@ + seq![93u8]
}

pub open spec fn vec3_text(x: (Vec<u8>, Vec<u8>, Vec<u8>)) -> Seq<u8> {
    seq![91u8] + x.0@ + seq![32u8] + x.1@ + seq![32u8] + x.2@ + seq![93u8]
}

pub open spec fn vec4_text(x: (Vec<u8>, Vec<u8>, Vec<u8>, Vec<u8>)) -> Seq<u8> {
    seq![91u8] + x.0@ + seq![32u8] + x.1@ + seq![32u8] + x.2@ + seq![32u8] + x.3@ + seq![93u8]
}

pub open spec fn box2_text(x: ((Vec<u8>, Vec<u8>), (Vec<u8>, Vec<u8>))) -> Seq<u8> {
    seq![91u8] + vec2_text(x.0) + seq![32u8] + vec2_text(x.1) + seq![93u8]
}

pub open spec fn spaces(n: nat) -> Seq<u8> {
    Seq::new(2 * n, |i: int| 32u8)
}

/// The lines of an array's elements, each indented one level deeper.
pub open spec fn lines<T>(xs: Seq<T>, f: spec_fn(T) -> Seq<u8>, indent: nat) -> Seq<u8>
    decreases xs.len(),
{
    if xs.len() == 0 {
        seq![]
    } else {
        lines(xs.drop_last(), f, indent) + spaces(indent + 1) + f(xs.last()) + seq![10u8]
    }
}

/// An array: `{`, one element per line, then `}` at the current indent.
pub open spec fn array_text<T>(xs: Seq<T>, f: spec_fn(T) -> Seq<u8>, indent: nat) -> Seq<u8> {
    seq![123u8, 10u8] + lines(xs, f, indent) + spaces(indent) + seq![125u8]
}

pub open spec fn value_text(v: ValueView<Vec<u8>>, indent: nat) -> Seq<u8> {
    match v {
        ValueView::Bool(x) => bool_text(x),
        ValueView::Int(x) => int_text(x as int),
        ValueView::Double(x) => x@,
        ValueView::Vec2(x) => vec2_text(x),
        ValueView::Vec3(x) => vec3_text(x),
        ValueView::Vec4(x) => vec4_text(x),
        ValueView::Box2(x) => box2_text(x),
        ValueView::String(x) => seq![34u8] + escape(encode_utf8(x)) + seq![34u8],
        ValueView::Blob(x) => seq![48u8, 120u8] + hex_text(x),
        ValueView::Tag(x) => tag_text(x),
        ValueView::BoolArray(x) => array_text(x, |y: bool| bool_text(y), indent),
        ValueView::IntArray(x) => array_text(x, |y: i32| int_text(y as int), indent),
        ValueView::DoubleArray(x) => array_text(x, |y: Vec<u8>| y@, indent),
        ValueView::Vec2Array(x) => array_text(x, |y: (Vec<u8>, Vec<u8>)| vec2_text(y), indent),
        ValueView::Vec3Array(x) => array_text(
            x,
            |y: (Vec<u8>, Vec<u8>, Vec<u8>)| vec3_text(y),
            indent,
        ),
        ValueView::Vec4Array(x) => array_text(
            x,
            |y: (Vec<u8>, Vec<u8>, Vec<u8>, Vec<u8>)| vec4_text(y),
            indent,
        ),
        ValueView::Box2Array(x) => array_text(
            x,
            |y: ((Vec<u8>, Vec<u8>), (Vec<u8>, Vec<u8>))| box2_text(y),
            indent,
        ),
    }
}

pub(crate) fn push_digits(out: &mut Vec<u8>, n: u32)
    ensures
        final(out)@ == old(out)@ + digits(n as nat),
    decreases n,
{
    if n >= 10 {
        push_digits(out, n / 10);
    }
    out.push((n % 10) as u8 + 48);
    assert(out@ =~= old(out)@ + digits(n as nat));
}

/// Appends the decimal form of `x`.
pub(crate) fn push_int(out: &mut Vec<u8>, x: i32)
    ensures
        final(out)@ == old(out)@ + int_text(x as int),
{
    if x < 0 {
        out.push(45);
        let m: u32 = (0 - (x as i64)) as u32;
        push_digits(out, m);
        assert(out@ =~= old(out)@ + int_text(x as int));
    } else {
        push_digits(out, x as u32);
    }
}

pub(crate) fn push_all(out: &mut Vec<u8>, b: &[u8])
    ensures
        final(out)@ == old(out)@ + b@,
{
    let mut i: usize = 0;
    while i < b.len()
        invariant
            i <= b@.len(),
            out@ == old(out)@ + b@.take(i as int),
        decreases b@.len() - i,
    {
        out.push(b[i]);
        i = i + 1;
        assert(out@ =~= old(out)@ + b@.take(i as int));
    }
    assert(b@.take(i as int) =~= b@);
}

/// Writes tokens in the text encoding: groups in parentheses, values
/// separated by one space, and each group below the top level on a line of
/// its own, indented two spaces per level.
pub struct TextWriter {
    pub output: Vec<u8>,
    /// No value has been written yet in the current group.
    pub first: bool,
    /// The number of groups open.
    pub indent: usize,
}

impl TextWriter {
    pub fn new(output: Vec<u8>) -> (r: TextWriter)
        ensures
            r.output@ == output@,
            r.first,
            r.indent == 0,
    {
        TextWriter { output, first: true, indent: 0 }
    }

    pub fn into_inner(self) -> (r: Vec<u8>)
        ensures
            r@ == self.output@,
    {
        self.output
    }

    fn push_bytes(&mut self, b: &[u8])
        ensures
            final(self).output@ == old(self).output@ + b@,
            final(self).first == old(self).first,
            final(self).indent == old(self).indent,
    {
        let mut i: usize = 0;
        while i < b.len()
            invariant
                i <= b@.len(),
                self.output@ == old(self).output@ + b@.take(i as int),
                self.first == old(self).first,
                self.indent == old(self).indent,
            decreases b@.len() - i,
        {
            self.output.push(b[i]);
            i = i + 1;
            assert(self.output@ =~= old(self).output@ + b@.take(i as int));
        }
        assert(b@.take(i as int) =~= b@);
    }

    fn write_indent(&mut self, n: usize)
        ensures
            final(self).output@ == old(self).output@ + spaces(n as nat),
            final(self).first == old(self).first,
            final(self).indent == old(self).indent,
    {
        let mut i: usize = 0;
        while i < n
            invariant
                i <= n,
                self.output@ == old(self).output@ + spaces(i as nat),
                self.first == old(self).first,
                self.indent == old(self).indent,
            decreases n - i,
        {
            self.output.push(32);
            self.output.push(32);
            i = i + 1;
            assert(self.output@ =~= old(self).output@ + spaces(i as nat));
        }
    }

    fn write_int(&mut self, x: i32)
        ensures
            final(self).output@ == old(self).output@ + int_text(x as int),
            final(self).first == old(self).first,
            final(self).indent == old(self).indent,
    {
        push_int(&mut self.output, x);
    }

    fn write_bool(&mut self, x: bool)
        ensures
            final(self).output@ == old(self).output@ + bool_text(x),
            final(self).first == old(self).first,
            final(self).indent == old(self).indent,
    {
        if x {
            self.output.push(116);
            self.output.push(114);
            self.output.push(117);
            self.output.push(101);
        } else {
            self.output.push(102);
            self.output.push(97);
            self.output.push(108);
            self.output.push(115);
            self.output.push(101);
        }
        assert(self.output@ =~= old(self).output@ + bool_text(x));
    }

    fn write_latin1(&mut self, b: u8)
        ensures
            final(self).output@ == old(self).output@ + latin1(b),
            final(self).first == old(self).first,
            final(self).indent == old(self).indent,
    {
        if b < 0x80 {
            self.output.push(b);
        } else {
            self.output.push(0xc0 + b / 64);
            self.output.push(0x80 + b % 64);
        }
        assert(self.output@ =~= old(self).output@ + latin1(b));
    }

    fn write_tag(&mut self, t: Tag)
        ensures
            final(self).output@ == old(self).output@ + tag_text(t),
            final(self).first == old(self).first,
            final(self).indent == old(self).indent,
    {
        self.write_latin1((t / 0x1000000) as u8);
        self.write_latin1((t / 0x10000 % 0x100) as u8);
        self.write_latin1((t / 0x100 % 0x100) as u8);
        self.write_latin1((t % 0x100) as u8);
        assert(self.output@ =~= old(self).output@ + tag_text(t));
    }

    fn write_blob(&mut self, b: &Vec<u8>)
        ensures
            final(self).output@ == old(self).output@ + seq![48u8, 120u8] + hex_text(b@),
            final(self).first == old(self).first,
            final(self).indent == old(self).indent,
    {
        self.output.push(48);
        self.output.push(120);
        let ghost mid = self.output@;
        let mut i: usize = 0;
        while i < b.len()
            invariant
                i <= b@.len(),
                mid == old(self).output@ + seq![48u8, 120u8],
                self.output@ == mid + hex_text(b@.take(i as int)),
                self.first == old(self).first,
                self.indent == old(self).indent,
            decreases b@.len() - i,
        {
            let x = b[i];
            let hi = x / 16;
            let lo = x % 16;
            self.output.push(if hi < 10 { hi + 48 } else { hi + 87 });
            self.output.push(if lo < 10 { lo + 48 } else { lo + 87 });
            assert(b@.take(i + 1).drop_last() =~= b@.take(i as int));
            i = i + 1;
            assert(self.output@ =~= mid + hex_text(b@.take(i as int)));
        }
        assert(b@.take(i as int) =~= b@);
    }

    fn write_string(&mut self, s: &String)
        ensures
            final(self).output@ == old(self).output@ + seq![34u8] + escape(encode_utf8(s@))
                + seq![34u8],
            final(self).first == old(self).first,
            final(self).indent == old(self).indent,
    {
        let b = s.as_str().as_bytes();
        self.output.push(34);
        let ghost mid = self.output@;
        let mut i: usize = 0;
        while i < b.len()
            invariant
                i <= b@.len(),
                b@ == encode_utf8(s@),
                mid == old(self).output@ + seq![34u8],
                self.output@ == mid + escape(b@.take(i as int)),
                self.first == old(self).first,
                self.indent == old(self).indent,
            decreases b@.len() - i,
        {
            let x = b[i];
            if x == 34 {
                self.output.push(34);
                self.output.push(34);
            } else {
                self.output.push(x);
            }
            assert(b@.take(i + 1).drop_last() =~= b@.take(i as int));
            i = i + 1;
            assert(self.output@ =~= mid + escape(b@.take(i as int)));
        }
        assert(b@.take(i as int) =~= b@);
        self.output.push(34);
    }

    fn write_vec2(&mut self, x: &(Vec<u8>, Vec<u8>))
        ensures
            final(self).output@ == old(self).output@ + vec2_text(*x),
            final(self).first == old(self).first,
            final(self).indent == old(self).indent,
    {
        self.output.push(91);
        self.push_bytes(x.0.as_slice());
        self.output.push(32);
        self.push_bytes(x.1.as_slice());
        self.output.push(93);
        assert(self.output@ =~= old(self).output@ + vec2_text(*x));
    }

    fn write_vec3(&mut self, x: &(Vec<u8>, Vec<u8>, Vec<u8>))
        ensures
            final(self).output@ == old(self).output@ + vec3_text(*x),
            final(self).first == old(self).first,
            final(self).indent == old(self).indent,
    {
        self.output.push(91);
        self.push_bytes(x.0.as_slice());
        self.output.push(32);
        self.push_bytes(x.1.as_slice());
        self.output.push(32);
        self.push_bytes(x.2.as_slice());
        self.output.push(93);
        assert(self.output@ =~= old(self).output@ + vec3_text(*x));
    }

    fn write_vec4(&mut self, x: &(Vec<u8>, Vec<u8>, Vec<u8>, Vec<u8>))
        ensures
            final(self).output@ == old(self).output@ + vec4_text(*x),
            final(self).first == old(self).first,
            final(self).indent == old(self).indent,
    {
        self.output.push(91);
        self.push_bytes(x.0.as_slice());
        self.output.push(32);
        self.push_bytes(x.1.as_slice());
        self.output.push(32);
        self.push_bytes(x.2.as_slice());
        self.output.push(32);
        self.push_bytes(x.3.as_slice());
        self.output.push(93);
        assert(self.output@ =~= old(self).output@ + vec4_text(*x));
    }

    fn write_box2(&mut self, x: &((Vec<u8>, Vec<u8>), (Vec<u8>, Vec<u8>)))
        ensures
            final(self).output@ == old(self).output@ + box2_text(*x),
            final(self).first == old(self).first,
            final(self).indent == old(self).indent,
    {
        self.output.push(91);
        self.write_vec2(&x.0);
        self.output.push(32);
        self.write_vec2(&x.1);
        self.output.push(93);
        assert(self.output@ =~= old(self).output@ + box2_text(*x));
    }

    fn write_double(&mut self, x: &Vec<u8>)
        ensures
            final(self).output@ == old(self).output@ + x@,
            final(self).first == old(self).first,
            final(self).indent == old(self).indent,
    {
        self.push_bytes(x.as_slice());
    }

    fn write_bool_array(&mut self, xs: &Vec<bool>)
        ensures
            final(self).output@ == old(self).output@ + array_text(xs@, |y: bool| bool_text(y), old(self).indent as nat),
            final(self).first == old(self).first,
            final(self).indent == old(self).indent,
    {
        let indent = self.indent;
        self.output.push(123);
        self.output.push(10);
        let ghost mid = self.output@;
        let mut i: usize = 0;
        while i < xs.len()
            invariant
                i <= xs@.len(),
                self.indent == indent,
                indent == old(self).indent,
                self.first == old(self).first,
                mid == old(self).output@ + seq![123u8, 10u8],
                self.output@ == mid + lines(xs@.take(i as int), |y: bool| bool_text(y), indent as nat),
            decreases xs@.len() - i,
        {
            self.write_indent(indent);
            self.output.push(32);
            self.output.push(32);
            assert(spaces(indent as nat + 1) =~= spaces(indent as nat) + seq![32u8, 32u8]);
            self.write_bool(xs[i]);
            self.output.push(10);
            assert(xs@.take(i + 1).drop_last() =~= xs@.take(i as int));
            i = i + 1;
            assert(self.output@ =~= mid + lines(xs@.take(i as int), |y: bool| bool_text(y), indent as nat));
        }
        assert(xs@.take(i as int) =~= xs@);
        self.write_indent(indent);
        self.output.push(125);
        assert(self.output@ =~= old(self).output@ + array_text(xs@, |y: bool| bool_text(y), indent as nat));
    }

    fn write_int_array(&mut self, xs: &Vec<i32>)
        ensures
            final(self).output@ == old(self).output@ + array_text(xs@, |y: i32| int_text(y as int), old(self).indent as nat),
            final(self).first == old(self).first,
            final(self).indent == old(self).indent,
    {
        let indent = self.indent;
        self.output.push(123);
        self.output.push(10);
        let ghost mid = self.output@;
        let mut i: usize = 0;
        while i < xs.len()
            invariant
                i <= xs@.len(),
                self.indent == indent,
                indent == old(self).indent,
                self.first == old(self).first,
                mid == old(self).output@ + seq![123u8, 10u8],
                self.output@ == mid + lines(xs@.take(i as int), |y: i32| int_text(y as int), indent as nat),
            decreases xs@.len() - i,
        {
            self.write_indent(indent);
            self.output.push(32);
            self.output.push(32);
            assert(spaces(indent as nat + 1) =~= spaces(indent as nat) + seq![32u8, 32u8]);
            self.write_int(xs[i]);
            self.output.push(10);
            assert(xs@.take(i + 1).drop_last() =~= xs@.take(i as int));
            i = i + 1;
            assert(self.output@ =~= mid + lines(xs@.take(i as int), |y: i32| int_text(y as int), indent as nat));
        }
        assert(xs@.take(i as int) =~= xs@);
        self.write_indent(indent);
        self.output.push(125);
        assert(self.output@ =~= old(self).output@ + array_text(xs@, |y: i32| int_text(y as int), indent as nat));
    }

    fn write_double_array(&mut self, xs: &Vec<Vec<u8>>)
        ensures
            final(self).output@ == old(self).output@ + array_text(xs@, |y: Vec<u8>| y@, old(self).indent as nat),
            final(self).first == old(self).first,
            final(self).indent == old(self).indent,
    {
        let indent = self.indent;
        self.output.push(123);
        self.output.push(10);
        let ghost mid = self.output@;
        let mut i: usize = 0;
        while i < xs.len()
            invariant
                i <= xs@.len(),
                self.indent == indent,
                indent == old(self).indent,
                self.first == old(self).first,
                mid == old(self).output@ + seq![123u8, 10u8],
                self.output@ == mid + lines(xs@.take(i as int), |y: Vec<u8>| y@, indent as nat),
            decreases xs@.len() - i,
        {
            self.write_indent(indent);
            self.output.push(32);
            self.output.push(32);
            assert(spaces(indent as nat + 1) =~= spaces(indent as nat) + seq![32u8, 32u8]);
            self.write_double(&xs[i]);
            self.output.push(10);
            assert(xs@.take(i + 1).drop_last() =~= xs@.take(i as int));
            i = i + 1;
            assert(self.output@ =~= mid + lines(xs@.take(i as int), |y: Vec<u8>| y@, indent as nat));
        }
        assert(xs@.take(i as int) =~= xs@);
        self.write_indent(indent);
        self.output.push(125);
        assert(self.output@ =~= old(self).output@ + array_text(xs@, |y: Vec<u8>| y@, indent as nat));
    }

    fn write_vec2_array(&mut self, xs: &Vec<(Vec<u8>, Vec<u8>)>)
        ensures
            final(self).output@ == old(self).output@ + array_text(xs@, |y: (Vec<u8>, Vec<u8>)| vec2_text(y), old(self).indent as nat),
            final(self).first == old(self).first,
            final(self).indent == old(self).indent,
    {
        let indent = self.indent;
        self.output.push(123);
        self.output.push(10);
        let ghost mid = self.output@;
        let mut i: usize = 0;
        while i < xs.len()
            invariant
                i <= xs@.len(),
                self.indent == indent,
                indent == old(self).indent,
                self.first == old(self).first,
                mid == old(self).output@ + seq![123u8, 10u8],
                self.output@ == mid + lines(xs@.take(i as int), |y: (Vec<u8>, Vec<u8>)| vec2_text(y), indent as nat),
            decreases xs@.len() - i,
        {
            self.write_indent(indent);
            self.output.push(32);
            self.output.push(32);
            assert(spaces(indent as nat + 1) =~= spaces(indent as nat) + seq![32u8, 32u8]);
            self.write_vec2(&xs[i]);
            self.output.push(10);
            assert(xs@.take(i + 1).drop_last() =~= xs@.take(i as int));
            i = i + 1;
            assert(self.output@ =~= mid + lines(xs@.take(i as int), |y: (Vec<u8>, Vec<u8>)| vec2_text(y), indent as nat));
        }
        assert(xs@.take(i as int) =~= xs@);
        self.write_indent(indent);
        self.output.push(125);
        assert(self.output@ =~= old(self).output@ + array_text(xs@, |y: (Vec<u8>, Vec<u8>)| vec2_text(y), indent as nat));
    }

    fn write_vec3_array(&mut self, xs: &Vec<(Vec<u8>, Vec<u8>, Vec<u8>)>)
        ensures
            final(self).output@ == old(self).output@ + array_text(xs@, |y: (Vec<u8>, Vec<u8>, Vec<u8>)| vec3_text(y), old(self).indent as nat),
            final(self).first == old(self).first,
            final(self).indent == old(self).indent,
    {
        let indent = self.indent;
        self.output.push(123);
        self.output.push(10);
        let ghost mid = self.output@;
        let mut i: usize = 0;
        while i < xs.len()
            invariant
                i <= xs@.len(),
                self.indent == indent,
                indent == old(self).indent,
                self.first == old(self).first,
                mid == old(self).output@ + seq![123u8, 10u8],
                self.output@ == mid + lines(xs@.take(i as int), |y: (Vec<u8>, Vec<u8>, Vec<u8>)| vec3_text(y), indent as nat),
            decreases xs@.len() - i,
        {
            self.write_indent(indent);
            self.output.push(32);
            self.output.push(32);
            assert(spaces(indent as nat + 1) =~= spaces(indent as nat) + seq![32u8, 32u8]);
            self.write_vec3(&xs[i]);
            self.output.push(10);
            assert(xs@.take(i + 1).drop_last() =~= xs@.take(i as int));
            i = i + 1;
            assert(self.output@ =~= mid + lines(xs@.take(i as int), |y: (Vec<u8>, Vec<u8>, Vec<u8>)| vec3_text(y), indent as nat));
        }
        assert(xs@.take(i as int) =~= xs@);
        self.write_indent(indent);
        self.output.push(125);
        assert(self.output@ =~= old(self).output@ + array_text(xs@, |y: (Vec<u8>, Vec<u8>, Vec<u8>)| vec3_text(y), indent as nat));
    }

    fn write_vec4_array(&mut self, xs: &Vec<(Vec<u8>, Vec<u8>, Vec<u8>, Vec<u8>)>)
        ensures
            final(self).output@ == old(self).output@ + array_text(xs@, |y: (Vec<u8>, Vec<u8>, Vec<u8>, Vec<u8>)| vec4_text(y), old(self).indent as nat),
            final(self).first == old(self).first,
            final(self).indent == old(self).indent,
    {
        let indent = self.indent;
        self.output.push(123);
        self.output.push(10);
        let ghost mid = self.output@;
        let mut i: usize = 0;
        while i < xs.len()
            invariant
                i <= xs@.len(),
                self.indent == indent,
                indent == old(self).indent,
                self.first == old(self).first,
                mid == old(self).output@ + seq![123u8, 10u8],
                self.output@ == mid + lines(xs@.take(i as int), |y: (Vec<u8>, Vec<u8>, Vec<u8>, Vec<u8>)| vec4_text(y), indent as nat),
            decreases xs@.len() - i,
        {
            self.write_indent(indent);
            self.output.push(32);
            self.output.push(32);
            assert(spaces(indent as nat + 1) =~= spaces(indent as nat) + seq![32u8, 32u8]);
            self.write_vec4(&xs[i]);
            self.output.push(10);
            assert(xs@.take(i + 1).drop_last() =~= xs@.take(i as int));
            i = i + 1;
            assert(self.output@ =~= mid + lines(xs@.take(i as int), |y: (Vec<u8>, Vec<u8>, Vec<u8>, Vec<u8>)| vec4_text(y), indent as nat));
        }
        assert(xs@.take(i as int) =~= xs@);
        self.write_indent(indent);
        self.output.push(125);
        assert(self.output@ =~= old(self).output@ + array_text(xs@, |y: (Vec<u8>, Vec<u8>, Vec<u8>, Vec<u8>)| vec4_text(y), indent as nat));
    }

    fn write_box2_array(&mut self, xs: &Vec<((Vec<u8>, Vec<u8>), (Vec<u8>, Vec<u8>))>)
        ensures
            final(self).output@ == old(self).output@ + array_text(xs@, |y: ((Vec<u8>, Vec<u8>), (Vec<u8>, Vec<u8>))| box2_text(y), old(self).indent as nat),
            final(self).first == old(self).first,
            final(self).indent == old(self).indent,
    {
        let indent = self.indent;
        self.output.push(123);
        self.output.push(10);
        let ghost mid = self.output@;
        let mut i: usize = 0;
        while i < xs.len()
            invariant
                i <= xs@.len(),
                self.indent == indent,
                indent == old(self).indent,
                self.first == old(self).first,
                mid == old(self).output@ + seq![123u8, 10u8],
                self.output@ == mid + lines(xs@.take(i as int), |y: ((Vec<u8>, Vec<u8>), (Vec<u8>, Vec<u8>))| box2_text(y), indent as nat),
            decreases xs@.len() - i,
        {
            self.write_indent(indent);
            self.output.push(32);
            self.output.push(32);
            assert(spaces(indent as nat + 1) =~= spaces(indent as nat) + seq![32u8, 32u8]);
            self.write_box2(&xs[i]);
            self.output.push(10);
            assert(xs@.take(i + 1).drop_last() =~= xs@.take(i as int));
            i = i + 1;
            assert(self.output@ =~= mid + lines(xs@.take(i as int), |y: ((Vec<u8>, Vec<u8>), (Vec<u8>, Vec<u8>))| box2_text(y), indent as nat));
        }
        assert(xs@.take(i as int) =~= xs@);
        self.write_indent(indent);
        self.output.push(125);
        assert(self.output@ =~= old(self).output@ + array_text(xs@, |y: ((Vec<u8>, Vec<u8>), (Vec<u8>, Vec<u8>))| box2_text(y), indent as nat));
    }

    fn write_single_value(&mut self, value: &Value<Vec<u8>>)
        ensures
            final(self).output@ == old(self).output@ + value_text(value@, old(self).indent as nat),
            final(self).first == old(self).first,
            final(self).indent == old(self).indent,
    {
        match value {
            Value::Bool(x) => self.write_bool(*x),
            Value::Int(x) => self.write_int(*x),
            Value::Double(x) => self.write_double(x),
            Value::Vec2(x) => self.write_vec2(x),
            Value::Vec3(x) => self.write_vec3(x),
            Value::Vec4(x) => self.write_vec4(x),
            Value::Box2(x) => self.write_box2(x),
            Value::String(x) => self.write_string(x),
            Value::Blob(x) => self.write_blob(x),
            Value::Tag(x) => self.write_tag(*x),
            Value::BoolArray(x) => self.write_bool_array(x),
            Value::IntArray(x) => self.write_int_array(x),
            Value::DoubleArray(x) => self.write_double_array(x),
            Value::Vec2Array(x) => self.write_vec2_array(x),
            Value::Vec3Array(x) => self.write_vec3_array(x),
            Value::Vec4Array(x) => self.write_vec4_array(x),
            Value::Box2Array(x) => self.write_box2_array(x),
        }
    }

    /// Opens a group: on a new line, unless it is the first thing written at
    /// the top level.
    pub fn write_start(&mut self)
        requires
            old(self).indent < usize::MAX,
        ensures
            final(self).output@ == old(self).output@ + (if old(self).indent > 0 || !old(self).first {
                seq![10u8]
            } else {
                seq![]
            }) + spaces(old(self).indent as nat) + seq![40u8],
            final(self).first,
            final(self).indent == old(self).indent + 1,
    {
        let ghost before = self.output@;
        let indent = self.indent;
        if indent > 0 || !self.first {
            self.output.push(10);
        }
        self.write_indent(indent);
        self.output.push(40);
        self.first = true;
        self.indent = indent + 1;
        assert(self.output@ =~= before + (if indent > 0 || !old(self).first {
            seq![10u8]
        } else {
            seq![]
        }) + spaces(indent as nat) + seq![40u8]);
    }

    /// Closes a group.
    pub fn write_end(&mut self)
        ensures
            final(self).output@ == old(self).output@ + seq![41u8],
            final(self).first == old(self).first,
            final(self).indent == (if old(self).indent > 0 {
                old(self).indent - 1
            } else {
                0
            }),
    {
        if self.indent > 0 {
            self.indent = self.indent - 1;
        }
        self.output.push(41);
    }

    /// Writes a value, one space after the previous one in the same group.
    pub fn write_value(&mut self, value: &Value<Vec<u8>>)
        ensures
            final(self).output@ == old(self).output@ + (if old(self).first {
                seq![]
            } else {
                seq![32u8]
            }) + value_text(value@, old(self).indent as nat),
            !final(self).first,
            final(self).indent == old(self).indent,
    {
        let ghost before = self.output@;
        if self.first {
            self.first = false;
        } else {
            self.output.push(32);
        }
        self.write_single_value(value);
        assert(self.output@ =~= before + (if old(self).first {
            seq![]
        } else {
            seq![32u8]
        }) + value_text(value@, old(self).indent as nat));
    }
}

} // verus!
