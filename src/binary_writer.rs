use vstd::prelude::*;
use crate::binary::{
    box2_enc, bool_enc, double_enc, enc_all, enc_array, enc_bool, enc_box2, enc_int, enc_tokens,
    enc_u32, enc_u64, enc_uvarint, enc_value, enc_vec2, enc_vec3, enc_vec4, int_enc, vec2_enc,
    vec3_enc, vec4_enc,
};
use crate::value::{Tag, TokenView, Value};
use crate::writer::Writer;

verus! {

/// Writes tokens in the binary encoding to a byte buffer.
pub struct BinaryWriter {
    pub output: Vec<u8>,
    /// What the buffer held before the first token.
    pub start: Ghost<Seq<u8>>,
    pub tokens: Ghost<Seq<TokenView<u64>>>,
}

impl BinaryWriter {
    pub fn new(output: Vec<u8>) -> (r: BinaryWriter)
        ensures
            r.inv(),
            r.written() == Seq::<TokenView<u64>>::empty(),
            r.base() == output@,
    {
        let ghost start = output@;
        BinaryWriter { output, start: Ghost(start), tokens: Ghost(Seq::empty()) }
    }

    /// The buffer: what it held before, then the encoding of every token written.
    pub fn into_inner(self) -> (r: Vec<u8>)
        requires
            self.inv(),
        ensures
            r@ == self.base() + enc_tokens(self.written()),
    {
        self.output
    }

    fn write_uvarint(&mut self, value: u64)
        ensures
            final(self).output@ == old(self).output@ + enc_uvarint(value as nat),
            final(self).start == old(self).start,
            final(self).tokens == old(self).tokens,
    {
        let mut v = value;
        loop
            invariant
                old(self).output@ + enc_uvarint(value as nat) == self.output@ + enc_uvarint(
                    v as nat,
                ),
                self.start == old(self).start,
                self.tokens == old(self).tokens,
            decreases v,
        {
            if v < 128 {
                let ghost before = self.output@;
                self.output.push(v as u8);
                assert(self.output@ =~= before + enc_uvarint(v as nat));
                return ;
            }
            let ghost before = self.output@;
            self.output.push((v % 128 + 128) as u8);
            assert(before + enc_uvarint(v as nat) =~= self.output@ + enc_uvarint((v / 128) as nat));
            v = v / 128;
        }
    }

    fn write_tag(&mut self, x: Tag)
        ensures
            final(self).output@ == old(self).output@ + enc_u32(x),
            final(self).start == old(self).start,
            final(self).tokens == old(self).tokens,
    {
        self.output.push(((x >> 24u32) & 0xff) as u8);
        self.output.push(((x >> 16u32) & 0xff) as u8);
        self.output.push(((x >> 8u32) & 0xff) as u8);
        self.output.push((x & 0xff) as u8);
        assert(self.output@ =~= old(self).output@ + enc_u32(x));
    }

    fn write_bytes(&mut self, bytes: &[u8])
        ensures
            final(self).output@ == old(self).output@ + enc_uvarint(bytes@.len()) + bytes@,
            final(self).start == old(self).start,
            final(self).tokens == old(self).tokens,
    {
        self.write_uvarint(bytes.len() as u64);
        let ghost mid = self.output@;
        let mut i: usize = 0;
        while i < bytes.len()
            invariant
                i <= bytes@.len(),
                self.output@ == mid + bytes@.take(i as int),
                mid == old(self).output@ + enc_uvarint(bytes@.len()),
                self.start == old(self).start,
                self.tokens == old(self).tokens,
            decreases bytes@.len() - i,
        {
            self.output.push(bytes[i]);
            assert(bytes@.take(i + 1) =~= bytes@.take(i as int).push(bytes@[i as int]));
            i += 1;
        }
        assert(bytes@.take(i as int) =~= bytes@);
    }

    fn write_bool(&mut self, x: bool)
        ensures
            final(self).output@ == old(self).output@ + enc_bool(x),
            final(self).start == old(self).start,
            final(self).tokens == old(self).tokens,
    {
        self.output.push(if x { 1u8 } else { 0u8 });
        assert(self.output@ =~= old(self).output@ + enc_bool(x));
    }

    fn write_int(&mut self, x: i32)
        ensures
            final(self).output@ == old(self).output@ + enc_int(x),
            final(self).start == old(self).start,
            final(self).tokens == old(self).tokens,
    {
        let z: u64 = if x < 0 {
            ((0 - (x as i64)) * 2 - 1) as u64
        } else {
            (2 * (x as i64)) as u64
        };
        self.write_uvarint(z);
    }

    fn write_double(&mut self, x: u64)
        ensures
            final(self).output@ == old(self).output@ + enc_u64(x),
            final(self).start == old(self).start,
            final(self).tokens == old(self).tokens,
    {
        self.output.push((x & 0xff) as u8);
        self.output.push(((x >> 8u64) & 0xff) as u8);
        self.output.push(((x >> 16u64) & 0xff) as u8);
        self.output.push(((x >> 24u64) & 0xff) as u8);
        self.output.push(((x >> 32u64) & 0xff) as u8);
        self.output.push(((x >> 40u64) & 0xff) as u8);
        self.output.push(((x >> 48u64) & 0xff) as u8);
        self.output.push(((x >> 56u64) & 0xff) as u8);
        assert(self.output@ =~= old(self).output@ + enc_u64(x));
    }

    fn write_vec2(&mut self, x: (u64, u64))
        ensures
            final(self).output@ == old(self).output@ + enc_vec2(x),
            final(self).start == old(self).start,
            final(self).tokens == old(self).tokens,
    {
        self.write_double(x.0);
        self.write_double(x.1);
        assert(self.output@ =~= old(self).output@ + enc_vec2(x));
    }

    fn write_vec3(&mut self, x: (u64, u64, u64))
        ensures
            final(self).output@ == old(self).output@ + enc_vec3(x),
            final(self).start == old(self).start,
            final(self).tokens == old(self).tokens,
    {
        self.write_double(x.0);
        self.write_double(x.1);
        self.write_double(x.2);
        assert(self.output@ =~= old(self).output@ + enc_vec3(x));
    }

    fn write_vec4(&mut self, x: (u64, u64, u64, u64))
        ensures
            final(self).output@ == old(self).output@ + enc_vec4(x),
            final(self).start == old(self).start,
            final(self).tokens == old(self).tokens,
    {
        self.write_double(x.0);
        self.write_double(x.1);
        self.write_double(x.2);
        self.write_double(x.3);
        assert(self.output@ =~= old(self).output@ + enc_vec4(x));
    }

    fn write_box2(&mut self, x: ((u64, u64), (u64, u64)))
        ensures
            final(self).output@ == old(self).output@ + enc_box2(x),
            final(self).start == old(self).start,
            final(self).tokens == old(self).tokens,
    {
        self.write_vec2(x.0);
        self.write_vec2(x.1);
        assert(self.output@ =~= old(self).output@ + enc_box2(x));
    }

    fn write_bool_array(&mut self, xs: &Vec<bool>)
        ensures
            final(self).output@ == old(self).output@ + enc_array(xs@, bool_enc()),
            final(self).start == old(self).start,
            final(self).tokens == old(self).tokens,
    {
        self.write_uvarint(xs.len() as u64);
        let ghost mid = self.output@;
        let mut i: usize = 0;
        while i < xs.len()
            invariant
                i <= xs@.len(),
                self.output@ == mid + enc_all(xs@.take(i as int), bool_enc()),
                mid == old(self).output@ + enc_uvarint(xs@.len()),
                self.start == old(self).start,
                self.tokens == old(self).tokens,
            decreases xs@.len() - i,
        {
            self.write_bool(xs[i]);
            assert(xs@.take(i + 1).drop_last() =~= xs@.take(i as int));
            i += 1;
        }
        assert(xs@.take(i as int) =~= xs@);
    }

    fn write_int_array(&mut self, xs: &Vec<i32>)
        ensures
            final(self).output@ == old(self).output@ + enc_array(xs@, int_enc()),
            final(self).start == old(self).start,
            final(self).tokens == old(self).tokens,
    {
        self.write_uvarint(xs.len() as u64);
        let ghost mid = self.output@;
        let mut i: usize = 0;
        while i < xs.len()
            invariant
                i <= xs@.len(),
                self.output@ == mid + enc_all(xs@.take(i as int), int_enc()),
                mid == old(self).output@ + enc_uvarint(xs@.len()),
                self.start == old(self).start,
                self.tokens == old(self).tokens,
            decreases xs@.len() - i,
        {
            self.write_int(xs[i]);
            assert(xs@.take(i + 1).drop_last() =~= xs@.take(i as int));
            i += 1;
        }
        assert(xs@.take(i as int) =~= xs@);
    }

    fn write_double_array(&mut self, xs: &Vec<u64>)
        ensures
            final(self).output@ == old(self).output@ + enc_array(xs@, double_enc()),
            final(self).start == old(self).start,
            final(self).tokens == old(self).tokens,
    {
        self.write_uvarint(xs.len() as u64);
        let ghost mid = self.output@;
        let mut i: usize = 0;
        while i < xs.len()
            invariant
                i <= xs@.len(),
                self.output@ == mid + enc_all(xs@.take(i as int), double_enc()),
                mid == old(self).output@ + enc_uvarint(xs@.len()),
                self.start == old(self).start,
                self.tokens == old(self).tokens,
            decreases xs@.len() - i,
        {
            self.write_double(xs[i]);
            assert(xs@.take(i + 1).drop_last() =~= xs@.take(i as int));
            i += 1;
        }
        assert(xs@.take(i as int) =~= xs@);
    }

    fn write_vec2_array(&mut self, xs: &Vec<(u64, u64)>)
        ensures
            final(self).output@ == old(self).output@ + enc_array(xs@, vec2_enc()),
            final(self).start == old(self).start,
            final(self).tokens == old(self).tokens,
    {
        self.write_uvarint(xs.len() as u64);
        let ghost mid = self.output@;
        let mut i: usize = 0;
        while i < xs.len()
            invariant
                i <= xs@.len(),
                self.output@ == mid + enc_all(xs@.take(i as int), vec2_enc()),
                mid == old(self).output@ + enc_uvarint(xs@.len()),
                self.start == old(self).start,
                self.tokens == old(self).tokens,
            decreases xs@.len() - i,
        {
            self.write_vec2(xs[i]);
            assert(xs@.take(i + 1).drop_last() =~= xs@.take(i as int));
            i += 1;
        }
        assert(xs@.take(i as int) =~= xs@);
    }

    fn write_vec3_array(&mut self, xs: &Vec<(u64, u64, u64)>)
        ensures
            final(self).output@ == old(self).output@ + enc_array(xs@, vec3_enc()),
            final(self).start == old(self).start,
            final(self).tokens == old(self).tokens,
    {
        self.write_uvarint(xs.len() as u64);
        let ghost mid = self.output@;
        let mut i: usize = 0;
        while i < xs.len()
            invariant
                i <= xs@.len(),
                self.output@ == mid + enc_all(xs@.take(i as int), vec3_enc()),
                mid == old(self).output@ + enc_uvarint(xs@.len()),
                self.start == old(self).start,
                self.tokens == old(self).tokens,
            decreases xs@.len() - i,
        {
            self.write_vec3(xs[i]);
            assert(xs@.take(i + 1).drop_last() =~= xs@.take(i as int));
            i += 1;
        }
        assert(xs@.take(i as int) =~= xs@);
    }

    fn write_vec4_array(&mut self, xs: &Vec<(u64, u64, u64, u64)>)
        ensures
            final(self).output@ == old(self).output@ + enc_array(xs@, vec4_enc()),
            final(self).start == old(self).start,
            final(self).tokens == old(self).tokens,
    {
        self.write_uvarint(xs.len() as u64);
        let ghost mid = self.output@;
        let mut i: usize = 0;
        while i < xs.len()
            invariant
                i <= xs@.len(),
                self.output@ == mid + enc_all(xs@.take(i as int), vec4_enc()),
                mid == old(self).output@ + enc_uvarint(xs@.len()),
                self.start == old(self).start,
                self.tokens == old(self).tokens,
            decreases xs@.len() - i,
        {
            self.write_vec4(xs[i]);
            assert(xs@.take(i + 1).drop_last() =~= xs@.take(i as int));
            i += 1;
        }
        assert(xs@.take(i as int) =~= xs@);
    }

    fn write_box2_array(&mut self, xs: &Vec<((u64, u64), (u64, u64))>)
        ensures
            final(self).output@ == old(self).output@ + enc_array(xs@, box2_enc()),
            final(self).start == old(self).start,
            final(self).tokens == old(self).tokens,
    {
        self.write_uvarint(xs.len() as u64);
        let ghost mid = self.output@;
        let mut i: usize = 0;
        while i < xs.len()
            invariant
                i <= xs@.len(),
                self.output@ == mid + enc_all(xs@.take(i as int), box2_enc()),
                mid == old(self).output@ + enc_uvarint(xs@.len()),
                self.start == old(self).start,
                self.tokens == old(self).tokens,
            decreases xs@.len() - i,
        {
            self.write_box2(xs[i]);
            assert(xs@.take(i + 1).drop_last() =~= xs@.take(i as int));
            i += 1;
        }
        assert(xs@.take(i as int) =~= xs@);
    }

    fn write_payload(&mut self, value: &Value<u64>)
        ensures
            final(self).output@ == old(self).output@ + enc_value(value@),
            final(self).start == old(self).start,
            final(self).tokens == old(self).tokens,
    {
        let ghost before = self.output@;
        match value {
            Value::Bool(x) => {
                self.output.push(0x00);
                self.write_bool(*x);
                assert(self.output@ =~= before + enc_value(value@));
            },
            Value::Int(x) => {
                self.output.push(0x01);
                self.write_int(*x);
                assert(self.output@ =~= before + enc_value(value@));
            },
            Value::Double(x) => {
                self.output.push(0x02);
                self.write_double(*x);
                assert(self.output@ =~= before + enc_value(value@));
            },
            Value::Vec2(x) => {
                self.output.push(0x03);
                self.write_vec2(*x);
                assert(self.output@ =~= before + enc_value(value@));
            },
            Value::Vec3(x) => {
                self.output.push(0x04);
                self.write_vec3(*x);
                assert(self.output@ =~= before + enc_value(value@));
            },
            Value::Vec4(x) => {
                self.output.push(0x05);
                self.write_vec4(*x);
                assert(self.output@ =~= before + enc_value(value@));
            },
            Value::Box2(x) => {
                self.output.push(0x06);
                self.write_box2(*x);
                assert(self.output@ =~= before + enc_value(value@));
            },
            Value::String(x) => {
                self.output.push(0x07);
                self.write_bytes(x.as_str().as_bytes());
                assert(self.output@ =~= before + enc_value(value@));
            },
            Value::Blob(x) => {
                self.output.push(0x08);
                self.write_bytes(x.as_slice());
                assert(self.output@ =~= before + enc_value(value@));
            },
            Value::Tag(x) => {
                self.output.push(0xee);
                self.write_tag(*x);
                assert(self.output@ =~= before + enc_value(value@));
            },
            Value::BoolArray(x) => {
                self.output.push(0x80);
                self.write_bool_array(x);
                assert(self.output@ =~= before + enc_value(value@));
            },
            Value::IntArray(x) => {
                self.output.push(0x81);
                self.write_int_array(x);
                assert(self.output@ =~= before + enc_value(value@));
            },
            Value::DoubleArray(x) => {
                self.output.push(0x82);
                self.write_double_array(x);
                assert(self.output@ =~= before + enc_value(value@));
            },
            Value::Vec2Array(x) => {
                self.output.push(0x83);
                self.write_vec2_array(x);
                assert(self.output@ =~= before + enc_value(value@));
            },
            Value::Vec3Array(x) => {
                self.output.push(0x84);
                self.write_vec3_array(x);
                assert(self.output@ =~= before + enc_value(value@));
            },
            Value::Vec4Array(x) => {
                self.output.push(0x85);
                self.write_vec4_array(x);
                assert(self.output@ =~= before + enc_value(value@));
            },
            Value::Box2Array(x) => {
                self.output.push(0x86);
                self.write_box2_array(x);
                assert(self.output@ =~= before + enc_value(value@));
            },
        }
    }
}

impl Writer for BinaryWriter {
    open spec fn inv(&self) -> bool {
        self.output@ == self.start@ + enc_tokens(self.tokens@)
    }

    open spec fn written(&self) -> Seq<TokenView<u64>> {
        self.tokens@
    }

    open spec fn base(&self) -> Seq<u8> {
        self.start@
    }

    fn write_start(&mut self) {
        self.output.push(0xfe);
        proof {
            let ts = self.tokens@.push(TokenView::Start);
            assert(ts.drop_last() =~= self.tokens@);
            self.tokens = Ghost(ts);
        }
        assert(self.output@ =~= self.start@ + enc_tokens(self.tokens@));
    }

    fn write_end(&mut self) {
        self.output.push(0xef);
        proof {
            let ts = self.tokens@.push(TokenView::End);
            assert(ts.drop_last() =~= self.tokens@);
            self.tokens = Ghost(ts);
        }
        assert(self.output@ =~= self.start@ + enc_tokens(self.tokens@));
    }

    fn write_value(&mut self, value: &Value<u64>) {
        self.write_payload(value);
        proof {
            let ts = self.tokens@.push(TokenView::Value(value@));
            assert(ts.drop_last() =~= self.tokens@);
            self.tokens = Ghost(ts);
        }
        assert(self.output@ =~= self.start@ + enc_tokens(self.tokens@));
    }
}

} // verus!
