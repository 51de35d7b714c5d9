use vstd::prelude::*;
use crate::binary::{
    be_u32, bool_dec, box2_dec, dec_all, dec_array, dec_bool, dec_box2, dec_bytes, dec_double,
    dec_int, dec_string, dec_tag, dec_token, dec_uvarint, dec_uvarint_from, dec_value, dec_vec2,
    dec_vec3, dec_vec4, double_dec, int_dec, le_u64, lemma_pow128_mono, lemma_pow128_step, lemma_pow128_values, pow128,
    unzigzag, vec2_dec, vec3_dec, vec4_dec,
};
use crate::reader::views;
use crate::value::{Error, Tag, Token, TokenView, Value, ValueView};
use vstd::utf8::{decode_utf8, valid_utf8};

verus! {

/// Relies on `String::from_utf8`: it succeeds exactly on valid UTF-8, and the
/// string then holds the decoded characters.
#[verifier::external_body]
pub(crate) fn string_from_utf8(bytes: Vec<u8>) -> (r: Option<String>)
    ensures
        r is Some <==> valid_utf8(bytes@),
        r matches Some(s) ==> s@ == decode_utf8(bytes@),
{
    String::from_utf8(bytes).ok()
}

/// Once decoding the elements of an array fails, it fails the same way
/// however many elements were asked for.
proof fn lemma_dec_all_err<T>(s: Seq<u8>, m: nat, n: nat, d: spec_fn(Seq<u8>) -> Result<(T, nat), Error>)
    requires
        m <= n,
        dec_all(s, m, d) is Err,
    ensures
        dec_all(s, n, d) == dec_all(s, m, d),
    decreases n - m,
{
    if m < n {
        lemma_dec_all_err(s, m, (n - 1) as nat, d);
    }
}

proof fn lemma_dec_value_unknown(t: u8, s: Seq<u8>)
    requires
        t > 0x86 && t != 0xee,
    ensures
        dec_value(t, s) == Err::<(ValueView<u64>, nat), Error>(Error::InvalidToken),
{
    reveal(dec_value);
}

/// The tokens of a whole binary stream, up to its end.
pub open spec fn dec_stream(s: Seq<u8>) -> Result<Seq<TokenView<u64>>, Error>
    decreases s.len(),
{
    match dec_token(s) {
        Ok((t, n)) => if t is EndOfFile || n == 0 || n > s.len() {
            Ok(seq![])
        } else {
            match dec_stream(s.skip(n as int)) {
                Ok(ts) => Ok(seq![t] + ts),
                Err(e) => Err(e),
            }
        },
        Err(e) => Err(e),
    }
}

pub open spec fn prepend(ts: Seq<TokenView<u64>>, r: Result<Seq<TokenView<u64>>, Error>) -> Result<Seq<TokenView<u64>>, Error> {
    match r {
        Ok(us) => Ok(ts + us),
        Err(e) => Err(e),
    }
}

/// Reads tokens in the binary encoding from a byte buffer.
pub struct BinaryReader {
    pub input: Vec<u8>,
    pub pos: usize,
}

impl BinaryReader {
    pub open spec fn wf(&self) -> bool {
        self.pos <= self.input@.len()
    }

    /// The bytes not read yet.
    pub open spec fn rest(&self) -> Seq<u8> {
        self.input@.skip(self.pos as int)
    }

    pub fn new(input: Vec<u8>) -> (r: BinaryReader)
        ensures
            r.wf(),
            r.pos == 0,
            r.input@ == input@,
            r.rest() == input@,
    {
        let r = BinaryReader { input, pos: 0 };
        assert(r.rest() =~= r.input@);
        r
    }

    pub fn into_inner(self) -> (r: Vec<u8>)
        ensures
            r@ == self.input@,
    {
        self.input
    }

    fn read_uvarint(&mut self) -> (r: Result<u64, Error>)
        requires
            old(self).wf(),
        ensures
            final(self).wf(),
            final(self).input == old(self).input,
            match dec_uvarint(old(self).rest()) {
                Ok((x, n)) => r == Ok::<u64, Error>(x) && final(self).pos == old(self).pos + n,
                Err(e) => r == Err::<u64, Error>(e),
            },
    {
        let ghost s = old(self).rest();
        let ghost p0 = self.pos;
        let mut acc: u128 = 0;
        let mut p: u128 = 1;
        let mut i: usize = 0;
        proof {
            reveal_with_fuel(pow128, 10);
        }
        loop
            invariant
                self.wf(),
                self.input == old(self).input,
                s == old(self).rest(),
                p0 == old(self).pos,
                self.pos == p0 + i,
                i <= 10,
                p == pow128(i as nat),
                i < 10 ==> p <= 0x8000000000000000,
                acc < p,
                dec_uvarint_from(s, 0, 0) == dec_uvarint_from(s, i as nat, acc as int),
            decreases 10 - i,
        {
            if i >= 10 {
                return Err(Error::InvalidToken);
            }
            if self.pos >= self.input.len() {
                return Err(Error::UnexpectedEndOfFile);
            }
            let b = self.input[self.pos];
            assert(b == s[i as int]);
            self.pos = self.pos + 1;
            if b < 128 {
                assert((b as int) * (p as int) < 128 * (p as int)) by (nonlinear_arith)
                    requires
                        b < 128,
                        p >= 1,
                ;
                let v = acc + (b as u128) * p;
                if v > 0xffff_ffff_ffff_ffff {
                    return Err(Error::Range);
                }
                return Ok(v as u64);
            }
            assert(((b - 128) as int) * (p as int) <= 127 * (p as int)) by (nonlinear_arith)
                requires
                    b - 128 < 128,
                    p >= 1,
            ;
            acc = acc + ((b - 128) as u128) * p;
            proof {
                lemma_pow128_step(i as nat);
                if i + 1 < 10 {
                    lemma_pow128_mono((i + 1) as nat, 9);
                    lemma_pow128_values();
                }
            }
            p = p * 128;
            i = i + 1;
        }
    }

    fn read_tag(&mut self) -> (r: Result<Tag, Error>)
        requires
            old(self).wf(),
        ensures
            final(self).wf(),
            final(self).input == old(self).input,
            match dec_tag(old(self).rest()) {
                Ok((x, n)) => r == Ok::<Tag, Error>(x) && final(self).pos == old(self).pos + n,
                Err(e) => r == Err::<Tag, Error>(e),
            },
    {
        if self.input.len() - self.pos < 4 {
            return Err(Error::UnexpectedEndOfFile);
        }
        let p = self.pos;
        let ghost s = old(self).rest();
        assert(s[0] == self.input@[p as int] && s[1] == self.input@[p + 1] && s[2] == self.input@[p
            + 2] && s[3] == self.input@[p + 3]);
        let x = ((self.input[p] as u32) << 24u32) | ((self.input[p + 1] as u32) << 16u32) | ((
        self.input[p + 2] as u32) << 8u32) | (self.input[p + 3] as u32);
        self.pos = p + 4;
        Ok(x)
    }

    fn read_bool(&mut self) -> (r: Result<bool, Error>)
        requires
            old(self).wf(),
        ensures
            final(self).wf(),
            final(self).input == old(self).input,
            match dec_bool(old(self).rest()) {
                Ok((x, n)) => r == Ok::<bool, Error>(x) && final(self).pos == old(self).pos + n,
                Err(e) => r == Err::<bool, Error>(e),
            },
    {
        if self.pos >= self.input.len() {
            return Err(Error::UnexpectedEndOfFile);
        }
        let b = self.input[self.pos];
        self.pos = self.pos + 1;
        Ok(b != 0)
    }

    fn read_int(&mut self) -> (r: Result<i32, Error>)
        requires
            old(self).wf(),
        ensures
            final(self).wf(),
            final(self).input == old(self).input,
            match dec_int(old(self).rest()) {
                Ok((x, n)) => r == Ok::<i32, Error>(x) && final(self).pos == old(self).pos + n,
                Err(e) => r == Err::<i32, Error>(e),
            },
    {
        let u = match self.read_uvarint() {
            Ok(u) => u,
            Err(e) => return Err(e),
        };
        let v: i64 = if u % 2 == 0 {
            (u / 2) as i64
        } else {
            0 - ((u / 2) as i64) - 1
        };
        assert(v == unzigzag(u as int));
        if v < -2147483648 || v > 2147483647 {
            return Err(Error::Range);
        }
        Ok(v as i32)
    }

    fn read_double(&mut self) -> (r: Result<u64, Error>)
        requires
            old(self).wf(),
        ensures
            final(self).wf(),
            final(self).input == old(self).input,
            match dec_double(old(self).rest()) {
                Ok((x, n)) => r == Ok::<u64, Error>(x) && final(self).pos == old(self).pos + n,
                Err(e) => r == Err::<u64, Error>(e),
            },
    {
        if self.input.len() - self.pos < 8 {
            return Err(Error::UnexpectedEndOfFile);
        }
        let p = self.pos;
        let ghost s = old(self).rest();
        assert(s[0] == self.input@[p as int] && s[1] == self.input@[p + 1] && s[2] == self.input@[p
            + 2] && s[3] == self.input@[p + 3]);
        assert(s[4] == self.input@[p + 4] && s[5] == self.input@[p + 5] && s[6] == self.input@[p
            + 6] && s[7] == self.input@[p + 7]);
        let x = (self.input[p] as u64) | ((self.input[p + 1] as u64) << 8u64) | ((self.input[p
            + 2] as u64) << 16u64) | ((self.input[p + 3] as u64) << 24u64) | ((self.input[p
            + 4] as u64) << 32u64) | ((self.input[p + 5] as u64) << 40u64) | ((self.input[p
            + 6] as u64) << 48u64) | ((self.input[p + 7] as u64) << 56u64);
        self.pos = p + 8;
        Ok(x)
    }

    fn read_vec2(&mut self) -> (r: Result<(u64, u64), Error>)
        requires
            old(self).wf(),
        ensures
            final(self).wf(),
            final(self).input == old(self).input,
            match dec_vec2(old(self).rest()) {
                Ok((x, n)) => r == Ok::<(u64, u64), Error>(x) && final(self).pos == old(self).pos + n,
                Err(e) => r == Err::<(u64, u64), Error>(e),
            },
    {
        let ghost s = old(self).rest();
        if self.input.len() - self.pos < 16 {
            return Err(Error::UnexpectedEndOfFile);
        }
        let x = match self.read_double() {
            Ok(v) => v,
            Err(e) => return Err(e),
        };
        assert(self.rest() =~= s.skip(8));
        let y = match self.read_double() {
            Ok(v) => v,
            Err(e) => return Err(e),
        };
        Ok((x, y))
    }

    fn read_vec3(&mut self) -> (r: Result<(u64, u64, u64), Error>)
        requires
            old(self).wf(),
        ensures
            final(self).wf(),
            final(self).input == old(self).input,
            match dec_vec3(old(self).rest()) {
                Ok((x, n)) => r == Ok::<(u64, u64, u64), Error>(x) && final(self).pos == old(self).pos + n,
                Err(e) => r == Err::<(u64, u64, u64), Error>(e),
            },
    {
        let ghost s = old(self).rest();
        if self.input.len() - self.pos < 24 {
            return Err(Error::UnexpectedEndOfFile);
        }
        let x = match self.read_double() {
            Ok(v) => v,
            Err(e) => return Err(e),
        };
        assert(self.rest() =~= s.skip(8));
        let y = match self.read_double() {
            Ok(v) => v,
            Err(e) => return Err(e),
        };
        assert(self.rest() =~= s.skip(16));
        let z = match self.read_double() {
            Ok(v) => v,
            Err(e) => return Err(e),
        };
        Ok((x, y, z))
    }

    fn read_vec4(&mut self) -> (r: Result<(u64, u64, u64, u64), Error>)
        requires
            old(self).wf(),
        ensures
            final(self).wf(),
            final(self).input == old(self).input,
            match dec_vec4(old(self).rest()) {
                Ok((x, n)) => r == Ok::<(u64, u64, u64, u64), Error>(x) && final(self).pos == old(self).pos + n,
                Err(e) => r == Err::<(u64, u64, u64, u64), Error>(e),
            },
    {
        let ghost s = old(self).rest();
        if self.input.len() - self.pos < 32 {
            return Err(Error::UnexpectedEndOfFile);
        }
        let x = match self.read_double() {
            Ok(v) => v,
            Err(e) => return Err(e),
        };
        assert(self.rest() =~= s.skip(8));
        let y = match self.read_double() {
            Ok(v) => v,
            Err(e) => return Err(e),
        };
        assert(self.rest() =~= s.skip(16));
        let z = match self.read_double() {
            Ok(v) => v,
            Err(e) => return Err(e),
        };
        assert(self.rest() =~= s.skip(24));
        let w = match self.read_double() {
            Ok(v) => v,
            Err(e) => return Err(e),
        };
        Ok((x, y, z, w))
    }

    fn read_box2(&mut self) -> (r: Result<((u64, u64), (u64, u64)), Error>)
        requires
            old(self).wf(),
        ensures
            final(self).wf(),
            final(self).input == old(self).input,
            match dec_box2(old(self).rest()) {
                Ok((x, n)) => r == Ok::<((u64, u64), (u64, u64)), Error>(x) && final(self).pos == old(self).pos + n,
                Err(e) => r == Err::<((u64, u64), (u64, u64)), Error>(e),
            },
    {
        let ghost s = old(self).rest();
        if self.input.len() - self.pos < 32 {
            return Err(Error::UnexpectedEndOfFile);
        }
        let x = match self.read_double() {
            Ok(v) => v,
            Err(e) => return Err(e),
        };
        assert(self.rest() =~= s.skip(8));
        let y = match self.read_double() {
            Ok(v) => v,
            Err(e) => return Err(e),
        };
        assert(self.rest() =~= s.skip(16));
        let z = match self.read_double() {
            Ok(v) => v,
            Err(e) => return Err(e),
        };
        assert(self.rest() =~= s.skip(24));
        let w = match self.read_double() {
            Ok(v) => v,
            Err(e) => return Err(e),
        };
        Ok(((x, y), (z, w)))
    }

    fn read_bytes(&mut self) -> (r: Result<Vec<u8>, Error>)
        requires
            old(self).wf(),
        ensures
            final(self).wf(),
            final(self).input == old(self).input,
            match dec_bytes(old(self).rest()) {
                Ok((x, n)) => r matches Ok(v) && v@ == x && final(self).pos == old(self).pos + n,
                Err(e) => r matches Err(e2) && e2 == e,
            },
    {
        let n = match self.read_uvarint() {
            Ok(n) => n,
            Err(e) => return Err(e),
        };
        if ((self.input.len() - self.pos) as u64) < n {
            return Err(Error::UnexpectedEndOfFile);
        }
        let ghost p0 = self.pos;
        let ghost s = old(self).rest();
        let ghost k = (p0 - old(self).pos) as int;
        let end = self.pos + n as usize;
        let mut out: Vec<u8> = Vec::new();
        while self.pos < end
            invariant
                p0 <= self.pos <= end <= self.input@.len(),
                end == p0 + n,
                self.input == old(self).input,
                out@ == self.input@.subrange(p0 as int, self.pos as int),
            decreases end - self.pos,
        {
            out.push(self.input[self.pos]);
            self.pos = self.pos + 1;
            assert(out@ =~= self.input@.subrange(p0 as int, self.pos as int));
        }
        assert(out@ =~= s.subrange(k, k + n));
        Ok(out)
    }

    fn read_string(&mut self) -> (r: Result<String, Error>)
        requires
            old(self).wf(),
        ensures
            final(self).wf(),
            final(self).input == old(self).input,
            match dec_string(old(self).rest()) {
                Ok((x, n)) => r matches Ok(v) && v@ == x && final(self).pos == old(self).pos + n,
                Err(e) => r matches Err(e2) && e2 == e,
            },
    {
        let bytes = match self.read_bytes() {
            Ok(b) => b,
            Err(e) => return Err(e),
        };
        match string_from_utf8(bytes) {
            Some(s) => Ok(s),
            None => Err(Error::Range),
        }
    }

    fn read_bool_array(&mut self) -> (r: Result<Vec<bool>, Error>)
        requires
            old(self).wf(),
        ensures
            final(self).wf(),
            final(self).input == old(self).input,
            match dec_array(old(self).rest(), bool_dec()) {
                Ok((x, n)) => r matches Ok(v) && v@ == x && final(self).pos == old(self).pos + n,
                Err(e) => r matches Err(e2) && e2 == e,
            },
    {
        let n = match self.read_uvarint() {
            Ok(n) => n,
            Err(e) => return Err(e),
        };
        let ghost p0 = self.pos;
        let ghost s = self.rest();
        assert(s =~= old(self).rest().skip((p0 - old(self).pos) as int));
        let mut out: Vec<bool> = Vec::new();
        let mut i: u64 = 0;
        while i < n
            invariant
                self.wf(),
                self.input == old(self).input,
                p0 <= self.pos,
                s == self.input@.skip(p0 as int),
                old(self).pos <= p0,
                s == old(self).rest().skip((p0 - old(self).pos) as int),
                dec_uvarint(old(self).rest()) == Ok::<(u64, nat), Error>(
                    (n, (p0 - old(self).pos) as nat),
                ),
                i <= n,
                dec_all(s, i as nat, bool_dec()) == Ok::<(Seq<bool>, nat), Error>(
                    (out@, (self.pos - p0) as nat),
                ),
            decreases n - i,
        {
            let ghost before = self.pos;
            assert(self.rest() =~= s.skip((before - p0) as int));
            match self.read_bool() {
                Ok(x) => {
                    out.push(x);
                },
                Err(e) => {
                    proof {
                        assert(dec_all(s, (i + 1) as nat, bool_dec()) == Err::<(Seq<bool>, nat), Error>(e));
                        lemma_dec_all_err(s, (i + 1) as nat, n as nat, bool_dec());
                        assert(dec_array(old(self).rest(), bool_dec()) == Err::<(Seq<bool>, nat), Error>(e));
                    }
                    return Err(e);
                },
            }
            i = i + 1;
        }
        Ok(out)
    }

    fn read_int_array(&mut self) -> (r: Result<Vec<i32>, Error>)
        requires
            old(self).wf(),
        ensures
            final(self).wf(),
            final(self).input == old(self).input,
            match dec_array(old(self).rest(), int_dec()) {
                Ok((x, n)) => r matches Ok(v) && v@ == x && final(self).pos == old(self).pos + n,
                Err(e) => r matches Err(e2) && e2 == e,
            },
    {
        let n = match self.read_uvarint() {
            Ok(n) => n,
            Err(e) => return Err(e),
        };
        let ghost p0 = self.pos;
        let ghost s = self.rest();
        assert(s =~= old(self).rest().skip((p0 - old(self).pos) as int));
        let mut out: Vec<i32> = Vec::new();
        let mut i: u64 = 0;
        while i < n
            invariant
                self.wf(),
                self.input == old(self).input,
                p0 <= self.pos,
                s == self.input@.skip(p0 as int),
                old(self).pos <= p0,
                s == old(self).rest().skip((p0 - old(self).pos) as int),
                dec_uvarint(old(self).rest()) == Ok::<(u64, nat), Error>(
                    (n, (p0 - old(self).pos) as nat),
                ),
                i <= n,
                dec_all(s, i as nat, int_dec()) == Ok::<(Seq<i32>, nat), Error>(
                    (out@, (self.pos - p0) as nat),
                ),
            decreases n - i,
        {
            let ghost before = self.pos;
            assert(self.rest() =~= s.skip((before - p0) as int));
            match self.read_int() {
                Ok(x) => {
                    out.push(x);
                },
                Err(e) => {
                    proof {
                        assert(dec_all(s, (i + 1) as nat, int_dec()) == Err::<(Seq<i32>, nat), Error>(e));
                        lemma_dec_all_err(s, (i + 1) as nat, n as nat, int_dec());
                        assert(dec_array(old(self).rest(), int_dec()) == Err::<(Seq<i32>, nat), Error>(e));
                    }
                    return Err(e);
                },
            }
            i = i + 1;
        }
        Ok(out)
    }

    fn read_double_array(&mut self) -> (r: Result<Vec<u64>, Error>)
        requires
            old(self).wf(),
        ensures
            final(self).wf(),
            final(self).input == old(self).input,
            match dec_array(old(self).rest(), double_dec()) {
                Ok((x, n)) => r matches Ok(v) && v@ == x && final(self).pos == old(self).pos + n,
                Err(e) => r matches Err(e2) && e2 == e,
            },
    {
        let n = match self.read_uvarint() {
            Ok(n) => n,
            Err(e) => return Err(e),
        };
        let ghost p0 = self.pos;
        let ghost s = self.rest();
        assert(s =~= old(self).rest().skip((p0 - old(self).pos) as int));
        let mut out: Vec<u64> = Vec::new();
        let mut i: u64 = 0;
        while i < n
            invariant
                self.wf(),
                self.input == old(self).input,
                p0 <= self.pos,
                s == self.input@.skip(p0 as int),
                old(self).pos <= p0,
                s == old(self).rest().skip((p0 - old(self).pos) as int),
                dec_uvarint(old(self).rest()) == Ok::<(u64, nat), Error>(
                    (n, (p0 - old(self).pos) as nat),
                ),
                i <= n,
                dec_all(s, i as nat, double_dec()) == Ok::<(Seq<u64>, nat), Error>(
                    (out@, (self.pos - p0) as nat),
                ),
            decreases n - i,
        {
            let ghost before = self.pos;
            assert(self.rest() =~= s.skip((before - p0) as int));
            match self.read_double() {
                Ok(x) => {
                    out.push(x);
                },
                Err(e) => {
                    proof {
                        assert(dec_all(s, (i + 1) as nat, double_dec()) == Err::<(Seq<u64>, nat), Error>(e));
                        lemma_dec_all_err(s, (i + 1) as nat, n as nat, double_dec());
                        assert(dec_array(old(self).rest(), double_dec()) == Err::<(Seq<u64>, nat), Error>(e));
                    }
                    return Err(e);
                },
            }
            i = i + 1;
        }
        Ok(out)
    }

    fn read_vec2_array(&mut self) -> (r: Result<Vec<(u64, u64)>, Error>)
        requires
            old(self).wf(),
        ensures
            final(self).wf(),
            final(self).input == old(self).input,
            match dec_array(old(self).rest(), vec2_dec()) {
                Ok((x, n)) => r matches Ok(v) && v@ == x && final(self).pos == old(self).pos + n,
                Err(e) => r matches Err(e2) && e2 == e,
            },
    {
        let n = match self.read_uvarint() {
            Ok(n) => n,
            Err(e) => return Err(e),
        };
        let ghost p0 = self.pos;
        let ghost s = self.rest();
        assert(s =~= old(self).rest().skip((p0 - old(self).pos) as int));
        let mut out: Vec<(u64, u64)> = Vec::new();
        let mut i: u64 = 0;
        while i < n
            invariant
                self.wf(),
                self.input == old(self).input,
                p0 <= self.pos,
                s == self.input@.skip(p0 as int),
                old(self).pos <= p0,
                s == old(self).rest().skip((p0 - old(self).pos) as int),
                dec_uvarint(old(self).rest()) == Ok::<(u64, nat), Error>(
                    (n, (p0 - old(self).pos) as nat),
                ),
                i <= n,
                dec_all(s, i as nat, vec2_dec()) == Ok::<(Seq<(u64, u64)>, nat), Error>(
                    (out@, (self.pos - p0) as nat),
                ),
            decreases n - i,
        {
            let ghost before = self.pos;
            assert(self.rest() =~= s.skip((before - p0) as int));
            match self.read_vec2() {
                Ok(x) => {
                    out.push(x);
                },
                Err(e) => {
                    proof {
                        assert(dec_all(s, (i + 1) as nat, vec2_dec()) == Err::<(Seq<(u64, u64)>, nat), Error>(e));
                        lemma_dec_all_err(s, (i + 1) as nat, n as nat, vec2_dec());
                        assert(dec_array(old(self).rest(), vec2_dec()) == Err::<(Seq<(u64, u64)>, nat), Error>(e));
                    }
                    return Err(e);
                },
            }
            i = i + 1;
        }
        Ok(out)
    }

    fn read_vec3_array(&mut self) -> (r: Result<Vec<(u64, u64, u64)>, Error>)
        requires
            old(self).wf(),
        ensures
            final(self).wf(),
            final(self).input == old(self).input,
            match dec_array(old(self).rest(), vec3_dec()) {
                Ok((x, n)) => r matches Ok(v) && v@ == x && final(self).pos == old(self).pos + n,
                Err(e) => r matches Err(e2) && e2 == e,
            },
    {
        let n = match self.read_uvarint() {
            Ok(n) => n,
            Err(e) => return Err(e),
        };
        let ghost p0 = self.pos;
        let ghost s = self.rest();
        assert(s =~= old(self).rest().skip((p0 - old(self).pos) as int));
        let mut out: Vec<(u64, u64, u64)> = Vec::new();
        let mut i: u64 = 0;
        while i < n
            invariant
                self.wf(),
                self.input == old(self).input,
                p0 <= self.pos,
                s == self.input@.skip(p0 as int),
                old(self).pos <= p0,
                s == old(self).rest().skip((p0 - old(self).pos) as int),
                dec_uvarint(old(self).rest()) == Ok::<(u64, nat), Error>(
                    (n, (p0 - old(self).pos) as nat),
                ),
                i <= n,
                dec_all(s, i as nat, vec3_dec()) == Ok::<(Seq<(u64, u64, u64)>, nat), Error>(
                    (out@, (self.pos - p0) as nat),
                ),
            decreases n - i,
        {
            let ghost before = self.pos;
            assert(self.rest() =~= s.skip((before - p0) as int));
            match self.read_vec3() {
                Ok(x) => {
                    out.push(x);
                },
                Err(e) => {
                    proof {
                        assert(dec_all(s, (i + 1) as nat, vec3_dec()) == Err::<(Seq<(u64, u64, u64)>, nat), Error>(e));
                        lemma_dec_all_err(s, (i + 1) as nat, n as nat, vec3_dec());
                        assert(dec_array(old(self).rest(), vec3_dec()) == Err::<(Seq<(u64, u64, u64)>, nat), Error>(e));
                    }
                    return Err(e);
                },
            }
            i = i + 1;
        }
        Ok(out)
    }

    fn read_vec4_array(&mut self) -> (r: Result<Vec<(u64, u64, u64, u64)>, Error>)
        requires
            old(self).wf(),
        ensures
            final(self).wf(),
            final(self).input == old(self).input,
            match dec_array(old(self).rest(), vec4_dec()) {
                Ok((x, n)) => r matches Ok(v) && v@ == x && final(self).pos == old(self).pos + n,
                Err(e) => r matches Err(e2) && e2 == e,
            },
    {
        let n = match self.read_uvarint() {
            Ok(n) => n,
            Err(e) => return Err(e),
        };
        let ghost p0 = self.pos;
        let ghost s = self.rest();
        assert(s =~= old(self).rest().skip((p0 - old(self).pos) as int));
        let mut out: Vec<(u64, u64, u64, u64)> = Vec::new();
        let mut i: u64 = 0;
        while i < n
            invariant
                self.wf(),
                self.input == old(self).input,
                p0 <= self.pos,
                s == self.input@.skip(p0 as int),
                old(self).pos <= p0,
                s == old(self).rest().skip((p0 - old(self).pos) as int),
                dec_uvarint(old(self).rest()) == Ok::<(u64, nat), Error>(
                    (n, (p0 - old(self).pos) as nat),
                ),
                i <= n,
                dec_all(s, i as nat, vec4_dec()) == Ok::<(Seq<(u64, u64, u64, u64)>, nat), Error>(
                    (out@, (self.pos - p0) as nat),
                ),
            decreases n - i,
        {
            let ghost before = self.pos;
            assert(self.rest() =~= s.skip((before - p0) as int));
            match self.read_vec4() {
                Ok(x) => {
                    out.push(x);
                },
                Err(e) => {
                    proof {
                        assert(dec_all(s, (i + 1) as nat, vec4_dec()) == Err::<(Seq<(u64, u64, u64, u64)>, nat), Error>(e));
                        lemma_dec_all_err(s, (i + 1) as nat, n as nat, vec4_dec());
                        assert(dec_array(old(self).rest(), vec4_dec()) == Err::<(Seq<(u64, u64, u64, u64)>, nat), Error>(e));
                    }
                    return Err(e);
                },
            }
            i = i + 1;
        }
        Ok(out)
    }

    fn read_box2_array(&mut self) -> (r: Result<Vec<((u64, u64), (u64, u64))>, Error>)
        requires
            old(self).wf(),
        ensures
            final(self).wf(),
            final(self).input == old(self).input,
            match dec_array(old(self).rest(), box2_dec()) {
                Ok((x, n)) => r matches Ok(v) && v@ == x && final(self).pos == old(self).pos + n,
                Err(e) => r matches Err(e2) && e2 == e,
            },
    {
        let n = match self.read_uvarint() {
            Ok(n) => n,
            Err(e) => return Err(e),
        };
        let ghost p0 = self.pos;
        let ghost s = self.rest();
        assert(s =~= old(self).rest().skip((p0 - old(self).pos) as int));
        let mut out: Vec<((u64, u64), (u64, u64))> = Vec::new();
        let mut i: u64 = 0;
        while i < n
            invariant
                self.wf(),
                self.input == old(self).input,
                p0 <= self.pos,
                s == self.input@.skip(p0 as int),
                old(self).pos <= p0,
                s == old(self).rest().skip((p0 - old(self).pos) as int),
                dec_uvarint(old(self).rest()) == Ok::<(u64, nat), Error>(
                    (n, (p0 - old(self).pos) as nat),
                ),
                i <= n,
                dec_all(s, i as nat, box2_dec()) == Ok::<(Seq<((u64, u64), (u64, u64))>, nat), Error>(
                    (out@, (self.pos - p0) as nat),
                ),
            decreases n - i,
        {
            let ghost before = self.pos;
            assert(self.rest() =~= s.skip((before - p0) as int));
            match self.read_box2() {
                Ok(x) => {
                    out.push(x);
                },
                Err(e) => {
                    proof {
                        assert(dec_all(s, (i + 1) as nat, box2_dec()) == Err::<(Seq<((u64, u64), (u64, u64))>, nat), Error>(e));
                        lemma_dec_all_err(s, (i + 1) as nat, n as nat, box2_dec());
                        assert(dec_array(old(self).rest(), box2_dec()) == Err::<(Seq<((u64, u64), (u64, u64))>, nat), Error>(e));
                    }
                    return Err(e);
                },
            }
            i = i + 1;
        }
        Ok(out)
    }

    fn read_scalar(&mut self, t: u8) -> (r: Result<Value<u64>, Error>)
        requires
            old(self).wf(),
            t < 0x80 || t == 0xee,
        ensures
            final(self).wf(),
            final(self).input == old(self).input,
            match dec_value(t, old(self).rest()) {
                Ok((x, n)) => r matches Ok(v) && v@ == x && final(self).pos == old(self).pos + n,
                Err(e) => r matches Err(e2) && e2 == e,
            },
    {
        proof {
            reveal(dec_value);
        }
        if t == 0x00 {
            match self.read_bool() {
                Ok(x) => Ok(Value::Bool(x)),
                Err(e) => Err(e),
            }
        } else if t == 0x01 {
            match self.read_int() {
                Ok(x) => Ok(Value::Int(x)),
                Err(e) => Err(e),
            }
        } else if t == 0x02 {
            match self.read_double() {
                Ok(x) => Ok(Value::Double(x)),
                Err(e) => Err(e),
            }
        } else if t == 0x03 {
            match self.read_vec2() {
                Ok(x) => Ok(Value::Vec2(x)),
                Err(e) => Err(e),
            }
        } else if t == 0x04 {
            match self.read_vec3() {
                Ok(x) => Ok(Value::Vec3(x)),
                Err(e) => Err(e),
            }
        } else if t == 0x05 {
            match self.read_vec4() {
                Ok(x) => Ok(Value::Vec4(x)),
                Err(e) => Err(e),
            }
        } else if t == 0x06 {
            match self.read_box2() {
                Ok(x) => Ok(Value::Box2(x)),
                Err(e) => Err(e),
            }
        } else if t == 0x07 {
            match self.read_string() {
                Ok(x) => Ok(Value::String(x)),
                Err(e) => Err(e),
            }
        } else if t == 0x08 {
            match self.read_bytes() {
                Ok(x) => Ok(Value::Blob(x)),
                Err(e) => Err(e),
            }
        } else if t == 0xee {
            match self.read_tag() {
                Ok(x) => Ok(Value::Tag(x)),
                Err(e) => Err(e),
            }
        } else {
            Err(Error::InvalidToken)
        }
    }

    fn read_bool_array_value(&mut self) -> (r: Result<Value<u64>, Error>)
        requires
            old(self).wf(),
        ensures
            final(self).wf(),
            final(self).input == old(self).input,
            match dec_value(0x80, old(self).rest()) {
                Ok((x, n)) => r matches Ok(v) && v@ == x && final(self).pos == old(self).pos + n,
                Err(e) => r matches Err(e2) && e2 == e,
            },
    {
        proof {
            reveal(dec_value);
        }
        match self.read_bool_array() {
            Ok(x) => Ok(Value::BoolArray(x)),
            Err(e) => Err(e),
        }
    }

    fn read_int_array_value(&mut self) -> (r: Result<Value<u64>, Error>)
        requires
            old(self).wf(),
        ensures
            final(self).wf(),
            final(self).input == old(self).input,
            match dec_value(0x81, old(self).rest()) {
                Ok((x, n)) => r matches Ok(v) && v@ == x && final(self).pos == old(self).pos + n,
                Err(e) => r matches Err(e2) && e2 == e,
            },
    {
        proof {
            reveal(dec_value);
        }
        match self.read_int_array() {
            Ok(x) => Ok(Value::IntArray(x)),
            Err(e) => Err(e),
        }
    }

    fn read_double_array_value(&mut self) -> (r: Result<Value<u64>, Error>)
        requires
            old(self).wf(),
        ensures
            final(self).wf(),
            final(self).input == old(self).input,
            match dec_value(0x82, old(self).rest()) {
                Ok((x, n)) => r matches Ok(v) && v@ == x && final(self).pos == old(self).pos + n,
                Err(e) => r matches Err(e2) && e2 == e,
            },
    {
        proof {
            reveal(dec_value);
        }
        match self.read_double_array() {
            Ok(x) => Ok(Value::DoubleArray(x)),
            Err(e) => Err(e),
        }
    }

    fn read_vec2_array_value(&mut self) -> (r: Result<Value<u64>, Error>)
        requires
            old(self).wf(),
        ensures
            final(self).wf(),
            final(self).input == old(self).input,
            match dec_value(0x83, old(self).rest()) {
                Ok((x, n)) => r matches Ok(v) && v@ == x && final(self).pos == old(self).pos + n,
                Err(e) => r matches Err(e2) && e2 == e,
            },
    {
        proof {
            reveal(dec_value);
        }
        match self.read_vec2_array() {
            Ok(x) => Ok(Value::Vec2Array(x)),
            Err(e) => Err(e),
        }
    }

    fn read_vec3_array_value(&mut self) -> (r: Result<Value<u64>, Error>)
        requires
            old(self).wf(),
        ensures
            final(self).wf(),
            final(self).input == old(self).input,
            match dec_value(0x84, old(self).rest()) {
                Ok((x, n)) => r matches Ok(v) && v@ == x && final(self).pos == old(self).pos + n,
                Err(e) => r matches Err(e2) && e2 == e,
            },
    {
        proof {
            reveal(dec_value);
        }
        match self.read_vec3_array() {
            Ok(x) => Ok(Value::Vec3Array(x)),
            Err(e) => Err(e),
        }
    }

    fn read_vec4_array_value(&mut self) -> (r: Result<Value<u64>, Error>)
        requires
            old(self).wf(),
        ensures
            final(self).wf(),
            final(self).input == old(self).input,
            match dec_value(0x85, old(self).rest()) {
                Ok((x, n)) => r matches Ok(v) && v@ == x && final(self).pos == old(self).pos + n,
                Err(e) => r matches Err(e2) && e2 == e,
            },
    {
        proof {
            reveal(dec_value);
        }
        match self.read_vec4_array() {
            Ok(x) => Ok(Value::Vec4Array(x)),
            Err(e) => Err(e),
        }
    }

    fn read_box2_array_value(&mut self) -> (r: Result<Value<u64>, Error>)
        requires
            old(self).wf(),
        ensures
            final(self).wf(),
            final(self).input == old(self).input,
            match dec_value(0x86, old(self).rest()) {
                Ok((x, n)) => r matches Ok(v) && v@ == x && final(self).pos == old(self).pos + n,
                Err(e) => r matches Err(e2) && e2 == e,
            },
    {
        proof {
            reveal(dec_value);
        }
        match self.read_box2_array() {
            Ok(x) => Ok(Value::Box2Array(x)),
            Err(e) => Err(e),
        }
    }

    fn read_array(&mut self, t: u8) -> (r: Result<Value<u64>, Error>)
        requires
            old(self).wf(),
            t >= 0x80 && t != 0xee,
        ensures
            final(self).wf(),
            final(self).input == old(self).input,
            match dec_value(t, old(self).rest()) {
                Ok((x, n)) => r matches Ok(v) && v@ == x && final(self).pos == old(self).pos + n,
                Err(e) => r matches Err(e2) && e2 == e,
            },
    {
        if t == 0x80 {
            self.read_bool_array_value()
        } else if t == 0x81 {
            self.read_int_array_value()
        } else if t == 0x82 {
            self.read_double_array_value()
        } else if t == 0x83 {
            self.read_vec2_array_value()
        } else if t == 0x84 {
            self.read_vec3_array_value()
        } else if t == 0x85 {
            self.read_vec4_array_value()
        } else if t == 0x86 {
            self.read_box2_array_value()
        } else {
            proof {
                lemma_dec_value_unknown(t, old(self).rest());
            }
            Err(Error::InvalidToken)
        }
    }

    /// Reads the next token: `EndOfFile` once the input is used up.
    pub fn read_next(&mut self) -> (r: Result<Token<u64>, Error>)
        requires
            old(self).wf(),
        ensures
            final(self).wf(),
            final(self).input == old(self).input,
            match dec_token(old(self).rest()) {
                Ok((t, n)) => r matches Ok(tok) && tok@ == t && final(self).pos == old(self).pos + n,
                Err(e) => r matches Err(e2) && e2 == e,
            },
    {
        if self.pos >= self.input.len() {
            return Ok(Token::EndOfFile);
        }
        let b = self.input[self.pos];
        self.pos = self.pos + 1;
        assert(self.rest() =~= old(self).rest().skip(1));
        if b == 0xfe {
            Ok(Token::Start)
        } else if b == 0xef {
            Ok(Token::End)
        } else {
            let v = if b < 0x80 || b == 0xee {
                self.read_scalar(b)
            } else {
                self.read_array(b)
            };
            match v {
                Ok(v) => Ok(Token::Value(v)),
                Err(e) => Err(e),
            }
        }
    }
}

/// Decodes a whole binary stream into its tokens (without the final
/// `EndOfFile`).
pub fn decode_tokens(input: Vec<u8>) -> (r: Result<Vec<Token<u64>>, Error>)
    ensures
        match dec_stream(input@) {
            Ok(ts) => r matches Ok(v) && views(v@) == ts,
            Err(e) => r matches Err(e2) && e2 == e,
        },
{
    let ghost all = input@;
    let mut reader = BinaryReader::new(input);
    let mut out: Vec<Token<u64>> = Vec::new();
    proof {
        match dec_stream(all) {
            Ok(ts) => assert(views(out@) + ts =~= ts),
            Err(_) => {},
        }
    }
    loop
        invariant
            reader.wf(),
            all == input@,
            dec_stream(all) == prepend(views(out@), dec_stream(reader.rest())),
        decreases reader.rest().len(),
    {
        let ghost before = reader.rest();
        let ghost p = reader.pos;
        match reader.read_next() {
            Ok(Token::EndOfFile) => {
                assert(dec_stream(before) == Ok::<Seq<TokenView<u64>>, Error>(seq![]));
                assert(views(out@) + seq![] =~= views(out@));
                return Ok(out);
            },
            Ok(t) => {
                proof {
                    let n = (reader.pos - p) as nat;
                    assert(reader.rest() =~= before.skip(n as int));
                    assert(n > 0);
                    assert(!(t@ is EndOfFile));
                    assert(dec_stream(before) == prepend(seq![t@], dec_stream(reader.rest())));
                    assert(views(out@.push(t)) =~= views(out@) + seq![t@]);
                    match dec_stream(reader.rest()) {
                        Ok(us) => assert((views(out@) + seq![t@]) + us =~= views(out@) + (seq![t@]
                            + us)),
                        Err(_) => {},
                    }
                }
                out.push(t);
            },
            Err(e) => {
                return Err(e);
            },
        }
    }
}

} // verus!
