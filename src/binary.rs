use vstd::prelude::*;
use crate::value::{Error, Tag, TokenView, ValueView};
use vstd::utf8::{decode_utf8, encode_utf8, valid_utf8};

verus! {

// ---------------------------------------------------------------------------
// Byte layout of the binary encoding.

pub open spec fn pow128(i: nat) -> nat
    decreases i,
{
    if i == 0 {
        1
    } else {
        128 * pow128((i - 1) as nat)
    }
}

/// LEB128 encoding of an unsigned integer: seven bits per byte, low bits
/// first, the top bit set on every byte but the last.
pub open spec fn enc_uvarint(n: nat) -> Seq<u8>
    decreases n,
{
    if n < 128 {
        seq![n as u8]
    } else {
        seq![(n % 128 + 128) as u8] + enc_uvarint(n / 128)
    }
}

/// Decoding of a varint from byte `i` on, with `acc` the value of bytes
/// `0..i`; at most ten bytes are read.
pub open spec fn dec_uvarint_from(s: Seq<u8>, i: nat, acc: int) -> Result<(int, nat), Error>
    decreases 10 - i,
{
    if i >= 10 {
        Err(Error::InvalidToken)
    } else if i >= s.len() {
        Err(Error::UnexpectedEndOfFile)
    } else if s[i as int] < 128 {
        Ok((acc + s[i as int] * pow128(i), i + 1))
    } else {
        dec_uvarint_from(s, i + 1, acc + (s[i as int] - 128) * pow128(i))
    }
}

/// A varint at the start of `s`, and the number of bytes it takes.
pub open spec fn dec_uvarint(s: Seq<u8>) -> Result<(u64, nat), Error> {
    match dec_uvarint_from(s, 0, 0) {
        Ok((v, n)) => if v <= u64::MAX {
            Ok((v as u64, n))
        } else {
            Err(Error::Range)
        },
        Err(e) => Err(e),
    }
}

pub open spec fn zigzag(v: int) -> int {
    if v >= 0 {
        2 * v
    } else {
        -2 * v - 1
    }
}

pub open spec fn unzigzag(u: int) -> int {
    if u % 2 == 0 {
        u / 2
    } else {
        0 - (u + 1) / 2
    }
}

pub open spec fn enc_int(v: i32) -> Seq<u8> {
    enc_uvarint(zigzag(v as int) as nat)
}

pub open spec fn dec_int(s: Seq<u8>) -> Result<(i32, nat), Error> {
    match dec_uvarint(s) {
        Ok((u, n)) => {
            let v = unzigzag(u as int);
            if i32::MIN <= v && v <= i32::MAX {
                Ok((v as i32, n))
            } else {
                Err(Error::Range)
            }
        },
        Err(e) => Err(e),
    }
}

/// Eight bytes, least significant first.
pub open spec fn enc_u64(x: u64) -> Seq<u8> {
    seq![
        (x & 0xff) as u8,
        ((x >> 8u64) & 0xff) as u8,
        ((x >> 16u64) & 0xff) as u8,
        ((x >> 24u64) & 0xff) as u8,
        ((x >> 32u64) & 0xff) as u8,
        ((x >> 40u64) & 0xff) as u8,
        ((x >> 48u64) & 0xff) as u8,
        ((x >> 56u64) & 0xff) as u8,
    ]
}

pub open spec fn le_u64(s: Seq<u8>) -> u64 {
    (s[0] as u64) | ((s[1] as u64) << 8u64) | ((s[2] as u64) << 16u64) | ((s[3] as u64)
        << 24u64) | ((s[4] as u64) << 32u64) | ((s[5] as u64) << 40u64) | ((s[6] as u64)
        << 48u64) | ((s[7] as u64) << 56u64)
}

/// Four bytes, most significant first.
pub open spec fn enc_u32(x: u32) -> Seq<u8> {
    seq![
        ((x >> 24u32) & 0xff) as u8,
        ((x >> 16u32) & 0xff) as u8,
        ((x >> 8u32) & 0xff) as u8,
        (x & 0xff) as u8,
    ]
}

pub open spec fn be_u32(s: Seq<u8>) -> u32 {
    ((s[0] as u32) << 24u32) | ((s[1] as u32) << 16u32) | ((s[2] as u32) << 8u32) | (s[3] as u32)
}

// ---------------------------------------------------------------------------
// Values.

pub open spec fn enc_bool(b: bool) -> Seq<u8> {
    seq![if b { 1u8 } else { 0u8 }]
}

pub open spec fn enc_vec2(x: (u64, u64)) -> Seq<u8> {
    enc_u64(x.0) + enc_u64(x.1)
}

pub open spec fn enc_vec3(x: (u64, u64, u64)) -> Seq<u8> {
    enc_u64(x.0) + enc_u64(x.1) + enc_u64(x.2)
}

pub open spec fn enc_vec4(x: (u64, u64, u64, u64)) -> Seq<u8> {
    enc_u64(x.0) + enc_u64(x.1) + enc_u64(x.2) + enc_u64(x.3)
}

pub open spec fn enc_box2(x: ((u64, u64), (u64, u64))) -> Seq<u8> {
    enc_vec2(x.0) + enc_vec2(x.1)
}

pub open spec fn dec_bool(s: Seq<u8>) -> Result<(bool, nat), Error> {
    if s.len() < 1 {
        Err(Error::UnexpectedEndOfFile)
    } else {
        Ok((s[0] != 0, 1))
    }
}

pub open spec fn dec_double(s: Seq<u8>) -> Result<(u64, nat), Error> {
    if s.len() < 8 {
        Err(Error::UnexpectedEndOfFile)
    } else {
        Ok((le_u64(s), 8))
    }
}

pub open spec fn dec_vec2(s: Seq<u8>) -> Result<((u64, u64), nat), Error> {
    if s.len() < 16 {
        Err(Error::UnexpectedEndOfFile)
    } else {
        Ok(((le_u64(s), le_u64(s.skip(8))), 16))
    }
}

pub open spec fn dec_vec3(s: Seq<u8>) -> Result<((u64, u64, u64), nat), Error> {
    if s.len() < 24 {
        Err(Error::UnexpectedEndOfFile)
    } else {
        Ok(((le_u64(s), le_u64(s.skip(8)), le_u64(s.skip(16))), 24))
    }
}

pub open spec fn dec_vec4(s: Seq<u8>) -> Result<((u64, u64, u64, u64), nat), Error> {
    if s.len() < 32 {
        Err(Error::UnexpectedEndOfFile)
    } else {
        Ok(((le_u64(s), le_u64(s.skip(8)), le_u64(s.skip(16)), le_u64(s.skip(24))), 32))
    }
}

pub open spec fn dec_box2(s: Seq<u8>) -> Result<(((u64, u64), (u64, u64)), nat), Error> {
    if s.len() < 32 {
        Err(Error::UnexpectedEndOfFile)
    } else {
        Ok((((le_u64(s), le_u64(s.skip(8))), (le_u64(s.skip(16)), le_u64(s.skip(24)))), 32))
    }
}

pub open spec fn dec_tag(s: Seq<u8>) -> Result<(Tag, nat), Error> {
    if s.len() < 4 {
        Err(Error::UnexpectedEndOfFile)
    } else {
        Ok((be_u32(s), 4))
    }
}

pub open spec fn bool_enc() -> spec_fn(bool) -> Seq<u8> {
    |x: bool| enc_bool(x)
}

pub open spec fn int_enc() -> spec_fn(i32) -> Seq<u8> {
    |x: i32| enc_int(x)
}

pub open spec fn double_enc() -> spec_fn(u64) -> Seq<u8> {
    |x: u64| enc_u64(x)
}

pub open spec fn vec2_enc() -> spec_fn((u64, u64)) -> Seq<u8> {
    |x: (u64, u64)| enc_vec2(x)
}

pub open spec fn vec3_enc() -> spec_fn((u64, u64, u64)) -> Seq<u8> {
    |x: (u64, u64, u64)| enc_vec3(x)
}

pub open spec fn vec4_enc() -> spec_fn((u64, u64, u64, u64)) -> Seq<u8> {
    |x: (u64, u64, u64, u64)| enc_vec4(x)
}

pub open spec fn box2_enc() -> spec_fn(((u64, u64), (u64, u64))) -> Seq<u8> {
    |x: ((u64, u64), (u64, u64))| enc_box2(x)
}

pub open spec fn bool_dec() -> spec_fn(Seq<u8>) -> Result<(bool, nat), Error> {
    |s: Seq<u8>| dec_bool(s)
}

pub open spec fn int_dec() -> spec_fn(Seq<u8>) -> Result<(i32, nat), Error> {
    |s: Seq<u8>| dec_int(s)
}

pub open spec fn double_dec() -> spec_fn(Seq<u8>) -> Result<(u64, nat), Error> {
    |s: Seq<u8>| dec_double(s)
}

pub open spec fn vec2_dec() -> spec_fn(Seq<u8>) -> Result<((u64, u64), nat), Error> {
    |s: Seq<u8>| dec_vec2(s)
}

pub open spec fn vec3_dec() -> spec_fn(Seq<u8>) -> Result<((u64, u64, u64), nat), Error> {
    |s: Seq<u8>| dec_vec3(s)
}

pub open spec fn vec4_dec() -> spec_fn(Seq<u8>) -> Result<((u64, u64, u64, u64), nat), Error> {
    |s: Seq<u8>| dec_vec4(s)
}

pub open spec fn box2_dec() -> spec_fn(Seq<u8>) -> Result<(((u64, u64), (u64, u64)), nat), Error> {
    |s: Seq<u8>| dec_box2(s)
}

/// The elements of an array, one after the other.
pub open spec fn enc_all<T>(xs: Seq<T>, f: spec_fn(T) -> Seq<u8>) -> Seq<u8>
    decreases xs.len(),
{
    if xs.len() == 0 {
        seq![]
    } else {
        enc_all(xs.drop_last(), f) + f(xs.last())
    }
}

/// `n` elements decoded one after the other from the start of `s`.
pub open spec fn dec_all<T>(s: Seq<u8>, n: nat, d: spec_fn(Seq<u8>) -> Result<(T, nat), Error>) -> Result<(Seq<T>, nat), Error>
    decreases n,
{
    if n == 0 {
        Ok((seq![], 0))
    } else {
        match dec_all(s, (n - 1) as nat, d) {
            Ok((xs, k)) => match d(s.skip(k as int)) {
                Ok((x, m)) => Ok((xs.push(x), k + m)),
                Err(e) => Err(e),
            },
            Err(e) => Err(e),
        }
    }
}

/// A count followed by that many elements.
pub open spec fn dec_array<T>(s: Seq<u8>, d: spec_fn(Seq<u8>) -> Result<(T, nat), Error>) -> Result<(Seq<T>, nat), Error> {
    match dec_uvarint(s) {
        Ok((n, k)) => match dec_all(s.skip(k as int), n as nat, d) {
            Ok((xs, m)) => Ok((xs, k + m)),
            Err(e) => Err(e),
        },
        Err(e) => Err(e),
    }
}

/// A length followed by that many raw bytes.
pub open spec fn dec_bytes(s: Seq<u8>) -> Result<(Seq<u8>, nat), Error> {
    match dec_uvarint(s) {
        Ok((n, k)) => if s.len() - k < n {
            Err(Error::UnexpectedEndOfFile)
        } else {
            Ok((s.subrange(k as int, k + n), (k + n) as nat))
        },
        Err(e) => Err(e),
    }
}

pub open spec fn dec_string(s: Seq<u8>) -> Result<(Seq<char>, nat), Error> {
    match dec_bytes(s) {
        Ok((b, n)) => if valid_utf8(b) {
            Ok((decode_utf8(b), n))
        } else {
            Err(Error::Range)
        },
        Err(e) => Err(e),
    }
}

pub open spec fn value_of<T>(r: Result<(T, nat), Error>, mk: spec_fn(T) -> ValueView<u64>) -> Result<(ValueView<u64>, nat), Error> {
    match r {
        Ok((x, n)) => Ok((mk(x), n)),
        Err(e) => Err(e),
    }
}

/// The value whose type byte is `t`, from its payload at the start of `s`.
#[verifier::opaque]
pub open spec fn dec_value(t: u8, s: Seq<u8>) -> Result<(ValueView<u64>, nat), Error> {
    if t == 0x00 {
        value_of(dec_bool(s), |x| ValueView::Bool(x))
    } else if t == 0x01 {
        value_of(dec_int(s), |x| ValueView::Int(x))
    } else if t == 0x02 {
        value_of(dec_double(s), |x| ValueView::Double(x))
    } else if t == 0x03 {
        value_of(dec_vec2(s), |x| ValueView::Vec2(x))
    } else if t == 0x04 {
        value_of(dec_vec3(s), |x| ValueView::Vec3(x))
    } else if t == 0x05 {
        value_of(dec_vec4(s), |x| ValueView::Vec4(x))
    } else if t == 0x06 {
        value_of(dec_box2(s), |x| ValueView::Box2(x))
    } else if t == 0x07 {
        value_of(dec_string(s), |x| ValueView::String(x))
    } else if t == 0x08 {
        value_of(dec_bytes(s), |x| ValueView::Blob(x))
    } else if t == 0xee {
        value_of(dec_tag(s), |x| ValueView::Tag(x))
    } else if t == 0x80 {
        value_of(dec_array(s, bool_dec()), |x| ValueView::BoolArray(x))
    } else if t == 0x81 {
        value_of(dec_array(s, int_dec()), |x| ValueView::IntArray(x))
    } else if t == 0x82 {
        value_of(dec_array(s, double_dec()), |x| ValueView::DoubleArray(x))
    } else if t == 0x83 {
        value_of(dec_array(s, vec2_dec()), |x| ValueView::Vec2Array(x))
    } else if t == 0x84 {
        value_of(dec_array(s, vec3_dec()), |x| ValueView::Vec3Array(x))
    } else if t == 0x85 {
        value_of(dec_array(s, vec4_dec()), |x| ValueView::Vec4Array(x))
    } else if t == 0x86 {
        value_of(dec_array(s, box2_dec()), |x| ValueView::Box2Array(x))
    } else {
        Err(Error::InvalidToken)
    }
}

/// The token at the start of `s`, and the number of bytes it takes.
pub open spec fn dec_token(s: Seq<u8>) -> Result<(TokenView<u64>, nat), Error> {
    if s.len() == 0 {
        Ok((TokenView::EndOfFile, 0))
    } else if s[0] == 0xfe {
        Ok((TokenView::Start, 1))
    } else if s[0] == 0xef {
        Ok((TokenView::End, 1))
    } else {
        match dec_value(s[0], s.skip(1)) {
            Ok((v, n)) => Ok((TokenView::Value(v), n + 1)),
            Err(e) => Err(e),
        }
    }
}

pub open spec fn enc_array<T>(xs: Seq<T>, f: spec_fn(T) -> Seq<u8>) -> Seq<u8> {
    enc_uvarint(xs.len()) + enc_all(xs, f)
}

pub open spec fn enc_value(v: ValueView<u64>) -> Seq<u8> {
    match v {
        ValueView::Bool(x) => seq![0x00u8] + enc_bool(x),
        ValueView::Int(x) => seq![0x01u8] + enc_int(x),
        ValueView::Double(x) => seq![0x02u8] + enc_u64(x),
        ValueView::Vec2(x) => seq![0x03u8] + enc_vec2(x),
        ValueView::Vec3(x) => seq![0x04u8] + enc_vec3(x),
        ValueView::Vec4(x) => seq![0x05u8] + enc_vec4(x),
        ValueView::Box2(x) => seq![0x06u8] + enc_box2(x),
        ValueView::String(x) => seq![0x07u8] + enc_uvarint(encode_utf8(x).len()) + encode_utf8(x),
        ValueView::Blob(x) => seq![0x08u8] + enc_uvarint(x.len()) + x,
        ValueView::Tag(x) => seq![0xeeu8] + enc_u32(x),
        ValueView::BoolArray(x) => seq![0x80u8] + enc_array(x, bool_enc()),
        ValueView::IntArray(x) => seq![0x81u8] + enc_array(x, int_enc()),
        ValueView::DoubleArray(x) => seq![0x82u8] + enc_array(x, double_enc()),
        ValueView::Vec2Array(x) => seq![0x83u8] + enc_array(x, vec2_enc()),
        ValueView::Vec3Array(x) => seq![0x84u8] + enc_array(x, vec3_enc()),
        ValueView::Vec4Array(x) => seq![0x85u8] + enc_array(x, vec4_enc()),
        ValueView::Box2Array(x) => seq![0x86u8] + enc_array(x, box2_enc()),
    }
}

pub open spec fn enc_token(t: TokenView<u64>) -> Seq<u8> {
    match t {
        TokenView::Start => seq![0xfeu8],
        TokenView::End => seq![0xefu8],
        TokenView::Value(v) => enc_value(v),
        TokenView::EndOfFile => seq![],
    }
}

pub open spec fn enc_tokens(ts: Seq<TokenView<u64>>) -> Seq<u8>
    decreases ts.len(),
{
    if ts.len() == 0 {
        seq![]
    } else {
        enc_tokens(ts.drop_last()) + enc_token(ts.last())
    }
}

/// Every length in the value can be written as a varint.
pub open spec fn fits(v: ValueView<u64>) -> bool {
    match v {
        ValueView::String(x) => encode_utf8(x).len() <= u64::MAX,
        ValueView::Blob(x) => x.len() <= u64::MAX,
        ValueView::BoolArray(x) => x.len() <= u64::MAX,
        ValueView::IntArray(x) => x.len() <= u64::MAX,
        ValueView::DoubleArray(x) => x.len() <= u64::MAX,
        ValueView::Vec2Array(x) => x.len() <= u64::MAX,
        ValueView::Vec3Array(x) => x.len() <= u64::MAX,
        ValueView::Vec4Array(x) => x.len() <= u64::MAX,
        ValueView::Box2Array(x) => x.len() <= u64::MAX,
        _ => true,
    }
}

// ---------------------------------------------------------------------------
// Lemmas on the byte layout.

pub proof fn lemma_u64_round_trip(x: u64)
    ensures
        le_u64(enc_u64(x)) == x,
        enc_u64(x).len() == 8,
{
    let b0 = x & 0xff;
    let b1 = (x >> 8u64) & 0xff;
    let b2 = (x >> 16u64) & 0xff;
    let b3 = (x >> 24u64) & 0xff;
    let b4 = (x >> 32u64) & 0xff;
    let b5 = (x >> 40u64) & 0xff;
    let b6 = (x >> 48u64) & 0xff;
    let b7 = (x >> 56u64) & 0xff;
    assert(b0 < 256 && b1 < 256 && b2 < 256 && b3 < 256 && b4 < 256 && b5 < 256 && b6 < 256
        && b7 < 256) by (bit_vector)
        requires
            b0 == x & 0xff,
            b1 == (x >> 8u64) & 0xff,
            b2 == (x >> 16u64) & 0xff,
            b3 == (x >> 24u64) & 0xff,
            b4 == (x >> 32u64) & 0xff,
            b5 == (x >> 40u64) & 0xff,
            b6 == (x >> 48u64) & 0xff,
            b7 == (x >> 56u64) & 0xff,
    ;
    assert(x == b0 | (b1 << 8u64) | (b2 << 16u64) | (b3 << 24u64) | (b4 << 32u64) | (b5
        << 40u64) | (b6 << 48u64) | (b7 << 56u64)) by (bit_vector)
        requires
            b0 == x & 0xff,
            b1 == (x >> 8u64) & 0xff,
            b2 == (x >> 16u64) & 0xff,
            b3 == (x >> 24u64) & 0xff,
            b4 == (x >> 32u64) & 0xff,
            b5 == (x >> 40u64) & 0xff,
            b6 == (x >> 48u64) & 0xff,
            b7 == (x >> 56u64) & 0xff,
    ;
}

pub proof fn lemma_u32_round_trip(x: u32)
    ensures
        be_u32(enc_u32(x)) == x,
        enc_u32(x).len() == 4,
{
    let b0 = (x >> 24u32) & 0xff;
    let b1 = (x >> 16u32) & 0xff;
    let b2 = (x >> 8u32) & 0xff;
    let b3 = x & 0xff;
    assert(b0 < 256 && b1 < 256 && b2 < 256 && b3 < 256) by (bit_vector)
        requires
            b0 == (x >> 24u32) & 0xff,
            b1 == (x >> 16u32) & 0xff,
            b2 == (x >> 8u32) & 0xff,
            b3 == x & 0xff,
    ;
    assert(x == (b0 << 24u32) | (b1 << 16u32) | (b2 << 8u32) | b3) by (bit_vector)
        requires
            b0 == (x >> 24u32) & 0xff,
            b1 == (x >> 16u32) & 0xff,
            b2 == (x >> 8u32) & 0xff,
            b3 == x & 0xff,
    ;
}


pub proof fn lemma_pow128_step(i: nat)
    ensures
        pow128(i + 1) == 128 * pow128(i),
        pow128(i) >= 1,
    decreases i,
{
    if i > 0 {
        lemma_pow128_step((i - 1) as nat);
    }
}

pub proof fn lemma_pow128_values()
    ensures
        pow128(9) == 0x8000000000000000,
        pow128(10) == 0x400000000000000000,
{
    reveal_with_fuel(pow128, 11);
}

pub proof fn lemma_pow128_mono(i: nat, j: nat)
    requires
        i <= j,
    ensures
        pow128(i) <= pow128(j),
    decreases j - i,
{
    if i < j {
        lemma_pow128_mono(i, (j - 1) as nat);
        lemma_pow128_step((j - 1) as nat);
    }
}

/// A value below `128^k` takes at most `k` bytes.
proof fn lemma_uvarint_len(n: nat, k: nat)
    requires
        n < pow128(k),
        k >= 1,
    ensures
        1 <= enc_uvarint(n).len() <= k,
    decreases n,
{
    if n >= 128 {
        lemma_pow128_step((k - 1) as nat);
        if k == 1 {
            assert(pow128(0) == 1);
            assert(false);
        }
        assert(n / 128 < pow128((k - 1) as nat));
        lemma_uvarint_len(n / 128, (k - 1) as nat);
    }
}

proof fn lemma_uvarint_from(p: Seq<u8>, n: nat, r: Seq<u8>, acc: int)
    requires
        p.len() + enc_uvarint(n).len() <= 10,
    ensures
        dec_uvarint_from(p + enc_uvarint(n) + r, p.len(), acc) == Ok::<(int, nat), Error>(
            (acc + n * pow128(p.len()), p.len() + enc_uvarint(n).len()),
        ),
    decreases n,
{
    let i = p.len();
    let s = p + enc_uvarint(n) + r;
    assert(s[i as int] == enc_uvarint(n)[0]);
    if n >= 128 {
        let b = (n % 128 + 128) as u8;
        let q = p.push(b);
        assert(q + enc_uvarint(n / 128) + r =~= s);
        lemma_uvarint_from(q, n / 128, r, acc + (b - 128) * pow128(i));
        lemma_pow128_step(i);
        let q = pow128(i) as int;
        assert((n % 128) * q + (n / 128) * (128 * q) == n * q) by (nonlinear_arith)
            requires
                n == 128 * (n / 128) + n % 128,
        ;
    }
}

/// Decoding an encoded unsigned integer gives it back, whatever follows.
pub proof fn lemma_uvarint_round_trip(n: u64, r: Seq<u8>)
    ensures
        dec_uvarint(enc_uvarint(n as nat) + r) == Ok::<(u64, nat), Error>(
            (n, enc_uvarint(n as nat).len()),
        ),
        1 <= enc_uvarint(n as nat).len() <= 10,
{
    lemma_pow128_values();
    lemma_uvarint_len(n as nat, 10);
    let e: Seq<u8> = seq![];
    assert(e + enc_uvarint(n as nat) + r =~= enc_uvarint(n as nat) + r);
    lemma_uvarint_from(e, n as nat, r, 0);
    assert(pow128(0) == 1);
    assert(n as nat * pow128(0) == n);
}

/// Decoding an encoded `Int` gives it back, whatever follows.
pub proof fn lemma_int_round_trip(v: i32, r: Seq<u8>)
    ensures
        dec_int(enc_int(v) + r) == Ok::<(i32, nat), Error>((v, enc_int(v).len())),
        1 <= enc_int(v).len() <= 10,
{
    let z = zigzag(v as int);
    assert(0 <= z <= u64::MAX);
    lemma_uvarint_round_trip(z as u64, r);
    assert(unzigzag(z) == v);
}

proof fn lemma_le_prefix(a: Seq<u8>, b: Seq<u8>)
    requires
        a.len() >= 8,
    ensures
        le_u64(a + b) == le_u64(a),
{
    assert((a + b)[0] == a[0] && (a + b)[1] == a[1] && (a + b)[2] == a[2] && (a + b)[3] == a[3]);
    assert((a + b)[4] == a[4] && (a + b)[5] == a[5] && (a + b)[6] == a[6] && (a + b)[7] == a[7]);
}

proof fn lemma_u64_el(x: u64, r: Seq<u8>)
    ensures
        le_u64(enc_u64(x) + r) == x,
        enc_u64(x).len() == 8,
{
    lemma_u64_round_trip(x);
    lemma_le_prefix(enc_u64(x), r);
}

proof fn lemma_double_el(x: u64, r: Seq<u8>)
    ensures
        dec_double(enc_u64(x) + r) == Ok::<(u64, nat), Error>((x, enc_u64(x).len())),
{
    lemma_u64_el(x, r);
}

proof fn lemma_vec2_el(x: (u64, u64), r: Seq<u8>)
    ensures
        dec_vec2(enc_vec2(x) + r) == Ok::<((u64, u64), nat), Error>((x, enc_vec2(x).len())),
{
    let s = enc_vec2(x) + r;
    lemma_u64_el(x.0, enc_u64(x.1) + r);
    lemma_u64_el(x.1, r);
    assert(s =~= enc_u64(x.0) + (enc_u64(x.1) + r));
    assert(s.skip(8) =~= enc_u64(x.1) + r);
}

proof fn lemma_vec3_el(x: (u64, u64, u64), r: Seq<u8>)
    ensures
        dec_vec3(enc_vec3(x) + r) == Ok::<((u64, u64, u64), nat), Error>((x, enc_vec3(x).len())),
{
    let s = enc_vec3(x) + r;
    lemma_u64_el(x.0, enc_u64(x.1) + enc_u64(x.2) + r);
    lemma_u64_el(x.1, enc_u64(x.2) + r);
    lemma_u64_el(x.2, r);
    assert(s =~= enc_u64(x.0) + (enc_u64(x.1) + enc_u64(x.2) + r));
    assert(s.skip(8) =~= enc_u64(x.1) + (enc_u64(x.2) + r));
    assert(s.skip(16) =~= enc_u64(x.2) + r);
}

proof fn lemma_vec4_el(x: (u64, u64, u64, u64), r: Seq<u8>)
    ensures
        dec_vec4(enc_vec4(x) + r) == Ok::<((u64, u64, u64, u64), nat), Error>(
            (x, enc_vec4(x).len()),
        ),
{
    let s = enc_vec4(x) + r;
    lemma_u64_el(x.0, enc_u64(x.1) + enc_u64(x.2) + enc_u64(x.3) + r);
    lemma_u64_el(x.1, enc_u64(x.2) + enc_u64(x.3) + r);
    lemma_u64_el(x.2, enc_u64(x.3) + r);
    lemma_u64_el(x.3, r);
    assert(s =~= enc_u64(x.0) + (enc_u64(x.1) + enc_u64(x.2) + enc_u64(x.3) + r));
    assert(s.skip(8) =~= enc_u64(x.1) + (enc_u64(x.2) + enc_u64(x.3) + r));
    assert(s.skip(16) =~= enc_u64(x.2) + (enc_u64(x.3) + r));
    assert(s.skip(24) =~= enc_u64(x.3) + r);
}

proof fn lemma_box2_el(x: ((u64, u64), (u64, u64)), r: Seq<u8>)
    ensures
        dec_box2(enc_box2(x) + r) == Ok::<(((u64, u64), (u64, u64)), nat), Error>(
            (x, enc_box2(x).len()),
        ),
{
    let y = (x.0.0, x.0.1, x.1.0, x.1.1);
    assert(enc_box2(x) =~= enc_vec4(y));
    lemma_vec4_el(y, r);
}

proof fn lemma_all_round_trip<T>(
    xs: Seq<T>,
    r: Seq<u8>,
    f: spec_fn(T) -> Seq<u8>,
    d: spec_fn(Seq<u8>) -> Result<(T, nat), Error>,
)
    requires
        forall|x: T, r2: Seq<u8>| #[trigger] d(f(x) + r2) == Ok::<(T, nat), Error>((x, f(x).len())),
    ensures
        dec_all(enc_all(xs, f) + r, xs.len(), d) == Ok::<(Seq<T>, nat), Error>(
            (xs, enc_all(xs, f).len()),
        ),
    decreases xs.len(),
{
    if xs.len() == 0 {
        assert(xs =~= seq![]);
    } else {
        let init = xs.drop_last();
        let x = xs.last();
        let s = enc_all(xs, f) + r;
        assert(s =~= enc_all(init, f) + (f(x) + r));
        lemma_all_round_trip(init, f(x) + r, f, d);
        let k = enc_all(init, f).len();
        assert(s.skip(k as int) =~= f(x) + r);
        assert(init.push(x) =~= xs);
    }
}

proof fn lemma_array_round_trip<T>(
    xs: Seq<T>,
    r: Seq<u8>,
    f: spec_fn(T) -> Seq<u8>,
    d: spec_fn(Seq<u8>) -> Result<(T, nat), Error>,
)
    requires
        xs.len() <= u64::MAX,
        forall|x: T, r2: Seq<u8>| #[trigger] d(f(x) + r2) == Ok::<(T, nat), Error>((x, f(x).len())),
    ensures
        dec_array(enc_array(xs, f) + r, d) == Ok::<(Seq<T>, nat), Error>(
            (xs, enc_array(xs, f).len()),
        ),
{
    let n = xs.len() as u64;
    let s = enc_array(xs, f) + r;
    assert(s =~= enc_uvarint(n as nat) + (enc_all(xs, f) + r));
    lemma_uvarint_round_trip(n, enc_all(xs, f) + r);
    let k = enc_uvarint(n as nat).len();
    assert(s.skip(k as int) =~= enc_all(xs, f) + r);
    lemma_all_round_trip(xs, r, f, d);
}

proof fn lemma_bytes_round_trip(b: Seq<u8>, r: Seq<u8>)
    requires
        b.len() <= u64::MAX,
    ensures
        dec_bytes(enc_uvarint(b.len()) + b + r) == Ok::<(Seq<u8>, nat), Error>(
            (b, enc_uvarint(b.len()).len() + b.len()),
        ),
{
    let n = b.len() as u64;
    let s = enc_uvarint(b.len()) + b + r;
    assert(s =~= enc_uvarint(n as nat) + (b + r));
    lemma_uvarint_round_trip(n, b + r);
    let k = enc_uvarint(n as nat).len();
    assert(s.subrange(k as int, k + n) =~= b);
}

proof fn lemma_bool_el(x: bool, r: Seq<u8>)
    ensures
        dec_bool(enc_bool(x) + r) == Ok::<(bool, nat), Error>((x, enc_bool(x).len())),
{
}

proof fn lemma_bool_payload(x: bool, r: Seq<u8>)
    ensures
        dec_value(0x00, enc_bool(x) + r) == Ok::<(ValueView<u64>, nat), Error>(
            (ValueView::Bool(x), (enc_bool(x)).len()),
        ),
{
    reveal(dec_value);
}

proof fn lemma_int_payload(x: i32, r: Seq<u8>)
    ensures
        dec_value(0x01, enc_int(x) + r) == Ok::<(ValueView<u64>, nat), Error>(
            (ValueView::Int(x), (enc_int(x)).len()),
        ),
{
    reveal(dec_value);
    lemma_int_round_trip(x, r);
}

proof fn lemma_double_payload(x: u64, r: Seq<u8>)
    ensures
        dec_value(0x02, enc_u64(x) + r) == Ok::<(ValueView<u64>, nat), Error>(
            (ValueView::Double(x), (enc_u64(x)).len()),
        ),
{
    reveal(dec_value);
    lemma_double_el(x, r);
}

proof fn lemma_vec2_payload(x: (u64, u64), r: Seq<u8>)
    ensures
        dec_value(0x03, enc_vec2(x) + r) == Ok::<(ValueView<u64>, nat), Error>(
            (ValueView::Vec2(x), (enc_vec2(x)).len()),
        ),
{
    reveal(dec_value);
    lemma_vec2_el(x, r);
}

proof fn lemma_vec3_payload(x: (u64, u64, u64), r: Seq<u8>)
    ensures
        dec_value(0x04, enc_vec3(x) + r) == Ok::<(ValueView<u64>, nat), Error>(
            (ValueView::Vec3(x), (enc_vec3(x)).len()),
        ),
{
    reveal(dec_value);
    lemma_vec3_el(x, r);
}

proof fn lemma_vec4_payload(x: (u64, u64, u64, u64), r: Seq<u8>)
    ensures
        dec_value(0x05, enc_vec4(x) + r) == Ok::<(ValueView<u64>, nat), Error>(
            (ValueView::Vec4(x), (enc_vec4(x)).len()),
        ),
{
    reveal(dec_value);
    lemma_vec4_el(x, r);
}

proof fn lemma_box2_payload(x: ((u64, u64), (u64, u64)), r: Seq<u8>)
    ensures
        dec_value(0x06, enc_box2(x) + r) == Ok::<(ValueView<u64>, nat), Error>(
            (ValueView::Box2(x), (enc_box2(x)).len()),
        ),
{
    reveal(dec_value);
    lemma_box2_el(x, r);
}

proof fn lemma_string_payload(x: Seq<char>, r: Seq<u8>)
    requires
        encode_utf8(x).len() <= u64::MAX,
    ensures
        dec_value(0x07, enc_uvarint(encode_utf8(x).len()) + encode_utf8(x) + r) == Ok::<(ValueView<u64>, nat), Error>(
            (ValueView::String(x), (enc_uvarint(encode_utf8(x).len()) + encode_utf8(x)).len()),
        ),
{
    reveal(dec_value);
    lemma_bytes_round_trip(encode_utf8(x), r);
    vstd::utf8::encode_utf8_valid_utf8(x);
    vstd::utf8::encode_utf8_decode_utf8(x);
}

proof fn lemma_blob_payload(x: Seq<u8>, r: Seq<u8>)
    requires
        x.len() <= u64::MAX,
    ensures
        dec_value(0x08, enc_uvarint(x.len()) + x + r) == Ok::<(ValueView<u64>, nat), Error>(
            (ValueView::Blob(x), (enc_uvarint(x.len()) + x).len()),
        ),
{
    reveal(dec_value);
    lemma_bytes_round_trip(x, r);
}

proof fn lemma_tag_payload(x: u32, r: Seq<u8>)
    ensures
        dec_value(0xee, enc_u32(x) + r) == Ok::<(ValueView<u64>, nat), Error>(
            (ValueView::Tag(x), (enc_u32(x)).len()),
        ),
{
    reveal(dec_value);
    lemma_u32_round_trip(x);
    let e = enc_u32(x);
    let t = e + r;
    assert(t[0] == e[0] && t[1] == e[1] && t[2] == e[2] && t[3] == e[3]);
}

proof fn lemma_bool_array_payload(x: Seq<bool>, r: Seq<u8>)
    requires
        x.len() <= u64::MAX,
    ensures
        dec_value(0x80, enc_array(x, bool_enc()) + r) == Ok::<(ValueView<u64>, nat), Error>(
            (ValueView::BoolArray(x), enc_array(x, bool_enc()).len()),
        ),
{
    reveal(dec_value);
    assert forall|y: bool, r2: Seq<u8>|
        #[trigger] bool_dec()(bool_enc()(y) + r2) == Ok::<(bool, nat), Error>(
            (y, bool_enc()(y).len()),
        ) by {
        lemma_bool_el(y, r2);
    }
    lemma_array_round_trip(x, r, bool_enc(), bool_dec());
}

proof fn lemma_int_array_payload(x: Seq<i32>, r: Seq<u8>)
    requires
        x.len() <= u64::MAX,
    ensures
        dec_value(0x81, enc_array(x, int_enc()) + r) == Ok::<(ValueView<u64>, nat), Error>(
            (ValueView::IntArray(x), enc_array(x, int_enc()).len()),
        ),
{
    reveal(dec_value);
    assert forall|y: i32, r2: Seq<u8>|
        #[trigger] int_dec()(int_enc()(y) + r2) == Ok::<(i32, nat), Error>(
            (y, int_enc()(y).len()),
        ) by {
        lemma_int_round_trip(y, r2);
    }
    lemma_array_round_trip(x, r, int_enc(), int_dec());
}

proof fn lemma_double_array_payload(x: Seq<u64>, r: Seq<u8>)
    requires
        x.len() <= u64::MAX,
    ensures
        dec_value(0x82, enc_array(x, double_enc()) + r) == Ok::<(ValueView<u64>, nat), Error>(
            (ValueView::DoubleArray(x), enc_array(x, double_enc()).len()),
        ),
{
    reveal(dec_value);
    assert forall|y: u64, r2: Seq<u8>|
        #[trigger] double_dec()(double_enc()(y) + r2) == Ok::<(u64, nat), Error>(
            (y, double_enc()(y).len()),
        ) by {
        lemma_double_el(y, r2);
    }
    lemma_array_round_trip(x, r, double_enc(), double_dec());
}

proof fn lemma_vec2_array_payload(x: Seq<(u64, u64)>, r: Seq<u8>)
    requires
        x.len() <= u64::MAX,
    ensures
        dec_value(0x83, enc_array(x, vec2_enc()) + r) == Ok::<(ValueView<u64>, nat), Error>(
            (ValueView::Vec2Array(x), enc_array(x, vec2_enc()).len()),
        ),
{
    reveal(dec_value);
    assert forall|y: (u64, u64), r2: Seq<u8>|
        #[trigger] vec2_dec()(vec2_enc()(y) + r2) == Ok::<((u64, u64), nat), Error>(
            (y, vec2_enc()(y).len()),
        ) by {
        lemma_vec2_el(y, r2);
    }
    lemma_array_round_trip(x, r, vec2_enc(), vec2_dec());
}

proof fn lemma_vec3_array_payload(x: Seq<(u64, u64, u64)>, r: Seq<u8>)
    requires
        x.len() <= u64::MAX,
    ensures
        dec_value(0x84, enc_array(x, vec3_enc()) + r) == Ok::<(ValueView<u64>, nat), Error>(
            (ValueView::Vec3Array(x), enc_array(x, vec3_enc()).len()),
        ),
{
    reveal(dec_value);
    assert forall|y: (u64, u64, u64), r2: Seq<u8>|
        #[trigger] vec3_dec()(vec3_enc()(y) + r2) == Ok::<((u64, u64, u64), nat), Error>(
            (y, vec3_enc()(y).len()),
        ) by {
        lemma_vec3_el(y, r2);
    }
    lemma_array_round_trip(x, r, vec3_enc(), vec3_dec());
}

proof fn lemma_vec4_array_payload(x: Seq<(u64, u64, u64, u64)>, r: Seq<u8>)
    requires
        x.len() <= u64::MAX,
    ensures
        dec_value(0x85, enc_array(x, vec4_enc()) + r) == Ok::<(ValueView<u64>, nat), Error>(
            (ValueView::Vec4Array(x), enc_array(x, vec4_enc()).len()),
        ),
{
    reveal(dec_value);
    assert forall|y: (u64, u64, u64, u64), r2: Seq<u8>|
        #[trigger] vec4_dec()(vec4_enc()(y) + r2) == Ok::<((u64, u64, u64, u64), nat), Error>(
            (y, vec4_enc()(y).len()),
        ) by {
        lemma_vec4_el(y, r2);
    }
    lemma_array_round_trip(x, r, vec4_enc(), vec4_dec());
}

proof fn lemma_box2_array_payload(x: Seq<((u64, u64), (u64, u64))>, r: Seq<u8>)
    requires
        x.len() <= u64::MAX,
    ensures
        dec_value(0x86, enc_array(x, box2_enc()) + r) == Ok::<(ValueView<u64>, nat), Error>(
            (ValueView::Box2Array(x), enc_array(x, box2_enc()).len()),
        ),
{
    reveal(dec_value);
    assert forall|y: ((u64, u64), (u64, u64)), r2: Seq<u8>|
        #[trigger] box2_dec()(box2_enc()(y) + r2) == Ok::<(((u64, u64), (u64, u64)), nat), Error>(
            (y, box2_enc()(y).len()),
        ) by {
        lemma_box2_el(y, r2);
    }
    lemma_array_round_trip(x, r, box2_enc(), box2_dec());
}

proof fn lemma_token_of_payload(e: Seq<u8>, p: Seq<u8>, r: Seq<u8>, v: ValueView<u64>)
    requires
        e.len() == p.len() + 1,
        e.skip(1) == p,
        e[0] != 0xfe && e[0] != 0xef,
        dec_value(e[0], p + r) == Ok::<(ValueView<u64>, nat), Error>((v, p.len())),
    ensures
        dec_token(e + r) == Ok::<(TokenView<u64>, nat), Error>((TokenView::Value(v), e.len())),
{
    reveal(dec_value);
    assert((e + r).skip(1) =~= p + r);
    assert((e + r)[0] == e[0]);
}

/// Binary round trip: decoding the encoding of a value, whatever bytes follow
/// it, gives the value back and consumes exactly its encoding.
pub proof fn lemma_value_round_trip(v: ValueView<u64>, r: Seq<u8>)
    requires
        fits(v),
    ensures
        dec_token(enc_value(v) + r) == Ok::<(TokenView<u64>, nat), Error>(
            (TokenView::Value(v), enc_value(v).len()),
        ),
{
    match v {
        ValueView::Bool(x) => {
            lemma_bool_payload(x, r);
            assert(enc_value(v).skip(1) =~= enc_bool(x));
            lemma_token_of_payload(enc_value(v), enc_bool(x), r, v);
        },
        ValueView::Int(x) => {
            lemma_int_payload(x, r);
            assert(enc_value(v).skip(1) =~= enc_int(x));
            lemma_token_of_payload(enc_value(v), enc_int(x), r, v);
        },
        ValueView::Double(x) => {
            lemma_double_payload(x, r);
            assert(enc_value(v).skip(1) =~= enc_u64(x));
            lemma_token_of_payload(enc_value(v), enc_u64(x), r, v);
        },
        ValueView::Vec2(x) => {
            lemma_vec2_payload(x, r);
            assert(enc_value(v).skip(1) =~= enc_vec2(x));
            lemma_token_of_payload(enc_value(v), enc_vec2(x), r, v);
        },
        ValueView::Vec3(x) => {
            lemma_vec3_payload(x, r);
            assert(enc_value(v).skip(1) =~= enc_vec3(x));
            lemma_token_of_payload(enc_value(v), enc_vec3(x), r, v);
        },
        ValueView::Vec4(x) => {
            lemma_vec4_payload(x, r);
            assert(enc_value(v).skip(1) =~= enc_vec4(x));
            lemma_token_of_payload(enc_value(v), enc_vec4(x), r, v);
        },
        ValueView::Box2(x) => {
            lemma_box2_payload(x, r);
            assert(enc_value(v).skip(1) =~= enc_box2(x));
            lemma_token_of_payload(enc_value(v), enc_box2(x), r, v);
        },
        ValueView::String(x) => {
            lemma_string_payload(x, r);
            assert(enc_value(v).skip(1) =~= enc_uvarint(encode_utf8(x).len()) + encode_utf8(x));
            lemma_token_of_payload(enc_value(v), enc_uvarint(encode_utf8(x).len()) + encode_utf8(x), r, v);
        },
        ValueView::Blob(x) => {
            lemma_blob_payload(x, r);
            assert(enc_value(v).skip(1) =~= enc_uvarint(x.len()) + x);
            lemma_token_of_payload(enc_value(v), enc_uvarint(x.len()) + x, r, v);
        },
        ValueView::Tag(x) => {
            lemma_tag_payload(x, r);
            assert(enc_value(v).skip(1) =~= enc_u32(x));
            lemma_token_of_payload(enc_value(v), enc_u32(x), r, v);
        },
        ValueView::BoolArray(x) => {
            lemma_bool_array_payload(x, r);
            assert(enc_value(v).skip(1) =~= enc_array(x, bool_enc()));
            lemma_token_of_payload(enc_value(v), enc_array(x, bool_enc()), r, v);
        },
        ValueView::IntArray(x) => {
            lemma_int_array_payload(x, r);
            assert(enc_value(v).skip(1) =~= enc_array(x, int_enc()));
            lemma_token_of_payload(enc_value(v), enc_array(x, int_enc()), r, v);
        },
        ValueView::DoubleArray(x) => {
            lemma_double_array_payload(x, r);
            assert(enc_value(v).skip(1) =~= enc_array(x, double_enc()));
            lemma_token_of_payload(enc_value(v), enc_array(x, double_enc()), r, v);
        },
        ValueView::Vec2Array(x) => {
            lemma_vec2_array_payload(x, r);
            assert(enc_value(v).skip(1) =~= enc_array(x, vec2_enc()));
            lemma_token_of_payload(enc_value(v), enc_array(x, vec2_enc()), r, v);
        },
        ValueView::Vec3Array(x) => {
            lemma_vec3_array_payload(x, r);
            assert(enc_value(v).skip(1) =~= enc_array(x, vec3_enc()));
            lemma_token_of_payload(enc_value(v), enc_array(x, vec3_enc()), r, v);
        },
        ValueView::Vec4Array(x) => {
            lemma_vec4_array_payload(x, r);
            assert(enc_value(v).skip(1) =~= enc_array(x, vec4_enc()));
            lemma_token_of_payload(enc_value(v), enc_array(x, vec4_enc()), r, v);
        },
        ValueView::Box2Array(x) => {
            lemma_box2_array_payload(x, r);
            assert(enc_value(v).skip(1) =~= enc_array(x, box2_enc()));
            lemma_token_of_payload(enc_value(v), enc_array(x, box2_enc()), r, v);
        },
    }
}

} // verus!
