use vstd::prelude::*;

use vstd::utf8::{encode_utf8, encode_utf8_decode_utf8, encode_utf8_valid_utf8};

use crate::error::FieldError;
use crate::value::{FieldType, Val, dec, dec_dict, dec_list, u128_at, u32_at, u64_at};

verus! {

/// The 4 little-endian bytes of `x`.
pub open spec fn le32(x: u32) -> Seq<u8> {
    seq![((x >> 0u32) & 0xffu32) as u8, ((x >> 8u32) & 0xffu32) as u8, ((x >> 16u32) & 0xffu32) as u8, ((x >> 24u32) & 0xffu32) as u8]
}

/// The 8 little-endian bytes of `x`.
pub open spec fn le64(x: u64) -> Seq<u8> {
    seq![((x >> 0u64) & 0xffu64) as u8, ((x >> 8u64) & 0xffu64) as u8, ((x >> 16u64) & 0xffu64) as u8, ((x >> 24u64) & 0xffu64) as u8, ((x >> 32u64) & 0xffu64) as u8, ((x >> 40u64) & 0xffu64) as u8, ((x >> 48u64) & 0xffu64) as u8, ((x >> 56u64) & 0xffu64) as u8]
}

/// The 16 little-endian bytes of `x`.
pub open spec fn le128(x: u128) -> Seq<u8> {
    seq![((x >> 0u128) & 0xffu128) as u8, ((x >> 8u128) & 0xffu128) as u8, ((x >> 16u128) & 0xffu128) as u8, ((x >> 24u128) & 0xffu128) as u8, ((x >> 32u128) & 0xffu128) as u8, ((x >> 40u128) & 0xffu128) as u8, ((x >> 48u128) & 0xffu128) as u8, ((x >> 56u128) & 0xffu128) as u8, ((x >> 64u128) & 0xffu128) as u8, ((x >> 72u128) & 0xffu128) as u8, ((x >> 80u128) & 0xffu128) as u8, ((x >> 88u128) & 0xffu128) as u8, ((x >> 96u128) & 0xffu128) as u8, ((x >> 104u128) & 0xffu128) as u8, ((x >> 112u128) & 0xffu128) as u8, ((x >> 120u128) & 0xffu128) as u8]
}

proof fn lemma_le32_bits(x: u32, b0: u8, b1: u8, b2: u8, b3: u8)
    requires
        b0 == ((x >> 0u32) & 0xffu32) as u8,
        b1 == ((x >> 8u32) & 0xffu32) as u8,
        b2 == ((x >> 16u32) & 0xffu32) as u8,
        b3 == ((x >> 24u32) & 0xffu32) as u8,
    ensures
        (b0 as u32) | ((b1 as u32) << 8u32) | ((b2 as u32) << 16u32) | ((b3 as u32) << 24u32) == x,
{
    assert((b0 as u32) | ((b1 as u32) << 8u32) | ((b2 as u32) << 16u32) | ((b3 as u32) << 24u32) == x) by (bit_vector)
        requires
            b0 == ((x >> 0u32) & 0xffu32) as u8,
            b1 == ((x >> 8u32) & 0xffu32) as u8,
            b2 == ((x >> 16u32) & 0xffu32) as u8,
            b3 == ((x >> 24u32) & 0xffu32) as u8,
    ;
}

pub proof fn lemma_le32_at(x: u32, s: Seq<u8>, p: int)
    requires
        0 <= p,
        p + 4 <= s.len(),
        forall|k: int| 0 <= k < 4 ==> s[p + k] == #[trigger] le32(x)[k],
    ensures
        u32_at(s, p) == x,
{
    let b0 = s[p + 0];
    let b1 = s[p + 1];
    let b2 = s[p + 2];
    let b3 = s[p + 3];
    assert(b0 == le32(x)[0]);
    assert(b1 == le32(x)[1]);
    assert(b2 == le32(x)[2]);
    assert(b3 == le32(x)[3]);
    lemma_le32_bits(x, b0, b1, b2, b3);
}

proof fn lemma_le64_bits(x: u64, b0: u8, b1: u8, b2: u8, b3: u8, b4: u8, b5: u8, b6: u8, b7: u8)
    requires
        b0 == ((x >> 0u64) & 0xffu64) as u8,
        b1 == ((x >> 8u64) & 0xffu64) as u8,
        b2 == ((x >> 16u64) & 0xffu64) as u8,
        b3 == ((x >> 24u64) & 0xffu64) as u8,
        b4 == ((x >> 32u64) & 0xffu64) as u8,
        b5 == ((x >> 40u64) & 0xffu64) as u8,
        b6 == ((x >> 48u64) & 0xffu64) as u8,
        b7 == ((x >> 56u64) & 0xffu64) as u8,
    ensures
        (b0 as u64) | ((b1 as u64) << 8u64) | ((b2 as u64) << 16u64) | ((b3 as u64) << 24u64) | ((b4 as u64) << 32u64) | ((b5 as u64) << 40u64) | ((b6 as u64) << 48u64) | ((b7 as u64) << 56u64) == x,
{
    assert((b0 as u64) | ((b1 as u64) << 8u64) | ((b2 as u64) << 16u64) | ((b3 as u64) << 24u64) | ((b4 as u64) << 32u64) | ((b5 as u64) << 40u64) | ((b6 as u64) << 48u64) | ((b7 as u64) << 56u64) == x) by (bit_vector)
        requires
            b0 == ((x >> 0u64) & 0xffu64) as u8,
            b1 == ((x >> 8u64) & 0xffu64) as u8,
            b2 == ((x >> 16u64) & 0xffu64) as u8,
            b3 == ((x >> 24u64) & 0xffu64) as u8,
            b4 == ((x >> 32u64) & 0xffu64) as u8,
            b5 == ((x >> 40u64) & 0xffu64) as u8,
            b6 == ((x >> 48u64) & 0xffu64) as u8,
            b7 == ((x >> 56u64) & 0xffu64) as u8,
    ;
}

proof fn lemma_le64_at(x: u64, s: Seq<u8>, p: int)
    requires
        0 <= p,
        p + 8 <= s.len(),
        forall|k: int| 0 <= k < 8 ==> s[p + k] == #[trigger] le64(x)[k],
    ensures
        u64_at(s, p) == x,
{
    let b0 = s[p + 0];
    let b1 = s[p + 1];
    let b2 = s[p + 2];
    let b3 = s[p + 3];
    let b4 = s[p + 4];
    let b5 = s[p + 5];
    let b6 = s[p + 6];
    let b7 = s[p + 7];
    assert(b0 == le64(x)[0]);
    assert(b1 == le64(x)[1]);
    assert(b2 == le64(x)[2]);
    assert(b3 == le64(x)[3]);
    assert(b4 == le64(x)[4]);
    assert(b5 == le64(x)[5]);
    assert(b6 == le64(x)[6]);
    assert(b7 == le64(x)[7]);
    lemma_le64_bits(x, b0, b1, b2, b3, b4, b5, b6, b7);
}

proof fn lemma_le128_bits(x: u128, b0: u8, b1: u8, b2: u8, b3: u8, b4: u8, b5: u8, b6: u8, b7: u8, b8: u8, b9: u8, b10: u8, b11: u8, b12: u8, b13: u8, b14: u8, b15: u8)
    requires
        b0 == ((x >> 0u128) & 0xffu128) as u8,
        b1 == ((x >> 8u128) & 0xffu128) as u8,
        b2 == ((x >> 16u128) & 0xffu128) as u8,
        b3 == ((x >> 24u128) & 0xffu128) as u8,
        b4 == ((x >> 32u128) & 0xffu128) as u8,
        b5 == ((x >> 40u128) & 0xffu128) as u8,
        b6 == ((x >> 48u128) & 0xffu128) as u8,
        b7 == ((x >> 56u128) & 0xffu128) as u8,
        b8 == ((x >> 64u128) & 0xffu128) as u8,
        b9 == ((x >> 72u128) & 0xffu128) as u8,
        b10 == ((x >> 80u128) & 0xffu128) as u8,
        b11 == ((x >> 88u128) & 0xffu128) as u8,
        b12 == ((x >> 96u128) & 0xffu128) as u8,
        b13 == ((x >> 104u128) & 0xffu128) as u8,
        b14 == ((x >> 112u128) & 0xffu128) as u8,
        b15 == ((x >> 120u128) & 0xffu128) as u8,
    ensures
        (b0 as u128) | ((b1 as u128) << 8u128) | ((b2 as u128) << 16u128) | ((b3 as u128) << 24u128) | ((b4 as u128) << 32u128) | ((b5 as u128) << 40u128) | ((b6 as u128) << 48u128) | ((b7 as u128) << 56u128) | ((b8 as u128) << 64u128) | ((b9 as u128) << 72u128) | ((b10 as u128) << 80u128) | ((b11 as u128) << 88u128) | ((b12 as u128) << 96u128) | ((b13 as u128) << 104u128) | ((b14 as u128) << 112u128) | ((b15 as u128) << 120u128) == x,
{
    assert((b0 as u128) | ((b1 as u128) << 8u128) | ((b2 as u128) << 16u128) | ((b3 as u128) << 24u128) | ((b4 as u128) << 32u128) | ((b5 as u128) << 40u128) | ((b6 as u128) << 48u128) | ((b7 as u128) << 56u128) | ((b8 as u128) << 64u128) | ((b9 as u128) << 72u128) | ((b10 as u128) << 80u128) | ((b11 as u128) << 88u128) | ((b12 as u128) << 96u128) | ((b13 as u128) << 104u128) | ((b14 as u128) << 112u128) | ((b15 as u128) << 120u128) == x) by (bit_vector)
        requires
            b0 == ((x >> 0u128) & 0xffu128) as u8,
            b1 == ((x >> 8u128) & 0xffu128) as u8,
            b2 == ((x >> 16u128) & 0xffu128) as u8,
            b3 == ((x >> 24u128) & 0xffu128) as u8,
            b4 == ((x >> 32u128) & 0xffu128) as u8,
            b5 == ((x >> 40u128) & 0xffu128) as u8,
            b6 == ((x >> 48u128) & 0xffu128) as u8,
            b7 == ((x >> 56u128) & 0xffu128) as u8,
            b8 == ((x >> 64u128) & 0xffu128) as u8,
            b9 == ((x >> 72u128) & 0xffu128) as u8,
            b10 == ((x >> 80u128) & 0xffu128) as u8,
            b11 == ((x >> 88u128) & 0xffu128) as u8,
            b12 == ((x >> 96u128) & 0xffu128) as u8,
            b13 == ((x >> 104u128) & 0xffu128) as u8,
            b14 == ((x >> 112u128) & 0xffu128) as u8,
            b15 == ((x >> 120u128) & 0xffu128) as u8,
    ;
}

proof fn lemma_le128_at(x: u128, s: Seq<u8>, p: int)
    requires
        0 <= p,
        p + 16 <= s.len(),
        forall|k: int| 0 <= k < 16 ==> s[p + k] == #[trigger] le128(x)[k],
    ensures
        u128_at(s, p) == x,
{
    let b0 = s[p + 0];
    let b1 = s[p + 1];
    let b2 = s[p + 2];
    let b3 = s[p + 3];
    let b4 = s[p + 4];
    let b5 = s[p + 5];
    let b6 = s[p + 6];
    let b7 = s[p + 7];
    let b8 = s[p + 8];
    let b9 = s[p + 9];
    let b10 = s[p + 10];
    let b11 = s[p + 11];
    let b12 = s[p + 12];
    let b13 = s[p + 13];
    let b14 = s[p + 14];
    let b15 = s[p + 15];
    assert(b0 == le128(x)[0]);
    assert(b1 == le128(x)[1]);
    assert(b2 == le128(x)[2]);
    assert(b3 == le128(x)[3]);
    assert(b4 == le128(x)[4]);
    assert(b5 == le128(x)[5]);
    assert(b6 == le128(x)[6]);
    assert(b7 == le128(x)[7]);
    assert(b8 == le128(x)[8]);
    assert(b9 == le128(x)[9]);
    assert(b10 == le128(x)[10]);
    assert(b11 == le128(x)[11]);
    assert(b12 == le128(x)[12]);
    assert(b13 == le128(x)[13]);
    assert(b14 == le128(x)[14]);
    assert(b15 == le128(x)[15]);
    lemma_le128_bits(x, b0, b1, b2, b3, b4, b5, b6, b7, b8, b9, b10, b11, b12, b13, b14, b15);
}

/// `v` is a value of type `t` that the wire format can carry: variants
/// agree, and every length fits its `u32` prefix. A key has the ledger's own
/// wire form, which is not written out here, so no value is typed as a key.
pub open spec fn typed(t: FieldType, v: Val) -> bool
    decreases v,
{
    match (t, v) {
        (FieldType::Bool, Val::Bool(_)) => true,
        (FieldType::U8, Val::U8(_)) => true,
        (FieldType::U32, Val::U32(_)) => true,
        (FieldType::U64, Val::U64(_)) => true,
        (FieldType::U128, Val::U128(_)) => true,
        (FieldType::I32, Val::I32(_)) => true,
        (FieldType::I64, Val::I64(_)) => true,
        (FieldType::Unit, Val::Unit) => true,
        (FieldType::Str, Val::Str(c)) => encode_utf8(c).len() <= u32::MAX,
        (FieldType::Bytes, Val::Bytes(b)) => b.len() <= u32::MAX,
        (FieldType::Account, Val::Account(b)) => b.len() == 32,
        (FieldType::Opt(inner), Val::Opt(o)) => match o {
            None => true,
            Some(b) => typed(*inner, *b),
        },
        (FieldType::List(e), Val::List(vs)) => vs.len() <= u32::MAX && typed_list(*e, vs),
        (FieldType::Dict(k, w), Val::Dict(ps)) => ps.len() <= u32::MAX && typed_pairs(*k, *w, ps),
        _ => false,
    }
}

pub open spec fn typed_list(e: FieldType, vs: Seq<Val>) -> bool
    decreases vs,
{
    if vs.len() == 0 {
        true
    } else {
        typed_list(e, vs.drop_last()) && typed(e, vs.last())
    }
}

pub open spec fn typed_pairs(k: FieldType, w: FieldType, ps: Seq<(Val, Val)>) -> bool
    decreases ps,
{
    if ps.len() == 0 {
        true
    } else {
        typed_pairs(k, w, ps.drop_last()) && typed(k, ps.last().0) && typed(w, ps.last().1)
    }
}

/// The wire form of the value `v` of type `t`.
pub open spec fn enc(t: FieldType, v: Val) -> Seq<u8>
    decreases v,
{
    match (t, v) {
        (FieldType::Bool, Val::Bool(b)) => seq![if b { 1u8 } else { 0u8 }],
        (FieldType::U8, Val::U8(x)) => seq![x],
        (FieldType::U32, Val::U32(x)) => le32(x),
        (FieldType::U64, Val::U64(x)) => le64(x),
        (FieldType::U128, Val::U128(x)) => le128(x),
        (FieldType::I32, Val::I32(x)) => le32(x as u32),
        (FieldType::I64, Val::I64(x)) => le64(x as u64),
        (FieldType::Str, Val::Str(c)) => le32(encode_utf8(c).len() as u32) + encode_utf8(c),
        (FieldType::Bytes, Val::Bytes(b)) => le32(b.len() as u32) + b,
        (FieldType::Account, Val::Account(b)) => b,
        (FieldType::Opt(inner), Val::Opt(o)) => match o {
            None => seq![0u8],
            Some(b) => seq![1u8] + enc(*inner, *b),
        },
        (FieldType::List(e), Val::List(vs)) => le32(vs.len() as u32) + enc_list(*e, vs),
        (FieldType::Dict(k, w), Val::Dict(ps)) => le32(ps.len() as u32) + enc_pairs(*k, *w, ps),
        _ => Seq::empty(),
    }
}

pub open spec fn enc_list(e: FieldType, vs: Seq<Val>) -> Seq<u8>
    decreases vs,
{
    if vs.len() == 0 {
        Seq::empty()
    } else {
        enc_list(e, vs.drop_last()) + enc(e, vs.last())
    }
}

pub open spec fn enc_pairs(k: FieldType, w: FieldType, ps: Seq<(Val, Val)>) -> Seq<u8>
    decreases ps,
{
    if ps.len() == 0 {
        Seq::empty()
    } else {
        enc_pairs(k, w, ps.drop_last()) + enc(k, ps.last().0) + enc(w, ps.last().1)
    }
}

proof fn lemma_i32_cast(x: i32)
    ensures
        (x as u32) as i32 == x,
{
    assert((x as u32) as i32 == x) by (bit_vector);
}

proof fn lemma_i64_cast(x: i64)
    ensures
        (x as u64) as i64 == x,
{
    assert((x as u64) as i64 == x) by (bit_vector);
}

/// Decoding the wire form of a value, wherever it stands, gives the value
/// back and ends right after it.
pub proof fn lemma_dec_enc(t: FieldType, v: Val, pre: Seq<u8>, post: Seq<u8>)
    requires
        typed(t, v),
    ensures
        dec(t, pre + enc(t, v) + post, pre.len() as int) == Ok::<(Val, int), FieldError>(
            (v, pre.len() + enc(t, v).len() as int),
        ),
    decreases v,
{
    let b = enc(t, v);
    let s = pre + b + post;
    let p = pre.len() as int;
    assert forall|k: int| 0 <= k < b.len() implies s[p + k] == b[k] by {}
    match (t, v) {
        (FieldType::U32, Val::U32(x)) => {
            lemma_le32_at(x, s, p);
        },
        (FieldType::I32, Val::I32(x)) => {
            lemma_le32_at(x as u32, s, p);
            lemma_i32_cast(x);
        },
        (FieldType::U64, Val::U64(x)) => {
            lemma_le64_at(x, s, p);
        },
        (FieldType::I64, Val::I64(x)) => {
            lemma_le64_at(x as u64, s, p);
            lemma_i64_cast(x);
        },
        (FieldType::U128, Val::U128(x)) => {
            lemma_le128_at(x, s, p);
        },
        (FieldType::Account, Val::Account(bs)) => {
            assert(s.subrange(p, p + 32) =~= bs);
        },
        (FieldType::Bytes, Val::Bytes(bs)) => {
            let n = bs.len() as u32;
            assert forall|k: int| 0 <= k < 4 implies s[p + k] == #[trigger] le32(n)[k] by {
                assert(b[k] == le32(n)[k]);
            }
            lemma_le32_at(n, s, p);
            assert(s.subrange(p + 4, p + 4 + bs.len()) =~= bs);
        },
        (FieldType::Str, Val::Str(c)) => {
            let bs = encode_utf8(c);
            let n = bs.len() as u32;
            assert forall|k: int| 0 <= k < 4 implies s[p + k] == #[trigger] le32(n)[k] by {
                assert(b[k] == le32(n)[k]);
            }
            lemma_le32_at(n, s, p);
            assert(s.subrange(p + 4, p + 4 + bs.len()) =~= bs);
            encode_utf8_valid_utf8(c);
            encode_utf8_decode_utf8(c);
        },
        (FieldType::Opt(inner), Val::Opt(o)) => {
            if let Some(bx) = o {
                let pre2 = pre + seq![1u8];
                assert(s =~= pre2 + enc(*inner, *bx) + post);
                lemma_dec_enc(*inner, *bx, pre2, post);
            }
        },
        (FieldType::List(e), Val::List(vs)) => {
            let n = vs.len() as u32;
            assert forall|k: int| 0 <= k < 4 implies s[p + k] == #[trigger] le32(n)[k] by {
                assert(b[k] == le32(n)[k]);
            }
            lemma_le32_at(n, s, p);
            let pre2 = pre + le32(n);
            assert(s =~= pre2 + enc_list(*e, vs) + post);
            lemma_dec_enc_list(t, *e, vs, pre2, post);
        },
        (FieldType::Dict(k, w), Val::Dict(ps)) => {
            let n = ps.len() as u32;
            assert forall|i: int| 0 <= i < 4 implies s[p + i] == #[trigger] le32(n)[i] by {
                assert(b[i] == le32(n)[i]);
            }
            lemma_le32_at(n, s, p);
            let pre2 = pre + le32(n);
            assert(s =~= pre2 + enc_pairs(*k, *w, ps) + post);
            lemma_dec_enc_pairs(t, *k, *w, ps, pre2, post);
        },
        _ => {},
    }
}

proof fn lemma_dec_enc_list(t: FieldType, e: FieldType, vs: Seq<Val>, pre: Seq<u8>, post: Seq<u8>)
    requires
        t == FieldType::List(Box::new(e)),
        typed_list(e, vs),
    ensures
        dec_list(t, vs.len(), pre + enc_list(e, vs) + post, pre.len() as int) == Ok::<
            (Seq<Val>, int),
            FieldError,
        >((vs, pre.len() + enc_list(e, vs).len() as int)),
    decreases vs,
{
    if vs.len() > 0 {
        let init = vs.drop_last();
        let last = vs.last();
        let s = pre + enc_list(e, vs) + post;
        assert(s =~= pre + enc_list(e, init) + (enc(e, last) + post));
        lemma_dec_enc_list(t, e, init, pre, enc(e, last) + post);
        let pre2 = pre + enc_list(e, init);
        assert(s =~= pre2 + enc(e, last) + post);
        lemma_dec_enc(e, last, pre2, post);
        assert(init.push(last) =~= vs);
        assert((vs.len() - 1) as nat == init.len());
        assert(dec_list(t, init.len(), s, pre.len() as int) == Ok::<(Seq<Val>, int), FieldError>(
            (init, pre2.len() as int),
        ));
        assert(dec(e, s, pre2.len() as int) == Ok::<(Val, int), FieldError>(
            (last, pre2.len() + enc(e, last).len() as int),
        ));
    } else {
        assert(vs =~= Seq::<Val>::empty());
    }
}

proof fn lemma_dec_enc_pairs(
    t: FieldType,
    k: FieldType,
    w: FieldType,
    ps: Seq<(Val, Val)>,
    pre: Seq<u8>,
    post: Seq<u8>,
)
    requires
        t == FieldType::Dict(Box::new(k), Box::new(w)),
        typed_pairs(k, w, ps),
    ensures
        dec_dict(t, ps.len(), pre + enc_pairs(k, w, ps) + post, pre.len() as int) == Ok::<
            (Seq<(Val, Val)>, int),
            FieldError,
        >((ps, pre.len() + enc_pairs(k, w, ps).len() as int)),
    decreases ps,
{
    if ps.len() > 0 {
        let init = ps.drop_last();
        let last = ps.last();
        let s = pre + enc_pairs(k, w, ps) + post;
        assert(s =~= pre + enc_pairs(k, w, init) + (enc(k, last.0) + enc(w, last.1) + post));
        lemma_dec_enc_pairs(t, k, w, init, pre, enc(k, last.0) + enc(w, last.1) + post);
        let pre2 = pre + enc_pairs(k, w, init);
        assert(s =~= pre2 + enc(k, last.0) + (enc(w, last.1) + post));
        lemma_dec_enc(k, last.0, pre2, enc(w, last.1) + post);
        let pre3 = pre2 + enc(k, last.0);
        assert(s =~= pre3 + enc(w, last.1) + post);
        lemma_dec_enc(w, last.1, pre3, post);
        assert(init.push(last) =~= ps);
        assert((ps.len() - 1) as nat == init.len());
    } else {
        assert(ps =~= Seq::<(Val, Val)>::empty());
    }
}

} // verus!
