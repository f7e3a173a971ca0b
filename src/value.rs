use casper_event_standard::casper_types::bytesrepr::{Error as BytesError, FromBytes};
use casper_event_standard::casper_types::Key as LedgerKey;
use vstd::prelude::*;
use vstd::slice::slice_to_vec;
use vstd::utf8::{decode_utf8, valid_utf8};

use crate::error::FieldError;

verus! {

broadcast use vstd::std_specs::vec::group_vec_axioms, vstd::seq::group_seq_axioms;

/// Width in bytes of an account identifier.
pub const ACCOUNT_LEN: usize = 32;

/// The kinds of value a schema field may declare.
#[derive(Debug, PartialEq, Eq)]
pub enum FieldType {
    Bool,
    U8,
    U32,
    U64,
    U128,
    I32,
    I64,
    Unit,
    Str,
    Bytes,
    Account,
    /// A ledger key reference, in the ledger's own binary form.
    Key,
    Opt(Box<FieldType>),
    List(Box<FieldType>),
    Dict(Box<FieldType>, Box<FieldType>),
}

/// Mathematical model of a decoded value.
pub enum Val {
    Bool(bool),
    U8(u8),
    U32(u32),
    U64(u64),
    U128(u128),
    I32(i32),
    I64(i64),
    Unit,
    Str(Seq<char>),
    Bytes(Seq<u8>),
    Account(Seq<u8>),
    /// A key, in its formatted text form.
    Key(Seq<char>),
    Opt(Option<Box<Val>>),
    List(Seq<Val>),
    Dict(Seq<(Val, Val)>),
}

/// A decoded value, tagged by its kind.
#[derive(Debug, PartialEq, Eq)]
pub enum Value {
    Bool(bool),
    U8(u8),
    U32(u32),
    U64(u64),
    U128(u128),
    I32(i32),
    I64(i64),
    Unit,
    Str(String),
    Bytes(Vec<u8>),
    Account(Vec<u8>),
    /// A key, in its formatted text form.
    Key(String),
    Opt(Option<Box<Value>>),
    List(Vec<Value>),
    Dict(Vec<(Value, Value)>),
}

pub open spec fn view_values(s: Seq<Value>) -> Seq<Val>
    decreases s,
{
    if s.len() == 0 {
        Seq::empty()
    } else {
        view_values(s.drop_last()).push(view_value(s.last()))
    }
}

pub open spec fn view_pairs(s: Seq<(Value, Value)>) -> Seq<(Val, Val)>
    decreases s,
{
    if s.len() == 0 {
        Seq::empty()
    } else {
        view_pairs(s.drop_last()).push((view_value(s.last().0), view_value(s.last().1)))
    }
}

/// The model of a value.
pub open spec fn view_value(v: Value) -> Val
    decreases v,
{
    match v {
        Value::Bool(b) => Val::Bool(b),
        Value::U8(x) => Val::U8(x),
        Value::U32(x) => Val::U32(x),
        Value::U64(x) => Val::U64(x),
        Value::U128(x) => Val::U128(x),
        Value::I32(x) => Val::I32(x),
        Value::I64(x) => Val::I64(x),
        Value::Unit => Val::Unit,
        Value::Str(s) => Val::Str(s@),
        Value::Bytes(b) => Val::Bytes(b@),
        Value::Account(b) => Val::Account(b@),
        Value::Key(k) => Val::Key(k@),
        Value::Opt(o) => match o {
            Some(b) => Val::Opt(Some(Box::new(view_value(*b)))),
            None => Val::Opt(None),
        },
        Value::List(xs) => Val::List(view_values(xs@)),
        Value::Dict(ps) => Val::Dict(view_pairs(ps@)),
    }
}

impl View for Value {
    type V = Val;

    open spec fn view(&self) -> Val {
        view_value(*self)
    }
}

/// Little-endian `u32` stored at `s[p..p + 4]`.
pub open spec fn u32_at(s: Seq<u8>, p: int) -> u32 {
    (s[p] as u32) | ((s[p + 1] as u32) << 8u32) | ((s[p + 2] as u32) << 16u32) | ((s[p + 3]
        as u32) << 24u32)
}

/// Little-endian `u64` stored at `s[p..p + 8]`.
pub open spec fn u64_at(s: Seq<u8>, p: int) -> u64 {
    (s[p] as u64) | ((s[p + 1] as u64) << 8u64) | ((s[p + 2] as u64) << 16u64) | ((s[p + 3] as u64) << 24u64) | ((s[p + 4] as u64) << 32u64) | ((s[p + 5] as u64) << 40u64) | ((s[p + 6] as u64) << 48u64) | ((s[p + 7] as u64) << 56u64)
}

/// Little-endian `u128` stored at `s[p..p + 16]`.
pub open spec fn u128_at(s: Seq<u8>, p: int) -> u128 {
    (s[p] as u128) | ((s[p + 1] as u128) << 8u128) | ((s[p + 2] as u128) << 16u128) | ((s[p + 3] as u128) << 24u128) | ((s[p + 4] as u128) << 32u128) | ((s[p + 5] as u128) << 40u128) | ((s[p + 6] as u128) << 48u128) | ((s[p + 7] as u128) << 56u128) | ((s[p + 8] as u128) << 64u128) | ((s[p + 9] as u128) << 72u128) | ((s[p + 10] as u128) << 80u128) | ((s[p + 11] as u128) << 88u128) | ((s[p + 12] as u128) << 96u128) | ((s[p + 13] as u128) << 104u128) | ((s[p + 14] as u128) << 112u128) | ((s[p + 15] as u128) << 120u128)
}

/// Reads `n` raw bytes at `p`, or reports truncation.
pub open spec fn take_spec(s: Seq<u8>, p: int, n: int) -> Result<(Seq<u8>, int), FieldError> {
    if p + n > s.len() {
        Err(FieldError::TruncatedInput)
    } else {
        Ok((s.subrange(p, p + n), p + n))
    }
}

/// Decodes one value of type `t` starting at byte `p` of `s`: the value and
/// the position just after it, or why that fails.
pub open spec fn dec(t: FieldType, s: Seq<u8>, p: int) -> Result<(Val, int), FieldError>
    decreases t, 1nat, 0nat,
{
    if !(0 <= p <= s.len()) {
        Err(FieldError::TruncatedInput)
    } else {
        match t {
            FieldType::Bool => if p + 1 > s.len() {
                Err(FieldError::TruncatedInput)
            } else if s[p] == 0 {
                Ok((Val::Bool(false), p + 1))
            } else if s[p] == 1 {
                Ok((Val::Bool(true), p + 1))
            } else {
                Err(FieldError::InvalidValue)
            },
            FieldType::U8 => if p + 1 > s.len() {
                Err(FieldError::TruncatedInput)
            } else {
                Ok((Val::U8(s[p]), p + 1))
            },
            FieldType::U32 => if p + 4 > s.len() {
                Err(FieldError::TruncatedInput)
            } else {
                Ok((Val::U32(u32_at(s, p)), p + 4))
            },
            FieldType::I32 => if p + 4 > s.len() {
                Err(FieldError::TruncatedInput)
            } else {
                Ok((Val::I32(u32_at(s, p) as i32), p + 4))
            },
            FieldType::U64 => if p + 8 > s.len() {
                Err(FieldError::TruncatedInput)
            } else {
                Ok((Val::U64(u64_at(s, p)), p + 8))
            },
            FieldType::I64 => if p + 8 > s.len() {
                Err(FieldError::TruncatedInput)
            } else {
                Ok((Val::I64(u64_at(s, p) as i64), p + 8))
            },
            FieldType::U128 => if p + 16 > s.len() {
                Err(FieldError::TruncatedInput)
            } else {
                Ok((Val::U128(u128_at(s, p)), p + 16))
            },
            FieldType::Unit => Ok((Val::Unit, p)),
            FieldType::Key => if p + 1 > s.len() {
                Err(FieldError::TruncatedInput)
            } else {
                match key_text(s.subrange(p, s.len() as int)) {
                    Ok((k, rest)) => Ok((Val::Key(k), s.len() - rest)),
                    Err(e) => Err(e),
                }
            },
            FieldType::Account => match take_spec(s, p, ACCOUNT_LEN as int) {
                Ok((b, q)) => Ok((Val::Account(b), q)),
                Err(e) => Err(e),
            },
            FieldType::Bytes => if p + 4 > s.len() {
                Err(FieldError::TruncatedInput)
            } else {
                match take_spec(s, p + 4, u32_at(s, p) as int) {
                    Ok((b, q)) => Ok((Val::Bytes(b), q)),
                    Err(e) => Err(e),
                }
            },
            FieldType::Str => if p + 4 > s.len() {
                Err(FieldError::TruncatedInput)
            } else {
                match take_spec(s, p + 4, u32_at(s, p) as int) {
                    Ok((b, q)) => if valid_utf8(b) {
                        Ok((Val::Str(decode_utf8(b)), q))
                    } else {
                        Err(FieldError::InvalidValue)
                    },
                    Err(e) => Err(e),
                }
            },
            FieldType::Opt(inner) => if p + 1 > s.len() {
                Err(FieldError::TruncatedInput)
            } else if s[p] == 0 {
                Ok((Val::Opt(None), p + 1))
            } else if s[p] == 1 {
                match dec(*inner, s, p + 1) {
                    Ok((v, q)) => Ok((Val::Opt(Some(Box::new(v))), q)),
                    Err(e) => Err(e),
                }
            } else {
                Err(FieldError::InvalidValue)
            },
            FieldType::List(_) => if p + 4 > s.len() {
                Err(FieldError::TruncatedInput)
            } else {
                match dec_list(t, u32_at(s, p) as nat, s, p + 4) {
                    Ok((vs, q)) => Ok((Val::List(vs), q)),
                    Err(err) => Err(err),
                }
            },
            FieldType::Dict(_, _) => if p + 4 > s.len() {
                Err(FieldError::TruncatedInput)
            } else {
                match dec_dict(t, u32_at(s, p) as nat, s, p + 4) {
                    Ok((ps, q)) => Ok((Val::Dict(ps), q)),
                    Err(err) => Err(err),
                }
            },
        }
    }
}

/// Decodes `n` consecutive elements of the list type `t` starting at `p`.
pub open spec fn dec_list(t: FieldType, n: nat, s: Seq<u8>, p: int) -> Result<
    (Seq<Val>, int),
    FieldError,
>
    decreases t, 0nat, n,
{
    match t {
        FieldType::List(e) => if n == 0 {
            Ok((Seq::empty(), p))
        } else {
            match dec_list(t, (n - 1) as nat, s, p) {
                Ok((vs, q)) => match dec(*e, s, q) {
                    Ok((v, r)) => Ok((vs.push(v), r)),
                    Err(err) => Err(err),
                },
                Err(err) => Err(err),
            }
        },
        _ => Ok((Seq::empty(), p)),
    }
}

/// Decodes `n` consecutive key/value pairs of the dictionary type `t`
/// starting at `p`.
pub open spec fn dec_dict(t: FieldType, n: nat, s: Seq<u8>, p: int) -> Result<
    (Seq<(Val, Val)>, int),
    FieldError,
>
    decreases t, 0nat, n,
{
    match t {
        FieldType::Dict(k, v) => if n == 0 {
            Ok((Seq::empty(), p))
        } else {
            match dec_dict(t, (n - 1) as nat, s, p) {
                Ok((ps, q)) => match dec(*k, s, q) {
                    Ok((a, r)) => match dec(*v, s, r) {
                        Ok((b, w)) => Ok((ps.push((a, b)), w)),
                        Err(err) => Err(err),
                    },
                    Err(err) => Err(err),
                },
                Err(err) => Err(err),
            }
        },
        _ => Ok((Seq::empty(), p)),
    }
}

/// The model of what `decode_field` returns.
pub open spec fn decoded(r: Result<(Value, usize), FieldError>) -> Result<(Val, int), FieldError> {
    match r {
        Ok((v, q)) => Ok((v@, q as int)),
        Err(e) => Err(e),
    }
}

/// Relies on std::str::from_utf8: it accepts exactly the well-formed UTF-8
/// byte strings, and the text it gives back is made of those bytes.
#[verifier::external_body]
pub(crate) fn utf8_text(b: &[u8]) -> (r: Option<String>)
    ensures
        r is Some <==> valid_utf8(b@),
        r matches Some(t) ==> t@ == decode_utf8(b@),
{
    match std::str::from_utf8(b) {
        Ok(t) => Some(t.to_string()),
        Err(_) => None,
    }
}

/// The formatted key that the ledger's key decoder reads from the front of
/// `b`, with the number of bytes it leaves unread, or why it fails.
pub uninterp spec fn key_text(b: Seq<u8>) -> Result<(Seq<char>, nat), FieldError>;

/// Relies on casper-types' `Key::from_bytes`: it reads one key from the
/// front of `b`, its tag byte included, and hands back the unread rest; an
/// early end of input is reported as truncation. The key is handed out as
/// `Key::to_formatted_string` writes it.
#[verifier::external_body]
fn read_key(b: &[u8]) -> (r: Result<(String, usize), FieldError>)
    ensures
        match r {
            Ok((k, rest)) => key_text(b@) == Ok::<(Seq<char>, nat), FieldError>((k@, rest as nat)),
            Err(e) => key_text(b@) == Err::<(Seq<char>, nat), FieldError>(e),
        },
        r matches Ok((_, rest)) ==> rest < b@.len(),
{
    match LedgerKey::from_bytes(b) {
        Ok((key, rest)) => Ok((key.to_formatted_string(), rest.len())),
        Err(BytesError::EarlyEndOfStream) => Err(FieldError::TruncatedInput),
        Err(_) => Err(FieldError::InvalidValue),
    }
}

/// Reads the little-endian `u32` at `p`.
pub fn read_u32(buf: &[u8], p: usize) -> (r: u32)
    requires
        p + 4 <= buf@.len(),
    ensures
        r == u32_at(buf@, p as int),
{
    (buf[p] as u32) | ((buf[p + 1] as u32) << 8u32) | ((buf[p + 2] as u32) << 16u32) | ((buf[p
        + 3] as u32) << 24u32)
}

fn read_u64(buf: &[u8], p: usize) -> (r: u64)
    requires
        p + 8 <= buf@.len(),
    ensures
        r == u64_at(buf@, p as int),
{
    (buf[p] as u64) | ((buf[p + 1] as u64) << 8u64) | ((buf[p + 2] as u64) << 16u64) | ((buf[p + 3] as u64) << 24u64) | ((buf[p + 4] as u64) << 32u64) | ((buf[p + 5] as u64) << 40u64) | ((buf[p + 6] as u64) << 48u64) | ((buf[p + 7] as u64) << 56u64)
}

fn read_u128(buf: &[u8], p: usize) -> (r: u128)
    requires
        p + 16 <= buf@.len(),
    ensures
        r == u128_at(buf@, p as int),
{
    (buf[p] as u128) | ((buf[p + 1] as u128) << 8u128) | ((buf[p + 2] as u128) << 16u128) | ((buf[p + 3] as u128) << 24u128) | ((buf[p + 4] as u128) << 32u128) | ((buf[p + 5] as u128) << 40u128) | ((buf[p + 6] as u128) << 48u128) | ((buf[p + 7] as u128) << 56u128) | ((buf[p + 8] as u128) << 64u128) | ((buf[p + 9] as u128) << 72u128) | ((buf[p + 10] as u128) << 80u128) | ((buf[p + 11] as u128) << 88u128) | ((buf[p + 12] as u128) << 96u128) | ((buf[p + 13] as u128) << 104u128) | ((buf[p + 14] as u128) << 112u128) | ((buf[p + 15] as u128) << 120u128)
}

proof fn lemma_list_err_stays(t: FieldType, m: nat, n: nat, s: Seq<u8>, p: int)
    requires
        m <= n,
        dec_list(t, m, s, p) is Err,
    ensures
        dec_list(t, n, s, p) == dec_list(t, m, s, p),
    decreases n,
{
    if n > m {
        lemma_list_err_stays(t, m, (n - 1) as nat, s, p);
    }
}

proof fn lemma_dict_err_stays(t: FieldType, m: nat, n: nat, s: Seq<u8>, p: int)
    requires
        m <= n,
        dec_dict(t, m, s, p) is Err,
    ensures
        dec_dict(t, n, s, p) == dec_dict(t, m, s, p),
    decreases n,
{
    if n > m {
        lemma_dict_err_stays(t, m, (n - 1) as nat, s, p);
    }
}

/// Decodes one value of type `t` from `buf`, starting at `pos`; on success
/// also gives the position just after the value.
pub fn decode_field(t: &FieldType, buf: &[u8], pos: usize) -> (r: Result<(Value, usize), FieldError>)
    requires
        pos <= buf@.len(),
    ensures
        decoded(r) == dec(*t, buf@, pos as int),
        r matches Ok((_, q)) ==> pos <= q <= buf@.len(),
    decreases t,
{
    let len = buf.len();
    match t {
        FieldType::Bool => {
            if len - pos < 1 {
                return Err(FieldError::TruncatedInput);
            }
            if buf[pos] == 0 {
                Ok((Value::Bool(false), pos + 1))
            } else if buf[pos] == 1 {
                Ok((Value::Bool(true), pos + 1))
            } else {
                Err(FieldError::InvalidValue)
            }
        },
        FieldType::U8 => {
            if len - pos < 1 {
                return Err(FieldError::TruncatedInput);
            }
            Ok((Value::U8(buf[pos]), pos + 1))
        },
        FieldType::U32 => {
            if len - pos < 4 {
                return Err(FieldError::TruncatedInput);
            }
            Ok((Value::U32(read_u32(buf, pos)), pos + 4))
        },
        FieldType::I32 => {
            if len - pos < 4 {
                return Err(FieldError::TruncatedInput);
            }
            Ok((Value::I32(read_u32(buf, pos) as i32), pos + 4))
        },
        FieldType::U64 => {
            if len - pos < 8 {
                return Err(FieldError::TruncatedInput);
            }
            Ok((Value::U64(read_u64(buf, pos)), pos + 8))
        },
        FieldType::I64 => {
            if len - pos < 8 {
                return Err(FieldError::TruncatedInput);
            }
            Ok((Value::I64(read_u64(buf, pos) as i64), pos + 8))
        },
        FieldType::U128 => {
            if len - pos < 16 {
                return Err(FieldError::TruncatedInput);
            }
            Ok((Value::U128(read_u128(buf, pos)), pos + 16))
        },
        FieldType::Unit => Ok((Value::Unit, pos)),
        FieldType::Key => {
            if len - pos < 1 {
                return Err(FieldError::TruncatedInput);
            }
            match read_key(&buf[pos..len]) {
                Ok((k, rest)) => Ok((Value::Key(k), len - rest)),
                Err(e) => Err(e),
            }
        },
        FieldType::Account => {
            if len - pos < ACCOUNT_LEN {
                return Err(FieldError::TruncatedInput);
            }
            let b = slice_to_vec(&buf[pos..pos + ACCOUNT_LEN]);
            Ok((Value::Account(b), pos + ACCOUNT_LEN))
        },
        FieldType::Bytes => {
            if len - pos < 4 {
                return Err(FieldError::TruncatedInput);
            }
            let n = read_u32(buf, pos) as usize;
            if len - (pos + 4) < n {
                return Err(FieldError::TruncatedInput);
            }
            let b = slice_to_vec(&buf[pos + 4..pos + 4 + n]);
            Ok((Value::Bytes(b), pos + 4 + n))
        },
        FieldType::Str => {
            if len - pos < 4 {
                return Err(FieldError::TruncatedInput);
            }
            let n = read_u32(buf, pos) as usize;
            if len - (pos + 4) < n {
                return Err(FieldError::TruncatedInput);
            }
            match utf8_text(&buf[pos + 4..pos + 4 + n]) {
                Some(text) => Ok((Value::Str(text), pos + 4 + n)),
                None => Err(FieldError::InvalidValue),
            }
        },
        FieldType::Opt(inner) => {
            if len - pos < 1 {
                return Err(FieldError::TruncatedInput);
            }
            if buf[pos] == 0 {
                Ok((Value::Opt(None), pos + 1))
            } else if buf[pos] == 1 {
                match decode_field(&**inner, buf, pos + 1) {
                    Ok((v, q)) => Ok((Value::Opt(Some(Box::new(v))), q)),
                    Err(e) => Err(e),
                }
            } else {
                Err(FieldError::InvalidValue)
            }
        },
        FieldType::List(e) => {
            if len - pos < 4 {
                return Err(FieldError::TruncatedInput);
            }
            let n = read_u32(buf, pos);
            let mut cur: usize = pos + 4;
            let mut acc: Vec<Value> = Vec::new();
            let mut i: u32 = 0;
            while i < n
                invariant
                    pos + 4 <= cur <= buf@.len(),
                    i <= n,
                    n == u32_at(buf@, pos as int),
                    *t == FieldType::List(*e),
                    dec_list(*t, i as nat, buf@, pos + 4) == Ok::<(Seq<Val>, int), FieldError>(
                        (view_values(acc@), cur as int),
                    ),
                decreases n - i,
            {
                match decode_field(&**e, buf, cur) {
                    Ok((v, q)) => {
                        let ghost before = acc@;
                        acc.push(v);
                        proof {
                            assert(acc@.drop_last() =~= before);
                        }
                        cur = q;
                        i = i + 1;
                    },
                    Err(err) => {
                        proof {
                            lemma_list_err_stays(*t, (i + 1) as nat, n as nat, buf@, pos + 4);
                        }
                        return Err(err);
                    },
                }
            }
            Ok((Value::List(acc), cur))
        },
        FieldType::Dict(k, v) => {
            if len - pos < 4 {
                return Err(FieldError::TruncatedInput);
            }
            let n = read_u32(buf, pos);
            let mut cur: usize = pos + 4;
            let mut acc: Vec<(Value, Value)> = Vec::new();
            let mut i: u32 = 0;
            while i < n
                invariant
                    pos + 4 <= cur <= buf@.len(),
                    i <= n,
                    n == u32_at(buf@, pos as int),
                    *t == FieldType::Dict(*k, *v),
                    dec_dict(*t, i as nat, buf@, pos + 4) == Ok::<(Seq<(Val, Val)>, int), FieldError>(
                        (view_pairs(acc@), cur as int),
                    ),
                decreases n - i,
            {
                match decode_field(&**k, buf, cur) {
                    Ok((a, q)) => match decode_field(&**v, buf, q) {
                        Ok((b, w)) => {
                            let ghost before = acc@;
                            acc.push((a, b));
                            proof {
                                assert(acc@.drop_last() =~= before);
                            }
                            cur = w;
                            i = i + 1;
                        },
                        Err(err) => {
                            proof {
                                lemma_dict_err_stays(*t, (i + 1) as nat, n as nat, buf@, pos + 4);
                            }
                            return Err(err);
                        },
                    },
                    Err(err) => {
                        proof {
                            lemma_dict_err_stays(*t, (i + 1) as nat, n as nat, buf@, pos + 4);
                        }
                        return Err(err);
                    },
                }
            }
            Ok((Value::Dict(acc), cur))
        },
    }
}

} // verus!
