use vstd::prelude::*;

use vstd::utf8::{encode_utf8, encode_utf8_decode_utf8, encode_utf8_valid_utf8};

use crate::encoding::{enc, lemma_dec_enc, lemma_le32_at, le32, typed};
use crate::error::{ErrorView, FieldError};
use crate::fetcher::stored_event_spec;
use crate::event::{EventView, dec_fields, event_spec};
use crate::scanner::{
    EffectView, ExecutionResult, classify, scan_spec, TransformEntryV1, TransformEntryV2, normalized, transaction_spec, view_v1,
    view_v2,
};
use crate::schema::{EventSchema, SchemaRegistry};
use crate::value::{FieldType, Val, dec, dec_dict, dec_list, u32_at};

verus! {

broadcast use vstd::seq::group_seq_axioms;

/// The outcome is anything but running out of input.
pub open spec fn completes<A>(r: Result<A, FieldError>) -> bool {
    !(r == Err::<A, FieldError>(FieldError::TruncatedInput))
}

/// `t` holds no key kind, at any depth. The ledger's key decoder is an
/// outside function, so nothing here shows what it makes of appended bytes.
pub open spec fn key_free(t: FieldType) -> bool
    decreases t,
{
    match t {
        FieldType::Key => false,
        FieldType::Opt(inner) => key_free(*inner),
        FieldType::List(e) => key_free(*e),
        FieldType::Dict(k, v) => key_free(*k) && key_free(*v),
        _ => true,
    }
}

/// Every field of `fs` is free of keys.
pub open spec fn fields_key_free(fs: Seq<(String, FieldType)>) -> bool {
    forall|i: int| 0 <= i < fs.len() ==> key_free(#[trigger] fs[i].1)
}

proof fn lemma_u32_extend(s: Seq<u8>, x: Seq<u8>, p: int)
    requires
        0 <= p,
        p + 4 <= s.len(),
    ensures
        u32_at(s + x, p) == u32_at(s, p),
{
    assert((s + x)[p] == s[p]);
    assert((s + x)[p + 1] == s[p + 1]);
    assert((s + x)[p + 2] == s[p + 2]);
    assert((s + x)[p + 3] == s[p + 3]);
}

/// A decode that did not run out of input reads nothing past the end of
/// `s`: appending bytes leaves its outcome unchanged, and a success ends
/// within `s`.
proof fn lemma_dec_extend(t: FieldType, s: Seq<u8>, x: Seq<u8>, p: int)
    requires
        key_free(t),
        completes(dec(t, s, p)),
    ensures
        dec(t, s + x, p) == dec(t, s, p),
        dec(t, s, p) matches Ok((_, q)) ==> p <= q <= s.len(),
    decreases t, 1nat, 0nat,
{
    let sx = s + x;
    assert(0 <= p <= s.len());
    if p < s.len() {
        assert(sx[p] == s[p]);
    }
    match t {
        FieldType::U64 | FieldType::I64 => {
            if p + 8 <= s.len() {
                lemma_u32_extend(s, x, p);
                lemma_u32_extend(s, x, p + 4);
                assert forall|k: int| p <= k < p + 8 implies sx[k] == s[k] by {}
            }
        },
        FieldType::U128 => {
            if p + 16 <= s.len() {
                assert forall|k: int| p <= k < p + 16 implies sx[k] == s[k] by {}
            }
        },
        FieldType::U32 | FieldType::I32 => {
            if p + 4 <= s.len() {
                lemma_u32_extend(s, x, p);
            }
        },
        FieldType::Account => {
            if p + 32 <= s.len() {
                assert(sx.subrange(p, p + 32) =~= s.subrange(p, p + 32));
            }
        },
        FieldType::Bytes | FieldType::Str => {
            if p + 4 <= s.len() {
                lemma_u32_extend(s, x, p);
                let n = u32_at(s, p) as int;
                if p + 4 + n <= s.len() {
                    assert(sx.subrange(p + 4, p + 4 + n) =~= s.subrange(p + 4, p + 4 + n));
                }
            }
        },
        FieldType::Opt(inner) => {
            if p + 1 <= s.len() && s[p] == 1 {
                lemma_dec_extend(*inner, s, x, p + 1);
            }
        },
        FieldType::List(_) => {
            if p + 4 <= s.len() {
                lemma_u32_extend(s, x, p);
                lemma_list_extend(t, u32_at(s, p) as nat, s, x, p + 4);
            }
        },
        FieldType::Dict(_, _) => {
            if p + 4 <= s.len() {
                lemma_u32_extend(s, x, p);
                lemma_dict_extend(t, u32_at(s, p) as nat, s, x, p + 4);
            }
        },
        _ => {},
    }
}

proof fn lemma_list_extend(t: FieldType, n: nat, s: Seq<u8>, x: Seq<u8>, p: int)
    requires
        key_free(t),
        0 <= p <= s.len(),
        completes(dec_list(t, n, s, p)),
    ensures
        dec_list(t, n, s + x, p) == dec_list(t, n, s, p),
        dec_list(t, n, s, p) matches Ok((_, q)) ==> p <= q <= s.len(),
    decreases t, 0nat, n,
{
    if let FieldType::List(e) = t {
        if n > 0 {
            lemma_list_extend(t, (n - 1) as nat, s, x, p);
            if let Ok((_, q)) = dec_list(t, (n - 1) as nat, s, p) {
                lemma_dec_extend(*e, s, x, q);
            }
        }
    }
}

proof fn lemma_dict_extend(t: FieldType, n: nat, s: Seq<u8>, x: Seq<u8>, p: int)
    requires
        key_free(t),
        0 <= p <= s.len(),
        completes(dec_dict(t, n, s, p)),
    ensures
        dec_dict(t, n, s + x, p) == dec_dict(t, n, s, p),
        dec_dict(t, n, s, p) matches Ok((_, q)) ==> p <= q <= s.len(),
    decreases t, 0nat, n,
{
    if let FieldType::Dict(k, v) = t {
        if n > 0 {
            lemma_dict_extend(t, (n - 1) as nat, s, x, p);
            if let Ok((_, q)) = dec_dict(t, (n - 1) as nat, s, p) {
                lemma_dec_extend(*k, s, x, q);
                if let Ok((_, r)) = dec(*k, s, q) {
                    lemma_dec_extend(*v, s, x, r);
                }
            }
        }
    }
}

/// Field decoding that did not run out of input is unchanged by appended
/// bytes, and a success ends within the input.
proof fn lemma_fields_extend(fs: Seq<(String, FieldType)>, k: nat, s: Seq<u8>, x: Seq<u8>)
    requires
        k <= fs.len(),
        fields_key_free(fs),
        !(dec_fields(fs, k, s, 0) matches Err((_, c)) && c == FieldError::TruncatedInput),
    ensures
        dec_fields(fs, k, s + x, 0) == dec_fields(fs, k, s, 0),
        dec_fields(fs, k, s, 0) matches Ok((_, q)) ==> 0 <= q <= s.len(),
    decreases k,
{
    if k > 0 {
        lemma_fields_extend(fs, (k - 1) as nat, s, x);
        if let Ok((_, q)) = dec_fields(fs, (k - 1) as nat, s, 0) {
            lemma_dec_extend(fs[k - 1].1, s, x, q);
        }
    }
}

/// For a layout without key fields, a payload that decodes as an event is
/// rejected with `TrailingBytes` once any bytes are appended to it.
pub proof fn lemma_trailing_bytes_rejected(
    name: Seq<char>,
    payload: Seq<u8>,
    extra: Seq<u8>,
    schema: EventSchema,
)
    requires
        fields_key_free(schema.fields@),
        event_spec(name, payload, Some(schema)) is Ok,
        extra.len() > 0,
    ensures
        event_spec(name, payload + extra, Some(schema)) == Err::<EventView, ErrorView>(ErrorView::TrailingBytes),
{
    lemma_fields_extend(schema.fields@, schema.fields@.len(), payload, extra);
}

/// For a layout without key fields, a payload that decodes as an event, cut
/// short by at least one byte, is rejected because a field runs out of input.
pub proof fn lemma_short_payload_truncated(
    name: Seq<char>,
    payload: Seq<u8>,
    k: int,
    schema: EventSchema,
)
    requires
        fields_key_free(schema.fields@),
        event_spec(name, payload, Some(schema)) is Ok,
        0 <= k < payload.len(),
    ensures
        event_spec(name, payload.subrange(0, k), Some(schema)) matches Err(
            ErrorView::FieldDecodeError(_, c),
        ) && c == FieldError::TruncatedInput,
{
    let fs = schema.fields@;
    let short = payload.subrange(0, k);
    let rest = payload.subrange(k, payload.len() as int);
    assert(short + rest =~= payload);
    if !(dec_fields(fs, fs.len(), short, 0) matches Err((_, c)) && c == FieldError::TruncatedInput) {
        lemma_fields_extend(fs, fs.len(), short, rest);
    }
}

/// A name that the registry does not hold yields `UnknownEventType`,
/// whatever the payload.
pub proof fn lemma_unknown_name_rejected(
    name: Seq<char>,
    payload: Seq<u8>,
    registry: SchemaRegistry,
)
    requires
        registry.lookup(name) is None,
    ensures
        event_spec(name, payload, registry.lookup(name)) == Err::<EventView, ErrorView>(ErrorView::UnknownEventType(name)),
{
}

/// A failed execution yields its failure message as an error, whatever
/// effects it records.
pub proof fn lemma_failed_transaction(
    message: String,
    effects: Vec<TransformEntryV2>,
    registry: SchemaRegistry,
)
    ensures
        transaction_spec(
            normalized(ExecutionResult::V2 { error_message: Some(message), effects }),
            registry,
        ) == Err::<Seq<EventView>, ErrorView>(
            ErrorView::TransactionFailed(message@),
        ),
        transaction_spec(
            normalized(ExecutionResult::V1Failure { error_message: message }),
            registry,
        ) == Err::<Seq<EventView>, ErrorView>(
            ErrorView::TransactionFailed(message@),
        ),
{
}

/// Version 1 and version 2 results that record the same effects, entry by
/// entry, yield the same events.
pub proof fn lemma_encoding_transparency(
    v1: Vec<TransformEntryV1>,
    v2: Vec<TransformEntryV2>,
    registry: SchemaRegistry,
)
    requires
        v1@.len() == v2@.len(),
        forall|i: int| 0 <= i < v1@.len() ==> view_v1(#[trigger] v1@[i]) == view_v2(v2@[i]),
    ensures
        transaction_spec(normalized(ExecutionResult::V1Success { transforms: v1 }), registry)
            == transaction_spec(
            normalized(ExecutionResult::V2 { error_message: None, effects: v2 }),
            registry,
        ),
{
    assert(v1@.map_values(|e: TransformEntryV1| view_v1(e)) =~= v2@.map_values(
        |e: TransformEntryV2| view_v2(e),
    ));
}

/// The first `k` values, each paired with the name of its field.
pub open spec fn named(fs: Seq<(String, FieldType)>, vals: Seq<Val>, k: nat) -> Seq<(Seq<char>, Val)> {
    Seq::new(k, |i: int| (fs[i].0@, vals[i]))
}

/// The wire form of the first `k` field values.
pub open spec fn enc_fields(fs: Seq<(String, FieldType)>, vals: Seq<Val>, k: nat) -> Seq<u8>
    decreases k,
{
    if k == 0 {
        Seq::empty()
    } else {
        enc_fields(fs, vals, (k - 1) as nat) + enc(fs[k - 1].1, vals[k - 1])
    }
}

/// The raw record of the event `name` with field values `vals`.
pub open spec fn encode_event(name: Seq<char>, fs: Seq<(String, FieldType)>, vals: Seq<Val>) -> Seq<
    u8,
> {
    le32(encode_utf8(name).len() as u32) + encode_utf8(name) + enc_fields(fs, vals, vals.len())
}

proof fn lemma_fields_round_trip(
    fs: Seq<(String, FieldType)>,
    vals: Seq<Val>,
    k: nat,
    post: Seq<u8>,
)
    requires
        k <= vals.len() == fs.len(),
        forall|i: int| 0 <= i < vals.len() ==> typed(fs[i].1, #[trigger] vals[i]),
    ensures
        dec_fields(fs, k, enc_fields(fs, vals, k) + post, 0) == Ok::<
            (Seq<(Seq<char>, Val)>, int),
            (Seq<char>, FieldError),
        >((named(fs, vals, k), enc_fields(fs, vals, k).len() as int)),
    decreases k,
{
    if k == 0 {
        assert(named(fs, vals, 0) =~= Seq::<(Seq<char>, Val)>::empty());
    } else {
        let j = (k - 1) as nat;
        let front = enc_fields(fs, vals, j);
        let item = enc(fs[j as int].1, vals[j as int]);
        let s = enc_fields(fs, vals, k) + post;
        assert(s =~= front + (item + post));
        lemma_fields_round_trip(fs, vals, j, item + post);
        assert(s =~= front + item + post);
        lemma_dec_enc(fs[j as int].1, vals[j as int], front, post);
        assert(named(fs, vals, j).push((fs[j as int].0@, vals[j as int])) =~= named(fs, vals, k));
    }
}

/// Encoding an event whose values fit its registered layout, then decoding
/// the record, gives back the event name and the (field name, value) pairs.
pub proof fn lemma_event_round_trip(name: Seq<char>, vals: Seq<Val>, registry: SchemaRegistry)
    requires
        registry.lookup(name) is Some,
        vals.len() == registry.lookup(name)->Some_0.fields@.len(),
        forall|i: int|
            0 <= i < vals.len() ==> typed(
                registry.lookup(name)->Some_0.fields@[i].1,
                #[trigger] vals[i],
            ),
        encode_utf8(name).len() <= u32::MAX,
    ensures
        stored_event_spec(encode_event(name, registry.lookup(name)->Some_0.fields@, vals), registry)
            == Ok::<EventView, ErrorView>(
            EventView {
                name,
                fields: named(registry.lookup(name)->Some_0.fields@, vals, vals.len()),
            },
        ),
{
    let fs = registry.lookup(name)->Some_0.fields@;
    let nb = encode_utf8(name);
    let n = nb.len() as u32;
    let body = enc_fields(fs, vals, vals.len());
    let raw = encode_event(name, fs, vals);
    assert forall|k: int| 0 <= k < 4 implies raw[k] == #[trigger] le32(n)[k] by {}
    lemma_le32_at(n, raw, 0);
    assert(raw.subrange(4, 4 + nb.len() as int) =~= nb);
    assert(raw.subrange(4 + nb.len() as int, raw.len() as int) =~= body);
    encode_utf8_valid_utf8(name);
    encode_utf8_decode_utf8(name);
    assert(body + Seq::<u8>::empty() =~= body);
    lemma_fields_round_trip(fs, vals, vals.len(), Seq::empty());
}

/// `ev` names a layout that `registry` holds and carries that layout's field
/// names, in order.
pub open spec fn follows_layout(ev: EventView, registry: SchemaRegistry) -> bool {
    registry.lookup(ev.name) matches Some(sc) && ev.fields.len() == sc.fields@.len() && forall|j: int|
        0 <= j < ev.fields.len() ==> (#[trigger] ev.fields[j]).0 == sc.fields@[j].0@
}

proof fn lemma_fields_names(fs: Seq<(String, FieldType)>, k: nat, s: Seq<u8>, p: int)
    requires
        dec_fields(fs, k, s, p) is Ok,
    ensures
        dec_fields(fs, k, s, p)->Ok_0.0.len() == k,
        forall|j: int|
            0 <= j < k ==> (#[trigger] dec_fields(fs, k, s, p)->Ok_0.0[j]).0 == fs[j].0@,
    decreases k,
{
    if k > 0 {
        lemma_fields_names(fs, (k - 1) as nat, s, p);
    }
}

/// Every event that a scan finds names a layout of the registry and carries
/// its field names in order, and a scan finds no more events than there are
/// effects.
pub proof fn lemma_scan_events_registered(effs: Seq<EffectView>, registry: SchemaRegistry)
    requires
        scan_spec(effs, registry) is Ok,
    ensures
        scan_spec(effs, registry)->Ok_0.len() <= effs.len(),
        forall|i: int|
            0 <= i < scan_spec(effs, registry)->Ok_0.len() ==> follows_layout(
                #[trigger] scan_spec(effs, registry)->Ok_0[i],
                registry,
            ),
    decreases effs.len(),
{
    if effs.len() > 0 {
        let init = effs.drop_last();
        lemma_scan_events_registered(init, registry);
        let e = effs.last();
        if let Ok(Some(ev)) = classify(e, registry) {
            let b = e.written->Some_0;
            let (name, payload) = crate::envelope::envelope_spec(b.subrange(4, b.len() as int))->Some_0;
            let sc = registry.lookup(name)->Some_0;
            lemma_fields_names(sc.fields@, sc.fields@.len(), payload, 0);
            assert(follows_layout(ev, registry));
        }
    }
}

} // verus!
