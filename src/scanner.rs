use vstd::prelude::*;
use vstd::string::StrSliceExecFns;

use crate::envelope::{envelope_spec, parse_envelope};
use crate::error::{ErrorView, ToolkitError};
use crate::event::{Event, EventView, decode_with_schema, event_spec};
use crate::schema::SchemaRegistry;

verus! {

/// One state change of an executed transaction, as the scanner reads it: the
/// formatted storage key, and the inner bytes of the value when the change
/// writes a value.
#[derive(Debug)]
pub struct Effect {
    pub key: String,
    pub written: Option<Vec<u8>>,
}

/// Model of an effect.
pub struct EffectView {
    pub key: Seq<char>,
    pub written: Option<Seq<u8>>,
}

impl View for Effect {
    type V = EffectView;

    open spec fn view(&self) -> EffectView {
        EffectView {
            key: self.key@,
            written: match self.written {
                Some(b) => Some(b@),
                None => None,
            },
        }
    }
}

/// Transform of a version 1 execution result.
#[derive(Debug)]
pub enum TransformV1 {
    /// Writes a value; holds its inner bytes.
    WriteCLValue(Vec<u8>),
    /// Any other transform.
    Other,
}

/// An entry of a version 1 execution result.
#[derive(Debug)]
pub struct TransformEntryV1 {
    pub key: String,
    pub transform: TransformV1,
}

/// Transform kind of a version 2 execution result.
#[derive(Debug)]
pub enum TransformKindV2 {
    /// Writes a value; holds its inner bytes.
    WriteCLValue(Vec<u8>),
    /// Writes a stored value of another kind.
    WriteOther,
    /// Any other transform.
    Other,
}

/// An entry of a version 2 execution result.
#[derive(Debug)]
pub struct TransformEntryV2 {
    pub key: String,
    pub kind: TransformKindV2,
}

/// A transaction's execution result in either historical encoding.
#[derive(Debug)]
#[allow(inconsistent_fields)]
pub enum ExecutionResult {
    V1Failure { error_message: String },
    V1Success { transforms: Vec<TransformEntryV1> },
    V2 { error_message: Option<String>, effects: Vec<TransformEntryV2> },
}

/// An execution result in the one form the scanner reads.
#[derive(Debug)]
pub enum ExecutionOutcome {
    Failed { message: String },
    Succeeded { effects: Vec<Effect> },
}

pub open spec fn view_v1(e: TransformEntryV1) -> EffectView {
    EffectView {
        key: e.key@,
        written: match e.transform {
            TransformV1::WriteCLValue(b) => Some(b@),
            TransformV1::Other => None,
        },
    }
}

pub open spec fn view_v2(e: TransformEntryV2) -> EffectView {
    EffectView {
        key: e.key@,
        written: match e.kind {
            TransformKindV2::WriteCLValue(b) => Some(b@),
            _ => None,
        },
    }
}

/// The effects that `r` records, or the failure message.
pub open spec fn normalized(r: ExecutionResult) -> Result<Seq<EffectView>, Seq<char>> {
    match r {
        ExecutionResult::V1Failure { error_message } => Err(error_message@),
        ExecutionResult::V1Success { transforms } => Ok(
            transforms@.map_values(|e: TransformEntryV1| view_v1(e)),
        ),
        ExecutionResult::V2 { error_message, effects } => match error_message {
            Some(m) => Err(m@),
            None => Ok(effects@.map_values(|e: TransformEntryV2| view_v2(e))),
        },
    }
}

impl View for ExecutionOutcome {
    type V = Result<Seq<EffectView>, Seq<char>>;

    open spec fn view(&self) -> Result<Seq<EffectView>, Seq<char>> {
        match self {
            ExecutionOutcome::Failed { message } => Err(message@),
            ExecutionOutcome::Succeeded { effects } => Ok(effects@.map_values(|e: Effect| e@)),
        }
    }
}

/// Brings either encoding of an execution result into one form.
pub fn normalize(r: ExecutionResult) -> (out: ExecutionOutcome)
    ensures
        out@ == normalized(r),
{
    match r {
        ExecutionResult::V1Failure { error_message } => ExecutionOutcome::Failed {
            message: error_message,
        },
        ExecutionResult::V1Success { transforms } => {
            let ghost src = transforms@;
            let mut effects: Vec<Effect> = Vec::new();
            let mut rest = transforms;
            let n = rest.len();
            let mut i: usize = 0;
            while rest.len() > 0
                invariant
                    rest@ == src.subrange(i as int, src.len() as int),
                    i <= src.len(),
                    src.len() == n as nat,
                    effects@.map_values(|e: Effect| e@) =~= src.subrange(0, i as int).map_values(
                        |e: TransformEntryV1| view_v1(e),
                    ),
                decreases rest@.len(),
            {
                let ghost before = effects@;
                let entry = rest.remove(0);
                proof {
                    assert(entry == src[i as int]);
                    assert(rest@ =~= src.subrange(i + 1, src.len() as int));
                }
                let written = match entry.transform {
                    TransformV1::WriteCLValue(b) => Some(b),
                    TransformV1::Other => None,
                };
                effects.push(Effect { key: entry.key, written });
                assert(effects@.map_values(|e: Effect| e@) =~= before.map_values(|e: Effect| e@).push(
                    view_v1(src[i as int]),
                ));
                i = i + 1;
                assert(effects@.map_values(|e: Effect| e@) =~= src.subrange(0, i as int).map_values(
                    |e: TransformEntryV1| view_v1(e),
                ));
            }
            assert(src.subrange(0, src.len() as int) =~= src);
            ExecutionOutcome::Succeeded { effects }
        },
        ExecutionResult::V2 { error_message, effects: entries } => match error_message {
            Some(message) => ExecutionOutcome::Failed { message },
            None => {
                let ghost src = entries@;
                let mut effects: Vec<Effect> = Vec::new();
                let mut rest = entries;
                let n = rest.len();
                let mut i: usize = 0;
                while rest.len() > 0
                    invariant
                        rest@ == src.subrange(i as int, src.len() as int),
                        i <= src.len(),
                        src.len() == n as nat,
                        effects@.map_values(|e: Effect| e@) =~= src.subrange(
                            0,
                            i as int,
                        ).map_values(|e: TransformEntryV2| view_v2(e)),
                    decreases rest@.len(),
                {
                    let ghost before = effects@;
                    let entry = rest.remove(0);
                    proof {
                        assert(entry == src[i as int]);
                        assert(rest@ =~= src.subrange(i + 1, src.len() as int));
                    }
                    let written = match entry.kind {
                        TransformKindV2::WriteCLValue(b) => Some(b),
                        _ => None,
                    };
                    effects.push(Effect { key: entry.key, written });
                    assert(effects@.map_values(|e: Effect| e@) =~= before.map_values(|e: Effect| e@).push(
                        view_v2(src[i as int]),
                    ));
                    i = i + 1;
                    assert(effects@.map_values(|e: Effect| e@) =~= src.subrange(
                        0,
                        i as int,
                    ).map_values(|e: TransformEntryV2| view_v2(e)));
                }
                assert(src.subrange(0, src.len() as int) =~= src);
                ExecutionOutcome::Succeeded { effects }
            },
        },
    }
}

/// The key addresses a dictionary entry: its formatted form starts with
/// `dictionary-`.
pub open spec fn dictionary_key(key: Seq<char>) -> bool {
    "dictionary-"@.len() <= key.len() && key.subrange(0, "dictionary-"@.len() as int)
        == "dictionary-"@
}

/// Whether `s` begins with `prefix`, compared character by character.
fn has_prefix(s: &str, prefix: &str) -> (r: bool)
    ensures
        r == (prefix@.len() <= s@.len() && s@.subrange(0, prefix@.len() as int) == prefix@),
{
    let n = prefix.unicode_len();
    if s.unicode_len() < n {
        return false;
    }
    let mut i: usize = 0;
    while i < n
        invariant
            n == prefix@.len(),
            n <= s@.len(),
            i <= n,
            forall|j: int| 0 <= j < i ==> s@[j] == prefix@[j],
        decreases n - i,
    {
        if s.get_char(i) != prefix.get_char(i) {
            assert(s@.subrange(0, n as int)[i as int] != prefix@[i as int]);
            return false;
        }
        i = i + 1;
    }
    assert(s@.subrange(0, n as int) =~= prefix@);
    true
}

/// What one effect contributes to a scan: an event, nothing, or an error
/// that ends the scan. Only a known event whose fields fail to decode is an
/// error; any other failure means the write holds no event.
pub open spec fn classify(e: EffectView, registry: SchemaRegistry) -> Result<
    Option<EventView>,
    ErrorView,
> {
    match e.written {
        None => Ok(None),
        Some(b) => if !dictionary_key(e.key) || b.len() < 4 {
            Ok(None)
        } else {
            match envelope_spec(b.subrange(4, b.len() as int)) {
                None => Ok(None),
                Some((name, payload)) => match registry.lookup(name) {
                    None => Ok(None),
                    Some(sc) => match event_spec(name, payload, Some(sc)) {
                        Ok(ev) => Ok(Some(ev)),
                        Err(ErrorView::TrailingBytes) => Ok(None),
                        Err(err) => Err(err),
                    },
                },
            }
        },
    }
}

/// The events found in `effs`, in order, or the first error.
pub open spec fn scan_spec(effs: Seq<EffectView>, registry: SchemaRegistry) -> Result<
    Seq<EventView>,
    ErrorView,
>
    decreases effs.len(),
{
    if effs.len() == 0 {
        Ok(Seq::empty())
    } else {
        match scan_spec(effs.drop_last(), registry) {
            Err(err) => Err(err),
            Ok(evs) => match classify(effs.last(), registry) {
                Ok(None) => Ok(evs),
                Ok(Some(ev)) => Ok(evs.push(ev)),
                Err(err) => Err(err),
            },
        }
    }
}

/// The events of a transaction whose normalized result is `n`.
pub open spec fn transaction_spec(
    n: Result<Seq<EffectView>, Seq<char>>,
    registry: SchemaRegistry,
) -> Result<Seq<EventView>, ErrorView> {
    match n {
        Err(m) => Err(ErrorView::TransactionFailed(m)),
        Ok(effs) => scan_spec(effs, registry),
    }
}

pub open spec fn classified(r: Result<Option<Event>, ToolkitError>) -> Result<
    Option<EventView>,
    ErrorView,
> {
    match r {
        Ok(Some(ev)) => Ok(Some(ev@)),
        Ok(None) => Ok(None),
        Err(e) => Err(e@),
    }
}

pub open spec fn events_result(r: Result<Vec<Event>, ToolkitError>) -> Result<
    Seq<EventView>,
    ErrorView,
> {
    match r {
        Ok(evs) => Ok(evs@.map_values(|e: Event| e@)),
        Err(e) => Err(e@),
    }
}

pub open spec fn effect_views(effects: Seq<Effect>) -> Seq<EffectView> {
    effects.map_values(|e: Effect| e@)
}

/// Decides what one effect contributes to a scan.
pub fn classify_effect(effect: &Effect, registry: &SchemaRegistry) -> (r: Result<
    Option<Event>,
    ToolkitError,
>)
    ensures
        classified(r) == classify(effect@, *registry),
{
    let b = match &effect.written {
        None => {
            return Ok(None);
        },
        Some(b) => b.as_slice(),
    };
    if !has_prefix(effect.key.as_str(), "dictionary-") || b.len() < 4 {
        return Ok(None);
    }
    let (name, payload) = match parse_envelope(&b[4..b.len()]) {
        Ok(parts) => parts,
        Err(_) => {
            return Ok(None);
        },
    };
    let schema = match registry.get(&name) {
        Some(schema) => schema,
        None => {
            return Ok(None);
        },
    };
    match decode_with_schema(&name, payload.as_slice(), schema) {
        Ok(ev) => Ok(Some(ev)),
        Err(ToolkitError::TrailingBytes) => Ok(None),
        Err(e) => Err(e),
    }
}

proof fn lemma_scan_err_stays(s: Seq<EffectView>, registry: SchemaRegistry, m: int, n: int)
    requires
        0 <= m <= n <= s.len(),
        scan_spec(s.subrange(0, m), registry) is Err,
    ensures
        scan_spec(s.subrange(0, n), registry) == scan_spec(s.subrange(0, m), registry),
    decreases n,
{
    if n > m {
        lemma_scan_err_stays(s, registry, m, n - 1);
        assert(s.subrange(0, n).drop_last() =~= s.subrange(0, n - 1));
    }
}

/// Picks out, in order, the events that `effects` write.
pub fn scan_effects(effects: &Vec<Effect>, registry: &SchemaRegistry) -> (r: Result<
    Vec<Event>,
    ToolkitError,
>)
    ensures
        events_result(r) == scan_spec(effect_views(effects@), *registry),
{
    let ghost views = effect_views(effects@);
    let mut events: Vec<Event> = Vec::new();
    let mut i: usize = 0;
    assert(views.subrange(0, 0) =~= Seq::<EffectView>::empty());
    assert(events@.map_values(|e: Event| e@) =~= Seq::<EventView>::empty());
    while i < effects.len()
        invariant
            views == effect_views(effects@),
            i <= effects@.len(),
            scan_spec(views.subrange(0, i as int), *registry) == Ok::<Seq<EventView>, ErrorView>(
                events@.map_values(|e: Event| e@),
            ),
        decreases effects@.len() - i,
    {
        let c = classify_effect(&effects[i], registry);
        assert(views.subrange(0, i + 1).drop_last() =~= views.subrange(0, i as int));
        match c {
            Ok(Some(ev)) => {
                let ghost before = events@;
                events.push(ev);
                assert(events@.map_values(|e: Event| e@) =~= before.map_values(|e: Event| e@).push(
                    ev@,
                ));
            },
            Ok(None) => {},
            Err(e) => {
                proof {
                    lemma_scan_err_stays(views, *registry, i + 1, views.len() as int);
                    assert(views.subrange(0, views.len() as int) =~= views);
                }
                return Err(e);
            },
        }
        i = i + 1;
    }
    assert(views.subrange(0, views.len() as int) =~= views);
    Ok(events)
}

/// The events that a transaction emitted, or its failure message as an
/// error when its execution failed.
pub fn events_for_transaction(result: ExecutionResult, registry: &SchemaRegistry) -> (r: Result<
    Vec<Event>,
    ToolkitError,
>)
    ensures
        events_result(r) == transaction_spec(normalized(result), *registry),
{
    match normalize(result) {
        ExecutionOutcome::Failed { message } => Err(ToolkitError::TransactionFailed { message }),
        ExecutionOutcome::Succeeded { effects } => scan_effects(&effects, registry),
    }
}

} // verus!
