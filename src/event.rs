use vstd::prelude::*;

use crate::error::{ErrorView, FieldError, ToolkitError};
use crate::schema::{EventSchema, SchemaRegistry};
use crate::value::{FieldType, Val, Value, dec, decode_field};

verus! {

/// A decoded event: its name and its (field name, value) pairs in
/// declaration order.
#[derive(Debug, PartialEq, Eq)]
pub struct Event {
    pub name: String,
    pub fields: Vec<(String, Value)>,
}

/// Model of an event.
pub struct EventView {
    pub name: Seq<char>,
    pub fields: Seq<(Seq<char>, Val)>,
}

pub open spec fn view_fields(fs: Seq<(String, Value)>) -> Seq<(Seq<char>, Val)> {
    fs.map_values(|f: (String, Value)| (f.0@, f.1@))
}

impl View for Event {
    type V = EventView;

    open spec fn view(&self) -> EventView {
        EventView { name: self.name@, fields: view_fields(self.fields@) }
    }
}

/// Decodes the first `k` declared fields in order from `p`: the named values
/// and the position after them, or the name of the field that failed and why.
pub open spec fn dec_fields(fs: Seq<(String, FieldType)>, k: nat, s: Seq<u8>, p: int) -> Result<
    (Seq<(Seq<char>, Val)>, int),
    (Seq<char>, FieldError),
>
    decreases k,
{
    if k == 0 {
        Ok((Seq::empty(), p))
    } else {
        match dec_fields(fs, (k - 1) as nat, s, p) {
            Ok((acc, q)) => match dec(fs[k - 1].1, s, q) {
                Ok((v, r)) => Ok((acc.push((fs[k - 1].0@, v)), r)),
                Err(c) => Err((fs[k - 1].0@, c)),
            },
            Err(e) => Err(e),
        }
    }
}

/// What decoding `payload` as the event `name` gives, where `schema` is
/// what the registry holds under that name.
pub open spec fn event_spec(name: Seq<char>, payload: Seq<u8>, schema: Option<EventSchema>) -> Result<
    EventView,
    ErrorView,
> {
    match schema {
        None => Err(ErrorView::UnknownEventType(name)),
        Some(sc) => match dec_fields(sc.fields@, sc.fields@.len(), payload, 0) {
            Err((f, c)) => Err(ErrorView::FieldDecodeError(f, c)),
            Ok((fields, end)) => if end != payload.len() {
                Err(ErrorView::TrailingBytes)
            } else {
                Ok(EventView { name, fields })
            },
        },
    }
}

/// The model of a decoding outcome.
pub open spec fn event_result(r: Result<Event, ToolkitError>) -> Result<EventView, ErrorView> {
    match r {
        Ok(e) => Ok(e@),
        Err(e) => Err(e@),
    }
}

proof fn lemma_fields_err_stays(fs: Seq<(String, FieldType)>, m: nat, n: nat, s: Seq<u8>, p: int)
    requires
        m <= n,
        dec_fields(fs, m, s, p) is Err,
    ensures
        dec_fields(fs, n, s, p) == dec_fields(fs, m, s, p),
    decreases n,
{
    if n > m {
        lemma_fields_err_stays(fs, m, (n - 1) as nat, s, p);
    }
}

/// Decodes the fields of `schema` from `payload`, which they must fill
/// exactly.
pub fn decode_with_schema(name: &String, payload: &[u8], schema: &EventSchema) -> (r: Result<
    Event,
    ToolkitError,
>)
    ensures
        event_result(r) == event_spec(name@, payload@, Some(*schema)),
{
    let fs = &schema.fields;
    let mut acc: Vec<(String, Value)> = Vec::new();
    let mut cur: usize = 0;
    let mut i: usize = 0;
    assert(view_fields(acc@) =~= Seq::empty());
    while i < fs.len()
        invariant
            fs@ == schema.fields@,
            i <= fs@.len(),
            cur <= payload@.len(),
            dec_fields(fs@, i as nat, payload@, 0) == Ok::<
                (Seq<(Seq<char>, Val)>, int),
                (Seq<char>, FieldError),
            >((view_fields(acc@), cur as int)),
        decreases fs@.len() - i,
    {
        match decode_field(&fs[i].1, payload, cur) {
            Ok((v, q)) => {
                let ghost before = acc@;
                acc.push((fs[i].0.clone(), v));
                proof {
                    assert(view_fields(acc@) =~= view_fields(before).push((fs@[i as int].0@, v@)));
                }
                cur = q;
                i = i + 1;
            },
            Err(cause) => {
                let field_name = fs[i].0.clone();
                proof {
                    assert(dec_fields(fs@, (i + 1) as nat, payload@, 0) == Err::<
                        (Seq<(Seq<char>, Val)>, int),
                        (Seq<char>, FieldError),
                    >((field_name@, cause)));
                    lemma_fields_err_stays(fs@, (i + 1) as nat, fs@.len(), payload@, 0);
                    assert(dec_fields(schema.fields@, schema.fields@.len(), payload@, 0) == Err::<
                        (Seq<(Seq<char>, Val)>, int),
                        (Seq<char>, FieldError),
                    >((field_name@, cause)));
                }
                return Err(ToolkitError::FieldDecodeError { field_name, cause });
            },
        }
    }
    if cur != payload.len() {
        return Err(ToolkitError::TrailingBytes);
    }
    Ok(Event { name: name.clone(), fields: acc })
}

/// Decodes `payload` as the event `name` under the layout that `registry`
/// holds for it.
pub fn decode_event(name: &String, payload: &[u8], registry: &SchemaRegistry) -> (r: Result<
    Event,
    ToolkitError,
>)
    ensures
        event_result(r) == event_spec(name@, payload@, registry.lookup(name@)),
{
    match registry.get(name) {
        None => Err(ToolkitError::UnknownEventType { name: name.clone() }),
        Some(schema) => decode_with_schema(name, payload, schema),
    }
}

} // verus!
