use ces_fetcher::error::{FieldError, ToolkitError};
use ces_fetcher::event::Event;
use ces_fetcher::scanner::{
    classify_effect, events_for_transaction, normalize, scan_effects, Effect, ExecutionOutcome,
    ExecutionResult, TransformEntryV1, TransformEntryV2, TransformKindV2, TransformV1,
};
use ces_fetcher::schema::{EventSchema, SchemaRegistry};
use ces_fetcher::value::{FieldType, Value};

fn lp(bytes: &[u8]) -> Vec<u8> {
    let mut out = (bytes.len() as u32).to_le_bytes().to_vec();
    out.extend_from_slice(bytes);
    out
}

/// A dictionary write of the event `name` with one `u32` field.
fn event_write(name: &str, amount: u32) -> Vec<u8> {
    let mut env = lp(name.as_bytes());
    env.extend_from_slice(&amount.to_le_bytes());
    lp(&env)
}

fn registry() -> SchemaRegistry {
    let mut reg = SchemaRegistry::new();
    reg.insert(EventSchema {
        name: "Mint".to_string(),
        fields: vec![("amount".to_string(), FieldType::U32)],
    });
    reg
}

fn mint(amount: u32) -> Event {
    Event { name: "Mint".to_string(), fields: vec![("amount".to_string(), Value::U32(amount))] }
}

fn dict_key(n: u8) -> String {
    format!("dictionary-{:064x}", n)
}

fn mixed_v1() -> Vec<TransformEntryV1> {
    vec![
        TransformEntryV1 { key: dict_key(1), transform: TransformV1::Other },
        TransformEntryV1 {
            key: "uref-0101-007".to_string(),
            transform: TransformV1::WriteCLValue(event_write("Mint", 1)),
        },
        TransformEntryV1 {
            key: dict_key(2),
            transform: TransformV1::WriteCLValue(lp(&[200u8, 1, 2, 3, 4])),
        },
        TransformEntryV1 {
            key: dict_key(3),
            transform: TransformV1::WriteCLValue(event_write("Burn", 4)),
        },
        TransformEntryV1 {
            key: dict_key(4),
            transform: TransformV1::WriteCLValue(event_write("Mint", 5)),
        },
    ]
}

fn mixed_v2() -> Vec<TransformEntryV2> {
    vec![
        TransformEntryV2 { key: dict_key(1), kind: TransformKindV2::Other },
        TransformEntryV2 {
            key: "uref-0101-007".to_string(),
            kind: TransformKindV2::WriteCLValue(event_write("Mint", 1)),
        },
        TransformEntryV2 {
            key: dict_key(2),
            kind: TransformKindV2::WriteCLValue(lp(&[200u8, 1, 2, 3, 4])),
        },
        TransformEntryV2 { key: dict_key(3), kind: TransformKindV2::WriteCLValue(event_write("Burn", 4)) },
        TransformEntryV2 { key: dict_key(4), kind: TransformKindV2::WriteCLValue(event_write("Mint", 5)) },
    ]
}

#[test]
fn scanner_keeps_only_event_writes() {
    let reg = registry();
    let r = events_for_transaction(ExecutionResult::V1Success { transforms: mixed_v1() }, &reg);
    assert_eq!(r, Ok(vec![mint(5)]));
}

#[test]
fn scanner_keeps_effect_order() {
    let reg = registry();
    let effects = vec![
        Effect { key: dict_key(9), written: Some(event_write("Mint", 3)) },
        Effect { key: dict_key(8), written: Some(vec![1u8]) },
        Effect { key: dict_key(7), written: Some(event_write("Mint", 2)) },
    ];
    assert_eq!(scan_effects(&effects, &reg), Ok(vec![mint(3), mint(2)]));
}

#[test]
fn failed_transaction_yields_its_message() {
    let reg = registry();
    let r = events_for_transaction(
        ExecutionResult::V1Failure { error_message: "user error: 1".to_string() },
        &reg,
    );
    assert_eq!(r, Err(ToolkitError::TransactionFailed { message: "user error: 1".to_string() }));
    let r2 = events_for_transaction(
        ExecutionResult::V2 { error_message: Some("user error: 1".to_string()), effects: mixed_v2() },
        &reg,
    );
    assert_eq!(r2, Err(ToolkitError::TransactionFailed { message: "user error: 1".to_string() }));
}

#[test]
fn both_encodings_give_the_same_events() {
    let reg = registry();
    let a = events_for_transaction(ExecutionResult::V1Success { transforms: mixed_v1() }, &reg);
    let b = events_for_transaction(ExecutionResult::V2 { error_message: None, effects: mixed_v2() }, &reg);
    assert_eq!(a, b);
    assert_eq!(b, Ok(vec![mint(5)]));
}

#[test]
fn known_event_with_bad_fields_aborts_the_scan() {
    let reg = registry();
    let mut env = lp(b"Mint");
    env.extend_from_slice(&[1u8, 2]);
    let effects = vec![
        Effect { key: dict_key(1), written: Some(event_write("Mint", 3)) },
        Effect { key: dict_key(2), written: Some(lp(&env)) },
    ];
    assert_eq!(
        scan_effects(&effects, &reg),
        Err(ToolkitError::FieldDecodeError {
            field_name: "amount".to_string(),
            cause: FieldError::TruncatedInput
        })
    );
}

#[test]
fn known_event_with_leftover_bytes_is_skipped() {
    let reg = registry();
    let mut env = lp(b"Mint");
    env.extend_from_slice(&[1u8, 2, 3, 4, 5]);
    let e = Effect { key: dict_key(1), written: Some(lp(&env)) };
    assert_eq!(classify_effect(&e, &reg), Ok(None));
}

#[test]
fn write_outside_dictionaries_is_skipped() {
    let reg = registry();
    let e = Effect { key: "hash-00".to_string(), written: Some(event_write("Mint", 1)) };
    assert_eq!(classify_effect(&e, &reg), Ok(None));
    let short = Effect { key: dict_key(1), written: Some(vec![1u8, 2, 3]) };
    assert_eq!(classify_effect(&short, &reg), Ok(None));
}

#[test]
fn normalize_keeps_writes_and_keys() {
    let out = normalize(ExecutionResult::V2 {
        error_message: None,
        effects: vec![
            TransformEntryV2 { key: "k1".to_string(), kind: TransformKindV2::WriteOther },
            TransformEntryV2 { key: "k2".to_string(), kind: TransformKindV2::WriteCLValue(vec![1]) },
        ],
    });
    match out {
        ExecutionOutcome::Succeeded { effects } => {
            assert_eq!(effects.len(), 2);
            assert_eq!(effects[0].key, "k1");
            assert_eq!(effects[0].written, None);
            assert_eq!(effects[1].written, Some(vec![1u8]));
        }
        ExecutionOutcome::Failed { .. } => panic!("unexpected failure"),
    }
}
