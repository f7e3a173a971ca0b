use ces_fetcher::envelope::parse_envelope;
use ces_fetcher::error::{FieldError, ToolkitError};
use ces_fetcher::event::{decode_event, Event};
use ces_fetcher::fetcher::{decode_count, decode_stored_event, CasperClient};
use ces_fetcher::schema::{EventSchema, SchemaRegistry};
use ces_fetcher::value::{decode_field, FieldType, Value};

fn lp(bytes: &[u8]) -> Vec<u8> {
    let mut out = (bytes.len() as u32).to_le_bytes().to_vec();
    out.extend_from_slice(bytes);
    out
}

fn envelope(name: &str, payload: &[u8]) -> Vec<u8> {
    let mut out = lp(name.as_bytes());
    out.extend_from_slice(payload);
    out
}

fn transfer_registry() -> SchemaRegistry {
    let mut reg = SchemaRegistry::new();
    let added = reg.insert(EventSchema {
        name: "Transfer".to_string(),
        fields: vec![
            ("from".to_string(), FieldType::Account),
            ("amount".to_string(), FieldType::U64),
            ("memo".to_string(), FieldType::Opt(Box::new(FieldType::Str))),
        ],
    });
    assert!(added);
    reg
}

fn transfer_payload() -> Vec<u8> {
    let mut p = vec![7u8; 32];
    p.extend_from_slice(&1000u64.to_le_bytes());
    p.push(1);
    p.extend_from_slice(&lp(b"hi"));
    p
}

fn transfer_event() -> Event {
    Event {
        name: "Transfer".to_string(),
        fields: vec![
            ("from".to_string(), Value::Account(vec![7u8; 32])),
            ("amount".to_string(), Value::U64(1000)),
            ("memo".to_string(), Value::Opt(Some(Box::new(Value::Str("hi".to_string()))))),
        ],
    }
}

#[test]
fn fixed_width_integers_are_little_endian() {
    let buf = [0x78u8, 0x56, 0x34, 0x12];
    assert_eq!(decode_field(&FieldType::U32, &buf, 0), Ok((Value::U32(0x1234_5678), 4)));
    let neg = (-2i32).to_le_bytes();
    assert_eq!(decode_field(&FieldType::I32, &neg, 0), Ok((Value::I32(-2), 4)));
    let big = u64::MAX - 5;
    assert_eq!(decode_field(&FieldType::U64, &big.to_le_bytes(), 0), Ok((Value::U64(big), 8)));
    let neg64 = (-300i64).to_le_bytes();
    assert_eq!(decode_field(&FieldType::I64, &neg64, 0), Ok((Value::I64(-300), 8)));
    let wide = (1u128 << 100) + 3;
    assert_eq!(decode_field(&FieldType::U128, &wide.to_le_bytes(), 0), Ok((Value::U128(wide), 16)));
    assert_eq!(decode_field(&FieldType::U8, &[9u8, 1], 1), Ok((Value::U8(1), 2)));
    assert_eq!(decode_field(&FieldType::Unit, &[], 0), Ok((Value::Unit, 0)));
}

#[test]
fn bool_flag_must_be_zero_or_one() {
    assert_eq!(decode_field(&FieldType::Bool, &[1u8], 0), Ok((Value::Bool(true), 1)));
    assert_eq!(decode_field(&FieldType::Bool, &[0u8], 0), Ok((Value::Bool(false), 1)));
    assert_eq!(decode_field(&FieldType::Bool, &[2u8], 0), Err(FieldError::InvalidValue));
}

#[test]
fn short_input_is_truncated() {
    assert_eq!(decode_field(&FieldType::U64, &[1u8, 2, 3], 0), Err(FieldError::TruncatedInput));
    assert_eq!(decode_field(&FieldType::Bool, &[], 0), Err(FieldError::TruncatedInput));
    let mut s = lp(b"hello");
    s.pop();
    assert_eq!(decode_field(&FieldType::Str, &s, 0), Err(FieldError::TruncatedInput));
}

#[test]
fn strings_must_be_utf8() {
    assert_eq!(
        decode_field(&FieldType::Str, &lp("zü".as_bytes()), 0),
        Ok((Value::Str("zü".to_string()), 7))
    );
    assert_eq!(decode_field(&FieldType::Str, &lp(&[0xff, 0xfe]), 0), Err(FieldError::InvalidValue));
}

#[test]
fn composite_values_recurse() {
    assert_eq!(decode_field(&FieldType::Bytes, &lp(&[4, 5]), 0), Ok((Value::Bytes(vec![4, 5]), 6)));
    let opt = FieldType::Opt(Box::new(FieldType::U8));
    assert_eq!(decode_field(&opt, &[0u8], 0), Ok((Value::Opt(None), 1)));
    assert_eq!(decode_field(&opt, &[1u8, 42], 0), Ok((Value::Opt(Some(Box::new(Value::U8(42)))), 2)));
    assert_eq!(decode_field(&opt, &[3u8, 42], 0), Err(FieldError::InvalidValue));
    let list = FieldType::List(Box::new(FieldType::U8));
    assert_eq!(
        decode_field(&list, &[2u8, 0, 0, 0, 10, 11, 99], 0),
        Ok((Value::List(vec![Value::U8(10), Value::U8(11)]), 6))
    );
    assert_eq!(decode_field(&list, &[3u8, 0, 0, 0, 10, 11], 0), Err(FieldError::TruncatedInput));
    let dict = FieldType::Dict(Box::new(FieldType::Str), Box::new(FieldType::Bool));
    let mut buf = 1u32.to_le_bytes().to_vec();
    buf.extend_from_slice(&lp(b"k"));
    buf.push(1);
    assert_eq!(
        decode_field(&dict, &buf, 0),
        Ok((Value::Dict(vec![(Value::Str("k".to_string()), Value::Bool(true))]), 10))
    );
    let account = vec![3u8; 32];
    assert_eq!(decode_field(&FieldType::Account, &account, 0), Ok((Value::Account(account.clone()), 32)));
    assert_eq!(decode_field(&FieldType::Account, &account[..31], 0), Err(FieldError::TruncatedInput));
}

#[test]
fn envelope_splits_name_and_payload() {
    let raw = envelope("Mint", &[1, 2, 3]);
    assert_eq!(parse_envelope(&raw), Ok(("Mint".to_string(), vec![1, 2, 3])));
    assert_eq!(parse_envelope(&envelope("", &[])), Ok((String::new(), vec![])));
}

#[test]
fn envelope_rejects_broken_framing() {
    assert_eq!(parse_envelope(&[1u8, 0]), Err(ToolkitError::MalformedEnvelope));
    assert_eq!(parse_envelope(&[9u8, 0, 0, 0, b'a']), Err(ToolkitError::MalformedEnvelope));
    assert_eq!(parse_envelope(&lp(&[0xc3, 0x28])), Err(ToolkitError::MalformedEnvelope));
}

#[test]
fn registry_keeps_names_unique() {
    let mut reg = transfer_registry();
    assert_eq!(reg.len(), 1);
    let again = reg.insert(EventSchema { name: "Transfer".to_string(), fields: vec![] });
    assert!(!again);
    assert_eq!(reg.len(), 1);
    assert_eq!(reg.get(&"Transfer".to_string()).unwrap().fields.len(), 3);
    assert!(reg.get(&"Mint".to_string()).is_none());
}

#[test]
fn encoded_event_decodes_to_its_fields() {
    let reg = transfer_registry();
    let raw = envelope("Transfer", &transfer_payload());
    assert_eq!(decode_stored_event(&raw, &reg), Ok(transfer_event()));
    assert_eq!(decode_event(&"Transfer".to_string(), &transfer_payload(), &reg), Ok(transfer_event()));
}

#[test]
fn leftover_bytes_are_rejected() {
    let reg = transfer_registry();
    let mut payload = transfer_payload();
    payload.push(0);
    assert_eq!(decode_event(&"Transfer".to_string(), &payload, &reg), Err(ToolkitError::TrailingBytes));
}

#[test]
fn short_payload_is_truncated() {
    let reg = transfer_registry();
    let payload = transfer_payload();
    let r = decode_event(&"Transfer".to_string(), &payload[..payload.len() - 1], &reg);
    assert_eq!(
        r,
        Err(ToolkitError::FieldDecodeError {
            field_name: "memo".to_string(),
            cause: FieldError::TruncatedInput
        })
    );
}

#[test]
fn unknown_event_is_not_decoded() {
    let reg = transfer_registry();
    let r = decode_event(&"Burn".to_string(), &[], &reg);
    assert_eq!(r, Err(ToolkitError::UnknownEventType { name: "Burn".to_string() }));
}

#[test]
fn event_at_with_short_payload_is_truncated() {
    let reg = transfer_registry();
    let payload = transfer_payload();
    let raw = envelope("Transfer", &payload[..payload.len() - 2]);
    let r = decode_stored_event(&raw, &reg);
    assert!(matches!(
        r,
        Err(ToolkitError::FieldDecodeError { cause: FieldError::TruncatedInput, .. })
    ));
}

#[test]
fn stored_record_with_bad_envelope_is_an_error() {
    let reg = transfer_registry();
    assert_eq!(decode_stored_event(&[0u8, 1], &reg), Err(ToolkitError::MalformedEnvelope));
}

#[test]
fn count_is_a_four_byte_integer() {
    assert_eq!(decode_count(&FieldType::U32, &[5u8, 1, 0, 0]), Ok(261));
    assert_eq!(decode_count(&FieldType::U32, &[5u8, 1, 0]), Err(ToolkitError::TruncatedInput));
    assert_eq!(decode_count(&FieldType::U32, &[5u8, 1, 0, 0, 0]), Err(ToolkitError::TrailingBytes));
}

#[test]
fn count_of_another_type_is_rejected() {
    assert_eq!(decode_count(&FieldType::I32, &[5u8, 1, 0, 0]), Err(ToolkitError::TypeMismatch));
    assert_eq!(decode_count(&FieldType::Str, &[0u8, 0, 0, 0]), Err(ToolkitError::TypeMismatch));
}

#[test]
fn keys_are_read_in_the_ledger_form() {
    let mut buf = vec![1u8];
    buf.extend_from_slice(&[0xabu8; 32]);
    buf.push(9);
    let expected = format!("hash-{}", "ab".repeat(32));
    assert_eq!(decode_field(&FieldType::Key, &buf, 0), Ok((Value::Key(expected), 33)));
    let mut account = vec![0u8];
    account.extend_from_slice(&[1u8; 32]);
    let expected = format!("account-hash-{}", "01".repeat(32));
    assert_eq!(decode_field(&FieldType::Key, &account, 0), Ok((Value::Key(expected), 33)));
}

#[test]
fn broken_keys_are_rejected() {
    assert_eq!(decode_field(&FieldType::Key, &[1u8, 0, 0], 0), Err(FieldError::TruncatedInput));
    assert_eq!(decode_field(&FieldType::Key, &[], 0), Err(FieldError::TruncatedInput));
    assert_eq!(decode_field(&FieldType::Key, &[200u8, 0, 0], 0), Err(FieldError::InvalidValue));
}

#[test]
fn clients_point_at_their_endpoints() {
    assert_eq!(CasperClient::new("http://localhost:7777/rpc").rpc_endpoint(), "http://localhost:7777/rpc");
    assert_eq!(CasperClient::default_mainnet().rpc_endpoint(), "https://mainnet.casper-node.xyz/rpc");
    assert_eq!(CasperClient::default_testnet().rpc_endpoint(), "https://testnet.casper-node.xyz/rpc");
}

#[test]
fn nested_event_round_trips() {
    let mut reg = SchemaRegistry::new();
    reg.insert(EventSchema {
        name: "Batch".to_string(),
        fields: vec![
            ("ids".to_string(), FieldType::List(Box::new(FieldType::I64))),
            (
                "owners".to_string(),
                FieldType::Dict(Box::new(FieldType::U32), Box::new(FieldType::Bytes)),
            ),
            ("done".to_string(), FieldType::Unit),
        ],
    });
    let mut payload = 2u32.to_le_bytes().to_vec();
    payload.extend_from_slice(&(-1i64).to_le_bytes());
    payload.extend_from_slice(&7i64.to_le_bytes());
    payload.extend_from_slice(&1u32.to_le_bytes());
    payload.extend_from_slice(&9u32.to_le_bytes());
    payload.extend_from_slice(&lp(&[1, 2, 3]));
    let raw = envelope("Batch", &payload);
    let expected = Event {
        name: "Batch".to_string(),
        fields: vec![
            ("ids".to_string(), Value::List(vec![Value::I64(-1), Value::I64(7)])),
            (
                "owners".to_string(),
                Value::Dict(vec![(Value::U32(9), Value::Bytes(vec![1, 2, 3]))]),
            ),
            ("done".to_string(), Value::Unit),
        ],
    };
    assert_eq!(decode_stored_event(&raw, &reg), Ok(expected));
}
