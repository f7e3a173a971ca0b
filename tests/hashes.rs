use ces_fetcher::error::ToolkitError;
use ces_fetcher::hash::parse_hash;

#[test]
fn hash_text_is_read_as_bytes() {
    let text = "00ff10Ab".repeat(8);
    let h = parse_hash(text.as_bytes()).unwrap();
    assert_eq!(h.len(), 32);
    assert_eq!(&h[..4], &[0x00, 0xff, 0x10, 0xab]);
}

#[test]
fn bad_hash_text_is_rejected() {
    assert_eq!(parse_hash(b"abcd"), Err(ToolkitError::InvalidHash));
    let mut text = "0".repeat(63);
    text.push('g');
    assert_eq!(parse_hash(text.as_bytes()), Err(ToolkitError::InvalidHash));
}
