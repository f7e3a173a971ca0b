use vstd::prelude::*;

use crate::error::ToolkitError;

verus! {

/// Length in bytes of a transaction hash.
pub const HASH_LEN: usize = 32;

/// The value of a hexadecimal digit, in either case.
pub open spec fn hex_digit(c: u8) -> Option<u8> {
    if 48 <= c <= 57 {
        Some((c - 48) as u8)
    } else if 97 <= c <= 102 {
        Some((c - 87) as u8)
    } else if 65 <= c <= 70 {
        Some((c - 55) as u8)
    } else {
        None
    }
}

/// `s` is the hexadecimal text of a hash.
pub open spec fn is_hash_text(s: Seq<u8>) -> bool {
    s.len() == 2 * HASH_LEN && forall|i: int| 0 <= i < s.len() ==> (#[trigger] hex_digit(s[i])) is Some
}

/// The byte that digits `s[2i]` and `s[2i + 1]` spell.
pub open spec fn hash_byte(s: Seq<u8>, i: int) -> u8 {
    (hex_digit(s[2 * i])->Some_0 * 16 + hex_digit(s[2 * i + 1])->Some_0) as u8
}

fn digit(c: u8) -> (r: Option<u8>)
    ensures
        r == hex_digit(c),
{
    if 48 <= c && c <= 57 {
        Some(c - 48)
    } else if 97 <= c && c <= 102 {
        Some(c - 87)
    } else if 65 <= c && c <= 70 {
        Some(c - 55)
    } else {
        None
    }
}

/// Reads a transaction hash written as 64 hexadecimal digits.
pub fn parse_hash(text: &[u8]) -> (r: Result<Vec<u8>, ToolkitError>)
    ensures
        r is Ok <==> is_hash_text(text@),
        r matches Ok(h) ==> h@.len() == HASH_LEN && forall|i: int|
            0 <= i < HASH_LEN ==> h@[i] == hash_byte(text@, i),
        r matches Err(e) ==> e is InvalidHash,
{
    if text.len() != 2 * HASH_LEN {
        return Err(ToolkitError::InvalidHash);
    }
    let mut out: Vec<u8> = Vec::new();
    let mut i: usize = 0;
    while i < HASH_LEN
        invariant
            text@.len() == 2 * HASH_LEN,
            i <= HASH_LEN,
            out@.len() == i,
            forall|j: int| 0 <= j < 2 * i ==> (#[trigger] hex_digit(text@[j])) is Some,
            forall|j: int| 0 <= j < i ==> out@[j] == hash_byte(text@, j),
        decreases HASH_LEN - i,
    {
        let hi = digit(text[2 * i]);
        let lo = digit(text[2 * i + 1]);
        match (hi, lo) {
            (Some(h), Some(l)) => {
                assert(h < 16 && l < 16);
                out.push(h * 16 + l);
                i = i + 1;
            },
            _ => {
                proof {
                    if hi is None {
                        assert(hex_digit(text@[2 * i as int]) is None);
                    } else {
                        assert(hex_digit(text@[2 * i + 1]) is None);
                    }
                }
                return Err(ToolkitError::InvalidHash);
            },
        }
    }
    Ok(out)
}

} // verus!
