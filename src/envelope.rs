use vstd::prelude::*;
use vstd::slice::slice_to_vec;
use vstd::utf8::{decode_utf8, valid_utf8};

use crate::error::ToolkitError;
use crate::value::{read_u32, u32_at, utf8_text};

verus! {

/// The name and payload framed in a raw event record
/// `[u32 name length][name, UTF-8][payload]`, or `None` where the framing is
/// broken.
pub open spec fn envelope_spec(s: Seq<u8>) -> Option<(Seq<char>, Seq<u8>)> {
    if s.len() < 4 {
        None
    } else {
        let n = u32_at(s, 0) as int;
        if 4 + n > s.len() {
            None
        } else if !valid_utf8(s.subrange(4, 4 + n)) {
            None
        } else {
            Some((decode_utf8(s.subrange(4, 4 + n)), s.subrange(4 + n, s.len() as int)))
        }
    }
}

/// Splits a raw event record into its event name and the payload that follows.
pub fn parse_envelope(raw: &[u8]) -> (r: Result<(String, Vec<u8>), ToolkitError>)
    ensures
        match r {
            Ok((name, payload)) => envelope_spec(raw@) == Some((name@, payload@)),
            Err(e) => envelope_spec(raw@) is None && e is MalformedEnvelope,
        },
{
    let len = raw.len();
    if len < 4 {
        return Err(ToolkitError::MalformedEnvelope);
    }
    let n = read_u32(raw, 0) as usize;
    if len - 4 < n {
        return Err(ToolkitError::MalformedEnvelope);
    }
    match utf8_text(&raw[4..4 + n]) {
        Some(name) => Ok((name, slice_to_vec(&raw[4 + n..len]))),
        None => Err(ToolkitError::MalformedEnvelope),
    }
}

} // verus!
