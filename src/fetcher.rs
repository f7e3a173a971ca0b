use vstd::prelude::*;

use crate::envelope::{envelope_spec, parse_envelope};
use crate::error::{ErrorView, ToolkitError};
use crate::event::{Event, EventView, decode_event, event_result, event_spec};
use crate::schema::SchemaRegistry;
use crate::value::{FieldType, read_u32, u32_at};

verus! {

pub const DEFAULT_MAINNET_RPC_ENDPOINT: &'static str = "https://mainnet.casper-node.xyz/rpc";

pub const DEFAULT_TESTNET_RPC_ENDPOINT: &'static str = "https://testnet.casper-node.xyz/rpc";

/// Where a node's RPC service is reached.
#[derive(Debug)]
pub struct CasperClient {
    rpc_endpoint: String,
}

impl CasperClient {
    /// The endpoint that requests go to.
    pub closed spec fn endpoint(&self) -> Seq<char> {
        self.rpc_endpoint@
    }

    pub fn new(rpc_endpoint: &str) -> (r: Self)
        ensures
            r.endpoint() == rpc_endpoint@,
    {
        CasperClient { rpc_endpoint: rpc_endpoint.to_owned() }
    }

    pub fn default_mainnet() -> (r: Self)
        ensures
            r.endpoint() == DEFAULT_MAINNET_RPC_ENDPOINT@,
    {
        Self::new(DEFAULT_MAINNET_RPC_ENDPOINT)
    }

    pub fn default_testnet() -> (r: Self)
        ensures
            r.endpoint() == DEFAULT_TESTNET_RPC_ENDPOINT@,
    {
        Self::new(DEFAULT_TESTNET_RPC_ENDPOINT)
    }

    pub fn rpc_endpoint(&self) -> (r: &str)
        ensures
            r@ == self.endpoint(),
    {
        self.rpc_endpoint.as_str()
    }
}

/// Storage addresses, in formatted form, of a contract's event records.
#[derive(Debug)]
pub struct CesMetadataRef {
    /// Dictionary of events, keyed by event index.
    pub events_data: String,
    /// Number of events emitted so far.
    pub events_length: String,
    /// Schema blob of the contract's events.
    pub events_schema: String,
}

/// Reads a contract's events through a storage client.
#[derive(Debug)]
pub struct Fetcher {
    pub client: CasperClient,
    pub ces_metadata: CesMetadataRef,
}

/// The event count read from a stored value of type `ty` whose bytes are
/// `s`; only a `u32` value is a count.
pub open spec fn count_spec(ty: FieldType, s: Seq<u8>) -> Result<u32, ErrorView> {
    if !(ty is U32) {
        Err(ErrorView::TypeMismatch)
    } else if s.len() < 4 {
        Err(ErrorView::TruncatedInput)
    } else if s.len() > 4 {
        Err(ErrorView::TrailingBytes)
    } else {
        Ok(u32_at(s, 0))
    }
}

/// Decodes the stored event count from the stored value's type and bytes.
pub fn decode_count(ty: &FieldType, bytes: &[u8]) -> (r: Result<u32, ToolkitError>)
    ensures
        match r {
            Ok(n) => count_spec(*ty, bytes@) == Ok::<u32, ErrorView>(n),
            Err(e) => count_spec(*ty, bytes@) == Err::<u32, ErrorView>(e@),
        },
{
    match ty {
        FieldType::U32 => {},
        _ => {
            return Err(ToolkitError::TypeMismatch);
        },
    }
    if bytes.len() < 4 {
        Err(ToolkitError::TruncatedInput)
    } else if bytes.len() > 4 {
        Err(ToolkitError::TrailingBytes)
    } else {
        Ok(read_u32(bytes, 0))
    }
}

/// What decoding a raw stored event record gives.
pub open spec fn stored_event_spec(raw: Seq<u8>, registry: SchemaRegistry) -> Result<
    EventView,
    ErrorView,
> {
    match envelope_spec(raw) {
        None => Err(ErrorView::MalformedEnvelope),
        Some((name, payload)) => event_spec(name, payload, registry.lookup(name)),
    }
}

/// Decodes an event record read from the events dictionary; every failure
/// is an error.
pub fn decode_stored_event(raw: &[u8], registry: &SchemaRegistry) -> (r: Result<
    Event,
    ToolkitError,
>)
    ensures
        event_result(r) == stored_event_spec(raw@, *registry),
{
    let (name, payload) = parse_envelope(raw)?;
    decode_event(&name, payload.as_slice(), registry)
}

} // verus!
