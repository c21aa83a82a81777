//! The error taxonomy for balance queries.
use vstd::prelude::*;

verus! {

/// Why a balance query failed. Every failure is terminal for the query:
/// nothing is retried and no partial result is reported.
#[derive(Clone, Debug)]
pub enum BalanceError {
    /// The bundled configuration could not be produced.
    ConfigError,
    /// The requested chain name is not configured.
    UnknownChain(String),
    /// The chain is configured but its type has no provider.
    UnsupportedChainType(String),
    /// The queried address does not parse for the chain.
    InvalidAddress,
    /// The RPC transport or network failed.
    ProviderUnavailable,
    /// An on-chain response could not be decoded.
    DecodeFailure,
}

} // verus!
