//! Multi-chain balance aggregation: chain configuration lookup, balance
//! query planning, fixed-point decimal formatting, and result assembly.
mod chain;
mod config;
mod digits;
mod errors;
mod ethereum;
mod solana;
mod types;

pub use chain::{
    aggregate_outcomes, all_ok, first_err_index, get_all_balances, ChainProvider,
};
pub use config::{
    chain_lookup, sepolia_chain_pinned, solana_devnet_chain_pinned, ChainConfig, Config,
    TokenInfo,
};
pub use digits::{
    all_digits, dec_string_value, digits_to_nat, nat_to_digits, parse_decimal,
    parse_u128_or_zero, parse_u64_decimal, parsed_u128_or_zero, pow10, str_eq, trim_zeros,
    zero_seq,
};
pub use errors::BalanceError;
pub use ethereum::{
    all_hex_digits, eth_native_balance, hex_digit_val, hex_digits_value, hex_quantity_value,
    hex_to_decimal, is_hex_digit, token_balance_from_amount, EthereumProvider,
};
pub use solana::{
    account_amount, all_readable, amounts_total, base64_decoded, sol_native_balance,
    spl_account_amount,
    sum_token_account_amounts, token_balance_from_accounts, SolanaProvider, TokenAccountData,
};
pub use types::{
    dot_index, format_balance, format_spec, lemma_format_round_trip, lemma_fraction_elision,
    lemma_no_trailing_fraction_zero, pad_left_zeros, unformat_spec, Balance, Token,
};

use vstd::prelude::*;

verus! {

/// Which provider family serves a chain.
#[derive(Clone, Copy, Debug, PartialEq, Eq, Structural)]
pub enum ChainKind {
    Evm,
    Solana,
}

/// Everything decided before any fetch is made: the provider family, the
/// endpoint to reach, and the token queries in order. The native balance is
/// always fetched first and is not listed.
pub struct FetchPlan {
    pub kind: ChainKind,
    pub rpc: String,
    pub queries: Vec<Token>,
}

/// The tokens selected for fetching from a chain's configured entries:
/// every entry with a nonempty contract address, as a fungible-token query,
/// in entry order.
pub open spec fn selected_tokens(entries: Seq<(String, TokenInfo)>) -> Seq<Token>
    decreases entries.len(),
{
    if entries.len() == 0 {
        Seq::empty()
    } else {
        let front = selected_tokens(entries.drop_last());
        let e = entries.last();
        if e.1.address is Some && e.1.address->0@.len() > 0 {
            front + seq![
                Token::Erc20 { address: e.1.address->0, symbol: e.0, decimals: e.1.decimals },
            ]
        } else {
            front
        }
    }
}

/// Resolve a chain name and decide every balance query to make. Fails with
/// `UnknownChain` exactly when the name is not configured, and with
/// `UnsupportedChainType` exactly when the chain's type has no provider.
pub fn plan_balance_queries(config: &Config, chain_name: &str) -> (r: Result<
    FetchPlan,
    BalanceError,
>)
    requires
        config.wf(),
    ensures
        match config.spec_get(chain_name@) {
            None => r matches Err(BalanceError::UnknownChain(n)) && n@ == chain_name@,
            Some(c) => {
                if c.chain_type@ == "evm"@ {
                    r matches Ok(p) && p.kind == ChainKind::Evm && p.rpc@ == c.rpc@
                        && p.queries@ == selected_tokens(c.tokens@)
                } else if c.chain_type@ == "solana"@ {
                    r matches Ok(p) && p.kind == ChainKind::Solana && p.rpc@ == c.rpc@
                        && p.queries@ == selected_tokens(c.tokens@)
                } else {
                    r matches Err(BalanceError::UnsupportedChainType(t)) && t@ == c.chain_type@
                }
            },
        },
        r matches Ok(p) ==> forall|i: int|
            0 <= i < p.queries@.len() ==> (#[trigger] p.queries@[i]).wf(),
{
    let chain = match config.get_chain(chain_name) {
        Some(c) => c,
        None => {
            return Err(BalanceError::UnknownChain(chain_name.to_owned()));
        },
    };
    let kind = if str_eq(chain.chain_type.as_str(), "evm") {
        ChainKind::Evm
    } else if str_eq(chain.chain_type.as_str(), "solana") {
        ChainKind::Solana
    } else {
        return Err(BalanceError::UnsupportedChainType(chain.chain_type.clone()));
    };
    let mut queries: Vec<Token> = Vec::new();
    let mut i: usize = 0;
    proof {
        assert(chain.tokens@.take(0) =~= Seq::<(String, TokenInfo)>::empty());
        config::lemma_chain_lookup_member(config.chains@, chain_name@);
    }
    while i < chain.tokens.len()
        invariant
            i <= chain.tokens@.len(),
            queries@ == selected_tokens(chain.tokens@.take(i as int)),
            forall|k: int| 0 <= k < chain.tokens@.len() ==> (#[trigger] chain.tokens@[k]).1.wf(),
            forall|k: int| 0 <= k < queries@.len() ==> (#[trigger] queries@[k]).wf(),
        decreases chain.tokens@.len() - i,
    {
        proof {
            assert(chain.tokens@.take(i + 1 as int).drop_last() =~= chain.tokens@.take(i as int));
            assert(chain.tokens@.take(i + 1 as int).last() == chain.tokens@[i as int]);
        }
        let entry = &chain.tokens[i];
        match &entry.1.address {
            Some(addr) => {
                if !addr.as_str().is_empty() {
                    let token = Token::Erc20 {
                        address: addr.clone(),
                        symbol: entry.0.clone(),
                        decimals: entry.1.decimals,
                    };
                    let ghost prev = queries@;
                    queries.push(token);
                    proof {
                        assert(queries@ =~= prev + seq![token]);
                    }
                }
            },
            None => {},
        }
        i += 1;
    }
    proof {
        assert(chain.tokens@.take(chain.tokens@.len() as int) =~= chain.tokens@);
    }
    Ok(FetchPlan { kind, rpc: chain.rpc.clone(), queries })
}

} // verus!
