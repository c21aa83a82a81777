//! The Solana chain provider surface: summing an address's token accounts
//! for one mint. The RPC transport lives outside the library; the account
//! payloads it returns are decoded and summed here.
use vstd::prelude::*;

use spl_token::solana_program::program_pack::Pack;

use crate::digits::{
    dec_string_value, nat_to_digits, parse_u64_decimal, string_from_chars, u128_to_digit_vec,
};
use crate::errors::BalanceError;
use crate::types::{Balance, Token};

verus! {

/// Solana provider bound to a JSON-RPC endpoint.
pub struct SolanaProvider {
    pub rpc_url: String,
}

impl SolanaProvider {
    pub fn new(rpc_url: String) -> (r: SolanaProvider)
        ensures
            r.rpc_url == rpc_url,
    {
        SolanaProvider { rpc_url }
    }

    pub fn new_devnet() -> (r: SolanaProvider)
        ensures
            r.rpc_url@ == "https://api.devnet.solana.com"@,
    {
        SolanaProvider { rpc_url: String::from_str("https://api.devnet.solana.com") }
    }
}

/// One token account's data as an RPC node reports it: either base64-encoded
/// binary account bytes, or the amount string found in a pre-parsed JSON
/// account (absent when the node's JSON had no readable amount).
#[derive(Clone, Debug)]
pub enum TokenAccountData {
    Binary(String),
    Parsed(Option<String>),
}

/// What base64 decoding yields on a given string, if anything; the decoding
/// is a function of the input alone.
pub uninterp spec fn base64_decoded(s: Seq<char>) -> Option<Seq<u8>>;

/// The token amount unpacked from a token account's bytes, if the bytes form
/// a valid, initialized account; a function of the bytes alone.
pub uninterp spec fn spl_account_amount(data: Seq<u8>) -> Option<u64>;

/// Relies on base64's `STANDARD` engine `decode`: deterministic in the input
/// string, `Err` exactly on strings that are not standard base64.
#[verifier::external_body]
fn decode_base64(s: &String) -> (r: Option<Vec<u8>>)
    ensures
        r matches Some(v) ==> base64_decoded(s@) == Some(v@),
        r is None ==> base64_decoded(s@) is None,
{
    base64::Engine::decode(&base64::engine::general_purpose::STANDARD, s.as_str()).ok()
}

/// Relies on spl_token's `Account::unpack`: deterministic in the account
/// bytes, rejecting any slice that is not exactly 165 bytes or does not
/// parse as an initialized token account.
#[verifier::external_body]
#[allow(deprecated)]
fn unpack_token_amount(data: &Vec<u8>) -> (r: Option<u64>)
    ensures
        r == spl_account_amount(data@),
        data@.len() != 165 ==> r is None,
{
    spl_token::state::Account::unpack(data.as_slice()).ok().map(|a| a.amount)
}

/// The amount read from one reported token account, or nothing when the
/// account is malformed: binary payloads are base64-decoded and unpacked,
/// parsed payloads are read as decimal u64 strings.
pub open spec fn account_amount(a: TokenAccountData) -> Option<u64> {
    match a {
        TokenAccountData::Binary(s) => match base64_decoded(s@) {
            Some(bytes) => spl_account_amount(bytes),
            None => None,
        },
        TokenAccountData::Parsed(opt) => match opt {
            Some(s) => match dec_string_value(s@) {
                Some(n) => if n <= u64::MAX {
                    Some(n as u64)
                } else {
                    None
                },
                None => None,
            },
            None => None,
        },
    }
}

/// Whether every reported token account decodes to an amount.
pub open spec fn all_readable(accounts: Seq<TokenAccountData>) -> bool {
    forall|i: int| 0 <= i < accounts.len() ==> account_amount(#[trigger] accounts[i]) is Some
}

/// The sum of the accounts' readable amounts. The summing functions succeed
/// only when every account is readable, so on their success this is the
/// full total over all the accounts.
pub open spec fn amounts_total(accounts: Seq<TokenAccountData>) -> nat
    decreases accounts.len(),
{
    if accounts.len() == 0 {
        0
    } else {
        amounts_total(accounts.drop_last()) + (match account_amount(accounts.last()) {
            Some(v) => v as nat,
            None => 0nat,
        })
    }
}

/// Sum the amounts across all token accounts an address holds for one mint.
/// An address may hold several accounts for the same mint, so every account
/// is counted, not just the first; a single malformed or undecodable account
/// fails the whole query rather than silently under-counting.
pub fn sum_token_account_amounts(accounts: &Vec<TokenAccountData>) -> (r: Result<
    u128,
    BalanceError,
>)
    ensures
        r is Ok <==> all_readable(accounts@),
        r is Ok ==> r->Ok_0 as nat == amounts_total(accounts@),
        r is Err ==> r->Err_0 == BalanceError::DecodeFailure,
{
    let mut total: u128 = 0;
    let mut i: usize = 0;
    proof {
        assert(accounts@.take(0) =~= Seq::<TokenAccountData>::empty());
    }
    while i < accounts.len()
        invariant
            i <= accounts@.len(),
            forall|k: int| 0 <= k < i ==> account_amount(#[trigger] accounts@[k]) is Some,
            total as nat == amounts_total(accounts@.take(i as int)),
            total as nat <= i as nat * (u64::MAX as nat),
        decreases accounts@.len() - i,
    {
        let a = &accounts[i];
        let amt: Option<u64> = match a {
            TokenAccountData::Binary(s) => match decode_base64(s) {
                Some(bytes) => unpack_token_amount(&bytes),
                None => None,
            },
            TokenAccountData::Parsed(opt) => match opt {
                Some(s) => parse_u64_decimal(s.as_str()),
                None => None,
            },
        };
        proof {
            assert(accounts@.take(i + 1 as int).drop_last() =~= accounts@.take(i as int));
            assert(accounts@.take(i + 1 as int).last() == accounts@[i as int]);
            assert(amt == account_amount(accounts@[i as int]));
            let m = u64::MAX as nat;
            assert((i as nat + 1) * m == i as nat * m + m) by (nonlinear_arith);
            assert((i as nat + 1) * m <= 0x10000000000000000 * m) by (nonlinear_arith)
                requires
                    i as nat + 1 <= 0x10000000000000000,
            ;
        }
        match amt {
            Some(v) => {
                total = total + v as u128;
            },
            None => {
                proof {
                    assert(!all_readable(accounts@)) by {
                        assert(account_amount(accounts@[i as int]) is None);
                    }
                }
                return Err(BalanceError::DecodeFailure);
            },
        }
        i += 1;
    }
    proof {
        assert(accounts@.take(accounts@.len() as int) =~= accounts@);
    }
    Ok(total)
}

/// The summed balance entry over all of an address's token accounts for one
/// mint, under the token's symbol and decimals. A malformed or undecodable
/// account fails the query with a decode error, which the caller propagates;
/// it is never converted to a zero balance.
pub fn token_balance_from_accounts(token: &Token, accounts: &Vec<TokenAccountData>) -> (r:
    Result<Balance, BalanceError>)
    requires
        token.wf(),
    ensures
        r is Ok <==> all_readable(accounts@),
        r matches Ok(b) ==> b.wf() && b.token@ == token.symbol_spec() && b.amount@
            == nat_to_digits(amounts_total(accounts@)) && b.decimals == token.decimals_spec(),
        r is Err ==> r->Err_0 == BalanceError::DecodeFailure,
{
    let total = match sum_token_account_amounts(accounts) {
        Ok(t) => t,
        Err(e) => {
            return Err(e);
        },
    };
    let digit_vec = u128_to_digit_vec(total);
    let amount = string_from_chars(&digit_vec);
    match token {
        Token::Erc20 { symbol, decimals, .. } => Ok(
            Balance::new(symbol.clone(), amount, *decimals),
        ),
    }
}

/// The native balance entry for a Solana chain: SOL with 9 decimals, from a
/// lamport count.
pub fn sol_native_balance(lamports: u64) -> (r: Balance)
    ensures
        r.wf(),
        r.token@ == "SOL"@,
        r.amount@ == nat_to_digits(lamports as nat),
        r.decimals == 9,
{
    let digit_vec = u128_to_digit_vec(lamports as u128);
    Balance::new(String::from_str("SOL"), string_from_chars(&digit_vec), 9)
}

} // verus!
