//! The chain-provider capability: what every supported chain family can
//! fetch, and the composite query over a token list.
use vstd::prelude::*;

use crate::errors::BalanceError;
use crate::types::{Balance, Token};

verus! {

/// A per-chain-family balance fetcher. Implement this for each blockchain.
///
/// The fetch methods reach a remote endpoint, so no success is promised;
/// the contract pins what a successful result must look like.
pub trait ChainProvider {
    /// The symbol of the chain's native currency. The default is the empty
    /// symbol; a verified implementation overrides it with its own.
    open spec fn native_symbol(&self) -> Seq<char> {
        Seq::empty()
    }

    /// Get the native token balance for an address.
    fn get_native_balance(&self, address: &str) -> (r: Result<Balance, BalanceError>)
        ensures
            r is Ok ==> r->Ok_0.wf() && r->Ok_0.token@ == self.native_symbol(),
    ;

    /// Get the balance of a specific token for an address.
    fn get_token_balance(&self, address: &str, token: &Token) -> (r: Result<
        Balance,
        BalanceError,
    >)
        requires
            token.wf(),
        ensures
            r is Ok ==> r->Ok_0.wf() && r->Ok_0.token@ == token.symbol_spec()
                && r->Ok_0.decimals == token.decimals_spec(),
    ;
}

/// Fetch the native balance first, then every listed token balance in order,
/// stopping at the first failure with no partial result.
pub fn get_all_balances<P: ChainProvider>(
    provider: &P,
    address: &str,
    tokens: &Vec<Token>,
) -> (r: Result<Vec<Balance>, BalanceError>)
    requires
        forall|i: int| 0 <= i < tokens@.len() ==> (#[trigger] tokens@[i]).wf(),
    ensures
        r is Ok ==> ({
            let out = r->Ok_0@;
            &&& out.len() == 1 + tokens@.len()
            &&& out[0].token@ == provider.native_symbol()
            &&& forall|i: int| 0 <= i < out.len() ==> (#[trigger] out[i]).wf()
            &&& forall|i: int|
                1 <= i < out.len() ==> (#[trigger] out[i]).token@ == tokens@[i - 1].symbol_spec()
            &&& forall|i: int|
                1 <= i < out.len() ==> (#[trigger] out[i]).decimals == tokens@[i
                    - 1].decimals_spec()
        }),
{
    let native = match provider.get_native_balance(address) {
        Ok(b) => b,
        Err(e) => {
            return Err(e);
        },
    };
    let mut out: Vec<Balance> = Vec::new();
    out.push(native);
    let mut i: usize = 0;
    while i < tokens.len()
        invariant
            forall|k: int| 0 <= k < tokens@.len() ==> (#[trigger] tokens@[k]).wf(),
            i <= tokens@.len(),
            out@.len() == 1 + i,
            out@[0].token@ == provider.native_symbol(),
            forall|k: int| 0 <= k < out@.len() ==> (#[trigger] out@[k]).wf(),
            forall|k: int|
                1 <= k < out@.len() ==> (#[trigger] out@[k]).token@ == tokens@[k
                    - 1].symbol_spec(),
            forall|k: int|
                1 <= k < out@.len() ==> (#[trigger] out@[k]).decimals == tokens@[k
                    - 1].decimals_spec(),
        decreases tokens@.len() - i,
    {
        let b = match provider.get_token_balance(address, &tokens[i]) {
            Ok(b) => b,
            Err(e) => {
                return Err(e);
            },
        };
        out.push(b);
        i += 1;
    }
    Ok(out)
}

/// Whether every fetch outcome succeeded.
pub open spec fn all_ok(outcomes: Seq<Result<Balance, BalanceError>>) -> bool {
    forall|i: int| 0 <= i < outcomes.len() ==> (#[trigger] outcomes[i]) is Ok
}

/// The index of the first failed outcome, or the length when all succeeded.
pub open spec fn first_err_index(outcomes: Seq<Result<Balance, BalanceError>>) -> int
    decreases outcomes.len(),
{
    if outcomes.len() == 0 {
        0
    } else if outcomes[0] is Err {
        0
    } else {
        1 + first_err_index(outcomes.drop_first())
    }
}

proof fn lemma_first_err_index(s: Seq<Result<Balance, BalanceError>>, i: int)
    requires
        0 <= i < s.len(),
        forall|k: int| 0 <= k < i ==> (#[trigger] s[k]) is Ok,
        s[i] is Err,
    ensures
        first_err_index(s) == i,
    decreases i,
{
    if i > 0 {
        assert(forall|k: int|
            0 <= k < i - 1 ==> (#[trigger] s.drop_first()[k]) == s[k + 1]);
        lemma_first_err_index(s.drop_first(), i - 1);
    }
}

/// Reassemble separately fetched outcomes into one ordered balance list:
/// the native entry first, then the token entries in their original order.
/// A single failure anywhere fails the whole aggregate with the first error
/// in order, and no partial list survives.
#[verifier::loop_isolation(false)]
pub fn aggregate_outcomes(
    native: Result<Balance, BalanceError>,
    token_outcomes: Vec<Result<Balance, BalanceError>>,
) -> (r: Result<Vec<Balance>, BalanceError>)
    ensures
        r is Ok <==> (native is Ok && all_ok(token_outcomes@)),
        r is Ok ==> ({
            let out = r->Ok_0@;
            &&& out.len() == 1 + token_outcomes@.len()
            &&& out[0] == native->Ok_0
            &&& forall|i: int|
                1 <= i < out.len() ==> (#[trigger] out[i]) == token_outcomes@[i - 1]->Ok_0
        }),
        r is Err && native is Err ==> r->Err_0 == native->Err_0,
        r is Err && native is Ok ==> r->Err_0 == token_outcomes@[first_err_index(
            token_outcomes@,
        )]->Err_0,
{
    let nb = match native {
        Ok(b) => b,
        Err(e) => {
            return Err(e);
        },
    };
    let mut out: Vec<Balance> = Vec::new();
    out.push(nb);
    let ghost orig = token_outcomes@;
    let mut rest = token_outcomes;
    let mut i: usize = 0;
    let n: usize = rest.len();
    proof {
        assert(orig.skip(0) =~= orig);
    }
    while rest.len() > 0
        invariant
            orig.len() == n,
            orig.len() == i + rest@.len(),
            rest@ == orig.skip(i as int),
            out@.len() == 1 + i,
            out@[0] == native->Ok_0,
            native is Ok,
            forall|k: int| 0 <= k < i ==> (#[trigger] orig[k]) is Ok,
            forall|k: int| 1 <= k < out@.len() ==> (#[trigger] out@[k]) == orig[k - 1]->Ok_0,
        decreases rest@.len(),
    {
        proof {
            assert(rest@[0] == orig[i as int]);
            assert(rest@.remove(0) =~= orig.skip(i + 1 as int));
        }
        let o = rest.remove(0);
        match o {
            Ok(b) => {
                out.push(b);
                i += 1;
            },
            Err(e) => {
                proof {
                    lemma_first_err_index(orig, i as int);
                    assert(!all_ok(orig)) by {
                        assert(!(orig[i as int] is Ok));
                    }
                }
                return Err(e);
            },
        }
    }
    proof {
        assert(all_ok(orig));
    }
    Ok(out)
}

} // verus!
