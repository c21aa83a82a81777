//! The EVM chain provider surface: construction and the balance assembly
//! that follows a fetch. The JSON-RPC transport itself lives outside the
//! library, which only ever sees the raw amounts it returns.
use vstd::prelude::*;

use crate::digits::{
    all_digits, digit_char, digit_to_char, digit_val, digits_to_nat, is_digit,
    lemma_canonical_digits, nat_to_digits, pow10, string_from_chars,
};
use crate::types::{Balance, Token};

verus! {

/// One of the characters a hex quantity may hold.
pub open spec fn is_hex_digit(c: char) -> bool {
    ('0' <= c && c <= '9') || ('a' <= c && c <= 'f') || ('A' <= c && c <= 'F')
}

/// The numeric value of a hex digit character.
pub open spec fn hex_digit_val(c: char) -> nat {
    if '0' <= c && c <= '9' {
        (c as int - '0' as int) as nat
    } else if 'a' <= c && c <= 'f' {
        (c as int - 'a' as int + 10) as nat
    } else {
        (c as int - 'A' as int + 10) as nat
    }
}

pub open spec fn all_hex_digits(s: Seq<char>) -> bool {
    forall|i: int| 0 <= i < s.len() ==> is_hex_digit(#[trigger] s[i])
}

/// The value of a hex digit string read in base 16.
pub open spec fn hex_digits_value(s: Seq<char>) -> nat
    decreases s.len(),
{
    if s.len() == 0 {
        0
    } else {
        hex_digits_value(s.drop_last()) * 16 + hex_digit_val(s.last())
    }
}

/// The value of a nonempty all-hex string, if it is one.
pub open spec fn hex_quantity_value(s: Seq<char>) -> Option<nat> {
    if s.len() > 0 && all_hex_digits(s) {
        Some(hex_digits_value(s))
    } else {
        None
    }
}

/// The value of a little-endian vector of decimal digits.
pub open spec fn le_digits_value(v: Seq<u8>) -> nat
    decreases v.len(),
{
    if v.len() == 0 {
        0
    } else {
        v[0] as nat + 10 * le_digits_value(v.drop_first())
    }
}

pub open spec fn le_digits_wf(v: Seq<u8>) -> bool {
    forall|i: int| 0 <= i < v.len() ==> (#[trigger] v[i]) < 10
}

proof fn lemma_le_push(v: Seq<u8>, x: u8)
    ensures
        le_digits_value(v.push(x)) == le_digits_value(v) + x as nat * pow10(v.len()),
    decreases v.len(),
{
    if v.len() == 0 {
        assert(v.push(x).drop_first() =~= Seq::<u8>::empty());
        assert(le_digits_value(Seq::<u8>::empty()) == 0);
        assert(pow10(0nat) == 1);
        assert(x as nat * 1 == x as nat) by (nonlinear_arith);
    } else {
        assert(v.push(x).drop_first() =~= v.drop_first().push(x));
        lemma_le_push(v.drop_first(), x);
        let a = le_digits_value(v.drop_first());
        let p = pow10((v.len() - 1) as nat);
        assert(pow10(v.len()) == 10 * p);
        assert(10 * (a + x as nat * p) == 10 * a + x as nat * (10 * p)) by (nonlinear_arith);
    }
}

fn hex_char_val(c: char) -> (r: Option<u8>)
    ensures
        r is Some <==> is_hex_digit(c),
        r is Some ==> r->0 as nat == hex_digit_val(c) && r->0 < 16,
{
    let code = c as u32;
    if 48 <= code && code <= 57 {
        Some((code - 48) as u8)
    } else if 97 <= code && code <= 102 {
        Some((code - 97 + 10) as u8)
    } else if 65 <= code && code <= 70 {
        Some((code - 65 + 10) as u8)
    } else {
        None
    }
}

/// One step of reading a hex string into decimal digits: multiply the
/// little-endian decimal digits by 16 and add the next hex digit's value.
fn mul16_add(v: &Vec<u8>, d: u8) -> (r: Vec<u8>)
    requires
        le_digits_wf(v@),
        d < 16,
    ensures
        le_digits_wf(r@),
        le_digits_value(r@) == 16 * le_digits_value(v@) + d as nat,
{
    let mut out: Vec<u8> = Vec::new();
    let mut carry: u16 = d as u16;
    let mut i: usize = 0;
    proof {
        assert(v@.skip(0) =~= v@);
        assert(pow10(0nat) == 1);
    }
    while i < v.len()
        invariant
            i <= v@.len(),
            le_digits_wf(v@),
            le_digits_wf(out@),
            out@.len() == i,
            carry <= 15,
            le_digits_value(out@) + pow10(i as nat) * (carry as nat + 16 * le_digits_value(
                v@.skip(i as int),
            )) == 16 * le_digits_value(v@) + d as nat,
        decreases v@.len() - i,
    {
        let t: u16 = v[i] as u16 * 16 + carry;
        let dig: u8 = (t % 10) as u8;
        let ghost prev = out@;
        let ghost pcarry = carry as nat;
        out.push(dig);
        carry = t / 10;
        proof {
            assert(v@.skip(i as int)[0] == v@[i as int]);
            assert(v@.skip(i as int).drop_first() =~= v@.skip(i + 1 as int));
            lemma_le_push(prev, dig);
            let p = pow10(i as nat);
            let suf = le_digits_value(v@.skip(i + 1 as int));
            assert(pow10((i + 1) as nat) == 10 * p);
            assert(p * (pcarry + 16 * (v@[i as int] as nat + 10 * suf)) == dig as nat * p + (10
                * p) * (carry as nat + 16 * suf)) by (nonlinear_arith)
                requires
                    t as nat == pcarry + 16 * v@[i as int] as nat,
                    t as nat == 10 * (carry as nat) + dig as nat,
            ;
        }
        i += 1;
    }
    proof {
        assert(v@.skip(v@.len() as int) =~= Seq::<u8>::empty());
        assert(le_digits_value(Seq::<u8>::empty()) == 0);
        assert(pow10(i as nat) * (carry as nat + 0) == pow10(i as nat) * carry as nat);
    }
    while carry > 0
        invariant
            le_digits_wf(out@),
            carry <= 15,
            le_digits_value(out@) + carry as nat * pow10(out@.len() as nat) == 16
                * le_digits_value(v@) + d as nat,
        decreases carry,
    {
        let dig: u8 = (carry % 10) as u8;
        let ghost prev = out@;
        let ghost pcarry = carry as nat;
        out.push(dig);
        carry = carry / 10;
        proof {
            lemma_le_push(prev, dig);
            let p = pow10(prev.len());
            assert(pow10(out@.len() as nat) == 10 * p);
            assert(pcarry * p == dig as nat * p + (carry as nat) * (10 * p)) by (nonlinear_arith)
                requires
                    pcarry == 10 * (carry as nat) + dig as nat,
            ;
        }
    }
    proof {
        assert(le_digits_value(out@) + 0 * pow10(out@.len() as nat) == le_digits_value(out@))
            by (nonlinear_arith);
    }
    out
}

/// The digits of a little-endian vector as characters, most significant first.
pub open spec fn rev_digit_chars(v: Seq<u8>) -> Seq<char> {
    Seq::new(v.len(), |j: int| digit_char(v[v.len() - 1 - j] as nat))
}

proof fn lemma_rev_digit_chars(v: Seq<u8>)
    requires
        le_digits_wf(v),
    ensures
        all_digits(rev_digit_chars(v)),
        digits_to_nat(rev_digit_chars(v)) == le_digits_value(v),
    decreases v.len(),
{
    if v.len() == 0 {
        assert(rev_digit_chars(v) =~= Seq::<char>::empty());
        assert(digits_to_nat(Seq::<char>::empty()) == 0);
    } else {
        assert(rev_digit_chars(v).drop_last() =~= rev_digit_chars(v.drop_first()));
        lemma_rev_digit_chars(v.drop_first());
        assert(rev_digit_chars(v).last() == digit_char(v[0] as nat));
        assert(digit_val(digit_char(v[0] as nat)) == v[0] as nat);
        assert(digits_to_nat(rev_digit_chars(v)) == le_digits_value(v.drop_first()) * 10
            + v[0] as nat);
    }
}

/// Read a hex quantity, of any width, as its exact decimal numeral: the
/// 256-bit balances an EVM node returns never round through a narrower type.
/// Fails exactly on an empty string or one holding a non-hex character.
pub fn hex_to_decimal(s: &str) -> (r: Option<String>)
    ensures
        match hex_quantity_value(s@) {
            Some(n) => r matches Some(out) && out@ == nat_to_digits(n),
            None => r is None,
        },
{
    let len = s.unicode_len();
    if len == 0 {
        return None;
    }
    let mut digits_le: Vec<u8> = Vec::new();
    let mut i: usize = 0;
    proof {
        assert(s@.take(0) =~= Seq::<char>::empty());
    }
    while i < len
        invariant
            i <= len,
            len == s@.len(),
            s@.len() > 0,
            all_hex_digits(s@.take(i as int)),
            le_digits_wf(digits_le@),
            le_digits_value(digits_le@) == hex_digits_value(s@.take(i as int)),
        decreases len - i,
    {
        let c = s.get_char(i);
        proof {
            assert(s@.take(i + 1 as int).drop_last() =~= s@.take(i as int));
            assert(s@.take(i + 1 as int).last() == s@[i as int]);
        }
        match hex_char_val(c) {
            None => {
                proof {
                    assert(!all_hex_digits(s@));
                }
                return None;
            },
            Some(d) => {
                digits_le = mul16_add(&digits_le, d);
            },
        }
        i += 1;
    }
    proof {
        assert(s@.take(s@.len() as int) =~= s@);
    }
    while digits_le.len() > 0 && digits_le[digits_le.len() - 1] == 0
        invariant
            le_digits_wf(digits_le@),
            le_digits_value(digits_le@) == hex_digits_value(s@),
        decreases digits_le@.len(),
    {
        let ghost prev = digits_le@;
        digits_le.pop();
        proof {
            assert(prev =~= digits_le@.push(0));
            lemma_le_push(digits_le@, 0);
            assert(0 as nat * pow10(digits_le@.len()) == 0) by (nonlinear_arith);
        }
    }
    if digits_le.len() == 0 {
        let mut out: Vec<char> = Vec::new();
        out.push('0');
        proof {
            assert(nat_to_digits(0) =~= seq![digit_char(0nat)]);
            assert(out@ =~= nat_to_digits(0));
        }
        return Some(string_from_chars(&out));
    }
    let n = digits_le.len();
    let mut out: Vec<char> = Vec::new();
    let mut j: usize = 0;
    while j < n
        invariant
            j <= n,
            n == digits_le@.len(),
            n >= 1,
            le_digits_wf(digits_le@),
            out@.len() == j,
            forall|k: int|
                0 <= k < j ==> out@[k] == digit_char(digits_le@[n - 1 - k] as nat),
        decreases n - j,
    {
        let dv: u8 = digits_le[n - 1 - j];
        let c = digit_to_char(dv as u128);
        out.push(c);
        j += 1;
    }
    proof {
        assert(out@ =~= rev_digit_chars(digits_le@));
        lemma_rev_digit_chars(digits_le@);
        assert(digit_val(out@[0]) == digits_le@[n - 1 as int] as nat);
        assert(digits_le@[n - 1 as int] != 0);
        lemma_canonical_digits(out@);
    }
    Some(string_from_chars(&out))
}

/// Ethereum-family provider bound to a JSON-RPC endpoint.
pub struct EthereumProvider {
    pub rpc_url: String,
}

impl EthereumProvider {
    pub fn new(rpc_url: String) -> (r: EthereumProvider)
        ensures
            r.rpc_url == rpc_url,
    {
        EthereumProvider { rpc_url }
    }

    pub fn new_sepolia() -> (r: EthereumProvider)
        ensures
            r.rpc_url@ == "https://ethereum-sepolia-rpc.publicnode.com"@,
    {
        EthereumProvider {
            rpc_url: String::from_str("https://ethereum-sepolia-rpc.publicnode.com"),
        }
    }
}

/// The native balance entry for an EVM chain: ETH with 18 decimals.
pub fn eth_native_balance(raw_amount: String) -> (r: Balance)
    ensures
        r.wf(),
        r.token@ == "ETH"@,
        r.amount == raw_amount,
        r.decimals == 18,
{
    Balance::new(String::from_str("ETH"), raw_amount, 18)
}

/// A fungible-token balance entry built from a fetched raw amount.
pub fn token_balance_from_amount(token: &Token, raw_amount: String) -> (r: Balance)
    requires
        token.wf(),
    ensures
        r.wf(),
        r.token@ == token.symbol_spec(),
        r.amount == raw_amount,
        r.decimals == token.decimals_spec(),
{
    match token {
        Token::Erc20 { symbol, decimals, .. } => Balance::new(
            symbol.clone(),
            raw_amount,
            *decimals,
        ),
    }
}

} // verus!
