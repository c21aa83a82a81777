//! Balance and token values, and the fixed-point decimal formatting that
//! turns a raw integer amount into a human-readable string.
use vstd::prelude::*;

use crate::digits::{
    all_digits, dec_string_value, digit_val, digits_to_nat, is_digit, lemma_digits_len_le,
    lemma_digits_round_trip, lemma_digits_shape, lemma_pad_value, lemma_pow10_pos,
    lemma_trim_nonzero, lemma_trim_zeros, lemma_zero_seq_shape, nat_to_digits,
    parse_u128_or_zero, parsed_u128_or_zero, pow10, pow10_u128, string_from_chars, trim_zeros,
    u128_to_digit_vec, zero_seq,
};

verus! {

/// A digit string left-padded with zeros to the given width; strings already
/// that wide are unchanged.
pub open spec fn pad_left_zeros(s: Seq<char>, width: nat) -> Seq<char> {
    if s.len() >= width {
        s
    } else {
        zero_seq((width - s.len()) as nat) + s
    }
}

/// The exact decimal rendering of v / 10^d: the whole part, then — only when
/// the fractional part is nonzero — a point and the fractional digits with
/// trailing zeros removed.
pub open spec fn format_spec(v: nat, d: nat) -> Seq<char> {
    let whole = v / pow10(d);
    let frac = v % pow10(d);
    if frac == 0 {
        nat_to_digits(whole)
    } else {
        nat_to_digits(whole) + seq!['.'] + trim_zeros(pad_left_zeros(nat_to_digits(frac), d))
    }
}

/// Format a raw integer amount with the given number of decimal places.
/// A malformed or oversized amount string degrades to zero rather than
/// failing a query whose fetch already succeeded.
pub fn format_balance(amount: &str, decimals: u8) -> (r: String)
    requires
        decimals <= 38,
    ensures
        r@ == format_spec(parsed_u128_or_zero(amount@), decimals as nat),
{
    let value = parse_u128_or_zero(amount);
    let divisor = pow10_u128(decimals);
    proof {
        lemma_pow10_pos(decimals as nat);
    }
    let whole = value / divisor;
    let frac = value % divisor;
    let whole_digits = u128_to_digit_vec(whole);
    if frac == 0 {
        string_from_chars(&whole_digits)
    } else {
        proof {
            if decimals == 0 {
                assert(pow10(0nat) == 1);
            }
            lemma_digits_len_le(frac as nat, decimals as nat);
        }
        let mut frac_digits = u128_to_digit_vec(frac);
        let width = decimals as usize;
        let pad_n = width - frac_digits.len();
        let mut padded: Vec<char> = Vec::new();
        let mut j: usize = 0;
        while j < pad_n
            invariant
                j <= pad_n,
                padded@.len() == j,
                forall|q: int| 0 <= q < j ==> padded@[q] == '0',
            decreases pad_n - j,
        {
            padded.push('0');
            j += 1;
        }
        proof {
            lemma_zero_seq_shape(pad_n as nat);
            assert(padded@ =~= zero_seq(pad_n as nat));
        }
        padded.append(&mut frac_digits);
        proof {
            assert(padded@ =~= pad_left_zeros(nat_to_digits(frac as nat), decimals as nat));
        }
        let mut end = padded.len();
        proof {
            assert(padded@.take(end as int) =~= padded@);
        }
        while end > 0 && padded[end - 1] == '0'
            invariant
                end <= padded@.len(),
                trim_zeros(padded@) == trim_zeros(padded@.take(end as int)),
            decreases end,
        {
            proof {
                assert(padded@.take(end as int).last() == '0');
                assert(padded@.take(end as int).drop_last() =~= padded@.take(end - 1));
            }
            end -= 1;
        }
        proof {
            if end == 0 {
                assert(padded@.take(0) =~= Seq::<char>::empty());
            }
            assert(trim_zeros(padded@.take(end as int)) == padded@.take(end as int));
        }
        let mut out = whole_digits;
        out.push('.');
        let ghost head = nat_to_digits(whole as nat) + seq!['.'];
        proof {
            assert(out@ =~= head + padded@.take(0));
        }
        let mut i: usize = 0;
        while i < end
            invariant
                i <= end <= padded@.len(),
                out@ == head + padded@.take(i as int),
            decreases end - i,
        {
            let c = padded[i];
            out.push(c);
            proof {
                assert(head + padded@.take(i as int) + seq![c] =~= head + padded@.take(
                    i + 1 as int));
            }
            i += 1;
        }
        proof {
            assert(out@ == head + trim_zeros(padded@));
            assert(head + trim_zeros(padded@) =~= format_spec(
                parsed_u128_or_zero(amount@),
                decimals as nat,
            ));
        }
        string_from_chars(&out)
    }
}

/// The index of the first decimal point in `s`, or `s.len()` when there is none.
pub open spec fn dot_index(s: Seq<char>) -> int
    decreases s.len(),
{
    if s.len() == 0 {
        0
    } else if s[0] == '.' {
        0
    } else {
        1 + dot_index(s.drop_first())
    }
}

proof fn lemma_dot_index_all_digits(s: Seq<char>)
    requires
        all_digits(s),
    ensures
        dot_index(s) == s.len(),
    decreases s.len(),
{
    if s.len() > 0 {
        assert(is_digit(s[0]));
        assert(all_digits(s.drop_first())) by {
            assert(forall|i: int|
                0 <= i < s.drop_first().len() ==> s.drop_first()[i] == s[i + 1]);
        }
        lemma_dot_index_all_digits(s.drop_first());
    }
}

proof fn lemma_dot_index_concat(a: Seq<char>, b: Seq<char>)
    requires
        all_digits(a),
    ensures
        dot_index(a + seq!['.'] + b) == a.len(),
    decreases a.len(),
{
    let s = a + seq!['.'] + b;
    if a.len() == 0 {
        assert(s[0] == '.');
    } else {
        assert(is_digit(s[0]));
        assert(s[0] != '.');
        assert(all_digits(a.drop_first())) by {
            assert(forall|i: int|
                0 <= i < a.drop_first().len() ==> a.drop_first()[i] == a[i + 1]);
        }
        lemma_dot_index_concat(a.drop_first(), b);
        assert(s.drop_first() =~= a.drop_first() + seq!['.'] + b);
    }
}

/// Read a formatted string back: split at the first decimal point, then
/// reconstruct whole * 10^d plus the fraction padded on the right to d digits.
pub open spec fn unformat_spec(s: Seq<char>, d: nat) -> nat {
    let i = dot_index(s);
    if i == s.len() {
        digits_to_nat(s) * pow10(d)
    } else {
        let w = s.subrange(0, i);
        let f = s.subrange(i + 1, s.len() as int);
        if f.len() <= d {
            digits_to_nat(w) * pow10(d) + digits_to_nat(f) * pow10((d - f.len()) as nat)
        } else {
            0
        }
    }
}

/// Formatting round-trip: for every value and decimal count, reading the
/// formatted string back as whole and padded fraction yields the value.
pub proof fn lemma_format_round_trip(v: nat, d: nat)
    ensures
        unformat_spec(format_spec(v, d), d) == v,
{
    let p = pow10(d);
    lemma_pow10_pos(d);
    let w = v / p;
    let f = v % p;
    lemma_digits_shape(w);
    lemma_digits_round_trip(w);
    vstd::arithmetic::div_mod::lemma_fundamental_div_mod(v as int, p as int);
    assert(v == p * w + f);
    if f == 0 {
        let s = format_spec(v, d);
        assert(s == nat_to_digits(w));
        lemma_dot_index_all_digits(s);
        assert(digits_to_nat(s) * pow10(d) == w * p == v) by (nonlinear_arith)
            requires
                digits_to_nat(s) == w,
                v == p * w + f,
                f == 0,
                p == pow10(d),
        ;
    } else {
        assert(d >= 1) by {
            if d == 0 {
                assert(pow10(0nat) == 1);
            }
        }
        let wd = nat_to_digits(w);
        let fd = nat_to_digits(f);
        lemma_digits_shape(f);
        lemma_digits_round_trip(f);
        lemma_digits_len_le(f, d);
        let padded = pad_left_zeros(fd, d);
        lemma_zero_seq_shape((d - fd.len()) as nat);
        assert(padded.len() == d);
        lemma_pad_value((d - fd.len()) as nat, fd);
        assert(digits_to_nat(padded) == f);
        assert(all_digits(padded)) by {
            if fd.len() < d {
                assert(forall|i: int|
                    0 <= i < padded.len() && i < d - fd.len() ==> padded[i] == '0');
                assert(forall|i: int|
                    d - fd.len() <= i < padded.len() ==> padded[i] == fd[i - (d - fd.len())]);
            }
        }
        let t = trim_zeros(padded);
        lemma_trim_zeros(padded);
        lemma_trim_nonzero(padded);
        let k = (padded.len() - t.len()) as nat;
        assert(f == digits_to_nat(t) * pow10(k));
        let s = format_spec(v, d);
        assert(s == wd + seq!['.'] + t);
        lemma_dot_index_concat(wd, t);
        assert(dot_index(s) == wd.len());
        assert(dot_index(s) < s.len());
        assert(s.subrange(0, wd.len() as int) =~= wd);
        assert(s.subrange(wd.len() as int + 1, s.len() as int) =~= t);
        assert(t.len() <= d);
        assert((d - t.len()) as nat == k);
        assert(digits_to_nat(wd) * pow10(d) == w * p) by (nonlinear_arith)
            requires
                digits_to_nat(wd) == w,
                p == pow10(d),
        ;
        assert(w * p + f == v) by (nonlinear_arith)
            requires
                v == p * w + f,
        ;
    }
}

/// Zero-fraction elision: the formatted string contains a decimal point
/// exactly when the value has a nonzero fractional part.
pub proof fn lemma_fraction_elision(v: nat, d: nat)
    ensures
        (exists|i: int|
            0 <= i < format_spec(v, d).len() && format_spec(v, d)[i] == '.') <==> v % pow10(d)
            != 0,
{
    let p = pow10(d);
    lemma_pow10_pos(d);
    let w = v / p;
    let f = v % p;
    let s = format_spec(v, d);
    if f == 0 {
        lemma_digits_shape(w);
        assert(forall|i: int| 0 <= i < s.len() ==> is_digit(#[trigger] s[i]));
        assert(forall|i: int| 0 <= i < s.len() ==> #[trigger] s[i] != '.');
    } else {
        let wd = nat_to_digits(w);
        lemma_digits_shape(w);
        assert(s[wd.len() as int] == '.');
        assert(0 <= wd.len() < s.len());
    }
}

/// Trailing-zero trimming: when a fractional part is present it is nonempty
/// and never ends in a zero digit.
pub proof fn lemma_no_trailing_fraction_zero(v: nat, d: nat)
    requires
        v % pow10(d) != 0,
    ensures
        dot_index(format_spec(v, d)) < format_spec(v, d).len(),
        format_spec(v, d).len() - dot_index(format_spec(v, d)) >= 2,
        format_spec(v, d).last() != '0',
{
    let p = pow10(d);
    lemma_pow10_pos(d);
    let w = v / p;
    let f = v % p;
    assert(d >= 1) by {
        if d == 0 {
            assert(pow10(0nat) == 1);
        }
    }
    let wd = nat_to_digits(w);
    let fd = nat_to_digits(f);
    lemma_digits_shape(w);
    lemma_digits_shape(f);
    lemma_digits_round_trip(f);
    lemma_digits_len_le(f, d);
    let padded = pad_left_zeros(fd, d);
    lemma_zero_seq_shape((d - fd.len()) as nat);
    lemma_pad_value((d - fd.len()) as nat, fd);
    let t = trim_zeros(padded);
    lemma_trim_zeros(padded);
    lemma_trim_nonzero(padded);
    let s = format_spec(v, d);
    assert(s == wd + seq!['.'] + t);
    lemma_dot_index_concat(wd, t);
    assert(s.last() == t.last());
}

/// One token's balance: the raw integer amount as a decimal string, the
/// token's decimal count, and the cached human-readable rendering.
#[derive(Clone, Debug)]
pub struct Balance {
    pub token: String,
    pub amount: String,
    pub decimals: u8,
    pub formatted: String,
}

impl Balance {
    /// The cached rendering is exactly the formatting of (amount, decimals):
    /// it is a derived view, never independently mutated.
    pub open spec fn wf(self) -> bool {
        self.decimals <= 38 && self.formatted@ == format_spec(
            parsed_u128_or_zero(self.amount@),
            self.decimals as nat,
        )
    }

    pub fn new(token: String, amount: String, decimals: u8) -> (r: Balance)
        requires
            decimals <= 38,
        ensures
            r.token == token,
            r.amount == amount,
            r.decimals == decimals,
            r.wf(),
    {
        let formatted = format_balance(amount.as_str(), decimals);
        Balance { token, amount, decimals, formatted }
    }
}

/// A queryable token. A closed sum type: new chain-native variants can be
/// added without breaking the provider contract.
#[derive(Clone, Debug)]
pub enum Token {
    Erc20 { address: String, symbol: String, decimals: u8 },
}

impl Token {
    pub open spec fn address_spec(&self) -> Seq<char> {
        match self {
            Token::Erc20 { address, .. } => address@,
        }
    }

    pub open spec fn symbol_spec(&self) -> Seq<char> {
        match self {
            Token::Erc20 { symbol, .. } => symbol@,
        }
    }

    pub open spec fn decimals_spec(&self) -> u8 {
        match self {
            Token::Erc20 { decimals, .. } => *decimals,
        }
    }

    pub open spec fn wf(&self) -> bool {
        self.decimals_spec() <= 38
    }
}

} // verus!
