//! Decimal numerals: the mathematical model of base-10 digit strings and
//! the verified conversions between integers and those strings.
use vstd::prelude::*;

verus! {

/// 10^e as a mathematical integer.
pub open spec fn pow10(e: nat) -> nat
    decreases e,
{
    if e == 0 {
        1
    } else {
        10 * pow10((e - 1) as nat)
    }
}

pub proof fn lemma_pow10_pos(e: nat)
    ensures
        pow10(e) >= 1,
    decreases e,
{
    if e > 0 {
        lemma_pow10_pos((e - 1) as nat);
    }
}

pub proof fn lemma_pow10_mono(a: nat, b: nat)
    requires
        a <= b,
    ensures
        pow10(a) <= pow10(b),
    decreases b,
{
    if a < b {
        lemma_pow10_mono(a, (b - 1) as nat);
        lemma_pow10_pos((b - 1) as nat);
    }
}

pub open spec fn is_digit(c: char) -> bool {
    '0' <= c && c <= '9'
}

/// The numeric value of a digit character.
pub open spec fn digit_val(c: char) -> nat {
    (c as int - '0' as int) as nat
}

/// The character for a digit value below ten.
pub open spec fn digit_char(d: nat) -> char {
    if d == 0 {
        '0'
    } else if d == 1 {
        '1'
    } else if d == 2 {
        '2'
    } else if d == 3 {
        '3'
    } else if d == 4 {
        '4'
    } else if d == 5 {
        '5'
    } else if d == 6 {
        '6'
    } else if d == 7 {
        '7'
    } else if d == 8 {
        '8'
    } else {
        '9'
    }
}

/// The canonical decimal numeral of `n`: no leading zeros, and `"0"` for zero.
pub open spec fn nat_to_digits(n: nat) -> Seq<char>
    decreases n,
{
    if n < 10 {
        seq![digit_char(n)]
    } else {
        nat_to_digits(n / 10).push(digit_char(n % 10))
    }
}

/// The value of a digit string read in base 10.
pub open spec fn digits_to_nat(s: Seq<char>) -> nat
    decreases s.len(),
{
    if s.len() == 0 {
        0
    } else {
        digits_to_nat(s.drop_last()) * 10 + digit_val(s.last())
    }
}

pub open spec fn all_digits(s: Seq<char>) -> bool {
    forall|i: int| 0 <= i < s.len() ==> is_digit(#[trigger] s[i])
}

/// Reading back the canonical numeral of `n` yields `n`.
pub proof fn lemma_digits_round_trip(n: nat)
    ensures
        digits_to_nat(nat_to_digits(n)) == n,
    decreases n,
{
    if n < 10 {
        assert(seq![digit_char(n)].drop_last() =~= Seq::<char>::empty());
        assert(digits_to_nat(Seq::<char>::empty()) == 0);
        assert(digits_to_nat(seq![digit_char(n)]) == digit_val(digit_char(n)));
    } else {
        lemma_digits_round_trip(n / 10);
        let s = nat_to_digits(n / 10);
        assert(s.push(digit_char(n % 10)).drop_last() =~= s);
    }
}

/// A canonical numeral is nonempty and consists of digits only.
pub proof fn lemma_digits_shape(n: nat)
    ensures
        nat_to_digits(n).len() >= 1,
        all_digits(nat_to_digits(n)),
    decreases n,
{
    if n >= 10 {
        lemma_digits_shape(n / 10);
    }
}

/// A value below 10^d has a numeral of at most d digits (for d >= 1).
pub proof fn lemma_digits_len_le(n: nat, d: nat)
    requires
        1 <= d,
        n < pow10(d),
    ensures
        nat_to_digits(n).len() <= d,
    decreases d,
{
    if n < 10 {
    } else {
        assert(d >= 2) by {
            if d == 1 {
                assert(pow10(0nat) == 1);
                assert(pow10(1nat) == 10);
            }
        }
        assert(pow10(d) == 10 * pow10((d - 1) as nat));
        assert(n / 10 < pow10((d - 1) as nat)) by (nonlinear_arith)
            requires
                n < 10 * pow10((d - 1) as nat),
        ;
        lemma_digits_len_le(n / 10, (d - 1) as nat);
    }
}

/// A digit string without a leading zero holds at least 10^(len-1).
pub proof fn lemma_digits_lower_bound(s: Seq<char>)
    requires
        all_digits(s),
        s.len() >= 1,
        digit_val(s[0]) >= 1,
    ensures
        digits_to_nat(s) >= pow10((s.len() - 1) as nat),
    decreases s.len(),
{
    if s.len() == 1 {
        assert(s.drop_last() =~= Seq::<char>::empty());
        assert(digits_to_nat(Seq::<char>::empty()) == 0);
        assert(pow10(0nat) == 1);
    } else {
        assert(s.drop_last()[0] == s[0]);
        lemma_digits_lower_bound(s.drop_last());
        assert(pow10((s.len() - 1) as nat) == 10 * pow10((s.len() - 2) as nat));
    }
}

/// A nonempty digit string without a leading zero (or the single digit
/// zero itself) is the canonical numeral of its own value.
pub proof fn lemma_canonical_digits(s: Seq<char>)
    requires
        all_digits(s),
        s.len() >= 1,
        s.len() == 1 || digit_val(s[0]) >= 1,
    ensures
        nat_to_digits(digits_to_nat(s)) == s,
    decreases s.len(),
{
    let n = digits_to_nat(s);
    if s.len() == 1 {
        assert(s.drop_last() =~= Seq::<char>::empty());
        assert(digits_to_nat(Seq::<char>::empty()) == 0);
        assert(n == digit_val(s[0]));
        assert(is_digit(s[0]));
        assert(digit_char(digit_val(s[0])) == s[0]);
        assert(nat_to_digits(n) =~= s);
    } else {
        let dl = s.drop_last();
        assert(dl[0] == s[0]);
        lemma_digits_lower_bound(dl);
        lemma_pow10_pos((dl.len() - 1) as nat);
        assert(n == digits_to_nat(dl) * 10 + digit_val(s.last()));
        assert(digits_to_nat(dl) >= 1);
        assert(n >= 10) by (nonlinear_arith)
            requires
                n == digits_to_nat(dl) * 10 + digit_val(s.last()),
                digits_to_nat(dl) >= 1,
        ;
        assert(n / 10 == digits_to_nat(dl) && n % 10 == digit_val(s.last()))
            by (nonlinear_arith)
            requires
                n == digits_to_nat(dl) * 10 + digit_val(s.last()),
                digit_val(s.last()) < 10,
        ;
        lemma_canonical_digits(dl);
        assert(nat_to_digits(n) == nat_to_digits(n / 10).push(digit_char(n % 10)));
        assert(is_digit(s.last()));
        assert(digit_char(digit_val(s.last())) == s.last());
        assert(dl.push(s.last()) =~= s);
    }
}

/// A sequence of k zero characters.
pub open spec fn zero_seq(k: nat) -> Seq<char>
    decreases k,
{
    if k == 0 {
        Seq::empty()
    } else {
        seq!['0'] + zero_seq((k - 1) as nat)
    }
}

pub proof fn lemma_zero_seq_shape(k: nat)
    ensures
        zero_seq(k).len() == k,
        forall|i: int| 0 <= i < k ==> zero_seq(k)[i] == '0',
    decreases k,
{
    if k > 0 {
        lemma_zero_seq_shape((k - 1) as nat);
    }
}

proof fn lemma_leading_zero_value(s: Seq<char>)
    ensures
        digits_to_nat(seq!['0'] + s) == digits_to_nat(s),
    decreases s.len(),
{
    if s.len() == 0 {
        assert(seq!['0'] + s =~= seq!['0']);
        assert(seq!['0'].drop_last() =~= Seq::<char>::empty());
        assert(digits_to_nat(Seq::<char>::empty()) == 0);
        assert(digits_to_nat(seq!['0']) == digit_val('0'));
    } else {
        lemma_leading_zero_value(s.drop_last());
        assert((seq!['0'] + s).drop_last() =~= seq!['0'] + s.drop_last());
        assert((seq!['0'] + s).last() == s.last());
    }
}

/// Leading zeros do not change the value of a digit string.
pub proof fn lemma_pad_value(k: nat, s: Seq<char>)
    ensures
        digits_to_nat(zero_seq(k) + s) == digits_to_nat(s),
    decreases k,
{
    if k == 0 {
        assert(zero_seq(0nat) + s =~= s);
    } else {
        lemma_pad_value((k - 1) as nat, s);
        assert(zero_seq(k) + s =~= seq!['0'] + (zero_seq((k - 1) as nat) + s));
        lemma_leading_zero_value(zero_seq((k - 1) as nat) + s);
    }
}

/// The digit string with its trailing zero characters removed.
pub open spec fn trim_zeros(s: Seq<char>) -> Seq<char>
    decreases s.len(),
{
    if s.len() > 0 && s.last() == '0' {
        trim_zeros(s.drop_last())
    } else {
        s
    }
}

/// Trimming removes trailing zeros only: the value scales back exactly,
/// the result never ends in a zero, and digits remain digits.
pub proof fn lemma_trim_zeros(s: Seq<char>)
    ensures
        trim_zeros(s).len() <= s.len(),
        digits_to_nat(s) == digits_to_nat(trim_zeros(s)) * pow10((s.len() - trim_zeros(s).len()) as nat),
        trim_zeros(s).len() > 0 ==> trim_zeros(s).last() != '0',
        all_digits(s) ==> all_digits(trim_zeros(s)),
    decreases s.len(),
{
    if s.len() > 0 && s.last() == '0' {
        lemma_trim_zeros(s.drop_last());
        let t = trim_zeros(s);
        let k = (s.len() - 1 - t.len()) as nat;
        assert(digit_val('0') == 0);
        assert(digits_to_nat(s) == digits_to_nat(s.drop_last()) * 10);
        assert(pow10(k + 1) == 10 * pow10(k));
        assert((digits_to_nat(t) * pow10(k)) * 10 == digits_to_nat(t) * (10 * pow10(k)))
            by (nonlinear_arith);
        if all_digits(s) {
            assert(all_digits(s.drop_last()));
        }
    } else {
        assert(digits_to_nat(s) == digits_to_nat(s) * 1);
    }
}

/// A digit string with nonzero value does not trim away entirely.
pub proof fn lemma_trim_nonzero(s: Seq<char>)
    requires
        digits_to_nat(s) != 0,
    ensures
        trim_zeros(s).len() > 0,
{
    lemma_trim_zeros(s);
    let t = trim_zeros(s);
    if t.len() == 0 {
        assert(digits_to_nat(t) == 0);
        assert(digits_to_nat(s) == digits_to_nat(t) * pow10((s.len() - t.len()) as nat));
        assert(digits_to_nat(t) * pow10((s.len() - t.len()) as nat) == 0) by (nonlinear_arith)
            requires
                digits_to_nat(t) == 0,
        ;
    }
}

/// A nonempty digit string parsed whole: its value, or nothing when empty
/// or when any character is not a digit.
pub open spec fn dec_digits_value(s: Seq<char>) -> Option<nat> {
    if s.len() > 0 && all_digits(s) {
        Some(digits_to_nat(s))
    } else {
        None
    }
}

/// The value of a decimal integer literal: an optional leading '+',
/// then one or more digits.
pub open spec fn dec_string_value(s: Seq<char>) -> Option<nat> {
    if s.len() >= 1 && s[0] == '+' {
        dec_digits_value(s.drop_first())
    } else {
        dec_digits_value(s)
    }
}

/// The defensive reading of a numeric string: its value when it is a valid
/// decimal literal that fits in a u128, and zero otherwise.
pub open spec fn parsed_u128_or_zero(s: Seq<char>) -> nat {
    match dec_string_value(s) {
        Some(n) => if n <= u128::MAX { n } else { 0 },
        None => 0,
    }
}

fn char_digit(c: char) -> (r: Option<u8>)
    ensures
        r is Some <==> is_digit(c),
        r is Some ==> r->0 as nat == digit_val(c),
{
    match c {
        '0' => Some(0u8),
        '1' => Some(1u8),
        '2' => Some(2u8),
        '3' => Some(3u8),
        '4' => Some(4u8),
        '5' => Some(5u8),
        '6' => Some(6u8),
        '7' => Some(7u8),
        '8' => Some(8u8),
        '9' => Some(9u8),
        _ => None,
    }
}

pub(crate) fn digit_to_char(d: u128) -> (c: char)
    requires
        d < 10,
    ensures
        c == digit_char(d as nat),
{
    if d == 0 {
        '0'
    } else if d == 1 {
        '1'
    } else if d == 2 {
        '2'
    } else if d == 3 {
        '3'
    } else if d == 4 {
        '4'
    } else if d == 5 {
        '5'
    } else if d == 6 {
        '6'
    } else if d == 7 {
        '7'
    } else if d == 8 {
        '8'
    } else {
        '9'
    }
}

/// Parse a decimal integer literal, rejecting anything malformed or too
/// large for a u128.
pub fn parse_decimal(s: &str) -> (r: Option<u128>)
    ensures
        match dec_string_value(s@) {
            Some(n) => if n <= u128::MAX {
                r == Some(n as u128)
            } else {
                r is None
            },
            None => r is None,
        },
{
    let len = s.unicode_len();
    if len == 0 {
        return None;
    }
    let first = s.get_char(0);
    let start: usize = if first == '+' {
        1
    } else {
        0
    };
    let ghost t = s@.subrange(start as int, s@.len() as int);
    proof {
        if first == '+' {
            assert(t =~= s@.drop_first());
        } else {
            assert(t =~= s@);
        }
    }
    if start == len {
        return None;
    }
    let mut acc: u128 = 0;
    let mut i: usize = start;
    while i < len
        invariant
            start <= i <= len,
            len == s@.len(),
            start < len,
            t == s@.subrange(start as int, s@.len() as int),
            all_digits(t.take((i - start) as int)),
            acc as nat == digits_to_nat(t.take((i - start) as int)),
            dec_string_value(s@) == dec_digits_value(t),
        decreases len - i,
    {
        let c = s.get_char(i);
        let ghost k = (i - start) as int;
        proof {
            assert(t[k] == s@[i as int]);
            assert(t.take(k + 1).drop_last() =~= t.take(k));
            assert(t.take(k + 1).last() == t[k]);
        }
        match char_digit(c) {
            None => {
                assert(!all_digits(t));
                return None;
            },
            Some(d) => {
                let step = match acc.checked_mul(10) {
                    Some(m) => m.checked_add(d as u128),
                    None => None,
                };
                proof {
                    assert(digits_to_nat(t.take(k + 1)) == acc as nat * 10 + digit_val(t[k]));
                }
                match step {
                    None => {
                        proof {
                            assert(digits_to_nat(t.take(k + 1)) > u128::MAX);
                            lemma_digits_prefix_le(t, k + 1);
                            assert(digits_to_nat(t) > u128::MAX);
                        }
                        return None;
                    },
                    Some(next) => {
                        acc = next;
                    },
                }
            },
        }
        i += 1;
    }
    proof {
        assert(t.take((len - start) as int) =~= t);
    }
    Some(acc)
}

/// The defensive u128 reading: a malformed or oversized literal reads as zero.
pub fn parse_u128_or_zero(s: &str) -> (r: u128)
    ensures
        r as nat == parsed_u128_or_zero(s@),
{
    match parse_decimal(s) {
        Some(v) => v,
        None => 0,
    }
}

/// Parse a decimal literal as a u64, rejecting anything malformed or too large.
pub fn parse_u64_decimal(s: &str) -> (r: Option<u64>)
    ensures
        match dec_string_value(s@) {
            Some(n) => if n <= u64::MAX {
                r == Some(n as u64)
            } else {
                r is None
            },
            None => r is None,
        },
{
    match parse_decimal(s) {
        Some(v) => if v <= u64::MAX as u128 {
            Some(v as u64)
        } else {
            None
        },
        None => None,
    }
}

/// The canonical numeral of `n` as a vector of digit characters.
pub fn u128_to_digit_vec(n: u128) -> (r: Vec<char>)
    ensures
        r@ == nat_to_digits(n as nat),
{
    let mut out: Vec<char> = Vec::new();
    let mut cur: u128 = n;
    while cur >= 10
        invariant
            nat_to_digits(n as nat) == nat_to_digits(cur as nat) + out@,
        decreases cur,
    {
        let c = digit_to_char(cur % 10);
        let ghost prev = out@;
        out.insert(0, c);
        proof {
            let m = cur as nat;
            assert(out@ =~= seq![digit_char(m % 10)] + prev);
            assert(nat_to_digits(m) == nat_to_digits(m / 10).push(digit_char(m % 10)));
            assert(nat_to_digits(m / 10).push(digit_char(m % 10)) + prev =~= nat_to_digits(m / 10)
                + out@);
        }
        cur = cur / 10;
    }
    let c = digit_to_char(cur);
    let ghost prev = out@;
    out.insert(0, c);
    proof {
        assert(out@ =~= seq![digit_char(cur as nat)] + prev);
        assert(nat_to_digits(cur as nat) =~= seq![digit_char(cur as nat)]);
        assert(nat_to_digits(cur as nat) + prev =~= seq![digit_char(cur as nat)] + prev);
        assert(out@ == nat_to_digits(n as nat));
    }
    out
}

/// 10^e as a u128; e is small enough that the power fits.
pub fn pow10_u128(e: u8) -> (r: u128)
    requires
        e <= 38,
    ensures
        r as nat == pow10(e as nat),
{
    let mut r: u128 = 1;
    let mut i: u8 = 0;
    while i < e
        invariant
            i <= e <= 38,
            r as nat == pow10(i as nat),
        decreases e - i,
    {
        proof {
            lemma_pow10_mono((i + 1) as nat, 38nat);
            lemma_pow10_38();
        }
        r = r * 10;
        i += 1;
    }
    r
}

proof fn lemma_pow10_38()
    ensures
        pow10(38nat) == 100000000000000000000000000000000000000,
{
    assert(pow10(0nat) == 1);
    assert(pow10(1nat) == 10);
    assert(pow10(2nat) == 100);
    assert(pow10(3nat) == 1000);
    assert(pow10(4nat) == 10000);
    assert(pow10(5nat) == 100000);
    assert(pow10(6nat) == 1000000);
    assert(pow10(7nat) == 10000000);
    assert(pow10(8nat) == 100000000);
    assert(pow10(9nat) == 1000000000);
    assert(pow10(10nat) == 10000000000);
    assert(pow10(11nat) == 100000000000);
    assert(pow10(12nat) == 1000000000000);
    assert(pow10(13nat) == 10000000000000);
    assert(pow10(14nat) == 100000000000000);
    assert(pow10(15nat) == 1000000000000000);
    assert(pow10(16nat) == 10000000000000000);
    assert(pow10(17nat) == 100000000000000000);
    assert(pow10(18nat) == 1000000000000000000);
    assert(pow10(19nat) == 10000000000000000000);
    assert(pow10(20nat) == 100000000000000000000);
    assert(pow10(21nat) == 1000000000000000000000);
    assert(pow10(22nat) == 10000000000000000000000);
    assert(pow10(23nat) == 100000000000000000000000);
    assert(pow10(24nat) == 1000000000000000000000000);
    assert(pow10(25nat) == 10000000000000000000000000);
    assert(pow10(26nat) == 100000000000000000000000000);
    assert(pow10(27nat) == 1000000000000000000000000000);
    assert(pow10(28nat) == 10000000000000000000000000000);
    assert(pow10(29nat) == 100000000000000000000000000000);
    assert(pow10(30nat) == 1000000000000000000000000000000);
    assert(pow10(31nat) == 10000000000000000000000000000000);
    assert(pow10(32nat) == 100000000000000000000000000000000);
    assert(pow10(33nat) == 1000000000000000000000000000000000);
    assert(pow10(34nat) == 10000000000000000000000000000000000);
    assert(pow10(35nat) == 100000000000000000000000000000000000);
    assert(pow10(36nat) == 1000000000000000000000000000000000000);
    assert(pow10(37nat) == 10000000000000000000000000000000000000);
    assert(pow10(38nat) == 100000000000000000000000000000000000000);
}

/// Relies on `core::iter::Iterator::collect`: a `String` collected from a
/// vector of characters holds exactly those characters in order.
#[verifier::external_body]
pub(crate) fn string_from_chars(chars: &Vec<char>) -> (r: String)
    ensures
        r@ == chars@,
{
    chars.iter().collect()
}

/// Character-by-character string equality.
pub fn str_eq(a: &str, b: &str) -> (r: bool)
    ensures
        r <==> a@ == b@,
{
    let alen = a.unicode_len();
    let blen = b.unicode_len();
    if alen != blen {
        return false;
    }
    let mut i: usize = 0;
    while i < alen
        invariant
            i <= alen,
            alen == a@.len(),
            alen == b@.len(),
            forall|j: int| 0 <= j < i ==> a@[j] == b@[j],
        decreases alen - i,
    {
        if a.get_char(i) != b.get_char(i) {
            return false;
        }
        i += 1;
    }
    proof {
        assert(a@ =~= b@);
    }
    true
}

/// Values of prefixes never exceed the value of the whole digit string.
pub proof fn lemma_digits_prefix_le(s: Seq<char>, k: int)
    requires
        0 <= k <= s.len(),
    ensures
        digits_to_nat(s.take(k)) <= digits_to_nat(s),
    decreases s.len(),
{
    if k < s.len() {
        assert(s.drop_last().take(k) =~= s.take(k));
        lemma_digits_prefix_le(s.drop_last(), k);
    } else {
        assert(s.take(k) =~= s);
    }
}

} // verus!
