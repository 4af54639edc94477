//! Writing numbers in decimal.
//!
//! Two forms are used: the shortest one, for files that a machine reads, and
//! one with a fixed number of decimal places, for tables and displays.
use crate::fixed::spec_abs;
use crate::text::put_all;
use vstd::prelude::*;

verus! {

/// The digit for a number below ten.
pub open spec fn digit_char(d: int) -> char {
    seq!['0', '1', '2', '3', '4', '5', '6', '7', '8', '9'][d]
}

/// The number for a digit.
pub open spec fn digit_value(c: char) -> int {
    c as int - '0' as int
}

fn digit(d: u128) -> (r: char)
    requires
        d < 10,
    ensures
        r == digit_char(d as int),
{
    let all: [char; 10] = ['0', '1', '2', '3', '4', '5', '6', '7', '8', '9'];
    assert(all@ =~= seq!['0', '1', '2', '3', '4', '5', '6', '7', '8', '9']);
    all[d as usize]
}

/// A power of ten.
pub open spec fn pow10(k: nat) -> int
    decreases k,
{
    if k == 0 {
        1
    } else {
        10 * pow10((k - 1) as nat)
    }
}

/// The digits of a natural number.
pub open spec fn spec_digits(n: nat) -> Seq<char>
    decreases n,
{
    if n < 10 {
        seq![digit_char(n as int)]
    } else {
        spec_digits(n / 10).push(digit_char(n as int % 10))
    }
}

/// The last `p` digits of a natural number, with zeros in front.
pub open spec fn spec_padded(n: nat, p: nat) -> Seq<char>
    decreases p,
{
    if p == 0 {
        seq![]
    } else {
        spec_padded(n / 10, (p - 1) as nat).push(digit_char(n as int % 10))
    }
}

/// The same without the zeros at the end.
pub open spec fn spec_fraction(n: nat, p: nat) -> Seq<char>
    decreases p,
{
    if p == 0 {
        seq![]
    } else if n % 10 == 0 {
        spec_fraction(n / 10, (p - 1) as nat)
    } else {
        spec_padded(n, p)
    }
}

/// The number some digits stand for.
pub open spec fn spec_value(s: Seq<char>) -> int
    decreases s.len(),
{
    if s.len() == 0 {
        0
    } else {
        10 * spec_value(s.drop_last()) + digit_value(s.last())
    }
}

pub fn digits(n: u128) -> (r: Vec<char>)
    ensures
        r@ == spec_digits(n as nat),
    decreases n,
{
    if n < 10 {
        let mut v: Vec<char> = Vec::new();
        v.push(digit(n));
        assert(v@ =~= seq![digit_char(n as int)]);
        v
    } else {
        let mut v = digits(n / 10);
        v.push(digit(n % 10));
        v
    }
}

fn padded(n: u128, p: u32) -> (r: Vec<char>)
    ensures
        r@ == spec_padded(n as nat, p as nat),
    decreases p,
{
    if p == 0 {
        let v: Vec<char> = Vec::new();
        assert(v@ =~= seq![]);
        v
    } else {
        let mut v = padded(n / 10, p - 1);
        v.push(digit(n % 10));
        v
    }
}

fn fraction(n: u128, p: u32) -> (r: Vec<char>)
    ensures
        r@ == spec_fraction(n as nat, p as nat),
    decreases p,
{
    if p == 0 {
        let v: Vec<char> = Vec::new();
        assert(v@ =~= seq![]);
        v
    } else if n % 10 == 0 {
        fraction(n / 10, p - 1)
    } else {
        padded(n, p)
    }
}

fn ten_to(k: u32) -> (r: i128)
    requires
        k <= 10,
    ensures
        r == pow10(k as nat),
        1 <= r <= 10_000_000_000,
    decreases k,
{
    proof {
        lemma_pow10(k as nat);
    }
    if k == 0 {
        1
    } else {
        10 * ten_to(k - 1)
    }
}

proof fn lemma_pow10(k: nat)
    ensures
        pow10(k) >= 1,
        k <= 10 ==> pow10(k) <= 10_000_000_000,
        k <= 9 ==> pow10(k) <= 1_000_000_000,
        k <= 8 ==> pow10(k) <= 100_000_000,
    decreases k,
{
    reveal_with_fuel(pow10, 12);
    if k > 11 {
        lemma_pow10((k - 1) as nat);
    }
}

/// A number of ten-billionths, as short as it can be written.
pub open spec fn spec_plain(n: int) -> Seq<char> {
    let m = spec_abs(n);
    let sign: Seq<char> = if n < 0 {
        seq!['-']
    } else {
        seq![]
    };
    let whole = spec_digits((m / 10_000_000_000) as nat);
    let frac = spec_fraction((m % 10_000_000_000) as nat, 10);
    if frac.len() == 0 {
        sign + whole
    } else {
        sign + whole + seq!['.'] + frac
    }
}

/// Write a number of ten-billionths as short as it can be.
pub fn plain(n: i128) -> (r: Vec<char>)
    requires
        n > i128::MIN,
    ensures
        r@ == spec_plain(n as int),
{
    let mut out: Vec<char> = Vec::new();
    let m: u128 = if n < 0 {
        (-n) as u128
    } else {
        n as u128
    };
    if n < 0 {
        out.push('-');
    }
    let whole = digits(m / 10_000_000_000);
    let frac = fraction(m % 10_000_000_000, 10);
    put_all(&mut out, &whole);
    if frac.len() > 0 {
        out.push('.');
        put_all(&mut out, &frac);
    }
    assert(out@ =~= spec_plain(n as int));
    out
}

/// The natural number nearest to `n / d`; exactly between two, the even one.
pub open spec fn spec_nearest_even(n: int, d: int) -> int {
    let q = n / d;
    let twice = 2 * (n % d);
    if twice < d || (twice == d && q % 2 == 0) {
        q
    } else {
        q + 1
    }
}

fn nearest_even(n: i128, d: i128) -> (r: i128)
    requires
        n >= 0,
        0 < d <= 0x1_0000_0000_0000,
        n <= 0x1_0000_0000_0000_0000,
    ensures
        r == spec_nearest_even(n as int, d as int),
        0 <= r <= n + 1,
{
    let q: i128 = n / d;
    let twice: i128 = 2 * (n % d);
    assert(0 <= q <= n) by (nonlinear_arith)
        requires
            q == n as int / d as int,
            n >= 0,
            d > 0,
    ;
    if twice < d || (twice == d && q % 2 == 0) {
        q
    } else {
        q + 1
    }
}

/// Rounding is to the nearest, and a number exactly between two goes to the
/// even one.
pub proof fn law_nearest_even(n: int, d: int)
    requires
        n >= 0,
        d > 0,
    ensures
        ({
            let r = spec_nearest_even(n, d);
            &&& -d <= 2 * (r * d - n) <= d
            &&& 2 * (r * d - n) == d || 2 * (r * d - n) == -d ==> r % 2 == 0
            &&& r >= 0
        }),
{
    let (q, m) = (n / d, n % d);
    assert(n == q * d + m && 0 <= m < d && q >= 0) by (nonlinear_arith)
        requires
            n >= 0,
            d > 0,
            q == n / d,
            m == n % d,
    ;
    assert((q + 1) * d == q * d + d) by (nonlinear_arith);
}

/// A number of billionths with `places` decimal places, the nearest such and
/// on an exact half the one whose last digit is even, with a sign in front
/// where `plus` asks for one on every number.
pub open spec fn spec_fixed(v: int, places: nat, plus: bool) -> Seq<char> {
    let q = spec_nearest_even(spec_abs(v), pow10((9 - places) as nat));
    let sign: Seq<char> = if v < 0 {
        seq!['-']
    } else if plus {
        seq!['+']
    } else {
        seq![]
    };
    let whole = spec_digits((q / pow10(places)) as nat);
    if places == 0 {
        sign + whole
    } else {
        sign + whole + seq!['.'] + spec_padded((q % pow10(places)) as nat, places)
    }
}

/// Write a number of billionths with `places` decimal places.
pub fn fixed(v: i64, places: u32, plus: bool) -> (r: Vec<char>)
    requires
        places <= 9,
    ensures
        r@ == spec_fixed(v as int, places as nat, plus),
{
    let m: i128 = if v < 0 {
        -(v as i128)
    } else {
        v as i128
    };
    let unit: i128 = ten_to(9 - places);
    let q: i128 = nearest_even(m, unit);
    let scale: i128 = ten_to(places);
    let mut out: Vec<char> = Vec::new();
    if v < 0 {
        out.push('-');
    } else if plus {
        out.push('+');
    }
    assert(0 <= q / scale && 0 <= q % scale) by (nonlinear_arith)
        requires
            q >= 0,
            scale >= 1,
    ;
    let whole = digits((q / scale) as u128);
    put_all(&mut out, &whole);
    if places > 0 {
        out.push('.');
        let frac = padded((q % scale) as u128, places);
        put_all(&mut out, &frac);
    }
    assert(out@ =~= spec_fixed(v as int, places as nat, plus));
    out
}

/// A character that numbers are written with.
pub open spec fn is_number_char(c: char) -> bool {
    '0' <= c <= '9' || c == '.' || c == '-' || c == '+'
}

proof fn lemma_digit_char(d: int)
    requires
        0 <= d < 10,
    ensures
        is_number_char(digit_char(d)),
{
}

proof fn lemma_digits_chars(n: nat)
    ensures
        forall|i: int| 0 <= i < spec_digits(n).len() ==> is_number_char(#[trigger] spec_digits(n)[i]),
    decreases n,
{
    lemma_digit_char(n as int % 10);
    if n >= 10 {
        lemma_digits_chars(n / 10);
        let s = spec_digits(n / 10);
        assert forall|i: int| 0 <= i < spec_digits(n).len() implies is_number_char(
            #[trigger] spec_digits(n)[i],
        ) by {
            assert(i < s.len() ==> spec_digits(n)[i] == s[i]);
        }
    }
}

proof fn lemma_padded_chars(n: nat, p: nat)
    ensures
        forall|i: int|
            0 <= i < spec_padded(n, p).len() ==> is_number_char(#[trigger] spec_padded(n, p)[i]),
    decreases p,
{
    if p > 0 {
        lemma_digit_char(n as int % 10);
        lemma_padded_chars(n / 10, (p - 1) as nat);
        let s = spec_padded(n / 10, (p - 1) as nat);
        assert forall|i: int| 0 <= i < spec_padded(n, p).len() implies is_number_char(
            #[trigger] spec_padded(n, p)[i],
        ) by {
            assert(i < s.len() ==> spec_padded(n, p)[i] == s[i]);
        }
    }
}

/// A number is written with digits, a point and a sign, and nothing else.
pub proof fn law_number_chars(v: int, places: nat, plus: bool)
    ensures
        forall|i: int|
            0 <= i < spec_fixed(v, places, plus).len() ==> is_number_char(
                #[trigger] spec_fixed(v, places, plus)[i],
            ),
{
    let q = spec_nearest_even(spec_abs(v), pow10((9 - places) as nat));
    lemma_digits_chars((q / pow10(places)) as nat);
    lemma_padded_chars((q % pow10(places)) as nat, places);
    let s = spec_fixed(v, places, plus);
    assert forall|i: int| 0 <= i < s.len() implies is_number_char(#[trigger] s[i]) by {}
}

proof fn lemma_digit(d: int)
    requires
        0 <= d < 10,
    ensures
        digit_value(digit_char(d)) == d,
{
}

/// The digits of a number stand for that number.
pub proof fn law_digits_read_back(n: nat)
    ensures
        spec_value(spec_digits(n)) == n,
    decreases n,
{
    lemma_digit(n as int % 10);
    if n < 10 {
        let s = spec_digits(n);
        assert(s.drop_last() =~= Seq::<char>::empty());
        assert(spec_value(s.drop_last()) == 0);
    } else {
        law_digits_read_back(n / 10);
        assert(spec_digits(n).drop_last() =~= spec_digits(n / 10));
    }
}

/// Padded digits stand for the number too, as long as it fits, and are
/// exactly as many as asked for.
pub proof fn law_padded_read_back(n: nat, p: nat)
    requires
        n < pow10(p),
    ensures
        spec_value(spec_padded(n, p)) == n,
        spec_padded(n, p).len() == p,
    decreases p,
{
    if p > 0 {
        lemma_digit(n as int % 10);
        law_padded_read_back(n / 10, (p - 1) as nat);
        assert(spec_padded(n, p).drop_last() =~= spec_padded(n / 10, (p - 1) as nat));
    }
}

/// Dropping zeros at the end of a fraction loses nothing: its digits, scaled
/// by the places that are left, give the number back.
pub proof fn law_fraction_reads_back(n: nat, p: nat)
    requires
        n < pow10(p),
    ensures
        spec_fraction(n, p).len() <= p,
        spec_value(spec_fraction(n, p)) * pow10((p - spec_fraction(n, p).len()) as nat) == n,
    decreases p,
{
    if p > 0 {
        if n % 10 == 0 {
            law_fraction_reads_back(n / 10, (p - 1) as nat);
            let f = spec_fraction(n / 10, (p - 1) as nat);
            let k = (p - 1 - f.len()) as nat;
            let v = spec_value(f);
            assert(pow10((k + 1) as nat) == 10 * pow10(k));
            assert(v * (10 * pow10(k)) == 10 * (v * pow10(k))) by (nonlinear_arith);
        } else {
            law_padded_read_back(n, p);
            let v = spec_value(spec_padded(n, p));
            assert(pow10(0) == 1);
        }
    } else {
        assert(n == 0);
    }
}

/// A number written with `places` decimals reads back as itself to within half
/// of its last place: its sign, the digits before the point, and exactly that
/// many after it. Returned are the two runs of digits.
pub proof fn law_fixed_reads_back(v: int, places: nat, plus: bool) -> (parts: (
    Seq<char>,
    Seq<char>,
))
    requires
        0 < places <= 9,
    ensures
        ({
            let (whole, frac) = parts;
            let unit = pow10((9 - places) as nat);
            let size = if v < 0 {
                -v
            } else {
                v
            };
            let read = (spec_value(whole) * pow10(places) + spec_value(frac)) * unit;
            &&& v < 0 ==> spec_fixed(v, places, plus) == seq!['-'] + whole + seq!['.'] + frac
            &&& v >= 0 && plus ==> spec_fixed(v, places, plus) == seq!['+'] + whole + seq!['.']
                + frac
            &&& v >= 0 && !plus ==> spec_fixed(v, places, plus) == whole + seq!['.'] + frac
            &&& frac.len() == places
            &&& -unit <= 2 * (read - size) <= unit
        }),
{
    let unit = pow10((9 - places) as nat);
    let size = spec_abs(v);
    lemma_pow10_positive((9 - places) as nat);
    lemma_pow10_positive(places);
    law_nearest_even(size, unit);
    let q = spec_nearest_even(size, unit);
    let p = pow10(places);
    let (a, b) = (q / p, q % p);
    assert(q == a * p + b && a >= 0 && 0 <= b < p) by (nonlinear_arith)
        requires
            q >= 0,
            p > 0,
            a == q / p,
            b == q % p,
    ;
    law_digits_read_back(a as nat);
    law_padded_read_back(b as nat, places);
    let (whole, frac) = (spec_digits(a as nat), spec_padded(b as nat, places));
    if v >= 0 && !plus {
        assert(spec_fixed(v, places, plus) =~= whole + seq!['.'] + frac);
    }
    (whole, frac)
}

/// A whole number is rounded to the nearest and has no point.
pub proof fn law_whole_reads_back(v: int, plus: bool) -> (whole: Seq<char>)
    ensures
        ({
            let size = if v < 0 {
                -v
            } else {
                v
            };
            &&& v < 0 ==> spec_fixed(v, 0, plus) == seq!['-'] + whole
            &&& v >= 0 && plus ==> spec_fixed(v, 0, plus) == seq!['+'] + whole
            &&& v >= 0 && !plus ==> spec_fixed(v, 0, plus) == whole
            &&& -1_000_000_000 <= 2 * (spec_value(whole) * 1_000_000_000 - size) <= 1_000_000_000
        }),
{
    reveal_with_fuel(pow10, 10);
    let size = spec_abs(v);
    assert(pow10(9) == 1_000_000_000);
    law_nearest_even(size, 1_000_000_000);
    let q = spec_nearest_even(size, 1_000_000_000);
    assert(pow10(0) == 1 && q / 1 == q);
    law_digits_read_back(q as nat);
    let whole = spec_digits(q as nat);
    if v >= 0 && !plus {
        assert(spec_fixed(v, 0, plus) =~= whole);
    }
    whole
}

proof fn lemma_pow10_positive(k: nat)
    ensures
        pow10(k) > 0,
    decreases k,
{
    if k > 0 {
        lemma_pow10_positive((k - 1) as nat);
    }
}

proof fn lemma_fraction_end(n: nat, p: nat)
    ensures
        spec_fraction(n, p).len() > 0 ==> spec_fraction(n, p).last() != '0',
    decreases p,
{
    if p > 0 && n % 10 == 0 {
        lemma_fraction_end(n / 10, (p - 1) as nat);
    }
}

/// A number written as short as it can be reads back as itself: its sign, the
/// digits before the point and, where there are any, those after it, the last
/// of which is no zero.
pub proof fn law_plain_reads_back(n: int) -> (parts: (Seq<char>, Seq<char>))
    ensures
        ({
            let (whole, frac) = parts;
            let size = if n < 0 {
                -n
            } else {
                n
            };
            let text = if frac.len() == 0 {
                whole
            } else {
                whole + seq!['.'] + frac
            };
            &&& n < 0 ==> spec_plain(n) == seq!['-'] + text
            &&& n >= 0 ==> spec_plain(n) == text
            &&& frac.len() <= 10
            &&& spec_value(whole) * 10_000_000_000 + spec_value(frac) * pow10(
                (10 - frac.len()) as nat,
            ) == size
            &&& frac.len() > 0 ==> frac.last() != '0'
        }),
{
    let m = spec_abs(n);
    let (a, b) = ((m / 10_000_000_000) as nat, (m % 10_000_000_000) as nat);
    reveal_with_fuel(pow10, 11);
    assert(pow10(10) == 10_000_000_000);
    law_digits_read_back(a);
    law_fraction_reads_back(b, 10);
    lemma_fraction_end(b, 10);
    let (whole, frac) = (spec_digits(a), spec_fraction(b, 10));
    if n < 0 {
        if frac.len() == 0 {
            assert(spec_plain(n) =~= seq!['-'] + whole);
        } else {
            assert(spec_plain(n) =~= seq!['-'] + (whole + seq!['.'] + frac));
        }
    } else {
        if frac.len() == 0 {
            assert(spec_plain(n) =~= whole);
        } else {
            assert(spec_plain(n) =~= whole + seq!['.'] + frac);
        }
    }
    (whole, frac)
}

} // verus!
