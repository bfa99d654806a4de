//! Decimal rendering of integers with the zero padding of Rust's `{:010}`
//! format, as used for SEC Central Index Keys (CIKs).

use vstd::prelude::*;

use crate::text::push_char;

verus! {

/// Width of a CIK once padded: ten characters.
pub const CIK_WIDTH: usize = 10;

/// The ASCII character of the decimal digit `d` (`0 <= d < 10`).
pub open spec fn digit_char(d: int) -> char {
    (d + 48) as char
}

/// The numeric value of an ASCII digit character.
pub open spec fn digit_value(c: char) -> int {
    c as int - 48
}

/// Whether `c` is one of `'0'..='9'`.
pub open spec fn is_digit(c: char) -> bool {
    48 <= c as int <= 57
}

/// The shortest decimal representation of `n` (no sign, no leading zeros).
pub open spec fn decimal(n: nat) -> Seq<char>
    decreases n,
{
    if n < 10 {
        seq![digit_char(n as int)]
    } else {
        decimal(n / 10).push(digit_char((n % 10) as int))
    }
}

/// `k` copies of `'0'`.
pub open spec fn zeros(k: nat) -> Seq<char> {
    Seq::new(k, |_i: int| '0')
}

/// The absolute value of `i`.
pub open spec fn magnitude(i: int) -> nat {
    if i < 0 {
        (-i) as nat
    } else {
        i as nat
    }
}

/// What `format!("{:0width$}", i)` yields for an integer `i`: the sign (if
/// negative), then enough `'0'`s to reach `width` characters in all, then the
/// decimal digits of `|i|`; nothing is cut when the number is wider.
pub open spec fn zero_padded(i: int, width: nat) -> Seq<char> {
    let sign: Seq<char> = if i < 0 {
        seq!['-']
    } else {
        seq![]
    };
    let digits = decimal(magnitude(i));
    let fill: int = width - sign.len() - digits.len();
    sign + zeros(
        if fill > 0 {
            fill as nat
        } else {
            0
        },
    ) + digits
}

/// The text of a CIK given as a number: `format!("{:010}", i)`.
pub open spec fn cik_text(i: int) -> Seq<char> {
    zero_padded(i, 10)
}

/// The value of a string of decimal digits, most significant first.
pub open spec fn decimal_value(s: Seq<char>) -> int
    decreases s.len(),
{
    if s.len() == 0 {
        0
    } else {
        decimal_value(s.drop_last()) * 10 + digit_value(s.last())
    }
}

/// `10` to the power `k`.
pub open spec fn pow10(k: nat) -> nat
    decreases k,
{
    if k == 0 {
        1
    } else {
        10 * pow10((k - 1) as nat)
    }
}

proof fn lemma_digit_char(d: int)
    requires
        0 <= d < 10,
    ensures
        digit_value(digit_char(d)) == d,
        is_digit(digit_char(d)),
{
}

proof fn lemma_decimal_digits(n: nat)
    ensures
        decimal(n).len() >= 1,
        forall|j: int| 0 <= j < decimal(n).len() ==> is_digit(#[trigger] decimal(n)[j]),
        decimal_value(decimal(n)) == n,
    decreases n,
{
    if n < 10 {
        lemma_digit_char(n as int);
        let s = decimal(n);
        assert(s.drop_last() =~= Seq::<char>::empty());
        assert(decimal_value(s.drop_last()) == 0);
    } else {
        lemma_decimal_digits(n / 10);
        lemma_digit_char((n % 10) as int);
        let s = decimal(n);
        assert(s.drop_last() =~= decimal(n / 10));
        assert(s.last() == digit_char((n % 10) as int));
        assert(n == (n / 10) * 10 + n % 10) by (nonlinear_arith);
        assert(decimal_value(s) == decimal_value(s.drop_last()) * 10 + digit_value(s.last()));
    }
}

proof fn lemma_decimal_len(n: nat, k: nat)
    requires
        k >= 1,
        n < pow10(k),
    ensures
        decimal(n).len() <= k,
    decreases n,
{
    if n >= 10 {
        if k == 1 {
            assert(pow10(1) == 10 * pow10(0));
        } else {
            let p = pow10((k - 1) as nat);
            assert(pow10(k) == 10 * p);
            assert(n / 10 < p) by (nonlinear_arith)
                requires
                    n < 10 * p,
            ;
            lemma_decimal_len(n / 10, (k - 1) as nat);
        }
    }
}

proof fn lemma_zeros_value(k: nat)
    ensures
        decimal_value(zeros(k)) == 0,
    decreases k,
{
    if k > 0 {
        assert(zeros(k).drop_last() =~= zeros((k - 1) as nat));
        lemma_zeros_value((k - 1) as nat);
    }
}

proof fn lemma_leading_zeros(k: nat, s: Seq<char>)
    ensures
        decimal_value(zeros(k) + s) == decimal_value(s),
    decreases s.len(),
{
    if s.len() == 0 {
        assert(zeros(k) + s =~= zeros(k));
        lemma_zeros_value(k);
    } else {
        assert((zeros(k) + s).drop_last() =~= zeros(k) + s.drop_last());
        lemma_leading_zeros(k, s.drop_last());
    }
}

/// A CIK number of at most ten digits is rendered as exactly ten ASCII
/// digits whose decimal value is the number itself, so the padded text
/// identifies the company without loss.
pub proof fn lemma_cik_text_round_trip(n: int)
    requires
        0 <= n < 10_000_000_000,
    ensures
        cik_text(n).len() == CIK_WIDTH,
        forall|j: int| 0 <= j < CIK_WIDTH ==> is_digit(#[trigger] cik_text(n)[j]),
        decimal_value(cik_text(n)) == n,
{
    let d = decimal(n as nat);
    lemma_decimal_digits(n as nat);
    assert(pow10(10) == 10_000_000_000) by {
        reveal_with_fuel(pow10, 11);
    }
    lemma_decimal_len(n as nat, 10);
    let fill = (10 - d.len()) as nat;
    assert(cik_text(n) =~= zeros(fill) + d);
    lemma_leading_zeros(fill, d);
    assert forall|j: int| 0 <= j < CIK_WIDTH implies is_digit(#[trigger] cik_text(n)[j]) by {
        if j < fill {
            assert(cik_text(n)[j] == '0');
        } else {
            assert(cik_text(n)[j] == d[j - fill]);
        }
    }
}

/// Two CIK numbers of at most ten digits with the same padded text are the
/// same number.
pub proof fn lemma_cik_text_injective(a: int, b: int)
    requires
        0 <= a < 10_000_000_000,
        0 <= b < 10_000_000_000,
        cik_text(a) == cik_text(b),
    ensures
        a == b,
{
    lemma_cik_text_round_trip(a);
    lemma_cik_text_round_trip(b);
}

/// The digit character of `d`.
fn digit(d: u64) -> (c: char)
    requires
        d < 10,
    ensures
        c == digit_char(d as int),
{
    ((d as u8) + 48u8) as char
}

/// Appends the decimal digits of `n` to `out`.
fn push_decimal(out: &mut String, n: u64)
    ensures
        final(out)@ == old(out)@ + decimal(n as nat),
{
    let mut m: u64 = n;
    let mut rev: Vec<char> = Vec::new();
    let ghost mut suffix: Seq<char> = Seq::empty();
    loop
        invariant_except_break
            decimal(n as nat) == decimal(m as nat) + suffix,
        invariant
            rev@.len() == suffix.len(),
            forall|j: int| 0 <= j < rev@.len() ==> rev@[j] == suffix[suffix.len() - 1 - j],
        ensures
            decimal(n as nat) == suffix,
        decreases m,
    {
        let c = digit(m % 10);
        rev.push(c);
        proof {
            suffix = seq![c] + suffix;
        }
        if m < 10 {
            assert(decimal(n as nat) =~= suffix);
            break;
        }
        assert(decimal(m as nat) == decimal((m / 10) as nat).push(c));
        assert(decimal((m / 10) as nat).push(c) + suffix.drop_first() =~= decimal((m / 10) as nat)
            + suffix);
        m = m / 10;
    }
    let len = rev.len();
    let ghost start = out@;
    let mut i: usize = 0;
    while i < len
        invariant
            len == rev@.len(),
            rev@.len() == suffix.len(),
            forall|j: int| 0 <= j < rev@.len() ==> rev@[j] == suffix[suffix.len() - 1 - j],
            i <= len,
            out@ == start + suffix.take(i as int),
        decreases len - i,
    {
        push_char(out, rev[len - 1 - i]);
        assert(suffix.take(i + 1) =~= suffix.take(i as int).push(suffix[i as int]));
        i += 1;
    }
    assert(suffix.take(len as int) =~= suffix);
}

/// Renders `i` as `format!("{:010}", i)` does: sign, zero fill to ten
/// characters, digits.
pub fn format_cik(i: i64) -> (r: String)
    ensures
        r@ == cik_text(i as int),
{
    let mag: u64 = if i < 0 {
        ((-(i + 1)) as u64) + 1
    } else {
        i as u64
    };
    let mut digits = String::new();
    push_decimal(&mut digits, mag);
    let dlen = digits.as_str().unicode_len();
    let mut out = String::new();
    let sign_len: usize = if i < 0 {
        push_char(&mut out, '-');
        1
    } else {
        0
    };
    let ghost sign = out@;
    let target: usize = if dlen < CIK_WIDTH - sign_len {
        CIK_WIDTH - sign_len - dlen
    } else {
        0
    };
    let mut k: usize = 0;
    while k < target
        invariant
            k <= target,
            out@ == sign + zeros(k as nat),
        decreases target - k,
    {
        push_char(&mut out, '0');
        assert(sign + zeros((k + 1) as nat) =~= (sign + zeros(k as nat)).push('0'));
        k += 1;
    }
    out.append(digits.as_str());
    assert(out@ =~= cik_text(i as int));
    out
}

} // verus!
