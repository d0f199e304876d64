//! Parsing the configured iteration budget.
//!
//! The budget arrives as the raw text of one configuration variable; an
//! absent or unparsable value silently falls back to the default of 1.

use vstd::prelude::*;

verus! {

/// The default budget used when the configuration is absent or unparsable.
pub open spec fn default_budget() -> nat {
    1
}

/// Whether `b` is an ASCII decimal digit.
pub open spec fn is_digit(b: u8) -> bool {
    48 <= b <= 57
}

/// Value of a sequence of ASCII decimal digits, most significant first.
pub open spec fn digits_val(s: Seq<u8>) -> int
    decreases s.len(),
{
    if s.len() == 0 {
        0
    } else {
        digits_val(s.drop_last()) * 10 + (s.last() - 48)
    }
}

/// Whether every byte of `s` is an ASCII decimal digit.
pub open spec fn all_digits(s: Seq<u8>) -> bool {
    forall|i: int| 0 <= i < s.len() ==> is_digit(s[i])
}

/// The digit part of a budget string: an optional leading `+` sign is
/// stripped, everything else must be digits.
pub open spec fn digit_part(s: Seq<u8>) -> Seq<u8> {
    if s.len() > 0 && s[0] == 43 {
        s.drop_first()
    } else {
        s
    }
}

/// Whether `s` is a well-formed budget value: an optional `+` sign, then at
/// least one ASCII digit, denoting a value that fits the machine word.
pub open spec fn is_valid_budget(s: Seq<u8>) -> bool {
    &&& digit_part(s).len() > 0
    &&& all_digits(digit_part(s))
    &&& digits_val(digit_part(s)) <= usize::MAX
}

/// The budget denoted by raw configuration text `s`: its numeric value when
/// well formed, the default otherwise.
pub open spec fn budget_of(s: Seq<u8>) -> int {
    if is_valid_budget(s) {
        digits_val(digit_part(s))
    } else {
        default_budget() as int
    }
}

/// A digit sequence denotes a non-negative value.
proof fn lemma_digits_val_nonneg(s: Seq<u8>)
    requires
        all_digits(s),
    ensures
        digits_val(s) >= 0,
    decreases s.len(),
{
    if s.len() > 0 {
        assert(all_digits(s.drop_last()));
        lemma_digits_val_nonneg(s.drop_last());
    }
}

/// Dropping trailing digits never increases the denoted value.
proof fn lemma_digits_val_prefix(s: Seq<u8>, j: int)
    requires
        all_digits(s),
        0 <= j <= s.len(),
    ensures
        digits_val(s.take(j)) <= digits_val(s),
    decreases s.len(),
{
    if j < s.len() {
        assert(all_digits(s.drop_last()));
        assert(s.take(j) =~= s.drop_last().take(j));
        lemma_digits_val_prefix(s.drop_last(), j);
        lemma_digits_val_nonneg(s.drop_last());
    } else {
        assert(s.take(j) =~= s);
    }
}

/// Parses the raw budget text: the denoted value of a well-formed decimal
/// string (optionally `+`-signed), the default of 1 for anything else —
/// an absent variable, an empty string, a sign without digits, any non-digit
/// byte, or a value too large for the machine word.
pub fn parse_budget(s: Option<&[u8]>) -> (r: usize)
    ensures
        r == (match s {
            Some(b) => budget_of(b@),
            None => default_budget() as int,
        }),
{
    match s {
        None => 1,
        Some(bytes) => parse_decimal_or_default(bytes),
    }
}

/// Parses `bytes` as `parse_budget` does for a present value.
fn parse_decimal_or_default(bytes: &[u8]) -> (r: usize)
    ensures
        r == budget_of(bytes@),
{
    let ghost d: Seq<u8> = digit_part(bytes@);
    let n = bytes.len();
    let start: usize = if n > 0 && bytes[0] == 43 {
        1
    } else {
        0
    };
    assert(d =~= bytes@.subrange(start as int, n as int));
    if start >= n {
        return 1;
    }
    let mut acc: usize = 0;
    let mut i: usize = start;
    while i < n
        invariant
            start <= i <= n,
            n == bytes@.len(),
            d == digit_part(bytes@),
            d =~= bytes@.subrange(start as int, n as int),
            all_digits(d.take(i - start)),
            acc == digits_val(d.take(i - start)),
        decreases n - i,
    {
        let b = bytes[i];
        proof {
            assert(0 <= i - start < d.len());
            assert(d[i - start] == bytes@[i as int]);
        }
        if b < 48 || b > 57 {
            proof {
                assert(!is_digit(d[i - start]));
                assert(!all_digits(d));
                assert(!is_valid_budget(bytes@));
            }
            return 1;
        }
        let digit = (b - 48) as usize;
        if acc > (usize::MAX - digit) / 10 {
            proof {
                let k = i - start;
                assert(d.take(k + 1).drop_last() =~= d.take(k));
                assert(d.take(k + 1).last() == d[k]);
                assert(digits_val(d.take(k + 1)) == acc * 10 + (d[k] - 48));
                assert(digits_val(d.take(k + 1)) == acc * 10 + digit);
                lemma_overflow_means_invalid(acc, digit);
                if all_digits(d) {
                    lemma_digits_val_prefix(d, k + 1);
                    assert(digits_val(d) > usize::MAX);
                }
                assert(!is_valid_budget(bytes@));
            }
            return 1;
        }
        proof {
            let k = i - start;
            assert(d.take(k + 1).drop_last() =~= d.take(k));
            assert(d.take(k + 1).last() == d[k]);
            assert(forall|j: int| 0 <= j < k + 1 ==> is_digit(#[trigger] d.take(k + 1)[j]));
            lemma_no_overflow(acc, digit);
        }
        acc = acc * 10 + digit;
        i = i + 1;
    }
    assert(d.take(n - start) =~= d);
    acc
}

/// If the accumulator passes the guard, the next step stays within the
/// machine word.
proof fn lemma_no_overflow(acc: usize, digit: usize)
    requires
        digit <= 9,
        acc <= (usize::MAX - digit) / 10,
    ensures
        acc * 10 + digit <= usize::MAX,
{
    let m = (usize::MAX - digit) as int;
    assert(acc * 10 <= (m / 10) * 10) by (nonlinear_arith)
        requires
            acc <= m / 10,
            0 <= m,
        ;
    assert((m / 10) * 10 <= m) by (nonlinear_arith)
        requires
            0 <= m,
        ;
}

/// If the accumulator fails the guard, the true value already exceeds the
/// machine word.
proof fn lemma_overflow_means_invalid(acc: usize, digit: usize)
    requires
        digit <= 9,
        acc > (usize::MAX - digit) / 10,
    ensures
        acc * 10 + digit > usize::MAX,
{
    let m = (usize::MAX - digit) as int;
    assert(acc * 10 >= (m / 10) * 10 + 10) by (nonlinear_arith)
        requires
            acc >= m / 10 + 1,
        ;
    assert((m / 10) * 10 + 10 > m) by (nonlinear_arith)
        requires
            0 <= m,
        ;
}

} // verus!
