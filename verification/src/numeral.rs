//! The numeral grammar for command line arguments: decimal,
//! leading-zero octal, or `0x`-prefixed hexadecimal, rejected when the
//! digits are malformed or the value overflows `usize`.

use vstd::prelude::*;
use vstd::string::StrSliceExecFns;

use crate::request::DumpError;

verus! {

/// The numeric value of a digit character, or -1 for any character
/// that is no digit in any supported base.
pub open spec fn digit_value(c: char) -> int {
    let u = c as int;
    if '0' as int <= u <= '9' as int {
        u - '0' as int
    } else if 'a' as int <= u <= 'f' as int {
        u - 'a' as int + 10
    } else if 'A' as int <= u <= 'F' as int {
        u - 'A' as int + 10
    } else {
        -1
    }
}

/// `c` is a digit of the given base.
pub open spec fn is_base_digit(c: char, base: int) -> bool {
    0 <= digit_value(c) < base
}

/// Every character of `s` is a digit of the given base.
pub open spec fn all_base_digits(s: Seq<char>, base: int) -> bool {
    forall|i: int| 0 <= i < s.len() ==> is_base_digit(#[trigger] s[i], base)
}

/// The value of a digit string read in the given base.
pub open spec fn digits_value(s: Seq<char>, base: int) -> int
    decreases s.len(),
{
    if s.len() == 0 {
        0
    } else {
        digits_value(s.drop_last(), base) * base + digit_value(s.last())
    }
}

/// The base that the numeral's prefix selects: `0x` means
/// hexadecimal, a remaining leading zero means octal, anything else
/// means decimal.
pub open spec fn numeral_base(s: Seq<char>) -> int {
    if s.len() >= 2 && s[0] == '0' && s[1] == 'x' {
        16
    } else if s.len() >= 1 && s[0] == '0' {
        8
    } else {
        10
    }
}

/// The digit characters of the numeral, with its base prefix removed.
pub open spec fn numeral_digits(s: Seq<char>) -> Seq<char> {
    if numeral_base(s) == 16 {
        s.skip(2)
    } else if numeral_base(s) == 8 {
        s.skip(1)
    } else {
        s
    }
}

/// `s` is a well-formed numeral: at least one digit after the prefix,
/// every digit valid for the selected base, and a value that fits in
/// `usize`.
pub open spec fn valid_numeral(s: Seq<char>) -> bool {
    &&& numeral_digits(s).len() > 0
    &&& all_base_digits(numeral_digits(s), numeral_base(s))
    &&& digits_value(numeral_digits(s), numeral_base(s)) <= usize::MAX
}

/// The value that a well-formed numeral denotes.
pub open spec fn numeral_value(s: Seq<char>) -> int {
    digits_value(numeral_digits(s), numeral_base(s))
}

/// The value of a valid digit string is never negative.
proof fn lemma_digits_value_nonneg(s: Seq<char>, base: int)
    requires
        base >= 2,
        all_base_digits(s, base),
    ensures
        digits_value(s, base) >= 0,
    decreases s.len(),
{
    if s.len() > 0 {
        assert(all_base_digits(s.drop_last(), base));
        lemma_digits_value_nonneg(s.drop_last(), base);
        vstd::arithmetic::mul::lemma_mul_nonnegative(digits_value(s.drop_last(), base), base);
    }
}

/// A prefix of a valid digit string never exceeds the whole string's
/// value.
proof fn lemma_digits_value_prefix(s: Seq<char>, base: int, j: int)
    requires
        base >= 2,
        all_base_digits(s, base),
        0 <= j <= s.len(),
    ensures
        digits_value(s.take(j), base) <= digits_value(s, base),
    decreases s.len() - j,
{
    if j == s.len() {
        assert(s.take(j) =~= s);
    } else {
        lemma_digits_value_prefix(s, base, j + 1);
        let shorter = s.take(j + 1);
        assert(shorter.drop_last() =~= s.take(j));
        assert(all_base_digits(s.take(j), base));
        lemma_digits_value_nonneg(s.take(j), base);
        let v = digits_value(s.take(j), base);
        assert(v * 1 <= v * base) by (nonlinear_arith)
            requires
                v >= 0,
                base >= 1,
        ;
        assert(digits_value(shorter, base) == v * base + digit_value(s[j]));
    }
}

/// The digit value of a character, where it has one below 16.
fn digit_of(c: char) -> (result: Option<usize>)
    ensures
        match result {
            Some(d) => digit_value(c) == d,
            None => digit_value(c) == -1,
        },
{
    let u = c as u32;
    if u >= 48 && u <= 57 {
        Some((u - 48) as usize)
    } else if u >= 97 && u <= 102 {
        Some((u - 97 + 10) as usize)
    } else if u >= 65 && u <= 70 {
        Some((u - 65 + 10) as usize)
    } else {
        None
    }
}

/// Parses a numeral in any of the three supported forms — decimal,
/// leading-zero octal, or `0x`-prefixed hexadecimal — into its value,
/// failing exactly when the numeral is malformed for the base its
/// prefix selects, or when its value does not fit in `usize`.
pub fn parse_autobase(src: &str) -> (result: Result<usize, DumpError>)
    ensures
        valid_numeral(src@) ==> result == Ok::<usize, DumpError>(numeral_value(src@) as usize),
        !valid_numeral(src@) ==> result == Err::<usize, DumpError>(DumpError::MalformedNumber),
{
    let n = src.unicode_len();
    let (start, base): (usize, usize) = if n >= 2 && src.get_char(0) == '0' && src.get_char(1)
        == 'x' {
        (2, 16)
    } else if n >= 1 && src.get_char(0) == '0' {
        (1, 8)
    } else {
        (0, 10)
    };
    proof {
        assert(base == numeral_base(src@));
        assert(numeral_digits(src@) =~= src@.subrange(start as int, n as int));
    }
    if n == start {
        return Err(DumpError::MalformedNumber);
    }
    let ghost digits = src@.subrange(start as int, n as int);
    let mut acc: usize = 0;
    let mut i = start;
    while i < n
        invariant
            start <= i <= n,
            n == src@.len(),
            2 <= base <= 16,
            base == numeral_base(src@),
            digits == src@.subrange(start as int, n as int),
            digits == numeral_digits(src@),
            digits.len() == n - start,
            all_base_digits(digits.take(i - start), base as int),
            acc == digits_value(digits.take(i - start), base as int),
        decreases n - i,
    {
        let c = src.get_char(i);
        proof {
            assert(digits[i - start] == src@[i as int]);
            assert(digits.take(i - start + 1).drop_last() =~= digits.take(i - start));
        }
        match digit_of(c) {
            None => {
                proof {
                    assert(!is_base_digit(digits[i - start], base as int));
                }
                return Err(DumpError::MalformedNumber);
            },
            Some(d) => {
                if d >= base {
                    proof {
                        assert(!is_base_digit(digits[i - start], base as int));
                    }
                    return Err(DumpError::MalformedNumber);
                }
                let grown = match acc.checked_mul(base) {
                    Some(m) => m.checked_add(d),
                    None => None,
                };
                match grown {
                    None => {
                        proof {
                            let taken = digits.take(i - start + 1);
                            assert(digits_value(taken, base as int) == acc * (base as int)
                                + d);
                            if all_base_digits(digits, base as int) {
                                lemma_digits_value_prefix(
                                    digits,
                                    base as int,
                                    i - start + 1,
                                );
                                assert(digits_value(digits, base as int) > usize::MAX);
                            }
                        }
                        return Err(DumpError::MalformedNumber);
                    },
                    Some(next) => {
                        acc = next;
                    },
                }
            },
        }
        i = i + 1;
    }
    proof {
        assert(digits.take(n - start) =~= digits);
    }
    Ok(acc)
}

} // verus!
