//! Fixed-width lower-case hexadecimal rendering of addresses and words.

use vstd::prelude::*;
use vstd::string::StringExecFns;

verus! {

/// The lower-case hexadecimal digit for a value below 16.
pub open spec fn hex_char_of(d: int) -> char {
    if d == 0 {
        '0'
    } else if d == 1 {
        '1'
    } else if d == 2 {
        '2'
    } else if d == 3 {
        '3'
    } else if d == 4 {
        '4'
    } else if d == 5 {
        '5'
    } else if d == 6 {
        '6'
    } else if d == 7 {
        '7'
    } else if d == 8 {
        '8'
    } else if d == 9 {
        '9'
    } else if d == 10 {
        'a'
    } else if d == 11 {
        'b'
    } else if d == 12 {
        'c'
    } else if d == 13 {
        'd'
    } else if d == 14 {
        'e'
    } else {
        'f'
    }
}

/// The hexadecimal digits of `v`, most significant first, with no
/// leading zeros (a single `0` for zero itself).
pub open spec fn hex_digits(v: nat) -> Seq<char>
    decreases v,
{
    if v < 16 {
        seq![hex_char_of(v as int)]
    } else {
        hex_digits(v / 16) + seq![hex_char_of((v % 16) as int)]
    }
}

/// `s` left-padded with `'0'` up to `width` characters; `s` unchanged
/// when it is already that wide.
pub open spec fn zero_pad(s: Seq<char>, width: nat) -> Seq<char> {
    if s.len() >= width {
        s
    } else {
        Seq::new((width - s.len()) as nat, |i: int| '0') + s
    }
}

/// The rendering of `v` as a `0x`-prefixed, lower-case hexadecimal
/// literal of at least 8 digits.
pub open spec fn hex_literal(v: nat) -> Seq<char> {
    seq!['0', 'x'] + zero_pad(hex_digits(v), 8)
}

/// Appends the single hexadecimal digit for `d` to `s`.
fn push_hex_digit(s: &mut String, d: usize)
    requires
        d < 16,
    ensures
        final(s)@ == old(s)@ + seq![hex_char_of(d as int)],
{
    let lit: &str = if d == 0 {
        "0"
    } else if d == 1 {
        "1"
    } else if d == 2 {
        "2"
    } else if d == 3 {
        "3"
    } else if d == 4 {
        "4"
    } else if d == 5 {
        "5"
    } else if d == 6 {
        "6"
    } else if d == 7 {
        "7"
    } else if d == 8 {
        "8"
    } else if d == 9 {
        "9"
    } else if d == 10 {
        "a"
    } else if d == 11 {
        "b"
    } else if d == 12 {
        "c"
    } else if d == 13 {
        "d"
    } else if d == 14 {
        "e"
    } else {
        "f"
    };
    proof {
        reveal_strlit("0");
        reveal_strlit("1");
        reveal_strlit("2");
        reveal_strlit("3");
        reveal_strlit("4");
        reveal_strlit("5");
        reveal_strlit("6");
        reveal_strlit("7");
        reveal_strlit("8");
        reveal_strlit("9");
        reveal_strlit("a");
        reveal_strlit("b");
        reveal_strlit("c");
        reveal_strlit("d");
        reveal_strlit("e");
        reveal_strlit("f");
        assert(lit@ =~= seq![hex_char_of(d as int)]);
    }
    s.append(lit);
}

/// Appends the digits of `v`, most significant first, to `s`.
fn push_hex_digits(s: &mut String, v: usize)
    ensures
        final(s)@ == old(s)@ + hex_digits(v as nat),
    decreases v,
{
    if v < 16 {
        push_hex_digit(s, v);
    } else {
        push_hex_digits(s, v / 16);
        push_hex_digit(s, v % 16);
        proof {
            assert(old(s)@ + hex_digits((v / 16) as nat) + seq![hex_char_of((v % 16) as int)]
                =~= old(s)@ + hex_digits(v as nat));
        }
    }
}

/// The number of digits in the plain hexadecimal rendering of `v`.
fn hex_digit_len(v: usize) -> (n: usize)
    ensures
        n == hex_digits(v as nat).len(),
        1 <= n,
    decreases v,
{
    if v < 16 {
        1
    } else {
        let rest = hex_digit_len(v / 16);
        proof {
            lemma_hex_digits_len_le((v / 16) as nat);
        }
        1 + rest
    }
}

/// The digit string of `v` never outgrows one digit per four bits, so
/// its length always fits comfortably in `usize`.
proof fn lemma_hex_digits_len_le(v: nat)
    ensures
        hex_digits(v).len() <= v + 1,
    decreases v,
{
    if v >= 16 {
        lemma_hex_digits_len_le(v / 16);
    }
}

/// Renders `v` in the row format: `0x`, then lower-case hexadecimal
/// digits, left-padded with zeros to a width of at least 8.
pub fn format_hex(v: usize) -> (s: String)
    ensures
        s@ == hex_literal(v as nat),
{
    let mut s = String::new();
    s.append("0x");
    proof {
        reveal_strlit("0x");
        assert(s@ =~= seq!['0', 'x']);
    }
    let n = hex_digit_len(v);
    let ghost prefix = s@;
    let mut pad: usize = if n >= 8 {
        0
    } else {
        8 - n
    };
    let ghost pad0 = pad as int;
    while pad > 0
        invariant
            0 <= pad <= pad0,
            s@ == prefix + Seq::new((pad0 - pad) as nat, |i: int| '0'),
        decreases pad,
    {
        s.append("0");
        proof {
            reveal_strlit("0");
            assert(prefix + Seq::new((pad0 - pad) as nat, |i: int| '0') + "0"@ =~= prefix
                + Seq::new((pad0 - pad + 1) as nat, |i: int| '0'));
        }
        pad = pad - 1;
    }
    push_hex_digits(&mut s, v);
    proof {
        if n >= 8 {
            assert(Seq::new(0nat, |i: int| '0') =~= Seq::<char>::empty());
            assert(s@ =~= hex_literal(v as nat));
        } else {
            assert(s@ =~= hex_literal(v as nat));
        }
    }
    s
}

} // verus!
