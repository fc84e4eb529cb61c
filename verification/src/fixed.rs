//! Fixed-point coordinates and their decimal text form.
//!
//! A coordinate is an `i64` counting thousandths of a coordinate unit
//! (`1500` stands for `1.5`). Formatting is plain fixed-point decimal with
//! trailing fraction zeros trimmed, never scientific notation, so the output
//! stays readable to SVG path-data and DXF tokenizers.

use vstd::prelude::*;
use vstd::string::*;

verus! {

broadcast use vstd::string::group_string_axioms;

/// Largest fixed-point magnitude the formatter accepts, in thousandths:
/// safely clear of `i64` negation and of the `u64` cast below.
pub const FX_LIMIT: i64 = 4_000_000_000_000_000;

/// Decimal digit character for `d` in `0..10`.
pub open spec fn digit_char(d: int) -> char {
    if d == 0 {
        '0'
    } else if d == 1 {
        '1'
    } else if d == 2 {
        '2'
    } else if d == 3 {
        '3'
    } else if d == 4 {
        '4'
    } else if d == 5 {
        '5'
    } else if d == 6 {
        '6'
    } else if d == 7 {
        '7'
    } else if d == 8 {
        '8'
    } else {
        '9'
    }
}

/// Decimal digit string of a non-negative number, most significant digit
/// first, without leading zeros (`0` itself is the single digit `0`).
pub open spec fn dec_str(n: int) -> Seq<char>
    decreases n,
{
    if n < 10 {
        seq![digit_char(n)]
    } else {
        dec_str(n / 10).push(digit_char(n % 10))
    }
}

/// Decimal text of a non-negative fixed-point magnitude `m` (in
/// thousandths): integer part, then up to three fraction digits with
/// trailing zeros trimmed and no fraction dot when the fraction is zero.
pub open spec fn fx_str_mag(m: int) -> Seq<char> {
    let ip = m / 1000;
    let fr = m % 1000;
    if fr == 0 {
        dec_str(ip)
    } else if fr % 100 == 0 {
        dec_str(ip) + seq!['.', digit_char(fr / 100)]
    } else if fr % 10 == 0 {
        dec_str(ip) + seq!['.', digit_char(fr / 100), digit_char((fr / 10) % 10)]
    } else {
        dec_str(ip) + seq!['.', digit_char(fr / 100), digit_char((fr / 10) % 10), digit_char(fr % 10)]
    }
}

/// Decimal text of a fixed-point value: a minus sign for negative values,
/// then the magnitude per [`fx_str_mag`].
pub open spec fn fx_str(v: int) -> Seq<char> {
    if v < 0 {
        seq!['-'] + fx_str_mag(-v)
    } else {
        fx_str_mag(v)
    }
}

/// Appends the single decimal digit `d` to `s`.
pub fn push_digit(s: &mut String, d: u64)
    requires
        d < 10,
    ensures
        final(s)@ == old(s)@.push(digit_char(d as int)),
{
    proof {
        reveal_strlit("0");
        reveal_strlit("1");
        reveal_strlit("2");
        reveal_strlit("3");
        reveal_strlit("4");
        reveal_strlit("5");
        reveal_strlit("6");
        reveal_strlit("7");
        reveal_strlit("8");
        reveal_strlit("9");
    }
    let ghost start = s@;
    if d == 0 {
        s.append("0");
    } else if d == 1 {
        s.append("1");
    } else if d == 2 {
        s.append("2");
    } else if d == 3 {
        s.append("3");
    } else if d == 4 {
        s.append("4");
    } else if d == 5 {
        s.append("5");
    } else if d == 6 {
        s.append("6");
    } else if d == 7 {
        s.append("7");
    } else if d == 8 {
        s.append("8");
    } else {
        s.append("9");
    }
    proof {
        assert(s@ =~= start.push(digit_char(d as int)));
    }
}

/// Appends the decimal digit string of `n` to `s`.
pub fn push_dec(s: &mut String, n: u64)
    ensures
        final(s)@ == old(s)@ + dec_str(n as int),
    decreases n,
{
    let ghost start = s@;
    if n >= 10 {
        push_dec(s, n / 10);
        push_digit(s, n % 10);
        proof {
            assert(s@ =~= start + dec_str(n as int));
        }
    } else {
        push_digit(s, n);
        proof {
            assert(s@ =~= start + dec_str(n as int));
        }
    }
}

/// Appends the fixed-point decimal text of `v` to `s`.
pub fn push_fx(s: &mut String, v: i64)
    requires
        -FX_LIMIT <= v <= FX_LIMIT,
    ensures
        final(s)@ == old(s)@ + fx_str(v as int),
{
    proof {
        reveal_strlit("-");
        reveal_strlit(".");
    }
    let ghost start = s@;
    let m: u64 = if v < 0 {
        s.append("-");
        (-v) as u64
    } else {
        v as u64
    };
    let ip: u64 = m / 1000;
    let fr: u64 = m % 1000;
    push_dec(s, ip);
    if fr != 0 {
        s.append(".");
        push_digit(s, fr / 100);
        if fr % 100 != 0 {
            push_digit(s, (fr / 10) % 10);
            if fr % 10 != 0 {
                push_digit(s, fr % 10);
            }
        }
    }
    proof {
        assert(s@ =~= start + fx_str(v as int));
    }
}

/// The fixed-point decimal text of `v` on its own.
pub fn fx_to_string(v: i64) -> (s: String)
    requires
        -FX_LIMIT <= v <= FX_LIMIT,
    ensures
        s@ == fx_str(v as int),
{
    let mut s = String::new();
    push_fx(&mut s, v);
    proof {
        assert(s@ =~= fx_str(v as int));
    }
    s
}

} // verus!
