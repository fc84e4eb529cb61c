//! Parser for the path mini-language: letter-prefixed, whitespace- or
//! comma-separated numeric tuples (`M x y`, `L x y`, `C c1x c1y c2x c2y x y`,
//! `Q cx cy x y`, `Z`), absolute or relative (lowercase) forms. Relative
//! forms are normalized to absolute coordinates while parsing, so everything
//! downstream works on absolute commands.

use vstd::prelude::*;
use vstd::string::*;
use crate::model::{PathCommand, ParseError, in_range};

verus! {

/// Token separator: blank or comma.
pub open spec fn is_sep(c: char) -> bool {
    c == ' ' || c == ',' || c == '\t' || c == '\n' || c == '\r'
}

/// Decimal digit character.
pub open spec fn is_digit(c: char) -> bool {
    ('0' as u32) <= (c as u32) && (c as u32) <= ('9' as u32)
}

/// Numeric value of a digit character.
pub open spec fn digit_val(c: char) -> int {
    (c as u32) as int - ('0' as u32) as int
}

/// First index at or after `i` holding a non-separator, or the end.
pub open spec fn skip_sep(s: Seq<char>, i: int) -> int
    decreases s.len() - i,
{
    if i < s.len() && is_sep(s[i]) {
        skip_sep(s, i + 1)
    } else {
        i
    }
}

/// End of the digit run starting at `i`.
pub open spec fn digits_end(s: Seq<char>, i: int) -> int
    decreases s.len() - i,
{
    if i < s.len() && is_digit(s[i]) {
        digits_end(s, i + 1)
    } else {
        i
    }
}

/// Value of the digit run `s[i..j)` read as a decimal integer.
pub open spec fn digits_val(s: Seq<char>, i: int, j: int) -> int
    decreases j - i,
{
    if i >= j {
        0
    } else {
        digits_val(s, i, j - 1) * 10 + digit_val(s[j - 1])
    }
}

/// Value in thousandths of the first three fraction digits of the run
/// `s[i..k)`; digits past the third are read but carry no weight.
pub open spec fn frac_val(s: Seq<char>, i: int, k: int) -> int {
    (if k > i {
        digit_val(s[i]) * 100
    } else {
        0
    }) + (if k > i + 1 {
        digit_val(s[i + 1]) * 10
    } else {
        0
    }) + (if k > i + 2 {
        digit_val(s[i + 2])
    } else {
        0
    })
}

/// Reads one number token at `i`: an optional minus sign, then decimal
/// digits with an optional dot (`12`, `1.5`, `.5` and `5.` are all
/// accepted; at least one digit must appear; exponent forms are not part
/// of the mini-language). Yields the fixed-point value (truncated toward
/// zero past the third fraction digit) and the index after the token;
/// `None` on a malformed token or a magnitude beyond
/// [`crate::COORD_LIMIT`].
pub open spec fn num_at(s: Seq<char>, i: int) -> Option<(int, int)> {
    let neg = i < s.len() && s[i] == '-';
    let d0 = if neg {
        i + 1
    } else {
        i
    };
    let j = digits_end(s, d0);
    if j < s.len() && s[j] == '.' {
        let k = digits_end(s, j + 1);
        if j == d0 && k == j + 1 {
            Option::None
        } else {
            let m = digits_val(s, d0, j) * 1000 + frac_val(s, j + 1, k);
            if m <= crate::COORD_LIMIT as int {
                Option::Some(
                    (
                        if neg {
                            -m
                        } else {
                            m
                        },
                        k,
                    ),
                )
            } else {
                Option::None
            }
        }
    } else if j == d0 {
        Option::None
    } else {
        let m = digits_val(s, d0, j) * 1000;
        if m <= crate::COORD_LIMIT as int {
            Option::Some(
                (
                    if neg {
                        -m
                    } else {
                        m
                    },
                    j,
                ),
            )
        } else {
            Option::None
        }
    }
}

/// Reads `n` number tokens, each preceded by optional separators.
pub open spec fn nums_at(s: Seq<char>, i: int, n: int) -> Option<(Seq<int>, int)>
    decreases n,
{
    if n <= 0 {
        Option::Some((Seq::empty(), i))
    } else {
        let p = skip_sep(s, i);
        match num_at(s, p) {
            Option::None => Option::None,
            Option::Some((v, j)) => match nums_at(s, j, n - 1) {
                Option::None => Option::None,
                Option::Some((vs, k)) => Option::Some((seq![v] + vs, k)),
            },
        }
    }
}

pub proof fn lemma_skip_sep(s: Seq<char>, i: int)
    requires
        0 <= i <= s.len(),
    ensures
        i <= skip_sep(s, i) <= s.len(),
    decreases s.len() - i,
{
    if i < s.len() && is_sep(s[i]) {
        lemma_skip_sep(s, i + 1);
    }
}

pub proof fn lemma_digits_end(s: Seq<char>, i: int)
    requires
        0 <= i <= s.len(),
    ensures
        i <= digits_end(s, i) <= s.len(),
        forall|k: int| i <= k < digits_end(s, i) ==> is_digit(#[trigger] s[k]),
    decreases s.len() - i,
{
    if i < s.len() && is_digit(s[i]) {
        lemma_digits_end(s, i + 1);
    }
}

/// A digit run's value is non-negative, and appending digits never shrinks
/// it.
pub proof fn lemma_digits_val_grow(s: Seq<char>, i: int, j: int, k: int)
    requires
        i <= j <= k,
        forall|t: int| i <= t < k ==> is_digit(#[trigger] s[t]),
    ensures
        0 <= digits_val(s, i, j) <= digits_val(s, i, k),
    decreases k - i,
{
    if j < k {
        lemma_digits_val_grow(s, i, j, k - 1);
    } else if i < j {
        lemma_digits_val_grow(s, i, i, j - 1);
    }
}

pub proof fn lemma_num_at(s: Seq<char>, i: int)
    requires
        0 <= i <= s.len(),
    ensures
        num_at(s, i) matches Some(r) ==> i < r.1 <= s.len() && in_range(r.0),
{
    let neg = i < s.len() && s[i] == '-';
    let d0: int = if neg {
        i + 1
    } else {
        i
    };
    if d0 <= s.len() {
        lemma_digits_end(s, d0);
        let j = digits_end(s, d0);
        if j < s.len() && s[j] == '.' {
            lemma_digits_end(s, j + 1);
        }
        if j > d0 {
            lemma_digits_val_grow(s, d0, d0, j);
        }
    }
}

pub proof fn lemma_nums_at(s: Seq<char>, i: int, n: int)
    requires
        0 <= i <= s.len(),
    ensures
        nums_at(s, i, n) matches Some(r) ==> {
            &&& i <= r.1 <= s.len()
            &&& (n > 0 ==> i < r.1)
            &&& r.0.len() == if n <= 0 {
                0
            } else {
                n
            }
            &&& forall|t: int| 0 <= t < r.0.len() ==> in_range(#[trigger] r.0[t])
        },
    decreases n,
{
    if n > 0 {
        lemma_skip_sep(s, i);
        let p = skip_sep(s, i);
        lemma_num_at(s, p);
        match num_at(s, p) {
            Option::None => {},
            Option::Some((v, j)) => {
                lemma_nums_at(s, j, n - 1);
            },
        }
    }
}

/// Parses commands from position `i`. `(cx, cy)` is the current point and
/// `(sx, sy)` the start of the current contour (both used to make relative
/// forms absolute; a `Close` moves the current point back to the contour
/// start). `started` records whether a `MoveTo` has been seen: drawing or
/// closing before one is an error, as is an unknown command letter, a
/// malformed number, a wrong argument count or an out-of-range coordinate.
pub open spec fn cmds_at(
    s: Seq<char>,
    i: int,
    cx: int,
    cy: int,
    sx: int,
    sy: int,
    started: bool,
) -> Option<Seq<PathCommand>>
    decreases s.len() - i,
    when 0 <= i <= s.len() && in_range(cx) && in_range(cy) && in_range(sx) && in_range(sy)
    via cmds_at_dec
{
    let p = skip_sep(s, i);
    if p >= s.len() {
        Option::Some(Seq::empty())
    } else {
        let c = s[p];
        if c == 'M' || c == 'm' {
            match nums_at(s, p + 1, 2) {
                Option::None => Option::None,
                Option::Some((vs, j)) => {
                    let x = if c == 'm' {
                        cx + vs[0]
                    } else {
                        vs[0]
                    };
                    let y = if c == 'm' {
                        cy + vs[1]
                    } else {
                        vs[1]
                    };
                    if !in_range(x) || !in_range(y) {
                        Option::None
                    } else {
                        match cmds_at(s, j, x, y, x, y, true) {
                            Option::None => Option::None,
                            Option::Some(rest) => Option::Some(
                                seq![PathCommand::MoveTo(x as i64, y as i64)] + rest,
                            ),
                        }
                    }
                },
            }
        } else if c == 'L' || c == 'l' {
            if !started {
                Option::None
            } else {
                match nums_at(s, p + 1, 2) {
                    Option::None => Option::None,
                    Option::Some((vs, j)) => {
                        let x = if c == 'l' {
                            cx + vs[0]
                        } else {
                            vs[0]
                        };
                        let y = if c == 'l' {
                            cy + vs[1]
                        } else {
                            vs[1]
                        };
                        if !in_range(x) || !in_range(y) {
                            Option::None
                        } else {
                            match cmds_at(s, j, x, y, sx, sy, true) {
                                Option::None => Option::None,
                                Option::Some(rest) => Option::Some(
                                    seq![PathCommand::LineTo(x as i64, y as i64)] + rest,
                                ),
                            }
                        }
                    },
                }
            }
        } else if c == 'C' || c == 'c' {
            if !started {
                Option::None
            } else {
                match nums_at(s, p + 1, 6) {
                    Option::None => Option::None,
                    Option::Some((vs, j)) => {
                        let rel = c == 'c';
                        let c1x = if rel {
                            cx + vs[0]
                        } else {
                            vs[0]
                        };
                        let c1y = if rel {
                            cy + vs[1]
                        } else {
                            vs[1]
                        };
                        let c2x = if rel {
                            cx + vs[2]
                        } else {
                            vs[2]
                        };
                        let c2y = if rel {
                            cy + vs[3]
                        } else {
                            vs[3]
                        };
                        let x = if rel {
                            cx + vs[4]
                        } else {
                            vs[4]
                        };
                        let y = if rel {
                            cy + vs[5]
                        } else {
                            vs[5]
                        };
                        if !in_range(c1x) || !in_range(c1y) || !in_range(c2x) || !in_range(c2y)
                            || !in_range(x) || !in_range(y) {
                            Option::None
                        } else {
                            match cmds_at(s, j, x, y, sx, sy, true) {
                                Option::None => Option::None,
                                Option::Some(rest) => Option::Some(
                                    seq![
                                        PathCommand::CubicTo(
                                            c1x as i64,
                                            c1y as i64,
                                            c2x as i64,
                                            c2y as i64,
                                            x as i64,
                                            y as i64,
                                        ),
                                    ] + rest,
                                ),
                            }
                        }
                    },
                }
            }
        } else if c == 'Q' || c == 'q' {
            if !started {
                Option::None
            } else {
                match nums_at(s, p + 1, 4) {
                    Option::None => Option::None,
                    Option::Some((vs, j)) => {
                        let rel = c == 'q';
                        let qx = if rel {
                            cx + vs[0]
                        } else {
                            vs[0]
                        };
                        let qy = if rel {
                            cy + vs[1]
                        } else {
                            vs[1]
                        };
                        let x = if rel {
                            cx + vs[2]
                        } else {
                            vs[2]
                        };
                        let y = if rel {
                            cy + vs[3]
                        } else {
                            vs[3]
                        };
                        if !in_range(qx) || !in_range(qy) || !in_range(x) || !in_range(y) {
                            Option::None
                        } else {
                            match cmds_at(s, j, x, y, sx, sy, true) {
                                Option::None => Option::None,
                                Option::Some(rest) => Option::Some(
                                    seq![
                                        PathCommand::QuadTo(qx as i64, qy as i64, x as i64, y as i64),
                                    ] + rest,
                                ),
                            }
                        }
                    },
                }
            }
        } else if c == 'Z' || c == 'z' {
            if !started {
                Option::None
            } else {
                match cmds_at(s, p + 1, sx, sy, sx, sy, true) {
                    Option::None => Option::None,
                    Option::Some(rest) => Option::Some(seq![PathCommand::Close] + rest),
                }
            }
        } else {
            Option::None
        }
    }
}

#[via_fn]
proof fn cmds_at_dec(s: Seq<char>, i: int, cx: int, cy: int, sx: int, sy: int, started: bool) {
    lemma_skip_sep(s, i);
    let p = skip_sep(s, i);
    if p < s.len() {
        lemma_nums_at(s, p + 1, 2);
        lemma_nums_at(s, p + 1, 4);
        lemma_nums_at(s, p + 1, 6);
    }
}

/// The whole path data text parsed from the start: no command seen yet and
/// the current point at the origin.
pub open spec fn parse_path_spec(s: Seq<char>) -> Option<Seq<PathCommand>> {
    cmds_at(s, 0, 0, 0, 0, 0, false)
}

proof fn lemma_cmds_bounded_cons(c: PathCommand, rest: Seq<PathCommand>)
    requires
        crate::model::cmd_bounded(c),
        crate::model::cmds_bounded(rest),
    ensures
        crate::model::cmds_bounded(seq![c] + rest),
{
    let cs = seq![c] + rest;
    assert forall|k: int| 0 <= k < cs.len() implies crate::model::cmd_bounded(
        #[trigger] cs[k],
    ) by {
        if k > 0 {
            assert(cs[k] == rest[k - 1]);
        }
    }
}

proof fn lemma_cmds_at_bounded(
    s: Seq<char>,
    i: int,
    cx: int,
    cy: int,
    sx: int,
    sy: int,
    started: bool,
)
    requires
        0 <= i <= s.len(),
        in_range(cx),
        in_range(cy),
        in_range(sx),
        in_range(sy),
    ensures
        cmds_at(s, i, cx, cy, sx, sy, started) matches Some(cs) ==> crate::model::cmds_bounded(cs),
    decreases s.len() - i,
{
    lemma_skip_sep(s, i);
    let p = skip_sep(s, i);
    if p < s.len() {
        let c = s[p];
        lemma_nums_at(s, p + 1, 2);
        lemma_nums_at(s, p + 1, 4);
        lemma_nums_at(s, p + 1, 6);
        if c == 'M' || c == 'm' {
            if let Option::Some((vs, j)) = nums_at(s, p + 1, 2) {
                let x = if c == 'm' {
                    cx + vs[0]
                } else {
                    vs[0]
                };
                let y = if c == 'm' {
                    cy + vs[1]
                } else {
                    vs[1]
                };
                if in_range(x) && in_range(y) {
                    lemma_cmds_at_bounded(s, j, x, y, x, y, true);
                    if let Option::Some(rest) = cmds_at(s, j, x, y, x, y, true) {
                        lemma_cmds_bounded_cons(PathCommand::MoveTo(x as i64, y as i64), rest);
                    }
                }
            }
        } else if (c == 'L' || c == 'l') && started {
            if let Option::Some((vs, j)) = nums_at(s, p + 1, 2) {
                let x = if c == 'l' {
                    cx + vs[0]
                } else {
                    vs[0]
                };
                let y = if c == 'l' {
                    cy + vs[1]
                } else {
                    vs[1]
                };
                if in_range(x) && in_range(y) {
                    lemma_cmds_at_bounded(s, j, x, y, sx, sy, true);
                    if let Option::Some(rest) = cmds_at(s, j, x, y, sx, sy, true) {
                        lemma_cmds_bounded_cons(PathCommand::LineTo(x as i64, y as i64), rest);
                    }
                }
            }
        } else if (c == 'C' || c == 'c') && started {
            if let Option::Some((vs, j)) = nums_at(s, p + 1, 6) {
                let rel = c == 'c';
                let c1x = if rel {
                    cx + vs[0]
                } else {
                    vs[0]
                };
                let c1y = if rel {
                    cy + vs[1]
                } else {
                    vs[1]
                };
                let c2x = if rel {
                    cx + vs[2]
                } else {
                    vs[2]
                };
                let c2y = if rel {
                    cy + vs[3]
                } else {
                    vs[3]
                };
                let x = if rel {
                    cx + vs[4]
                } else {
                    vs[4]
                };
                let y = if rel {
                    cy + vs[5]
                } else {
                    vs[5]
                };
                if in_range(c1x) && in_range(c1y) && in_range(c2x) && in_range(c2y) && in_range(x)
                    && in_range(y) {
                    lemma_cmds_at_bounded(s, j, x, y, sx, sy, true);
                    if let Option::Some(rest) = cmds_at(s, j, x, y, sx, sy, true) {
                        lemma_cmds_bounded_cons(
                            PathCommand::CubicTo(
                                c1x as i64,
                                c1y as i64,
                                c2x as i64,
                                c2y as i64,
                                x as i64,
                                y as i64,
                            ),
                            rest,
                        );
                    }
                }
            }
        } else if (c == 'Q' || c == 'q') && started {
            if let Option::Some((vs, j)) = nums_at(s, p + 1, 4) {
                let rel = c == 'q';
                let qx = if rel {
                    cx + vs[0]
                } else {
                    vs[0]
                };
                let qy = if rel {
                    cy + vs[1]
                } else {
                    vs[1]
                };
                let x = if rel {
                    cx + vs[2]
                } else {
                    vs[2]
                };
                let y = if rel {
                    cy + vs[3]
                } else {
                    vs[3]
                };
                if in_range(qx) && in_range(qy) && in_range(x) && in_range(y) {
                    lemma_cmds_at_bounded(s, j, x, y, sx, sy, true);
                    if let Option::Some(rest) = cmds_at(s, j, x, y, sx, sy, true) {
                        lemma_cmds_bounded_cons(
                            PathCommand::QuadTo(qx as i64, qy as i64, x as i64, y as i64),
                            rest,
                        );
                    }
                }
            }
        } else if (c == 'Z' || c == 'z') && started {
            lemma_cmds_at_bounded(s, p + 1, sx, sy, sx, sy, true);
            if let Option::Some(rest) = cmds_at(s, p + 1, sx, sy, sx, sy, true) {
                lemma_cmds_bounded_cons(PathCommand::Close, rest);
            }
        }
    }
}

/// What a successful parse guarantees: every coordinate is in range and the
/// sequence opens with a `MoveTo` (or is empty).
pub proof fn lemma_parse_path_wf(s: Seq<char>)
    ensures
        parse_path_spec(s) matches Some(cs) ==> crate::model::cmds_bounded(cs)
            && crate::model::cmds_wf(cs),
{
    lemma_cmds_at_bounded(s, 0, 0, 0, 0, 0, false);
    lemma_skip_sep(s, 0);
    let p = skip_sep(s, 0);
    if p < s.len() {
        lemma_nums_at(s, p + 1, 2);
    }
}

fn scan_sep(s: &str, n: usize, i: usize) -> (r: usize)
    requires
        n == s@.len(),
        i <= n,
    ensures
        r == skip_sep(s@, i as int),
        i <= r <= n,
    decreases n - i,
{
    if i < n {
        let c = s.get_char(i);
        if c == ' ' || c == ',' || c == '\t' || c == '\n' || c == '\r' {
            scan_sep(s, n, i + 1)
        } else {
            i
        }
    } else {
        i
    }
}

fn scan_digits(s: &str, n: usize, i: usize) -> (r: usize)
    requires
        n == s@.len(),
        i <= n,
    ensures
        r == digits_end(s@, i as int),
        i <= r <= n,
    decreases n - i,
{
    if i < n {
        let c = s.get_char(i);
        let u: u32 = c as u32;
        if ('0' as u32) <= u && u <= ('9' as u32) {
            scan_digits(s, n, i + 1)
        } else {
            i
        }
    } else {
        i
    }
}

/// Value of the digit run `s[i..j)`, or `None` when it exceeds one million
/// (the largest whole-unit magnitude the library accepts).
fn digit_run_val(s: &str, n: usize, i: usize, j: usize) -> (r: Option<u64>)
    requires
        n == s@.len(),
        i <= j <= n,
        forall|t: int| i <= t < j ==> is_digit(#[trigger] s@[t]),
    ensures
        r matches Some(v) ==> v == digits_val(s@, i as int, j as int) && v <= 1_000_000,
        r is None ==> digits_val(s@, i as int, j as int) > 1_000_000,
{
    let mut acc: u64 = 0;
    let mut k: usize = i;
    while k < j
        invariant
            n == s@.len(),
            i <= k <= j <= n,
            forall|t: int| i <= t < j ==> is_digit(#[trigger] s@[t]),
            acc == digits_val(s@, i as int, k as int),
            acc <= 1_000_000,
        decreases j - k,
    {
        let c = s.get_char(k);
        let d: u64 = ((c as u32) - ('0' as u32)) as u64;
        let next: u64 = acc * 10 + d;
        if next > 1_000_000 {
            proof {
                lemma_digits_val_grow(s@, i as int, k as int + 1, j as int);
            }
            return Option::None;
        }
        acc = next;
        k = k + 1;
    }
    Option::Some(acc)
}

/// Numeric value of the digit character at `i`.
fn digit_at(s: &str, n: usize, i: usize) -> (d: u64)
    requires
        n == s@.len(),
        i < n,
        is_digit(s@[i as int]),
    ensures
        d == digit_val(s@[i as int]),
        d < 10,
{
    let c = s.get_char(i);
    ((c as u32) - ('0' as u32)) as u64
}

/// Reads one number token at `i`, per [`num_at`].
fn parse_num(s: &str, n: usize, i: usize) -> (r: Option<(i64, usize)>)
    requires
        n == s@.len(),
        i <= n,
    ensures
        r matches Some(v) ==> num_at(s@, i as int) == Option::Some((v.0 as int, v.1 as int)) && i
            < v.1 <= n && in_range(v.0 as int),
        r is None ==> num_at(s@, i as int) is None,
{
    let neg: bool = i < n && s.get_char(i) == '-';
    let d0: usize = if neg {
        i + 1
    } else {
        i
    };
    let j = scan_digits(s, n, d0);
    proof {
        lemma_digits_end(s@, d0 as int);
    }
    let has_dot = j < n && s.get_char(j) == '.';
    if !has_dot && j == d0 {
        return Option::None;
    }
    let ip: u64 = match digit_run_val(s, n, d0, j) {
        Option::Some(v) => v,
        Option::None => {
            proof {
                // the integer part alone already exceeds the limit
                assert(digits_val(s@, d0 as int, j as int) * 1000 > crate::COORD_LIMIT as int);
                if has_dot {
                    lemma_digits_end(s@, j as int + 1);
                    let k = digits_end(s@, j as int + 1);
                    assert(frac_val(s@, j as int + 1, k) >= 0);
                }
            }
            return Option::None;
        },
    };
    let mut m: u64 = ip * 1000;
    let mut end: usize = j;
    if has_dot {
        let k = scan_digits(s, n, j + 1);
        proof {
            lemma_digits_end(s@, j as int + 1);
        }
        if j == d0 && k == j + 1 {
            return Option::None;
        }
        if k > j + 1 {
            let d1 = digit_at(s, n, j + 1);
            let mut fr: u64 = d1 * 100;
            if k - (j + 1) >= 2 {
                let d2 = digit_at(s, n, j + 2);
                fr = fr + d2 * 10;
            }
            if k - (j + 1) >= 3 {
                let d3 = digit_at(s, n, j + 3);
                fr = fr + d3;
            }
            m = m + fr;
        }
        end = k;
    }
    if m > crate::COORD_LIMIT as u64 {
        return Option::None;
    }
    let v: i64 = if neg {
        -(m as i64)
    } else {
        m as i64
    };
    Option::Some((v, end))
}

/// Reads `cnt` number tokens, per [`nums_at`].
fn parse_nums(s: &str, n: usize, i: usize, cnt: usize) -> (r: Option<(Vec<i64>, usize)>)
    requires
        n == s@.len(),
        i <= n,
    ensures
        r matches Some(v) ==> {
            &&& nums_at(s@, i as int, cnt as int) == Option::Some(
                (v.0@.map_values(|x: i64| x as int), v.1 as int),
            )
            &&& i <= v.1 <= n
            &&& (cnt > 0 ==> i < v.1)
            &&& v.0@.len() == cnt
            &&& forall|t: int| 0 <= t < v.0@.len() ==> in_range(#[trigger] v.0@[t] as int)
        },
        r is None ==> nums_at(s@, i as int, cnt as int) is None,
    decreases cnt,
{
    if cnt == 0 {
        let vs: Vec<i64> = Vec::new();
        proof {
            assert(vs@.map_values(|x: i64| x as int) =~= Seq::<int>::empty());
        }
        return Option::Some((vs, i));
    }
    let p = scan_sep(s, n, i);
    match parse_num(s, n, p) {
        Option::None => Option::None,
        Option::Some((v, j)) => {
            match parse_nums(s, n, j, cnt - 1) {
                Option::None => Option::None,
                Option::Some((mut vs, k)) => {
                    let ghost tail = vs@;
                    vs.insert(0, v);
                    proof {
                        assert(vs@.map_values(|x: i64| x as int) =~= seq![v as int]
                            + tail.map_values(|x: i64| x as int));
                    }
                    Option::Some((vs, k))
                },
            }
        },
    }
}

/// Parses commands from position `i`, appending them to `out`; mirrors
/// [`cmds_at`]. On failure `out` may hold a partial prefix, which the
/// caller discards.
fn parse_cmds_at(
    s: &str,
    n: usize,
    i: usize,
    cx: i64,
    cy: i64,
    sx: i64,
    sy: i64,
    started: bool,
    out: &mut Vec<PathCommand>,
) -> (r: bool)
    requires
        n == s@.len(),
        i <= n,
        in_range(cx as int),
        in_range(cy as int),
        in_range(sx as int),
        in_range(sy as int),
    ensures
        r <==> cmds_at(s@, i as int, cx as int, cy as int, sx as int, sy as int, started) is Some,
        cmds_at(s@, i as int, cx as int, cy as int, sx as int, sy as int, started) matches Some(cs)
            ==> final(out)@ == old(out)@ + cs,
    decreases n - i,
{
    let ghost spec_r = cmds_at(s@, i as int, cx as int, cy as int, sx as int, sy as int, started);
    let p = scan_sep(s, n, i);
    if p >= n {
        proof {
            assert(spec_r matches Some(cs) ==> out@ == old(out)@ + cs);
        }
        return true;
    }
    let c = s.get_char(p);
    if c == 'M' || c == 'm' {
        match parse_nums(s, n, p + 1, 2) {
            Option::None => false,
            Option::Some((vs, j)) => {
                let x: i64 = if c == 'm' {
                    cx + vs[0]
                } else {
                    vs[0]
                };
                let y: i64 = if c == 'm' {
                    cy + vs[1]
                } else {
                    vs[1]
                };
                if x > crate::COORD_LIMIT || x < -crate::COORD_LIMIT || y > crate::COORD_LIMIT || y
                    < -crate::COORD_LIMIT {
                    false
                } else {
                    out.push(PathCommand::MoveTo(x, y));
                    let ghost mid = out@;
                    let ok = parse_cmds_at(s, n, j, x, y, x, y, true, out);
                    proof {
                        if let Option::Some(rest) = cmds_at(s@, j as int, x as int, y as int, x as int, y as int, true) {
                            assert(out@ =~= old(out)@ + (seq![PathCommand::MoveTo(x, y)] + rest));
                        }
                    }
                    ok
                }
            },
        }
    } else if c == 'L' || c == 'l' {
        if !started {
            return false;
        }
        match parse_nums(s, n, p + 1, 2) {
            Option::None => false,
            Option::Some((vs, j)) => {
                let x: i64 = if c == 'l' {
                    cx + vs[0]
                } else {
                    vs[0]
                };
                let y: i64 = if c == 'l' {
                    cy + vs[1]
                } else {
                    vs[1]
                };
                if x > crate::COORD_LIMIT || x < -crate::COORD_LIMIT || y > crate::COORD_LIMIT || y
                    < -crate::COORD_LIMIT {
                    false
                } else {
                    out.push(PathCommand::LineTo(x, y));
                    let ok = parse_cmds_at(s, n, j, x, y, sx, sy, true, out);
                    proof {
                        if let Option::Some(rest) = cmds_at(s@, j as int, x as int, y as int, sx as int, sy as int, true) {
                            assert(out@ =~= old(out)@ + (seq![PathCommand::LineTo(x, y)] + rest));
                        }
                    }
                    ok
                }
            },
        }
    } else if c == 'C' || c == 'c' {
        if !started {
            return false;
        }
        match parse_nums(s, n, p + 1, 6) {
            Option::None => false,
            Option::Some((vs, j)) => {
                let rel = c == 'c';
                let c1x: i64 = if rel {
                    cx + vs[0]
                } else {
                    vs[0]
                };
                let c1y: i64 = if rel {
                    cy + vs[1]
                } else {
                    vs[1]
                };
                let c2x: i64 = if rel {
                    cx + vs[2]
                } else {
                    vs[2]
                };
                let c2y: i64 = if rel {
                    cy + vs[3]
                } else {
                    vs[3]
                };
                let x: i64 = if rel {
                    cx + vs[4]
                } else {
                    vs[4]
                };
                let y: i64 = if rel {
                    cy + vs[5]
                } else {
                    vs[5]
                };
                if c1x > crate::COORD_LIMIT || c1x < -crate::COORD_LIMIT || c1y > crate::COORD_LIMIT
                    || c1y < -crate::COORD_LIMIT || c2x > crate::COORD_LIMIT || c2x
                    < -crate::COORD_LIMIT || c2y > crate::COORD_LIMIT || c2y < -crate::COORD_LIMIT
                    || x > crate::COORD_LIMIT || x < -crate::COORD_LIMIT || y > crate::COORD_LIMIT
                    || y < -crate::COORD_LIMIT {
                    false
                } else {
                    out.push(PathCommand::CubicTo(c1x, c1y, c2x, c2y, x, y));
                    let ok = parse_cmds_at(s, n, j, x, y, sx, sy, true, out);
                    proof {
                        if let Option::Some(rest) = cmds_at(s@, j as int, x as int, y as int, sx as int, sy as int, true) {
                            assert(out@ =~= old(out)@ + (seq![
                                PathCommand::CubicTo(c1x, c1y, c2x, c2y, x, y),
                            ] + rest));
                        }
                    }
                    ok
                }
            },
        }
    } else if c == 'Q' || c == 'q' {
        if !started {
            return false;
        }
        match parse_nums(s, n, p + 1, 4) {
            Option::None => false,
            Option::Some((vs, j)) => {
                let rel = c == 'q';
                let qx: i64 = if rel {
                    cx + vs[0]
                } else {
                    vs[0]
                };
                let qy: i64 = if rel {
                    cy + vs[1]
                } else {
                    vs[1]
                };
                let x: i64 = if rel {
                    cx + vs[2]
                } else {
                    vs[2]
                };
                let y: i64 = if rel {
                    cy + vs[3]
                } else {
                    vs[3]
                };
                if qx > crate::COORD_LIMIT || qx < -crate::COORD_LIMIT || qy > crate::COORD_LIMIT
                    || qy < -crate::COORD_LIMIT || x > crate::COORD_LIMIT || x
                    < -crate::COORD_LIMIT || y > crate::COORD_LIMIT || y < -crate::COORD_LIMIT {
                    false
                } else {
                    out.push(PathCommand::QuadTo(qx, qy, x, y));
                    let ok = parse_cmds_at(s, n, j, x, y, sx, sy, true, out);
                    proof {
                        if let Option::Some(rest) = cmds_at(s@, j as int, x as int, y as int, sx as int, sy as int, true) {
                            assert(out@ =~= old(out)@ + (seq![PathCommand::QuadTo(qx, qy, x, y)]
                                + rest));
                        }
                    }
                    ok
                }
            },
        }
    } else if c == 'Z' || c == 'z' {
        if !started {
            return false;
        }
        out.push(PathCommand::Close);
        let ok = parse_cmds_at(s, n, p + 1, sx, sy, sx, sy, true, out);
        proof {
            if let Option::Some(rest) = cmds_at(s@, p as int + 1, sx as int, sy as int, sx as int, sy as int, true) {
                assert(out@ =~= old(out)@ + (seq![PathCommand::Close] + rest));
            }
        }
        ok
    } else {
        false
    }
}

/// Parses a path-description string into its command sequence.
///
/// Succeeds exactly when [`parse_path_spec`] accepts the text; the commands
/// are then that parse, with relative forms already made absolute.
pub fn parse_path_data(s: &str) -> (r: Result<Vec<PathCommand>, ParseError>)
    ensures
        r matches Ok(cmds) ==> parse_path_spec(s@) == Option::Some(cmds@),
        r is Err <==> parse_path_spec(s@) is None,
        r matches Err(e) ==> e.detail@ == "malformed path data"@,
{
    let n = s.unicode_len();
    let mut out: Vec<PathCommand> = Vec::new();
    let ok = parse_cmds_at(s, n, 0, 0, 0, 0, 0, false, &mut out);
    if ok {
        Result::Ok(out)
    } else {
        Result::Err(ParseError::new("malformed path data"))
    }
}

} // verus!
