//! JSON codec for the persisted island list: an ordered array of objects
//! `{"id": ..., "svg_path_data": ...}`. The writer emits one canonical
//! form: no whitespace, keys in that order, quotes and backslashes escaped
//! with a backslash and control characters as `\u00XX`. The reader accepts
//! standard island-list JSON: whitespace between tokens, the standard
//! string escapes (`\"`, `\\`, `\/`, `\b`, `\f`, `\n`, `\r`, `\t`) and
//! `\uXXXX` for any non-surrogate code unit (surrogate pairs are not
//! paired), with the two keys in either order. The pair is lossless for
//! every island list.

use vstd::prelude::*;
use vstd::string::*;
use crate::model::{PathIsland, ParseError, IslandModel, islands_views};

verus! {

broadcast use vstd::utf8::char_u32_cast;

/// Hexadecimal digit character for `d` in `0..16`, lowercase.
pub open spec fn hex_char(d: int) -> char {
    if d == 0 {
        '0'
    } else if d == 1 {
        '1'
    } else if d == 2 {
        '2'
    } else if d == 3 {
        '3'
    } else if d == 4 {
        '4'
    } else if d == 5 {
        '5'
    } else if d == 6 {
        '6'
    } else if d == 7 {
        '7'
    } else if d == 8 {
        '8'
    } else if d == 9 {
        '9'
    } else if d == 10 {
        'a'
    } else if d == 11 {
        'b'
    } else if d == 12 {
        'c'
    } else if d == 13 {
        'd'
    } else if d == 14 {
        'e'
    } else {
        'f'
    }
}

/// Hexadecimal digit character, either case.
pub open spec fn is_hex(c: char) -> bool {
    (('0' as u32) <= (c as u32) && (c as u32) <= ('9' as u32)) || (('a' as u32) <= (c as u32) && (
    c as u32) <= ('f' as u32)) || (('A' as u32) <= (c as u32) && (c as u32) <= ('F' as u32))
}

/// Value of a hexadecimal digit character.
pub open spec fn hex_val(c: char) -> int {
    if ('0' as u32) <= (c as u32) && (c as u32) <= ('9' as u32) {
        (c as u32) as int - ('0' as u32) as int
    } else if ('a' as u32) <= (c as u32) && (c as u32) <= ('f' as u32) {
        (c as u32) as int - ('a' as u32) as int + 10
    } else {
        (c as u32) as int - ('A' as u32) as int + 10
    }
}

/// One character in string-body form: quote and backslash get a backslash
/// prefix, a control character becomes `\u00XX`, everything else stands as
/// itself.
pub open spec fn esc_char(c: char) -> Seq<char> {
    if c == '"' {
        seq!['\\', '"']
    } else if c == '\\' {
        seq!['\\', '\\']
    } else if (c as u32) < 32 {
        seq!['\\', 'u', '0', '0', hex_char((c as u32) as int / 16), hex_char((c as u32) as int % 16)]
    } else {
        seq![c]
    }
}

/// A string's body with every character escaped as needed.
pub open spec fn esc(s: Seq<char>) -> Seq<char>
    decreases s.len(),
{
    if s.len() == 0 {
        Seq::empty()
    } else {
        esc_char(s[0]) + esc(s.drop_first())
    }
}

/// One island as a JSON object, in canonical form.
pub open spec fn ser_island(isl: IslandModel) -> Seq<char> {
    "{\"id\":\""@ + esc(isl.id) + "\",\"svg_path_data\":\""@ + esc(isl.d) + "\"}"@
}

/// The rest of the array from island `i` on: a comma-separated tail and the
/// closing bracket.
pub open spec fn ser_tail(islands: Seq<IslandModel>, i: int) -> Seq<char>
    decreases islands.len() - i,
{
    if i < 0 || i >= islands.len() {
        "]"@
    } else {
        ","@ + ser_island(islands[i]) + ser_tail(islands, i + 1)
    }
}

/// The whole island list as a canonical JSON array, in order.
pub open spec fn ser_islands(islands: Seq<IslandModel>) -> Seq<char> {
    if islands.len() == 0 {
        "[]"@
    } else {
        "["@ + ser_island(islands[0]) + ser_tail(islands, 1)
    }
}

/// JSON whitespace.
pub open spec fn is_ws(c: char) -> bool {
    c == ' ' || c == '\t' || c == '\n' || c == '\r'
}

/// First index at or after `i` holding a non-whitespace character, or the
/// end.
pub open spec fn ws(s: Seq<char>, i: int) -> int
    decreases s.len() - i,
{
    if 0 <= i < s.len() && is_ws(s[i]) {
        ws(s, i + 1)
    } else {
        i
    }
}

pub proof fn lemma_ws_bounds(s: Seq<char>, i: int)
    requires
        0 <= i,
    ensures
        i <= ws(s, i),
        i <= s.len() ==> ws(s, i) <= s.len(),
    decreases s.len() - i,
{
    if 0 <= i < s.len() && is_ws(s[i]) {
        lemma_ws_bounds(s, i + 1);
    }
}

/// The fixed text `l` stands at position `i` of `s`.
pub open spec fn lit_at(s: Seq<char>, i: int, l: Seq<char>) -> bool {
    0 <= i && i + l.len() <= s.len() && s.subrange(i, i + l.len() as int) == l
}

/// The character a single-letter escape stands for, if the letter is one.
pub open spec fn short_escape(e: char) -> Option<char> {
    if e == '"' {
        Option::Some('"')
    } else if e == '\\' {
        Option::Some('\\')
    } else if e == '/' {
        Option::Some('/')
    } else if e == 'n' {
        Option::Some('\n')
    } else if e == 't' {
        Option::Some('\t')
    } else if e == 'r' {
        Option::Some('\r')
    } else if e == 'b' {
        Option::Some(8u32 as char)
    } else if e == 'f' {
        Option::Some(12u32 as char)
    } else {
        Option::None
    }
}

/// A `\uXXXX` code unit the reader accepts: any scalar value outside the
/// surrogate range (pairs are not combined).
pub open spec fn ok_code(v: int) -> bool {
    0 <= v < 0xD800 || 0xE000 <= v <= 0xFFFF
}

/// String body read from position `i` (just after an opening quote) up to
/// the closing quote: a backslash introduces one of the standard escapes.
/// Yields the body and the index after the closing quote.
pub open spec fn str_at(s: Seq<char>, i: int) -> Option<(Seq<char>, int)>
    decreases s.len() - i,
{
    if i < 0 || i >= s.len() {
        Option::None
    } else if s[i] == '"' {
        Option::Some((Seq::empty(), i + 1))
    } else if s[i] == '\\' {
        if i + 1 >= s.len() {
            Option::None
        } else if s[i + 1] == 'u' {
            if i + 6 <= s.len() && is_hex(s[i + 2]) && is_hex(s[i + 3]) && is_hex(s[i + 4])
                && is_hex(s[i + 5]) {
                let v = hex_val(s[i + 2]) * 4096 + hex_val(s[i + 3]) * 256 + hex_val(s[i + 4]) * 16
                    + hex_val(s[i + 5]);
                if ok_code(v) {
                    match str_at(s, i + 6) {
                        Option::None => Option::None,
                        Option::Some((t, j)) => Option::Some((seq![(v as u32) as char] + t, j)),
                    }
                } else {
                    Option::None
                }
            } else {
                Option::None
            }
        } else {
            match short_escape(s[i + 1]) {
                Option::None => Option::None,
                Option::Some(c) => match str_at(s, i + 2) {
                    Option::None => Option::None,
                    Option::Some((t, j)) => Option::Some((seq![c] + t, j)),
                },
            }
        }
    } else {
        match str_at(s, i + 1) {
            Option::None => Option::None,
            Option::Some((t, j)) => Option::Some((seq![s[i]] + t, j)),
        }
    }
}

pub proof fn lemma_str_at_advances(s: Seq<char>, i: int)
    ensures
        str_at(s, i) matches Some(r) ==> i < r.1 <= s.len(),
    decreases s.len() - i,
{
    if 0 <= i < s.len() {
        lemma_str_at_advances(s, i + 1);
        if i + 1 < s.len() {
            lemma_str_at_advances(s, i + 2);
        }
        if i + 6 <= s.len() {
            lemma_str_at_advances(s, i + 6);
        }
    }
}

/// One member of the island object read from position `i`: the given key
/// literal, a colon and a string value, whitespace allowed between the
/// tokens. Yields the value and the index after its closing quote.
pub open spec fn member_at(s: Seq<char>, i: int, key: Seq<char>) -> Option<(Seq<char>, int)> {
    if !lit_at(s, i, key) {
        Option::None
    } else {
        let a = ws(s, i + key.len() as int);
        if !lit_at(s, a, ":"@) {
            Option::None
        } else {
            let b = ws(s, a + 1);
            if !lit_at(s, b, "\""@) {
                Option::None
            } else {
                str_at(s, b + 1)
            }
        }
    }
}

pub proof fn lemma_member_at_advances(s: Seq<char>, i: int, key: Seq<char>)
    ensures
        member_at(s, i, key) matches Some(r) ==> i <= r.1 <= s.len(),
{
    if lit_at(s, i, key) {
        lemma_ws_bounds(s, i + key.len() as int);
        let a = ws(s, i + key.len() as int);
        if lit_at(s, a, ":"@) {
            lemma_ws_bounds(s, a + 1);
            let b = ws(s, a + 1);
            if lit_at(s, b, "\""@) {
                lemma_str_at_advances(s, b + 1);
            }
        }
    }
}

/// One island object read from position `i` (at its opening brace): the
/// two members `"id"` and `"svg_path_data"`, in either order, separated by
/// a comma, whitespace allowed between the tokens.
pub open spec fn island_at(s: Seq<char>, i: int) -> Option<(IslandModel, int)> {
    if !lit_at(s, i, "{"@) {
        Option::None
    } else {
        let p = ws(s, i + 1);
        if lit_at(s, p, "\"id\""@) {
            match member_at(s, p, "\"id\""@) {
                Option::None => Option::None,
                Option::Some((id, j)) => {
                    let j1 = ws(s, j);
                    if !lit_at(s, j1, ","@) {
                        Option::None
                    } else {
                        let j2 = ws(s, j1 + 1);
                        match member_at(s, j2, "\"svg_path_data\""@) {
                            Option::None => Option::None,
                            Option::Some((d, k)) => {
                                let k1 = ws(s, k);
                                if !lit_at(s, k1, "}"@) {
                                    Option::None
                                } else {
                                    Option::Some((IslandModel { id: id, d: d }, k1 + 1))
                                }
                            },
                        }
                    }
                },
            }
        } else {
            match member_at(s, p, "\"svg_path_data\""@) {
                Option::None => Option::None,
                Option::Some((d, j)) => {
                    let j1 = ws(s, j);
                    if !lit_at(s, j1, ","@) {
                        Option::None
                    } else {
                        let j2 = ws(s, j1 + 1);
                        match member_at(s, j2, "\"id\""@) {
                            Option::None => Option::None,
                            Option::Some((id, k)) => {
                                let k1 = ws(s, k);
                                if !lit_at(s, k1, "}"@) {
                                    Option::None
                                } else {
                                    Option::Some((IslandModel { id: id, d: d }, k1 + 1))
                                }
                            },
                        }
                    }
                },
            }
        }
    }
}

pub proof fn lemma_island_at_advances(s: Seq<char>, i: int)
    ensures
        island_at(s, i) matches Some(r) ==> i < r.1 <= s.len(),
{
    reveal_strlit("}");
    if lit_at(s, i, "{"@) {
        lemma_ws_bounds(s, i + 1);
        let p = ws(s, i + 1);
        lemma_member_at_advances(s, p, "\"id\""@);
        lemma_member_at_advances(s, p, "\"svg_path_data\""@);
        if let Option::Some((v1, j)) = member_at(
            s,
            p,
            if lit_at(s, p, "\"id\""@) {
                "\"id\""@
            } else {
                "\"svg_path_data\""@
            },
        ) {
            lemma_ws_bounds(s, j);
            let j1 = ws(s, j);
            if lit_at(s, j1, ","@) {
                lemma_ws_bounds(s, j1 + 1);
                let j2 = ws(s, j1 + 1);
                lemma_member_at_advances(s, j2, "\"id\""@);
                lemma_member_at_advances(s, j2, "\"svg_path_data\""@);
                if let Option::Some((v2, k)) = member_at(
                    s,
                    j2,
                    if lit_at(s, p, "\"id\""@) {
                        "\"svg_path_data\""@
                    } else {
                        "\"id\""@
                    },
                ) {
                    lemma_ws_bounds(s, k);
                }
            }
        }
    }
}

/// The rest of the array after an island: optional whitespace, then either
/// the closing bracket or a comma and another island.
pub open spec fn islands_rest(s: Seq<char>, i: int) -> Option<(Seq<IslandModel>, int)>
    decreases s.len() - i,
    when 0 <= i
    via islands_rest_dec
{
    let p = ws(s, i);
    if lit_at(s, p, "]"@) {
        Option::Some((Seq::empty(), p + 1))
    } else if lit_at(s, p, ","@) {
        let q = ws(s, p + 1);
        match island_at(s, q) {
            Option::None => Option::None,
            Option::Some((isl, j)) => match islands_rest(s, j) {
                Option::None => Option::None,
                Option::Some((rest, k)) => Option::Some((seq![isl] + rest, k)),
            },
        }
    } else {
        Option::None
    }
}

#[via_fn]
proof fn islands_rest_dec(s: Seq<char>, i: int) {
    lemma_ws_bounds(s, i);
    let p = ws(s, i);
    if lit_at(s, p, ","@) {
        lemma_ws_bounds(s, p + 1);
        lemma_island_at_advances(s, ws(s, p + 1));
    }
}

/// The whole text as an island list: the array brackets around zero or
/// more islands, whitespace allowed between tokens, nothing else before or
/// after.
pub open spec fn parse_islands_spec(s: Seq<char>) -> Option<Seq<IslandModel>> {
    let i0 = ws(s, 0);
    if !lit_at(s, i0, "["@) {
        Option::None
    } else {
        let i1 = ws(s, i0 + 1);
        if lit_at(s, i1, "]"@) {
            if ws(s, i1 + 1) == s.len() {
                Option::Some(Seq::empty())
            } else {
                Option::None
            }
        } else {
            match island_at(s, i1) {
                Option::None => Option::None,
                Option::Some((isl, j)) => match islands_rest(s, j) {
                    Option::None => Option::None,
                    Option::Some((rest, k)) => {
                        if ws(s, k) == s.len() {
                            Option::Some(seq![isl] + rest)
                        } else {
                            Option::None
                        }
                    },
                },
            }
        }
    }
}

/// Relies on `String::push`: appends exactly the one character to the end
/// of the string.
#[verifier::external_body]
fn push_char(s: &mut String, c: char)
    ensures
        final(s)@ == old(s)@.push(c),
{
    s.push(c);
}

/// Relies on `char::from_u32`: every value outside the surrogate range and
/// below `0x110000` is a scalar value, and converts to the character with
/// exactly that value.
#[verifier::external_body]
fn char_of_code(v: u32) -> (c: char)
    requires
        v < 0xD800 || (0xE000 <= v && v < 0x110000),
    ensures
        c as u32 == v,
{
    char::from_u32(v).unwrap_or(' ')
}

fn hex_char_e(d: u64) -> (c: char)
    requires
        d < 16,
    ensures
        c == hex_char(d as int),
{
    match d {
        0 => '0',
        1 => '1',
        2 => '2',
        3 => '3',
        4 => '4',
        5 => '5',
        6 => '6',
        7 => '7',
        8 => '8',
        9 => '9',
        10 => 'a',
        11 => 'b',
        12 => 'c',
        13 => 'd',
        14 => 'e',
        _ => 'f',
    }
}

fn push_escaped_from(out: &mut String, s: &str, n: usize, i: usize)
    requires
        n == s@.len(),
        i <= n,
    ensures
        final(out)@ == old(out)@ + esc(s@.subrange(i as int, n as int)),
    decreases n - i,
{
    if i < n {
        let c = s.get_char(i);
        let u: u32 = c as u32;
        if c == '"' || c == '\\' {
            push_char(out, '\\');
            push_char(out, c);
        } else if u < 32 {
            push_char(out, '\\');
            push_char(out, 'u');
            push_char(out, '0');
            push_char(out, '0');
            push_char(out, hex_char_e((u / 16) as u64));
            push_char(out, hex_char_e((u % 16) as u64));
        } else {
            push_char(out, c);
        }
        let ghost mid = out@;
        proof {
            assert(mid =~= old(out)@ + esc_char(s@[i as int]));
        }
        push_escaped_from(out, s, n, i + 1);
        proof {
            assert(s@.subrange(i as int, n as int).drop_first() =~= s@.subrange(
                i as int + 1,
                n as int,
            ));
            assert(out@ =~= old(out)@ + esc(s@.subrange(i as int, n as int)));
        }
    } else {
        proof {
            assert(s@.subrange(i as int, n as int) =~= Seq::<char>::empty());
        }
    }
}

fn push_escaped(out: &mut String, s: &String)
    ensures
        final(out)@ == old(out)@ + esc(s@),
{
    let n = s.as_str().unicode_len();
    push_escaped_from(out, s.as_str(), n, 0);
    proof {
        assert(s@.subrange(0, n as int) =~= s@);
    }
}

fn push_island(out: &mut String, isl: &PathIsland)
    ensures
        final(out)@ == old(out)@ + ser_island(isl@),
{
    let ghost start = out@;
    out.append("{\"id\":\"");
    push_escaped(out, &isl.id);
    out.append("\",\"svg_path_data\":\"");
    push_escaped(out, &isl.svg_path_data);
    out.append("\"}");
    proof {
        assert(out@ =~= start + ser_island(isl@));
    }
}

/// Serializes the island list as its canonical JSON array, per
/// [`ser_islands`].
pub fn serialize_islands(islands: &Vec<PathIsland>) -> (s: String)
    ensures
        s@ == ser_islands(islands_views(islands@)),
{
    let ghost views = islands_views(islands@);
    let mut s = String::new();
    if islands.len() == 0 {
        s.append("[]");
        proof {
            assert(s@ =~= ser_islands(views));
        }
        return s;
    }
    s.append("[");
    push_island(&mut s, &islands[0]);
    proof {
        assert(islands@[0]@ == views[0]);
        assert(s@ =~= "["@ + ser_island(views[0]));
    }
    let n = islands.len();
    let mut i: usize = 1;
    while i < n
        invariant
            n == islands@.len(),
            1 <= i <= n,
            views == islands_views(islands@),
            ser_islands(views) == s@ + ser_tail(views, i as int),
        decreases n - i,
    {
        let ghost pre = s@;
        s.append(",");
        push_island(&mut s, &islands[i]);
        proof {
            assert(islands@[i as int]@ == views[i as int]);
            assert(s@ =~= pre + ","@ + ser_island(views[i as int]));
        }
        i = i + 1;
    }
    s.append("]");
    proof {
        assert(ser_tail(views, n as int) == "]"@);
        assert(s@ =~= ser_islands(views));
    }
    s
}

fn skip_ws(s: &str, n: usize, i: usize) -> (r: usize)
    requires
        n == s@.len(),
        i <= n,
    ensures
        r == ws(s@, i as int),
        i <= r <= n,
    decreases n - i,
{
    if i < n {
        let c = s.get_char(i);
        if c == ' ' || c == '\t' || c == '\n' || c == '\r' {
            skip_ws(s, n, i + 1)
        } else {
            i
        }
    } else {
        i
    }
}

fn eat_lit(s: &str, n: usize, i: usize, lit: &str) -> (r: Option<usize>)
    requires
        n == s@.len(),
        i <= n,
    ensures
        r matches Some(j) ==> lit_at(s@, i as int, lit@) && j == i + lit@.len() && i <= j <= n,
        r is None ==> !lit_at(s@, i as int, lit@),
{
    let m = lit.unicode_len();
    if m > n - i {
        return Option::None;
    }
    let mut k: usize = 0;
    while k < m
        invariant
            n == s@.len(),
            m == lit@.len(),
            i + m <= n,
            k <= m,
            forall|t: int| 0 <= t < k ==> s@[i + t] == lit@[t],
        decreases m - k,
    {
        if s.get_char(i + k) != lit.get_char(k) {
            proof {
                assert(!lit_at(s@, i as int, lit@)) by {
                    if lit_at(s@, i as int, lit@) {
                        assert(s@.subrange(i as int, i as int + m as int)[k as int] == s@[i as int
                            + k as int]);
                    }
                }
            }
            return Option::None;
        }
        k = k + 1;
    }
    proof {
        assert(s@.subrange(i as int, i as int + m as int) =~= lit@);
    }
    Option::Some(i + m)
}

/// Numeric value of a hexadecimal digit character, if it is one.
fn hex_digit(c: char) -> (r: Option<u32>)
    ensures
        r matches Some(v) ==> is_hex(c) && v == hex_val(c) && v < 16,
        r is None ==> !is_hex(c),
{
    let u: u32 = c as u32;
    if ('0' as u32) <= u && u <= ('9' as u32) {
        Option::Some(u - ('0' as u32))
    } else if ('a' as u32) <= u && u <= ('f' as u32) {
        Option::Some(u - ('a' as u32) + 10)
    } else if ('A' as u32) <= u && u <= ('F' as u32) {
        Option::Some(u - ('A' as u32) + 10)
    } else {
        Option::None
    }
}

fn short_escape_e(e: char) -> (r: Option<char>)
    ensures
        r == short_escape(e),
{
    if e == '"' {
        Option::Some('"')
    } else if e == '\\' {
        Option::Some('\\')
    } else if e == '/' {
        Option::Some('/')
    } else if e == 'n' {
        Option::Some('\n')
    } else if e == 't' {
        Option::Some('\t')
    } else if e == 'r' {
        Option::Some('\r')
    } else if e == 'b' {
        let c = char_of_code(8);
        proof {
            assert(c == (8u32 as char));
        }
        Option::Some(c)
    } else if e == 'f' {
        let c = char_of_code(12);
        proof {
            assert(c == (12u32 as char));
        }
        Option::Some(c)
    } else {
        Option::None
    }
}

fn parse_str_content(s: &str, n: usize, i: usize, out: &mut String) -> (r: Option<usize>)
    requires
        n == s@.len(),
        i <= n,
    ensures
        r matches Some(j) ==> (str_at(s@, i as int) matches Some(v) && v.1 == j as int
            && final(out)@ == old(out)@ + v.0 && i < j <= n),
        r is None ==> str_at(s@, i as int) is None,
    decreases n - i,
{
    if i >= n {
        return Option::None;
    }
    let c = s.get_char(i);
    if c == '"' {
        proof {
            assert(out@ =~= old(out)@ + Seq::<char>::empty());
        }
        Option::Some(i + 1)
    } else if c == '\\' {
        if i + 1 >= n {
            return Option::None;
        }
        let e = s.get_char(i + 1);
        if e == 'u' {
            if n - i < 6 {
                return Option::None;
            }
            let h1 = match hex_digit(s.get_char(i + 2)) {
                Option::Some(v) => v,
                Option::None => {
                    return Option::None;
                },
            };
            let h2 = match hex_digit(s.get_char(i + 3)) {
                Option::Some(v) => v,
                Option::None => {
                    return Option::None;
                },
            };
            let h3 = match hex_digit(s.get_char(i + 4)) {
                Option::Some(v) => v,
                Option::None => {
                    return Option::None;
                },
            };
            let h4 = match hex_digit(s.get_char(i + 5)) {
                Option::Some(v) => v,
                Option::None => {
                    return Option::None;
                },
            };
            let v: u32 = h1 * 4096 + h2 * 256 + h3 * 16 + h4;
            if !(v < 0xD800 || 0xE000 <= v) {
                return Option::None;
            }
            let c2 = char_of_code(v);
            push_char(out, c2);
            let r = parse_str_content(s, n, i + 6, out);
            proof {
                if let Option::Some(t) = str_at(s@, i as int + 6) {
                    assert(c2 == ((v as int) as u32 as char));
                    assert(out@ =~= old(out)@ + (seq![(v as u32) as char] + t.0));
                }
            }
            r
        } else {
            let c2 = match short_escape_e(e) {
                Option::Some(c2) => c2,
                Option::None => {
                    return Option::None;
                },
            };
            push_char(out, c2);
            let r = parse_str_content(s, n, i + 2, out);
            proof {
                if let Option::Some(t) = str_at(s@, i as int + 2) {
                    assert(out@ =~= old(out)@ + (seq![c2] + t.0));
                }
            }
            r
        }
    } else {
        push_char(out, c);
        let r = parse_str_content(s, n, i + 1, out);
        proof {
            if let Option::Some(t) = str_at(s@, i as int + 1) {
                assert(out@ =~= old(out)@ + (seq![s@[i as int]] + t.0));
            }
        }
        r
    }
}

fn parse_member(s: &str, n: usize, i: usize, key: &str, out: &mut String) -> (r: Option<usize>)
    requires
        n == s@.len(),
        i <= n,
    ensures
        r matches Some(j) ==> (member_at(s@, i as int, key@) matches Some(v) && v.1 == j as int
            && final(out)@ == old(out)@ + v.0 && i <= j <= n),
        r is None ==> member_at(s@, i as int, key@) is None,
{
    proof {
        reveal_strlit(":");
        reveal_strlit("\"");
    }
    let i0 = match eat_lit(s, n, i, key) {
        Option::Some(j) => j,
        Option::None => {
            return Option::None;
        },
    };
    let a = skip_ws(s, n, i0);
    let a0 = match eat_lit(s, n, a, ":") {
        Option::Some(j) => j,
        Option::None => {
            return Option::None;
        },
    };
    let b = skip_ws(s, n, a0);
    let b0 = match eat_lit(s, n, b, "\"") {
        Option::Some(j) => j,
        Option::None => {
            return Option::None;
        },
    };
    parse_str_content(s, n, b0, out)
}

fn parse_island_at(s: &str, n: usize, i: usize) -> (r: Option<(PathIsland, usize)>)
    requires
        n == s@.len(),
        i <= n,
    ensures
        r matches Some(p) ==> (island_at(s@, i as int) matches Some(q) && q.0 == p.0@ && q.1
            == p.1 as int && i < p.1 <= n),
        r is None ==> island_at(s@, i as int) is None,
{
    proof {
        reveal_strlit("{");
        reveal_strlit(",");
        reveal_strlit("}");
    }
    let i0 = match eat_lit(s, n, i, "{") {
        Option::Some(j) => j,
        Option::None => {
            return Option::None;
        },
    };
    let p = skip_ws(s, n, i0);
    let id_first = eat_lit(s, n, p, "\"id\"").is_some();
    let key1: &str = if id_first {
        "\"id\""
    } else {
        "\"svg_path_data\""
    };
    let mut first = String::new();
    let j = match parse_member(s, n, p, key1, &mut first) {
        Option::Some(j) => j,
        Option::None => {
            return Option::None;
        },
    };
    proof {
        if let Option::Some(v) = member_at(s@, p as int, key1@) {
            assert(first@ =~= v.0);
        }
    }
    let j1 = skip_ws(s, n, j);
    let j1b = match eat_lit(s, n, j1, ",") {
        Option::Some(j) => j,
        Option::None => {
            return Option::None;
        },
    };
    let j2 = skip_ws(s, n, j1b);
    let key2: &str = if id_first {
        "\"svg_path_data\""
    } else {
        "\"id\""
    };
    let mut second = String::new();
    let k = match parse_member(s, n, j2, key2, &mut second) {
        Option::Some(j) => j,
        Option::None => {
            return Option::None;
        },
    };
    proof {
        if let Option::Some(v) = member_at(s@, j2 as int, key2@) {
            assert(second@ =~= v.0);
        }
    }
    let k1 = skip_ws(s, n, k);
    let k1b = match eat_lit(s, n, k1, "}") {
        Option::Some(j) => j,
        Option::None => {
            return Option::None;
        },
    };
    let isl = if id_first {
        PathIsland { id: first, svg_path_data: second }
    } else {
        PathIsland { id: second, svg_path_data: first }
    };
    Option::Some((isl, k1b))
}

fn parse_islands_rest(s: &str, n: usize, i: usize, out: &mut Vec<PathIsland>) -> (r: Option<usize>)
    requires
        n == s@.len(),
        i <= n,
    ensures
        r matches Some(j) ==> (islands_rest(s@, i as int) matches Some(v) && v.1 == j as int
            && islands_views(final(out)@) == islands_views(old(out)@) + v.0 && j <= n),
        r is None ==> islands_rest(s@, i as int) is None,
    decreases n - i,
{
    proof {
        reveal_strlit("]");
        reveal_strlit(",");
    }
    let p = skip_ws(s, n, i);
    if let Option::Some(j) = eat_lit(s, n, p, "]") {
        proof {
            assert(islands_views(out@) =~= islands_views(old(out)@) + Seq::<IslandModel>::empty());
        }
        return Option::Some(j);
    }
    let p1 = match eat_lit(s, n, p, ",") {
        Option::Some(j) => j,
        Option::None => {
            return Option::None;
        },
    };
    let q = skip_ws(s, n, p1);
    let (isl, j) = match parse_island_at(s, n, q) {
        Option::Some(r) => r,
        Option::None => {
            return Option::None;
        },
    };
    let ghost mid_isl = isl@;
    out.push(isl);
    let ghost mid = out@;
    let r = parse_islands_rest(s, n, j, out);
    proof {
        assert(islands_views(mid) =~= islands_views(old(out)@).push(mid_isl));
        if let Option::Some(v) = islands_rest(s@, j as int) {
            assert(islands_views(out@) =~= islands_views(old(out)@) + (seq![mid_isl] + v.0));
        }
    }
    r
}

/// Parses an island-list JSON text, per [`parse_islands_spec`]: standard
/// whitespace and string escapes are accepted, and the islands come back
/// in input order. On failure the error detail is `malformed island JSON`.
pub fn parse_islands(s: &str) -> (r: Result<Vec<PathIsland>, ParseError>)
    ensures
        r matches Ok(v) ==> parse_islands_spec(s@) == Option::Some(islands_views(v@)),
        r is Err <==> parse_islands_spec(s@) is None,
        r matches Err(e) ==> e.detail@ == "malformed island JSON"@,
{
    proof {
        reveal_strlit("[");
        reveal_strlit("]");
    }
    let n = s.unicode_len();
    let mut out: Vec<PathIsland> = Vec::new();
    let i0 = skip_ws(s, n, 0);
    let i0b = match eat_lit(s, n, i0, "[") {
        Option::Some(j) => j,
        Option::None => {
            return Result::Err(ParseError::new("malformed island JSON"));
        },
    };
    let i1 = skip_ws(s, n, i0b);
    if let Option::Some(j) = eat_lit(s, n, i1, "]") {
        let e = skip_ws(s, n, j);
        if e == n {
            proof {
                assert(islands_views(out@) =~= Seq::<IslandModel>::empty());
            }
            return Result::Ok(out);
        } else {
            return Result::Err(ParseError::new("malformed island JSON"));
        }
    }
    let (isl, j) = match parse_island_at(s, n, i1) {
        Option::Some(p) => p,
        Option::None => {
            return Result::Err(ParseError::new("malformed island JSON"));
        },
    };
    let ghost isl_view = isl@;
    out.push(isl);
    proof {
        assert(islands_views(out@) =~= seq![isl_view]);
    }
    let j2 = match parse_islands_rest(s, n, j, &mut out) {
        Option::Some(k) => k,
        Option::None => {
            return Result::Err(ParseError::new("malformed island JSON"));
        },
    };
    let e = skip_ws(s, n, j2);
    if e != n {
        return Result::Err(ParseError::new("malformed island JSON"));
    }
    proof {
        if let Option::Some(v) = islands_rest(s@, j as int) {
            assert(islands_views(out@) =~= seq![isl_view] + v.0);
        }
    }
    Result::Ok(out)
}


proof fn lemma_lit_prefix(a: Seq<char>, l: Seq<char>, rest: Seq<char>)
    ensures
        lit_at(a + l + rest, a.len() as int, l),
{
    let s = a + l + rest;
    assert(s.subrange(a.len() as int, (a.len() + l.len()) as int) =~= l);
}

proof fn lemma_hex_char(d: int)
    requires
        0 <= d < 16,
    ensures
        is_hex(hex_char(d)),
        hex_val(hex_char(d)) == d,
        !is_ws(hex_char(d)),
        hex_char(d) != '"',
{
}

proof fn lemma_str_at_escaped(a: Seq<char>, v: Seq<char>, rest: Seq<char>)
    ensures
        str_at(a + esc(v) + "\""@ + rest, a.len() as int) == Option::Some(
            (v, (a.len() + esc(v).len() + 1) as int),
        ),
    decreases v.len(),
{
    reveal_strlit("\"");
    let s = a + esc(v) + "\""@ + rest;
    let i = a.len() as int;
    if v.len() == 0 {
        assert(esc(v) =~= Seq::<char>::empty());
        assert(s =~= a + "\""@ + rest);
        assert(s[i] == '"');
        assert(str_at(s, i) == Option::Some((Seq::<char>::empty(), i + 1)));
        assert(v =~= Seq::<char>::empty());
    } else {
        let c = v[0];
        let v2 = v.drop_first();
        assert(esc(v) == esc_char(c) + esc(v2));
        lemma_str_at_escaped(a + esc_char(c), v2, rest);
        let s2 = (a + esc_char(c)) + esc(v2) + "\""@ + rest;
        assert(s2 =~= s);
        let tail_len: int = (a.len() + esc_char(c).len() + esc(v2).len() + 1) as int;
        if c == '"' || c == '\\' {
            assert(s[i] == '\\');
            assert(s[i + 1] == c);
            assert(i + 1 < s.len());
            assert(s[i + 1] != 'u');
            assert(short_escape(c) == Option::Some(c));
            assert(str_at(s, i + 2) == Option::Some((v2, tail_len)));
            assert(str_at(s, i) == Option::Some((seq![c] + v2, tail_len)));
            assert(seq![c] + v2 =~= v);
        } else if (c as u32) < 32 {
            let u = (c as u32) as int;
            lemma_hex_char(u / 16);
            lemma_hex_char(u % 16);
            assert(s[i] == '\\');
            assert(s[i + 1] == 'u');
            assert(s[i + 2] == '0');
            assert(s[i + 3] == '0');
            assert(s[i + 4] == hex_char(u / 16));
            assert(s[i + 5] == hex_char(u % 16));
            assert(i + 6 <= s.len());
            assert(is_hex(s[i + 2]) && is_hex(s[i + 3]) && is_hex(s[i + 4]) && is_hex(s[i + 5]));
            let code = hex_val(s[i + 2]) * 4096 + hex_val(s[i + 3]) * 256 + hex_val(s[i + 4]) * 16
                + hex_val(s[i + 5]);
            assert(code == u);
            assert(ok_code(code));
            vstd::utf8::char_u32_cast(c, code as u32);
            assert((code as u32) as char == c);
            assert(str_at(s, i + 6) == Option::Some((v2, tail_len)));
            assert(str_at(s, i) == Option::Some((seq![c] + v2, tail_len)));
            assert(seq![c] + v2 =~= v);
        } else {
            assert(s[i] == c);
            assert(s[i] != '"' && s[i] != '\\');
            assert(str_at(s, i + 1) == Option::Some((v2, tail_len)));
            assert(str_at(s, i) == Option::Some((seq![c] + v2, tail_len)));
            assert(seq![c] + v2 =~= v);
        }
        assert(tail_len == a.len() + esc(v).len() + 1);
    }
}

#[verifier::rlimit(100)]
#[verifier::spinoff_prover]
proof fn lemma_member_at_ser(a: Seq<char>, key: Seq<char>, v: Seq<char>, rest: Seq<char>)
    ensures
        member_at(a + (key + ":"@ + "\""@ + esc(v) + "\""@) + rest, a.len() as int, key)
            == Option::Some((v, (a.len() + key.len() + 2 + esc(v).len() + 1) as int)),
{
    reveal_strlit(":");
    reveal_strlit("\"");
    let s = a + (key + ":"@ + "\""@ + esc(v) + "\""@) + rest;
    let i = a.len() as int;
    let r1 = ":"@ + "\""@ + (esc(v) + "\""@ + rest);
    assert(s =~= a + key + r1);
    lemma_lit_prefix(a, key, r1);
    assert(lit_at(s, i, key));
    let a1 = a + key;
    assert(s[i + key.len()] == ':');
    assert(ws(s, i + key.len() as int) == i + key.len());
    let r2 = "\""@ + (esc(v) + "\""@ + rest);
    assert(s =~= a1 + ":"@ + r2);
    lemma_lit_prefix(a1, ":"@, r2);
    assert(lit_at(s, i + key.len() as int, ":"@));
    let a2 = a1 + ":"@;
    assert(s[i + key.len() + 1] == '"');
    assert(ws(s, i + key.len() as int + 1) == i + key.len() + 1);
    let r3 = esc(v) + "\""@ + rest;
    assert(s =~= a2 + "\""@ + r3);
    lemma_lit_prefix(a2, "\""@, r3);
    assert(lit_at(s, i + key.len() as int + 1, "\""@));
    let a3 = a2 + "\""@;
    assert(a3.len() == i + key.len() + 2);
    assert(s =~= a3 + esc(v) + "\""@ + rest);
    lemma_str_at_escaped(a3, v, rest);
    assert(str_at(s, i + key.len() as int + 2) == Option::Some(
        (v, (a3.len() + esc(v).len() + 1) as int),
    ));
}

#[verifier::rlimit(100)]
#[verifier::spinoff_prover]
proof fn lemma_island_at_ser(a: Seq<char>, isl: IslandModel, rest: Seq<char>)
    ensures
        island_at(a + ser_island(isl) + rest, a.len() as int) == Option::Some(
            (isl, (a.len() + ser_island(isl).len()) as int),
        ),
{
    reveal_strlit("{\"id\":\"");
    reveal_strlit("\",\"svg_path_data\":\"");
    reveal_strlit("\"svg_path_data\"");
    reveal_strlit("\"id\"");
    reveal_strlit("\"}");
    reveal_strlit("{");
    reveal_strlit("}");
    reveal_strlit(":");
    reveal_strlit(",");
    reveal_strlit("\"");
    let s = a + ser_island(isl) + rest;
    let i = a.len() as int;
    let mid1 = "\"id\""@ + ":"@ + "\""@ + esc(isl.id) + "\""@;
    let mid2 = "\"svg_path_data\""@ + ":"@ + "\""@ + esc(isl.d) + "\""@;
    assert("{\"id\":\""@ =~= "{"@ + ("\"id\""@ + ":"@ + "\""@));
    assert("\",\"svg_path_data\":\""@ =~= "\""@ + ","@ + ("\"svg_path_data\""@ + ":"@
        + "\""@));
    assert("\"}"@ =~= "\""@ + "}"@);
    let r1 = mid1 + (","@ + (mid2 + ("}"@ + rest)));
    assert(s =~= a + "{"@ + r1);
    lemma_lit_prefix(a, "{"@, r1);
    assert(lit_at(s, i, "{"@));
    let a1 = a + "{"@;
    assert(s[i + 1] == '"');
    assert(ws(s, i + 1) == i + 1);
    let r1b = "\"id\""@ + (":"@ + "\""@ + (esc(isl.id) + "\""@ + (","@ + (mid2 + ("}"@
        + rest)))));
    assert(s =~= a1 + r1b);
    lemma_lit_prefix(a1, "\"id\""@, ":"@ + "\""@ + (esc(isl.id) + "\""@ + (","@ + (mid2 + ("}"@
        + rest)))));
    assert(s =~= a1 + "\"id\""@ + (":"@ + "\""@ + (esc(isl.id) + "\""@ + (","@ + (mid2 + ("}"@
        + rest))))));
    assert(lit_at(s, i + 1, "\"id\""@));
    assert(s =~= a1 + ("\"id\""@ + ":"@ + "\""@ + esc(isl.id) + "\""@) + (","@ + (mid2 + ("}"@
        + rest))));
    lemma_member_at_ser(a1, "\"id\""@, isl.id, ","@ + (mid2 + ("}"@ + rest)));
    let j: int = (a1.len() + 4 + 2 + esc(isl.id).len() + 1) as int;
    assert(member_at(s, i + 1, "\"id\""@) == Option::Some((isl.id, j)));
    let a2 = a1 + mid1;
    assert(a2.len() == j);
    assert(s =~= a2 + ","@ + (mid2 + ("}"@ + rest)));
    assert(s[j] == ',');
    assert(ws(s, j) == j);
    lemma_lit_prefix(a2, ","@, mid2 + ("}"@ + rest));
    assert(lit_at(s, j, ","@));
    let a3 = a2 + ","@;
    assert(s =~= a3 + mid2 + ("}"@ + rest));
    assert(s[j + 1] == '"');
    assert(ws(s, j + 1) == j + 1);
    assert(s =~= a3 + ("\"svg_path_data\""@ + ":"@ + "\""@ + esc(isl.d) + "\""@) + ("}"@
        + rest));
    lemma_member_at_ser(a3, "\"svg_path_data\""@, isl.d, "}"@ + rest);
    let k: int = (a3.len() + 15 + 2 + esc(isl.d).len() + 1) as int;
    assert(member_at(s, j + 1, "\"svg_path_data\""@) == Option::Some((isl.d, k)));
    let a4 = a3 + mid2;
    assert(a4.len() == k);
    assert(s =~= a4 + "}"@ + rest);
    assert(s[k] == '}');
    assert(ws(s, k) == k);
    lemma_lit_prefix(a4, "}"@, rest);
    assert(lit_at(s, k, "}"@));
    assert(island_at(s, i) == Option::Some((IslandModel { id: isl.id, d: isl.d }, k + 1)));
    assert(IslandModel { id: isl.id, d: isl.d } == isl);
    assert(k + 1 == a.len() + ser_island(isl).len());
}

#[verifier::rlimit(100)]
#[verifier::spinoff_prover]
proof fn lemma_islands_rest_ser(a: Seq<char>, islands: Seq<IslandModel>, i: int)
    requires
        0 <= i,
    ensures
        islands_rest(a + ser_tail(islands, i), a.len() as int) == Option::Some(
            (
                islands.subrange(
                    if i <= islands.len() {
                        i
                    } else {
                        islands.len() as int
                    },
                    islands.len() as int,
                ),
                (a.len() + ser_tail(islands, i).len()) as int,
            ),
        ),
    decreases islands.len() - i,
{
    reveal_strlit("]");
    reveal_strlit(",");
    reveal_strlit("{\"id\":\"");
    reveal_strlit("{");
    let s = a + ser_tail(islands, i);
    if i >= islands.len() {
        assert(ser_tail(islands, i) == "]"@);
        assert(s =~= a + "]"@ + Seq::<char>::empty());
        assert(s[a.len() as int] == ']');
        assert(ws(s, a.len() as int) == a.len() as int);
        lemma_lit_prefix(a, "]"@, Seq::<char>::empty());
        assert(lit_at(s, a.len() as int, "]"@));
        assert(islands.subrange(islands.len() as int, islands.len() as int) =~= Seq::<
            IslandModel,
        >::empty());
    } else {
        let tail = ser_tail(islands, i + 1);
        assert(ser_tail(islands, i) == ","@ + ser_island(islands[i]) + tail);
        assert(s =~= a + ","@ + (ser_island(islands[i]) + tail));
        assert(s[a.len() as int] == ',');
        assert(ws(s, a.len() as int) == a.len() as int);
        assert(!lit_at(s, a.len() as int, "]"@)) by {
            if lit_at(s, a.len() as int, "]"@) {
                assert(s.subrange(a.len() as int, (a.len() + 1) as int)[0] == s[a.len() as int]);
            }
        }
        lemma_lit_prefix(a, ","@, ser_island(islands[i]) + tail);
        assert(lit_at(s, a.len() as int, ","@));
        let a1 = a + ","@;
        assert(s =~= a1 + ser_island(islands[i]) + tail);
        assert(s[a.len() as int + 1] == '{');
        assert(ws(s, a.len() as int + 1) == a.len() as int + 1);
        lemma_island_at_ser(a1, islands[i], tail);
        let j: int = (a1.len() + ser_island(islands[i]).len()) as int;
        assert(island_at(s, a.len() as int + 1) == Option::Some((islands[i], j)));
        let a2 = a1 + ser_island(islands[i]);
        assert(a2.len() == j);
        assert(s =~= a2 + ser_tail(islands, i + 1));
        lemma_islands_rest_ser(a2, islands, i + 1);
        assert(islands_rest(s, j) == Option::Some(
            (
                islands.subrange(i + 1, islands.len() as int),
                (a2.len() + ser_tail(islands, i + 1).len()) as int,
            ),
        ));
        assert(seq![islands[i]] + islands.subrange(i + 1, islands.len() as int) =~= islands
            .subrange(i, islands.len() as int));
        assert(a2.len() + ser_tail(islands, i + 1).len() == a.len() + ser_tail(
            islands,
            i,
        ).len());
    }
}

/// Round trip: parsing a serialized island list yields exactly the same
/// islands, for every island list — the JSON interchange is lossless for
/// the command strings and ids it carries.
#[verifier::rlimit(100)]
#[verifier::spinoff_prover]
pub proof fn lemma_json_round_trip(islands: Seq<IslandModel>)
    ensures
        parse_islands_spec(ser_islands(islands)) == Option::Some(islands),
{
    reveal_strlit("[");
    reveal_strlit("]");
    reveal_strlit("[]");
    reveal_strlit("{\"id\":\"");
    reveal_strlit("\",\"svg_path_data\":\"");
    reveal_strlit("\"}");
    reveal_strlit("{");
    let s = ser_islands(islands);
    if islands.len() == 0 {
        assert(s == "[]"@);
        assert(s =~= Seq::<char>::empty() + "["@ + "]"@);
        assert(s[0] == '[');
        assert(ws(s, 0) == 0);
        lemma_lit_prefix(Seq::<char>::empty(), "["@, "]"@);
        assert(lit_at(s, 0, "["@));
        assert(s =~= "["@ + "]"@ + Seq::<char>::empty());
        assert(s[1] == ']');
        assert(ws(s, 1) == 1);
        lemma_lit_prefix("["@, "]"@, Seq::<char>::empty());
        assert(lit_at(s, 1, "]"@));
        assert(s.len() == 2);
        assert(ws(s, 2) == 2);
    } else {
        let ser0 = ser_island(islands[0]);
        let tail = ser_tail(islands, 1);
        assert(s == "["@ + ser0 + tail);
        assert(s =~= Seq::<char>::empty() + "["@ + (ser0 + tail));
        assert(s[0] == '[');
        assert(ws(s, 0) == 0);
        lemma_lit_prefix(Seq::<char>::empty(), "["@, ser0 + tail);
        assert(lit_at(s, 0, "["@));
        assert(s[1] == '{');
        assert(ws(s, 1) == 1);
        assert(!lit_at(s, 1, "]"@)) by {
            if lit_at(s, 1, "]"@) {
                assert(s.subrange(1, 2)[0] == s[1]);
            }
        }
        lemma_island_at_ser("["@, islands[0], tail);
        assert(island_at(s, 1) == Option::Some((islands[0], (1 + ser0.len()) as int)));
        let a2 = "["@ + ser0;
        assert(a2.len() == 1 + ser0.len());
        assert(s =~= a2 + tail);
        lemma_islands_rest_ser(a2, islands, 1);
        assert(islands_rest(s, (1 + ser0.len()) as int) == Option::Some(
            (islands.subrange(1, islands.len() as int), (a2.len() + tail.len()) as int),
        ));
        assert(a2.len() + tail.len() == s.len());
        assert(ws(s, s.len() as int) == s.len() as int);
        assert(seq![islands[0]] + islands.subrange(1, islands.len() as int) =~= islands);
    }
}

} // verus!
