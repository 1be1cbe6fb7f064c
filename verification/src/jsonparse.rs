//! A strict JSON parser for the document model.
//!
//! The parser accepts the four literals, strings with the standard short
//! escapes and `\u00XX` escapes, fixed-point numbers with up to six
//! fractional digits, arrays and objects, with insignificant whitespace
//! between tokens.  Exponents, deeper escapes and numbers outside the
//! fixed-point range are rejected: the model is exact.

use vstd::prelude::*;

use crate::json::{JsonV, JsonValue};

verus! {

/// JSON insignificant whitespace.
pub open spec fn is_json_ws(c: char) -> bool {
    c == ' ' || c == '\t' || c == '\n' || c == '\r'
}

/// The first position at or after `i` holding a non-whitespace character.
pub open spec fn skip_ws(s: Seq<char>, i: int) -> int
    decreases s.len() - i,
{
    if i < 0 || i >= s.len() {
        i
    } else if is_json_ws(s[i]) {
        skip_ws(s, i + 1)
    } else {
        i
    }
}

/// Skipping whitespace never moves backwards and stays in bounds.
pub proof fn lemma_skip_ws(s: Seq<char>, i: int)
    requires
        0 <= i <= s.len(),
    ensures
        i <= skip_ws(s, i) <= s.len(),
        skip_ws(s, i) < s.len() ==> !is_json_ws(s[skip_ws(s, i)]),
    decreases s.len() - i,
{
    if i < s.len() && is_json_ws(s[i]) {
        lemma_skip_ws(s, i + 1);
    }
}

/// Whether the literal occurs at position `i`.
pub open spec fn matches_at(s: Seq<char>, i: int, lit: Seq<char>) -> bool {
    0 <= i && i + lit.len() <= s.len() && s.subrange(i, i + lit.len()) == lit
}

/// Whether a character is a decimal digit.
pub open spec fn is_digit(c: char) -> bool {
    '0' <= c && c <= '9'
}

/// The numeric value of a digit character.
pub open spec fn digit_val(c: char) -> int {
    c as u32 as int - '0' as u32 as int
}

/// The position right after the digit run starting at `i`.
pub open spec fn digits_end(s: Seq<char>, i: int) -> int
    decreases s.len() - i,
{
    if i < 0 || i >= s.len() {
        i
    } else if is_digit(s[i]) {
        digits_end(s, i + 1)
    } else {
        i
    }
}

/// The value of the digit run in `s[i..j]`.
pub open spec fn digits_value(s: Seq<char>, i: int, j: int) -> int
    decreases j - i,
{
    if j <= i {
        0
    } else {
        digits_value(s, i, j - 1) * 10 + digit_val(s[j - 1])
    }
}

/// A digit run never moves backwards and stays in bounds.
pub proof fn lemma_digits_end(s: Seq<char>, i: int)
    requires
        0 <= i <= s.len(),
    ensures
        i <= digits_end(s, i) <= s.len(),
        digits_end(s, i) < s.len() ==> !is_digit(s[digits_end(s, i)]),
        forall|j: int| i <= j < digits_end(s, i) ==> is_digit(#[trigger] s[j]),
    decreases s.len() - i,
{
    if i < s.len() && is_digit(s[i]) {
        lemma_digits_end(s, i + 1);
    }
}

/// The parse of a number starting at `i`: the fixed-point value in
/// millionths and the position after it.  At most six fractional digits;
/// the magnitude must fit the fixed-point range; exponents are not
/// accepted.
pub open spec fn parse_number(s: Seq<char>, i: int) -> Option<(JsonV, int)> {
    let neg = 0 <= i < s.len() && s[i] == '-';
    let di = if neg {
        i + 1
    } else {
        i
    };
    let de = digits_end(s, di);
    if de <= di {
        None
    } else {
        let units = digits_value(s, di, de);
        if de < s.len() && s[de] == '.' {
            let fe = digits_end(s, de + 1);
            let fd = fe - (de + 1);
            if fd < 1 || fd > 6 {
                None
            } else {
                let frac = digits_value(s, de + 1, fe) * pow10(6 - fd);
                let mag = units * 1_000_000 + frac;
                if (neg && mag <= 0x7fff_ffff_ffff_ffff) || (!neg && mag
                    <= 0x7fff_ffff_ffff_ffff) {
                    Some((JsonV::Num((if neg { -mag } else { mag }) as i64), fe))
                } else {
                    None
                }
            }
        } else {
            let mag = units * 1_000_000;
            if mag <= 0x7fff_ffff_ffff_ffff {
                Some((JsonV::Num((if neg { -mag } else { mag }) as i64), de))
            } else {
                None
            }
        }
    }
}

/// Powers of ten.
pub open spec fn pow10(n: int) -> int
    decreases n,
{
    if n <= 0 {
        1
    } else {
        10 * pow10(n - 1)
    }
}

/// The parse of a string body starting at `i` (after the opening quote):
/// the unescaped characters and the position after the closing quote.
pub open spec fn parse_string_body(s: Seq<char>, i: int) -> Option<(Seq<char>, int)>
    decreases s.len() - i,
{
    if i < 0 || i >= s.len() {
        None
    } else {
        let c = s[i];
        if c == '"' {
            Some((Seq::empty(), i + 1))
        } else if c == '\\' {
            if i + 1 >= s.len() {
                None
            } else {
                let e = s[i + 1];
                if e == 'u' {
                    if i + 5 < s.len() && s[i + 2] == '0' && s[i + 3] == '0' && is_hex(s[i + 4])
                        && is_hex(s[i + 5]) && hex_val(s[i + 4]) * 16 + hex_val(s[i + 5]) < 0x20 {
                        let code = hex_val(s[i + 4]) * 16 + hex_val(s[i + 5]);
                        match parse_string_body(s, i + 6) {
                            Some((rest, j)) => Some((seq![(code as u8) as char] + rest, j)),
                            None => None,
                        }
                    } else {
                        None
                    }
                } else {
                    let decoded: Option<char> = if e == '"' {
                        Some('"')
                    } else if e == '\\' {
                        Some('\\')
                    } else if e == '/' {
                        Some('/')
                    } else if e == 'b' {
                        Some('\u{8}')
                    } else if e == 't' {
                        Some('\t')
                    } else if e == 'n' {
                        Some('\n')
                    } else if e == 'f' {
                        Some('\u{c}')
                    } else if e == 'r' {
                        Some('\r')
                    } else {
                        None
                    };
                    match decoded {
                        Some(d) => match parse_string_body(s, i + 2) {
                            Some((rest, j)) => Some((seq![d] + rest, j)),
                            None => None,
                        },
                        None => None,
                    }
                }
            }
        } else if (c as u32) < 0x20 {
            None
        } else {
            match parse_string_body(s, i + 1) {
                Some((rest, j)) => Some((seq![c] + rest, j)),
                None => None,
            }
        }
    }
}

/// Whether a character is a lowercase hexadecimal digit.
pub open spec fn is_hex(c: char) -> bool {
    ('0' <= c && c <= '9') || ('a' <= c && c <= 'f')
}

/// The value of a lowercase hexadecimal digit.
pub open spec fn hex_val(c: char) -> int {
    if '0' <= c && c <= '9' {
        c as u32 as int - '0' as u32 as int
    } else {
        c as u32 as int - 'a' as u32 as int + 10
    }
}

/// The parse of a value starting at `i`, whitespace allowed before it:
/// the value and the position after it.
pub open spec fn parse_value(s: Seq<char>, i: int) -> Option<(JsonV, int)>
    decreases s.len() - i, 0int,
{
    if i < 0 {
        None
    } else {
        let i0 = skip_ws(s, i);
        if i0 < i || i0 >= s.len() {
            None
        } else {
            let c = s[i0];
            if c == 'n' {
                if matches_at(s, i0, seq!['n', 'u', 'l', 'l']) {
                    Some((JsonV::Null, i0 + 4))
                } else {
                    None
                }
            } else if c == 't' {
                if matches_at(s, i0, seq!['t', 'r', 'u', 'e']) {
                    Some((JsonV::Bool(true), i0 + 4))
                } else {
                    None
                }
            } else if c == 'f' {
                if matches_at(s, i0, seq!['f', 'a', 'l', 's', 'e']) {
                    Some((JsonV::Bool(false), i0 + 5))
                } else {
                    None
                }
            } else if c == '"' {
                match parse_string_body(s, i0 + 1) {
                    Some((body, j)) => Some((JsonV::Str(body), j)),
                    None => None,
                }
            } else if c == '[' {
                match parse_elems(s, i0 + 1) {
                    Some((items, j)) => Some((JsonV::Arr(items), j)),
                    None => None,
                }
            } else if c == '{' {
                match parse_members(s, i0 + 1) {
                    Some((pairs, j)) => Some((JsonV::Obj(pairs), j)),
                    None => None,
                }
            } else if c == '-' || is_digit(c) {
                parse_number(s, i0)
            } else {
                None
            }
        }
    }
}

/// The parse of array elements starting right after `[`: the elements and
/// the position after `]`.
pub open spec fn parse_elems(s: Seq<char>, i: int) -> Option<(Seq<JsonV>, int)>
    decreases s.len() - i, 1int,
{
    if i < 0 {
        None
    } else {
        let i1 = skip_ws(s, i);
        if i1 < i || i1 >= s.len() {
            None
        } else if s[i1] == ']' {
            Some((Seq::empty(), i1 + 1))
        } else {
            match parse_value(s, i1) {
                Some((v, j)) => if j <= i1 || j > s.len() {
                    None
                } else {
                    match parse_elems_rest(s, j) {
                        Some((vs, end)) => Some((seq![v] + vs, end)),
                        None => None,
                    }
                },
                None => None,
            }
        }
    }
}

/// The parse of the rest of an array after one element: `,` separated
/// elements up to `]`.
pub open spec fn parse_elems_rest(s: Seq<char>, i: int) -> Option<(Seq<JsonV>, int)>
    decreases s.len() - i, 1int,
{
    if i < 0 {
        None
    } else {
        let i1 = skip_ws(s, i);
        if i1 < i || i1 >= s.len() {
            None
        } else if s[i1] == ']' {
            Some((Seq::empty(), i1 + 1))
        } else if s[i1] == ',' {
            match parse_value(s, i1 + 1) {
                Some((v, j)) => if j <= i1 + 1 || j > s.len() {
                    None
                } else {
                    match parse_elems_rest(s, j) {
                        Some((vs, end)) => Some((seq![v] + vs, end)),
                        None => None,
                    }
                },
                None => None,
            }
        } else {
            None
        }
    }
}

/// The parse of object members starting right after `{`: the pairs and the
/// position after `}`.
pub open spec fn parse_members(s: Seq<char>, i: int) -> Option<(Seq<(Seq<char>, JsonV)>, int)>
    decreases s.len() - i, 1int,
{
    if i < 0 {
        None
    } else {
        let i1 = skip_ws(s, i);
        if i1 < i || i1 >= s.len() {
            None
        } else if s[i1] == '}' {
            Some((Seq::empty(), i1 + 1))
        } else if s[i1] == '"' {
            match parse_member_at(s, i1) {
                Some((key, v, j)) => if j <= i1 || j > s.len() {
                    None
                } else {
                    match parse_members_rest(s, j) {
                        Some((ps, end)) => Some((seq![(key, v)] + ps, end)),
                        None => None,
                    }
                },
                None => None,
            }
        } else {
            None
        }
    }
}

/// The parse of one `"key": value` member whose opening quote stands at
/// `i`.
pub open spec fn parse_member_at(s: Seq<char>, i: int) -> Option<(Seq<char>, JsonV, int)>
    decreases s.len() - i, 0int,
{
    if i < 0 || i >= s.len() || s[i] != '"' {
        None
    } else {
        match parse_string_body(s, i + 1) {
            Some((key, jk)) => if jk <= i {
                None
            } else {
                let jc = skip_ws(s, jk);
                if jc < jk || jc >= s.len() || s[jc] != ':' {
                    None
                } else {
                    match parse_value(s, jc + 1) {
                        Some((v, j)) => Some((key, v, j)),
                        None => None,
                    }
                }
            },
            None => None,
        }
    }
}

/// The parse of the rest of an object after one member: `,` separated
/// members up to `}`.
pub open spec fn parse_members_rest(s: Seq<char>, i: int) -> Option<(Seq<(Seq<char>, JsonV)>, int)>
    decreases s.len() - i, 1int,
{
    if i < 0 {
        None
    } else {
        let i1 = skip_ws(s, i);
        if i1 < i || i1 >= s.len() {
            None
        } else if s[i1] == '}' {
            Some((Seq::empty(), i1 + 1))
        } else if s[i1] == ',' {
            let i2 = skip_ws(s, i1 + 1);
            if i2 < i1 + 1 || i2 >= s.len() {
                None
            } else {
                match parse_member_at(s, i2) {
                    Some((key, v, j)) => if j <= i2 || j > s.len() {
                        None
                    } else {
                        match parse_members_rest(s, j) {
                            Some((ps, end)) => Some((seq![(key, v)] + ps, end)),
                            None => None,
                        }
                    },
                    None => None,
                }
            }
        } else {
            None
        }
    }
}

/// The parse of a whole document: a single value with only whitespace
/// after it.
pub open spec fn spec_parse_json(s: Seq<char>) -> Option<JsonV> {
    match parse_value(s, 0) {
        Some((v, j)) => if skip_ws(s, j) == s.len() {
            Some(v)
        } else {
            None
        },
        None => None,
    }
}


/// Powers of ten are positive.
pub proof fn lemma_pow10_pos(n: int)
    ensures
        pow10(n) >= 1,
    decreases n,
{
    if n > 0 {
        lemma_pow10_pos(n - 1);
    }
}

/// Powers of ten are monotone.
pub proof fn lemma_pow10_mono(a: int, b: int)
    requires
        a <= b,
    ensures
        pow10(a) <= pow10(b),
    decreases b - a,
{
    lemma_pow10_pos(a);
    if a < b {
        lemma_pow10_mono(a, b - 1);
        lemma_pow10_pos(b - 1);
    }
}

/// The small powers of ten, unfolded.
pub proof fn lemma_pow10_unfold()
    ensures
        pow10(0) == 1,
        pow10(1) == 10,
        pow10(2) == 100,
        pow10(3) == 1000,
        pow10(4) == 10000,
        pow10(5) == 100000,
        pow10(6) == 1000000,
{
    assert(pow10(0) == 1);
    assert(pow10(1) == 10);
    assert(pow10(2) == 100);
    assert(pow10(3) == 1000);
    assert(pow10(4) == 10000);
    assert(pow10(5) == 100000);
    assert(pow10(6) == 1000000);
}

/// A one-character string for a control code.
fn control_str(code: u8) -> (r: &'static str)
    requires
        code < 32,
    ensures
        r@ == seq![code as char],
{
    let r: &'static str = if code == 0 {
        "\u{0}"
    } else if code == 1 {
        "\u{1}"
    } else if code == 2 {
        "\u{2}"
    } else if code == 3 {
        "\u{3}"
    } else if code == 4 {
        "\u{4}"
    } else if code == 5 {
        "\u{5}"
    } else if code == 6 {
        "\u{6}"
    } else if code == 7 {
        "\u{7}"
    } else if code == 8 {
        "\u{8}"
    } else if code == 9 {
        "\u{9}"
    } else if code == 10 {
        "\u{a}"
    } else if code == 11 {
        "\u{b}"
    } else if code == 12 {
        "\u{c}"
    } else if code == 13 {
        "\u{d}"
    } else if code == 14 {
        "\u{e}"
    } else if code == 15 {
        "\u{f}"
    } else if code == 16 {
        "\u{10}"
    } else if code == 17 {
        "\u{11}"
    } else if code == 18 {
        "\u{12}"
    } else if code == 19 {
        "\u{13}"
    } else if code == 20 {
        "\u{14}"
    } else if code == 21 {
        "\u{15}"
    } else if code == 22 {
        "\u{16}"
    } else if code == 23 {
        "\u{17}"
    } else if code == 24 {
        "\u{18}"
    } else if code == 25 {
        "\u{19}"
    } else if code == 26 {
        "\u{1a}"
    } else if code == 27 {
        "\u{1b}"
    } else if code == 28 {
        "\u{1c}"
    } else if code == 29 {
        "\u{1d}"
    } else if code == 30 {
        "\u{1e}"
    } else if code == 31 {
        "\u{1f}"
    } else {
        "\u{1f}"
    };
    proof {
        reveal_strlit("\u{0}");
        reveal_strlit("\u{1}");
        reveal_strlit("\u{2}");
        reveal_strlit("\u{3}");
        reveal_strlit("\u{4}");
        reveal_strlit("\u{5}");
        reveal_strlit("\u{6}");
        reveal_strlit("\u{7}");
        reveal_strlit("\u{8}");
        reveal_strlit("\u{9}");
        reveal_strlit("\u{a}");
        reveal_strlit("\u{b}");
        reveal_strlit("\u{c}");
        reveal_strlit("\u{d}");
        reveal_strlit("\u{e}");
        reveal_strlit("\u{f}");
        reveal_strlit("\u{10}");
        reveal_strlit("\u{11}");
        reveal_strlit("\u{12}");
        reveal_strlit("\u{13}");
        reveal_strlit("\u{14}");
        reveal_strlit("\u{15}");
        reveal_strlit("\u{16}");
        reveal_strlit("\u{17}");
        reveal_strlit("\u{18}");
        reveal_strlit("\u{19}");
        reveal_strlit("\u{1a}");
        reveal_strlit("\u{1b}");
        reveal_strlit("\u{1c}");
        reveal_strlit("\u{1d}");
        reveal_strlit("\u{1e}");
        reveal_strlit("\u{1f}");
        assert(r@ =~= seq![code as char]);
    }
    r
}

/// Scan to the end of the digit run starting at `i`.
fn digits_end_at(s: &str, i: usize) -> (r: usize)
    requires
        i <= s@.len(),
    ensures
        r as int == digits_end(s@, i as int),
        i <= r <= s@.len(),
    decreases s@.len() - i,
{
    proof {
        lemma_digits_end(s@, i as int);
    }
    if i < s.unicode_len() {
        let c = s.get_char(i);
        if '0' <= c && c <= '9' {
            return digits_end_at(s, i + 1);
        }
    }
    i
}

/// The value of a digit run is non-negative.
pub proof fn lemma_digits_value_nonneg(s: Seq<char>, i: int, j: int)
    requires
        forall|k: int| i <= k < j ==> is_digit(#[trigger] s[k]),
    ensures
        digits_value(s, i, j) >= 0,
    decreases j - i,
{
    if j > i {
        lemma_digits_value_nonneg(s, i, j - 1);
        assert(digit_val(s[j - 1]) >= 0);
        assert(digits_value(s, i, j - 1) * 10 >= 0) by (nonlinear_arith)
            requires
                digits_value(s, i, j - 1) >= 0,
        ;
    }
}

/// `digits_value` only grows as the run extends.
pub proof fn lemma_digits_value_monotone(s: Seq<char>, i: int, j1: int, j2: int)
    requires
        i <= j1 <= j2,
        forall|j: int| i <= j < j2 ==> is_digit(#[trigger] s[j]),
    ensures
        0 <= digits_value(s, i, j1) <= digits_value(s, i, j2),
    decreases j2 - j1,
{
    lemma_digits_value_nonneg(s, i, j1);
    if j1 < j2 {
        lemma_digits_value_monotone(s, i, j1, j2 - 1);
        assert(digit_val(s[j2 - 1]) >= 0);
        assert(digits_value(s, i, j2 - 1) * 10 >= digits_value(s, i, j2 - 1)) by (nonlinear_arith)
            requires
                digits_value(s, i, j2 - 1) >= 0,
        ;
        assert(digits_value(s, i, j2) == digits_value(s, i, j2 - 1) * 10 + digit_val(s[j2 - 1]));
    }
}

/// A run of at most `j - i` digits stays below `pow10(j - i)`.
pub proof fn lemma_digits_value_bound(s: Seq<char>, i: int, j: int)
    requires
        i <= j,
        forall|k: int| i <= k < j ==> is_digit(#[trigger] s[k]),
    ensures
        0 <= digits_value(s, i, j) < pow10(j - i),
    decreases j - i,
{
    if j > i {
        lemma_digits_value_bound(s, i, j - 1);
        assert(digit_val(s[j - 1]) <= 9);
        assert(digits_value(s, i, j - 1) * 10 + 9 < pow10(j - i - 1) * 10) by (nonlinear_arith)
            requires
                digits_value(s, i, j - 1) < pow10(j - i - 1),
        ;
        assert(pow10(j - i) == 10 * pow10(j - i - 1));
    }
}

/// The value of the digit run `s[i..j]`, or `None` when it exceeds the
/// fixed-point range bound given.
fn digits_value_at(s: &str, i: usize, j: usize, bound: u128) -> (r: Option<u128>)
    requires
        i <= j <= s@.len(),
        forall|k: int| i <= k < j ==> is_digit(#[trigger] s@[k]),
        bound <= 0x7fff_ffff_ffff_ffffu128,
    ensures
        r matches Some(v) ==> v as int == digits_value(s@, i as int, j as int) && v <= bound,
        r is None ==> digits_value(s@, i as int, j as int) > bound,
{
    let mut v: u128 = 0;
    let mut k: usize = i;
    while k < j
        invariant
            i <= k <= j <= s@.len(),
            forall|m: int| i <= m < j ==> is_digit(#[trigger] s@[m]),
            bound <= 0x7fff_ffff_ffff_ffffu128,
            v as int == digits_value(s@, i as int, k as int),
            v <= bound,
        decreases j - k,
    {
        let c = s.get_char(k);
        proof {
            assert(is_digit(s@[k as int]));
        }
        let d: u128 = (c as u32 as u128) - ('0' as u32 as u128);
        let next: u128 = v * 10 + d;
        proof {
            assert(next as int == digits_value(s@, i as int, k as int + 1));
        }
        if next > bound {
            proof {
                lemma_digits_value_monotone(s@, i as int, k as int + 1, j as int);
            }
            return None;
        }
        v = next;
        k += 1;
    }
    Some(v)
}

/// Parse a number starting at `i`.
fn parse_number_at(s: &str, i: usize) -> (r: Option<(JsonValue, usize)>)
    requires
        i <= s@.len(),
    ensures
        match parse_number(s@, i as int) {
            Some(p) => r matches Some(q) && q.0@ == p.0 && q.1 as int == p.1 && q.1 <= s@.len(),
            None => r is None,
        },
{
    let n = s.unicode_len();
    let neg = i < n && s.get_char(i) == '-';
    let di: usize = if neg {
        i + 1
    } else {
        i
    };
    let de = digits_end_at(s, di);
    proof {
        lemma_digits_end(s@, di as int);
    }
    if de <= di {
        return None;
    }
    let units = match digits_value_at(s, di, de, 9_223_372_036_854u128) {
        Some(u) => u,
        None => {
            proof {
                let uv = digits_value(s@, di as int, de as int);
                assert(uv * 1_000_000 > 0x7fff_ffff_ffff_ffff) by (nonlinear_arith)
                    requires
                        uv > 9_223_372_036_854,
                ;
                if de < s@.len() && s@[de as int] == '.' {
                    let fe = digits_end(s@, de as int + 1);
                    let fd = fe - (de as int + 1);
                    if 1 <= fd <= 6 {
                        lemma_digits_end(s@, de as int + 1);
                        lemma_digits_value_nonneg(s@, de as int + 1, fe);
                        lemma_pow10_pos(6 - fd);
                        assert(digits_value(s@, de as int + 1, fe) * pow10(6 - fd) >= 0)
                            by (nonlinear_arith)
                            requires
                                digits_value(s@, de as int + 1, fe) >= 0,
                                pow10(6 - fd) >= 1,
                        ;
                    }
                }
            }
            return None;
        },
    };
    if de < n && s.get_char(de) == '.' {
        let fe = digits_end_at(s, de + 1);
        proof {
            lemma_digits_end(s@, de as int + 1);
        }
        let fd = fe - (de + 1);
        if fd < 1 || fd > 6 {
            return None;
        }
        let fval = match digits_value_at(s, de + 1, fe, 999_999u128) {
            Some(f) => f,
            None => {
                proof {
                    lemma_digits_value_bound(s@, de as int + 1, fe as int);
                    lemma_pow10_unfold();
                    lemma_pow10_mono(fe as int - (de as int + 1), 6);
                    assert(false);
                }
                return None;
            },
        };
        proof {
            lemma_pow10_unfold();
        }
        let scale: u128 = if fd == 1 {
            100_000
        } else if fd == 2 {
            10_000
        } else if fd == 3 {
            1_000
        } else if fd == 4 {
            100
        } else if fd == 5 {
            10
        } else {
            1
        };
        proof {
            assert(scale as int == pow10(6 - fd as int));
            assert(fval * scale <= 999_999u128 * 100_000) by (nonlinear_arith)
                requires
                    fval <= 999_999u128,
                    scale <= 100_000u128,
            ;
        }
        let frac: u128 = fval * scale;
        let mag: u128 = units * 1_000_000 + frac;
        proof {
            assert(units * 1_000_000 <= (0x7fff_ffff_ffff_ffffu128 / 1_000_000) * 1_000_000)
                by (nonlinear_arith)
                requires
                    units <= 0x7fff_ffff_ffff_ffffu128 / 1_000_000,
            ;
        }
        if mag > 0x7fff_ffff_ffff_ffffu128 {
            return None;
        }
        let value: i64 = if neg {
            -(mag as i64)
        } else {
            mag as i64
        };
        Some((JsonValue::Num(value), fe))
    } else {
        let mag: u128 = units * 1_000_000;
        proof {
            assert(units * 1_000_000 <= (0x7fff_ffff_ffff_ffffu128 / 1_000_000) * 1_000_000)
                by (nonlinear_arith)
                requires
                    units <= 0x7fff_ffff_ffff_ffffu128 / 1_000_000,
            ;
        }
        if mag > 0x7fff_ffff_ffff_ffffu128 {
            return None;
        }
        let value: i64 = if neg {
            -(mag as i64)
        } else {
            mag as i64
        };
        Some((JsonValue::Num(value), de))
    }
}


/// Scan past insignificant whitespace.
fn skip_ws_at(s: &str, i: usize) -> (r: usize)
    requires
        i <= s@.len(),
    ensures
        r as int == skip_ws(s@, i as int),
        i <= r <= s@.len(),
    decreases s@.len() - i,
{
    proof {
        lemma_skip_ws(s@, i as int);
    }
    if i < s.unicode_len() {
        let c = s.get_char(i);
        if c == ' ' || c == '\t' || c == '\n' || c == '\r' {
            return skip_ws_at(s, i + 1);
        }
    }
    i
}

/// Parse a string body starting at `i`, after the opening quote.
fn parse_string_body_at(s: &str, i: usize) -> (r: Option<(String, usize)>)
    requires
        i <= s@.len(),
    ensures
        match parse_string_body(s@, i as int) {
            Some(p) => r matches Some(q) && q.0@ == p.0 && q.1 as int == p.1 && q.1 <= s@.len(),
            None => r is None,
        },
    decreases s@.len() - i,
{
    proof {
        reveal_strlit("\"");
        reveal_strlit("\\");
        reveal_strlit("/");
        reveal_strlit("\u{8}");
        reveal_strlit("\t");
        reveal_strlit("\n");
        reveal_strlit("\u{c}");
        reveal_strlit("\r");
    }
    let n = s.unicode_len();
    if i >= n {
        return None;
    }
    let c = s.get_char(i);
    if c == '"' {
        return Some((String::new(), i + 1));
    }
    if c == '\\' {
        if i + 1 >= n {
            return None;
        }
        let e = s.get_char(i + 1);
        if e == 'u' {
            if n - i > 5 {
                let h0 = s.get_char(i + 2);
                let h1 = s.get_char(i + 3);
                let h2 = s.get_char(i + 4);
                let h3 = s.get_char(i + 5);
                let hex2 = ('0' <= h2 && h2 <= '9') || ('a' <= h2 && h2 <= 'f');
                let hex3 = ('0' <= h3 && h3 <= '9') || ('a' <= h3 && h3 <= 'f');
                if h0 == '0' && h1 == '0' && hex2 && hex3 {
                    let v2: u32 = if h2 <= '9' {
                        h2 as u32 - '0' as u32
                    } else {
                        h2 as u32 - 'a' as u32 + 10
                    };
                    let v3: u32 = if h3 <= '9' {
                        h3 as u32 - '0' as u32
                    } else {
                        h3 as u32 - 'a' as u32 + 10
                    };
                    let code: u32 = v2 * 16 + v3;
                    if code < 0x20 {
                        match parse_string_body_at(s, i + 6) {
                            Some((rest, j)) => {
                                let mut out = String::from_str(control_str(code as u8));
                                out.append(rest.as_str());
                                proof {
                                    assert(out@ =~= seq![(code as u8) as char] + rest@);
                                }
                                return Some((out, j));
                            },
                            None => {
                                return None;
                            },
                        }
                    }
                }
            }
            return None;
        }
        let decoded: Option<&str> = if e == '"' {
            Some("\"")
        } else if e == '\\' {
            Some("\\")
        } else if e == '/' {
            Some("/")
        } else if e == 'b' {
            Some("\u{8}")
        } else if e == 't' {
            Some("\t")
        } else if e == 'n' {
            Some("\n")
        } else if e == 'f' {
            Some("\u{c}")
        } else if e == 'r' {
            Some("\r")
        } else {
            None
        };
        match decoded {
            Some(d) => {
                match parse_string_body_at(s, i + 2) {
                    Some((rest, j)) => {
                        let mut out = String::from_str(d);
                        out.append(rest.as_str());
                        proof {
                            assert(d@.len() == 1);
                            assert(out@ =~= seq![d@[0]] + rest@);
                        }
                        Some((out, j))
                    },
                    None => None,
                }
            },
            None => None,
        }
    } else if (c as u32) < 0x20 {
        None
    } else {
        match parse_string_body_at(s, i + 1) {
            Some((rest, j)) => {
                let piece = s.substring_char(i, i + 1);
                let mut out = String::from_str(piece);
                out.append(rest.as_str());
                proof {
                    assert(piece@ =~= seq![s@[i as int]]);
                    assert(out@ =~= seq![s@[i as int]] + rest@);
                }
                Some((out, j))
            },
            None => None,
        }
    }
}

/// Parse a value starting at `i`, whitespace allowed before it.
pub fn parse_value_at(s: &str, i: usize) -> (r: Option<(JsonValue, usize)>)
    requires
        i <= s@.len(),
    ensures
        match parse_value(s@, i as int) {
            Some(p) => r matches Some(q) && q.0@ == p.0 && q.1 as int == p.1 && q.1 <= s@.len(),
            None => r is None,
        },
    decreases s@.len() - i, 0int,
{
    proof {
        reveal_strlit("null");
        reveal_strlit("true");
        reveal_strlit("false");
    }
    let n = s.unicode_len();
    let i0 = skip_ws_at(s, i);
    if i0 >= n {
        return None;
    }
    let c = s.get_char(i0);
    if c == 'n' {
        if n - i0 >= 4 && s.get_char(i0 + 1) == 'u' && s.get_char(i0 + 2) == 'l' && s.get_char(
            i0 + 3,
        ) == 'l' {
            proof {
                assert(s@.subrange(i0 as int, i0 as int + 4) =~= seq!['n', 'u', 'l', 'l']);
            }
            Some((JsonValue::Null, i0 + 4))
        } else {
            proof {
                if matches_at(s@, i0 as int, seq!['n', 'u', 'l', 'l']) {
                    assert(s@.subrange(i0 as int, i0 as int + 4)[1] == s@[i0 as int + 1]);
                    assert(s@.subrange(i0 as int, i0 as int + 4)[2] == s@[i0 as int + 2]);
                    assert(s@.subrange(i0 as int, i0 as int + 4)[3] == s@[i0 as int + 3]);
                }
            }
            None
        }
    } else if c == 't' {
        if n - i0 >= 4 && s.get_char(i0 + 1) == 'r' && s.get_char(i0 + 2) == 'u' && s.get_char(
            i0 + 3,
        ) == 'e' {
            proof {
                assert(s@.subrange(i0 as int, i0 as int + 4) =~= seq!['t', 'r', 'u', 'e']);
            }
            Some((JsonValue::Bool(true), i0 + 4))
        } else {
            proof {
                if matches_at(s@, i0 as int, seq!['t', 'r', 'u', 'e']) {
                    assert(s@.subrange(i0 as int, i0 as int + 4)[1] == s@[i0 as int + 1]);
                    assert(s@.subrange(i0 as int, i0 as int + 4)[2] == s@[i0 as int + 2]);
                    assert(s@.subrange(i0 as int, i0 as int + 4)[3] == s@[i0 as int + 3]);
                }
            }
            None
        }
    } else if c == 'f' {
        if n - i0 >= 5 && s.get_char(i0 + 1) == 'a' && s.get_char(i0 + 2) == 'l' && s.get_char(
            i0 + 3,
        ) == 's' && s.get_char(i0 + 4) == 'e' {
            proof {
                assert(s@.subrange(i0 as int, i0 as int + 5) =~= seq!['f', 'a', 'l', 's', 'e']);
            }
            Some((JsonValue::Bool(false), i0 + 5))
        } else {
            proof {
                if matches_at(s@, i0 as int, seq!['f', 'a', 'l', 's', 'e']) {
                    assert(s@.subrange(i0 as int, i0 as int + 5)[1] == s@[i0 as int + 1]);
                    assert(s@.subrange(i0 as int, i0 as int + 5)[2] == s@[i0 as int + 2]);
                    assert(s@.subrange(i0 as int, i0 as int + 5)[3] == s@[i0 as int + 3]);
                    assert(s@.subrange(i0 as int, i0 as int + 5)[4] == s@[i0 as int + 4]);
                }
            }
            None
        }
    } else if c == '"' {
        match parse_string_body_at(s, i0 + 1) {
            Some((body, j)) => Some((JsonValue::Str(body), j)),
            None => None,
        }
    } else if c == '[' {
        match parse_elems_at(s, i0 + 1) {
            Some((items, j)) => Some((JsonValue::Arr(items), j)),
            None => None,
        }
    } else if c == '{' {
        match parse_members_at(s, i0 + 1) {
            Some((pairs, j)) => Some((JsonValue::Obj(pairs), j)),
            None => None,
        }
    } else if c == '-' || ('0' <= c && c <= '9') {
        parse_number_at(s, i0)
    } else {
        None
    }
}

/// Parse array elements starting right after `[`.
fn parse_elems_at(s: &str, i: usize) -> (r: Option<(Vec<JsonValue>, usize)>)
    requires
        i <= s@.len(),
    ensures
        match parse_elems(s@, i as int) {
            Some(p) => r matches Some(q) && crate::json::json_view_arr(q.0@, 0) == p.0 && q.1 as int
                == p.1 && q.1 <= s@.len(),
            None => r is None,
        },
    decreases s@.len() - i, 1int,
{
    let n = s.unicode_len();
    let i1 = skip_ws_at(s, i);
    if i1 >= n {
        return None;
    }
    if s.get_char(i1) == ']' {
        let out: Vec<JsonValue> = Vec::new();
        proof {
            assert(crate::json::json_view_arr(out@, 0) =~= Seq::<JsonV>::empty());
        }
        return Some((out, i1 + 1));
    }
    match parse_value_at(s, i1) {
        Some((v, j)) => {
            if j <= i1 {
                return None;
            }
            match parse_elems_rest_at(s, j) {
                Some((mut vs, end)) => {
                    let ghost old_vs = vs@;
                    let ghost tail_views = crate::json::json_view_arr(vs@, 0);
                    vs.insert(0, v);
                    proof {
                        crate::json::lemma_json_view_arr_len(vs@, 0);
                        crate::json::lemma_json_view_arr_len(old_vs, 0);
                        assert forall|k: int| 0 <= k < vs@.len() implies crate::json::json_view_arr(
                            vs@,
                            0,
                        )[k] == (seq![v@] + tail_views)[k] by {
                            crate::json::lemma_json_view_arr_index(vs@, 0, k);
                            if k > 0 {
                                assert(vs@[k] == old_vs[k - 1]);
                                crate::json::lemma_json_view_arr_index(old_vs, 0, k - 1);
                            } else {
                                assert(vs@[0] == v);
                            }
                        }
                        assert(crate::json::json_view_arr(vs@, 0) =~= seq![v@] + tail_views);
                    }
                    Some((vs, end))
                },
                None => None,
            }
        },
        None => None,
    }
}

/// Parse the rest of an array after one element.
fn parse_elems_rest_at(s: &str, i: usize) -> (r: Option<(Vec<JsonValue>, usize)>)
    requires
        i <= s@.len(),
    ensures
        match parse_elems_rest(s@, i as int) {
            Some(p) => r matches Some(q) && crate::json::json_view_arr(q.0@, 0) == p.0 && q.1 as int
                == p.1 && q.1 <= s@.len(),
            None => r is None,
        },
    decreases s@.len() - i, 1int,
{
    let n = s.unicode_len();
    let i1 = skip_ws_at(s, i);
    if i1 >= n {
        return None;
    }
    let c = s.get_char(i1);
    if c == ']' {
        let out: Vec<JsonValue> = Vec::new();
        proof {
            assert(crate::json::json_view_arr(out@, 0) =~= Seq::<JsonV>::empty());
        }
        return Some((out, i1 + 1));
    }
    if c != ',' {
        return None;
    }
    match parse_value_at(s, i1 + 1) {
        Some((v, j)) => {
            if j <= i1 + 1 {
                return None;
            }
            match parse_elems_rest_at(s, j) {
                Some((mut vs, end)) => {
                    let ghost old_vs = vs@;
                    let ghost tail_views = crate::json::json_view_arr(vs@, 0);
                    vs.insert(0, v);
                    proof {
                        crate::json::lemma_json_view_arr_len(vs@, 0);
                        crate::json::lemma_json_view_arr_len(old_vs, 0);
                        assert forall|k: int| 0 <= k < vs@.len() implies crate::json::json_view_arr(
                            vs@,
                            0,
                        )[k] == (seq![v@] + tail_views)[k] by {
                            crate::json::lemma_json_view_arr_index(vs@, 0, k);
                            if k > 0 {
                                assert(vs@[k] == old_vs[k - 1]);
                                crate::json::lemma_json_view_arr_index(old_vs, 0, k - 1);
                            } else {
                                assert(vs@[0] == v);
                            }
                        }
                        assert(crate::json::json_view_arr(vs@, 0) =~= seq![v@] + tail_views);
                    }
                    Some((vs, end))
                },
                None => None,
            }
        },
        None => None,
    }
}

/// Parse one `"key": value` member whose opening quote stands at `i`.
fn parse_member_at_exec(s: &str, i: usize) -> (r: Option<(String, JsonValue, usize)>)
    requires
        i <= s@.len(),
    ensures
        match parse_member_at(s@, i as int) {
            Some(p) => r matches Some(q) && q.0@ == p.0 && q.1@ == p.1 && q.2 as int == p.2
                && q.2 <= s@.len(),
            None => r is None,
        },
    decreases s@.len() - i, 0int,
{
    let n = s.unicode_len();
    if i >= n || s.get_char(i) != '"' {
        return None;
    }
    match parse_string_body_at(s, i + 1) {
        Some((key, jk)) => {
            if jk <= i {
                return None;
            }
            let jc = skip_ws_at(s, jk);
            if jc >= n || s.get_char(jc) != ':' {
                return None;
            }
            match parse_value_at(s, jc + 1) {
                Some((v, j)) => Some((key, v, j)),
                None => None,
            }
        },
        None => None,
    }
}

/// Parse object members starting right after `{`.
fn parse_members_at(s: &str, i: usize) -> (r: Option<(Vec<(String, JsonValue)>, usize)>)
    requires
        i <= s@.len(),
    ensures
        match parse_members(s@, i as int) {
            Some(p) => r matches Some(q) && crate::json::json_view_obj(q.0@, 0) == p.0 && q.1 as int
                == p.1 && q.1 <= s@.len(),
            None => r is None,
        },
    decreases s@.len() - i, 1int,
{
    let n = s.unicode_len();
    let i1 = skip_ws_at(s, i);
    if i1 >= n {
        return None;
    }
    let c = s.get_char(i1);
    if c == '}' {
        let out: Vec<(String, JsonValue)> = Vec::new();
        proof {
            assert(crate::json::json_view_obj(out@, 0) =~= Seq::<(Seq<char>, JsonV)>::empty());
        }
        return Some((out, i1 + 1));
    }
    if c != '"' {
        return None;
    }
    match parse_member_at_exec(s, i1) {
        Some((key, v, j)) => {
            if j <= i1 {
                return None;
            }
            match parse_members_rest_at(s, j) {
                Some((mut ps, end)) => {
                    let ghost old_ps = ps@;
                    let ghost tail_views = crate::json::json_view_obj(ps@, 0);
                    let ghost kv = (key@, v@);
                    ps.insert(0, (key, v));
                    proof {
                        crate::json::lemma_json_view_obj_len(ps@, 0);
                        crate::json::lemma_json_view_obj_len(old_ps, 0);
                        assert forall|k: int| 0 <= k < ps@.len() implies crate::json::json_view_obj(
                            ps@,
                            0,
                        )[k] == (seq![kv] + tail_views)[k] by {
                            crate::json::lemma_json_view_obj_index(ps@, 0, k);
                            if k > 0 {
                                assert(ps@[k] == old_ps[k - 1]);
                                crate::json::lemma_json_view_obj_index(old_ps, 0, k - 1);
                            }
                        }
                        assert(crate::json::json_view_obj(ps@, 0) =~= seq![kv] + tail_views);
                    }
                    Some((ps, end))
                },
                None => None,
            }
        },
        None => None,
    }
}

/// Parse the rest of an object after one member.
fn parse_members_rest_at(s: &str, i: usize) -> (r: Option<(Vec<(String, JsonValue)>, usize)>)
    requires
        i <= s@.len(),
    ensures
        match parse_members_rest(s@, i as int) {
            Some(p) => r matches Some(q) && crate::json::json_view_obj(q.0@, 0) == p.0 && q.1 as int
                == p.1 && q.1 <= s@.len(),
            None => r is None,
        },
    decreases s@.len() - i, 1int,
{
    let n = s.unicode_len();
    let i1 = skip_ws_at(s, i);
    if i1 >= n {
        return None;
    }
    let c = s.get_char(i1);
    if c == '}' {
        let out: Vec<(String, JsonValue)> = Vec::new();
        proof {
            assert(crate::json::json_view_obj(out@, 0) =~= Seq::<(Seq<char>, JsonV)>::empty());
        }
        return Some((out, i1 + 1));
    }
    if c != ',' {
        return None;
    }
    let i2 = skip_ws_at(s, i1 + 1);
    if i2 >= n {
        return None;
    }
    match parse_member_at_exec(s, i2) {
        Some((key, v, j)) => {
            if j <= i2 {
                return None;
            }
            match parse_members_rest_at(s, j) {
                Some((mut ps, end)) => {
                    let ghost old_ps = ps@;
                    let ghost tail_views = crate::json::json_view_obj(ps@, 0);
                    let ghost kv = (key@, v@);
                    ps.insert(0, (key, v));
                    proof {
                        crate::json::lemma_json_view_obj_len(ps@, 0);
                        crate::json::lemma_json_view_obj_len(old_ps, 0);
                        assert forall|k: int| 0 <= k < ps@.len() implies crate::json::json_view_obj(
                            ps@,
                            0,
                        )[k] == (seq![kv] + tail_views)[k] by {
                            crate::json::lemma_json_view_obj_index(ps@, 0, k);
                            if k > 0 {
                                assert(ps@[k] == old_ps[k - 1]);
                                crate::json::lemma_json_view_obj_index(old_ps, 0, k - 1);
                            }
                        }
                        assert(crate::json::json_view_obj(ps@, 0) =~= seq![kv] + tail_views);
                    }
                    Some((ps, end))
                },
                None => None,
            }
        },
        None => None,
    }
}

/// Parse a whole JSON document: one value with only whitespace after it.
pub fn parse_json(s: &str) -> (r: Option<JsonValue>)
    ensures
        match spec_parse_json(s@) {
            Some(v) => r matches Some(q) && q@ == v,
            None => r is None,
        },
{
    match parse_value_at(s, 0) {
        Some((v, j)) => {
            let end = skip_ws_at(s, j);
            if end == s.unicode_len() {
                Some(v)
            } else {
                None
            }
        },
        None => None,
    }
}

} // verus!
