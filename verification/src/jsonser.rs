//! Canonical JSON serialization (JCS style): object keys sorted by code
//! point, no insignificant whitespace, strings escaped, numbers in shortest
//! decimal form.

use vstd::prelude::*;

use crate::hex::{hex_digit_char, push_hex_digit};
use crate::json::{
    json_view, json_view_arr, json_view_obj, lemma_json_view_arr_index, lemma_json_view_arr_len,
    lemma_json_view_obj_index, lemma_json_view_obj_len, JsonV, JsonValue,
};

verus! {

/// The decimal digit character for a value below 10.
pub open spec fn dec_digit_char(n: int) -> char {
    if n == 0 {
        '0'
    } else if n == 1 {
        '1'
    } else if n == 2 {
        '2'
    } else if n == 3 {
        '3'
    } else if n == 4 {
        '4'
    } else if n == 5 {
        '5'
    } else if n == 6 {
        '6'
    } else if n == 7 {
        '7'
    } else if n == 8 {
        '8'
    } else {
        '9'
    }
}

/// The shortest decimal rendering of a non-negative integer.
pub open spec fn dec_nat(n: int) -> Seq<char>
    decreases n,
{
    if n < 10 {
        seq![dec_digit_char(n)]
    } else {
        dec_nat(n / 10) + seq![dec_digit_char(n % 10)]
    }
}

/// The decimal rendering of `n` padded with leading zeros to `width`
/// digits.
pub open spec fn dec_pad(n: int, width: int) -> Seq<char>
    decreases width,
{
    if width <= 1 {
        seq![dec_digit_char(n % 10)]
    } else {
        dec_pad(n / 10, width - 1) + seq![dec_digit_char(n % 10)]
    }
}

/// The fractional digits of `f` out of `width`, trailing zeros stripped.
pub open spec fn frac_trim(f: int, width: int) -> Seq<char>
    decreases width,
{
    if width <= 1 {
        seq![dec_digit_char(f % 10)]
    } else if f % 10 == 0 {
        frac_trim(f / 10, width - 1)
    } else {
        dec_pad(f, width)
    }
}

/// The shortest decimal rendering of a fixed-point number in millionths:
/// integer part, and a fractional part with trailing zeros stripped when it
/// is non-zero.
pub open spec fn ser_num(m: i64) -> Seq<char> {
    let mag = if m < 0 {
        -(m as int)
    } else {
        m as int
    };
    let units = mag / 1_000_000;
    let frac = mag % 1_000_000;
    let sign: Seq<char> = if m < 0 {
        seq!['-']
    } else {
        Seq::empty()
    };
    if frac == 0 {
        sign + dec_nat(units)
    } else {
        sign + dec_nat(units) + seq!['.'] + frac_trim(frac, 6)
    }
}

/// The escape of one character inside a JSON string: quote and backslash
/// get a backslash; the named control characters use their short escapes;
/// other control characters use a `\u00XX` escape; everything else stands
/// for itself.
pub open spec fn esc_char(c: char) -> Seq<char> {
    if c == '"' {
        seq!['\\', '"']
    } else if c == '\\' {
        seq!['\\', '\\']
    } else if c == '\u{8}' {
        seq!['\\', 'b']
    } else if c == '\t' {
        seq!['\\', 't']
    } else if c == '\n' {
        seq!['\\', 'n']
    } else if c == '\u{c}' {
        seq!['\\', 'f']
    } else if c == '\r' {
        seq!['\\', 'r']
    } else if (c as u32) < 0x20 {
        seq!['\\', 'u', '0', '0', hex_digit_char(c as u32 as int / 16), hex_digit_char(
            c as u32 as int % 16,
        )]
    } else {
        seq![c]
    }
}

/// The escaped body of a JSON string, from position `i` on.
pub open spec fn esc_rec(s: Seq<char>, i: int) -> Seq<char>
    decreases s.len() - i,
{
    if i < 0 || i >= s.len() {
        Seq::empty()
    } else {
        esc_char(s[i]) + esc_rec(s, i + 1)
    }
}

/// A JSON string literal: quoted and escaped.
pub open spec fn ser_str(s: Seq<char>) -> Seq<char> {
    seq!['"'] + esc_rec(s, 0) + seq!['"']
}

/// The serialization of a JSON value, keys in the order given.
pub open spec fn ser_json(v: JsonV) -> Seq<char>
    decreases v, 0int,
{
    match v {
        JsonV::Null => seq!['n', 'u', 'l', 'l'],
        JsonV::Bool(b) => if b {
            seq!['t', 'r', 'u', 'e']
        } else {
            seq!['f', 'a', 'l', 's', 'e']
        },
        JsonV::Num(m) => ser_num(m),
        JsonV::Str(s) => ser_str(s),
        JsonV::Arr(items) => seq!['['] + ser_arr(items, items.len() as int) + seq![']'],
        JsonV::Obj(pairs) => seq!['{'] + ser_obj(pairs, pairs.len() as int) + seq!['}'],
    }
}

/// The serialization of the first `k` array elements, comma separated.
pub open spec fn ser_arr(items: Seq<JsonV>, k: int) -> Seq<char>
    decreases items, 1int, k,
{
    if k <= 0 || k > items.len() {
        Seq::empty()
    } else {
        let sep: Seq<char> = if k > 1 {
            seq![',']
        } else {
            Seq::empty()
        };
        ser_arr(items, k - 1) + sep + ser_json(items[k - 1])
    }
}

/// The serialization of the first `k` object members, comma separated.
pub open spec fn ser_obj(pairs: Seq<(Seq<char>, JsonV)>, k: int) -> Seq<char>
    decreases pairs, 1int, k,
{
    if k <= 0 || k > pairs.len() {
        Seq::empty()
    } else {
        let sep: Seq<char> = if k > 1 {
            seq![',']
        } else {
            Seq::empty()
        };
        ser_obj(pairs, k - 1) + sep + ser_str(pairs[k - 1].0) + seq![':'] + ser_json(pairs[k - 1].1)
    }
}

/// Append the shortest decimal rendering of `n`.
fn push_dec(out: &mut String, n: u64)
    ensures
        final(out)@ == old(out)@ + dec_nat(n as int),
    decreases n,
{
    if n >= 10 {
        push_dec(out, n / 10);
        push_dec_digit(out, (n % 10) as u8);
    } else {
        push_dec_digit(out, n as u8);
    }
}

/// Append the decimal rendering of `n % 10^width`, zero padded to `width`
/// digits.
fn push_dec_pad(out: &mut String, n: u64, width: u8)
    requires
        width >= 1,
    ensures
        final(out)@ == old(out)@ + dec_pad(n as int, width as int),
    decreases width,
{
    if width <= 1 {
        push_dec_digit(out, (n % 10) as u8);
    } else {
        push_dec_pad(out, n / 10, width - 1);
        push_dec_digit(out, (n % 10) as u8);
    }
}

/// Append the fractional digits of `f`, trailing zeros stripped.
fn push_frac_trim(out: &mut String, f: u64, width: u8)
    requires
        width >= 1,
    ensures
        final(out)@ == old(out)@ + frac_trim(f as int, width as int),
    decreases width,
{
    if width <= 1 {
        push_dec_digit(out, (f % 10) as u8);
    } else if f % 10 == 0 {
        push_frac_trim(out, f / 10, width - 1);
    } else {
        push_dec_pad(out, f, width);
    }
}

/// Append one decimal digit.
fn push_dec_digit(out: &mut String, d: u8)
    requires
        d < 10,
    ensures
        final(out)@ == old(out)@.push(dec_digit_char(d as int)),
{
    let digit: &str = if d == 0 {
        "0"
    } else if d == 1 {
        "1"
    } else if d == 2 {
        "2"
    } else if d == 3 {
        "3"
    } else if d == 4 {
        "4"
    } else if d == 5 {
        "5"
    } else if d == 6 {
        "6"
    } else if d == 7 {
        "7"
    } else if d == 8 {
        "8"
    } else {
        "9"
    };
    proof {
        reveal_strlit("0");
        reveal_strlit("1");
        reveal_strlit("2");
        reveal_strlit("3");
        reveal_strlit("4");
        reveal_strlit("5");
        reveal_strlit("6");
        reveal_strlit("7");
        reveal_strlit("8");
        reveal_strlit("9");
    }
    out.append(digit);
    proof {
        assert(out@ =~= old(out)@.push(dec_digit_char(d as int)));
    }
}

/// Append the rendering of a fixed-point number in millionths.
pub fn push_num(out: &mut String, m: i64)
    ensures
        final(out)@ == old(out)@ + ser_num(m),
{
    proof {
        reveal_strlit("-");
        reveal_strlit(".");
    }
    let mag: u64 = if m < 0 {
        (-(m as i128)) as u64
    } else {
        m as u64
    };
    if m < 0 {
        out.append("-");
    }
    let units: u64 = mag / 1_000_000;
    let frac: u64 = mag % 1_000_000;
    push_dec(out, units);
    if frac != 0 {
        out.append(".");
        push_frac_trim(out, frac, 6);
    }
    proof {
        assert(out@ =~= old(out)@ + ser_num(m));
    }
}

/// Append the escaped, quoted form of a string.
pub fn push_json_str(out: &mut String, s: &str)
    ensures
        final(out)@ == old(out)@ + ser_str(s@),
{
    proof {
        reveal_strlit("\"");
        reveal_strlit("\\\"");
        reveal_strlit("\\\\");
        reveal_strlit("\\b");
        reveal_strlit("\\t");
        reveal_strlit("\\n");
        reveal_strlit("\\f");
        reveal_strlit("\\r");
        reveal_strlit("\\u00");
    }
    out.append("\"");
    let n = s.unicode_len();
    let mut i: usize = 0;
    while i < n
        invariant
            0 <= i <= n,
            n == s@.len(),
            "\""@ == seq!['"'],
            "\\\""@ == seq!['\\', '"'],
            "\\\\"@ == seq!['\\', '\\'],
            "\\b"@ == seq!['\\', 'b'],
            "\\t"@ == seq!['\\', 't'],
            "\\n"@ == seq!['\\', 'n'],
            "\\f"@ == seq!['\\', 'f'],
            "\\r"@ == seq!['\\', 'r'],
            "\\u00"@ == seq!['\\', 'u', '0', '0'],
            out@ == old(out)@ + seq!['"'] + esc_rec(s@, 0).take(
                esc_rec(s@, 0).len() - esc_rec(s@, i as int).len(),
            ),
            esc_rec(s@, i as int).len() <= esc_rec(s@, 0).len(),
        decreases n - i,
    {
        let ghost pre = out@;
        let c = s.get_char(i);
        if c == '"' {
            out.append("\\\"");
        } else if c == '\\' {
            out.append("\\\\");
        } else if c == '\u{8}' {
            out.append("\\b");
        } else if c == '\t' {
            out.append("\\t");
        } else if c == '\n' {
            out.append("\\n");
        } else if c == '\u{c}' {
            out.append("\\f");
        } else if c == '\r' {
            out.append("\\r");
        } else if (c as u32) < 0x20 {
            out.append("\\u00");
            let code = c as u32;
            push_hex_digit(out, (code / 16) as u8);
            push_hex_digit(out, (code % 16) as u8);
        } else {
            let piece = s.substring_char(i, i + 1);
            out.append(piece);
        }
        proof {
            assert(out@ =~= pre + esc_char(s@[i as int]));
            lemma_esc_rec_step(s@, i as int);
            assert(out@ =~= old(out)@ + seq!['"'] + esc_rec(s@, 0).take(
                esc_rec(s@, 0).len() - esc_rec(s@, i as int + 1).len(),
            ));
        }
        i += 1;
    }
    out.append("\"");
    proof {
        assert(esc_rec(s@, n as int) =~= Seq::<char>::empty());
        assert(esc_rec(s@, 0).take(esc_rec(s@, 0).len() - 0) =~= esc_rec(s@, 0));
        assert(out@ =~= old(out)@ + ser_str(s@));
    }
}

/// Stepping the escape recursion: the escape of the rest splits at each
/// character.
pub proof fn lemma_esc_rec_step(s: Seq<char>, i: int)
    requires
        0 <= i < s.len(),
    ensures
        esc_rec(s, i) == esc_char(s[i]) + esc_rec(s, i + 1),
        esc_rec(s, i).len() >= esc_rec(s, i + 1).len() + 1,
        esc_rec(s, 0).len() >= esc_rec(s, i).len(),
        esc_rec(s, 0).take(esc_rec(s, 0).len() - esc_rec(s, i + 1).len()) == esc_rec(s, 0).take(
            esc_rec(s, 0).len() - esc_rec(s, i).len(),
        ) + esc_char(s[i]),
    decreases i,
{
    lemma_esc_prefix(s, 0, i);
}

/// The escape of a suffix is a suffix of the escape: the part already
/// produced plus the escape of the current character extends the prefix.
pub proof fn lemma_esc_prefix(s: Seq<char>, i: int, j: int)
    requires
        0 <= i <= j < s.len(),
    ensures
        esc_rec(s, i).len() >= esc_rec(s, j + 1).len() + 1,
        esc_rec(s, i).len() >= esc_rec(s, j).len(),
        esc_rec(s, i).take(esc_rec(s, i).len() - esc_rec(s, j + 1).len()) == esc_rec(s, i).take(
            esc_rec(s, i).len() - esc_rec(s, j).len(),
        ) + esc_char(s[j]),
        esc_rec(s, j) == esc_char(s[j]) + esc_rec(s, j + 1),
    decreases j - i,
{
    if i == j {
        assert(esc_rec(s, i) == esc_char(s[i]) + esc_rec(s, i + 1));
        assert(esc_char(s[j]).len() >= 1);
        assert(esc_rec(s, i).take(esc_rec(s, i).len() - esc_rec(s, i + 1).len()) =~= esc_char(
            s[i],
        ));
        assert(esc_rec(s, i).take(esc_rec(s, i).len() - esc_rec(s, i).len()) =~= Seq::<
            char,
        >::empty());
    } else {
        lemma_esc_prefix(s, i + 1, j);
        assert(esc_rec(s, i) == esc_char(s[i]) + esc_rec(s, i + 1));
        assert(esc_char(s[i]).len() >= 1);
        let e = esc_rec(s, i);
        let e1 = esc_rec(s, i + 1);
        let la = e1.len() - esc_rec(s, j + 1).len();
        let lb = e1.len() - esc_rec(s, j).len();
        assert(e1.take(la) == e1.take(lb) + esc_char(s[j]));
        assert(e.take(esc_char(s[i]).len() + la) =~= esc_char(s[i]) + e1.take(la));
        assert(e.take(esc_char(s[i]).len() + lb) =~= esc_char(s[i]) + e1.take(lb));
        assert(e.take(e.len() - esc_rec(s, j + 1).len()) =~= esc_char(s[i]) + e1.take(la));
        assert(e.take(e.len() - esc_rec(s, j).len()) =~= esc_char(s[i]) + e1.take(lb));
        assert(e.take(e.len() - esc_rec(s, j + 1).len()) =~= e.take(e.len() - esc_rec(s, j).len())
            + esc_char(s[j]));
    }
}


/// Lexicographic strict order on character sequences, by code point.
pub open spec fn chars_lt(a: Seq<char>, b: Seq<char>) -> bool
    decreases a.len(),
{
    if b.len() == 0 {
        false
    } else if a.len() == 0 {
        true
    } else if a[0] != b[0] {
        (a[0] as u32) < (b[0] as u32)
    } else {
        chars_lt(a.drop_first(), b.drop_first())
    }
}

/// Compare two strings lexicographically by code point.
pub fn str_lt(a: &str, b: &str) -> (r: bool)
    ensures
        r == chars_lt(a@, b@),
{
    let alen = a.unicode_len();
    let blen = b.unicode_len();
    let mut i: usize = 0;
    proof {
        assert(a@.skip(0) =~= a@);
        assert(b@.skip(0) =~= b@);
    }
    loop
        invariant
            0 <= i <= alen,
            i <= blen,
            alen == a@.len(),
            blen == b@.len(),
            forall|j: int| 0 <= j < i ==> a@[j] == b@[j],
            chars_lt(a@, b@) == chars_lt(a@.skip(i as int), b@.skip(i as int)),
        decreases alen - i,
    {
        if i >= blen {
            proof {
                assert(b@.skip(i as int).len() == 0);
            }
            return false;
        }
        if i >= alen {
            proof {
                assert(a@.skip(i as int).len() == 0);
                assert(b@.skip(i as int).len() > 0);
            }
            return true;
        }
        let ca = a.get_char(i);
        let cb = b.get_char(i);
        if ca != cb {
            proof {
                assert(a@.skip(i as int)[0] == ca);
                assert(b@.skip(i as int)[0] == cb);
            }
            return (ca as u32) < (cb as u32);
        }
        proof {
            assert(a@.skip(i as int)[0] == ca && b@.skip(i as int)[0] == cb);
            assert(a@.skip(i as int).drop_first() =~= a@.skip(i as int + 1));
            assert(b@.skip(i as int).drop_first() =~= b@.skip(i as int + 1));
        }
        i += 1;
    }
}

/// Insert a pair into a key-sorted pair list, after any equal keys.
pub open spec fn ins_pair(
    p: (Seq<char>, JsonV),
    sorted: Seq<(Seq<char>, JsonV)>,
) -> Seq<(Seq<char>, JsonV)>
    decreases sorted.len(),
{
    if sorted.len() == 0 {
        seq![p]
    } else if chars_lt(p.0, sorted[0].0) {
        seq![p] + sorted
    } else {
        seq![sorted[0]] + ins_pair(p, sorted.drop_first())
    }
}

/// The canonical form of a JSON value: object keys sorted lexicographically
/// by code point, stably, at every level; array order kept.
pub open spec fn sort_json(v: JsonV) -> JsonV
    decreases v, 0int,
{
    match v {
        JsonV::Null => JsonV::Null,
        JsonV::Bool(b) => JsonV::Bool(b),
        JsonV::Num(m) => JsonV::Num(m),
        JsonV::Str(s) => JsonV::Str(s),
        JsonV::Arr(items) => JsonV::Arr(sort_each(items, items.len() as int)),
        JsonV::Obj(pairs) => JsonV::Obj(sort_pairs(pairs, pairs.len() as int)),
    }
}

/// The canonical forms of the first `k` array elements.
pub open spec fn sort_each(items: Seq<JsonV>, k: int) -> Seq<JsonV>
    decreases items, 1int, k,
{
    if k <= 0 || k > items.len() {
        Seq::empty()
    } else {
        sort_each(items, k - 1).push(sort_json(items[k - 1]))
    }
}

/// The first `k` object members, values canonicalized, inserted in key
/// order.
pub open spec fn sort_pairs(pairs: Seq<(Seq<char>, JsonV)>, k: int) -> Seq<(Seq<char>, JsonV)>
    decreases pairs, 1int, k,
{
    if k <= 0 || k > pairs.len() {
        Seq::empty()
    } else {
        ins_pair((pairs[k - 1].0, sort_json(pairs[k - 1].1)), sort_pairs(pairs, k - 1))
    }
}

/// Append the serialization of a JSON value, keys in the order given.
pub fn push_json(out: &mut String, v: &JsonValue)
    ensures
        final(out)@ == old(out)@ + ser_json(v@),
    decreases *v,
{
    proof {
        reveal_strlit("null");
        reveal_strlit("true");
        reveal_strlit("false");
        reveal_strlit("[");
        reveal_strlit("]");
        reveal_strlit("{");
        reveal_strlit("}");
        reveal_strlit(",");
        reveal_strlit(":");
    }
    match v {
        JsonValue::Null => {
            out.append("null");
            proof {
                assert(out@ =~= old(out)@ + ser_json(v@));
            }
        },
        JsonValue::Bool(b) => {
            if *b {
                out.append("true");
            } else {
                out.append("false");
            }
            proof {
                assert(out@ =~= old(out)@ + ser_json(v@));
            }
        },
        JsonValue::Num(m) => {
            push_num(out, *m);
        },
        JsonValue::Str(s) => {
            push_json_str(out, s.as_str());
        },
        JsonValue::Arr(items) => {
            out.append("[");
            let ghost views = json_view_arr(items@, 0);
            proof {
                lemma_json_view_arr_len(items@, 0);
            }
            let mut k: usize = 0;
            while k < items.len()
                invariant
                    0 <= k <= items@.len(),
                    views == json_view_arr(items@, 0),
                    views.len() == items@.len(),
                    *v == JsonValue::Arr(*items),
                    ","@ == seq![','],
                    out@ == old(out)@ + seq!['['] + ser_arr(views, k as int),
                decreases items@.len() - k,
            {
                if k > 0 {
                    out.append(",");
                }
                proof {
                    assert(decreases_to!(*v => v->Arr_0));
                    assert(v->Arr_0 == *items);
                    assert(decreases_to!(*items => items[k as int]));
                    assert(decreases_to!(*v => items[k as int]));
                    lemma_json_view_arr_index(items@, 0, k as int);
                    assert(views[k as int] == json_view(items@[k as int]));
                }
                let child = &items[k];
                push_json(out, child);
                proof {
                    assert(out@ =~= old(out)@ + seq!['['] + ser_arr(views, k as int + 1));
                }
                k += 1;
            }
            out.append("]");
            proof {
                assert(out@ =~= old(out)@ + ser_json(v@));
            }
        },
        JsonValue::Obj(pairs) => {
            out.append("{");
            let ghost views = json_view_obj(pairs@, 0);
            proof {
                lemma_json_view_obj_len(pairs@, 0);
            }
            let mut k: usize = 0;
            while k < pairs.len()
                invariant
                    0 <= k <= pairs@.len(),
                    views == json_view_obj(pairs@, 0),
                    views.len() == pairs@.len(),
                    *v == JsonValue::Obj(*pairs),
                    ","@ == seq![','],
                    ":"@ == seq![':'],
                    out@ == old(out)@ + seq!['{'] + ser_obj(views, k as int),
                decreases pairs@.len() - k,
            {
                if k > 0 {
                    out.append(",");
                }
                proof {
                    lemma_json_view_obj_index(pairs@, 0, k as int);
                    assert(views[k as int] == (pairs@[k as int].0@, json_view(
                        pairs@[k as int].1,
                    )));
                }
                push_json_str(out, pairs[k].0.as_str());
                out.append(":");
                proof {
                    assert(decreases_to!(*v => v->Obj_0));
                    assert(v->Obj_0 == *pairs);
                    assert(decreases_to!(*pairs => pairs[k as int]));
                    assert(decreases_to!(pairs[k as int] => pairs[k as int].1));
                    assert(decreases_to!(*v => pairs[k as int].1));
                }
                let child = &pairs[k].1;
                push_json(out, child);
                proof {
                    assert(out@ =~= old(out)@ + seq!['{'] + ser_obj(views, k as int + 1));
                }
                k += 1;
            }
            out.append("}");
            proof {
                assert(out@ =~= old(out)@ + ser_json(v@));
            }
        },
    }
}

/// A copy of a JSON value in canonical form: object keys sorted.
pub fn sort_value(v: &JsonValue) -> (r: JsonValue)
    ensures
        r@ == sort_json(v@),
    decreases *v,
{
    match v {
        JsonValue::Null => JsonValue::Null,
        JsonValue::Bool(b) => JsonValue::Bool(*b),
        JsonValue::Num(m) => JsonValue::Num(*m),
        JsonValue::Str(s) => JsonValue::Str(s.clone()),
        JsonValue::Arr(items) => {
            let ghost views = json_view_arr(items@, 0);
            proof {
                lemma_json_view_arr_len(items@, 0);
            }
            let mut out: Vec<JsonValue> = Vec::new();
            let mut k: usize = 0;
            while k < items.len()
                invariant
                    0 <= k <= items@.len(),
                    views == json_view_arr(items@, 0),
                    views.len() == items@.len(),
                    *v == JsonValue::Arr(*items),
                    json_view_arr(out@, 0) == sort_each(views, k as int),
                    out@.len() == k,
                decreases items@.len() - k,
            {
                proof {
                    assert(decreases_to!(*v => v->Arr_0));
                    assert(v->Arr_0 == *items);
                    assert(decreases_to!(*items => items[k as int]));
                    assert(decreases_to!(*v => items[k as int]));
                    lemma_json_view_arr_index(items@, 0, k as int);
                }
                let child = sort_value(&items[k]);
                let ghost old_out = out@;
                out.push(child);
                proof {
                    lemma_json_view_arr_push(old_out, child);
                }
                k += 1;
            }
            JsonValue::Arr(out)
        },
        JsonValue::Obj(pairs) => {
            let ghost views = json_view_obj(pairs@, 0);
            proof {
                lemma_json_view_obj_len(pairs@, 0);
            }
            let mut out: Vec<(String, JsonValue)> = Vec::new();
            let mut k: usize = 0;
            while k < pairs.len()
                invariant
                    0 <= k <= pairs@.len(),
                    views == json_view_obj(pairs@, 0),
                    views.len() == pairs@.len(),
                    *v == JsonValue::Obj(*pairs),
                    json_view_obj(out@, 0) == sort_pairs(views, k as int),
                decreases pairs@.len() - k,
            {
                proof {
                    assert(decreases_to!(*v => v->Obj_0));
                    assert(v->Obj_0 == *pairs);
                    assert(decreases_to!(*pairs => pairs[k as int]));
                    assert(decreases_to!(pairs[k as int] => pairs[k as int].1));
                    assert(decreases_to!(*v => pairs[k as int].1));
                    lemma_json_view_obj_index(pairs@, 0, k as int);
                }
                let key = pairs[k].0.clone();
                let val = sort_value(&pairs[k].1);
                // find the insertion position: after all keys not greater
                let mut pos: usize = 0;
                while pos < out.len() && !str_lt(key.as_str(), out[pos].0.as_str())
                    invariant
                        0 <= pos <= out@.len(),
                        key@ == pairs@[k as int].0@,
                        forall|j: int| 0 <= j < pos ==> !chars_lt(key@, (#[trigger] out@[j]).0@),
                    decreases out@.len() - pos,
                {
                    pos += 1;
                }
                let ghost old_out = out@;
                let ghost gs = json_view_obj(out@, 0);
                let ghost pm = (pairs@[k as int].0@, sort_json(json_view(pairs@[k as int].1)));
                proof {
                    lemma_json_view_obj_len(old_out, 0);
                    assert forall|j: int| 0 <= j < pos implies !chars_lt(pm.0, (
                    #[trigger] gs[j]).0) by {
                        lemma_json_view_obj_index(old_out, 0, j);
                    }
                    if (pos as int) < old_out.len() {
                        lemma_json_view_obj_index(old_out, 0, pos as int);
                    }
                    lemma_ins_pair_split(pm, gs, pos as int);
                }
                out.insert(pos, (key, val));
                proof {
                    lemma_json_view_obj_len(out@, 0);
                    assert forall|j: int| 0 <= j < out@.len() implies json_view_obj(out@, 0)[j]
                        == (gs.take(pos as int) + seq![pm] + gs.skip(pos as int))[j] by {
                        lemma_json_view_obj_index(out@, 0, j);
                        if j < pos as int {
                            assert(out@[j] == old_out[j]);
                            lemma_json_view_obj_index(old_out, 0, j);
                        } else if j == pos as int {
                            assert(out@[j] == (key, val));
                        } else {
                            assert(out@[j] == old_out[j - 1]);
                            lemma_json_view_obj_index(old_out, 0, j - 1);
                        }
                    }
                    assert(json_view_obj(out@, 0) =~= gs.take(pos as int) + seq![pm] + gs.skip(
                        pos as int,
                    ));
                    assert(json_view_obj(out@, 0) =~= sort_pairs(views, k as int + 1));
                }
                k += 1;
            }
            JsonValue::Obj(out)
        },
    }
}

/// Pushing an element extends the element-model sequence by its model.
pub proof fn lemma_json_view_arr_push(items: Seq<JsonValue>, item: JsonValue)
    ensures
        json_view_arr(items.push(item), 0) == json_view_arr(items, 0).push(json_view(item)),
{
    lemma_json_view_arr_len(items, 0);
    lemma_json_view_arr_len(items.push(item), 0);
    assert forall|j: int| 0 <= j < items.len() + 1 implies json_view_arr(items.push(item), 0)[j]
        == json_view_arr(items, 0).push(json_view(item))[j] by {
        lemma_json_view_arr_index(items.push(item), 0, j);
        if j < items.len() {
            lemma_json_view_arr_index(items, 0, j);
            assert(items.push(item)[j] == items[j]);
        } else {
            assert(items.push(item)[j] == item);
        }
    }
    assert(json_view_arr(items.push(item), 0) =~= json_view_arr(items, 0).push(json_view(item)));
}

/// Inserting after every key that is not greater realizes `ins_pair`: the
/// pair lands at the scanned position.
pub proof fn lemma_ins_pair_split(
    p: (Seq<char>, JsonV),
    s: Seq<(Seq<char>, JsonV)>,
    pos: int,
)
    requires
        0 <= pos <= s.len(),
        forall|j: int| 0 <= j < pos ==> !chars_lt(p.0, (#[trigger] s[j]).0),
        pos < s.len() ==> chars_lt(p.0, s[pos].0),
    ensures
        ins_pair(p, s) == s.take(pos) + seq![p] + s.skip(pos),
    decreases s.len(),
{
    if s.len() == 0 {
        assert(ins_pair(p, s) =~= s.take(pos) + seq![p] + s.skip(pos));
    } else if pos == 0 {
        assert(chars_lt(p.0, s[0].0));
        assert(ins_pair(p, s) =~= s.take(0) + seq![p] + s.skip(0));
    } else {
        assert(!chars_lt(p.0, s[0].0));
        let rest = s.drop_first();
        assert forall|j: int| 0 <= j < pos - 1 implies !chars_lt(p.0, (#[trigger] rest[j]).0) by {
            assert(rest[j] == s[j + 1]);
        }
        if pos - 1 < rest.len() {
            assert(rest[pos - 1] == s[pos]);
        }
        lemma_ins_pair_split(p, rest, pos - 1);
        assert(ins_pair(p, s) == seq![s[0]] + ins_pair(p, rest));
        assert(seq![s[0]] + (rest.take(pos - 1) + seq![p] + rest.skip(pos - 1)) =~= s.take(pos)
            + seq![p] + s.skip(pos));
    }
}

/// Canonicalize a JSON value: object keys sorted lexicographically by code
/// point, no insignificant whitespace, strings escaped, numbers in shortest
/// decimal form.  This is the form signatures are computed over.
pub fn canonicalize_json(value: &JsonValue) -> (r: String)
    ensures
        r@ == ser_json(sort_json(value@)),
{
    let sorted = sort_value(value);
    let mut out = String::new();
    push_json(&mut out, &sorted);
    proof {
        assert(out@ =~= ser_json(sort_json(value@)));
    }
    out
}

} // verus!
