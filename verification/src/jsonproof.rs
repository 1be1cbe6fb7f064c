//! The round-trip law for the JSON codec: parsing a serialized value gives
//! the value back.

use vstd::prelude::*;

use crate::json::JsonV;
use crate::jsonparse::{
    digits_end, digits_value, is_digit, is_json_ws, matches_at, parse_elems, parse_members,
    parse_number, parse_string_body, parse_value, pow10, skip_ws,
};
use crate::jsonser::{
    dec_digit_char, dec_nat, dec_pad, esc_char, esc_rec, frac_trim, ser_arr, ser_json, ser_num,
    ser_obj, ser_str,
};

verus! {

/// The characters of a shortest decimal rendering are digits.
pub proof fn lemma_dec_nat_digits(n: int)
    requires
        n >= 0,
    ensures
        dec_nat(n).len() >= 1,
        forall|j: int| 0 <= j < dec_nat(n).len() ==> is_digit(#[trigger] dec_nat(n)[j]),
    decreases n,
{
    if n < 10 {
        assert(is_digit(dec_digit_char(n)));
    } else {
        lemma_dec_nat_digits(n / 10);
        assert(is_digit(dec_digit_char(n % 10)));
        assert forall|j: int| 0 <= j < dec_nat(n).len() implies is_digit(#[trigger] dec_nat(n)[j])
            by {
            if j < dec_nat(n / 10).len() {
                assert(dec_nat(n)[j] == dec_nat(n / 10)[j]);
            } else {
                assert(dec_nat(n)[j] == dec_digit_char(n % 10));
            }
        }
    }
}

/// The characters of a padded decimal rendering are digits, and there are
/// exactly `width` of them.
pub proof fn lemma_dec_pad_digits(n: int, width: int)
    requires
        n >= 0,
        width >= 1,
    ensures
        dec_pad(n, width).len() == width,
        forall|j: int| 0 <= j < width ==> is_digit(#[trigger] dec_pad(n, width)[j]),
    decreases width,
{
    if width <= 1 {
        assert(is_digit(dec_digit_char(n % 10)));
    } else {
        lemma_dec_pad_digits(n / 10, width - 1);
        assert(is_digit(dec_digit_char(n % 10)));
        assert forall|j: int| 0 <= j < width implies is_digit(#[trigger] dec_pad(n, width)[j]) by {
            if j < width - 1 {
                assert(dec_pad(n, width)[j] == dec_pad(n / 10, width - 1)[j]);
            } else {
                assert(dec_pad(n, width)[j] == dec_digit_char(n % 10));
            }
        }
    }
}

/// A digit run laid down in a string evaluates to the number it renders.
pub proof fn lemma_digits_value_of_dec_nat(n: int, s: Seq<char>, i: int)
    requires
        n >= 0,
        0 <= i,
        i + dec_nat(n).len() <= s.len(),
        s.subrange(i, i + dec_nat(n).len() as int) == dec_nat(n),
    ensures
        digits_value(s, i, i + dec_nat(n).len() as int) == n,
    decreases n,
{
    let len = dec_nat(n).len() as int;
    if n < 10 {
        assert(s[i] == dec_nat(n)[0]);
        assert(digits_value(s, i, i + 1) == digits_value(s, i, i) * 10
            + crate::jsonparse::digit_val(s[i]));
        assert(crate::jsonparse::digit_val(dec_digit_char(n)) == n);
    } else {
        let head_len = dec_nat(n / 10).len() as int;
        assert(dec_nat(n) == dec_nat(n / 10) + seq![dec_digit_char(n % 10)]);
        assert(s.subrange(i, i + head_len) =~= dec_nat(n / 10)) by {
            assert forall|j: int| 0 <= j < head_len implies #[trigger] s.subrange(
                i,
                i + head_len,
            )[j] == dec_nat(n / 10)[j] by {
                assert(s.subrange(i, i + len)[j] == dec_nat(n)[j]);
                assert(dec_nat(n)[j] == dec_nat(n / 10)[j]);
            }
        }
        lemma_digits_value_of_dec_nat(n / 10, s, i);
        assert(s[i + head_len] == dec_nat(n)[head_len]);
        assert(dec_nat(n)[head_len] == dec_digit_char(n % 10));
        assert(digits_value(s, i, i + len) == digits_value(s, i, i + len - 1) * 10
            + crate::jsonparse::digit_val(s[i + len - 1]));
        assert(crate::jsonparse::digit_val(dec_digit_char(n % 10)) == n % 10);
    }
}

/// A padded digit run laid down in a string evaluates to the number it
/// renders, modulo the width.
pub proof fn lemma_digits_value_of_dec_pad(n: int, width: int, s: Seq<char>, i: int)
    requires
        0 <= n < pow10(width),
        width >= 1,
        0 <= i,
        i + width <= s.len(),
        s.subrange(i, i + width) == dec_pad(n, width),
    ensures
        digits_value(s, i, i + width) == n,
    decreases width,
{
    lemma_dec_pad_digits(n, width);
    if width <= 1 {
        assert(s[i] == dec_pad(n, width)[0]);
        assert(pow10(1) == 10 * pow10(0));
        assert(n % 10 == n);
        assert(digits_value(s, i, i) == 0);
        assert(digits_value(s, i, i + 1) == crate::jsonparse::digit_val(s[i]));
        assert(crate::jsonparse::digit_val(dec_digit_char(n)) == n);
    } else {
        assert(dec_pad(n, width) == dec_pad(n / 10, width - 1) + seq![dec_digit_char(n % 10)]);
        assert(s.subrange(i, i + width - 1) =~= dec_pad(n / 10, width - 1)) by {
            assert forall|j: int| 0 <= j < width - 1 implies #[trigger] s.subrange(
                i,
                i + width - 1,
            )[j] == dec_pad(n / 10, width - 1)[j] by {
                assert(s.subrange(i, i + width)[j] == dec_pad(n, width)[j]);
                assert(dec_pad(n, width)[j] == dec_pad(n / 10, width - 1)[j]);
            }
        }
        assert(pow10(width) == 10 * pow10(width - 1));
        assert(0 <= n / 10 < pow10(width - 1)) by (nonlinear_arith)
            requires
                0 <= n < 10 * pow10(width - 1),
                pow10(width - 1) >= 0,
        ;
        lemma_digits_value_of_dec_pad(n / 10, width - 1, s, i);
        assert(s[i + width - 1] == dec_pad(n, width)[width - 1]);
        assert(digits_value(s, i, i + width) == digits_value(s, i, i + width - 1) * 10
            + crate::jsonparse::digit_val(s[i + width - 1]));
        assert(crate::jsonparse::digit_val(dec_digit_char(n % 10)) == n % 10);
    }
}

/// A digit run in a string ends exactly where the digits end.
pub proof fn lemma_digits_end_run(s: Seq<char>, i: int, j: int)
    requires
        0 <= i <= j <= s.len(),
        forall|k: int| i <= k < j ==> is_digit(#[trigger] s[k]),
        j < s.len() ==> !is_digit(s[j]),
    ensures
        digits_end(s, i) == j,
    decreases j - i,
{
    if i < j {
        lemma_digits_end_run(s, i + 1, j);
    }
}


/// The trimmed fraction digits, laid down in a string, evaluate back to
/// the fraction: their value scaled by the stripped power of ten is `f`.
pub proof fn lemma_frac_value(f: int, w: int, s: Seq<char>, i: int)
    requires
        1 <= f < pow10(w),
        w >= 1,
        0 <= i,
        i + frac_trim(f, w).len() <= s.len(),
        s.subrange(i, i + frac_trim(f, w).len() as int) == frac_trim(f, w),
    ensures
        1 <= frac_trim(f, w).len() <= w,
        forall|k: int| i <= k < i + frac_trim(f, w).len() ==> is_digit(#[trigger] s[k]),
        digits_value(s, i, i + frac_trim(f, w).len() as int) * pow10(
            w - frac_trim(f, w).len() as int,
        ) == f,
    decreases w,
{
    let d = frac_trim(f, w);
    let len = d.len() as int;
    if w <= 1 {
        assert(pow10(1) == 10 * pow10(0));
        assert(f % 10 == f);
        assert(d == seq![dec_digit_char(f % 10)]);
        assert(s[i] == d[0]);
        assert(is_digit(dec_digit_char(f)));
        assert(digits_value(s, i, i) == 0);
        assert(digits_value(s, i, i + 1) == crate::jsonparse::digit_val(s[i]));
        assert(crate::jsonparse::digit_val(dec_digit_char(f)) == f);
        assert(pow10(0) == 1);
    } else if f % 10 == 0 {
        assert(d == frac_trim(f / 10, w - 1));
        assert(pow10(w) == 10 * pow10(w - 1));
        assert(1 <= f / 10 < pow10(w - 1)) by (nonlinear_arith)
            requires
                10 <= f < 10 * pow10(w - 1),
                f % 10 == 0,
                pow10(w - 1) >= 1,
        ;
        lemma_frac_value(f / 10, w - 1, s, i);
        assert(pow10(w - len) == 10 * pow10(w - 1 - len));
        assert(digits_value(s, i, i + len) * pow10(w - len) == (digits_value(s, i, i + len)
            * pow10(w - 1 - len)) * 10) by (nonlinear_arith)
            requires
                pow10(w - len) == 10 * pow10(w - 1 - len),
        ;
        assert((f / 10) * 10 == f);
    } else {
        assert(d == dec_pad(f, w));
        lemma_dec_pad_digits(f, w);
        lemma_digits_value_of_dec_pad(f, w, s, i);
        assert forall|k: int| i <= k < i + len implies is_digit(#[trigger] s[k]) by {
            assert(s[k] == s.subrange(i, i + len)[k - i]);
            assert(dec_pad(f, w)[k - i] == d[k - i]);
        }
        assert(pow10(0) == 1);
    }
}

/// Parsing a rendered number gives the number back, when the character
/// after it is neither a digit nor a decimal point.
pub proof fn lemma_parse_ser_num(m: i64, s: Seq<char>, i: int)
    requires
        m > -0x8000_0000_0000_0000,
        0 <= i,
        i + ser_num(m).len() <= s.len(),
        s.subrange(i, i + ser_num(m).len() as int) == ser_num(m),
        i + ser_num(m).len() < s.len() ==> !is_digit(s[i + ser_num(m).len()]) && s[i + ser_num(
            m,
        ).len()] != '.',
    ensures
        parse_number(s, i) == Some((JsonV::Num(m), i + ser_num(m).len() as int)),
{
    crate::jsonparse::lemma_pow10_unfold();
    let mag = if m < 0 { -(m as int) } else { m as int };
    let units = mag / 1_000_000;
    let frac = mag % 1_000_000;
    let len = ser_num(m).len() as int;
    let di: int = if m < 0 { i + 1 } else { i };
    let ulen = dec_nat(units).len() as int;
    lemma_dec_nat_digits(units);
    // The sign and the unit digits land where the parser looks.
    assert forall|j: int| 0 <= j < len implies #[trigger] s[i + j] == ser_num(m)[j] by {
        assert(s.subrange(i, i + len)[j] == ser_num(m)[j]);
    }
    if m < 0 {
        assert(ser_num(m)[0] == '-');
        assert(s[i] == '-');
    } else {
        assert(ser_num(m)[0] == dec_nat(units)[0]);
        assert(is_digit(s[i]));
        assert(s[i] != '-');
    }
    // The unit digits occupy s[di .. di + ulen].
    assert(s.subrange(di, di + ulen) =~= dec_nat(units)) by {
        assert forall|j: int| 0 <= j < ulen implies #[trigger] s.subrange(di, di + ulen)[j]
            == dec_nat(units)[j] by {
            if m < 0 {
                assert(ser_num(m)[j + 1] == dec_nat(units)[j]);
            } else {
                assert(ser_num(m)[j] == dec_nat(units)[j]);
            }
        }
    }
    assert forall|k: int| di <= k < di + ulen implies is_digit(#[trigger] s[k]) by {
        assert(s.subrange(di, di + ulen)[k - di] == dec_nat(units)[k - di]);
    }
    lemma_digits_value_of_dec_nat(units, s, di);
    if frac == 0 {
        // Integer form: the run ends at the boundary.
        assert(len == (if m < 0 { 1int } else { 0int }) + ulen);
        lemma_digits_end_run(s, di, di + ulen);
        assert(digits_value(s, di, di + ulen) == units);
        assert(units * 1_000_000 == mag);
        assert(mag <= 0x7fff_ffff_ffff_ffff);
        if di + ulen < s.len() {
            assert(s[di + ulen] != '.');
        }
        assert(parse_number(s, i) == Some((JsonV::Num(m), i + len)));
    } else {
        // Fixed-point form: unit digits, a point, then the trimmed
        // fraction digits.
        let flen = frac_trim(frac, 6).len() as int;
        assert(len == (if m < 0 { 1int } else { 0int }) + ulen + 1 + flen);
        assert(ser_num(m) == (if m < 0 { seq!['-'] } else { Seq::<char>::empty() }) + dec_nat(
            units,
        ) + seq!['.'] + frac_trim(frac, 6));
        let sign_len: int = if m < 0 { 1 } else { 0 };
        assert(s[di + ulen] == ser_num(m)[sign_len + ulen]);
        assert(ser_num(m)[sign_len + ulen] == '.');
        assert(!is_digit('.'));
        lemma_digits_end_run(s, di, di + ulen);
        assert(digits_value(s, di, di + ulen) == units);
        let fi = di + ulen + 1;
        assert(s.subrange(fi, fi + flen) =~= frac_trim(frac, 6)) by {
            assert forall|j: int| 0 <= j < flen implies #[trigger] s.subrange(fi, fi + flen)[j]
                == frac_trim(frac, 6)[j] by {
                assert(ser_num(m)[sign_len + ulen + 1 + j] == frac_trim(frac, 6)[j]);
            }
        }
        lemma_frac_value(frac, 6, s, fi);
        lemma_digits_end_run(s, fi, fi + flen);
        assert(digits_value(s, fi, fi + flen) * pow10(6 - flen) == frac);
        assert(units * 1_000_000 + frac == mag);
        assert(mag <= 0x7fff_ffff_ffff_ffff);
        assert(parse_number(s, i) == Some((JsonV::Num(m), i + len)));
    }
}


/// Rendered hex digits evaluate back to their value.
pub proof fn lemma_hex_digit_roundtrip(x: int)
    requires
        0 <= x < 16,
    ensures
        crate::jsonparse::is_hex(crate::hex::hex_digit_char(x)),
        crate::jsonparse::hex_val(crate::hex::hex_digit_char(x)) == x,
{
}

/// Parsing an escaped string body from position `k` of the original gives
/// the rest of the original characters back.
pub proof fn lemma_parse_esc(body: Seq<char>, k: int, s: Seq<char>, i: int)
    requires
        0 <= k <= body.len(),
        0 <= i,
        i + esc_rec(body, k).len() + 1 <= s.len(),
        s.subrange(i, i + esc_rec(body, k).len() as int) == esc_rec(body, k),
        s[i + esc_rec(body, k).len()] == '"',
    ensures
        parse_string_body(s, i) == Some((body.skip(k), i + esc_rec(body, k).len() + 1)),
    decreases body.len() - k,
{
    let e = esc_rec(body, k);
    let elen = e.len() as int;
    if k == body.len() {
        assert(e =~= Seq::<char>::empty());
        assert(s[i] == '"');
        assert(body.skip(k) =~= Seq::<char>::empty());
        assert(parse_string_body(s, i) == Some((Seq::<char>::empty(), i + 1)));
    } else {
        let c = body[k];
        let ec = esc_char(c);
        let eclen = ec.len() as int;
        assert(e == ec + esc_rec(body, k + 1));
        let rest = esc_rec(body, k + 1);
        assert forall|j: int| 0 <= j < elen implies #[trigger] s[i + j] == e[j] by {
            assert(s.subrange(i, i + elen)[j] == e[j]);
        }
        assert(elen >= eclen);
        assert(s[i] == e[0]) by {
            assert(s[i + 0] == e[0]);
        }
        if eclen >= 2 {
            assert(s[i + 1] == e[1]);
        }
        if eclen >= 6 {
            assert(s[i + 2] == e[2]);
            assert(s[i + 3] == e[3]);
            assert(s[i + 4] == e[4]);
            assert(s[i + 5] == e[5]);
        }
        // The rest of the escape lies right after this character's escape.
        assert(s.subrange(i + eclen, i + eclen + rest.len() as int) =~= rest) by {
            assert forall|j: int| 0 <= j < rest.len() implies #[trigger] s.subrange(
                i + eclen,
                i + eclen + rest.len() as int,
            )[j] == rest[j] by {
                assert(s[i + eclen + j] == e[eclen + j]);
                assert(e[eclen + j] == rest[j]);
            }
        }
        lemma_parse_esc(body, k + 1, s, i + eclen);
        assert(body.skip(k) =~= seq![c] + body.skip(k + 1));
        if c == '"' || c == '\\' || c == '\u{8}' || c == '\t' || c == '\n' || c == '\u{c}'
            || c == '\r' {
            assert(s[i] == '\\');
            assert(s[i + 1] == ec[1]);
            assert(parse_string_body(s, i) == Some((body.skip(k), i + elen + 1)));
        } else if (c as u32) < 0x20 {
            let code = c as u32 as int;
            assert(ec == seq!['\\', 'u', '0', '0', crate::hex::hex_digit_char(code / 16),
                crate::hex::hex_digit_char(code % 16)]);
            assert(s[i] == '\\');
            assert(s[i + 1] == 'u');
            assert(s[i + 2] == '0');
            assert(s[i + 3] == '0');
            lemma_hex_digit_roundtrip(code / 16);
            lemma_hex_digit_roundtrip(code % 16);
            assert(s[i + 4] == crate::hex::hex_digit_char(code / 16));
            assert(s[i + 5] == crate::hex::hex_digit_char(code % 16));
            assert(crate::jsonparse::hex_val(s[i + 4]) * 16 + crate::jsonparse::hex_val(s[i + 5])
                == code);
            assert(i + 5 < s.len());
            let cu: u32 = c as u32;
            vstd::utf8::char_u32_cast(c, cu);
            assert(code as u8 as u32 == cu);
            assert(((code as u8) as char) == c);
            assert(parse_string_body(s, i) == Some((body.skip(k), i + elen + 1)));
        } else {
            assert(ec == seq![c]);
            assert(s[i] == c);
            assert(c != '"' && c != '\\');
            assert(!((c as u32) < 0x20));
            assert(parse_string_body(s, i) == Some((body.skip(k), i + elen + 1)));
        }
    }
}

/// Parsing a rendered string literal gives the string back.
pub proof fn lemma_parse_ser_str(body: Seq<char>, s: Seq<char>, i: int)
    requires
        0 <= i,
        i + ser_str(body).len() <= s.len(),
        s.subrange(i, i + ser_str(body).len() as int) == ser_str(body),
    ensures
        parse_string_body(s, i + 1) == Some((body, i + ser_str(body).len() as int)),
{
    let len = ser_str(body).len() as int;
    assert forall|j: int| 0 <= j < len implies #[trigger] s[i + j] == ser_str(body)[j] by {
        assert(s.subrange(i, i + len)[j] == ser_str(body)[j]);
    }
    let e = esc_rec(body, 0);
    let elen = e.len() as int;
    assert(ser_str(body) == seq!['"'] + e + seq!['"']);
    assert(s.subrange(i + 1, i + 1 + elen) =~= e) by {
        assert forall|j: int| 0 <= j < elen implies #[trigger] s.subrange(i + 1, i + 1 + elen)[j]
            == e[j] by {
            assert(s[i + 1 + j] == ser_str(body)[1 + j]);
            assert(ser_str(body)[1 + j] == e[j]);
        }
    }
    assert(s[i + 1 + elen] == ser_str(body)[1 + elen]);
    assert(ser_str(body)[1 + elen] == '"');
    lemma_parse_esc(body, 0, s, i + 1);
    assert(body.skip(0) =~= body);
}


/// Well-formed JSON values: every number lies strictly above the smallest
/// fixed-point value, so that its magnitude is representable.
pub open spec fn json_wf(v: JsonV) -> bool
    decreases v, 0int,
{
    match v {
        JsonV::Null => true,
        JsonV::Bool(_) => true,
        JsonV::Num(m) => m > -0x8000_0000_0000_0000,
        JsonV::Str(_) => true,
        JsonV::Arr(items) => json_wf_arr(items, items.len() as int),
        JsonV::Obj(pairs) => json_wf_obj(pairs, pairs.len() as int),
    }
}

/// The first `k` elements are well formed.
pub open spec fn json_wf_arr(items: Seq<JsonV>, k: int) -> bool
    decreases items, 1int, k,
{
    if k <= 0 || k > items.len() {
        true
    } else {
        json_wf_arr(items, k - 1) && json_wf(items[k - 1])
    }
}

/// The first `k` member values are well formed.
pub open spec fn json_wf_obj(pairs: Seq<(Seq<char>, JsonV)>, k: int) -> bool
    decreases pairs, 1int, k,
{
    if k <= 0 || k > pairs.len() {
        true
    } else {
        json_wf_obj(pairs, k - 1) && json_wf(pairs[k - 1].1)
    }
}

/// Each element of a well-formed prefix is well formed.
pub proof fn lemma_wf_arr_index(items: Seq<JsonV>, k: int, j: int)
    requires
        json_wf_arr(items, k),
        0 <= j < k <= items.len(),
    ensures
        json_wf(items[j]),
    decreases k,
{
    if j < k - 1 {
        lemma_wf_arr_index(items, k - 1, j);
    }
}

/// Each member value of a well-formed prefix is well formed.
pub proof fn lemma_wf_obj_index(pairs: Seq<(Seq<char>, JsonV)>, k: int, j: int)
    requires
        json_wf_obj(pairs, k),
        0 <= j < k <= pairs.len(),
    ensures
        json_wf(pairs[j].1),
    decreases k,
{
    if j < k - 1 {
        lemma_wf_obj_index(pairs, k - 1, j);
    }
}

/// The serialization of a value is non-empty and starts with the
/// character its variant dictates, never whitespace, a comma or a closing
/// bracket.
pub proof fn lemma_ser_shape(v: JsonV)
    ensures
        ser_json(v).len() >= 1,
        !is_json_ws(ser_json(v)[0]),
        ser_json(v)[0] != ',' && ser_json(v)[0] != ']' && ser_json(v)[0] != '}' && ser_json(v)[0]
            != ':',
        v is Null ==> ser_json(v)[0] == 'n',
        v matches JsonV::Bool(b) && b ==> ser_json(v)[0] == 't',
        v matches JsonV::Bool(b) && !b ==> ser_json(v)[0] == 'f',
        v is Str ==> ser_json(v)[0] == '"',
        v is Arr ==> ser_json(v)[0] == '[',
        v is Obj ==> ser_json(v)[0] == '{',
        v matches JsonV::Num(m) ==> (ser_json(v)[0] == '-' || is_digit(ser_json(v)[0]))
            && ser_json(v)[0] != 'n' && ser_json(v)[0] != 't' && ser_json(v)[0] != 'f'
            && ser_json(v)[0] != '"' && ser_json(v)[0] != '[' && ser_json(v)[0] != '{',
{
    match v {
        JsonV::Num(m) => {
            let mag = if m < 0 { -(m as int) } else { m as int };
            let units = mag / 1_000_000;
            lemma_dec_nat_digits(units);
            if m < 0 {
                assert(ser_num(m)[0] == '-');
            } else {
                assert(ser_num(m)[0] == dec_nat(units)[0]);
                assert(is_digit(ser_num(m)[0]));
            }
        },
        _ => {},
    }
}

/// No digit or point follows position `j`: safe ground for a number to
/// stop.
pub open spec fn num_boundary(s: Seq<char>, j: int) -> bool {
    j >= s.len() || (!is_digit(s[j]) && s[j] != '.')
}

/// The serialization of elements `k..` of an array, each preceded by a
/// comma.
pub open spec fn ser_arr_tail(items: Seq<JsonV>, k: int) -> Seq<char>
    decreases items, 1int, items.len() - k,
{
    if k < 0 || k >= items.len() {
        Seq::empty()
    } else {
        seq![','] + ser_json(items[k]) + ser_arr_tail(items, k + 1)
    }
}

/// The serialization of one object member.
pub open spec fn ser_member(p: (Seq<char>, JsonV)) -> Seq<char> {
    ser_str(p.0) + seq![':'] + ser_json(p.1)
}

/// The serialization of members `k..` of an object, each preceded by a
/// comma.
pub open spec fn ser_obj_tail(pairs: Seq<(Seq<char>, JsonV)>, k: int) -> Seq<char>
    decreases pairs, 1int, pairs.len() - k,
{
    if k < 0 || k >= pairs.len() {
        Seq::empty()
    } else {
        seq![','] + ser_member(pairs[k]) + ser_obj_tail(pairs, k + 1)
    }
}

/// The prefix form of the array serialization splits into the first `k`
/// elements and the comma-led tail.
pub proof fn lemma_ser_arr_split(items: Seq<JsonV>, k: int)
    requires
        1 <= k <= items.len(),
    ensures
        ser_arr(items, items.len() as int) == ser_arr(items, k) + ser_arr_tail(items, k),
    decreases items.len() - k,
{
    let n = items.len() as int;
    if k == n {
        assert(ser_arr(items, n) =~= ser_arr(items, n) + ser_arr_tail(items, n));
    } else {
        lemma_ser_arr_split(items, k + 1);
        assert(ser_arr(items, k + 1) == ser_arr(items, k) + seq![','] + ser_json(items[k]));
        assert((ser_arr(items, k) + seq![','] + ser_json(items[k])) + ser_arr_tail(items, k + 1)
            =~= ser_arr(items, k) + (seq![','] + ser_json(items[k]) + ser_arr_tail(items, k + 1)));
    }
}

/// The prefix form of the object serialization splits into the first `k`
/// members and the comma-led tail.
pub proof fn lemma_ser_obj_split(pairs: Seq<(Seq<char>, JsonV)>, k: int)
    requires
        1 <= k <= pairs.len(),
    ensures
        ser_obj(pairs, pairs.len() as int) == ser_obj(pairs, k) + ser_obj_tail(pairs, k),
    decreases pairs.len() - k,
{
    let n = pairs.len() as int;
    if k == n {
        assert(ser_obj(pairs, n) =~= ser_obj(pairs, n) + ser_obj_tail(pairs, n));
    } else {
        lemma_ser_obj_split(pairs, k + 1);
        assert(ser_obj(pairs, k + 1) == ser_obj(pairs, k) + seq![','] + ser_str(pairs[k].0)
            + seq![':'] + ser_json(pairs[k].1));
        assert((ser_obj(pairs, k) + seq![','] + ser_str(pairs[k].0) + seq![':'] + ser_json(
            pairs[k].1,
        )) + ser_obj_tail(pairs, k + 1) =~= ser_obj(pairs, k) + (seq![','] + ser_member(pairs[k])
            + ser_obj_tail(pairs, k + 1)));
    }
}

/// Parsing a serialized value gives the value back, together with the
/// position right after it.
#[verifier::rlimit(100)]
pub proof fn lemma_parse_ser(v: JsonV, s: Seq<char>, i: int)
    requires
        json_wf(v),
        0 <= i,
        i + ser_json(v).len() <= s.len(),
        s.subrange(i, i + ser_json(v).len() as int) == ser_json(v),
        num_boundary(s, i + ser_json(v).len() as int),
    ensures
        parse_value(s, i) == Some((v, i + ser_json(v).len() as int)),
    decreases v, 0int, 0int,
{
    let len = ser_json(v).len() as int;
    lemma_ser_shape(v);
    assert forall|j: int| 0 <= j < len implies #[trigger] s[i + j] == ser_json(v)[j] by {
        assert(s.subrange(i, i + len)[j] == ser_json(v)[j]);
    }
    assert(s[i] == ser_json(v)[0]) by {
        assert(s[i + 0] == ser_json(v)[0]);
    }
    assert(skip_ws(s, i) == i);
    match v {
        JsonV::Null => {
            assert(s.subrange(i, i + 4) =~= seq!['n', 'u', 'l', 'l']);
            assert(matches_at(s, i, seq!['n', 'u', 'l', 'l']));
        },
        JsonV::Bool(b) => {
            if b {
                assert(s.subrange(i, i + 4) =~= seq!['t', 'r', 'u', 'e']);
                assert(matches_at(s, i, seq!['t', 'r', 'u', 'e']));
            } else {
                assert(s.subrange(i, i + 5) =~= seq!['f', 'a', 'l', 's', 'e']);
                assert(matches_at(s, i, seq!['f', 'a', 'l', 's', 'e']));
            }
        },
        JsonV::Num(m) => {
            lemma_parse_ser_num(m, s, i);
        },
        JsonV::Str(body) => {
            lemma_parse_ser_str(body, s, i);
        },
        JsonV::Arr(items) => {
            assert(decreases_to!(v => items));
            lemma_parse_ser_arr(items, s, i);
        },
        JsonV::Obj(pairs) => {
            assert(decreases_to!(v => pairs));
            lemma_parse_ser_obj(pairs, s, i);
        },
    }
}


/// The array case of the round trip.
#[verifier::rlimit(100)]
pub proof fn lemma_parse_ser_arr(items: Seq<JsonV>, s: Seq<char>, i: int)
    requires
        json_wf(JsonV::Arr(items)),
        0 <= i,
        i + ser_json(JsonV::Arr(items)).len() <= s.len(),
        s.subrange(i, i + ser_json(JsonV::Arr(items)).len() as int) == ser_json(JsonV::Arr(items)),
        num_boundary(s, i + ser_json(JsonV::Arr(items)).len() as int),
    ensures
        parse_value(s, i) == Some((JsonV::Arr(items), i + ser_json(JsonV::Arr(items)).len() as int)),
    decreases items, 3int, 0int,
{
    let v = JsonV::Arr(items);
    let len = ser_json(v).len() as int;
    lemma_ser_shape(v);
    assert forall|j: int| 0 <= j < len implies #[trigger] s[i + j] == ser_json(v)[j] by {
        assert(s.subrange(i, i + len)[j] == ser_json(v)[j]);
    }
    assert(s[i] == ser_json(v)[0]) by {
        assert(s[i + 0] == ser_json(v)[0]);
    }
    assert(skip_ws(s, i) == i);
            let n = items.len() as int;
            let inner = ser_arr(items, n);
            let ilen = inner.len() as int;
            assert(ser_json(v) == seq!['['] + inner + seq![']']);
            assert(s[i + 1 + ilen] == ser_json(v)[1 + ilen]);
            assert(ser_json(v)[1 + ilen] == ']');
            assert(s.subrange(i + 1, i + 1 + ilen) =~= inner) by {
                assert forall|j: int| 0 <= j < ilen implies #[trigger] s.subrange(
                    i + 1,
                    i + 1 + ilen,
                )[j] == inner[j] by {
                    assert(s[i + 1 + j] == ser_json(v)[1 + j]);
                    assert(ser_json(v)[1 + j] == inner[j]);
                }
            }
            if n == 0 {
                assert(inner =~= Seq::<char>::empty());
                assert(s[i + 1] == ']');
                assert(skip_ws(s, i + 1) == i + 1);
                assert(parse_elems(s, i + 1) == Some((Seq::<JsonV>::empty(), i + 2)));
                assert(items =~= Seq::<JsonV>::empty());
            } else {
                lemma_ser_arr_split(items, 1);
                let e0 = ser_json(items[0]);
                let e0len = e0.len() as int;
                assert(ser_arr(items, 0) =~= Seq::<char>::empty());
                assert(ser_arr(items, 1) =~= e0);
                assert(inner == e0 + ser_arr_tail(items, 1));
                assert(s.subrange(i + 1, i + 1 + e0len) =~= e0) by {
                    assert forall|j: int| 0 <= j < e0len implies #[trigger] s.subrange(
                        i + 1,
                        i + 1 + e0len,
                    )[j] == e0[j] by {
                        assert(s[i + 1 + j] == ser_json(v)[1 + j]);
                        assert(inner[j] == e0[j]);
                    }
                }
                lemma_wf_arr_index(items, n, 0);
                lemma_ser_shape(items[0]);
                assert(s[i + 1] == e0[0]) by {
                    assert(s[i + 1 + 0] == ser_json(v)[1int + 0]);
                    assert(inner[0] == e0[0]);
                }
                assert(skip_ws(s, i + 1) == i + 1);
                assert(s[i + 1] != ']');
                // The element ends at a comma or the closing bracket.
                let tail = ser_arr_tail(items, 1);
                assert(s[i + 1 + e0len] == (if tail.len() > 0 { ',' } else { ']' })) by {
                    if tail.len() > 0 {
                        assert(inner[e0len] == tail[0]);
                        assert(tail[0] == ',');
                        assert(s[i + 1 + e0len] == ser_json(v)[1 + e0len]);
                    }
                }
                assert(num_boundary(s, i + 1 + e0len));
                lemma_parse_ser(items[0], s, i + 1);
                assert(s.subrange(i + 1 + e0len, i + 1 + e0len + tail.len() as int) =~= tail) by {
                    assert forall|j: int| 0 <= j < tail.len() implies #[trigger] s.subrange(
                        i + 1 + e0len,
                        i + 1 + e0len + tail.len() as int,
                    )[j] == tail[j] by {
                        assert(s[i + (1 + e0len + j)] == ser_json(v)[1 + e0len + j]);
                        assert(ser_json(v)[1 + e0len + j] == inner[e0len + j]);
                        assert(inner[e0len + j] == tail[j]);
                    }
                }
                assert(s[i + 1 + e0len + tail.len()] == ']') by {
                    assert(i + 1 + e0len + tail.len() == i + 1 + ilen);
                }
                lemma_parse_elems_tail(items, 1, s, i + 1 + e0len);
                assert(seq![items[0]] + items.skip(1) =~= items);
            }
}

/// The object case of the round trip.
#[verifier::rlimit(100)]
pub proof fn lemma_parse_ser_obj(pairs: Seq<(Seq<char>, JsonV)>, s: Seq<char>, i: int)
    requires
        json_wf(JsonV::Obj(pairs)),
        0 <= i,
        i + ser_json(JsonV::Obj(pairs)).len() <= s.len(),
        s.subrange(i, i + ser_json(JsonV::Obj(pairs)).len() as int) == ser_json(JsonV::Obj(pairs)),
        num_boundary(s, i + ser_json(JsonV::Obj(pairs)).len() as int),
    ensures
        parse_value(s, i) == Some((
            JsonV::Obj(pairs),
            i + ser_json(JsonV::Obj(pairs)).len() as int,
        )),
    decreases pairs, 3int, 0int,
{
    let v = JsonV::Obj(pairs);
    let len = ser_json(v).len() as int;
    lemma_ser_shape(v);
    assert forall|j: int| 0 <= j < len implies #[trigger] s[i + j] == ser_json(v)[j] by {
        assert(s.subrange(i, i + len)[j] == ser_json(v)[j]);
    }
    assert(s[i] == ser_json(v)[0]) by {
        assert(s[i + 0] == ser_json(v)[0]);
    }
    assert(skip_ws(s, i) == i);
            let n = pairs.len() as int;
            let inner = ser_obj(pairs, n);
            let ilen = inner.len() as int;
            assert(ser_json(v) == seq!['{'] + inner + seq!['}']);
            assert(s[i + 1 + ilen] == ser_json(v)[1 + ilen]);
            assert(ser_json(v)[1 + ilen] == '}');
            assert(s.subrange(i + 1, i + 1 + ilen) =~= inner) by {
                assert forall|j: int| 0 <= j < ilen implies #[trigger] s.subrange(
                    i + 1,
                    i + 1 + ilen,
                )[j] == inner[j] by {
                    assert(s[i + 1 + j] == ser_json(v)[1 + j]);
                    assert(ser_json(v)[1 + j] == inner[j]);
                }
            }
            if n == 0 {
                assert(inner =~= Seq::<char>::empty());
                assert(s[i + 1] == '}');
                assert(skip_ws(s, i + 1) == i + 1);
                assert(parse_members(s, i + 1) == Some((
                    Seq::<(Seq<char>, JsonV)>::empty(),
                    i + 2,
                )));
                assert(pairs =~= Seq::<(Seq<char>, JsonV)>::empty());
            } else {
                lemma_ser_obj_split(pairs, 1);
                let m0 = ser_member(pairs[0]);
                let m0len = m0.len() as int;
                assert(ser_obj(pairs, 0) =~= Seq::<char>::empty());
                assert(ser_obj(pairs, 1) =~= m0);
                assert(inner == m0 + ser_obj_tail(pairs, 1));
                assert(s.subrange(i + 1, i + 1 + m0len) =~= m0) by {
                    assert forall|j: int| 0 <= j < m0len implies #[trigger] s.subrange(
                        i + 1,
                        i + 1 + m0len,
                    )[j] == m0[j] by {
                        assert(s[i + 1 + j] == ser_json(v)[1 + j]);
                        assert(inner[j] == m0[j]);
                    }
                }
                assert(s[i + 1] == '"') by {
                    assert(s[i + 1 + 0] == ser_json(v)[1int + 0]);
                    assert(inner[0] == m0[0]);
                    assert(m0[0] == ser_str(pairs[0].0)[0]);
                }
                assert(skip_ws(s, i + 1) == i + 1);
                let tail = ser_obj_tail(pairs, 1);
                assert(s[i + 1 + m0len] == (if tail.len() > 0 { ',' } else { '}' })) by {
                    if tail.len() > 0 {
                        assert(inner[m0len] == tail[0]);
                        assert(tail[0] == ',');
                        assert(s[i + 1 + m0len] == ser_json(v)[1 + m0len]);
                    }
                }
                lemma_wf_obj_index(pairs, n, 0);
                assert(num_boundary(s, i + 1 + m0len));
                lemma_parse_member(pairs[0], s, i + 1);
                assert(s.subrange(i + 1 + m0len, i + 1 + m0len + tail.len() as int) =~= tail) by {
                    assert forall|j: int| 0 <= j < tail.len() implies #[trigger] s.subrange(
                        i + 1 + m0len,
                        i + 1 + m0len + tail.len() as int,
                    )[j] == tail[j] by {
                        assert(s[i + (1 + m0len + j)] == ser_json(v)[1 + m0len + j]);
                        assert(ser_json(v)[1 + m0len + j] == inner[m0len + j]);
                        assert(inner[m0len + j] == tail[j]);
                    }
                }
                assert(s[i + 1 + m0len + tail.len()] == '}') by {
                    assert(i + 1 + m0len + tail.len() == i + 1 + ilen);
                }
                lemma_parse_members_tail(pairs, 1, s, i + 1 + m0len);
                assert(seq![pairs[0]] + pairs.skip(1) =~= pairs);
            }
}

/// Parsing one serialized `"key":value` member gives the pair back.
pub proof fn lemma_parse_member(p: (Seq<char>, JsonV), s: Seq<char>, i: int)
    requires
        json_wf(p.1),
        0 <= i,
        i + ser_member(p).len() <= s.len(),
        s.subrange(i, i + ser_member(p).len() as int) == ser_member(p),
        num_boundary(s, i + ser_member(p).len() as int),
    ensures
        crate::jsonparse::parse_member_at(s, i) == Some((p.0, p.1, i + ser_member(p).len() as int)),
    decreases p.1, 1int, 0int,
{
    let mlen = ser_member(p).len() as int;
    let klen = ser_str(p.0).len() as int;
    let vlen = ser_json(p.1).len() as int;
    assert forall|j: int| 0 <= j < mlen implies #[trigger] s[i + j] == ser_member(p)[j] by {
        assert(s.subrange(i, i + mlen)[j] == ser_member(p)[j]);
    }
    assert(s[i] == '"') by {
        assert(s[i + 0] == ser_member(p)[0]);
        assert(ser_member(p)[0] == ser_str(p.0)[0]);
    }
    assert(s.subrange(i, i + klen) =~= ser_str(p.0)) by {
        assert forall|j: int| 0 <= j < klen implies #[trigger] s.subrange(i, i + klen)[j]
            == ser_str(p.0)[j] by {
            assert(s[i + j] == ser_member(p)[j]);
            assert(ser_member(p)[j] == ser_str(p.0)[j]);
        }
    }
    lemma_parse_ser_str(p.0, s, i);
    let jk = i + klen;
    assert(s[jk] == ':') by {
        assert(s[i + klen] == ser_member(p)[klen]);
    }
    assert(skip_ws(s, jk) == jk);
    assert(s.subrange(jk + 1, jk + 1 + vlen) =~= ser_json(p.1)) by {
        assert forall|j: int| 0 <= j < vlen implies #[trigger] s.subrange(jk + 1, jk + 1 + vlen)[j]
            == ser_json(p.1)[j] by {
            assert(s[i + (klen + 1 + j)] == ser_member(p)[klen + 1 + j]);
            assert(ser_member(p)[klen + 1 + j] == ser_json(p.1)[j]);
        }
    }
    assert(decreases_to!(p => p.1));
    lemma_parse_ser(p.1, s, jk + 1);
}

/// Parsing the comma-led rest of a serialized array gives the remaining
/// elements back.
pub proof fn lemma_parse_elems_tail(items: Seq<JsonV>, k: int, s: Seq<char>, i: int)
    requires
        json_wf_arr(items, items.len() as int),
        1 <= k <= items.len(),
        0 <= i,
        i + ser_arr_tail(items, k).len() + 1 <= s.len(),
        s.subrange(i, i + ser_arr_tail(items, k).len() as int) == ser_arr_tail(items, k),
        s[i + ser_arr_tail(items, k).len()] == ']',
    ensures
        crate::jsonparse::parse_elems_rest(s, i) == Some((
            items.skip(k),
            i + ser_arr_tail(items, k).len() + 1,
        )),
    decreases items, 1int, items.len() - k,
{
    let n = items.len() as int;
    let tail = ser_arr_tail(items, k);
    let tlen = tail.len() as int;
    if k == n {
        assert(tail =~= Seq::<char>::empty());
        assert(s[i] == ']');
        assert(skip_ws(s, i) == i);
        assert(items.skip(k) =~= Seq::<JsonV>::empty());
    } else {
        let ek = ser_json(items[k]);
        let eklen = ek.len() as int;
        assert(tail == seq![','] + ek + ser_arr_tail(items, k + 1));
        let rest = ser_arr_tail(items, k + 1);
        assert forall|j: int| 0 <= j < tlen implies #[trigger] s[i + j] == tail[j] by {
            assert(s.subrange(i, i + tlen)[j] == tail[j]);
        }
        assert(s[i] == ',') by {
            assert(s[i + 0] == tail[0]);
        }
        assert(skip_ws(s, i) == i);
        assert(s.subrange(i + 1, i + 1 + eklen) =~= ek) by {
            assert forall|j: int| 0 <= j < eklen implies #[trigger] s.subrange(
                i + 1,
                i + 1 + eklen,
            )[j] == ek[j] by {
                assert(s[i + (1 + j)] == tail[1 + j]);
                assert(tail[1 + j] == ek[j]);
            }
        }
        assert(s[i + 1 + eklen] == (if rest.len() > 0 { ',' } else { ']' })) by {
            if rest.len() > 0 {
                assert(s[i + (1 + eklen)] == tail[1 + eklen]);
                assert(tail[1 + eklen] == rest[0]);
                assert(rest[0] == ',');
            }
        }
        assert(num_boundary(s, i + 1 + eklen));
        lemma_wf_arr_index(items, n, k);
        assert(decreases_to!(items => items[k]));
        lemma_parse_ser(items[k], s, i + 1);
        lemma_ser_shape(items[k]);
        assert(s.subrange(i + 1 + eklen, i + 1 + eklen + rest.len() as int) =~= rest) by {
            assert forall|j: int| 0 <= j < rest.len() implies #[trigger] s.subrange(
                i + 1 + eklen,
                i + 1 + eklen + rest.len() as int,
            )[j] == rest[j] by {
                assert(s[i + (1 + eklen + j)] == tail[1 + eklen + j]);
                assert(tail[1 + eklen + j] == rest[j]);
            }
        }
        assert(s[i + 1 + eklen + rest.len()] == ']') by {
            assert(i + 1 + eklen + rest.len() == i + tlen);
        }
        lemma_parse_elems_tail(items, k + 1, s, i + 1 + eklen);
        assert(seq![items[k]] + items.skip(k + 1) =~= items.skip(k));
    }
}

/// Parsing the comma-led rest of a serialized object gives the remaining
/// members back.
pub proof fn lemma_parse_members_tail(pairs: Seq<(Seq<char>, JsonV)>, k: int, s: Seq<char>, i: int)
    requires
        json_wf_obj(pairs, pairs.len() as int),
        1 <= k <= pairs.len(),
        0 <= i,
        i + ser_obj_tail(pairs, k).len() + 1 <= s.len(),
        s.subrange(i, i + ser_obj_tail(pairs, k).len() as int) == ser_obj_tail(pairs, k),
        s[i + ser_obj_tail(pairs, k).len()] == '}',
    ensures
        crate::jsonparse::parse_members_rest(s, i) == Some((
            pairs.skip(k),
            i + ser_obj_tail(pairs, k).len() + 1,
        )),
    decreases pairs, 1int, pairs.len() - k,
{
    let n = pairs.len() as int;
    let tail = ser_obj_tail(pairs, k);
    let tlen = tail.len() as int;
    if k == n {
        assert(tail =~= Seq::<char>::empty());
        assert(s[i] == '}');
        assert(skip_ws(s, i) == i);
        assert(pairs.skip(k) =~= Seq::<(Seq<char>, JsonV)>::empty());
    } else {
        let mk = ser_member(pairs[k]);
        let mklen = mk.len() as int;
        assert(tail == seq![','] + mk + ser_obj_tail(pairs, k + 1));
        let rest = ser_obj_tail(pairs, k + 1);
        assert forall|j: int| 0 <= j < tlen implies #[trigger] s[i + j] == tail[j] by {
            assert(s.subrange(i, i + tlen)[j] == tail[j]);
        }
        assert(s[i] == ',') by {
            assert(s[i + 0] == tail[0]);
        }
        assert(skip_ws(s, i) == i);
        assert(s[i + 1] == '"') by {
            assert(s[i + 1] == tail[1]);
            assert(tail[1] == mk[0]);
            assert(mk[0] == ser_str(pairs[k].0)[0]);
        }
        assert(skip_ws(s, i + 1) == i + 1);
        assert(s.subrange(i + 1, i + 1 + mklen) =~= mk) by {
            assert forall|j: int| 0 <= j < mklen implies #[trigger] s.subrange(
                i + 1,
                i + 1 + mklen,
            )[j] == mk[j] by {
                assert(s[i + (1 + j)] == tail[1 + j]);
                assert(tail[1 + j] == mk[j]);
            }
        }
        assert(s[i + 1 + mklen] == (if rest.len() > 0 { ',' } else { '}' })) by {
            if rest.len() > 0 {
                assert(s[i + (1 + mklen)] == tail[1 + mklen]);
                assert(tail[1 + mklen] == rest[0]);
                assert(rest[0] == ',');
            }
        }
        assert(num_boundary(s, i + 1 + mklen));
        lemma_wf_obj_index(pairs, n, k);
        assert(decreases_to!(pairs => pairs[k]));
        assert(decreases_to!(pairs[k] => pairs[k].1));
        lemma_parse_member(pairs[k], s, i + 1);
        assert(s.subrange(i + 1 + mklen, i + 1 + mklen + rest.len() as int) =~= rest) by {
            assert forall|j: int| 0 <= j < rest.len() implies #[trigger] s.subrange(
                i + 1 + mklen,
                i + 1 + mklen + rest.len() as int,
            )[j] == rest[j] by {
                assert(s[i + (1 + mklen + j)] == tail[1 + mklen + j]);
                assert(tail[1 + mklen + j] == rest[j]);
            }
        }
        assert(s[i + 1 + mklen + rest.len()] == '}') by {
            assert(i + 1 + mklen + rest.len() == i + tlen);
        }
        lemma_parse_members_tail(pairs, k + 1, s, i + 1 + mklen);
        assert(seq![pairs[k]] + pairs.skip(k + 1) =~= pairs.skip(k));
    }
}

/// The round-trip law: parsing the serialization of a well-formed value
/// gives the value back.
pub proof fn lemma_json_round_trip(v: JsonV)
    requires
        json_wf(v),
    ensures
        crate::jsonparse::spec_parse_json(ser_json(v)) == Some(v),
{
    let s = ser_json(v);
    assert(s.subrange(0, s.len() as int) =~= s);
    lemma_parse_ser(v, s, 0);
    assert(skip_ws(s, s.len() as int) == s.len());
}


/// Lexicographic order is irreflexive.
pub proof fn lemma_chars_lt_irrefl(a: Seq<char>)
    ensures
        !crate::jsonser::chars_lt(a, a),
    decreases a.len(),
{
    if a.len() > 0 {
        lemma_chars_lt_irrefl(a.drop_first());
    }
}

/// Lexicographic order is transitive.
pub proof fn lemma_chars_lt_trans(a: Seq<char>, b: Seq<char>, c: Seq<char>)
    requires
        crate::jsonser::chars_lt(a, b),
        crate::jsonser::chars_lt(b, c),
    ensures
        crate::jsonser::chars_lt(a, c),
    decreases a.len(),
{
    if a.len() > 0 && b.len() > 0 && c.len() > 0 && a[0] == b[0] && b[0] == c[0] {
        lemma_chars_lt_trans(a.drop_first(), b.drop_first(), c.drop_first());
    }
}

/// A key-sorted member list: no later key is smaller than an earlier one.
pub open spec fn sorted_pairs(ps: Seq<(Seq<char>, JsonV)>) -> bool {
    forall|i: int, j: int|
        0 <= i < j < ps.len() ==> !crate::jsonser::chars_lt((#[trigger] ps[j]).0, (
        #[trigger] ps[i]).0)
}

/// Each element of an insertion is the inserted pair or one of the old
/// ones.
pub proof fn lemma_ins_elements(p: (Seq<char>, JsonV), sorted: Seq<(Seq<char>, JsonV)>)
    ensures
        crate::jsonser::ins_pair(p, sorted).len() == sorted.len() + 1,
        forall|j: int|
            0 <= j < sorted.len() + 1 ==> (#[trigger] crate::jsonser::ins_pair(p, sorted)[j] == p
                || sorted.contains(crate::jsonser::ins_pair(p, sorted)[j])),
    decreases sorted.len(),
{
    let r = crate::jsonser::ins_pair(p, sorted);
    if sorted.len() == 0 {
        assert(r =~= seq![p]);
    } else if crate::jsonser::chars_lt(p.0, sorted[0].0) {
        assert(r == seq![p] + sorted);
        assert forall|j: int| 0 <= j < sorted.len() + 1 implies (#[trigger] r[j] == p
            || sorted.contains(r[j])) by {
            if j > 0 {
                assert(r[j] == sorted[j - 1]);
            }
        }
    } else {
        let rest = sorted.drop_first();
        lemma_ins_elements(p, rest);
        let ri = crate::jsonser::ins_pair(p, rest);
        assert(r == seq![sorted[0]] + ri);
        assert forall|j: int| 0 <= j < sorted.len() + 1 implies (#[trigger] r[j] == p
            || sorted.contains(r[j])) by {
            if j == 0 {
                assert(r[0] == sorted[0]);
                assert(sorted.contains(sorted[0]));
            } else {
                assert(r[j] == ri[j - 1]);
                if ri[j - 1] != p {
                    assert(rest.contains(ri[j - 1]));
                    let w = choose|w: int| 0 <= w < rest.len() && rest[w] == ri[j - 1];
                    assert(sorted[w + 1] == rest[w]);
                    assert(sorted.contains(ri[j - 1]));
                }
            }
        }
    }
}

/// Inserting into a sorted list keeps it sorted.
pub proof fn lemma_ins_sorted(p: (Seq<char>, JsonV), sorted: Seq<(Seq<char>, JsonV)>)
    requires
        sorted_pairs(sorted),
    ensures
        sorted_pairs(crate::jsonser::ins_pair(p, sorted)),
    decreases sorted.len(),
{
    let r = crate::jsonser::ins_pair(p, sorted);
    if sorted.len() == 0 {
        assert(r =~= seq![p]);
    } else if crate::jsonser::chars_lt(p.0, sorted[0].0) {
        assert(r == seq![p] + sorted);
        assert forall|i: int, j: int| 0 <= i < j < r.len() implies !crate::jsonser::chars_lt((
        #[trigger] r[j]).0, (#[trigger] r[i]).0) by {
            if i == 0 {
                assert(r[0] == p);
                assert(r[j] == sorted[j - 1]);
                if crate::jsonser::chars_lt(sorted[j - 1].0, p.0) {
                    lemma_chars_lt_trans(sorted[j - 1].0, p.0, sorted[0].0);
                    if j - 1 == 0 {
                        lemma_chars_lt_irrefl(sorted[0].0);
                    }
                    assert(false);
                }
            } else {
                assert(r[i] == sorted[i - 1]);
                assert(r[j] == sorted[j - 1]);
            }
        }
    } else {
        let rest = sorted.drop_first();
        assert forall|i: int, j: int| 0 <= i < j < rest.len() implies !crate::jsonser::chars_lt((
        #[trigger] rest[j]).0, (#[trigger] rest[i]).0) by {
            assert(rest[i] == sorted[i + 1]);
            assert(rest[j] == sorted[j + 1]);
        }
        lemma_ins_sorted(p, rest);
        lemma_ins_elements(p, rest);
        let ri = crate::jsonser::ins_pair(p, rest);
        assert(r == seq![sorted[0]] + ri);
        assert forall|i: int, j: int| 0 <= i < j < r.len() implies !crate::jsonser::chars_lt((
        #[trigger] r[j]).0, (#[trigger] r[i]).0) by {
            if i == 0 {
                assert(r[0] == sorted[0]);
                assert(r[j] == ri[j - 1]);
                if ri[j - 1] == p {
                    assert(!crate::jsonser::chars_lt(p.0, sorted[0].0));
                } else {
                    assert(rest.contains(ri[j - 1]));
                    let w = choose|w: int| 0 <= w < rest.len() && rest[w] == ri[j - 1];
                    assert(sorted[w + 1] == rest[w]);
                    assert(!crate::jsonser::chars_lt(sorted[w + 1].0, sorted[0].0));
                }
            } else {
                assert(r[i] == ri[i - 1]);
                assert(r[j] == ri[j - 1]);
            }
        }
    }
}

/// Inserting a pair whose key is not below any existing key appends it.
pub proof fn lemma_ins_append(p: (Seq<char>, JsonV), sorted: Seq<(Seq<char>, JsonV)>)
    requires
        forall|j: int| 0 <= j < sorted.len() ==> !crate::jsonser::chars_lt(p.0, (
        #[trigger] sorted[j]).0),
    ensures
        crate::jsonser::ins_pair(p, sorted) == sorted.push(p),
    decreases sorted.len(),
{
    if sorted.len() == 0 {
        assert(crate::jsonser::ins_pair(p, sorted) =~= sorted.push(p));
    } else {
        let rest = sorted.drop_first();
        assert forall|j: int| 0 <= j < rest.len() implies !crate::jsonser::chars_lt(p.0, (
        #[trigger] rest[j]).0) by {
            assert(rest[j] == sorted[j + 1]);
        }
        lemma_ins_append(p, rest);
        assert(crate::jsonser::ins_pair(p, sorted) == seq![sorted[0]] + rest.push(p));
        assert(seq![sorted[0]] + rest.push(p) =~= sorted.push(p));
    }
}

/// A value in canonical form: every object, at every level, is key-sorted.
pub open spec fn is_canon(v: JsonV) -> bool
    decreases v, 0int,
{
    match v {
        JsonV::Null => true,
        JsonV::Bool(_) => true,
        JsonV::Num(_) => true,
        JsonV::Str(_) => true,
        JsonV::Arr(items) => is_canon_arr(items, items.len() as int),
        JsonV::Obj(pairs) => sorted_pairs(pairs) && is_canon_obj(pairs, pairs.len() as int),
    }
}

/// The first `k` elements are canonical.
pub open spec fn is_canon_arr(items: Seq<JsonV>, k: int) -> bool
    decreases items, 1int, k,
{
    if k <= 0 || k > items.len() {
        true
    } else {
        is_canon_arr(items, k - 1) && is_canon(items[k - 1])
    }
}

/// The first `k` member values are canonical.
pub open spec fn is_canon_obj(pairs: Seq<(Seq<char>, JsonV)>, k: int) -> bool
    decreases pairs, 1int, k,
{
    if k <= 0 || k > pairs.len() {
        true
    } else {
        is_canon_obj(pairs, k - 1) && is_canon(pairs[k - 1].1)
    }
}

/// Each element of a canonical prefix is canonical.
pub proof fn lemma_canon_arr_index(items: Seq<JsonV>, k: int, j: int)
    requires
        is_canon_arr(items, k),
        0 <= j < k <= items.len(),
    ensures
        is_canon(items[j]),
    decreases k,
{
    if j < k - 1 {
        lemma_canon_arr_index(items, k - 1, j);
    }
}

/// Each member value of a canonical prefix is canonical.
pub proof fn lemma_canon_obj_index(pairs: Seq<(Seq<char>, JsonV)>, k: int, j: int)
    requires
        is_canon_obj(pairs, k),
        0 <= j < k <= pairs.len(),
    ensures
        is_canon(pairs[j].1),
    decreases k,
{
    if j < k - 1 {
        lemma_canon_obj_index(pairs, k - 1, j);
    }
}


/// A prefix whose elements are all well formed is a well-formed prefix.
pub proof fn lemma_wf_arr_all(items: Seq<JsonV>, k: int)
    requires
        0 <= k <= items.len(),
        forall|j: int| 0 <= j < k ==> json_wf(#[trigger] items[j]),
    ensures
        json_wf_arr(items, k),
    decreases k,
{
    if k > 0 {
        lemma_wf_arr_all(items, k - 1);
    }
}

/// A prefix whose member values are all well formed is a well-formed
/// prefix.
pub proof fn lemma_wf_obj_all(pairs: Seq<(Seq<char>, JsonV)>, k: int)
    requires
        0 <= k <= pairs.len(),
        forall|j: int| 0 <= j < k ==> json_wf((#[trigger] pairs[j]).1),
    ensures
        json_wf_obj(pairs, k),
    decreases k,
{
    if k > 0 {
        lemma_wf_obj_all(pairs, k - 1);
    }
}

/// A prefix whose elements are all canonical is a canonical prefix.
pub proof fn lemma_canon_arr_all(items: Seq<JsonV>, k: int)
    requires
        0 <= k <= items.len(),
        forall|j: int| 0 <= j < k ==> is_canon(#[trigger] items[j]),
    ensures
        is_canon_arr(items, k),
    decreases k,
{
    if k > 0 {
        lemma_canon_arr_all(items, k - 1);
    }
}

/// A prefix whose member values are all canonical is a canonical prefix.
pub proof fn lemma_canon_obj_all(pairs: Seq<(Seq<char>, JsonV)>, k: int)
    requires
        0 <= k <= pairs.len(),
        forall|j: int| 0 <= j < k ==> is_canon((#[trigger] pairs[j]).1),
    ensures
        is_canon_obj(pairs, k),
    decreases k,
{
    if k > 0 {
        lemma_canon_obj_all(pairs, k - 1);
    }
}

/// The canonical elements are exactly the canonical forms of the
/// originals, in order.
pub proof fn lemma_sort_each_props(items: Seq<JsonV>, k: int)
    requires
        0 <= k <= items.len(),
    ensures
        crate::jsonser::sort_each(items, k).len() == k,
        forall|j: int|
            0 <= j < k ==> #[trigger] crate::jsonser::sort_each(items, k)[j] == crate::jsonser::sort_json(
                items[j],
            ),
    decreases k,
{
    if k > 0 {
        lemma_sort_each_props(items, k - 1);
    }
}

/// The canonical members: sorted, and each is a key of the original with
/// its value canonicalized.
pub proof fn lemma_sort_pairs_props(pairs: Seq<(Seq<char>, JsonV)>, k: int)
    requires
        0 <= k <= pairs.len(),
    ensures
        crate::jsonser::sort_pairs(pairs, k).len() == k,
        sorted_pairs(crate::jsonser::sort_pairs(pairs, k)),
        forall|j: int|
            0 <= j < k ==> exists|j2: int|
                0 <= j2 < k && #[trigger] crate::jsonser::sort_pairs(pairs, k)[j] == (
                pairs[j2].0,
                crate::jsonser::sort_json(pairs[j2].1),
            ),
    decreases k,
{
    if k > 0 {
        lemma_sort_pairs_props(pairs, k - 1);
        let prev = crate::jsonser::sort_pairs(pairs, k - 1);
        let p = (pairs[k - 1].0, crate::jsonser::sort_json(pairs[k - 1].1));
        lemma_ins_sorted(p, prev);
        lemma_ins_elements(p, prev);
        let r = crate::jsonser::ins_pair(p, prev);
        assert forall|j: int| 0 <= j < k implies exists|j2: int|
            0 <= j2 < k && #[trigger] r[j] == (
            pairs[j2].0,
            crate::jsonser::sort_json(pairs[j2].1),
        ) by {
            if r[j] == p {
                assert(0 <= k - 1 < k && r[j] == (
                    pairs[k - 1].0,
                    crate::jsonser::sort_json(pairs[k - 1].1),
                ));
            } else {
                assert(prev.contains(r[j]));
                let w = choose|w: int| 0 <= w < prev.len() && prev[w] == r[j];
                assert(exists|j2: int|
                    0 <= j2 < k - 1 && #[trigger] prev[w] == (
                    pairs[j2].0,
                    crate::jsonser::sort_json(pairs[j2].1),
                ));
            }
        }
    }
}

/// Canonicalization produces canonical values.
pub proof fn lemma_sort_canon(v: JsonV)
    ensures
        is_canon(crate::jsonser::sort_json(v)),
    decreases v, 2int,
{
    match v {
        JsonV::Arr(items) => {
            let n = items.len() as int;
            lemma_sort_each_props(items, n);
            let sorted = crate::jsonser::sort_each(items, n);
            assert forall|j: int| 0 <= j < n implies is_canon(#[trigger] sorted[j]) by {
                assert(decreases_to!(items => items[j]));
                lemma_sort_canon(items[j]);
            }
            lemma_canon_arr_all(sorted, n);
        },
        JsonV::Obj(pairs) => {
            let n = pairs.len() as int;
            lemma_sort_pairs_props(pairs, n);
            let sorted = crate::jsonser::sort_pairs(pairs, n);
            assert forall|j: int| 0 <= j < n implies is_canon((#[trigger] sorted[j]).1) by {
                let j2 = choose|j2: int|
                    0 <= j2 < n && sorted[j] == (
                    pairs[j2].0,
                    crate::jsonser::sort_json(pairs[j2].1),
                );
                assert(decreases_to!(pairs => pairs[j2]));
                assert(decreases_to!(pairs[j2] => pairs[j2].1));
                lemma_sort_canon(pairs[j2].1);
            }
            lemma_canon_obj_all(sorted, n);
        },
        _ => {},
    }
}

/// Canonicalization keeps values well formed.
pub proof fn lemma_sort_wf(v: JsonV)
    requires
        json_wf(v),
    ensures
        json_wf(crate::jsonser::sort_json(v)),
    decreases v, 2int,
{
    match v {
        JsonV::Arr(items) => {
            let n = items.len() as int;
            lemma_sort_each_props(items, n);
            let sorted = crate::jsonser::sort_each(items, n);
            assert forall|j: int| 0 <= j < n implies json_wf(#[trigger] sorted[j]) by {
                lemma_wf_arr_index(items, n, j);
                assert(decreases_to!(items => items[j]));
                lemma_sort_wf(items[j]);
            }
            lemma_wf_arr_all(sorted, n);
        },
        JsonV::Obj(pairs) => {
            let n = pairs.len() as int;
            lemma_sort_pairs_props(pairs, n);
            let sorted = crate::jsonser::sort_pairs(pairs, n);
            assert forall|j: int| 0 <= j < n implies json_wf((#[trigger] sorted[j]).1) by {
                let j2 = choose|j2: int|
                    0 <= j2 < n && sorted[j] == (
                    pairs[j2].0,
                    crate::jsonser::sort_json(pairs[j2].1),
                );
                lemma_wf_obj_index(pairs, n, j2);
                assert(decreases_to!(pairs => pairs[j2]));
                assert(decreases_to!(pairs[j2] => pairs[j2].1));
                lemma_sort_wf(pairs[j2].1);
            }
            lemma_wf_obj_all(sorted, n);
        },
        _ => {},
    }
}

/// The canonical members of an already-sorted list with canonical values
/// are the list itself.
pub proof fn lemma_sort_pairs_fixed(pairs: Seq<(Seq<char>, JsonV)>, k: int)
    requires
        sorted_pairs(pairs),
        is_canon_obj(pairs, pairs.len() as int),
        0 <= k <= pairs.len(),
    ensures
        crate::jsonser::sort_pairs(pairs, k) == pairs.take(k),
    decreases pairs, 2int, k,
{
    if k == 0 {
        assert(crate::jsonser::sort_pairs(pairs, 0) =~= pairs.take(0));
    } else {
        lemma_sort_pairs_fixed(pairs, k - 1);
        lemma_canon_obj_index(pairs, pairs.len() as int, k - 1);
        assert(decreases_to!(pairs => pairs[k - 1]));
        assert(decreases_to!(pairs[k - 1] => pairs[k - 1].1));
        lemma_canon_fixed(pairs[k - 1].1);
        let p = (pairs[k - 1].0, crate::jsonser::sort_json(pairs[k - 1].1));
        assert(p == pairs[k - 1]);
        assert forall|j: int| 0 <= j < pairs.take(k - 1).len() implies !crate::jsonser::chars_lt(
            p.0,
            (#[trigger] pairs.take(k - 1)[j]).0,
        ) by {
            assert(pairs.take(k - 1)[j] == pairs[j]);
        }
        lemma_ins_append(p, pairs.take(k - 1));
        assert(pairs.take(k - 1).push(pairs[k - 1]) =~= pairs.take(k));
    }
}

/// A canonical value is a fixed point of canonicalization.
pub proof fn lemma_canon_fixed(v: JsonV)
    requires
        is_canon(v),
    ensures
        crate::jsonser::sort_json(v) == v,
    decreases v, 3int,
{
    match v {
        JsonV::Arr(items) => {
            let n = items.len() as int;
            lemma_sort_each_props(items, n);
            let sorted = crate::jsonser::sort_each(items, n);
            assert forall|j: int| 0 <= j < n implies #[trigger] sorted[j] == items[j] by {
                lemma_canon_arr_index(items, n, j);
                assert(decreases_to!(items => items[j]));
                lemma_canon_fixed(items[j]);
            }
            assert(sorted =~= items);
        },
        JsonV::Obj(pairs) => {
            let n = pairs.len() as int;
            lemma_sort_pairs_fixed(pairs, n);
            assert(pairs.take(n) =~= pairs);
        },
        _ => {},
    }
}

/// Canonicalization is idempotent.
pub proof fn lemma_sort_idem(v: JsonV)
    ensures
        crate::jsonser::sort_json(crate::jsonser::sort_json(v)) == crate::jsonser::sort_json(v),
{
    lemma_sort_canon(v);
    lemma_canon_fixed(crate::jsonser::sort_json(v));
}

/// The canonicalization law: parsing a canonicalized document gives its
/// canonical value back, and canonicalizing that value again changes
/// nothing — so canonicalizing the parse of a canonical text is the text
/// itself.
pub proof fn lemma_canonicalize_idempotent(v: JsonV)
    requires
        json_wf(v),
    ensures
        crate::jsonparse::spec_parse_json(ser_json(crate::jsonser::sort_json(v))) == Some(
            crate::jsonser::sort_json(v),
        ),
        ser_json(
            crate::jsonser::sort_json(crate::jsonser::sort_json(v)),
        ) == ser_json(crate::jsonser::sort_json(v)),
{
    lemma_sort_wf(v);
    lemma_json_round_trip(crate::jsonser::sort_json(v));
    lemma_sort_idem(v);
}

} // verus!
