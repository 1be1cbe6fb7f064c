//! Lowercase hexadecimal encoding of bytes.

use vstd::prelude::*;

verus! {

/// The lowercase hexadecimal digit for a value below 16.
pub open spec fn hex_digit_char(n: int) -> char {
    if n == 0 {
        '0'
    } else if n == 1 {
        '1'
    } else if n == 2 {
        '2'
    } else if n == 3 {
        '3'
    } else if n == 4 {
        '4'
    } else if n == 5 {
        '5'
    } else if n == 6 {
        '6'
    } else if n == 7 {
        '7'
    } else if n == 8 {
        '8'
    } else if n == 9 {
        '9'
    } else if n == 10 {
        'a'
    } else if n == 11 {
        'b'
    } else if n == 12 {
        'c'
    } else if n == 13 {
        'd'
    } else if n == 14 {
        'e'
    } else {
        'f'
    }
}

/// The lowercase hexadecimal rendering of a byte sequence: two digits per
/// byte, high nibble first.
pub open spec fn hex_of(bytes: Seq<u8>) -> Seq<char> {
    Seq::new(
        bytes.len() * 2,
        |i: int|
            if i % 2 == 0 {
                hex_digit_char(bytes[i / 2] as int / 16)
            } else {
                hex_digit_char(bytes[i / 2] as int % 16)
            },
    )
}

/// Append the hexadecimal digit for `nib` to `out`.
pub(crate) fn push_hex_digit(out: &mut String, nib: u8)
    requires
        nib < 16,
    ensures
        final(out)@ == old(out)@.push(hex_digit_char(nib as int)),
{
    let digit: &str = if nib == 0 {
        "0"
    } else if nib == 1 {
        "1"
    } else if nib == 2 {
        "2"
    } else if nib == 3 {
        "3"
    } else if nib == 4 {
        "4"
    } else if nib == 5 {
        "5"
    } else if nib == 6 {
        "6"
    } else if nib == 7 {
        "7"
    } else if nib == 8 {
        "8"
    } else if nib == 9 {
        "9"
    } else if nib == 10 {
        "a"
    } else if nib == 11 {
        "b"
    } else if nib == 12 {
        "c"
    } else if nib == 13 {
        "d"
    } else if nib == 14 {
        "e"
    } else {
        "f"
    };
    proof {
        reveal_strlit("0");
        reveal_strlit("1");
        reveal_strlit("2");
        reveal_strlit("3");
        reveal_strlit("4");
        reveal_strlit("5");
        reveal_strlit("6");
        reveal_strlit("7");
        reveal_strlit("8");
        reveal_strlit("9");
        reveal_strlit("a");
        reveal_strlit("b");
        reveal_strlit("c");
        reveal_strlit("d");
        reveal_strlit("e");
        reveal_strlit("f");
    }
    out.append(digit);
    proof {
        assert(out@ =~= old(out)@.push(hex_digit_char(nib as int)));
    }
}

/// Encode bytes as lowercase hexadecimal, two digits per byte.
pub fn encode(bytes: &Vec<u8>) -> (r: String)
    ensures
        r@ == hex_of(bytes@),
{
    let mut out = String::new();
    let mut i: usize = 0;
    while i < bytes.len()
        invariant
            0 <= i <= bytes@.len(),
            out@.len() == 2 * i,
            forall|j: int| 0 <= j < 2 * i ==> out@[j] == hex_of(bytes@)[j],
        decreases bytes@.len() - i,
    {
        let b = bytes[i];
        push_hex_digit(&mut out, b / 16);
        push_hex_digit(&mut out, b % 16);
        i += 1;
    }
    proof {
        assert(out@ =~= hex_of(bytes@));
    }
    out
}

} // verus!
