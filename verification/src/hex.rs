//! Rendering of final perceptual colors as 24-bit hexadecimal sRGB strings:
//! a `#` prefix and six lowercase hex digits.

use vstd::prelude::*;
use vstd::string::StringExecFns;
use crate::color::{Pixel, PerceptualColor, wf_color_wide};
use crate::convert::{spec_to_pixel, to_pixel};

verus! {

/// The lowercase hexadecimal digit of a value in `[0, 16)`.
pub open spec fn hex_char(d: int) -> char {
    if d == 0 {
        '0'
    } else if d == 1 {
        '1'
    } else if d == 2 {
        '2'
    } else if d == 3 {
        '3'
    } else if d == 4 {
        '4'
    } else if d == 5 {
        '5'
    } else if d == 6 {
        '6'
    } else if d == 7 {
        '7'
    } else if d == 8 {
        '8'
    } else if d == 9 {
        '9'
    } else if d == 10 {
        'a'
    } else if d == 11 {
        'b'
    } else if d == 12 {
        'c'
    } else if d == 13 {
        'd'
    } else if d == 14 {
        'e'
    } else {
        'f'
    }
}

/// The hex rendering of a pixel: `#`, then two lowercase digits for each of
/// the red, green and blue channels.
pub open spec fn spec_hex_chars(p: Pixel) -> Seq<char> {
    seq![
        '#',
        hex_char(p.r as int / 16),
        hex_char(p.r as int % 16),
        hex_char(p.g as int / 16),
        hex_char(p.g as int % 16),
        hex_char(p.b as int / 16),
        hex_char(p.b as int % 16),
    ]
}

fn hex_digit(d: u8) -> (s: &'static str)
    requires
        d < 16,
    ensures
        s@ == seq![hex_char(d as int)],
{
    proof {
        reveal_strlit("0");
        reveal_strlit("1");
        reveal_strlit("2");
        reveal_strlit("3");
        reveal_strlit("4");
        reveal_strlit("5");
        reveal_strlit("6");
        reveal_strlit("7");
        reveal_strlit("8");
        reveal_strlit("9");
        reveal_strlit("a");
        reveal_strlit("b");
        reveal_strlit("c");
        reveal_strlit("d");
        reveal_strlit("e");
        reveal_strlit("f");
    }
    let s: &'static str = match d {
        0 => "0",
        1 => "1",
        2 => "2",
        3 => "3",
        4 => "4",
        5 => "5",
        6 => "6",
        7 => "7",
        8 => "8",
        9 => "9",
        10 => "a",
        11 => "b",
        12 => "c",
        13 => "d",
        14 => "e",
        _ => "f",
    };
    proof {
        assert(s@ =~= seq![hex_char(d as int)]);
    }
    s
}

/// Renders a pixel as its hex string.
pub fn hex_of_pixel(p: Pixel) -> (s: String)
    ensures
        s@ == spec_hex_chars(p),
{
    proof {
        reveal_strlit("#");
    }
    let mut s = String::from_str("#");
    s.append(hex_digit(p.r / 16));
    s.append(hex_digit(p.r % 16));
    s.append(hex_digit(p.g / 16));
    s.append(hex_digit(p.g % 16));
    s.append(hex_digit(p.b / 16));
    s.append(hex_digit(p.b % 16));
    proof {
        assert(s@ =~= spec_hex_chars(p));
    }
    s
}

/// Converts a perceptual color to sRGB and renders it as a hex string.
/// The result is pinned exactly: the hex rendering of `spec_to_pixel`.
pub fn encode(c: &PerceptualColor) -> (s: String)
    requires
        wf_color_wide(*c),
    ensures
        s@ == spec_hex_chars(spec_to_pixel(*c)),
{
    let p = to_pixel(c);
    hex_of_pixel(p)
}

/// A lowercase hexadecimal digit character.
pub open spec fn is_lower_hex_digit(ch: char) -> bool {
    ||| ch == '0'
    ||| ch == '1'
    ||| ch == '2'
    ||| ch == '3'
    ||| ch == '4'
    ||| ch == '5'
    ||| ch == '6'
    ||| ch == '7'
    ||| ch == '8'
    ||| ch == '9'
    ||| ch == 'a'
    ||| ch == 'b'
    ||| ch == 'c'
    ||| ch == 'd'
    ||| ch == 'e'
    ||| ch == 'f'
}

/// Law: for any pixel the hex rendering matches `^#[0-9a-f]{6}$` — seven
/// characters, a leading `#`, then six lowercase hex digits. Composed with
/// `encode`'s postcondition this holds of every encoded color.
pub proof fn lemma_hex_format(p: Pixel)
    ensures
        spec_hex_chars(p).len() == 7,
        spec_hex_chars(p)[0] == '#',
        forall|i: int| 1 <= i < 7 ==> is_lower_hex_digit(#[trigger] spec_hex_chars(p)[i]),
{
    assert forall|d: int| 0 <= d < 16 implies is_lower_hex_digit(hex_char(d)) by {}
    assert(is_lower_hex_digit(spec_hex_chars(p)[1]));
    assert(is_lower_hex_digit(spec_hex_chars(p)[2]));
    assert(is_lower_hex_digit(spec_hex_chars(p)[3]));
    assert(is_lower_hex_digit(spec_hex_chars(p)[4]));
    assert(is_lower_hex_digit(spec_hex_chars(p)[5]));
    assert(is_lower_hex_digit(spec_hex_chars(p)[6]));
}

} // verus!
