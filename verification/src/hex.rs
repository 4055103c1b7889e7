//! Hex color strings: parsing `RRGGBB` (optionally prefixed by `#`) and
//! formatting a color as six upper-case hex digits.

use vstd::prelude::*;
use vstd::string::*;
use vstd::utf8::{encode_utf8, is_ascii_chars, is_ascii_chars_encode_utf8};
use crate::protocol::Color;
use crate::text::utf8_len_is;

verus! {

/// The value of a hex digit (`0-9`, `a-f`, `A-F`).
pub open spec fn hex_digit(c: char) -> Option<u8> {
    if '0' <= c && c <= '9' {
        Some((c as int - '0' as int) as u8)
    } else if 'a' <= c && c <= 'f' {
        Some((c as int - 'a' as int + 10) as u8)
    } else if 'A' <= c && c <= 'F' {
        Some((c as int - 'A' as int + 10) as u8)
    } else {
        None
    }
}

/// The value of a two-character hex number as `u8::from_str_radix` reads it:
/// two hex digits, or `+` and one hex digit.
pub open spec fn hex_pair(x: char, y: char) -> Option<u8> {
    if x == '+' {
        hex_digit(y)
    } else {
        match (hex_digit(x), hex_digit(y)) {
            (Some(a), Some(b)) => Some((16 * a + b) as u8),
            _ => None,
        }
    }
}

/// The color written by six characters, if each pair is a hex number.
pub open spec fn hex_color(t: Seq<char>) -> Option<Color> {
    if t.len() != 6 {
        None
    } else {
        match (hex_pair(t[0], t[1]), hex_pair(t[2], t[3]), hex_pair(t[4], t[5])) {
            (Some(r), Some(g), Some(b)) => Some((r, g, b)),
            _ => None,
        }
    }
}

/// The text without one leading `#`.
pub open spec fn strip_hash(s: Seq<char>) -> Seq<char> {
    if s.len() > 0 && s[0] == '#' {
        s.drop_first()
    } else {
        s
    }
}

/// Byte offset `k` of the UTF-8 encoding of `t` falls between two characters.
pub open spec fn byte_boundary(t: Seq<char>, k: int) -> bool {
    exists|i: int| 0 <= i <= t.len() && #[trigger] encode_utf8(t.take(i)).len() == k
}

/// The inputs that are parsed without slicing inside a character: when the
/// text after `#` is six bytes long, bytes 2 and 4 start characters.
pub open spec fn hex_input_ok(s: Seq<char>) -> bool {
    let t = strip_hash(s);
    encode_utf8(t).len() == 6 ==> byte_boundary(t, 2) && byte_boundary(t, 4)
}

/// The error for a text that is not six bytes long.
pub open spec fn length_error(t: Seq<char>) -> Seq<char> {
    "expected 6 hex digits, got '"@ + t + "'"@
}

/// The error for a pair that is not a hex number.
pub open spec fn digit_error() -> Seq<char> {
    "invalid digit found in string"@
}

/// Upper-case hex digit for `d` (0-15).
pub open spec fn upper_hex_char(d: int) -> char {
    if d < 10 {
        (('0' as int) + d) as char
    } else {
        (('A' as int) + d - 10) as char
    }
}

/// A byte as two upper-case hex digits.
pub open spec fn hex_byte(v: u8) -> Seq<char> {
    seq![upper_hex_char(v as int / 16), upper_hex_char(v as int % 16)]
}

/// A color as `RRGGBB` in upper-case hex.
pub open spec fn hex_text(c: Color) -> Seq<char> {
    hex_byte(c.0) + hex_byte(c.1) + hex_byte(c.2)
}

/// Lower-case hex digit for `d` (0-15).
pub open spec fn lower_hex_char(d: int) -> char {
    if d < 10 {
        (('0' as int) + d) as char
    } else {
        (('a' as int) + d - 10) as char
    }
}

/// A byte as two lower-case hex digits.
pub open spec fn lower_hex_byte(v: u8) -> Seq<char> {
    seq![lower_hex_char(v as int / 16), lower_hex_char(v as int % 16)]
}

/// A color as `rrggbb` in lower-case hex.
pub open spec fn lower_hex_text(c: Color) -> Seq<char> {
    lower_hex_byte(c.0) + lower_hex_byte(c.1) + lower_hex_byte(c.2)
}

/// The value of a hex digit character, if it is one.
pub fn hex_digit_value(c: char) -> (v: Option<u8>)
    ensures
        v == hex_digit(c),
{
    if '0' <= c && c <= '9' {
        Some(((c as u32) - ('0' as u32)) as u8)
    } else if 'a' <= c && c <= 'f' {
        Some(((c as u32) - ('a' as u32) + 10) as u8)
    } else if 'A' <= c && c <= 'F' {
        Some(((c as u32) - ('A' as u32) + 10) as u8)
    } else {
        None
    }
}

/// A two-character hex number, read as `u8::from_str_radix(.., 16)` reads it.
pub fn hex_pair_value(x: char, y: char) -> (v: Option<u8>)
    ensures
        v == hex_pair(x, y),
{
    if x == '+' {
        hex_digit_value(y)
    } else {
        match (hex_digit_value(x), hex_digit_value(y)) {
            (Some(a), Some(b)) => Some(16 * a + b),
            _ => None,
        }
    }
}

/// The text without one leading `#`.
fn strip_hash_str(s: &str) -> (t: &str)
    ensures
        t@ == strip_hash(s@),
{
    let n = s.unicode_len();
    let t: &str = if n > 0 && s.get_char(0) == '#' {
        s.substring_char(1, n)
    } else {
        s
    };
    assert(t@ =~= strip_hash(s@));
    t
}

/// Whether [`parse_hex_color`] accepts `s`: when the text after `#` is six
/// bytes long, bytes 2 and 4 must start characters.
pub fn hex_input_is_sliceable(s: &str) -> (ok: bool)
    ensures
        ok == hex_input_ok(s@),
{
    let t = strip_hash_str(s);
    if !utf8_len_is(t, 6) {
        return true;
    }
    let n = t.unicode_len();
    let mut acc: usize = 0;
    let mut at2 = false;
    let mut at4 = false;
    let mut i: usize = 0;
    assert(t@.take(0) =~= Seq::<char>::empty());
    assert(encode_utf8(Seq::<char>::empty()) =~= Seq::<u8>::empty());
    while i < n
        invariant
            n == t@.len(),
            i <= n,
            encode_utf8(t@).len() == 6,
            acc == encode_utf8(t@.take(i as int)).len(),
            at2 == (exists|j: int| 0 <= j <= i && #[trigger] encode_utf8(t@.take(j)).len() == 2),
            at4 == (exists|j: int| 0 <= j <= i && #[trigger] encode_utf8(t@.take(j)).len() == 4),
        decreases n - i,
    {
        let w = crate::text::char_utf8_width(t.get_char(i));
        proof {
            let c = t@[i as int];
            assert(t@.take(i + 1) =~= t@.take(i as int) + seq![c]);
            crate::text::lemma_encode_utf8_concat(t@.take(i as int), seq![c]);
            assert(seq![c].drop_first() =~= Seq::<char>::empty());
            assert(encode_utf8(seq![c]) == vstd::utf8::encode_scalar(c as u32) + encode_utf8(
                seq![c].drop_first(),
            ));
            assert(t@ =~= t@.take(i + 1) + t@.skip(i + 1));
            crate::text::lemma_encode_utf8_concat(t@.take(i + 1), t@.skip(i + 1));
        }
        acc = acc + w;
        i = i + 1;
        if acc == 2 {
            at2 = true;
        }
        if acc == 4 {
            at4 = true;
        }
    }
    at2 && at4
}

/// Parse a hex color such as `ff0000` or `#FF0000`.
pub fn parse_hex_color(s: &str) -> (r: Result<Color, String>)
    requires
        hex_input_ok(s@),
    ensures
        ({
            let t = strip_hash(s@);
            if encode_utf8(t).len() != 6 {
                r matches Err(e) && e@ == length_error(t)
            } else {
                match hex_color(t) {
                    Some(c) => r == Ok::<Color, String>(c),
                    None => r matches Err(e) && e@ == digit_error(),
                }
            }
        }),
{
    let t = strip_hash_str(s);
    if !utf8_len_is(t, 6) {
        let mut e = String::from_str("expected 6 hex digits, got '");
        e.append(t);
        e.append("'");
        return Err(e);
    }
    if t.unicode_len() != 6 {
        return Err(String::from_str("invalid digit found in string"));
    }
    let r = hex_pair_value(t.get_char(0), t.get_char(1));
    let g = hex_pair_value(t.get_char(2), t.get_char(3));
    let b = hex_pair_value(t.get_char(4), t.get_char(5));
    match (r, g, b) {
        (Some(r), Some(g), Some(b)) => Ok((r, g, b)),
        _ => Err(String::from_str("invalid digit found in string")),
    }
}

/// The one-character string of an upper-case hex digit.
pub fn hex_digit_str(d: u8) -> (s: &'static str)
    requires
        d < 16,
    ensures
        s@ == seq![upper_hex_char(d as int)],
{
    match d {
        0 => {
            proof {
                reveal_strlit("0");
            }
            "0"
        },
        1 => {
            proof {
                reveal_strlit("1");
            }
            "1"
        },
        2 => {
            proof {
                reveal_strlit("2");
            }
            "2"
        },
        3 => {
            proof {
                reveal_strlit("3");
            }
            "3"
        },
        4 => {
            proof {
                reveal_strlit("4");
            }
            "4"
        },
        5 => {
            proof {
                reveal_strlit("5");
            }
            "5"
        },
        6 => {
            proof {
                reveal_strlit("6");
            }
            "6"
        },
        7 => {
            proof {
                reveal_strlit("7");
            }
            "7"
        },
        8 => {
            proof {
                reveal_strlit("8");
            }
            "8"
        },
        9 => {
            proof {
                reveal_strlit("9");
            }
            "9"
        },
        10 => {
            proof {
                reveal_strlit("A");
            }
            "A"
        },
        11 => {
            proof {
                reveal_strlit("B");
            }
            "B"
        },
        12 => {
            proof {
                reveal_strlit("C");
            }
            "C"
        },
        13 => {
            proof {
                reveal_strlit("D");
            }
            "D"
        },
        14 => {
            proof {
                reveal_strlit("E");
            }
            "E"
        },
        _ => {
            proof {
                reveal_strlit("F");
            }
            "F"
        },
    }
}

/// The color as six upper-case hex digits, `RRGGBB`.
pub fn hex_string(c: Color) -> (s: String)
    ensures
        s@ == hex_text(c),
{
    let mut s = String::new();
    s.append(hex_digit_str(c.0 / 16));
    s.append(hex_digit_str(c.0 % 16));
    s.append(hex_digit_str(c.1 / 16));
    s.append(hex_digit_str(c.1 % 16));
    s.append(hex_digit_str(c.2 / 16));
    s.append(hex_digit_str(c.2 % 16));
    assert(s@ =~= hex_text(c));
    s
}

proof fn lemma_hex_byte(v: u8)
    ensures
        hex_pair(hex_byte(v)[0], hex_byte(v)[1]) == Some(v),
        is_ascii_chars(hex_byte(v)),
{
    let hi = v as int / 16;
    let lo = v as int % 16;
    assert(hex_digit(upper_hex_char(hi)) == Some(hi as u8));
    assert(hex_digit(upper_hex_char(lo)) == Some(lo as u8));
    assert(16 * hi + lo == v);
}

proof fn lemma_lower_hex_byte(v: u8)
    ensures
        hex_pair(lower_hex_byte(v)[0], lower_hex_byte(v)[1]) == Some(v),
        is_ascii_chars(lower_hex_byte(v)),
{
    let hi = v as int / 16;
    let lo = v as int % 16;
    assert(hex_digit(lower_hex_char(hi)) == Some(hi as u8));
    assert(hex_digit(lower_hex_char(lo)) == Some(lo as u8));
    assert(16 * hi + lo == v);
}

/// Six ASCII characters of which each pair reads as a byte parse as that
/// color, with or without a leading `#`.
proof fn lemma_six_ascii_parse(t: Seq<char>, c: Color)
    requires
        t.len() == 6,
        is_ascii_chars(t),
        t[0] != '#',
        hex_color(t) == Some(c),
    ensures
        strip_hash(t) == t,
        strip_hash(seq!['#'] + t) == t,
        hex_input_ok(t),
        hex_input_ok(seq!['#'] + t),
        encode_utf8(t).len() == 6,
{
    is_ascii_chars_encode_utf8(t);
    assert(is_ascii_chars(t.take(2)));
    is_ascii_chars_encode_utf8(t.take(2));
    assert(is_ascii_chars(t.take(4)));
    is_ascii_chars_encode_utf8(t.take(4));
    assert(byte_boundary(t, 2));
    assert(byte_boundary(t, 4));
    assert((seq!['#'] + t).drop_first() =~= t);
}

/// Formatting a color as hex and parsing the text back gives the color, with
/// or without a leading `#`; so does the same text in lower case.
pub proof fn lemma_hex_roundtrip(c: Color)
    ensures
        strip_hash(hex_text(c)) == hex_text(c),
        strip_hash(seq!['#'] + hex_text(c)) == hex_text(c),
        hex_input_ok(hex_text(c)),
        hex_input_ok(seq!['#'] + hex_text(c)),
        encode_utf8(hex_text(c)).len() == 6,
        hex_color(hex_text(c)) == Some(c),
        strip_hash(lower_hex_text(c)) == lower_hex_text(c),
        strip_hash(seq!['#'] + lower_hex_text(c)) == lower_hex_text(c),
        hex_input_ok(lower_hex_text(c)),
        hex_input_ok(seq!['#'] + lower_hex_text(c)),
        encode_utf8(lower_hex_text(c)).len() == 6,
        hex_color(lower_hex_text(c)) == Some(c),
{
    let t = hex_text(c);
    lemma_hex_byte(c.0);
    lemma_hex_byte(c.1);
    lemma_hex_byte(c.2);
    assert(t.len() == 6);
    assert(t[0] == hex_byte(c.0)[0]);
    assert(t[1] == hex_byte(c.0)[1]);
    assert(t[2] == hex_byte(c.1)[0]);
    assert(t[3] == hex_byte(c.1)[1]);
    assert(t[4] == hex_byte(c.2)[0]);
    assert(t[5] == hex_byte(c.2)[1]);
    assert(is_ascii_chars(t));
    lemma_six_ascii_parse(t, c);
    let u = lower_hex_text(c);
    lemma_lower_hex_byte(c.0);
    lemma_lower_hex_byte(c.1);
    lemma_lower_hex_byte(c.2);
    assert(u.len() == 6);
    assert(u[0] == lower_hex_byte(c.0)[0]);
    assert(u[1] == lower_hex_byte(c.0)[1]);
    assert(u[2] == lower_hex_byte(c.1)[0]);
    assert(u[3] == lower_hex_byte(c.1)[1]);
    assert(u[4] == lower_hex_byte(c.2)[0]);
    assert(u[5] == lower_hex_byte(c.2)[1]);
    assert(is_ascii_chars(u));
    lemma_six_ascii_parse(u, c);
}

/// A color's hex text is six upper-case hex digits.
pub proof fn lemma_hex_text_upper(c: Color)
    ensures
        hex_text(c).len() == 6,
        forall|k: int|
            0 <= k < 6 ==> {
                let ch = #[trigger] hex_text(c)[k];
                ('0' <= ch && ch <= '9') || ('A' <= ch && ch <= 'F')
            },
{
    let t = hex_text(c);
    assert(t[0] == hex_byte(c.0)[0]);
    assert(t[1] == hex_byte(c.0)[1]);
    assert(t[2] == hex_byte(c.1)[0]);
    assert(t[3] == hex_byte(c.1)[1]);
    assert(t[4] == hex_byte(c.2)[0]);
    assert(t[5] == hex_byte(c.2)[1]);
}

} // verus!
