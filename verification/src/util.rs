//! Colours as hexadecimal text: `#rrggbb` and `#rrggbbaa`.

use vstd::prelude::*;
use vstd::string::*;

verus! {

/// The text without its leading `#` characters.
pub open spec fn trim_hashes(s: Seq<char>) -> Seq<char>
    decreases s.len(),
{
    if s.len() > 0 && s[0] == '#' {
        trim_hashes(s.drop_first())
    } else {
        s
    }
}

/// The value of a hexadecimal digit, in either case.
pub open spec fn hex_value(c: char) -> Option<u8> {
    if '0' <= c <= '9' {
        Some((c as int - '0' as int) as u8)
    } else if 'a' <= c <= 'f' {
        Some((c as int - 'a' as int + 10) as u8)
    } else if 'A' <= c <= 'F' {
        Some((c as int - 'A' as int + 10) as u8)
    } else {
        None
    }
}

/// The byte written as two characters: two hexadecimal digits, or a plus
/// sign and one digit.
pub open spec fn parse_hex_byte(hi: char, lo: char) -> Option<u8> {
    if hi == '+' {
        hex_value(lo)
    } else {
        match (hex_value(hi), hex_value(lo)) {
            (Some(h), Some(l)) => Some((16 * h + l) as u8),
            _ => None,
        }
    }
}

/// The colour that a text stands for, if any.
///
/// Leading `#` characters are ignored. Six characters are red, green and
/// blue of an opaque colour; eight characters carry the alpha as well.
pub open spec fn parse_hex_color(s: Seq<char>) -> Option<[u8; 4]> {
    let t = trim_hashes(s);
    if t.len() == 6 {
        match (
            parse_hex_byte(t[0], t[1]),
            parse_hex_byte(t[2], t[3]),
            parse_hex_byte(t[4], t[5]),
        ) {
            (Some(r), Some(g), Some(b)) => Some([r, g, b, 255u8]),
            _ => None,
        }
    } else if t.len() == 8 {
        match (
            parse_hex_byte(t[0], t[1]),
            parse_hex_byte(t[2], t[3]),
            parse_hex_byte(t[4], t[5]),
            parse_hex_byte(t[6], t[7]),
        ) {
            (Some(r), Some(g), Some(b), Some(a)) => Some([r, g, b, a]),
            _ => None,
        }
    } else {
        None
    }
}

/// The lower-case hexadecimal digit for a value below 16.
pub open spec fn hex_digit(n: int) -> char {
    if n < 10 {
        ('0' as int + n) as char
    } else {
        ('a' as int + n - 10) as char
    }
}

/// A byte as two lower-case hexadecimal digits.
pub open spec fn hex_byte(b: u8) -> Seq<char> {
    seq![hex_digit(b as int / 16), hex_digit(b as int % 16)]
}

/// A colour as `#rrggbbaa`.
pub open spec fn hex_color(color: [u8; 4]) -> Seq<char> {
    seq!['#'] + hex_byte(color[0]) + hex_byte(color[1]) + hex_byte(color[2]) + hex_byte(color[3])
}

/// Once the leading `#` characters are known, what is left is the rest.
proof fn lemma_trim_hashes(s: Seq<char>, n: int)
    requires
        0 <= n <= s.len(),
        forall|k: int| 0 <= k < n ==> s[k] == '#',
        n == s.len() || s[n] != '#',
    ensures
        trim_hashes(s) == s.skip(n),
    decreases n,
{
    if n == 0 {
        assert(s.skip(0) =~= s);
    } else {
        lemma_trim_hashes(s.drop_first(), n - 1);
        assert(s.drop_first().skip(n - 1) =~= s.skip(n));
    }
}

fn hex_value_of(c: char) -> (r: Option<u8>)
    ensures
        r == hex_value(c),
{
    let v: u32 = c as u32;
    if 48 <= v && v <= 57 {
        Some((v - 48) as u8)
    } else if 97 <= v && v <= 102 {
        Some((v - 97 + 10) as u8)
    } else if 65 <= v && v <= 70 {
        Some((v - 65 + 10) as u8)
    } else {
        None
    }
}

fn parse_byte(hi: char, lo: char) -> (r: Option<u8>)
    ensures
        r == parse_hex_byte(hi, lo),
{
    if hi == '+' {
        return hex_value_of(lo);
    }
    match hex_value_of(hi) {
        Some(h) => match hex_value_of(lo) {
            Some(l) => Some(16 * h + l),
            None => None,
        },
        None => None,
    }
}

/// Read a colour from `#rrggbb` or `#rrggbbaa`.
///
/// Returns `None` for any text that is not one of the two forms.
pub fn hex_to_rgba(s: &str) -> (r: Option<[u8; 4]>)
    ensures
        r == parse_hex_color(s@),
{
    let total = s.unicode_len();
    let mut start: usize = 0;
    while start < total && s.get_char(start) == '#'
        invariant
            start <= total,
            total == s@.len(),
            forall|k: int| 0 <= k < start ==> s@[k] == '#',
        decreases total - start,
    {
        start += 1;
    }
    proof {
        lemma_trim_hashes(s@, start as int);
    }
    let ghost t = s@.skip(start as int);
    let len = total - start;
    if len != 6 && len != 8 {
        return None;
    }
    let red = parse_byte(s.get_char(start), s.get_char(start + 1));
    let green = parse_byte(s.get_char(start + 2), s.get_char(start + 3));
    let blue = parse_byte(s.get_char(start + 4), s.get_char(start + 5));
    let alpha = if len == 8 {
        parse_byte(s.get_char(start + 6), s.get_char(start + 7))
    } else {
        Some(255u8)
    };
    match (red, green, blue, alpha) {
        (Some(r), Some(g), Some(b), Some(a)) => {
            let color: [u8; 4] = [r, g, b, a];
            proof {
                if len == 6 {
                    assert(color =~= [r, g, b, 255u8]);
                } else {
                    assert(color =~= [r, g, b, a]);
                }
            }
            Some(color)
        },
        _ => None,
    }
}

/// The text of one hexadecimal digit.
fn hex_digit_str(n: u8) -> (s: &'static str)
    requires
        n < 16,
    ensures
        s@ == seq![hex_digit(n as int)],
{
    proof {
        reveal_strlit("0");
        reveal_strlit("1");
        reveal_strlit("2");
        reveal_strlit("3");
        reveal_strlit("4");
        reveal_strlit("5");
        reveal_strlit("6");
        reveal_strlit("7");
        reveal_strlit("8");
        reveal_strlit("9");
        reveal_strlit("a");
        reveal_strlit("b");
        reveal_strlit("c");
        reveal_strlit("d");
        reveal_strlit("e");
        reveal_strlit("f");
    }
    let s = match n {
        0 => "0",
        1 => "1",
        2 => "2",
        3 => "3",
        4 => "4",
        5 => "5",
        6 => "6",
        7 => "7",
        8 => "8",
        9 => "9",
        10 => "a",
        11 => "b",
        12 => "c",
        13 => "d",
        14 => "e",
        _ => "f",
    };
    assert(s@ =~= seq![hex_digit(n as int)]);
    s
}

fn push_hex_byte(out: &mut String, b: u8)
    ensures
        final(out)@ == old(out)@ + hex_byte(b),
{
    out.append(hex_digit_str(b / 16));
    out.append(hex_digit_str(b % 16));
    assert(out@ =~= old(out)@ + hex_byte(b));
}

/// Write a colour as `#rrggbbaa`, in lower case.
pub fn rgba_to_hex(color: [u8; 4]) -> (s: String)
    ensures
        s@ == hex_color(color),
{
    let mut out = String::new();
    proof {
        reveal_strlit("#");
    }
    out.append("#");
    push_hex_byte(&mut out, color[0]);
    push_hex_byte(&mut out, color[1]);
    push_hex_byte(&mut out, color[2]);
    push_hex_byte(&mut out, color[3]);
    assert(out@ =~= hex_color(color));
    out
}

/// A hexadecimal digit is read back as the value it was written for.
proof fn lemma_hex_digit_value(n: int)
    requires
        0 <= n < 16,
    ensures
        hex_value(hex_digit(n)) == Some(n as u8),
        hex_digit(n) != '+',
        hex_digit(n) != '#',
{
}

proof fn lemma_hex_byte_parses(b: u8)
    ensures
        parse_hex_byte(hex_byte(b)[0], hex_byte(b)[1]) == Some(b),
        hex_byte(b).len() == 2,
        hex_byte(b)[0] != '#',
{
    lemma_hex_digit_value(b as int / 16);
    lemma_hex_digit_value(b as int % 16);
}

/// What `rgba_to_hex` writes, `hex_to_rgba` reads back as the same colour.
pub proof fn lemma_hex_round_trip(color: [u8; 4])
    ensures
        parse_hex_color(hex_color(color)) == Some(color),
{
    let s = hex_color(color);
    let r = hex_byte(color[0]);
    let g = hex_byte(color[1]);
    let b = hex_byte(color[2]);
    let a = hex_byte(color[3]);
    let t = r + g + b + a;
    lemma_hex_byte_parses(color[0]);
    lemma_hex_byte_parses(color[1]);
    lemma_hex_byte_parses(color[2]);
    lemma_hex_byte_parses(color[3]);
    assert(s =~= seq!['#'] + t);
    assert(s.skip(1) =~= t);
    assert(s[1] == r[0]);
    lemma_trim_hashes(s, 1);
    assert(t.len() == 8);
    assert(t[0] == r[0] && t[1] == r[1]);
    assert(t[2] == g[0] && t[3] == g[1]);
    assert(t[4] == b[0] && t[5] == b[1]);
    assert(t[6] == a[0] && t[7] == a[1]);
    let back = parse_hex_color(s);
    assert(back is Some);
    assert(back->0 =~= color);
}

} // verus!
