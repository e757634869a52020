use vstd::prelude::*;

use crate::color::Pixel;
use crate::colorscheme::chars_of;

verus! {

/// The text with every leading `#` removed.
pub open spec fn strip_hashes(s: Seq<char>) -> Seq<char>
    decreases s.len(),
{
    if s.len() > 0 && s[0] == '#' {
        strip_hashes(s.drop_first())
    } else {
        s
    }
}

/// Value of a hexadecimal digit (either case), or -1.
pub open spec fn hex_digit(c: char) -> int {
    if '0' <= c <= '9' {
        c as int - '0' as int
    } else if 'a' <= c <= 'f' {
        c as int - 'a' as int + 10
    } else if 'A' <= c <= 'F' {
        c as int - 'A' as int + 10
    } else {
        -1
    }
}

/// Value of a two-character hexadecimal byte, or -1. As in an unsigned
/// integer parse, a leading `+` sign is accepted.
pub open spec fn hex_pair(c1: char, c2: char) -> int {
    if hex_digit(c1) >= 0 && hex_digit(c2) >= 0 {
        16 * hex_digit(c1) + hex_digit(c2)
    } else if c1 == '+' && hex_digit(c2) >= 0 {
        hex_digit(c2)
    } else {
        -1
    }
}

/// The colour a hex code stands for: `#rgb` (each digit doubled) or `#rrggbb`,
/// with any number of leading `#`.
pub open spec fn hex_color(s: Seq<char>) -> Option<Pixel> {
    let c = strip_hashes(s);
    if c.len() == 3 {
        if hex_digit(c[0]) >= 0 && hex_digit(c[1]) >= 0 && hex_digit(c[2]) >= 0 {
            Some(
                Pixel {
                    r: (17 * hex_digit(c[0])) as u8,
                    g: (17 * hex_digit(c[1])) as u8,
                    b: (17 * hex_digit(c[2])) as u8,
                },
            )
        } else {
            None
        }
    } else if c.len() == 6 {
        if hex_pair(c[0], c[1]) >= 0 && hex_pair(c[2], c[3]) >= 0 && hex_pair(c[4], c[5]) >= 0 {
            Some(
                Pixel {
                    r: hex_pair(c[0], c[1]) as u8,
                    g: hex_pair(c[2], c[3]) as u8,
                    b: hex_pair(c[4], c[5]) as u8,
                },
            )
        } else {
            None
        }
    } else {
        None
    }
}

fn digit_value(c: char) -> (v: i32)
    ensures
        v == hex_digit(c),
{
    if '0' <= c && c <= '9' {
        (c as u32 - '0' as u32) as i32
    } else if 'a' <= c && c <= 'f' {
        (c as u32 - 'a' as u32 + 10) as i32
    } else if 'A' <= c && c <= 'F' {
        (c as u32 - 'A' as u32 + 10) as i32
    } else {
        -1
    }
}

fn pair_value(c1: char, c2: char) -> (v: i32)
    ensures
        v == hex_pair(c1, c2),
        -1 <= v <= 255,
{
    let d1 = digit_value(c1);
    let d2 = digit_value(c2);
    if d1 >= 0 && d2 >= 0 {
        16 * d1 + d2
    } else if c1 == '+' && d2 >= 0 {
        d2
    } else {
        -1
    }
}

/// Parses a hex colour code: three digits (`#fa0`, each doubled) or six
/// (`#ffaa00`), after any leading `#`. A code of another length, or with a
/// character that is not a digit, is refused with a message.
pub fn hex_to_rgb(input: &str) -> (r: Result<Pixel, String>)
    ensures
        r is Ok <==> hex_color(input@) is Some,
        r matches Ok(p) ==> hex_color(input@) == Some(p),
        r matches Err(m) ==> {
            let n = strip_hashes(input@).len();
            if n == 3 || n == 6 {
                m@ == "invalid digit found in string"@
            } else {
                m@ == "Invalid input: '"@ + input@ + "'. Expected a 3 or 6-digit hex code."@
            }
        },
{
    let chars = chars_of(input);
    let mut k: usize = 0;
    proof {
        assert(chars@.subrange(0, chars@.len() as int) =~= chars@);
    }
    while k < chars.len() && chars[k] == '#'
        invariant
            k <= chars@.len(),
            strip_hashes(chars@) == strip_hashes(chars@.subrange(k as int, chars@.len() as int)),
        decreases chars@.len() - k,
    {
        proof {
            let t = chars@.subrange(k as int, chars@.len() as int);
            assert(t.drop_first() =~= chars@.subrange(k + 1, chars@.len() as int));
        }
        k = k + 1;
    }
    let ghost c = chars@.subrange(k as int, chars@.len() as int);
    proof {
        assert(chars@.subrange(0, chars@.len() as int) =~= chars@);
        assert(strip_hashes(c) == c);
        assert(strip_hashes(input@) == c) by {
            assert(chars@ == input@);
        }
    }
    let n = chars.len() - k;
    if n == 3 {
        let r = digit_value(chars[k]);
        let g = digit_value(chars[k + 1]);
        let b = digit_value(chars[k + 2]);
        if r >= 0 && g >= 0 && b >= 0 {
            Ok(Pixel { r: (17 * r) as u8, g: (17 * g) as u8, b: (17 * b) as u8 })
        } else {
            proof {
                reveal_strlit("invalid digit found in string");
            }
            Err(String::from_str("invalid digit found in string"))
        }
    } else if n == 6 {
        let r = pair_value(chars[k], chars[k + 1]);
        let g = pair_value(chars[k + 2], chars[k + 3]);
        let b = pair_value(chars[k + 4], chars[k + 5]);
        if r >= 0 && g >= 0 && b >= 0 {
            Ok(Pixel { r: r as u8, g: g as u8, b: b as u8 })
        } else {
            Err(String::from_str("invalid digit found in string"))
        }
    } else {
        let mut m = String::from_str("Invalid input: '");
        m.append(input);
        m.append("'. Expected a 3 or 6-digit hex code.");
        Err(m)
    }
}

} // verus!
