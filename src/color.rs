use vstd::prelude::*;

use crate::text::chars_of;

verus! {

/// A color as `0xRRGGBBAA`.
#[derive(Clone, Copy, Debug, PartialEq, Eq)]
pub struct Color(pub u32);

/// Why a color string was refused.
#[derive(Clone, Copy, Debug, PartialEq, Eq)]
pub enum ColorError {
    /// The string is empty.
    Empty,
    /// The string does not start with `#`.
    NotHex,
    /// What follows `#` is not 3, 6 or 8 hexadecimal digits.
    BadFormat,
}

pub open spec fn rgba_value(r: u8, g: u8, b: u8, a: u8) -> int {
    r * 0x100_0000 + g * 0x1_0000 + b * 0x100 + a
}

/// Value of a hexadecimal digit, -1 for another character.
pub open spec fn hex_digit(c: char) -> int {
    if '0' <= c <= '9' {
        c as int - '0' as int
    } else if 'a' <= c <= 'f' {
        c as int - 'a' as int + 10
    } else if 'A' <= c <= 'F' {
        c as int - 'A' as int + 10
    } else {
        -1
    }
}

pub open spec fn all_hex(s: Seq<char>) -> bool {
    forall|i: int| 0 <= i < s.len() ==> hex_digit(#[trigger] s[i]) >= 0
}

/// Value of a string of hexadecimal digits.
pub open spec fn hex_value(s: Seq<char>) -> int
    decreases s.len(),
{
    if s.len() == 0 {
        0
    } else {
        hex_value(s.drop_last()) * 16 + hex_digit(s.last())
    }
}

/// What `parse_color` gives for a string.
pub open spec fn color_spec(s: Seq<char>) -> Result<int, ColorError> {
    if s.len() == 0 {
        Err(ColorError::Empty)
    } else if s[0] != '#' {
        Err(ColorError::NotHex)
    } else {
        let d = s.drop_first();
        if !all_hex(d) || !(d.len() == 3 || d.len() == 6 || d.len() == 8) {
            Err(ColorError::BadFormat)
        } else if d.len() == 3 {
            Ok(
                0x11 * hex_digit(d[0]) * 0x100_0000 + 0x11 * hex_digit(d[1]) * 0x1_0000 + 0x11
                    * hex_digit(d[2]) * 0x100 + 0xff,
            )
        } else if d.len() == 6 {
            Ok(hex_value(d) * 0x100 + 0xff)
        } else {
            Ok(hex_value(d))
        }
    }
}

/// 16 to the power `n`.
pub open spec fn pow16(n: nat) -> int
    decreases n,
{
    if n == 0 {
        1
    } else {
        16 * pow16((n - 1) as nat)
    }
}

proof fn lemma_pow16_grows(a: nat, b: nat)
    requires
        a <= b,
    ensures
        1 <= pow16(a) <= pow16(b),
    decreases b,
{
    if b > 0 {
        if a < b {
            lemma_pow16_grows(a, (b - 1) as nat);
        } else {
            lemma_pow16_grows((b - 1) as nat, (b - 1) as nat);
        }
    }
}

proof fn lemma_pow16_values()
    ensures
        pow16(6) == 0x100_0000,
        pow16(8) == 0x1_0000_0000,
{
    reveal_with_fuel(pow16, 9);
}

proof fn lemma_hex_value_bound(s: Seq<char>)
    requires
        all_hex(s),
    ensures
        0 <= hex_value(s) < pow16(s.len() as nat),
    decreases s.len(),
{
    if s.len() > 0 {
        assert(all_hex(s.drop_last())) by {
            assert forall|i: int| 0 <= i < s.drop_last().len() implies hex_digit(
                #[trigger] s.drop_last()[i],
            ) >= 0 by {
                assert(s.drop_last()[i] == s[i]);
            }
        }
        assert(hex_digit(s[s.len() - 1]) >= 0);
        lemma_hex_value_bound(s.drop_last());
        let p = pow16((s.len() - 1) as nat);
        let h = hex_value(s.drop_last());
        assert(hex_value(s) < p * 16) by (nonlinear_arith)
            requires
                hex_value(s) == h * 16 + hex_digit(s.last()),
                0 <= h < p,
                0 <= hex_digit(s.last()) < 16,
        ;
        assert(hex_value(s) >= 0) by (nonlinear_arith)
            requires
                hex_value(s) == h * 16 + hex_digit(s.last()),
                0 <= h,
                0 <= hex_digit(s.last()),
        ;
    }
}

fn hex_digit_of(c: char) -> (r: Option<u32>)
    ensures
        hex_digit(c) >= 0 ==> r == Some(hex_digit(c) as u32),
        hex_digit(c) < 0 ==> r is None,
{
    if '0' <= c && c <= '9' {
        Some((c as u32) - ('0' as u32))
    } else if 'a' <= c && c <= 'f' {
        Some((c as u32) - ('a' as u32) + 10)
    } else if 'A' <= c && c <= 'F' {
        Some((c as u32) - ('A' as u32) + 10)
    } else {
        None
    }
}

impl Color {
    pub fn from_rgba(r: u8, g: u8, b: u8, a: u8) -> (c: Color)
        ensures
            c.0 == rgba_value(r, g, b, a),
    {
        Color((r as u32) * 0x100_0000 + (g as u32) * 0x1_0000 + (b as u32) * 0x100 + (a as u32))
    }

    /// The red, green, blue and alpha bytes.
    pub fn to_rgba(self) -> (r: [u8; 4])
        ensures
            rgba_value(r[0], r[1], r[2], r[3]) == self.0,
    {
        let v = self.0;
        let r = [(v / 0x100_0000) as u8, ((v / 0x1_0000) % 0x100) as u8, ((v / 0x100) % 0x100) as u8, (v
            % 0x100) as u8];
        r
    }

    /// Parses `#RGB`, `#RRGGBB` or `#RRGGBBAA`; a missing alpha is opaque.
    pub fn parse(s: &str) -> (r: Result<Color, ColorError>)
        ensures
            match color_spec(s@) {
                Ok(v) => r == Ok::<Color, ColorError>(Color(v as u32)) && 0 <= v <= u32::MAX,
                Err(e) => r == Err::<Color, ColorError>(e),
            },
    {
        let c = chars_of(s);
        if c.len() == 0 {
            return Err(ColorError::Empty);
        }
        if c[0] != '#' {
            return Err(ColorError::NotHex);
        }
        let n = c.len() - 1;
        let ghost d = s@.drop_first();
        if !(n == 3 || n == 6 || n == 8) {
            return Err(ColorError::BadFormat);
        }
        let mut digits: Vec<u32> = Vec::new();
        let mut value: u64 = 0;
        let mut i: usize = 1;
        while i < c.len()
            invariant
                c@ == s@,
                c@[0] == '#',
                n == c@.len() - 1,
                n == 3 || n == 6 || n == 8,
                1 <= i <= c@.len(),
                c@.len() <= 9,
                d == s@.drop_first(),
                digits@.len() == i - 1,
                forall|k: int| 0 <= k < i - 1 ==> #[trigger] digits@[k] == hex_digit(d[k]),
                all_hex(d.take(i - 1)),
                value == hex_value(d.take(i - 1)),
            decreases c.len() - i,
        {
            match hex_digit_of(c[i]) {
                Some(x) => {
                    proof {
                        lemma_hex_value_bound(d.take(i - 1));
                        lemma_pow16_grows((i - 1) as nat, 8);
                        lemma_pow16_values();
                        assert(d.take(i as int).drop_last() =~= d.take(i - 1));
                        assert(d[i - 1] == c@[i as int]);
                        assert forall|k: int| 0 <= k < d.take(i as int).len() implies hex_digit(
                            #[trigger] d.take(i as int)[k],
                        ) >= 0 by {
                            if k < i - 1 {
                                assert(d.take(i as int)[k] == d.take(i - 1)[k]);
                            }
                        }
                    }
                    value = value * 16 + x as u64;
                    digits.push(x);
                },
                None => {
                    proof {
                        assert(d[i - 1] == c@[i as int]);
                        assert(hex_digit(d[i - 1]) < 0);
                        assert(!all_hex(d));
                        assert(s@[0] == '#');
                        assert(color_spec(s@) == Err::<int, ColorError>(ColorError::BadFormat));
                    }
                    return Err(ColorError::BadFormat);
                },
            }
            i += 1;
        }
        proof {
            assert(d.take(n as int) =~= d);
            lemma_hex_value_bound(d);
            lemma_pow16_values();
        }
        if n == 3 {
            let (r, g, b) = (digits[0], digits[1], digits[2]);
            Ok(Color(0x11 * r * 0x100_0000 + 0x11 * g * 0x1_0000 + 0x11 * b * 0x100 + 0xff))
        } else if n == 6 {
            Ok(Color((value * 0x100 + 0xff) as u32))
        } else {
            Ok(Color(value as u32))
        }
    }
}

} // verus!
