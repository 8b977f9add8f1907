//! Color palettes, keyed by role rather than value.
//!
//! Colors are plain sRGB byte triples; turning them into linear-space
//! floating point for the GPU is the renderer's business.

use vstd::prelude::*;
use crate::common::Error;

verus! {

/// The role a color plays; entities store a key, never a raw color.
#[derive(Debug, Clone, Copy, PartialEq, Eq, Structural)]
pub enum PaletteKey {
    Blank,
    Snake,
    Wall,
    Background,
    Fruit,
}

impl Default for PaletteKey {
    fn default() -> (r: Self)
        ensures
            r == PaletteKey::Blank,
    {
        PaletteKey::Blank
    }
}

/// An sRGB color with one byte per channel.
#[derive(Debug, Clone, Copy, PartialEq, Eq, Structural)]
pub struct Rgb {
    pub r: u8,
    pub g: u8,
    pub b: u8,
}

impl Rgb {
    pub fn new(r: u8, g: u8, b: u8) -> (c: Self)
        ensures
            c == (Rgb { r, g, b }),
    {
        Rgb { r, g, b }
    }
}

/// Value of an ASCII hexadecimal digit, or 16 for any other character.
pub open spec fn hex_digit_val(c: char) -> u8 {
    if '0' <= c && c <= '9' {
        (c as u8 - '0' as u8) as u8
    } else if 'a' <= c && c <= 'f' {
        (c as u8 - 'a' as u8 + 10) as u8
    } else if 'A' <= c && c <= 'F' {
        (c as u8 - 'A' as u8 + 10) as u8
    } else {
        16
    }
}

/// Whether the first six characters of `s` are hexadecimal digits.
pub open spec fn is_hex6(s: Seq<char>) -> bool {
    s.len() >= 6 && forall|i: int| 0 <= i < 6 ==> hex_digit_val(#[trigger] s[i]) < 16
}

/// The color that a six-digit hex code denotes.
pub open spec fn hex_color(s: Seq<char>) -> Rgb {
    Rgb {
        r: (hex_digit_val(s[0]) * 16 + hex_digit_val(s[1])) as u8,
        g: (hex_digit_val(s[2]) * 16 + hex_digit_val(s[3])) as u8,
        b: (hex_digit_val(s[4]) * 16 + hex_digit_val(s[5])) as u8,
    }
}

fn hex_digit(c: char) -> (r: Option<u8>)
    ensures
        r matches Some(v) ==> hex_digit_val(c) < 16 && v == hex_digit_val(c),
        r is None ==> hex_digit_val(c) >= 16,
{
    if '0' <= c && c <= '9' {
        Some(c as u8 - '0' as u8)
    } else if 'a' <= c && c <= 'f' {
        Some(c as u8 - 'a' as u8 + 10)
    } else if 'A' <= c && c <= 'F' {
        Some(c as u8 - 'A' as u8 + 10)
    } else {
        None
    }
}

impl Rgb {
    /// Parses the first six characters of `hex` as an RRGGBB color code.
    pub fn hexcode(hex: &str) -> (r: Result<Rgb, Error>)
        ensures
            r matches Ok(c) ==> is_hex6(hex@) && c == hex_color(hex@),
            r is Err ==> !is_hex6(hex@) && r == Err::<Rgb, Error>(Error::ParseError),
    {
        let n = hex.unicode_len();
        if n < 6 {
            return Err(Error::ParseError);
        }
        let mut digits: [u8; 6] = [0; 6];
        let mut i: usize = 0;
        while i < 6
            invariant
                i <= 6,
                hex@.len() >= 6,
                forall|j: int| 0 <= j < i ==> hex_digit_val(#[trigger] hex@[j]) < 16,
                forall|j: int| 0 <= j < i ==> digits@[j] == hex_digit_val(#[trigger] hex@[j]),
            decreases 6 - i,
        {
            let c = hex.get_char(i);
            match hex_digit(c) {
                Some(v) => {
                    digits[i] = v;
                },
                None => {
                    return Err(Error::ParseError);
                },
            }
            i = i + 1;
        }
        proof {
            assert forall|j: int| 0 <= j < 6 implies digits@[j] < 16 by {
                assert(digits@[j] == hex_digit_val(hex@[j]));
                assert(hex_digit_val(hex@[j]) < 16);
            }
        }
        Ok(Rgb {
            r: digits[0] * 16 + digits[1],
            g: digits[2] * 16 + digits[3],
            b: digits[4] * 16 + digits[5],
        })
    }
}

/// A full assignment of colors to roles.
#[derive(Debug, Clone, Copy, PartialEq, Eq, Structural)]
pub struct Palette {
    pub black: Rgb,
    pub white: Rgb,
    pub snake: Rgb,
    pub wall: Rgb,
    pub background: Rgb,
    pub fruit: Rgb,
}

impl Palette {
    /// The color for a role; the `Blank` role draws as black (all zero).
    pub fn get(self, key: PaletteKey) -> (c: Rgb)
        ensures
            c == match key {
                PaletteKey::Blank => Rgb { r: 0, g: 0, b: 0 },
                PaletteKey::Snake => self.snake,
                PaletteKey::Wall => self.wall,
                PaletteKey::Background => self.background,
                PaletteKey::Fruit => self.fruit,
            },
    {
        match key {
            PaletteKey::Blank => Rgb { r: 0, g: 0, b: 0 },
            PaletteKey::Snake => self.snake,
            PaletteKey::Wall => self.wall,
            PaletteKey::Background => self.background,
            PaletteKey::Fruit => self.fruit,
        }
    }
}

/// The muted default palette.
pub fn dark_pastel() -> (p: Result<Palette, Error>)
    ensures
        p is Ok,
{
    proof {
        reveal_strlit("102542");
        reveal_strlit("9DCDC0");
        reveal_strlit("8377D1");
        reveal_strlit("FFD166");
    }
    let dark_blue = match Rgb::hexcode("102542") {
        Ok(c) => c,
        Err(e) => {
            return Err(e);
        },
    };
    let light_blue = match Rgb::hexcode("9DCDC0") {
        Ok(c) => c,
        Err(e) => {
            return Err(e);
        },
    };
    let indigo = match Rgb::hexcode("8377D1") {
        Ok(c) => c,
        Err(e) => {
            return Err(e);
        },
    };
    let sunglow = match Rgb::hexcode("FFD166") {
        Ok(c) => c,
        Err(e) => {
            return Err(e);
        },
    };
    Ok(Palette {
        black: Rgb::new(1, 1, 1),
        white: Rgb::new(255, 255, 255),
        snake: light_blue,
        wall: indigo,
        background: dark_blue,
        fruit: sunglow,
    })
}

/// The monochrome-terminal palette.
pub fn crt() -> (p: Palette)
    ensures
        p.snake == (Rgb { r: 0, g: 255, b: 0 }),
        p.fruit == (Rgb { r: 255, g: 0, b: 0 }),
        p.wall == (Rgb { r: 255, g: 255, b: 255 }),
{
    Palette {
        black: Rgb::new(1, 1, 1),
        white: Rgb::new(255, 255, 255),
        snake: Rgb::new(0, 255, 0),
        wall: Rgb::new(255, 255, 255),
        background: Rgb::new(2, 2, 2),
        fruit: Rgb::new(255, 0, 0),
    }
}

} // verus!
