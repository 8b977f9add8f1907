//! The closed set of text banners the game can show, with their sheet
//! geometry. Decoding and uploading the textures themselves is the
//! renderer's business.

use vstd::prelude::*;
use crate::common::Error;

verus! {

/// A text banner; glitching variants are animated sprite sheets.
#[derive(Debug, Clone, Copy, PartialEq, Eq, Structural)]
pub enum TextNames {
    Snek,
    SnekGlitch,
    Controls,
    Fruit,
    FruitGlitch,
}

/// How many banner kinds exist; ids `0..NUM_TEXTS` convert back.
pub const NUM_TEXTS: u8 = 5;

impl TextNames {
    /// The banner with a given id; exactly the ids below `NUM_TEXTS`
    /// convert.
    pub fn try_from_id(value: u8) -> (r: Result<TextNames, Error>)
        ensures
            r == match value {
                0u8 => Ok::<TextNames, Error>(TextNames::Snek),
                1u8 => Ok::<TextNames, Error>(TextNames::SnekGlitch),
                2u8 => Ok::<TextNames, Error>(TextNames::Controls),
                3u8 => Ok::<TextNames, Error>(TextNames::Fruit),
                4u8 => Ok::<TextNames, Error>(TextNames::FruitGlitch),
                _ => Err::<TextNames, Error>(Error::InvalidTextNameId),
            },
    {
        match value {
            0 => Ok(TextNames::Snek),
            1 => Ok(TextNames::SnekGlitch),
            2 => Ok(TextNames::Controls),
            3 => Ok(TextNames::Fruit),
            4 => Ok(TextNames::FruitGlitch),
            _ => Err(Error::InvalidTextNameId),
        }
    }

    /// Width and height of the banner's sheet, in pixels.
    pub fn dimension(self) -> (r: (u32, u32))
        ensures
            r == match self {
                TextNames::Snek => (62u32, 14u32),
                TextNames::SnekGlitch => (14u32, 96u32),
                TextNames::Controls => (142u32, 38u32),
                TextNames::Fruit => (206u32, 14u32),
                TextNames::FruitGlitch => (142u32, 192u32),
            },
    {
        match self {
            TextNames::Snek => (62, 14),
            TextNames::SnekGlitch => (14, 96),
            TextNames::Controls => (142, 38),
            TextNames::Fruit => (206, 14),
            TextNames::FruitGlitch => (142, 192),
        }
    }

    /// How many animation frames the banner's sheet holds; static banners
    /// have one.
    pub fn frames(self) -> (r: usize)
        ensures
            r == match self {
                TextNames::SnekGlitch => 4usize,
                TextNames::FruitGlitch => 8usize,
                _ => 1usize,
            },
            r >= 1,
    {
        match self {
            TextNames::SnekGlitch => 4,
            TextNames::FruitGlitch => 8,
            _ => 1,
        }
    }
}

} // verus!
