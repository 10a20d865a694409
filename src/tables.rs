//! Fixed data of the QR symbol format: levels, masks, modes and the
//! per-version tables that the encoder and the layout query.
use vstd::prelude::*;

verus! {

/// Error-correction level of a symbol.
#[derive(Clone, Copy, Debug, PartialEq, Eq, Structural)]
pub enum ErrorLevel {
    L,
    M,
    Q,
    H,
}

/// One of the eight data mask patterns, named by its 3-bit reference.
#[derive(Clone, Copy, Debug, PartialEq, Eq, Structural)]
pub enum Mask {
    _000,
    _001,
    _010,
    _011,
    _100,
    _101,
    _110,
    _111,
}

/// Data encoding mode.
#[derive(Clone, Copy, Debug, PartialEq, Eq, Structural)]
pub enum ByteNameOfMode {
    Numeric,
    Alpha,
    Byte,
    Kanji,
}

/// The field's primitive polynomial x^8 + x^4 + x^3 + x^2 + 1.
pub const MODULO_BYTE_WISE: u32 = 285;

/// Mask XORed onto the 15-bit format string.
pub const FORMAT_STRING_XOR_VALUE: u32 = 0x5412;

/// BCH generator of the format string: x^10 + x^8 + x^5 + x^4 + x^2 + x + 1.
pub const FORMAT_GENERATOR: u32 = 0x537;

/// BCH generator of the version string: x^12 + x^11 + x^10 + x^9 + x^8 + x^5 + x^2 + 1.
pub const VERSION_GENERATOR: u32 = 0x1f25;

/// The two pad codewords, used in turn.
pub const PAD_FIRST: u8 = 236;

pub const PAD_SECOND: u8 = 17;

/// Width of the quiet border around a finished symbol.
pub const MARGIN: u32 = 3;

pub open spec fn level_pick<T>(level: ErrorLevel, l: T, m: T, q: T, h: T) -> T {
    match level {
        ErrorLevel::L => l,
        ErrorLevel::M => m,
        ErrorLevel::Q => q,
        ErrorLevel::H => h,
    }
}

fn level_pick_exec(level: ErrorLevel, l: (u8, u8), m: (u8, u8), q: (u8, u8), h: (u8, u8)) -> (r: (
    u8,
    u8,
))
    ensures
        r == level_pick(level, l, m, q, h),
{
    match level {
        ErrorLevel::L => l,
        ErrorLevel::M => m,
        ErrorLevel::Q => q,
        ErrorLevel::H => h,
    }
}

/// The 2-bit level indicator of the format string.
pub open spec fn level_indicator(level: ErrorLevel) -> u32 {
    level_pick(level, 1u32, 0u32, 3u32, 2u32)
}

pub fn level_indicator_exec(level: ErrorLevel) -> (r: u32)
    ensures
        r == level_indicator(level),
{
    match level {
        ErrorLevel::L => 1,
        ErrorLevel::M => 0,
        ErrorLevel::Q => 3,
        ErrorLevel::H => 2,
    }
}

/// The 3-bit reference of a mask pattern.
pub open spec fn mask_index(mask: Mask) -> u32 {
    match mask {
        Mask::_000 => 0,
        Mask::_001 => 1,
        Mask::_010 => 2,
        Mask::_011 => 3,
        Mask::_100 => 4,
        Mask::_101 => 5,
        Mask::_110 => 6,
        Mask::_111 => 7,
    }
}

pub fn mask_index_exec(mask: Mask) -> (r: u32)
    ensures
        r == mask_index(mask),
{
    match mask {
        Mask::_000 => 0,
        Mask::_001 => 1,
        Mask::_010 => 2,
        Mask::_011 => 3,
        Mask::_100 => 4,
        Mask::_101 => 5,
        Mask::_110 => 6,
        Mask::_111 => 7,
    }
}

/// The 4-bit mode indicator.
pub open spec fn mode_indicator(mode: ByteNameOfMode) -> u32 {
    match mode {
        ByteNameOfMode::Numeric => 1,
        ByteNameOfMode::Alpha => 2,
        ByteNameOfMode::Byte => 4,
        ByteNameOfMode::Kanji => 8,
    }
}

pub fn mode_indicator_exec(mode: ByteNameOfMode) -> (r: u32)
    ensures
        r == mode_indicator(mode),
{
    match mode {
        ByteNameOfMode::Numeric => 1,
        ByteNameOfMode::Alpha => 2,
        ByteNameOfMode::Byte => 4,
        ByteNameOfMode::Kanji => 8,
    }
}

/// Width of the character-count field for a mode, by version tier 1-9, 10-26, 27-40.
pub open spec fn length_bits(mode: ByteNameOfMode, version: int) -> int {
    let tier: int = if version > 26 {
        2
    } else if version > 9 {
        1
    } else {
        0
    };
    match mode {
        ByteNameOfMode::Numeric => 10 + 2 * tier,
        ByteNameOfMode::Alpha => 9 + 2 * tier,
        ByteNameOfMode::Byte => if tier == 0 {
            8
        } else {
            16
        },
        ByteNameOfMode::Kanji => 8 + 2 * tier,
    }
}

/// Number of zero bits appended after the last codeword of a version.
pub open spec fn remainder_bits(version: int) -> int {
    if 2 <= version <= 6 {
        7
    } else if 14 <= version <= 20 || 28 <= version <= 34 {
        3
    } else if 21 <= version <= 27 {
        4
    } else {
        0
    }
}

pub fn remainder_bits_exec(version: u8) -> (r: usize)
    ensures
        r == remainder_bits(version as int),
{
    if 2 <= version && version <= 6 {
        7
    } else if (14 <= version && version <= 20) || (28 <= version && version <= 34) {
        3
    } else if 21 <= version && version <= 27 {
        4
    } else {
        0
    }
}

/// (EC codewords per block, number of blocks) for a version and level.
pub open spec fn ec_table(version: int, level: ErrorLevel) -> (int, int) {
    if version == 1 {
        level_pick(level, (7, 1), (10, 1), (13, 1), (17, 1))
    } else if version == 2 {
        level_pick(level, (10, 1), (16, 1), (22, 1), (28, 1))
    } else if version == 3 {
        level_pick(level, (15, 1), (26, 1), (18, 2), (22, 2))
    } else if version == 4 {
        level_pick(level, (20, 1), (18, 2), (26, 2), (16, 4))
    } else if version == 5 {
        level_pick(level, (26, 1), (24, 2), (18, 4), (22, 4))
    } else if version == 6 {
        level_pick(level, (18, 2), (16, 4), (24, 4), (28, 4))
    } else if version == 7 {
        level_pick(level, (20, 2), (18, 4), (18, 6), (26, 5))
    } else if version == 8 {
        level_pick(level, (24, 2), (22, 4), (22, 6), (26, 6))
    } else if version == 9 {
        level_pick(level, (30, 2), (22, 5), (20, 8), (24, 8))
    } else if version == 10 {
        level_pick(level, (18, 4), (26, 5), (24, 8), (28, 8))
    } else if version == 11 {
        level_pick(level, (20, 4), (30, 5), (28, 8), (24, 11))
    } else if version == 12 {
        level_pick(level, (24, 4), (22, 8), (26, 10), (28, 11))
    } else if version == 13 {
        level_pick(level, (26, 4), (22, 9), (24, 12), (22, 16))
    } else if version == 14 {
        level_pick(level, (30, 4), (24, 9), (20, 16), (24, 16))
    } else if version == 15 {
        level_pick(level, (22, 6), (24, 10), (30, 12), (24, 18))
    } else if version == 16 {
        level_pick(level, (24, 6), (28, 10), (24, 17), (30, 16))
    } else if version == 17 {
        level_pick(level, (28, 6), (28, 11), (28, 16), (28, 19))
    } else if version == 18 {
        level_pick(level, (30, 6), (26, 13), (28, 18), (28, 21))
    } else if version == 19 {
        level_pick(level, (28, 7), (26, 14), (26, 21), (26, 25))
    } else if version == 20 {
        level_pick(level, (28, 8), (26, 16), (30, 20), (28, 25))
    } else if version == 21 {
        level_pick(level, (28, 8), (26, 17), (28, 23), (30, 25))
    } else if version == 22 {
        level_pick(level, (28, 9), (28, 17), (30, 23), (24, 34))
    } else if version == 23 {
        level_pick(level, (30, 9), (28, 18), (30, 25), (30, 30))
    } else if version == 24 {
        level_pick(level, (30, 10), (28, 20), (30, 27), (30, 32))
    } else if version == 25 {
        level_pick(level, (26, 12), (28, 21), (30, 29), (30, 35))
    } else if version == 26 {
        level_pick(level, (28, 12), (28, 23), (28, 34), (30, 37))
    } else if version == 27 {
        level_pick(level, (30, 12), (28, 25), (30, 34), (30, 40))
    } else if version == 28 {
        level_pick(level, (30, 13), (28, 26), (30, 35), (30, 42))
    } else if version == 29 {
        level_pick(level, (30, 14), (28, 28), (30, 38), (30, 45))
    } else if version == 30 {
        level_pick(level, (30, 15), (28, 29), (30, 40), (30, 48))
    } else if version == 31 {
        level_pick(level, (30, 16), (28, 31), (30, 43), (30, 51))
    } else if version == 32 {
        level_pick(level, (30, 17), (28, 33), (30, 45), (30, 54))
    } else if version == 33 {
        level_pick(level, (30, 18), (28, 35), (30, 48), (30, 57))
    } else if version == 34 {
        level_pick(level, (30, 19), (28, 37), (30, 51), (30, 60))
    } else if version == 35 {
        level_pick(level, (30, 19), (28, 38), (30, 53), (30, 63))
    } else if version == 36 {
        level_pick(level, (30, 20), (28, 40), (30, 56), (30, 66))
    } else if version == 37 {
        level_pick(level, (30, 21), (28, 43), (30, 59), (30, 70))
    } else if version == 38 {
        level_pick(level, (30, 22), (28, 45), (30, 62), (30, 74))
    } else if version == 39 {
        level_pick(level, (30, 24), (28, 47), (30, 65), (30, 77))
    } else {
        level_pick(level, (30, 25), (28, 49), (30, 68), (30, 81))
    }
}

/// Looks up the error-correction block layout of a version and level.
pub fn ec_entry(version: u8, level: ErrorLevel) -> (r: (u8, u8))
    requires
        1 <= version <= 40,
    ensures
        r.0 as int == ec_table(version as int, level).0,
        r.1 as int == ec_table(version as int, level).1,
{
    if version == 1 {
        level_pick_exec(level, (7, 1), (10, 1), (13, 1), (17, 1))
    } else if version == 2 {
        level_pick_exec(level, (10, 1), (16, 1), (22, 1), (28, 1))
    } else if version == 3 {
        level_pick_exec(level, (15, 1), (26, 1), (18, 2), (22, 2))
    } else if version == 4 {
        level_pick_exec(level, (20, 1), (18, 2), (26, 2), (16, 4))
    } else if version == 5 {
        level_pick_exec(level, (26, 1), (24, 2), (18, 4), (22, 4))
    } else if version == 6 {
        level_pick_exec(level, (18, 2), (16, 4), (24, 4), (28, 4))
    } else if version == 7 {
        level_pick_exec(level, (20, 2), (18, 4), (18, 6), (26, 5))
    } else if version == 8 {
        level_pick_exec(level, (24, 2), (22, 4), (22, 6), (26, 6))
    } else if version == 9 {
        level_pick_exec(level, (30, 2), (22, 5), (20, 8), (24, 8))
    } else if version == 10 {
        level_pick_exec(level, (18, 4), (26, 5), (24, 8), (28, 8))
    } else if version == 11 {
        level_pick_exec(level, (20, 4), (30, 5), (28, 8), (24, 11))
    } else if version == 12 {
        level_pick_exec(level, (24, 4), (22, 8), (26, 10), (28, 11))
    } else if version == 13 {
        level_pick_exec(level, (26, 4), (22, 9), (24, 12), (22, 16))
    } else if version == 14 {
        level_pick_exec(level, (30, 4), (24, 9), (20, 16), (24, 16))
    } else if version == 15 {
        level_pick_exec(level, (22, 6), (24, 10), (30, 12), (24, 18))
    } else if version == 16 {
        level_pick_exec(level, (24, 6), (28, 10), (24, 17), (30, 16))
    } else if version == 17 {
        level_pick_exec(level, (28, 6), (28, 11), (28, 16), (28, 19))
    } else if version == 18 {
        level_pick_exec(level, (30, 6), (26, 13), (28, 18), (28, 21))
    } else if version == 19 {
        level_pick_exec(level, (28, 7), (26, 14), (26, 21), (26, 25))
    } else if version == 20 {
        level_pick_exec(level, (28, 8), (26, 16), (30, 20), (28, 25))
    } else if version == 21 {
        level_pick_exec(level, (28, 8), (26, 17), (28, 23), (30, 25))
    } else if version == 22 {
        level_pick_exec(level, (28, 9), (28, 17), (30, 23), (24, 34))
    } else if version == 23 {
        level_pick_exec(level, (30, 9), (28, 18), (30, 25), (30, 30))
    } else if version == 24 {
        level_pick_exec(level, (30, 10), (28, 20), (30, 27), (30, 32))
    } else if version == 25 {
        level_pick_exec(level, (26, 12), (28, 21), (30, 29), (30, 35))
    } else if version == 26 {
        level_pick_exec(level, (28, 12), (28, 23), (28, 34), (30, 37))
    } else if version == 27 {
        level_pick_exec(level, (30, 12), (28, 25), (30, 34), (30, 40))
    } else if version == 28 {
        level_pick_exec(level, (30, 13), (28, 26), (30, 35), (30, 42))
    } else if version == 29 {
        level_pick_exec(level, (30, 14), (28, 28), (30, 38), (30, 45))
    } else if version == 30 {
        level_pick_exec(level, (30, 15), (28, 29), (30, 40), (30, 48))
    } else if version == 31 {
        level_pick_exec(level, (30, 16), (28, 31), (30, 43), (30, 51))
    } else if version == 32 {
        level_pick_exec(level, (30, 17), (28, 33), (30, 45), (30, 54))
    } else if version == 33 {
        level_pick_exec(level, (30, 18), (28, 35), (30, 48), (30, 57))
    } else if version == 34 {
        level_pick_exec(level, (30, 19), (28, 37), (30, 51), (30, 60))
    } else if version == 35 {
        level_pick_exec(level, (30, 19), (28, 38), (30, 53), (30, 63))
    } else if version == 36 {
        level_pick_exec(level, (30, 20), (28, 40), (30, 56), (30, 66))
    } else if version == 37 {
        level_pick_exec(level, (30, 21), (28, 43), (30, 59), (30, 70))
    } else if version == 38 {
        level_pick_exec(level, (30, 22), (28, 45), (30, 62), (30, 74))
    } else if version == 39 {
        level_pick_exec(level, (30, 24), (28, 47), (30, 65), (30, 77))
    } else {
        level_pick_exec(level, (30, 25), (28, 49), (30, 68), (30, 81))
    }
}

} // verus!
