//! Capacity arithmetic, mask predicates and alignment coordinates.
use crate::tables::{ec_entry, ec_table, length_bits, ByteNameOfMode, ErrorLevel, Mask};
use vstd::prelude::*;

verus! {

/// Modules left for codewords in a symbol of the given version: all modules less the
/// finder, alignment, timing, format, version and dark-module areas.
pub open spec fn total_modules(version: int) -> int {
    if version == 1 {
        21 * 21 - 3 * 8 * 8 - 2 * 15 - 1 - 2 * 5
    } else {
        let a = version / 7 + 2;
        let s = version * 4 + 17;
        s * s - 3 * 8 * 8 - (a * a - 3) * 25 - 2 * (version * 4 + 1) + (a - 2) * 10 - 2 * 15 - 1 - (
        if version > 6 {
            2 * 3 * 6
        } else {
            0
        })
    }
}

/// Codewords of a version, data and error correction together.
pub open spec fn total_codewords(version: int) -> int {
    total_modules(version) / 8
}

/// Data codewords of a version and level.
pub open spec fn data_codewords(version: int, level: ErrorLevel) -> int {
    total_codewords(version) - ec_table(version, level).0 * ec_table(version, level).1
}

/// Width of the character-count field of a mode at a version.
pub fn get_len_bit(mode: &ByteNameOfMode, version: u8) -> (r: u8)
    ensures
        r as int == length_bits(*mode, version as int),
{
    let tier: u8 = if version > 26 {
        2
    } else if version > 9 {
        1
    } else {
        0
    };
    match mode {
        ByteNameOfMode::Numeric => 10 + 2 * tier,
        ByteNameOfMode::Alpha => 9 + 2 * tier,
        ByteNameOfMode::Byte => if tier == 0 {
            8
        } else {
            16
        },
        ByteNameOfMode::Kanji => 8 + 2 * tier,
    }
}

/// Modules left for codewords at a version (see `total_modules`).
pub fn get_total_module_data_version(version: u8) -> (r: u16)
    requires
        1 <= version <= 40,
    ensures
        r as int == total_modules(version as int),
{
    proof {
        lemma_table_facts(version as int, ErrorLevel::L);
    }
    if version == 1 {
        return 21 * 21 - 3 * 8 * 8 - 2 * 15 - 1 - 2 * 5;
    }
    let v = version as u32;
    let a: u32 = v / 7 + 2;
    let s: u32 = v * 4 + 17;
    let extra: u32 = if version > 6 {
        2 * 3 * 6
    } else {
        0
    };
    assert(s * s == (version as int * 4 + 17) * (version as int * 4 + 17));
    assert(s * s <= 177 * 177) by (nonlinear_arith)
        requires
            s <= 177,
    ;
    assert(4 <= a * a <= 49) by (nonlinear_arith)
        requires
            2 <= a <= 7,
    ;
    let total: u32 = s * s + (a - 2) * 10 - (3 * 8 * 8 + (a * a - 3) * 25 + 2 * (v * 4 + 1) + 2 * 15 + 1
        + extra);
    total as u16
}

/// Data codewords of a version and level.
pub fn get_codewords_number(version: u8, error_level: &ErrorLevel) -> (r: u32)
    requires
        1 <= version <= 40,
    ensures
        r as int == data_codewords(version as int, *error_level),
{
    proof {
        lemma_table_facts(version as int, *error_level);
    }
    let (per_block, blocks) = ec_entry(version, *error_level);
    (get_total_module_data_version(version) / 8) as u32 - per_block as u32 * blocks as u32
}

/// How many characters fit in the given number of free bits, by mode
/// (byte, numeric, alphanumeric, kanji).
pub open spec fn capacity_spec(bits: int) -> Seq<int> {
    seq![
        bits / 8,
        bits / 10 * 3 + if bits % 10 > 6 {
            2int
        } else if bits % 10 > 3 {
            1int
        } else {
            0int
        },
        bits / 11 * 2 + if bits % 11 > 5 {
            1int
        } else {
            0int
        },
        bits / 13,
    ]
}

/// Characters that fit in a number of free bits, for each mode in the order
/// byte, numeric, alphanumeric, kanji.
pub fn capacity(bits: u32) -> (r: Vec<u32>)
    ensures
        r@.len() == 4,
        forall|i: int| 0 <= i < 4 ==> r@[i] as int == #[trigger] capacity_spec(bits as int)[i],
{
    let numeric_extra: u32 = if bits % 10 > 6 {
        2
    } else if bits % 10 > 3 {
        1
    } else {
        0
    };
    let alpha_extra: u32 = if bits % 11 > 5 {
        1
    } else {
        0
    };
    vec![bits / 8, bits / 10 * 3 + numeric_extra, bits / 11 * 2 + alpha_extra, bits / 13]
}

pub open spec fn mode_slot(mode: ByteNameOfMode) -> int {
    match mode {
        ByteNameOfMode::Byte => 0,
        ByteNameOfMode::Numeric => 1,
        ByteNameOfMode::Alpha => 2,
        ByteNameOfMode::Kanji => 3,
    }
}

/// Bits left for data once the 4-bit mode indicator and the count field are in.
pub open spec fn free_bits(version: int, level: ErrorLevel, mode: ByteNameOfMode) -> int {
    data_codewords(version, level) * 8 - 4 - length_bits(mode, version)
}

/// Characters of the mode that fit at a version and level.
pub open spec fn full_capacity_spec(version: int, level: ErrorLevel, mode: ByteNameOfMode) -> int {
    capacity_spec(free_bits(version, level, mode))[mode_slot(mode)]
}

/// Characters of the given mode that fit at a version and level.
pub fn full_capacity(version: u8, error_level: &ErrorLevel, mode: &ByteNameOfMode) -> (r: u32)
    requires
        1 <= version <= 40,
    ensures
        r as int == full_capacity_spec(version as int, *error_level, *mode),
{
    proof {
        lemma_table_facts(version as int, *error_level);
    }
    let codewords_number = get_codewords_number(version, error_level);
    let free_modules = codewords_number * 8 - 4 - get_len_bit(mode, version) as u32;
    let slot: usize = match mode {
        ByteNameOfMode::Byte => 0,
        ByteNameOfMode::Numeric => 1,
        ByteNameOfMode::Alpha => 2,
        ByteNameOfMode::Kanji => 3,
    };
    let caps = capacity(free_modules);
    caps[slot]
}

/// The mask predicate at (col, row); a data bit is flipped where it holds.
pub open spec fn mask_spec(mask: Mask, col: int, row: int) -> bool {
    match mask {
        Mask::_000 => (col + row) % 2 == 0,
        Mask::_001 => row % 2 == 0,
        Mask::_010 => col % 3 == 0,
        Mask::_011 => (col + row) % 3 == 0,
        Mask::_100 => (col / 3 + row / 2) % 2 == 0,
        Mask::_101 => (row * col) % 2 + (row * col) % 3 == 0,
        Mask::_110 => ((row * col) % 2 + (row * col) % 3) % 2 == 0,
        Mask::_111 => ((row + col) % 2 + (row * col) % 3) % 2 == 0,
    }
}

/// Evaluates the mask predicate at (col, row).
pub fn mask(pattern: Mask, col: u16, row: u16) -> (r: bool)
    ensures
        r == mask_spec(pattern, col as int, row as int),
{
    let c = col as u64;
    let w = row as u64;
    assert(w * c <= 0xffff * 0xffff) by (nonlinear_arith)
        requires
            w <= 0xffff,
            c <= 0xffff,
    ;
    match pattern {
        Mask::_000 => (c + w) % 2 == 0,
        Mask::_001 => w % 2 == 0,
        Mask::_010 => c % 3 == 0,
        Mask::_011 => (c + w) % 3 == 0,
        Mask::_100 => (c / 3 + w / 2) % 2 == 0,
        Mask::_101 => (w * c) % 2 + (w * c) % 3 == 0,
        Mask::_110 => ((w * c) % 2 + (w * c) % 3) % 2 == 0,
        Mask::_111 => ((w + c) % 2 + (w * c) % 3) % 2 == 0,
    }
}

/// A data bit after masking at (col, row).
pub open spec fn masked_bit(m: Mask, col: int, row: int, bit: u8) -> u8 {
    if !mask_spec(m, col, row) {
        bit
    } else if bit == 1 {
        0
    } else {
        1
    }
}

/// Applies the mask to one data bit (0 or 1) at (col, row).
pub fn apply_mask(m: Mask, col: u16, row: u16, bit: u8) -> (r: u8)
    requires
        bit <= 1,
    ensures
        r == masked_bit(m, col as int, row as int, bit),
        r <= 1,
{
    if !mask(m, col, row) {
        bit
    } else if bit == 1 {
        0
    } else {
        1
    }
}

/// Masking a bit twice at the same place gives the bit back.
pub proof fn lemma_mask_involutive(m: Mask, col: int, row: int, bit: u8)
    requires
        bit <= 1,
    ensures
        masked_bit(m, col, row, masked_bit(m, col, row, bit)) == bit,
{
}

/// Facts of the per-version tables that the encoder relies on.
#[verifier::rlimit(60)]
pub proof fn lemma_table_facts(version: int, level: ErrorLevel)
    requires
        1 <= version <= 40,
    ensures
        26 <= total_codewords(version) <= 3706,
        9 <= data_codewords(version, level) <= 2956,
        7 <= ec_table(version, level).0 <= 30,
        1 <= ec_table(version, level).1 <= 81,
        data_codewords(version, level) >= ec_table(version, level).1,
        total_codewords(version) / ec_table(version, level).1 > ec_table(version, level).0,
        total_modules(version) == 8 * total_codewords(version) + crate::tables::remainder_bits(version),
        208 <= total_modules(version) <= 29648,
{
    if version == 1 {
        assert(total_modules(1) == 208) by (nonlinear_arith);
        assert(total_codewords(1) == 26);
        match level {
            ErrorLevel::L => {
                assert(26int / 1 == 26) by (nonlinear_arith);
                assert(ec_table(1, level) == (7int, 1int));
                assert(data_codewords(1, level) == 19) by (nonlinear_arith)
                    requires
                        ec_table(1, level) == (7int, 1int),
                        total_codewords(1) == 26,
                ;
            },
            ErrorLevel::M => {
                assert(26int / 1 == 26) by (nonlinear_arith);
                assert(ec_table(1, level) == (10int, 1int));
                assert(data_codewords(1, level) == 16) by (nonlinear_arith)
                    requires
                        ec_table(1, level) == (10int, 1int),
                        total_codewords(1) == 26,
                ;
            },
            ErrorLevel::Q => {
                assert(26int / 1 == 26) by (nonlinear_arith);
                assert(ec_table(1, level) == (13int, 1int));
                assert(data_codewords(1, level) == 13) by (nonlinear_arith)
                    requires
                        ec_table(1, level) == (13int, 1int),
                        total_codewords(1) == 26,
                ;
            },
            ErrorLevel::H => {
                assert(26int / 1 == 26) by (nonlinear_arith);
                assert(ec_table(1, level) == (17int, 1int));
                assert(data_codewords(1, level) == 9) by (nonlinear_arith)
                    requires
                        ec_table(1, level) == (17int, 1int),
                        total_codewords(1) == 26,
                ;
            },
        }
    } else if version == 2 {
        assert(total_modules(2) == 359) by (nonlinear_arith);
        assert(total_codewords(2) == 44);
        match level {
            ErrorLevel::L => {
                assert(44int / 1 == 44) by (nonlinear_arith);
                assert(ec_table(2, level) == (10int, 1int));
                assert(data_codewords(2, level) == 34) by (nonlinear_arith)
                    requires
                        ec_table(2, level) == (10int, 1int),
                        total_codewords(2) == 44,
                ;
            },
            ErrorLevel::M => {
                assert(44int / 1 == 44) by (nonlinear_arith);
                assert(ec_table(2, level) == (16int, 1int));
                assert(data_codewords(2, level) == 28) by (nonlinear_arith)
                    requires
                        ec_table(2, level) == (16int, 1int),
                        total_codewords(2) == 44,
                ;
            },
            ErrorLevel::Q => {
                assert(44int / 1 == 44) by (nonlinear_arith);
                assert(ec_table(2, level) == (22int, 1int));
                assert(data_codewords(2, level) == 22) by (nonlinear_arith)
                    requires
                        ec_table(2, level) == (22int, 1int),
                        total_codewords(2) == 44,
                ;
            },
            ErrorLevel::H => {
                assert(44int / 1 == 44) by (nonlinear_arith);
                assert(ec_table(2, level) == (28int, 1int));
                assert(data_codewords(2, level) == 16) by (nonlinear_arith)
                    requires
                        ec_table(2, level) == (28int, 1int),
                        total_codewords(2) == 44,
                ;
            },
        }
    } else if version == 3 {
        assert(total_modules(3) == 567) by (nonlinear_arith);
        assert(total_codewords(3) == 70);
        match level {
            ErrorLevel::L => {
                assert(70int / 1 == 70) by (nonlinear_arith);
                assert(ec_table(3, level) == (15int, 1int));
                assert(data_codewords(3, level) == 55) by (nonlinear_arith)
                    requires
                        ec_table(3, level) == (15int, 1int),
                        total_codewords(3) == 70,
                ;
            },
            ErrorLevel::M => {
                assert(70int / 1 == 70) by (nonlinear_arith);
                assert(ec_table(3, level) == (26int, 1int));
                assert(data_codewords(3, level) == 44) by (nonlinear_arith)
                    requires
                        ec_table(3, level) == (26int, 1int),
                        total_codewords(3) == 70,
                ;
            },
            ErrorLevel::Q => {
                assert(70int / 2 == 35) by (nonlinear_arith);
                assert(ec_table(3, level) == (18int, 2int));
                assert(data_codewords(3, level) == 34) by (nonlinear_arith)
                    requires
                        ec_table(3, level) == (18int, 2int),
                        total_codewords(3) == 70,
                ;
            },
            ErrorLevel::H => {
                assert(70int / 2 == 35) by (nonlinear_arith);
                assert(ec_table(3, level) == (22int, 2int));
                assert(data_codewords(3, level) == 26) by (nonlinear_arith)
                    requires
                        ec_table(3, level) == (22int, 2int),
                        total_codewords(3) == 70,
                ;
            },
        }
    } else if version == 4 {
        assert(total_modules(4) == 807) by (nonlinear_arith);
        assert(total_codewords(4) == 100);
        match level {
            ErrorLevel::L => {
                assert(100int / 1 == 100) by (nonlinear_arith);
                assert(ec_table(4, level) == (20int, 1int));
                assert(data_codewords(4, level) == 80) by (nonlinear_arith)
                    requires
                        ec_table(4, level) == (20int, 1int),
                        total_codewords(4) == 100,
                ;
            },
            ErrorLevel::M => {
                assert(100int / 2 == 50) by (nonlinear_arith);
                assert(ec_table(4, level) == (18int, 2int));
                assert(data_codewords(4, level) == 64) by (nonlinear_arith)
                    requires
                        ec_table(4, level) == (18int, 2int),
                        total_codewords(4) == 100,
                ;
            },
            ErrorLevel::Q => {
                assert(100int / 2 == 50) by (nonlinear_arith);
                assert(ec_table(4, level) == (26int, 2int));
                assert(data_codewords(4, level) == 48) by (nonlinear_arith)
                    requires
                        ec_table(4, level) == (26int, 2int),
                        total_codewords(4) == 100,
                ;
            },
            ErrorLevel::H => {
                assert(100int / 4 == 25) by (nonlinear_arith);
                assert(ec_table(4, level) == (16int, 4int));
                assert(data_codewords(4, level) == 36) by (nonlinear_arith)
                    requires
                        ec_table(4, level) == (16int, 4int),
                        total_codewords(4) == 100,
                ;
            },
        }
    } else if version == 5 {
        assert(total_modules(5) == 1079) by (nonlinear_arith);
        assert(total_codewords(5) == 134);
        match level {
            ErrorLevel::L => {
                assert(134int / 1 == 134) by (nonlinear_arith);
                assert(ec_table(5, level) == (26int, 1int));
                assert(data_codewords(5, level) == 108) by (nonlinear_arith)
                    requires
                        ec_table(5, level) == (26int, 1int),
                        total_codewords(5) == 134,
                ;
            },
            ErrorLevel::M => {
                assert(134int / 2 == 67) by (nonlinear_arith);
                assert(ec_table(5, level) == (24int, 2int));
                assert(data_codewords(5, level) == 86) by (nonlinear_arith)
                    requires
                        ec_table(5, level) == (24int, 2int),
                        total_codewords(5) == 134,
                ;
            },
            ErrorLevel::Q => {
                assert(134int / 4 == 33) by (nonlinear_arith);
                assert(ec_table(5, level) == (18int, 4int));
                assert(data_codewords(5, level) == 62) by (nonlinear_arith)
                    requires
                        ec_table(5, level) == (18int, 4int),
                        total_codewords(5) == 134,
                ;
            },
            ErrorLevel::H => {
                assert(134int / 4 == 33) by (nonlinear_arith);
                assert(ec_table(5, level) == (22int, 4int));
                assert(data_codewords(5, level) == 46) by (nonlinear_arith)
                    requires
                        ec_table(5, level) == (22int, 4int),
                        total_codewords(5) == 134,
                ;
            },
        }
    } else if version == 6 {
        assert(total_modules(6) == 1383) by (nonlinear_arith);
        assert(total_codewords(6) == 172);
        match level {
            ErrorLevel::L => {
                assert(172int / 2 == 86) by (nonlinear_arith);
                assert(ec_table(6, level) == (18int, 2int));
                assert(data_codewords(6, level) == 136) by (nonlinear_arith)
                    requires
                        ec_table(6, level) == (18int, 2int),
                        total_codewords(6) == 172,
                ;
            },
            ErrorLevel::M => {
                assert(172int / 4 == 43) by (nonlinear_arith);
                assert(ec_table(6, level) == (16int, 4int));
                assert(data_codewords(6, level) == 108) by (nonlinear_arith)
                    requires
                        ec_table(6, level) == (16int, 4int),
                        total_codewords(6) == 172,
                ;
            },
            ErrorLevel::Q => {
                assert(172int / 4 == 43) by (nonlinear_arith);
                assert(ec_table(6, level) == (24int, 4int));
                assert(data_codewords(6, level) == 76) by (nonlinear_arith)
                    requires
                        ec_table(6, level) == (24int, 4int),
                        total_codewords(6) == 172,
                ;
            },
            ErrorLevel::H => {
                assert(172int / 4 == 43) by (nonlinear_arith);
                assert(ec_table(6, level) == (28int, 4int));
                assert(data_codewords(6, level) == 60) by (nonlinear_arith)
                    requires
                        ec_table(6, level) == (28int, 4int),
                        total_codewords(6) == 172,
                ;
            },
        }
    } else if version == 7 {
        assert(total_modules(7) == 1568) by (nonlinear_arith);
        assert(total_codewords(7) == 196);
        match level {
            ErrorLevel::L => {
                assert(196int / 2 == 98) by (nonlinear_arith);
                assert(ec_table(7, level) == (20int, 2int));
                assert(data_codewords(7, level) == 156) by (nonlinear_arith)
                    requires
                        ec_table(7, level) == (20int, 2int),
                        total_codewords(7) == 196,
                ;
            },
            ErrorLevel::M => {
                assert(196int / 4 == 49) by (nonlinear_arith);
                assert(ec_table(7, level) == (18int, 4int));
                assert(data_codewords(7, level) == 124) by (nonlinear_arith)
                    requires
                        ec_table(7, level) == (18int, 4int),
                        total_codewords(7) == 196,
                ;
            },
            ErrorLevel::Q => {
                assert(196int / 6 == 32) by (nonlinear_arith);
                assert(ec_table(7, level) == (18int, 6int));
                assert(data_codewords(7, level) == 88) by (nonlinear_arith)
                    requires
                        ec_table(7, level) == (18int, 6int),
                        total_codewords(7) == 196,
                ;
            },
            ErrorLevel::H => {
                assert(196int / 5 == 39) by (nonlinear_arith);
                assert(ec_table(7, level) == (26int, 5int));
                assert(data_codewords(7, level) == 66) by (nonlinear_arith)
                    requires
                        ec_table(7, level) == (26int, 5int),
                        total_codewords(7) == 196,
                ;
            },
        }
    } else if version == 8 {
        assert(total_modules(8) == 1936) by (nonlinear_arith);
        assert(total_codewords(8) == 242);
        match level {
            ErrorLevel::L => {
                assert(242int / 2 == 121) by (nonlinear_arith);
                assert(ec_table(8, level) == (24int, 2int));
                assert(data_codewords(8, level) == 194) by (nonlinear_arith)
                    requires
                        ec_table(8, level) == (24int, 2int),
                        total_codewords(8) == 242,
                ;
            },
            ErrorLevel::M => {
                assert(242int / 4 == 60) by (nonlinear_arith);
                assert(ec_table(8, level) == (22int, 4int));
                assert(data_codewords(8, level) == 154) by (nonlinear_arith)
                    requires
                        ec_table(8, level) == (22int, 4int),
                        total_codewords(8) == 242,
                ;
            },
            ErrorLevel::Q => {
                assert(242int / 6 == 40) by (nonlinear_arith);
                assert(ec_table(8, level) == (22int, 6int));
                assert(data_codewords(8, level) == 110) by (nonlinear_arith)
                    requires
                        ec_table(8, level) == (22int, 6int),
                        total_codewords(8) == 242,
                ;
            },
            ErrorLevel::H => {
                assert(242int / 6 == 40) by (nonlinear_arith);
                assert(ec_table(8, level) == (26int, 6int));
                assert(data_codewords(8, level) == 86) by (nonlinear_arith)
                    requires
                        ec_table(8, level) == (26int, 6int),
                        total_codewords(8) == 242,
                ;
            },
        }
    } else if version == 9 {
        assert(total_modules(9) == 2336) by (nonlinear_arith);
        assert(total_codewords(9) == 292);
        match level {
            ErrorLevel::L => {
                assert(292int / 2 == 146) by (nonlinear_arith);
                assert(ec_table(9, level) == (30int, 2int));
                assert(data_codewords(9, level) == 232) by (nonlinear_arith)
                    requires
                        ec_table(9, level) == (30int, 2int),
                        total_codewords(9) == 292,
                ;
            },
            ErrorLevel::M => {
                assert(292int / 5 == 58) by (nonlinear_arith);
                assert(ec_table(9, level) == (22int, 5int));
                assert(data_codewords(9, level) == 182) by (nonlinear_arith)
                    requires
                        ec_table(9, level) == (22int, 5int),
                        total_codewords(9) == 292,
                ;
            },
            ErrorLevel::Q => {
                assert(292int / 8 == 36) by (nonlinear_arith);
                assert(ec_table(9, level) == (20int, 8int));
                assert(data_codewords(9, level) == 132) by (nonlinear_arith)
                    requires
                        ec_table(9, level) == (20int, 8int),
                        total_codewords(9) == 292,
                ;
            },
            ErrorLevel::H => {
                assert(292int / 8 == 36) by (nonlinear_arith);
                assert(ec_table(9, level) == (24int, 8int));
                assert(data_codewords(9, level) == 100) by (nonlinear_arith)
                    requires
                        ec_table(9, level) == (24int, 8int),
                        total_codewords(9) == 292,
                ;
            },
        }
    } else if version == 10 {
        assert(total_modules(10) == 2768) by (nonlinear_arith);
        assert(total_codewords(10) == 346);
        match level {
            ErrorLevel::L => {
                assert(346int / 4 == 86) by (nonlinear_arith);
                assert(ec_table(10, level) == (18int, 4int));
                assert(data_codewords(10, level) == 274) by (nonlinear_arith)
                    requires
                        ec_table(10, level) == (18int, 4int),
                        total_codewords(10) == 346,
                ;
            },
            ErrorLevel::M => {
                assert(346int / 5 == 69) by (nonlinear_arith);
                assert(ec_table(10, level) == (26int, 5int));
                assert(data_codewords(10, level) == 216) by (nonlinear_arith)
                    requires
                        ec_table(10, level) == (26int, 5int),
                        total_codewords(10) == 346,
                ;
            },
            ErrorLevel::Q => {
                assert(346int / 8 == 43) by (nonlinear_arith);
                assert(ec_table(10, level) == (24int, 8int));
                assert(data_codewords(10, level) == 154) by (nonlinear_arith)
                    requires
                        ec_table(10, level) == (24int, 8int),
                        total_codewords(10) == 346,
                ;
            },
            ErrorLevel::H => {
                assert(346int / 8 == 43) by (nonlinear_arith);
                assert(ec_table(10, level) == (28int, 8int));
                assert(data_codewords(10, level) == 122) by (nonlinear_arith)
                    requires
                        ec_table(10, level) == (28int, 8int),
                        total_codewords(10) == 346,
                ;
            },
        }
    } else if version == 11 {
        assert(total_modules(11) == 3232) by (nonlinear_arith);
        assert(total_codewords(11) == 404);
        match level {
            ErrorLevel::L => {
                assert(404int / 4 == 101) by (nonlinear_arith);
                assert(ec_table(11, level) == (20int, 4int));
                assert(data_codewords(11, level) == 324) by (nonlinear_arith)
                    requires
                        ec_table(11, level) == (20int, 4int),
                        total_codewords(11) == 404,
                ;
            },
            ErrorLevel::M => {
                assert(404int / 5 == 80) by (nonlinear_arith);
                assert(ec_table(11, level) == (30int, 5int));
                assert(data_codewords(11, level) == 254) by (nonlinear_arith)
                    requires
                        ec_table(11, level) == (30int, 5int),
                        total_codewords(11) == 404,
                ;
            },
            ErrorLevel::Q => {
                assert(404int / 8 == 50) by (nonlinear_arith);
                assert(ec_table(11, level) == (28int, 8int));
                assert(data_codewords(11, level) == 180) by (nonlinear_arith)
                    requires
                        ec_table(11, level) == (28int, 8int),
                        total_codewords(11) == 404,
                ;
            },
            ErrorLevel::H => {
                assert(404int / 11 == 36) by (nonlinear_arith);
                assert(ec_table(11, level) == (24int, 11int));
                assert(data_codewords(11, level) == 140) by (nonlinear_arith)
                    requires
                        ec_table(11, level) == (24int, 11int),
                        total_codewords(11) == 404,
                ;
            },
        }
    } else if version == 12 {
        assert(total_modules(12) == 3728) by (nonlinear_arith);
        assert(total_codewords(12) == 466);
        match level {
            ErrorLevel::L => {
                assert(466int / 4 == 116) by (nonlinear_arith);
                assert(ec_table(12, level) == (24int, 4int));
                assert(data_codewords(12, level) == 370) by (nonlinear_arith)
                    requires
                        ec_table(12, level) == (24int, 4int),
                        total_codewords(12) == 466,
                ;
            },
            ErrorLevel::M => {
                assert(466int / 8 == 58) by (nonlinear_arith);
                assert(ec_table(12, level) == (22int, 8int));
                assert(data_codewords(12, level) == 290) by (nonlinear_arith)
                    requires
                        ec_table(12, level) == (22int, 8int),
                        total_codewords(12) == 466,
                ;
            },
            ErrorLevel::Q => {
                assert(466int / 10 == 46) by (nonlinear_arith);
                assert(ec_table(12, level) == (26int, 10int));
                assert(data_codewords(12, level) == 206) by (nonlinear_arith)
                    requires
                        ec_table(12, level) == (26int, 10int),
                        total_codewords(12) == 466,
                ;
            },
            ErrorLevel::H => {
                assert(466int / 11 == 42) by (nonlinear_arith);
                assert(ec_table(12, level) == (28int, 11int));
                assert(data_codewords(12, level) == 158) by (nonlinear_arith)
                    requires
                        ec_table(12, level) == (28int, 11int),
                        total_codewords(12) == 466,
                ;
            },
        }
    } else if version == 13 {
        assert(total_modules(13) == 4256) by (nonlinear_arith);
        assert(total_codewords(13) == 532);
        match level {
            ErrorLevel::L => {
                assert(532int / 4 == 133) by (nonlinear_arith);
                assert(ec_table(13, level) == (26int, 4int));
                assert(data_codewords(13, level) == 428) by (nonlinear_arith)
                    requires
                        ec_table(13, level) == (26int, 4int),
                        total_codewords(13) == 532,
                ;
            },
            ErrorLevel::M => {
                assert(532int / 9 == 59) by (nonlinear_arith);
                assert(ec_table(13, level) == (22int, 9int));
                assert(data_codewords(13, level) == 334) by (nonlinear_arith)
                    requires
                        ec_table(13, level) == (22int, 9int),
                        total_codewords(13) == 532,
                ;
            },
            ErrorLevel::Q => {
                assert(532int / 12 == 44) by (nonlinear_arith);
                assert(ec_table(13, level) == (24int, 12int));
                assert(data_codewords(13, level) == 244) by (nonlinear_arith)
                    requires
                        ec_table(13, level) == (24int, 12int),
                        total_codewords(13) == 532,
                ;
            },
            ErrorLevel::H => {
                assert(532int / 16 == 33) by (nonlinear_arith);
                assert(ec_table(13, level) == (22int, 16int));
                assert(data_codewords(13, level) == 180) by (nonlinear_arith)
                    requires
                        ec_table(13, level) == (22int, 16int),
                        total_codewords(13) == 532,
                ;
            },
        }
    } else if version == 14 {
        assert(total_modules(14) == 4651) by (nonlinear_arith);
        assert(total_codewords(14) == 581);
        match level {
            ErrorLevel::L => {
                assert(581int / 4 == 145) by (nonlinear_arith);
                assert(ec_table(14, level) == (30int, 4int));
                assert(data_codewords(14, level) == 461) by (nonlinear_arith)
                    requires
                        ec_table(14, level) == (30int, 4int),
                        total_codewords(14) == 581,
                ;
            },
            ErrorLevel::M => {
                assert(581int / 9 == 64) by (nonlinear_arith);
                assert(ec_table(14, level) == (24int, 9int));
                assert(data_codewords(14, level) == 365) by (nonlinear_arith)
                    requires
                        ec_table(14, level) == (24int, 9int),
                        total_codewords(14) == 581,
                ;
            },
            ErrorLevel::Q => {
                assert(581int / 16 == 36) by (nonlinear_arith);
                assert(ec_table(14, level) == (20int, 16int));
                assert(data_codewords(14, level) == 261) by (nonlinear_arith)
                    requires
                        ec_table(14, level) == (20int, 16int),
                        total_codewords(14) == 581,
                ;
            },
            ErrorLevel::H => {
                assert(581int / 16 == 36) by (nonlinear_arith);
                assert(ec_table(14, level) == (24int, 16int));
                assert(data_codewords(14, level) == 197) by (nonlinear_arith)
                    requires
                        ec_table(14, level) == (24int, 16int),
                        total_codewords(14) == 581,
                ;
            },
        }
    } else if version == 15 {
        assert(total_modules(15) == 5243) by (nonlinear_arith);
        assert(total_codewords(15) == 655);
        match level {
            ErrorLevel::L => {
                assert(655int / 6 == 109) by (nonlinear_arith);
                assert(ec_table(15, level) == (22int, 6int));
                assert(data_codewords(15, level) == 523) by (nonlinear_arith)
                    requires
                        ec_table(15, level) == (22int, 6int),
                        total_codewords(15) == 655,
                ;
            },
            ErrorLevel::M => {
                assert(655int / 10 == 65) by (nonlinear_arith);
                assert(ec_table(15, level) == (24int, 10int));
                assert(data_codewords(15, level) == 415) by (nonlinear_arith)
                    requires
                        ec_table(15, level) == (24int, 10int),
                        total_codewords(15) == 655,
                ;
            },
            ErrorLevel::Q => {
                assert(655int / 12 == 54) by (nonlinear_arith);
                assert(ec_table(15, level) == (30int, 12int));
                assert(data_codewords(15, level) == 295) by (nonlinear_arith)
                    requires
                        ec_table(15, level) == (30int, 12int),
                        total_codewords(15) == 655,
                ;
            },
            ErrorLevel::H => {
                assert(655int / 18 == 36) by (nonlinear_arith);
                assert(ec_table(15, level) == (24int, 18int));
                assert(data_codewords(15, level) == 223) by (nonlinear_arith)
                    requires
                        ec_table(15, level) == (24int, 18int),
                        total_codewords(15) == 655,
                ;
            },
        }
    } else if version == 16 {
        assert(total_modules(16) == 5867) by (nonlinear_arith);
        assert(total_codewords(16) == 733);
        match level {
            ErrorLevel::L => {
                assert(733int / 6 == 122) by (nonlinear_arith);
                assert(ec_table(16, level) == (24int, 6int));
                assert(data_codewords(16, level) == 589) by (nonlinear_arith)
                    requires
                        ec_table(16, level) == (24int, 6int),
                        total_codewords(16) == 733,
                ;
            },
            ErrorLevel::M => {
                assert(733int / 10 == 73) by (nonlinear_arith);
                assert(ec_table(16, level) == (28int, 10int));
                assert(data_codewords(16, level) == 453) by (nonlinear_arith)
                    requires
                        ec_table(16, level) == (28int, 10int),
                        total_codewords(16) == 733,
                ;
            },
            ErrorLevel::Q => {
                assert(733int / 17 == 43) by (nonlinear_arith);
                assert(ec_table(16, level) == (24int, 17int));
                assert(data_codewords(16, level) == 325) by (nonlinear_arith)
                    requires
                        ec_table(16, level) == (24int, 17int),
                        total_codewords(16) == 733,
                ;
            },
            ErrorLevel::H => {
                assert(733int / 16 == 45) by (nonlinear_arith);
                assert(ec_table(16, level) == (30int, 16int));
                assert(data_codewords(16, level) == 253) by (nonlinear_arith)
                    requires
                        ec_table(16, level) == (30int, 16int),
                        total_codewords(16) == 733,
                ;
            },
        }
    } else if version == 17 {
        assert(total_modules(17) == 6523) by (nonlinear_arith);
        assert(total_codewords(17) == 815);
        match level {
            ErrorLevel::L => {
                assert(815int / 6 == 135) by (nonlinear_arith);
                assert(ec_table(17, level) == (28int, 6int));
                assert(data_codewords(17, level) == 647) by (nonlinear_arith)
                    requires
                        ec_table(17, level) == (28int, 6int),
                        total_codewords(17) == 815,
                ;
            },
            ErrorLevel::M => {
                assert(815int / 11 == 74) by (nonlinear_arith);
                assert(ec_table(17, level) == (28int, 11int));
                assert(data_codewords(17, level) == 507) by (nonlinear_arith)
                    requires
                        ec_table(17, level) == (28int, 11int),
                        total_codewords(17) == 815,
                ;
            },
            ErrorLevel::Q => {
                assert(815int / 16 == 50) by (nonlinear_arith);
                assert(ec_table(17, level) == (28int, 16int));
                assert(data_codewords(17, level) == 367) by (nonlinear_arith)
                    requires
                        ec_table(17, level) == (28int, 16int),
                        total_codewords(17) == 815,
                ;
            },
            ErrorLevel::H => {
                assert(815int / 19 == 42) by (nonlinear_arith);
                assert(ec_table(17, level) == (28int, 19int));
                assert(data_codewords(17, level) == 283) by (nonlinear_arith)
                    requires
                        ec_table(17, level) == (28int, 19int),
                        total_codewords(17) == 815,
                ;
            },
        }
    } else if version == 18 {
        assert(total_modules(18) == 7211) by (nonlinear_arith);
        assert(total_codewords(18) == 901);
        match level {
            ErrorLevel::L => {
                assert(901int / 6 == 150) by (nonlinear_arith);
                assert(ec_table(18, level) == (30int, 6int));
                assert(data_codewords(18, level) == 721) by (nonlinear_arith)
                    requires
                        ec_table(18, level) == (30int, 6int),
                        total_codewords(18) == 901,
                ;
            },
            ErrorLevel::M => {
                assert(901int / 13 == 69) by (nonlinear_arith);
                assert(ec_table(18, level) == (26int, 13int));
                assert(data_codewords(18, level) == 563) by (nonlinear_arith)
                    requires
                        ec_table(18, level) == (26int, 13int),
                        total_codewords(18) == 901,
                ;
            },
            ErrorLevel::Q => {
                assert(901int / 18 == 50) by (nonlinear_arith);
                assert(ec_table(18, level) == (28int, 18int));
                assert(data_codewords(18, level) == 397) by (nonlinear_arith)
                    requires
                        ec_table(18, level) == (28int, 18int),
                        total_codewords(18) == 901,
                ;
            },
            ErrorLevel::H => {
                assert(901int / 21 == 42) by (nonlinear_arith);
                assert(ec_table(18, level) == (28int, 21int));
                assert(data_codewords(18, level) == 313) by (nonlinear_arith)
                    requires
                        ec_table(18, level) == (28int, 21int),
                        total_codewords(18) == 901,
                ;
            },
        }
    } else if version == 19 {
        assert(total_modules(19) == 7931) by (nonlinear_arith);
        assert(total_codewords(19) == 991);
        match level {
            ErrorLevel::L => {
                assert(991int / 7 == 141) by (nonlinear_arith);
                assert(ec_table(19, level) == (28int, 7int));
                assert(data_codewords(19, level) == 795) by (nonlinear_arith)
                    requires
                        ec_table(19, level) == (28int, 7int),
                        total_codewords(19) == 991,
                ;
            },
            ErrorLevel::M => {
                assert(991int / 14 == 70) by (nonlinear_arith);
                assert(ec_table(19, level) == (26int, 14int));
                assert(data_codewords(19, level) == 627) by (nonlinear_arith)
                    requires
                        ec_table(19, level) == (26int, 14int),
                        total_codewords(19) == 991,
                ;
            },
            ErrorLevel::Q => {
                assert(991int / 21 == 47) by (nonlinear_arith);
                assert(ec_table(19, level) == (26int, 21int));
                assert(data_codewords(19, level) == 445) by (nonlinear_arith)
                    requires
                        ec_table(19, level) == (26int, 21int),
                        total_codewords(19) == 991,
                ;
            },
            ErrorLevel::H => {
                assert(991int / 25 == 39) by (nonlinear_arith);
                assert(ec_table(19, level) == (26int, 25int));
                assert(data_codewords(19, level) == 341) by (nonlinear_arith)
                    requires
                        ec_table(19, level) == (26int, 25int),
                        total_codewords(19) == 991,
                ;
            },
        }
    } else if version == 20 {
        assert(total_modules(20) == 8683) by (nonlinear_arith);
        assert(total_codewords(20) == 1085);
        match level {
            ErrorLevel::L => {
                assert(1085int / 8 == 135) by (nonlinear_arith);
                assert(ec_table(20, level) == (28int, 8int));
                assert(data_codewords(20, level) == 861) by (nonlinear_arith)
                    requires
                        ec_table(20, level) == (28int, 8int),
                        total_codewords(20) == 1085,
                ;
            },
            ErrorLevel::M => {
                assert(1085int / 16 == 67) by (nonlinear_arith);
                assert(ec_table(20, level) == (26int, 16int));
                assert(data_codewords(20, level) == 669) by (nonlinear_arith)
                    requires
                        ec_table(20, level) == (26int, 16int),
                        total_codewords(20) == 1085,
                ;
            },
            ErrorLevel::Q => {
                assert(1085int / 20 == 54) by (nonlinear_arith);
                assert(ec_table(20, level) == (30int, 20int));
                assert(data_codewords(20, level) == 485) by (nonlinear_arith)
                    requires
                        ec_table(20, level) == (30int, 20int),
                        total_codewords(20) == 1085,
                ;
            },
            ErrorLevel::H => {
                assert(1085int / 25 == 43) by (nonlinear_arith);
                assert(ec_table(20, level) == (28int, 25int));
                assert(data_codewords(20, level) == 385) by (nonlinear_arith)
                    requires
                        ec_table(20, level) == (28int, 25int),
                        total_codewords(20) == 1085,
                ;
            },
        }
    } else if version == 21 {
        assert(total_modules(21) == 9252) by (nonlinear_arith);
        assert(total_codewords(21) == 1156);
        match level {
            ErrorLevel::L => {
                assert(1156int / 8 == 144) by (nonlinear_arith);
                assert(ec_table(21, level) == (28int, 8int));
                assert(data_codewords(21, level) == 932) by (nonlinear_arith)
                    requires
                        ec_table(21, level) == (28int, 8int),
                        total_codewords(21) == 1156,
                ;
            },
            ErrorLevel::M => {
                assert(1156int / 17 == 68) by (nonlinear_arith);
                assert(ec_table(21, level) == (26int, 17int));
                assert(data_codewords(21, level) == 714) by (nonlinear_arith)
                    requires
                        ec_table(21, level) == (26int, 17int),
                        total_codewords(21) == 1156,
                ;
            },
            ErrorLevel::Q => {
                assert(1156int / 23 == 50) by (nonlinear_arith);
                assert(ec_table(21, level) == (28int, 23int));
                assert(data_codewords(21, level) == 512) by (nonlinear_arith)
                    requires
                        ec_table(21, level) == (28int, 23int),
                        total_codewords(21) == 1156,
                ;
            },
            ErrorLevel::H => {
                assert(1156int / 25 == 46) by (nonlinear_arith);
                assert(ec_table(21, level) == (30int, 25int));
                assert(data_codewords(21, level) == 406) by (nonlinear_arith)
                    requires
                        ec_table(21, level) == (30int, 25int),
                        total_codewords(21) == 1156,
                ;
            },
        }
    } else if version == 22 {
        assert(total_modules(22) == 10068) by (nonlinear_arith);
        assert(total_codewords(22) == 1258);
        match level {
            ErrorLevel::L => {
                assert(1258int / 9 == 139) by (nonlinear_arith);
                assert(ec_table(22, level) == (28int, 9int));
                assert(data_codewords(22, level) == 1006) by (nonlinear_arith)
                    requires
                        ec_table(22, level) == (28int, 9int),
                        total_codewords(22) == 1258,
                ;
            },
            ErrorLevel::M => {
                assert(1258int / 17 == 74) by (nonlinear_arith);
                assert(ec_table(22, level) == (28int, 17int));
                assert(data_codewords(22, level) == 782) by (nonlinear_arith)
                    requires
                        ec_table(22, level) == (28int, 17int),
                        total_codewords(22) == 1258,
                ;
            },
            ErrorLevel::Q => {
                assert(1258int / 23 == 54) by (nonlinear_arith);
                assert(ec_table(22, level) == (30int, 23int));
                assert(data_codewords(22, level) == 568) by (nonlinear_arith)
                    requires
                        ec_table(22, level) == (30int, 23int),
                        total_codewords(22) == 1258,
                ;
            },
            ErrorLevel::H => {
                assert(1258int / 34 == 37) by (nonlinear_arith);
                assert(ec_table(22, level) == (24int, 34int));
                assert(data_codewords(22, level) == 442) by (nonlinear_arith)
                    requires
                        ec_table(22, level) == (24int, 34int),
                        total_codewords(22) == 1258,
                ;
            },
        }
    } else if version == 23 {
        assert(total_modules(23) == 10916) by (nonlinear_arith);
        assert(total_codewords(23) == 1364);
        match level {
            ErrorLevel::L => {
                assert(1364int / 9 == 151) by (nonlinear_arith);
                assert(ec_table(23, level) == (30int, 9int));
                assert(data_codewords(23, level) == 1094) by (nonlinear_arith)
                    requires
                        ec_table(23, level) == (30int, 9int),
                        total_codewords(23) == 1364,
                ;
            },
            ErrorLevel::M => {
                assert(1364int / 18 == 75) by (nonlinear_arith);
                assert(ec_table(23, level) == (28int, 18int));
                assert(data_codewords(23, level) == 860) by (nonlinear_arith)
                    requires
                        ec_table(23, level) == (28int, 18int),
                        total_codewords(23) == 1364,
                ;
            },
            ErrorLevel::Q => {
                assert(1364int / 25 == 54) by (nonlinear_arith);
                assert(ec_table(23, level) == (30int, 25int));
                assert(data_codewords(23, level) == 614) by (nonlinear_arith)
                    requires
                        ec_table(23, level) == (30int, 25int),
                        total_codewords(23) == 1364,
                ;
            },
            ErrorLevel::H => {
                assert(1364int / 30 == 45) by (nonlinear_arith);
                assert(ec_table(23, level) == (30int, 30int));
                assert(data_codewords(23, level) == 464) by (nonlinear_arith)
                    requires
                        ec_table(23, level) == (30int, 30int),
                        total_codewords(23) == 1364,
                ;
            },
        }
    } else if version == 24 {
        assert(total_modules(24) == 11796) by (nonlinear_arith);
        assert(total_codewords(24) == 1474);
        match level {
            ErrorLevel::L => {
                assert(1474int / 10 == 147) by (nonlinear_arith);
                assert(ec_table(24, level) == (30int, 10int));
                assert(data_codewords(24, level) == 1174) by (nonlinear_arith)
                    requires
                        ec_table(24, level) == (30int, 10int),
                        total_codewords(24) == 1474,
                ;
            },
            ErrorLevel::M => {
                assert(1474int / 20 == 73) by (nonlinear_arith);
                assert(ec_table(24, level) == (28int, 20int));
                assert(data_codewords(24, level) == 914) by (nonlinear_arith)
                    requires
                        ec_table(24, level) == (28int, 20int),
                        total_codewords(24) == 1474,
                ;
            },
            ErrorLevel::Q => {
                assert(1474int / 27 == 54) by (nonlinear_arith);
                assert(ec_table(24, level) == (30int, 27int));
                assert(data_codewords(24, level) == 664) by (nonlinear_arith)
                    requires
                        ec_table(24, level) == (30int, 27int),
                        total_codewords(24) == 1474,
                ;
            },
            ErrorLevel::H => {
                assert(1474int / 32 == 46) by (nonlinear_arith);
                assert(ec_table(24, level) == (30int, 32int));
                assert(data_codewords(24, level) == 514) by (nonlinear_arith)
                    requires
                        ec_table(24, level) == (30int, 32int),
                        total_codewords(24) == 1474,
                ;
            },
        }
    } else if version == 25 {
        assert(total_modules(25) == 12708) by (nonlinear_arith);
        assert(total_codewords(25) == 1588);
        match level {
            ErrorLevel::L => {
                assert(1588int / 12 == 132) by (nonlinear_arith);
                assert(ec_table(25, level) == (26int, 12int));
                assert(data_codewords(25, level) == 1276) by (nonlinear_arith)
                    requires
                        ec_table(25, level) == (26int, 12int),
                        total_codewords(25) == 1588,
                ;
            },
            ErrorLevel::M => {
                assert(1588int / 21 == 75) by (nonlinear_arith);
                assert(ec_table(25, level) == (28int, 21int));
                assert(data_codewords(25, level) == 1000) by (nonlinear_arith)
                    requires
                        ec_table(25, level) == (28int, 21int),
                        total_codewords(25) == 1588,
                ;
            },
            ErrorLevel::Q => {
                assert(1588int / 29 == 54) by (nonlinear_arith);
                assert(ec_table(25, level) == (30int, 29int));
                assert(data_codewords(25, level) == 718) by (nonlinear_arith)
                    requires
                        ec_table(25, level) == (30int, 29int),
                        total_codewords(25) == 1588,
                ;
            },
            ErrorLevel::H => {
                assert(1588int / 35 == 45) by (nonlinear_arith);
                assert(ec_table(25, level) == (30int, 35int));
                assert(data_codewords(25, level) == 538) by (nonlinear_arith)
                    requires
                        ec_table(25, level) == (30int, 35int),
                        total_codewords(25) == 1588,
                ;
            },
        }
    } else if version == 26 {
        assert(total_modules(26) == 13652) by (nonlinear_arith);
        assert(total_codewords(26) == 1706);
        match level {
            ErrorLevel::L => {
                assert(1706int / 12 == 142) by (nonlinear_arith);
                assert(ec_table(26, level) == (28int, 12int));
                assert(data_codewords(26, level) == 1370) by (nonlinear_arith)
                    requires
                        ec_table(26, level) == (28int, 12int),
                        total_codewords(26) == 1706,
                ;
            },
            ErrorLevel::M => {
                assert(1706int / 23 == 74) by (nonlinear_arith);
                assert(ec_table(26, level) == (28int, 23int));
                assert(data_codewords(26, level) == 1062) by (nonlinear_arith)
                    requires
                        ec_table(26, level) == (28int, 23int),
                        total_codewords(26) == 1706,
                ;
            },
            ErrorLevel::Q => {
                assert(1706int / 34 == 50) by (nonlinear_arith);
                assert(ec_table(26, level) == (28int, 34int));
                assert(data_codewords(26, level) == 754) by (nonlinear_arith)
                    requires
                        ec_table(26, level) == (28int, 34int),
                        total_codewords(26) == 1706,
                ;
            },
            ErrorLevel::H => {
                assert(1706int / 37 == 46) by (nonlinear_arith);
                assert(ec_table(26, level) == (30int, 37int));
                assert(data_codewords(26, level) == 596) by (nonlinear_arith)
                    requires
                        ec_table(26, level) == (30int, 37int),
                        total_codewords(26) == 1706,
                ;
            },
        }
    } else if version == 27 {
        assert(total_modules(27) == 14628) by (nonlinear_arith);
        assert(total_codewords(27) == 1828);
        match level {
            ErrorLevel::L => {
                assert(1828int / 12 == 152) by (nonlinear_arith);
                assert(ec_table(27, level) == (30int, 12int));
                assert(data_codewords(27, level) == 1468) by (nonlinear_arith)
                    requires
                        ec_table(27, level) == (30int, 12int),
                        total_codewords(27) == 1828,
                ;
            },
            ErrorLevel::M => {
                assert(1828int / 25 == 73) by (nonlinear_arith);
                assert(ec_table(27, level) == (28int, 25int));
                assert(data_codewords(27, level) == 1128) by (nonlinear_arith)
                    requires
                        ec_table(27, level) == (28int, 25int),
                        total_codewords(27) == 1828,
                ;
            },
            ErrorLevel::Q => {
                assert(1828int / 34 == 53) by (nonlinear_arith);
                assert(ec_table(27, level) == (30int, 34int));
                assert(data_codewords(27, level) == 808) by (nonlinear_arith)
                    requires
                        ec_table(27, level) == (30int, 34int),
                        total_codewords(27) == 1828,
                ;
            },
            ErrorLevel::H => {
                assert(1828int / 40 == 45) by (nonlinear_arith);
                assert(ec_table(27, level) == (30int, 40int));
                assert(data_codewords(27, level) == 628) by (nonlinear_arith)
                    requires
                        ec_table(27, level) == (30int, 40int),
                        total_codewords(27) == 1828,
                ;
            },
        }
    } else if version == 28 {
        assert(total_modules(28) == 15371) by (nonlinear_arith);
        assert(total_codewords(28) == 1921);
        match level {
            ErrorLevel::L => {
                assert(1921int / 13 == 147) by (nonlinear_arith);
                assert(ec_table(28, level) == (30int, 13int));
                assert(data_codewords(28, level) == 1531) by (nonlinear_arith)
                    requires
                        ec_table(28, level) == (30int, 13int),
                        total_codewords(28) == 1921,
                ;
            },
            ErrorLevel::M => {
                assert(1921int / 26 == 73) by (nonlinear_arith);
                assert(ec_table(28, level) == (28int, 26int));
                assert(data_codewords(28, level) == 1193) by (nonlinear_arith)
                    requires
                        ec_table(28, level) == (28int, 26int),
                        total_codewords(28) == 1921,
                ;
            },
            ErrorLevel::Q => {
                assert(1921int / 35 == 54) by (nonlinear_arith);
                assert(ec_table(28, level) == (30int, 35int));
                assert(data_codewords(28, level) == 871) by (nonlinear_arith)
                    requires
                        ec_table(28, level) == (30int, 35int),
                        total_codewords(28) == 1921,
                ;
            },
            ErrorLevel::H => {
                assert(1921int / 42 == 45) by (nonlinear_arith);
                assert(ec_table(28, level) == (30int, 42int));
                assert(data_codewords(28, level) == 661) by (nonlinear_arith)
                    requires
                        ec_table(28, level) == (30int, 42int),
                        total_codewords(28) == 1921,
                ;
            },
        }
    } else if version == 29 {
        assert(total_modules(29) == 16411) by (nonlinear_arith);
        assert(total_codewords(29) == 2051);
        match level {
            ErrorLevel::L => {
                assert(2051int / 14 == 146) by (nonlinear_arith);
                assert(ec_table(29, level) == (30int, 14int));
                assert(data_codewords(29, level) == 1631) by (nonlinear_arith)
                    requires
                        ec_table(29, level) == (30int, 14int),
                        total_codewords(29) == 2051,
                ;
            },
            ErrorLevel::M => {
                assert(2051int / 28 == 73) by (nonlinear_arith);
                assert(ec_table(29, level) == (28int, 28int));
                assert(data_codewords(29, level) == 1267) by (nonlinear_arith)
                    requires
                        ec_table(29, level) == (28int, 28int),
                        total_codewords(29) == 2051,
                ;
            },
            ErrorLevel::Q => {
                assert(2051int / 38 == 53) by (nonlinear_arith);
                assert(ec_table(29, level) == (30int, 38int));
                assert(data_codewords(29, level) == 911) by (nonlinear_arith)
                    requires
                        ec_table(29, level) == (30int, 38int),
                        total_codewords(29) == 2051,
                ;
            },
            ErrorLevel::H => {
                assert(2051int / 45 == 45) by (nonlinear_arith);
                assert(ec_table(29, level) == (30int, 45int));
                assert(data_codewords(29, level) == 701) by (nonlinear_arith)
                    requires
                        ec_table(29, level) == (30int, 45int),
                        total_codewords(29) == 2051,
                ;
            },
        }
    } else if version == 30 {
        assert(total_modules(30) == 17483) by (nonlinear_arith);
        assert(total_codewords(30) == 2185);
        match level {
            ErrorLevel::L => {
                assert(2185int / 15 == 145) by (nonlinear_arith);
                assert(ec_table(30, level) == (30int, 15int));
                assert(data_codewords(30, level) == 1735) by (nonlinear_arith)
                    requires
                        ec_table(30, level) == (30int, 15int),
                        total_codewords(30) == 2185,
                ;
            },
            ErrorLevel::M => {
                assert(2185int / 29 == 75) by (nonlinear_arith);
                assert(ec_table(30, level) == (28int, 29int));
                assert(data_codewords(30, level) == 1373) by (nonlinear_arith)
                    requires
                        ec_table(30, level) == (28int, 29int),
                        total_codewords(30) == 2185,
                ;
            },
            ErrorLevel::Q => {
                assert(2185int / 40 == 54) by (nonlinear_arith);
                assert(ec_table(30, level) == (30int, 40int));
                assert(data_codewords(30, level) == 985) by (nonlinear_arith)
                    requires
                        ec_table(30, level) == (30int, 40int),
                        total_codewords(30) == 2185,
                ;
            },
            ErrorLevel::H => {
                assert(2185int / 48 == 45) by (nonlinear_arith);
                assert(ec_table(30, level) == (30int, 48int));
                assert(data_codewords(30, level) == 745) by (nonlinear_arith)
                    requires
                        ec_table(30, level) == (30int, 48int),
                        total_codewords(30) == 2185,
                ;
            },
        }
    } else if version == 31 {
        assert(total_modules(31) == 18587) by (nonlinear_arith);
        assert(total_codewords(31) == 2323);
        match level {
            ErrorLevel::L => {
                assert(2323int / 16 == 145) by (nonlinear_arith);
                assert(ec_table(31, level) == (30int, 16int));
                assert(data_codewords(31, level) == 1843) by (nonlinear_arith)
                    requires
                        ec_table(31, level) == (30int, 16int),
                        total_codewords(31) == 2323,
                ;
            },
            ErrorLevel::M => {
                assert(2323int / 31 == 74) by (nonlinear_arith);
                assert(ec_table(31, level) == (28int, 31int));
                assert(data_codewords(31, level) == 1455) by (nonlinear_arith)
                    requires
                        ec_table(31, level) == (28int, 31int),
                        total_codewords(31) == 2323,
                ;
            },
            ErrorLevel::Q => {
                assert(2323int / 43 == 54) by (nonlinear_arith);
                assert(ec_table(31, level) == (30int, 43int));
                assert(data_codewords(31, level) == 1033) by (nonlinear_arith)
                    requires
                        ec_table(31, level) == (30int, 43int),
                        total_codewords(31) == 2323,
                ;
            },
            ErrorLevel::H => {
                assert(2323int / 51 == 45) by (nonlinear_arith);
                assert(ec_table(31, level) == (30int, 51int));
                assert(data_codewords(31, level) == 793) by (nonlinear_arith)
                    requires
                        ec_table(31, level) == (30int, 51int),
                        total_codewords(31) == 2323,
                ;
            },
        }
    } else if version == 32 {
        assert(total_modules(32) == 19723) by (nonlinear_arith);
        assert(total_codewords(32) == 2465);
        match level {
            ErrorLevel::L => {
                assert(2465int / 17 == 145) by (nonlinear_arith);
                assert(ec_table(32, level) == (30int, 17int));
                assert(data_codewords(32, level) == 1955) by (nonlinear_arith)
                    requires
                        ec_table(32, level) == (30int, 17int),
                        total_codewords(32) == 2465,
                ;
            },
            ErrorLevel::M => {
                assert(2465int / 33 == 74) by (nonlinear_arith);
                assert(ec_table(32, level) == (28int, 33int));
                assert(data_codewords(32, level) == 1541) by (nonlinear_arith)
                    requires
                        ec_table(32, level) == (28int, 33int),
                        total_codewords(32) == 2465,
                ;
            },
            ErrorLevel::Q => {
                assert(2465int / 45 == 54) by (nonlinear_arith);
                assert(ec_table(32, level) == (30int, 45int));
                assert(data_codewords(32, level) == 1115) by (nonlinear_arith)
                    requires
                        ec_table(32, level) == (30int, 45int),
                        total_codewords(32) == 2465,
                ;
            },
            ErrorLevel::H => {
                assert(2465int / 54 == 45) by (nonlinear_arith);
                assert(ec_table(32, level) == (30int, 54int));
                assert(data_codewords(32, level) == 845) by (nonlinear_arith)
                    requires
                        ec_table(32, level) == (30int, 54int),
                        total_codewords(32) == 2465,
                ;
            },
        }
    } else if version == 33 {
        assert(total_modules(33) == 20891) by (nonlinear_arith);
        assert(total_codewords(33) == 2611);
        match level {
            ErrorLevel::L => {
                assert(2611int / 18 == 145) by (nonlinear_arith);
                assert(ec_table(33, level) == (30int, 18int));
                assert(data_codewords(33, level) == 2071) by (nonlinear_arith)
                    requires
                        ec_table(33, level) == (30int, 18int),
                        total_codewords(33) == 2611,
                ;
            },
            ErrorLevel::M => {
                assert(2611int / 35 == 74) by (nonlinear_arith);
                assert(ec_table(33, level) == (28int, 35int));
                assert(data_codewords(33, level) == 1631) by (nonlinear_arith)
                    requires
                        ec_table(33, level) == (28int, 35int),
                        total_codewords(33) == 2611,
                ;
            },
            ErrorLevel::Q => {
                assert(2611int / 48 == 54) by (nonlinear_arith);
                assert(ec_table(33, level) == (30int, 48int));
                assert(data_codewords(33, level) == 1171) by (nonlinear_arith)
                    requires
                        ec_table(33, level) == (30int, 48int),
                        total_codewords(33) == 2611,
                ;
            },
            ErrorLevel::H => {
                assert(2611int / 57 == 45) by (nonlinear_arith);
                assert(ec_table(33, level) == (30int, 57int));
                assert(data_codewords(33, level) == 901) by (nonlinear_arith)
                    requires
                        ec_table(33, level) == (30int, 57int),
                        total_codewords(33) == 2611,
                ;
            },
        }
    } else if version == 34 {
        assert(total_modules(34) == 22091) by (nonlinear_arith);
        assert(total_codewords(34) == 2761);
        match level {
            ErrorLevel::L => {
                assert(2761int / 19 == 145) by (nonlinear_arith);
                assert(ec_table(34, level) == (30int, 19int));
                assert(data_codewords(34, level) == 2191) by (nonlinear_arith)
                    requires
                        ec_table(34, level) == (30int, 19int),
                        total_codewords(34) == 2761,
                ;
            },
            ErrorLevel::M => {
                assert(2761int / 37 == 74) by (nonlinear_arith);
                assert(ec_table(34, level) == (28int, 37int));
                assert(data_codewords(34, level) == 1725) by (nonlinear_arith)
                    requires
                        ec_table(34, level) == (28int, 37int),
                        total_codewords(34) == 2761,
                ;
            },
            ErrorLevel::Q => {
                assert(2761int / 51 == 54) by (nonlinear_arith);
                assert(ec_table(34, level) == (30int, 51int));
                assert(data_codewords(34, level) == 1231) by (nonlinear_arith)
                    requires
                        ec_table(34, level) == (30int, 51int),
                        total_codewords(34) == 2761,
                ;
            },
            ErrorLevel::H => {
                assert(2761int / 60 == 46) by (nonlinear_arith);
                assert(ec_table(34, level) == (30int, 60int));
                assert(data_codewords(34, level) == 961) by (nonlinear_arith)
                    requires
                        ec_table(34, level) == (30int, 60int),
                        total_codewords(34) == 2761,
                ;
            },
        }
    } else if version == 35 {
        assert(total_modules(35) == 23008) by (nonlinear_arith);
        assert(total_codewords(35) == 2876);
        match level {
            ErrorLevel::L => {
                assert(2876int / 19 == 151) by (nonlinear_arith);
                assert(ec_table(35, level) == (30int, 19int));
                assert(data_codewords(35, level) == 2306) by (nonlinear_arith)
                    requires
                        ec_table(35, level) == (30int, 19int),
                        total_codewords(35) == 2876,
                ;
            },
            ErrorLevel::M => {
                assert(2876int / 38 == 75) by (nonlinear_arith);
                assert(ec_table(35, level) == (28int, 38int));
                assert(data_codewords(35, level) == 1812) by (nonlinear_arith)
                    requires
                        ec_table(35, level) == (28int, 38int),
                        total_codewords(35) == 2876,
                ;
            },
            ErrorLevel::Q => {
                assert(2876int / 53 == 54) by (nonlinear_arith);
                assert(ec_table(35, level) == (30int, 53int));
                assert(data_codewords(35, level) == 1286) by (nonlinear_arith)
                    requires
                        ec_table(35, level) == (30int, 53int),
                        total_codewords(35) == 2876,
                ;
            },
            ErrorLevel::H => {
                assert(2876int / 63 == 45) by (nonlinear_arith);
                assert(ec_table(35, level) == (30int, 63int));
                assert(data_codewords(35, level) == 986) by (nonlinear_arith)
                    requires
                        ec_table(35, level) == (30int, 63int),
                        total_codewords(35) == 2876,
                ;
            },
        }
    } else if version == 36 {
        assert(total_modules(36) == 24272) by (nonlinear_arith);
        assert(total_codewords(36) == 3034);
        match level {
            ErrorLevel::L => {
                assert(3034int / 20 == 151) by (nonlinear_arith);
                assert(ec_table(36, level) == (30int, 20int));
                assert(data_codewords(36, level) == 2434) by (nonlinear_arith)
                    requires
                        ec_table(36, level) == (30int, 20int),
                        total_codewords(36) == 3034,
                ;
            },
            ErrorLevel::M => {
                assert(3034int / 40 == 75) by (nonlinear_arith);
                assert(ec_table(36, level) == (28int, 40int));
                assert(data_codewords(36, level) == 1914) by (nonlinear_arith)
                    requires
                        ec_table(36, level) == (28int, 40int),
                        total_codewords(36) == 3034,
                ;
            },
            ErrorLevel::Q => {
                assert(3034int / 56 == 54) by (nonlinear_arith);
                assert(ec_table(36, level) == (30int, 56int));
                assert(data_codewords(36, level) == 1354) by (nonlinear_arith)
                    requires
                        ec_table(36, level) == (30int, 56int),
                        total_codewords(36) == 3034,
                ;
            },
            ErrorLevel::H => {
                assert(3034int / 66 == 45) by (nonlinear_arith);
                assert(ec_table(36, level) == (30int, 66int));
                assert(data_codewords(36, level) == 1054) by (nonlinear_arith)
                    requires
                        ec_table(36, level) == (30int, 66int),
                        total_codewords(36) == 3034,
                ;
            },
        }
    } else if version == 37 {
        assert(total_modules(37) == 25568) by (nonlinear_arith);
        assert(total_codewords(37) == 3196);
        match level {
            ErrorLevel::L => {
                assert(3196int / 21 == 152) by (nonlinear_arith);
                assert(ec_table(37, level) == (30int, 21int));
                assert(data_codewords(37, level) == 2566) by (nonlinear_arith)
                    requires
                        ec_table(37, level) == (30int, 21int),
                        total_codewords(37) == 3196,
                ;
            },
            ErrorLevel::M => {
                assert(3196int / 43 == 74) by (nonlinear_arith);
                assert(ec_table(37, level) == (28int, 43int));
                assert(data_codewords(37, level) == 1992) by (nonlinear_arith)
                    requires
                        ec_table(37, level) == (28int, 43int),
                        total_codewords(37) == 3196,
                ;
            },
            ErrorLevel::Q => {
                assert(3196int / 59 == 54) by (nonlinear_arith);
                assert(ec_table(37, level) == (30int, 59int));
                assert(data_codewords(37, level) == 1426) by (nonlinear_arith)
                    requires
                        ec_table(37, level) == (30int, 59int),
                        total_codewords(37) == 3196,
                ;
            },
            ErrorLevel::H => {
                assert(3196int / 70 == 45) by (nonlinear_arith);
                assert(ec_table(37, level) == (30int, 70int));
                assert(data_codewords(37, level) == 1096) by (nonlinear_arith)
                    requires
                        ec_table(37, level) == (30int, 70int),
                        total_codewords(37) == 3196,
                ;
            },
        }
    } else if version == 38 {
        assert(total_modules(38) == 26896) by (nonlinear_arith);
        assert(total_codewords(38) == 3362);
        match level {
            ErrorLevel::L => {
                assert(3362int / 22 == 152) by (nonlinear_arith);
                assert(ec_table(38, level) == (30int, 22int));
                assert(data_codewords(38, level) == 2702) by (nonlinear_arith)
                    requires
                        ec_table(38, level) == (30int, 22int),
                        total_codewords(38) == 3362,
                ;
            },
            ErrorLevel::M => {
                assert(3362int / 45 == 74) by (nonlinear_arith);
                assert(ec_table(38, level) == (28int, 45int));
                assert(data_codewords(38, level) == 2102) by (nonlinear_arith)
                    requires
                        ec_table(38, level) == (28int, 45int),
                        total_codewords(38) == 3362,
                ;
            },
            ErrorLevel::Q => {
                assert(3362int / 62 == 54) by (nonlinear_arith);
                assert(ec_table(38, level) == (30int, 62int));
                assert(data_codewords(38, level) == 1502) by (nonlinear_arith)
                    requires
                        ec_table(38, level) == (30int, 62int),
                        total_codewords(38) == 3362,
                ;
            },
            ErrorLevel::H => {
                assert(3362int / 74 == 45) by (nonlinear_arith);
                assert(ec_table(38, level) == (30int, 74int));
                assert(data_codewords(38, level) == 1142) by (nonlinear_arith)
                    requires
                        ec_table(38, level) == (30int, 74int),
                        total_codewords(38) == 3362,
                ;
            },
        }
    } else if version == 39 {
        assert(total_modules(39) == 28256) by (nonlinear_arith);
        assert(total_codewords(39) == 3532);
        match level {
            ErrorLevel::L => {
                assert(3532int / 24 == 147) by (nonlinear_arith);
                assert(ec_table(39, level) == (30int, 24int));
                assert(data_codewords(39, level) == 2812) by (nonlinear_arith)
                    requires
                        ec_table(39, level) == (30int, 24int),
                        total_codewords(39) == 3532,
                ;
            },
            ErrorLevel::M => {
                assert(3532int / 47 == 75) by (nonlinear_arith);
                assert(ec_table(39, level) == (28int, 47int));
                assert(data_codewords(39, level) == 2216) by (nonlinear_arith)
                    requires
                        ec_table(39, level) == (28int, 47int),
                        total_codewords(39) == 3532,
                ;
            },
            ErrorLevel::Q => {
                assert(3532int / 65 == 54) by (nonlinear_arith);
                assert(ec_table(39, level) == (30int, 65int));
                assert(data_codewords(39, level) == 1582) by (nonlinear_arith)
                    requires
                        ec_table(39, level) == (30int, 65int),
                        total_codewords(39) == 3532,
                ;
            },
            ErrorLevel::H => {
                assert(3532int / 77 == 45) by (nonlinear_arith);
                assert(ec_table(39, level) == (30int, 77int));
                assert(data_codewords(39, level) == 1222) by (nonlinear_arith)
                    requires
                        ec_table(39, level) == (30int, 77int),
                        total_codewords(39) == 3532,
                ;
            },
        }
    } else if version == 40 {
        assert(total_modules(40) == 29648) by (nonlinear_arith);
        assert(total_codewords(40) == 3706);
        match level {
            ErrorLevel::L => {
                assert(3706int / 25 == 148) by (nonlinear_arith);
                assert(ec_table(40, level) == (30int, 25int));
                assert(data_codewords(40, level) == 2956) by (nonlinear_arith)
                    requires
                        ec_table(40, level) == (30int, 25int),
                        total_codewords(40) == 3706,
                ;
            },
            ErrorLevel::M => {
                assert(3706int / 49 == 75) by (nonlinear_arith);
                assert(ec_table(40, level) == (28int, 49int));
                assert(data_codewords(40, level) == 2334) by (nonlinear_arith)
                    requires
                        ec_table(40, level) == (28int, 49int),
                        total_codewords(40) == 3706,
                ;
            },
            ErrorLevel::Q => {
                assert(3706int / 68 == 54) by (nonlinear_arith);
                assert(ec_table(40, level) == (30int, 68int));
                assert(data_codewords(40, level) == 1666) by (nonlinear_arith)
                    requires
                        ec_table(40, level) == (30int, 68int),
                        total_codewords(40) == 3706,
                ;
            },
            ErrorLevel::H => {
                assert(3706int / 81 == 45) by (nonlinear_arith);
                assert(ec_table(40, level) == (30int, 81int));
                assert(data_codewords(40, level) == 1276) by (nonlinear_arith)
                    requires
                        ec_table(40, level) == (30int, 81int),
                        total_codewords(40) == 3706,
                ;
            },
        }
    }
}

/// Gap count and spacing of alignment coordinates stay within the symbol.
#[verifier::rlimit(60)]
pub proof fn lemma_alignment_facts(version: int)
    requires
        2 <= version <= 40,
    ensures
        1 <= alignment_count(version) <= 6,
        12 <= alignment_step(version) <= 28,
        (alignment_count(version) - 1) * alignment_step(version) <= 4 * version + 4,
        alignment_count(version) == 1 || (alignment_count(version) - 1) * alignment_step(version) <= 4
            * version,
{
    if version == 2 {
        assert(alignment_count(2) == 1) by (nonlinear_arith);
        assert(alignment_step(2) == 12) by (nonlinear_arith);
        assert((alignment_count(2) - 1) * alignment_step(2) == 0) by (nonlinear_arith)
            requires
                alignment_count(2) == 1,
                alignment_step(2) == 12,
        ;
    } else if version == 3 {
        assert(alignment_count(3) == 1) by (nonlinear_arith);
        assert(alignment_step(3) == 16) by (nonlinear_arith);
        assert((alignment_count(3) - 1) * alignment_step(3) == 0) by (nonlinear_arith)
            requires
                alignment_count(3) == 1,
                alignment_step(3) == 16,
        ;
    } else if version == 4 {
        assert(alignment_count(4) == 1) by (nonlinear_arith);
        assert(alignment_step(4) == 20) by (nonlinear_arith);
        assert((alignment_count(4) - 1) * alignment_step(4) == 0) by (nonlinear_arith)
            requires
                alignment_count(4) == 1,
                alignment_step(4) == 20,
        ;
    } else if version == 5 {
        assert(alignment_count(5) == 1) by (nonlinear_arith);
        assert(alignment_step(5) == 24) by (nonlinear_arith);
        assert((alignment_count(5) - 1) * alignment_step(5) == 0) by (nonlinear_arith)
            requires
                alignment_count(5) == 1,
                alignment_step(5) == 24,
        ;
    } else if version == 6 {
        assert(alignment_count(6) == 1) by (nonlinear_arith);
        assert(alignment_step(6) == 28) by (nonlinear_arith);
        assert((alignment_count(6) - 1) * alignment_step(6) == 0) by (nonlinear_arith)
            requires
                alignment_count(6) == 1,
                alignment_step(6) == 28,
        ;
    } else if version == 7 {
        assert(alignment_count(7) == 2) by (nonlinear_arith);
        assert(alignment_step(7) == 16) by (nonlinear_arith);
        assert((alignment_count(7) - 1) * alignment_step(7) == 16) by (nonlinear_arith)
            requires
                alignment_count(7) == 2,
                alignment_step(7) == 16,
        ;
    } else if version == 8 {
        assert(alignment_count(8) == 2) by (nonlinear_arith);
        assert(alignment_step(8) == 18) by (nonlinear_arith);
        assert((alignment_count(8) - 1) * alignment_step(8) == 18) by (nonlinear_arith)
            requires
                alignment_count(8) == 2,
                alignment_step(8) == 18,
        ;
    } else if version == 9 {
        assert(alignment_count(9) == 2) by (nonlinear_arith);
        assert(alignment_step(9) == 20) by (nonlinear_arith);
        assert((alignment_count(9) - 1) * alignment_step(9) == 20) by (nonlinear_arith)
            requires
                alignment_count(9) == 2,
                alignment_step(9) == 20,
        ;
    } else if version == 10 {
        assert(alignment_count(10) == 2) by (nonlinear_arith);
        assert(alignment_step(10) == 22) by (nonlinear_arith);
        assert((alignment_count(10) - 1) * alignment_step(10) == 22) by (nonlinear_arith)
            requires
                alignment_count(10) == 2,
                alignment_step(10) == 22,
        ;
    } else if version == 11 {
        assert(alignment_count(11) == 2) by (nonlinear_arith);
        assert(alignment_step(11) == 24) by (nonlinear_arith);
        assert((alignment_count(11) - 1) * alignment_step(11) == 24) by (nonlinear_arith)
            requires
                alignment_count(11) == 2,
                alignment_step(11) == 24,
        ;
    } else if version == 12 {
        assert(alignment_count(12) == 2) by (nonlinear_arith);
        assert(alignment_step(12) == 26) by (nonlinear_arith);
        assert((alignment_count(12) - 1) * alignment_step(12) == 26) by (nonlinear_arith)
            requires
                alignment_count(12) == 2,
                alignment_step(12) == 26,
        ;
    } else if version == 13 {
        assert(alignment_count(13) == 2) by (nonlinear_arith);
        assert(alignment_step(13) == 28) by (nonlinear_arith);
        assert((alignment_count(13) - 1) * alignment_step(13) == 28) by (nonlinear_arith)
            requires
                alignment_count(13) == 2,
                alignment_step(13) == 28,
        ;
    } else if version == 14 {
        assert(alignment_count(14) == 3) by (nonlinear_arith);
        assert(alignment_step(14) == 20) by (nonlinear_arith);
        assert((alignment_count(14) - 1) * alignment_step(14) == 40) by (nonlinear_arith)
            requires
                alignment_count(14) == 3,
                alignment_step(14) == 20,
        ;
    } else if version == 15 {
        assert(alignment_count(15) == 3) by (nonlinear_arith);
        assert(alignment_step(15) == 22) by (nonlinear_arith);
        assert((alignment_count(15) - 1) * alignment_step(15) == 44) by (nonlinear_arith)
            requires
                alignment_count(15) == 3,
                alignment_step(15) == 22,
        ;
    } else if version == 16 {
        assert(alignment_count(16) == 3) by (nonlinear_arith);
        assert(alignment_step(16) == 24) by (nonlinear_arith);
        assert((alignment_count(16) - 1) * alignment_step(16) == 48) by (nonlinear_arith)
            requires
                alignment_count(16) == 3,
                alignment_step(16) == 24,
        ;
    } else if version == 17 {
        assert(alignment_count(17) == 3) by (nonlinear_arith);
        assert(alignment_step(17) == 24) by (nonlinear_arith);
        assert((alignment_count(17) - 1) * alignment_step(17) == 48) by (nonlinear_arith)
            requires
                alignment_count(17) == 3,
                alignment_step(17) == 24,
        ;
    } else if version == 18 {
        assert(alignment_count(18) == 3) by (nonlinear_arith);
        assert(alignment_step(18) == 26) by (nonlinear_arith);
        assert((alignment_count(18) - 1) * alignment_step(18) == 52) by (nonlinear_arith)
            requires
                alignment_count(18) == 3,
                alignment_step(18) == 26,
        ;
    } else if version == 19 {
        assert(alignment_count(19) == 3) by (nonlinear_arith);
        assert(alignment_step(19) == 28) by (nonlinear_arith);
        assert((alignment_count(19) - 1) * alignment_step(19) == 56) by (nonlinear_arith)
            requires
                alignment_count(19) == 3,
                alignment_step(19) == 28,
        ;
    } else if version == 20 {
        assert(alignment_count(20) == 3) by (nonlinear_arith);
        assert(alignment_step(20) == 28) by (nonlinear_arith);
        assert((alignment_count(20) - 1) * alignment_step(20) == 56) by (nonlinear_arith)
            requires
                alignment_count(20) == 3,
                alignment_step(20) == 28,
        ;
    } else if version == 21 {
        assert(alignment_count(21) == 4) by (nonlinear_arith);
        assert(alignment_step(21) == 22) by (nonlinear_arith);
        assert((alignment_count(21) - 1) * alignment_step(21) == 66) by (nonlinear_arith)
            requires
                alignment_count(21) == 4,
                alignment_step(21) == 22,
        ;
    } else if version == 22 {
        assert(alignment_count(22) == 4) by (nonlinear_arith);
        assert(alignment_step(22) == 24) by (nonlinear_arith);
        assert((alignment_count(22) - 1) * alignment_step(22) == 72) by (nonlinear_arith)
            requires
                alignment_count(22) == 4,
                alignment_step(22) == 24,
        ;
    } else if version == 23 {
        assert(alignment_count(23) == 4) by (nonlinear_arith);
        assert(alignment_step(23) == 24) by (nonlinear_arith);
        assert((alignment_count(23) - 1) * alignment_step(23) == 72) by (nonlinear_arith)
            requires
                alignment_count(23) == 4,
                alignment_step(23) == 24,
        ;
    } else if version == 24 {
        assert(alignment_count(24) == 4) by (nonlinear_arith);
        assert(alignment_step(24) == 26) by (nonlinear_arith);
        assert((alignment_count(24) - 1) * alignment_step(24) == 78) by (nonlinear_arith)
            requires
                alignment_count(24) == 4,
                alignment_step(24) == 26,
        ;
    } else if version == 25 {
        assert(alignment_count(25) == 4) by (nonlinear_arith);
        assert(alignment_step(25) == 26) by (nonlinear_arith);
        assert((alignment_count(25) - 1) * alignment_step(25) == 78) by (nonlinear_arith)
            requires
                alignment_count(25) == 4,
                alignment_step(25) == 26,
        ;
    } else if version == 26 {
        assert(alignment_count(26) == 4) by (nonlinear_arith);
        assert(alignment_step(26) == 28) by (nonlinear_arith);
        assert((alignment_count(26) - 1) * alignment_step(26) == 84) by (nonlinear_arith)
            requires
                alignment_count(26) == 4,
                alignment_step(26) == 28,
        ;
    } else if version == 27 {
        assert(alignment_count(27) == 4) by (nonlinear_arith);
        assert(alignment_step(27) == 28) by (nonlinear_arith);
        assert((alignment_count(27) - 1) * alignment_step(27) == 84) by (nonlinear_arith)
            requires
                alignment_count(27) == 4,
                alignment_step(27) == 28,
        ;
    } else if version == 28 {
        assert(alignment_count(28) == 5) by (nonlinear_arith);
        assert(alignment_step(28) == 24) by (nonlinear_arith);
        assert((alignment_count(28) - 1) * alignment_step(28) == 96) by (nonlinear_arith)
            requires
                alignment_count(28) == 5,
                alignment_step(28) == 24,
        ;
    } else if version == 29 {
        assert(alignment_count(29) == 5) by (nonlinear_arith);
        assert(alignment_step(29) == 24) by (nonlinear_arith);
        assert((alignment_count(29) - 1) * alignment_step(29) == 96) by (nonlinear_arith)
            requires
                alignment_count(29) == 5,
                alignment_step(29) == 24,
        ;
    } else if version == 30 {
        assert(alignment_count(30) == 5) by (nonlinear_arith);
        assert(alignment_step(30) == 26) by (nonlinear_arith);
        assert((alignment_count(30) - 1) * alignment_step(30) == 104) by (nonlinear_arith)
            requires
                alignment_count(30) == 5,
                alignment_step(30) == 26,
        ;
    } else if version == 31 {
        assert(alignment_count(31) == 5) by (nonlinear_arith);
        assert(alignment_step(31) == 26) by (nonlinear_arith);
        assert((alignment_count(31) - 1) * alignment_step(31) == 104) by (nonlinear_arith)
            requires
                alignment_count(31) == 5,
                alignment_step(31) == 26,
        ;
    } else if version == 32 {
        assert(alignment_count(32) == 5) by (nonlinear_arith);
        assert(alignment_step(32) == 26);
        assert((alignment_count(32) - 1) * alignment_step(32) == 104) by (nonlinear_arith)
            requires
                alignment_count(32) == 5,
                alignment_step(32) == 26,
        ;
    } else if version == 33 {
        assert(alignment_count(33) == 5) by (nonlinear_arith);
        assert(alignment_step(33) == 28) by (nonlinear_arith);
        assert((alignment_count(33) - 1) * alignment_step(33) == 112) by (nonlinear_arith)
            requires
                alignment_count(33) == 5,
                alignment_step(33) == 28,
        ;
    } else if version == 34 {
        assert(alignment_count(34) == 5) by (nonlinear_arith);
        assert(alignment_step(34) == 28) by (nonlinear_arith);
        assert((alignment_count(34) - 1) * alignment_step(34) == 112) by (nonlinear_arith)
            requires
                alignment_count(34) == 5,
                alignment_step(34) == 28,
        ;
    } else if version == 35 {
        assert(alignment_count(35) == 6) by (nonlinear_arith);
        assert(alignment_step(35) == 24) by (nonlinear_arith);
        assert((alignment_count(35) - 1) * alignment_step(35) == 120) by (nonlinear_arith)
            requires
                alignment_count(35) == 6,
                alignment_step(35) == 24,
        ;
    } else if version == 36 {
        assert(alignment_count(36) == 6) by (nonlinear_arith);
        assert(alignment_step(36) == 26) by (nonlinear_arith);
        assert((alignment_count(36) - 1) * alignment_step(36) == 130) by (nonlinear_arith)
            requires
                alignment_count(36) == 6,
                alignment_step(36) == 26,
        ;
    } else if version == 37 {
        assert(alignment_count(37) == 6) by (nonlinear_arith);
        assert(alignment_step(37) == 26) by (nonlinear_arith);
        assert((alignment_count(37) - 1) * alignment_step(37) == 130) by (nonlinear_arith)
            requires
                alignment_count(37) == 6,
                alignment_step(37) == 26,
        ;
    } else if version == 38 {
        assert(alignment_count(38) == 6) by (nonlinear_arith);
        assert(alignment_step(38) == 26) by (nonlinear_arith);
        assert((alignment_count(38) - 1) * alignment_step(38) == 130) by (nonlinear_arith)
            requires
                alignment_count(38) == 6,
                alignment_step(38) == 26,
        ;
    } else if version == 39 {
        assert(alignment_count(39) == 6) by (nonlinear_arith);
        assert(alignment_step(39) == 28) by (nonlinear_arith);
        assert((alignment_count(39) - 1) * alignment_step(39) == 140) by (nonlinear_arith)
            requires
                alignment_count(39) == 6,
                alignment_step(39) == 28,
        ;
    } else if version == 40 {
        assert(alignment_count(40) == 6) by (nonlinear_arith);
        assert(alignment_step(40) == 28) by (nonlinear_arith);
        assert((alignment_count(40) - 1) * alignment_step(40) == 140) by (nonlinear_arith)
            requires
                alignment_count(40) == 6,
                alignment_step(40) == 28,
        ;
    }
}

/// Number of gaps between alignment coordinates at a version.
pub open spec fn alignment_count(version: int) -> int {
    (4 * version + 3 + 27) / 28
}

/// Spacing of alignment coordinates: the even number at or above an equal split of the
/// span, except at version 32, where the standard table has 26 (not 28).
pub open spec fn alignment_step(version: int) -> int {
    let d = (4 * version + 4 + alignment_count(version) - 1) / alignment_count(version);
    if version == 32 {
        26
    } else if d % 2 != 0 {
        d + 1
    } else {
        d
    }
}

/// Alignment coordinates: 6, then evenly spaced values ending at size - 7.
pub open spec fn alignment_positions(version: int) -> Seq<u32> {
    Seq::new(
        (alignment_count(version) + 1) as nat,
        |j: int|
            if j == 0 {
                6u32
            } else {
                (4 * version + 10 - (alignment_count(version) - j) * alignment_step(version)) as u32
            },
    )
}

/// Coordinates (both axes) of the alignment pattern centres of a version.
pub fn get_alignment(version: u8) -> (r: Vec<u32>)
    requires
        2 <= version <= 40,
    ensures
        r@ == alignment_positions(version as int),
{
    let v = version as u32;
    let count: u32 = (4 * v + 3 + 27) / 28;
    let mut diff: u32 = (4 * v + 4 + count - 1) / count;
    if version == 32 {
        diff = 26;
    } else if diff % 2 != 0 {
        diff = diff + 1;
    }
    let last: u32 = 4 * v + 10;
    proof {
        lemma_alignment_facts(v as int);
    }
    let mut align: Vec<u32> = Vec::new();
    align.push(6);
    let mut j: u32 = 1;
    while j <= count
        invariant
            1 <= j <= count + 1,
            1 <= count <= 6,
            count as int == alignment_count(v as int),
            diff as int == alignment_step(v as int),
            last == 4 * v + 10,
            v <= 40,
            (count - 1) * diff <= 4 * v + 4,
            align.len() == j,
            forall|i: int| 0 <= i < j ==> #[trigger] align@[i] == alignment_positions(v as int)[i],
        decreases count + 1 - j,
    {
        assert((count - j) * diff <= (count - 1) * diff) by (nonlinear_arith)
            requires
                j >= 1,
                j <= count,
        ;
        align.push(last - (count - j) * diff);
        j = j + 1;
    }
    assert(align@ =~= alignment_positions(v as int));
    align
}

} // verus!
