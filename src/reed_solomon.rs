//! Message encoding: version and level selection, the data bitstream, block
//! splitting with Reed-Solomon codewords, interleaving, and the BCH-protected
//! format and version strings.
use crate::polynomial::{div_polynomial, rs_remainder};
use crate::tables::{
    ec_entry, ec_table, length_bits, level_indicator, level_indicator_exec, mask_index, mask_index_exec,
    mode_indicator, mode_indicator_exec, remainder_bits, remainder_bits_exec, ByteNameOfMode, ErrorLevel,
    Mask, FORMAT_GENERATOR, FORMAT_STRING_XOR_VALUE, PAD_FIRST, PAD_SECOND, VERSION_GENERATOR,
};
use crate::utils::{
    data_codewords, full_capacity, full_capacity_spec, get_codewords_number, get_len_bit,
    lemma_table_facts,
};
use vstd::arithmetic::power2::pow2;
use vstd::prelude::*;
use vstd::string::StringSliceAdditionalSpecFns;

verus! {

/// Why an encoding could not be made.
#[derive(Clone, Copy, Debug, PartialEq, Eq, Structural)]
pub enum QrError {
    /// The data does not fit in any version up to 40 at or above the requested level.
    CapacityExceeded,
}

/// The chosen parameters and the finished codeword bitstream of a message.
pub struct ReedSolomonData {
    pub data: Vec<u8>,
    pub error_level: ErrorLevel,
    pub version: u8,
    pub mask: Mask,
    pub mode: ByteNameOfMode,
    pub bits: Vec<u8>,
}

/// The width low bits of value, most significant first.
pub open spec fn bits_of(value: nat, width: nat) -> Seq<u8> {
    Seq::new(width, |i: int| ((value / pow2((width - 1 - i) as nat)) % 2) as u8)
}

/// Appends the width low bits of value, most significant first.
fn push_bits(bits: &mut Vec<u8>, value: u32, width: u32)
    requires
        width <= 32,
    ensures
        final(bits)@ == old(bits)@ + bits_of(value as nat, width as nat),
{
    let ghost start = bits@;
    let mut i: u32 = 0;
    while i < width
        invariant
            i <= width <= 32,
            bits@ == start + bits_of(value as nat, width as nat).take(i as int),
        decreases width - i,
    {
        let shift = width - 1 - i;
        let b = ((value >> shift) % 2) as u8;
        proof {
            vstd::bits::lemma_u32_shr_is_div(value, shift);
        }
        bits.push(b);
        assert(bits@ =~= start + bits_of(value as nat, width as nat).take(i + 1));
        i = i + 1;
    }
    assert(bits_of(value as nat, width as nat).take(width as int) =~= bits_of(value as nat, width as nat));
}

/// The bits of a byte string, eight per byte.
pub open spec fn data_bits(data: Seq<u8>) -> Seq<u8>
    decreases data.len(),
{
    if data.len() == 0 {
        seq![]
    } else {
        data_bits(data.drop_last()) + bits_of(data.last() as nat, 8)
    }
}

/// The k-th pad codeword: the two pad values in turn.
pub open spec fn pad_value(k: int) -> u8 {
    if k % 2 == 0 {
        PAD_FIRST
    } else {
        PAD_SECOND
    }
}

/// The bits of the first count pad codewords.
pub open spec fn pad_bits(count: nat) -> Seq<u8>
    decreases count,
{
    if count == 0 {
        seq![]
    } else {
        pad_bits((count - 1) as nat) + bits_of(pad_value(count - 1) as nat, 8)
    }
}

/// Mode indicator, character count and data bits.
pub open spec fn head_bits(data: Seq<u8>, mode: ByteNameOfMode, version: int) -> Seq<u8> {
    bits_of(mode_indicator(mode) as nat, 4) + bits_of(data.len(), length_bits(mode, version) as nat)
        + data_bits(data)
}

/// Length once the terminator and the fill to a byte boundary are in, within capacity.
pub open spec fn filled_len(head_len: int, capacity_bits: int) -> int {
    let t = (head_len + 4 + 7) / 8 * 8;
    if t > capacity_bits {
        capacity_bits
    } else {
        t
    }
}

/// The data bitstream of a version and level: the head, zero bits (the terminator and the
/// fill to a byte boundary), then pad codewords until the data codewords are full.
pub open spec fn stream_bits(data: Seq<u8>, mode: ByteNameOfMode, version: int, level: ErrorLevel) -> Seq<
    u8,
> {
    let h = head_bits(data, mode, version);
    let cap = 8 * data_codewords(version, level);
    let f = filled_len(h.len() as int, cap);
    h + Seq::new((f - h.len()) as nat, |i: int| 0u8) + pad_bits(((cap - f) / 8) as nat)
}

/// The value of m bits from position start, most significant first.
pub open spec fn bits_value(bits: Seq<u8>, start: int, m: int) -> int
    decreases m,
{
    if m <= 0 {
        0
    } else {
        bits_value(bits, start, m - 1) * 2 + bits[start + m - 1]
    }
}

/// Bits grouped into codewords of eight.
pub open spec fn codewords_of(bits: Seq<u8>) -> Seq<i16> {
    Seq::new(bits.len() / 8, |k: int| bits_value(bits, 8 * k, 8) as i16)
}

/// Whether the head of the message fits in the data codewords.
pub open spec fn head_fits(data: Seq<u8>, mode: ByteNameOfMode, version: int, level: ErrorLevel) -> bool {
    4 + length_bits(mode, version) + 8 * data.len() <= 8 * data_codewords(version, level)
}


proof fn lemma_data_bits_len(data: Seq<u8>)
    ensures
        data_bits(data).len() == 8 * data.len(),
    decreases data.len(),
{
    if data.len() > 0 {
        lemma_data_bits_len(data.drop_last());
    }
}

proof fn lemma_pad_bits_len(count: nat)
    ensures
        pad_bits(count).len() == 8 * count,
    decreases count,
{
    if count > 0 {
        lemma_pad_bits_len((count - 1) as nat);
    }
}

pub open spec fn all_bits(s: Seq<u8>) -> bool {
    forall|i: int| 0 <= i < s.len() ==> #[trigger] s[i] <= 1
}

proof fn lemma_bits_of_bits(value: nat, width: nat)
    ensures
        all_bits(bits_of(value, width)),
{
}

proof fn lemma_data_bits_bits(data: Seq<u8>)
    ensures
        all_bits(data_bits(data)),
    decreases data.len(),
{
    if data.len() > 0 {
        lemma_data_bits_bits(data.drop_last());
        lemma_bits_of_bits(data.last() as nat, 8);
        let a = data_bits(data.drop_last());
        let b = bits_of(data.last() as nat, 8);
        assert forall|i: int| 0 <= i < (a + b).len() implies #[trigger] (a + b)[i] <= 1 by {
            if i >= a.len() {
                assert((a + b)[i] == b[i - a.len()]);
            }
        }
    }
}

proof fn lemma_pad_bits_bits(count: nat)
    ensures
        all_bits(pad_bits(count)),
    decreases count,
{
    if count > 0 {
        lemma_pad_bits_bits((count - 1) as nat);
        let a = pad_bits((count - 1) as nat);
        let b = bits_of(pad_value(count - 1) as nat, 8);
        assert forall|i: int| 0 <= i < (a + b).len() implies #[trigger] (a + b)[i] <= 1 by {
            if i >= a.len() {
                assert((a + b)[i] == b[i - a.len()]);
            }
        }
    }
}

/// Shape of the data bitstream when the head fits: one bit per module of the data
/// codewords, each bit 0 or 1.
pub proof fn lemma_stream_shape(data: Seq<u8>, mode: ByteNameOfMode, version: int, level: ErrorLevel)
    requires
        1 <= version <= 40,
        head_fits(data, mode, version, level),
    ensures
        stream_bits(data, mode, version, level).len() == 8 * data_codewords(version, level),
        all_bits(stream_bits(data, mode, version, level)),
{
    lemma_table_facts(version, level);
    lemma_data_bits_len(data);
    lemma_data_bits_bits(data);
    let h = head_bits(data, mode, version);
    let cap = 8 * data_codewords(version, level);
    let f = filled_len(h.len() as int, cap);
    assert(f % 8 == 0 && h.len() <= f <= cap);
    let count = ((cap - f) / 8) as nat;
    lemma_pad_bits_len(count);
    lemma_pad_bits_bits(count);
    lemma_bits_of_bits(mode_indicator(mode) as nat, 4);
    lemma_bits_of_bits(data.len(), length_bits(mode, version) as nat);
    let s = stream_bits(data, mode, version, level);
    let mode_part = bits_of(mode_indicator(mode) as nat, 4);
    let count_part = bits_of(data.len(), length_bits(mode, version) as nat);
    let data_part = data_bits(data);
    let z = Seq::new((f - h.len()) as nat, |i: int| 0u8);
    let p = pad_bits(count);
    assert(s == mode_part + count_part + data_part + z + p);
    assert forall|i: int| 0 <= i < s.len() implies #[trigger] s[i] <= 1 by {
        if i < 4 {
            assert(s[i] == mode_part[i]);
        } else if i < 4 + count_part.len() {
            assert(s[i] == count_part[i - 4]);
        } else if i < h.len() {
            assert(s[i] == data_part[i - 4 - count_part.len()]);
        } else if i < f {
            assert(s[i] == z[i - h.len()]);
        } else {
            assert(s[i] == p[i - f]);
        }
    }
}

/// The bits of a byte string, eight per byte, most significant first.
pub fn get_bin_msg_data(data: &Vec<u8>) -> (r: Vec<u8>)
    ensures
        r@ == data_bits(data@),
{
    let mut bits: Vec<u8> = Vec::new();
    let n = data.len();
    let mut i: usize = 0;
    while i < n
        invariant
            i <= n,
            n == data.len(),
            bits@ == data_bits(data@.take(i as int)),
        decreases n - i,
    {
        push_bits(&mut bits, data[i] as u32, 8);
        assert(data@.take(i + 1).drop_last() =~= data@.take(i as int));
        assert(bits@ =~= data_bits(data@.take(i + 1)));
        i = i + 1;
    }
    assert(data@.take(n as int) =~= data@);
    bits
}

/// Builds the data bitstream of the message (see `stream_bits`).
#[verifier::rlimit(40)]
fn build_stream(data: &Vec<u8>, mode: ByteNameOfMode, version: u8, level: ErrorLevel) -> (r: Vec<u8>)
    requires
        1 <= version <= 40,
        head_fits(data@, mode, version as int, level),
    ensures
        r@ == stream_bits(data@, mode, version as int, level),
{
    proof {
        lemma_table_facts(version as int, level);
        lemma_data_bits_len(data@);
    }
    let n = data.len();
    let mut bits: Vec<u8> = Vec::new();
    push_bits(&mut bits, mode_indicator_exec(mode), 4);
    let lb = get_len_bit(&mode, version);
    push_bits(&mut bits, n as u32, lb as u32);
    let ghost prefix = bits@;
    let mut message_bits = get_bin_msg_data(data);
    bits.append(&mut message_bits);
    let ghost h = bits@;
    assert(h == head_bits(data@, mode, version as int));
    let cap: usize = 8 * get_codewords_number(version, &level) as usize;
    let mut f: usize = (bits.len() + 4 + 7) / 8 * 8;
    if f > cap {
        f = cap;
    }
    assert(f == filled_len(h.len() as int, cap as int));
    while bits.len() < f
        invariant
            h.len() <= bits.len() <= f,
            bits@ == h + Seq::new((bits.len() - h.len()) as nat, |j: int| 0u8),
        decreases f - bits.len(),
    {
        let ghost before = bits@;
        bits.push(0);
        assert(bits@ =~= h + Seq::new((bits.len() - h.len()) as nat, |j: int| 0u8));
    }
    let ghost filled = bits@;
    let count: usize = (cap - f) / 8;
    let mut k: usize = 0;
    while k < count
        invariant
            k <= count,
            bits@ == filled + pad_bits(k as nat),
        decreases count - k,
    {
        let pad: u8 = if k % 2 == 0 {
            PAD_FIRST
        } else {
            PAD_SECOND
        };
        push_bits(&mut bits, pad as u32, 8);
        assert(bits@ =~= filled + pad_bits((k + 1) as nat));
        k = k + 1;
    }
    bits
}

/// Groups bits (0 or 1) into codewords of eight.
fn bits_to_codewords(bits: &Vec<u8>) -> (r: Vec<i16>)
    requires
        all_bits(bits@),
    ensures
        r@ == codewords_of(bits@),
        forall|k: int| 0 <= k < r.len() ==> 0 <= #[trigger] r@[k] < 256,
{
    let count = bits.len() / 8;
    let mut out: Vec<i16> = Vec::new();
    let mut k: usize = 0;
    while k < count
        invariant
            k <= count,
            count == bits.len() / 8,
            all_bits(bits@),
            out.len() == k,
            forall|j: int| 0 <= j < k ==> #[trigger] out@[j] == codewords_of(bits@)[j],
            forall|j: int| 0 <= j < k ==> 0 <= #[trigger] out@[j] < 256,
        decreases count - k,
    {
        let mut v: u32 = 0;
        let mut m: usize = 0;
        proof {
            vstd::arithmetic::power2::lemma2_to64();
        }
        while m < 8
            invariant
                m <= 8,
                k < count,
                count == bits.len() / 8,
                all_bits(bits@),
                v as int == bits_value(bits@, 8 * k as int, m as int),
                v < pow2(m as nat),
            decreases 8 - m,
        {
            let b = bits[8 * k + m];
            proof {
                vstd::arithmetic::power2::lemma2_to64();
            }
            v = v * 2 + b as u32;
            m = m + 1;
        }
        proof {
            vstd::arithmetic::power2::lemma2_to64();
        }
        out.push(v as i16);
        k = k + 1;
    }
    assert(out@ =~= codewords_of(bits@));
    out
}


/// Data codewords in a block of the first group.
pub open spec fn short_len(version: int, level: ErrorLevel) -> int {
    data_codewords(version, level) / ec_table(version, level).1
}

/// Index of the first block of the second group (one codeword longer).
pub open spec fn first_long(version: int, level: ErrorLevel) -> int {
    ec_table(version, level).1 - data_codewords(version, level) % ec_table(version, level).1
}

pub open spec fn block_len(version: int, level: ErrorLevel, j: int) -> int {
    short_len(version, level) + if j >= first_long(version, level) {
        1int
    } else {
        0int
    }
}

pub open spec fn block_start(version: int, level: ErrorLevel, j: int) -> int {
    j * short_len(version, level) + if j > first_long(version, level) {
        j - first_long(version, level)
    } else {
        0
    }
}

/// The data codewords of block j.
pub open spec fn data_block(content: Seq<i16>, version: int, level: ErrorLevel, j: int) -> Seq<i16> {
    content.subrange(block_start(version, level, j), block_start(version, level, j) + block_len(version, level, j))
}

/// The error-correction codewords of block j.
pub open spec fn ec_block(content: Seq<i16>, version: int, level: ErrorLevel, j: int) -> Seq<i16> {
    let ec = ec_table(version, level).0;
    Seq::new(ec as nat, |k: int| rs_remainder(data_block(content, version, level, j), ec)[k] as i16)
}

/// Entry i of the first j blocks that are long enough, in block order.
pub open spec fn col_upto(blocks: Seq<Seq<i16>>, i: int, j: int) -> Seq<i16>
    decreases j,
{
    if j <= 0 {
        seq![]
    } else {
        col_upto(blocks, i, j - 1) + if i < blocks[j - 1].len() {
            seq![blocks[j - 1][i]]
        } else {
            seq![]
        }
    }
}

/// Column-wise interleaving of the first n entries of every block.
pub open spec fn interleave(blocks: Seq<Seq<i16>>, n: int) -> Seq<i16>
    decreases n,
{
    if n <= 0 {
        seq![]
    } else {
        interleave(blocks, n - 1) + col_upto(blocks, n - 1, blocks.len() as int)
    }
}

/// Interleaved data codewords followed by interleaved error-correction codewords.
pub open spec fn codeword_sequence(content: Seq<i16>, version: int, level: ErrorLevel) -> Seq<i16> {
    let b = ec_table(version, level).1;
    let data_blocks = Seq::new(b as nat, |j: int| data_block(content, version, level, j));
    let ec_blocks = Seq::new(b as nat, |j: int| ec_block(content, version, level, j));
    interleave(data_blocks, short_len(version, level) + 1) + interleave(ec_blocks, ec_table(version, level).0)
}

/// The bits placed in the symbol: every codeword in eight bits, then the remainder bits.
pub open spec fn symbol_bits(data: Seq<u8>, mode: ByteNameOfMode, version: int, level: ErrorLevel) -> Seq<u8> {
    let content = codewords_of(stream_bits(data, mode, version, level));
    let cw = codeword_sequence(content, version, level);
    data_bits(cw.map_values(|c: i16| c as u8)) + Seq::new(remainder_bits(version) as nat, |i: int| 0u8)
}

pub open spec fn views(blocks: Seq<Vec<i16>>) -> Seq<Seq<i16>> {
    blocks.map_values(|b: Vec<i16>| b@)
}

/// Column-wise interleaving of the first n entries of every block.
fn interleave_blocks(blocks: &Vec<Vec<i16>>, n: usize, out: &mut Vec<i16>)
    ensures
        final(out)@ == old(out)@ + interleave(views(blocks@), n as int),
{
    let ghost start = out@;
    let mut i: usize = 0;
    while i < n
        invariant
            i <= n,
            out@ == start + interleave(views(blocks@), i as int),
        decreases n - i,
    {
        let ghost row_start = out@;
        let mut j: usize = 0;
        while j < blocks.len()
            invariant
                i < n,
                j <= blocks.len(),
                out@ == row_start + col_upto(views(blocks@), i as int, j as int),
            decreases blocks.len() - j,
        {
            if i < blocks[j].len() {
                out.push(blocks[j][i]);
            }
            assert(views(blocks@)[j as int] == blocks@[j as int]@);
            assert(out@ =~= row_start + col_upto(views(blocks@), i as int, j + 1));
            j = j + 1;
        }
        assert(out@ =~= start + interleave(views(blocks@), i + 1));
        i = i + 1;
    }
}

/// Error levels in the order in which they are tried.
pub open spec fn level_at(i: int) -> ErrorLevel {
    if i == 0 {
        ErrorLevel::L
    } else if i == 1 {
        ErrorLevel::Q
    } else if i == 2 {
        ErrorLevel::M
    } else {
        ErrorLevel::H
    }
}

/// Position of a level in the order in which levels are tried.
pub open spec fn level_start(level: ErrorLevel) -> int {
    match level {
        ErrorLevel::L => 0,
        ErrorLevel::Q => 1,
        ErrorLevel::M => 2,
        ErrorLevel::H => 3,
    }
}

/// The first (level, version) from position li and version v on, versions ascending
/// within a level, whose capacity holds n characters.
pub open spec fn search(n: int, mode: ByteNameOfMode, li: int, v: int, min_version: int) -> Option<
    (ErrorLevel, int),
>
    decreases 4 - li, 41 - v,
{
    if li >= 4 || li < 0 {
        None
    } else if v > 40 || v < 1 {
        if min_version > 40 || min_version < 1 {
            None
        } else {
            search(n, mode, li + 1, min_version, min_version)
        }
    } else if full_capacity_spec(v, level_at(li), mode) >= n {
        Some((level_at(li), v))
    } else {
        search(n, mode, li, v + 1, min_version)
    }
}

/// The version and level chosen for n characters.
pub open spec fn selection(n: int, mode: ByteNameOfMode, min_level: ErrorLevel, min_version: int) -> Option<
    (ErrorLevel, int),
> {
    search(n, mode, level_start(min_level), min_version, min_version)
}

/// The version and level chosen for n characters (see `selection`).
fn select_version(n: usize, mode: ByteNameOfMode, min_error_level: ErrorLevel, min_version: u8) -> (r: Option<
    (ErrorLevel, u8),
>)
    requires
        1 <= min_version <= 40,
    ensures
        match r {
            Some((l, v)) => selection(n as int, mode, min_error_level, min_version as int) == Some(
                (l, v as int),
            ) && 1 <= v <= 40,
            None => selection(n as int, mode, min_error_level, min_version as int).is_none(),
        },
{
    let start: usize = match min_error_level {
        ErrorLevel::L => 0,
        ErrorLevel::Q => 1,
        ErrorLevel::M => 2,
        ErrorLevel::H => 3,
    };
    let mut li: usize = start;
    while li < 4
        invariant
            1 <= min_version <= 40,
            li <= 4,
            selection(n as int, mode, min_error_level, min_version as int) == search(
                n as int,
                mode,
                li as int,
                min_version as int,
                min_version as int,
            ),
        decreases 4 - li,
    {
        let level = if li == 0 {
            ErrorLevel::L
        } else if li == 1 {
            ErrorLevel::Q
        } else if li == 2 {
            ErrorLevel::M
        } else {
            ErrorLevel::H
        };
        let mut v: u8 = min_version;
        while v <= 40
            invariant
                1 <= min_version <= v <= 41,
                min_version <= 40,
                li < 4,
                level == level_at(li as int),
                selection(n as int, mode, min_error_level, min_version as int) == search(
                    n as int,
                    mode,
                    li as int,
                    v as int,
                    min_version as int,
                ),
            decreases 41 - v,
        {
            if full_capacity(v, &level, &mode) as usize >= n {
                return Some((level, v));
            }
            v = v + 1;
        }
        li = li + 1;
    }
    None
}


/// BCH reduction: for each bit k from top down to deg that is set, XOR in the
/// generator shifted so that its leading term sits at k.
pub open spec fn bch_reduce(x: u32, g: u32, deg: nat, k: nat) -> u32
    decreases k,
{
    if k < deg || k == 0 || k >= 32 {
        x
    } else {
        let x2 = if (x >> (k as u32)) & 1 == 1 {
            x ^ (g << ((k - deg) as u32))
        } else {
            x
        };
        bch_reduce(x2, g, deg, (k - 1) as nat)
    }
}

/// The 15-bit format value: level indicator and mask reference, the BCH remainder of
/// that value times x^10, and the fixed XOR mask.
pub open spec fn format_value(level: ErrorLevel, mask: Mask) -> u32 {
    let d = (level_indicator(level) * 8 + mask_index(mask)) as u32;
    let x = d << 10u32;
    (x ^ bch_reduce(x, FORMAT_GENERATOR, 10, 14)) ^ FORMAT_STRING_XOR_VALUE
}

/// The 18-bit version value: the version and the BCH remainder of it times x^12.
pub open spec fn version_value(version: int) -> u32 {
    let x = (version as u32) << 12u32;
    x ^ bch_reduce(x, VERSION_GENERATOR, 12, 17)
}

/// Reduces value by the generator (of degree deg) from bit top down (see `bch_reduce`).
fn xor_string_operator(value: u32, top: u32, generator_polynomial: u32, deg: u32) -> (r: u32)
    requires
        1 <= deg <= top < 32,
    ensures
        r == bch_reduce(value, generator_polynomial, deg as nat, top as nat),
{
    let mut x = value;
    let mut k: u32 = top;
    while k >= deg
        invariant
            1 <= deg,
            k < 32,
            k + 1 >= deg,
            bch_reduce(x, generator_polynomial, deg as nat, k as nat) == bch_reduce(
                value,
                generator_polynomial,
                deg as nat,
                top as nat,
            ),
        decreases k,
    {
        if (x >> k) & 1 == 1 {
            x = x ^ (generator_polynomial << (k - deg));
        }
        k = k - 1;
    }
    x
}


/// Block layout of a version and level: (data codewords, blocks, [blocks of the first
/// group, blocks of the second group], [data codewords per block of each group],
/// error-correction codewords per block).
pub fn get_error_correction_level_data(version: u8, error_level: &ErrorLevel) -> (r: (u16, u16, [u16; 2], [u16; 2], u16))
    requires
        1 <= version <= 40,
    ensures
        r.0 == data_codewords(version as int, *error_level),
        r.1 == ec_table(version as int, *error_level).1,
        r.2[0] == first_long(version as int, *error_level),
        r.2[1] == data_codewords(version as int, *error_level) % ec_table(version as int, *error_level).1,
        r.3[0] == short_len(version as int, *error_level),
        r.3[1] == short_len(version as int, *error_level) + 1,
        r.4 == ec_table(version as int, *error_level).0,
{
    proof {
        lemma_table_facts(version as int, *error_level);
    }
    let (ec, blocks) = ec_entry(version, *error_level);
    let codewords = get_codewords_number(version, error_level) as u16;
    let b = blocks as u16;
    let second_group = codewords % b;
    let short = codewords / b;
    (codewords, b, [b - second_group, second_group], [short, short + 1], ec as u16)
}

/// The BCH generator of the format string (kind 0) or of the version string (kind 1).
pub open spec fn bch_generator(kind: int) -> u32 {
    if kind == 0 {
        FORMAT_GENERATOR
    } else {
        VERSION_GENERATOR
    }
}

/// The coefficients of a BCH generator (kind 0: format, 1: version) for the exponents
/// top down to 0, one bit each, highest first.
pub fn get_array_bin_polynomial(version_size: usize, top: u8) -> (r: Vec<u8>)
    requires
        version_size <= 1,
        top < 32,
    ensures
        r@ == bits_of(bch_generator(version_size as int) as nat, (top + 1) as nat),
{
    let generator = if version_size == 0 {
        FORMAT_GENERATOR
    } else {
        VERSION_GENERATOR
    };
    let mut bits: Vec<u8> = Vec::new();
    push_bits(&mut bits, generator, top as u32 + 1);
    assert(bits@ =~= bits_of(bch_generator(version_size as int) as nat, (top + 1) as nat));
    bits
}

/// The bits followed by zeros, cut to the given length.
pub open spec fn padded_bits(bits: Seq<u8>, padding_size: int) -> Seq<u8> {
    Seq::new(padding_size as nat, |k: int| if k < bits.len() { bits[k] } else { 0u8 })
}

/// The value of the bits (0 or 1, most significant first) padded with zeros on the right
/// to padding_size bits, or cut to that many.
pub fn add_padding_without_prefix(bits: &Vec<u8>, padding_size: u16) -> (r: u32)
    requires
        padding_size <= 32,
        all_bits(bits@),
    ensures
        r as int == bits_value(padded_bits(bits@, padding_size as int), 0, padding_size as int),
{
    let ghost p = padded_bits(bits@, padding_size as int);
    let mut v: u64 = 0;
    let mut k: u16 = 0;
    proof {
        vstd::arithmetic::power2::lemma2_to64();
    }
    while k < padding_size
        invariant
            k <= padding_size <= 32,
            all_bits(bits@),
            p == padded_bits(bits@, padding_size as int),
            v as int == bits_value(p, 0, k as int),
            v < pow2(k as nat),
        decreases padding_size - k,
    {
        let b: u64 = if (k as usize) < bits.len() {
            bits[k as usize] as u64
        } else {
            0
        };
        assert(b == p[k as int]);
        proof {
            vstd::arithmetic::power2::lemma_pow2_unfold((k + 1) as nat);
            vstd::arithmetic::power2::lemma_pow2_strictly_increases(k as nat, 32);
            vstd::arithmetic::power2::lemma2_to64();
        }
        v = v * 2 + b;
        k = k + 1;
    }
    proof {
        if padding_size < 32 {
            vstd::arithmetic::power2::lemma_pow2_strictly_increases(padding_size as nat, 32);
        }
        vstd::arithmetic::power2::lemma2_to64();
    }
    v as u32
}

impl ReedSolomonData {
    /// Parameters chosen and bitstream built as the contracts below describe.
    pub open spec fn wf(&self) -> bool {
        &&& 1 <= self.version <= 40
        &&& head_fits(self.data@, self.mode, self.version as int, self.error_level)
        &&& self.bits@ == symbol_bits(self.data@, self.mode, self.version as int, self.error_level)
    }

    /// Picks the version and level for the data and builds its codeword bitstream.
    #[verifier::rlimit(50)]
    pub fn new(
        data: &str,
        min_error_level: ErrorLevel,
        min_version: u8,
        mask: Mask,
        mode: ByteNameOfMode,
    ) -> (r: Result<ReedSolomonData, QrError>)
        requires
            1 <= min_version <= 40,
        ensures
            match selection(data.spec_bytes().len() as int, mode, min_error_level, min_version as int) {
                Some((l, v)) => if head_fits(data.spec_bytes(), mode, v, l) {
                    r matches Ok(rs) && rs.wf() && rs.version == v && rs.error_level == l && rs.data@
                        == data.spec_bytes() && rs.mask == mask && rs.mode == mode
                } else {
                    r == Err::<ReedSolomonData, QrError>(QrError::CapacityExceeded)
                },
                None => r == Err::<ReedSolomonData, QrError>(QrError::CapacityExceeded),
            },
    {
        let bytes = data.as_bytes();
        let mut owned: Vec<u8> = Vec::new();
        let mut i: usize = 0;
        while i < bytes.len()
            invariant
                i <= bytes.len(),
                bytes@ == data.spec_bytes(),
                owned@ == bytes@.take(i as int),
            decreases bytes.len() - i,
        {
            owned.push(bytes[i]);
            assert(owned@ =~= bytes@.take(i + 1));
            i = i + 1;
        }
        assert(owned@ =~= data.spec_bytes());
        let mut reed_solomon = ReedSolomonData {
            data: owned,
            error_level: ErrorLevel::L,
            version: 1,
            mask: mask,
            mode: mode,
            bits: Vec::new(),
        };
        if !reed_solomon.get_version_error_level(min_error_level, min_version) {
            return Err(QrError::CapacityExceeded);
        }
        let n = reed_solomon.data.len();
        let version = reed_solomon.version;
        let level = reed_solomon.error_level;
        proof {
            lemma_table_facts(version as int, level);
        }
        let lb = get_len_bit(&mode, version) as usize;
        let cap = get_codewords_number(version, &level) as usize;
        if n > cap || 4 + lb + 8 * n > 8 * cap {
            return Err(QrError::CapacityExceeded);
        }
        reed_solomon.generate_data_bits();
        Ok(reed_solomon)
    }

    /// Searches levels from the requested one (in the order L, Q, M, H) and versions from
    /// the requested one upward for the first that holds the data; false when none does.
    fn get_version_error_level(&mut self, min_error_level: ErrorLevel, min_version: u8) -> (found: bool)
        requires
            1 <= min_version <= 40,
        ensures
            final(self).data == old(self).data,
            final(self).mask == old(self).mask,
            final(self).mode == old(self).mode,
            found ==> 1 <= final(self).version <= 40,
            match selection(old(self).data@.len() as int, old(self).mode, min_error_level, min_version as int) {
                Some((l, v)) => found && final(self).version == v && final(self).error_level == l,
                None => !found,
            },
    {
        match select_version(self.data.len(), self.mode, min_error_level, min_version) {
            Some((level, version)) => {
                self.version = version;
                self.error_level = level;
                true
            },
            None => false,
        }
    }

    /// The 15 format bits, most significant first (see `format_value`).
    pub fn create_format_string(&self) -> (r: Vec<u8>)
        ensures
            r@ == bits_of(format_value(self.error_level, self.mask) as nat, 15),
    {
        let d: u32 = level_indicator_exec(self.error_level) * 8 + mask_index_exec(self.mask);
        let x: u32 = d << 10;
        let rem = xor_string_operator(x, 14, FORMAT_GENERATOR, 10);
        let value = (x ^ rem) ^ FORMAT_STRING_XOR_VALUE;
        let mut bits: Vec<u8> = Vec::new();
        push_bits(&mut bits, value, 15);
        assert(bits@ =~= bits_of(format_value(self.error_level, self.mask) as nat, 15));
        bits
    }

    /// The 18 version bits, most significant first (see `version_value`).
    pub fn create_version_string(&self) -> (r: Vec<u8>)
        ensures
            r@ == bits_of(version_value(self.version as int) as nat, 18),
    {
        let x: u32 = (self.version as u32) << 12;
        let rem = xor_string_operator(x, 17, VERSION_GENERATOR, 12);
        let value = x ^ rem;
        let mut bits: Vec<u8> = Vec::new();
        push_bits(&mut bits, value, 18);
        assert(bits@ =~= bits_of(version_value(self.version as int) as nat, 18));
        bits
    }

    /// Builds the symbol bitstream into `bits` (see `symbol_bits`).
    #[verifier::rlimit(50)]
    pub fn generate_data_bits(&mut self)
        requires
            1 <= old(self).version <= 40,
            head_fits(old(self).data@, old(self).mode, old(self).version as int, old(self).error_level),
        ensures
            final(self).wf(),
            final(self).data == old(self).data,
            final(self).version == old(self).version,
            final(self).error_level == old(self).error_level,
            final(self).mask == old(self).mask,
            final(self).mode == old(self).mode,
    {
        let cw = self.create_reed_solomon_matrix();
        let ghost cws = cw@.map_values(|c: i16| c as u8);
        let mut bits: Vec<u8> = Vec::new();
        let mut i: usize = 0;
        while i < cw.len()
            invariant
                i <= cw.len(),
                cws == cw@.map_values(|c: i16| c as u8),
                bits@ == data_bits(cws.take(i as int)),
            decreases cw.len() - i,
        {
            push_bits(&mut bits, (cw[i] as u8) as u32, 8);
            assert(cws.take(i + 1).drop_last() =~= cws.take(i as int));
            assert(bits@ =~= data_bits(cws.take(i + 1)));
            i = i + 1;
        }
        assert(cws.take(cw.len() as int) =~= cws);
        let ghost body = bits@;
        let extra = remainder_bits_exec(self.version);
        let mut k: usize = 0;
        while k < extra
            invariant
                k <= extra,
                bits@ == body + Seq::new(k as nat, |j: int| 0u8),
            decreases extra - k,
        {
            bits.push(0);
            assert(bits@ =~= body + Seq::new((k + 1) as nat, |j: int| 0u8));
            k = k + 1;
        }
        self.bits = bits;
    }

    /// The data codewords: the bitstream grouped into bytes.
    fn generate_content(&self) -> (r: Vec<i16>)
        requires
            1 <= self.version <= 40,
            head_fits(self.data@, self.mode, self.version as int, self.error_level),
        ensures
            r@ == codewords_of(stream_bits(self.data@, self.mode, self.version as int, self.error_level)),
            r.len() == data_codewords(self.version as int, self.error_level),
            forall|k: int| 0 <= k < r.len() ==> 0 <= #[trigger] r@[k] < 256,
    {
        proof {
            lemma_stream_shape(self.data@, self.mode, self.version as int, self.error_level);
        }
        let bits = build_stream(&self.data, self.mode, self.version, self.error_level);
        bits_to_codewords(&bits)
    }

    /// Splits the data codewords into blocks, computes each block's error-correction
    /// codewords, and interleaves data then error-correction codewords.
    #[verifier::rlimit(50)]
    fn create_reed_solomon_matrix(&self) -> (r: Vec<i16>)
        requires
            1 <= self.version <= 40,
            head_fits(self.data@, self.mode, self.version as int, self.error_level),
        ensures
            r@ == codeword_sequence(
                codewords_of(stream_bits(self.data@, self.mode, self.version as int, self.error_level)),
                self.version as int,
                self.error_level,
            ),
    {
        let content = self.generate_content();
        let version = self.version;
        let level = self.error_level;
        proof {
            lemma_table_facts(version as int, level);
        }
        let layout = get_error_correction_level_data(version, &level);
        let ec = layout.4 as u8;
        let d = content.len();
        let nb = layout.1 as usize;
        let short: usize = layout.3[0] as usize;
        let first_long_block: usize = layout.2[0] as usize;
        let ghost v = version as int;
        assert(short >= 1 && short <= d && nb * short + d % nb == d) by (nonlinear_arith)
            requires
                d >= nb,
                nb >= 1,
                short == d / nb,
        ;
        let mut data_blocks: Vec<Vec<i16>> = Vec::new();
        let mut ec_blocks: Vec<Vec<i16>> = Vec::new();
        let mut start: usize = 0;
        let mut j: usize = 0;
        while j < nb
            invariant
                j <= nb,
                nb == ec_table(v, level).1,
                ec == ec_table(v, level).0,
                7 <= ec <= 30,
                d == content.len(),
                d <= 2956,
                short == short_len(v, level),
                first_long_block == first_long(v, level),
                short >= 1,
                short <= d,
                nb * short + d % nb == d,
                first_long_block == nb - d % nb,
                start == block_start(v, level, j as int),
                forall|k: int| 0 <= k < content.len() ==> 0 <= #[trigger] content@[k] < 256,
                data_blocks.len() == j,
                ec_blocks.len() == j,
                forall|k: int| 0 <= k < j ==> #[trigger] data_blocks@[k]@ == data_block(content@, v, level, k),
                forall|k: int| 0 <= k < j ==> #[trigger] ec_blocks@[k]@ == ec_block(content@, v, level, k),
            decreases nb - j,
        {
            let len: usize = if j >= first_long_block {
                short + 1
            } else {
                short
            };
            assert(start + len == block_start(v, level, j + 1) && start + len <= d) by (nonlinear_arith)
                requires
                    start == j * short + if j > first_long_block {
                        j - first_long_block
                    } else {
                        0
                    },
                    block_start(v, level, j + 1) == (j + 1) * short + if j + 1 > first_long_block {
                        j + 1 - first_long_block
                    } else {
                        0
                    },
                    len == short + if j >= first_long_block {
                        1int
                    } else {
                        0int
                    },
                    j < nb,
                    first_long_block == nb - d % nb,
                    nb * short + d % nb == d,
                    d % nb < nb,
            ;
            let mut block: Vec<i16> = Vec::new();
            let mut k: usize = 0;
            while k < len
                invariant
                    k <= len,
                    start + len <= d,
                    d == content.len(),
                    block@ == content@.subrange(start as int, start + k),
                    forall|q: int| 0 <= q < content.len() ==> 0 <= #[trigger] content@[q] < 256,
                decreases len - k,
            {
                block.push(content[start + k]);
                assert(block@ =~= content@.subrange(start as int, start + k + 1));
                k = k + 1;
            }
            assert(block@ == data_block(content@, v, level, j as int));
            let ghost block_view = block@;
            let remainder = div_polynomial(&mut block, ec as i16);
            let mut ec_codewords: Vec<i16> = Vec::new();
            let mut q: usize = 0;
            while q < ec as usize
                invariant
                    q <= ec,
                    remainder.data@ == crate::polynomial::remainder_terms(block_view, ec as int),
                    ec_codewords.len() == q,
                    forall|t: int| 0 <= t < q ==> #[trigger] ec_codewords@[t] == ec_block(content@, v, level, j as int)[t],
                    block_view == data_block(content@, v, level, j as int),
                    ec == ec_table(v, level).0,
                decreases ec - q,
            {
                ec_codewords.push(remainder.data[q].2);
                q = q + 1;
            }
            assert(ec_codewords@ =~= ec_block(content@, v, level, j as int));
            data_blocks.push(block);
            ec_blocks.push(ec_codewords);
            start = start + len;
            j = j + 1;
        }
        assert(views(data_blocks@) =~= Seq::new(nb as nat, |t: int| data_block(content@, v, level, t)));
        assert(views(ec_blocks@) =~= Seq::new(nb as nat, |t: int| ec_block(content@, v, level, t)));
        let mut out: Vec<i16> = Vec::new();
        interleave_blocks(&data_blocks, short + 1, &mut out);
        interleave_blocks(&ec_blocks, ec as usize, &mut out);
        assert(out@ =~= codeword_sequence(content@, v, level));
        out
    }
}


/// Every bit placed in a symbol is 0 or 1.
pub proof fn lemma_symbol_bits_bits(data: Seq<u8>, mode: ByteNameOfMode, version: int, level: ErrorLevel)
    ensures
        all_bits(symbol_bits(data, mode, version, level)),
{
    let content = codewords_of(stream_bits(data, mode, version, level));
    let cw = codeword_sequence(content, version, level).map_values(|c: i16| c as u8);
    lemma_data_bits_bits(cw);
    let a = data_bits(cw);
    let z = Seq::new(remainder_bits(version) as nat, |i: int| 0u8);
    assert forall|i: int| 0 <= i < (a + z).len() implies #[trigger] (a + z)[i] <= 1 by {
        if i >= a.len() {
            assert((a + z)[i] == z[i - a.len()]);
        }
    }
}

} // verus!
