//! Decoding undoes packing: for each quantized format, what a block holds is told by how its bytes
//! are put together, and decoding gives back what was packed.

use vstd::prelude::*;
use crate::gguf;
use crate::half;
use crate::quant;
use crate::quant::{Grids, Weight};

verus! {

/// Powers of two that the formats use.
proof fn lemma_powers()
    ensures
        quant::two_to(0) == 1,
        quant::two_to(1) == 2,
        quant::two_to(2) == 4,
        quant::two_to(3) == 8,
        quant::two_to(4) == 16,
        quant::two_to(5) == 32,
        quant::two_to(6) == 64,
        quant::two_to(7) == 128,
        quant::two_to(8) == 256,
        quant::two_to(9) == 512,
        quant::two_to(14) == 0x4000,
        quant::two_to(21) == 0x20_0000,
        quant::two_to(28) == 0x1000_0000,
        quant::two_to(16) == 0x1_0000,
        quant::two_to(24) == 0x100_0000,
        quant::two_to(32) == 0x1_0000_0000,
        quant::two_to(40) == 0x100_0000_0000,
        quant::two_to(48) == 0x1_0000_0000_0000,
        quant::two_to(56) == 0x100_0000_0000_0000,
{
    reveal_with_fuel(quant::two_to, 10);
    assert(quant::two_to(9) == 512);
    assert(quant::two_to(14) == 0x4000);
    assert(quant::two_to(16) == 0x1_0000);
    assert(quant::two_to(21) == 0x20_0000);
    assert(quant::two_to(24) == 0x100_0000);
    assert(quant::two_to(28) == 0x1000_0000);
    assert(quant::two_to(32) == 0x1_0000_0000);
    assert(quant::two_to(40) == 0x100_0000_0000);
    assert(quant::two_to(48) == 0x1_0000_0000_0000);
}

/// All numbers are at least zero and below a bound.
pub open spec fn below(numbers: Seq<int>, bound: int) -> bool {
    forall|i: int| 0 <= i < numbers.len() ==> 0 <= #[trigger] numbers[i] < bound
}

/// The half-precision number that two bytes hold, least significant first, widened.
pub open spec fn half_at(block: Seq<u8>, at: int, single: u32) -> bool {
    half::widens((block[at] + 256 * block[at + 1]) as u16, single)
}

/// A byte holds eight flags, the first as its lowest bit.
pub open spec fn packs_bits(byte: u8, bits: Seq<int>) -> bool {
    &&& bits.len() == 8
    &&& below(bits, 2)
    &&& byte == bits[0] + 2 * bits[1] + 4 * bits[2] + 8 * bits[3] + 16 * bits[4] + 32 * bits[5]
        + 64 * bits[6] + 128 * bits[7]
}

/// A byte holds four pairs of bits, the first as its lowest.
pub open spec fn packs_pairs(byte: u8, pairs: Seq<int>) -> bool {
    &&& pairs.len() == 4
    &&& below(pairs, 4)
    &&& byte == pairs[0] + 4 * pairs[1] + 16 * pairs[2] + 64 * pairs[3]
}

proof fn lemma_bit(byte: u8, bits: Seq<int>, k: int)
    requires
        packs_bits(byte, bits),
        0 <= k < 8,
    ensures
        quant::bits_of(byte as nat, k as nat, 1) == bits[k],
{
    lemma_powers();
    assert(bits[0] >= 0 && bits[1] >= 0 && bits[2] >= 0 && bits[3] >= 0);
    assert(bits[4] >= 0 && bits[5] >= 0 && bits[6] >= 0 && bits[7] >= 0);
    let b = byte as int;
    if k == 0 {
        assert(b % 2 == bits[0]);
    } else if k == 1 {
        assert((b / 2) % 2 == bits[1]);
    } else if k == 2 {
        assert((b / 4) % 2 == bits[2]);
    } else if k == 3 {
        assert((b / 8) % 2 == bits[3]);
    } else if k == 4 {
        assert((b / 16) % 2 == bits[4]);
    } else if k == 5 {
        assert((b / 32) % 2 == bits[5]);
    } else if k == 6 {
        assert((b / 64) % 2 == bits[6]);
    } else {
        assert((b / 128) % 2 == bits[7]);
    }
}

proof fn lemma_pair(byte: u8, pairs: Seq<int>, k: int)
    requires
        packs_pairs(byte, pairs),
        0 <= k < 4,
    ensures
        quant::bits_of(byte as nat, (2 * k) as nat, 2) == pairs[k],
{
    lemma_powers();
    assert(pairs[0] >= 0 && pairs[1] >= 0 && pairs[2] >= 0 && pairs[3] >= 0);
    let b = byte as int;
    if k == 0 {
        assert(b % 4 == pairs[0]);
    } else if k == 1 {
        assert((b / 4) % 4 == pairs[1]);
    } else if k == 2 {
        assert((b / 16) % 4 == pairs[2]);
    } else {
        assert((b / 64) % 4 == pairs[3]);
    }
}

/// A number of eight bits, the negative ones counted down from 256.
pub open spec fn packs_signed(byte: u8, number: int) -> bool {
    &&& -128 <= number < 128
    &&& byte == if number < 0 {
        number + 256
    } else {
        number
    }
}

/// Twelve bytes hold eight scales and eight minima of six bits: the first four of each have a byte
/// each, whose upper two bits are the upper two bits of one of the last four; the lower four bits
/// of the last four scales and minima share the last four bytes.
pub open spec fn packs_scales(bytes: Seq<u8>, scales: Seq<int>, minima: Seq<int>) -> bool {
    &&& bytes.len() == 12
    &&& scales.len() == 8
    &&& minima.len() == 8
    &&& below(scales, 64)
    &&& below(minima, 64)
    &&& forall|k: int|
        #![trigger bytes[k]]
        0 <= k < 4 ==> {
            &&& bytes[k] == scales[k] + 64 * (scales[4 + k] / 16)
            &&& bytes[4 + k] == minima[k] + 64 * (minima[4 + k] / 16)
            &&& bytes[8 + k] == scales[4 + k] % 16 + 16 * (minima[4 + k] % 16)
        }
}

/// A number made of a lower part and a multiple of a bound gives back both.
proof fn lemma_parts(number: int, low: int, bound: int, high: int)
    requires
        0 <= low < bound,
        number == low + bound * high,
    ensures
        number % bound == low,
        number / bound == high,
{
    assert(bound * high == high * bound) by (nonlinear_arith);
    vstd::arithmetic::div_mod::lemma_fundamental_div_mod_converse(number, bound, high, low);
}

/// Unpacking the scales and minima of a block gives back those that were packed.
pub proof fn scales_and_minima_survive(
    bytes: Seq<u8>,
    scales: Seq<int>,
    minima: Seq<int>,
    j: int,
)
    requires
        packs_scales(bytes, scales, minima),
        0 <= j < 8,
    ensures
        quant::scale_min(bytes, j).0 == scales[j],
        quant::scale_min(bytes, j).1 == minima[j],
{
    let k = j % 4;
    assert(bytes[k] == scales[k] + 64 * (scales[4 + k] / 16));
    assert(0 <= scales[k] < 64 && 0 <= scales[4 + k] < 64);
    assert(0 <= minima[k] < 64 && 0 <= minima[4 + k] < 64);
    let s = scales[4 + k];
    let m = minima[4 + k];
    lemma_parts(bytes[k] as int, scales[k], 64, s / 16);
    lemma_parts(bytes[4 + k] as int, minima[k], 64, m / 16);
    lemma_parts(bytes[8 + k] as int, s % 16, 16, m % 16);
    if j >= 4 {
        assert(j == 4 + k);
    } else {
        assert(j == k);
    }
}

/// 128 bytes hold 256 codes of four bits: of each 64, the first half in the lower nibbles and the
/// second half in the upper ones.
pub open spec fn packs_nibbles(bytes: Seq<u8>, codes: Seq<int>) -> bool {
    &&& bytes.len() == 128
    &&& codes.len() == 256
    &&& below(codes, 16)
    &&& forall|c: int, l: int|
        #![trigger bytes[32 * c + l]]
        0 <= c < 4 && 0 <= l < 32 ==> bytes[32 * c + l] == codes[64 * c + l] + 16 * codes[64 * c + 32
            + l]
}

proof fn lemma_nibble(bytes: Seq<u8>, codes: Seq<int>, i: int)
    requires
        packs_nibbles(bytes, codes),
        0 <= i < 256,
    ensures
        quant::nibble(bytes[32 * (i / 64) + i % 32], (i / 32) % 2 == 1) == codes[i],
{
    let c = i / 64;
    let l = i % 32;
    assert(bytes[32 * c + l] == codes[64 * c + l] + 16 * codes[64 * c + 32 + l]);
    assert(0 <= codes[64 * c + l] < 16 && 0 <= codes[64 * c + 32 + l] < 16);
    assert(i == 64 * c + 32 * ((i / 32) % 2) + l);
}

/// A Q4_K block gives back its scales, minima and codes: weight `i` has the scale and the minimum
/// of its 32, and its own code.
pub proof fn q4_k_survives(
    block: Seq<u8>,
    scales: Seq<int>,
    minima: Seq<int>,
    codes: Seq<int>,
    i: int,
    grids: Grids,
    w: Weight,
)
    requires
        block.len() == 144,
        packs_scales(block.subrange(4, 16), scales, minima),
        packs_nibbles(block.subrange(16, 144), codes),
        0 <= i < 256,
        quant::is_weight(12, block, i, grids, w),
    ensures
        w matches Weight::Offset { d, dmin, scale, min, code } && half_at(block, 0, d) && half_at(
            block,
            2,
            dmin,
        ) && scale == scales[i / 32] && min == minima[i / 32] && code == codes[i],
{
    scales_and_minima_survive(block.subrange(4, 16), scales, minima, i / 32);
    lemma_nibble(block.subrange(16, 144), codes, i);
    assert(block.subrange(16, 144)[32 * (i / 64) + i % 32] == block[16 + 32 * (i / 64) + i % 32]);
    assert(0 <= scales[i / 32] && 0 <= minima[i / 32] && 0 <= codes[i]);
}

/// A Q5_K block gives back its scales, minima and codes: the fifth bits of the weights that are a
/// multiple of 32 apart share a byte.
pub proof fn q5_k_survives(
    block: Seq<u8>,
    scales: Seq<int>,
    minima: Seq<int>,
    low: Seq<int>,
    high: Seq<int>,
    i: int,
    grids: Grids,
    w: Weight,
)
    requires
        block.len() == 176,
        packs_scales(block.subrange(4, 16), scales, minima),
        high.len() == 256,
        forall|l: int|
            0 <= l < 32 ==> packs_bits(
                #[trigger] block[16 + l],
                Seq::new(8, |b: int| high[32 * b + l]),
            ),
        packs_nibbles(block.subrange(48, 176), low),
        0 <= i < 256,
        quant::is_weight(13, block, i, grids, w),
    ensures
        w matches Weight::Offset { d, dmin, scale, min, code } && half_at(block, 0, d) && half_at(
            block,
            2,
            dmin,
        ) && scale == scales[i / 32] && min == minima[i / 32] && code == low[i] + 16 * high[i],
{
    scales_and_minima_survive(block.subrange(4, 16), scales, minima, i / 32);
    lemma_nibble(block.subrange(48, 176), low, i);
    assert(block.subrange(48, 176)[32 * (i / 64) + i % 32] == block[48 + 32 * (i / 64) + i % 32]);
    let l = i % 32;
    let bits = Seq::new(8, |b: int| high[32 * b + l]);
    assert(packs_bits(block[16 + l], bits));
    lemma_bit(block[16 + l], bits, i / 32);
    assert(bits[i / 32] == high[32 * (i / 32) + l]);
    assert(32 * (i / 32) + l == i);
    assert(0 <= bits[i / 32] < 2);
    assert(0 <= scales[i / 32] && 0 <= minima[i / 32] && 0 <= low[i]);
}

/// Where a weight of a Q6_K block is found.
proof fn lemma_sixteenths(i: int)
    requires
        0 <= i < 256,
    ensures
        0 <= i / 128 < 2,
        0 <= (i % 128) / 32 < 4,
        i == 128 * (i / 128) + 32 * ((i % 128) / 32) + i % 32,
        8 * (i / 128) + (i % 32) / 16 + 2 * ((i % 128) / 32) == i / 16,
        (i % 128) / 32 < 2 ==> i == 128 * (i / 128) + (32 * (((i % 128) / 32) % 2) + i % 32),
        (i % 128) / 32 >= 2 ==> i == 128 * (i / 128) + 64 + (32 * (((i % 128) / 32) % 2) + i % 32),
{
}

/// A Q6_K block gives back its scales and codes. Of each 128 codes, counted from -32, the lower
/// four bits of the first 64 stand in the lower nibbles and those of the other 64 in the upper
/// ones; the upper two bits of the codes that are a multiple of 32 apart share a byte; each 16
/// weights have a scale.
pub proof fn q6_k_survives(
    block: Seq<u8>,
    scales: Seq<int>,
    codes: Seq<int>,
    i: int,
    grids: Grids,
    w: Weight,
)
    requires
        block.len() == 210,
        scales.len() == 16,
        codes.len() == 256,
        forall|k: int| 0 <= k < 256 ==> -32 <= #[trigger] codes[k] < 32,
        forall|n: int, m: int|
            #![trigger block[64 * n + m]]
            0 <= n < 2 && 0 <= m < 64 ==> block[64 * n + m] == (codes[128 * n + m] + 32) % 16 + 16
                * ((codes[128 * n + 64 + m] + 32) % 16),
        forall|n: int, l: int|
            #![trigger block[128 + 32 * n + l]]
            0 <= n < 2 && 0 <= l < 32 ==> packs_pairs(
                block[128 + 32 * n + l],
                Seq::new(4, |p: int| (codes[128 * n + 32 * p + l] + 32) / 16),
            ),
        forall|k: int| 0 <= k < 16 ==> packs_signed(#[trigger] block[192 + k], scales[k]),
        0 <= i < 256,
        quant::is_weight(14, block, i, grids, w),
    ensures
        w matches Weight::Twice { d, scale, code } && half_at(block, 208, d) && scale == scales[i
            / 16] && code == codes[i],
{
    let n = i / 128;
    let part = (i % 128) / 32;
    let l = i % 32;
    let m = 32 * (part % 2) + l;
    lemma_sixteenths(i);
    let first = codes[128 * n + m] + 32;
    let second = codes[128 * n + 64 + m] + 32;
    assert(-32 <= codes[128 * n + m] < 32 && -32 <= codes[128 * n + 64 + m] < 32);
    assert(block[64 * n + m] == (codes[128 * n + m] + 32) % 16 + 16 * ((codes[128 * n + 64 + m]
        + 32) % 16));
    lemma_parts(block[64 * n + m] as int, first % 16, 16, second % 16);
    let pairs = Seq::new(4, |p: int| (codes[128 * n + 32 * p + l] + 32) / 16);
    assert(packs_pairs(block[128 + 32 * n + l], pairs));
    lemma_pair(block[128 + 32 * n + l], pairs, part);
    assert(pairs[part] == (codes[i] + 32) / 16);
    let k = i / 16;
    assert(packs_signed(block[192 + k], scales[k]));
}

/// A Q2_K block gives back its scales, minima and codes: each 16 weights have a scale and a
/// minimum, and of each 128 codes those that are a multiple of 32 apart share a byte.
pub proof fn q2_k_survives(
    block: Seq<u8>,
    scales: Seq<int>,
    minima: Seq<int>,
    codes: Seq<int>,
    i: int,
    grids: Grids,
    w: Weight,
)
    requires
        block.len() == 84,
        scales.len() == 16,
        minima.len() == 16,
        codes.len() == 256,
        below(scales, 16),
        below(minima, 16),
        forall|k: int| 0 <= k < 16 ==> #[trigger] block[k] == scales[k] + 16 * minima[k],
        forall|n: int, l: int|
            #![trigger block[16 + 32 * n + l]]
            0 <= n < 2 && 0 <= l < 32 ==> packs_pairs(
                block[16 + 32 * n + l],
                Seq::new(4, |p: int| codes[128 * n + 32 * p + l]),
            ),
        0 <= i < 256,
        quant::is_weight(10, block, i, grids, w),
    ensures
        w matches Weight::Offset { d, dmin, scale, min, code } && half_at(block, 80, d) && half_at(
            block,
            82,
            dmin,
        ) && scale == scales[i / 16] && min == minima[i / 16] && code == codes[i],
{
    let n = i / 128;
    let part = (i % 128) / 32;
    let l = i % 32;
    assert(i == 128 * n + 32 * part + l);
    let pairs = Seq::new(4, |p: int| codes[128 * n + 32 * p + l]);
    assert(packs_pairs(block[16 + 32 * n + l], pairs));
    lemma_pair(block[16 + 32 * n + l], pairs, part);
    assert(pairs[part] == codes[i]);
    assert(0 <= pairs[part] < 4);
    assert(block[i / 16] == scales[i / 16] + 16 * minima[i / 16]);
    assert(0 <= scales[i / 16] < 16 && 0 <= minima[i / 16] < 16);
}

/// Sixteen bytes hold 32 codes of four bits: the first half in the lower nibbles, the second half
/// in the upper ones.
pub open spec fn packs_halves(bytes: Seq<u8>, codes: Seq<int>) -> bool {
    &&& bytes.len() == 16
    &&& codes.len() == 32
    &&& below(codes, 16)
    &&& forall|l: int| 0 <= l < 16 ==> #[trigger] bytes[l] == codes[l] + 16 * codes[l + 16]
}

proof fn lemma_half(bytes: Seq<u8>, codes: Seq<int>, i: int)
    requires
        packs_halves(bytes, codes),
        0 <= i < 32,
    ensures
        quant::nibble(bytes[i % 16], i >= 16) == codes[i],
        0 <= codes[i] < 16,
{
    let l = i % 16;
    assert(bytes[l] == codes[l] + 16 * codes[l + 16]);
    assert(0 <= codes[l] < 16 && 0 <= codes[l + 16] < 16);
}

/// A Q4_0 block gives back its codes, counted from -8.
pub proof fn q4_0_survives(block: Seq<u8>, codes: Seq<int>, i: int, grids: Grids, w: Weight)
    requires
        block.len() == 18,
        packs_halves(block.subrange(2, 18), codes),
        0 <= i < 32,
        quant::is_weight(2, block, i, grids, w),
    ensures
        w matches Weight::Scaled { d, code } && half_at(block, 0, d) && code == codes[i] - 8,
{
    lemma_half(block.subrange(2, 18), codes, i);
    assert(block.subrange(2, 18)[i % 16] == block[2 + i % 16]);
}

/// A Q4_1 block gives back its codes.
pub proof fn q4_1_survives(block: Seq<u8>, codes: Seq<int>, i: int, grids: Grids, w: Weight)
    requires
        block.len() == 20,
        packs_halves(block.subrange(4, 20), codes),
        0 <= i < 32,
        quant::is_weight(3, block, i, grids, w),
    ensures
        w matches Weight::Affine { d, m, code } && half_at(block, 0, d) && half_at(block, 2, m)
            && code == codes[i],
{
    lemma_half(block.subrange(4, 20), codes, i);
    assert(block.subrange(4, 20)[i % 16] == block[4 + i % 16]);
}

/// Four bytes hold the fifth bits of 32 codes, in order.
pub open spec fn packs_fifths(bytes: Seq<u8>, high: Seq<int>) -> bool {
    &&& bytes.len() == 4
    &&& high.len() == 32
    &&& forall|b: int|
        0 <= b < 4 ==> packs_bits(#[trigger] bytes[b], high.subrange(8 * b, 8 * b + 8))
}

proof fn lemma_fifth(bytes: Seq<u8>, high: Seq<int>, i: int)
    requires
        packs_fifths(bytes, high),
        0 <= i < 32,
    ensures
        quant::bits_of(bytes[i / 8] as nat, (i % 8) as nat, 1) == high[i],
        0 <= high[i] < 2,
{
    let b = i / 8;
    let bits = high.subrange(8 * b, 8 * b + 8);
    assert(packs_bits(bytes[b], bits));
    lemma_bit(bytes[b], bits, i % 8);
    assert(bits[i % 8] == high[i]);
}

/// A Q5_0 block gives back its codes, counted from -16.
pub proof fn q5_0_survives(
    block: Seq<u8>,
    low: Seq<int>,
    high: Seq<int>,
    i: int,
    grids: Grids,
    w: Weight,
)
    requires
        block.len() == 22,
        packs_fifths(block.subrange(2, 6), high),
        packs_halves(block.subrange(6, 22), low),
        0 <= i < 32,
        quant::is_weight(6, block, i, grids, w),
    ensures
        w matches Weight::Scaled { d, code } && half_at(block, 0, d) && code == low[i] + 16
            * high[i] - 16,
{
    lemma_half(block.subrange(6, 22), low, i);
    lemma_fifth(block.subrange(2, 6), high, i);
    assert(block.subrange(6, 22)[i % 16] == block[6 + i % 16]);
    assert(block.subrange(2, 6)[i / 8] == block[2 + i / 8]);
}

/// A Q5_1 block gives back its codes.
pub proof fn q5_1_survives(
    block: Seq<u8>,
    low: Seq<int>,
    high: Seq<int>,
    i: int,
    grids: Grids,
    w: Weight,
)
    requires
        block.len() == 24,
        packs_fifths(block.subrange(4, 8), high),
        packs_halves(block.subrange(8, 24), low),
        0 <= i < 32,
        quant::is_weight(7, block, i, grids, w),
    ensures
        w matches Weight::Affine { d, m, code } && half_at(block, 0, d) && half_at(block, 2, m)
            && code == low[i] + 16 * high[i],
{
    lemma_half(block.subrange(8, 24), low, i);
    lemma_fifth(block.subrange(4, 8), high, i);
    assert(block.subrange(8, 24)[i % 16] == block[8 + i % 16]);
    assert(block.subrange(4, 8)[i / 8] == block[4 + i / 8]);
}

/// A Q8_0 block gives back its codes.
pub proof fn q8_0_survives(block: Seq<u8>, codes: Seq<int>, i: int, grids: Grids, w: Weight)
    requires
        block.len() == 34,
        codes.len() == 32,
        forall|k: int| 0 <= k < 32 ==> packs_signed(#[trigger] block[2 + k], codes[k]),
        0 <= i < 32,
        quant::is_weight(8, block, i, grids, w),
    ensures
        w matches Weight::Scaled { d, code } && half_at(block, 0, d) && code == codes[i],
{
    assert(packs_signed(block[2 + i], codes[i]));
}

/// The numbers that the codes of a nonlinear block stand for.
pub open spec fn step_of(code: int) -> int {
    if code < 8 {
        seq![-127, -104, -83, -65, -49, -35, -22, -10][code]
    } else {
        seq![1, 13, 25, 38, 53, 69, 89, 113][code - 8]
    }
}

/// An IQ4_NL block gives back its codes, each for its number.
pub proof fn iq4_nl_survives(block: Seq<u8>, codes: Seq<int>, i: int, grids: Grids, w: Weight)
    requires
        block.len() == 18,
        packs_halves(block.subrange(2, 18), codes),
        0 <= i < 32,
        quant::is_weight(20, block, i, grids, w),
    ensures
        w matches Weight::Scaled { d, code } && half_at(block, 0, d) && code == step_of(codes[i]),
{
    lemma_half(block.subrange(2, 18), codes, i);
    assert(block.subrange(2, 18)[i % 16] == block[2 + i % 16]);
}

/// The numbers of a nonlinear block grow with their codes.
pub proof fn steps_grow(code: int, next: int)
    requires
        0 <= code < next < 16,
    ensures
        step_of(code) < step_of(next),
        quant::nonlinear(code as nat) < quant::nonlinear(next as nat),
{
}

/// An entry of a grid holds eight numbers, the first as its lowest byte.
pub open spec fn packs_entry(entry: u64, numbers: Seq<int>) -> bool {
    &&& numbers.len() == 8
    &&& below(numbers, 128)
    &&& entry == numbers[0] + 0x100 * numbers[1] + 0x1_0000 * numbers[2] + 0x100_0000 * numbers[3]
        + 0x1_0000_0000 * numbers[4] + 0x100_0000_0000 * numbers[5] + 0x1_0000_0000_0000
        * numbers[6] + 0x100_0000_0000_0000 * numbers[7]
}

/// A grid entry gives back its numbers.
pub proof fn grid_entries_survive(entry: u64, numbers: Seq<int>, j: int)
    requires
        packs_entry(entry, numbers),
        0 <= j < 8,
    ensures
        quant::grid_code(entry as nat, j as nat) == numbers[j],
{
    lemma_powers();
    assert(numbers[0] >= 0 && numbers[1] >= 0 && numbers[2] >= 0 && numbers[3] >= 0);
    assert(numbers[4] >= 0 && numbers[5] >= 0 && numbers[6] >= 0 && numbers[7] >= 0);
    assert(numbers[j] < 128);
    let e = entry as int;
    let r7 = numbers[7];
    let r6 = numbers[6] + 256 * r7;
    let r5 = numbers[5] + 256 * r6;
    let r4 = numbers[4] + 256 * r5;
    let r3 = numbers[3] + 256 * r4;
    let r2 = numbers[2] + 256 * r3;
    let r1 = numbers[1] + 256 * r2;
    lemma_parts(e, numbers[0], 256, r1);
    let l1 = numbers[0];
    let l2 = l1 + 0x100 * numbers[1];
    let l3 = l2 + 0x1_0000 * numbers[2];
    let l4 = l3 + 0x100_0000 * numbers[3];
    let l5 = l4 + 0x1_0000_0000 * numbers[4];
    let l6 = l5 + 0x100_0000_0000 * numbers[5];
    let l7 = l6 + 0x1_0000_0000_0000 * numbers[6];
    lemma_parts(e, l1, 0x100, r1);
    lemma_parts(e, l2, 0x1_0000, r2);
    lemma_parts(e, l3, 0x100_0000, r3);
    lemma_parts(e, l4, 0x1_0000_0000, r4);
    lemma_parts(e, l5, 0x100_0000_0000, r5);
    lemma_parts(e, l6, 0x1_0000_0000_0000, r6);
    lemma_parts(e, l7, 0x100_0000_0000_0000, r7);
    lemma_parts(r1, numbers[1], 256, r2);
    lemma_parts(r2, numbers[2], 256, r3);
    lemma_parts(r3, numbers[3], 256, r4);
    lemma_parts(r4, numbers[4], 256, r5);
    lemma_parts(r5, numbers[5], 256, r6);
    lemma_parts(r6, numbers[6], 256, r7);
    lemma_parts(r7, numbers[7], 256, 0);
    let n = entry as nat;
    if j == 0 {
        assert(quant::bits_of(n, 0, 8) == numbers[0]);
    } else if j == 1 {
        assert(quant::bits_of(n, 8, 8) == numbers[1]);
    } else if j == 2 {
        assert(quant::bits_of(n, 16, 8) == numbers[2]);
    } else if j == 3 {
        assert(quant::bits_of(n, 24, 8) == numbers[3]);
    } else if j == 4 {
        assert(quant::bits_of(n, 32, 8) == numbers[4]);
    } else if j == 5 {
        assert(quant::bits_of(n, 40, 8) == numbers[5]);
    } else if j == 6 {
        assert(quant::bits_of(n, 48, 8) == numbers[6]);
    } else {
        assert(quant::bits_of(n, 56, 8) == numbers[7]);
    }
}

/// Two numbers of four bits in one byte.
pub open spec fn packs_two(byte: u8, low: int, high: int) -> bool {
    0 <= low < 16 && 0 <= high < 16 && byte == low + 16 * high
}

/// Four sign patterns of seven bits and a scale of four in one word.
pub open spec fn packs_word(word: nat, patterns: Seq<int>, scale: int) -> bool {
    &&& patterns.len() == 4
    &&& below(patterns, 128)
    &&& 0 <= scale < 16
    &&& word == patterns[0] + 0x80 * patterns[1] + 0x4000 * patterns[2] + 0x20_0000 * patterns[3]
        + 0x1000_0000 * scale
}

proof fn lemma_word(word: nat, patterns: Seq<int>, scale: int, l: int)
    requires
        packs_word(word, patterns, scale),
        0 <= l < 4,
    ensures
        quant::bits_of(word, (7 * l) as nat, 7) == patterns[l],
        quant::bits_of(word, 28, 4) == scale,
{
    lemma_powers();
    assert(patterns[0] >= 0 && patterns[1] >= 0 && patterns[2] >= 0 && patterns[3] >= 0);
    let r3 = patterns[3] + 0x80 * scale;
    let r2 = patterns[2] + 0x80 * r3;
    let r1 = patterns[1] + 0x80 * r2;
    let l1 = patterns[0];
    let l2 = l1 + 0x80 * patterns[1];
    let l3 = l2 + 0x4000 * patterns[2];
    let l4 = l3 + 0x20_0000 * patterns[3];
    lemma_parts(word as int, l1, 0x80, r1);
    lemma_parts(word as int, l2, 0x4000, r2);
    lemma_parts(word as int, l3, 0x20_0000, r3);
    lemma_parts(word as int, l4, 0x1000_0000, scale);
    lemma_parts(r1, patterns[1], 0x80, r2);
    lemma_parts(r2, patterns[2], 0x80, r3);
    lemma_parts(r3, patterns[3], 0x80, scale);
    if l == 0 {
        assert(quant::bits_of(word, 0, 7) == patterns[0]);
    } else if l == 1 {
        assert(quant::bits_of(word, 7, 7) == patterns[1]);
    } else if l == 2 {
        assert(quant::bits_of(word, 14, 7) == patterns[2]);
    } else {
        assert(quant::bits_of(word, 21, 7) == patterns[3]);
    }
}

/// An IQ2_XXS block gives back its grid entries, signs and scales: each 32 weights have four
/// entries of eight numbers, four sign patterns, one for each entry, and a scale.
pub proof fn iq2_xxs_survives(
    block: Seq<u8>,
    entries: Seq<int>,
    patterns: Seq<int>,
    scales: Seq<int>,
    numbers: Seq<int>,
    signs: Seq<int>,
    i: int,
    grids: Grids,
    w: Weight,
)
    requires
        block.len() == 66,
        entries.len() == 32,
        patterns.len() == 32,
        scales.len() == 8,
        forall|g: int, l: int|
            #![trigger block[2 + 8 * g + l]]
            0 <= g < 8 && 0 <= l < 4 ==> block[2 + 8 * g + l] == entries[4 * g + l],
        forall|g: int|
            #![trigger scales[g]]
            0 <= g < 8 ==> packs_word(
                gguf::little_endian(block, 2 + 8 * g + 4, 4),
                patterns.subrange(4 * g, 4 * g + 4),
                scales[g],
            ),
        0 <= i < 256,
        packs_entry(grids.iq2xxs@[entries[i / 8]], numbers),
        packs_bits(grids.signs@[patterns[i / 8]], signs),
        quant::is_weight(16, block, i, grids, w),
    ensures
        w matches Weight::Quarter { d, scale, code, negative } && half_at(block, 0, d) && scale
            == scales[i / 32] && code == numbers[i % 8] && negative == (signs[i % 8] == 1),
{
    let g = i / 32;
    let l = (i % 32) / 8;
    assert(4 * g + l == i / 8);
    let some = patterns.subrange(4 * g, 4 * g + 4);
    let word = gguf::little_endian(block, 2 + 8 * g + 4, 4);
    assert(scales[g] == scales[g]);
    lemma_word(word, some, scales[g], l);
    assert(some[l] == patterns[i / 8]);
    assert(block[2 + 8 * g + l] == entries[4 * g + l]);
    grid_entries_survive(grids.iq2xxs@[entries[i / 8]], numbers, i % 8);
    lemma_bit(grids.signs@[patterns[i / 8]], signs, i % 8);
}

/// An IQ2_XS block gives back its grid entries, signs and scales: each eight weights have an entry
/// and a sign pattern in one word, and each 16 a scale.
pub proof fn iq2_xs_survives(
    block: Seq<u8>,
    entries: Seq<int>,
    patterns: Seq<int>,
    scales: Seq<int>,
    numbers: Seq<int>,
    signs: Seq<int>,
    i: int,
    grids: Grids,
    w: Weight,
)
    requires
        block.len() == 74,
        entries.len() == 32,
        patterns.len() == 32,
        scales.len() == 16,
        below(entries, 512),
        below(patterns, 128),
        forall|k: int|
            #![trigger entries[k]]
            0 <= k < 32 ==> block[2 + 2 * k] + 256 * block[3 + 2 * k] == entries[k] + 512
                * patterns[k],
        forall|g: int|
            0 <= g < 8 ==> packs_two(#[trigger] block[66 + g], scales[2 * g], scales[2 * g + 1]),
        0 <= i < 256,
        packs_entry(grids.iq2xs@[entries[i / 8]], numbers),
        packs_bits(grids.signs@[patterns[i / 8]], signs),
        quant::is_weight(17, block, i, grids, w),
    ensures
        w matches Weight::Quarter { d, scale, code, negative } && half_at(block, 0, d) && scale
            == scales[i / 16] && code == numbers[i % 8] && negative == (signs[i % 8] == 1),
{
    lemma_powers();
    let k = i / 8;
    assert(0 <= entries[k] < 512 && 0 <= patterns[k] < 128);
    let word = gguf::little_endian(block, 2 + 2 * k, 2);
    assert(word == block[2 + 2 * k] + 256 * block[3 + 2 * k]) by {
        reveal_with_fuel(gguf::little_endian, 3);
    }
    lemma_parts(word as int, entries[k], 512, patterns[k]);
    assert(quant::bits_of(word, 0, 9) == entries[k]);
    lemma_parts(patterns[k], patterns[k], 128, 0);
    assert(quant::bits_of(word, 9, 7) == patterns[k]);
    let g = i / 32;
    assert(packs_two(block[66 + g], scales[2 * g], scales[2 * g + 1]));
    lemma_parts(block[66 + g] as int, scales[2 * g], 16, scales[2 * g + 1]);
    let l = (i % 32) / 8;
    if l >= 2 {
        assert(i / 16 == 2 * g + 1);
    } else {
        assert(i / 16 == 2 * g);
    }
    grid_entries_survive(grids.iq2xs@[entries[k]], numbers, i % 8);
    lemma_bit(grids.signs@[patterns[k]], signs, i % 8);
}

/// An IQ2_S block gives back its grid entries, signs and scales: each eight weights have an entry,
/// whose upper two bits stand apart, and a byte of signs, and each 16 a scale.
pub proof fn iq2_s_survives(
    block: Seq<u8>,
    low: Seq<int>,
    high: Seq<int>,
    scales: Seq<int>,
    numbers: Seq<int>,
    signs: Seq<int>,
    i: int,
    grids: Grids,
    w: Weight,
)
    requires
        block.len() == 82,
        low.len() == 32,
        high.len() == 32,
        scales.len() == 16,
        forall|k: int| 0 <= k < 32 ==> #[trigger] block[2 + k] == low[k],
        forall|g: int|
            0 <= g < 8 ==> packs_pairs(
                #[trigger] block[66 + g],
                high.subrange(4 * g, 4 * g + 4),
            ),
        forall|g: int|
            0 <= g < 8 ==> packs_two(#[trigger] block[74 + g], scales[2 * g], scales[2 * g + 1]),
        0 <= i < 256,
        packs_entry(grids.iq2s@[low[i / 8] + 256 * high[i / 8]], numbers),
        packs_bits(block[34 + i / 8], signs),
        quant::is_weight(22, block, i, grids, w),
    ensures
        w matches Weight::Quarter { d, scale, code, negative } && half_at(block, 0, d) && scale
            == scales[i / 16] && code == numbers[i % 8] && negative == (signs[i % 8] == 1),
{
    let k = i / 8;
    let g = i / 32;
    let l = (i % 32) / 8;
    assert(k == 4 * g + l);
    let pairs = high.subrange(4 * g, 4 * g + 4);
    assert(packs_pairs(block[66 + g], pairs));
    lemma_pair(block[66 + g], pairs, l);
    assert(pairs[l] == high[k]);
    assert(0 <= pairs[l] < 4);
    assert(block[2 + k] == low[k]);
    assert(packs_two(block[74 + g], scales[2 * g], scales[2 * g + 1]));
    lemma_parts(block[74 + g] as int, scales[2 * g], 16, scales[2 * g + 1]);
    if l >= 2 {
        assert(i / 16 == 2 * g + 1);
    } else {
        assert(i / 16 == 2 * g);
    }
    grid_entries_survive(grids.iq2s@[low[k] + 256 * high[k]], numbers, i % 8);
    lemma_bit(block[34 + k], signs, i % 8);
}

/// An IQ3_S block gives back its grid entries, signs and scales: each four weights have an entry,
/// whose ninth bit stands apart, each eight a byte of signs, and each 32 a scale.
pub proof fn iq3_s_survives(
    block: Seq<u8>,
    low: Seq<int>,
    high: Seq<int>,
    scales: Seq<int>,
    numbers: Seq<int>,
    signs: Seq<int>,
    i: int,
    grids: Grids,
    w: Weight,
)
    requires
        block.len() == 110,
        low.len() == 64,
        high.len() == 64,
        scales.len() == 8,
        forall|k: int| 0 <= k < 64 ==> #[trigger] block[2 + k] == low[k],
        forall|g: int|
            0 <= g < 8 ==> packs_bits(
                #[trigger] block[66 + g],
                high.subrange(8 * g, 8 * g + 8),
            ),
        forall|g: int|
            0 <= g < 4 ==> packs_two(#[trigger] block[106 + g], scales[2 * g], scales[2 * g + 1]),
        0 <= i < 256,
        packs_entry(grids.iq3s@[low[i / 4] + 256 * high[i / 4]] as u64, numbers),
        packs_bits(block[74 + i / 8], signs),
        quant::is_weight(21, block, i, grids, w),
    ensures
        w matches Weight::Odd { d, scale, code, negative } && half_at(block, 0, d) && scale
            == scales[i / 32] && code == numbers[i % 4] && negative == (signs[i % 8] == 1),
{
    let k = i / 4;
    let g = i / 32;
    assert(k == 8 * g + k % 8);
    let bits = high.subrange(8 * g, 8 * g + 8);
    assert(packs_bits(block[66 + g], bits));
    lemma_bit(block[66 + g], bits, k % 8);
    assert(bits[k % 8] == high[k]);
    assert(0 <= bits[k % 8] < 2);
    assert(block[2 + k] == low[k]);
    let h = i / 64;
    assert(packs_two(block[106 + h], scales[2 * h], scales[2 * h + 1]));
    lemma_parts(block[106 + h] as int, scales[2 * h], 16, scales[2 * h + 1]);
    if (i / 32) % 2 == 1 {
        assert(g == 2 * h + 1);
    } else {
        assert(g == 2 * h);
    }
    grid_entries_survive(grids.iq3s@[low[k] + 256 * high[k]] as u64, numbers, i % 4);
    lemma_bit(block[74 + i / 8], signs, i % 8);
}

/// Plain numbers are the bytes that they are stored in, least significant first; the two bytes of a
/// bfloat16 are the upper half of a number.
pub proof fn plain_numbers_survive(block: Seq<u8>, bits: u32, grids: Grids, w: Weight)
    ensures
        quant::is_weight(0, block, 0, grids, w) && bits == block[0] + 0x100 * block[1] + 0x1_0000
            * block[2] + 0x100_0000 * block[3] ==> w == Weight::Plain(bits),
        quant::is_weight(1, block, 0, grids, w) ==> (w matches Weight::Plain(single) && half_at(
            block,
            0,
            single,
        )),
        quant::is_weight(30, block, 0, grids, w) && bits == 0x1_0000 * block[0] + 0x100_0000
            * block[1] ==> w == Weight::Plain(bits),
{
    reveal_with_fuel(gguf::little_endian, 5);
}

} // verus!
