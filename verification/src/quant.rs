//! Quantized tensor data: which codes a block holds.
//!
//! A quantized weight is a small integer code with the scales of its block. Decoding picks the code
//! and its scales out of the block's bytes; [`Weight`] says how they make up the number, and the
//! arithmetic on floating-point numbers is the caller's.

use vstd::prelude::*;
use crate::arithmetic;
use crate::fold;
use crate::gguf;
use crate::gguf::ggml_type_size;
use crate::half;
use crate::half::{bf16_to_f32, f16_to_f32};
use crate::layout;
use crate::row_sums;
use crate::row_sums::{order_for, sum_row};

verus! {

/// A weight. Scales are single-precision bit patterns.
#[allow(inconsistent_fields)]
#[derive(Clone, Copy, Debug, PartialEq, Eq, Structural)]
pub enum Weight {
    /// The number itself.
    Plain(u32),
    /// `d * code`.
    Scaled { d: u32, code: i32 },
    /// `code * d + m`.
    Affine { d: u32, m: u32, code: u32 },
    /// `(d * scale) * code - (dmin * min)`.
    Offset { d: u32, dmin: u32, scale: u32, min: u32, code: u32 },
    /// `d * scale * code`.
    Twice { d: u32, scale: i32, code: i32 },
    /// `d * (0.5 + scale) * 0.25 * code`, negated where `negative`.
    Quarter { d: u32, scale: u32, code: i32, negative: bool },
    /// `d * (1 + 2 * scale) * code`, negated where `negative`.
    Odd { d: u32, scale: u32, code: i32, negative: bool },
}

/// The code books of the grid formats: packed grid entries and sign patterns.
#[derive(Clone, Copy)]
pub struct Grids<'a> {
    pub iq2xxs: &'a [u64],
    pub iq2xs: &'a [u64],
    pub iq2s: &'a [u64],
    pub iq3s: &'a [u32],
    pub signs: &'a [u8],
}

impl<'a> Grids<'a> {
    /// Every index that a block can hold is in its book.
    pub open spec fn wf(&self) -> bool {
        &&& self.iq2xxs@.len() == 256
        &&& self.iq2xs@.len() == 512
        &&& self.iq2s@.len() == 1024
        &&& self.iq3s@.len() == 512
        &&& self.signs@.len() == 128
    }
}

/// `2^k`, for `k < 32`.
pub open spec fn two_to(k: nat) -> nat
    decreases k,
{
    if k == 0 {
        1
    } else {
        2 * two_to((k - 1) as nat)
    }
}

/// The `width` bits of `n` from bit `from` on.
pub open spec fn bits_of(n: nat, from: nat, width: nat) -> nat {
    (n / two_to(from)) % two_to(width)
}

/// `2^k`.
fn power(k: u32) -> (p: u64)
    requires
        k < 64,
    ensures
        p == two_to(k as nat),
        p > 0,
    decreases k,
{
    proof {
        lemma_two_to(k as nat);
    }
    if k == 0 {
        1
    } else {
        2 * power(k - 1)
    }
}

/// Powers of two below `2^64`.
proof fn lemma_two_to(k: nat)
    requires
        k < 64,
    ensures
        0 < two_to(k) <= 0x8000_0000_0000_0000,
    decreases 64 - k,
{
    if k < 63 {
        lemma_two_to(k + 1);
    } else {
        lemma_two_63();
    }
    lemma_two_positive(k);
}

proof fn lemma_two_positive(k: nat)
    ensures
        two_to(k) > 0,
    decreases k,
{
    if k > 0 {
        lemma_two_positive((k - 1) as nat);
    }
}

proof fn lemma_two_63()
    ensures
        two_to(63) == 0x8000_0000_0000_0000,
        two_to(8) == 256,
        two_to(7) == 128,
        two_to(4) == 16,
        two_to(2) == 4,
        two_to(1) == 2,
        two_to(28) == 0x1000_0000,
        two_to(0) == 1,
        two_to(16) == 65536,
{
    reveal_with_fuel(two_to, 17);
    assert(two_to(16) == 65536);
    assert(two_to(28) == 0x1000_0000) by {
        reveal_with_fuel(two_to, 13);
    }
    assert(two_to(40) == 0x100_0000_0000) by {
        reveal_with_fuel(two_to, 13);
    }
    assert(two_to(52) == 0x10_0000_0000_0000) by {
        reveal_with_fuel(two_to, 13);
    }
}

/// The `width` bits of `n` from bit `from` on.
pub fn pick_bits(n: u64, from: u32, width: u32) -> (value: u64)
    requires
        from < 64,
        width < 64,
    ensures
        value == bits_of(n as nat, from as nat, width as nat),
        value < two_to(width as nat),
{
    (n / power(from)) % power(width)
}

/// The half-precision scale at a place of a block, widened.
pub open spec fn is_scale(block: Seq<u8>, at: int, single: u32) -> bool {
    half::widens((block[at] + 256 * block[at + 1]) as u16, single)
}

/// The scale and the minimum of sub-block `j` of a K-quant block, packed in twelve bytes: six bits
/// each, the upper two bits of the last four kept with the first eight.
pub open spec fn scale_min(scales: Seq<u8>, j: int) -> (nat, nat) {
    if j < 4 {
        ((scales[j] % 64) as nat, (scales[j + 4] % 64) as nat)
    } else {
        (
            (scales[j + 4] % 16 + 16 * (scales[j - 4] / 64)) as nat,
            (scales[j + 4] / 16 + 16 * (scales[j] / 64)) as nat,
        )
    }
}

/// The scale and the minimum of sub-block `j`.
pub fn get_scale_min_k4(j: usize, scales: &[u8]) -> (pair: (u8, u8))
    requires
        j < 8,
        scales@.len() == 12,
    ensures
        pair.0 as nat == scale_min(scales@, j as int).0,
        pair.1 as nat == scale_min(scales@, j as int).1,
        pair.0 < 64,
        pair.1 < 64,
{
    if j < 4 {
        (scales[j] % 64, scales[j + 4] % 64)
    } else {
        (
            scales[j + 4] % 16 + 16 * (scales[j - 4] / 64),
            scales[j + 4] / 16 + 16 * (scales[j] / 64),
        )
    }
}

/// One of the two nibbles of a byte: the upper where `upper`.
pub open spec fn nibble(b: u8, upper: bool) -> nat {
    if upper {
        (b / 16) as nat
    } else {
        (b % 16) as nat
    }
}

/// The 4-bit codes of a nonlinear block stand for these values.
pub open spec fn nonlinear(code: nat) -> int {
    seq![-127int, -104, -83, -65, -49, -35, -22, -10, 1, 13, 25, 38, 53, 69, 89, 113][code as int]
}

/// Byte `j` of a packed grid entry, signed.
pub open spec fn grid_code(entry: nat, j: nat) -> int {
    signed(bits_of(entry, 8 * j, 8))
}

/// A byte taken as a signed number.
pub open spec fn signed(b: nat) -> int {
    if b < 128 {
        b as int
    } else {
        b - 256
    }
}

/// Weight `i` of a block is `w`: the statement of every format.
pub open spec fn is_weight(
    ggml_type: u32,
    block: Seq<u8>,
    i: int,
    grids: Grids,
    w: Weight,
) -> bool {
    match ggml_type {
        // F32: four bytes, least significant first.
        0 => w == Weight::Plain(gguf::little_endian(block, 0, 4) as u32),
        // F16.
        1 => w matches Weight::Plain(single) && is_scale(block, 0, single),
        // Q4_0: scale, 16 bytes of nibbles; the lower nibbles come first.
        2 => {
            &&& w matches Weight::Scaled { d, code }
            &&& is_scale(block, 0, d)
            &&& code == nibble(block[2 + i % 16], i >= 16) - 8
        },
        // Q4_1: scale, minimum, 16 bytes of nibbles.
        3 => {
            &&& w matches Weight::Affine { d, m, code }
            &&& is_scale(block, 0, d)
            &&& is_scale(block, 2, m)
            &&& code == nibble(block[4 + i % 16], i >= 16)
        },
        // Q5_0: scale, 32 fifth bits, 16 bytes of nibbles; the lower nibbles come first.
        6 => {
            &&& w matches Weight::Scaled { d, code }
            &&& is_scale(block, 0, d)
            &&& code == nibble(block[6 + i % 16], i >= 16) + 16 * bits_of(
                block[2 + i / 8] as nat,
                (i % 8) as nat,
                1,
            ) - 16
        },
        // Q5_1: scale, minimum, 32 fifth bits, 16 bytes of nibbles.
        7 => {
            &&& w matches Weight::Affine { d, m, code }
            &&& is_scale(block, 0, d)
            &&& is_scale(block, 2, m)
            &&& code == nibble(block[8 + i % 16], i >= 16) + 16 * bits_of(
                block[4 + i / 8] as nat,
                (i % 8) as nat,
                1,
            )
        },
        // Q8_0: scale, 32 signed bytes.
        8 => {
            &&& w matches Weight::Scaled { d, code }
            &&& is_scale(block, 0, d)
            &&& code == signed(block[2 + i] as nat)
        },
        // Q2_K: 16 scales with minima, 64 bytes of 2-bit codes, scale, minimum.
        10 => {
            &&& w matches Weight::Offset { d, dmin, scale, min, code }
            &&& is_scale(block, 80, d)
            &&& is_scale(block, 82, dmin)
            &&& scale == block[i / 16] % 16
            &&& min == block[i / 16] / 16
            &&& code == bits_of(
                block[16 + 32 * (i / 128) + i % 32] as nat,
                (2 * ((i % 128) / 32)) as nat,
                2,
            )
        },
        // Q4_K: scale, minimum, packed sub-block scales, 128 bytes of nibbles.
        12 => {
            &&& w matches Weight::Offset { d, dmin, scale, min, code }
            &&& is_scale(block, 0, d)
            &&& is_scale(block, 2, dmin)
            &&& scale == scale_min(block.subrange(4, 16), i / 32).0
            &&& min == scale_min(block.subrange(4, 16), i / 32).1
            &&& code == nibble(block[16 + 32 * (i / 64) + i % 32], (i / 32) % 2 == 1)
        },
        // Q5_K: as Q4_K, with 32 bytes of fifth bits before the nibbles.
        13 => {
            &&& w matches Weight::Offset { d, dmin, scale, min, code }
            &&& is_scale(block, 0, d)
            &&& is_scale(block, 2, dmin)
            &&& scale == scale_min(block.subrange(4, 16), i / 32).0
            &&& min == scale_min(block.subrange(4, 16), i / 32).1
            &&& code == nibble(block[48 + 32 * (i / 64) + i % 32], (i / 32) % 2 == 1) + 16
                * bits_of(block[16 + i % 32] as nat, (i / 32) as nat, 1)
        },
        // Q6_K: 128 bytes of nibbles, 64 bytes of upper bit pairs, 16 signed scales, scale.
        14 => {
            let part = (i % 128) / 32;
            &&& w matches Weight::Twice { d, scale, code }
            &&& is_scale(block, 208, d)
            &&& scale == signed(block[192 + 8 * (i / 128) + (i % 32) / 16 + 2 * part] as nat)
            &&& code == nibble(block[64 * (i / 128) + 32 * (part % 2) + i % 32], part >= 2) + 16
                * bits_of(block[128 + 32 * (i / 128) + i % 32] as nat, (2 * part) as nat, 2) - 32
        },
        // IQ2_XXS: scale, then for each 32 weights four grid indices and a word of signs and scale.
        16 => {
            let at = 2 + 8 * (i / 32);
            let l = (i % 32) / 8;
            let word = gguf::little_endian(block, at + 4, 4);
            &&& w matches Weight::Quarter { d, scale, code, negative }
            &&& is_scale(block, 0, d)
            &&& scale == bits_of(word, 28, 4)
            &&& code == grid_code(grids.iq2xxs@[block[at + l] as int] as nat, (i % 8) as nat)
            &&& negative == (bits_of(
                grids.signs@[bits_of(word, (7 * l) as nat, 7) as int] as nat,
                (i % 8) as nat,
                1,
            ) == 1)
        },
        // IQ2_XS: scale, 32 words of grid index and sign pattern, 8 bytes of scales.
        17 => {
            let l = (i % 32) / 8;
            let word = gguf::little_endian(block, 2 + 2 * (i / 8), 2);
            &&& w matches Weight::Quarter { d, scale, code, negative }
            &&& is_scale(block, 0, d)
            &&& scale == nibble(block[66 + i / 32], l >= 2)
            &&& code == grid_code(grids.iq2xs@[bits_of(word, 0, 9) as int] as nat, (i % 8) as nat)
            &&& negative == (bits_of(
                grids.signs@[bits_of(word, 9, 7) as int] as nat,
                (i % 8) as nat,
                1,
            ) == 1)
        },
        // IQ4_NL: scale, 16 bytes of nibbles into the nonlinear values.
        20 => {
            &&& w matches Weight::Scaled { d, code }
            &&& is_scale(block, 0, d)
            &&& code == nonlinear(nibble(block[2 + i % 16], i >= 16))
        },
        // IQ3_S: scale, 64 grid indices, 8 bytes of ninth bits, 32 sign bytes, 4 bytes of scales.
        21 => {
            let pair = i / 4;
            let index = block[2 + pair] as nat + 256 * bits_of(
                block[66 + i / 32] as nat,
                (pair % 8) as nat,
                1,
            );
            &&& w matches Weight::Odd { d, scale, code, negative }
            &&& is_scale(block, 0, d)
            &&& scale == nibble(block[106 + i / 64], (i / 32) % 2 == 1)
            &&& code == grid_code(grids.iq3s@[index as int] as nat, (i % 4) as nat)
            &&& negative == (bits_of(block[74 + i / 8] as nat, (i % 8) as nat, 1) == 1)
        },
        // IQ2_S: scale, 32 grid indices, 32 sign bytes, 8 bytes of upper bit pairs, 8 of scales.
        22 => {
            let l = (i % 32) / 8;
            let index = block[2 + i / 8] as nat + 256 * bits_of(
                block[66 + i / 32] as nat,
                (2 * l) as nat,
                2,
            );
            &&& w matches Weight::Quarter { d, scale, code, negative }
            &&& is_scale(block, 0, d)
            &&& scale == nibble(block[74 + i / 32], l >= 2)
            &&& code == grid_code(grids.iq2s@[index as int] as nat, (i % 8) as nat)
            &&& negative == (bits_of(block[34 + i / 8] as nat, (i % 8) as nat, 1) == 1)
        },
        // BF16.
        30 => w == Weight::Plain(((block[0] + 256 * block[1]) * 65536) as u32),
        _ => false,
    }
}

/// The scale at a place of a block.
fn scale_at(block: &[u8], at: usize) -> (single: u32)
    requires
        at + 2 <= block@.len(),
    ensures
        is_scale(block@, at as int, single),
{
    let bits: u16 = block[at] as u16 + 256 * (block[at + 1] as u16);
    f16_to_f32(bits)
}

/// One of the two nibbles of a byte.
fn half_byte(b: u8, upper: bool) -> (value: u8)
    ensures
        value as nat == nibble(b, upper),
        value < 16,
{
    if upper {
        b / 16
    } else {
        b % 16
    }
}

/// One bit, or a few, of a byte.
fn byte_bits(b: u8, from: usize, width: usize) -> (value: u8)
    requires
        from < 8,
        width == 1 || width == 2,
    ensures
        value as nat == bits_of(b as nat, from as nat, width as nat),
        value < 4,
        width == 1 ==> value < 2,
{
    proof {
        lemma_two_63();
    }
    pick_bits(b as u64, from as u32, width as u32) as u8
}

/// A byte taken as a signed number.
fn signed_byte(b: u8) -> (value: i32)
    ensures
        value == signed(b as nat),
{
    if b < 128 {
        b as i32
    } else {
        b as i32 - 256
    }
}

/// Byte `j` of a packed grid entry, signed.
fn grid_byte(entry: u64, j: usize) -> (value: i32)
    requires
        j < 8,
    ensures
        value == grid_code(entry as nat, j as nat),
{
    proof {
        lemma_two_63();
    }
    signed_byte(pick_bits(entry, 8 * j as u32, 8) as u8)
}

/// The value of a nonlinear code.
fn nonlinear_value(code: u8) -> (value: i32)
    requires
        code < 16,
    ensures
        value == nonlinear(code as nat),
{
    let table: [i32; 16] = [
        -127, -104, -83, -65, -49, -35, -22, -10, 1, 13, 25, 38, 53, 69, 89, 113,
    ];
    table[code as usize]
}

/// Two bytes, least significant first.
fn word16(block: &[u8], at: usize) -> (word: u64)
    requires
        at + 2 <= block@.len(),
    ensures
        word as nat == gguf::little_endian(block@, at as int, 2),
        word < 65536,
{
    proof {
        reveal_with_fuel(gguf::little_endian, 3);
    }
    block[at] as u64 + 256 * (block[at + 1] as u64)
}

/// Four bytes, least significant first.
fn word32(block: &[u8], at: usize) -> (word: u64)
    requires
        at + 4 <= block@.len(),
    ensures
        word as nat == gguf::little_endian(block@, at as int, 4),
        word < 0x1_0000_0000,
{
    proof {
        reveal_with_fuel(gguf::little_endian, 5);
    }
    block[at] as u64 + 256 * (block[at + 1] as u64) + 65536 * (block[at + 2] as u64) + 16777216 * (
    block[at + 3] as u64)
}

/// Weight `i` of a block.
#[verifier::rlimit(60)]
#[verifier::spinoff_prover]
pub fn block_weight(ggml_type: u32, block: &[u8], i: usize, grids: &Grids) -> (w: Weight)
    requires
        gguf::block_of(ggml_type) is Some,
        block@.len() == gguf::block_bytes(ggml_type),
        i < gguf::block_elements(ggml_type),
        grids.wf(),
    ensures
        is_weight(ggml_type, block@, i as int, *grids, w),
{
    match ggml_type {
        0 => Weight::Plain(word32(block, 0) as u32),
        1 => Weight::Plain(scale_at(block, 0)),
        2 => {
            let low: u8 = half_byte(block[2 + i % 16], i >= 16);
            Weight::Scaled { d: scale_at(block, 0), code: low as i32 - 8 }
        },
        3 => {
            let low: u8 = half_byte(block[4 + i % 16], i >= 16);
            Weight::Affine { d: scale_at(block, 0), m: scale_at(block, 2), code: low as u32 }
        },
        6 => {
            let low: u8 = half_byte(block[6 + i % 16], i >= 16);
            let high: u8 = byte_bits(block[2 + i / 8], i % 8, 1);
            Weight::Scaled { d: scale_at(block, 0), code: low as i32 + 16 * (high as i32) - 16 }
        },
        7 => {
            let low: u8 = half_byte(block[8 + i % 16], i >= 16);
            let high: u8 = byte_bits(block[4 + i / 8], i % 8, 1);
            Weight::Affine {
                d: scale_at(block, 0),
                m: scale_at(block, 2),
                code: low as u32 + 16 * (high as u32),
            }
        },
        8 => Weight::Scaled { d: scale_at(block, 0), code: signed_byte(block[2 + i]) },
        10 => {
            let packed: u8 = block[i / 16];
            let code: u8 = byte_bits(block[16 + 32 * (i / 128) + i % 32], 2 * ((i % 128) / 32), 2);
            Weight::Offset {
                d: scale_at(block, 80),
                dmin: scale_at(block, 82),
                scale: (packed % 16) as u32,
                min: (packed / 16) as u32,
                code: code as u32,
            }
        },
        12 => {
            let (scale, min) = get_scale_min_k4(
                i / 32,
                vstd::slice::slice_subrange(block, 4, 16),
            );
            let code: u8 = half_byte(block[16 + 32 * (i / 64) + i % 32], (i / 32) % 2 == 1);
            Weight::Offset {
                d: scale_at(block, 0),
                dmin: scale_at(block, 2),
                scale: scale as u32,
                min: min as u32,
                code: code as u32,
            }
        },
        13 => {
            let (scale, min) = get_scale_min_k4(
                i / 32,
                vstd::slice::slice_subrange(block, 4, 16),
            );
            let low: u8 = half_byte(block[48 + 32 * (i / 64) + i % 32], (i / 32) % 2 == 1);
            let high: u8 = byte_bits(block[16 + i % 32], i / 32, 1);
            Weight::Offset {
                d: scale_at(block, 0),
                dmin: scale_at(block, 2),
                scale: scale as u32,
                min: min as u32,
                code: low as u32 + 16 * (high as u32),
            }
        },
        14 => {
            let part: usize = (i % 128) / 32;
            let low: u8 = half_byte(block[64 * (i / 128) + 32 * (part % 2) + i % 32], part >= 2);
            let high: u8 = byte_bits(block[128 + 32 * (i / 128) + i % 32], 2 * part, 2);
            Weight::Twice {
                d: scale_at(block, 208),
                scale: signed_byte(block[192 + 8 * (i / 128) + (i % 32) / 16 + 2 * part]),
                code: low as i32 + 16 * (high as i32) - 32,
            }
        },
        16 => {
            let at: usize = 2 + 8 * (i / 32);
            let l: usize = (i % 32) / 8;
            let word: u64 = word32(block, at + 4);
            proof {
                lemma_two_63();
            }
            let scale: u64 = pick_bits(word, 28, 4);
            let pattern: u8 = grids.signs[pick_bits(word, 7 * l as u32, 7) as usize];
            Weight::Quarter {
                d: scale_at(block, 0),
                scale: scale as u32,
                code: grid_byte(grids.iq2xxs[block[at + l] as usize], i % 8),
                negative: byte_bits(pattern, i % 8, 1) == 1,
            }
        },
        17 => {
            let l: usize = (i % 32) / 8;
            let word: u64 = word16(block, 2 + 2 * (i / 8));
            proof {
                lemma_two_63();
                assert(two_to(9) == 512) by {
                    reveal_with_fuel(two_to, 2);
                }
            }
            let scale: u8 = half_byte(block[66 + i / 32], l >= 2);
            let pattern: u8 = grids.signs[pick_bits(word, 9, 7) as usize];
            Weight::Quarter {
                d: scale_at(block, 0),
                scale: scale as u32,
                code: grid_byte(grids.iq2xs[pick_bits(word, 0, 9) as usize], i % 8),
                negative: byte_bits(pattern, i % 8, 1) == 1,
            }
        },
        20 => {
            let code: u8 = half_byte(block[2 + i % 16], i >= 16);
            Weight::Scaled { d: scale_at(block, 0), code: nonlinear_value(code) }
        },
        21 => {
            let pair: usize = i / 4;
            let high: u8 = byte_bits(block[66 + i / 32], pair % 8, 1);
            let index: usize = block[2 + pair] as usize + 256 * (high as usize);
            let scale: u8 = half_byte(block[106 + i / 64], (i / 32) % 2 == 1);
            Weight::Odd {
                d: scale_at(block, 0),
                scale: scale as u32,
                code: grid_byte(grids.iq3s[index] as u64, i % 4),
                negative: byte_bits(block[74 + i / 8], i % 8, 1) == 1,
            }
        },
        22 => {
            let l: usize = (i % 32) / 8;
            let high: u8 = byte_bits(block[66 + i / 32], 2 * l, 2);
            let index: usize = block[2 + i / 8] as usize + 256 * (high as usize);
            let scale: u8 = half_byte(block[74 + i / 32], l >= 2);
            Weight::Quarter {
                d: scale_at(block, 0),
                scale: scale as u32,
                code: grid_byte(grids.iq2s[index], i % 8),
                negative: byte_bits(block[34 + i / 8], i % 8, 1) == 1,
            }
        },
        _ => {
            let bits: u16 = block[0] as u16 + 256 * (block[1] as u16);
            Weight::Plain(bf16_to_f32(bits))
        },
    }
}

/// Block `b` of the data of a tensor type.
pub open spec fn block_at(ggml_type: u32, data: Seq<u8>, b: int) -> Seq<u8> {
    let bytes = gguf::block_bytes(ggml_type) as int;
    data.subrange(b * bytes, b * bytes + bytes)
}

/// Weight `k` of the data of a tensor type is `w`.
pub open spec fn weight_is(ggml_type: u32, data: Seq<u8>, k: int, grids: Grids, w: Weight) -> bool {
    let elements = gguf::block_elements(ggml_type) as int;
    is_weight(ggml_type, block_at(ggml_type, data, k / elements), k % elements, grids, w)
}

/// Decodes the whole blocks of `n_elems` weights.
pub fn dequant(data: &[u8], ggml_type: u32, n_elems: usize, grids: &Grids) -> (weights: Vec<Weight>)
    requires
        gguf::block_of(ggml_type) is Some,
        gguf::type_size(ggml_type, n_elems as nat) <= data@.len(),
        grids.wf(),
    ensures
        weights@.len() == n_elems - n_elems as nat % gguf::block_elements(ggml_type),
        forall|k: int|
            0 <= k < weights@.len() ==> weight_is(
                ggml_type,
                data@,
                k,
                *grids,
                #[trigger] weights@[k],
            ),
{
    let elements: usize = block_len(ggml_type);
    proof {
        assert(data@.len() == data.len());
        vstd::arithmetic::div_mod::lemma_fundamental_div_mod(n_elems as int, elements as int);
    }
    let bytes: usize = ggml_type_size(ggml_type, elements);
    let blocks: usize = n_elems / elements;
    proof {
        assert(elements * blocks == blocks * elements) by (nonlinear_arith);
    }
    let len: usize = blocks * elements;
    let mut weights: Vec<Weight> = Vec::with_capacity(len);
    let mut k: usize = 0;
    while k < len
        invariant
            k == weights@.len() <= len,
            len == blocks * elements,
            gguf::block_of(ggml_type) is Some,
            elements == gguf::block_elements(ggml_type),
            bytes == gguf::block_bytes(ggml_type),
            0 < elements,
            0 < bytes,
            blocks * bytes <= data@.len() <= usize::MAX,
            grids.wf(),
            forall|j: int|
                0 <= j < k ==> weight_is(ggml_type, data@, j, *grids, #[trigger] weights@[j]),
        decreases len - k,
    {
        proof {
            layout::lemma_divide(k as int, blocks as int, elements as int);
            layout::lemma_cell((k / elements) as int, blocks as int, 0, bytes as int);
        }
        let b: usize = k / elements;
        let block = vstd::slice::slice_subrange(data, b * bytes, b * bytes + bytes);
        let w = block_weight(ggml_type, block, k % elements, grids);
        weights.push(w);
        k = k + 1;
    }
    weights
}

/// The weights of a block.
pub fn block_len(ggml_type: u32) -> (n: usize)
    requires
        gguf::block_of(ggml_type) is Some,
    ensures
        n == gguf::block_elements(ggml_type),
        0 < n <= 256,
        gguf::type_size(ggml_type, n as nat) == gguf::block_bytes(ggml_type),
        0 < gguf::block_bytes(ggml_type) <= 210,
{
    proof {
        let e = gguf::block_elements(ggml_type);
        let b = gguf::block_bytes(ggml_type);
        vstd::arithmetic::div_mod::lemma_div_by_self(e as int);
        assert(1 * b == b) by (nonlinear_arith);
    }
    match ggml_type {
        0 | 1 | 30 => 1,
        2 | 3 | 6 | 7 | 8 | 20 => 32,
        _ => 256,
    }
}

/// `row` holds the numbers that the first weights of `data` stand for.
pub open spec fn decodes<T, G: Fn(Weight) -> T>(
    number: G,
    ggml_type: u32,
    data: Seq<u8>,
    grids: Grids,
    row: Seq<T>,
) -> bool {
    forall|k: int|
        0 <= k < row.len() ==> stands_for(number, ggml_type, data, k, grids, #[trigger] row[k])
}

/// `value` is the number that weight `k` of `data` stands for.
pub open spec fn stands_for<T, G: Fn(Weight) -> T>(
    number: G,
    ggml_type: u32,
    data: Seq<u8>,
    k: int,
    grids: Grids,
    value: T,
) -> bool {
    exists|w: Weight|
        weight_is(ggml_type, data, k, grids, w) && #[trigger] call_ensures(number, (w,), value)
}

/// The bytes of row `j` of a matrix with `in_dim` columns.
pub open spec fn row_bytes_of(ggml_type: u32, data: Seq<u8>, in_dim: nat, j: int) -> Seq<u8> {
    let bytes = gguf::type_size(ggml_type, in_dim) as int;
    data.subrange(j * bytes, j * bytes + bytes)
}

/// `weights` are the first weights of `data`.
pub open spec fn decoded(ggml_type: u32, data: Seq<u8>, grids: Grids, weights: Seq<Weight>) -> bool {
    forall|k: int|
        0 <= k < weights.len() ==> weight_is(ggml_type, data, k, grids, #[trigger] weights[k])
}

/// `total` is the product of row `j` of a quantized matrix with the vector `x`, as far as the row
/// reaches. A row that goes `together` with several vectors is summed in its own order.
pub open spec fn row_product<
    T,
    G: Fn(Weight) -> T,
    F: Fn(T, T, T) -> T,
    P: Fn(T, T) -> T,
>(
    number: G,
    mac: F,
    plus: P,
    zero: T,
    x: Seq<T>,
    ggml_type: u32,
    data: Seq<u8>,
    in_dim: nat,
    grids: Grids,
    j: int,
    together: bool,
    total: T,
) -> bool {
    exists|weights: Seq<Weight>|
        {
            &&& weights.len() == in_dim
            &&& #[trigger] decoded(
                ggml_type,
                row_bytes_of(ggml_type, data, in_dim, j),
                grids,
                weights,
            )
            &&& row_sums::sums(
                number,
                mac,
                plus,
                zero,
                x,
                weights,
                row_sums::order_of(ggml_type, together),
                total,
            )
        }
}

/// A quantized matrix of `out_dim` rows and `in_dim` columns fits its data.
pub open spec fn matrix_fits(ggml_type: u32, data: Seq<u8>, in_dim: nat, out_dim: nat) -> bool {
    &&& gguf::block_of(ggml_type) is Some
    &&& in_dim % gguf::block_elements(ggml_type) == 0
    &&& out_dim * gguf::type_size(ggml_type, in_dim) <= data.len()
}

/// The weights of row `j` of a quantized matrix.
fn row_weights(data: &[u8], ggml_type: u32, in_dim: usize, j: usize, grids: &Grids) -> (weights:
    Vec<Weight>)
    requires
        matrix_fits(ggml_type, data@, in_dim as nat, (j + 1) as nat),
        grids.wf(),
    ensures
        weights@.len() == in_dim,
        decoded(
            ggml_type,
            row_bytes_of(ggml_type, data@, in_dim as nat, j as int),
            *grids,
            weights@,
        ),
{
    proof {
        assert(data@.len() == data.len());
        let size = gguf::type_size(ggml_type, in_dim as nat);
        assert((j + 1) * size == j * size + size) by (nonlinear_arith);
        assert(0 <= j * size) by (nonlinear_arith)
            requires
                0 <= j,
                0 <= size,
        ;
    }
    let bytes: usize = ggml_type_size(ggml_type, in_dim);
    let part = vstd::slice::slice_subrange(data, j * bytes, j * bytes + bytes);
    dequant(part, ggml_type, in_dim, grids)
}

/// The numbers of row `j` of a quantized matrix.
pub fn decode_row<T: Copy, G: Fn(Weight) -> T>(
    data: &[u8],
    ggml_type: u32,
    in_dim: usize,
    j: usize,
    grids: &Grids,
    number: &G,
) -> (row: Vec<T>)
    requires
        matrix_fits(ggml_type, data@, in_dim as nat, (j + 1) as nat),
        grids.wf(),
        fold::total1(*number),
    ensures
        row@.len() == in_dim,
        decodes(
            *number,
            ggml_type,
            row_bytes_of(ggml_type, data@, in_dim as nat, j as int),
            *grids,
            row@,
        ),
{
    let ghost bytes = row_bytes_of(ggml_type, data@, in_dim as nat, j as int);
    let weights = row_weights(data, ggml_type, in_dim, j, grids);
    let mut row: Vec<T> = Vec::with_capacity(in_dim);
    let mut k: usize = 0;
    while k < in_dim
        invariant
            k == row@.len() <= in_dim == weights@.len(),
            fold::total1(*number),
            forall|i: int|
                0 <= i < in_dim ==> weight_is(
                    ggml_type,
                    bytes,
                    i,
                    *grids,
                    #[trigger] weights@[i],
                ),
            forall|i: int|
                0 <= i < k ==> stands_for(
                    *number,
                    ggml_type,
                    bytes,
                    i,
                    *grids,
                    #[trigger] row@[i],
                ),
        decreases in_dim - k,
    {
        let w = weights[k];
        let value = number(w);
        proof {
            assert(weight_is(ggml_type, bytes, k as int, *grids, w));
            assert(call_ensures(*number, (w,), value));
        }
        row.push(value);
        k = k + 1;
    }
    row
}

/// Matrix-vector product with a quantized matrix: one number for each row.
pub fn gemv<T: Copy, G: Fn(Weight) -> T, F: Fn(T, T, T) -> T, P: Fn(T, T) -> T>(
    x: &[T],
    data: &[u8],
    ggml_type: u32,
    in_dim: usize,
    out_dim: usize,
    grids: &Grids,
    zero: T,
    number: G,
    mac: F,
    plus: P,
) -> (out: Vec<T>)
    requires
        matrix_fits(ggml_type, data@, in_dim as nat, out_dim as nat),
        in_dim <= x@.len(),
        grids.wf(),
        fold::total1(number),
        fold::total3(mac),
        fold::total2(plus),
    ensures
        out@.len() == out_dim,
        forall|j: int|
            0 <= j < out_dim ==> row_product(
                number,
                mac,
                plus,
                zero,
                x@,
                ggml_type,
                data@,
                in_dim as nat,
                *grids,
                j,
                false,
                #[trigger] out@[j],
            ),
{
    let mut out: Vec<T> = Vec::with_capacity(out_dim);
    let mut j: usize = 0;
    while j < out_dim
        invariant
            j == out@.len() <= out_dim,
            matrix_fits(ggml_type, data@, in_dim as nat, out_dim as nat),
            in_dim <= x@.len(),
            grids.wf(),
            fold::total1(number),
            fold::total3(mac),
            fold::total2(plus),
            forall|i: int|
                0 <= i < j ==> row_product(
                    number,
                    mac,
                    plus,
                    zero,
                    x@,
                    ggml_type,
                    data@,
                    in_dim as nat,
                    *grids,
                    i,
                    false,
                    #[trigger] out@[i],
                ),
        decreases out_dim - j,
    {
        proof {
            lemma_fewer_rows(ggml_type, data@, in_dim as nat, out_dim as nat, (j + 1) as nat);
        }
        let weights = row_weights(data, ggml_type, in_dim, j, grids);
        proof {
            lemma_strides(ggml_type, in_dim as nat, false);
        }
        let order = order_for(ggml_type, false);
        let total = sum_row(x, &weights, order, zero, &number, &mac, &plus);
        proof {
            assert(decoded(
                ggml_type,
                row_bytes_of(ggml_type, data@, in_dim as nat, j as int),
                *grids,
                weights@,
            ));
        }
        out.push(total);
        j = j + 1;
    }
    out
}

/// The rows of a matrix are whole strides of their order.
proof fn lemma_strides(ggml_type: u32, in_dim: nat, together: bool)
    requires
        gguf::block_of(ggml_type) is Some,
        in_dim % gguf::block_elements(ggml_type) == 0,
    ensures
        in_dim % row_sums::stride(row_sums::order_of(ggml_type, together)) == 0,
{
}

proof fn lemma_fewer_rows(ggml_type: u32, data: Seq<u8>, in_dim: nat, out_dim: nat, rows: nat)
    requires
        matrix_fits(ggml_type, data, in_dim, out_dim),
        rows <= out_dim,
    ensures
        matrix_fits(ggml_type, data, in_dim, rows),
{
    let size = gguf::type_size(ggml_type, in_dim);
    assert(rows * size <= out_dim * size) by (nonlinear_arith)
        requires
            rows <= out_dim,
            0 <= size,
    ;
}

/// Product of `n` vectors with a quantized matrix: `out[t * out_dim + j]` is the product of vector
/// `t` with row `j`. Each row is decoded once.
pub fn gemm<T: Copy, G: Fn(Weight) -> T, F: Fn(T, T, T) -> T, P: Fn(T, T) -> T>(
    x: &[T],
    data: &[u8],
    ggml_type: u32,
    in_dim: usize,
    out_dim: usize,
    n: usize,
    grids: &Grids,
    zero: T,
    number: G,
    mac: F,
    plus: P,
) -> (out: Vec<T>)
    requires
        matrix_fits(ggml_type, data@, in_dim as nat, out_dim as nat),
        n * in_dim <= x@.len(),
        n * out_dim <= usize::MAX,
        grids.wf(),
        fold::total1(number),
        fold::total3(mac),
        fold::total2(plus),
    ensures
        out@.len() == n * out_dim,
        forall|t: int, j: int|
            #![trigger out@[t * out_dim + j]]
            0 <= t < n && 0 <= j < out_dim ==> row_product(
                number,
                mac,
                plus,
                zero,
                arithmetic::row(x@, t, in_dim as nat),
                ggml_type,
                data@,
                in_dim as nat,
                *grids,
                j,
                n != 1,
                out@[t * out_dim + j],
            ),
{
    let mut columns: Vec<Vec<T>> = Vec::with_capacity(out_dim);
    let mut j: usize = 0;
    while j < out_dim
        invariant
            j == columns@.len() <= out_dim,
            matrix_fits(ggml_type, data@, in_dim as nat, out_dim as nat),
            n * in_dim <= x@.len(),
            grids.wf(),
            fold::total1(number),
            fold::total3(mac),
            fold::total2(plus),
            forall|i: int| 0 <= i < j ==> (#[trigger] columns@[i])@.len() == n,
            forall|i: int, t: int|
                #![trigger columns@[i]@[t]]
                0 <= i < j && 0 <= t < n ==> row_product(
                    number,
                    mac,
                    plus,
                    zero,
                    arithmetic::row(x@, t, in_dim as nat),
                    ggml_type,
                    data@,
                    in_dim as nat,
                    *grids,
                    i,
                    n != 1,
                    columns@[i]@[t],
                ),
        decreases out_dim - j,
    {
        proof {
            lemma_fewer_rows(ggml_type, data@, in_dim as nat, out_dim as nat, (j + 1) as nat);
            assert(x@.len() == x.len());
        }
        let weights = row_weights(data, ggml_type, in_dim, j, grids);
        let order = order_for(ggml_type, n != 1);
        proof {
            lemma_strides(ggml_type, in_dim as nat, n != 1);
        }
        let mut column: Vec<T> = Vec::with_capacity(n);
        let mut t: usize = 0;
        while t < n
            invariant
                t == column@.len() <= n,
                n * in_dim <= x@.len() <= usize::MAX,
                weights@.len() == in_dim,
                order == row_sums::order_of(ggml_type, n != 1),
                in_dim as nat % row_sums::stride(order) == 0,
                decoded(
                    ggml_type,
                    row_bytes_of(ggml_type, data@, in_dim as nat, j as int),
                    *grids,
                    weights@,
                ),
                fold::total1(number),
                fold::total3(mac),
                fold::total2(plus),
                forall|s: int|
                    0 <= s < t ==> row_product(
                        number,
                        mac,
                        plus,
                        zero,
                        arithmetic::row(x@, s, in_dim as nat),
                        ggml_type,
                        data@,
                        in_dim as nat,
                        *grids,
                        j as int,
                        n != 1,
                        #[trigger] column@[s],
                    ),
            decreases n - t,
        {
            proof {
                assert(t * in_dim + in_dim <= n * in_dim && 0 <= t * in_dim) by (nonlinear_arith)
                    requires
                        0 <= t < n,
                        0 <= in_dim,
                ;
            }
            let part = vstd::slice::slice_subrange(x, t * in_dim, t * in_dim + in_dim);
            let total = sum_row(part, &weights, order, zero, &number, &mac, &plus);
            proof {
                assert(part@ == arithmetic::row(x@, t as int, in_dim as nat));
            }
            column.push(total);
            t = t + 1;
        }
        let ghost before = columns@;
        columns.push(column);
        proof {
            assert forall|i: int, t: int|
                #![trigger columns@[i]@[t]]
                0 <= i < j + 1 && 0 <= t < n implies row_product(
                number,
                mac,
                plus,
                zero,
                arithmetic::row(x@, t, in_dim as nat),
                ggml_type,
                data@,
                in_dim as nat,
                *grids,
                i,
                n != 1,
                columns@[i]@[t],
            ) by {
                if i < j {
                    assert(columns@[i] == before[i]);
                    assert(before[i]@[t] == columns@[i]@[t]);
                } else {
                    assert(columns@[i]@ == column@);
                }
            }
        }
        j = j + 1;
    }
    let len: usize = n * out_dim;
    let mut out: Vec<T> = Vec::with_capacity(len);
    let mut k: usize = 0;
    while k < len
        invariant
            k == out@.len() <= len,
            len == n * out_dim,
            columns@.len() == out_dim,
            forall|i: int| 0 <= i < out_dim ==> (#[trigger] columns@[i])@.len() == n,
            forall|i: int|
                0 <= i < k ==> #[trigger] out@[i] == columns@[i % out_dim as int]@[i
                    / out_dim as int],
        decreases len - k,
    {
        proof {
            assert(out_dim > 0) by (nonlinear_arith)
                requires
                    0 <= k < n * out_dim,
                    0 <= out_dim,
            ;
            layout::lemma_divide(k as int, n as int, out_dim as int);
        }
        let j: usize = k % out_dim;
        let t: usize = k / out_dim;
        proof {
            assert(columns@[j as int]@.len() == n);
        }
        out.push(columns[j][t]);
        k = k + 1;
    }
    proof {
        assert forall|t: int, j: int|
            #![trigger out@[t * out_dim + j]]
            0 <= t < n && 0 <= j < out_dim implies row_product(
            number,
            mac,
            plus,
            zero,
            arithmetic::row(x@, t, in_dim as nat),
            ggml_type,
            data@,
            in_dim as nat,
            *grids,
            j,
            n != 1,
            out@[t * out_dim + j],
        ) by {
            layout::lemma_cell(t, n as int, j, out_dim as int);
            layout::lemma_split(t, j, out_dim as int);
            assert(out@[t * out_dim + j] == columns@[j]@[t]);
        }
    }
    out
}

} // verus!
