//! What a reader of PNG files finds in them.

use vstd::prelude::*;
use crate::layout;
use crate::png;

verus! {

/// The number that four bytes stand for, most significant first.
pub open spec fn number(bytes: Seq<u8>, at: int) -> int {
    bytes[at] * 0x100_0000 + bytes[at + 1] * 0x1_0000 + bytes[at + 2] * 0x100 + bytes[at + 3]
}

/// Four bytes stand for the number that they were made of.
pub proof fn four_bytes_stand_for_their_number(n: nat)
    requires
        n <= u32::MAX,
    ensures
        png::big_endian(n).len() == 4,
        number(png::big_endian(n), 0) == n,
{
}

proof fn lemma_number(bytes: Seq<u8>, at: int)
    requires
        0 <= at,
        at + 4 <= bytes.len(),
    ensures
        number(bytes, at) == number(bytes.subrange(at, at + 4), 0),
{
}

/// A reader of a file finds the signature, the header with the size, the depth and the colours of
/// the image, and after it the data.
pub proof fn a_reader_finds_the_size(width: nat, height: nat, rgb: Seq<u8>)
    requires
        width <= u32::MAX,
        height <= u32::MAX,
        png::zlib(png::unfiltered(rgb, 3 * width, height)).len() <= u32::MAX,
    ensures
        ({
            let file = png::file(width, height, rgb);
            &&& file.len() > 41
            &&& file.take(8) == seq![137u8, 80u8, 78u8, 71u8, 13u8, 10u8, 26u8, 10u8]
            &&& number(file, 8) == 13
            &&& file.subrange(12, 16) == seq![73u8, 72u8, 68u8, 82u8]
            &&& number(file, 16) == width
            &&& number(file, 20) == height
            &&& file[24] == 8 && file[25] == 2 && file[26] == 0 && file[27] == 0 && file[28] == 0
            &&& number(file, 33) == png::zlib(png::unfiltered(rgb, 3 * width, height)).len()
            &&& file.subrange(37, 41) == seq![73u8, 68u8, 65u8, 84u8]
            &&& file.subrange(
                41,
                41 + png::zlib(png::unfiltered(rgb, 3 * width, height)).len() as int,
            ) == png::zlib(png::unfiltered(rgb, 3 * width, height))
        }),
{
    let data = png::zlib(png::unfiltered(rgb, 3 * width, height));
    let file = png::file(width, height, rgb);
    let header = png::header(width, height);
    four_bytes_stand_for_their_number(13);
    four_bytes_stand_for_their_number(width);
    four_bytes_stand_for_their_number(height);
    four_bytes_stand_for_their_number(data.len());
    let signature = seq![0x89u8, 0x50u8, 0x4eu8, 0x47u8, 0x0du8, 0x0au8, 0x1au8, 0x0au8];
    let ihdr = seq![0x49u8, 0x48u8, 0x44u8, 0x52u8];
    let idat = seq![0x49u8, 0x44u8, 0x41u8, 0x54u8];
    let first = png::chunk(ihdr, header);
    let second = png::chunk(idat, data);
    assert(header.len() == 13);
    assert(first.len() == 25 && second.len() == 12 + data.len());
    assert(file.subrange(8, 33) =~= first);
    assert(file.subrange(33, 45 + data.len() as int) =~= second);
    assert(file.take(8) =~= signature);
    assert(first.subrange(0, 4) =~= png::big_endian(13));
    assert(first.subrange(4, 8) =~= ihdr);
    assert(first.subrange(8, 21) =~= header);
    assert(header.subrange(0, 4) =~= png::big_endian(width));
    assert(header.subrange(4, 8) =~= png::big_endian(height));
    assert(second.subrange(0, 4) =~= png::big_endian(data.len()));
    assert(second.subrange(4, 8) =~= idat);
    assert(second.subrange(8, 8 + data.len() as int) =~= data);
    assert(file.subrange(8, 12) =~= first.subrange(0, 4));
    assert(file.subrange(12, 16) =~= first.subrange(4, 8));
    assert(file.subrange(16, 20) =~= header.subrange(0, 4)) by {
        assert(file.subrange(16, 20) =~= first.subrange(8, 21).subrange(0, 4));
    }
    assert(file.subrange(20, 24) =~= header.subrange(4, 8)) by {
        assert(file.subrange(20, 24) =~= first.subrange(8, 21).subrange(4, 8));
    }
    assert(file.subrange(24, 29) =~= seq![8u8, 2u8, 0u8, 0u8, 0u8]) by {
        assert(header.subrange(8, 13) =~= seq![8u8, 2u8, 0u8, 0u8, 0u8]);
        assert(file.subrange(24, 29) =~= first.subrange(8, 21).subrange(8, 13));
    }
    assert(file.subrange(33, 37) =~= second.subrange(0, 4));
    assert(file.subrange(37, 41) =~= second.subrange(4, 8));
    assert(file.subrange(41, 41 + data.len() as int) =~= second.subrange(
        8,
        8 + data.len() as int,
    ));
    lemma_number(file, 8);
    lemma_number(file, 16);
    lemma_number(file, 20);
    lemma_number(file, 33);
    let tail = file.subrange(24, 29);
    assert(tail[0] == file[24] && tail[1] == file[25] && tail[2] == file[26]);
    assert(tail[3] == file[27] && tail[4] == file[28]);
}

/// The samples of an image stand row by row, each row behind a zero.
pub proof fn rows_stand_behind_zeros(bytes: Seq<u8>, row: nat, rows: nat, r: int, i: int)
    requires
        bytes.len() == rows * row,
        0 <= r < rows,
        0 <= i < row,
    ensures
        png::unfiltered(bytes, row, rows).len() == rows * (row + 1),
        png::unfiltered(bytes, row, rows)[r * (row + 1)] == 0,
        png::unfiltered(bytes, row, rows)[r * (row + 1) + (1 + i)] == bytes[r * row + i],
{
    lemma_rows(bytes, row, rows, rows, r, i);
}

proof fn lemma_rows(bytes: Seq<u8>, row: nat, rows: nat, n: nat, r: int, i: int)
    requires
        bytes.len() == rows * row,
        0 <= r < n <= rows,
        0 <= i < row,
    ensures
        png::unfiltered(bytes, row, n).len() == n * (row + 1),
        png::unfiltered(bytes, row, n)[r * (row + 1)] == 0,
        png::unfiltered(bytes, row, n)[r * (row + 1) + (1 + i)] == bytes[r * row + i],
    decreases n,
{
    let m = (n - 1) as nat;
    let w = row + 1;
    assert(n * w == m * w + w && 0 <= m * w) by (nonlinear_arith)
        requires
            n == m + 1,
            w >= 0,
    ;
    assert(0 <= m * row && m * row + row <= rows * row) by (nonlinear_arith)
        requires
            m + 1 <= rows,
            row >= 0,
    ;
    if m > 0 {
        lemma_rows(bytes, row, rows, m, if r < m { r } else { 0 }, i);
    } else {
        assert(png::unfiltered(bytes, row, 0) =~= Seq::empty());
        assert(m * w == 0) by (nonlinear_arith)
            requires
                m == 0,
        ;
    }
    if r < m {
        assert(0 <= r * w && r * w + w <= m * w) by (nonlinear_arith)
            requires
                0 <= r < m,
                w >= 0,
        ;
    }
}

/// The first half of the checksum of a stream is one more than the sum of its bytes, the second
/// the sum of these sums: a byte counts once for every byte from its own on.
pub proof fn bytes_count_from_their_place_on(bytes: Seq<u8>, byte: u8)
    ensures
        png::adler(Seq::empty()) == 1,
        png::adler(bytes) < 0x1_0000_0000,
        png::adler(bytes.push(byte)) % 65536 == (png::adler(bytes) % 65536 + byte) % 65521,
        png::adler(bytes.push(byte)) / 65536 == (png::adler(bytes) / 65536 + png::adler(
            bytes.push(byte),
        ) % 65536) % 65521,
{
    let longer = bytes.push(byte);
    assert(longer.drop_last() =~= bytes);
    lemma_checksum_halves(Seq::empty());
    lemma_checksum_halves(bytes);
    lemma_checksum_halves(longer);
    let (a, b) = (png::adler_first(bytes) as int, png::adler_second(bytes) as int);
    lemma_sum_mod(a, byte as int, 65521);
    lemma_sum_mod_both(b, a + byte, 65521);
}

proof fn lemma_checksum_halves(bytes: Seq<u8>)
    ensures
        png::adler(bytes) % 65536 == png::adler_first(bytes) % 65521,
        png::adler(bytes) / 65536 == png::adler_second(bytes) % 65521,
        png::adler(bytes) < 0x1_0000_0000,
{
    let low = png::adler_first(bytes) as int % 65521;
    let high = png::adler_second(bytes) as int % 65521;
    layout::lemma_split(high, low, 65536);
}

proof fn lemma_sum_mod(a: int, b: int, m: int)
    requires
        0 <= b < m,
    ensures
        (a % m + b) % m == (a + b) % m,
{
    vstd::arithmetic::div_mod::lemma_add_mod_noop(a, b, m);
    vstd::arithmetic::div_mod::lemma_small_mod(b as nat, m as nat);
}

proof fn lemma_sum_mod_both(a: int, b: int, m: int)
    requires
        0 < m,
    ensures
        (a % m + b % m) % m == (a + b) % m,
{
    vstd::arithmetic::div_mod::lemma_add_mod_noop(a, b, m);
}

} // verus!
