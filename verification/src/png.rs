//! PNG files with stored DEFLATE blocks.

use vstd::prelude::*;
use crate::tensor::extend;

verus! {

/// A number in four bytes, most significant first.
pub open spec fn big_endian(n: nat) -> Seq<u8> {
    seq![
        (n / 0x100_0000 % 256) as u8,
        (n / 0x1_0000 % 256) as u8,
        (n / 0x100 % 256) as u8,
        (n % 256) as u8,
    ]
}

/// A number in two bytes, least significant first.
pub open spec fn little_endian2(n: nat) -> Seq<u8> {
    seq![(n % 256) as u8, (n / 256 % 256) as u8]
}

/// The modulus of the Adler-32 checksum.
pub const ADLER_MODULUS: u32 = 65521;

/// One more than the sum of bytes.
pub open spec fn adler_first(bytes: Seq<u8>) -> nat
    decreases bytes.len(),
{
    if bytes.len() == 0 {
        1
    } else {
        adler_first(bytes.drop_last()) + bytes.last() as nat
    }
}

/// The sum of the first sums of all prefixes that are not empty.
pub open spec fn adler_second(bytes: Seq<u8>) -> nat
    decreases bytes.len(),
{
    if bytes.len() == 0 {
        0
    } else {
        adler_second(bytes.drop_last()) + adler_first(bytes)
    }
}

/// The Adler-32 checksum: both sums, reduced.
pub open spec fn adler(bytes: Seq<u8>) -> nat {
    adler_second(bytes) % (ADLER_MODULUS as nat) * 65536 + adler_first(bytes) % (
    ADLER_MODULUS as nat)
}

/// The Adler-32 checksum.
pub fn adler32(bytes: &[u8]) -> (checksum: u32)
    ensures
        checksum == adler(bytes@),
{
    let mut first: u32 = 1;
    let mut second: u32 = 0;
    let mut i: usize = 0;
    proof {
        assert(bytes@.take(0) =~= Seq::empty());
    }
    while i < bytes.len()
        invariant
            i <= bytes@.len(),
            first == adler_first(bytes@.take(i as int)) % 65521,
            second == adler_second(bytes@.take(i as int)) % 65521,
        decreases bytes.len() - i,
    {
        proof {
            let next = bytes@.take(i + 1);
            assert(next.drop_last() =~= bytes@.take(i as int));
            assert(next.last() == bytes@[i as int]);
            let a = adler_first(bytes@.take(i as int));
            let b = adler_second(bytes@.take(i as int));
            let byte = bytes@[i as int] as nat;
            assert((a % 65521 + byte) % 65521 == (a + byte) % 65521);
            let f = (a + byte) % 65521;
            assert((b % 65521 + f) % 65521 == (b + (a + byte)) % 65521);
        }
        first = (first + bytes[i] as u32) % ADLER_MODULUS;
        second = (second + first) % ADLER_MODULUS;
        i = i + 1;
    }
    proof {
        assert(bytes@.take(bytes@.len() as int) =~= bytes@);
    }
    second * 65536 + first
}

/// The polynomial of CRC-32, with its coefficients in reversed order.
pub const CRC_POLYNOMIAL: u32 = 0xedb8_8320;

/// A CRC state after one more zero bit.
pub open spec fn crc_bit(state: u32) -> u32 {
    if state % 2 == 1 {
        (state >> 1) ^ CRC_POLYNOMIAL
    } else {
        state >> 1
    }
}

/// A CRC state after `n` more zero bits.
pub open spec fn crc_bits(state: u32, n: nat) -> u32
    decreases n,
{
    if n == 0 {
        state
    } else {
        crc_bit(crc_bits(state, (n - 1) as nat))
    }
}

/// The CRC state after bytes: each byte is added to the state and shifted through it.
pub open spec fn crc_state(bytes: Seq<u8>) -> u32
    decreases bytes.len(),
{
    if bytes.len() == 0 {
        u32::MAX
    } else {
        crc_bits(crc_state(bytes.drop_last()) ^ (bytes.last() as u32), 8)
    }
}

/// The CRC-32 checksum.
pub open spec fn crc(bytes: Seq<u8>) -> u32 {
    !crc_state(bytes)
}

/// The CRC-32 checksum.
pub fn crc32(bytes: &[u8]) -> (checksum: u32)
    ensures
        checksum == crc(bytes@),
{
    let mut state: u32 = u32::MAX;
    let mut i: usize = 0;
    proof {
        assert(bytes@.take(0) =~= Seq::empty());
    }
    while i < bytes.len()
        invariant
            i <= bytes@.len(),
            state == crc_state(bytes@.take(i as int)),
        decreases bytes.len() - i,
    {
        proof {
            assert(bytes@.take(i + 1).drop_last() =~= bytes@.take(i as int));
            assert(bytes@.take(i + 1).last() == bytes@[i as int]);
        }
        let start: u32 = state ^ (bytes[i] as u32);
        let mut shifted: u32 = start;
        let mut bit: usize = 0;
        while bit < 8
            invariant
                bit <= 8,
                shifted == crc_bits(start, bit as nat),
            decreases 8 - bit,
        {
            shifted = if shifted % 2 == 1 {
                (shifted >> 1) ^ CRC_POLYNOMIAL
            } else {
                shifted >> 1
            };
            bit = bit + 1;
        }
        state = shifted;
        i = i + 1;
    }
    proof {
        assert(bytes@.take(bytes@.len() as int) =~= bytes@);
    }
    !state
}

/// The longest stored block.
pub const BLOCK: usize = 65535;

/// A stored block: whether it is the last, its length, the complement of its length, and the data.
pub open spec fn stored_block(data: Seq<u8>, last: bool) -> Seq<u8> {
    seq![
        if last {
            1u8
        } else {
            0u8
        },
    ] + little_endian2(data.len()) + little_endian2((65535 - data.len()) as nat) + data
}

/// Data as stored blocks, each as long as it can be.
pub open spec fn stored(data: Seq<u8>) -> Seq<u8>
    decreases data.len(),
{
    if data.len() == 0 {
        Seq::empty()
    } else if data.len() <= BLOCK {
        stored_block(data, true)
    } else {
        stored_block(data.take(BLOCK as int), false) + stored(data.skip(BLOCK as int))
    }
}

/// Data in a zlib stream.
pub open spec fn zlib(data: Seq<u8>) -> Seq<u8> {
    seq![0x78u8, 0x01u8] + stored(data) + big_endian(adler(data))
}

/// A reader of stored blocks: the data up to and with the last block, and the bytes after it.
pub open spec fn unstored(stream: Seq<u8>) -> Option<(Seq<u8>, Seq<u8>)>
    decreases stream.len(),
{
    if stream.len() < 5 || stream[0] > 1 {
        None
    } else {
        let len = stream[1] as nat + 256 * stream[2] as nat;
        let complement = stream[3] as nat + 256 * stream[4] as nat;
        if len + complement != 65535 || stream.len() < 5 + len {
            None
        } else {
            let data = stream.subrange(5, (5 + len) as int);
            let rest = stream.skip((5 + len) as int);
            if stream[0] == 1 {
                Some((data, rest))
            } else {
                match unstored(rest) {
                    Some((more, after)) => Some((data + more, after)),
                    None => None,
                }
            }
        }
    }
}

/// A reader of stored blocks gets back the data that was stored, whatever comes after it.
pub proof fn stored_data_can_be_read(data: Seq<u8>, rest: Seq<u8>)
    requires
        data.len() > 0,
    ensures
        unstored(stored(data) + rest) == Some((data, rest)),
    decreases data.len(),
{
    if data.len() <= BLOCK {
        lemma_read_block(data, true, rest);
    } else {
        let head = data.take(BLOCK as int);
        let tail = data.skip(BLOCK as int);
        stored_data_can_be_read(tail, rest);
        lemma_read_block(head, false, stored(tail) + rest);
        lemma_join(stored_block(head, false), stored(tail), rest);
        assert(head + tail =~= data);
    }
}

proof fn lemma_join(a: Seq<u8>, b: Seq<u8>, c: Seq<u8>)
    ensures
        (a + b) + c == a + (b + c),
{
    assert((a + b) + c =~= a + (b + c));
}

/// Reading a stored block gives its data, and goes on after it unless it is the last.
proof fn lemma_read_block(data: Seq<u8>, last: bool, rest: Seq<u8>)
    requires
        data.len() <= BLOCK,
    ensures
        unstored(stored_block(data, last) + rest) == if last {
            Some((data, rest))
        } else {
            match unstored(rest) {
                Some((more, after)) => Some((data + more, after)),
                None => None,
            }
        },
{
    let stream = stored_block(data, last) + rest;
    lemma_block(data, last, rest);
    lemma_block_data(data, last, rest);
    let len = stream[1] as nat + 256 * stream[2] as nat;
    assert(len == data.len());
}

/// The head of a stored block says how long it is.
proof fn lemma_block(data: Seq<u8>, last: bool, rest: Seq<u8>)
    requires
        data.len() <= BLOCK,
    ensures
        ({
            let stream = stored_block(data, last) + rest;
            &&& stream.len() == 5 + data.len() + rest.len()
            &&& stream[0] == if last {
                1u8
            } else {
                0u8
            }
            &&& stream[1] as nat + 256 * stream[2] as nat == data.len()
            &&& stream[3] as nat + 256 * stream[4] as nat == 65535 - data.len()
        }),
{
    let n = data.len();
    let m = (65535 - n) as nat;
    assert(n / 256 % 256 == n / 256);
    assert(m / 256 % 256 == m / 256);
}

/// After the head of a stored block come its data.
proof fn lemma_block_data(data: Seq<u8>, last: bool, rest: Seq<u8>)
    ensures
        ({
            let stream = stored_block(data, last) + rest;
            &&& stream.subrange(5, (5 + data.len()) as int) == data
            &&& stream.skip((5 + data.len()) as int) == rest
        }),
{
    let stream = stored_block(data, last) + rest;
    assert(stream.subrange(5, (5 + data.len()) as int) =~= data);
    assert(stream.skip((5 + data.len()) as int) =~= rest);
}

/// A chunk: the length of its data, its kind, the data, and a checksum of kind and data.
pub open spec fn chunk(kind: Seq<u8>, data: Seq<u8>) -> Seq<u8> {
    big_endian(data.len()) + kind + data + big_endian(crc(kind + data) as nat)
}

/// Appends a number in four bytes.
fn push_big_endian(output: &mut Vec<u8>, n: u32)
    ensures
        final(output)@ == old(output)@ + big_endian(n as nat),
{
    let ghost before = output@;
    output.push((n / 0x100_0000) as u8);
    output.push((n / 0x1_0000 % 256) as u8);
    output.push((n / 0x100 % 256) as u8);
    output.push((n % 256) as u8);
    proof {
        assert(output@ =~= before + big_endian(n as nat));
    }
}

/// Why an image is not written.
#[derive(Clone, Copy, Debug, PartialEq, Eq, Structural)]
pub enum PngError {
    /// The image has no batch, channels, height and width.
    Rank,
    /// The image is not one image of three channels.
    Shape,
    Width,
    Height,
    RowSize,
    PayloadSize,
    ChunkSize,
}

impl PngError {
    /// The message for people.
    pub open spec fn text(self) -> Seq<char> {
        match self {
            PngError::Rank => "decoded image must be NCHW"@,
            PngError::Shape => "decoded image must have shape [1, 3, H, W]"@,
            PngError::Width => "PNG width exceeds u32"@,
            PngError::Height => "PNG height exceeds u32"@,
            PngError::RowSize => "PNG row size overflow"@,
            PngError::PayloadSize => "PNG payload size overflow"@,
            PngError::ChunkSize => "PNG chunk exceeds u32"@,
        }
    }

    /// The message for people.
    pub fn message(self) -> (message: &'static str)
        ensures
            message@ == self.text(),
    {
        match self {
            PngError::Rank => "decoded image must be NCHW",
            PngError::Shape => "decoded image must have shape [1, 3, H, W]",
            PngError::Width => "PNG width exceeds u32",
            PngError::Height => "PNG height exceeds u32",
            PngError::RowSize => "PNG row size overflow",
            PngError::PayloadSize => "PNG payload size overflow",
            PngError::ChunkSize => "PNG chunk exceeds u32",
        }
    }
}

/// Appends a chunk.
pub fn append_png_chunk(output: &mut Vec<u8>, kind: &[u8; 4], data: &[u8]) -> (result: Result<
    (),
    PngError,
>)
    ensures
        data@.len() <= u32::MAX ==> result is Ok && final(output)@ == old(output)@ + chunk(
            kind@,
            data@,
        ),
        data@.len() > u32::MAX ==> result == Err::<(), _>(PngError::ChunkSize) && final(output)@
            == old(output)@,
{
    let ghost before = output@;
    if data.len() as u64 > u32::MAX as u64 {
        return Err(PngError::ChunkSize);
    }
    let mut checked: Vec<u8> = Vec::new();
    extend(&mut checked, kind);
    extend(&mut checked, data);
    push_big_endian(output, data.len() as u32);
    extend(output, kind);
    extend(output, data);
    proof {
        assert(checked@ =~= kind@ + data@);
    }
    push_big_endian(output, crc32(&checked));
    proof {
        assert(output@ =~= before + chunk(kind@, data@));
    }
    Ok(())
}

/// Rows of bytes with a zero, the filter that changes nothing, in front of each.
pub open spec fn unfiltered(bytes: Seq<u8>, row: nat, rows: nat) -> Seq<u8>
    decreases rows,
{
    if rows == 0 {
        Seq::empty()
    } else {
        unfiltered(bytes, row, (rows - 1) as nat) + seq![0u8] + bytes.subrange(
            (rows - 1) * row,
            (rows - 1) * row + row,
        )
    }
}

/// The header of an image: its size, eight bits per sample, and RGB samples.
pub open spec fn header(width: nat, height: nat) -> Seq<u8> {
    big_endian(width) + big_endian(height) + seq![8u8, 2u8, 0u8, 0u8, 0u8]
}

/// The file of an image: the signature, the header, one chunk of data, and the end.
pub open spec fn file(width: nat, height: nat, rgb: Seq<u8>) -> Seq<u8> {
    seq![0x89u8, 0x50u8, 0x4eu8, 0x47u8, 0x0du8, 0x0au8, 0x1au8, 0x0au8] + chunk(
        seq![0x49u8, 0x48u8, 0x44u8, 0x52u8],
        header(width, height),
    ) + chunk(
        seq![0x49u8, 0x44u8, 0x41u8, 0x54u8],
        zlib(unfiltered(rgb, 3 * width, height)),
    ) + chunk(seq![0x49u8, 0x45u8, 0x4eu8, 0x44u8], Seq::empty())
}

/// Why an image of RGB samples is not written.
pub open spec fn refusal(width: nat, height: nat, rgb: Seq<u8>) -> Option<PngError> {
    if width > u32::MAX {
        Some(PngError::Width)
    } else if height > u32::MAX {
        Some(PngError::Height)
    } else if 3 * width + 1 > usize::MAX {
        Some(PngError::RowSize)
    } else if height * (3 * width + 1) > usize::MAX {
        Some(PngError::PayloadSize)
    } else if zlib(unfiltered(rgb, 3 * width, height)).len() > u32::MAX {
        Some(PngError::ChunkSize)
    } else {
        None
    }
}

/// Appends a stored block.
fn push_block(stream: &mut Vec<u8>, data: &[u8], last: bool)
    requires
        data@.len() <= BLOCK,
    ensures
        final(stream)@ == old(stream)@ + stored_block(data@, last),
{
    let ghost before = stream@;
    let n: usize = data.len();
    proof {
        assert((n as nat) / 256 % 256 == (n as nat) / 256);
        assert(((65535 - n) as nat) / 256 % 256 == ((65535 - n) as nat) / 256);
    }
    stream.push(if last {
        1
    } else {
        0
    });
    stream.push((n % 256) as u8);
    stream.push((n / 256) as u8);
    stream.push(((BLOCK - n) % 256) as u8);
    stream.push(((BLOCK - n) / 256) as u8);
    extend(stream, data);
    proof {
        assert(stream@ =~= before + stored_block(data@, last));
    }
}

/// Data in a zlib stream.
fn compress(data: &Vec<u8>) -> (stream: Vec<u8>)
    ensures
        stream@ == zlib(data@),
{
    let mut stream: Vec<u8> = Vec::new();
    stream.push(0x78);
    stream.push(0x01);
    let ghost front = stream@;
    let len: usize = data.len();
    let mut offset: usize = 0;
    proof {
        assert(front =~= seq![0x78u8, 0x01u8]);
        assert(data@.skip(0) =~= data@);
    }
    while offset < len
        invariant
            offset <= len == data@.len(),
            stream@ + stored(data@.skip(offset as int)) == front + stored(data@),
        decreases len - offset,
    {
        let ghost before = stream@;
        let ghost rest = data@.skip(offset as int);
        let block_len: usize = if len - offset < BLOCK {
            len - offset
        } else {
            BLOCK
        };
        let last: bool = offset + block_len == len;
        push_block(
            &mut stream,
            vstd::slice::slice_subrange(data, offset, offset + block_len),
            last,
        );
        proof {
            let part = data@.subrange(offset as int, offset + block_len);
            let after = data@.skip(offset + block_len);
            assert(part =~= rest.take(block_len as int));
            if last {
                assert(part =~= rest);
                assert(after =~= Seq::empty());
                assert(stream@ + stored(after) =~= stream@);
            } else {
                assert(rest.skip(BLOCK as int) =~= after);
                lemma_join(before, stored_block(part, false), stored(after));
            }
        }
        offset = offset + block_len;
    }
    proof {
        assert(data@.skip(offset as int) =~= Seq::empty());
        assert(stream@ =~= front + stored(data@));
    }
    push_big_endian(&mut stream, adler32(data));
    stream
}

/// Writes an image of RGB samples, row by row.
pub fn encode_rgb(width: usize, height: usize, rgb: &[u8]) -> (result: Result<Vec<u8>, PngError>)
    requires
        rgb@.len() == 3 * width * height,
    ensures
        match refusal(width as nat, height as nat, rgb@) {
            Some(error) => result == Err::<Vec<u8>, _>(error),
            None => result is Ok && result->Ok_0@ == file(width as nat, height as nat, rgb@),
        },
{
    if width as u64 > u32::MAX as u64 {
        return Err(PngError::Width);
    }
    if height as u64 > u32::MAX as u64 {
        return Err(PngError::Height);
    }
    let row: usize = match width.checked_mul(3) {
        Some(row) => row,
        None => {
            return Err(PngError::RowSize);
        },
    };
    if row == usize::MAX {
        return Err(PngError::RowSize);
    }
    match height.checked_mul(row + 1) {
        Some(_) => {},
        None => {
            proof {
                assert(height * (3 * width + 1) == height * (row + 1));
            }
            return Err(PngError::PayloadSize);
        },
    }
    proof {
        assert(3 * width * height == row * height) by (nonlinear_arith)
            requires
                row == 3 * width,
        ;
        assert(height * (3 * width + 1) == height * (row + 1));
        assert(rgb@.len() == rgb.len());
    }
    let mut raw: Vec<u8> = Vec::new();
    let mut y: usize = 0;
    while y < height
        invariant
            y <= height,
            rgb@.len() == row * height == rgb.len(),
            raw@ == unfiltered(rgb@, row as nat, y as nat),
        decreases height - y,
    {
        proof {
            assert(y * row + row <= row * height && 0 <= y * row) by (nonlinear_arith)
                requires
                    0 <= y < height,
                    0 <= row,
            ;
        }
        let ghost before = raw@;
        raw.push(0);
        extend(&mut raw, vstd::slice::slice_subrange(rgb, y * row, y * row + row));
        proof {
            assert(raw@ =~= before + seq![0u8] + rgb@.subrange(y * row, y * row + row));
        }
        y = y + 1;
    }
    let data = compress(&raw);
    if data.len() as u64 > u32::MAX as u64 {
        return Err(PngError::ChunkSize);
    }
    let mut output: Vec<u8> = vec![0x89, 0x50, 0x4e, 0x47, 0x0d, 0x0a, 0x1a, 0x0a];
    let mut head: Vec<u8> = Vec::new();
    push_big_endian(&mut head, width as u32);
    push_big_endian(&mut head, height as u32);
    let format: [u8; 5] = [8, 2, 0, 0, 0];
    extend(&mut head, &format);
    proof {
        assert(head@ =~= header(width as nat, height as nat));
    }
    let ihdr: [u8; 4] = [0x49, 0x48, 0x44, 0x52];
    let idat: [u8; 4] = [0x49, 0x44, 0x41, 0x54];
    let iend: [u8; 4] = [0x49, 0x45, 0x4e, 0x44];
    let nothing: [u8; 0] = [];
    proof {
        assert(ihdr@ =~= seq![0x49u8, 0x48u8, 0x44u8, 0x52u8]);
        assert(idat@ =~= seq![0x49u8, 0x44u8, 0x41u8, 0x54u8]);
        assert(iend@ =~= seq![0x49u8, 0x45u8, 0x4eu8, 0x44u8]);
        assert(nothing@ =~= Seq::empty());
    }
    let _ = append_png_chunk(&mut output, &ihdr, &head);
    let _ = append_png_chunk(&mut output, &idat, &data);
    let _ = append_png_chunk(&mut output, &iend, &nothing);
    proof {
        assert(output@ =~= file(width as nat, height as nat, rgb@));
    }
    Ok(output)
}

} // verus!
