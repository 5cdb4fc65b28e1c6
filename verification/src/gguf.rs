//! The GGUF container: a header of typed metadata, a table of tensors, and their data.

use vstd::prelude::*;
use vstd::hash_map::StringHashMap;
use crate::lossy;
use crate::lossy::decode_lossy;
use crate::text;
use crate::text::{push_decimal, push_hex};

verus! {

broadcast use vstd::string::group_string_axioms;

pub const GGUF_MAGIC: u32 = 0x4655_4747;

/// The width of a little-endian field.
#[derive(Clone, Copy, Debug, PartialEq, Eq, Structural)]
pub enum Width {
    One,
    Two,
    Four,
    Eight,
}

/// Why a file is not read.
#[derive(Clone, Copy, Debug, PartialEq, Eq, Structural)]
pub enum GgufError {
    /// The file ends inside a field.
    Eof(Width),
    /// The file ends inside a string of the given length.
    StringEof(u64),
    Magic(u32),
    Version(u32),
    ValueType(u32),
    ElementType(u32),
    ZeroAlignment,
}

impl GgufError {
    /// The message for people.
    pub open spec fn text(self) -> Seq<char> {
        match self {
            GgufError::Eof(Width::One) => "EOF reading u8"@,
            GgufError::Eof(Width::Two) => "EOF u16"@,
            GgufError::Eof(Width::Four) => "EOF u32"@,
            GgufError::Eof(Width::Eight) => "EOF u64"@,
            GgufError::StringEof(len) => "EOF reading string len="@ + text::decimal(len as nat),
            GgufError::Magic(magic) => "Not a GGUF file (magic 0x"@ + text::hex(magic as nat, 8)
                + ")"@,
            GgufError::Version(version) => "Unsupported GGUF version "@ + text::decimal(
                version as nat,
            ),
            GgufError::ValueType(kind) => "Unknown GGUF value type: "@ + text::decimal(kind as nat),
            GgufError::ElementType(kind) => "Unknown array elem type: "@ + text::decimal(
                kind as nat,
            ),
            GgufError::ZeroAlignment => "general.alignment is zero"@,
        }
    }

    /// The message for people.
    pub fn message(self) -> (message: String)
        ensures
            message@ == self.text(),
    {
        let mut out = String::new();
        match self {
            GgufError::Eof(Width::One) => {
                out.append("EOF reading u8");
            },
            GgufError::Eof(Width::Two) => {
                out.append("EOF u16");
            },
            GgufError::Eof(Width::Four) => {
                out.append("EOF u32");
            },
            GgufError::Eof(Width::Eight) => {
                out.append("EOF u64");
            },
            GgufError::StringEof(len) => {
                out.append("EOF reading string len=");
                push_decimal(&mut out, len);
            },
            GgufError::Magic(magic) => {
                out.append("Not a GGUF file (magic 0x");
                push_hex(&mut out, magic as u64, 8);
                out.append(")");
            },
            GgufError::Version(version) => {
                out.append("Unsupported GGUF version ");
                push_decimal(&mut out, version as u64);
            },
            GgufError::ValueType(kind) => {
                out.append("Unknown GGUF value type: ");
                push_decimal(&mut out, kind as u64);
            },
            GgufError::ElementType(kind) => {
                out.append("Unknown array elem type: ");
                push_decimal(&mut out, kind as u64);
            },
            GgufError::ZeroAlignment => {
                out.append("general.alignment is zero");
            },
        }
        out
    }
}

/// A metadata value. Floating-point values are held as their bit patterns.
#[derive(Debug)]
pub enum GgufValue {
    Uint8(u8),
    Int8(i8),
    Uint16(u16),
    Int16(i16),
    Uint32(u32),
    Int32(i32),
    Float32(u32),
    Bool(bool),
    String(String),
    Array(Vec<GgufValue>),
    Uint64(u64),
    Int64(i64),
    Float64(u64),
}

/// What a [`GgufValue`] holds, with strings and arrays as sequences.
pub enum GgufData {
    Uint8(u8),
    Int8(i8),
    Uint16(u16),
    Int16(i16),
    Uint32(u32),
    Int32(i32),
    Float32(u32),
    Bool(bool),
    String(Seq<char>),
    Array(Seq<GgufData>),
    Uint64(u64),
    Int64(i64),
    Float64(u64),
}

impl GgufValue {
    /// The value with strings and arrays as sequences.
    pub open spec fn data(self) -> GgufData
        decreases self,
    {
        match self {
            GgufValue::Uint8(v) => GgufData::Uint8(v),
            GgufValue::Int8(v) => GgufData::Int8(v),
            GgufValue::Uint16(v) => GgufData::Uint16(v),
            GgufValue::Int16(v) => GgufData::Int16(v),
            GgufValue::Uint32(v) => GgufData::Uint32(v),
            GgufValue::Int32(v) => GgufData::Int32(v),
            GgufValue::Float32(v) => GgufData::Float32(v),
            GgufValue::Bool(v) => GgufData::Bool(v),
            GgufValue::String(v) => GgufData::String(v@),
            GgufValue::Array(items) => GgufData::Array(
                Seq::new(
                    items@.len(),
                    |i: int|
                        if 0 <= i < items@.len() {
                            items@[i].data()
                        } else {
                            arbitrary()
                        },
                ),
            ),
            GgufValue::Uint64(v) => GgufData::Uint64(v),
            GgufValue::Int64(v) => GgufData::Int64(v),
            GgufValue::Float64(v) => GgufData::Float64(v),
        }
    }
}

impl View for GgufValue {
    type V = GgufData;

    open spec fn view(&self) -> GgufData {
        self.data()
    }
}

impl GgufData {
    /// The value as a 32-bit unsigned number, where it is held as 32 bits.
    pub open spec fn u32_value(self) -> Option<u32> {
        match self {
            GgufData::Uint32(v) => Some(v),
            GgufData::Int32(v) => Some(v as u32),
            _ => None,
        }
    }

    /// The value as a 64-bit unsigned number, where it is held as an unsigned number.
    pub open spec fn u64_value(self) -> Option<u64> {
        match self {
            GgufData::Uint64(v) => Some(v),
            GgufData::Uint32(v) => Some(v as u64),
            _ => None,
        }
    }

    /// The value as text, where it is text.
    pub open spec fn str_value(self) -> Option<Seq<char>> {
        match self {
            GgufData::String(v) => Some(v),
            _ => None,
        }
    }
}

impl GgufValue {
    /// The value as a 32-bit unsigned number.
    pub fn as_u32(&self) -> (value: Option<u32>)
        ensures
            value == self@.u32_value(),
    {
        match self {
            GgufValue::Uint32(v) => Some(*v),
            GgufValue::Int32(v) => Some(*v as u32),
            _ => None,
        }
    }

    /// The value as a 64-bit unsigned number.
    pub fn as_u64(&self) -> (value: Option<u64>)
        ensures
            value == self@.u64_value(),
    {
        match self {
            GgufValue::Uint64(v) => Some(*v),
            GgufValue::Uint32(v) => Some(*v as u64),
            _ => None,
        }
    }

    /// The value as text.
    pub fn as_str(&self) -> (value: Option<&str>)
        ensures
            match value {
                Some(s) => self@.str_value() == Some(s@),
                None => self@.str_value() is None,
            },
    {
        match self {
            GgufValue::String(s) => Some(s.as_str()),
            _ => None,
        }
    }
}

/// The number that `n` bytes at `pos` hold, least significant first.
pub open spec fn little_endian(data: Seq<u8>, pos: int, n: nat) -> nat
    decreases n,
{
    if n == 0 {
        0
    } else {
        data[pos] as nat + 256 * little_endian(data, pos + 1, (n - 1) as nat)
    }
}

/// A field of `n` bytes at `pos`: the number and the position after it.
pub open spec fn field(data: Seq<u8>, pos: int, n: nat, width: Width) -> Result<
    (nat, int),
    GgufError,
> {
    if pos + n <= data.len() {
        Ok((little_endian(data, pos, n), pos + n))
    } else {
        Err(GgufError::Eof(width))
    }
}

/// A length-prefixed string at `pos`.
pub open spec fn string_field(data: Seq<u8>, pos: int) -> Result<(Seq<char>, int), GgufError> {
    match field(data, pos, 8, Width::Eight) {
        Err(error) => Err(error),
        Ok((len, start)) => if start + len <= data.len() {
            Ok((lossy::lossy_utf8(data.subrange(start, start + len)), start + len))
        } else {
            Err(GgufError::StringEof(len as u64))
        },
    }
}

/// A count, which the first version of the format holds in four bytes.
pub open spec fn count_field(data: Seq<u8>, pos: int, version: u32) -> Result<
    (nat, int),
    GgufError,
> {
    if version == 1 {
        field(data, pos, 4, Width::Four)
    } else {
        field(data, pos, 8, Width::Eight)
    }
}

/// A scalar value of the given type at `pos`; `unknown` for a type that is no scalar's.
pub open spec fn scalar(data: Seq<u8>, pos: int, kind: u32, unknown: GgufError) -> Result<
    (GgufData, int),
    GgufError,
> {
    if kind == 0 || kind == 1 || kind == 7 {
        match field(data, pos, 1, Width::One) {
            Err(error) => Err(error),
            Ok((n, next)) => Ok(
                (
                    if kind == 0 {
                        GgufData::Uint8(n as u8)
                    } else if kind == 1 {
                        GgufData::Int8((n as u8) as i8)
                    } else {
                        GgufData::Bool(n != 0)
                    },
                    next,
                ),
            ),
        }
    } else if kind == 2 || kind == 3 {
        match field(data, pos, 2, Width::Two) {
            Err(error) => Err(error),
            Ok((n, next)) => Ok(
                (
                    if kind == 2 {
                        GgufData::Uint16(n as u16)
                    } else {
                        GgufData::Int16((n as u16) as i16)
                    },
                    next,
                ),
            ),
        }
    } else if kind == 4 || kind == 5 || kind == 6 {
        match field(data, pos, 4, Width::Four) {
            Err(error) => Err(error),
            Ok((n, next)) => Ok(
                (
                    if kind == 4 {
                        GgufData::Uint32(n as u32)
                    } else if kind == 5 {
                        GgufData::Int32((n as u32) as i32)
                    } else {
                        GgufData::Float32(n as u32)
                    },
                    next,
                ),
            ),
        }
    } else if kind == 8 {
        match string_field(data, pos) {
            Err(error) => Err(error),
            Ok((text, next)) => Ok((GgufData::String(text), next)),
        }
    } else if kind == 10 || kind == 11 || kind == 12 {
        match field(data, pos, 8, Width::Eight) {
            Err(error) => Err(error),
            Ok((n, next)) => Ok(
                (
                    if kind == 10 {
                        GgufData::Uint64(n as u64)
                    } else if kind == 11 {
                        GgufData::Int64((n as u64) as i64)
                    } else {
                        GgufData::Float64(n as u64)
                    },
                    next,
                ),
            ),
        }
    } else {
        Err(unknown)
    }
}

/// `count` scalars of one type, one after the other.
pub open spec fn scalars(data: Seq<u8>, pos: int, kind: u32, count: nat) -> Result<
    (Seq<GgufData>, int),
    GgufError,
>
    decreases count,
{
    if count == 0 {
        Ok((Seq::empty(), pos))
    } else {
        match scalars(data, pos, kind, (count - 1) as nat) {
            Err(error) => Err(error),
            Ok((items, next)) => match scalar(data, next, kind, GgufError::ElementType(kind)) {
                Err(error) => Err(error),
                Ok((item, end)) => Ok((items.push(item), end)),
            },
        }
    }
}

/// A value with its type tag: a scalar, or an array of scalars.
pub open spec fn value(data: Seq<u8>, pos: int, version: u32) -> Result<
    (GgufData, int),
    GgufError,
> {
    match field(data, pos, 4, Width::Four) {
        Err(error) => Err(error),
        Ok((kind, after)) => if kind == 9 {
            match field(data, after, 4, Width::Four) {
                Err(error) => Err(error),
                Ok((element, next)) => match count_field(data, next, version) {
                    Err(error) => Err(error),
                    Ok((count, start)) => match scalars(data, start, element as u32, count) {
                        Err(error) => Err(error),
                        Ok((items, end)) => Ok((GgufData::Array(items), end)),
                    },
                },
            }
        } else {
            scalar(data, after, kind as u32, GgufError::ValueType(kind as u32))
        },
    }
}

/// Where a string that cannot be read leaves the position: after its length, if that is there.
pub open spec fn string_stop(data: Seq<u8>, pos: int) -> int {
    if pos + 8 <= data.len() {
        pos + 8
    } else {
        pos
    }
}

/// Where a scalar that cannot be read leaves the position.
pub open spec fn scalar_stop(data: Seq<u8>, pos: int, kind: u32) -> int {
    if kind == 8 {
        string_stop(data, pos)
    } else {
        pos
    }
}

/// Where scalars of which one cannot be read leave the position.
pub open spec fn scalars_stop(data: Seq<u8>, pos: int, kind: u32, count: nat) -> int
    decreases count,
{
    if count == 0 {
        pos
    } else {
        match scalars(data, pos, kind, (count - 1) as nat) {
            Err(_) => scalars_stop(data, pos, kind, (count - 1) as nat),
            Ok((_, next)) => scalar_stop(data, next, kind),
        }
    }
}

/// Where a value that cannot be read leaves the position.
pub open spec fn value_stop(data: Seq<u8>, pos: int, version: u32) -> int {
    match field(data, pos, 4, Width::Four) {
        Err(_) => pos,
        Ok((kind, after)) => if kind == 9 {
            match field(data, after, 4, Width::Four) {
                Err(_) => after,
                Ok((element, next)) => match count_field(data, next, version) {
                    Err(_) => next,
                    Ok((count, start)) => scalars_stop(data, start, element as u32, count),
                },
            }
        } else {
            scalar_stop(data, after, kind as u32)
        },
    }
}

/// `count` metadata entries; a key that occurs again replaces its value.
pub open spec fn entries(data: Seq<u8>, pos: int, version: u32, count: nat) -> Result<
    (Map<Seq<char>, GgufData>, int),
    GgufError,
>
    decreases count,
{
    if count == 0 {
        Ok((Map::empty(), pos))
    } else {
        match entries(data, pos, version, (count - 1) as nat) {
            Err(error) => Err(error),
            Ok((map, next)) => match string_field(data, next) {
                Err(error) => Err(error),
                Ok((key, after)) => match value(data, after, version) {
                    Err(error) => Err(error),
                    Ok((item, end)) => Ok((map.insert(key, item), end)),
                },
            },
        }
    }
}

/// What a row of the tensor table says.
pub struct TensorRow {
    pub name: Seq<char>,
    pub n_dims: u32,
    pub dims: Seq<u64>,
    pub ggml_type: u32,
    pub offset: u64,
}

/// `count` dimensions.
pub open spec fn dimensions(data: Seq<u8>, pos: int, version: u32, count: nat) -> Result<
    (Seq<u64>, int),
    GgufError,
>
    decreases count,
{
    if count == 0 {
        Ok((Seq::empty(), pos))
    } else {
        match dimensions(data, pos, version, (count - 1) as nat) {
            Err(error) => Err(error),
            Ok((dims, next)) => match count_field(data, next, version) {
                Err(error) => Err(error),
                Ok((dim, end)) => Ok((dims.push(dim as u64), end)),
            },
        }
    }
}

/// One row of the tensor table.
pub open spec fn tensor_row(data: Seq<u8>, pos: int, version: u32) -> Result<
    (TensorRow, int),
    GgufError,
> {
    match string_field(data, pos) {
        Err(error) => Err(error),
        Ok((name, a)) => match field(data, a, 4, Width::Four) {
            Err(error) => Err(error),
            Ok((n_dims, b)) => match dimensions(data, b, version, n_dims) {
                Err(error) => Err(error),
                Ok((dims, c)) => match field(data, c, 4, Width::Four) {
                    Err(error) => Err(error),
                    Ok((ggml_type, d)) => match field(data, d, 8, Width::Eight) {
                        Err(error) => Err(error),
                        Ok((offset, e)) => Ok(
                            (
                                TensorRow {
                                    name,
                                    n_dims: n_dims as u32,
                                    dims,
                                    ggml_type: ggml_type as u32,
                                    offset: offset as u64,
                                },
                                e,
                            ),
                        ),
                    },
                },
            },
        },
    }
}

/// `count` rows of the tensor table.
pub open spec fn tensor_rows(data: Seq<u8>, pos: int, version: u32, count: nat) -> Result<
    (Seq<TensorRow>, int),
    GgufError,
>
    decreases count,
{
    if count == 0 {
        Ok((Seq::empty(), pos))
    } else {
        match tensor_rows(data, pos, version, (count - 1) as nat) {
            Err(error) => Err(error),
            Ok((rows, next)) => match tensor_row(data, next, version) {
                Err(error) => Err(error),
                Ok((row, end)) => Ok((rows.push(row), end)),
            },
        }
    }
}

/// What a file says: its metadata, its tensors and where their data starts.
pub struct GgufContents {
    pub version: u32,
    pub metadata: Map<Seq<char>, GgufData>,
    pub tensors: Seq<TensorRow>,
    pub data_offset: u64,
}

/// The alignment of tensor data: the metadata's own, or 32.
pub open spec fn alignment(metadata: Map<Seq<char>, GgufData>) -> u32 {
    if metadata.contains_key("general.alignment"@) {
        match metadata["general.alignment"@].u32_value() {
            Some(v) => v,
            None => 32,
        }
    } else {
        32
    }
}

/// The smallest multiple of `step` that is not below `n`.
pub open spec fn rounded_up(n: int, step: int) -> int {
    if n % step == 0 {
        n
    } else {
        n + (step - n % step)
    }
}

/// The contents of a file, or what is wrong with it.
pub open spec fn contents(data: Seq<u8>) -> Result<GgufContents, GgufError> {
    match field(data, 0, 4, Width::Four) {
        Err(error) => Err(error),
        Ok((magic, a)) => if magic != GGUF_MAGIC {
            Err(GgufError::Magic(magic as u32))
        } else {
            match field(data, a, 4, Width::Four) {
                Err(error) => Err(error),
                Ok((version, b)) => if version < 1 || version > 3 {
                    Err(GgufError::Version(version as u32))
                } else {
                    match count_field(data, b, version as u32) {
                        Err(error) => Err(error),
                        Ok((tensor_count, c)) => match count_field(data, c, version as u32) {
                            Err(error) => Err(error),
                            Ok((entry_count, d)) => body(
                                data,
                                d,
                                version as u32,
                                entry_count,
                                tensor_count,
                            ),
                        },
                    }
                },
            }
        },
    }
}

/// The part of a file after its header.
pub open spec fn body(
    data: Seq<u8>,
    pos: int,
    version: u32,
    entry_count: nat,
    tensor_count: nat,
) -> Result<GgufContents, GgufError> {
    match entries(data, pos, version, entry_count) {
        Err(error) => Err(error),
        Ok((metadata, a)) => match tensor_rows(data, a, version, tensor_count) {
            Err(error) => Err(error),
            Ok((tensors, end)) => if alignment(metadata) == 0 {
                Err(GgufError::ZeroAlignment)
            } else {
                Ok(
                    GgufContents {
                        version,
                        metadata,
                        tensors,
                        data_offset: rounded_up(end, alignment(metadata) as int) as u64,
                    },
                )
            },
        },
    }
}

proof fn lemma_little_endian(data: Seq<u8>, pos: int)
    ensures
        little_endian(data, pos, 1) == data[pos],
        little_endian(data, pos, 2) == data[pos] + 256 * data[pos + 1],
        little_endian(data, pos, 4) == data[pos] + 256 * data[pos + 1] + 65536 * data[pos + 2]
            + 16777216 * data[pos + 3],
        little_endian(data, pos, 8) == data[pos] + 256 * data[pos + 1] + 65536 * data[pos + 2]
            + 16777216 * data[pos + 3] + 4294967296 * data[pos + 4] + 1099511627776 * data[pos + 5]
            + 281474976710656 * data[pos + 6] + 72057594037927936 * data[pos + 7],
{
    reveal_with_fuel(little_endian, 9);
}

/// One byte.
pub fn read_u8(data: &[u8], pos: &mut usize) -> (result: Result<u8, GgufError>)
    ensures
        result is Ok ==> *final(pos) <= data@.len(),
        match field(data@, *old(pos) as int, 1, Width::One) {
            Err(error) => result == Err::<u8, _>(error) && *final(pos) == *old(pos),
            Ok((n, next)) => result == Ok::<u8, GgufError>(n as u8) && n == n as u8
                && *final(pos) == next,
        },
{
    if *pos > data.len() || data.len() - *pos < 1 {
        return Err(GgufError::Eof(Width::One));
    }
    proof {
        lemma_little_endian(data@, *pos as int);
    }
    let v: u8 = data[*pos];
    *pos = *pos + 1;
    Ok(v)
}

/// One byte, signed.
pub fn read_i8(data: &[u8], pos: &mut usize) -> (result: Result<i8, GgufError>)
    ensures
        result is Ok ==> *final(pos) <= data@.len(),
        match field(data@, *old(pos) as int, 1, Width::One) {
            Err(error) => result == Err::<i8, _>(error) && *final(pos) == *old(pos),
            Ok((n, next)) => result == Ok::<i8, GgufError>((n as u8) as i8) && *final(pos) == next,
        },
{
    match read_u8(data, pos) {
        Err(error) => Err(error),
        Ok(v) => Ok(v as i8),
    }
}

/// Two bytes.
pub fn read_u16(data: &[u8], pos: &mut usize) -> (result: Result<u16, GgufError>)
    ensures
        result is Ok ==> *final(pos) <= data@.len(),
        match field(data@, *old(pos) as int, 2, Width::Two) {
            Err(error) => result == Err::<u16, _>(error) && *final(pos) == *old(pos),
            Ok((n, next)) => result == Ok::<u16, GgufError>(n as u16) && n == n as u16
                && *final(pos) == next,
        },
{
    if *pos > data.len() || data.len() - *pos < 2 {
        return Err(GgufError::Eof(Width::Two));
    }
    let at: usize = *pos;
    proof {
        lemma_little_endian(data@, at as int);
    }
    let v: u16 = data[at] as u16 + 256 * (data[at + 1] as u16);
    *pos = at + 2;
    Ok(v)
}

/// Two bytes, signed.
pub fn read_i16(data: &[u8], pos: &mut usize) -> (result: Result<i16, GgufError>)
    ensures
        result is Ok ==> *final(pos) <= data@.len(),
        match field(data@, *old(pos) as int, 2, Width::Two) {
            Err(error) => result == Err::<i16, _>(error) && *final(pos) == *old(pos),
            Ok((n, next)) => result == Ok::<i16, GgufError>((n as u16) as i16) && *final(pos)
                == next,
        },
{
    match read_u16(data, pos) {
        Err(error) => Err(error),
        Ok(v) => Ok(v as i16),
    }
}

/// Four bytes.
pub fn read_u32(data: &[u8], pos: &mut usize) -> (result: Result<u32, GgufError>)
    ensures
        result is Ok ==> *final(pos) <= data@.len(),
        match field(data@, *old(pos) as int, 4, Width::Four) {
            Err(error) => result == Err::<u32, _>(error) && *final(pos) == *old(pos),
            Ok((n, next)) => result == Ok::<u32, GgufError>(n as u32) && n == n as u32
                && *final(pos) == next,
        },
{
    if *pos > data.len() || data.len() - *pos < 4 {
        return Err(GgufError::Eof(Width::Four));
    }
    let at: usize = *pos;
    proof {
        lemma_little_endian(data@, at as int);
    }
    let v: u32 = data[at] as u32 + 256 * (data[at + 1] as u32) + 65536 * (data[at + 2] as u32)
        + 16777216 * (data[at + 3] as u32);
    *pos = at + 4;
    Ok(v)
}

/// Four bytes, signed.
pub fn read_i32(data: &[u8], pos: &mut usize) -> (result: Result<i32, GgufError>)
    ensures
        result is Ok ==> *final(pos) <= data@.len(),
        match field(data@, *old(pos) as int, 4, Width::Four) {
            Err(error) => result == Err::<i32, _>(error) && *final(pos) == *old(pos),
            Ok((n, next)) => result == Ok::<i32, GgufError>((n as u32) as i32) && *final(pos)
                == next,
        },
{
    match read_u32(data, pos) {
        Err(error) => Err(error),
        Ok(v) => Ok(v as i32),
    }
}

/// Eight bytes.
pub fn read_u64(data: &[u8], pos: &mut usize) -> (result: Result<u64, GgufError>)
    ensures
        result is Ok ==> *final(pos) <= data@.len(),
        match field(data@, *old(pos) as int, 8, Width::Eight) {
            Err(error) => result == Err::<u64, _>(error) && *final(pos) == *old(pos),
            Ok((n, next)) => result == Ok::<u64, GgufError>(n as u64) && n == n as u64
                && *final(pos) == next,
        },
{
    if *pos > data.len() || data.len() - *pos < 8 {
        return Err(GgufError::Eof(Width::Eight));
    }
    let at: usize = *pos;
    proof {
        lemma_little_endian(data@, at as int);
    }
    let v: u64 = data[at] as u64 + 256 * (data[at + 1] as u64) + 65536 * (data[at + 2] as u64)
        + 16777216 * (data[at + 3] as u64) + 4294967296 * (data[at + 4] as u64) + 1099511627776 * (
    data[at + 5] as u64) + 281474976710656 * (data[at + 6] as u64) + 72057594037927936 * (data[at
        + 7] as u64);
    *pos = at + 8;
    Ok(v)
}

/// Eight bytes, signed.
pub fn read_i64(data: &[u8], pos: &mut usize) -> (result: Result<i64, GgufError>)
    ensures
        result is Ok ==> *final(pos) <= data@.len(),
        match field(data@, *old(pos) as int, 8, Width::Eight) {
            Err(error) => result == Err::<i64, _>(error) && *final(pos) == *old(pos),
            Ok((n, next)) => result == Ok::<i64, GgufError>((n as u64) as i64) && *final(pos)
                == next,
        },
{
    match read_u64(data, pos) {
        Err(error) => Err(error),
        Ok(v) => Ok(v as i64),
    }
}

/// A length-prefixed string.
pub fn read_string(data: &[u8], pos: &mut usize) -> (result: Result<String, GgufError>)
    ensures
        result is Ok ==> *final(pos) <= data@.len(),
        match string_field(data@, *old(pos) as int) {
            Err(error) => result == Err::<String, _>(error) && *final(pos) == string_stop(
                data@,
                *old(pos) as int,
            ),
            Ok((text, next)) => result is Ok && result->Ok_0@ == text && *final(pos) == next,
        },
{
    let len: u64 = match read_u64(data, pos) {
        Err(error) => {
            return Err(error);
        },
        Ok(len) => len,
    };
    let start: usize = *pos;
    if len > (data.len() - start) as u64 {
        return Err(GgufError::StringEof(len));
    }
    let end: usize = start + len as usize;
    *pos = end;
    Ok(decode_lossy(vstd::slice::slice_subrange(data, start, end)))
}

/// A count, which the first version of the format holds in four bytes.
fn read_count(data: &[u8], pos: &mut usize, version: u32) -> (result: Result<u64, GgufError>)
    ensures
        result is Ok ==> *final(pos) <= data@.len(),
        match count_field(data@, *old(pos) as int, version) {
            Err(error) => result == Err::<u64, _>(error) && *final(pos) == *old(pos),
            Ok((n, next)) => result == Ok::<u64, GgufError>(n as u64) && n == n as u64
                && *final(pos) == next,
        },
{
    if version == 1 {
        match read_u32(data, pos) {
            Err(error) => Err(error),
            Ok(n) => Ok(n as u64),
        }
    } else {
        read_u64(data, pos)
    }
}

/// A scalar of the given type; `unknown` for a type that is no scalar's.
fn read_scalar(data: &[u8], pos: &mut usize, kind: u32, unknown: GgufError) -> (result: Result<
    GgufValue,
    GgufError,
>)
    ensures
        result is Ok ==> *final(pos) <= data@.len(),
        match scalar(data@, *old(pos) as int, kind, unknown) {
            Err(error) => result == Err::<GgufValue, _>(error) && *final(pos) == scalar_stop(
                data@,
                *old(pos) as int,
                kind,
            ),
            Ok((item, next)) => result is Ok && result->Ok_0@ == item && *final(pos) == next,
        },
{
    match kind {
        0 => match read_u8(data, pos) {
            Ok(v) => Ok(GgufValue::Uint8(v)),
            Err(error) => Err(error),
        },
        1 => match read_i8(data, pos) {
            Ok(v) => Ok(GgufValue::Int8(v)),
            Err(error) => Err(error),
        },
        2 => match read_u16(data, pos) {
            Ok(v) => Ok(GgufValue::Uint16(v)),
            Err(error) => Err(error),
        },
        3 => match read_i16(data, pos) {
            Ok(v) => Ok(GgufValue::Int16(v)),
            Err(error) => Err(error),
        },
        4 => match read_u32(data, pos) {
            Ok(v) => Ok(GgufValue::Uint32(v)),
            Err(error) => Err(error),
        },
        5 => match read_i32(data, pos) {
            Ok(v) => Ok(GgufValue::Int32(v)),
            Err(error) => Err(error),
        },
        6 => match read_u32(data, pos) {
            Ok(v) => Ok(GgufValue::Float32(v)),
            Err(error) => Err(error),
        },
        7 => match read_u8(data, pos) {
            Ok(v) => Ok(GgufValue::Bool(v != 0)),
            Err(error) => Err(error),
        },
        8 => match read_string(data, pos) {
            Ok(v) => Ok(GgufValue::String(v)),
            Err(error) => Err(error),
        },
        10 => match read_u64(data, pos) {
            Ok(v) => Ok(GgufValue::Uint64(v)),
            Err(error) => Err(error),
        },
        11 => match read_i64(data, pos) {
            Ok(v) => Ok(GgufValue::Int64(v)),
            Err(error) => Err(error),
        },
        12 => match read_u64(data, pos) {
            Ok(v) => Ok(GgufValue::Float64(v)),
            Err(error) => Err(error),
        },
        _ => Err(unknown),
    }
}

/// A scalar of an array whose elements have the given type.
pub fn read_value_typed(data: &[u8], pos: &mut usize, type_id: u32) -> (result: Result<
    GgufValue,
    GgufError,
>)
    ensures
        result is Ok ==> *final(pos) <= data@.len(),
        match scalar(data@, *old(pos) as int, type_id, GgufError::ElementType(type_id)) {
            Err(error) => result == Err::<GgufValue, _>(error) && *final(pos) == scalar_stop(
                data@,
                *old(pos) as int,
                type_id,
            ),
            Ok((item, next)) => result is Ok && result->Ok_0@ == item && *final(pos) == next,
        },
{
    read_scalar(data, pos, type_id, GgufError::ElementType(type_id))
}

/// What stops the first `n` scalars stops all of them.
proof fn lemma_scalars_fault(data: Seq<u8>, pos: int, kind: u32, n: nat, count: nat)
    requires
        n <= count,
        scalars(data, pos, kind, n) is Err,
    ensures
        scalars(data, pos, kind, count) == scalars(data, pos, kind, n),
        scalars_stop(data, pos, kind, count) == scalars_stop(data, pos, kind, n),
    decreases count,
{
    if n < count {
        lemma_scalars_fault(data, pos, kind, n, (count - 1) as nat);
    }
}

/// What stops the first `n` entries stops all of them.
proof fn lemma_entries_fault(data: Seq<u8>, pos: int, version: u32, n: nat, count: nat)
    requires
        n <= count,
        entries(data, pos, version, n) is Err,
    ensures
        entries(data, pos, version, count) == entries(data, pos, version, n),
    decreases count,
{
    if n < count {
        lemma_entries_fault(data, pos, version, n, (count - 1) as nat);
    }
}

/// What stops the first `n` dimensions stops all of them.
proof fn lemma_dimensions_fault(data: Seq<u8>, pos: int, version: u32, n: nat, count: nat)
    requires
        n <= count,
        dimensions(data, pos, version, n) is Err,
    ensures
        dimensions(data, pos, version, count) == dimensions(data, pos, version, n),
    decreases count,
{
    if n < count {
        lemma_dimensions_fault(data, pos, version, n, (count - 1) as nat);
    }
}

/// What stops the first `n` rows stops all of them.
proof fn lemma_rows_fault(data: Seq<u8>, pos: int, version: u32, n: nat, count: nat)
    requires
        n <= count,
        tensor_rows(data, pos, version, n) is Err,
    ensures
        tensor_rows(data, pos, version, count) == tensor_rows(data, pos, version, n),
    decreases count,
{
    if n < count {
        lemma_rows_fault(data, pos, version, n, (count - 1) as nat);
    }
}

/// The values of a list, with strings and arrays as sequences.
pub open spec fn data_of(values: Seq<GgufValue>) -> Seq<GgufData> {
    Seq::new(values.len(), |i: int| values[i]@)
}

/// A value with its type tag: a scalar, or an array of scalars.
pub fn read_value(data: &[u8], pos: &mut usize, version: u32) -> (result: Result<
    GgufValue,
    GgufError,
>)
    ensures
        result is Ok ==> *final(pos) <= data@.len(),
        match value(data@, *old(pos) as int, version) {
            Err(error) => result == Err::<GgufValue, _>(error) && *final(pos) == value_stop(
                data@,
                *old(pos) as int,
                version,
            ),
            Ok((item, next)) => result is Ok && result->Ok_0@ == item && *final(pos) == next,
        },
{
    let kind: u32 = match read_u32(data, pos) {
        Err(error) => {
            return Err(error);
        },
        Ok(kind) => kind,
    };
    if kind != 9 {
        return read_scalar(data, pos, kind, GgufError::ValueType(kind));
    }
    let element: u32 = match read_u32(data, pos) {
        Err(error) => {
            return Err(error);
        },
        Ok(element) => element,
    };
    let count: u64 = match read_count(data, pos, version) {
        Err(error) => {
            return Err(error);
        },
        Ok(count) => count,
    };
    let ghost start = *pos as int;
    let mut items: Vec<GgufValue> = Vec::new();
    proof {
        assert forall|n: nat|
            n <= count && #[trigger] scalars(data@, start, element, n) is Err implies scalars(
            data@,
            start,
            element,
            count as nat,
        ) == scalars(data@, start, element, n) && scalars_stop(
            data@,
            start,
            element,
            count as nat,
        ) == scalars_stop(data@, start, element, n) by {
            lemma_scalars_fault(data@, start, element, n, count as nat);
        }
        assert(data_of(items@) =~= Seq::empty());
    }
    let mut i: u64 = 0;
    while i < count
        invariant
            i <= count,
            *pos <= data@.len(),
            scalars(data@, start, element, i as nat) == Ok::<(Seq<GgufData>, int), GgufError>(
                (data_of(items@), *pos as int),
            ),
            forall|n: nat|
                n <= count && #[trigger] scalars(data@, start, element, n) is Err ==> scalars(
                    data@,
                    start,
                    element,
                    count as nat,
                ) == scalars(data@, start, element, n) && scalars_stop(
                    data@,
                    start,
                    element,
                    count as nat,
                ) == scalars_stop(data@, start, element, n),
            scalars(data@, start, element, count as nat) is Err ==> value_stop(
                data@,
                *old(pos) as int,
                version,
            ) == scalars_stop(data@, start, element, count as nat),
            value(data@, *old(pos) as int, version) == (match scalars(
                data@,
                start,
                element,
                count as nat,
            ) {
                Err(error) => Err::<(GgufData, int), GgufError>(error),
                Ok((all, end)) => Ok((GgufData::Array(all), end)),
            }),
        decreases count - i,
    {
        let ghost before = items@;
        proof {
            assert(scalars(data@, start, element, (i + 1) as nat) is Err ==> scalars(
                data@,
                start,
                element,
                count as nat,
            ) == scalars(data@, start, element, (i + 1) as nat));
        }
        match read_value_typed(data, pos, element) {
            Err(error) => {
                return Err(error);
            },
            Ok(item) => {
                items.push(item);
            },
        }
        proof {
            assert(data_of(items@) =~= data_of(before).push(items@.last()@));
        }
        i = i + 1;
    }
    let array = GgufValue::Array(items);
    proof {
        assert(array@->Array_0 =~= data_of(items@));
    }
    Ok(array)
}

/// One row of the tensor table. `dims[0]` varies fastest.
#[derive(Debug)]
pub struct TensorInfo {
    pub name: String,
    pub n_dims: u32,
    pub dims: Vec<u64>,
    pub ggml_type: u32,
    /// Relative to the start of the tensor data.
    pub offset: u64,
}

/// The product of dimensions.
pub open spec fn volume(dims: Seq<u64>) -> nat
    decreases dims.len(),
{
    if dims.len() == 0 {
        1
    } else {
        volume(dims.drop_last()) * (dims.last() as nat)
    }
}

impl View for TensorInfo {
    type V = TensorRow;

    open spec fn view(&self) -> TensorRow {
        TensorRow {
            name: self.name@,
            n_dims: self.n_dims,
            dims: self.dims@,
            ggml_type: self.ggml_type,
            offset: self.offset,
        }
    }
}

impl TensorInfo {
    /// Every partial product of the dimensions fits in a word.
    pub open spec fn countable(&self) -> bool {
        forall|n: int| 0 <= n <= self.dims@.len() ==> volume(
            #[trigger] self.dims@.take(n),
        ) <= usize::MAX
    }

    /// The number of elements.
    pub fn n_elems(&self) -> (n: usize)
        requires
            self.countable(),
        ensures
            n == volume(self.dims@),
    {
        let mut total: usize = 1;
        let mut i: usize = 0;
        while i < self.dims.len()
            invariant
                i <= self.dims@.len(),
                self.countable(),
                total == volume(self.dims@.take(i as int)),
                total <= usize::MAX,
            decreases self.dims.len() - i,
        {
            proof {
                assert(self.dims@.take(i + 1).drop_last() =~= self.dims@.take(i as int));
                assert(volume(self.dims@.take(i + 1)) <= usize::MAX);
                let d = self.dims@[i as int] as nat;
                assert(total * d <= usize::MAX);
            }
            let dim: u64 = self.dims[i];
            if total == 0 {
                proof {
                    assert(0 * dim == 0) by (nonlinear_arith);
                }
            } else {
                proof {
                    assert(dim <= total * dim) by (nonlinear_arith)
                        requires
                            total >= 1,
                            dim >= 0,
                    ;
                }
                total = total * (dim as usize);
            }
            i = i + 1;
        }
        proof {
            assert(self.dims@.take(self.dims@.len() as int) =~= self.dims@);
        }
        total
    }
}

/// Elements and bytes of one block of a tensor type, for the supported types.
pub open spec fn block_of(ggml_type: u32) -> Option<(nat, nat)> {
    match ggml_type {
        0 => Some((1, 4)),
        1 => Some((1, 2)),
        2 => Some((32, 18)),
        3 => Some((32, 20)),
        6 => Some((32, 22)),
        7 => Some((32, 24)),
        8 => Some((32, 34)),
        10 => Some((256, 84)),
        12 => Some((256, 144)),
        13 => Some((256, 176)),
        14 => Some((256, 210)),
        16 => Some((256, 66)),
        17 => Some((256, 74)),
        20 => Some((32, 18)),
        21 => Some((256, 110)),
        22 => Some((256, 82)),
        30 => Some((1, 2)),
        _ => None,
    }
}

/// The elements of one block of a supported type.
pub open spec fn block_elements(ggml_type: u32) -> nat {
    match block_of(ggml_type) {
        Some((elements, _)) => elements,
        None => 1,
    }
}

/// The bytes of one block of a supported type.
pub open spec fn block_bytes(ggml_type: u32) -> nat {
    match block_of(ggml_type) {
        Some((_, bytes)) => bytes,
        None => 0,
    }
}

/// The bytes that whole blocks of `n_elems` elements take.
pub open spec fn type_size(ggml_type: u32, n_elems: nat) -> nat {
    match block_of(ggml_type) {
        Some((elements, bytes)) => (n_elems / elements) * bytes,
        None => 0,
    }
}

/// Byte size of the data of a tensor: F32, F16, Q4_0, Q4_1, Q5_0, Q5_1, Q8_0, Q2_K, Q4_K, Q5_K,
/// Q6_K, IQ2_XXS, IQ2_XS, IQ4_NL, IQ3_S, IQ2_S and BF16.
pub fn ggml_type_size(ggml_type: u32, n_elems: usize) -> (size: usize)
    requires
        block_of(ggml_type) is Some,
        type_size(ggml_type, n_elems as nat) <= usize::MAX,
    ensures
        size == type_size(ggml_type, n_elems as nat),
{
    proof {
        let (elements, _) = block_of(ggml_type)->0;
        if elements == 1 {
            vstd::arithmetic::div_mod::lemma_div_basics(n_elems as int);
            assert(n_elems as nat / elements == n_elems);
        }
    }
    match ggml_type {
        0 => n_elems * 4,
        1 => n_elems * 2,
        2 => (n_elems / 32) * 18,
        3 => (n_elems / 32) * 20,
        6 => (n_elems / 32) * 22,
        7 => (n_elems / 32) * 24,
        8 => (n_elems / 32) * 34,
        10 => (n_elems / 256) * 84,
        12 => (n_elems / 256) * 144,
        13 => (n_elems / 256) * 176,
        14 => (n_elems / 256) * 210,
        16 => (n_elems / 256) * 66,
        17 => (n_elems / 256) * 74,
        20 => (n_elems / 32) * 18,
        21 => (n_elems / 256) * 110,
        22 => (n_elems / 256) * 82,
        _ => n_elems * 2,
    }
}

/// A parsed file over its bytes.
pub struct GgufFile<'a> {
    pub version: u32,
    pub metadata: StringHashMap<GgufValue>,
    pub tensors: Vec<TensorInfo>,
    pub data_offset: u64,
    pub data: &'a [u8],
}

/// Metadata with its values as data.
pub open spec fn meta_of(metadata: Map<Seq<char>, GgufValue>) -> Map<Seq<char>, GgufData> {
    metadata.map_values(|v: GgufValue| v@)
}

/// Rows of the tensor table.
pub open spec fn rows_of(tensors: Seq<TensorInfo>) -> Seq<TensorRow> {
    Seq::new(tensors.len(), |i: int| tensors[i]@)
}

impl<'a> View for GgufFile<'a> {
    type V = GgufContents;

    open spec fn view(&self) -> GgufContents {
        GgufContents {
            version: self.version,
            metadata: meta_of(self.metadata@),
            tensors: rows_of(self.tensors@),
            data_offset: self.data_offset,
        }
    }
}

/// Reads the metadata entries.
fn read_entries(data: &[u8], pos: &mut usize, version: u32, count: u64) -> (result: Result<
    StringHashMap<GgufValue>,
    GgufError,
>)
    requires
        *old(pos) <= data@.len(),
    ensures
        result is Ok ==> *final(pos) <= data@.len(),
        match entries(data@, *old(pos) as int, version, count as nat) {
            Err(error) => result is Err && result->Err_0 == error,
            Ok((map, next)) => result is Ok && meta_of(result->Ok_0@) == map && *final(pos) == next,
        },
{
    let ghost start = *pos as int;
    let mut metadata: StringHashMap<GgufValue> = StringHashMap::new();
    proof {
        assert forall|n: nat|
            n <= count && #[trigger] entries(data@, start, version, n) is Err implies entries(
            data@,
            start,
            version,
            count as nat,
        ) == entries(data@, start, version, n) by {
            lemma_entries_fault(data@, start, version, n, count as nat);
        }
        assert(meta_of(metadata@) =~= Map::empty());
    }
    let mut i: u64 = 0;
    while i < count
        invariant
            i <= count,
            start == *old(pos),
            *pos <= data@.len(),
            entries(data@, start, version, i as nat) == Ok::<
                (Map<Seq<char>, GgufData>, int),
                GgufError,
            >((meta_of(metadata@), *pos as int)),
            forall|n: nat|
                n <= count && #[trigger] entries(data@, start, version, n) is Err ==> entries(
                    data@,
                    start,
                    version,
                    count as nat,
                ) == entries(data@, start, version, n),
        decreases count - i,
    {
        let ghost before = metadata@;
        proof {
            assert(entries(data@, start, version, (i + 1) as nat) is Err ==> entries(
                data@,
                start,
                version,
                count as nat,
            ) == entries(data@, start, version, (i + 1) as nat));
        }
        let key = match read_string(data, pos) {
            Err(error) => {
                return Err(error);
            },
            Ok(key) => key,
        };
        let item = match read_value(data, pos, version) {
            Err(error) => {
                return Err(error);
            },
            Ok(item) => item,
        };
        let ghost name = key@;
        let ghost content = item;
        metadata.insert(key, item);
        proof {
            assert(meta_of(metadata@) =~= meta_of(before).insert(name, content@));
        }
        i = i + 1;
    }
    Ok(metadata)
}

/// Reads the dimensions of one tensor.
fn read_dimensions(data: &[u8], pos: &mut usize, version: u32, count: u32) -> (result: Result<
    Vec<u64>,
    GgufError,
>)
    requires
        *old(pos) <= data@.len(),
    ensures
        result is Ok ==> *final(pos) <= data@.len(),
        match dimensions(data@, *old(pos) as int, version, count as nat) {
            Err(error) => result is Err && result->Err_0 == error,
            Ok((dims, next)) => result is Ok && result->Ok_0@ == dims && *final(pos) == next,
        },
{
    let ghost start = *pos as int;
    let mut dims: Vec<u64> = Vec::new();
    proof {
        assert forall|n: nat|
            n <= count && #[trigger] dimensions(data@, start, version, n) is Err implies dimensions(
            data@,
            start,
            version,
            count as nat,
        ) == dimensions(data@, start, version, n) by {
            lemma_dimensions_fault(data@, start, version, n, count as nat);
        }
    }
    let mut i: u32 = 0;
    while i < count
        invariant
            i <= count,
            start == *old(pos),
            *pos <= data@.len(),
            dimensions(data@, start, version, i as nat) == Ok::<(Seq<u64>, int), GgufError>(
                (dims@, *pos as int),
            ),
            forall|n: nat|
                n <= count && #[trigger] dimensions(data@, start, version, n) is Err ==> dimensions(
                    data@,
                    start,
                    version,
                    count as nat,
                ) == dimensions(data@, start, version, n),
        decreases count - i,
    {
        proof {
            assert(dimensions(data@, start, version, (i + 1) as nat) is Err ==> dimensions(
                data@,
                start,
                version,
                count as nat,
            ) == dimensions(data@, start, version, (i + 1) as nat));
        }
        match read_count(data, pos, version) {
            Err(error) => {
                return Err(error);
            },
            Ok(dim) => {
                dims.push(dim);
            },
        }
        i = i + 1;
    }
    Ok(dims)
}

/// Reads one row of the tensor table.
fn read_tensor(data: &[u8], pos: &mut usize, version: u32) -> (result: Result<
    TensorInfo,
    GgufError,
>)
    requires
        *old(pos) <= data@.len(),
    ensures
        result is Ok ==> *final(pos) <= data@.len(),
        match tensor_row(data@, *old(pos) as int, version) {
            Err(error) => result is Err && result->Err_0 == error,
            Ok((row, next)) => result is Ok && result->Ok_0@ == row && *final(pos) == next,
        },
{
    let name = match read_string(data, pos) {
        Err(error) => {
            return Err(error);
        },
        Ok(name) => name,
    };
    let n_dims: u32 = match read_u32(data, pos) {
        Err(error) => {
            return Err(error);
        },
        Ok(n) => n,
    };
    let dims = match read_dimensions(data, pos, version, n_dims) {
        Err(error) => {
            return Err(error);
        },
        Ok(dims) => dims,
    };
    let ggml_type: u32 = match read_u32(data, pos) {
        Err(error) => {
            return Err(error);
        },
        Ok(n) => n,
    };
    let offset: u64 = match read_u64(data, pos) {
        Err(error) => {
            return Err(error);
        },
        Ok(n) => n,
    };
    Ok(TensorInfo { name, n_dims, dims, ggml_type, offset })
}

/// Reads the tensor table.
fn read_tensors(data: &[u8], pos: &mut usize, version: u32, count: u64) -> (result: Result<
    Vec<TensorInfo>,
    GgufError,
>)
    requires
        *old(pos) <= data@.len(),
    ensures
        result is Ok ==> *final(pos) <= data@.len(),
        match tensor_rows(data@, *old(pos) as int, version, count as nat) {
            Err(error) => result is Err && result->Err_0 == error,
            Ok((rows, next)) => result is Ok && rows_of(result->Ok_0@) == rows && *final(pos)
                == next,
        },
{
    let ghost start = *pos as int;
    let mut tensors: Vec<TensorInfo> = Vec::new();
    proof {
        assert forall|n: nat|
            n <= count && #[trigger] tensor_rows(data@, start, version, n) is Err implies tensor_rows(
            data@,
            start,
            version,
            count as nat,
        ) == tensor_rows(data@, start, version, n) by {
            lemma_rows_fault(data@, start, version, n, count as nat);
        }
        assert(rows_of(tensors@) =~= Seq::empty());
    }
    let mut i: u64 = 0;
    while i < count
        invariant
            i <= count,
            start == *old(pos),
            *pos <= data@.len(),
            tensor_rows(data@, start, version, i as nat) == Ok::<(Seq<TensorRow>, int), GgufError>(
                (rows_of(tensors@), *pos as int),
            ),
            forall|n: nat|
                n <= count && #[trigger] tensor_rows(data@, start, version, n) is Err
                    ==> tensor_rows(data@, start, version, count as nat) == tensor_rows(
                    data@,
                    start,
                    version,
                    n,
                ),
        decreases count - i,
    {
        let ghost before = tensors@;
        proof {
            assert(tensor_rows(data@, start, version, (i + 1) as nat) is Err ==> tensor_rows(
                data@,
                start,
                version,
                count as nat,
            ) == tensor_rows(data@, start, version, (i + 1) as nat));
        }
        match read_tensor(data, pos, version) {
            Err(error) => {
                return Err(error);
            },
            Ok(row) => {
                tensors.push(row);
            },
        }
        proof {
            assert(rows_of(tensors@) =~= rows_of(before).push(tensors@.last()@));
        }
        i = i + 1;
    }
    Ok(tensors)
}

/// Rounding up gives a multiple that is less than one step away.
pub proof fn lemma_rounded_up(n: int, step: int)
    requires
        0 <= n,
        0 < step,
    ensures
        rounded_up(n, step) % step == 0,
        n <= rounded_up(n, step) < n + step,
{
    if n % step != 0 {
        vstd::arithmetic::div_mod::lemma_fundamental_div_mod(n, step);
        let q = n / step;
        assert(n + (step - n % step) == (q + 1) * step) by (nonlinear_arith)
            requires
                n == step * q + n % step,
        ;
        vstd::arithmetic::div_mod::lemma_mod_multiples_basic(q + 1, step);
    }
}

impl<'a> GgufFile<'a> {
    /// Parses a file.
    pub fn parse(data: &'a [u8]) -> (result: Result<Self, GgufError>)
        requires
            data@.len() <= isize::MAX,
        ensures
            match contents(data@) {
                Err(error) => result is Err && result->Err_0 == error,
                Ok(expected) => {
                    &&& result is Ok
                    &&& result->Ok_0@ == expected
                    &&& result->Ok_0.data@ == data@
                },
            },
            result is Ok ==> result->Ok_0.data_offset as int % alignment(
                result->Ok_0@.metadata,
            ) as int == 0,
    {
        let mut pos: usize = 0;
        let magic: u32 = match read_u32(data, &mut pos) {
            Err(error) => {
                return Err(error);
            },
            Ok(n) => n,
        };
        if magic != GGUF_MAGIC {
            return Err(GgufError::Magic(magic));
        }
        let version: u32 = match read_u32(data, &mut pos) {
            Err(error) => {
                return Err(error);
            },
            Ok(n) => n,
        };
        if version < 1 || version > 3 {
            return Err(GgufError::Version(version));
        }
        let tensor_count: u64 = match read_count(data, &mut pos, version) {
            Err(error) => {
                return Err(error);
            },
            Ok(n) => n,
        };
        let entry_count: u64 = match read_count(data, &mut pos, version) {
            Err(error) => {
                return Err(error);
            },
            Ok(n) => n,
        };
        let metadata = match read_entries(data, &mut pos, version, entry_count) {
            Err(error) => {
                return Err(error);
            },
            Ok(metadata) => metadata,
        };
        let tensors = match read_tensors(data, &mut pos, version, tensor_count) {
            Err(error) => {
                return Err(error);
            },
            Ok(tensors) => tensors,
        };
        let step: u32 = match metadata.get("general.alignment") {
            Some(item) => match item.as_u32() {
                Some(v) => v,
                None => 32,
            },
            None => 32,
        };
        proof {
            assert(step == alignment(meta_of(metadata@)));
        }
        if step == 0 {
            return Err(GgufError::ZeroAlignment);
        }
        proof {
            lemma_rounded_up(pos as int, step as int);
        }
        let end: u64 = pos as u64;
        let rest: u64 = end % (step as u64);
        let data_offset: u64 = if rest != 0 {
            end + (step as u64 - rest)
        } else {
            end
        };
        Ok(GgufFile { version, metadata, tensors, data_offset, data })
    }

    /// The bytes of a tensor lie within the file.
    pub open spec fn holds(&self, info: &TensorInfo) -> bool {
        &&& info.countable()
        &&& block_of(info.ggml_type) is Some
        &&& self.data_offset + info.offset + type_size(info.ggml_type, volume(info.dims@))
            <= self.data@.len()
    }

    /// Raw bytes of a tensor's data block.
    pub fn tensor_data(&self, info: &TensorInfo) -> (bytes: &'a [u8])
        requires
            self.holds(info),
        ensures
            bytes@ == self.data@.subrange(
                self.data_offset + info.offset,
                self.data_offset + info.offset + type_size(info.ggml_type, volume(info.dims@)),
            ),
    {
        proof {
            assert(self.data@.len() == self.data.len());
        }
        let n: usize = info.n_elems();
        let bytes: usize = ggml_type_size(info.ggml_type, n);
        let start: usize = (self.data_offset + info.offset) as usize;
        vstd::slice::slice_subrange(self.data, start, start + bytes)
    }

    /// The tensors by name: where a name occurs again, the later row counts.
    pub fn tensor_map(&self) -> (map: StringHashMap<usize>)
        ensures
            forall|i: int|
                0 <= i < self.tensors@.len() ==> map@.contains_key(
                    (#[trigger] self.tensors@[i]).name@,
                ),
            forall|name: Seq<char>| #[trigger]
                map@.contains_key(name) ==> {
                    &&& map@[name] < self.tensors@.len()
                    &&& self.tensors@[map@[name] as int].name@ == name
                    &&& forall|j: int|
                        map@[name] < j < self.tensors@.len() ==> (
                        #[trigger] self.tensors@[j]).name@ != name
                },
    {
        let mut map: StringHashMap<usize> = StringHashMap::new();
        let mut i: usize = 0;
        while i < self.tensors.len()
            invariant
                i <= self.tensors@.len(),
                forall|j: int|
                    0 <= j < i ==> map@.contains_key((#[trigger] self.tensors@[j]).name@),
                forall|name: Seq<char>| #[trigger]
                    map@.contains_key(name) ==> {
                        &&& map@[name] < i
                        &&& self.tensors@[map@[name] as int].name@ == name
                        &&& forall|j: int|
                            map@[name] < j < i ==> (#[trigger] self.tensors@[j]).name@ != name
                    },
            decreases self.tensors.len() - i,
        {
            map.insert(self.tensors[i].name.clone(), i);
            i = i + 1;
        }
        map
    }

    /// The model architecture, where the file names one.
    pub fn architecture(&self) -> (name: Option<&str>)
        ensures
            match name {
                Some(s) => self@.architecture() == Some(s@),
                None => self@.architecture() is None,
            },
    {
        match self.metadata.get("general.architecture") {
            Some(item) => item.as_str(),
            None => None,
        }
    }

    /// A metadata value as a 32-bit number.
    pub fn meta_u32(&self, key: &str) -> (found: Option<u32>)
        ensures
            found == self@.u32_at(key@),
    {
        match self.metadata.get(key) {
            Some(item) => item.as_u32(),
            None => None,
        }
    }

    /// A metadata value as a 64-bit number.
    pub fn meta_u64(&self, key: &str) -> (found: Option<u64>)
        ensures
            found == self@.u64_at(key@),
    {
        match self.metadata.get(key) {
            Some(item) => item.as_u64(),
            None => None,
        }
    }

    /// The key under which the architecture keeps `suffix`.
    fn arch_key(&self, suffix: &str) -> (key: String)
        ensures
            key@ == self@.arch_key(suffix@),
    {
        let mut key = String::new();
        match self.architecture() {
            Some(name) => {
                key.append(name);
            },
            None => {
                key.append("llama");
            },
        }
        key.append(".");
        key.append(suffix);
        key
    }

    /// A 32-bit number of the architecture.
    pub fn arch_u32(&self, suffix: &str) -> (found: Option<u32>)
        ensures
            found == self@.arch_u32(suffix@),
    {
        let key = self.arch_key(suffix);
        self.meta_u32(key.as_str())
    }

    /// The first of several 32-bit numbers that the architecture has.
    pub fn arch_u32_any(&self, suffixes: &[&str]) -> (found: Option<u32>)
        ensures
            found == self@.arch_u32_any(Seq::new(suffixes@.len(), |i: int| suffixes@[i]@)),
    {
        let ghost names = Seq::new(suffixes@.len(), |i: int| suffixes@[i]@);
        proof {
            assert(names.skip(0) =~= names);
        }
        let mut i: usize = 0;
        while i < suffixes.len()
            invariant
                i <= suffixes@.len(),
                names == Seq::new(suffixes@.len(), |i: int| suffixes@[i]@),
                self@.arch_u32_any(names) == self@.arch_u32_any(names.skip(i as int)),
            decreases suffixes.len() - i,
        {
            let found = self.arch_u32(suffixes[i]);
            proof {
                let rest = names.skip(i as int);
                assert(rest.skip(1) =~= names.skip(i + 1));
                assert(rest[0] == suffixes@[i as int]@);
            }
            if found.is_some() {
                return found;
            }
            i = i + 1;
        }
        None
    }

    /// The bit pattern of a single-precision number of the architecture.
    pub fn arch_f32(&self, suffix: &str) -> (found: Option<u32>)
        ensures
            found == self@.arch_f32(suffix@),
    {
        let key = self.arch_key(suffix);
        match self.metadata.get(key.as_str()) {
            Some(GgufValue::Float32(v)) => Some(*v),
            _ => None,
        }
    }

    /// The first of several single-precision numbers that the architecture has.
    pub fn arch_f32_any(&self, suffixes: &[&str]) -> (found: Option<u32>)
        ensures
            found == self@.arch_f32_any(Seq::new(suffixes@.len(), |i: int| suffixes@[i]@)),
    {
        let ghost names = Seq::new(suffixes@.len(), |i: int| suffixes@[i]@);
        proof {
            assert(names.skip(0) =~= names);
        }
        let mut i: usize = 0;
        while i < suffixes.len()
            invariant
                i <= suffixes@.len(),
                names == Seq::new(suffixes@.len(), |i: int| suffixes@[i]@),
                self@.arch_f32_any(names) == self@.arch_f32_any(names.skip(i as int)),
            decreases suffixes.len() - i,
        {
            let found = self.arch_f32(suffixes[i]);
            proof {
                let rest = names.skip(i as int);
                assert(rest.skip(1) =~= names.skip(i + 1));
                assert(rest[0] == suffixes@[i as int]@);
            }
            if found.is_some() {
                return found;
            }
            i = i + 1;
        }
        None
    }
}

impl GgufContents {
    /// The metadata value under a key.
    pub open spec fn at(self, key: Seq<char>) -> Option<GgufData> {
        if self.metadata.contains_key(key) {
            Some(self.metadata[key])
        } else {
            None
        }
    }

    /// The metadata value under a key, as a 32-bit number.
    pub open spec fn u32_at(self, key: Seq<char>) -> Option<u32> {
        match self.at(key) {
            Some(item) => item.u32_value(),
            None => None,
        }
    }

    /// The metadata value under a key, as a 64-bit number.
    pub open spec fn u64_at(self, key: Seq<char>) -> Option<u64> {
        match self.at(key) {
            Some(item) => item.u64_value(),
            None => None,
        }
    }

    /// The model architecture, where the file names one.
    pub open spec fn architecture(self) -> Option<Seq<char>> {
        match self.at("general.architecture"@) {
            Some(item) => item.str_value(),
            None => None,
        }
    }

    /// The key under which the architecture, or `llama` without one, keeps `suffix`.
    pub open spec fn arch_key(self, suffix: Seq<char>) -> Seq<char> {
        (match self.architecture() {
            Some(name) => name,
            None => "llama"@,
        }) + "."@ + suffix
    }

    /// A 32-bit number of the architecture.
    pub open spec fn arch_u32(self, suffix: Seq<char>) -> Option<u32> {
        self.u32_at(self.arch_key(suffix))
    }

    /// The first of several 32-bit numbers that the architecture has.
    pub open spec fn arch_u32_any(self, suffixes: Seq<Seq<char>>) -> Option<u32>
        decreases suffixes.len(),
    {
        if suffixes.len() == 0 {
            None
        } else if self.arch_u32(suffixes[0]) is Some {
            self.arch_u32(suffixes[0])
        } else {
            self.arch_u32_any(suffixes.skip(1))
        }
    }

    /// The bit pattern of a single-precision number of the architecture.
    pub open spec fn arch_f32(self, suffix: Seq<char>) -> Option<u32> {
        match self.at(self.arch_key(suffix)) {
            Some(GgufData::Float32(bits)) => Some(bits),
            _ => None,
        }
    }

    /// The first of several single-precision numbers that the architecture has.
    pub open spec fn arch_f32_any(self, suffixes: Seq<Seq<char>>) -> Option<u32>
        decreases suffixes.len(),
    {
        if suffixes.len() == 0 {
            None
        } else if self.arch_f32(suffixes[0]) is Some {
            self.arch_f32(suffixes[0])
        } else {
            self.arch_f32_any(suffixes.skip(1))
        }
    }
}

} // verus!
