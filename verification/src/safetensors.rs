//! SafeTensors containers: a JSON header that names tensors, and their payloads.
//!
//! A file starts with the header's length in eight bytes. The header gives each tensor a type, a
//! shape, and a range of the payload that follows it. Payloads are borrowed, never copied.

use vstd::prelude::*;
use vstd::hash_map::StringHashMap;
use crate::gguf;
use crate::gguf::{read_i64, read_u16, read_u32, read_u64};
use crate::half;
use crate::half::{bf16_to_f32, f16_to_f32};
use crate::json;
use crate::json::{find_entry, Json, JsonData};
use crate::layout;
use crate::tensor;
use crate::tensor::element_count;
use crate::tensor_error::TensorError;
use crate::text;
use crate::text::{push_usize, same_text};

verus! {

broadcast use vstd::string::group_string_axioms;

/// The length field at the start of a file.
pub const HEADER_LENGTH_BYTES: usize = 8;

/// The longest header that is accepted.
pub const MAX_HEADER_BYTES: usize = 67108864;

/// The type of a tensor's elements.
#[derive(Clone, Copy, Debug, PartialEq, Eq, Structural)]
pub enum DType {
    F16,
    F32,
    BF16,
    I64,
}

impl DType {
    /// The type that a header names.
    pub open spec fn named(name: Seq<char>) -> Option<DType> {
        if name == "F16"@ {
            Some(DType::F16)
        } else if name == "F32"@ {
            Some(DType::F32)
        } else if name == "BF16"@ {
            Some(DType::BF16)
        } else if name == "I64"@ {
            Some(DType::I64)
        } else {
            None
        }
    }

    /// The bytes of one element.
    pub open spec fn width(self) -> nat {
        match self {
            DType::F16 | DType::BF16 => 2,
            DType::F32 => 4,
            DType::I64 => 8,
        }
    }

    /// The type that a header names.
    pub fn parse(value: &str) -> (found: Option<DType>)
        ensures
            found == DType::named(value@),
    {
        if same_text(value, "F16") {
            Some(DType::F16)
        } else if same_text(value, "F32") {
            Some(DType::F32)
        } else if same_text(value, "BF16") {
            Some(DType::BF16)
        } else if same_text(value, "I64") {
            Some(DType::I64)
        } else {
            None
        }
    }

    /// The bytes of one element.
    pub fn byte_width(self) -> (width: usize)
        ensures
            width == self.width(),
    {
        match self {
            DType::F16 | DType::BF16 => 2,
            DType::F32 => 4,
            DType::I64 => 8,
        }
    }
}

/// Where a tensor lies in a file, and what it holds there.
#[derive(Clone, Debug)]
pub struct TensorInfo {
    pub dtype: DType,
    pub shape: Vec<usize>,
    pub start: usize,
    pub end: usize,
}

/// What a [`TensorInfo`] says, with the shape as a sequence.
pub struct TensorData {
    pub dtype: DType,
    pub shape: Seq<usize>,
    pub start: usize,
    pub end: usize,
}

impl TensorData {
    /// The shape is valid, and the range holds exactly its elements.
    pub open spec fn wf(self) -> bool {
        &&& tensor::valid_shape(self.shape)
        &&& self.start <= self.end
        &&& self.end - self.start == layout::product(self.shape) * self.dtype.width()
    }

    /// Two ranges share a byte.
    pub open spec fn overlaps(self, other: TensorData) -> bool {
        self.start < other.end && other.start < self.end
    }
}

impl View for TensorInfo {
    type V = TensorData;

    open spec fn view(&self) -> TensorData {
        TensorData {
            dtype: self.dtype,
            shape: self.shape@,
            start: self.start,
            end: self.end,
        }
    }
}

impl TensorInfo {
    /// The number of elements.
    pub fn element_count(&self) -> (count: usize)
        requires
            self@.wf(),
        ensures
            count == layout::product(self.shape@),
    {
        product_of(&self.shape)
    }

    /// The number of bytes.
    pub fn byte_len(&self) -> (len: usize)
        requires
            self@.wf(),
        ensures
            len == self.end - self.start,
            len == layout::product(self.shape@) * self.dtype.width(),
    {
        self.end - self.start
    }
}

/// The product of the dimensions of a valid shape.
fn product_of(shape: &[usize]) -> (count: usize)
    requires
        tensor::valid_shape(shape@),
    ensures
        count == layout::product(shape@),
{
    match element_count(shape) {
        Ok(count) => count,
        Err(_) => 0,
    }
}

/// Why a file is refused.
#[derive(Clone, Debug, PartialEq, Eq)]
pub enum HeaderError {
    TooShort,
    Platform,
    LengthRange { len: usize },
    PastEnd,
    NotJson,
    NotObject,
    EmptyName,
    Metadata { name: String },
    Dtype { name: String },
    EmptyShape { name: String },
    ZeroDimension { name: String },
    ElementOverflow,
    ByteOverflow,
    OutOfRange { name: String, start: usize, end: usize },
    LengthMismatch { name: String, declared: usize, required: usize },
    NoTensors,
    Overlap { first: String, second: String },
}

/// What a [`HeaderError`] says, with names as sequences.
pub enum HeaderFault {
    TooShort,
    Platform,
    LengthRange { len: usize },
    PastEnd,
    NotJson,
    NotObject,
    EmptyName,
    Metadata { name: Seq<char> },
    Dtype { name: Seq<char> },
    EmptyShape { name: Seq<char> },
    ZeroDimension { name: Seq<char> },
    ElementOverflow,
    ByteOverflow,
    OutOfRange { name: Seq<char>, start: usize, end: usize },
    LengthMismatch { name: Seq<char>, declared: usize, required: usize },
    NoTensors,
    Overlap { first: Seq<char>, second: Seq<char> },
}

impl View for HeaderError {
    type V = HeaderFault;

    open spec fn view(&self) -> HeaderFault {
        match *self {
            HeaderError::TooShort => HeaderFault::TooShort,
            HeaderError::Platform => HeaderFault::Platform,
            HeaderError::LengthRange { len } => HeaderFault::LengthRange { len },
            HeaderError::PastEnd => HeaderFault::PastEnd,
            HeaderError::NotJson => HeaderFault::NotJson,
            HeaderError::NotObject => HeaderFault::NotObject,
            HeaderError::EmptyName => HeaderFault::EmptyName,
            HeaderError::Metadata { name } => HeaderFault::Metadata { name: name@ },
            HeaderError::Dtype { name } => HeaderFault::Dtype { name: name@ },
            HeaderError::EmptyShape { name } => HeaderFault::EmptyShape { name: name@ },
            HeaderError::ZeroDimension { name } => HeaderFault::ZeroDimension { name: name@ },
            HeaderError::ElementOverflow => HeaderFault::ElementOverflow,
            HeaderError::ByteOverflow => HeaderFault::ByteOverflow,
            HeaderError::OutOfRange { name, start, end } => HeaderFault::OutOfRange {
                name: name@,
                start,
                end,
            },
            HeaderError::LengthMismatch { name, declared, required } =>
                HeaderFault::LengthMismatch { name: name@, declared, required },
            HeaderError::NoTensors => HeaderFault::NoTensors,
            HeaderError::Overlap { first, second } => HeaderFault::Overlap {
                first: first@,
                second: second@,
            },
        }
    }
}

impl HeaderFault {
    /// The message for people.
    pub open spec fn text(self) -> Seq<char> {
        match self {
            HeaderFault::TooShort => "file is shorter than the SafeTensors header prefix"@,
            HeaderFault::Platform => "header length does not fit this platform"@,
            HeaderFault::LengthRange { len } => "header length "@ + text::decimal(len as nat)
                + " is outside the accepted range"@,
            HeaderFault::PastEnd => "header extends past the end of the file"@,
            HeaderFault::NotJson => "header is not valid JSON"@,
            HeaderFault::NotObject => "header root must be a JSON object"@,
            HeaderFault::EmptyName => "tensor name cannot be empty"@,
            HeaderFault::Metadata { name } => "invalid metadata for tensor "@ + name,
            HeaderFault::Dtype { name } => "invalid dtype for tensor "@ + name,
            HeaderFault::EmptyShape { name } => "tensor "@ + name + " has an empty shape"@,
            HeaderFault::ZeroDimension { name } => "tensor "@ + name
                + " has a zero-sized dimension"@,
            HeaderFault::ElementOverflow => "tensor element count overflow"@,
            HeaderFault::ByteOverflow => "tensor byte length overflow"@,
            HeaderFault::OutOfRange { name, start, end } => "tensor "@ + name
                + " has out-of-range data offsets ["@ + text::decimal(start as nat) + ", "@
                + text::decimal(end as nat) + "]"@,
            HeaderFault::LengthMismatch { name, declared, required } => "tensor "@ + name
                + " declares "@ + text::decimal(declared as nat)
                + " bytes but its shape and dtype require "@ + text::decimal(required as nat),
            HeaderFault::NoTensors => "file contains no tensors"@,
            HeaderFault::Overlap { first, second } => "tensor payloads "@ + first + " and "@
                + second + " overlap"@,
        }
    }
}

impl HeaderError {
    /// The message for people.
    pub fn message(&self) -> (message: String)
        ensures
            message@ == self@.text(),
    {
        let mut out = String::new();
        match self {
            HeaderError::TooShort => {
                out.append("file is shorter than the SafeTensors header prefix");
            },
            HeaderError::Platform => {
                out.append("header length does not fit this platform");
            },
            HeaderError::LengthRange { len } => {
                out.append("header length ");
                push_usize(&mut out, *len);
                out.append(" is outside the accepted range");
            },
            HeaderError::PastEnd => {
                out.append("header extends past the end of the file");
            },
            HeaderError::NotJson => {
                out.append("header is not valid JSON");
            },
            HeaderError::NotObject => {
                out.append("header root must be a JSON object");
            },
            HeaderError::EmptyName => {
                out.append("tensor name cannot be empty");
            },
            HeaderError::Metadata { name } => {
                out.append("invalid metadata for tensor ");
                out.append(name.as_str());
            },
            HeaderError::Dtype { name } => {
                out.append("invalid dtype for tensor ");
                out.append(name.as_str());
            },
            HeaderError::EmptyShape { name } => {
                out.append("tensor ");
                out.append(name.as_str());
                out.append(" has an empty shape");
            },
            HeaderError::ZeroDimension { name } => {
                out.append("tensor ");
                out.append(name.as_str());
                out.append(" has a zero-sized dimension");
            },
            HeaderError::ElementOverflow => {
                out.append("tensor element count overflow");
            },
            HeaderError::ByteOverflow => {
                out.append("tensor byte length overflow");
            },
            HeaderError::OutOfRange { name, start, end } => {
                out.append("tensor ");
                out.append(name.as_str());
                out.append(" has out-of-range data offsets [");
                push_usize(&mut out, *start);
                out.append(", ");
                push_usize(&mut out, *end);
                out.append("]");
            },
            HeaderError::LengthMismatch { name, declared, required } => {
                out.append("tensor ");
                out.append(name.as_str());
                out.append(" declares ");
                push_usize(&mut out, *declared);
                out.append(" bytes but its shape and dtype require ");
                push_usize(&mut out, *required);
            },
            HeaderError::NoTensors => {
                out.append("file contains no tensors");
            },
            HeaderError::Overlap { first, second } => {
                out.append("tensor payloads ");
                out.append(first.as_str());
                out.append(" and ");
                out.append(second.as_str());
                out.append(" overlap");
            },
        }
        out
    }
}

/// A header value is a number that fits in a word.
pub open spec fn is_word(value: JsonData) -> bool {
    value matches JsonData::Unsigned(n) && n <= usize::MAX
}

/// The number that a header value is.
pub open spec fn word(value: JsonData) -> usize {
    value->Unsigned_0 as usize
}

/// The numbers of a list of numbers.
pub open spec fn words(value: JsonData) -> Option<Seq<usize>> {
    match value {
        JsonData::List(items) => if forall|i: int|
            0 <= i < items.len() ==> is_word(#[trigger] items[i]) {
            Some(Seq::new(items.len(), |i: int| word(items[i])))
        } else {
            None
        },
        _ => None,
    }
}

/// What the header says of one tensor, before any check.
pub struct RawTensor {
    pub dtype: Seq<char>,
    pub shape: Seq<usize>,
    pub start: usize,
    pub end: usize,
}

/// A description made of its three parts.
pub open spec fn assembled(
    dtype: Option<JsonData>,
    shape: Option<JsonData>,
    offsets: Option<JsonData>,
) -> Option<RawTensor> {
    match (dtype, shape, offsets) {
        (Some(JsonData::Text(dtype)), Some(shape), Some(offsets)) => match (
            words(shape),
            words(offsets),
        ) {
            (Some(shape), Some(offsets)) => if offsets.len() == 2 {
                Some(RawTensor { dtype, shape, start: offsets[0], end: offsets[1] })
            } else {
                None
            },
            _ => None,
        },
        _ => None,
    }
}

/// The description of a tensor: an object with its parts under their names, or a list of the
/// three parts.
pub open spec fn raw_tensor(value: JsonData) -> Option<RawTensor> {
    match value {
        JsonData::Object(entries) => assembled(
            json::entry(entries, "dtype"@),
            json::entry(entries, "shape"@),
            json::entry(entries, "data_offsets"@),
        ),
        JsonData::List(items) => if items.len() == 3 {
            assembled(Some(items[0]), Some(items[1]), Some(items[2]))
        } else {
            None
        },
        _ => None,
    }
}

/// The tensor that a header entry describes, in a file whose payload of `payload` bytes starts at
/// `base`; or what is wrong with the entry.
pub open spec fn described(name: Seq<char>, value: JsonData, base: nat, payload: nat) -> Result<
    TensorData,
    HeaderFault,
> {
    match raw_tensor(value) {
        None => Err(HeaderFault::Metadata { name }),
        Some(raw) => match DType::named(raw.dtype) {
            None => Err(HeaderFault::Dtype { name }),
            Some(dtype) => if raw.shape.len() == 0 {
                Err(HeaderFault::EmptyShape { name })
            } else {
                match tensor::counted(raw.shape) {
                    Err(TensorError::ZeroDimension) => Err(HeaderFault::ZeroDimension { name }),
                    Err(_) => Err(HeaderFault::ElementOverflow),
                    Ok(count) => if count * dtype.width() > usize::MAX {
                        Err(HeaderFault::ByteOverflow)
                    } else if raw.start > raw.end || raw.end > payload {
                        Err(HeaderFault::OutOfRange { name, start: raw.start, end: raw.end })
                    } else if raw.end - raw.start != count * dtype.width() {
                        Err(
                            HeaderFault::LengthMismatch {
                                name,
                                declared: (raw.end - raw.start) as usize,
                                required: (count * dtype.width()) as usize,
                            },
                        )
                    } else {
                        Ok(
                            TensorData {
                                dtype,
                                shape: raw.shape,
                                start: (base + raw.start) as usize,
                                end: (base + raw.end) as usize,
                            },
                        )
                    },
                }
            },
        },
    }
}

/// The tensors that header entries describe, in order; or what is wrong with the first entry that
/// is at fault. The entry `__metadata__` describes none.
pub open spec fn collected(
    entries: Seq<(Seq<char>, JsonData)>,
    base: nat,
    payload: nat,
) -> Result<Seq<(Seq<char>, TensorData)>, HeaderFault>
    decreases entries.len(),
{
    if entries.len() == 0 {
        Ok(Seq::empty())
    } else {
        match collected(entries.drop_last(), base, payload) {
            Err(fault) => Err(fault),
            Ok(list) => if entries.last().0 == "__metadata__"@ {
                Ok(list)
            } else if entries.last().0.len() == 0 {
                Err(HeaderFault::EmptyName)
            } else {
                match described(entries.last().0, entries.last().1, base, payload) {
                    Err(fault) => Err(fault),
                    Ok(found) => Ok(list.push((entries.last().0, found))),
                }
            },
        }
    }
}

/// The tensors that a file lists; or what is wrong with it, short of payloads that overlap.
pub open spec fn listed(file: Seq<u8>) -> Result<Seq<(Seq<char>, TensorData)>, HeaderFault> {
    let len = gguf::little_endian(file, 0, 8);
    if file.len() < 8 {
        Err(HeaderFault::TooShort)
    } else if len > usize::MAX {
        Err(HeaderFault::Platform)
    } else if len == 0 || len > MAX_HEADER_BYTES {
        Err(HeaderFault::LengthRange { len: len as usize })
    } else if 8 + len > file.len() {
        Err(HeaderFault::PastEnd)
    } else {
        match json::json_document(file.subrange(8, (8 + len) as int)) {
            None => Err(HeaderFault::NotJson),
            Some(JsonData::Object(entries)) => match collected(
                entries,
                8 + len,
                (file.len() - 8 - len) as nat,
            ) {
                Err(fault) => Err(fault),
                Ok(list) => if list.len() == 0 {
                    Err(HeaderFault::NoTensors)
                } else {
                    Ok(list)
                },
            },
            Some(_) => Err(HeaderFault::NotObject),
        }
    }
}

/// No two tensors share a byte.
pub open spec fn disjoint(list: Seq<(Seq<char>, TensorData)>) -> bool {
    forall|i: int, j: int|
        #![trigger list[i], list[j]]
        0 <= i < list.len() && 0 <= j < list.len() && i != j ==> !list[i].1.overlaps(list[j].1)
}

/// Names come in ascending order of their bytes; so no name comes twice.
pub open spec fn names_ascend(list: Seq<(Seq<char>, TensorData)>) -> bool {
    forall|i: int, j: int|
        #![trigger list[i], list[j]]
        0 <= i < j < list.len() ==> json::comes_before(
            vstd::utf8::encode_utf8(list[i].0),
            vstd::utf8::encode_utf8(list[j].0),
        )
}

/// A file is accepted: its header is in order and no two payloads overlap.
pub open spec fn accepts(file: Seq<u8>) -> bool {
    listed(file) is Ok && disjoint(listed(file)->Ok_0)
}

/// The indices of all tensors, in ascending order of where the tensors start.
pub open spec fn orders(list: Seq<(Seq<char>, TensorData)>, order: Seq<int>) -> bool {
    &&& order.len() == list.len()
    &&& order.no_duplicates()
    &&& forall|i: int| 0 <= i < order.len() ==> 0 <= #[trigger] order[i] < list.len()
    &&& forall|i: int, j: int|
        #![trigger order[i], order[j]]
        0 <= i <= j < order.len() ==> list[order[i]].1.start <= list[order[j]].1.start
}

/// In the order of where the tensors start, the one at a place overlaps the one before it, and no
/// two neighbours before these do.
pub open spec fn first_overlap(
    list: Seq<(Seq<char>, TensorData)>,
    order: Seq<int>,
    k: int,
) -> bool {
    &&& orders(list, order)
    &&& 1 <= k < order.len()
    &&& list[order[k - 1]].1.overlaps(list[order[k]].1)
    &&& forall|j: int|
        1 <= j < k ==> !list[order[j - 1]].1.overlaps(list[#[trigger] order[j]].1)
}

/// A file is refused for a fault: the header's own, or an overlap of two tensors, which are the
/// first neighbours that overlap in the order of where the tensors start. Which of the tensors that
/// start at the same place comes first is left open.
pub open spec fn refuses(file: Seq<u8>, fault: HeaderFault) -> bool {
    match listed(file) {
        Err(own) => fault == own,
        Ok(list) => {
            &&& fault matches HeaderFault::Overlap { first, second }
            &&& exists|order: Seq<int>, k: int|
                {
                    &&& #[trigger] first_overlap(list, order, k)
                    &&& list[order[k - 1]].0 == first
                    &&& list[order[k]].0 == second
                }
        },
    }
}

/// A file that is refused for some fault is not accepted.
pub proof fn refused_files_are_not_accepted(file: Seq<u8>, fault: HeaderFault)
    requires
        refuses(file, fault),
    ensures
        !accepts(file),
{
    if listed(file) is Ok {
        let list = listed(file)->Ok_0;
        let (order, k) = choose|order: Seq<int>, k: int| #[trigger] first_overlap(list, order, k);
        assert(order[k - 1] != order[k]);
        assert(list[order[k - 1]].1.overlaps(list[order[k]].1));
    }
}

/// What named tensors say.
pub open spec fn rows_of(rows: Seq<(String, TensorInfo)>) -> Seq<(Seq<char>, TensorData)> {
    Seq::new(rows.len(), |i: int| (rows[i].0@, rows[i].1@))
}

/// Every tensor that a file lists lies inside the file, and its range holds exactly the elements
/// that its shape and type call for.
pub proof fn listed_tensors_fit(file: Seq<u8>, i: int)
    requires
        file.len() <= usize::MAX,
        listed(file) is Ok,
        0 <= i < listed(file)->Ok_0.len(),
    ensures
        listed(file)->Ok_0[i].1.wf(),
        8 <= listed(file)->Ok_0[i].1.start < listed(file)->Ok_0[i].1.end <= file.len(),
{
    let len = gguf::little_endian(file, 0, 8);
    let entries = json::json_document(file.subrange(8, (8 + len) as int))->0->Object_0;
    lemma_collected_fit(entries, 8 + len, (file.len() - 8 - len) as nat, i);
}

proof fn lemma_collected_fit(
    entries: Seq<(Seq<char>, JsonData)>,
    base: nat,
    payload: nat,
    i: int,
)
    requires
        base + payload <= usize::MAX,
        collected(entries, base, payload) is Ok,
        0 <= i < collected(entries, base, payload)->Ok_0.len(),
    ensures
        ({
            let data = collected(entries, base, payload)->Ok_0[i].1;
            &&& data.wf()
            &&& base <= data.start < data.end <= base + payload
        }),
    decreases entries.len(),
{
    if entries.len() > 0 {
        let before = collected(entries.drop_last(), base, payload)->Ok_0;
        if i < before.len() {
            lemma_collected_fit(entries.drop_last(), base, payload, i);
        } else {
            let raw = raw_tensor(entries.last().1)->0;
            tensor::lemma_counted(raw.shape);
            let count = layout::product(raw.shape);
            let width = DType::named(raw.dtype)->0.width();
            assert(count * width > 0) by (nonlinear_arith)
                requires
                    count > 0,
                    width > 0,
            ;
        }
    }
}

/// The tensors come from entries of the header, in the order of the entries.
proof fn lemma_collected_ascend(entries: Seq<(Seq<char>, JsonData)>, base: nat, payload: nat)
    requires
        json::ascending(entries),
        collected(entries, base, payload) is Ok,
    ensures
        names_ascend(collected(entries, base, payload)->Ok_0),
        forall|i: int|
            0 <= i < collected(entries, base, payload)->Ok_0.len() ==> exists|k: int|
                0 <= k < entries.len() && (#[trigger] entries[k]).0 == (
                #[trigger] collected(entries, base, payload)->Ok_0[i]).0,
    decreases entries.len(),
{
    if entries.len() > 0 {
        let init = entries.drop_last();
        assert(json::ascending(init)) by {
            assert forall|i: int, j: int|
                #![trigger init[i], init[j]]
                0 <= i < j < init.len() implies json::comes_before(
                vstd::utf8::encode_utf8(init[i].0),
                vstd::utf8::encode_utf8(init[j].0),
            ) by {
                assert(init[i] == entries[i] && init[j] == entries[j]);
            }
        }
        lemma_collected_ascend(init, base, payload);
        let before = collected(init, base, payload)->Ok_0;
        let list = collected(entries, base, payload)->Ok_0;
        assert forall|i: int| 0 <= i < list.len() implies exists|k: int|
            0 <= k < entries.len() && (#[trigger] entries[k]).0 == (#[trigger] list[i]).0 by {
            if i < before.len() {
                let k = choose|k: int|
                    0 <= k < init.len() && (#[trigger] init[k]).0 == before[i].0;
                assert(entries[k] == init[k]);
            } else {
                assert(entries[entries.len() - 1].0 == list[i].0);
            }
        }
        assert forall|i: int, j: int|
            #![trigger list[i], list[j]]
            0 <= i < j < list.len() implies json::comes_before(
            vstd::utf8::encode_utf8(list[i].0),
            vstd::utf8::encode_utf8(list[j].0),
        ) by {
            assert(before[i] == list[i]);
            if j < before.len() {
                assert(before[j] == list[j]);
            } else {
                let k = choose|k: int|
                    0 <= k < init.len() && (#[trigger] init[k]).0 == before[i].0;
                assert(entries[k] == init[k]);
                assert(entries[entries.len() - 1] == entries.last());
                assert(list[j].0 == entries.last().0);
            }
        }
    }
}

/// A fault in the first entries is the fault of them all.
proof fn lemma_collected_prefix(
    entries: Seq<(Seq<char>, JsonData)>,
    base: nat,
    payload: nat,
    n: int,
)
    requires
        0 <= n <= entries.len(),
        collected(entries.take(n), base, payload) is Err,
    ensures
        collected(entries, base, payload) == collected(entries.take(n), base, payload),
    decreases entries.len(),
{
    if n == entries.len() {
        assert(entries.take(n) =~= entries);
    } else {
        assert(entries.drop_last().take(n) =~= entries.take(n));
        lemma_collected_prefix(entries.drop_last(), base, payload, n);
    }
}

/// The numbers of a list of numbers.
fn read_words(value: &Json) -> (found: Option<Vec<usize>>)
    ensures
        match found {
            Some(numbers) => words(value@) == Some(numbers@),
            None => words(value@) is None,
        },
{
    match value {
        Json::List(items) => {
            proof {
                assert(value@->List_0 =~= json::items_data(items@));
            }
            let mut numbers: Vec<usize> = Vec::new();
            let mut i: usize = 0;
            while i < items.len()
                invariant
                    i == numbers@.len() <= items@.len(),
                    value@ == JsonData::List(json::items_data(items@)),
                    forall|j: int|
                        0 <= j < i ==> is_word((#[trigger] items@[j])@) && numbers@[j] == word(
                            items@[j]@,
                        ),
                decreases items.len() - i,
            {
                match &items[i] {
                    Json::Unsigned(n) if *n <= usize::MAX as u64 => {
                        numbers.push(*n as usize);
                    },
                    _ => {
                        proof {
                            assert(!is_word(json::items_data(items@)[i as int]));
                        }
                        return None;
                    },
                }
                i = i + 1;
            }
            proof {
                let all = json::items_data(items@);
                assert(forall|j: int| 0 <= j < all.len() ==> is_word(#[trigger] all[j]));
                assert(numbers@ =~= Seq::new(all.len(), |i: int| word(all[i])));
            }
            Some(numbers)
        },
        _ => None,
    }
}

/// A description made of its three parts.
fn assemble(
    dtype: Option<&Json>,
    shape: Option<&Json>,
    offsets: Option<&Json>,
) -> (found: Option<(String, Vec<usize>, usize, usize)>)
    ensures
        match found {
            Some((name, dims, start, end)) => assembled(
                viewed(dtype),
                viewed(shape),
                viewed(offsets),
            ) == Some(RawTensor { dtype: name@, shape: dims@, start, end }),
            None => assembled(viewed(dtype), viewed(shape), viewed(offsets)) is None,
        },
{
    match (dtype, shape, offsets) {
        (Some(Json::Text(name)), Some(shape), Some(offsets)) => {
            match (read_words(shape), read_words(offsets)) {
                (Some(dims), Some(range)) => {
                    if range.len() == 2 {
                        Some((name.clone(), dims, range[0], range[1]))
                    } else {
                        None
                    }
                },
                _ => None,
            }
        },
        _ => None,
    }
}

/// What an optional value holds.
pub open spec fn viewed(value: Option<&Json>) -> Option<JsonData> {
    match value {
        Some(json) => Some(json@),
        None => None,
    }
}

/// The description of a tensor.
fn read_tensor(value: &Json) -> (found: Option<(String, Vec<usize>, usize, usize)>)
    ensures
        match found {
            Some((name, dims, start, end)) => raw_tensor(value@) == Some(
                RawTensor { dtype: name@, shape: dims@, start, end },
            ),
            None => raw_tensor(value@) is None,
        },
{
    match value {
        Json::Object(entries) => {
            proof {
                assert(value@->Object_0 =~= json::entries_data(entries@));
            }
            assemble(
                find_entry(entries, "dtype"),
                find_entry(entries, "shape"),
                find_entry(entries, "data_offsets"),
            )
        },
        Json::List(items) => {
            proof {
                assert(value@->List_0 =~= json::items_data(items@));
            }
            if items.len() == 3 {
                assemble(Some(&items[0]), Some(&items[1]), Some(&items[2]))
            } else {
                None
            }
        },
        _ => None,
    }
}

/// The tensor that a header entry describes.
fn describe(name: &String, value: &Json, base: usize, payload: usize) -> (result: Result<
    TensorInfo,
    HeaderError,
>)
    requires
        base + payload <= usize::MAX,
    ensures
        match described(name@, value@, base as nat, payload as nat) {
            Ok(data) => result is Ok && result->Ok_0@ == data,
            Err(fault) => result is Err && result->Err_0@ == fault,
        },
{
    let (dtype_name, shape, start, end) = match read_tensor(value) {
        None => {
            return Err(HeaderError::Metadata { name: name.clone() });
        },
        Some(raw) => raw,
    };
    let dtype = match DType::parse(dtype_name.as_str()) {
        None => {
            return Err(HeaderError::Dtype { name: name.clone() });
        },
        Some(dtype) => dtype,
    };
    if shape.len() == 0 {
        return Err(HeaderError::EmptyShape { name: name.clone() });
    }
    proof {
        tensor::lemma_counted(shape@);
    }
    let count: usize = match element_count(&shape) {
        Ok(count) => count,
        Err(TensorError::ZeroDimension) => {
            return Err(HeaderError::ZeroDimension { name: name.clone() });
        },
        Err(_) => {
            return Err(HeaderError::ElementOverflow);
        },
    };
    let required: usize = match count.checked_mul(dtype.byte_width()) {
        Some(required) => required,
        None => {
            return Err(HeaderError::ByteOverflow);
        },
    };
    if start > end || end > payload {
        return Err(HeaderError::OutOfRange { name: name.clone(), start, end });
    }
    if end - start != required {
        return Err(
            HeaderError::LengthMismatch { name: name.clone(), declared: end - start, required },
        );
    }
    Ok(TensorInfo { dtype, shape, start: base + start, end: base + end })
}

/// `slice::sort_unstable_by_key`, with the first number of each item as its key: the items stay
/// the same, and their keys ascend. The order of items with equal keys is left open.
#[verifier::external_body]
fn sort_by_start(ranges: &mut Vec<(usize, usize, usize)>)
    ensures
        final(ranges)@.to_multiset() == old(ranges)@.to_multiset(),
        forall|i: int, j: int|
            #![trigger final(ranges)@[i], final(ranges)@[j]]
            0 <= i <= j < final(ranges)@.len() ==> final(ranges)@[i].0 <= final(ranges)@[j].0,
{
    ranges.sort_unstable_by_key(|range| range.0);
}

/// The ranges of tensors, each with the tensor's index.
spec fn indexed(list: Seq<(Seq<char>, TensorData)>) -> Seq<(usize, usize, usize)> {
    Seq::new(list.len(), |i: int| (list[i].1.start, list[i].1.end, i as usize))
}

/// Sorted ranges order the tensors that they belong to.
proof fn lemma_first_overlap(
    list: Seq<(Seq<char>, TensorData)>,
    sorted: Seq<(usize, usize, usize)>,
    k: int,
)
    requires
        sorted.len() == list.len(),
        sorted.no_duplicates(),
        forall|i: int, j: int|
            #![trigger sorted[i], sorted[j]]
            0 <= i <= j < sorted.len() ==> sorted[i].0 <= sorted[j].0,
        forall|k: int|
            0 <= k < sorted.len() ==> ({
                let r = #[trigger] sorted[k];
                &&& r.2 < list.len()
                &&& r.0 == list[r.2 as int].1.start
                &&& r.1 == list[r.2 as int].1.end
                &&& r.0 < r.1
            }),
        1 <= k < sorted.len(),
        sorted[k - 1].1 > sorted[k].0,
        forall|i: int, j: int|
            #![trigger sorted[i], sorted[j]]
            0 <= i < j < k ==> sorted[i].1 <= sorted[j].0,
    ensures
        exists|order: Seq<int>| #[trigger]
            first_overlap(list, order, k) && order[k - 1] == sorted[k - 1].2 && order[k]
                == sorted[k].2,
{
    let order = Seq::new(sorted.len(), |i: int| sorted[i].2 as int);
    assert forall|i: int, j: int|
        0 <= i < order.len() && 0 <= j < order.len() && i != j implies order[i] != order[j] by {
        assert(sorted[i] != sorted[j]);
    }
    assert forall|i: int, j: int|
        #![trigger order[i], order[j]]
        0 <= i <= j < order.len() implies list[order[i]].1.start <= list[order[j]].1.start by {
        assert(sorted[i].0 <= sorted[j].0);
    }
    assert forall|j: int| 1 <= j < k implies !list[order[j - 1]].1.overlaps(
        list[#[trigger] order[j]].1,
    ) by {
        assert(sorted[j - 1].1 <= sorted[j].0);
    }
    assert(sorted[k - 1].0 <= sorted[k].0);
    assert(first_overlap(list, order, k));
}

/// The first two neighbours that overlap in the order of where the tensors start, if any do.
fn find_overlap(rows: &Vec<(String, TensorInfo)>) -> (found: Option<(usize, usize)>)
    requires
        forall|i: int| 0 <= i < rows@.len() ==> (#[trigger] rows@[i]).1.start < rows@[i].1.end,
    ensures
        match found {
            None => disjoint(rows_of(rows@)),
            Some((a, b)) => {
                &&& a < rows@.len() && b < rows@.len()
                &&& exists|order: Seq<int>, k: int| #[trigger]
                    first_overlap(rows_of(rows@), order, k) && order[k - 1] == a && order[k] == b
            },
        },
{
    let ghost list = rows_of(rows@);
    let mut ranges: Vec<(usize, usize, usize)> = Vec::new();
    let mut i: usize = 0;
    while i < rows.len()
        invariant
            i == ranges@.len() <= rows@.len() == rows.len(),
            list == rows_of(rows@),
            ranges@ =~= indexed(list).take(i as int),
        decreases rows.len() - i,
    {
        ranges.push((rows[i].1.start, rows[i].1.end, i));
        i = i + 1;
    }
    let ghost before = ranges@;
    proof {
        assert(before =~= indexed(list));
        assert(before.no_duplicates()) by {
            assert forall|i: int, j: int|
                0 <= i < before.len() && 0 <= j < before.len() && i != j implies before[i]
                != before[j] by {
                assert(before[i].2 == i && before[j].2 == j);
            }
        }
    }
    sort_by_start(&mut ranges);
    let ghost sorted = ranges@;
    proof {
        before.to_multiset_ensures();
        sorted.to_multiset_ensures();
        before.lemma_multiset_has_no_duplicates();
        sorted.lemma_multiset_has_no_duplicates_conv();
        assert forall|k: int| 0 <= k < sorted.len() implies ({
            let r = #[trigger] sorted[k];
            &&& r.2 < list.len()
            &&& r.0 == list[r.2 as int].1.start
            &&& r.1 == list[r.2 as int].1.end
            &&& r.0 < r.1
        }) by {
            assert(sorted.contains(sorted[k]));
            assert(before.to_multiset().count(sorted[k]) > 0);
            let m = choose|m: int| 0 <= m < before.len() && before[m] == sorted[k];
            assert(before[m].2 == m);
        }
    }
    let mut k: usize = 1;
    while k < ranges.len()
        invariant
            1 <= k,
            k <= ranges@.len() || ranges@.len() == 0,
            ranges@ == sorted,
            sorted.len() == list.len(),
            list == rows_of(rows@),
            sorted.no_duplicates(),
            forall|i: int, j: int|
                #![trigger sorted[i], sorted[j]]
                0 <= i <= j < sorted.len() ==> sorted[i].0 <= sorted[j].0,
            forall|k: int|
                0 <= k < sorted.len() ==> ({
                    let r = #[trigger] sorted[k];
                    &&& r.2 < list.len()
                    &&& r.0 == list[r.2 as int].1.start
                    &&& r.1 == list[r.2 as int].1.end
                    &&& r.0 < r.1
                }),
            forall|i: int, j: int|
                #![trigger sorted[i], sorted[j]]
                0 <= i < j < k && j < sorted.len() ==> sorted[i].1 <= sorted[j].0,
        decreases ranges.len() - k,
    {
        if ranges[k - 1].1 > ranges[k].0 {
            proof {
                lemma_first_overlap(list, sorted, k as int);
            }
            return Some((ranges[k - 1].2, ranges[k].2));
        }
        proof {
            assert forall|i: int, j: int|
                #![trigger sorted[i], sorted[j]]
                0 <= i < j < k + 1 && j < sorted.len() implies sorted[i].1 <= sorted[j].0 by {
                if j == k && i < k - 1 {
                    assert(sorted[i].1 <= sorted[k - 1].0);
                    assert(sorted[k - 1].0 < sorted[k - 1].1);
                }
            }
        }
        k = k + 1;
    }
    proof {
        assert forall|i: int, j: int|
            #![trigger list[i], list[j]]
            0 <= i < list.len() && 0 <= j < list.len() && i != j implies !list[i].1.overlaps(
            list[j].1,
        ) by {
            assert(before[i].2 == i && before[j].2 == j);
            assert(before.contains(before[i]) && before.contains(before[j]));
            assert(sorted.to_multiset().count(before[i]) > 0);
            assert(sorted.to_multiset().count(before[j]) > 0);
            let p = choose|p: int| 0 <= p < sorted.len() && sorted[p] == before[i];
            let q = choose|q: int| 0 <= q < sorted.len() && sorted[q] == before[j];
            assert(p != q);
        }
    }
    None
}

/// The tensors of a file, by the header at its start.
pub fn parse_header(file: &[u8]) -> (result: Result<Vec<(String, TensorInfo)>, HeaderError>)
    ensures
        result is Ok <==> accepts(file@),
        result matches Ok(rows) ==> rows_of(rows@) == listed(file@)->Ok_0,
        result matches Err(error) ==> refuses(file@, error@),
        result matches Ok(rows) ==> names_ascend(rows_of(rows@)),
{
    proof {
        assert(file@.len() == file.len());
    }
    if file.len() < HEADER_LENGTH_BYTES {
        return Err(HeaderError::TooShort);
    }
    let mut pos: usize = 0;
    let declared: u64 = match read_u64(file, &mut pos) {
        Ok(len) => len,
        Err(_) => 0,
    };
    if declared > usize::MAX as u64 {
        return Err(HeaderError::Platform);
    }
    let len: usize = declared as usize;
    if len == 0 || len > MAX_HEADER_BYTES {
        return Err(HeaderError::LengthRange { len });
    }
    if len > file.len() - HEADER_LENGTH_BYTES {
        return Err(HeaderError::PastEnd);
    }
    let base: usize = HEADER_LENGTH_BYTES + len;
    let payload: usize = file.len() - base;
    let document = match json::parse(vstd::slice::slice_subrange(file, HEADER_LENGTH_BYTES, base)) {
        Some(document) => document,
        None => {
            return Err(HeaderError::NotJson);
        },
    };
    let entries = match &document {
        Json::Object(entries) => entries,
        _ => {
            return Err(HeaderError::NotObject);
        },
    };
    let ghost all = json::entries_data(entries@);
    proof {
        assert(document@->Object_0 =~= all);
    }
    let mut rows: Vec<(String, TensorInfo)> = Vec::new();
    let mut i: usize = 0;
    proof {
        assert(all.take(0) =~= Seq::empty());
        assert(rows_of(rows@) =~= Seq::empty());
    }
    while i < entries.len()
        invariant
            i <= entries@.len(),
            base + payload <= usize::MAX,
            all == json::entries_data(entries@),
            collected(all.take(i as int), base as nat, payload as nat) == Ok::<_, HeaderFault>(
                rows_of(rows@),
            ),
            listed(file@) is Ok ==> collected(all, base as nat, payload as nat) is Ok,
            collected(all, base as nat, payload as nat) is Err ==> (listed(file@) is Err
                && listed(file@)->Err_0 == collected(all, base as nat, payload as nat)->Err_0),
        decreases entries.len() - i,
    {
        let ghost part = all.take(i + 1);
        proof {
            assert(part.drop_last() =~= all.take(i as int));
            assert(part.last() == (entries@[i as int].0@, entries@[i as int].1@));
            if collected(part, base as nat, payload as nat) is Err {
                lemma_collected_prefix(all, base as nat, payload as nat, i + 1);
            }
        }
        let name = &entries[i].0;
        if !same_text(name.as_str(), "__metadata__") {
            if name.as_str().unicode_len() == 0 {
                return Err(HeaderError::EmptyName);
            }
            match describe(name, &entries[i].1, base, payload) {
                Err(error) => {
                    return Err(error);
                },
                Ok(info) => {
                    let ghost old_rows = rows@;
                    rows.push((name.clone(), info));
                    proof {
                        assert(rows_of(rows@) =~= rows_of(old_rows).push((name@, info@)));
                    }
                },
            }
        }
        i = i + 1;
    }
    proof {
        assert(all.take(all.len() as int) =~= all);
        lemma_collected_ascend(all, base as nat, payload as nat);
    }
    if rows.len() == 0 {
        return Err(HeaderError::NoTensors);
    }
    proof {
        assert forall|i: int| 0 <= i < rows@.len() implies (#[trigger] rows@[i]).1.start
            < rows@[i].1.end by {
            lemma_collected_fit(all, base as nat, payload as nat, i);
            assert(rows_of(rows@)[i].1 == rows@[i].1@);
        }
    }
    match find_overlap(&rows) {
        Some((a, b)) => {
            proof {
                let list = rows_of(rows@);
                let (order, k) = choose|order: Seq<int>, k: int| #[trigger]
                    first_overlap(list, order, k) && order[k - 1] == a && order[k] == b;
                assert(order[k - 1] != order[k]);
                assert(list[a as int].1.overlaps(list[b as int].1));
            }
            Err(HeaderError::Overlap { first: rows[a].0.clone(), second: rows[b].0.clone() })
        },
        None => Ok(rows),
    }
}

/// An element: a single-precision number by its bit pattern, or an integer.
#[derive(Clone, Copy, Debug, PartialEq, Eq, Structural)]
pub enum Scalar {
    Single(u32),
    Integer(i64),
}

/// `scalar` is element `index` of a payload: half-precision numbers are widened, bfloat16 numbers
/// are the upper half of a single-precision number.
pub open spec fn scalar_is(dtype: DType, payload: Seq<u8>, index: int, scalar: Scalar) -> bool {
    match (dtype, scalar) {
        (DType::F16, Scalar::Single(bits)) => half::widens(
            gguf::little_endian(payload, index * 2, 2) as u16,
            bits,
        ),
        (DType::BF16, Scalar::Single(bits)) => bits == gguf::little_endian(payload, index * 2, 2)
            * 65536,
        (DType::F32, Scalar::Single(bits)) => bits == gguf::little_endian(payload, index * 4, 4),
        (DType::I64, Scalar::Integer(n)) => n == (gguf::little_endian(payload, index * 8, 8)
            as u64) as i64,
        _ => false,
    }
}

/// A tensor's payload, borrowed from its file.
#[derive(Clone, Copy)]
pub struct TensorView<'a> {
    pub dtype: DType,
    pub shape: &'a [usize],
    pub payload: &'a [u8],
}

impl<'a> TensorView<'a> {
    /// The payload holds exactly the elements of a valid shape.
    pub open spec fn wf(&self) -> bool {
        &&& tensor::valid_shape(self.shape@)
        &&& self.payload@.len() == layout::product(self.shape@) * self.dtype.width()
    }

    /// The number of elements.
    pub fn len(self) -> (len: usize)
        requires
            self.wf(),
        ensures
            len == layout::product(self.shape@),
    {
        product_of(self.shape)
    }

    /// The payload.
    pub fn bytes(self) -> (bytes: &'a [u8])
        ensures
            bytes@ == self.payload@,
    {
        self.payload
    }

    /// One element.
    pub fn value(self, index: usize) -> (scalar: Scalar)
        requires
            self.wf(),
            index < layout::product(self.shape@),
        ensures
            scalar_is(self.dtype, self.payload@, index as int, scalar),
    {
        proof {
            let width = self.dtype.width();
            let len = layout::product(self.shape@);
            assert((index + 1) * width <= len * width) by (nonlinear_arith)
                requires
                    index + 1 <= len,
                    0 <= width,
            ;
        }
        read_scalar(self.dtype, self.payload, index)
    }
}

/// Element `index` of a payload.
fn read_scalar(dtype: DType, payload: &[u8], index: usize) -> (scalar: Scalar)
    requires
        (index + 1) * dtype.width() <= payload@.len(),
    ensures
        scalar_is(dtype, payload@, index as int, scalar),
        dtype != DType::I64 <==> scalar is Single,
{
    proof {
        assert(payload@.len() == payload.len());
    }
    match dtype {
        DType::F16 => {
            let mut pos: usize = index * 2;
            match read_u16(payload, &mut pos) {
                Ok(bits) => Scalar::Single(f16_to_f32(bits)),
                Err(_) => Scalar::Single(0),
            }
        },
        DType::BF16 => {
            let mut pos: usize = index * 2;
            match read_u16(payload, &mut pos) {
                Ok(bits) => Scalar::Single(bf16_to_f32(bits)),
                Err(_) => Scalar::Single(0),
            }
        },
        DType::F32 => {
            let mut pos: usize = index * 4;
            match read_u32(payload, &mut pos) {
                Ok(bits) => Scalar::Single(bits),
                Err(_) => Scalar::Single(0),
            }
        },
        DType::I64 => {
            let mut pos: usize = index * 8;
            match read_i64(payload, &mut pos) {
                Ok(number) => Scalar::Integer(number),
                Err(_) => Scalar::Integer(0),
            }
        },
    }
}

/// A tensor together with the file that holds it.
pub struct MappedTensor<'a> {
    pub dtype: DType,
    pub shape: Vec<usize>,
    pub file: &'a [u8],
    pub tensor_count: usize,
    pub start: usize,
    pub end: usize,
}

impl<'a> MappedTensor<'a> {
    /// The range lies in the file and holds exactly the elements of a valid shape.
    pub open spec fn wf(&self) -> bool {
        &&& tensor::valid_shape(self.shape@)
        &&& self.start <= self.end <= self.file@.len()
        &&& self.end - self.start == layout::product(self.shape@) * self.dtype.width()
    }

    /// The number of elements.
    pub fn len(&self) -> (len: usize)
        requires
            self.wf(),
        ensures
            len == layout::product(self.shape@),
    {
        product_of(&self.shape)
    }

    /// The payload.
    pub fn bytes(&self) -> (bytes: &'a [u8])
        requires
            self.wf(),
        ensures
            bytes@ == self.file@.subrange(self.start as int, self.end as int),
    {
        vstd::slice::slice_subrange(self.file, self.start, self.end)
    }

    /// Where in the file the payload starts.
    pub fn offset(&self) -> (offset: usize)
        ensures
            offset == self.start,
    {
        self.start
    }

    /// How many tensors the file holds.
    pub fn tensor_count(&self) -> (count: usize)
        ensures
            count == self.tensor_count,
    {
        self.tensor_count
    }
}

/// Why a tensor cannot be had from a file.
#[derive(Clone, Debug, PartialEq, Eq)]
pub enum TensorAccessError {
    NotFound { name: String },
    NotFloat { name: String },
}

/// What a [`TensorAccessError`] says, with names as sequences.
pub enum TensorAccessFault {
    NotFound { name: Seq<char> },
    NotFloat { name: Seq<char> },
}

impl View for TensorAccessError {
    type V = TensorAccessFault;

    open spec fn view(&self) -> TensorAccessFault {
        match *self {
            TensorAccessError::NotFound { name } => TensorAccessFault::NotFound { name: name@ },
            TensorAccessError::NotFloat { name } => TensorAccessFault::NotFloat { name: name@ },
        }
    }
}

impl TensorAccessFault {
    /// The message for people.
    pub open spec fn text(self) -> Seq<char> {
        match self {
            TensorAccessFault::NotFound { name } => "tensor not found: "@ + name,
            TensorAccessFault::NotFloat { name } => "tensor "@ + name
                + " is I64, not a floating-point weight"@,
        }
    }
}

impl TensorAccessError {
    /// The message for people.
    pub fn message(&self) -> (message: String)
        ensures
            message@ == self@.text(),
    {
        let mut out = String::new();
        match self {
            TensorAccessError::NotFound { name } => {
                out.append("tensor not found: ");
                out.append(name.as_str());
            },
            TensorAccessError::NotFloat { name } => {
                out.append("tensor ");
                out.append(name.as_str());
                out.append(" is I64, not a floating-point weight");
            },
        }
        out
    }
}

/// The tensor of a name.
pub open spec fn lookup(list: Seq<(Seq<char>, TensorData)>, name: Seq<char>) -> Option<TensorData>
    decreases list.len(),
{
    if list.len() == 0 {
        None
    } else if list[0].0 == name {
        Some(list[0].1)
    } else {
        lookup(list.skip(1), name)
    }
}

/// A name that stands at one place only is found there.
proof fn lemma_lookup(list: Seq<(Seq<char>, TensorData)>, name: Seq<char>, i: int)
    requires
        0 <= i < list.len(),
        list[i].0 == name,
        forall|j: int| 0 <= j < i ==> (#[trigger] list[j]).0 != name,
    ensures
        lookup(list, name) == Some(list[i].1),
    decreases list.len(),
{
    if i > 0 {
        assert(list[0].0 != name);
        assert(list.skip(1)[i - 1] == list[i]);
        assert forall|j: int| 0 <= j < i - 1 implies (#[trigger] list.skip(1)[j]).0 != name by {
            assert(list[j + 1].0 != name);
        }
        lemma_lookup(list.skip(1), name, i - 1);
    }
}

/// A name that stands nowhere is not found.
proof fn lemma_lookup_none(list: Seq<(Seq<char>, TensorData)>, name: Seq<char>)
    requires
        forall|j: int| 0 <= j < list.len() ==> (#[trigger] list[j]).0 != name,
    ensures
        lookup(list, name) is None,
    decreases list.len(),
{
    if list.len() > 0 {
        assert(list[0].0 != name);
        assert forall|j: int| 0 <= j < list.len() - 1 implies (#[trigger] list.skip(1)[j]).0
            != name by {
            assert(list[j + 1].0 != name);
        }
        lemma_lookup_none(list.skip(1), name);
    }
}

/// A parsed file.
pub struct SafeTensorFile<'a> {
    data: &'a [u8],
    rows: Vec<(String, TensorInfo)>,
    index: StringHashMap<usize>,
}

impl<'a> SafeTensorFile<'a> {
    /// The tensors in order of their names.
    pub closed spec fn tensors(&self) -> Seq<(Seq<char>, TensorData)> {
        rows_of(self.rows@)
    }

    /// The bytes of the file.
    pub closed spec fn file(&self) -> Seq<u8> {
        self.data@
    }

    /// The tensors lie in the file, apart from each other, and can be found by name.
    pub closed spec fn wf(&self) -> bool {
        &&& disjoint(self.tensors())
        &&& forall|i: int|
            0 <= i < self.tensors().len() ==> {
                &&& (#[trigger] self.tensors()[i]).1.wf()
                &&& self.tensors()[i].1.end <= self.data@.len()
                &&& self.index@.contains_key(self.tensors()[i].0)
                &&& self.index@[self.tensors()[i].0] == i
            }
        &&& forall|name: Seq<char>| #[trigger]
            self.index@.contains_key(name) ==> self.index@[name] < self.tensors().len()
                && self.tensors()[self.index@[name] as int].0 == name
    }

    /// Every tensor of a parsed file lies in the file and holds exactly its elements; no two share
    /// a byte, or a name.
    pub proof fn tensors_fit(&self, i: int, j: int)
        requires
            self.wf(),
            0 <= i < self.tensors().len(),
            0 <= j < self.tensors().len(),
        ensures
            self.tensors()[i].1.wf(),
            self.tensors()[i].1.end <= self.file().len(),
            i != j ==> self.tensors()[i].0 != self.tensors()[j].0 && !self.tensors()[i].1.overlaps(
                self.tensors()[j].1,
            ),
    {
    }

    /// Parses a file.
    pub fn parse(data: &'a [u8]) -> (result: Result<Self, HeaderError>)
        ensures
            result is Ok <==> accepts(data@),
            result matches Ok(file) ==> {
                &&& file.wf()
                &&& file.tensors() == listed(data@)->Ok_0
                &&& file.file() == data@
            },
            result matches Err(error) ==> refuses(data@, error@),
            result matches Ok(file) ==> names_ascend(file.tensors()),
    {
        proof {
            assert(data@.len() == data.len());
        }
        let rows = match parse_header(data) {
            Ok(rows) => rows,
            Err(error) => {
                return Err(error);
            },
        };
        let ghost list = rows_of(rows@);
        let mut index: StringHashMap<usize> = StringHashMap::new();
        let mut i: usize = 0;
        while i < rows.len()
            invariant
                i <= rows@.len(),
                list == rows_of(rows@),
                names_ascend(list),
                forall|j: int|
                    0 <= j < i ==> index@.contains_key((#[trigger] list[j]).0)
                        && index@[list[j].0] == j,
                forall|name: Seq<char>| #[trigger]
                    index@.contains_key(name) ==> index@[name] < i && list[index@[name] as int].0
                        == name,
            decreases rows.len() - i,
        {
            let ghost before = index@;
            index.insert(rows[i].0.clone(), i);
            proof {
                assert forall|j: int| 0 <= j < i implies (#[trigger] list[j]).0
                    != list[i as int].0 by {
                    if list[j].0 == list[i as int].0 {
                        json::lemma_not_before_itself(vstd::utf8::encode_utf8(list[j].0));
                    }
                }
                assert(list[i as int].0 == rows@[i as int].0@);
            }
            i = i + 1;
        }
        proof {
            assert forall|j: int| 0 <= j < list.len() implies (#[trigger] list[j]).1.wf()
                && list[j].1.end <= data@.len() by {
                listed_tensors_fit(data@, j);
            }
        }
        Ok(SafeTensorFile { data, rows, index })
    }

    /// The names of the tensors, in ascending order.
    pub fn tensor_names(&self) -> (names: Vec<&str>)
        ensures
            names@.len() == self.tensors().len(),
            forall|i: int| 0 <= i < names@.len() ==> (#[trigger] names@[i])@ == self.tensors()[i].0,
    {
        let mut names: Vec<&str> = Vec::new();
        let mut i: usize = 0;
        while i < self.rows.len()
            invariant
                i == names@.len() <= self.rows@.len(),
                forall|j: int| 0 <= j < i ==> (#[trigger] names@[j])@ == self.tensors()[j].0,
            decreases self.rows.len() - i,
        {
            names.push(self.rows[i].0.as_str());
            i = i + 1;
        }
        names
    }

    /// The number of tensors.
    pub fn tensor_count(&self) -> (count: usize)
        ensures
            count == self.tensors().len(),
    {
        self.rows.len()
    }

    /// A tensor by its place in the order of names.
    pub fn tensor_at(&self, i: usize) -> (row: (&str, &TensorInfo))
        requires
            i < self.tensors().len(),
        ensures
            row.0@ == self.tensors()[i as int].0,
            row.1@ == self.tensors()[i as int].1,
    {
        (self.rows[i].0.as_str(), &self.rows[i].1)
    }

    /// The length of the file.
    pub fn mapped_len(&self) -> (len: usize)
        ensures
            len == self.file().len(),
    {
        self.data.len()
    }

    /// What the header says of a tensor.
    pub fn info(&self, name: &str) -> (found: Option<&TensorInfo>)
        requires
            self.wf(),
        ensures
            match found {
                Some(info) => {
                    &&& lookup(self.tensors(), name@) == Some(info@)
                    &&& info@.wf() && info.end <= self.file().len()
                },
                None => lookup(self.tensors(), name@) is None,
            },
    {
        match self.index.get(name) {
            Some(i) => {
                let i: usize = *i;
                proof {
                    assert(self.index@.contains_key(name@));
                    assert(self.tensors()[i as int].0 == name@);
                    assert forall|j: int| 0 <= j < i implies (#[trigger] self.tensors()[j]).0 != name@ by {
                        assert(self.index@[self.tensors()[j].0] == j);
                    }
                    lemma_lookup(self.tensors(), name@, i as int);
                }
                Some(&self.rows[i].1)
            },
            None => {
                proof {
                    assert forall|j: int| 0 <= j < self.tensors().len() implies (#[trigger] self.tensors()[j]).0
                        != name@ by {
                        assert(self.index@.contains_key(self.tensors()[j].0));
                    }
                    lemma_lookup_none(self.tensors(), name@);
                }
                None
            },
        }
    }

    /// A tensor's payload.
    pub fn bytes(&self, name: &str) -> (result: Result<&'a [u8], TensorAccessError>)
        requires
            self.wf(),
        ensures
            match lookup(self.tensors(), name@) {
                Some(data) => result is Ok && result->Ok_0@ == self.file().subrange(
                    data.start as int,
                    data.end as int,
                ),
                None => result is Err && result->Err_0@ == (TensorAccessFault::NotFound {
                    name: name@,
                }),
            },
    {
        match self.info(name) {
            Some(info) => Ok(vstd::slice::slice_subrange(self.data, info.start, info.end)),
            None => Err(TensorAccessError::NotFound { name: name.to_owned() }),
        }
    }

    /// A tensor, borrowed.
    pub fn view(&self, name: &str) -> (result: Result<TensorView<'_>, TensorAccessError>)
        requires
            self.wf(),
        ensures
            match lookup(self.tensors(), name@) {
                Some(data) => {
                    &&& result matches Ok(tensor)
                    &&& tensor.wf()
                    &&& tensor.dtype == data.dtype && tensor.shape@ == data.shape
                    &&& tensor.payload@ == self.file().subrange(data.start as int, data.end as int)
                },
                None => result is Err && result->Err_0@ == (TensorAccessFault::NotFound {
                    name: name@,
                }),
            },
    {
        match self.info(name) {
            Some(info) => Ok(
                TensorView {
                    dtype: info.dtype,
                    shape: &info.shape,
                    payload: vstd::slice::slice_subrange(self.data, info.start, info.end),
                },
            ),
            None => Err(TensorAccessError::NotFound { name: name.to_owned() }),
        }
    }

    /// A tensor together with its file.
    pub fn mapped(&self, name: &str) -> (result: Result<MappedTensor<'a>, TensorAccessError>)
        requires
            self.wf(),
        ensures
            match lookup(self.tensors(), name@) {
                Some(data) => {
                    &&& result matches Ok(tensor)
                    &&& tensor.wf()
                    &&& tensor.dtype == data.dtype && tensor.shape@ == data.shape
                    &&& tensor.start == data.start && tensor.end == data.end
                    &&& tensor.file@ == self.file() && tensor.tensor_count == self.tensors().len()
                },
                None => result is Err && result->Err_0@ == (TensorAccessFault::NotFound {
                    name: name@,
                }),
            },
    {
        match self.info(name) {
            Some(info) => Ok(
                MappedTensor {
                    dtype: info.dtype,
                    shape: vstd::slice::slice_to_vec(&info.shape),
                    file: self.data,
                    tensor_count: self.rows.len(),
                    start: info.start,
                    end: info.end,
                },
            ),
            None => Err(TensorAccessError::NotFound { name: name.to_owned() }),
        }
    }

    /// The elements of a floating-point tensor, as single-precision bit patterns.
    pub fn load_f32(&self, name: &str) -> (result: Result<Vec<u32>, TensorAccessError>)
        requires
            self.wf(),
        ensures
            match lookup(self.tensors(), name@) {
                Some(data) => if data.dtype == DType::I64 {
                    result is Err && result->Err_0@ == (TensorAccessFault::NotFloat { name: name@ })
                } else {
                    &&& result is Ok && result->Ok_0@.len() == layout::product(data.shape)
                    &&& forall|k: int|
                        0 <= k < result->Ok_0@.len() ==> scalar_is(
                            data.dtype,
                            self.file().subrange(data.start as int, data.end as int),
                            k,
                            Scalar::Single(#[trigger] result->Ok_0@[k]),
                        )
                },
                None => result is Err && result->Err_0@ == (TensorAccessFault::NotFound {
                    name: name@,
                }),
            },
    {
        let view = match self.view(name) {
            Ok(view) => view,
            Err(error) => {
                return Err(error);
            },
        };
        let dtype = view.dtype;
        if dtype == DType::I64 {
            return Err(TensorAccessError::NotFloat { name: name.to_owned() });
        }
        let len: usize = view.len();
        let payload = view.payload;
        let mut output: Vec<u32> = Vec::with_capacity(len);
        let mut k: usize = 0;
        while k < len
            invariant
                k == output@.len() <= len,
                dtype != DType::I64,
                payload@.len() == len * dtype.width(),
                forall|j: int|
                    0 <= j < k ==> scalar_is(
                        dtype,
                        payload@,
                        j,
                        Scalar::Single(#[trigger] output@[j]),
                    ),
            decreases len - k,
        {
            proof {
                let width = dtype.width();
                assert((k + 1) * width <= len * width) by (nonlinear_arith)
                    requires
                        k + 1 <= len,
                        0 <= width,
                ;
            }
            match read_scalar(dtype, payload, k) {
                Scalar::Single(bits) => {
                    output.push(bits);
                },
                Scalar::Integer(_) => {},
            }
            k = k + 1;
        }
        Ok(output)
    }
}

} // verus!
