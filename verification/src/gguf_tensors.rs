//! Tensors of a file by name, and their elements.

use vstd::prelude::*;
use vstd::hash_map::StringHashMap;
use crate::arithmetic;
use crate::arithmetic::Arithmetic;
use crate::gguf;
use crate::gguf::{GgufFile, TensorInfo};
use crate::quant;
use crate::quant::{Grids, Weight};

verus! {

/// The tensor with a name: where the name occurs again, the later one counts.
pub open spec fn last_named(tensors: Seq<TensorInfo>, name: Seq<char>) -> Option<int>
    decreases tensors.len(),
{
    if tensors.len() == 0 {
        None
    } else if tensors.last().name@ == name {
        Some(tensors.len() - 1)
    } else {
        last_named(tensors.drop_last(), name)
    }
}

/// The tensor with a name has that name, and no later one has.
pub proof fn lemma_last_named(tensors: Seq<TensorInfo>, name: Seq<char>)
    ensures
        match last_named(tensors, name) {
            Some(i) => {
                &&& 0 <= i < tensors.len()
                &&& tensors[i].name@ == name
                &&& forall|j: int| i < j < tensors.len() ==> (#[trigger] tensors[j]).name@ != name
            },
            None => forall|j: int|
                0 <= j < tensors.len() ==> (#[trigger] tensors[j]).name@ != name,
        },
    decreases tensors.len(),
{
    if tensors.len() > 0 && tensors.last().name@ != name {
        let init = tensors.drop_last();
        lemma_last_named(init, name);
        assert forall|j: int| 0 <= j < init.len() implies init[j] == #[trigger] tensors[j] by {}
    }
}

/// The tensors of a file by name.
pub struct TensorIndex<'a> {
    pub file: &'a GgufFile<'a>,
    pub map: StringHashMap<usize>,
}

impl<'a> TensorIndex<'a> {
    /// The index holds what the file holds.
    pub open spec fn wf(&self) -> bool {
        &&& forall|i: int|
            0 <= i < self.file.tensors@.len() ==> self.map@.contains_key(
                (#[trigger] self.file.tensors@[i]).name@,
            )
        &&& forall|name: Seq<char>| #[trigger]
            self.map@.contains_key(name) ==> {
                &&& self.map@[name] < self.file.tensors@.len()
                &&& self.file.tensors@[self.map@[name] as int].name@ == name
                &&& forall|j: int|
                    self.map@[name] < j < self.file.tensors@.len() ==> (
                    #[trigger] self.file.tensors@[j]).name@ != name
            }
    }

    /// Indexes the tensors of a file.
    pub fn new(file: &'a GgufFile<'a>) -> (index: Self)
        ensures
            index.wf(),
            index.file == file,
    {
        TensorIndex { file, map: file.tensor_map() }
    }

    /// The tensor with a name.
    pub fn find(&self, name: &str) -> (found: Option<usize>)
        requires
            self.wf(),
        ensures
            match found {
                Some(i) => last_named(self.file.tensors@, name@) == Some(i as int) && i
                    < self.file.tensors@.len(),
                None => last_named(self.file.tensors@, name@) is None,
            },
    {
        proof {
            lemma_last_named(self.file.tensors@, name@);
            match last_named(self.file.tensors@, name@) {
                Some(i) => {
                    assert(self.map@.contains_key(self.file.tensors@[i].name@));
                    let m = self.map@[name@] as int;
                    if m < i {
                        assert(self.file.tensors@[i].name@ != name@);
                    }
                    if i < m {
                        assert(self.file.tensors@[m].name@ != name@);
                    }
                },
                None => {
                    if self.map@.contains_key(name@) {
                        assert(self.file.tensors@[self.map@[name@] as int].name@ == name@);
                    }
                },
            }
        }
        match self.map.get(name) {
            Some(i) => Some(*i),
            None => None,
        }
    }
}

/// The elements and the bytes of one block of a tensor type, for the supported types.
pub fn block_shape(ggml_type: u32) -> (shape: Option<(u128, u128)>)
    ensures
        shape matches Some((elements, bytes)) ==> 0 < elements <= 256 && 0 < bytes <= 256,
        match gguf::block_of(ggml_type) {
            Some((elements, bytes)) => shape is Some && (shape->0).0 == elements && (shape->0).1
                == bytes,
            None => shape is None,
        },
{
    match ggml_type {
        0 => Some((1, 4)),
        1 => Some((1, 2)),
        2 => Some((32, 18)),
        3 => Some((32, 20)),
        6 => Some((32, 22)),
        7 => Some((32, 24)),
        8 => Some((32, 34)),
        10 => Some((256, 84)),
        12 => Some((256, 144)),
        13 => Some((256, 176)),
        14 => Some((256, 210)),
        16 => Some((256, 66)),
        17 => Some((256, 74)),
        20 => Some((32, 18)),
        21 => Some((256, 110)),
        22 => Some((256, 82)),
        30 => Some((1, 2)),
        _ => None,
    }
}

/// Whether the bytes of a tensor lie within its file, in a type that can be read.
pub fn readable(file: &GgufFile, info: &TensorInfo) -> (fits: bool)
    ensures
        fits == file.holds(info),
{
    let mut total: usize = 1;
    let mut i: usize = 0;
    while i < info.dims.len()
        invariant
            i <= info.dims@.len(),
            total == gguf::volume(info.dims@.take(i as int)),
            forall|n: int|
                0 <= n <= i ==> gguf::volume(#[trigger] info.dims@.take(n)) <= usize::MAX,
        decreases info.dims.len() - i,
    {
        let dim: u64 = info.dims[i];
        proof {
            assert(info.dims@.take(i + 1).drop_last() =~= info.dims@.take(i as int));
            assert(info.dims@.take(i + 1).last() == dim);
            assert(total * dim <= 0xffff_ffff_ffff_ffff * 0xffff_ffff_ffff_ffff)
                by (nonlinear_arith)
                requires
                    0 <= total <= 0xffff_ffff_ffff_ffff,
                    0 <= dim <= 0xffff_ffff_ffff_ffff,
            ;
        }
        let wide: u128 = total as u128 * dim as u128;
        if wide > usize::MAX as u128 {
            proof {
                assert(gguf::volume(info.dims@.take(i + 1)) > usize::MAX);
                assert(!info.countable());
            }
            return false;
        }
        total = wide as usize;
        i = i + 1;
    }
    proof {
        assert(info.dims@.take(i as int) =~= info.dims@);
        assert(info.countable());
    }
    match block_shape(info.ggml_type) {
        None => false,
        Some((elements, bytes)) => {
            proof {
                assert(file.data@.len() == file.data.len());
                assert((total as u128 / elements) <= total) by (nonlinear_arith)
                    requires
                        elements >= 1,
                ;
                assert((total as u128 / elements) * bytes <= total * 256) by (nonlinear_arith)
                    requires
                        0 <= (total as u128 / elements) <= total,
                        0 <= bytes <= 256,
                ;
            }
            let end: u128 = file.data_offset as u128 + info.offset as u128 + (total as u128
                / elements) * bytes;
            end <= file.data.len() as u128
        },
    }
}

impl<
    T: Copy,
    Z: Copy,
    N: Fn(Weight) -> T + Copy,
    M: Fn(T, T, T) -> T + Copy,
    L: Fn(T, T, T) -> T + Copy,
    P: Fn(T, T) -> T + Copy,
    A: Fn(&[T]) -> Z + Copy,
    B: Fn(T, Z, T) -> T + Copy,
    R: Fn(T, T, usize, usize) -> (T, T) + Copy,
    C: Fn(T) -> T + Copy,
    H: Fn(Vec<T>, Option<T>) -> Vec<T> + Copy,
    G: Fn(T, T) -> T + Copy,
    K: Fn(T, T) -> T + Copy,
    D: Fn(T) -> u32 + Copy,
> Arithmetic<T, N, M, L, P, A, B, R, C, H, G, K, D> {
    /// `values` are the elements of the whole blocks of a tensor.
    pub open spec fn decodes_tensor(
        self,
        grids: Grids,
        file: &GgufFile,
        index: int,
        values: Seq<T>,
    ) -> bool {
        let info = file.tensors@[index];
        let n = gguf::volume(info.dims@);
        &&& 0 <= index < file.tensors@.len()
        &&& values.len() == n - n % gguf::block_elements(info.ggml_type)
        &&& quant::decodes(
            self.number,
            info.ggml_type,
            arithmetic::matrix_of(file, index).data,
            grids,
            values,
        )
    }

    /// The elements of the whole blocks of a tensor.
    pub fn decode_tensor(&self, grids: &Grids, file: &GgufFile, index: usize) -> (values: Vec<T>)
        requires
            self.usable(),
            grids.wf(),
            index < file.tensors@.len(),
            file.holds(&file.tensors@[index as int]),
        ensures
            self.decodes_tensor(*grids, file, index as int, values@),
    {
        let info: &TensorInfo = &file.tensors[index];
        let data = file.tensor_data(info);
        let n: usize = info.n_elems();
        let weights = quant::dequant(data, info.ggml_type, n, grids);
        let mut values: Vec<T> = Vec::with_capacity(weights.len());
        let mut k: usize = 0;
        while k < weights.len()
            invariant
                self.usable(),
                k == values@.len() <= weights@.len(),
                forall|i: int|
                    0 <= i < weights@.len() ==> quant::weight_is(
                        info.ggml_type,
                        data@,
                        i,
                        *grids,
                        #[trigger] weights@[i],
                    ),
                forall|i: int|
                    0 <= i < k ==> quant::stands_for(
                        self.number,
                        info.ggml_type,
                        data@,
                        i,
                        *grids,
                        #[trigger] values@[i],
                    ),
            decreases weights.len() - k,
        {
            let w = weights[k];
            let value = (self.number)(w);
            proof {
                assert(quant::weight_is(info.ggml_type, data@, k as int, *grids, w));
                assert(call_ensures(self.number, (w,), value));
            }
            values.push(value);
            k = k + 1;
        }
        values
    }
}

} // verus!
