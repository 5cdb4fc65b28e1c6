//! Rotary positions, attention, modulation and patches of the scalar backend.

use vstd::prelude::*;
use crate::backend;
use crate::backend::{DeviceTensor, PreparedVectorHandle, ScalarBackend};
use crate::backend_error::{BackendError, BackendFault, BackendKind, Owned};
use crate::backend_rows::require_vector;
use crate::backend_time;
use crate::backend_time::{owned, require_tensor};
use crate::float_order;
use crate::float_order::is_finite;
use crate::fold;
use crate::fold::dot;
use crate::layout;
use crate::norm;
use crate::tensor::extend;

verus! {

/// The number of values that describe the rotation of a pair of elements.
pub const PAIR_STRIDE: usize = 4;

/// Why positions are not applied, if they are not.
pub open spec fn rope_fault(
    input: Seq<usize>,
    positions: Seq<usize>,
    heads: usize,
    head_dim: usize,
) -> Option<BackendFault> {
    if heads == 0 || head_dim == 0 || head_dim % 2 != 0 {
        Some(BackendFault::RopeHeads)
    } else if heads * head_dim > usize::MAX {
        Some(BackendFault::RopeWidth)
    } else if input.last() != heads * head_dim {
        Some(BackendFault::RopeInput { shape: input, width: (heads * head_dim) as usize })
    } else {
        let rows = layout::product(input) / ((heads * head_dim) as nat);
        if rows * (head_dim / 2) > usize::MAX || rows * (head_dim / 2) * 4 > usize::MAX {
            Some(BackendFault::RopeOverflow)
        } else if layout::product(positions) != rows * (head_dim / 2) * 4 {
            Some(
                BackendFault::RopePositions {
                    len: layout::product(positions) as usize,
                    expected: (rows * (head_dim / 2) * 4) as usize,
                },
            )
        } else {
            None
        }
    }
}

/// `out` is a head rotated by its positions.
pub open spec fn rotated<T, F: Fn(&[T], &[T]) -> Vec<T>>(
    rotate: F,
    head: Seq<T>,
    position: Seq<T>,
    out: Seq<T>,
) -> bool {
    exists|a: &[T], b: &[T], made: Vec<T>|
        {
            &&& #[trigger] call_ensures(rotate, (a, b), made)
            &&& a@ == head
            &&& b@ == position
            &&& made@ == out
        }
}

/// A rotation accepts every head and keeps its length.
pub open spec fn rotates<T, F: Fn(&[T], &[T]) -> Vec<T>>(rotate: F) -> bool {
    &&& forall|a: &[T], b: &[T]| #[trigger] call_requires(rotate, (a, b))
    &&& forall|a: &[T], b: &[T], made: Vec<T>| #[trigger]
        call_ensures(rotate, (a, b), made) ==> made@.len() == a@.len()
}

/// Why scores are not computed, if they are not.
pub open spec fn scores_fault(
    query: Seq<usize>,
    key: Seq<usize>,
    heads: usize,
    head_dim: usize,
    scale: u32,
) -> Option<BackendFault> {
    if heads == 0 || head_dim == 0 || !float_order::finite(scale) {
        Some(BackendFault::ScoresValid)
    } else if heads * head_dim > usize::MAX {
        Some(BackendFault::ScoresOverflow)
    } else if query.len() != 2 {
        Some(BackendFault::ScoresQueryRank)
    } else if key.len() != 2 {
        Some(BackendFault::ScoresKeyRank)
    } else if query[1] != heads * head_dim || key[1] != heads * head_dim {
        Some(BackendFault::ScoresShapes)
    } else {
        None
    }
}

/// `score` is the scaled product of a head of a query and of a key.
pub open spec fn scored<T, M: Fn(T, T, T) -> T, F: Fn(T, u32) -> T>(
    mac: M,
    times: F,
    zero: T,
    scale: u32,
    query: Seq<T>,
    key: Seq<T>,
    from: int,
    with: int,
    head_dim: nat,
    score: T,
) -> bool {
    exists|product: T|
        {
            &&& fold::accumulates(mac, query, key, fold::run(from, with, head_dim), zero, product)
            &&& #[trigger] call_ensures(times, (product, scale), score)
        }
}

/// Why values are not read, if they are not.
pub open spec fn values_fault(
    probabilities: Seq<usize>,
    value: Seq<usize>,
    heads: usize,
    head_dim: usize,
) -> Option<BackendFault> {
    if probabilities.len() != 3 {
        Some(BackendFault::ValuesProbabilityRank)
    } else if value.len() != 2 {
        Some(BackendFault::ValuesRank)
    } else if heads * head_dim > usize::MAX {
        Some(BackendFault::ValuesOverflow)
    } else if heads == 0 || head_dim == 0 || probabilities[0] != heads || value[0]
        != probabilities[2] || value[1] != heads * head_dim {
        Some(BackendFault::ValuesShapes)
    } else {
        None
    }
}

/// The weights of a query with the elements of the values in one column.
pub open spec fn value_taps(from: int, column: int, width: int, keys: nat) -> Seq<(int, int)> {
    Seq::new(keys, |k: int| (from + k, k * width + column))
}

/// The greater of two numbers.
pub open spec fn greater(a: usize, b: usize) -> usize {
    if a > b {
        a
    } else {
        b
    }
}

/// Why a modulation is not applied, if it is not.
pub open spec fn modulation_fault(
    width: usize,
    len: nat,
    shift_chunk: usize,
    scale_chunk: usize,
) -> Option<BackendFault> {
    let required = (greater(shift_chunk, scale_chunk) + 1) * width;
    if required > usize::MAX {
        Some(BackendFault::ModulationOverflow)
    } else if len < required {
        Some(BackendFault::ModulationLength { len: len as usize, required: required as usize })
    } else {
        None
    }
}

/// Why a vector's chunk is not applied, if it is not.
pub open spec fn chunk_fault(width: usize, len: nat, chunk: usize) -> Option<BackendFault> {
    if (chunk + 1) * width > usize::MAX {
        Some(BackendFault::ChunkOverflow)
    } else if len < (chunk + 1) * width {
        Some(BackendFault::ChunkMissing)
    } else {
        None
    }
}

impl ScalarBackend {
    /// Rotates every head of every row by the positions of the row.
    pub fn rope_device<T: Copy, F: Fn(&[T], &[T]) -> Vec<T>>(
        &self,
        input: &DeviceTensor<T>,
        positions: &DeviceTensor<T>,
        heads: usize,
        head_dim: usize,
        rotate: F,
    ) -> (result: Result<DeviceTensor<T>, BackendError>)
        requires
            input.wf(),
            positions.wf(),
            rotates(rotate),
        ensures
            match backend_time::either(
                backend_time::either(
                    backend::owner_fault(Owned::Tensor, input.backend),
                    backend::owner_fault(Owned::Tensor, positions.backend),
                ),
                rope_fault(input.array().dims, positions.array().dims, heads, head_dim),
            ) {
                Some(fault) => result is Err && result->Err_0@ == fault,
                None => {
                    &&& result is Ok
                    &&& result->Ok_0.wf()
                    &&& result->Ok_0.backend == BackendKind::ScalarCpu
                    &&& result->Ok_0.array().dims == input.array().dims
                    &&& forall|chunk: int|
                        0 <= chunk < input.array().data.len() / (head_dim as nat) ==> rotated(
                            rotate,
                            norm::row_of(input.array().data, chunk, head_dim as int),
                            norm::row_of(
                                positions.array().data,
                                chunk / heads as int,
                                (head_dim / 2) * 4,
                            ),
                            #[trigger] norm::row_of(
                                result->Ok_0.array().data,
                                chunk,
                                head_dim as int,
                            ),
                        )
                },
            },
    {
        match require_tensor(input) {
            Ok(_) => {},
            Err(error) => {
                return Err(error);
            },
        }
        match require_tensor(positions) {
            Ok(_) => {},
            Err(error) => {
                return Err(error);
            },
        }
        if heads == 0 || head_dim == 0 || head_dim % 2 != 0 {
            return Err(BackendError::RopeHeads);
        }
        let width: usize = match heads.checked_mul(head_dim) {
            Some(width) => width,
            None => {
                return Err(BackendError::RopeWidth);
            },
        };
        let shape = input.tensor.shape();
        assert(shape@.len() == shape.len());
        if shape[shape.len() - 1] != width {
            return Err(
                BackendError::RopeInput { shape: vstd::slice::slice_to_vec(shape), width },
            );
        }
        let len: usize = input.tensor.len();
        let ghost init = layout::product(input.array().dims.drop_last()) as int;
        proof {
            layout::lemma_product_positive(input.array().dims);
            layout::lemma_split(init, 0, width as int);
        }
        let rows: usize = len / width;
        let half: usize = head_dim / 2;
        let pairs: usize = match rows.checked_mul(half) {
            Some(pairs) => pairs,
            None => {
                return Err(BackendError::RopeOverflow);
            },
        };
        let expected: usize = match pairs.checked_mul(PAIR_STRIDE) {
            Some(expected) => expected,
            None => {
                return Err(BackendError::RopeOverflow);
            },
        };
        if positions.tensor.len() != expected {
            return Err(BackendError::RopePositions { len: positions.tensor.len(), expected });
        }
        let data = input.tensor.data();
        let places = positions.tensor.data();
        let ghost count = rows * heads;
        proof {
            assert(len == rows * width);
            assert(rows * width == count * head_dim) by (nonlinear_arith)
                requires
                    width == heads * head_dim,
                    count == rows * heads,
            ;
            assert(count <= count * head_dim) by (nonlinear_arith)
                requires
                    0 <= count,
                    1 <= head_dim,
            ;
            assert(count >= 0) by (nonlinear_arith)
                requires
                    count == rows * heads,
                    rows >= 0,
                    heads >= 0,
            ;
            layout::lemma_split(count, 0, head_dim as int);
            assert(rows >= 1) by (nonlinear_arith)
                requires
                    len == rows * width,
                    len > 0,
                    width > 0,
                    rows >= 0,
            ;
            assert(half * 4 <= expected && expected == rows * (half * 4)) by (nonlinear_arith)
                requires
                    expected == rows * half * 4,
                    rows >= 1,
                    half >= 0,
            ;
        }
        let stride: usize = half * PAIR_STRIDE;
        let chunks: usize = rows * heads;
        let mut out: Vec<T> = Vec::with_capacity(len);
        let mut chunk: usize = 0;
        while chunk < chunks
            invariant
                chunk <= chunks,
                chunks == rows * heads,
                0 < heads,
                0 < head_dim,
                data@ == input.array().data,
                places@ == positions.array().data,
                data@.len() == chunks * head_dim <= usize::MAX,
                stride == (head_dim / 2) * 4,
                places@.len() == rows * stride,
                places@.len() <= usize::MAX,
                rotates(rotate),
                out@.len() == chunk * head_dim,
                forall|c: int|
                    0 <= c < chunk ==> rotated(
                        rotate,
                        norm::row_of(data@, c, head_dim as int),
                        norm::row_of(places@, c / heads as int, stride as int),
                        #[trigger] norm::row_of(out@, c, head_dim as int),
                    ),
            decreases chunks - chunk,
        {
            let row: usize = chunk / heads;
            proof {
                layout::lemma_cell(chunk as int, chunks as int, 0, head_dim as int);
                layout::lemma_divide(chunk as int, rows as int, heads as int);
                assert(0 <= row * stride && row * stride + stride <= rows * stride)
                    by (nonlinear_arith)
                    requires
                        0 <= row,
                        row + 1 <= rows,
                        0 <= stride,
                ;
            }
            let ghost before = out@;
            let start: usize = chunk * head_dim;
            let head = vstd::slice::slice_subrange(data, start, start + head_dim);
            let place: usize = row * stride;
            let position = vstd::slice::slice_subrange(places, place, place + stride);
            let made = rotate(head, position);
            extend(&mut out, &made);
            proof {
                assert(call_ensures(rotate, (head, position), made));
                assert(head@ =~= norm::row_of(data@, chunk as int, head_dim as int));
                assert(position@ =~= norm::row_of(places@, row as int, stride as int));
                assert(norm::row_of(out@, chunk as int, head_dim as int) =~= made@);
                assert forall|c: int| 0 <= c < chunk + 1 implies rotated(
                    rotate,
                    norm::row_of(data@, c, head_dim as int),
                    norm::row_of(places@, c / heads as int, stride as int),
                    #[trigger] norm::row_of(out@, c, head_dim as int),
                ) by {
                    if c < chunk {
                        layout::lemma_cell(c, chunk as int, 0, head_dim as int);
                        assert(norm::row_of(out@, c, head_dim as int) =~= norm::row_of(
                            before,
                            c,
                            head_dim as int,
                        ));
                    }
                }
            }
            chunk = chunk + 1;
        }
        Ok(owned(vstd::slice::slice_to_vec(shape), out))
    }

    /// The scaled products of all queries with all keys, head by head.
    pub fn attention_scores_device<T: Copy, M: Fn(T, T, T) -> T, F: Fn(T, u32) -> T>(
        &self,
        query: &DeviceTensor<T>,
        key: &DeviceTensor<T>,
        heads: usize,
        head_dim: usize,
        scale: u32,
        zero: T,
        mac: M,
        times: F,
    ) -> (result: Result<DeviceTensor<T>, BackendError>)
        requires
            query.wf(),
            key.wf(),
            fold::total3(mac),
            fold::total2(times),
            scores_fault(query.array().dims, key.array().dims, heads, head_dim, scale) is None
                ==> heads * query.array().dims[0] * key.array().dims[0] <= usize::MAX,
        ensures
            match backend_time::either(
                backend_time::either(
                    backend::owner_fault(Owned::Tensor, query.backend),
                    backend::owner_fault(Owned::Tensor, key.backend),
                ),
                scores_fault(query.array().dims, key.array().dims, heads, head_dim, scale),
            ) {
                Some(fault) => result is Err && result->Err_0@ == fault,
                None => {
                    let dims = seq![heads, query.array().dims[0], key.array().dims[0]];
                    let width = heads * head_dim;
                    &&& result is Ok
                    &&& result->Ok_0.wf()
                    &&& result->Ok_0.backend == BackendKind::ScalarCpu
                    &&& result->Ok_0.array().dims == dims
                    &&& forall|h: int, q: int, k: int|
                        #![trigger layout::offset3(dims, h, q, k)]
                        layout::inside3(dims, h, q, k) ==> scored(
                            mac,
                            times,
                            zero,
                            scale,
                            query.array().data,
                            key.array().data,
                            q * width + h * head_dim,
                            k * width + h * head_dim,
                            head_dim as nat,
                            result->Ok_0.array().data[layout::offset3(dims, h, q, k)],
                        )
                },
            },
    {
        match require_tensor(query) {
            Ok(_) => {},
            Err(error) => {
                return Err(error);
            },
        }
        match require_tensor(key) {
            Ok(_) => {},
            Err(error) => {
                return Err(error);
            },
        }
        if heads == 0 || head_dim == 0 || !is_finite(scale) {
            return Err(BackendError::ScoresValid);
        }
        let width: usize = match heads.checked_mul(head_dim) {
            Some(width) => width,
            None => {
                return Err(BackendError::ScoresOverflow);
            },
        };
        let query_shape = query.tensor.shape();
        let key_shape = key.tensor.shape();
        assert(query_shape@.len() == query_shape.len());
        assert(key_shape@.len() == key_shape.len());
        if query_shape.len() != 2 {
            return Err(BackendError::ScoresQueryRank);
        }
        if key_shape.len() != 2 {
            return Err(BackendError::ScoresKeyRank);
        }
        let queries: usize = query_shape[0];
        let keys: usize = key_shape[0];
        if query_shape[1] != width || key_shape[1] != width {
            return Err(BackendError::ScoresShapes);
        }
        let shape: Vec<usize> = vec![heads, queries, keys];
        let ghost dims = seq![heads, queries, keys];
        proof {
            assert(shape@ =~= dims);
            layout::lemma_product_positive(query_shape@);
            layout::lemma_product_positive(key_shape@);
            layout::lemma_product_small(query_shape@);
            layout::lemma_product_small(key_shape@);
            layout::lemma_product_small(dims);
            layout::lemma_product_positive(dims);
            assert(heads * queries <= heads * queries * keys) by (nonlinear_arith)
                requires
                    0 <= heads * queries,
                    1 <= keys,
            ;
            assert(0 <= heads * queries) by (nonlinear_arith)
                requires
                    0 <= heads,
                    0 <= queries,
            ;
        }
        let a = query.tensor.data();
        let b = key.tensor.data();
        let len: usize = heads * queries * keys;
        let mut scores: Vec<T> = Vec::with_capacity(len);
        let mut k: usize = 0;
        while k < len
            invariant
                k == scores@.len() <= len,
                len == layout::product(dims),
                dims == seq![heads, queries, keys],
                0 < keys,
                0 < queries,
                0 < head_dim,
                width == heads * head_dim,
                a@ == query.array().data,
                b@ == key.array().data,
                a@.len() == queries * width <= usize::MAX,
                b@.len() == keys * width <= usize::MAX,
                fold::total3(mac),
                fold::total2(times),
                forall|j: int|
                    0 <= j < k ==> ({
                        let (h, q, c) = layout::coord3(dims, j);
                        scored(
                            mac,
                            times,
                            zero,
                            scale,
                            a@,
                            b@,
                            q * width + h * head_dim,
                            c * width + h * head_dim,
                            head_dim as nat,
                            #[trigger] scores@[j],
                        )
                    }),
            decreases len - k,
        {
            proof {
                layout::lemma_coord3(dims, k as int);
            }
            let column: usize = k % keys;
            let row: usize = (k / keys) % queries;
            let head: usize = k / keys / queries;
            proof {
                lemma_head(queries as int, row as int, heads as int, head as int, head_dim as int);
                lemma_head(keys as int, column as int, heads as int, head as int, head_dim as int);
            }
            let from: usize = row * width + head * head_dim;
            let with: usize = column * width + head * head_dim;
            let product = dot(a, from, b, with, head_dim, zero, &mac);
            let score = times(product, scale);
            proof {
                assert(call_ensures(times, (product, scale), score));
                assert(scored(
                    mac,
                    times,
                    zero,
                    scale,
                    a@,
                    b@,
                    from as int,
                    with as int,
                    head_dim as nat,
                    score,
                ));
            }
            scores.push(score);
            k = k + 1;
        }
        proof {
            assert forall|h: int, q: int, c: int|
                #![trigger layout::offset3(dims, h, q, c)]
                layout::inside3(dims, h, q, c) implies scored(
                mac,
                times,
                zero,
                scale,
                a@,
                b@,
                q * width + h * head_dim,
                c * width + h * head_dim,
                head_dim as nat,
                scores@[layout::offset3(dims, h, q, c)],
            ) by {
                layout::lemma_offset3(dims, h, q, c);
            }
        }
        Ok(owned(shape, scores))
    }

    /// What every query reads of the values, with its weights.
    pub fn attention_values_device<T: Copy, M: Fn(T, T, T) -> T>(
        &self,
        probabilities: &DeviceTensor<T>,
        value: &DeviceTensor<T>,
        heads: usize,
        head_dim: usize,
        zero: T,
        mac: M,
    ) -> (result: Result<DeviceTensor<T>, BackendError>)
        requires
            probabilities.wf(),
            value.wf(),
            fold::total3(mac),
            values_fault(probabilities.array().dims, value.array().dims, heads, head_dim) is None
                ==> probabilities.array().dims[1] * (heads * head_dim) <= usize::MAX,
        ensures
            match backend_time::either(
                backend_time::either(
                    backend::owner_fault(Owned::Tensor, probabilities.backend),
                    backend::owner_fault(Owned::Tensor, value.backend),
                ),
                values_fault(probabilities.array().dims, value.array().dims, heads, head_dim),
            ) {
                Some(fault) => result is Err && result->Err_0@ == fault,
                None => {
                    let queries = probabilities.array().dims[1];
                    let keys = probabilities.array().dims[2];
                    let width = heads * head_dim;
                    &&& result is Ok
                    &&& result->Ok_0.wf()
                    &&& result->Ok_0.backend == BackendKind::ScalarCpu
                    &&& result->Ok_0.array().dims == seq![queries, width as usize]
                    &&& forall|q: int, column: int|
                        #![trigger result->Ok_0.array().data[q * width + column]]
                        0 <= q < queries && 0 <= column < width ==> fold::accumulates(
                            mac,
                            probabilities.array().data,
                            value.array().data,
                            value_taps(
                                ((column / head_dim as int) * queries + q) * keys,
                                column,
                                width,
                                keys as nat,
                            ),
                            zero,
                            result->Ok_0.array().data[q * width + column],
                        )
                },
            },
    {
        match require_tensor(probabilities) {
            Ok(_) => {},
            Err(error) => {
                return Err(error);
            },
        }
        match require_tensor(value) {
            Ok(_) => {},
            Err(error) => {
                return Err(error);
            },
        }
        let probability_shape = probabilities.tensor.shape();
        let value_shape = value.tensor.shape();
        assert(probability_shape@.len() == probability_shape.len());
        assert(value_shape@.len() == value_shape.len());
        if probability_shape.len() != 3 {
            return Err(BackendError::ValuesProbabilityRank);
        }
        if value_shape.len() != 2 {
            return Err(BackendError::ValuesRank);
        }
        let width: usize = match heads.checked_mul(head_dim) {
            Some(width) => width,
            None => {
                return Err(BackendError::ValuesOverflow);
            },
        };
        let queries: usize = probability_shape[1];
        let keys: usize = probability_shape[2];
        if heads == 0 || head_dim == 0 || probability_shape[0] != heads || value_shape[0] != keys
            || value_shape[1] != width {
            return Err(BackendError::ValuesShapes);
        }
        let weights = probabilities.tensor.data();
        let values = value.tensor.data();
        let shape: Vec<usize> = vec![queries, width];
        proof {
            layout::lemma_product_positive(probability_shape@);
            layout::lemma_product_small(probability_shape@);
            layout::lemma_product_small(value_shape@);
            layout::lemma_product_positive(value_shape@);
            assert(shape@ =~= seq![queries, width]);
            layout::lemma_product_small(shape@);
            layout::lemma_product_positive(shape@);
            assert(heads * queries <= heads * queries * keys) by (nonlinear_arith)
                requires
                    0 <= heads * queries,
                    1 <= keys,
            ;
            assert(0 <= heads * queries) by (nonlinear_arith)
                requires
                    0 <= heads,
                    0 <= queries,
            ;
        }
        let len: usize = queries * width;
        let mut out: Vec<T> = Vec::with_capacity(len);
        let mut k: usize = 0;
        while k < len
            invariant
                k == out@.len() <= len,
                len == queries * width,
                0 < width,
                0 < head_dim,
                width == heads * head_dim,
                weights@.len() == heads * queries * keys <= usize::MAX,
                values@.len() == keys * width <= usize::MAX,
                heads * queries <= usize::MAX,
                0 < keys,
                fold::total3(mac),
                forall|j: int|
                    0 <= j < k ==> fold::accumulates(
                        mac,
                        weights@,
                        values@,
                        value_taps(
                            (((j % width as int) / head_dim as int) * queries + j / width as int)
                                * keys,
                            j % width as int,
                            width as int,
                            keys as nat,
                        ),
                        zero,
                        #[trigger] out@[j],
                    ),
            decreases len - k,
        {
            let q: usize = k / width;
            let column: usize = k % width;
            let head: usize = column / head_dim;
            proof {
                layout::lemma_divide(k as int, queries as int, width as int);
                layout::lemma_divide(column as int, heads as int, head_dim as int);
                layout::lemma_cell(head as int, heads as int, q as int, queries as int);
                layout::lemma_cell(head * queries + q, heads * queries, 0, keys as int);
                assert(head * queries + q <= (head * queries + q) * keys) by (nonlinear_arith)
                    requires
                        0 <= head * queries + q,
                        1 <= keys,
                ;
            }
            let from: usize = (head * queries + q) * keys;
            let mut sum = zero;
            let mut key: usize = 0;
            proof {
                assert(value_taps(from as int, column as int, width as int, 0) =~= Seq::empty());
            }
            while key < keys
                invariant
                    key <= keys,
                    from + keys <= weights@.len(),
                    values@.len() == keys * width <= usize::MAX,
                    weights@.len() <= usize::MAX,
                    column < width,
                    fold::total3(mac),
                    fold::accumulates(
                        mac,
                        weights@,
                        values@,
                        value_taps(from as int, column as int, width as int, key as nat),
                        zero,
                        sum,
                    ),
                decreases keys - key,
            {
                proof {
                    layout::lemma_cell(key as int, keys as int, column as int, width as int);
                }
                let ghost partial = sum;
                sum = mac(sum, weights[from + key], values[key * width + column]);
                proof {
                    let taps = value_taps(from as int, column as int, width as int, key as nat);
                    let tap = (from + key, key * width + column);
                    fold::lemma_accumulates_push(
                        mac,
                        weights@,
                        values@,
                        taps,
                        tap,
                        zero,
                        partial,
                        sum,
                    );
                    assert(taps.push(tap) =~= value_taps(
                        from as int,
                        column as int,
                        width as int,
                        (key + 1) as nat,
                    ));
                }
                key = key + 1;
            }
            out.push(sum);
            k = k + 1;
        }
        proof {
            assert forall|q: int, column: int|
                #![trigger out@[q * width + column]]
                0 <= q < queries && 0 <= column < width implies fold::accumulates(
                mac,
                weights@,
                values@,
                value_taps(
                    ((column / head_dim as int) * queries + q) * keys,
                    column,
                    width as int,
                    keys as nat,
                ),
                zero,
                out@[q * width + column],
            ) by {
                layout::lemma_cell(q, queries as int, column, width as int);
                layout::lemma_split(q, column, width as int);
            }
        }
        Ok(owned(shape, out))
    }

    /// Changes every element by the shift and the scale of its column.
    pub fn wan_modulate_device<T: Copy, F: Fn(T, T, T) -> T>(
        &self,
        input: &DeviceTensor<T>,
        modulation: &DeviceTensor<T>,
        shift_chunk: usize,
        scale_chunk: usize,
        modulate: F,
    ) -> (result: Result<DeviceTensor<T>, BackendError>)
        requires
            input.wf(),
            modulation.wf(),
            fold::total3(modulate),
            shift_chunk < usize::MAX,
            scale_chunk < usize::MAX,
        ensures
            match backend_time::either(
                backend_time::either(
                    backend::owner_fault(Owned::Tensor, input.backend),
                    backend::owner_fault(Owned::Tensor, modulation.backend),
                ),
                modulation_fault(
                    input.array().dims.last(),
                    modulation.array().data.len(),
                    shift_chunk,
                    scale_chunk,
                ),
            ) {
                Some(fault) => result is Err && result->Err_0@ == fault,
                None => {
                    let width = input.array().dims.last() as int;
                    let values = modulation.array().data;
                    &&& result is Ok
                    &&& result->Ok_0.wf()
                    &&& result->Ok_0.backend == BackendKind::ScalarCpu
                    &&& result->Ok_0.array().dims == input.array().dims
                    &&& forall|i: int|
                        0 <= i < input.array().data.len() ==> call_ensures(
                            modulate,
                            (
                                input.array().data[i],
                                values[scale_chunk * width + i % width],
                                values[shift_chunk * width + i % width],
                            ),
                            #[trigger] result->Ok_0.array().data[i],
                        )
                },
            },
    {
        match require_tensor(input) {
            Ok(_) => {},
            Err(error) => {
                return Err(error);
            },
        }
        match require_tensor(modulation) {
            Ok(_) => {},
            Err(error) => {
                return Err(error);
            },
        }
        let shape = input.tensor.shape();
        assert(shape@.len() == shape.len());
        let width: usize = shape[shape.len() - 1];
        let last: usize = if shift_chunk > scale_chunk {
            shift_chunk
        } else {
            scale_chunk
        };
        let required: usize = match (last + 1).checked_mul(width) {
            Some(required) => required,
            None => {
                return Err(BackendError::ModulationOverflow);
            },
        };
        let values = modulation.tensor.data();
        let count: usize = modulation.tensor.len();
        if count < required {
            return Err(BackendError::ModulationLength { len: count, required });
        }
        let data = input.tensor.data();
        let len: usize = input.tensor.len();
        proof {
            layout::lemma_product_positive(input.array().dims);
        }
        let mut out: Vec<T> = Vec::with_capacity(len);
        let mut i: usize = 0;
        while i < len
            invariant
                i == out@.len() <= len,
                data@.len() == len,
                values@.len() == count,
                0 < width,
                shift_chunk <= last,
                scale_chunk <= last,
                (last + 1) * width <= count,
                fold::total3(modulate),
                forall|j: int|
                    0 <= j < i ==> call_ensures(
                        modulate,
                        (
                            data@[j],
                            values@[scale_chunk * width + j % width as int],
                            values@[shift_chunk * width + j % width as int],
                        ),
                        #[trigger] out@[j],
                    ),
            decreases len - i,
        {
            let column: usize = i % width;
            proof {
                layout::lemma_cell(shift_chunk as int, last + 1, column as int, width as int);
                layout::lemma_cell(scale_chunk as int, last + 1, column as int, width as int);
            }
            let scale = values[scale_chunk * width + column];
            let shift = values[shift_chunk * width + column];
            out.push(modulate(data[i], scale, shift));
            i = i + 1;
        }
        Ok(owned(vstd::slice::slice_to_vec(shape), out))
    }

    /// Changes every element by the timestep, the shift and the scale of its column.
    pub fn wan_head_modulate_device<T: Copy, F: Fn(T, T, T, T) -> T>(
        &self,
        input: &DeviceTensor<T>,
        timestep: &DeviceTensor<T>,
        modulation: &PreparedVectorHandle<T>,
        modulate: F,
    ) -> (result: Result<DeviceTensor<T>, BackendError>)
        requires
            input.wf(),
            timestep.wf(),
            modulation.wf(),
            forall|a: T, b: T, c: T, d: T| #[trigger] call_requires(modulate, (a, b, c, d)),
        ensures
            match backend_time::either(
                backend_time::either(
                    backend::owner_fault(Owned::Tensor, input.backend),
                    backend_time::either(
                        backend::owner_fault(Owned::Tensor, timestep.backend),
                        backend::owner_fault(Owned::Vector, modulation.backend),
                    ),
                ),
                if layout::product(timestep.array().dims) != input.array().dims.last()
                    || modulation.vector.dims()[0] != 2 * input.array().dims.last() {
                    Some(BackendFault::HeadModulation)
                } else {
                    None
                },
            ) {
                Some(fault) => result is Err && result->Err_0@ == fault,
                None => {
                    let width = input.array().dims.last() as int;
                    &&& result is Ok
                    &&& result->Ok_0.wf()
                    &&& result->Ok_0.backend == BackendKind::ScalarCpu
                    &&& result->Ok_0.array().dims == input.array().dims
                    &&& forall|i: int|
                        0 <= i < input.array().data.len() ==> call_ensures(
                            modulate,
                            (
                                input.array().data[i],
                                timestep.array().data[i % width],
                                modulation.vector@[width + i % width],
                                modulation.vector@[i % width],
                            ),
                            #[trigger] result->Ok_0.array().data[i],
                        )
                },
            },
    {
        match require_tensor(input) {
            Ok(_) => {},
            Err(error) => {
                return Err(error);
            },
        }
        match require_tensor(timestep) {
            Ok(_) => {},
            Err(error) => {
                return Err(error);
            },
        }
        match require_vector(modulation) {
            Ok(_) => {},
            Err(error) => {
                return Err(error);
            },
        }
        let shape = input.tensor.shape();
        assert(shape@.len() == shape.len());
        let width: usize = shape[shape.len() - 1];
        let count: usize = modulation.vector.shape()[0];
        if timestep.tensor.len() != width || count % 2 != 0 || count / 2 != width {
            return Err(BackendError::HeadModulation);
        }
        proof {
            layout::lemma_product_positive(input.array().dims);
            layout::lemma_product_small(modulation.vector.dims());
        }
        let data = input.tensor.data();
        let times = timestep.tensor.data();
        let values = modulation.vector.data();
        let len: usize = input.tensor.len();
        let mut out: Vec<T> = Vec::with_capacity(len);
        let mut i: usize = 0;
        while i < len
            invariant
                i == out@.len() <= len,
                data@.len() == len,
                times@.len() == width,
                values@.len() == 2 * width,
                2 * width <= usize::MAX,
                0 < width,
                forall|a: T, b: T, c: T, d: T| #[trigger] call_requires(modulate, (a, b, c, d)),
                forall|j: int|
                    0 <= j < i ==> call_ensures(
                        modulate,
                        (
                            data@[j],
                            times@[j % width as int],
                            values@[width + j % width as int],
                            values@[j % width as int],
                        ),
                        #[trigger] out@[j],
                    ),
            decreases len - i,
        {
            let column: usize = i % width;
            out.push(modulate(data[i], times[column], values[width + column], values[column]));
            i = i + 1;
        }
        Ok(owned(vstd::slice::slice_to_vec(shape), out))
    }

    /// Multiplies every element by the element of its column in a chunk of a vector.
    pub fn multiply_vector_chunk_device<T: Copy, F: Fn(T, T) -> T>(
        &self,
        input: &DeviceTensor<T>,
        vector: &DeviceTensor<T>,
        chunk: usize,
        times: F,
    ) -> (result: Result<DeviceTensor<T>, BackendError>)
        requires
            input.wf(),
            vector.wf(),
            fold::total2(times),
            chunk < usize::MAX,
        ensures
            match backend_time::either(
                backend_time::either(
                    backend::owner_fault(Owned::Tensor, input.backend),
                    backend::owner_fault(Owned::Tensor, vector.backend),
                ),
                chunk_fault(input.array().dims.last(), vector.array().data.len(), chunk),
            ) {
                Some(fault) => result is Err && result->Err_0@ == fault,
                None => {
                    let width = input.array().dims.last() as int;
                    &&& result is Ok
                    &&& result->Ok_0.wf()
                    &&& result->Ok_0.backend == BackendKind::ScalarCpu
                    &&& result->Ok_0.array().dims == input.array().dims
                    &&& forall|i: int|
                        0 <= i < input.array().data.len() ==> call_ensures(
                            times,
                            (
                                input.array().data[i],
                                vector.array().data[chunk * width + i % width],
                            ),
                            #[trigger] result->Ok_0.array().data[i],
                        )
                },
            },
    {
        match require_tensor(input) {
            Ok(_) => {},
            Err(error) => {
                return Err(error);
            },
        }
        match require_tensor(vector) {
            Ok(_) => {},
            Err(error) => {
                return Err(error);
            },
        }
        let shape = input.tensor.shape();
        assert(shape@.len() == shape.len());
        let width: usize = shape[shape.len() - 1];
        let required: usize = match (chunk + 1).checked_mul(width) {
            Some(required) => required,
            None => {
                return Err(BackendError::ChunkOverflow);
            },
        };
        let count: usize = vector.tensor.len();
        if count < required {
            return Err(BackendError::ChunkMissing);
        }
        let data = input.tensor.data();
        let values = vector.tensor.data();
        let len: usize = input.tensor.len();
        proof {
            layout::lemma_product_positive(input.array().dims);
        }
        let mut out: Vec<T> = Vec::with_capacity(len);
        let mut i: usize = 0;
        while i < len
            invariant
                i == out@.len() <= len,
                data@.len() == len,
                values@.len() == count,
                0 < width,
                (chunk + 1) * width <= count,
                fold::total2(times),
                forall|j: int|
                    0 <= j < i ==> call_ensures(
                        times,
                        (data@[j], values@[chunk * width + j % width as int]),
                        #[trigger] out@[j],
                    ),
            decreases len - i,
        {
            let column: usize = i % width;
            proof {
                layout::lemma_cell(chunk as int, chunk + 1, column as int, width as int);
            }
            out.push(times(data[i], values[chunk * width + column]));
            i = i + 1;
        }
        Ok(owned(vstd::slice::slice_to_vec(shape), out))
    }
}

/// A head of a row lies in its matrix.
proof fn lemma_head(rows: int, row: int, heads: int, head: int, head_dim: int)
    requires
        0 <= row < rows,
        0 <= head < heads,
        0 < head_dim,
    ensures
        0 <= row * (heads * head_dim),
        0 <= head * head_dim,
        row * (heads * head_dim) + head * head_dim + head_dim <= rows * (heads * head_dim),
{
    layout::lemma_cell(head, heads, 0, head_dim);
    let width = heads * head_dim;
    assert(0 <= row * width && row * width + width <= rows * width) by (nonlinear_arith)
        requires
            0 <= row,
            row + 1 <= rows,
            0 <= width,
    ;
}

} // verus!
