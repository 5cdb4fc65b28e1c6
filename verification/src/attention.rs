//! Scaled dot-product attention.

use vstd::prelude::*;
use crate::fold;
use crate::fold::dot;
use crate::layout;
use crate::tensor::{same_dims, Tensor};
use crate::tensor_error::{TensorError, TensorFault};

verus! {

/// Why attention refuses its shapes, if it does.
pub open spec fn attention_refusal(
    query: Seq<usize>,
    key: Seq<usize>,
    value: Seq<usize>,
    causal: bool,
) -> Option<TensorFault> {
    if query.len() != 4 || key.len() != 4 || value.len() != 4 {
        Some(TensorFault::AttentionRank)
    } else if key != seq![query[0], query[1], key[2], query[3]] || value != key {
        Some(TensorFault::AttentionShapes { query, key, value })
    } else if causal && query[2] != key[2] {
        Some(TensorFault::AttentionCausalLengths)
    } else {
        None
    }
}

/// The number of keys that query `index` observes.
pub open spec fn visible_keys(causal: bool, index: int, keys: int) -> int {
    if causal {
        index + 1
    } else {
        keys
    }
}

/// `score` is the scaled product of the query row and the key row that start at the given elements.
pub open spec fn scored<T, F: Fn(T, T, T) -> T, G: Fn(T, usize) -> T>(
    mac: F,
    scale: G,
    zero: T,
    query: Seq<T>,
    key: Seq<T>,
    query_start: int,
    key_start: int,
    width: usize,
    score: T,
) -> bool {
    exists|product: T|
        {
            &&& fold::accumulates(
                mac,
                query,
                key,
                fold::run(query_start, key_start, width as nat),
                zero,
                product,
            )
            &&& #[trigger] call_ensures(scale, (product, width), score)
        }
}

/// The weights paired with column `column` of the first `visible` value rows from row `first`.
pub open spec fn value_column(
    first: int,
    visible: nat,
    width: int,
    column: int,
) -> Seq<(int, int)> {
    Seq::new(visible, |k: int| (k, (first + k) * width + column))
}

/// `out` is what the query row starting at `query_start` reads: its scores against `visible` key
/// rows from row `first` are turned into weights, and the value rows are summed with them.
pub open spec fn attends<
    T,
    F: Fn(T, T, T) -> T,
    G: Fn(T, usize) -> T,
    H: Fn(Vec<T>) -> Vec<T>,
>(
    mac: F,
    scale: G,
    softmax: H,
    zero: T,
    query: Seq<T>,
    key: Seq<T>,
    value: Seq<T>,
    query_start: int,
    first: int,
    visible: nat,
    width: usize,
    out: Seq<T>,
) -> bool {
    &&& out.len() == width
    &&& exists|scores: Vec<T>, weights: Vec<T>|
        {
            &&& #[trigger] call_ensures(softmax, (scores,), weights)
            &&& scores@.len() == visible
            &&& weights@.len() == visible
            &&& forall|k: int|
                0 <= k < visible ==> scored(
                    mac,
                    scale,
                    zero,
                    query,
                    key,
                    query_start,
                    (first + k) * width,
                    width,
                    #[trigger] scores@[k],
                )
            &&& forall|d: int|
                0 <= d < width ==> fold::accumulates(
                    mac,
                    weights@,
                    value,
                    value_column(first, visible, width as int, d),
                    zero,
                    #[trigger] out[d],
                )
        }
}

/// The caller's functions accept every argument, and `softmax` keeps the number of scores.
pub open spec fn usable<T, F: Fn(T, T, T) -> T, G: Fn(T, usize) -> T, H: Fn(Vec<T>) -> Vec<T>>(
    mac: F,
    scale: G,
    softmax: H,
) -> bool {
    &&& fold::total3(mac)
    &&& fold::total2(scale)
    &&& fold::total1(softmax)
    &&& forall|scores: Vec<T>, weights: Vec<T>| #[trigger]
        call_ensures(softmax, (scores,), weights) ==> weights@.len() == scores@.len()
}

/// A sum does not depend on elements that none of its taps names.
pub proof fn lemma_accumulates_local<T, F: Fn(T, T, T) -> T>(
    mac: F,
    left: Seq<T>,
    right: Seq<T>,
    left2: Seq<T>,
    right2: Seq<T>,
    taps: Seq<(int, int)>,
    start: T,
    total: T,
)
    requires
        fold::accumulates(mac, left, right, taps, start, total),
        forall|i: int|
            0 <= i < taps.len() ==> left[(#[trigger] taps[i]).0] == left2[taps[i].0]
                && right[taps[i].1] == right2[taps[i].1],
    ensures
        fold::accumulates(mac, left2, right2, taps, start, total),
    decreases taps.len(),
{
    if taps.len() > 0 {
        let last = taps.last();
        assert(last == taps[taps.len() - 1]);
        let partial = choose|partial: T|
            {
                &&& fold::accumulates(mac, left, right, taps.drop_last(), start, partial)
                &&& #[trigger] call_ensures(
                    mac,
                    (partial, left[taps.last().0], right[taps.last().1]),
                    total,
                )
            };
        assert forall|i: int| 0 <= i < taps.drop_last().len() implies left[(
        #[trigger] taps.drop_last()[i]).0] == left2[taps.drop_last()[i].0]
            && right[taps.drop_last()[i].1] == right2[taps.drop_last()[i].1] by {
            assert(taps.drop_last()[i] == taps[i]);
        }
        lemma_accumulates_local(mac, left, right, left2, right2, taps.drop_last(), start, partial);
        assert(call_ensures(mac, (partial, left2[taps.last().0], right2[taps.last().1]), total));
    }
}

/// A query reads nothing but the keys and values it observes: where two key tensors and two value
/// tensors agree on the visible rows, whatever the query reads from the one pair it reads from the
/// other. With causal attention the rows after the query's own are not visible.
pub proof fn attention_sees_only_visible_rows<
    T,
    F: Fn(T, T, T) -> T,
    G: Fn(T, usize) -> T,
    H: Fn(Vec<T>) -> Vec<T>,
>(
    mac: F,
    scale: G,
    softmax: H,
    zero: T,
    query: Seq<T>,
    key: Seq<T>,
    value: Seq<T>,
    key2: Seq<T>,
    value2: Seq<T>,
    query_start: int,
    first: int,
    visible: nat,
    width: usize,
    out: Seq<T>,
)
    requires
        attends(
            mac,
            scale,
            softmax,
            zero,
            query,
            key,
            value,
            query_start,
            first,
            visible,
            width,
            out,
        ),
        forall|i: int|
            first * width <= i < (first + visible) * width ==> #[trigger] key[i] == key2[i],
        forall|i: int|
            first * width <= i < (first + visible) * width ==> #[trigger] value[i] == value2[i],
    ensures
        attends(
            mac,
            scale,
            softmax,
            zero,
            query,
            key2,
            value2,
            query_start,
            first,
            visible,
            width,
            out,
        ),
{
    let (scores, weights) = choose|scores: Vec<T>, weights: Vec<T>|
        {
            &&& #[trigger] call_ensures(softmax, (scores,), weights)
            &&& scores@.len() == visible
            &&& weights@.len() == visible
            &&& forall|k: int|
                0 <= k < visible ==> scored(
                    mac,
                    scale,
                    zero,
                    query,
                    key,
                    query_start,
                    (first + k) * width,
                    width,
                    #[trigger] scores@[k],
                )
            &&& forall|d: int|
                0 <= d < width ==> fold::accumulates(
                    mac,
                    weights@,
                    value,
                    value_column(first, visible, width as int, d),
                    zero,
                    #[trigger] out[d],
                )
        };
    assert forall|k: int| 0 <= k < visible implies scored(
        mac,
        scale,
        zero,
        query,
        key2,
        query_start,
        (first + k) * width,
        width,
        #[trigger] scores@[k],
    ) by {
        let start = (first + k) * width;
        let taps = fold::run(query_start, start, width as nat);
        let product = choose|product: T|
            {
                &&& fold::accumulates(mac, query, key, taps, zero, product)
                &&& #[trigger] call_ensures(scale, (product, width), scores@[k])
            };
        assert(first * width <= start && start + width <= (first + visible) * width)
            by (nonlinear_arith)
            requires
                start == (first + k) * width,
                0 <= k < visible,
                0 <= width,
        ;
        lemma_accumulates_local(mac, query, key, query, key2, taps, zero, product);
        assert(call_ensures(scale, (product, width), scores@[k]));
    }
    assert forall|d: int| 0 <= d < width implies fold::accumulates(
        mac,
        weights@,
        value2,
        value_column(first, visible, width as int, d),
        zero,
        #[trigger] out[d],
    ) by {
        let taps = value_column(first, visible, width as int, d);
        assert forall|i: int| 0 <= i < taps.len() implies weights@[(#[trigger] taps[i]).0]
            == weights@[taps[i].0] && value[taps[i].1] == value2[taps[i].1] by {
            let at = (first + i) * width + d;
            assert(first * width <= at < (first + visible) * width) by (nonlinear_arith)
                requires
                    at == (first + i) * width + d,
                    0 <= i < visible,
                    0 <= d < width,
            ;
        }
        lemma_accumulates_local(mac, weights@, value, weights@, value2, taps, zero, out[d]);
    }
    assert(call_ensures(softmax, (scores,), weights));
}

/// The products of a valid rank-4 shape that attention indexes with.
proof fn lemma_rows(dims: Seq<usize>)
    requires
        dims.len() == 4,
        0 < layout::product(dims) <= usize::MAX,
    ensures
        dims[0] > 0 && dims[1] > 0 && dims[2] > 0 && dims[3] > 0,
        0 < dims[0] * dims[1] <= usize::MAX,
        0 < dims[0] * dims[1] * dims[2] <= usize::MAX,
        layout::product(dims) == dims[0] * dims[1] * dims[2] * dims[3],
{
    layout::lemma_product_positive(dims);
    layout::lemma_product_small(dims);
    layout::lemma_product_prefix(dims, 2);
    layout::lemma_product_prefix(dims, 3);
    layout::lemma_product_small(dims.take(2));
    layout::lemma_product_small(dims.take(3));
}

impl<T: Copy> Tensor<T> {
    /// Scaled dot-product attention for Q/K/V tensors in BHQD/BHKD layout.
    pub fn attention<F: Fn(T, T, T) -> T, G: Fn(T, usize) -> T, H: Fn(Vec<T>) -> Vec<T>>(
        query: &Self,
        key: &Self,
        value: &Self,
        zero: T,
        mac: F,
        scale: G,
        softmax: H,
    ) -> (result: Result<Self, TensorError>)
        requires
            query.wf(),
            key.wf(),
            value.wf(),
            usable(mac, scale, softmax),
        ensures
            attention_outcome(mac, scale, softmax, zero, *query, *key, *value, false, result),
    {
        Self::attention_impl(query, key, value, false, zero, mac, scale, softmax)
    }

    /// Text attention, where query N cannot observe keys after N.
    pub fn attention_causal<F: Fn(T, T, T) -> T, G: Fn(T, usize) -> T, H: Fn(Vec<T>) -> Vec<T>>(
        query: &Self,
        key: &Self,
        value: &Self,
        zero: T,
        mac: F,
        scale: G,
        softmax: H,
    ) -> (result: Result<Self, TensorError>)
        requires
            query.wf(),
            key.wf(),
            value.wf(),
            usable(mac, scale, softmax),
        ensures
            attention_outcome(mac, scale, softmax, zero, *query, *key, *value, true, result),
    {
        Self::attention_impl(query, key, value, true, zero, mac, scale, softmax)
    }

    fn attention_impl<F: Fn(T, T, T) -> T, G: Fn(T, usize) -> T, H: Fn(Vec<T>) -> Vec<T>>(
        query: &Self,
        key: &Self,
        value: &Self,
        causal: bool,
        zero: T,
        mac: F,
        scale: G,
        softmax: H,
    ) -> (result: Result<Self, TensorError>)
        requires
            query.wf(),
            key.wf(),
            value.wf(),
            usable(mac, scale, softmax),
        ensures
            attention_outcome(mac, scale, softmax, zero, *query, *key, *value, causal, result),
    {
        let q_shape = query.shape();
        let k_shape = key.shape();
        if q_shape.len() != 4 || k_shape.len() != 4 || value.shape().len() != 4 {
            return Err(TensorError::AttentionRank);
        }
        let batch: usize = q_shape[0];
        let heads: usize = q_shape[1];
        let queries: usize = q_shape[2];
        let width: usize = q_shape[3];
        let keys: usize = k_shape[2];
        let expected: [usize; 4] = [batch, heads, keys, width];
        assert(expected@ =~= seq![batch, heads, keys, width]);
        if !same_dims(k_shape, &expected) || !same_dims(value.shape(), &expected) {
            return Err(
                TensorError::AttentionShapes {
                    query: vstd::slice::slice_to_vec(q_shape),
                    key: vstd::slice::slice_to_vec(k_shape),
                    value: vstd::slice::slice_to_vec(value.shape()),
                },
            );
        }
        if causal && queries != keys {
            return Err(TensorError::AttentionCausalLengths);
        }
        proof {
            lemma_rows(query.dims());
            lemma_rows(key.dims());
        }
        let rows: usize = batch * heads * queries;
        let mut data: Vec<T> = Vec::with_capacity(query.len());
        let mut row: usize = 0;
        while row < rows
            invariant
                row <= rows,
                rows == batch * heads * queries,
                0 < width,
                0 < queries,
                0 < keys,
                query@.len() == rows * width <= usize::MAX,
                batch * heads * keys <= usize::MAX,
                key@.len() == batch * heads * keys * width <= usize::MAX,
                value@.len() == key@.len(),
                causal ==> queries == keys,
                usable(mac, scale, softmax),
                data@.len() == row * width,
                forall|r: int|
                    0 <= r < row ==> attends(
                        mac,
                        scale,
                        softmax,
                        zero,
                        query@,
                        key@,
                        value@,
                        r * width,
                        (r / queries as int) * keys,
                        visible_keys(causal, r % queries as int, keys as int) as nat,
                        width,
                        #[trigger] data@.subrange(r * width, r * width + width),
                    ),
            decreases rows - row,
        {
            let query_index: usize = row % queries;
            let batch_head: usize = row / queries;
            let visible: usize = if causal {
                query_index + 1
            } else {
                keys
            };
            proof {
                layout::lemma_divide(row as int, batch * heads, queries as int);
                layout::lemma_cell(row as int, rows as int, 0, width as int);
                layout::lemma_cell(batch_head as int, batch * heads, visible - 1, keys as int);
                assert((batch * heads) * queries == batch * heads * queries) by (nonlinear_arith);
                assert((batch * heads) * keys == batch * heads * keys) by (nonlinear_arith);
            }
            let first: usize = batch_head * keys;
            let q_start: usize = row * width;
            let mut scores: Vec<T> = Vec::with_capacity(visible);
            let mut k: usize = 0;
            while k < visible
                invariant
                    k == scores@.len() <= visible,
                    0 < width,
                    first + visible <= batch * heads * keys <= usize::MAX,
                    key@.len() == batch * heads * keys * width <= usize::MAX,
                    q_start + width <= query@.len(),
                    usable(mac, scale, softmax),
                    forall|j: int|
                        0 <= j < k ==> scored(
                            mac,
                            scale,
                            zero,
                            query@,
                            key@,
                            q_start as int,
                            (first + j) * width,
                            width,
                            #[trigger] scores@[j],
                        ),
                decreases visible - k,
            {
                proof {
                    layout::lemma_cell(first + k, batch * heads * keys, 0, width as int);
                }
                let product = dot(
                    query.data(),
                    q_start,
                    key.data(),
                    (first + k) * width,
                    width,
                    zero,
                    &mac,
                );
                let score = scale(product, width);
                proof {
                    assert(call_ensures(scale, (product, width), score));
                }
                scores.push(score);
                k = k + 1;
            }
            let ghost given = scores;
            let weights = softmax(scores);
            let ghost before = data@;
            let mut d: usize = 0;
            while d < width
                invariant
                    d <= width,
                    0 < width,
                    weights@.len() == visible,
                    first + visible <= batch * heads * keys <= usize::MAX,
                    value@.len() == batch * heads * keys * width <= usize::MAX,
                    usable(mac, scale, softmax),
                    data@.len() == before.len() + d,
                    forall|j: int| 0 <= j < before.len() ==> #[trigger] data@[j] == before[j],
                    forall|j: int|
                        0 <= j < d ==> fold::accumulates(
                            mac,
                            weights@,
                            value@,
                            value_column(first as int, visible as nat, width as int, j),
                            zero,
                            #[trigger] data@[before.len() + j],
                        ),
                decreases width - d,
            {
                let mut total: T = zero;
                let mut k: usize = 0;
                proof {
                    assert(value_column(first as int, 0, width as int, d as int) =~= Seq::empty());
                }
                while k < visible
                    invariant
                        k <= visible == weights@.len(),
                        d < width,
                        first + visible <= batch * heads * keys <= usize::MAX,
                        value@.len() == batch * heads * keys * width <= usize::MAX,
                        usable(mac, scale, softmax),
                        fold::accumulates(
                            mac,
                            weights@,
                            value@,
                            value_column(first as int, k as nat, width as int, d as int),
                            zero,
                            total,
                        ),
                    decreases visible - k,
                {
                    proof {
                        layout::lemma_cell(
                            first + k,
                            batch * heads * keys,
                            d as int,
                            width as int,
                        );
                    }
                    let ghost partial = total;
                    let at: usize = (first + k) * width + d;
                    total = mac(total, weights[k], value.data()[at]);
                    proof {
                        let taps = value_column(first as int, k as nat, width as int, d as int);
                        fold::lemma_accumulates_push(
                            mac,
                            weights@,
                            value@,
                            taps,
                            (k as int, at as int),
                            zero,
                            partial,
                            total,
                        );
                        assert(taps.push((k as int, at as int)) =~= value_column(
                            first as int,
                            (k + 1) as nat,
                            width as int,
                            d as int,
                        ));
                    }
                    k = k + 1;
                }
                let ghost previous = data@;
                data.push(total);
                proof {
                    assert forall|j: int| 0 <= j < d + 1 implies fold::accumulates(
                        mac,
                        weights@,
                        value@,
                        value_column(first as int, visible as nat, width as int, j),
                        zero,
                        #[trigger] data@[before.len() + j],
                    ) by {
                        if j < d {
                            assert(data@[before.len() + j] == previous[before.len() + j]);
                        }
                    }
                }
                d = d + 1;
            }
            proof {
                let out = data@.subrange(row * width, row * width + width);
                assert forall|j: int| 0 <= j < width implies fold::accumulates(
                    mac,
                    weights@,
                    value@,
                    value_column(first as int, visible as nat, width as int, j),
                    zero,
                    #[trigger] out[j],
                ) by {
                    assert(out[j] == data@[before.len() + j]);
                }
                assert(call_ensures(softmax, (given,), weights));
                assert forall|r: int| 0 <= r < row + 1 implies attends(
                    mac,
                    scale,
                    softmax,
                    zero,
                    query@,
                    key@,
                    value@,
                    r * width,
                    (r / queries as int) * keys,
                    visible_keys(causal, r % queries as int, keys as int) as nat,
                    width,
                    #[trigger] data@.subrange(r * width, r * width + width),
                ) by {
                    if r < row {
                        layout::lemma_cell(r, row as int, 0, width as int);
                        assert(data@.subrange(r * width, r * width + width) =~= before.subrange(
                            r * width,
                            r * width + width,
                        ));
                    }
                }
            }
            row = row + 1;
        }
        let out = Tensor::from_parts(vstd::slice::slice_to_vec(q_shape), data);
        Ok(out)
    }
}

/// What attention comes to: the refusal of its shapes, or a tensor of the query's shape each row of
/// which is what that query reads.
pub open spec fn attention_outcome<
    T,
    F: Fn(T, T, T) -> T,
    G: Fn(T, usize) -> T,
    H: Fn(Vec<T>) -> Vec<T>,
>(
    mac: F,
    scale: G,
    softmax: H,
    zero: T,
    query: Tensor<T>,
    key: Tensor<T>,
    value: Tensor<T>,
    causal: bool,
    result: Result<Tensor<T>, TensorError>,
) -> bool {
    match attention_refusal(query.dims(), key.dims(), value.dims(), causal) {
        Some(fault) => result is Err && result->Err_0@ == fault,
        None => {
            let queries = query.dims()[2] as int;
            let keys = key.dims()[2] as int;
            let width = query.dims()[3];
            &&& result is Ok
            &&& result->Ok_0.wf()
            &&& result->Ok_0.dims() == query.dims()
            &&& forall|row: int|
                0 <= row < query.dims()[0] * query.dims()[1] * queries ==> attends(
                    mac,
                    scale,
                    softmax,
                    zero,
                    query@,
                    key@,
                    value@,
                    row * width,
                    (row / queries) * keys,
                    visible_keys(causal, row % queries, keys) as nat,
                    width,
                    #[trigger] result->Ok_0@.subrange(row * width, row * width + width),
                )
        },
    }
}

} // verus!
