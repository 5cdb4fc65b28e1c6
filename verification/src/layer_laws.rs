//! What the layers of the diffusion networks compute, element by element.

use vstd::prelude::*;
use crate::attention;
use crate::conv;
use crate::conv::Conv2d;
use crate::exact;
use crate::fold;
use crate::layers::{Kernels, GROUPS};
use crate::layout;
use crate::norm;
use crate::reshape;
use crate::reshape::Array;
use crate::safetensors::Scalar;

verus! {

/// A sequence split into heads: head `h` has, at every position, the run of channels that starts
/// at `h` times its width.
pub proof fn heads_are_runs_of_channels<T>(
    input: Array<T>,
    heads: usize,
    width: int,
    b: int,
    h: int,
    p: int,
    d: int,
)
    requires
        input.wf(),
        input.dims.len() == 3,
        input.dims[2] == heads * width,
        0 <= b < input.dims[0],
        0 <= h < heads,
        0 <= p < input.dims[1],
        0 <= d < width,
    ensures
        reshape::split(input, heads).dims == seq![
            input.dims[0],
            heads,
            input.dims[1],
            width as usize,
        ],
        reshape::split(input, heads).data[((b * heads + h) * input.dims[1] + p) * width + d]
            == input.data[(b * input.dims[1] + p) * (heads * width) + (h * width + d)],
{
    let dims = reshape::split_dims(input.dims, heads);
    vstd::arithmetic::div_mod::lemma_div_by_multiple(width, heads as int);
    assert(heads * width == width * heads) by (nonlinear_arith);
    assert(0 <= width <= heads * width) by (nonlinear_arith)
        requires
            0 < heads,
            0 <= d < width,
    ;
    assert(dims[3] == width);
    layout::lemma_offset4(dims, b, h, p, d);
    layout::lemma_product_small(dims);
    layout::lemma_product_small(input.dims);
    let n = input.dims[0] as int;
    let positions = input.dims[1] as int;
    assert(n * heads * positions * width == n * positions * (heads * width)) by (nonlinear_arith);
}

/// Heads merged into a sequence: channel `h` times the width of a head plus `d` is element `d` of
/// head `h`.
pub proof fn channels_are_runs_of_heads<T>(
    input: Array<T>,
    b: int,
    h: int,
    p: int,
    d: int,
)
    requires
        input.wf(),
        input.dims.len() == 4,
        input.dims[1] * input.dims[3] <= usize::MAX,
        0 <= b < input.dims[0],
        0 <= h < input.dims[1],
        0 <= p < input.dims[2],
        0 <= d < input.dims[3],
    ensures
        reshape::merged(input).dims == seq![
            input.dims[0],
            input.dims[2],
            (input.dims[1] * input.dims[3]) as usize,
        ],
        reshape::merged(input).data[(b * input.dims[2] + p) * (input.dims[1] * input.dims[3]) + (h
            * input.dims[3] + d)] == input.data[((b * input.dims[1] + h) * input.dims[2] + p)
            * input.dims[3] + d],
{
    let dims = reshape::merged_dims(input.dims);
    let width = input.dims[3] as int;
    layout::lemma_cell(h, input.dims[1] as int, d, width);
    layout::lemma_offset3(dims, b, p, h * width + d);
    layout::lemma_split(h, d, width);
    layout::lemma_product_small(dims);
    layout::lemma_product_small(input.dims);
    let n = input.dims[0] as int;
    let heads = input.dims[1] as int;
    let positions = input.dims[2] as int;
    assert(n * positions * (heads * width) == n * heads * positions * width) by (nonlinear_arith);
}

/// An image as a sequence: the channels of a position lie side by side.
pub proof fn positions_hold_their_channels<T>(input: Array<T>, b: int, c: int, p: int)
    requires
        input.wf(),
        input.dims.len() == 4,
        input.dims[2] * input.dims[3] <= usize::MAX,
        0 <= b < input.dims[0],
        0 <= c < input.dims[1],
        0 <= p < input.dims[2] * input.dims[3],
    ensures
        reshape::sequenced(input).dims == seq![
            input.dims[0],
            (input.dims[2] * input.dims[3]) as usize,
            input.dims[1],
        ],
        reshape::sequenced(input).data[(b * (input.dims[2] * input.dims[3]) + p) * input.dims[1]
            + c] == input.data[(b * input.dims[1] + c) * (input.dims[2] * input.dims[3]) + p],
{
    let dims = reshape::sequence_dims(input.dims);
    layout::lemma_offset3(dims, b, p, c);
    layout::lemma_product_small(dims);
    layout::lemma_product_small(input.dims);
    let n = input.dims[0] as int;
    let channels = input.dims[1] as int;
    let height = input.dims[2] as int;
    let width = input.dims[3] as int;
    assert(n * (height * width) * channels == n * channels * height * width) by (nonlinear_arith);
}

/// A sequence as an image: the positions of a channel lie side by side.
pub proof fn channels_hold_their_positions<T>(
    input: Array<T>,
    height: usize,
    width: usize,
    b: int,
    c: int,
    p: int,
)
    requires
        input.wf(),
        input.dims.len() == 3,
        input.dims[1] == height * width,
        0 <= b < input.dims[0],
        0 <= c < input.dims[2],
        0 <= p < input.dims[1],
    ensures
        reshape::imaged(input, height, width).dims == seq![
            input.dims[0],
            input.dims[2],
            height,
            width,
        ],
        reshape::imaged(input, height, width).data[(b * input.dims[2] + c) * input.dims[1] + p]
            == input.data[(b * input.dims[1] + p) * input.dims[2] + c],
{
    let n = input.dims[0] as int;
    let positions = input.dims[1] as int;
    let channels = input.dims[2] as int;
    layout::lemma_product_small(input.dims);
    layout::lemma_cell(b, n, c, channels);
    layout::lemma_cell(b * channels + c, n * channels, p, positions);
    layout::lemma_split(b * channels + c, p, positions);
    layout::lemma_split(b, c, channels);
    assert(n * channels * positions == n * positions * channels) by (nonlinear_arith);
}

/// A gated linear unit: of a row twice as wide, each element of the first half is combined with the
/// element as far into the second half.
pub proof fn the_second_half_gates_the_first<T, F: Fn(T, T) -> T>(
    gate: F,
    input: Array<T>,
    out: Array<T>,
    width: int,
    row: int,
    i: int,
)
    requires
        reshape::gated(gate, input, out),
        input.dims.len() > 0,
        input.dims.last() == 2 * width,
        0 <= row,
        0 <= i < width,
        row * width + i < out.data.len(),
    ensures
        call_ensures(
            gate,
            (input.data[row * (2 * width) + i], input.data[row * (2 * width) + (width + i)]),
            out.data[row * width + i],
        ),
{
    layout::lemma_split(row, i, width);
    assert(0 <= row * width) by (nonlinear_arith)
        requires
            0 <= row,
            0 < width,
    ;
    assert(call_ensures(
        gate,
        (
            input.data[row * (2 * width) + i],
            input.data[row * (2 * width) + width + i],
        ),
        out.data[row * width + i],
    ));
}

/// A bias for each channel goes to every element of the plane of that channel.
pub proof fn a_bias_goes_to_its_plane<T, F: Fn(T, T) -> T>(
    plus: F,
    input: Array<T>,
    bias: Seq<T>,
    out: Array<T>,
    b: int,
    c: int,
    p: int,
)
    requires
        reshape::biased(plus, input, bias, out),
        input.wf(),
        input.dims.len() == 4,
        0 <= b < input.dims[0],
        0 <= c < input.dims[1],
        0 <= p < input.dims[2] * input.dims[3],
    ensures
        call_ensures(
            plus,
            (
                input.data[(b * input.dims[1] + c) * (input.dims[2] * input.dims[3]) + p],
                bias[b * input.dims[1] + c],
            ),
            out.data[(b * input.dims[1] + c) * (input.dims[2] * input.dims[3]) + p],
        ),
{
    let n = input.dims[0] as int;
    let channels = input.dims[1] as int;
    let height = input.dims[2] as int;
    let width = input.dims[3] as int;
    let plane = height * width;
    layout::lemma_product_small(input.dims);
    assert(n * channels * height * width == n * channels * plane) by (nonlinear_arith)
        requires
            plane == height * width,
    ;
    layout::lemma_cell(b, n, c, channels);
    layout::lemma_cell(b * channels + c, n * channels, p, plane);
    layout::lemma_split(b * channels + c, p, plane);
}

/// Tensors joined along their last dimension: in every row the elements of the first come first.
pub proof fn joined_rows_follow_one_another<T>(a: Array<T>, b: Array<T>, row: int, i: int)
    requires
        a.dims.len() == 3,
        b.dims.len() == 3,
        0 <= row,
        0 <= i < a.dims[2] + b.dims[2],
        row * (a.dims[2] + b.dims[2]) + i < a.data.len() + b.data.len(),
    ensures
        reshape::joined_last(a, b).data[row * (a.dims[2] + b.dims[2]) + i] == if i < a.dims[2] {
            a.data[row * a.dims[2] + i]
        } else {
            b.data[row * b.dims[2] + (i - a.dims[2])]
        },
{
    let width = a.dims[2] + b.dims[2];
    layout::lemma_split(row, i, width);
    assert(0 <= row * width) by (nonlinear_arith)
        requires
            0 <= row,
            0 <= width,
    ;
}

/// What a kernel cell adds to an output element: the product of its weight and of the input
/// element under it, and nothing where it lies over the padding.
pub open spec fn contribution<T>(
    value: spec_fn(T) -> int,
    input: Seq<T>,
    weight: Seq<T>,
    g: Conv2d,
    n: int,
    oc: int,
    y: int,
    x: int,
    ic: int,
    ky: int,
    kx: int,
) -> int {
    let group = oc / (g.weight[0] as int / g.groups as int);
    let row = y * g.stride[0] + ky * g.dilation[0] - g.padding[0];
    let column = x * g.stride[1] + kx * g.dilation[1] - g.padding[1];
    if 0 <= row < g.input[2] && 0 <= column < g.input[3] {
        value(
            input[((n * g.input[1] + (group * g.weight[1] + ic)) * g.input[2] + row) * g.input[3]
                + column],
        ) * value(
            weight[((oc * g.weight[1] + ic) * g.weight[2] + ky) * g.weight[3] + kx],
        )
    } else {
        0
    }
}

/// The contribution of the kernel cell with a number.
spec fn numbered<T>(
    value: spec_fn(T) -> int,
    input: Seq<T>,
    weight: Seq<T>,
    g: Conv2d,
    n: int,
    oc: int,
    y: int,
    x: int,
    t: int,
) -> int {
    match g.tap(n, oc, y, x, t) {
        Some(tap) => value(input[tap.0]) * value(weight[tap.1]),
        None => 0,
    }
}

proof fn lemma_taps<T>(
    value: spec_fn(T) -> int,
    input: Seq<T>,
    weight: Seq<T>,
    g: Conv2d,
    n: int,
    oc: int,
    y: int,
    x: int,
    t: nat,
)
    ensures
        exact::sum(
            g.taps(n, oc, y, x, t).len(),
            |i: int|
                value(input[g.taps(n, oc, y, x, t)[i].0]) * value(
                    weight[g.taps(n, oc, y, x, t)[i].1],
                ),
        ) == exact::sum(t, |i: int| numbered(value, input, weight, g, n, oc, y, x, i)),
    decreases t,
{
    if t > 0 {
        let m = (t - 1) as nat;
        lemma_taps(value, input, weight, g, n, oc, y, x, m);
        let earlier = g.taps(n, oc, y, x, m);
        let all = g.taps(n, oc, y, x, t);
        exact::lemma_sum_same(
            earlier.len(),
            |i: int| value(input[earlier[i].0]) * value(weight[earlier[i].1]),
            |i: int| value(input[all[i].0]) * value(weight[all[i].1]),
        );
    }
}

/// A convolution, in exact arithmetic: an output element is its bias and, for every input channel
/// of its group and every kernel cell that lies over the input, the product of the weight and of
/// the element under it.
pub proof fn a_convolution_sums_what_its_kernel_covers<T, F: Fn(T, T, T) -> T>(
    mac: F,
    value: spec_fn(T) -> int,
    g: Conv2d,
    input: Seq<T>,
    weight: Seq<T>,
    start: T,
    total: T,
    n: int,
    oc: int,
    y: int,
    x: int,
)
    requires
        exact::multiplies_and_adds(mac, value),
        g.wf(),
        fold::accumulates(mac, input, weight, g.window(n, oc, y, x), start, total),
    ensures
        value(total) == value(start) + exact::sum(
            g.weight[1] as nat,
            |ic: int|
                exact::sum(
                    g.weight[2] as nat,
                    |ky: int|
                        exact::sum(
                            g.weight[3] as nat,
                            |kx: int|
                                contribution(
                                    value,
                                    input,
                                    weight,
                                    g,
                                    n,
                                    oc,
                                    y,
                                    x,
                                    ic,
                                    ky,
                                    kx,
                                ),
                        ),
                ),
        ),
{
    let channels = g.weight[1] as nat;
    let rows = g.weight[2] as nat;
    let columns = g.weight[3] as nat;
    let flat = |t: int| numbered(value, input, weight, g, n, oc, y, x, t);
    exact::lemma_accumulates(mac, value, input, weight, g.window(n, oc, y, x), start, total);
    assert(g.cells() >= 0) by (nonlinear_arith)
        requires
            g.cells() == channels * rows * columns,
            channels >= 0,
            rows >= 0,
            columns >= 0,
    ;
    lemma_taps(value, input, weight, g, n, oc, y, x, g.cells() as nat);
    assert(g.cells() == (channels * rows) * columns);
    exact::lemma_sum_rows(channels * rows, columns, flat);
    let lines = |r: int| exact::sum(columns, |kx: int| flat(r * columns + kx));
    exact::lemma_sum_rows(channels, rows, lines);
    let stacks = |ic: int| exact::sum(rows, |ky: int| lines(ic * rows + ky));
    let planes = |ic: int|
        exact::sum(
            rows,
            |ky: int|
                exact::sum(
                    columns,
                    |kx: int| contribution(value, input, weight, g, n, oc, y, x, ic, ky, kx),
                ),
        );
    assert forall|ic: int| 0 <= ic < channels implies #[trigger] stacks(ic) == planes(ic) by {
        let wanted = |ky: int|
            exact::sum(
                columns,
                |kx: int| contribution(value, input, weight, g, n, oc, y, x, ic, ky, kx),
            );
        let found = |ky: int| lines(ic * rows + ky);
        assert forall|ky: int| 0 <= ky < rows implies #[trigger] found(ky) == wanted(ky) by {
            let left = |kx: int| flat((ic * rows + ky) * columns + kx);
            let right = |kx: int| contribution(value, input, weight, g, n, oc, y, x, ic, ky, kx);
            assert forall|kx: int| 0 <= kx < columns implies #[trigger] left(kx) == right(kx) by {
                layout::lemma_split(ic * rows + ky, kx, columns as int);
                layout::lemma_split(ic, ky, rows as int);
            }
            exact::lemma_sum_same(columns, left, right);
        }
        exact::lemma_sum_same(rows, found, wanted);
    }
    exact::lemma_sum_same(channels, stacks, planes);
}

/// The likeness of a query to a key: the sum of the products of their elements.
pub open spec fn likeness<T>(
    value: spec_fn(T) -> int,
    query: Seq<T>,
    query_row: int,
    key: Seq<T>,
    key_row: int,
    width: usize,
) -> int {
    exact::sum(
        width as nat,
        |j: int| value(query[query_row * width + j]) * value(key[key_row * width + j]),
    )
}

/// A score is what the scaling for a width makes of a likeness.
pub open spec fn scaled<T, C: Fn(T, usize) -> T>(
    scale: C,
    value: spec_fn(T) -> int,
    amount: int,
    width: usize,
    score: T,
) -> bool {
    exists|product: T|
        value(product) == amount && #[trigger] call_ensures(scale, (product, width), score)
}

/// The average of an element of the values in the rows from `first` on.
pub open spec fn average<T>(
    value: spec_fn(T) -> int,
    weights: Seq<T>,
    values: Seq<T>,
    first: int,
    visible: nat,
    width: usize,
    d: int,
) -> int {
    exact::sum(visible, |k: int| value(weights[k]) * value(values[(first + k) * width + d]))
}

impl<
    T: Copy,
    S: Copy,
    M: Fn(T, T, T) -> T + Copy,
    P: Fn(T, T) -> T + Copy,
    G: Fn(T, T) -> T + Copy,
    L: Fn(T) -> T + Copy,
    E: Fn(T) -> T + Copy,
    Q: Fn(T) -> T + Copy,
    A: Fn(&[T], u32) -> S + Copy,
    B: Fn(T, S, T, T) -> T + Copy,
    C: Fn(T, usize) -> T + Copy,
    H: Fn(Vec<T>) -> Vec<T> + Copy,
    N: Fn(Scalar) -> T + Copy,
> Kernels<T, M, P, G, L, E, Q, A, B, C, H, N> {
    /// What a query reads, in exact arithmetic: the average of the values of its head, each
    /// weighted by the softmax of the scaled likeness of the query to the key at the same place.
    /// With causal attention it does not read beyond its own place.
    pub proof fn queries_average_values_by_likeness_to_keys(
        self,
        value: spec_fn(T) -> int,
        query: Array<T>,
        key: Array<T>,
        values: Array<T>,
        causal: bool,
        out: Array<T>,
        head: int,
        t: int,
    ) -> (read: (Vec<T>, Vec<T>))
        requires
            exact::multiplies_and_adds(self.mac, value),
            value(self.zero) == 0,
            self.reads(query, key, values, causal, out),
            query.wf(),
            out.wf(),
            query.dims.len() == 4,
            0 <= head < query.dims[0] * query.dims[1],
            0 <= t < query.dims[2],
            causal ==> key.dims[2] == query.dims[2],
        ensures
            ({
                let (scores, weights) = read;
                let visible: nat = if causal {
                    (t + 1) as nat
                } else {
                    key.dims[2] as nat
                };
                let row = head * query.dims[2] + t;
                let first = head * key.dims[2];
                let width = query.dims[3];
                &&& call_ensures(self.softmax, (scores,), weights)
                &&& scores@.len() == visible
                &&& forall|k: int|
                    0 <= k < visible ==> scaled(
                        self.scale,
                        value,
                        likeness(value, query.data, row, key.data, first + k, width),
                        width,
                        #[trigger] scores@[k],
                    )
                &&& forall|d: int|
                    0 <= d < width ==> value(#[trigger] out.data[row * width + d]) == average(
                        value,
                        weights@,
                        values.data,
                        first,
                        visible,
                        width,
                        d,
                    )
            }),
    {
        let queries = query.dims[2] as int;
        let width = query.dims[3];
        let row = head * queries + t;
        let first = head * key.dims[2];
        let visible = attention::visible_keys(causal, t, key.dims[2] as int) as nat;
        let heads = query.dims[0] * query.dims[1];
        layout::lemma_cell(head, heads, t, queries);
        layout::lemma_split(head, t, queries);
        layout::lemma_product_small(query.dims);
        let part = out.data.subrange(row * width, row * width + width);
        assert(attention::attends(
            self.mac,
            self.scale,
            self.softmax,
            self.zero,
            query.data,
            key.data,
            values.data,
            row * width,
            first,
            visible,
            width,
            part,
        ));
        self.lemma_attends(
            value,
            query.data,
            key.data,
            values.data,
            row,
            first,
            visible,
            width,
            part,
            out.data,
            heads * queries,
        )
    }

    proof fn lemma_attends(
        self,
        value: spec_fn(T) -> int,
        query: Seq<T>,
        key: Seq<T>,
        values: Seq<T>,
        row: int,
        first: int,
        visible: nat,
        width: usize,
        part: Seq<T>,
        out: Seq<T>,
        rows: int,
    ) -> (read: (Vec<T>, Vec<T>))
        requires
            exact::multiplies_and_adds(self.mac, value),
            value(self.zero) == 0,
            0 <= row < rows,
            out.len() == rows * width,
            part == out.subrange(row * width, row * width + width),
            attention::attends(
                self.mac,
                self.scale,
                self.softmax,
                self.zero,
                query,
                key,
                values,
                row * width,
                first,
                visible,
                width,
                part,
            ),
        ensures
            ({
                let (scores, weights) = read;
                &&& call_ensures(self.softmax, (scores,), weights)
                &&& scores@.len() == visible
                &&& forall|k: int|
                    0 <= k < visible ==> scaled(
                        self.scale,
                        value,
                        likeness(value, query, row, key, first + k, width),
                        width,
                        #[trigger] scores@[k],
                    )
                &&& forall|d: int|
                    0 <= d < width ==> value(#[trigger] out[row * width + d]) == average(
                        value,
                        weights@,
                        values,
                        first,
                        visible,
                        width,
                        d,
                    )
            }),
    {
        let (scores, weights) = choose|scores: Vec<T>, weights: Vec<T>|
            {
                &&& #[trigger] call_ensures(self.softmax, (scores,), weights)
                &&& scores@.len() == visible
                &&& weights@.len() == visible
                &&& forall|k: int|
                    0 <= k < visible ==> attention::scored(
                        self.mac,
                        self.scale,
                        self.zero,
                        query,
                        key,
                        row * width,
                        (first + k) * width,
                        width,
                        #[trigger] scores@[k],
                    )
                &&& forall|d: int|
                    0 <= d < width ==> fold::accumulates(
                        self.mac,
                        weights@,
                        values,
                        attention::value_column(first, visible, width as int, d),
                        self.zero,
                        #[trigger] part[d],
                    )
            };
        assert forall|k: int| 0 <= k < visible implies scaled(
            self.scale,
            value,
            likeness(value, query, row, key, first + k, width),
            width,
            #[trigger] scores@[k],
        ) by {
            let taps = fold::run(row * width, (first + k) * width, width as nat);
            let product = choose|product: T|
                {
                    &&& fold::accumulates(self.mac, query, key, taps, self.zero, product)
                    &&& #[trigger] call_ensures(self.scale, (product, width), scores@[k])
                };
            exact::lemma_accumulates(self.mac, value, query, key, taps, self.zero, product);
            exact::lemma_sum_same(
                width as nat,
                |j: int| value(query[taps[j].0]) * value(key[taps[j].1]),
                |j: int|
                    value(query[row * width + j]) * value(key[(first + k) * width + j]),
            );
        }
        assert forall|d: int| 0 <= d < width implies value(#[trigger] out[row * width + d])
            == average(value, weights@, values, first, visible, width, d) by {
            layout::lemma_cell(row, rows, d, width as int);
            assert(part[d] == out[row * width + d]);
            let taps = attention::value_column(first, visible, width as int, d);
            exact::lemma_accumulates(
                self.mac,
                value,
                weights@,
                values,
                taps,
                self.zero,
                part[d],
            );
            exact::lemma_sum_same(
                visible,
                |k: int| value(weights@[taps[k].0]) * value(values[taps[k].1]),
                |k: int| value(weights@[k]) * value(values[(first + k) * width + d]),
            );
        }
        (scores, weights)
    }

    /// A linear projection, in exact arithmetic: output `o` of a row is its bias and the sum of
    /// the products of the row with row `o` of the weights.
    pub proof fn a_projection_multiplies_by_the_rows_of_its_weights(
        self,
        value: spec_fn(T) -> int,
        input: Array<T>,
        weight: Array<T>,
        bias: Option<Array<T>>,
        out: Array<T>,
        row: int,
        o: int,
    )
        requires
            exact::multiplies_and_adds(self.mac, value),
            value(self.zero) == 0,
            self.projects(input, weight, bias, out),
            weight.dims.len() == 2,
            0 < weight.dims[1],
            0 <= row < input.data.len() / (weight.dims[1] as nat),
            0 <= o < weight.dims[0],
        ensures
            value(out.data[row * weight.dims[0] + o]) == (match bias {
                Some(bias) => value(bias.data[o]),
                None => 0,
            }) + exact::sum(
                weight.dims[1] as nat,
                |i: int|
                    value(input.data[row * weight.dims[1] + i]) * value(
                        weight.data[o * weight.dims[1] + i],
                    ),
            ),
    {
        let width = weight.dims[1] as nat;
        let taps = fold::run(row * weight.dims[1], o * weight.dims[1], width);
        exact::lemma_accumulates(
            self.mac,
            value,
            input.data,
            weight.data,
            taps,
            self.start(bias, o),
            out.data[row * weight.dims[0] + o],
        );
        exact::lemma_sum_same(
            width,
            |i: int| value(input.data[taps[i].0]) * value(weight.data[taps[i].1]),
            |i: int|
                value(input.data[row * weight.dims[1] + i]) * value(
                    weight.data[o * weight.dims[1] + i],
                ),
        );
    }

    /// A convolution layer, in exact arithmetic.
    pub proof fn a_layer_convolves_with_its_weights(
        self,
        value: spec_fn(T) -> int,
        input: Array<T>,
        weight: Array<T>,
        bias: Array<T>,
        stride: usize,
        padding: usize,
        out: Array<T>,
        n: int,
        oc: int,
        y: int,
        x: int,
    ) -> (g: Conv2d)
        requires
            exact::multiplies_and_adds(self.mac, value),
            self.convolves(input, weight, bias, stride, padding, out),
            layout::inside4(out.dims, n, oc, y, x),
        ensures
            g.input@ == input.dims,
            g.weight@ == weight.dims,
            g.stride@ == seq![stride, stride],
            g.padding@ == seq![padding, padding],
            g.dilation@ == seq![1usize, 1usize],
            g.groups == 1,
            weight.dims[1] == input.dims[1],
            out.dims.len() == 4,
            out.dims[0] == input.dims[0],
            out.dims[1] == weight.dims[0],
            out.dims[2] == (input.dims[2] + 2 * padding - weight.dims[2]) / stride as int + 1,
            out.dims[3] == (input.dims[3] + 2 * padding - weight.dims[3]) / stride as int + 1,
            value(
                out.data[((n * out.dims[1] + oc) * out.dims[2] + y) * out.dims[3] + x],
            ) == value(bias.data[oc]) + exact::sum(
                g.weight[1] as nat,
                |ic: int|
                    exact::sum(
                        g.weight[2] as nat,
                        |ky: int|
                            exact::sum(
                                g.weight[3] as nat,
                                |kx: int|
                                    contribution(
                                        value,
                                        input.data,
                                        weight.data,
                                        g,
                                        n,
                                        oc,
                                        y,
                                        x,
                                        ic,
                                        ky,
                                        kx,
                                    ),
                            ),
                    ),
            ),
    {
        let g = choose|g: Conv2d|
            {
                &&& #[trigger] g.wf()
                &&& g.input@ == input.dims
                &&& g.weight@ == weight.dims
                &&& g.stride == [stride, stride]
                &&& g.padding == [padding, padding]
                &&& g.dilation == [1usize, 1usize]
                &&& g.groups == 1
                &&& out.dims == g.out_dims()
                &&& forall|n: int, oc: int, y: int, x: int|
                    #![trigger g.window(n, oc, y, x)]
                    layout::inside4(g.out_dims(), n, oc, y, x) ==> fold::accumulates(
                        self.mac,
                        input.data,
                        weight.data,
                        g.window(n, oc, y, x),
                        bias.data[oc],
                        out.data[layout::offset4(g.out_dims(), n, oc, y, x)],
                    )
            };
        assert(g.stride[0] == stride && g.stride[1] == stride);
        assert(g.padding[0] == padding && g.padding[1] == padding);
        assert(g.dilation[0] == 1 && g.dilation[1] == 1);
        assert(g.input[2] == input.dims[2] && g.input[3] == input.dims[3]);
        assert(g.weight[2] == weight.dims[2] && g.weight[3] == weight.dims[3]);
        let (rows, columns) = (weight.dims[2] as int, weight.dims[3] as int);
        assert(1 * (rows - 1) + 1 == rows && 1 * (columns - 1) + 1 == columns)
            by (nonlinear_arith);
        assert(conv::extent(g.weight[2], g.dilation[0]) == rows);
        assert(conv::extent(g.weight[3], g.dilation[1]) == columns);
        assert(out.dims[2] == g.out_height && out.dims[3] == g.out_width);
        a_convolution_sums_what_its_kernel_covers(
            self.mac,
            value,
            g,
            input.data,
            weight.data,
            bias.data[oc],
            out.data[layout::offset4(g.out_dims(), n, oc, y, x)],
            n,
            oc,
            y,
            x,
        );
        g
    }

    /// Group normalization: 32 groups of channels that follow one another, each with its own
    /// statistics over all its channels and positions, and each element with the weight and the
    /// bias of its channel.
    pub proof fn groups_are_normalized_on_their_own(
        self,
        input: Array<T>,
        weight: Array<T>,
        bias: Array<T>,
        epsilon: u32,
        out: Array<T>,
        per: int,
        n: int,
        g: int,
    )
        requires
            self.normalizes_groups(input, weight, bias, epsilon, out),
            input.wf(),
            out.wf(),
            input.dims.len() == 4,
            input.dims[1] == 32 * per,
            0 <= n < input.dims[0],
            0 <= g < 32,
        ensures
            out.dims == input.dims,
            exists|values: &[T], s: S|
                {
                    let plane = input.dims[2] * input.dims[3];
                    let from = (n * 32 + g) * (per * plane);
                    &&& #[trigger] call_ensures(self.statistics, (values, epsilon), s)
                    &&& values@ == input.data.subrange(from, from + per * plane)
                    &&& forall|c: int, p: int|
                        #![trigger out.data[from + (c * plane + p)]]
                        0 <= c < per && 0 <= p < plane ==> call_ensures(
                            self.rescale,
                            (
                                input.data[from + (c * plane + p)],
                                s,
                                weight.data[g * per + c],
                                bias.data[g * per + c],
                            ),
                            out.data[from + (c * plane + p)],
                        )
                },
    {
        let plane = input.dims[2] * input.dims[3];
        let len = per * plane;
        let row = n * 32 + g;
        let from = row * len;
        let samples = input.dims[0] as int;
        let (height, width) = (input.dims[2] as int, input.dims[3] as int);
        layout::lemma_cell(n, samples, g, 32);
        layout::lemma_split(n, g, 32);
        layout::lemma_product_small(input.dims);
        assert(samples * (32 * per) * height * width == (samples * 32) * len) by (nonlinear_arith)
            requires
                len == per * plane,
                plane == height * width,
        ;
        assert(0 <= len) by (nonlinear_arith)
            requires
                len == per * plane,
                plane == height * width,
                per >= 0,
                height >= 0,
                width >= 0,
        ;
        assert(0 <= from && from + len <= (samples * 32) * len) by (nonlinear_arith)
            requires
                from == row * len,
                0 <= row < samples * 32,
                0 <= len,
        ;
        let x = norm::row_of(input.data, row, len);
        let y = norm::row_of(out.data, row, len);
        let w = norm::spread(weight.data, g * per, plane, len as nat);
        let b = norm::spread(bias.data, g * per, plane, len as nat);
        let own = input.dims[1] / GROUPS;
        assert(own == per && row % GROUPS as int == g);
        assert(own * plane == len) by (nonlinear_arith)
            requires
                own == per,
                len == per * plane,
        ;
        let first = (row % GROUPS as int) * own;
        assert(first == g * per) by (nonlinear_arith)
            requires
                own == per,
                row % GROUPS as int == g,
                first == (row % GROUPS as int) * own,
        ;
        assert(norm::row_of(out.data, row, own * plane) == y);
        assert(norm::normalized(self.statistics, self.rescale, epsilon, x, w, b, y));
        let (values, s) = choose|values: &[T], s: S|
            {
                &&& values@ == x
                &&& #[trigger] call_ensures(self.statistics, (values, epsilon), s)
                &&& forall|i: int|
                    0 <= i < x.len() ==> call_ensures(
                        self.rescale,
                        (x[i], s, w[i], b[i]),
                        #[trigger] y[i],
                    )
            };
        assert forall|c: int, p: int|
            #![trigger out.data[from + (c * plane + p)]]
            0 <= c < per && 0 <= p < plane implies call_ensures(
            self.rescale,
            (
                input.data[from + (c * plane + p)],
                s,
                weight.data[g * per + c],
                bias.data[g * per + c],
            ),
            out.data[from + (c * plane + p)],
        ) by {
            let i = c * plane + p;
            layout::lemma_cell(c, per, p, plane);
            layout::lemma_split(c, p, plane);
            assert(call_ensures(self.rescale, (x[i], s, w[i], b[i]), y[i]));
        }
    }

    /// Layer normalization: every row has its own statistics, and each element the weight and the
    /// bias of its column.
    pub proof fn rows_are_normalized_on_their_own(
        self,
        input: Array<T>,
        weight: Array<T>,
        bias: Array<T>,
        epsilon: u32,
        out: Array<T>,
        rows: int,
        row: int,
    )
        requires
            self.normalizes_rows(input, weight, bias, epsilon, out),
            input.dims.len() > 0,
            0 < input.dims.last(),
            input.data.len() == rows * input.dims.last(),
            out.data.len() == input.data.len(),
            0 <= row < rows,
        ensures
            out.dims == input.dims,
            exists|values: &[T], s: S|
                {
                    let width = input.dims.last() as int;
                    &&& #[trigger] call_ensures(self.statistics, (values, epsilon), s)
                    &&& values@ == input.data.subrange(row * width, row * width + width)
                    &&& forall|i: int|
                        #![trigger out.data[row * width + i]]
                        0 <= i < width ==> call_ensures(
                            self.rescale,
                            (input.data[row * width + i], s, weight.data[i], bias.data[i]),
                            out.data[row * width + i],
                        )
                },
    {
        let width = input.dims.last() as int;
        layout::lemma_cell(row, rows, 0, width);
        assert(rows * width == width * rows) by (nonlinear_arith);
        vstd::arithmetic::div_mod::lemma_div_multiples_vanish(rows, width);
        let x = norm::row_of(input.data, row, width);
        let y = norm::row_of(out.data, row, width);
        assert(norm::normalized(
            self.statistics,
            self.rescale,
            epsilon,
            x,
            weight.data,
            bias.data,
            y,
        ));
        let (values, s) = choose|values: &[T], s: S|
            {
                &&& values@ == x
                &&& #[trigger] call_ensures(self.statistics, (values, epsilon), s)
                &&& forall|i: int|
                    0 <= i < x.len() ==> call_ensures(
                        self.rescale,
                        (x[i], s, weight.data[i], bias.data[i]),
                        #[trigger] y[i],
                    )
            };
        assert forall|i: int|
            #![trigger out.data[row * width + i]]
            0 <= i < width implies call_ensures(
            self.rescale,
            (input.data[row * width + i], s, weight.data[i], bias.data[i]),
            out.data[row * width + i],
        ) by {
            assert(call_ensures(
                self.rescale,
                (x[i], s, weight.data[i], bias.data[i]),
                y[i],
            ));
        }
    }

    /// An enlarged image shows every element in a square of four.
    pub proof fn elements_become_squares_of_four(
        input: Array<T>,
        out: Array<T>,
        n: int,
        c: int,
        y: int,
        x: int,
        i: int,
        j: int,
    )
        requires
            Self::doubles(input, out),
            input.dims.len() == 4,
            input.dims[2] * 2 <= usize::MAX,
            input.dims[3] * 2 <= usize::MAX,
            0 <= n < input.dims[0],
            0 <= c < input.dims[1],
            0 <= y < input.dims[2],
            0 <= x < input.dims[3],
            0 <= i < 2,
            0 <= j < 2,
        ensures
            out.data[((n * input.dims[1] + c) * (2 * input.dims[2]) + (2 * y + i)) * (2
                * input.dims[3]) + (2 * x + j)] == input.data[((n * input.dims[1] + c)
                * input.dims[2] + y) * input.dims[3] + x],
    {
        let (a, b) = (2 * y + i, 2 * x + j);
        assert(layout::inside4(out.dims, n, c, a, b));
        assert(out.data[layout::offset4(out.dims, n, c, a, b)] == input.data[layout::offset4(
            input.dims,
            n,
            c,
            a / 2,
            b / 2,
        )]);
        assert(a / 2 == y && b / 2 == x);
        assert(out.dims[2] == 2 * input.dims[2] && out.dims[3] == 2 * input.dims[3]);
    }
}

} // verus!
