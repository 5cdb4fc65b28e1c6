//! Two-dimensional convolution.

use vstd::prelude::*;
use crate::fold;
use crate::layout;
use crate::tensor;
use crate::tensor::{nchw, Tensor};
use crate::tensor_error::{Quantity, TensorError, TensorFault};

verus! {

/// The extent a dilated kernel covers along one axis.
pub open spec fn extent(kernel: usize, dilation: usize) -> int {
    dilation * (kernel - 1) + 1
}

/// The extent of one axis with its padding on both sides.
pub open spec fn padded(size: usize, padding: usize) -> int {
    size + 2 * padding
}

/// The number of kernel positions along one axis.
pub open spec fn positions(
    size: usize,
    kernel: usize,
    stride: usize,
    padding: usize,
    dilation: usize,
) -> int {
    (padded(size, padding) - extent(kernel, dilation)) / stride as int + 1
}

/// Why a convolution refuses its arguments, if it does.
pub open spec fn conv2d_refusal(
    input: Seq<usize>,
    weight: Seq<usize>,
    bias: Option<Seq<usize>>,
    stride: [usize; 2],
    padding: [usize; 2],
    dilation: [usize; 2],
    groups: usize,
) -> Option<TensorFault> {
    if input.len() != 4 {
        Some(TensorFault::NotNchw { shape: input })
    } else if weight.len() != 4 {
        Some(TensorFault::ConvWeightRank { shape: weight })
    } else if groups == 0 || input[1] % groups != 0 || weight[0] % groups != 0 {
        Some(
            TensorFault::ConvGroups { groups, in_channels: input[1], out_channels: weight[0] },
        )
    } else if weight[1] != input[1] / groups {
        Some(TensorFault::ConvWeightChannels { actual: weight[1], expected: input[1] / groups })
    } else if stride[0] == 0 || stride[1] == 0 || dilation[0] == 0 || dilation[1] == 0 {
        Some(TensorFault::ConvZeroStep)
    } else if bias is Some && bias->0 != seq![weight[0]] {
        Some(TensorFault::ConvBias { shape: bias->0, out_channels: weight[0] })
    } else if extent(weight[2], dilation[0]) > usize::MAX {
        Some(TensorFault::Overflow(Quantity::KernelHeight))
    } else if extent(weight[3], dilation[1]) > usize::MAX {
        Some(TensorFault::Overflow(Quantity::KernelWidth))
    } else if padded(input[2], padding[0]) > usize::MAX {
        Some(TensorFault::Overflow(Quantity::PaddedHeight))
    } else if padded(input[3], padding[1]) > usize::MAX {
        Some(TensorFault::Overflow(Quantity::PaddedWidth))
    } else if padded(input[2], padding[0]) < extent(weight[2], dilation[0]) || padded(
        input[3],
        padding[1],
    ) < extent(weight[3], dilation[1]) {
        Some(TensorFault::ConvKernelTooLarge)
    } else {
        let out_height = positions(input[2], weight[2], stride[0], padding[0], dilation[0]);
        let out_width = positions(input[3], weight[3], stride[1], padding[1], dilation[1]);
        if out_height * out_width > usize::MAX {
            Some(TensorFault::Overflow(Quantity::ConvPlane))
        } else if input[0] * weight[0] * (out_height * out_width) > usize::MAX {
            Some(TensorFault::Overflow(Quantity::ConvOutput))
        } else {
            None
        }
    }
}

/// The shapes and steps of one convolution.
#[derive(Clone, Copy, Debug, PartialEq, Eq)]
pub struct Conv2d {
    pub input: [usize; 4],
    pub weight: [usize; 4],
    pub stride: [usize; 2],
    pub padding: [usize; 2],
    pub dilation: [usize; 2],
    pub groups: usize,
    pub out_height: usize,
    pub out_width: usize,
}

impl Conv2d {
    /// The shapes fit together and every size fits in a word.
    pub open spec fn wf(&self) -> bool {
        &&& tensor::valid_shape(self.input@)
        &&& tensor::valid_shape(self.weight@)
        &&& self.groups > 0
        &&& self.input[1] % self.groups == 0
        &&& self.weight[0] % self.groups == 0
        &&& self.weight[1] == self.input[1] / self.groups
        &&& self.axis_wf(0)
        &&& self.axis_wf(1)
        &&& self.out_height == positions(
            self.input[2],
            self.weight[2],
            self.stride[0],
            self.padding[0],
            self.dilation[0],
        )
        &&& self.out_width == positions(
            self.input[3],
            self.weight[3],
            self.stride[1],
            self.padding[1],
            self.dilation[1],
        )
        &&& tensor::valid_shape(self.out_dims())
    }

    /// One axis is set up so that every kernel position lies within the padded input.
    pub open spec fn axis_wf(&self, axis: int) -> bool {
        &&& self.stride[axis] > 0
        &&& self.dilation[axis] > 0
        &&& extent(self.weight[axis + 2], self.dilation[axis]) <= padded(
            self.input[axis + 2],
            self.padding[axis],
        ) <= usize::MAX
    }

    /// The shape of the output.
    pub open spec fn out_dims(&self) -> Seq<usize> {
        seq![self.input[0], self.weight[0], self.out_height, self.out_width]
    }

    /// The number of kernel cells that may contribute to one output element.
    pub open spec fn cells(&self) -> int {
        self.weight[1] * self.weight[2] * self.weight[3]
    }

    /// The input row, or column, under kernel cell `k` at output position `o`, counted from the
    /// edge of the padding.
    pub open spec fn under(&self, axis: int, o: int, k: int) -> int {
        o * self.stride[axis] + k * self.dilation[axis]
    }

    /// A position counted from the edge of the padding falls on the input.
    pub open spec fn on_input(&self, axis: int, at: int) -> bool {
        self.padding[axis] <= at < self.padding[axis] + self.input[axis + 2]
    }

    /// The input element and the weight that kernel cell `t` contributes to output element
    /// `(n, oc, y, x)`; none where the cell lies over the padding. Cells are numbered by input
    /// channel of the group, then kernel row, then kernel column.
    pub open spec fn tap(&self, n: int, oc: int, y: int, x: int, t: int) -> Option<(int, int)> {
        let kx = t % self.weight[3] as int;
        let ky = (t / self.weight[3] as int) % self.weight[2] as int;
        let ic = t / self.weight[3] as int / self.weight[2] as int;
        let group = oc / (self.weight[0] as int / self.groups as int);
        let at_y = self.under(0, y, ky);
        let at_x = self.under(1, x, kx);
        if self.on_input(0, at_y) && self.on_input(1, at_x) {
            Some(
                (
                    layout::offset4(
                        self.input@,
                        n,
                        group * self.weight[1] + ic,
                        at_y - self.padding[0],
                        at_x - self.padding[1],
                    ),
                    layout::offset4(self.weight@, oc, ic, ky, kx),
                ),
            )
        } else {
            None
        }
    }

    /// The contributions of the first `t` kernel cells, in order.
    pub open spec fn taps(&self, n: int, oc: int, y: int, x: int, t: nat) -> Seq<(int, int)>
        decreases t,
    {
        if t == 0 {
            Seq::empty()
        } else {
            let earlier = self.taps(n, oc, y, x, (t - 1) as nat);
            match self.tap(n, oc, y, x, t - 1) {
                Some(tap) => earlier.push(tap),
                None => earlier,
            }
        }
    }

    /// Everything that contributes to output element `(n, oc, y, x)`.
    pub open spec fn window(&self, n: int, oc: int, y: int, x: int) -> Seq<(int, int)> {
        self.taps(n, oc, y, x, self.cells() as nat)
    }

    /// What kernel cell `t` contributes to output element `(n, oc, y, x)`.
    pub fn tap_at(&self, n: usize, oc: usize, y: usize, x: usize, t: usize) -> (tap: Option<
        (usize, usize),
    >)
        requires
            self.wf(),
            layout::inside4(self.out_dims(), n as int, oc as int, y as int, x as int),
            t < self.cells(),
        ensures
            match self.tap(n as int, oc as int, y as int, x as int, t as int) {
                Some((i, j)) => {
                    &&& tap == Some((i as usize, j as usize))
                    &&& 0 <= i < layout::product(self.input@)
                    &&& 0 <= j < layout::product(self.weight@)
                },
                None => tap is None,
            },
    {
        let kernel_height: usize = self.weight[2];
        let kernel_width: usize = self.weight[3];
        let per_group: usize = self.weight[1];
        proof {
            layout::lemma_product_positive(self.weight@);
            layout::lemma_product_positive(self.input@);
            layout::lemma_divide(t as int, per_group * kernel_height, kernel_width as int);
            layout::lemma_divide(
                t as int / kernel_width as int,
                per_group as int,
                kernel_height as int,
            );
            lemma_group(*self, oc as int);
            lemma_under(*self, 0, y as int, (t / kernel_width) as int % kernel_height as int);
            lemma_under(*self, 1, x as int, t as int % kernel_width as int);
        }
        let kx: usize = t % kernel_width;
        let ky: usize = (t / kernel_width) % kernel_height;
        let ic: usize = t / kernel_width / kernel_height;
        let group: usize = oc / (self.weight[0] / self.groups);
        let at_y: usize = y * self.stride[0] + ky * self.dilation[0];
        if at_y < self.padding[0] || at_y - self.padding[0] >= self.input[2] {
            return None;
        }
        let at_x: usize = x * self.stride[1] + kx * self.dilation[1];
        if at_x < self.padding[1] || at_x - self.padding[1] >= self.input[3] {
            return None;
        }
        let in_y: usize = at_y - self.padding[0];
        let in_x: usize = at_x - self.padding[1];
        proof {
            layout::lemma_cell(group as int, self.groups as int, ic as int, per_group as int);
        }
        let channel: usize = group * per_group + ic;
        let i: usize = cell4(&self.input, n, channel, in_y, in_x);
        let j: usize = cell4(&self.weight, oc, ic, ky, kx);
        Some((i, j))
    }
}

/// The linear index of a cell of a rank-4 shape.
pub fn cell4(shape: &[usize; 4], a: usize, b: usize, c: usize, d: usize) -> (index: usize)
    requires
        layout::product(shape@) <= usize::MAX,
        layout::inside4(shape@, a as int, b as int, c as int, d as int),
    ensures
        index == layout::offset4(shape@, a as int, b as int, c as int, d as int),
        index < layout::product(shape@),
{
    proof {
        layout::lemma_offset4(shape@, a as int, b as int, c as int, d as int);
        let p = shape[1] as int;
        let q = shape[2] as int;
        let r = shape[3] as int;
        let row = a * p + b;
        let line = row * q + c;
        assert(0 <= a * p) by (nonlinear_arith)
            requires
                0 <= a,
                0 <= p,
        ;
        assert(row <= row * q) by (nonlinear_arith)
            requires
                0 <= row,
                1 <= q,
        ;
        assert(line <= line * r) by (nonlinear_arith)
            requires
                0 <= line,
                1 <= r,
        ;
    }
    ((a * shape[1] + b) * shape[2] + c) * shape[3] + d
}

/// The group of an output channel is one of the groups, and the groups' channels fill the input.
proof fn lemma_group(g: Conv2d, oc: int)
    requires
        g.wf(),
        0 <= oc < g.weight[0],
    ensures
        g.weight[0] / g.groups > 0,
        0 <= oc / (g.weight[0] as int / g.groups as int) < g.groups,
        g.groups * g.weight[1] == g.input[1],
{
    let groups = g.groups as int;
    let out = g.weight[0] as int;
    let per = out / groups;
    vstd::arithmetic::div_mod::lemma_fundamental_div_mod(out, groups);
    vstd::arithmetic::div_mod::lemma_fundamental_div_mod(g.input[1] as int, groups);
    assert(out == groups * per);
    assert(per > 0) by (nonlinear_arith)
        requires
            out == groups * per,
            out > 0,
            groups > 0,
    ;
    layout::lemma_divide(oc, groups, per);
}

/// Every kernel cell at every output position lies within the padded input.
proof fn lemma_under(g: Conv2d, axis: int, o: int, k: int)
    requires
        g.wf(),
        axis == 0 || axis == 1,
        0 <= o < g.out_dims()[axis + 2],
        0 <= k < g.weight[axis + 2],
    ensures
        0 <= o * g.stride[axis],
        0 <= k * g.dilation[axis],
        g.under(axis, o, k) < padded(g.input[axis + 2], g.padding[axis]) <= usize::MAX,
{
    let s = g.stride[axis] as int;
    let d = g.dilation[axis] as int;
    let kernel = g.weight[axis + 2] as int;
    let free = padded(g.input[axis + 2], g.padding[axis]) - extent(
        g.weight[axis + 2],
        g.dilation[axis],
    );
    let count = free / s + 1;
    assert(g.axis_wf(axis));
    assert(o < count);
    vstd::arithmetic::div_mod::lemma_fundamental_div_mod(free, s);
    assert(o * s <= (free / s) * s) by (nonlinear_arith)
        requires
            o <= free / s,
            s > 0,
    ;
    assert(s * (free / s) == (free / s) * s) by (nonlinear_arith);
    assert(k * d <= d * (kernel - 1)) by (nonlinear_arith)
        requires
            k <= kernel - 1,
            d > 0,
    ;
    assert(0 <= o * s) by (nonlinear_arith)
        requires
            0 <= o,
            0 < s,
    ;
    assert(0 <= k * d) by (nonlinear_arith)
        requires
            0 <= k,
            0 < d,
    ;
}

/// The extent of a dilated kernel, where it fits in a word.
fn checked_extent(kernel: usize, dilation: usize) -> (result: Option<usize>)
    requires
        kernel > 0,
    ensures
        match result {
            Some(value) => value == extent(kernel, dilation),
            None => extent(kernel, dilation) > usize::MAX,
        },
{
    match dilation.checked_mul(kernel - 1) {
        Some(value) => value.checked_add(1),
        None => None,
    }
}

/// The padded extent of an axis, where it fits in a word.
fn checked_padded(size: usize, padding: usize) -> (result: Option<usize>)
    ensures
        match result {
            Some(value) => value == padded(size, padding),
            None => padded(size, padding) > usize::MAX,
        },
{
    match padding.checked_mul(2) {
        Some(value) => size.checked_add(value),
        None => None,
    }
}

/// Checks a convolution's arguments and works out its sizes.
pub fn conv2d_geometry(
    input: &[usize],
    weight: &[usize],
    bias: Option<&[usize]>,
    stride: [usize; 2],
    padding: [usize; 2],
    dilation: [usize; 2],
    groups: usize,
) -> (result: Result<Conv2d, TensorError>)
    requires
        tensor::valid_shape(input@),
        tensor::valid_shape(weight@),
    ensures
        match conv2d_refusal(
            input@,
            weight@,
            match bias {
                Some(shape) => Some(shape@),
                None => None,
            },
            stride,
            padding,
            dilation,
            groups,
        ) {
            Some(fault) => result is Err && result->Err_0@ == fault,
            None => {
                &&& result matches Ok(geometry)
                &&& geometry.wf()
                &&& geometry.input@ == input@
                &&& geometry.weight@ == weight@
                &&& geometry.stride == stride
                &&& geometry.padding == padding
                &&& geometry.dilation == dilation
                &&& geometry.groups == groups
            },
        },
{
    let input_dims: [usize; 4] = match nchw(input) {
        Ok(dims) => dims,
        Err(error) => {
            return Err(error);
        },
    };
    if weight.len() != 4 {
        return Err(TensorError::ConvWeightRank { shape: vstd::slice::slice_to_vec(weight) });
    }
    let weight_dims: [usize; 4] = [weight[0], weight[1], weight[2], weight[3]];
    assert(weight_dims@ =~= weight@);
    let in_channels: usize = input_dims[1];
    let out_channels: usize = weight_dims[0];
    if groups == 0 || in_channels % groups != 0 || out_channels % groups != 0 {
        return Err(TensorError::ConvGroups { groups, in_channels, out_channels });
    }
    if weight_dims[1] != in_channels / groups {
        return Err(
            TensorError::ConvWeightChannels {
                actual: weight_dims[1],
                expected: in_channels / groups,
            },
        );
    }
    if stride[0] == 0 || stride[1] == 0 || dilation[0] == 0 || dilation[1] == 0 {
        return Err(TensorError::ConvZeroStep);
    }
    if let Some(bias) = bias {
        if bias.len() != 1 || bias[0] != out_channels {
            proof {
                assert(bias@ != seq![out_channels]);
            }
            return Err(
                TensorError::ConvBias { shape: vstd::slice::slice_to_vec(bias), out_channels },
            );
        }
        assert(bias@ =~= seq![out_channels]);
    }
    proof {
        layout::lemma_product_positive(input@);
        layout::lemma_product_positive(weight@);
    }
    let kernel_height: usize = match checked_extent(weight_dims[2], dilation[0]) {
        Some(value) => value,
        None => {
            return Err(TensorError::Overflow(Quantity::KernelHeight));
        },
    };
    let kernel_width: usize = match checked_extent(weight_dims[3], dilation[1]) {
        Some(value) => value,
        None => {
            return Err(TensorError::Overflow(Quantity::KernelWidth));
        },
    };
    let padded_height: usize = match checked_padded(input_dims[2], padding[0]) {
        Some(value) => value,
        None => {
            return Err(TensorError::Overflow(Quantity::PaddedHeight));
        },
    };
    let padded_width: usize = match checked_padded(input_dims[3], padding[1]) {
        Some(value) => value,
        None => {
            return Err(TensorError::Overflow(Quantity::PaddedWidth));
        },
    };
    if padded_height < kernel_height || padded_width < kernel_width {
        return Err(TensorError::ConvKernelTooLarge);
    }
    proof {
        let free = padded_height - kernel_height;
        let s = stride[0] as int;
        assert(0 <= free / s <= free) by (nonlinear_arith)
            requires
                s > 0,
                free >= 0,
        ;
        let free = padded_width - kernel_width;
        let s = stride[1] as int;
        assert(0 <= free / s <= free) by (nonlinear_arith)
            requires
                s > 0,
                free >= 0,
        ;
        lemma_extent_positive(weight_dims[2], dilation[0]);
        lemma_extent_positive(weight_dims[3], dilation[1]);
    }
    let out_height: usize = (padded_height - kernel_height) / stride[0] + 1;
    let out_width: usize = (padded_width - kernel_width) / stride[1] + 1;
    let plane: usize = match out_height.checked_mul(out_width) {
        Some(value) => value,
        None => {
            return Err(TensorError::Overflow(Quantity::ConvPlane));
        },
    };
    let ghost planes = input_dims[0] * out_channels;
    proof {
        assert(plane > 0) by (nonlinear_arith)
            requires
                plane == out_height * out_width,
                out_height > 0,
                out_width > 0,
        ;
        assert(planes > 0) by (nonlinear_arith)
            requires
                planes == input_dims[0] * out_channels,
                input_dims[0] > 0,
                out_channels > 0,
        ;
        assert(planes * plane >= planes) by (nonlinear_arith)
            requires
                plane > 0,
                planes > 0,
        ;
    }
    let planes: usize = match input_dims[0].checked_mul(out_channels) {
        Some(value) => value,
        None => {
            return Err(TensorError::Overflow(Quantity::ConvOutput));
        },
    };
    if planes.checked_mul(plane).is_none() {
        return Err(TensorError::Overflow(Quantity::ConvOutput));
    }
    let geometry = Conv2d {
        input: input_dims,
        weight: weight_dims,
        stride,
        padding,
        dilation,
        groups,
        out_height,
        out_width,
    };
    proof {
        layout::lemma_product_small(geometry.out_dims());
        assert(planes * out_height * out_width == planes * (out_height * out_width))
            by (nonlinear_arith);
        assert(planes * plane > 0) by (nonlinear_arith)
            requires
                planes > 0,
                plane > 0,
        ;
        assert(geometry.axis_wf(0));
        assert(geometry.axis_wf(1));
    }
    Ok(geometry)
}

proof fn lemma_extent_positive(kernel: usize, dilation: usize)
    requires
        kernel > 0,
    ensures
        extent(kernel, dilation) >= 1,
{
    assert(dilation * (kernel - 1) >= 0) by (nonlinear_arith)
        requires
            kernel >= 1,
            dilation >= 0,
    ;
}

impl<T: Copy> Tensor<T> {
    /// NCHW convolution with OIHW weights and symmetric zero padding.
    pub fn conv2d<F: Fn(T, T, T) -> T>(
        &self,
        weight: &Self,
        bias: Option<&Self>,
        stride: [usize; 2],
        padding: [usize; 2],
        dilation: [usize; 2],
        groups: usize,
        zero: T,
        mac: F,
    ) -> (result: Result<Self, TensorError>)
        requires
            self.wf(),
            weight.wf(),
            bias is Some ==> bias->0.wf(),
            fold::total3(mac),
        ensures
            match conv2d_refusal(
                self.dims(),
                weight.dims(),
                tensor::optional_dims(bias),
                stride,
                padding,
                dilation,
                groups,
            ) {
                Some(fault) => result is Err && result->Err_0@ == fault,
                None => exists|g: Conv2d|
                    {
                        &&& #[trigger] g.wf()
                        &&& g.input@ == self.dims()
                        &&& g.weight@ == weight.dims()
                        &&& g.stride == stride
                        &&& g.padding == padding
                        &&& g.dilation == dilation
                        &&& g.groups == groups
                        &&& result is Ok
                        &&& result->Ok_0.wf()
                        &&& result->Ok_0.dims() == g.out_dims()
                        &&& forall|n: int, oc: int, y: int, x: int|
                            #![trigger g.window(n, oc, y, x)]
                            layout::inside4(g.out_dims(), n, oc, y, x) ==> fold::accumulates(
                                mac,
                                self@,
                                weight@,
                                g.window(n, oc, y, x),
                                tensor::start_value(bias, oc, zero),
                                result->Ok_0@[layout::offset4(g.out_dims(), n, oc, y, x)],
                            )
                    },
            },
    {
        let bias_shape: Option<&[usize]> = match bias {
            Some(tensor) => Some(tensor.shape()),
            None => None,
        };
        let g = match conv2d_geometry(
            self.shape(),
            weight.shape(),
            bias_shape,
            stride,
            padding,
            dilation,
            groups,
        ) {
            Ok(geometry) => geometry,
            Err(error) => {
                return Err(error);
            },
        };
        let out_channels: usize = g.weight[0];
        let out_height: usize = g.out_height;
        let out_width: usize = g.out_width;
        let ghost dims = g.out_dims();
        proof {
            layout::lemma_product_small(dims);
            layout::lemma_product_small(weight.dims());
            layout::lemma_product_positive(dims);
            layout::lemma_product_positive(weight.dims());
            if bias is Some {
                layout::lemma_product_small(bias->0.dims());
            }
            lemma_output_sizes(g);
        }
        let cells: usize = g.weight[1] * g.weight[2] * g.weight[3];
        let len: usize = g.input[0] * out_channels * out_height * out_width;
        let mut data: Vec<T> = Vec::with_capacity(len);
        let mut k: usize = 0;
        while k < len
            invariant
                k == data@.len() <= len,
                len == layout::product(dims),
                dims == g.out_dims(),
                out_channels == g.weight[0],
                out_height == g.out_height,
                out_width == g.out_width,
                cells == g.cells(),
                g.wf(),
                self@.len() == layout::product(g.input@),
                weight@.len() == layout::product(g.weight@),
                bias is Some ==> bias->0@.len() == out_channels,
                fold::total3(mac),
                forall|j: int|
                    0 <= j < k ==> ({
                        let (n, oc, y, x) = layout::coord4(dims, j);
                        fold::accumulates(
                            mac,
                            self@,
                            weight@,
                            g.window(n, oc, y, x),
                            tensor::start_value(bias, oc, zero),
                            #[trigger] data@[j],
                        )
                    }),
            decreases len - k,
        {
            proof {
                layout::lemma_coord4(dims, k as int);
                layout::lemma_product_positive(dims);
            }
            let x: usize = k % out_width;
            let y: usize = (k / out_width) % out_height;
            let oc: usize = (k / out_width / out_height) % out_channels;
            let n: usize = k / out_width / out_height / out_channels;
            let start: T = match bias {
                Some(tensor) => tensor.data()[oc],
                None => zero,
            };
            let mut total: T = start;
            let mut t: usize = 0;
            while t < cells
                invariant
                    t <= cells == g.cells(),
                    g.wf(),
                    layout::inside4(g.out_dims(), n as int, oc as int, y as int, x as int),
                    self@.len() == layout::product(g.input@),
                    weight@.len() == layout::product(g.weight@),
                    fold::total3(mac),
                    fold::accumulates(
                        mac,
                        self@,
                        weight@,
                        g.taps(n as int, oc as int, y as int, x as int, t as nat),
                        start,
                        total,
                    ),
                decreases cells - t,
            {
                let ghost partial = total;
                match g.tap_at(n, oc, y, x, t) {
                    Some((i, j)) => {
                        total = mac(total, self.data()[i], weight.data()[j]);
                        proof {
                            fold::lemma_accumulates_push(
                                mac,
                                self@,
                                weight@,
                                g.taps(n as int, oc as int, y as int, x as int, t as nat),
                                (i as int, j as int),
                                start,
                                partial,
                                total,
                            );
                        }
                    },
                    None => {},
                }
                t = t + 1;
            }
            data.push(total);
            k = k + 1;
        }
        let shape: Vec<usize> = vec![g.input[0], out_channels, out_height, out_width];
        proof {
            assert(shape@ =~= dims);
            assert forall|n: int, oc: int, y: int, x: int|
                #![trigger g.window(n, oc, y, x)]
                layout::inside4(dims, n, oc, y, x) implies fold::accumulates(
                mac,
                self@,
                weight@,
                g.window(n, oc, y, x),
                tensor::start_value(bias, oc, zero),
                data@[layout::offset4(dims, n, oc, y, x)],
            ) by {
                layout::lemma_offset4(dims, n, oc, y, x);
                assert(layout::coord4(dims, layout::offset4(dims, n, oc, y, x)) == (n, oc, y, x));
            }
        }
        let out = Tensor::from_parts(shape, data);
        assert(g.wf());
        Ok(out)
    }
}

/// The products the convolution loop computes fit in a word.
proof fn lemma_output_sizes(g: Conv2d)
    requires
        g.wf(),
    ensures
        g.input[0] * g.weight[0] <= usize::MAX,
        g.input[0] * g.weight[0] * g.out_height <= usize::MAX,
        g.input[0] * g.weight[0] * g.out_height * g.out_width == layout::product(g.out_dims()),
        g.weight[1] * g.weight[2] <= usize::MAX,
        g.cells() <= usize::MAX,
{
    let dims = g.out_dims();
    layout::lemma_product_small(dims);
    layout::lemma_product_prefix(dims, 2);
    layout::lemma_product_prefix(dims, 3);
    layout::lemma_product_small(dims.take(2));
    layout::lemma_product_small(dims.take(3));
    layout::lemma_product_small(g.weight@);
    layout::lemma_product_positive(g.weight@);
    let a = g.weight[0] as int;
    let b = g.weight[1] * g.weight[2];
    let c = g.weight[3] as int;
    assert(a * g.weight[1] * g.weight[2] * c == a * (b * c)) by (nonlinear_arith)
        requires
            b == g.weight[1] * g.weight[2],
    ;
    assert(b > 0) by (nonlinear_arith)
        requires
            b == g.weight[1] * g.weight[2],
            g.weight[1] > 0,
            g.weight[2] > 0,
    ;
    assert(b <= b * c && b * c <= a * (b * c)) by (nonlinear_arith)
        requires
            a > 0,
            b > 0,
            c > 0,
    ;
}

} // verus!
