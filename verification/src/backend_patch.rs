//! Videos as patches, and patches as videos, for the scalar backend.

use vstd::prelude::*;
use crate::backend;
use crate::backend::{DeviceTensor, ScalarBackend};
use crate::backend_error::{BackendError, BackendFault, Owned};
use crate::backend_time;
use crate::backend_time::{owned, require_tensor};
use crate::conv::cell4;
use crate::layout;
use crate::reshape::Array;

verus! {

/// Three lengths: of time, of height and of width.
pub type Extent = (usize, usize, usize);

/// The product of three lengths.
pub open spec fn volume(extent: Extent) -> int {
    extent.0 * extent.1 * extent.2
}

/// Three lengths as a shape.
pub open spec fn shape_of(extent: Extent) -> Seq<usize> {
    seq![extent.0, extent.1, extent.2]
}

/// The number of patches along each axis.
pub open spec fn grid(extent: Extent, patch: Extent) -> Extent {
    (extent.0 / patch.0, extent.1 / patch.1, extent.2 / patch.2)
}

/// No length of the patch is zero, and each divides the length of the video.
pub open spec fn divides(patch: Extent, extent: Extent) -> bool {
    &&& patch.0 != 0 && patch.1 != 0 && patch.2 != 0
    &&& extent.0 % patch.0 == 0 && extent.1 % patch.1 == 0 && extent.2 % patch.2 == 0
}

/// The lengths of a video of channels, time, height and width.
pub open spec fn extent_of(dims: Seq<usize>) -> Extent {
    (dims[1], dims[2], dims[3])
}

/// Why a video is not cut into patches, if it is not.
pub open spec fn patch_fault(dims: Seq<usize>, patch: Extent) -> Option<BackendFault> {
    if dims.len() != 4 {
        Some(BackendFault::PatchRank)
    } else if !divides(patch, extent_of(dims)) {
        Some(BackendFault::PatchDims)
    } else {
        None
    }
}

/// The place in a video of an element of a patch.
pub open spec fn patch_place(dims: Seq<usize>, patch: Extent, k: int) -> int {
    let feature = dims[0] * volume(patch);
    let token = layout::coord3(shape_of(grid(extent_of(dims), patch)), k / feature);
    let inner = layout::coord3(shape_of(patch), (k % feature) % volume(patch));
    layout::offset4(
        dims,
        (k % feature) / volume(patch),
        token.0 * patch.0 + inner.0,
        token.1 * patch.1 + inner.1,
        token.2 * patch.2 + inner.2,
    )
}

/// A video as patches: one row for each patch, channel by channel.
pub open spec fn patchified<T>(input: Array<T>, patch: Extent) -> Array<T> {
    Array {
        dims: seq![
            volume(grid(extent_of(input.dims), patch)) as usize,
            (input.dims[0] * volume(patch)) as usize,
        ],
        data: Seq::new(input.data.len(), |k: int| input.data[patch_place(input.dims, patch, k)]),
    }
}

/// Why patches are not put together to a video, if they are not.
pub open spec fn unpatch_fault(
    dims: Seq<usize>,
    channels: usize,
    extent: Extent,
    patch: Extent,
) -> Option<BackendFault> {
    if dims.len() != 2 {
        Some(BackendFault::UnpatchRank)
    } else if channels == 0 || !divides(patch, extent) {
        Some(BackendFault::UnpatchDims)
    } else if dims[0] != volume(grid(extent, patch)) || dims[1] != channels * volume(patch) {
        Some(BackendFault::UnpatchShape)
    } else {
        None
    }
}

/// The place in rows of patches of an element of a video; the channels of an element of a patch
/// stand side by side.
pub open spec fn video_place(channels: usize, extent: Extent, patch: Extent, k: int) -> int {
    let (c, t, h, w) = layout::coord4(seq![channels, extent.0, extent.1, extent.2], k);
    let token = layout::offset3(
        shape_of(grid(extent, patch)),
        t / patch.0 as int,
        h / patch.1 as int,
        w / patch.2 as int,
    );
    let inner = layout::offset3(
        shape_of(patch),
        t % patch.0 as int,
        h % patch.1 as int,
        w % patch.2 as int,
    );
    (token * volume(patch) + inner) * channels + c
}

/// Patches put together to a video.
pub open spec fn unpatchified<T>(
    input: Array<T>,
    channels: usize,
    extent: Extent,
    patch: Extent,
) -> Array<T> {
    Array {
        dims: seq![channels, extent.0, extent.1, extent.2],
        data: Seq::new(
            input.data.len(),
            |k: int| input.data[video_place(channels, extent, patch, k)],
        ),
    }
}

/// A length divided by a divisor.
proof fn lemma_axis(length: usize, part: usize)
    requires
        part != 0,
        length % part == 0,
        0 < length,
    ensures
        0 < length / part,
        (length / part) * part == length,
        part <= length,
{
    vstd::arithmetic::div_mod::lemma_fundamental_div_mod(length as int, part as int);
    let count = (length / part) as int;
    assert(part * count == count * part) by (nonlinear_arith);
    assert(count > 0) by (nonlinear_arith)
        requires
            count * part == length,
            length > 0,
            part > 0,
            count >= 0,
    ;
    assert(part <= length) by (nonlinear_arith)
        requires
            count * part == length,
            count >= 1,
            part > 0,
    ;
}

/// The numbers of patches and of their elements.
proof fn lemma_volumes(channels: usize, extent: Extent, patch: Extent)
    requires
        0 < channels,
        0 < extent.0,
        0 < extent.1,
        0 < extent.2,
        divides(patch, extent),
    ensures
        0 < volume(patch) <= volume(extent),
        0 < volume(grid(extent, patch)) <= volume(extent),
        volume(grid(extent, patch)) * volume(patch) == volume(extent),
        volume(grid(extent, patch)) * (channels * volume(patch)) == channels * volume(extent),
        volume(extent) <= channels * volume(extent),
        channels * volume(patch) <= channels * volume(extent),
        patch.0 * patch.1 <= volume(patch),
        grid(extent, patch).0 * grid(extent, patch).1 <= volume(grid(extent, patch)),
{
    lemma_axis(extent.0, patch.0);
    lemma_axis(extent.1, patch.1);
    lemma_axis(extent.2, patch.2);
    let (a, b, c) = (patch.0 as int, patch.1 as int, patch.2 as int);
    let g = grid(extent, patch);
    let (x, y, z) = (g.0 as int, g.1 as int, g.2 as int);
    let p = a * b * c;
    let q = x * y * z;
    assert(p > 0 && a * b <= p) by (nonlinear_arith)
        requires
            p == a * b * c,
            a > 0,
            b > 0,
            c > 0,
    ;
    assert(q > 0 && x * y <= q) by (nonlinear_arith)
        requires
            q == x * y * z,
            x > 0,
            y > 0,
            z > 0,
    ;
    let e = volume(extent);
    assert(q * p == (x * a) * (y * b) * (z * c)) by (nonlinear_arith)
        requires
            p == a * b * c,
            q == x * y * z,
    ;
    assert(p <= q * p && q <= q * p) by (nonlinear_arith)
        requires
            p > 0,
            q > 0,
    ;
    let n = channels as int;
    assert(q * (n * p) == n * (q * p)) by (nonlinear_arith);
    assert(e <= n * e && n * p <= n * e) by (nonlinear_arith)
        requires
            n >= 1,
            0 < p <= e,
    ;
}

/// The place of an element of a patch lies in the video.
proof fn lemma_patch_place(dims: Seq<usize>, patch: Extent, k: int)
    requires
        dims.len() == 4,
        0 < layout::product(dims) <= usize::MAX,
        divides(patch, extent_of(dims)),
        0 <= k < layout::product(dims),
    ensures
        ({
            let feature = dims[0] * volume(patch);
            let token = layout::coord3(shape_of(grid(extent_of(dims), patch)), k / feature);
            let inner = layout::coord3(shape_of(patch), (k % feature) % volume(patch));
            &&& layout::inside4(
                dims,
                (k % feature) / volume(patch),
                token.0 * patch.0 + inner.0,
                token.1 * patch.1 + inner.1,
                token.2 * patch.2 + inner.2,
            )
            &&& 0 <= token.0 * patch.0
            &&& 0 <= token.1 * patch.1
            &&& 0 <= token.2 * patch.2
            &&& 0 <= k / feature < volume(grid(extent_of(dims), patch))
            &&& 0 <= k % feature < feature
        }),
{
    layout::lemma_product_positive(dims);
    layout::lemma_product_small(dims);
    let extent = extent_of(dims);
    lemma_volumes(dims[0], extent, patch);
    let n = dims[0] as int;
    let feature = n * volume(patch);
    let g = grid(extent, patch);
    assert(n * extent.0 * extent.1 * extent.2 == n * volume(extent)) by (nonlinear_arith)
        requires
            volume(extent) == extent.0 * extent.1 * extent.2,
    ;
    assert(feature > 0) by (nonlinear_arith)
        requires
            feature == n * volume(patch),
            n > 0,
            volume(patch) > 0,
    ;
    layout::lemma_divide(k, volume(g), feature);
    layout::lemma_divide(k % feature, n, volume(patch));
    layout::lemma_product_small(shape_of(g));
    layout::lemma_product_small(shape_of(patch));
    layout::lemma_coord3(shape_of(g), k / feature);
    layout::lemma_coord3(shape_of(patch), (k % feature) % volume(patch));
    let token = layout::coord3(shape_of(g), k / feature);
    let inner = layout::coord3(shape_of(patch), (k % feature) % volume(patch));
    lemma_axis(extent.0, patch.0);
    lemma_axis(extent.1, patch.1);
    lemma_axis(extent.2, patch.2);
    layout::lemma_cell(token.0, g.0 as int, inner.0, patch.0 as int);
    layout::lemma_cell(token.1, g.1 as int, inner.1, patch.1 as int);
    layout::lemma_cell(token.2, g.2 as int, inner.2, patch.2 as int);
}

/// The place of an element of a video lies in the rows of patches.
proof fn lemma_video_place(channels: usize, extent: Extent, patch: Extent, k: int)
    requires
        0 < channels,
        0 < extent.0,
        0 < extent.1,
        0 < extent.2,
        divides(patch, extent),
        channels * volume(extent) <= usize::MAX,
        0 <= k < channels * volume(extent),
    ensures
        ({
            let (c, t, h, w) = layout::coord4(seq![channels, extent.0, extent.1, extent.2], k);
            let g = shape_of(grid(extent, patch));
            let token = layout::offset3(
                g,
                t / patch.0 as int,
                h / patch.1 as int,
                w / patch.2 as int,
            );
            let inner = layout::offset3(
                shape_of(patch),
                t % patch.0 as int,
                h % patch.1 as int,
                w % patch.2 as int,
            );
            &&& 0 <= c < channels && 0 <= t < extent.0 && 0 <= h < extent.1 && 0 <= w < extent.2
            &&& layout::inside3(g, t / patch.0 as int, h / patch.1 as int, w / patch.2 as int)
            &&& layout::inside3(
                shape_of(patch),
                t % patch.0 as int,
                h % patch.1 as int,
                w % patch.2 as int,
            )
            &&& 0 <= token < volume(grid(extent, patch))
            &&& 0 <= inner < volume(patch)
            &&& 0 <= token * volume(patch)
            &&& 0 <= token * volume(patch) + inner < volume(extent)
            &&& 0 <= (token * volume(patch) + inner) * channels
            &&& video_place(channels, extent, patch, k) < channels * volume(extent)
        }),
{
    let dims = seq![channels, extent.0, extent.1, extent.2];
    layout::lemma_product_small(dims);
    let n = channels as int;
    assert(n * extent.0 * extent.1 * extent.2 == n * volume(extent)) by (nonlinear_arith)
        requires
            volume(extent) == extent.0 * extent.1 * extent.2,
    ;
    layout::lemma_coord4(dims, k);
    let (c, t, h, w) = layout::coord4(dims, k);
    lemma_volumes(channels, extent, patch);
    lemma_axis(extent.0, patch.0);
    lemma_axis(extent.1, patch.1);
    lemma_axis(extent.2, patch.2);
    let g = grid(extent, patch);
    layout::lemma_divide(t, g.0 as int, patch.0 as int);
    layout::lemma_divide(h, g.1 as int, patch.1 as int);
    layout::lemma_divide(w, g.2 as int, patch.2 as int);
    layout::lemma_product_small(shape_of(g));
    layout::lemma_product_small(shape_of(patch));
    layout::lemma_offset3(
        shape_of(g),
        t / patch.0 as int,
        h / patch.1 as int,
        w / patch.2 as int,
    );
    layout::lemma_offset3(
        shape_of(patch),
        t % patch.0 as int,
        h % patch.1 as int,
        w % patch.2 as int,
    );
    let token = layout::offset3(
        shape_of(g),
        t / patch.0 as int,
        h / patch.1 as int,
        w / patch.2 as int,
    );
    let inner = layout::offset3(
        shape_of(patch),
        t % patch.0 as int,
        h % patch.1 as int,
        w % patch.2 as int,
    );
    layout::lemma_cell(token, volume(g), inner, volume(patch));
    layout::lemma_cell(token * volume(patch) + inner, volume(extent), c, n);
    assert(volume(extent) * n == n * volume(extent)) by (nonlinear_arith);
}

impl ScalarBackend {
    /// Cuts a video into patches.
    pub fn patchify_device<T: Copy>(&self, input: &DeviceTensor<T>, patch: Extent) -> (result: Result<
        DeviceTensor<T>,
        BackendError,
    >)
        requires
            input.wf(),
        ensures
            match backend_time::either(
                backend::owner_fault(Owned::Tensor, input.backend),
                patch_fault(input.array().dims, patch),
            ) {
                Some(fault) => result is Err && result->Err_0@ == fault,
                None => backend_time::gives(result, patchified(input.array(), patch)),
            },
    {
        match require_tensor(input) {
            Ok(_) => {},
            Err(error) => {
                return Err(error);
            },
        }
        let shape = input.tensor.shape();
        assert(shape@.len() == shape.len());
        if shape.len() != 4 {
            return Err(BackendError::PatchRank);
        }
        let (patch_time, patch_height, patch_width) = patch;
        if patch_time == 0 || patch_height == 0 || patch_width == 0 || shape[1] % patch_time != 0
            || shape[2] % patch_height != 0 || shape[3] % patch_width != 0 {
            return Err(BackendError::PatchDims);
        }
        let dims: [usize; 4] = [shape[0], shape[1], shape[2], shape[3]];
        let ghost extent = extent_of(shape@);
        proof {
            assert(dims@ =~= shape@);
            layout::lemma_product_positive(shape@);
            layout::lemma_product_small(shape@);
            lemma_volumes(shape@[0], extent, patch);
            let n = shape@[0] as int;
            assert(n * extent.0 * extent.1 * extent.2 == n * volume(extent)) by (nonlinear_arith)
                requires
                    volume(extent) == extent.0 * extent.1 * extent.2,
            ;
        }
        let token_height: usize = shape[2] / patch_height;
        let token_width: usize = shape[3] / patch_width;
        let token_time: usize = shape[1] / patch_time;
        let patch_volume: usize = patch_time * patch_height * patch_width;
        let feature: usize = shape[0] * patch_volume;
        let tokens: usize = token_time * token_height * token_width;
        let len: usize = input.tensor.len();
        let data = input.tensor.data();
        let mut out: Vec<T> = Vec::with_capacity(len);
        let mut k: usize = 0;
        while k < len
            invariant
                k == out@.len() <= len,
                len == layout::product(dims@),
                len <= usize::MAX,
                0 < len,
                dims@ == input.array().dims,
                divides(patch, extent_of(dims@)),
                patch == (patch_time, patch_height, patch_width),
                token_height == grid(extent_of(dims@), patch).1,
                token_width == grid(extent_of(dims@), patch).2,
                token_time == grid(extent_of(dims@), patch).0,
                patch_volume == volume(patch),
                feature == dims@[0] * volume(patch),
                data@ == input.array().data,
                data@.len() == len,
                forall|j: int|
                    0 <= j < k ==> #[trigger] out@[j] == data@[patch_place(dims@, patch, j)],
            decreases len - k,
        {
            proof {
                lemma_patch_place(dims@, patch, k as int);
                layout::lemma_product_positive(dims@);
                lemma_volumes(dims@[0], extent_of(dims@), patch);
                lemma_axis(dims@[1], patch_time);
                lemma_axis(dims@[2], patch_height);
                lemma_axis(dims@[3], patch_width);
                assert(feature > 0) by (nonlinear_arith)
                    requires
                        feature == dims@[0] * patch_volume,
                        dims@[0] > 0,
                        patch_volume > 0,
                ;
            }
            let token: usize = k / feature;
            let rest: usize = k % feature;
            let channel: usize = rest / patch_volume;
            let index: usize = rest % patch_volume;
            let t: usize = token / token_width / token_height * patch_time + index / patch_width
                / patch_height;
            let h: usize = (token / token_width) % token_height * patch_height + (index
                / patch_width) % patch_height;
            let w: usize = token % token_width * patch_width + index % patch_width;
            out.push(data[cell4(&dims, channel, t, h, w)]);
            k = k + 1;
        }
        let out_shape: Vec<usize> = vec![tokens, feature];
        proof {
            assert(out_shape@ =~= patchified(input.array(), patch).dims);
            layout::lemma_product_small(out_shape@);
            assert(out@ =~= patchified(input.array(), patch).data);
        }
        Ok(owned(out_shape, out))
    }

    /// Puts patches together to a video.
    pub fn unpatchify_device<T: Copy>(
        &self,
        input: &DeviceTensor<T>,
        output_channels: usize,
        output: Extent,
        patch: Extent,
    ) -> (result: Result<DeviceTensor<T>, BackendError>)
        requires
            input.wf(),
            divides(patch, output) ==> output_channels * volume(output) <= usize::MAX
                && output_channels * volume(patch) <= usize::MAX && volume(patch) <= usize::MAX
                && volume(output) <= usize::MAX && patch.0 * patch.1 <= usize::MAX && grid(
                output,
                patch,
            ).0 * grid(output, patch).1 <= usize::MAX && volume(grid(output, patch))
                <= usize::MAX,
        ensures
            match backend_time::either(
                backend::owner_fault(Owned::Tensor, input.backend),
                unpatch_fault(input.array().dims, output_channels, output, patch),
            ) {
                Some(fault) => result is Err && result->Err_0@ == fault,
                None => backend_time::gives(
                    result,
                    unpatchified(input.array(), output_channels, output, patch),
                ),
            },
    {
        match require_tensor(input) {
            Ok(_) => {},
            Err(error) => {
                return Err(error);
            },
        }
        let shape = input.tensor.shape();
        assert(shape@.len() == shape.len());
        if shape.len() != 2 {
            return Err(BackendError::UnpatchRank);
        }
        let (time, height, width) = output;
        let (patch_time, patch_height, patch_width) = patch;
        if output_channels == 0 || patch_time == 0 || patch_height == 0 || patch_width == 0 || time
            % patch_time != 0 || height % patch_height != 0 || width % patch_width != 0 {
            return Err(BackendError::UnpatchDims);
        }
        let patch_volume: usize = patch_time * patch_height * patch_width;
        let token_time: usize = time / patch_time;
        let token_height: usize = height / patch_height;
        let token_width: usize = width / patch_width;
        if shape[0] != token_time * token_height * token_width || shape[1] != output_channels
            * patch_volume {
            return Err(BackendError::UnpatchShape);
        }
        proof {
            layout::lemma_product_positive(shape@);
            layout::lemma_product_small(shape@);
            let g = grid(output, patch);
            let (x, y, z) = (g.0 as int, g.1 as int, g.2 as int);
            assert(x > 0 && y > 0 && z > 0) by (nonlinear_arith)
                requires
                    x * y * z > 0,
                    x >= 0,
                    y >= 0,
                    z >= 0,
            ;
            assert(time > 0 && height > 0 && width > 0) by {
                if time == 0 {
                    assert(time / patch_time == 0);
                }
                if height == 0 {
                    assert(height / patch_height == 0);
                }
                if width == 0 {
                    assert(width / patch_width == 0);
                }
            }
            lemma_volumes(output_channels, output, patch);
        }
        let len: usize = input.tensor.len();
        let data = input.tensor.data();
        let mut out: Vec<T> = Vec::with_capacity(len);
        let mut k: usize = 0;
        while k < len
            invariant
                k == out@.len() <= len,
                len == output_channels * volume(output),
                len <= usize::MAX,
                0 < output_channels,
                0 < time,
                0 < height,
                0 < width,
                output == (time, height, width),
                patch == (patch_time, patch_height, patch_width),
                divides(patch, output),
                token_height == grid(output, patch).1,
                token_width == grid(output, patch).2,
                patch_volume == volume(patch),
                data@ == input.array().data,
                data@.len() == len,
                forall|j: int|
                    0 <= j < k ==> #[trigger] out@[j] == data@[video_place(
                        output_channels,
                        output,
                        patch,
                        j,
                    )],
            decreases len - k,
        {
            proof {
                lemma_video_place(output_channels, output, patch, k as int);
                lemma_volumes(output_channels, output, patch);
                lemma_within(grid(output, patch), output_channels, output, patch, k as int);
            }
            let w: usize = k % width;
            let h: usize = (k / width) % height;
            let t: usize = (k / width / height) % time;
            let c: usize = k / width / height / time;
            let token: usize = (t / patch_time * token_height + h / patch_height) * token_width + w
                / patch_width;
            let index: usize = (t % patch_time * patch_height + h % patch_height) * patch_width + w
                % patch_width;
            out.push(data[(token * patch_volume + index) * output_channels + c]);
            k = k + 1;
        }
        let out_shape: Vec<usize> = vec![output_channels, time, height, width];
        proof {
            assert(out_shape@ =~= unpatchified(
                input.array(),
                output_channels,
                output,
                patch,
            ).dims);
            layout::lemma_product_small(out_shape@);
            let n = output_channels as int;
            assert(n * time * height * width == n * volume(output)) by (nonlinear_arith)
                requires
                    volume(output) == time * height * width,
            ;
            assert(out@ =~= unpatchified(input.array(), output_channels, output, patch).data);
        }
        Ok(owned(out_shape, out))
    }
}

/// No step of the way to an element of the rows of patches is longer than a word.
proof fn lemma_within(g: Extent, channels: usize, extent: Extent, patch: Extent, k: int)
    requires
        0 < channels,
        0 < extent.0,
        0 < extent.1,
        0 < extent.2,
        divides(patch, extent),
        g == grid(extent, patch),
        channels * volume(extent) <= usize::MAX,
        0 <= k < channels * volume(extent),
    ensures
        ({
            let (c, t, h, w) = layout::coord4(seq![channels, extent.0, extent.1, extent.2], k);
            &&& 0 <= (t / patch.0 as int) * g.1 <= usize::MAX
            &&& 0 <= (t / patch.0 as int) * g.1 + h / patch.1 as int <= usize::MAX
            &&& 0 <= ((t / patch.0 as int) * g.1 + h / patch.1 as int) * g.2 <= usize::MAX
            &&& 0 <= (t % patch.0 as int) * patch.1 <= usize::MAX
            &&& 0 <= (t % patch.0 as int) * patch.1 + h % patch.1 as int <= usize::MAX
            &&& 0 <= ((t % patch.0 as int) * patch.1 + h % patch.1 as int) * patch.2
                <= usize::MAX
        }),
{
    lemma_video_place(channels, extent, patch, k);
    lemma_volumes(channels, extent, patch);
    let (c, t, h, w) = layout::coord4(seq![channels, extent.0, extent.1, extent.2], k);
    layout::lemma_cell(t / patch.0 as int, g.0 as int, h / patch.1 as int, g.1 as int);
    layout::lemma_cell(
        (t / patch.0 as int) * g.1 + h / patch.1 as int,
        g.0 * g.1,
        w / patch.2 as int,
        g.2 as int,
    );
    layout::lemma_cell(t % patch.0 as int, patch.0 as int, h % patch.1 as int, patch.1 as int);
    layout::lemma_cell(
        (t % patch.0 as int) * patch.1 + h % patch.1 as int,
        patch.0 * patch.1,
        w % patch.2 as int,
        patch.2 as int,
    );
}

} // verus!
