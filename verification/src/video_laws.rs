//! Where the elements of videos go when they are cut into patches and put together again.

use vstd::prelude::*;
use crate::backend_patch;
use crate::backend_patch::Extent;
use crate::layout;
use crate::reshape::Array;

verus! {

/// The number of a patch, counted along the width first.
pub open spec fn token_at(extent: Extent, patch: Extent, a: int, b: int, e: int) -> int {
    (a * (extent.1 / patch.1) + b) * (extent.2 / patch.2) + e
}

/// The number of an element within its patch, counted along the width first.
pub open spec fn inner_at(patch: Extent, i: int, j: int, l: int) -> int {
    (i * patch.1 + j) * patch.2 + l
}

proof fn lemma_places(extent: Extent, patch: Extent, a: int, b: int, e: int, i: int, j: int, l: int)
    requires
        backend_patch::divides(patch, extent),
        0 <= a < extent.0 / patch.0,
        0 <= b < extent.1 / patch.1,
        0 <= e < extent.2 / patch.2,
        0 <= i < patch.0,
        0 <= j < patch.1,
        0 <= l < patch.2,
    ensures
        ({
            let grid = backend_patch::shape_of(backend_patch::grid(extent, patch));
            let inner = backend_patch::shape_of(patch);
            &&& layout::coord3(grid, token_at(extent, patch, a, b, e)) == (a, b, e)
            &&& layout::coord3(inner, inner_at(patch, i, j, l)) == (i, j, l)
            &&& 0 <= token_at(extent, patch, a, b, e) < backend_patch::volume(
                backend_patch::grid(extent, patch),
            )
            &&& 0 <= inner_at(patch, i, j, l) < backend_patch::volume(patch)
        }),
{
    let grid = backend_patch::shape_of(backend_patch::grid(extent, patch));
    let inner = backend_patch::shape_of(patch);
    layout::lemma_offset3(grid, a, b, e);
    layout::lemma_offset3(inner, i, j, l);
    layout::lemma_product_small(grid);
    layout::lemma_product_small(inner);
}

/// A video cut into patches: the row of a patch holds, channel by channel, the elements of the
/// patch in their own order.
pub proof fn patches_hold_their_channels_in_turn<T>(
    input: Array<T>,
    patch: Extent,
    c: int,
    a: int,
    b: int,
    e: int,
    i: int,
    j: int,
    l: int,
)
    requires
        backend_patch::patch_fault(input.dims, patch) is None,
        0 <= c < input.dims[0],
        0 <= a < input.dims[1] / patch.0,
        0 <= b < input.dims[2] / patch.1,
        0 <= e < input.dims[3] / patch.2,
        0 <= i < patch.0,
        0 <= j < patch.1,
        0 <= l < patch.2,
        ({
            let volume = patch.0 * patch.1 * patch.2;
            let extent = backend_patch::extent_of(input.dims);
            token_at(extent, patch, a, b, e) * (input.dims[0] * volume) + (c * volume + inner_at(
                patch,
                i,
                j,
                l,
            )) < input.data.len()
        }),
    ensures
        ({
            let volume = patch.0 * patch.1 * patch.2;
            let extent = backend_patch::extent_of(input.dims);
            backend_patch::patchified(input, patch).data[token_at(extent, patch, a, b, e) * (
            input.dims[0] * volume) + (c * volume + inner_at(patch, i, j, l))]
                == input.data[((c * input.dims[1] + (a * patch.0 + i)) * input.dims[2] + (b
                * patch.1 + j)) * input.dims[3] + (e * patch.2 + l)]
        }),
{
    let extent = backend_patch::extent_of(input.dims);
    let volume = backend_patch::volume(patch);
    let channels = input.dims[0] as int;
    let feature = channels * volume;
    let token = token_at(extent, patch, a, b, e);
    let inner = inner_at(patch, i, j, l);
    lemma_places(extent, patch, a, b, e, i, j, l);
    layout::lemma_cell(c, channels, inner, volume);
    layout::lemma_split(c, inner, volume);
    layout::lemma_split(token, c * volume + inner, feature);
    assert(0 <= token * feature) by (nonlinear_arith)
        requires
            0 <= token,
            0 <= feature,
    ;
    let k = token * feature + (c * volume + inner);
    assert(backend_patch::patch_place(input.dims, patch, k) == ((c * input.dims[1] + (a * patch.0
        + i)) * input.dims[2] + (b * patch.1 + j)) * input.dims[3] + (e * patch.2 + l));
}

/// Patches put together to a video: the row of a patch holds, element by element, the channels of
/// the element.
pub proof fn videos_take_their_channels_together<T>(
    input: Array<T>,
    channels: usize,
    extent: Extent,
    patch: Extent,
    c: int,
    a: int,
    b: int,
    e: int,
    i: int,
    j: int,
    l: int,
)
    requires
        backend_patch::divides(patch, extent),
        0 <= c < channels,
        0 <= a < extent.0 / patch.0,
        0 <= b < extent.1 / patch.1,
        0 <= e < extent.2 / patch.2,
        0 <= i < patch.0,
        0 <= j < patch.1,
        0 <= l < patch.2,
        ((c * extent.0 + (a * patch.0 + i)) * extent.1 + (b * patch.1 + j)) * extent.2 + (e
            * patch.2 + l) < input.data.len(),
    ensures
        backend_patch::unpatchified(input, channels, extent, patch).data[((c * extent.0 + (a
            * patch.0 + i)) * extent.1 + (b * patch.1 + j)) * extent.2 + (e * patch.2 + l)]
            == input.data[(token_at(extent, patch, a, b, e) * (patch.0 * patch.1 * patch.2)
            + inner_at(patch, i, j, l)) * channels + c],
{
    let dims = seq![channels, extent.0, extent.1, extent.2];
    let (t, h, w) = (a * patch.0 + i, b * patch.1 + j, e * patch.2 + l);
    lemma_inside(extent.0, patch.0, a, i);
    lemma_inside(extent.1, patch.1, b, j);
    lemma_inside(extent.2, patch.2, e, l);
    layout::lemma_offset4(dims, c, t, h, w);
    layout::lemma_split(a, i, patch.0 as int);
    layout::lemma_split(b, j, patch.1 as int);
    layout::lemma_split(e, l, patch.2 as int);
    let k = ((c * extent.0 + t) * extent.1 + h) * extent.2 + w;
    assert(k == layout::offset4(dims, c, t, h, w));
    assert(backend_patch::video_place(channels, extent, patch, k) == (token_at(
        extent,
        patch,
        a,
        b,
        e,
    ) * (patch.0 * patch.1 * patch.2) + inner_at(patch, i, j, l)) * channels + c);
}

proof fn lemma_inside(length: usize, patch: usize, a: int, i: int)
    requires
        patch != 0,
        length % patch == 0,
        0 <= a < length / patch,
        0 <= i < patch,
    ensures
        0 <= a * patch + i < length,
{
    let (n, p) = (length as int, patch as int);
    let q = n / p;
    assert(n == q * p) by (nonlinear_arith)
        requires
            n % p == 0,
            q == n / p,
            p > 0,
    ;
    layout::lemma_cell(a, q, i, p);
}

} // verus!
