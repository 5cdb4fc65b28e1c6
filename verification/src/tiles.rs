//! Windows that cover an image in tiles, and the blending of tiles into one image.

use vstd::prelude::*;
use crate::conv::cell4;
use crate::fold;
use crate::layout;
use crate::reshape::Array;
use crate::tensor::Tensor;

verus! {

/// The length of the core of a tile.
pub const TILE_CORE: usize = 32;

/// The length of the context on each side of a core.
pub const TILE_CONTEXT: usize = 4;

/// How many times an image is higher and wider than its latents.
pub const ENLARGEMENT: usize = 8;

/// A window along one axis: the core's start and end, and the tile's.
pub type Window = (usize, usize, usize, usize);

/// The number of windows along an axis.
pub open spec fn window_count(length: int) -> int {
    (length + 31) / 32
}

/// The lesser of two numbers.
pub open spec fn lesser(a: int, b: int) -> int {
    if a < b {
        a
    } else {
        b
    }
}

/// A window by its number.
pub open spec fn window_at(length: int, i: int) -> Window {
    let core_end = lesser(32 * i + 32, length);
    (
        (32 * i) as usize,
        core_end as usize,
        (if 32 * i < 4 {
            0
        } else {
            32 * i - 4
        }) as usize,
        lesser(core_end + 4, length) as usize,
    )
}

/// The windows along an axis.
pub open spec fn windows(length: int) -> Seq<Window> {
    Seq::new(window_count(length) as nat, |i: int| window_at(length, i))
}

/// A window lies on its axis, its core within its tile.
pub open spec fn window_fits(window: Window, length: int) -> bool {
    &&& window.2 <= window.0 < window.1 <= window.3 <= length
    &&& window.3 - window.2 <= 40
    &&& window.0 - window.2 <= 4
    &&& window.3 - window.1 <= 4
}

/// Every window fits, and the cores follow each other from one end of the axis to the other.
pub proof fn cores_fill_the_axis(length: usize, i: int)
    requires
        0 <= i < window_count(length as int),
    ensures
        window_fits(windows(length as int)[i], length as int),
        windows(length as int)[0].0 == 0,
        windows(length as int).last().1 == length,
        i + 1 < window_count(length as int) ==> windows(length as int)[i].1 == windows(
            length as int,
        )[i + 1].0,
{
}

/// Every position of an axis lies in the core of some window.
pub proof fn cores_cover_every_position(length: usize, position: int)
    requires
        0 <= position < length,
    ensures
        0 <= position / 32 < window_count(length as int),
        windows(length as int)[position / 32].0 <= position < windows(
            length as int,
        )[position / 32].1,
{
}

/// The windows along an axis.
pub fn tile_windows(length: usize) -> (result: Vec<Window>)
    ensures
        result@ == windows(length as int),
{
    let mut result: Vec<Window> = Vec::new();
    let mut core_start: usize = 0;
    let ghost mut i: int = 0;
    let mut done = length == 0;
    while !done
        invariant
            core_start == 32 * i,
            0 <= i,
            result@.len() == (if done {
                window_count(length as int)
            } else {
                i
            }),
            !done ==> core_start < length,
            forall|j: int|
                0 <= j < result@.len() ==> #[trigger] result@[j] == window_at(length as int, j),
        decreases length - core_start + if done {
            0int
        } else {
            1int
        },
    {
        let core_end: usize = if length - core_start < TILE_CORE {
            length
        } else {
            core_start + TILE_CORE
        };
        let tile_start: usize = core_start.saturating_sub(TILE_CONTEXT);
        let tile_end: usize = if length - core_end < TILE_CONTEXT {
            length
        } else {
            core_end + TILE_CONTEXT
        };
        result.push((core_start, core_end, tile_start, tile_end));
        if length - core_start <= TILE_CORE {
            done = true;
        } else {
            core_start = core_start + TILE_CORE;
            proof {
                i = i + 1;
            }
        }
    }
    proof {
        assert(result@ =~= windows(length as int));
    }
    result
}

/// The weight of a position in a tile, as a fraction: it rises through the context before the
/// core, is whole within the core, and falls through the context after it.
pub open spec fn axis_weight(
    position: int,
    tile_start: int,
    core_start: int,
    core_end: int,
    tile_end: int,
) -> (usize, usize) {
    if position < core_start && tile_start < core_start {
        ((position - tile_start) as usize, (core_start - tile_start) as usize)
    } else if position >= core_end && core_end < tile_end {
        ((tile_end - position) as usize, (tile_end - core_end) as usize)
    } else {
        (1, 1)
    }
}

/// The weight of a position in a tile, as a numerator and a denominator.
pub fn tile_axis_weight(
    position: usize,
    tile_start: usize,
    core_start: usize,
    core_end: usize,
    tile_end: usize,
) -> (weight: (usize, usize))
    requires
        tile_start <= position <= tile_end,
    ensures
        weight == axis_weight(
            position as int,
            tile_start as int,
            core_start as int,
            core_end as int,
            tile_end as int,
        ),
{
    if position < core_start && tile_start < core_start {
        return (position - tile_start, core_start - tile_start);
    }
    if position >= core_end && core_end < tile_end {
        return (tile_end - position, tile_end - core_end);
    }
    (1, 1)
}

/// A weight is a fraction between zero and one, and it is whole within the core.
pub proof fn weights_are_fractions(
    position: int,
    tile_start: usize,
    core_start: usize,
    core_end: usize,
    tile_end: usize,
)
    requires
        tile_start <= core_start <= core_end <= tile_end,
        tile_start <= position < tile_end,
    ensures
        ({
            let weight = axis_weight(
                position,
                tile_start as int,
                core_start as int,
                core_end as int,
                tile_end as int,
            );
            &&& 0 < weight.1
            &&& weight.0 <= weight.1
            &&& core_start <= position < core_end ==> weight == (1usize, 1usize)
        }),
{
}

/// The weight of a position of the enlarged image in a window.
pub open spec fn enlarged_weight(window: Window, position: int) -> (usize, usize) {
    axis_weight(
        position,
        window.2 * 8,
        window.0 * 8,
        window.1 * 8,
        window.3 * 8,
    )
}

/// A window's tile holds a position of the enlarged image.
pub open spec fn holds(window: Window, position: int) -> bool {
    window.2 * 8 <= position < window.3 * 8
}

/// The arithmetic of blending.
#[derive(Clone, Copy)]
pub struct Blend<F, W, O, D> {
    /// The number that a fraction stands for.
    pub fraction: F,
    /// The product of two weights.
    pub times: W,
    /// Whether a sum of weights can be divided by.
    pub covered: O,
    /// A weighted sum divided by the sum of its weights.
    pub settle: D,
}

/// The tiles of an image: the windows along its two axes, and the decoded tiles, row by row.
pub struct Mosaic<T> {
    pub vertical: Seq<Window>,
    pub horizontal: Seq<Window>,
    pub tiles: Seq<Array<T>>,
}

impl<T> Mosaic<T> {
    /// The window down of tile `t`.
    pub open spec fn down(self, t: int) -> Window {
        self.vertical[t / self.horizontal.len() as int]
    }

    /// The window across of tile `t`.
    pub open spec fn across(self, t: int) -> Window {
        self.horizontal[t % self.horizontal.len() as int]
    }

    /// Tile `t` holds a pixel.
    pub open spec fn shows(self, t: int, y: int, x: int) -> bool {
        holds(self.down(t), y) && holds(self.across(t), x)
    }

    /// What tile `t` shows at a pixel.
    pub open spec fn shown(self, t: int, c: int, y: int, x: int) -> T {
        self.tiles[t].data[layout::offset4(
            self.tiles[t].dims,
            0,
            c,
            y - self.down(t).2 * 8,
            x - self.across(t).2 * 8,
        )]
    }

    /// The shape of tile `t`.
    pub open spec fn tile_dims(self, t: int) -> Seq<usize> {
        seq![
            1usize,
            3usize,
            ((self.down(t).3 - self.down(t).2) * 8) as usize,
            ((self.across(t).3 - self.across(t).2) * 8) as usize,
        ]
    }
}

/// The windows along both axes fit an image, and every tile has the shape of its windows.
pub open spec fn mosaic_fits<T>(mosaic: Mosaic<T>, height: int, width: int) -> bool {
    &&& mosaic.vertical == windows(height)
    &&& mosaic.horizontal == windows(width)
    &&& mosaic.tiles.len() == mosaic.vertical.len() * mosaic.horizontal.len()
    &&& forall|t: int|
        0 <= t < mosaic.tiles.len() ==> (#[trigger] mosaic.tiles[t]).wf() && mosaic.tiles[t].dims
            == mosaic.tile_dims(t)
}

impl<F, W, O, D> Blend<F, W, O, D> {
    /// Every function accepts every argument.
    pub open spec fn usable<T>(self) -> bool where
        F: Fn(usize, usize) -> T,
        W: Fn(T, T) -> T,
        O: Fn(T) -> bool,
        D: Fn(T, T) -> T,
     {
        &&& fold::total2(self.fraction)
        &&& fold::total2(self.times)
        &&& fold::total1(self.covered)
        &&& fold::total2(self.settle)
    }

    /// `weight` is the weight of a pixel in a tile.
    pub open spec fn weighs<T>(
        self,
        down: Window,
        across: Window,
        y: int,
        x: int,
        weight: T,
    ) -> bool where
        F: Fn(usize, usize) -> T,
        W: Fn(T, T) -> T,
     {
        exists|a: T, b: T|
            {
                &&& call_ensures(self.fraction, enlarged_weight(down, y), a)
                &&& call_ensures(self.fraction, enlarged_weight(across, x), b)
                &&& #[trigger] call_ensures(self.times, (a, b), weight)
            }
    }

    /// `total` is the weighted sum of what the first `n` tiles show at a pixel.
    pub open spec fn sums<T, M>(
        self,
        mosaic: Mosaic<T>,
        zero: T,
        mac: M,
        n: int,
        c: int,
        y: int,
        x: int,
        total: T,
    ) -> bool where
        F: Fn(usize, usize) -> T,
        W: Fn(T, T) -> T,
        M: Fn(T, T, T) -> T,

        decreases n,
    {
        if n <= 0 {
            total == zero
        } else if mosaic.shows(n - 1, y, x) {
            exists|partial: T, weight: T|
                {
                    &&& self.sums(mosaic, zero, mac, n - 1, c, y, x, partial)
                    &&& self.weighs(mosaic.down(n - 1), mosaic.across(n - 1), y, x, weight)
                    &&& #[trigger] call_ensures(
                        mac,
                        (partial, mosaic.shown(n - 1, c, y, x), weight),
                        total,
                    )
                }
        } else {
            self.sums(mosaic, zero, mac, n - 1, c, y, x, total)
        }
    }

    /// `total` is the sum of the weights of a pixel in the first `n` tiles.
    pub open spec fn weights<T, P>(
        self,
        mosaic: Mosaic<T>,
        zero: T,
        plus: P,
        n: int,
        y: int,
        x: int,
        total: T,
    ) -> bool where F: Fn(usize, usize) -> T, W: Fn(T, T) -> T, P: Fn(T, T) -> T
        decreases n,
    {
        if n <= 0 {
            total == zero
        } else if mosaic.shows(n - 1, y, x) {
            exists|partial: T, weight: T|
                {
                    &&& self.weights(mosaic, zero, plus, n - 1, y, x, partial)
                    &&& self.weighs(mosaic.down(n - 1), mosaic.across(n - 1), y, x, weight)
                    &&& #[trigger] call_ensures(plus, (partial, weight), total)
                }
        } else {
            self.weights(mosaic, zero, plus, n - 1, y, x, total)
        }
    }

    /// `value` is a pixel of the blended image.
    pub open spec fn blends<T, M, P>(
        self,
        mosaic: Mosaic<T>,
        zero: T,
        mac: M,
        plus: P,
        c: int,
        y: int,
        x: int,
        value: T,
    ) -> bool where
        F: Fn(usize, usize) -> T,
        W: Fn(T, T) -> T,
        O: Fn(T) -> bool,
        D: Fn(T, T) -> T,
        M: Fn(T, T, T) -> T,
        P: Fn(T, T) -> T,
     {
        exists|sum: T, weight: T|
            {
                &&& self.sums(mosaic, zero, mac, mosaic.tiles.len() as int, c, y, x, sum)
                &&& self.weights(mosaic, zero, plus, mosaic.tiles.len() as int, y, x, weight)
                &&& call_ensures(self.covered, (weight,), true)
                &&& #[trigger] call_ensures(self.settle, (sum, weight), value)
            }
    }

    /// The weights of a pixel cannot be divided by.
    pub open spec fn misses<T, P>(
        self,
        mosaic: Mosaic<T>,
        zero: T,
        plus: P,
        y: int,
        x: int,
    ) -> bool where
        F: Fn(usize, usize) -> T,
        W: Fn(T, T) -> T,
        O: Fn(T) -> bool,
        P: Fn(T, T) -> T,
     {
        exists|weight: T|
            {
                &&& #[trigger] self.weights(
                    mosaic,
                    zero,
                    plus,
                    mosaic.tiles.len() as int,
                    y,
                    x,
                    weight,
                )
                &&& call_ensures(self.covered, (weight,), false)
            }
    }
}

/// The contents of tiles.
pub open spec fn tile_arrays<T>(tiles: Seq<Tensor<T>>) -> Seq<Array<T>> {
    Seq::new(tiles.len(), |i: int| tiles[i].array())
}

/// The shape of the blended image.
pub open spec fn image_dims(height: int, width: int) -> Seq<usize> {
    seq![1usize, 3usize, (height * 8) as usize, (width * 8) as usize]
}

/// The windows and tiles of an image.
pub open spec fn mosaic_of<T>(
    vertical: Seq<Window>,
    horizontal: Seq<Window>,
    tiles: Seq<Tensor<T>>,
) -> Mosaic<T> {
    Mosaic { vertical, horizontal, tiles: tile_arrays(tiles) }
}

/// The weighted sum of what the tiles show at a pixel, and the sum of the weights.
#[verifier::spinoff_prover]
#[verifier::rlimit(80)]
fn pixel<
    T: Copy,
    F: Fn(usize, usize) -> T,
    W: Fn(T, T) -> T,
    O: Fn(T) -> bool,
    D: Fn(T, T) -> T,
    M: Fn(T, T, T) -> T,
    P: Fn(T, T) -> T,
>(
    blend: &Blend<F, W, O, D>,
    zero: T,
    mac: &M,
    plus: &P,
    vertical: &Vec<Window>,
    horizontal: &Vec<Window>,
    tiles: &Vec<Tensor<T>>,
    c: usize,
    y: usize,
    x: usize,
    Ghost(height): Ghost<int>,
    Ghost(width): Ghost<int>,
) -> (result: (T, T))
    requires
        blend.usable(),
        fold::total3(*mac),
        fold::total2(*plus),
        mosaic_fits(mosaic_of(vertical@, horizontal@, tiles@), height, width),
        c < 3,
        0 < height,
        0 < width,
        height * 8 <= usize::MAX,
        width * 8 <= usize::MAX,
    ensures
        blend.sums(
            mosaic_of(vertical@, horizontal@, tiles@),
            zero,
            *mac,
            tiles@.len() as int,
            c as int,
            y as int,
            x as int,
            result.0,
        ),
        blend.weights(
            mosaic_of(vertical@, horizontal@, tiles@),
            zero,
            *plus,
            tiles@.len() as int,
            y as int,
            x as int,
            result.1,
        ),
{
    let ghost mosaic = mosaic_of(vertical@, horizontal@, tiles@);
    let mut sum = zero;
    let mut total = zero;
    let mut t: usize = 0;
    while t < tiles.len()
        invariant
            t <= tiles@.len(),
            mosaic == mosaic_of(vertical@, horizontal@, tiles@),
            mosaic_fits(mosaic, height, width),
            blend.usable(),
            fold::total3(*mac),
            fold::total2(*plus),
            c < 3,
            0 < height,
            0 < width,
            height * 8 <= usize::MAX,
            width * 8 <= usize::MAX,
            blend.sums(mosaic, zero, *mac, t as int, c as int, y as int, x as int, sum),
            blend.weights(mosaic, zero, *plus, t as int, y as int, x as int, total),
        decreases tiles@.len() - t,
    {
        proof {
            assert(horizontal@.len() > 0);
            vstd::arithmetic::div_mod::lemma_fundamental_div_mod(
                t as int,
                horizontal@.len() as int,
            );
            layout::lemma_divide(t as int, vertical@.len() as int, horizontal@.len() as int);
            cores_fill_the_axis(height as usize, t as int / horizontal@.len() as int);
            cores_fill_the_axis(width as usize, t as int % horizontal@.len() as int);
        }
        let down: Window = vertical[t / horizontal.len()];
        let across: Window = horizontal[t % horizontal.len()];
        assert(down == mosaic.down(t as int));
        assert(across == mosaic.across(t as int));
        let top: usize = down.2 * ENLARGEMENT;
        let bottom: usize = down.3 * ENLARGEMENT;
        let left: usize = across.2 * ENLARGEMENT;
        let right: usize = across.3 * ENLARGEMENT;
        if top <= y && y < bottom && left <= x && x < right {
            let tile = &tiles[t];
            let dims: [usize; 4] = [1, 3, bottom - top, right - left];
            proof {
                assert(mosaic.tiles[t as int] == tiles@[t as int].array());
                assert(mosaic.tiles[t as int].wf());
                assert(dims@ =~= mosaic.tile_dims(t as int));
            }
            let at: usize = cell4(&dims, 0, c, y - top, x - left);
            let value = tile.data()[at];
            assert(value == mosaic.shown(t as int, c as int, y as int, x as int));
            let v: (usize, usize) = tile_axis_weight(
                y,
                top,
                down.0 * ENLARGEMENT,
                down.1 * ENLARGEMENT,
                bottom,
            );
            let h: (usize, usize) = tile_axis_weight(
                x,
                left,
                across.0 * ENLARGEMENT,
                across.1 * ENLARGEMENT,
                right,
            );
            let a = (blend.fraction)(v.0, v.1);
            let b = (blend.fraction)(h.0, h.1);
            let weight = (blend.times)(a, b);
            let ghost partial = sum;
            let ghost before = total;
            sum = mac(sum, value, weight);
            total = plus(total, weight);
            proof {
                assert(call_ensures(blend.times, (a, b), weight));
                assert(blend.weighs(down, across, y as int, x as int, weight));
                let next = t + 1;
                assert(mosaic.shows(next - 1, y as int, x as int));
                assert(call_ensures(
                    *mac,
                    (partial, mosaic.shown(next - 1, c as int, y as int, x as int), weight),
                    sum,
                ));
                assert(call_ensures(*plus, (before, weight), total));
            }
        } else {
            proof {
                assert(!mosaic.shows(t + 1 - 1, y as int, x as int));
            }
        }
        t = t + 1;
    }
    (sum, total)
}

/// Blends tiles into one image, or names the first pixel that no tile covers.
pub fn blend_tiles<
    T: Copy,
    F: Fn(usize, usize) -> T,
    W: Fn(T, T) -> T,
    O: Fn(T) -> bool,
    D: Fn(T, T) -> T,
    M: Fn(T, T, T) -> T,
    P: Fn(T, T) -> T,
>(
    blend: &Blend<F, W, O, D>,
    zero: T,
    mac: M,
    plus: P,
    height: usize,
    width: usize,
    tiles: &Vec<Tensor<T>>,
) -> (result: Result<Tensor<T>, usize>)
    requires
        blend.usable(),
        fold::total3(mac),
        fold::total2(plus),
        mosaic_fits(
            mosaic_of(windows(height as int), windows(width as int), tiles@),
            height as int,
            width as int,
        ),
        0 < height,
        0 < width,
        192 * (height * width) <= usize::MAX,
    ensures
        ({
            let mosaic = mosaic_of(windows(height as int), windows(width as int), tiles@);
            match result {
                Ok(out) => {
                    &&& out.wf()
                    &&& out.dims() == image_dims(height as int, width as int)
                    &&& forall|c: int, y: int, x: int|
                        #![trigger layout::offset4(out.dims(), 0, c, y, x)]
                        layout::inside4(out.dims(), 0, c, y, x) ==> blend.blends(
                            mosaic,
                            zero,
                            mac,
                            plus,
                            c,
                            y,
                            x,
                            out@[layout::offset4(out.dims(), 0, c, y, x)],
                        )
                },
                Err(pixel) => pixel < (height * 8) * (width * 8) && blend.misses(
                    mosaic,
                    zero,
                    plus,
                    pixel as int / (width * 8),
                    pixel as int % (width * 8),
                ),
            }
        }),
{
    let vertical = tile_windows(height);
    let horizontal = tile_windows(width);
    let ghost mosaic = mosaic_of(vertical@, horizontal@, tiles@);
    proof {
        assert(height * 8 <= usize::MAX && width * 8 <= usize::MAX && (height * 8) * (width * 8)
            <= usize::MAX && 3 * ((height * 8) * (width * 8)) <= usize::MAX) by (nonlinear_arith)
            requires
                192 * (height * width) <= usize::MAX,
                0 < height,
                0 < width,
        ;
    }
    let rows: usize = height * ENLARGEMENT;
    let columns: usize = width * ENLARGEMENT;
    let ghost dims = image_dims(height as int, width as int);
    let plane: usize = rows * columns;
    let len: usize = 3 * plane;
    proof {
        layout::lemma_product_small(dims);
        assert(1 * 3 * rows * columns == 3 * (rows * columns)) by (nonlinear_arith);
        layout::lemma_product_positive(dims);
    }
    let mut data: Vec<T> = Vec::with_capacity(len);
    let mut k: usize = 0;
    while k < len
        invariant
            k == data@.len() <= len,
            len == layout::product(dims),
            len == 3 * plane,
            plane == rows * columns,
            rows == height * 8,
            columns == width * 8,
            0 < height,
            0 < width,
            dims == image_dims(height as int, width as int),
            vertical@ == windows(height as int),
            horizontal@ == windows(width as int),
            mosaic == mosaic_of(vertical@, horizontal@, tiles@),
            mosaic_fits(mosaic, height as int, width as int),
            blend.usable(),
            fold::total3(mac),
            fold::total2(plus),
            forall|j: int|
                0 <= j < k ==> ({
                    let (n, c, y, x) = layout::coord4(dims, j);
                    blend.blends(mosaic, zero, mac, plus, c, y, x, #[trigger] data@[j])
                }),
        decreases len - k,
    {
        proof {
            layout::lemma_coord4(dims, k as int);
        }
        let x: usize = k % columns;
        let y: usize = (k / columns) % rows;
        let c: usize = k / columns / rows;
        proof {
            let (cn, cc, cy, cx) = layout::coord4(dims, k as int);
            assert(cx == x && cy == y);
            assert(cn == 0);
            assert(cc == c) by (nonlinear_arith)
                requires
                    cc == (c as int) % 3,
                    cn == (c as int) / 3,
                    cn == 0,
            ;
        }
        let (sum, weight) = pixel(
            blend,
            zero,
            &mac,
            &plus,
            &vertical,
            &horizontal,
            tiles,
            c,
            y,
            x,
            Ghost(height as int),
            Ghost(width as int),
        );
        if !(blend.covered)(weight) {
            proof {
                assert(y * columns + x < rows * columns) by (nonlinear_arith)
                    requires
                        y < rows,
                        x < columns,
                ;
                layout::lemma_split(y as int, x as int, columns as int);
                assert(0 <= y * columns) by (nonlinear_arith)
                    requires
                        0 <= y,
                        0 <= columns,
                ;
            }
            return Err(y * columns + x);
        }
        let value = (blend.settle)(sum, weight);
        proof {
            assert(blend.blends(mosaic, zero, mac, plus, c as int, y as int, x as int, value));
        }
        data.push(value);
        k = k + 1;
    }
    let shape: Vec<usize> = vec![1, 3, rows, columns];
    proof {
        assert(shape@ =~= dims);
        assert forall|c: int, y: int, x: int|
            #![trigger layout::offset4(dims, 0, c, y, x)]
            layout::inside4(dims, 0, c, y, x) implies blend.blends(
            mosaic,
            zero,
            mac,
            plus,
            c,
            y,
            x,
            data@[layout::offset4(dims, 0, c, y, x)],
        ) by {
            layout::lemma_offset4(dims, 0, c, y, x);
        }
    }
    Ok(Tensor::from_parts(shape, data))
}

} // verus!
