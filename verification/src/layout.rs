//! Row-major index arithmetic.

use vstd::prelude::*;

verus! {

/// The number of elements a shape describes: the product of its dimensions.
pub open spec fn product(shape: Seq<usize>) -> nat
    decreases shape.len(),
{
    if shape.len() == 0 {
        1
    } else {
        product(shape.drop_last()) * (shape.last() as nat)
    }
}

/// A cell of a `rows` by `width` matrix lies inside the matrix.
pub proof fn lemma_cell(row: int, rows: int, col: int, width: int)
    requires
        0 <= row < rows,
        0 <= col < width,
    ensures
        0 <= row * width,
        row * width + width == (row + 1) * width,
        0 <= row * width + col < rows * width,
        (row + 1) * width <= rows * width,
{
    assert(row * width + width == (row + 1) * width) by (nonlinear_arith);
    assert((row + 1) * width <= rows * width) by (nonlinear_arith)
        requires
            row + 1 <= rows,
            0 <= width,
    ;
    assert(0 <= row * width) by (nonlinear_arith)
        requires
            0 <= row,
            0 <= width,
    ;
}

/// Row and column of a cell, recovered from its linear index.
pub proof fn lemma_split(row: int, col: int, width: int)
    requires
        0 <= col < width,
    ensures
        (row * width + col) / width == row,
        (row * width + col) % width == col,
{
    vstd::arithmetic::div_mod::lemma_fundamental_div_mod_converse(
        row * width + col,
        width,
        row,
        col,
    );
}

/// A linear index of a `rows` by `width` matrix, taken apart.
pub proof fn lemma_divide(index: int, rows: int, width: int)
    requires
        0 <= index < rows * width,
        0 < width,
    ensures
        0 <= index / width < rows,
        0 <= index % width < width,
        index == (index / width) * width + index % width,
{
    vstd::arithmetic::div_mod::lemma_fundamental_div_mod(index, width);
    assert(width * (index / width) == (index / width) * width) by (nonlinear_arith);
    let q = index / width;
    assert(q >= 0) by (nonlinear_arith)
        requires
            q == index / width,
            0 <= index,
            0 < width,
    ;
    assert(q < rows) by (nonlinear_arith)
        requires
            q * width <= index,
            index < rows * width,
            0 < width,
    ;
}

/// The product of a shape is positive exactly when every dimension is.
pub proof fn lemma_product_positive(shape: Seq<usize>)
    ensures
        product(shape) > 0 <==> (forall|i: int| 0 <= i < shape.len() ==> shape[i] > 0),
    decreases shape.len(),
{
    if shape.len() > 0 {
        let init = shape.drop_last();
        lemma_product_positive(init);
        let p = product(init);
        let d = shape.last() as nat;
        assert(p * d > 0 <==> p > 0 && d > 0) by (nonlinear_arith);
        if product(shape) > 0 {
            assert forall|i: int| 0 <= i < shape.len() implies shape[i] > 0 by {
                if i < init.len() {
                    assert(init[i] > 0);
                }
            }
        } else if forall|i: int| 0 <= i < shape.len() ==> shape[i] > 0 {
            assert forall|i: int| 0 <= i < init.len() implies init[i] > 0 by {
                assert(init[i] == shape[i]);
            }
        }
    }
}

/// A non-empty product is at least as large as any prefix's product.
pub proof fn lemma_product_prefix(shape: Seq<usize>, n: int)
    requires
        0 <= n <= shape.len(),
        product(shape) > 0,
    ensures
        0 < product(shape.take(n)) <= product(shape),
    decreases shape.len() - n,
{
    if n == shape.len() {
        assert(shape.take(n) =~= shape);
    } else {
        lemma_product_prefix(shape, n + 1);
        let longer = shape.take(n + 1);
        assert(longer.drop_last() =~= shape.take(n));
        let p = product(shape.take(n));
        let d = longer.last() as nat;
        assert(p > 0 && p <= p * d) by (nonlinear_arith)
            requires
                p * d > 0,
        ;
    }
}

/// Products of the shapes with one to five dimensions.
pub proof fn lemma_product_small(shape: Seq<usize>)
    ensures
        shape.len() == 1 ==> product(shape) == shape[0],
        shape.len() == 2 ==> product(shape) == shape[0] * shape[1],
        shape.len() == 3 ==> product(shape) == shape[0] * shape[1] * shape[2],
        shape.len() == 4 ==> product(shape) == shape[0] * shape[1] * shape[2] * shape[3],
        shape.len() == 5 ==> product(shape) == shape[0] * shape[1] * shape[2] * shape[3] * shape[4],
    decreases shape.len(),
{
    if shape.len() > 0 {
        let init = shape.drop_last();
        lemma_product_small(init);
        assert(forall|i: int| 0 <= i < init.len() ==> init[i] == shape[i]);
        if shape.len() == 1 {
            let d = shape.last() as nat;
            assert(1 * d == d) by (nonlinear_arith);
            assert(product(init) == 1);
            assert(product(shape) == 1 * d);
        }
    }
}

/// The linear index of a cell of a rank-3 shape.
pub open spec fn offset3(shape: Seq<usize>, a: int, b: int, c: int) -> int {
    (a * shape[1] + b) * shape[2] + c
}

/// The cell of a rank-3 shape at a linear index.
pub open spec fn coord3(shape: Seq<usize>, k: int) -> (int, int, int) {
    (k / shape[2] as int / shape[1] as int, (k / shape[2] as int) % shape[1] as int, k % shape[2] as int)
}

/// The linear index of a cell of a rank-4 shape.
pub open spec fn offset4(shape: Seq<usize>, a: int, b: int, c: int, d: int) -> int {
    ((a * shape[1] + b) * shape[2] + c) * shape[3] + d
}

/// The cell of a rank-4 shape at a linear index.
pub open spec fn coord4(shape: Seq<usize>, k: int) -> (int, int, int, int) {
    (
        k / shape[3] as int / shape[2] as int / shape[1] as int,
        (k / shape[3] as int / shape[2] as int) % shape[1] as int,
        (k / shape[3] as int) % shape[2] as int,
        k % shape[3] as int,
    )
}

/// A rank-3 cell is inside its shape.
pub open spec fn inside3(shape: Seq<usize>, a: int, b: int, c: int) -> bool {
    &&& shape.len() == 3
    &&& 0 <= a < shape[0]
    &&& 0 <= b < shape[1]
    &&& 0 <= c < shape[2]
}

/// A rank-4 cell is inside its shape.
pub open spec fn inside4(shape: Seq<usize>, a: int, b: int, c: int, d: int) -> bool {
    &&& shape.len() == 4
    &&& 0 <= a < shape[0]
    &&& 0 <= b < shape[1]
    &&& 0 <= c < shape[2]
    &&& 0 <= d < shape[3]
}

/// Cells and linear indices of a rank-3 shape correspond.
pub proof fn lemma_offset3(shape: Seq<usize>, a: int, b: int, c: int)
    requires
        inside3(shape, a, b, c),
    ensures
        0 <= offset3(shape, a, b, c) < product(shape),
        coord3(shape, offset3(shape, a, b, c)) == (a, b, c),
{
    lemma_product_small(shape);
    lemma_cell(a, shape[0] as int, b, shape[1] as int);
    lemma_cell(a * shape[1] + b, shape[0] * shape[1], c, shape[2] as int);
    lemma_split(a * shape[1] + b, c, shape[2] as int);
    lemma_split(a, b, shape[1] as int);
}

/// Every linear index of a rank-3 shape is that of a cell.
pub proof fn lemma_coord3(shape: Seq<usize>, k: int)
    requires
        shape.len() == 3,
        0 <= k < product(shape),
    ensures
        inside3(shape, coord3(shape, k).0, coord3(shape, k).1, coord3(shape, k).2),
        offset3(shape, coord3(shape, k).0, coord3(shape, k).1, coord3(shape, k).2) == k,
{
    lemma_product_small(shape);
    lemma_product_positive(shape);
    lemma_divide(k, shape[0] * shape[1], shape[2] as int);
    lemma_divide(k / shape[2] as int, shape[0] as int, shape[1] as int);
}

/// Cells and linear indices of a rank-4 shape correspond.
pub proof fn lemma_offset4(shape: Seq<usize>, a: int, b: int, c: int, d: int)
    requires
        inside4(shape, a, b, c, d),
    ensures
        0 <= offset4(shape, a, b, c, d) < product(shape),
        coord4(shape, offset4(shape, a, b, c, d)) == (a, b, c, d),
{
    lemma_product_small(shape);
    lemma_cell(a, shape[0] as int, b, shape[1] as int);
    lemma_cell(a * shape[1] + b, shape[0] * shape[1], c, shape[2] as int);
    lemma_cell(
        (a * shape[1] + b) * shape[2] + c,
        shape[0] * shape[1] * shape[2],
        d,
        shape[3] as int,
    );
    lemma_split((a * shape[1] + b) * shape[2] + c, d, shape[3] as int);
    lemma_split(a * shape[1] + b, c, shape[2] as int);
    lemma_split(a, b, shape[1] as int);
}

/// Every linear index of a rank-4 shape is that of a cell.
pub proof fn lemma_coord4(shape: Seq<usize>, k: int)
    requires
        shape.len() == 4,
        0 <= k < product(shape),
    ensures
        ({
            let (a, b, c, d) = coord4(shape, k);
            &&& inside4(shape, a, b, c, d)
            &&& offset4(shape, a, b, c, d) == k
        }),
{
    lemma_product_small(shape);
    lemma_product_positive(shape);
    lemma_divide(k, shape[0] * shape[1] * shape[2], shape[3] as int);
    lemma_divide(k / shape[3] as int, shape[0] * shape[1], shape[2] as int);
    lemma_divide(k / shape[3] as int / shape[2] as int, shape[0] as int, shape[1] as int);
}

} // verus!
