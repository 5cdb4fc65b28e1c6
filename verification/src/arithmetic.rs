//! The arithmetic of the language models, on vectors of elements that the caller supplies the
//! operations for.

use vstd::prelude::*;
use crate::fold;
use crate::gguf;
use crate::gguf::{GgufFile, TensorInfo};
use crate::quant;
use crate::quant::{Grids, Weight};

verus! {

/// The operations of a language model on elements of type `T`.
#[derive(Clone, Copy)]
pub struct Arithmetic<T, N, M, L, P, A, B, R, C, H, G, K, D> {
    pub zero: T,
    /// The number that a weight stands for.
    pub number: N,
    /// A product added to a sum.
    pub mac: M,
    /// A value, times its attention weight, added to a sum.
    pub blend: L,
    pub plus: P,
    /// The root mean square of a vector.
    pub statistics: A,
    /// An element divided by the root mean square, times its weight.
    pub rescale: B,
    /// The pair of elements with the given index turned for a position.
    pub rotate: R,
    /// An attention score scaled.
    pub scale: C,
    /// Scores turned into weights, with the score of a sink where there is one.
    pub softmax: H,
    /// A value times the activation of its gate.
    pub gate: G,
    /// A value times the activation of its gate, both clamped.
    pub clamped_gate: K,
    /// The bit pattern of an element, by which elements are ordered.
    pub bits: D,
}

/// A quantized matrix.
pub struct Matrix {
    pub ggml_type: u32,
    pub data: Seq<u8>,
}

/// The matrix that a tensor of a file holds.
pub open spec fn matrix_of(file: &GgufFile, index: int) -> Matrix {
    let info = file.tensors@[index];
    let start = file.data_offset + info.offset;
    Matrix {
        ggml_type: info.ggml_type,
        data: file.data@.subrange(
            start,
            start + gguf::type_size(info.ggml_type, gguf::volume(info.dims@)),
        ),
    }
}

/// A tensor of a file holds a matrix of `rows` rows and `columns` columns.
pub open spec fn holds_matrix(file: &GgufFile, index: int, columns: nat, rows: nat) -> bool {
    &&& 0 <= index < file.tensors@.len()
    &&& file.holds(&file.tensors@[index])
    &&& quant::matrix_fits(
        file.tensors@[index].ggml_type,
        matrix_of(file, index).data,
        columns,
        rows,
    )
}

/// Row `t` of rows of `width` elements.
pub open spec fn row<T>(data: Seq<T>, t: int, width: nat) -> Seq<T> {
    data.subrange(t * width, t * width + width)
}

/// A row lies within the rows.
pub proof fn lemma_row<T>(data: Seq<T>, t: int, n: nat, width: nat)
    requires
        0 <= t < n,
        data.len() == n * width,
    ensures
        0 <= t * width,
        t * width + width == (t + 1) * width,
        t * width + width <= data.len(),
        row(data, t, width).len() == width,
{
    assert(t * width + width <= n * width && 0 <= t * width && t * width + width == (t + 1)
        * width) by (nonlinear_arith)
        requires
            0 <= t < n,
            0 <= width,
    ;
}

/// Rows joined one after another.
pub open spec fn joined_rows<T>(rows: Seq<Seq<T>>) -> Seq<T>
    decreases rows.len(),
{
    if rows.len() == 0 {
        Seq::empty()
    } else {
        joined_rows(rows.drop_last()) + rows.last()
    }
}

/// Rows of one length, joined, have that length each.
pub proof fn lemma_joined_rows<T>(rows: Seq<Seq<T>>, width: nat)
    requires
        forall|t: int| 0 <= t < rows.len() ==> (#[trigger] rows[t]).len() == width,
    ensures
        joined_rows(rows).len() == rows.len() * width,
        forall|t: int| 0 <= t < rows.len() ==> row(
            joined_rows(rows),
            t,
            width,
        ) == #[trigger] rows[t],
    decreases rows.len(),
{
    if rows.len() > 0 {
        let init = rows.drop_last();
        let n = init.len();
        assert forall|t: int| 0 <= t < n implies (#[trigger] init[t]).len() == width by {
            assert(rows[t].len() == width);
        }
        lemma_joined_rows(init, width);
        assert(rows.last().len() == width);
        assert((n + 1) * width == n * width + width) by (nonlinear_arith);
        assert forall|t: int| 0 <= t < rows.len() implies row(joined_rows(rows), t, width)
            == #[trigger] rows[t] by {
            if t < n {
                lemma_row(joined_rows(init), t, n, width);
                assert(init[t] == rows[t]);
                assert(row(joined_rows(rows), t, width) =~= row(joined_rows(init), t, width));
            } else {
                assert(row(joined_rows(rows), t, width) =~= rows.last());
            }
        }
    } else {
        assert(0 * width == 0) by (nonlinear_arith);
    }
}

/// Appends a row.
pub fn append_row<T: Copy>(out: &mut Vec<T>, row: &[T])
    ensures
        final(out)@ == old(out)@ + row@,
{
    let ghost before = out@;
    let mut i: usize = 0;
    proof {
        assert(row@.len() == row.len());
        assert(out@ =~= before + row@.take(0));
    }
    while i < row.len()
        invariant
            i <= row@.len() == row.len(),
            out@ == before + row@.take(i as int),
        decreases row.len() - i,
    {
        out.push(row[i]);
        proof {
            assert(out@ =~= before + row@.take(i + 1));
        }
        i = i + 1;
    }
    proof {
        assert(row@.take(i as int) =~= row@);
    }
}

impl<
    T: Copy,
    Z: Copy,
    N: Fn(Weight) -> T + Copy,
    M: Fn(T, T, T) -> T + Copy,
    L: Fn(T, T, T) -> T + Copy,
    P: Fn(T, T) -> T + Copy,
    A: Fn(&[T]) -> Z + Copy,
    B: Fn(T, Z, T) -> T + Copy,
    R: Fn(T, T, usize, usize) -> (T, T) + Copy,
    C: Fn(T) -> T + Copy,
    H: Fn(Vec<T>, Option<T>) -> Vec<T> + Copy,
    G: Fn(T, T) -> T + Copy,
    K: Fn(T, T) -> T + Copy,
    D: Fn(T) -> u32 + Copy,
> Arithmetic<T, N, M, L, P, A, B, R, C, H, G, K, D> {
    /// Every operation accepts every argument, and the softmax keeps the number of scores.
    pub open spec fn usable(self) -> bool {
        &&& fold::total1(self.number)
        &&& fold::total3(self.mac)
        &&& fold::total3(self.blend)
        &&& fold::total2(self.plus)
        &&& forall|x: &[T]| #[trigger] call_requires(self.statistics, (x,))
        &&& fold::accepts3(self.rescale)
        &&& forall|a: T, b: T, pos: usize, i: usize| #[trigger]
            call_requires(self.rotate, (a, b, pos, i))
        &&& fold::total1(self.scale)
        &&& fold::total2(self.softmax)
        &&& forall|scores: Vec<T>, sink: Option<T>, weights: Vec<T>| #[trigger]
            call_ensures(self.softmax, (scores, sink), weights) ==> weights@.len()
                == scores@.len()
        &&& fold::total2(self.gate)
        &&& fold::total2(self.clamped_gate)
        &&& fold::total1(self.bits)
    }

    /// `out` is `x` divided by its root mean square and multiplied by `weight`.
    pub open spec fn normalizes(self, x: Seq<T>, weight: Seq<T>, out: Seq<T>) -> bool {
        &&& out.len() == x.len()
        &&& exists|values: &[T], s: Z|
            {
                &&& values@ == x
                &&& #[trigger] call_ensures(self.statistics, (values,), s)
                &&& forall|i: int|
                    0 <= i < x.len() ==> call_ensures(
                        self.rescale,
                        (x[i], s, weight[i]),
                        #[trigger] out[i],
                    )
            }
    }

    /// Root-mean-square normalization.
    pub fn rms_norm(&self, x: &[T], weight: &[T]) -> (out: Vec<T>)
        requires
            self.usable(),
            x@.len() <= weight@.len(),
        ensures
            self.normalizes(x@, weight@, out@),
    {
        let s = (self.statistics)(x);
        let mut out: Vec<T> = Vec::with_capacity(x.len());
        let mut i: usize = 0;
        proof {
            assert(x@.len() == x.len());
            assert(weight@.len() == weight.len());
        }
        while i < x.len()
            invariant
                i == out@.len() <= x@.len() <= weight@.len(),
                x@.len() == x.len(),
                weight@.len() == weight.len(),
                self.usable(),
                forall|j: int|
                    0 <= j < i ==> call_ensures(
                        self.rescale,
                        (x@[j], s, weight@[j]),
                        #[trigger] out@[j],
                    ),
            decreases x.len() - i,
        {
            out.push((self.rescale)(x[i], s, weight[i]));
            i = i + 1;
        }
        out
    }

    /// `out` is the product of a matrix with the vector `x` alone.
    pub open spec fn projects(
        self,
        grids: Grids,
        matrix: Matrix,
        x: Seq<T>,
        rows: nat,
        out: Seq<T>,
    ) -> bool {
        self.projects_one(false, grids, matrix, x, rows, out)
    }

    /// `out` is the product of a matrix with the vector `x`, alone or together with others.
    pub open spec fn projects_one(
        self,
        together: bool,
        grids: Grids,
        matrix: Matrix,
        x: Seq<T>,
        rows: nat,
        out: Seq<T>,
    ) -> bool {
        &&& out.len() == rows
        &&& forall|j: int|
            0 <= j < rows ==> self.product(together, grids, matrix, x, j, #[trigger] out[j])
    }

    /// `total` is the product of row `j` of a matrix with the vector `x`, alone or together with
    /// others.
    pub open spec fn product(
        self,
        together: bool,
        grids: Grids,
        matrix: Matrix,
        x: Seq<T>,
        j: int,
        total: T,
    ) -> bool {
        quant::row_product(
            self.number,
            self.mac,
            self.plus,
            self.zero,
            x,
            matrix.ggml_type,
            matrix.data,
            x.len(),
            grids,
            j,
            together,
            total,
        )
    }

    /// The product of a matrix with a vector.
    pub fn project(
        &self,
        grids: &Grids,
        file: &GgufFile,
        index: usize,
        x: &[T],
        rows: usize,
    ) -> (out: Vec<T>)
        requires
            self.usable(),
            grids.wf(),
            holds_matrix(file, index as int, x@.len(), rows as nat),
        ensures
            self.projects(*grids, matrix_of(file, index as int), x@, rows as nat, out@),
    {
        let info: &TensorInfo = &file.tensors[index];
        let data = file.tensor_data(info);
        proof {
            assert(x@.len() == x.len());
        }
        let out = quant::gemv(
            x,
            data,
            info.ggml_type,
            x.len(),
            rows,
            grids,
            self.zero,
            self.number,
            self.mac,
            self.plus,
        );
        proof {
            let matrix = matrix_of(file, index as int);
            assert forall|j: int| 0 <= j < rows implies self.product(
                false,
                *grids,
                matrix,
                x@,
                j,
                #[trigger] out@[j],
            ) by {}
        }
        out
    }

    /// Row `t` of `out` is the product of a matrix with row `t` of `x`, for each of `n` rows, which
    /// go together where there are several.
    pub open spec fn projects_rows(
        self,
        grids: Grids,
        matrix: Matrix,
        x: Seq<T>,
        columns: nat,
        rows: nat,
        n: nat,
        out: Seq<T>,
    ) -> bool {
        &&& out.len() == n * rows
        &&& forall|t: int|
            0 <= t < n ==> self.projects_one(
                n != 1,
                grids,
                matrix,
                row(x, t, columns),
                rows,
                #[trigger] row(out, t, rows),
            )
    }

    /// The products of a matrix with `n` vectors.
    pub fn project_rows(
        &self,
        grids: &Grids,
        file: &GgufFile,
        index: usize,
        x: &[T],
        columns: usize,
        rows: usize,
        n: usize,
    ) -> (out: Vec<T>)
        requires
            self.usable(),
            grids.wf(),
            holds_matrix(file, index as int, columns as nat, rows as nat),
            x@.len() == n * columns,
            n * rows <= usize::MAX,
        ensures
            self.projects_rows(
                *grids,
                matrix_of(file, index as int),
                x@,
                columns as nat,
                rows as nat,
                n as nat,
                out@,
            ),
    {
        let info: &TensorInfo = &file.tensors[index];
        let data = file.tensor_data(info);
        let out = quant::gemm(
            x,
            data,
            info.ggml_type,
            columns,
            rows,
            n,
            grids,
            self.zero,
            self.number,
            self.mac,
            self.plus,
        );
        proof {
            let matrix = matrix_of(file, index as int);
            assert forall|t: int| 0 <= t < n implies self.projects_one(
                n != 1,
                *grids,
                matrix,
                row(x@, t, columns as nat),
                rows as nat,
                #[trigger] row(out@, t, rows as nat),
            ) by {
                lemma_row(x@, t, n as nat, columns as nat);
                lemma_row(out@, t, n as nat, rows as nat);
                let part = row(x@, t, columns as nat);
                let outs = row(out@, t, rows as nat);
                assert forall|j: int| 0 <= j < rows implies self.product(
                    n != 1,
                    *grids,
                    matrix,
                    part,
                    j,
                    #[trigger] outs[j],
                ) by {
                    assert(outs[j] == out@[t * rows + j]);
                }
            }
        }
        out
    }

    /// `out` is the sum of two vectors, as far as the first reaches.
    pub open spec fn sums(self, left: Seq<T>, right: Seq<T>, out: Seq<T>) -> bool {
        &&& out.len() == left.len()
        &&& forall|i: int|
            0 <= i < left.len() ==> call_ensures(
                self.plus,
                (left[i], right[i]),
                #[trigger] out[i],
            )
    }

    /// The sum of a vector and the first elements of another.
    pub fn add(&self, left: &[T], right: &[T]) -> (out: Vec<T>)
        requires
            self.usable(),
            left@.len() <= right@.len(),
        ensures
            self.sums(left@, right@, out@),
    {
        let mut out: Vec<T> = Vec::with_capacity(left.len());
        let mut i: usize = 0;
        proof {
            assert(left@.len() == left.len());
            assert(right@.len() == right.len());
        }
        while i < left.len()
            invariant
                i == out@.len() <= left@.len() <= right@.len(),
                left@.len() == left.len(),
                right@.len() == right.len(),
                self.usable(),
                forall|j: int|
                    0 <= j < i ==> call_ensures(
                        self.plus,
                        (left@[j], right@[j]),
                        #[trigger] out@[j],
                    ),
            decreases left.len() - i,
        {
            out.push((self.plus)(left[i], right[i]));
            i = i + 1;
        }
        out
    }

    /// `out` holds the values, each times the activation of its gate.
    pub open spec fn gates(self, clamped: bool, gate: Seq<T>, up: Seq<T>, out: Seq<T>) -> bool {
        &&& out.len() == gate.len()
        &&& forall|i: int|
            0 <= i < gate.len() ==> if clamped {
                call_ensures(self.clamped_gate, (gate[i], up[i]), #[trigger] out[i])
            } else {
                call_ensures(self.gate, (gate[i], up[i]), out[i])
            }
    }

    /// Values times the activations of their gates.
    pub fn gated(&self, clamped: bool, gate: &[T], up: &[T]) -> (out: Vec<T>)
        requires
            self.usable(),
            gate@.len() <= up@.len(),
        ensures
            self.gates(clamped, gate@, up@, out@),
    {
        let mut out: Vec<T> = Vec::with_capacity(gate.len());
        let mut i: usize = 0;
        proof {
            assert(gate@.len() == gate.len());
            assert(up@.len() == up.len());
        }
        while i < gate.len()
            invariant
                i == out@.len() <= gate@.len() <= up@.len(),
                gate@.len() == gate.len(),
                up@.len() == up.len(),
                self.usable(),
                self.gates(clamped, gate@.take(i as int), up@, out@),
            decreases gate.len() - i,
        {
            let value = if clamped {
                (self.clamped_gate)(gate[i], up[i])
            } else {
                (self.gate)(gate[i], up[i])
            };
            out.push(value);
            i = i + 1;
        }
        proof {
            assert(gate@.take(i as int) =~= gate@);
        }
        out
    }
}

} // verus!
