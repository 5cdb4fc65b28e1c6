//! Feed-forward networks: dense, and routed to experts.

use vstd::prelude::*;
use crate::arithmetic;
use crate::arithmetic::{Arithmetic, Matrix};
use crate::fold;
use crate::fold::dot;
use crate::gguf;
use crate::gguf::{ggml_type_size, GgufFile, TensorInfo};
use crate::llm_config::Config;
use crate::llm_model;
use crate::ordering;
use crate::ordering::leading;
use crate::quant;
use crate::quant::{Grids, Weight};

verus! {

/// The experts of a layer. A bias without elements is not there.
pub struct Experts<T> {
    /// One row for each expert.
    pub router_w: Vec<T>,
    pub router_b: Vec<T>,
    /// The tensors of the experts, one expert after another.
    pub gate: usize,
    pub up: usize,
    pub down: usize,
    /// One row for each expert.
    pub gate_bias: Vec<T>,
    pub up_bias: Vec<T>,
    pub down_bias: Vec<T>,
}

/// The matrix of one expert within a tensor that holds them one after another.
pub open spec fn expert_matrix(file: &GgufFile, index: int, expert: int, elements: nat) -> Matrix {
    let all = arithmetic::matrix_of(file, index);
    let bytes = gguf::type_size(all.ggml_type, elements) as int;
    Matrix {
        ggml_type: all.ggml_type,
        data: all.data.subrange(expert * bytes, expert * bytes + bytes),
    }
}

/// A tensor of a file holds a matrix for each of `n` experts.
pub open spec fn holds_experts(
    file: &GgufFile,
    index: int,
    columns: nat,
    rows: nat,
    n: nat,
) -> bool {
    let info = file.tensors@[index];
    &&& 0 <= index < file.tensors@.len()
    &&& file.holds(&info)
    &&& columns % gguf::block_elements(info.ggml_type) == 0
    &&& columns * rows <= usize::MAX
    &&& n * gguf::type_size(info.ggml_type, columns * rows) <= arithmetic::matrix_of(
        file,
        index,
    ).data.len()
}

/// The matrix of an expert fits the bytes of the expert.
pub proof fn lemma_expert(file: &GgufFile, index: int, columns: nat, rows: nat, n: nat, expert: int)
    requires
        holds_experts(file, index, columns, rows, n),
        0 <= expert < n,
    ensures
        ({
            let all = arithmetic::matrix_of(file, index);
            let bytes = gguf::type_size(all.ggml_type, columns * rows) as int;
            let matrix = expert_matrix(file, index, expert, columns * rows);
            &&& 0 <= expert * bytes
            &&& expert * bytes + bytes <= all.data.len()
            &&& quant::matrix_fits(matrix.ggml_type, matrix.data, columns, rows)
        }),
{
    let info = file.tensors@[index];
    let all = arithmetic::matrix_of(file, index);
    let bytes = gguf::type_size(all.ggml_type, columns * rows);
    assert(0 <= expert * bytes && expert * bytes + bytes <= n * bytes) by (nonlinear_arith)
        requires
            0 <= expert < n,
            0 <= bytes,
    ;
    let (e, b) = gguf::block_of(info.ggml_type)->0;
    let q = columns / e;
    vstd::arithmetic::div_mod::lemma_fundamental_div_mod(columns as int, e as int);
    assert(columns * rows == (q * rows) * e) by (nonlinear_arith)
        requires
            columns == e * q,
    ;
    vstd::arithmetic::div_mod::lemma_div_multiples_vanish((q * rows) as int, e as int);
    assert((q * rows) * e == e * (q * rows)) by (nonlinear_arith);
    assert((columns * rows) / e == q * rows);
    assert(rows * (q * b) == (q * rows) * b) by (nonlinear_arith);
}

/// What one expert makes of a vector.
pub struct Expert<T> {
    pub gate_product: Seq<T>,
    pub gate: Seq<T>,
    pub up_product: Seq<T>,
    pub up: Seq<T>,
    pub hidden: Seq<T>,
    pub down_product: Seq<T>,
    pub down: Seq<T>,
}

/// How a vector is routed and what comes of it.
pub struct Routing<T> {
    pub products: Seq<T>,
    pub logits: Seq<T>,
    pub bits: Seq<u32>,
    pub chosen: Seq<usize>,
    pub weights: Seq<T>,
    pub experts: Seq<Expert<T>>,
    /// The weighted sums of the first experts.
    pub sums: Seq<Seq<T>>,
}

/// What a dense network makes of a vector.
pub struct Dense<T> {
    /// The state goes through together with others.
    pub together: bool,
    pub gate: Seq<T>,
    pub up: Seq<T>,
    pub hidden: Seq<T>,
}

impl<
    T: Copy,
    Z: Copy,
    N: Fn(Weight) -> T + Copy,
    M: Fn(T, T, T) -> T + Copy,
    L: Fn(T, T, T) -> T + Copy,
    P: Fn(T, T) -> T + Copy,
    A: Fn(&[T]) -> Z + Copy,
    B: Fn(T, Z, T) -> T + Copy,
    R: Fn(T, T, usize, usize) -> (T, T) + Copy,
    C: Fn(T) -> T + Copy,
    H: Fn(Vec<T>, Option<T>) -> Vec<T> + Copy,
    G: Fn(T, T) -> T + Copy,
    K: Fn(T, T) -> T + Copy,
    D: Fn(T) -> u32 + Copy,
> Arithmetic<T, N, M, L, P, A, B, R, C, H, G, K, D> {
    /// `out` is the sum of two vectors as far as the second reaches, and the first beyond.
    pub open spec fn shifts(self, x: Seq<T>, bias: Seq<T>, out: Seq<T>) -> bool {
        &&& out.len() == x.len()
        &&& forall|i: int|
            0 <= i < x.len() ==> if i < bias.len() {
                call_ensures(self.plus, (x[i], bias[i]), #[trigger] out[i])
            } else {
                out[i] == x[i]
            }
    }

    /// Adds a bias as far as it reaches.
    pub fn shift(&self, x: &[T], bias: &[T]) -> (out: Vec<T>)
        requires
            self.usable(),
        ensures
            self.shifts(x@, bias@, out@),
    {
        let mut out: Vec<T> = Vec::with_capacity(x.len());
        let mut i: usize = 0;
        proof {
            assert(x@.len() == x.len());
            assert(bias@.len() == bias.len());
        }
        while i < x.len()
            invariant
                i == out@.len() <= x@.len() == x.len(),
                bias@.len() == bias.len(),
                self.usable(),
                self.shifts(x@.take(i as int), bias@, out@),
            decreases x.len() - i,
        {
            let value = if i < bias.len() {
                (self.plus)(x[i], bias[i])
            } else {
                x[i]
            };
            out.push(value);
            i = i + 1;
        }
        proof {
            assert(x@.take(i as int) =~= x@);
        }
        out
    }

    /// `out` is the product of a matrix, given by its elements, with `x`.
    pub open spec fn multiplies(self, x: Seq<T>, matrix: Seq<T>, rows: nat, out: Seq<T>) -> bool {
        &&& out.len() == rows
        &&& forall|j: int|
            0 <= j < rows ==> fold::accumulates(
                self.mac,
                x,
                matrix,
                fold::run(0, j * x.len(), x.len()),
                self.zero,
                #[trigger] out[j],
            )
    }

    /// The product of a matrix, given by its elements, with a vector.
    pub fn matmul(&self, x: &[T], matrix: &[T], rows: usize) -> (out: Vec<T>)
        requires
            self.usable(),
            rows * x@.len() <= matrix@.len(),
        ensures
            self.multiplies(x@, matrix@, rows as nat, out@),
    {
        let mut out: Vec<T> = Vec::with_capacity(rows);
        let mut j: usize = 0;
        proof {
            assert(x@.len() == x.len());
            assert(matrix@.len() == matrix.len());
        }
        while j < rows
            invariant
                self.usable(),
                rows * x@.len() <= matrix@.len(),
                matrix@.len() == matrix.len(),
                x@.len() == x.len(),
                j == out@.len() <= rows,
                forall|i: int|
                    0 <= i < j ==> fold::accumulates(
                        self.mac,
                        x@,
                        matrix@,
                        fold::run(0, i * x@.len(), x@.len()),
                        self.zero,
                        #[trigger] out@[i],
                    ),
            decreases rows - j,
        {
            proof {
                let n = x@.len();
                assert(0 <= j * n && j * n + n <= rows * n) by (nonlinear_arith)
                    requires
                        0 <= j < rows,
                        0 <= n,
                ;
            }
            let total = dot(x, 0, matrix, j * x.len(), x.len(), self.zero, &self.mac);
            out.push(total);
            j = j + 1;
        }
        out
    }

    /// `out` is what a dense network makes of `x`.
    pub open spec fn feeds(
        self,
        grids: Grids,
        gate: Matrix,
        up: Matrix,
        down: Matrix,
        width: nat,
        x: Seq<T>,
        steps: Dense<T>,
        out: Seq<T>,
    ) -> bool {
        &&& self.projects_one(steps.together, grids, gate, x, width, steps.gate)
        &&& self.projects_one(steps.together, grids, up, x, width, steps.up)
        &&& self.gates(false, steps.gate, steps.up, steps.hidden)
        &&& self.projects_one(steps.together, grids, down, steps.hidden, x.len(), out)
    }

    /// A dense feed-forward network.
    pub fn ffn_lazy(
        &self,
        grids: &Grids,
        file: &GgufFile,
        gate: usize,
        up: usize,
        down: usize,
        width: usize,
        x: &[T],
    ) -> (out: Vec<T>)
        requires
            self.usable(),
            grids.wf(),
            arithmetic::holds_matrix(file, gate as int, x@.len(), width as nat),
            arithmetic::holds_matrix(file, up as int, x@.len(), width as nat),
            arithmetic::holds_matrix(file, down as int, width as nat, x@.len()),
        ensures
            exists|steps: Dense<T>| !steps.together && #[trigger]
                self.feeds(
                    *grids,
                    arithmetic::matrix_of(file, gate as int),
                    arithmetic::matrix_of(file, up as int),
                    arithmetic::matrix_of(file, down as int),
                    width as nat,
                    x@,
                    steps,
                    out@,
                ),
    {
        proof {
            assert(x@.len() == x.len());
        }
        let gates = self.project(grids, file, gate, x, width);
        let values = self.project(grids, file, up, x, width);
        let hidden = self.gated(false, &gates, &values);
        let out = self.project(grids, file, down, &hidden, x.len());
        let ghost steps = Dense {
            together: false,
            gate: gates@,
            up: values@,
            hidden: hidden@,
        };
        assert(self.feeds(
            *grids,
            arithmetic::matrix_of(file, gate as int),
            arithmetic::matrix_of(file, up as int),
            arithmetic::matrix_of(file, down as int),
            width as nat,
            x@,
            steps,
            out@,
        ));
        out
    }

    /// The bit patterns of elements.
    pub open spec fn shows(self, x: Seq<T>, bits: Seq<u32>) -> bool {
        &&& bits.len() == x.len()
        &&& forall|i: int|
            0 <= i < x.len() ==> call_ensures(self.bits, (x[i],), #[trigger] bits[i])
    }

    /// The bit patterns of elements.
    pub fn bits_of(&self, x: &[T]) -> (bits: Vec<u32>)
        requires
            self.usable(),
        ensures
            self.shows(x@, bits@),
    {
        let mut bits: Vec<u32> = Vec::with_capacity(x.len());
        let mut i: usize = 0;
        proof {
            assert(x@.len() == x.len());
        }
        while i < x.len()
            invariant
                i == bits@.len() <= x@.len() == x.len(),
                self.usable(),
                forall|j: int|
                    0 <= j < i ==> call_ensures(self.bits, (x@[j],), #[trigger] bits@[j]),
            decreases x.len() - i,
        {
            bits.push((self.bits)(x[i]));
            i = i + 1;
        }
        bits
    }

    /// The bias of one expert, or none.
    pub open spec fn bias_row(bias: Seq<T>, expert: int, width: nat) -> Seq<T> {
        if bias.len() == 0 {
            bias
        } else {
            arithmetic::row(bias, expert, width)
        }
    }

    /// What expert `id` makes of `x`.
    pub open spec fn consults(
        self,
        cfg: Config,
        grids: Grids,
        file: &GgufFile,
        layer: Experts<T>,
        x: Seq<T>,
        id: int,
        e: Expert<T>,
    ) -> bool {
        let d = cfg.embed_dim as nat;
        let f = cfg.ffn_dim as nat;
        &&& self.projects(
            grids,
            expert_matrix(file, layer.gate as int, id, d * f),
            x,
            f,
            e.gate_product,
        )
        &&& self.shifts(e.gate_product, Self::bias_row(layer.gate_bias@, id, f), e.gate)
        &&& self.projects(
            grids,
            expert_matrix(file, layer.up as int, id, d * f),
            x,
            f,
            e.up_product,
        )
        &&& self.shifts(e.up_product, Self::bias_row(layer.up_bias@, id, f), e.up)
        &&& self.gates(cfg.clamped_swiglu, e.gate, e.up, e.hidden)
        &&& self.projects(
            grids,
            expert_matrix(file, layer.down as int, id, f * d),
            e.hidden,
            d,
            e.down_product,
        )
        &&& self.shifts(e.down_product, Self::bias_row(layer.down_bias@, id, d), e.down)
    }

    /// `after` is `before` with `x`, times `weight`, added.
    pub open spec fn adds_weighted(
        self,
        before: Seq<T>,
        weight: T,
        x: Seq<T>,
        after: Seq<T>,
    ) -> bool {
        &&& after.len() == before.len()
        &&& forall|i: int|
            0 <= i < before.len() ==> call_ensures(
                self.mac,
                (before[i], weight, x[i]),
                #[trigger] after[i],
            )
    }

    /// The router scores every expert, the best are chosen, and their scores are turned into
    /// weights.
    pub open spec fn selects(
        self,
        cfg: Config,
        layer: Experts<T>,
        x: Seq<T>,
        r: Routing<T>,
    ) -> bool {
        &&& self.multiplies(x, layer.router_w@, cfg.n_experts as nat, r.products)
        &&& self.shifts(r.products, layer.router_b@, r.logits)
        &&& self.shows(r.logits, r.bits)
        &&& r.chosen.len() == cfg.n_experts_used
        &&& ordering::leads(r.bits, r.chosen)
        &&& r.weights.len() == r.chosen.len()
        &&& exists|scores: Vec<T>, weights: Vec<T>|
            {
                &&& #[trigger] call_ensures(self.softmax, (scores, None::<T>), weights)
                &&& weights@ == r.weights
                &&& scores@ == Seq::new(r.chosen.len(), |i: int| r.logits[r.chosen[i] as int])
            }
    }

    /// `out` is the sum of what the chosen experts make of `x`, each with its weight.
    pub open spec fn routes(
        self,
        cfg: Config,
        grids: Grids,
        file: &GgufFile,
        layer: Experts<T>,
        x: Seq<T>,
        r: Routing<T>,
        out: Seq<T>,
    ) -> bool {
        let n = r.chosen.len();
        &&& self.selects(cfg, layer, x, r)
        &&& r.experts.len() == n
        &&& forall|i: int|
            0 <= i < n ==> self.consults(
                cfg,
                grids,
                file,
                layer,
                x,
                r.chosen[i] as int,
                #[trigger] r.experts[i],
            )
        &&& r.sums.len() == n + 1
        &&& r.sums[0] == Seq::new(cfg.embed_dim as nat, |i: int| self.zero)
        &&& forall|i: int|
            0 <= i < n ==> self.adds_weighted(
                #[trigger] r.sums[i],
                r.weights[i],
                r.experts[i].down,
                r.sums[i + 1],
            )
        &&& out == r.sums[n as int]
    }

    /// The product of the matrix of one expert with a vector.
    fn project_expert(
        &self,
        grids: &Grids,
        file: &GgufFile,
        index: usize,
        expert: usize,
        x: &[T],
        rows: usize,
        Ghost(n): Ghost<nat>,
    ) -> (out: Vec<T>)
        requires
            self.usable(),
            grids.wf(),
            holds_experts(file, index as int, x@.len(), rows as nat, n),
            expert < n,
        ensures
            self.projects(
                *grids,
                expert_matrix(file, index as int, expert as int, x@.len() * rows as nat),
                x@,
                rows as nat,
                out@,
            ),
    {
        proof {
            lemma_expert(file, index as int, x@.len(), rows as nat, n, expert as int);
            assert(x@.len() == x.len());
        }
        let info: &TensorInfo = &file.tensors[index];
        let all = file.tensor_data(info);
        proof {
            assert(all@.len() == all.len());
            assert(gguf::type_size(info.ggml_type, x@.len() * rows as nat) <= usize::MAX);
        }
        let bytes: usize = ggml_type_size(info.ggml_type, x.len() * rows);
        let data = vstd::slice::slice_subrange(all, expert * bytes, expert * bytes + bytes);
        let out = quant::gemv(
            x,
            data,
            info.ggml_type,
            x.len(),
            rows,
            grids,
            self.zero,
            self.number,
            self.mac,
            self.plus,
        );
        proof {
            let matrix = expert_matrix(file, index as int, expert as int, x@.len() * rows as nat);
            assert(data@ == matrix.data);
            assert forall|j: int| 0 <= j < rows implies self.product(
                false,
                *grids,
                matrix,
                x@,
                j,
                #[trigger] out@[j],
            ) by {}
        }
        out
    }

    /// Adds the bias of one expert, where there is one.
    fn shift_expert(
        &self,
        x: &[T],
        bias: &[T],
        expert: usize,
        Ghost(n): Ghost<nat>,
    ) -> (out: Vec<T>)
        requires
            self.usable(),
            bias@.len() == 0 || n * x@.len() <= bias@.len(),
            expert < n,
        ensures
            self.shifts(x@, Self::bias_row(bias@, expert as int, x@.len()), out@),
    {
        proof {
            assert(x@.len() == x.len());
            assert(bias@.len() == bias.len());
        }
        if bias.len() == 0 {
            return self.shift(x, bias);
        }
        proof {
            let w = x@.len();
            assert(0 <= expert * w && expert * w + w <= n * w) by (nonlinear_arith)
                requires
                    0 <= expert < n,
                    0 <= w,
            ;
        }
        let part = vstd::slice::slice_subrange(
            bias,
            expert * x.len(),
            expert * x.len() + x.len(),
        );
        self.shift(x, part)
    }

    /// What one expert makes of a vector.
    fn consult(
        &self,
        cfg: &Config,
        grids: &Grids,
        file: &GgufFile,
        layer: &Experts<T>,
        x: &[T],
        id: usize,
    ) -> (down: Vec<T>)
        requires
            self.usable(),
            grids.wf(),
            llm_model::experts_fit(*cfg, file, *layer),
            x@.len() == cfg.embed_dim,
            id < cfg.n_experts,
        ensures
            down@.len() == cfg.embed_dim,
            exists|e: Expert<T>|
                e.down == down@ && #[trigger] self.consults(
                    *cfg,
                    *grids,
                    file,
                    *layer,
                    x@,
                    id as int,
                    e,
                ),
    {
        let ghost n = cfg.n_experts as nat;
        let gate_product = self.project_expert(
            grids,
            file,
            layer.gate,
            id,
            x,
            cfg.ffn_dim,
            Ghost(n),
        );
        let up_product = self.project_expert(grids, file, layer.up, id, x, cfg.ffn_dim, Ghost(n));
        let gate = self.shift_expert(&gate_product, &layer.gate_bias, id, Ghost(n));
        let up = self.shift_expert(&up_product, &layer.up_bias, id, Ghost(n));
        let hidden = self.gated(cfg.clamped_swiglu, &gate, &up);
        let down_product = self.project_expert(
            grids,
            file,
            layer.down,
            id,
            &hidden,
            cfg.embed_dim,
            Ghost(n),
        );
        let down = self.shift_expert(&down_product, &layer.down_bias, id, Ghost(n));
        let ghost e = Expert {
            gate_product: gate_product@,
            gate: gate@,
            up_product: up_product@,
            up: up@,
            hidden: hidden@,
            down_product: down_product@,
            down: down@,
        };
        assert(self.consults(*cfg, *grids, file, *layer, x@, id as int, e));
        down
    }

    /// Adds a vector with a weight.
    fn add_weighted(&self, before: &[T], weight: T, x: &[T]) -> (after: Vec<T>)
        requires
            self.usable(),
            before@.len() <= x@.len(),
        ensures
            self.adds_weighted(before@, weight, x@, after@),
    {
        let mut after: Vec<T> = Vec::with_capacity(before.len());
        let mut i: usize = 0;
        proof {
            assert(x@.len() == x.len());
            assert(before@.len() == before.len());
        }
        while i < before.len()
            invariant
                i == after@.len() <= before@.len() == before.len(),
                before@.len() <= x@.len() == x.len(),
                self.usable(),
                forall|j: int|
                    0 <= j < i ==> call_ensures(
                        self.mac,
                        (before@[j], weight, x@[j]),
                        #[trigger] after@[j],
                    ),
            decreases before.len() - i,
        {
            after.push((self.mac)(before[i], weight, x[i]));
            i = i + 1;
        }
        after
    }

    /// Chooses experts for a vector: their numbers and their weights.
    fn route(&self, cfg: &Config, layer: &Experts<T>, x: &[T]) -> (choice: (Vec<usize>, Vec<T>))
        requires
            self.usable(),
            cfg.n_experts_used <= cfg.n_experts,
            cfg.n_experts * x@.len() <= layer.router_w@.len(),
        ensures
            choice.0@.len() == choice.1@.len() == cfg.n_experts_used,
            forall|i: int|
                0 <= i < choice.0@.len() ==> (#[trigger] choice.0@[i]) < cfg.n_experts,
            exists|r: Routing<T>|
                r.chosen == choice.0@ && r.weights == choice.1@ && #[trigger] self.selects(
                    *cfg,
                    *layer,
                    x@,
                    r,
                ),
    {
        let products = self.matmul(x, &layer.router_w, cfg.n_experts);
        let logits = self.shift(&products, &layer.router_b);
        let bits = self.bits_of(&logits);
        let chosen = leading(&bits, cfg.n_experts_used);
        let mut scores: Vec<T> = Vec::with_capacity(chosen.len());
        let mut i: usize = 0;
        while i < chosen.len()
            invariant
                i == scores@.len() <= chosen@.len(),
                ordering::leads(bits@, chosen@),
                bits@.len() == logits@.len(),
                forall|j: int|
                    0 <= j < i ==> #[trigger] scores@[j] == logits@[chosen@[j] as int],
            decreases chosen.len() - i,
        {
            proof {
                assert(chosen@[i as int] < bits@.len());
            }
            scores.push(logits[chosen[i]]);
            i = i + 1;
        }
        let ghost scored = scores;
        let weights = (self.softmax)(scores, None);
        let ghost r = Routing {
            products: products@,
            logits: logits@,
            bits: bits@,
            chosen: chosen@,
            weights: weights@,
            experts: Seq::empty(),
            sums: Seq::empty(),
        };
        proof {
            assert(scored@ =~= Seq::new(chosen@.len(), |i: int| logits@[chosen@[i] as int]));
            assert(call_ensures(self.softmax, (scored, None::<T>), weights));
            assert(self.selects(*cfg, *layer, x@, r));
            assert forall|i: int| 0 <= i < chosen@.len() implies (#[trigger] chosen@[i])
                < cfg.n_experts by {
                assert(chosen@[i] < bits@.len());
            }
        }
        (chosen, weights)
    }

    /// A feed-forward network routed to experts.
    pub fn moe_ffn(
        &self,
        cfg: &Config,
        grids: &Grids,
        file: &GgufFile,
        layer: &Experts<T>,
        x: &[T],
    ) -> (out: Vec<T>)
        requires
            self.usable(),
            grids.wf(),
            llm_model::experts_fit(*cfg, file, *layer),
            x@.len() == cfg.embed_dim,
        ensures
            exists|r: Routing<T>| #[trigger]
                self.routes(*cfg, *grids, file, *layer, x@, r, out@),
    {
        let (chosen, weights) = self.route(cfg, layer, x);
        let ghost selection = choose|r: Routing<T>|
            r.chosen == chosen@ && r.weights == weights@ && #[trigger] self.selects(
                *cfg,
                *layer,
                x@,
                r,
            );
        let mut out: Vec<T> = Vec::with_capacity(cfg.embed_dim);
        while out.len() < cfg.embed_dim
            invariant
                out@.len() <= cfg.embed_dim,
                forall|i: int| 0 <= i < out@.len() ==> #[trigger] out@[i] == self.zero,
            decreases cfg.embed_dim - out.len(),
        {
            out.push(self.zero);
        }
        let ghost mut experts: Seq<Expert<T>> = Seq::empty();
        let ghost mut sums: Seq<Seq<T>> = seq![out@];
        proof {
            assert(out@ =~= Seq::new(cfg.embed_dim as nat, |i: int| self.zero));
        }
        let mut i: usize = 0;
        while i < chosen.len()
            invariant
                self.usable(),
                grids.wf(),
                llm_model::experts_fit(*cfg, file, *layer),
                x@.len() == cfg.embed_dim,
                chosen@.len() == weights@.len(),
                forall|j: int| 0 <= j < chosen@.len() ==> (#[trigger] chosen@[j]) < cfg.n_experts,
                i == experts.len() <= chosen@.len(),
                sums.len() == i + 1,
                sums[i as int] == out@,
                out@.len() == cfg.embed_dim,
                sums[0] == Seq::new(cfg.embed_dim as nat, |i: int| self.zero),
                forall|j: int|
                    0 <= j < i ==> self.consults(
                        *cfg,
                        *grids,
                        file,
                        *layer,
                        x@,
                        chosen@[j] as int,
                        #[trigger] experts[j],
                    ),
                forall|j: int|
                    0 <= j < i ==> self.adds_weighted(
                        #[trigger] sums[j],
                        weights@[j],
                        experts[j].down,
                        sums[j + 1],
                    ),
            decreases chosen.len() - i,
        {
            let id: usize = chosen[i];
            let down = self.consult(cfg, grids, file, layer, x, id);
            let ghost e = choose|e: Expert<T>|
                e.down == down@ && #[trigger] self.consults(
                    *cfg,
                    *grids,
                    file,
                    *layer,
                    x@,
                    id as int,
                    e,
                );
            let after = self.add_weighted(&out, weights[i], &down);
            proof {
                let old_sums = sums;
                let old_experts = experts;
                experts = experts.push(e);
                sums = sums.push(after@);
                assert forall|j: int| 0 <= j < i + 1 implies self.adds_weighted(
                    #[trigger] sums[j],
                    weights@[j],
                    experts[j].down,
                    sums[j + 1],
                ) by {
                    assert(sums[j] == old_sums[j]);
                    if j < i {
                        assert(experts[j] == old_experts[j]);
                        assert(sums[j + 1] == old_sums[j + 1]);
                    }
                }
            }
            out = after;
            i = i + 1;
        }
        let ghost r = Routing {
            products: selection.products,
            logits: selection.logits,
            bits: selection.bits,
            chosen: chosen@,
            weights: weights@,
            experts,
            sums,
        };
        proof {
            assert(self.selects(*cfg, *layer, x@, r));
            assert(self.routes(*cfg, *grids, file, *layer, x@, r, out@));
        }
        out
    }
}

} // verus!
