//! What the layers of a language model compute.

use vstd::prelude::*;
use crate::arithmetic;
use crate::arithmetic::{Arithmetic, Matrix};
use crate::exact;
use crate::float_order;
use crate::fold;
use crate::gguf;
use crate::gguf::GgufFile;
use crate::gguf_tensors;
use crate::llm::{Attended, Fed, Network};
use crate::llm_config::Config;
use crate::llm_experts;
use crate::llm_experts::{Expert, Experts, Routing};
use crate::llm_model;
use crate::llm_model::{Feed, Layer, Model, Weights};
use crate::product_laws;
use crate::quant;
use crate::quant::{Grids, Weight};
use crate::text;

verus! {

broadcast use vstd::string::group_string_axioms;

/// What elements, bit patterns and weights stand for.
#[verifier::reject_recursive_types(T)]
pub struct Reading<T> {
    pub value: spec_fn(T) -> int,
    pub pattern: spec_fn(u32) -> int,
    pub rest: spec_fn(Weight) -> int,
}

/// `weights` are the weights of row `j` of a matrix.
pub open spec fn are_row(
    grids: Grids,
    matrix: Matrix,
    columns: nat,
    j: int,
    weights: Seq<Weight>,
) -> bool {
    let elements = gguf::block_elements(matrix.ggml_type) as int;
    let bytes = gguf::block_bytes(matrix.ggml_type) as int;
    &&& weights.len() == columns
    &&& forall|k: int|
        0 <= k < columns ==> quant::is_weight(
            matrix.ggml_type,
            product_laws::matrix_block(
                matrix.data,
                columns as int / elements,
                bytes,
                j,
                k / elements,
            ),
            k % elements,
            grids,
            #[trigger] weights[k],
        )
}

impl<T> Reading<T> {
    /// `amount` is the product of row `j` of a matrix with `x`.
    pub open spec fn multiplies(
        self,
        grids: Grids,
        matrix: Matrix,
        x: Seq<T>,
        j: int,
        amount: int,
    ) -> bool {
        exists|weights: Seq<Weight>|
            {
                &&& #[trigger] are_row(grids, matrix, x.len(), j, weights)
                &&& amount == exact::sum(
                    x.len(),
                    |k: int|
                        (self.value)(x[k]) * product_laws::worth(
                            self.pattern,
                            self.rest,
                            weights[k],
                        ),
                )
            }
    }

    /// What an element of a vector stands for, and nothing beyond its end.
    pub open spec fn at(self, x: Seq<T>, i: int) -> int {
        if i < x.len() {
            (self.value)(x[i])
        } else {
            0
        }
    }
}

/// The tensor at an index has a name, and is the last that has.
pub open spec fn is_named(file: &GgufFile, index: int, name: Seq<char>) -> bool {
    &&& 0 <= index < file.tensors@.len()
    &&& file.tensors@[index].name@ == name
    &&& forall|j: int|
        index < j < file.tensors@.len() ==> (#[trigger] file.tensors@[j]).name@ != name
}

/// No tensor has a name.
pub open spec fn is_unnamed(file: &GgufFile, name: Seq<char>) -> bool {
    forall|j: int| 0 <= j < file.tensors@.len() ==> (#[trigger] file.tensors@[j]).name@ != name
}

impl<
    T: Copy,
    Z: Copy,
    N: Fn(Weight) -> T + Copy,
    M: Fn(T, T, T) -> T + Copy,
    L: Fn(T, T, T) -> T + Copy,
    P: Fn(T, T) -> T + Copy,
    A: Fn(&[T]) -> Z + Copy,
    B: Fn(T, Z, T) -> T + Copy,
    R: Fn(T, T, usize, usize) -> (T, T) + Copy,
    C: Fn(T) -> T + Copy,
    H: Fn(Vec<T>, Option<T>) -> Vec<T> + Copy,
    G: Fn(T, T) -> T + Copy,
    K: Fn(T, T) -> T + Copy,
    D: Fn(T) -> u32 + Copy,
> Arithmetic<T, N, M, L, P, A, B, R, C, H, G, K, D> {
    /// The operations make no rounding errors.
    pub open spec fn exact(self, r: Reading<T>) -> bool {
        &&& exact::multiplies_and_adds(self.mac, r.value)
        &&& exact::adds(self.plus, r.value)
        &&& product_laws::gives_worth(self.number, r.value, r.pattern, r.rest)
        &&& (r.value)(self.zero) == 0
    }

    pub proof fn lemma_projects(
        self,
        r: Reading<T>,
        together: bool,
        grids: Grids,
        matrix: Matrix,
        x: Seq<T>,
        rows: nat,
        out: Seq<T>,
        j: int,
    )
        requires
            self.exact(r),
            quant::matrix_fits(matrix.ggml_type, matrix.data, x.len(), rows),
            0 <= j < rows,
            self.projects_one(together, grids, matrix, x, rows, out),
        ensures
            r.multiplies(grids, matrix, x, j, (r.value)(out[j])),
    {
        let weights = product_laws::a_projection_multiplies_by_the_rows_of_its_matrix(
            self,
            r.value,
            r.pattern,
            r.rest,
            together,
            grids,
            matrix,
            x,
            rows,
            out,
            j,
        );
        assert(are_row(grids, matrix, x.len(), j, weights));
    }

    /// The query of a token, in exact arithmetic: the product of the matrix for queries with the
    /// normalized state, and the bias.
    pub proof fn queries_come_from_their_matrix(
        self,
        r: Reading<T>,
        model: &Model<T>,
        l: int,
        pos: usize,
        keys: Seq<T>,
        values: Seq<T>,
        x: Seq<T>,
        a: Attended<T>,
        o: int,
    )
        requires
            self.exact(r),
            model.fits(),
            0 <= l < model.cfg.n_layers,
            x.len() == model.cfg.embed_dim,
            self.attention_step(model, l, pos, keys, values, x, a),
            0 <= o < model.cfg.n_heads * model.cfg.head_dim,
        ensures
            a.normed.len() == x.len(),
            r.multiplies(
                model.grids,
                arithmetic::matrix_of(model.file, model.weights.layers@[l].q as int),
                a.normed,
                o,
                (r.value)(a.q_biased[o]) - (r.value)(model.weights.layers@[l].q_bias@[o]),
            ),
            self.turns(
                a.q_biased,
                model.cfg.n_heads as nat,
                model.cfg.head_dim as nat,
                pos,
                a.q,
            ),
    {
        let layer = model.weights.layers@[l];
        assert(llm_model::layer_fits(model.cfg, model.file, layer));
        self.lemma_projects(
            r,
            a.together,
            model.grids,
            arithmetic::matrix_of(model.file, layer.q as int),
            a.normed,
            model.cfg.q_total(),
            a.q_product,
            o,
        );
        assert(call_ensures(self.plus, (a.q_product[o], layer.q_bias@[o]), a.q_biased[o]));
    }

    /// The key and the value of a token, in exact arithmetic: each the product of its own matrix
    /// with the normalized state, and its own bias; only the key is turned for the position.
    pub proof fn keys_and_values_come_from_their_matrices(
        self,
        r: Reading<T>,
        model: &Model<T>,
        l: int,
        pos: usize,
        keys: Seq<T>,
        values: Seq<T>,
        x: Seq<T>,
        a: Attended<T>,
        o: int,
    )
        requires
            self.exact(r),
            model.fits(),
            0 <= l < model.cfg.n_layers,
            x.len() == model.cfg.embed_dim,
            self.attention_step(model, l, pos, keys, values, x, a),
            0 <= o < model.cfg.n_kv_heads * model.cfg.head_dim,
        ensures
            r.multiplies(
                model.grids,
                arithmetic::matrix_of(model.file, model.weights.layers@[l].k as int),
                a.normed,
                o,
                (r.value)(a.k_biased[o]) - (r.value)(model.weights.layers@[l].k_bias@[o]),
            ),
            self.turns(
                a.k_biased,
                model.cfg.n_kv_heads as nat,
                model.cfg.head_dim as nat,
                pos,
                a.k,
            ),
            r.multiplies(
                model.grids,
                arithmetic::matrix_of(model.file, model.weights.layers@[l].v as int),
                a.normed,
                o,
                (r.value)(a.v[o]) - (r.value)(model.weights.layers@[l].v_bias@[o]),
            ),
    {
        let layer = model.weights.layers@[l];
        assert(llm_model::layer_fits(model.cfg, model.file, layer));
        self.lemma_projects(
            r,
            a.together,
            model.grids,
            arithmetic::matrix_of(model.file, layer.k as int),
            a.normed,
            model.cfg.kv_total(),
            a.k_product,
            o,
        );
        assert(call_ensures(self.plus, (a.k_product[o], layer.k_bias@[o]), a.k_biased[o]));
        self.lemma_projects(
            r,
            a.together,
            model.grids,
            arithmetic::matrix_of(model.file, layer.v as int),
            a.normed,
            model.cfg.kv_total(),
            a.v_product,
            o,
        );
        assert(call_ensures(self.plus, (a.v_product[o], layer.v_bias@[o]), a.v[o]));
    }

    /// What attention adds to the state of a token, in exact arithmetic: the product of the output
    /// matrix with what its heads read from the keys and values up to its own, and the bias.
    pub proof fn attention_adds_to_the_state(
        self,
        r: Reading<T>,
        model: &Model<T>,
        l: int,
        pos: usize,
        keys: Seq<T>,
        values: Seq<T>,
        x: Seq<T>,
        a: Attended<T>,
        i: int,
    )
        requires
            self.exact(r),
            model.fits(),
            0 <= l < model.cfg.n_layers,
            x.len() == model.cfg.embed_dim,
            self.attention_step(model, l, pos, keys, values, x, a),
            0 <= i < x.len(),
        ensures
            a.x.len() == x.len(),
            self.attends(
                model.cfg,
                a.q,
                keys + a.k,
                values + a.v,
                model.weights.layers@[l].sinks@,
                (pos + 1) as nat,
                a.mixed,
            ),
            r.multiplies(
                model.grids,
                arithmetic::matrix_of(model.file, model.weights.layers@[l].out as int),
                a.mixed,
                i,
                (r.value)(a.x[i]) - (r.value)(x[i]) - r.at(
                    model.weights.layers@[l].out_bias@,
                    i,
                ),
            ),
    {
        let layer = model.weights.layers@[l];
        assert(llm_model::layer_fits(model.cfg, model.file, layer));
        self.lemma_projects(
            r,
            a.together,
            model.grids,
            arithmetic::matrix_of(model.file, layer.out as int),
            a.mixed,
            model.cfg.embed_dim as nat,
            a.out_product,
            i,
        );
        assert(a.out[i] == a.out[i]);
        assert(call_ensures(self.plus, (x[i], a.out[i]), a.x[i]));
    }

    /// A dense network, in exact arithmetic: it adds to the state the product of the last matrix
    /// with the gated values, which are products of the other two matrices with the normalized
    /// state.
    pub proof fn a_dense_network_adds_to_the_state(
        self,
        r: Reading<T>,
        model: &Model<T>,
        l: int,
        x: Seq<T>,
        f: Fed<T>,
        i: int,
        j: int,
    )
        requires
            self.exact(r),
            model.fits(),
            0 <= l < model.cfg.n_layers,
            x.len() == model.cfg.embed_dim,
            self.feed_step(model, l, x, f),
            f.network is Dense,
            0 <= i < x.len(),
            0 <= j < model.cfg.ffn_dim,
        ensures
            model.weights.layers@[l].feed is Dense,
            f.x.len() == x.len(),
            ({
                let steps = f.network->Dense_0;
                let (gate, up, down) = match model.weights.layers@[l].feed {
                    Feed::Dense { gate, up, down } => (gate as int, up as int, down as int),
                    _ => (0, 0, 0),
                };
                &&& r.multiplies(
                    model.grids,
                    arithmetic::matrix_of(model.file, gate),
                    f.normed,
                    j,
                    (r.value)(steps.gate[j]),
                )
                &&& r.multiplies(
                    model.grids,
                    arithmetic::matrix_of(model.file, up),
                    f.normed,
                    j,
                    (r.value)(steps.up[j]),
                )
                &&& call_ensures(self.gate, (steps.gate[j], steps.up[j]), steps.hidden[j])
                &&& r.multiplies(
                    model.grids,
                    arithmetic::matrix_of(model.file, down),
                    steps.hidden,
                    i,
                    (r.value)(f.x[i]) - (r.value)(x[i]),
                )
            }),
    {
        let layer = model.weights.layers@[l];
        assert(llm_model::layer_fits(model.cfg, model.file, layer));
        match (layer.feed, f.network) {
            (Feed::Dense { gate, up, down }, Network::Dense(steps)) => {
                self.lemma_projects(
                    r,
                    steps.together,
                    model.grids,
                    arithmetic::matrix_of(model.file, gate as int),
                    f.normed,
                    model.cfg.ffn_dim as nat,
                    steps.gate,
                    j,
                );
                self.lemma_projects(
                    r,
                    steps.together,
                    model.grids,
                    arithmetic::matrix_of(model.file, up as int),
                    f.normed,
                    model.cfg.ffn_dim as nat,
                    steps.up,
                    j,
                );
                self.lemma_projects(
                    r,
                    steps.together,
                    model.grids,
                    arithmetic::matrix_of(model.file, down as int),
                    steps.hidden,
                    x.len(),
                    f.out,
                    i,
                );
                assert(call_ensures(self.plus, (x[i], f.out[i]), f.x[i]));
            },
            _ => {},
        }
    }

    /// Routed networks, in exact arithmetic: the state gains, of every chosen expert, what it
    /// makes of the normalized state, times its weight.
    pub proof fn routed_networks_add_their_weighted_experts(
        self,
        r: Reading<T>,
        model: &Model<T>,
        l: int,
        x: Seq<T>,
        f: Fed<T>,
        i: int,
    )
        requires
            self.exact(r),
            0 <= l < model.cfg.n_layers,
            x.len() == model.cfg.embed_dim,
            self.feed_step(model, l, x, f),
            f.network is Routed,
            0 <= i < x.len(),
        ensures
            f.x.len() == x.len(),
            ({
                let routing = f.network->Routed_0;
                (r.value)(f.x[i]) == (r.value)(x[i]) + exact::sum(
                    routing.chosen.len(),
                    |n: int|
                        (r.value)(routing.weights[n]) * (r.value)(routing.experts[n].down[i]),
                )
            }),
    {
        let layer = model.weights.layers@[l];
        match (layer.feed, f.network) {
            (Feed::Routed(experts), Network::Routed(routing)) => {
                self.lemma_weighted(r, routing, routing.chosen.len(), x.len(), i);
                assert(call_ensures(self.plus, (x[i], f.out[i]), f.x[i]));
            },
            _ => {},
        }
    }

    proof fn lemma_weighted(
        self,
        r: Reading<T>,
        routing: Routing<T>,
        n: nat,
        width: nat,
        i: int,
    )
        requires
            self.exact(r),
            n <= routing.chosen.len(),
            routing.sums.len() == routing.chosen.len() + 1,
            routing.sums[0] == Seq::new(width, |i: int| self.zero),
            forall|m: int|
                0 <= m < routing.chosen.len() ==> self.adds_weighted(
                    #[trigger] routing.sums[m],
                    routing.weights[m],
                    routing.experts[m].down,
                    routing.sums[m + 1],
                ),
            0 <= i < width,
        ensures
            routing.sums[n as int].len() == width,
            (r.value)(routing.sums[n as int][i]) == exact::sum(
                n,
                |n: int| (r.value)(routing.weights[n]) * (r.value)(routing.experts[n].down[i]),
            ),
        decreases n,
    {
        if n > 0 {
            let m = (n - 1) as nat;
            self.lemma_weighted(r, routing, m, width, i);
            let before = routing.sums[m as int];
            assert(self.adds_weighted(
                before,
                routing.weights[m as int],
                routing.experts[m as int].down,
                routing.sums[n as int],
            ));
            assert(call_ensures(
                self.mac,
                (before[i], routing.weights[m as int], routing.experts[m as int].down[i]),
                routing.sums[n as int][i],
            ));
        }
    }

    /// The router, in exact arithmetic: it scores every expert by its row, as many as are used are
    /// chosen, none that is left out scores higher, and the softmax of their scores weights them.
    pub proof fn the_best_scored_experts_are_chosen(
        self,
        r: Reading<T>,
        cfg: Config,
        layer: Experts<T>,
        x: Seq<T>,
        routing: Routing<T>,
        e: int,
    ) -> (read: (Vec<T>, Vec<T>))
        requires
            self.exact(r),
            self.selects(cfg, layer, x, routing),
            0 <= e < cfg.n_experts <= usize::MAX,
        ensures
            (r.value)(routing.logits[e]) == r.at(layer.router_b@, e) + exact::sum(
                x.len(),
                |k: int| (r.value)(x[k]) * (r.value)(layer.router_w@[e * x.len() + k]),
            ),
            routing.chosen.len() == cfg.n_experts_used,
            routing.chosen.no_duplicates(),
            call_ensures(self.bits, (routing.logits[e],), routing.bits[e]),
            forall|i: int|
                0 <= i < routing.chosen.len() ==> {
                    &&& (#[trigger] routing.chosen[i]) < cfg.n_experts
                    &&& !routing.chosen.contains(e as usize) ==> float_order::place(
                        routing.bits[e],
                    ) <= float_order::place(routing.bits[routing.chosen[i] as int])
                },
            call_ensures(self.softmax, (read.0, None::<T>), read.1),
            routing.weights == read.1@,
            read.0@.len() == routing.chosen.len(),
            forall|i: int|
                0 <= i < routing.chosen.len() ==> #[trigger] read.0@[i]
                    == routing.logits[routing.chosen[i] as int],
    {
        let taps = fold::run(0, e * x.len(), x.len());
        assert(routing.products[e] == routing.products[e]);
        exact::lemma_accumulates(
            self.mac,
            r.value,
            x,
            layer.router_w@,
            taps,
            self.zero,
            routing.products[e],
        );
        exact::lemma_sum_same(
            x.len(),
            |k: int| (r.value)(x[taps[k].0]) * (r.value)(layer.router_w@[taps[k].1]),
            |k: int| (r.value)(x[k]) * (r.value)(layer.router_w@[e * x.len() + k]),
        );
        assert(routing.logits[e] == routing.logits[e]);
        assert(routing.bits[e] == routing.bits[e]);
        assert forall|i: int| 0 <= i < routing.chosen.len() implies {
            &&& (#[trigger] routing.chosen[i]) < cfg.n_experts
            &&& !routing.chosen.contains(e as usize) ==> float_order::place(routing.bits[e])
                <= float_order::place(routing.bits[routing.chosen[i] as int])
        } by {
            assert(routing.chosen[i] < routing.bits.len());
        }
        choose|scores: Vec<T>, weights: Vec<T>|
            {
                &&& #[trigger] call_ensures(self.softmax, (scores, None::<T>), weights)
                &&& weights@ == routing.weights
                &&& scores@ == Seq::new(
                    routing.chosen.len(),
                    |i: int| routing.logits[routing.chosen[i] as int],
                )
            }
    }

    /// An expert, in exact arithmetic: the products of its own part of each tensor, with its own
    /// row of each bias.
    pub proof fn experts_use_their_own_part(
        self,
        r: Reading<T>,
        cfg: Config,
        grids: Grids,
        file: &GgufFile,
        layer: Experts<T>,
        x: Seq<T>,
        id: int,
        e: Expert<T>,
        i: int,
        j: int,
    )
        requires
            self.exact(r),
            llm_model::experts_fit(cfg, file, layer),
            x.len() == cfg.embed_dim,
            self.consults(cfg, grids, file, layer, x, id, e),
            0 <= id < cfg.n_experts,
            0 <= i < cfg.embed_dim,
            0 <= j < cfg.ffn_dim,
        ensures
            ({
                let elements = (cfg.embed_dim * cfg.ffn_dim) as nat;
                &&& r.multiplies(
                    grids,
                    llm_experts::expert_matrix(file, layer.gate as int, id, elements),
                    x,
                    j,
                    (r.value)(e.gate[j]) - r.at(layer.gate_bias@, id * cfg.ffn_dim + j),
                )
                &&& r.multiplies(
                    grids,
                    llm_experts::expert_matrix(file, layer.up as int, id, elements),
                    x,
                    j,
                    (r.value)(e.up[j]) - r.at(layer.up_bias@, id * cfg.ffn_dim + j),
                )
                &&& if cfg.clamped_swiglu {
                    call_ensures(self.clamped_gate, (e.gate[j], e.up[j]), e.hidden[j])
                } else {
                    call_ensures(self.gate, (e.gate[j], e.up[j]), e.hidden[j])
                }
                &&& r.multiplies(
                    grids,
                    llm_experts::expert_matrix(file, layer.down as int, id, elements),
                    e.hidden,
                    i,
                    (r.value)(e.down[i]) - r.at(layer.down_bias@, id * cfg.embed_dim + i),
                )
            }),
    {
        let d = cfg.embed_dim as nat;
        let f = cfg.ffn_dim as nat;
        let n = cfg.n_experts as nat;
        assert(d * f == f * d) by (nonlinear_arith);
        llm_experts::lemma_expert(file, layer.gate as int, d, f, n, id);
        llm_experts::lemma_expert(file, layer.up as int, d, f, n, id);
        llm_experts::lemma_expert(file, layer.down as int, f, d, n, id);
        self.lemma_projects(
            r,
            false,
            grids,
            llm_experts::expert_matrix(file, layer.gate as int, id, d * f),
            x,
            f,
            e.gate_product,
            j,
        );
        self.lemma_projects(
            r,
            false,
            grids,
            llm_experts::expert_matrix(file, layer.up as int, id, d * f),
            x,
            f,
            e.up_product,
            j,
        );
        self.lemma_projects(
            r,
            false,
            grids,
            llm_experts::expert_matrix(file, layer.down as int, id, f * d),
            e.hidden,
            d,
            e.down_product,
            i,
        );
        self.lemma_shifted(r, layer.gate_bias@, n, f, id, e.gate_product, e.gate, j);
        self.lemma_shifted(r, layer.up_bias@, n, f, id, e.up_product, e.up, j);
        self.lemma_shifted(r, layer.down_bias@, n, d, id, e.down_product, e.down, i);
        assert(e.hidden[j] == e.hidden[j]);
    }

    proof fn lemma_shifted(
        self,
        r: Reading<T>,
        bias: Seq<T>,
        n: nat,
        width: nat,
        id: int,
        x: Seq<T>,
        out: Seq<T>,
        i: int,
    )
        requires
            self.exact(r),
            bias.len() == 0 || n * width <= bias.len(),
            0 <= id < n,
            x.len() == width,
            0 <= i < width,
            self.shifts(x, Self::bias_row(bias, id, width), out),
        ensures
            (r.value)(out[i]) == (r.value)(x[i]) + r.at(bias, id * width + i),
    {
        assert(0 <= id * width && id * width + width <= n * width) by (nonlinear_arith)
            requires
                0 <= id < n,
                0 <= width,
        ;
        let row = Self::bias_row(bias, id, width);
        assert(out[i] == out[i]);
        if bias.len() > 0 {
            assert(row.len() == width);
            assert(row[i] == bias[id * width + i]);
        }
    }

    /// The scores of the vocabulary, in exact arithmetic: the products of the output matrix with
    /// the normalized state.
    pub proof fn scores_come_from_the_output_matrix(
        self,
        r: Reading<T>,
        model: &Model<T>,
        x: Seq<T>,
        logits: Seq<T>,
    ) -> (normed: Seq<T>)
        requires
            self.exact(r),
            model.fits(),
            x.len() == model.cfg.embed_dim,
            self.scores_vocabulary(model, x, logits),
        ensures
            logits.len() == model.cfg.vocab_size,
            self.normalizes(x, model.weights.final_norm@, normed),
            forall|token: int|
                0 <= token < logits.len() ==> r.multiplies(
                    model.grids,
                    arithmetic::matrix_of(model.file, model.weights.lm_head as int),
                    normed,
                    token,
                    (r.value)(#[trigger] logits[token]),
                ),
    {
        let matrix = arithmetic::matrix_of(model.file, model.weights.lm_head as int);
        let rows = model.cfg.vocab_size as nat;
        let normed = choose|normed: Seq<T>|
            {
                &&& #[trigger] self.normalizes(x, model.weights.final_norm@, normed)
                &&& self.projects(model.grids, matrix, normed, rows, logits)
            };
        assert forall|token: int| 0 <= token < logits.len() implies r.multiplies(
            model.grids,
            matrix,
            normed,
            token,
            (r.value)(#[trigger] logits[token]),
        ) by {
            self.lemma_projects(r, false, model.grids, matrix, normed, rows, logits, token);
        }
        normed
    }

    /// Root-mean-square normalization takes one set of statistics over all of the state and
    /// rescales every element by it and by its own weight.
    pub proof fn normalization_rescales_by_one_measure(
        self,
        x: Seq<T>,
        weight: Seq<T>,
        out: Seq<T>,
    )
        requires
            self.normalizes(x, weight, out),
        ensures
            out.len() == x.len(),
            exists|values: &[T], s: Z|
                {
                    &&& values@ == x
                    &&& #[trigger] call_ensures(self.statistics, (values,), s)
                    &&& forall|i: int|
                        0 <= i < x.len() ==> call_ensures(
                            self.rescale,
                            (x[i], s, weight[i]),
                            #[trigger] out[i],
                        )
                },
    {
    }

    /// The weights of a layer are the tensors with its number and their own names; a bias that the
    /// file does not have is zero.
    pub proof fn layers_have_the_tensors_with_their_names(
        self,
        grids: Grids,
        file: &GgufFile,
        cfg: Config,
        l: nat,
        layer: Layer<T>,
    )
        requires
            self.loads_layer(grids, file, cfg, l, layer),
        ensures
            ({
                let start = "blk."@ + text::decimal(l) + "."@;
                &&& is_named(file, layer.q as int, start + "attn_q.weight"@)
                &&& is_named(file, layer.k as int, start + "attn_k.weight"@)
                &&& is_named(file, layer.v as int, start + "attn_v.weight"@)
                &&& is_named(file, layer.out as int, start + "attn_output.weight"@)
                &&& layer.feed matches Feed::Dense { gate, up, down } ==> {
                    &&& cfg.n_experts == 0
                    &&& is_named(file, gate as int, start + "ffn_gate.weight"@)
                    &&& is_named(file, up as int, start + "ffn_up.weight"@)
                    &&& is_named(file, down as int, start + "ffn_down.weight"@)
                }
                &&& layer.feed matches Feed::Routed(e) ==> {
                    &&& cfg.n_experts > 0
                    &&& is_named(file, e.gate as int, start + "ffn_gate_exps.weight"@)
                    &&& is_named(file, e.up as int, start + "ffn_up_exps.weight"@)
                    &&& is_named(file, e.down as int, start + "ffn_down_exps.weight"@)
                }
                &&& is_unnamed(file, start + "attn_q.bias"@) ==> layer.q_bias@ == Seq::new(
                    (cfg.n_heads * cfg.head_dim) as nat,
                    |k: int| self.zero,
                )
                &&& is_unnamed(file, start + "attn_k.bias"@) ==> layer.k_bias@ == Seq::new(
                    (cfg.n_kv_heads * cfg.head_dim) as nat,
                    |k: int| self.zero,
                )
                &&& is_unnamed(file, start + "attn_v.bias"@) ==> layer.v_bias@ == Seq::new(
                    (cfg.n_kv_heads * cfg.head_dim) as nat,
                    |k: int| self.zero,
                )
                &&& forall|index: int| #[trigger]
                    is_named(file, index, start + "attn_norm.weight"@) ==> self.decodes_tensor(
                        grids,
                        file,
                        index,
                        layer.attn_norm@,
                    )
                &&& forall|index: int| #[trigger]
                    is_named(file, index, start + "attn_q.bias"@) ==> self.decodes_tensor(
                        grids,
                        file,
                        index,
                        layer.q_bias@,
                    )
                &&& forall|index: int| #[trigger]
                    is_named(file, index, start + "attn_k.bias"@) ==> self.decodes_tensor(
                        grids,
                        file,
                        index,
                        layer.k_bias@,
                    )
                &&& forall|index: int| #[trigger]
                    is_named(file, index, start + "attn_v.bias"@) ==> self.decodes_tensor(
                        grids,
                        file,
                        index,
                        layer.v_bias@,
                    )
                &&& forall|index: int| #[trigger]
                    is_named(file, index, start + "attn_output.bias"@) ==> self.decodes_tensor(
                        grids,
                        file,
                        index,
                        layer.out_bias@,
                    )
                &&& forall|index: int| #[trigger]
                    is_named(file, index, start + "attn_sinks.weight"@) ==> self.decodes_tensor(
                        grids,
                        file,
                        index,
                        layer.sinks@,
                    )
            }),
    {
        let start = "blk."@ + text::decimal(l) + "."@;
        lemma_named(file, start + "attn_q.weight"@);
        lemma_named(file, start + "attn_k.weight"@);
        lemma_named(file, start + "attn_v.weight"@);
        lemma_named(file, start + "attn_output.weight"@);
        lemma_named(file, start + "ffn_gate.weight"@);
        lemma_named(file, start + "ffn_up.weight"@);
        lemma_named(file, start + "ffn_down.weight"@);
        lemma_named(file, start + "ffn_gate_exps.weight"@);
        lemma_named(file, start + "ffn_up_exps.weight"@);
        lemma_named(file, start + "ffn_down_exps.weight"@);
        lemma_named(file, start + "attn_norm.weight"@);
        lemma_named(file, start + "attn_q.bias"@);
        lemma_named(file, start + "attn_k.bias"@);
        lemma_named(file, start + "attn_v.bias"@);
        lemma_named(file, start + "attn_output.bias"@);
        lemma_named(file, start + "attn_sinks.weight"@);
    }

    /// The embedding of the tokens and the output matrix are the tensors with their names.
    pub proof fn outer_tensors_have_their_names(
        self,
        grids: Grids,
        file: &GgufFile,
        cfg: Config,
        weights: Weights<T>,
    )
        requires
            self.loads_weights(grids, file, cfg, weights),
        ensures
            is_named(file, weights.embed as int, "token_embd.weight"@),
            is_named(file, weights.lm_head as int, "output.weight"@),
            forall|index: int| #[trigger]
                is_named(file, index, "output_norm.weight"@) ==> self.decodes_tensor(
                    grids,
                    file,
                    index,
                    weights.final_norm@,
                ),
    {
        lemma_named(file, "token_embd.weight"@);
        lemma_named(file, "output.weight"@);
        lemma_named(file, "output_norm.weight"@);
    }
}

/// The last tensor with a name is found.
proof fn lemma_named(file: &GgufFile, name: Seq<char>)
    ensures
        match gguf_tensors::last_named(file.tensors@, name) {
            Some(i) => is_named(file, i, name) && forall|index: int| #[trigger]
                is_named(file, index, name) ==> index == i,
            None => is_unnamed(file, name) && forall|index: int| !#[trigger]
                is_named(file, index, name),
        },
{
    gguf_tensors::lemma_last_named(file.tensors@, name);
    let found = gguf_tensors::last_named(file.tensors@, name);
    assert forall|index: int| #[trigger] is_named(file, index, name) implies found == Some(
        index,
    ) by {
        assert(file.tensors@[index].name@ == name);
    }
}

} // verus!
