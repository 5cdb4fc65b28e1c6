//! What the blocks of the UMT5 text encoder compute.

use vstd::prelude::*;
use crate::arithmetic;
use crate::arithmetic::Arithmetic;
use crate::exact;
use crate::fold;
use crate::llm_laws::Reading;
use crate::quant::Weight;
use crate::umt5;
use crate::umt5::{Block, Umt5Encoder};
use crate::umt5_forward;
use crate::umt5_forward::BlockSteps;

verus! {

impl<
    T: Copy,
    Z: Copy,
    N: Fn(Weight) -> T + Copy,
    M: Fn(T, T, T) -> T + Copy,
    L: Fn(T, T, T) -> T + Copy,
    P: Fn(T, T) -> T + Copy,
    A: Fn(&[T]) -> Z + Copy,
    B: Fn(T, Z, T) -> T + Copy,
    R: Fn(T, T, usize, usize) -> (T, T) + Copy,
    C: Fn(T) -> T + Copy,
    H: Fn(Vec<T>, Option<T>) -> Vec<T> + Copy,
    G: Fn(T, T) -> T + Copy,
    K: Fn(T, T) -> T + Copy,
    D: Fn(T) -> u32 + Copy,
> Arithmetic<T, N, M, L, P, A, B, R, C, H, G, K, D> {
    /// What a head of a query reads, in exact arithmetic: its score for a key is their product,
    /// which is not scaled, and the bias of their distance for the head; each result is the average
    /// of a column of the values, weighted by the softmax of the scores.
    pub proof fn heads_average_values_by_likeness_and_distance(
        self,
        r: Reading<T>,
        cfg: umt5::Umt5Config,
        block: Block<T>,
        buckets: Seq<usize>,
        q: Seq<T>,
        k: Seq<T>,
        v: Seq<T>,
        n: nat,
        query: int,
        head: int,
        out: Seq<T>,
    ) -> (read: (Vec<T>, Vec<T>))
        requires
            self.exact(r),
            exact::multiplies_and_adds(self.blend, r.value),
            self.reads_all(cfg, block, buckets, q, k, v, n, query, head, out),
        ensures
            out.len() == cfg.head_dim,
            call_ensures(self.softmax, (read.0, None::<T>), read.1),
            read.0@.len() == n,
            forall|t: int|
                0 <= t < n ==> (r.value)(#[trigger] read.0@[t]) == (r.value)(
                    block.rel_b@[buckets[query * n + t] * cfg.n_heads + head],
                ) + exact::sum(
                    cfg.head_dim as nat,
                    |j: int|
                        (r.value)(q[query * cfg.d_model + head * cfg.head_dim + j]) * (r.value)(
                            k[t * cfg.d_model + head * cfg.head_dim + j],
                        ),
                ),
            forall|i: int|
                0 <= i < cfg.head_dim ==> (r.value)(#[trigger] out[i]) == exact::sum(
                    n,
                    |t: int|
                        (r.value)(read.1@[t]) * (r.value)(
                            v[t * cfg.d_model + (head * cfg.head_dim + i)],
                        ),
                ),
    {
        let (scores, weights) = choose|scores: Vec<T>, weights: Vec<T>|
            {
                &&& #[trigger] call_ensures(self.softmax, (scores, None::<T>), weights)
                &&& scores@.len() == n
                &&& forall|t: int|
                    0 <= t < n ==> self.scores_pair(
                        cfg,
                        block,
                        buckets[query * n + t],
                        q,
                        k,
                        query,
                        t,
                        head,
                        #[trigger] scores@[t],
                    )
                &&& forall|i: int|
                    0 <= i < out.len() ==> fold::accumulates(
                        self.blend,
                        weights@,
                        v,
                        umt5_forward::value_taps(
                            n,
                            cfg.d_model as nat,
                            head * cfg.head_dim + i,
                        ),
                        self.zero,
                        #[trigger] out[i],
                    )
            };
        assert forall|t: int| 0 <= t < n implies (r.value)(#[trigger] scores@[t]) == (r.value)(
            block.rel_b@[buckets[query * n + t] * cfg.n_heads + head],
        ) + exact::sum(
            cfg.head_dim as nat,
            |j: int|
                (r.value)(q[query * cfg.d_model + head * cfg.head_dim + j]) * (r.value)(
                    k[t * cfg.d_model + head * cfg.head_dim + j],
                ),
        ) by {
            let taps = fold::run(
                query * cfg.d_model + head * cfg.head_dim,
                t * cfg.d_model + head * cfg.head_dim,
                cfg.head_dim as nat,
            );
            let bias = block.rel_b@[buckets[query * n + t] * cfg.n_heads + head];
            let product = choose|product: T|
                {
                    &&& fold::accumulates(self.mac, q, k, taps, self.zero, product)
                    &&& #[trigger] call_ensures(self.plus, (product, bias), scores@[t])
                };
            exact::lemma_accumulates(self.mac, r.value, q, k, taps, self.zero, product);
            exact::lemma_sum_same(
                cfg.head_dim as nat,
                |j: int| (r.value)(q[taps[j].0]) * (r.value)(k[taps[j].1]),
                |j: int|
                    (r.value)(q[query * cfg.d_model + head * cfg.head_dim + j]) * (r.value)(
                        k[t * cfg.d_model + head * cfg.head_dim + j],
                    ),
            );
        }
        assert forall|i: int| 0 <= i < cfg.head_dim implies (r.value)(#[trigger] out[i])
            == exact::sum(
            n,
            |t: int|
                (r.value)(weights@[t]) * (r.value)(
                    v[t * cfg.d_model + (head * cfg.head_dim + i)],
                ),
        ) by {
            let taps = umt5_forward::value_taps(
                n,
                cfg.d_model as nat,
                head * cfg.head_dim + i,
            );
            exact::lemma_accumulates(
                self.blend,
                r.value,
                weights@,
                v,
                taps,
                self.zero,
                out[i],
            );
            exact::lemma_sum_same(
                n,
                |t: int| (r.value)(weights@[taps[t].0]) * (r.value)(v[taps[t].1]),
                |t: int|
                    (r.value)(weights@[t]) * (r.value)(
                        v[t * cfg.d_model + (head * cfg.head_dim + i)],
                    ),
            );
        }
        (scores, weights)
    }

    proof fn lemma_projected_row(
        self,
        r: Reading<T>,
        encoder: &Umt5Encoder<T>,
        index: int,
        x: Seq<T>,
        columns: nat,
        rows: nat,
        n: nat,
        out: Seq<T>,
        t: int,
        o: int,
    )
        requires
            self.exact(r),
            arithmetic::holds_matrix(encoder.file, index, columns, rows),
            x.len() == n * columns,
            0 <= t < n,
            0 <= o < rows,
            self.projects_rows(
                encoder.grids,
                arithmetic::matrix_of(encoder.file, index),
                x,
                columns,
                rows,
                n,
                out,
            ),
        ensures
            r.multiplies(
                encoder.grids,
                arithmetic::matrix_of(encoder.file, index),
                arithmetic::row(x, t, columns),
                o,
                (r.value)(out[t * rows + o]),
            ),
    {
        arithmetic::lemma_row(x, t, n, columns);
        arithmetic::lemma_row(out, t, n, rows);
        let part = arithmetic::row(out, t, rows);
        self.lemma_projects(
            r,
            n != 1,
            encoder.grids,
            arithmetic::matrix_of(encoder.file, index),
            arithmetic::row(x, t, columns),
            rows,
            part,
            o,
        );
        assert(part[o] == out[t * rows + o]);
    }

    /// Attention in a block of the encoder, in exact arithmetic: queries, keys and values are the
    /// products of their own matrices with the normalized states, and the product of the output
    /// matrix with what is read is added to the states.
    pub proof fn encoder_attention_adds_to_the_states(
        self,
        r: Reading<T>,
        encoder: &Umt5Encoder<T>,
        block: Block<T>,
        buckets: Seq<usize>,
        n: nat,
        x: Seq<T>,
        s: BlockSteps<T>,
        out: Seq<T>,
        t: int,
        o: int,
    )
        requires
            self.exact(r),
            self.block_step(encoder, block, buckets, n, x, s, out),
            x.len() == n * encoder.cfg.d_model,
            arithmetic::holds_matrix(
                encoder.file,
                block.q as int,
                encoder.cfg.d_model as nat,
                encoder.cfg.d_model as nat,
            ),
            arithmetic::holds_matrix(
                encoder.file,
                block.k as int,
                encoder.cfg.d_model as nat,
                encoder.cfg.d_model as nat,
            ),
            arithmetic::holds_matrix(
                encoder.file,
                block.v as int,
                encoder.cfg.d_model as nat,
                encoder.cfg.d_model as nat,
            ),
            arithmetic::holds_matrix(
                encoder.file,
                block.o as int,
                encoder.cfg.d_model as nat,
                encoder.cfg.d_model as nat,
            ),
            0 <= t < n,
            0 <= o < encoder.cfg.d_model,
        ensures
            ({
                let d = encoder.cfg.d_model as nat;
                let at = t * d + o;
                let normed = arithmetic::row(s.normed, t, d);
                &&& r.multiplies(
                    encoder.grids,
                    arithmetic::matrix_of(encoder.file, block.q as int),
                    normed,
                    o,
                    (r.value)(s.q[at]),
                )
                &&& r.multiplies(
                    encoder.grids,
                    arithmetic::matrix_of(encoder.file, block.k as int),
                    normed,
                    o,
                    (r.value)(s.k[at]),
                )
                &&& r.multiplies(
                    encoder.grids,
                    arithmetic::matrix_of(encoder.file, block.v as int),
                    normed,
                    o,
                    (r.value)(s.v[at]),
                )
                &&& r.multiplies(
                    encoder.grids,
                    arithmetic::matrix_of(encoder.file, block.o as int),
                    arithmetic::row(s.mixed, t, d),
                    o,
                    (r.value)(s.middle[at]) - (r.value)(x[at]),
                )
            }),
    {
        let d = encoder.cfg.d_model as nat;
        let at = t * d + o;
        arithmetic::lemma_row(x, t, n, d);
        self.lemma_projected_row(r, encoder, block.q as int, s.normed, d, d, n, s.q, t, o);
        self.lemma_projected_row(r, encoder, block.k as int, s.normed, d, d, n, s.k, t, o);
        self.lemma_projected_row(r, encoder, block.v as int, s.normed, d, d, n, s.v, t, o);
        self.lemma_projected_row(r, encoder, block.o as int, s.mixed, d, d, n, s.projected, t, o);
        assert(call_ensures(self.plus, (x[at], s.projected[at]), s.middle[at]));
    }

    /// The network in a block of the encoder, in exact arithmetic: the product of the last matrix
    /// with the gated values is added to the states.
    pub proof fn encoder_networks_add_to_the_states(
        self,
        r: Reading<T>,
        encoder: &Umt5Encoder<T>,
        block: Block<T>,
        buckets: Seq<usize>,
        n: nat,
        x: Seq<T>,
        s: BlockSteps<T>,
        out: Seq<T>,
        t: int,
        o: int,
        j: int,
    )
        requires
            self.exact(r),
            self.block_step(encoder, block, buckets, n, x, s, out),
            x.len() == n * encoder.cfg.d_model,
            arithmetic::holds_matrix(
                encoder.file,
                block.gate as int,
                encoder.cfg.d_model as nat,
                encoder.cfg.d_ff as nat,
            ),
            arithmetic::holds_matrix(
                encoder.file,
                block.up as int,
                encoder.cfg.d_model as nat,
                encoder.cfg.d_ff as nat,
            ),
            arithmetic::holds_matrix(
                encoder.file,
                block.down as int,
                encoder.cfg.d_ff as nat,
                encoder.cfg.d_model as nat,
            ),
            0 <= t < n,
            0 <= o < encoder.cfg.d_model,
            0 <= j < encoder.cfg.d_ff,
        ensures
            ({
                let d = encoder.cfg.d_model as nat;
                let f = encoder.cfg.d_ff as nat;
                let at = t * d + o;
                let inner = t * f + j;
                let normed = arithmetic::row(s.normed_again, t, d);
                &&& r.multiplies(
                    encoder.grids,
                    arithmetic::matrix_of(encoder.file, block.gate as int),
                    normed,
                    j,
                    (r.value)(s.gate[inner]),
                )
                &&& r.multiplies(
                    encoder.grids,
                    arithmetic::matrix_of(encoder.file, block.up as int),
                    normed,
                    j,
                    (r.value)(s.up[inner]),
                )
                &&& call_ensures(self.gate, (s.gate[inner], s.up[inner]), s.hidden[inner])
                &&& r.multiplies(
                    encoder.grids,
                    arithmetic::matrix_of(encoder.file, block.down as int),
                    arithmetic::row(s.hidden, t, f),
                    o,
                    (r.value)(out[at]) - (r.value)(s.middle[at]),
                )
            }),
    {
        let d = encoder.cfg.d_model as nat;
        let f = encoder.cfg.d_ff as nat;
        let at = t * d + o;
        let inner = t * f + j;
        arithmetic::lemma_row(x, t, n, d);
        arithmetic::lemma_row(s.gate, t, n, f);
        let again = s.normed_again;
        self.lemma_projected_row(r, encoder, block.gate as int, again, d, f, n, s.gate, t, j);
        self.lemma_projected_row(r, encoder, block.up as int, again, d, f, n, s.up, t, j);
        self.lemma_projected_row(r, encoder, block.down as int, s.hidden, f, d, n, s.down, t, o);
        assert(call_ensures(self.plus, (s.middle[at], s.down[at]), out[at]));
        assert(s.hidden[inner] == s.hidden[inner]);
    }
}

} // verus!
