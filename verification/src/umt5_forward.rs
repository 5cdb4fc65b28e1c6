//! Text through the UMT5 encoder.

use vstd::prelude::*;
use crate::arithmetic;
use crate::arithmetic::{append_row, Arithmetic};
use crate::fold;
use crate::fold::dot;
use crate::gguf::TensorInfo;
use crate::quant;
use crate::quant::Weight;
use crate::umt5;
use crate::umt5::{Block, Umt5Encoder};
use crate::umt5_buckets;
use crate::umt5_buckets::relative_bucket;

verus! {

/// The weights paired with one column of the values of `n` tokens.
pub open spec fn value_taps(n: nat, width: nat, column: int) -> Seq<(int, int)> {
    Seq::new(n, |t: int| (t, t * width + column))
}

/// The buckets of `n` tokens: for each query, those of the keys.
pub open spec fn tabulates<F: Fn(usize, usize, usize, usize) -> usize>(
    step: F,
    cfg: umt5::Umt5Config,
    n: nat,
    buckets: Seq<usize>,
) -> bool {
    &&& buckets.len() == n * n
    &&& forall|query: int, key: int|
        0 <= query < n && 0 <= key < n ==> umt5_buckets::places(
            step,
            (key - query) as i32,
            cfg.n_buckets,
            cfg.max_distance,
            #[trigger] buckets[query * n + key],
        )
    &&& forall|i: int| 0 <= i < buckets.len() ==> #[trigger] buckets[i] < cfg.n_buckets
}

/// The steps of all distances among `n` tokens can be computed and counted.
pub open spec fn all_countable<F: Fn(usize, usize, usize, usize) -> usize>(
    step: F,
    cfg: umt5::Umt5Config,
    n: nat,
) -> bool {
    forall|d: usize|
        d < n ==> #[trigger] umt5_buckets::countable(step, d, cfg.n_buckets, cfg.max_distance)
}

/// The buckets of `n` tokens.
fn bucket_table<F: Fn(usize, usize, usize, usize) -> usize>(
    cfg: &umt5::Umt5Config,
    n: usize,
    step: &F,
) -> (buckets: Vec<usize>)
    requires
        2 <= cfg.n_buckets,
        n <= i32::MAX,
        n * n <= usize::MAX,
        all_countable(*step, *cfg, n as nat),
    ensures
        tabulates(*step, *cfg, n as nat, buckets@),
{
    let mut buckets: Vec<usize> = Vec::new();
    let mut query: usize = 0;
    proof {
        assert(0 * n == 0);
    }
    while query < n
        invariant
            query <= n <= i32::MAX,
            2 <= cfg.n_buckets,
            all_countable(*step, *cfg, n as nat),
            buckets@.len() == query * n,
            forall|q: int, k: int|
                0 <= q < query && 0 <= k < n ==> umt5_buckets::places(
                    *step,
                    (k - q) as i32,
                    cfg.n_buckets,
                    cfg.max_distance,
                    #[trigger] buckets@[q * n + k],
                ),
            forall|i: int| 0 <= i < buckets@.len() ==> #[trigger] buckets@[i] < cfg.n_buckets,
        decreases n - query,
    {
        let mut key: usize = 0;
        let ghost before = buckets@;
        while key < n
            invariant
                query < n <= i32::MAX,
                key <= n,
                2 <= cfg.n_buckets,
                all_countable(*step, *cfg, n as nat),
                before.len() == query * n,
                buckets@.len() == query * n + key,
                buckets@.take(query * n) == before,
                forall|k: int|
                    0 <= k < key ==> umt5_buckets::places(
                        *step,
                        (k - query) as i32,
                        cfg.n_buckets,
                        cfg.max_distance,
                        #[trigger] buckets@[query * n + k],
                    ),
                forall|i: int| 0 <= i < buckets@.len() ==> #[trigger] buckets@[i] < cfg.n_buckets,
            decreases n - key,
        {
            let rel: i32 = key as i32 - query as i32;
            proof {
                assert(umt5_buckets::countable(
                    *step,
                    umt5_buckets::distance(rel) as usize,
                    cfg.n_buckets,
                    cfg.max_distance,
                ));
            }
            let ghost held = buckets@;
            buckets.push(relative_bucket(rel, cfg.n_buckets, cfg.max_distance, step));
            proof {
                assert(buckets@.take(query * n) =~= held.take(query * n));
                assert forall|k: int| 0 <= k < key + 1 implies umt5_buckets::places(
                    *step,
                    (k - query) as i32,
                    cfg.n_buckets,
                    cfg.max_distance,
                    #[trigger] buckets@[query * n + k],
                ) by {
                    if k < key {
                        assert(buckets@[query * n + k] == held[query * n + k]);
                    }
                }
            }
            key = key + 1;
        }
        proof {
            assert((query + 1) * n == query * n + n) by (nonlinear_arith);
            assert forall|q: int, k: int| 0 <= q < query + 1 && 0 <= k < n implies
                umt5_buckets::places(
                *step,
                (k - q) as i32,
                cfg.n_buckets,
                cfg.max_distance,
                #[trigger] buckets@[q * n + k],
            ) by {
                if q < query {
                    assert(0 <= q * n + k < query * n) by (nonlinear_arith)
                        requires
                            0 <= q < query,
                            0 <= k < n,
                    ;
                    assert(buckets@[q * n + k] == buckets@.take(query * n)[q * n + k]);
                    assert(before[q * n + k] == buckets@[q * n + k]);
                }
            }
        }
        query = query + 1;
    }
    buckets
}

/// The inner values of a block.
pub struct BlockSteps<T> {
    pub normed: Seq<T>,
    pub q: Seq<T>,
    pub k: Seq<T>,
    pub v: Seq<T>,
    pub mixed: Seq<T>,
    pub projected: Seq<T>,
    pub middle: Seq<T>,
    pub normed_again: Seq<T>,
    pub gate: Seq<T>,
    pub up: Seq<T>,
    pub hidden: Seq<T>,
    pub down: Seq<T>,
}

impl<
    T: Copy,
    Z: Copy,
    N: Fn(Weight) -> T + Copy,
    M: Fn(T, T, T) -> T + Copy,
    L: Fn(T, T, T) -> T + Copy,
    P: Fn(T, T) -> T + Copy,
    A: Fn(&[T]) -> Z + Copy,
    B: Fn(T, Z, T) -> T + Copy,
    R: Fn(T, T, usize, usize) -> (T, T) + Copy,
    C: Fn(T) -> T + Copy,
    H: Fn(Vec<T>, Option<T>) -> Vec<T> + Copy,
    G: Fn(T, T) -> T + Copy,
    K: Fn(T, T) -> T + Copy,
    D: Fn(T) -> u32 + Copy,
> Arithmetic<T, N, M, L, P, A, B, R, C, H, G, K, D> {
    /// `score` is the product of a head of a query with the same head of a key, and the bias of
    /// the bucket of their distance.
    pub open spec fn scores_pair(
        self,
        cfg: umt5::Umt5Config,
        block: Block<T>,
        bucket: usize,
        q: Seq<T>,
        k: Seq<T>,
        query: int,
        key: int,
        head: int,
        score: T,
    ) -> bool {
        exists|product: T|
            {
                &&& fold::accumulates(
                    self.mac,
                    q,
                    k,
                    fold::run(
                        query * cfg.d_model + head * cfg.head_dim,
                        key * cfg.d_model + head * cfg.head_dim,
                        cfg.head_dim as nat,
                    ),
                    self.zero,
                    product,
                )
                &&& #[trigger] call_ensures(
                    self.plus,
                    (product, block.rel_b@[bucket * cfg.n_heads + head]),
                    score,
                )
            }
    }

    /// `out` is what a head of a query reads: its scores against all `n` keys are turned into
    /// weights, and the values are summed with them.
    pub open spec fn reads_all(
        self,
        cfg: umt5::Umt5Config,
        block: Block<T>,
        buckets: Seq<usize>,
        q: Seq<T>,
        k: Seq<T>,
        v: Seq<T>,
        n: nat,
        query: int,
        head: int,
        out: Seq<T>,
    ) -> bool {
        &&& out.len() == cfg.head_dim
        &&& exists|scores: Vec<T>, weights: Vec<T>|
            {
                &&& #[trigger] call_ensures(self.softmax, (scores, None::<T>), weights)
                &&& scores@.len() == n
                &&& forall|t: int|
                    0 <= t < n ==> self.scores_pair(
                        cfg,
                        block,
                        buckets[query * n + t],
                        q,
                        k,
                        query,
                        t,
                        head,
                        #[trigger] scores@[t],
                    )
                &&& forall|i: int|
                    0 <= i < out.len() ==> fold::accumulates(
                        self.blend,
                        weights@,
                        v,
                        value_taps(n, cfg.d_model as nat, head * cfg.head_dim + i),
                        self.zero,
                        #[trigger] out[i],
                    )
            }
    }

    /// `out` is what a query reads: each head its part, and zeros where the heads do not reach.
    pub open spec fn mixes(
        self,
        cfg: umt5::Umt5Config,
        block: Block<T>,
        buckets: Seq<usize>,
        q: Seq<T>,
        k: Seq<T>,
        v: Seq<T>,
        n: nat,
        query: int,
        out: Seq<T>,
    ) -> bool {
        &&& out.len() == cfg.d_model
        &&& forall|head: int|
            0 <= head < cfg.n_heads ==> self.reads_all(
                cfg,
                block,
                buckets,
                q,
                k,
                v,
                n,
                query,
                head,
                #[trigger] arithmetic::row(out, head, cfg.head_dim as nat),
            )
        &&& forall|c: int|
            cfg.n_heads * cfg.head_dim <= c < out.len() ==> #[trigger] out[c] == self.zero
    }

    /// Each row of `out` is a row of `x` normalized.
    pub open spec fn normalizes_rows(
        self,
        x: Seq<T>,
        n: nat,
        width: nat,
        weight: Seq<T>,
        out: Seq<T>,
    ) -> bool {
        &&& out.len() == n * width
        &&& forall|t: int|
            0 <= t < n ==> self.normalizes(
                arithmetic::row(x, t, width),
                weight,
                #[trigger] arithmetic::row(out, t, width),
            )
    }

    /// A block takes the states `x` of `n` tokens to `out`.
    pub open spec fn block_step(
        self,
        encoder: &Umt5Encoder<T>,
        block: Block<T>,
        buckets: Seq<usize>,
        n: nat,
        x: Seq<T>,
        s: BlockSteps<T>,
        out: Seq<T>,
    ) -> bool {
        let d = encoder.cfg.d_model as nat;
        let f = encoder.cfg.d_ff as nat;
        let file = encoder.file;
        let grids = encoder.grids;
        &&& self.normalizes_rows(x, n, d, block.attn_norm@, s.normed)
        &&& self.projects_rows(
            grids,
            arithmetic::matrix_of(file, block.q as int),
            s.normed,
            d,
            d,
            n,
            s.q,
        )
        &&& self.projects_rows(
            grids,
            arithmetic::matrix_of(file, block.k as int),
            s.normed,
            d,
            d,
            n,
            s.k,
        )
        &&& self.projects_rows(
            grids,
            arithmetic::matrix_of(file, block.v as int),
            s.normed,
            d,
            d,
            n,
            s.v,
        )
        &&& s.mixed.len() == n * d
        &&& forall|t: int|
            0 <= t < n ==> self.mixes(
                encoder.cfg,
                block,
                buckets,
                s.q,
                s.k,
                s.v,
                n,
                t,
                #[trigger] arithmetic::row(s.mixed, t, d),
            )
        &&& self.projects_rows(
            grids,
            arithmetic::matrix_of(file, block.o as int),
            s.mixed,
            d,
            d,
            n,
            s.projected,
        )
        &&& self.sums(x, s.projected, s.middle)
        &&& self.normalizes_rows(s.middle, n, d, block.ffn_norm@, s.normed_again)
        &&& self.projects_rows(
            grids,
            arithmetic::matrix_of(file, block.gate as int),
            s.normed_again,
            d,
            f,
            n,
            s.gate,
        )
        &&& self.projects_rows(
            grids,
            arithmetic::matrix_of(file, block.up as int),
            s.normed_again,
            d,
            f,
            n,
            s.up,
        )
        &&& self.gates(false, s.gate, s.up, s.hidden)
        &&& self.projects_rows(
            grids,
            arithmetic::matrix_of(file, block.down as int),
            s.hidden,
            f,
            d,
            n,
            s.down,
        )
        &&& self.sums(s.middle, s.down, out)
    }

    /// A block takes the states `x` of `n` tokens to `out`.
    pub open spec fn block_takes(
        self,
        encoder: &Umt5Encoder<T>,
        block: Block<T>,
        buckets: Seq<usize>,
        n: nat,
        x: Seq<T>,
        out: Seq<T>,
    ) -> bool {
        exists|s: BlockSteps<T>| #[trigger] self.block_step(encoder, block, buckets, n, x, s, out)
    }

    /// `x` holds the embeddings of tokens, one row each.
    pub open spec fn embeds_ids(self, encoder: &Umt5Encoder<T>, ids: Seq<u32>, x: Seq<T>) -> bool {
        let d = encoder.cfg.d_model as nat;
        let table = arithmetic::matrix_of(encoder.file, encoder.embd as int);
        &&& x.len() == ids.len() * d
        &&& forall|t: int|
            0 <= t < ids.len() ==> quant::decodes(
                self.number,
                table.ggml_type,
                quant::row_bytes_of(table.ggml_type, table.data, d, ids[t] as int),
                encoder.grids,
                #[trigger] arithmetic::row(x, t, d),
            )
    }

    /// `states` are the states of tokens before each block and after the last.
    pub open spec fn passes(
        self,
        encoder: &Umt5Encoder<T>,
        buckets: Seq<usize>,
        ids: Seq<u32>,
        states: Seq<Seq<T>>,
    ) -> bool {
        &&& states.len() == encoder.blocks@.len() + 1
        &&& self.embeds_ids(encoder, ids, states[0])
        &&& forall|b: int|
            0 <= b < encoder.blocks@.len() ==> self.block_takes(
                encoder,
                #[trigger] encoder.blocks@[b],
                buckets,
                ids.len(),
                states[b],
                states[b + 1],
            )
    }

    /// `out` is the encoding of `ids` with zeros for `padding` more tokens.
    pub open spec fn encodes<F: Fn(usize, usize, usize, usize) -> usize>(
        self,
        step: F,
        encoder: &Umt5Encoder<T>,
        ids: Seq<u32>,
        padding: nat,
        out: Seq<T>,
    ) -> bool {
        let d = encoder.cfg.d_model as nat;
        &&& out.len() == (ids.len() + padding) * d
        &&& exists|buckets: Seq<usize>, states: Seq<Seq<T>>|
            {
                &&& tabulates(step, encoder.cfg, ids.len(), buckets)
                &&& #[trigger] self.passes(encoder, buckets, ids, states)
                &&& forall|t: int|
                    0 <= t < ids.len() ==> self.normalizes(
                        arithmetic::row(states.last(), t, d),
                        encoder.out_norm@,
                        #[trigger] arithmetic::row(out, t, d),
                    )
            }
        &&& forall|c: int| ids.len() * d <= c < out.len() ==> #[trigger] out[c] == self.zero
    }

    /// What a head of a query reads.
    #[verifier::rlimit(40)]
    fn read_all(
        &self,
        encoder: &Umt5Encoder<T>,
        block: &Block<T>,
        buckets: &[usize],
        q: &[T],
        k: &[T],
        v: &[T],
        n: usize,
        query: usize,
        head: usize,
    ) -> (out: Vec<T>)
        requires
            self.usable(),
            encoder.fits(n as nat),
            umt5::block_fits(encoder.cfg, encoder.file, *block),
            buckets@.len() == n * n,
            forall|i: int|
                0 <= i < buckets@.len() ==> #[trigger] buckets@[i] < encoder.cfg.n_buckets,
            query < n,
            head < encoder.cfg.n_heads,
            q@.len() == n * encoder.cfg.d_model,
            k@.len() == n * encoder.cfg.d_model,
            v@.len() == n * encoder.cfg.d_model,
        ensures
            self.reads_all(
                encoder.cfg,
                *block,
                buckets@,
                q@,
                k@,
                v@,
                n as nat,
                query as int,
                head as int,
                out@,
            ),
    {
        let cfg = &encoder.cfg;
        let d: usize = cfg.d_model;
        let width: usize = cfg.head_dim;
        proof {
            arithmetic::lemma_row(q@, query as int, n as nat, d as nat);
            assert(0 <= head * width && head * width + width <= cfg.n_heads * width)
                by (nonlinear_arith)
                requires
                    0 <= head < cfg.n_heads,
                    0 <= width,
            ;
            assert(q@.len() == q.len());
            assert(k@.len() == k.len());
            assert(v@.len() == v.len());
            assert(buckets@.len() == buckets.len());
        }
        let off: usize = head * width;
        let mut scores: Vec<T> = Vec::with_capacity(n);
        let mut t: usize = 0;
        while t < n
            invariant
                self.usable(),
                encoder.fits(n as nat),
                umt5::block_fits(encoder.cfg, encoder.file, *block),
                buckets@.len() == n * n == buckets.len(),
                forall|i: int|
                    0 <= i < buckets@.len() ==> #[trigger] buckets@[i] < encoder.cfg.n_buckets,
                *cfg == encoder.cfg,
                d == cfg.d_model,
                width == cfg.head_dim,
                query < n,
                head < cfg.n_heads,
                off == head * width,
                off + width <= d,
                0 <= query * d,
                query * d + d <= q@.len() == q.len(),
                k@.len() == n * d == k.len(),
                t == scores@.len() <= n,
                forall|s: int|
                    0 <= s < t ==> self.scores_pair(
                        *cfg,
                        *block,
                        buckets@[query * n + s],
                        q@,
                        k@,
                        query as int,
                        s,
                        head as int,
                        #[trigger] scores@[s],
                    ),
            decreases n - t,
        {
            proof {
                arithmetic::lemma_row(k@, t as int, n as nat, d as nat);
            }
            let product = dot(q, query * d + off, k, t * d + off, width, self.zero, &self.mac);
            proof {
                assert(0 <= query * n && query * n + t < n * n) by (nonlinear_arith)
                    requires
                        0 <= query < n,
                        0 <= t < n,
                ;
            }
            let bucket: usize = buckets[query * n + t];
            proof {
                let h = cfg.n_heads as int;
                assert(block.rel_b@.len() == block.rel_b.len());
                assert(0 <= bucket * h && bucket * h + head < cfg.n_buckets * h)
                    by (nonlinear_arith)
                    requires
                        0 <= bucket < cfg.n_buckets,
                        0 <= head < h,
                ;
            }
            let at: usize = bucket * cfg.n_heads + head;
            let score = (self.plus)(product, block.rel_b[at]);
            proof {
                assert(call_ensures(
                    self.plus,
                    (product, block.rel_b@[bucket * cfg.n_heads + head]),
                    score,
                ));
            }
            scores.push(score);
            t = t + 1;
        }
        let ghost scored = scores;
        let weights = (self.softmax)(scores, None);
        let mut out: Vec<T> = Vec::with_capacity(width);
        let mut i: usize = 0;
        while i < width
            invariant
                self.usable(),
                i == out@.len() <= width,
                off + width <= d,
                weights@.len() == n,
                v@.len() == n * d == v.len(),
                forall|j: int|
                    0 <= j < i ==> fold::accumulates(
                        self.blend,
                        weights@,
                        v@,
                        value_taps(n as nat, d as nat, off + j),
                        self.zero,
                        #[trigger] out@[j],
                    ),
            decreases width - i,
        {
            let total = self.blend_values(&weights, v, n, d, off + i);
            out.push(total);
            i = i + 1;
        }
        proof {
            assert(call_ensures(self.softmax, (scored, None::<T>), weights));
        }
        out
    }

    /// The weighted sum of one column of values.
    fn blend_values(
        &self,
        weights: &[T],
        v: &[T],
        n: usize,
        width: usize,
        column: usize,
    ) -> (total: T)
        requires
            self.usable(),
            weights@.len() == n,
            v@.len() == n * width,
            column < width,
        ensures
            fold::accumulates(
                self.blend,
                weights@,
                v@,
                value_taps(n as nat, width as nat, column as int),
                self.zero,
                total,
            ),
    {
        let mut total = self.zero;
        let mut t: usize = 0;
        proof {
            assert(value_taps(0, width as nat, column as int) =~= Seq::empty());
            assert(weights@.len() == weights.len());
            assert(v@.len() == v.len());
        }
        while t < n
            invariant
                self.usable(),
                t <= n == weights@.len() == weights.len(),
                v@.len() == n * width == v.len(),
                column < width,
                fold::accumulates(
                    self.blend,
                    weights@,
                    v@,
                    value_taps(t as nat, width as nat, column as int),
                    self.zero,
                    total,
                ),
            decreases n - t,
        {
            proof {
                arithmetic::lemma_row(v@, t as int, n as nat, width as nat);
            }
            let at: usize = t * width + column;
            let ghost partial = total;
            total = (self.blend)(total, weights[t], v[at]);
            proof {
                let taps = value_taps(t as nat, width as nat, column as int);
                fold::lemma_accumulates_push(
                    self.blend,
                    weights@,
                    v@,
                    taps,
                    (t as int, at as int),
                    self.zero,
                    partial,
                    total,
                );
                assert(taps.push((t as int, at as int)) =~= value_taps(
                    (t + 1) as nat,
                    width as nat,
                    column as int,
                ));
            }
            t = t + 1;
        }
        total
    }

    /// What a query reads.
    fn mix(
        &self,
        encoder: &Umt5Encoder<T>,
        block: &Block<T>,
        buckets: &[usize],
        q: &[T],
        k: &[T],
        v: &[T],
        n: usize,
        query: usize,
    ) -> (out: Vec<T>)
        requires
            self.usable(),
            encoder.fits(n as nat),
            umt5::block_fits(encoder.cfg, encoder.file, *block),
            buckets@.len() == n * n,
            forall|i: int|
                0 <= i < buckets@.len() ==> #[trigger] buckets@[i] < encoder.cfg.n_buckets,
            query < n,
            q@.len() == n * encoder.cfg.d_model,
            k@.len() == n * encoder.cfg.d_model,
            v@.len() == n * encoder.cfg.d_model,
        ensures
            self.mixes(encoder.cfg, *block, buckets@, q@, k@, v@, n as nat, query as int, out@),
    {
        let width: usize = encoder.cfg.head_dim;
        let mut out: Vec<T> = Vec::with_capacity(encoder.cfg.d_model);
        let ghost mut rows: Seq<Seq<T>> = Seq::empty();
        let mut head: usize = 0;
        while head < encoder.cfg.n_heads
            invariant
                self.usable(),
                encoder.fits(n as nat),
                umt5::block_fits(encoder.cfg, encoder.file, *block),
                buckets@.len() == n * n,
                forall|i: int|
                    0 <= i < buckets@.len() ==> #[trigger] buckets@[i] < encoder.cfg.n_buckets,
                query < n,
                width == encoder.cfg.head_dim,
                q@.len() == n * encoder.cfg.d_model,
                k@.len() == n * encoder.cfg.d_model,
                v@.len() == n * encoder.cfg.d_model,
                head == rows.len() <= encoder.cfg.n_heads,
                out@ == arithmetic::joined_rows(rows),
                forall|g: int|
                    0 <= g < head ==> (#[trigger] rows[g]).len() == width && self.reads_all(
                        encoder.cfg,
                        *block,
                        buckets@,
                        q@,
                        k@,
                        v@,
                        n as nat,
                        query as int,
                        g,
                        rows[g],
                    ),
            decreases encoder.cfg.n_heads - head,
        {
            let part = self.read_all(encoder, block, buckets, q, k, v, n, query, head);
            append_row(&mut out, &part);
            proof {
                let before = rows;
                rows = rows.push(part@);
                assert(rows.drop_last() =~= before);
            }
            head = head + 1;
        }
        let ghost heads = out@;
        proof {
            arithmetic::lemma_joined_rows(rows, width as nat);
        }
        while out.len() < encoder.cfg.d_model
            invariant
                heads.len() <= out@.len() <= encoder.cfg.d_model,
                forall|c: int| 0 <= c < heads.len() ==> #[trigger] out@[c] == heads[c],
                forall|c: int| heads.len() <= c < out@.len() ==> #[trigger] out@[c] == self.zero,
            decreases encoder.cfg.d_model - out.len(),
        {
            out.push(self.zero);
        }
        proof {
            assert forall|g: int| 0 <= g < encoder.cfg.n_heads implies self.reads_all(
                encoder.cfg,
                *block,
                buckets@,
                q@,
                k@,
                v@,
                n as nat,
                query as int,
                g,
                #[trigger] arithmetic::row(out@, g, width as nat),
            ) by {
                assert(rows[g].len() == width);
                arithmetic::lemma_row(heads, g, encoder.cfg.n_heads as nat, width as nat);
                assert(arithmetic::row(out@, g, width as nat) =~= arithmetic::row(
                    heads,
                    g,
                    width as nat,
                ));
            }
        }
        out
    }

    /// What each of `n` queries reads.
    fn mix_rows(
        &self,
        encoder: &Umt5Encoder<T>,
        block: &Block<T>,
        buckets: &[usize],
        q: &[T],
        k: &[T],
        v: &[T],
        n: usize,
    ) -> (out: Vec<T>)
        requires
            self.usable(),
            encoder.fits(n as nat),
            umt5::block_fits(encoder.cfg, encoder.file, *block),
            buckets@.len() == n * n,
            forall|i: int|
                0 <= i < buckets@.len() ==> #[trigger] buckets@[i] < encoder.cfg.n_buckets,
            q@.len() == n * encoder.cfg.d_model,
            k@.len() == n * encoder.cfg.d_model,
            v@.len() == n * encoder.cfg.d_model,
        ensures
            out@.len() == n * encoder.cfg.d_model,
            forall|t: int|
                0 <= t < n ==> self.mixes(
                    encoder.cfg,
                    *block,
                    buckets@,
                    q@,
                    k@,
                    v@,
                    n as nat,
                    t,
                    #[trigger] arithmetic::row(out@, t, encoder.cfg.d_model as nat),
                ),
    {
        let mut out: Vec<T> = Vec::new();
        let ghost mut rows: Seq<Seq<T>> = Seq::empty();
        let mut t: usize = 0;
        while t < n
            invariant
                self.usable(),
                encoder.fits(n as nat),
                umt5::block_fits(encoder.cfg, encoder.file, *block),
                buckets@.len() == n * n,
                forall|i: int|
                    0 <= i < buckets@.len() ==> #[trigger] buckets@[i] < encoder.cfg.n_buckets,
                q@.len() == n * encoder.cfg.d_model,
                k@.len() == n * encoder.cfg.d_model,
                v@.len() == n * encoder.cfg.d_model,
                t == rows.len() <= n,
                out@ == arithmetic::joined_rows(rows),
                forall|i: int|
                    0 <= i < t ==> (#[trigger] rows[i]).len() == encoder.cfg.d_model && self.mixes(
                        encoder.cfg,
                        *block,
                        buckets@,
                        q@,
                        k@,
                        v@,
                        n as nat,
                        i,
                        rows[i],
                    ),
            decreases n - t,
        {
            let part = self.mix(encoder, block, buckets, q, k, v, n, t);
            append_row(&mut out, &part);
            proof {
                let before = rows;
                rows = rows.push(part@);
                assert(rows.drop_last() =~= before);
            }
            t = t + 1;
        }
        proof {
            arithmetic::lemma_joined_rows(rows, encoder.cfg.d_model as nat);
            assert forall|t: int| 0 <= t < n implies self.mixes(
                encoder.cfg,
                *block,
                buckets@,
                q@,
                k@,
                v@,
                n as nat,
                t,
                #[trigger] arithmetic::row(out@, t, encoder.cfg.d_model as nat),
            ) by {
                assert(rows[t].len() == encoder.cfg.d_model);
            }
        }
        out
    }

    /// Takes `n` tokens through a block.
    fn pass_block(
        &self,
        encoder: &Umt5Encoder<T>,
        block: &Block<T>,
        buckets: &[usize],
        n: usize,
        x: &[T],
    ) -> (out: Vec<T>)
        requires
            self.usable(),
            encoder.fits(n as nat),
            umt5::block_fits(encoder.cfg, encoder.file, *block),
            buckets@.len() == n * n,
            forall|i: int|
                0 <= i < buckets@.len() ==> #[trigger] buckets@[i] < encoder.cfg.n_buckets,
            x@.len() == n * encoder.cfg.d_model,
        ensures
            out@.len() == n * encoder.cfg.d_model,
            self.block_takes(encoder, *block, buckets@, n as nat, x@, out@),
    {
        let d: usize = encoder.cfg.d_model;
        let f: usize = encoder.cfg.d_ff;
        let normed = self.norm_rows(x, n, d, &block.attn_norm);
        let q = self.project_rows(&encoder.grids, encoder.file, block.q, &normed, d, d, n);
        let k = self.project_rows(&encoder.grids, encoder.file, block.k, &normed, d, d, n);
        let v = self.project_rows(&encoder.grids, encoder.file, block.v, &normed, d, d, n);
        let mixed = self.mix_rows(encoder, block, buckets, &q, &k, &v, n);
        let projected = self.project_rows(&encoder.grids, encoder.file, block.o, &mixed, d, d, n);
        let middle = self.add(x, &projected);
        let normed_again = self.norm_rows(&middle, n, d, &block.ffn_norm);
        let gate = self.project_rows(
            &encoder.grids,
            encoder.file,
            block.gate,
            &normed_again,
            d,
            f,
            n,
        );
        let up = self.project_rows(
            &encoder.grids,
            encoder.file,
            block.up,
            &normed_again,
            d,
            f,
            n,
        );
        let hidden = self.gated(false, &gate, &up);
        let down = self.project_rows(&encoder.grids, encoder.file, block.down, &hidden, f, d, n);
        let out = self.add(&middle, &down);
        let ghost s = BlockSteps {
            normed: normed@,
            q: q@,
            k: k@,
            v: v@,
            mixed: mixed@,
            projected: projected@,
            middle: middle@,
            normed_again: normed_again@,
            gate: gate@,
            up: up@,
            hidden: hidden@,
            down: down@,
        };
        assert(self.block_step(encoder, *block, buckets@, n as nat, x@, s, out@));
        out
    }

    /// The embeddings of tokens, one row each.
    fn embed_ids(&self, encoder: &Umt5Encoder<T>, ids: &[u32]) -> (x: Vec<T>)
        requires
            self.usable(),
            encoder.grids.wf(),
            forall|t: int| 0 <= t < ids@.len() ==> encoder.knows(#[trigger] ids@[t] as int),
        ensures
            self.embeds_ids(encoder, ids@, x@),
    {
        let mut x: Vec<T> = Vec::new();
        let ghost mut rows: Seq<Seq<T>> = Seq::empty();
        let ghost d = encoder.cfg.d_model as nat;
        let ghost table = arithmetic::matrix_of(encoder.file, encoder.embd as int);
        let mut t: usize = 0;
        proof {
            assert(ids@.len() == ids.len());
        }
        while t < ids.len()
            invariant
                self.usable(),
                encoder.grids.wf(),
                forall|t: int| 0 <= t < ids@.len() ==> encoder.knows(#[trigger] ids@[t] as int),
                t == rows.len() <= ids@.len() == ids.len(),
                d == encoder.cfg.d_model,
                table == arithmetic::matrix_of(encoder.file, encoder.embd as int),
                x@ == arithmetic::joined_rows(rows),
                forall|i: int|
                    0 <= i < t ==> (#[trigger] rows[i]).len() == d && quant::decodes(
                        self.number,
                        table.ggml_type,
                        quant::row_bytes_of(table.ggml_type, table.data, d, ids@[i] as int),
                        encoder.grids,
                        rows[i],
                    ),
            decreases ids.len() - t,
        {
            proof {
                assert(encoder.knows(ids@[t as int] as int));
            }
            let info: &TensorInfo = &encoder.file.tensors[encoder.embd];
            let data = encoder.file.tensor_data(info);
            let part = quant::decode_row(
                data,
                info.ggml_type,
                encoder.cfg.d_model,
                ids[t] as usize,
                &encoder.grids,
                &self.number,
            );
            append_row(&mut x, &part);
            proof {
                let before = rows;
                rows = rows.push(part@);
                assert(rows.drop_last() =~= before);
            }
            t = t + 1;
        }
        proof {
            arithmetic::lemma_joined_rows(rows, d);
            assert forall|t: int| 0 <= t < ids@.len() implies quant::decodes(
                self.number,
                table.ggml_type,
                quant::row_bytes_of(table.ggml_type, table.data, d, ids@[t] as int),
                encoder.grids,
                #[trigger] arithmetic::row(x@, t, d),
            ) by {
                assert(rows[t].len() == d);
            }
        }
        x
    }

    /// Encodes tokens. The stack runs over the tokens that are given alone; the rows of further
    /// tokens are zeros.
    fn encode<F: Fn(usize, usize, usize, usize) -> usize>(
        &self,
        encoder: &Umt5Encoder<T>,
        ids: &[u32],
        padding: usize,
        step: &F,
    ) -> (out: Vec<T>)
        requires
            self.usable(),
            encoder.fits(ids@.len()),
            all_countable(*step, encoder.cfg, ids@.len()),
            forall|t: int| 0 <= t < ids@.len() ==> encoder.knows(#[trigger] ids@[t] as int),
            ids@.len() + padding <= usize::MAX,
            (ids@.len() + padding) * encoder.cfg.d_model <= usize::MAX,
        ensures
            self.encodes(*step, encoder, ids@, padding as nat, out@),
    {
        proof {
            assert(ids@.len() == ids.len());
        }
        let n: usize = ids.len();
        let ghost d = encoder.cfg.d_model as nat;
        let mut x = self.embed_ids(encoder, ids);
        let buckets = bucket_table(&encoder.cfg, n, step);
        let ghost mut states: Seq<Seq<T>> = seq![x@];
        let mut b: usize = 0;
        while b < encoder.blocks.len()
            invariant
                self.usable(),
                encoder.fits(n as nat),
                n == ids@.len(),
                tabulates(*step, encoder.cfg, n as nat, buckets@),
                b <= encoder.blocks@.len(),
                states.len() == b + 1,
                x@ == states[b as int],
                x@.len() == n * encoder.cfg.d_model,
                self.embeds_ids(encoder, ids@, states[0]),
                forall|i: int|
                    0 <= i < b ==> self.block_takes(
                        encoder,
                        #[trigger] encoder.blocks@[i],
                        buckets@,
                        n as nat,
                        states[i],
                        states[i + 1],
                    ),
            decreases encoder.blocks.len() - b,
        {
            proof {
                assert(umt5::block_fits(encoder.cfg, encoder.file, encoder.blocks@[b as int]));
            }
            let y = self.pass_block(encoder, &encoder.blocks[b], &buckets, n, &x);
            proof {
                let before = states;
                states = states.push(y@);
                assert forall|i: int| 0 <= i < b + 1 implies self.block_takes(
                    encoder,
                    #[trigger] encoder.blocks@[i],
                    buckets@,
                    n as nat,
                    states[i],
                    states[i + 1],
                ) by {
                    assert(states[i] == before[i]);
                    if i < b {
                        assert(states[i + 1] == before[i + 1]);
                    }
                }
            }
            x = y;
            b = b + 1;
        }
        let mut out = self.norm_rows(&x, n, encoder.cfg.d_model, &encoder.out_norm);
        let ghost valid = out@;
        let total: usize = (n + padding) * encoder.cfg.d_model;
        proof {
            assert(n * d <= (n + padding) * d) by (nonlinear_arith)
                requires
                    0 <= n,
                    0 <= padding,
                    0 <= d,
            ;
        }
        while out.len() < total
            invariant
                valid.len() <= out@.len() <= total,
                forall|c: int| 0 <= c < valid.len() ==> #[trigger] out@[c] == valid[c],
                forall|c: int| valid.len() <= c < out@.len() ==> #[trigger] out@[c] == self.zero,
            decreases total - out.len(),
        {
            out.push(self.zero);
        }
        proof {
            assert(self.passes(encoder, buckets@, ids@, states));
            assert forall|t: int| 0 <= t < n implies self.normalizes(
                arithmetic::row(states.last(), t, d),
                encoder.out_norm@,
                #[trigger] arithmetic::row(out@, t, d),
            ) by {
                arithmetic::lemma_row(valid, t, n as nat, d);
                assert(arithmetic::row(out@, t, d) =~= arithmetic::row(valid, t, d));
            }
        }
        out
    }
}

impl<'a, T: Copy> Umt5Encoder<'a, T> {
    /// How many tokens are encoded: the valid ones, as far as there are any.
    pub open spec fn valid(ids: Seq<u32>, n_valid: usize) -> Seq<u32> {
        if n_valid < ids.len() {
            ids.take(n_valid as int)
        } else {
            ids
        }
    }

    /// Encodes tokens to one row each. The rows of tokens from `n_valid` on, which are padding, are
    /// zeros, and padding is not seen by the tokens before it. `step` bins the distances that have
    /// no bucket of their own.
    pub fn forward<
        Z: Copy,
        N: Fn(Weight) -> T + Copy,
        M: Fn(T, T, T) -> T + Copy,
        L: Fn(T, T, T) -> T + Copy,
        P: Fn(T, T) -> T + Copy,
        A: Fn(&[T]) -> Z + Copy,
        B: Fn(T, Z, T) -> T + Copy,
        R: Fn(T, T, usize, usize) -> (T, T) + Copy,
        C: Fn(T) -> T + Copy,
        H: Fn(Vec<T>, Option<T>) -> Vec<T> + Copy,
        G: Fn(T, T) -> T + Copy,
        K: Fn(T, T) -> T + Copy,
        D: Fn(T) -> u32 + Copy,
        F: Fn(usize, usize, usize, usize) -> usize,
    >(
        &self,
        arithmetic: &Arithmetic<T, N, M, L, P, A, B, R, C, H, G, K, D>,
        ids: &[u32],
        n_valid: usize,
        step: &F,
    ) -> (out: Vec<T>)
        requires
            arithmetic.usable(),
            self.fits(Self::valid(ids@, n_valid).len()),
            all_countable(*step, self.cfg, Self::valid(ids@, n_valid).len()),
            forall|t: int|
                0 <= t < Self::valid(ids@, n_valid).len() ==> self.knows(
                    #[trigger] Self::valid(ids@, n_valid)[t] as int,
                ),
            ids@.len() * self.cfg.d_model <= usize::MAX,
        ensures
            arithmetic.encodes(
                *step,
                self,
                Self::valid(ids@, n_valid),
                (ids@.len() - Self::valid(ids@, n_valid).len()) as nat,
                out@,
            ),
    {
        proof {
            assert(ids@.len() == ids.len());
        }
        let n: usize = if n_valid < ids.len() {
            n_valid
        } else {
            ids.len()
        };
        let part = vstd::slice::slice_subrange(ids, 0, n);
        proof {
            assert(part@ =~= Self::valid(ids@, n_valid));
        }
        arithmetic.encode(self, part, ids.len() - n, step)
    }
}

} // verus!
