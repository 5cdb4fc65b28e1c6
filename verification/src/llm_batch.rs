//! Prompts taken through a dense model layer by layer, all tokens at once.

use vstd::prelude::*;
use crate::arithmetic;
use crate::arithmetic::{append_row, Arithmetic};
use crate::llm;
use crate::llm::{Attended, Fed, Network, Run, Step};
use crate::llm_config::Config;
use crate::llm_experts::Dense;
use crate::llm_model;
use crate::llm_model::{Cache, Feed, Model};
use crate::quant::Weight;

verus! {

/// The first rows of joined rows, joined.
proof fn lemma_first_rows<T>(data: Seq<T>, n: nat, width: nat, t: nat)
    requires
        data.len() == n * width,
        t <= n,
    ensures
        t * width <= data.len(),
        arithmetic::joined_rows(Seq::new(t, |i: int| arithmetic::row(data, i, width))) == data.take(
            (t * width) as int,
        ),
    decreases t,
{
    let rows = Seq::new(t, |i: int| arithmetic::row(data, i, width));
    assert(t * width <= n * width) by (nonlinear_arith)
        requires
            t <= n,
            0 <= width,
    ;
    if t == 0 {
        assert(0 * width == 0) by (nonlinear_arith);
        assert(data.take(0) =~= Seq::empty());
    } else {
        let m = (t - 1) as nat;
        lemma_first_rows(data, n, width, m);
        arithmetic::lemma_row(data, m as int, n, width);
        assert(rows.drop_last() =~= Seq::new(m, |i: int| arithmetic::row(data, i, width)));
        assert(m * width + width == t * width) by (nonlinear_arith)
            requires
                m + 1 == t,
        ;
        assert(data.take((m * width) as int) + arithmetic::row(data, m as int, width) =~= data.take(
            (t * width) as int,
        ));
    }
}

impl<
    T: Copy,
    Z: Copy,
    N: Fn(Weight) -> T + Copy,
    M: Fn(T, T, T) -> T + Copy,
    L: Fn(T, T, T) -> T + Copy,
    P: Fn(T, T) -> T + Copy,
    A: Fn(&[T]) -> Z + Copy,
    B: Fn(T, Z, T) -> T + Copy,
    R: Fn(T, T, usize, usize) -> (T, T) + Copy,
    C: Fn(T) -> T + Copy,
    H: Fn(Vec<T>, Option<T>) -> Vec<T> + Copy,
    G: Fn(T, T) -> T + Copy,
    K: Fn(T, T) -> T + Copy,
    D: Fn(T) -> u32 + Copy,
> Arithmetic<T, N, M, L, P, A, B, R, C, H, G, K, D> {
    /// `out` is `x` with a bias added and its heads turned for a position.
    pub open spec fn places(
        self,
        x: Seq<T>,
        bias: Seq<T>,
        heads: nat,
        width: nat,
        pos: usize,
        out: Seq<T>,
    ) -> bool {
        exists|biased: Seq<T>| #[trigger]
            self.sums(x, bias, biased) && self.turns(biased, heads, width, pos, out)
    }

    /// `out` is `x` with `y` and a bias added.
    pub open spec fn joins(self, x: Seq<T>, y: Seq<T>, bias: Seq<T>, out: Seq<T>) -> bool {
        exists|shifted: Seq<T>| #[trigger]
            self.shifts(y, bias, shifted) && self.sums(x, shifted, out)
    }

    /// Normalizes each of `n` rows.
    pub fn norm_rows(
        &self,
        x: &[T],
        n: usize,
        width: usize,
        weight: &[T],
    ) -> (out: Vec<T>)
        requires
            self.usable(),
            x@.len() == n * width,
            width <= weight@.len(),
        ensures
            out@.len() == n * width,
            forall|t: int|
                0 <= t < n ==> self.normalizes(
                    arithmetic::row(x@, t, width as nat),
                    weight@,
                    #[trigger] arithmetic::row(out@, t, width as nat),
                ),
    {
        let mut out: Vec<T> = Vec::new();
        let ghost mut rows: Seq<Seq<T>> = Seq::empty();
        let mut t: usize = 0;
        while t < n
            invariant
                self.usable(),
                x@.len() == n * width,
                width <= weight@.len(),
                t == rows.len() <= n,
                out@ == arithmetic::joined_rows(rows),
                forall|i: int|
                    0 <= i < t ==> (#[trigger] rows[i]).len() == width && self.normalizes(
                        arithmetic::row(x@, i, width as nat),
                        weight@,
                        rows[i],
                    ),
            decreases n - t,
        {
            proof {
                arithmetic::lemma_row(x@, t as int, n as nat, width as nat);
                assert(x@.len() == x.len());
            }
            let x_row = vstd::slice::slice_subrange(x, t * width, t * width + width);
            let part = self.rms_norm(x_row, weight);
            append_row(&mut out, &part);
            proof {
                let before = rows;
                rows = rows.push(part@);
                assert(rows.drop_last() =~= before);
            }
            t = t + 1;
        }
        proof {
            arithmetic::lemma_joined_rows(rows, width as nat);
            assert forall|t: int| 0 <= t < n implies self.normalizes(
                arithmetic::row(x@, t, width as nat),
                weight@,
                #[trigger] arithmetic::row(out@, t, width as nat),
            ) by {
                assert(rows[t].len() == width);
            }
        }
        out
    }

    /// Adds a bias to each of `n` rows and turns its heads for the positions from `base` on.
    fn place_rows(
        &self,
        x: &[T],
        n: usize,
        bias: &[T],
        heads: usize,
        width: usize,
        base: usize,
    ) -> (out: Vec<T>)
        requires
            self.usable(),
            x@.len() == n * (heads * width),
            heads * width <= bias@.len(),
            base + n <= usize::MAX,
        ensures
            out@.len() == n * (heads * width),
            forall|t: int|
                0 <= t < n ==> self.places(
                    arithmetic::row(x@, t, (heads * width) as nat),
                    bias@,
                    heads as nat,
                    width as nat,
                    (base + t) as usize,
                    #[trigger] arithmetic::row(out@, t, (heads * width) as nat),
                ),
    {
        let mut out: Vec<T> = Vec::new();
        let ghost mut rows: Seq<Seq<T>> = Seq::empty();
        let mut t: usize = 0;
        while t < n
            invariant
                self.usable(),
                x@.len() == n * (heads * width),
                heads * width <= bias@.len(),
                base + n <= usize::MAX,
                t == rows.len() <= n,
                out@ == arithmetic::joined_rows(rows),
                forall|i: int|
                    0 <= i < t ==> (#[trigger] rows[i]).len() == (heads * width) && self.places(
                        arithmetic::row(x@, i, (heads * width) as nat),
                        bias@,
                        heads as nat,
                        width as nat,
                        (base + i) as usize,
                        rows[i],
                    ),
            decreases n - t,
        {
            proof {
                arithmetic::lemma_row(x@, t as int, n as nat, (heads * width) as nat);
                assert(x@.len() == x.len());
                assert(bias@.len() == bias.len());
            }
            let x_row = vstd::slice::slice_subrange(
                x,
                t * (heads * width),
                t * (heads * width) + heads * width,
            );
            let biased = self.add(x_row, bias);
            let part = self.rope(&biased, heads, width, base + t);
            proof {
                assert(self.sums(x_row@, bias@, biased@));
            }
            append_row(&mut out, &part);
            proof {
                let before = rows;
                rows = rows.push(part@);
                assert(rows.drop_last() =~= before);
            }
            t = t + 1;
        }
        proof {
            arithmetic::lemma_joined_rows(rows, (heads * width) as nat);
            assert forall|t: int| 0 <= t < n implies self.places(
                arithmetic::row(x@, t, (heads * width) as nat),
                bias@,
                heads as nat,
                width as nat,
                (base + t) as usize,
                #[trigger] arithmetic::row(out@, t, (heads * width) as nat),
            ) by {
                assert(rows[t].len() == (heads * width));
            }
        }
        out
    }

    /// Adds a bias to each of `n` rows.
    fn bias_rows(
        &self,
        x: &[T],
        n: usize,
        width: usize,
        bias: &[T],
    ) -> (out: Vec<T>)
        requires
            self.usable(),
            x@.len() == n * width,
            width <= bias@.len(),
        ensures
            out@.len() == n * width,
            forall|t: int|
                0 <= t < n ==> self.sums(
                    arithmetic::row(x@, t, width as nat),
                    bias@,
                    #[trigger] arithmetic::row(out@, t, width as nat),
                ),
    {
        let mut out: Vec<T> = Vec::new();
        let ghost mut rows: Seq<Seq<T>> = Seq::empty();
        let mut t: usize = 0;
        while t < n
            invariant
                self.usable(),
                x@.len() == n * width,
                width <= bias@.len(),
                t == rows.len() <= n,
                out@ == arithmetic::joined_rows(rows),
                forall|i: int|
                    0 <= i < t ==> (#[trigger] rows[i]).len() == width && self.sums(
                        arithmetic::row(x@, i, width as nat),
                        bias@,
                        rows[i],
                    ),
            decreases n - t,
        {
            proof {
                arithmetic::lemma_row(x@, t as int, n as nat, width as nat);
                assert(x@.len() == x.len());
            }
            let x_row = vstd::slice::slice_subrange(x, t * width, t * width + width);
            let part = self.add(x_row, bias);
            append_row(&mut out, &part);
            proof {
                let before = rows;
                rows = rows.push(part@);
                assert(rows.drop_last() =~= before);
            }
            t = t + 1;
        }
        proof {
            arithmetic::lemma_joined_rows(rows, width as nat);
            assert forall|t: int| 0 <= t < n implies self.sums(
                arithmetic::row(x@, t, width as nat),
                bias@,
                #[trigger] arithmetic::row(out@, t, width as nat),
            ) by {
                assert(rows[t].len() == width);
            }
        }
        out
    }

    /// What each of `n` queries reads, at the positions from `base` on: each reads the keys and
    /// values up to its own.
    fn attend_rows(
        &self,
        cfg: &Config,
        q: &[T],
        n: usize,
        base: usize,
        keys: &[T],
        values: &[T],
        sinks: &[T],
    ) -> (out: Vec<T>)
        requires
            self.usable(),
            0 < cfg.n_kv_heads,
            cfg.n_heads * cfg.n_kv_heads <= usize::MAX,
            cfg.q_total() <= usize::MAX,
            cfg.kv_total() <= usize::MAX,
            q@.len() == n * cfg.q_total(),
            base + n <= usize::MAX,
            keys@.len() == (base + n) * cfg.kv_total(),
            values@.len() == (base + n) * cfg.kv_total(),
        ensures
            out@.len() == n * cfg.q_total(),
            forall|t: int|
                0 <= t < n ==> self.attends(
                    *cfg,
                    arithmetic::row(q@, t, cfg.q_total()),
                    keys@.take((base + t + 1) * cfg.kv_total()),
                    values@.take((base + t + 1) * cfg.kv_total()),
                    sinks@,
                    (base + t + 1) as nat,
                    #[trigger] arithmetic::row(out@, t, cfg.q_total() as nat),
                ),
    {
        let mut out: Vec<T> = Vec::new();
        let ghost mut rows: Seq<Seq<T>> = Seq::empty();
        let mut t: usize = 0;
        while t < n
            invariant
                self.usable(),
                0 < cfg.n_kv_heads,
                cfg.n_heads * cfg.n_kv_heads <= usize::MAX,
                cfg.q_total() <= usize::MAX,
                cfg.kv_total() <= usize::MAX,
                q@.len() == n * cfg.q_total(),
                base + n <= usize::MAX,
                keys@.len() == (base + n) * cfg.kv_total(),
                values@.len() == (base + n) * cfg.kv_total(),
                t == rows.len() <= n,
                out@ == arithmetic::joined_rows(rows),
                forall|i: int|
                    0 <= i < t ==> (#[trigger] rows[i]).len() == cfg.q_total() && self.attends(
                        *cfg,
                        arithmetic::row(q@, i, cfg.q_total()),
                        keys@.take((base + i + 1) * cfg.kv_total()),
                        values@.take((base + i + 1) * cfg.kv_total()),
                        sinks@,
                        (base + i + 1) as nat,
                        rows[i],
                    ),
            decreases n - t,
        {
            let q_d: usize = cfg.q_total_dim();
            let kv_d: usize = cfg.kv_total_dim();
            proof {
                arithmetic::lemma_row(q@, t as int, n as nat, cfg.q_total());
                arithmetic::lemma_row(keys@, base + t, (base + n) as nat, cfg.kv_total());
                assert(q@.len() == q.len());
                assert(keys@.len() == keys.len());
            }
            let q_row = vstd::slice::slice_subrange(q, t * q_d, t * q_d + q_d);
            let seq: usize = base + t + 1;
            let seen_keys = vstd::slice::slice_subrange(keys, 0, seq * kv_d);
            let seen_values = vstd::slice::slice_subrange(values, 0, seq * kv_d);
            let part = self.attend(cfg, q_row, seen_keys, seen_values, sinks, seq);
            proof {
                assert(seen_keys@ =~= keys@.take((base + t + 1) * cfg.kv_total()));
                assert(seen_values@ =~= values@.take((base + t + 1) * cfg.kv_total()));
            }
            append_row(&mut out, &part);
            proof {
                let before = rows;
                rows = rows.push(part@);
                assert(rows.drop_last() =~= before);
            }
            t = t + 1;
        }
        proof {
            arithmetic::lemma_joined_rows(rows, cfg.q_total() as nat);
            assert forall|t: int| 0 <= t < n implies self.attends(
                *cfg,
                arithmetic::row(q@, t, cfg.q_total()),
                keys@.take((base + t + 1) * cfg.kv_total()),
                values@.take((base + t + 1) * cfg.kv_total()),
                sinks@,
                (base + t + 1) as nat,
                #[trigger] arithmetic::row(out@, t, cfg.q_total() as nat),
            ) by {
                assert(rows[t].len() == cfg.q_total());
            }
        }
        out
    }

    /// Adds to each of `n` rows another row and a bias.
    fn join_rows(
        &self,
        x: &[T],
        y: &[T],
        n: usize,
        width: usize,
        bias: &[T],
    ) -> (out: Vec<T>)
        requires
            self.usable(),
            x@.len() == n * width,
            y@.len() == n * width,
        ensures
            out@.len() == n * width,
            forall|t: int|
                0 <= t < n ==> self.joins(
                    arithmetic::row(x@, t, width as nat),
                    arithmetic::row(y@, t, width as nat),
                    bias@,
                    #[trigger] arithmetic::row(out@, t, width as nat),
                ),
    {
        let mut out: Vec<T> = Vec::new();
        let ghost mut rows: Seq<Seq<T>> = Seq::empty();
        let mut t: usize = 0;
        while t < n
            invariant
                self.usable(),
                x@.len() == n * width,
                y@.len() == n * width,
                t == rows.len() <= n,
                out@ == arithmetic::joined_rows(rows),
                forall|i: int|
                    0 <= i < t ==> (#[trigger] rows[i]).len() == width && self.joins(
                        arithmetic::row(x@, i, width as nat),
                        arithmetic::row(y@, i, width as nat),
                        bias@,
                        rows[i],
                    ),
            decreases n - t,
        {
            proof {
                arithmetic::lemma_row(x@, t as int, n as nat, width as nat);
                assert(x@.len() == x.len());
            }
            let x_row = vstd::slice::slice_subrange(x, t * width, t * width + width);
            proof {
                arithmetic::lemma_row(y@, t as int, n as nat, width as nat);
                assert(y@.len() == y.len());
            }
            let y_row = vstd::slice::slice_subrange(y, t * width, t * width + width);
            let shifted = self.shift(y_row, bias);
            let part = self.add(x_row, &shifted);
            proof {
                assert(self.shifts(y_row@, bias@, shifted@));
            }
            append_row(&mut out, &part);
            proof {
                let before = rows;
                rows = rows.push(part@);
                assert(rows.drop_last() =~= before);
            }
            t = t + 1;
        }
        proof {
            arithmetic::lemma_joined_rows(rows, width as nat);
            assert forall|t: int| 0 <= t < n implies self.joins(
                arithmetic::row(x@, t, width as nat),
                arithmetic::row(y@, t, width as nat),
                bias@,
                #[trigger] arithmetic::row(out@, t, width as nat),
            ) by {
                assert(rows[t].len() == width);
            }
        }
        out
    }

    /// The values of each of `n` rows, each times the activation of its gate.
    fn gate_rows(
        &self,
        gate: &[T],
        up: &[T],
        n: usize,
        width: usize,
    ) -> (out: Vec<T>)
        requires
            self.usable(),
            gate@.len() == n * width,
            up@.len() == n * width,
        ensures
            out@.len() == n * width,
            forall|t: int|
                0 <= t < n ==> self.gates(
                    false,
                    arithmetic::row(gate@, t, width as nat),
                    arithmetic::row(up@, t, width as nat),
                    #[trigger] arithmetic::row(out@, t, width as nat),
                ),
    {
        let mut out: Vec<T> = Vec::new();
        let ghost mut rows: Seq<Seq<T>> = Seq::empty();
        let mut t: usize = 0;
        while t < n
            invariant
                self.usable(),
                gate@.len() == n * width,
                up@.len() == n * width,
                t == rows.len() <= n,
                out@ == arithmetic::joined_rows(rows),
                forall|i: int|
                    0 <= i < t ==> (#[trigger] rows[i]).len() == width && self.gates(
                        false,
                        arithmetic::row(gate@, i, width as nat),
                        arithmetic::row(up@, i, width as nat),
                        rows[i],
                    ),
            decreases n - t,
        {
            proof {
                arithmetic::lemma_row(gate@, t as int, n as nat, width as nat);
                assert(gate@.len() == gate.len());
            }
            let gate_row = vstd::slice::slice_subrange(gate, t * width, t * width + width);
            proof {
                arithmetic::lemma_row(up@, t as int, n as nat, width as nat);
                assert(up@.len() == up.len());
            }
            let up_row = vstd::slice::slice_subrange(up, t * width, t * width + width);
            let part = self.gated(false, gate_row, up_row);
            append_row(&mut out, &part);
            proof {
                let before = rows;
                rows = rows.push(part@);
                assert(rows.drop_last() =~= before);
            }
            t = t + 1;
        }
        proof {
            arithmetic::lemma_joined_rows(rows, width as nat);
            assert forall|t: int| 0 <= t < n implies self.gates(
                false,
                arithmetic::row(gate@, t, width as nat),
                arithmetic::row(up@, t, width as nat),
                #[trigger] arithmetic::row(out@, t, width as nat),
            ) by {
                assert(rows[t].len() == width);
            }
        }
        out
    }

    /// The embeddings of `n` tokens.
    fn embed_rows(
        &self,
        model: &Model<T>,
        tokens: &[usize],
        n: usize,
    ) -> (out: Vec<T>)
        requires
            self.usable(),
            model.grids.wf(),
            tokens@.len() == n,
            forall|t: int| 0 <= t < n ==> model.knows(#[trigger] tokens@[t] as int),
        ensures
            out@.len() == n * model.cfg.embed_dim,
            forall|t: int|
                0 <= t < n ==> self.embeds(
                    model,
                    tokens@[t] as int,
                    #[trigger] arithmetic::row(out@, t, model.cfg.embed_dim as nat),
                ),
    {
        let mut out: Vec<T> = Vec::new();
        let ghost mut rows: Seq<Seq<T>> = Seq::empty();
        let mut t: usize = 0;
        while t < n
            invariant
                self.usable(),
                model.grids.wf(),
                tokens@.len() == n,
                forall|t: int| 0 <= t < n ==> model.knows(#[trigger] tokens@[t] as int),
                t == rows.len() <= n,
                out@ == arithmetic::joined_rows(rows),
                forall|i: int|
                    0 <= i < t ==> (#[trigger] rows[i]).len() == model.cfg.embed_dim && self.embeds(
                        model,
                        tokens@[i] as int,
                        rows[i],
                    ),
            decreases n - t,
        {
            proof {
                assert(tokens@.len() == tokens.len());
            }
            let part = self.embed(model, tokens[t]);
            append_row(&mut out, &part);
            proof {
                let before = rows;
                rows = rows.push(part@);
                assert(rows.drop_last() =~= before);
            }
            t = t + 1;
        }
        proof {
            arithmetic::lemma_joined_rows(rows, model.cfg.embed_dim as nat);
            assert forall|t: int| 0 <= t < n implies self.embeds(
                model,
                tokens@[t] as int,
                #[trigger] arithmetic::row(out@, t, model.cfg.embed_dim as nat),
            ) by {
                assert(rows[t].len() == model.cfg.embed_dim);
            }
        }
        out
    }

    /// Attention at layer `l` takes each row of states, at the positions from `base` on, to the row
    /// of `out` that its step gives.
    pub open spec fn batch_attention(
        self,
        model: &Model<T>,
        l: int,
        base: nat,
        keys: Seq<T>,
        values: Seq<T>,
        x: Seq<T>,
        steps: Seq<Attended<T>>,
        out: Seq<T>,
    ) -> bool {
        let d = model.cfg.embed_dim as nat;
        &&& out.len() == steps.len() * d
        &&& forall|t: int|
            0 <= t < steps.len() ==> {
                &&& self.attention_step(
                    model,
                    l,
                    (base + t) as usize,
                    keys + arithmetic::joined_rows(Seq::new(t as nat, |i: int| steps[i].k)),
                    values + arithmetic::joined_rows(Seq::new(t as nat, |i: int| steps[i].v)),
                    arithmetic::row(x, t, d),
                    #[trigger] steps[t],
                )
                &&& arithmetic::row(out, t, d) == steps[t].x
                &&& steps[t].together == (steps.len() != 1)
            }
    }

    /// The feed-forward network at layer `l` takes each row of states to the row of `out` that its
    /// step gives.
    pub open spec fn batch_feed(
        self,
        model: &Model<T>,
        l: int,
        x: Seq<T>,
        steps: Seq<Fed<T>>,
        out: Seq<T>,
    ) -> bool {
        let d = model.cfg.embed_dim as nat;
        &&& out.len() == steps.len() * d
        &&& forall|t: int|
            0 <= t < steps.len() ==> {
                &&& self.feed_step(model, l, arithmetic::row(x, t, d), #[trigger] steps[t])
                &&& arithmetic::row(out, t, d) == steps[t].x
                &&& steps[t].goes(steps.len() != 1)
            }
    }

    /// Attention of `n` tokens at once.
    #[verifier::spinoff_prover]
    #[verifier::rlimit(60)]
    fn attention_batch(
        &self,
        model: &Model<T>,
        l: usize,
        base: usize,
        n: usize,
        x: &[T],
        cache: &mut Cache<T>,
    ) -> (out: Vec<T>)
        requires
            self.usable(),
            model.fits(),
            l < model.cfg.n_layers,
            base + n < usize::MAX,
            x@.len() == n * model.cfg.embed_dim,
            n * model.cfg.q_total() <= usize::MAX,
            n * model.cfg.kv_total() <= usize::MAX,
            n * model.cfg.embed_dim <= usize::MAX,
            old(cache).keys@.len() == base * model.cfg.kv_total(),
            old(cache).values@.len() == base * model.cfg.kv_total(),
        ensures
            final(cache).keys@.len() == (base + n) * model.cfg.kv_total(),
            final(cache).values@.len() == (base + n) * model.cfg.kv_total(),
            exists|steps: Seq<Attended<T>>|
                {
                    &&& #[trigger] self.batch_attention(
                        model,
                        l as int,
                        base as nat,
                        old(cache).keys@,
                        old(cache).values@,
                        x@,
                        steps,
                        out@,
                    )
                    &&& steps.len() == n
                    &&& final(cache).keys@ == old(cache).keys@ + arithmetic::joined_rows(
                        Seq::new(n as nat, |i: int| steps[i].k),
                    )
                    &&& final(cache).values@ == old(cache).values@ + arithmetic::joined_rows(
                        Seq::new(n as nat, |i: int| steps[i].v),
                    )
                },
    {
        let cfg = &model.cfg;
        let layer = &model.weights.layers[l];
        let ghost keys = cache.keys@;
        let ghost values = cache.values@;
        let ghost kv = model.cfg.kv_total();
        let ghost qt = model.cfg.q_total();
        let ghost dn = model.cfg.embed_dim as nat;
        proof {
            assert(llm_model::layer_fits(
                model.cfg,
                model.file,
                model.weights.layers@[l as int],
            ));
            assert((base + n) * kv == base * kv + n * kv) by (nonlinear_arith);
        }
        let d: usize = cfg.embed_dim;
        let q_d: usize = cfg.q_total_dim();
        let kv_d: usize = cfg.kv_total_dim();
        let normed = self.norm_rows(x, n, d, &layer.attn_norm);
        let q0 = self.project_rows(&model.grids, model.file, layer.q, &normed, d, q_d, n);
        let k0 = self.project_rows(&model.grids, model.file, layer.k, &normed, d, kv_d, n);
        let v0 = self.project_rows(&model.grids, model.file, layer.v, &normed, d, kv_d, n);
        let q = self.place_rows(&q0, n, &layer.q_bias, cfg.n_heads, cfg.head_dim, base);
        let k = self.place_rows(&k0, n, &layer.k_bias, cfg.n_kv_heads, cfg.head_dim, base);
        let v = self.bias_rows(&v0, n, kv_d, &layer.v_bias);
        append_row(&mut cache.keys, &k);
        append_row(&mut cache.values, &v);
        let mixed = self.attend_rows(
            cfg,
            &q,
            n,
            base,
            &cache.keys,
            &cache.values,
            &layer.sinks,
        );
        let projected = self.project_rows(
            &model.grids,
            model.file,
            layer.out,
            &mixed,
            q_d,
            d,
            n,
        );
        let out = self.join_rows(x, &projected, n, d, &layer.out_bias);
        let ghost steps = Seq::new(
            n as nat,
            |t: int|
                Attended {
                    together: n != 1,
                    normed: arithmetic::row(normed@, t, dn),
                    q_product: arithmetic::row(q0@, t, qt),
                    q_biased: choose|b: Seq<T>| #[trigger]
                        self.sums(arithmetic::row(q0@, t, qt), layer.q_bias@, b) && self.turns(
                            b,
                            cfg.n_heads as nat,
                            cfg.head_dim as nat,
                            (base + t) as usize,
                            arithmetic::row(q@, t, qt),
                        ),
                    q: arithmetic::row(q@, t, qt),
                    k_product: arithmetic::row(k0@, t, kv),
                    k_biased: choose|b: Seq<T>| #[trigger]
                        self.sums(arithmetic::row(k0@, t, kv), layer.k_bias@, b) && self.turns(
                            b,
                            cfg.n_kv_heads as nat,
                            cfg.head_dim as nat,
                            (base + t) as usize,
                            arithmetic::row(k@, t, kv),
                        ),
                    k: arithmetic::row(k@, t, kv),
                    v_product: arithmetic::row(v0@, t, kv),
                    v: arithmetic::row(v@, t, kv),
                    mixed: arithmetic::row(mixed@, t, qt),
                    out_product: arithmetic::row(projected@, t, dn),
                    out: choose|s: Seq<T>| #[trigger]
                        self.shifts(arithmetic::row(projected@, t, dn), layer.out_bias@, s)
                            && self.sums(
                            arithmetic::row(x@, t, dn),
                            s,
                            arithmetic::row(out@, t, dn),
                        ),
                    x: arithmetic::row(out@, t, dn),
                },
        );
        proof {
            assert forall|t: int| 0 <= t < n implies {
                &&& self.attention_step(
                    model,
                    l as int,
                    (base as nat + t) as usize,
                    keys + arithmetic::joined_rows(Seq::new(t as nat, |i: int| steps[i].k)),
                    values + arithmetic::joined_rows(Seq::new(t as nat, |i: int| steps[i].v)),
                    arithmetic::row(x@, t, dn),
                    #[trigger] steps[t],
                )
                &&& arithmetic::row(out@, t, dn) == steps[t].x
            } by {
                let a = steps[t];
                lemma_seen(keys, k@, base as nat, n as nat, kv, t as nat);
                lemma_seen(values, v@, base as nat, n as nat, kv, t as nat);
                assert(Seq::new(t as nat, |i: int| steps[i].k) =~= Seq::new(
                    t as nat,
                    |i: int| arithmetic::row(k@, i, kv),
                ));
                assert(Seq::new(t as nat, |i: int| steps[i].v) =~= Seq::new(
                    t as nat,
                    |i: int| arithmetic::row(v@, i, kv),
                ));
                arithmetic::lemma_row(x@, t, n as nat, dn);
                assert(self.normalizes(arithmetic::row(x@, t, dn), layer.attn_norm@, a.normed));
                assert(self.projects_one(
                    n != 1,
                    model.grids,
                    arithmetic::matrix_of(model.file, layer.q as int),
                    a.normed,
                    qt,
                    a.q_product,
                ));
                assert(self.projects_one(
                    n != 1,
                    model.grids,
                    arithmetic::matrix_of(model.file, layer.k as int),
                    a.normed,
                    kv,
                    a.k_product,
                ));
                assert(self.projects_one(
                    n != 1,
                    model.grids,
                    arithmetic::matrix_of(model.file, layer.v as int),
                    a.normed,
                    kv,
                    a.v_product,
                ));
                assert(self.places(
                    a.q_product,
                    layer.q_bias@,
                    cfg.n_heads as nat,
                    cfg.head_dim as nat,
                    (base + t) as usize,
                    a.q,
                ));
                assert(self.places(
                    a.k_product,
                    layer.k_bias@,
                    cfg.n_kv_heads as nat,
                    cfg.head_dim as nat,
                    (base + t) as usize,
                    a.k,
                ));
                assert(self.sums(a.v_product, layer.v_bias@, a.v));
                assert(self.attends(
                    model.cfg,
                    a.q,
                    cache.keys@.take((base + t + 1) * kv),
                    cache.values@.take((base + t + 1) * kv),
                    layer.sinks@,
                    (base + t + 1) as nat,
                    a.mixed,
                ));
                assert(self.projects_one(
                    n != 1,
                    model.grids,
                    arithmetic::matrix_of(model.file, layer.out as int),
                    a.mixed,
                    dn,
                    a.out_product,
                ));
                assert(self.joins(
                    arithmetic::row(x@, t, dn),
                    a.out_product,
                    layer.out_bias@,
                    a.x,
                ));
            }
            assert(Seq::new(n as nat, |i: int| steps[i].k) =~= Seq::new(
                n as nat,
                |i: int| arithmetic::row(k@, i, kv),
            ));
            assert(Seq::new(n as nat, |i: int| steps[i].v) =~= Seq::new(
                n as nat,
                |i: int| arithmetic::row(v@, i, kv),
            ));
            lemma_first_rows(k@, n as nat, kv, n as nat);
            lemma_first_rows(v@, n as nat, kv, n as nat);
            assert(k@.take((n * kv) as int) =~= k@);
            assert(v@.take((n * kv) as int) =~= v@);
            assert(self.batch_attention(
                model,
                l as int,
                base as nat,
                keys,
                values,
                x@,
                steps,
                out@,
            ));
        }
        out
    }

    /// A dense feed-forward network on `n` tokens at once.
    #[verifier::spinoff_prover]
    #[verifier::rlimit(40)]
    fn feed_batch(&self, model: &Model<T>, l: usize, n: usize, x: &[T]) -> (out: Vec<T>)
        requires
            self.usable(),
            model.fits(),
            model.cfg.n_experts == 0,
            l < model.cfg.n_layers,
            x@.len() == n * model.cfg.embed_dim,
            n * model.cfg.embed_dim <= usize::MAX,
            n * model.cfg.ffn_dim <= usize::MAX,
        ensures
            exists|steps: Seq<Fed<T>>|
                steps.len() == n && #[trigger] self.batch_feed(
                    model,
                    l as int,
                    x@,
                    steps,
                    out@,
                ),
    {
        let layer = &model.weights.layers[l];
        let ghost dn = model.cfg.embed_dim as nat;
        let ghost fnn = model.cfg.ffn_dim as nat;
        proof {
            assert(llm_model::layer_fits(
                model.cfg,
                model.file,
                model.weights.layers@[l as int],
            ));
        }
        let d: usize = model.cfg.embed_dim;
        let f: usize = model.cfg.ffn_dim;
        let (gate, up, down): (usize, usize, usize) = match &layer.feed {
            Feed::Dense { gate, up, down } => (*gate, *up, *down),
            Feed::Routed(_) => {
                proof {
                    assert(false);
                }
                (0, 0, 0)
            },
        };
        let normed = self.norm_rows(x, n, d, &layer.ffn_norm);
        let gates = self.project_rows(&model.grids, model.file, gate, &normed, d, f, n);
        let ups = self.project_rows(&model.grids, model.file, up, &normed, d, f, n);
        let hidden = self.gate_rows(&gates, &ups, n, f);
        let downs = self.project_rows(&model.grids, model.file, down, &hidden, f, d, n);
        let none: Vec<T> = Vec::new();
        let out = self.join_rows(x, &downs, n, d, &none);
        let ghost steps = Seq::new(
            n as nat,
            |t: int|
                Fed {
                    normed: arithmetic::row(normed@, t, dn),
                    network: Network::Dense(
                        Dense {
                            together: n != 1,
                            gate: arithmetic::row(gates@, t, fnn),
                            up: arithmetic::row(ups@, t, fnn),
                            hidden: arithmetic::row(hidden@, t, fnn),
                        },
                    ),
                    out: arithmetic::row(downs@, t, dn),
                    x: arithmetic::row(out@, t, dn),
                },
        );
        proof {
            assert forall|t: int| 0 <= t < n implies {
                &&& self.feed_step(model, l as int, arithmetic::row(x@, t, dn), #[trigger] steps[t])
                &&& arithmetic::row(out@, t, dn) == steps[t].x
            } by {
                let s = steps[t];
                arithmetic::lemma_row(x@, t, n as nat, dn);
                arithmetic::lemma_row(downs@, t, n as nat, dn);
                assert(self.normalizes(arithmetic::row(x@, t, dn), layer.ffn_norm@, s.normed));
                assert(self.projects_one(
                    n != 1,
                    model.grids,
                    arithmetic::matrix_of(model.file, gate as int),
                    s.normed,
                    fnn,
                    arithmetic::row(gates@, t, fnn),
                ));
                assert(self.projects_one(
                    n != 1,
                    model.grids,
                    arithmetic::matrix_of(model.file, up as int),
                    s.normed,
                    fnn,
                    arithmetic::row(ups@, t, fnn),
                ));
                assert(self.gates(
                    false,
                    arithmetic::row(gates@, t, fnn),
                    arithmetic::row(ups@, t, fnn),
                    arithmetic::row(hidden@, t, fnn),
                ));
                assert(self.projects_one(
                    n != 1,
                    model.grids,
                    arithmetic::matrix_of(model.file, down as int),
                    arithmetic::row(hidden@, t, fnn),
                    dn,
                    s.out,
                ));
                assert(self.joins(arithmetic::row(x@, t, dn), s.out, none@, s.x));
                let shifted = choose|shifted: Seq<T>| #[trigger]
                    self.shifts(s.out, none@, shifted) && self.sums(
                        arithmetic::row(x@, t, dn),
                        shifted,
                        s.x,
                    );
                assert(shifted =~= s.out);
            }
            assert(self.batch_feed(model, l as int, x@, steps, out@));
        }
        out
    }
    /// Layer `l` takes each row of states to the row of `out` that its step gives.
    pub open spec fn batch_step(
        self,
        model: &Model<T>,
        l: int,
        base: nat,
        keys: Seq<T>,
        values: Seq<T>,
        x: Seq<T>,
        steps: Seq<Step<T>>,
        out: Seq<T>,
    ) -> bool {
        let d = model.cfg.embed_dim as nat;
        &&& out.len() == steps.len() * d
        &&& forall|t: int|
            0 <= t < steps.len() ==> {
                &&& self.layer_step(
                    model,
                    l,
                    (base + t) as usize,
                    keys + arithmetic::joined_rows(
                        Seq::new(t as nat, |i: int| steps[i].attended.k),
                    ),
                    values + arithmetic::joined_rows(
                        Seq::new(t as nat, |i: int| steps[i].attended.v),
                    ),
                    arithmetic::row(x, t, d),
                    #[trigger] steps[t],
                )
                &&& arithmetic::row(out, t, d) == steps[t].fed.x
                &&& steps[t].goes(steps.len() != 1)
            }
    }

    /// A layer on `n` tokens at once.
    #[verifier::spinoff_prover]
    #[verifier::rlimit(40)]
    fn layer_batch(
        &self,
        model: &Model<T>,
        l: usize,
        base: usize,
        n: usize,
        x: &[T],
        cache: &mut Cache<T>,
    ) -> (out: Vec<T>)
        requires
            self.usable(),
            model.fits(),
            model.cfg.n_experts == 0,
            l < model.cfg.n_layers,
            base + n < usize::MAX,
            x@.len() == n * model.cfg.embed_dim,
            n * model.cfg.q_total() <= usize::MAX,
            n * model.cfg.kv_total() <= usize::MAX,
            n * model.cfg.embed_dim <= usize::MAX,
            n * model.cfg.ffn_dim <= usize::MAX,
            old(cache).keys@.len() == base * model.cfg.kv_total(),
            old(cache).values@.len() == base * model.cfg.kv_total(),
        ensures
            final(cache).keys@.len() == (base + n) * model.cfg.kv_total(),
            final(cache).values@.len() == (base + n) * model.cfg.kv_total(),
            exists|steps: Seq<Step<T>>|
                {
                    &&& #[trigger] self.batch_step(
                        model,
                        l as int,
                        base as nat,
                        old(cache).keys@,
                        old(cache).values@,
                        x@,
                        steps,
                        out@,
                    )
                    &&& steps.len() == n
                    &&& final(cache).keys@ == old(cache).keys@ + arithmetic::joined_rows(
                        Seq::new(n as nat, |i: int| steps[i].attended.k),
                    )
                    &&& final(cache).values@ == old(cache).values@ + arithmetic::joined_rows(
                        Seq::new(n as nat, |i: int| steps[i].attended.v),
                    )
                },
    {
        let ghost keys = cache.keys@;
        let ghost values = cache.values@;
        let ghost dn = model.cfg.embed_dim as nat;
        let middle = self.attention_batch(model, l, base, n, x, cache);
        let ghost attended = choose|steps: Seq<Attended<T>>|
            {
                &&& #[trigger] self.batch_attention(
                    model,
                    l as int,
                    base as nat,
                    keys,
                    values,
                    x@,
                    steps,
                    middle@,
                )
                &&& steps.len() == n
                &&& cache.keys@ == keys + arithmetic::joined_rows(
                    Seq::new(n as nat, |i: int| steps[i].k),
                )
                &&& cache.values@ == values + arithmetic::joined_rows(
                    Seq::new(n as nat, |i: int| steps[i].v),
                )
            };
        let out = self.feed_batch(model, l, n, &middle);
        proof {
            let fed = choose|steps: Seq<Fed<T>>|
                steps.len() == n && #[trigger] self.batch_feed(
                    model,
                    l as int,
                    middle@,
                    steps,
                    out@,
                );
            let steps = Seq::new(
                n as nat,
                |t: int| Step { attended: attended[t], fed: fed[t] },
            );
            assert forall|t: int| 0 <= t < n implies {
                &&& self.layer_step(
                    model,
                    l as int,
                    (base as nat + t) as usize,
                    keys + arithmetic::joined_rows(
                        Seq::new(t as nat, |i: int| steps[i].attended.k),
                    ),
                    values + arithmetic::joined_rows(
                        Seq::new(t as nat, |i: int| steps[i].attended.v),
                    ),
                    arithmetic::row(x@, t, dn),
                    #[trigger] steps[t],
                )
                &&& arithmetic::row(out@, t, dn) == steps[t].fed.x
            } by {
                assert(Seq::new(t as nat, |i: int| steps[i].attended.k) =~= Seq::new(
                    t as nat,
                    |i: int| attended[i].k,
                ));
                assert(Seq::new(t as nat, |i: int| steps[i].attended.v) =~= Seq::new(
                    t as nat,
                    |i: int| attended[i].v,
                ));
                assert(attended[t].x == arithmetic::row(middle@, t, dn));
                assert(self.feed_step(
                    model,
                    l as int,
                    arithmetic::row(middle@, t, dn),
                    fed[t],
                ));
            }
            assert(Seq::new(n as nat, |i: int| steps[i].attended.k) =~= Seq::new(
                n as nat,
                |i: int| attended[i].k,
            ));
            assert(Seq::new(n as nat, |i: int| steps[i].attended.v) =~= Seq::new(
                n as nat,
                |i: int| attended[i].v,
            ));
            assert(self.batch_step(
                model,
                l as int,
                base as nat,
                keys,
                values,
                x@,
                steps,
                out@,
            ));
        }
        out
    }

    /// The states before each layer and after the last, and the steps between them, give the way
    /// of each token.
    #[verifier::spinoff_prover]
    #[verifier::rlimit(40)]
    proof fn lemma_ways(
        self,
        model: &Model<T>,
        tokens: Seq<usize>,
        base: nat,
        before: Seq<Cache<T>>,
        states: Seq<Seq<T>>,
        columns: Seq<Seq<Step<T>>>,
        runs: Seq<Run<T>>,
    )
        requires
            before.len() == model.cfg.n_layers,
            columns.len() == model.cfg.n_layers,
            states.len() == model.cfg.n_layers + 1,
            forall|l: int| 0 <= l < columns.len() ==> (#[trigger] columns[l]).len() == tokens.len(),
            forall|l: int|
                0 <= l < columns.len() ==> self.batch_step(
                    model,
                    l,
                    base,
                    before[l].keys@,
                    before[l].values@,
                    states[l],
                    #[trigger] columns[l],
                    states[l + 1],
                ),
            forall|t: int|
                0 <= t < tokens.len() ==> self.embeds(
                    model,
                    #[trigger] tokens[t] as int,
                    arithmetic::row(states[0], t, model.cfg.embed_dim as nat),
                ),
            runs == ways(tokens.len(), states, columns, model.cfg.embed_dim as nat),
        ensures
            self.fills(model, tokens, base, llm::all_keys(before), llm::all_values(before), runs),
            forall|t: int|
                0 <= t < tokens.len() ==> (#[trigger] runs[t]).state(model.cfg.n_layers as int)
                    == arithmetic::row(
                    states[model.cfg.n_layers as int],
                    t,
                    model.cfg.embed_dim as nat,
                ),
    {
        reveal(Arithmetic::fills);
        let keys = llm::all_keys(before);
        let values = llm::all_values(before);
        let n = tokens.len();
        let d = model.cfg.embed_dim as nat;
        assert forall|t: int, l: int|
            #![trigger runs[t].state(l)]
            0 <= t < n && 0 <= l <= model.cfg.n_layers implies runs[t].state(l)
            == arithmetic::row(states[l], t, d) by {
            if l > 0 {
                let m = l - 1;
                assert(columns[m].len() == n);
                assert(self.batch_step(
                    model,
                    m,
                    base,
                    before[m].keys@,
                    before[m].values@,
                    states[m],
                    columns[m],
                    states[m + 1],
                ));
                assert(runs[t].steps[m] == columns[m][t]);
            }
        }
        assert forall|t: int| 0 <= t < n implies self.runs(
            model,
            tokens[t] as int,
            (base + t) as usize,
            Seq::new(keys.len(), |l: int| llm::keys_after(keys[l], runs, l, t as nat)),
            Seq::new(values.len(), |l: int| llm::values_after(values[l], runs, l, t as nat)),
            #[trigger] runs[t],
        ) by {
            let seen_keys = Seq::new(keys.len(), |l: int| llm::keys_after(keys[l], runs, l, t as nat));
            let seen_values = Seq::new(
                values.len(),
                |l: int| llm::values_after(values[l], runs, l, t as nat),
            );
            assert(runs[t].alike()) by {
                reveal(Run::alike);
                assert forall|l: int| 0 <= l < runs[t].steps.len() implies (
                #[trigger] runs[t].steps[l]).goes(n != 1) by {
                    assert(columns[l].len() == n);
                    assert(self.batch_step(
                        model,
                        l,
                        base,
                        before[l].keys@,
                        before[l].values@,
                        states[l],
                        columns[l],
                        states[l + 1],
                    ));
                    assert(columns[l][t].goes(n != 1));
                }
            }
            assert(runs[t].state(0) == runs[t].start);
            assert forall|l: int| 0 <= l < model.cfg.n_layers implies self.layer_step(
                model,
                l,
                (base + t) as usize,
                seen_keys[l],
                seen_values[l],
                runs[t].state(l),
                #[trigger] runs[t].steps[l],
            ) by {
                assert(columns[l].len() == n);
                assert(runs[t].steps[l] == columns[l][t]);
                assert(Seq::new(t as nat, |i: int| runs[i].steps[l].attended.k) =~= Seq::new(
                    t as nat,
                    |i: int| columns[l][i].attended.k,
                ));
                assert(Seq::new(t as nat, |i: int| runs[i].steps[l].attended.v) =~= Seq::new(
                    t as nat,
                    |i: int| columns[l][i].attended.v,
                ));
                assert(self.batch_step(
                    model,
                    l,
                    base,
                    before[l].keys@,
                    before[l].values@,
                    states[l],
                    columns[l],
                    states[l + 1],
                ));
            }
        }
    }

    /// Takes a prompt through a dense model layer by layer, each matrix decoded once for all
    /// tokens. Only the last token is scored.
    #[verifier::rlimit(40)]
    pub fn prefill_batched(
        &self,
        model: &Model<T>,
        tokens: &[usize],
        base: usize,
        caches: &mut Vec<Cache<T>>,
    ) -> (logits: Vec<T>)
        requires
            self.usable(),
            model.fits(),
            model.cfg.n_experts == 0,
            0 < tokens@.len(),
            forall|t: int| 0 <= t < tokens@.len() ==> model.knows(#[trigger] tokens@[t] as int),
            base + tokens@.len() < usize::MAX,
            tokens@.len() * model.cfg.q_total() <= usize::MAX,
            tokens@.len() * model.cfg.kv_total() <= usize::MAX,
            tokens@.len() * model.cfg.embed_dim <= usize::MAX,
            tokens@.len() * model.cfg.ffn_dim <= usize::MAX,
            llm::filled(model, old(caches)@, base as nat),
        ensures
            logits@.len() == model.cfg.vocab_size,
            llm::filled(model, final(caches)@, (base + tokens@.len()) as nat),
            self.prefills(
                model,
                tokens@,
                llm::way(tokens@.len() != 1, tokens@.len()),
                base as nat,
                old(caches)@,
                final(caches)@,
                logits@,
            ),
    {
        let ghost before = caches@;
        let ghost dn = model.cfg.embed_dim as nat;
        proof {
            assert(tokens@.len() == tokens.len());
        }
        let n: usize = tokens.len();
        let d: usize = model.cfg.embed_dim;
        let mut x = self.embed_rows(model, tokens, n);
        let ghost mut states: Seq<Seq<T>> = seq![x@];
        let ghost mut columns: Seq<Seq<Step<T>>> = Seq::empty();
        proof {
            assert forall|t: int| 0 <= t < tokens@.len() implies self.embeds(
                model,
                #[trigger] tokens@[t] as int,
                arithmetic::row(states[0], t, dn),
            ) by {}
        }
        let mut l: usize = 0;
        while l < model.cfg.n_layers
            invariant
                self.usable(),
                model.fits(),
                model.cfg.n_experts == 0,
                n == tokens@.len(),
                dn == model.cfg.embed_dim,
                base + n < usize::MAX,
                n * model.cfg.q_total() <= usize::MAX,
                n * model.cfg.kv_total() <= usize::MAX,
                n * model.cfg.embed_dim <= usize::MAX,
                n * model.cfg.ffn_dim <= usize::MAX,
                llm::filled(model, before, base as nat),
                caches@.len() == before.len(),
                l == columns.len() <= model.cfg.n_layers,
                states.len() == l + 1,
                x@ == states[l as int],
                x@.len() == n * model.cfg.embed_dim,
                forall|t: int|
                    0 <= t < tokens@.len() ==> self.embeds(
                        model,
                        #[trigger] tokens@[t] as int,
                        arithmetic::row(states[0], t, dn),
                    ),
                forall|m: int| l <= m < before.len() ==> #[trigger] caches@[m] == before[m],
                forall|m: int| 0 <= m < l ==> (#[trigger] columns[m]).len() == n,
                forall|m: int|
                    0 <= m < l ==> {
                        &&& (#[trigger] caches@[m]).keys@ == before[m].keys@
                            + arithmetic::joined_rows(
                            Seq::new(n as nat, |i: int| columns[m][i].attended.k),
                        )
                        &&& caches@[m].values@ == before[m].values@ + arithmetic::joined_rows(
                            Seq::new(n as nat, |i: int| columns[m][i].attended.v),
                        )
                        &&& caches@[m].keys@.len() == (base + n) * model.cfg.kv_total()
                        &&& caches@[m].values@.len() == (base + n) * model.cfg.kv_total()
                    },
                forall|m: int|
                    0 <= m < l ==> self.batch_step(
                        model,
                        m,
                        base as nat,
                        before[m].keys@,
                        before[m].values@,
                        states[m],
                        #[trigger] columns[m],
                        states[m + 1],
                    ),
            decreases model.cfg.n_layers - l,
        {
            let mut cache = Cache { keys: Vec::new(), values: Vec::new() };
            std::mem::swap(&mut cache, &mut caches[l]);
            proof {
                assert(cache == before[l as int]);
                assert(before[l as int].keys@.len() == base * model.cfg.kv_total());
            }
            let out = self.layer_batch(model, l, base, n, &x, &mut cache);
            let ghost column = choose|steps: Seq<Step<T>>|
                {
                    &&& #[trigger] self.batch_step(
                        model,
                        l as int,
                        base as nat,
                        before[l as int].keys@,
                        before[l as int].values@,
                        x@,
                        steps,
                        out@,
                    )
                    &&& steps.len() == n
                    &&& cache.keys@ == before[l as int].keys@ + arithmetic::joined_rows(
                        Seq::new(n as nat, |i: int| steps[i].attended.k),
                    )
                    &&& cache.values@ == before[l as int].values@ + arithmetic::joined_rows(
                        Seq::new(n as nat, |i: int| steps[i].attended.v),
                    )
                };
            std::mem::swap(&mut cache, &mut caches[l]);
            proof {
                let old_states = states;
                let old_columns = columns;
                states = states.push(out@);
                columns = columns.push(column);
                assert forall|m: int| 0 <= m < l + 1 implies self.batch_step(
                    model,
                    m,
                    base as nat,
                    before[m].keys@,
                    before[m].values@,
                    states[m],
                    #[trigger] columns[m],
                    states[m + 1],
                ) by {
                    assert(states[m] == old_states[m]);
                    if m < l {
                        assert(columns[m] == old_columns[m]);
                        assert(states[m + 1] == old_states[m + 1]);
                    }
                }
            }
            x = out;
            l = l + 1;
        }
        let ghost runs = ways(n as nat, states, columns, dn);
        proof {
            self.lemma_ways(model, tokens@, base as nat, before, states, columns, runs);
            assert forall|m: int| 0 <= m < before.len() implies (#[trigger] caches@[m]).keys@
                == llm::keys_after(before[m].keys@, runs, m, n as nat) && caches@[m].values@
                == llm::values_after(before[m].values@, runs, m, n as nat) by {
                assert(columns[m].len() == n);
                assert(Seq::new(n as nat, |i: int| runs[i].steps[m].attended.k) =~= Seq::new(
                    n as nat,
                    |i: int| columns[m][i].attended.k,
                ));
                assert(Seq::new(n as nat, |i: int| runs[i].steps[m].attended.v) =~= Seq::new(
                    n as nat,
                    |i: int| columns[m][i].attended.v,
                ));
            }
            assert(llm::follows(before, caches@, runs, n as nat));
            arithmetic::lemma_row(x@, n - 1, n as nat, dn);
            assert(x@.len() == x.len());
            assert(runs[n - 1].state(model.cfg.n_layers as int) == arithmetic::row(
                x@,
                n - 1,
                dn,
            ));
        }
        let last = vstd::slice::slice_subrange(&x, (n - 1) * d, (n - 1) * d + d);
        self.logits(model, last)
    }

    /// Takes a prompt through the model, from empty caches on: all tokens at once where that is
    /// asked for and the model is dense, otherwise token by token.
    pub fn prefill(
        &self,
        model: &Model<T>,
        tokens: &[usize],
        batched: bool,
        caches: &mut Vec<Cache<T>>,
    ) -> (logits: Vec<T>)
        requires
            self.usable(),
            model.fits(),
            0 < tokens@.len() < usize::MAX,
            forall|t: int| 0 <= t < tokens@.len() ==> model.knows(#[trigger] tokens@[t] as int),
            batched && model.cfg.n_experts == 0 ==> {
                &&& tokens@.len() * model.cfg.q_total() <= usize::MAX
                &&& tokens@.len() * model.cfg.kv_total() <= usize::MAX
                &&& tokens@.len() * model.cfg.embed_dim <= usize::MAX
                &&& tokens@.len() * model.cfg.ffn_dim <= usize::MAX
            },
            llm::filled(model, old(caches)@, 0),
        ensures
            logits@.len() == model.cfg.vocab_size,
            llm::filled(model, final(caches)@, tokens@.len()),
            self.prefills(
                model,
                tokens@,
                llm::way(
                    llm::at_once(batched, model.cfg, tokens@.len()),
                    tokens@.len(),
                ),
                0,
                old(caches)@,
                final(caches)@,
                logits@,
            ),
    {
        if batched && model.cfg.n_experts == 0 {
            self.prefill_batched(model, tokens, 0, caches)
        } else {
            let silent = |done: usize, total: usize| -> (told: ())
                requires
                    true,
                {  };
            self.prefill_each(model, tokens, caches, &silent)
        }
    }
}

/// The way of each of `n` tokens, from the states and steps of all tokens at each layer.
pub open spec fn ways<T>(
    n: nat,
    states: Seq<Seq<T>>,
    columns: Seq<Seq<Step<T>>>,
    width: nat,
) -> Seq<Run<T>> {
    Seq::new(
        n,
        |t: int|
            Run {
                together: n != 1,
                start: arithmetic::row(states[0], t, width),
                steps: Seq::new(columns.len(), |l: int| columns[l][t]),
            },
    )
}

/// What the queries of a batch see: the keys before it and those of the batch up to their own.
proof fn lemma_seen<T>(before: Seq<T>, rows: Seq<T>, base: nat, n: nat, width: nat, t: nat)
    requires
        before.len() == base * width,
        rows.len() == n * width,
        t < n,
    ensures
        (before + rows).take(((base + t + 1) * width) as int) == before + arithmetic::joined_rows(
            Seq::new(t, |i: int| arithmetic::row(rows, i, width)),
        ) + arithmetic::row(rows, t as int, width),
{
    lemma_first_rows(rows, n, width, t);
    arithmetic::lemma_row(rows, t as int, n, width);
    assert((base + t + 1) * width == base * width + t * width + width) by (nonlinear_arith);
    assert((before + rows).take(((base + t + 1) * width) as int) =~= before + rows.take(
        (t * width) as int,
    ) + arithmetic::row(rows, t as int, width));
}

} // verus!
