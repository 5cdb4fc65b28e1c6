//! One token through a language model, and a prompt token by token.

use vstd::prelude::*;
use crate::arithmetic;
use crate::arithmetic::{append_row, Arithmetic};
use crate::gguf::TensorInfo;
use crate::llm_config::Config;
use crate::llm_experts::{Dense, Routing};
use crate::llm_model;
use crate::llm_model::{Cache, Feed, Model};
use crate::quant;
use crate::quant::Weight;

verus! {

/// What attention makes of the state of a token.
pub struct Attended<T> {
    /// The state goes through together with others.
    pub together: bool,
    pub normed: Seq<T>,
    pub q_product: Seq<T>,
    pub q_biased: Seq<T>,
    pub q: Seq<T>,
    pub k_product: Seq<T>,
    pub k_biased: Seq<T>,
    pub k: Seq<T>,
    pub v_product: Seq<T>,
    pub v: Seq<T>,
    pub mixed: Seq<T>,
    pub out_product: Seq<T>,
    pub out: Seq<T>,
    pub x: Seq<T>,
}

/// The inner steps of a feed-forward network.
pub enum Network<T> {
    Dense(Dense<T>),
    Routed(Routing<T>),
}

/// What the feed-forward network makes of the state of a token.
pub struct Fed<T> {
    pub normed: Seq<T>,
    pub network: Network<T>,
    pub out: Seq<T>,
    pub x: Seq<T>,
}

/// What a layer makes of the state of a token.
pub struct Step<T> {
    pub attended: Attended<T>,
    pub fed: Fed<T>,
}

impl<T> Fed<T> {
    /// The state goes through together with others, or does not. Experts take it alone.
    pub open spec fn goes(self, together: bool) -> bool {
        self.network matches Network::Dense(dense) ==> dense.together == together
    }
}

impl<T> Step<T> {
    /// The state goes through together with others, or does not.
    pub open spec fn goes(self, together: bool) -> bool {
        self.attended.together == together && self.fed.goes(together)
    }
}

/// Several tokens go through a dense model at once, where that is asked for.
pub open spec fn at_once(batched: bool, cfg: Config, n: nat) -> bool {
    batched && cfg.n_experts == 0 && n != 1
}

/// Whether each of `n` tokens goes through the layers together with the others.
pub open spec fn way(together: bool, n: nat) -> Seq<bool> {
    Seq::new(n, |t: int| together)
}

/// A token on its way through the layers, alone or together with others.
pub struct Run<T> {
    pub together: bool,
    pub start: Seq<T>,
    pub steps: Seq<Step<T>>,
}

impl<T> Run<T> {
    /// The token goes through all layers in the same way.
    #[verifier::opaque]
    pub open spec fn alike(self) -> bool {
        forall|l: int| 0 <= l < self.steps.len() ==> (#[trigger] self.steps[l]).goes(self.together)
    }

    /// The state before layer `l`, or after the last one.
    pub open spec fn state(self, l: int) -> Seq<T> {
        if l == 0 {
            self.start
        } else {
            self.steps[l - 1].fed.x
        }
    }
}

/// The keys of one layer after the first `n` tokens.
pub open spec fn keys_after<T>(base: Seq<T>, runs: Seq<Run<T>>, l: int, n: nat) -> Seq<T> {
    base + arithmetic::joined_rows(Seq::new(n, |t: int| runs[t].steps[l].attended.k))
}

/// The values of one layer after the first `n` tokens.
pub open spec fn values_after<T>(base: Seq<T>, runs: Seq<Run<T>>, l: int, n: nat) -> Seq<T> {
    base + arithmetic::joined_rows(Seq::new(n, |t: int| runs[t].steps[l].attended.v))
}

/// The keys of all layers.
pub open spec fn all_keys<T>(caches: Seq<Cache<T>>) -> Seq<Seq<T>> {
    Seq::new(caches.len(), |l: int| caches[l].keys@)
}

/// The values of all layers.
pub open spec fn all_values<T>(caches: Seq<Cache<T>>) -> Seq<Seq<T>> {
    Seq::new(caches.len(), |l: int| caches[l].values@)
}

/// The caches `after` hold what `before` held and the keys and values of the first `n` tokens.
pub open spec fn follows<T>(
    before: Seq<Cache<T>>,
    after: Seq<Cache<T>>,
    runs: Seq<Run<T>>,
    n: nat,
) -> bool {
    &&& after.len() == before.len()
    &&& forall|l: int|
        0 <= l < before.len() ==> (#[trigger] after[l]).keys@ == keys_after(
            before[l].keys@,
            runs,
            l,
            n,
        ) && after[l].values@ == values_after(before[l].values@, runs, l, n)
}

/// The caches hold `pos` positions.
pub open spec fn filled<T>(model: &Model<T>, caches: Seq<Cache<T>>, pos: nat) -> bool {
    &&& caches.len() == model.cfg.n_layers
    &&& forall|l: int|
        0 <= l < caches.len() ==> (#[trigger] caches[l]).keys@.len() == pos * model.cfg.kv_total()
            && caches[l].values@.len() == pos * model.cfg.kv_total()
}

impl<
    T: Copy,
    Z: Copy,
    N: Fn(Weight) -> T + Copy,
    M: Fn(T, T, T) -> T + Copy,
    L: Fn(T, T, T) -> T + Copy,
    P: Fn(T, T) -> T + Copy,
    A: Fn(&[T]) -> Z + Copy,
    B: Fn(T, Z, T) -> T + Copy,
    R: Fn(T, T, usize, usize) -> (T, T) + Copy,
    C: Fn(T) -> T + Copy,
    H: Fn(Vec<T>, Option<T>) -> Vec<T> + Copy,
    G: Fn(T, T) -> T + Copy,
    K: Fn(T, T) -> T + Copy,
    D: Fn(T) -> u32 + Copy,
> Arithmetic<T, N, M, L, P, A, B, R, C, H, G, K, D> {
    /// Attention at layer `l` takes the state `x` of the token at `pos` to `a.x`: normalized, it
    /// gives a query, a key and a value; the query reads the keys and values up to its own; the
    /// result is projected back and added.
    pub open spec fn attention_step(
        self,
        model: &Model<T>,
        l: int,
        pos: usize,
        keys: Seq<T>,
        values: Seq<T>,
        x: Seq<T>,
        a: Attended<T>,
    ) -> bool {
        let cfg = model.cfg;
        let layer = model.weights.layers@[l];
        let file = model.file;
        let kv_heads = cfg.n_kv_heads as nat;
        let width = cfg.head_dim as nat;
        &&& self.normalizes(x, layer.attn_norm@, a.normed)
        &&& self.projects_one(
            a.together,
            model.grids,
            arithmetic::matrix_of(file, layer.q as int),
            a.normed,
            cfg.q_total(),
            a.q_product,
        )
        &&& self.sums(a.q_product, layer.q_bias@, a.q_biased)
        &&& self.turns(a.q_biased, cfg.n_heads as nat, width, pos, a.q)
        &&& self.projects_one(
            a.together,
            model.grids,
            arithmetic::matrix_of(file, layer.k as int),
            a.normed,
            cfg.kv_total(),
            a.k_product,
        )
        &&& self.sums(a.k_product, layer.k_bias@, a.k_biased)
        &&& self.turns(a.k_biased, kv_heads, width, pos, a.k)
        &&& self.projects_one(
            a.together,
            model.grids,
            arithmetic::matrix_of(file, layer.v as int),
            a.normed,
            cfg.kv_total(),
            a.v_product,
        )
        &&& self.sums(a.v_product, layer.v_bias@, a.v)
        &&& self.attends(
            cfg,
            a.q,
            keys + a.k,
            values + a.v,
            layer.sinks@,
            (pos + 1) as nat,
            a.mixed,
        )
        &&& self.projects_one(
            a.together,
            model.grids,
            arithmetic::matrix_of(file, layer.out as int),
            a.mixed,
            cfg.embed_dim as nat,
            a.out_product,
        )
        &&& self.shifts(a.out_product, layer.out_bias@, a.out)
        &&& self.sums(x, a.out, a.x)
    }

    /// `out` is what a feed-forward network makes of `x`.
    pub open spec fn network_step(
        self,
        model: &Model<T>,
        feed: Feed<T>,
        x: Seq<T>,
        network: Network<T>,
        out: Seq<T>,
    ) -> bool {
        match (feed, network) {
            (Feed::Dense { gate, up, down }, Network::Dense(steps)) => self.feeds(
                model.grids,
                arithmetic::matrix_of(model.file, gate as int),
                arithmetic::matrix_of(model.file, up as int),
                arithmetic::matrix_of(model.file, down as int),
                model.cfg.ffn_dim as nat,
                x,
                steps,
                out,
            ),
            (Feed::Routed(layer), Network::Routed(routing)) => self.routes(
                model.cfg,
                model.grids,
                model.file,
                layer,
                x,
                routing,
                out,
            ),
            _ => false,
        }
    }

    /// The feed-forward network at layer `l` takes the state `x` to `f.x`: what it makes of the
    /// normalized state is added.
    pub open spec fn feed_step(self, model: &Model<T>, l: int, x: Seq<T>, f: Fed<T>) -> bool {
        let layer = model.weights.layers@[l];
        &&& self.normalizes(x, layer.ffn_norm@, f.normed)
        &&& self.network_step(model, layer.feed, f.normed, f.network, f.out)
        &&& self.sums(x, f.out, f.x)
    }

    /// Layer `l` takes the state `x` of the token at `pos` to `s.fed.x`.
    pub open spec fn layer_step(
        self,
        model: &Model<T>,
        l: int,
        pos: usize,
        keys: Seq<T>,
        values: Seq<T>,
        x: Seq<T>,
        s: Step<T>,
    ) -> bool {
        &&& self.attention_step(model, l, pos, keys, values, x, s.attended)
        &&& self.feed_step(model, l, s.attended.x, s.fed)
    }

    /// `x` is the embedding of a token.
    pub open spec fn embeds(self, model: &Model<T>, token: int, x: Seq<T>) -> bool {
        let table = arithmetic::matrix_of(model.file, model.weights.embed as int);
        &&& x.len() == model.cfg.embed_dim
        &&& quant::decodes(
            self.number,
            table.ggml_type,
            quant::row_bytes_of(table.ggml_type, table.data, model.cfg.embed_dim as nat, token),
            model.grids,
            x,
        )
    }

    /// `run` is the way of a token at `pos` through all layers.
    pub open spec fn runs(
        self,
        model: &Model<T>,
        token: int,
        pos: usize,
        keys: Seq<Seq<T>>,
        values: Seq<Seq<T>>,
        run: Run<T>,
    ) -> bool {
        &&& self.embeds(model, token, run.start)
        &&& run.steps.len() == model.cfg.n_layers
        &&& run.alike()
        &&& forall|l: int|
            0 <= l < model.cfg.n_layers ==> self.layer_step(
                model,
                l,
                pos,
                keys[l],
                values[l],
                run.state(l),
                #[trigger] run.steps[l],
            )
    }

    /// `runs` are the ways of tokens at consecutive positions from `base` on: each token reads the
    /// keys and values of the tokens before it.
    #[verifier::opaque]
    pub open spec fn fills(
        self,
        model: &Model<T>,
        tokens: Seq<usize>,
        base: nat,
        keys: Seq<Seq<T>>,
        values: Seq<Seq<T>>,
        runs: Seq<Run<T>>,
    ) -> bool {
        &&& runs.len() == tokens.len()
        &&& forall|t: int|
            0 <= t < tokens.len() ==> self.runs(
                model,
                tokens[t] as int,
                (base + t) as usize,
                Seq::new(keys.len(), |l: int| keys_after(keys[l], runs, l, t as nat)),
                Seq::new(values.len(), |l: int| values_after(values[l], runs, l, t as nat)),
                #[trigger] runs[t],
            )
    }

    /// `logits` are the scores of the vocabulary after the state `x`.
    pub open spec fn scores_vocabulary(self, model: &Model<T>, x: Seq<T>, logits: Seq<T>) -> bool {
        exists|normed: Seq<T>|
            {
                &&& #[trigger] self.normalizes(x, model.weights.final_norm@, normed)
                &&& self.projects(
                    model.grids,
                    arithmetic::matrix_of(model.file, model.weights.lm_head as int),
                    normed,
                    model.cfg.vocab_size as nat,
                    logits,
                )
            }
    }

    /// A prompt has gone through the model, each token `together` with others or alone: the caches
    /// hold the keys and values of its tokens, and `logits` are the scores after the last one.
    pub open spec fn prefills(
        self,
        model: &Model<T>,
        tokens: Seq<usize>,
        together: Seq<bool>,
        base: nat,
        before: Seq<Cache<T>>,
        after: Seq<Cache<T>>,
        logits: Seq<T>,
    ) -> bool {
        exists|runs: Seq<Run<T>>|
            {
                &&& #[trigger] self.fills(
                    model,
                    tokens,
                    base,
                    all_keys(before),
                    all_values(before),
                    runs,
                )
                &&& follows(before, after, runs, tokens.len())
                &&& forall|t: int|
                    0 <= t < tokens.len() ==> (#[trigger] runs[t]).together == together[t]
                &&& self.scores_vocabulary(
                    model,
                    runs.last().state(model.cfg.n_layers as int),
                    logits,
                )
            }
    }

    /// Attention of one token.
    pub fn attention(
        &self,
        model: &Model<T>,
        l: usize,
        pos: usize,
        x: &[T],
        cache: &mut Cache<T>,
    ) -> (out: Vec<T>)
        requires
            self.usable(),
            model.fits(),
            l < model.cfg.n_layers,
            pos < usize::MAX,
            x@.len() == model.cfg.embed_dim,
            old(cache).keys@.len() == pos * model.cfg.kv_total(),
            old(cache).values@.len() == pos * model.cfg.kv_total(),
        ensures
            out@.len() == model.cfg.embed_dim,
            final(cache).keys@.len() == (pos + 1) * model.cfg.kv_total(),
            final(cache).values@.len() == (pos + 1) * model.cfg.kv_total(),
            exists|a: Attended<T>|
                {
                    &&& #[trigger] self.attention_step(
                        model,
                        l as int,
                        pos,
                        old(cache).keys@,
                        old(cache).values@,
                        x@,
                        a,
                    )
                    &&& !a.together
                    &&& a.x == out@
                    &&& final(cache).keys@ == old(cache).keys@ + a.k
                    &&& final(cache).values@ == old(cache).values@ + a.v
                },
    {
        let cfg = &model.cfg;
        let layer = &model.weights.layers[l];
        proof {
            assert(llm_model::layer_fits(
                model.cfg,
                model.file,
                model.weights.layers@[l as int],
            ));
            let kv = model.cfg.kv_total();
            assert((pos + 1) * kv == pos * kv + kv) by (nonlinear_arith);
        }
        let q_d: usize = cfg.q_total_dim();
        let kv_d: usize = cfg.kv_total_dim();
        let normed = self.rms_norm(x, &layer.attn_norm);
        let q_product = self.project(&model.grids, model.file, layer.q, &normed, q_d);
        let k_product = self.project(&model.grids, model.file, layer.k, &normed, kv_d);
        let v_product = self.project(&model.grids, model.file, layer.v, &normed, kv_d);
        let q_biased = self.add(&q_product, &layer.q_bias);
        let k_biased = self.add(&k_product, &layer.k_bias);
        let v = self.add(&v_product, &layer.v_bias);
        let q = self.rope(&q_biased, cfg.n_heads, cfg.head_dim, pos);
        let k = self.rope(&k_biased, cfg.n_kv_heads, cfg.head_dim, pos);
        append_row(&mut cache.keys, &k);
        append_row(&mut cache.values, &v);
        let mixed = self.attend(cfg, &q, &cache.keys, &cache.values, &layer.sinks, pos + 1);
        let out_product = self.project(&model.grids, model.file, layer.out, &mixed, cfg.embed_dim);
        let shifted = self.shift(&out_product, &layer.out_bias);
        let out = self.add(x, &shifted);
        let ghost a = Attended {
            together: false,
            normed: normed@,
            q_product: q_product@,
            q_biased: q_biased@,
            q: q@,
            k_product: k_product@,
            k_biased: k_biased@,
            k: k@,
            v_product: v_product@,
            v: v@,
            mixed: mixed@,
            out_product: out_product@,
            out: shifted@,
            x: out@,
        };
        assert(self.attention_step(
            model,
            l as int,
            pos,
            old(cache).keys@,
            old(cache).values@,
            x@,
            a,
        ));
        out
    }

    /// The feed-forward network on one token.
    pub fn feed(&self, model: &Model<T>, l: usize, x: &[T]) -> (out: Vec<T>)
        requires
            self.usable(),
            model.fits(),
            l < model.cfg.n_layers,
            x@.len() == model.cfg.embed_dim,
        ensures
            out@.len() == model.cfg.embed_dim,
            exists|f: Fed<T>|
                f.x == out@ && f.goes(false) && #[trigger] self.feed_step(model, l as int, x@, f),
    {
        let cfg = &model.cfg;
        let layer = &model.weights.layers[l];
        proof {
            assert(llm_model::layer_fits(
                model.cfg,
                model.file,
                model.weights.layers@[l as int],
            ));
        }
        let normed = self.rms_norm(x, &layer.ffn_norm);
        let ghost mut network: Network<T> = arbitrary();
        let fed = match &layer.feed {
            Feed::Dense { gate, up, down } => {
                let fed = self.ffn_lazy(
                    &model.grids,
                    model.file,
                    *gate,
                    *up,
                    *down,
                    cfg.ffn_dim,
                    &normed,
                );
                proof {
                    let steps = choose|steps: Dense<T>| !steps.together && #[trigger]
                        self.feeds(
                            model.grids,
                            arithmetic::matrix_of(model.file, *gate as int),
                            arithmetic::matrix_of(model.file, *up as int),
                            arithmetic::matrix_of(model.file, *down as int),
                            cfg.ffn_dim as nat,
                            normed@,
                            steps,
                            fed@,
                        );
                    network = Network::Dense(steps);
                }
                fed
            },
            Feed::Routed(experts) => {
                let fed = self.moe_ffn(cfg, &model.grids, model.file, experts, &normed);
                proof {
                    let routing = choose|r: Routing<T>| #[trigger]
                        self.routes(
                            model.cfg,
                            model.grids,
                            model.file,
                            *experts,
                            normed@,
                            r,
                            fed@,
                        );
                    self.lemma_routed_len(
                        model.cfg.embed_dim as nat,
                        routing.sums,
                        routing.weights,
                        routing.experts,
                        routing.chosen.len(),
                    );
                    network = Network::Routed(routing);
                }
                fed
            },
        };
        let out = self.add(x, &fed);
        let ghost f = Fed { normed: normed@, network, out: fed@, x: out@ };
        proof {
            assert(self.network_step(model, layer.feed, f.normed, f.network, f.out));
            assert(self.feed_step(model, l as int, x@, f));
        }
        out
    }

    /// Weighted sums keep their length.
    proof fn lemma_routed_len(
        self,
        width: nat,
        sums: Seq<Seq<T>>,
        weights: Seq<T>,
        experts: Seq<crate::llm_experts::Expert<T>>,
        n: nat,
    )
        requires
            sums.len() > n,
            sums[0].len() == width,
            forall|i: int|
                0 <= i < n ==> self.adds_weighted(
                    #[trigger] sums[i],
                    weights[i],
                    experts[i].down,
                    sums[i + 1],
                ),
        ensures
            sums[n as int].len() == width,
        decreases n,
    {
        if n > 0 {
            self.lemma_routed_len(width, sums, weights, experts, (n - 1) as nat);
            assert(self.adds_weighted(
                sums[n - 1],
                weights[n - 1],
                experts[n - 1].down,
                sums[n - 1 + 1],
            ));
        }
    }

    /// The embedding of a token, decoded from its row alone.
    pub fn embed(&self, model: &Model<T>, token: usize) -> (x: Vec<T>)
        requires
            self.usable(),
            model.grids.wf(),
            model.knows(token as int),
        ensures
            self.embeds(model, token as int, x@),
    {
        let info: &TensorInfo = &model.file.tensors[model.weights.embed];
        let data = model.file.tensor_data(info);
        quant::decode_row(
            data,
            info.ggml_type,
            model.cfg.embed_dim,
            token,
            &model.grids,
            &self.number,
        )
    }

    /// Takes a token through all layers and fills the caches with its keys and values.
    pub fn embed_and_layers(
        &self,
        model: &Model<T>,
        token: usize,
        pos: usize,
        caches: &mut Vec<Cache<T>>,
    ) -> (x: Vec<T>)
        requires
            self.usable(),
            model.fits(),
            model.knows(token as int),
            pos < usize::MAX,
            filled(model, old(caches)@, pos as nat),
        ensures
            x@.len() == model.cfg.embed_dim,
            filled(model, final(caches)@, (pos + 1) as nat),
            exists|run: Run<T>|
                {
                    &&& #[trigger] self.runs(
                        model,
                        token as int,
                        pos,
                        all_keys(old(caches)@),
                        all_values(old(caches)@),
                        run,
                    )
                    &&& !run.together
                    &&& x@ == run.state(model.cfg.n_layers as int)
                    &&& forall|l: int|
                        0 <= l < model.cfg.n_layers ==> (#[trigger] final(caches)@[l]).keys@
                            == old(caches)@[l].keys@ + run.steps[l].attended.k
                            && final(caches)@[l].values@ == old(caches)@[l].values@
                            + run.steps[l].attended.v
                },
    {
        let ghost before = caches@;
        let mut x = self.embed(model, token);
        let ghost start = x@;
        let ghost mut steps: Seq<Step<T>> = Seq::empty();
        let mut l: usize = 0;
        while l < model.cfg.n_layers
            invariant
                self.usable(),
                model.fits(),
                pos < usize::MAX,
                filled(model, before, pos as nat),
                caches@.len() == before.len(),
                l == steps.len() <= model.cfg.n_layers,
                forall|m: int| 0 <= m < l ==> (#[trigger] steps[m]).goes(false),
                x@.len() == model.cfg.embed_dim,
                self.embeds(model, token as int, start),
                x@ == (Run { together: false, start, steps }).state(l as int),
                forall|m: int|
                    l <= m < model.cfg.n_layers ==> #[trigger] caches@[m] == before[m],
                forall|m: int|
                    0 <= m < l ==> {
                        &&& (#[trigger] caches@[m]).keys@ == before[m].keys@
                            + steps[m].attended.k
                        &&& caches@[m].values@ == before[m].values@ + steps[m].attended.v
                        &&& caches@[m].keys@.len() == (pos + 1) * model.cfg.kv_total()
                        &&& caches@[m].values@.len() == (pos + 1) * model.cfg.kv_total()
                    },
                forall|m: int|
                    0 <= m < l ==> self.layer_step(
                        model,
                        m,
                        pos,
                        before[m].keys@,
                        before[m].values@,
                        (Run { together: false, start, steps }).state(m),
                        #[trigger] steps[m],
                    ),
            decreases model.cfg.n_layers - l,
        {
            let mut cache = Cache { keys: Vec::new(), values: Vec::new() };
            std::mem::swap(&mut cache, &mut caches[l]);
            proof {
                assert(cache == before[l as int]);
                assert(before[l as int].keys@.len() == pos * model.cfg.kv_total());
            }
            let middle = self.attention(model, l, pos, &x, &mut cache);
            let ghost a = choose|a: Attended<T>|
                {
                    &&& #[trigger] self.attention_step(
                        model,
                        l as int,
                        pos,
                        before[l as int].keys@,
                        before[l as int].values@,
                        x@,
                        a,
                    )
                    &&& !a.together
                    &&& a.x == middle@
                    &&& cache.keys@ == before[l as int].keys@ + a.k
                    &&& cache.values@ == before[l as int].values@ + a.v
                };
            let out = self.feed(model, l, &middle);
            let ghost f = choose|f: Fed<T>|
                f.x == out@ && f.goes(false) && #[trigger] self.feed_step(
                    model,
                    l as int,
                    middle@,
                    f,
                );
            std::mem::swap(&mut cache, &mut caches[l]);
            proof {
                let old_steps = steps;
                let s = Step { attended: a, fed: f };
                assert(self.layer_step(
                    model,
                    l as int,
                    pos,
                    before[l as int].keys@,
                    before[l as int].values@,
                    x@,
                    s,
                ));
                steps = steps.push(s);
                assert forall|m: int| 0 <= m < l + 1 implies self.layer_step(
                    model,
                    m,
                    pos,
                    before[m].keys@,
                    before[m].values@,
                    (Run { together: false, start, steps }).state(m),
                    #[trigger] steps[m],
                ) by {
                    if m < l {
                        assert(steps[m] == old_steps[m]);
                    }
                    if m > 0 {
                        assert(steps[m - 1] == old_steps[m - 1]);
                    }
                    assert((Run { together: false, start, steps }).state(m) == (Run {
                        together: false,
                        start,
                        steps: old_steps,
                    }).state(m));
                }
            }
            x = out;
            l = l + 1;
        }
        let ghost run = Run { together: false, start, steps };
        proof {
            assert forall|m: int| 0 <= m < model.cfg.n_layers implies self.layer_step(
                model,
                m,
                pos,
                all_keys(before)[m],
                all_values(before)[m],
                run.state(m),
                #[trigger] run.steps[m],
            ) by {
                assert(steps[m] == run.steps[m]);
            }
            assert(run.alike()) by {
                reveal(Run::alike);
            }
            assert(self.runs(
                model,
                token as int,
                pos,
                all_keys(before),
                all_values(before),
                run,
            ));
        }
        x
    }

    /// The scores of the vocabulary after a state.
    pub fn logits(&self, model: &Model<T>, x: &[T]) -> (logits: Vec<T>)
        requires
            self.usable(),
            model.fits(),
            x@.len() == model.cfg.embed_dim,
        ensures
            self.scores_vocabulary(model, x@, logits@),
            logits@.len() == model.cfg.vocab_size,
    {
        let normed = self.rms_norm(x, &model.weights.final_norm);
        self.project(
            &model.grids,
            model.file,
            model.weights.lm_head,
            &normed,
            model.cfg.vocab_size,
        )
    }
}

} // verus!
