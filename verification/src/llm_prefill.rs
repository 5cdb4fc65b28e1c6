//! Prompts: one token after another, each reading the keys and values of those before it.

use vstd::prelude::*;
use crate::arithmetic;
use crate::arithmetic::Arithmetic;
use crate::llm;
use crate::llm::Run;
use crate::llm_model::{Cache, Model};
use crate::quant::Weight;

verus! {

/// It was told of each of the first `n` tokens of a prompt, with the number of tokens before it and
/// of all tokens.
pub open spec fn counts_up<W: Fn(usize, usize)>(on_prefill: W, total: nat, n: int) -> bool {
    forall|t: usize|
        t < n ==> #[trigger] call_ensures(on_prefill, (t, total as usize), ())
}

/// Joined rows can be joined.
pub proof fn lemma_joined_add<T>(left: Seq<Seq<T>>, right: Seq<Seq<T>>)
    ensures
        arithmetic::joined_rows(left + right) == arithmetic::joined_rows(left)
            + arithmetic::joined_rows(right),
    decreases right.len(),
{
    if right.len() == 0 {
        assert(left + right =~= left);
        assert(arithmetic::joined_rows(left) + Seq::<T>::empty() =~= arithmetic::joined_rows(left));
    } else {
        let init = right.drop_last();
        lemma_joined_add(left, init);
        assert((left + right).drop_last() =~= left + init);
        assert((left + right).last() == right.last());
        assert(arithmetic::joined_rows(left) + arithmetic::joined_rows(init) + right.last()
            =~= arithmetic::joined_rows(left) + (arithmetic::joined_rows(init) + right.last()));
    }
}

/// The keys and values after some tokens depend on those tokens alone, and those after more tokens
/// follow them.
pub proof fn lemma_caches_join<T>(
    base: Seq<T>,
    left: Seq<Run<T>>,
    right: Seq<Run<T>>,
    l: int,
    n: nat,
)
    requires
        n <= right.len(),
    ensures
        llm::keys_after(base, left + right, l, left.len() + n) == llm::keys_after(
            llm::keys_after(base, left, l, left.len()),
            right,
            l,
            n,
        ),
        llm::values_after(base, left + right, l, left.len() + n) == llm::values_after(
            llm::values_after(base, left, l, left.len()),
            right,
            l,
            n,
        ),
{
    let all = left + right;
    let m = left.len();
    let lk = Seq::new(m, |t: int| left[t].steps[l].attended.k);
    let rk = Seq::new(n, |t: int| right[t].steps[l].attended.k);
    let ak = Seq::new(m + n, |t: int| all[t].steps[l].attended.k);
    assert(ak =~= lk + rk);
    lemma_joined_add(lk, rk);
    assert(base + (arithmetic::joined_rows(lk) + arithmetic::joined_rows(rk)) =~= base
        + arithmetic::joined_rows(lk) + arithmetic::joined_rows(rk));
    let lv = Seq::new(m, |t: int| left[t].steps[l].attended.v);
    let rv = Seq::new(n, |t: int| right[t].steps[l].attended.v);
    let av = Seq::new(m + n, |t: int| all[t].steps[l].attended.v);
    assert(av =~= lv + rv);
    lemma_joined_add(lv, rv);
    assert(base + (arithmetic::joined_rows(lv) + arithmetic::joined_rows(rv)) =~= base
        + arithmetic::joined_rows(lv) + arithmetic::joined_rows(rv));
}

/// The keys and values after the first tokens do not depend on later ones.
pub proof fn lemma_caches_prefix<T>(
    base: Seq<T>,
    left: Seq<Run<T>>,
    right: Seq<Run<T>>,
    l: int,
    n: nat,
)
    requires
        n <= left.len(),
    ensures
        llm::keys_after(base, left + right, l, n) == llm::keys_after(base, left, l, n),
        llm::values_after(base, left + right, l, n) == llm::values_after(base, left, l, n),
{
    let all = left + right;
    assert(Seq::new(n, |t: int| all[t].steps[l].attended.k) =~= Seq::new(
        n,
        |t: int| left[t].steps[l].attended.k,
    ));
    assert(Seq::new(n, |t: int| all[t].steps[l].attended.v) =~= Seq::new(
        n,
        |t: int| left[t].steps[l].attended.v,
    ));
}

impl<
    T: Copy,
    Z: Copy,
    N: Fn(Weight) -> T + Copy,
    M: Fn(T, T, T) -> T + Copy,
    L: Fn(T, T, T) -> T + Copy,
    P: Fn(T, T) -> T + Copy,
    A: Fn(&[T]) -> Z + Copy,
    B: Fn(T, Z, T) -> T + Copy,
    R: Fn(T, T, usize, usize) -> (T, T) + Copy,
    C: Fn(T) -> T + Copy,
    H: Fn(Vec<T>, Option<T>) -> Vec<T> + Copy,
    G: Fn(T, T) -> T + Copy,
    K: Fn(T, T) -> T + Copy,
    D: Fn(T) -> u32 + Copy,
> Arithmetic<T, N, M, L, P, A, B, R, C, H, G, K, D> {
    /// Tokens that follow others at the positions and with the keys and values that these leave
    /// make one sequence with them.
    #[verifier::spinoff_prover]
    #[verifier::rlimit(80)]
    pub proof fn lemma_fills_join(
        self,
        model: &Model<T>,
        first: Seq<usize>,
        second: Seq<usize>,
        base: nat,
        keys: Seq<Seq<T>>,
        values: Seq<Seq<T>>,
        left: Seq<Run<T>>,
        right: Seq<Run<T>>,
    )
        requires
            self.fills(model, first, base, keys, values, left),
            self.fills(
                model,
                second,
                base + first.len(),
                Seq::new(keys.len(), |l: int| llm::keys_after(keys[l], left, l, first.len())),
                Seq::new(values.len(), |l: int| llm::values_after(values[l], left, l, first.len())),
                right,
            ),
        ensures
            left.len() == first.len(),
            right.len() == second.len(),
            self.fills(model, first + second, base, keys, values, left + right),
    {
        reveal(Arithmetic::fills);
        let tokens = first + second;
        let runs = left + right;
        let n = first.len();
        let middle_keys = Seq::new(keys.len(), |l: int| llm::keys_after(keys[l], left, l, n));
        let middle_values = Seq::new(
            values.len(),
            |l: int| llm::values_after(values[l], left, l, n),
        );
        assert forall|t: int| 0 <= t < tokens.len() implies self.runs(
            model,
            tokens[t] as int,
            (base + t) as usize,
            Seq::new(keys.len(), |l: int| llm::keys_after(keys[l], runs, l, t as nat)),
            Seq::new(values.len(), |l: int| llm::values_after(values[l], runs, l, t as nat)),
            #[trigger] runs[t],
        ) by {
            if t < n {
                assert(runs[t] == left[t]);
                assert forall|l: int| 0 <= l < keys.len() implies #[trigger] llm::keys_after(
                    keys[l],
                    runs,
                    l,
                    t as nat,
                ) == llm::keys_after(keys[l], left, l, t as nat) by {
                    lemma_caches_prefix(keys[l], left, right, l, t as nat);
                }
                assert forall|l: int| 0 <= l < values.len() implies #[trigger] llm::values_after(
                    values[l],
                    runs,
                    l,
                    t as nat,
                ) == llm::values_after(values[l], left, l, t as nat) by {
                    lemma_caches_prefix(values[l], left, right, l, t as nat);
                }
                assert(Seq::new(keys.len(), |l: int| llm::keys_after(keys[l], runs, l, t as nat))
                    =~= Seq::new(keys.len(), |l: int| llm::keys_after(keys[l], left, l, t as nat)));
                assert(Seq::new(
                    values.len(),
                    |l: int| llm::values_after(values[l], runs, l, t as nat),
                ) =~= Seq::new(
                    values.len(),
                    |l: int| llm::values_after(values[l], left, l, t as nat),
                ));
            } else {
                let u = t - n;
                assert(runs[t] == right[u]);
                assert(tokens[t] == second[u]);
                assert forall|l: int| 0 <= l < keys.len() implies #[trigger] llm::keys_after(
                    keys[l],
                    runs,
                    l,
                    t as nat,
                ) == llm::keys_after(middle_keys[l], right, l, u as nat) by {
                    lemma_caches_join(keys[l], left, right, l, u as nat);
                }
                assert forall|l: int| 0 <= l < values.len() implies #[trigger] llm::values_after(
                    values[l],
                    runs,
                    l,
                    t as nat,
                ) == llm::values_after(middle_values[l], right, l, u as nat) by {
                    lemma_caches_join(values[l], left, right, l, u as nat);
                }
                assert(Seq::new(keys.len(), |l: int| llm::keys_after(keys[l], runs, l, t as nat))
                    =~= Seq::new(
                    middle_keys.len(),
                    |l: int| llm::keys_after(middle_keys[l], right, l, u as nat),
                ));
                assert(Seq::new(
                    values.len(),
                    |l: int| llm::values_after(values[l], runs, l, t as nat),
                ) =~= Seq::new(
                    middle_values.len(),
                    |l: int| llm::values_after(middle_values[l], right, l, u as nat),
                ));
            }
        }
    }

    /// Tokens that follow others and read the caches that these left make one sequence with them.
    proof fn lemma_continues(
        self,
        model: &Model<T>,
        first: Seq<usize>,
        second: Seq<usize>,
        base: nat,
        before: Seq<Cache<T>>,
        middle: Seq<Cache<T>>,
        after: Seq<Cache<T>>,
        left: Seq<Run<T>>,
        right: Seq<Run<T>>,
    )
        requires
            self.fills(model, first, base, llm::all_keys(before), llm::all_values(before), left),
            llm::follows(before, middle, left, first.len()),
            self.fills(
                model,
                second,
                base + first.len(),
                llm::all_keys(middle),
                llm::all_values(middle),
                right,
            ),
            llm::follows(middle, after, right, second.len()),
        ensures
            self.fills(
                model,
                first + second,
                base,
                llm::all_keys(before),
                llm::all_values(before),
                left + right,
            ),
            llm::follows(before, after, left + right, (first + second).len()),
            left.len() == first.len(),
            right.len() == second.len(),
    {
        let keys = llm::all_keys(before);
        let values = llm::all_values(before);
        lemma_follows_keys(before, middle, left, first.len());
        self.lemma_fills_join(model, first, second, base, keys, values, left, right);
        lemma_follows_join(before, middle, after, left, right);
    }

    /// A prompt can be given in parts: after a first part, a second part that starts at the next
    /// position and reads the caches that the first part left gives the caches and scores that the
    /// whole prompt gives.
    pub proof fn prompts_can_be_continued(
        self,
        model: &Model<T>,
        first: Seq<usize>,
        second: Seq<usize>,
        earlier: Seq<bool>,
        later: Seq<bool>,
        base: nat,
        before: Seq<Cache<T>>,
        middle: Seq<Cache<T>>,
        after: Seq<Cache<T>>,
        between: Seq<T>,
        logits: Seq<T>,
    )
        requires
            second.len() > 0,
            earlier.len() == first.len(),
            later.len() == second.len(),
            self.prefills(model, first, earlier, base, before, middle, between),
            self.prefills(model, second, later, base + first.len(), middle, after, logits),
        ensures
            self.prefills(
                model,
                first + second,
                earlier + later,
                base,
                before,
                after,
                logits,
            ),
    {
        let left = choose|runs: Seq<Run<T>>|
            {
                &&& #[trigger] self.fills(
                    model,
                    first,
                    base,
                    llm::all_keys(before),
                    llm::all_values(before),
                    runs,
                )
                &&& llm::follows(before, middle, runs, first.len())
                &&& forall|t: int|
                    0 <= t < first.len() ==> (#[trigger] runs[t]).together == earlier[t]
                &&& self.scores_vocabulary(
                    model,
                    runs.last().state(model.cfg.n_layers as int),
                    between,
                )
            };
        let right = choose|runs: Seq<Run<T>>|
            {
                &&& #[trigger] self.fills(
                    model,
                    second,
                    base + first.len(),
                    llm::all_keys(middle),
                    llm::all_values(middle),
                    runs,
                )
                &&& llm::follows(middle, after, runs, second.len())
                &&& forall|t: int|
                    0 <= t < second.len() ==> (#[trigger] runs[t]).together == later[t]
                &&& self.scores_vocabulary(
                    model,
                    runs.last().state(model.cfg.n_layers as int),
                    logits,
                )
            };
        self.lemma_continues(model, first, second, base, before, middle, after, left, right);
        assert((left + right).last() == right.last());
        assert(left.len() == first.len()) by {
            reveal(Arithmetic::fills);
        }
        let runs = left + right;
        assert forall|t: int| 0 <= t < (first + second).len() implies (#[trigger] runs[t]).together
            == (earlier + later)[t] by {
            if t < first.len() {
                assert(left[t].together == earlier[t]);
            } else {
                assert(right[t - first.len()].together == later[t - first.len()]);
            }
        }
    }

    /// A single token is a sequence.
    proof fn lemma_single(
        self,
        model: &Model<T>,
        token: usize,
        pos: usize,
        keys: Seq<Seq<T>>,
        values: Seq<Seq<T>>,
        run: Run<T>,
    )
        requires
            self.runs(model, token as int, pos, keys, values, run),
        ensures
            self.fills(model, seq![token], pos as nat, keys, values, seq![run]),
    {
        reveal(Arithmetic::fills);
        let runs = seq![run];
        assert forall|t: int| 0 <= t < 1 implies self.runs(
            model,
            seq![token][t] as int,
            (pos as nat + t) as usize,
            Seq::new(keys.len(), |l: int| llm::keys_after(keys[l], runs, l, t as nat)),
            Seq::new(values.len(), |l: int| llm::values_after(values[l], runs, l, t as nat)),
            #[trigger] runs[t],
        ) by {
            assert forall|l: int| 0 <= l < keys.len() implies #[trigger] llm::keys_after(
                keys[l],
                runs,
                l,
                0,
            ) == keys[l] by {
                lemma_no_row(keys[l], Seq::new(0, |t: int| runs[t].steps[l].attended.k));
            }
            assert forall|l: int| 0 <= l < values.len() implies #[trigger] llm::values_after(
                values[l],
                runs,
                l,
                0,
            ) == values[l] by {
                lemma_no_row(values[l], Seq::new(0, |t: int| runs[t].steps[l].attended.v));
            }
            assert(Seq::new(keys.len(), |l: int| llm::keys_after(keys[l], runs, l, t as nat))
                =~= keys);
            assert(Seq::new(values.len(), |l: int| llm::values_after(values[l], runs, l, t as nat))
                =~= values);
        }
    }

    /// Takes a token through the model and scores the vocabulary for the next one.
    pub fn forward(
        &self,
        model: &Model<T>,
        token: usize,
        pos: usize,
        caches: &mut Vec<Cache<T>>,
    ) -> (logits: Vec<T>)
        requires
            self.usable(),
            model.fits(),
            model.knows(token as int),
            pos < usize::MAX,
            llm::filled(model, old(caches)@, pos as nat),
        ensures
            logits@.len() == model.cfg.vocab_size,
            llm::filled(model, final(caches)@, (pos + 1) as nat),
            self.prefills(
                model,
                seq![token],
                llm::way(false, 1),
                pos as nat,
                old(caches)@,
                final(caches)@,
                logits@,
            ),
    {
        let ghost before = caches@;
        let x = self.embed_and_layers(model, token, pos, caches);
        let ghost run = choose|run: Run<T>|
            {
                &&& #[trigger] self.runs(
                    model,
                    token as int,
                    pos,
                    llm::all_keys(before),
                    llm::all_values(before),
                    run,
                )
                &&& !run.together
                &&& x@ == run.state(model.cfg.n_layers as int)
                &&& forall|l: int|
                    0 <= l < model.cfg.n_layers ==> (#[trigger] caches@[l]).keys@
                        == before[l].keys@ + run.steps[l].attended.k && caches@[l].values@
                        == before[l].values@ + run.steps[l].attended.v
            };
        let logits = self.logits(model, &x);
        proof {
            self.lemma_single(
                model,
                token,
                pos,
                llm::all_keys(before),
                llm::all_values(before),
                run,
            );
            lemma_one_follows(before, caches@, run);
            let runs = seq![run];
            assert(runs.last() == run);
        }
        logits
    }

    /// One more token that follows the first ones of a prompt.
    proof fn lemma_taken_in(
        self,
        model: &Model<T>,
        tokens: Seq<usize>,
        t: usize,
        before: Seq<Cache<T>>,
        middle: Seq<Cache<T>>,
        after: Seq<Cache<T>>,
        left: Seq<Run<T>>,
        run: Run<T>,
    )
        requires
            t < tokens.len(),
            self.fills(
                model,
                tokens.take(t as int),
                0,
                llm::all_keys(before),
                llm::all_values(before),
                left,
            ),
            llm::follows(before, middle, left, t as nat),
            self.runs(
                model,
                tokens[t as int] as int,
                t,
                llm::all_keys(middle),
                llm::all_values(middle),
                run,
            ),
            after.len() == middle.len(),
            forall|l: int|
                0 <= l < middle.len() ==> (#[trigger] after[l]).keys@ == middle[l].keys@
                    + run.steps[l].attended.k && after[l].values@ == middle[l].values@
                    + run.steps[l].attended.v,
        ensures
            self.fills(
                model,
                tokens.take(t + 1),
                0,
                llm::all_keys(before),
                llm::all_values(before),
                left + seq![run],
            ),
            llm::follows(before, after, left + seq![run], (t + 1) as nat),
    {
        let token = tokens[t as int];
        self.lemma_single(model, token, t, llm::all_keys(middle), llm::all_values(middle), run);
        lemma_one_follows(middle, after, run);
        assert(tokens.take(t + 1) =~= tokens.take(t as int) + seq![token]);
        assert(tokens.take(t as int).len() == t);
        self.lemma_continues(
            model,
            tokens.take(t as int),
            seq![token],
            0,
            before,
            middle,
            after,
            left,
            seq![run],
        );
    }

    /// Takes one more token of a prompt through the model.
    fn take_in(
        &self,
        model: &Model<T>,
        tokens: &[usize],
        t: usize,
        caches: &mut Vec<Cache<T>>,
        Ghost(before): Ghost<Seq<Cache<T>>>,
        Ghost(left): Ghost<Seq<Run<T>>>,
    ) -> (taken: (Vec<T>, Ghost<Seq<Run<T>>>))
        requires
            self.usable(),
            model.fits(),
            t == left.len() < tokens@.len() == tokens.len(),
            model.knows(tokens@[t as int] as int),
            before.len() == model.cfg.n_layers,
            llm::filled(model, old(caches)@, t as nat),
            self.fills(
                model,
                tokens@.take(t as int),
                0,
                llm::all_keys(before),
                llm::all_values(before),
                left,
            ),
            llm::follows(before, old(caches)@, left, t as nat),
            forall|i: int| 0 <= i < t ==> !(#[trigger] left[i]).together,
        ensures
            llm::filled(model, final(caches)@, (t + 1) as nat),
            taken.1@.len() == t + 1,
            self.fills(
                model,
                tokens@.take(t + 1),
                0,
                llm::all_keys(before),
                llm::all_values(before),
                taken.1@,
            ),
            llm::follows(before, final(caches)@, taken.1@, (t + 1) as nat),
            forall|i: int| 0 <= i < t + 1 ==> !(#[trigger] taken.1@[i]).together,
            taken.0@.len() == model.cfg.embed_dim,
            taken.0@ == taken.1@.last().state(model.cfg.n_layers as int),
    {
        let ghost middle = caches@;
        let x = self.embed_and_layers(model, tokens[t], t, caches);
        let ghost run = choose|run: Run<T>|
            {
                &&& #[trigger] self.runs(
                    model,
                    tokens@[t as int] as int,
                    t,
                    llm::all_keys(middle),
                    llm::all_values(middle),
                    run,
                )
                &&& !run.together
                &&& x@ == run.state(model.cfg.n_layers as int)
                &&& forall|l: int|
                    0 <= l < model.cfg.n_layers ==> (#[trigger] caches@[l]).keys@
                        == middle[l].keys@ + run.steps[l].attended.k && caches@[l].values@
                        == middle[l].values@ + run.steps[l].attended.v
            };
        proof {
            self.lemma_taken_in(model, tokens@, t, before, middle, caches@, left, run);
        }
        (x, Ghost(left + seq![run]))
    }

    /// Takes a prompt through the model token by token, and tells before each how many are done.
    /// Only the last token is scored.
    pub fn prefill_each<W: Fn(usize, usize)>(
        &self,
        model: &Model<T>,
        tokens: &[usize],
        caches: &mut Vec<Cache<T>>,
        on_prefill: &W,
    ) -> (logits: Vec<T>)
        requires
            self.usable(),
            model.fits(),
            0 < tokens@.len(),
            forall|t: int| 0 <= t < tokens@.len() ==> model.knows(#[trigger] tokens@[t] as int),
            llm::filled(model, old(caches)@, 0),
            forall|done: usize, total: usize| #[trigger] call_requires(*on_prefill, (done, total)),
        ensures
            logits@.len() == model.cfg.vocab_size,
            llm::filled(model, final(caches)@, tokens@.len()),
            self.prefills(
                model,
                tokens@,
                llm::way(false, tokens@.len()),
                0,
                old(caches)@,
                final(caches)@,
                logits@,
            ),
            counts_up(*on_prefill, tokens@.len(), tokens@.len() as int),
    {
        let ghost before = caches@;
        let ghost mut runs: Seq<Run<T>> = Seq::empty();
        let mut x: Vec<T> = Vec::new();
        let mut t: usize = 0;
        proof {
            assert(tokens@.len() == tokens.len());
            assert(tokens@.take(0) =~= Seq::empty());
            lemma_none_follow(before, runs);
            reveal(Arithmetic::fills);
        }
        while t < tokens.len()
            invariant
                self.usable(),
                model.fits(),
                forall|t: int|
                    0 <= t < tokens@.len() ==> model.knows(#[trigger] tokens@[t] as int),
                forall|done: usize, total: usize| #[trigger]
                    call_requires(*on_prefill, (done, total)),
                counts_up(*on_prefill, tokens@.len(), t as int),
                tokens@.len() == tokens.len(),
                t == runs.len() <= tokens@.len(),
                before.len() == model.cfg.n_layers,
                llm::filled(model, caches@, t as nat),
                self.fills(
                    model,
                    tokens@.take(t as int),
                    0,
                    llm::all_keys(before),
                    llm::all_values(before),
                    runs,
                ),
                llm::follows(before, caches@, runs, t as nat),
                forall|i: int| 0 <= i < t ==> !(#[trigger] runs[i]).together,
                t > 0 ==> x@.len() == model.cfg.embed_dim && x@ == runs.last().state(
                    model.cfg.n_layers as int,
                ),
            decreases tokens.len() - t,
        {
            on_prefill(t, tokens.len());
            let (state, longer) = self.take_in(
                model,
                tokens,
                t,
                caches,
                Ghost(before),
                Ghost(runs),
            );
            x = state;
            proof {
                runs = longer@;
            }
            t = t + 1;
        }
        proof {
            assert(tokens@.take(t as int) =~= tokens@);
        }
        self.logits(model, &x)
    }
}

/// The caches after a token hold its keys and values.
proof fn lemma_one_follows<T>(before: Seq<Cache<T>>, after: Seq<Cache<T>>, run: Run<T>)
    requires
        after.len() == before.len(),
        forall|l: int|
            0 <= l < before.len() ==> (#[trigger] after[l]).keys@ == before[l].keys@
                + run.steps[l].attended.k && after[l].values@ == before[l].values@
                + run.steps[l].attended.v,
    ensures
        llm::follows(before, after, seq![run], 1),
{
    let runs = seq![run];
    assert forall|l: int| 0 <= l < before.len() implies (#[trigger] after[l]).keys@
        == llm::keys_after(before[l].keys@, runs, l, 1) && after[l].values@ == llm::values_after(
        before[l].values@,
        runs,
        l,
        1,
    ) by {
        lemma_one_row(Seq::new(1, |t: int| runs[t].steps[l].attended.k));
        lemma_one_row(Seq::new(1, |t: int| runs[t].steps[l].attended.v));
    }
}

/// No tokens leave the caches as they are.
proof fn lemma_none_follow<T>(before: Seq<Cache<T>>, runs: Seq<Run<T>>)
    ensures
        llm::follows(before, before, runs, 0),
{
    assert forall|l: int| 0 <= l < before.len() implies (#[trigger] before[l]).keys@
        == llm::keys_after(before[l].keys@, runs, l, 0) && before[l].values@ == llm::values_after(
        before[l].values@,
        runs,
        l,
        0,
    ) by {
        lemma_no_row(before[l].keys@, Seq::new(0, |t: int| runs[t].steps[l].attended.k));
        lemma_no_row(before[l].values@, Seq::new(0, |t: int| runs[t].steps[l].attended.v));
    }
}

/// The keys and values of caches, as those that the first tokens leave.
pub proof fn lemma_follows_keys<T>(
    before: Seq<Cache<T>>,
    after: Seq<Cache<T>>,
    runs: Seq<Run<T>>,
    n: nat,
)
    requires
        llm::follows(before, after, runs, n),
    ensures
        llm::all_keys(after) == Seq::new(
            llm::all_keys(before).len(),
            |l: int| llm::keys_after(llm::all_keys(before)[l], runs, l, n),
        ),
        llm::all_values(after) == Seq::new(
            llm::all_values(before).len(),
            |l: int| llm::values_after(llm::all_values(before)[l], runs, l, n),
        ),
{
    let keys = llm::all_keys(before);
    let values = llm::all_values(before);
    assert forall|l: int| 0 <= l < before.len() implies #[trigger] llm::all_keys(after)[l]
        == llm::keys_after(keys[l], runs, l, n) && llm::all_values(after)[l] == llm::values_after(
        values[l],
        runs,
        l,
        n,
    ) by {
        assert(after[l].keys@ == llm::keys_after(before[l].keys@, runs, l, n));
    }
    assert(llm::all_keys(after) =~= Seq::new(
        keys.len(),
        |l: int| llm::keys_after(keys[l], runs, l, n),
    ));
    assert forall|l: int| 0 <= l < before.len() implies #[trigger] llm::all_values(after)[l]
        == llm::values_after(values[l], runs, l, n) by {
        assert(llm::all_keys(after)[l] == llm::keys_after(keys[l], runs, l, n));
    }
    assert(llm::all_values(after) =~= Seq::new(
        values.len(),
        |l: int| llm::values_after(values[l], runs, l, n),
    ));
}

/// Caches filled in two parts are filled by both.
proof fn lemma_follows_join<T>(
    before: Seq<Cache<T>>,
    middle: Seq<Cache<T>>,
    after: Seq<Cache<T>>,
    left: Seq<Run<T>>,
    right: Seq<Run<T>>,
)
    requires
        llm::follows(before, middle, left, left.len()),
        llm::follows(middle, after, right, right.len()),
    ensures
        llm::follows(before, after, left + right, left.len() + right.len()),
{
    let runs = left + right;
    let n = left.len() + right.len();
    assert forall|l: int| 0 <= l < before.len() implies (#[trigger] after[l]).keys@
        == llm::keys_after(before[l].keys@, runs, l, n) && after[l].values@ == llm::values_after(
        before[l].values@,
        runs,
        l,
        n,
    ) by {
        lemma_caches_join(before[l].keys@, left, right, l, right.len());
        lemma_caches_join(before[l].values@, left, right, l, right.len());
        assert(middle[l].keys@ == llm::keys_after(before[l].keys@, left, l, left.len()));
    }
}

/// One row joined is that row.
proof fn lemma_one_row<T>(rows: Seq<Seq<T>>)
    requires
        rows.len() == 1,
    ensures
        arithmetic::joined_rows(rows) == rows[0],
{
    assert(arithmetic::joined_rows(rows.drop_last()) =~= Seq::empty());
    assert(arithmetic::joined_rows(rows) =~= rows[0]);
}

/// No row adds nothing.
proof fn lemma_no_row<T>(base: Seq<T>, rows: Seq<Seq<T>>)
    requires
        rows.len() == 0,
    ensures
        base + arithmetic::joined_rows(rows) == base,
{
    assert(base + arithmetic::joined_rows(rows) =~= base);
}

} // verus!
