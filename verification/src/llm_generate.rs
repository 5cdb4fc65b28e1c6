//! Answering a prompt.

use vstd::prelude::*;
use crate::arithmetic::Arithmetic;
use crate::channels;
use crate::channels::{Piece, Said};
use crate::generation;
use crate::generation::Generation;
use crate::llm;
use crate::llm_model::Model;
use crate::llm_prefill;
use crate::quant::Weight;
use crate::random;
use crate::random::Draws;
use crate::sampling;
use crate::sampling::{Sampler, Settings};
use crate::tokenizer;
use crate::tokenizer::Tokenizer;

verus! {

/// An answer.
pub struct Answer {
    /// The tokens, without the prompt.
    pub out: Vec<usize>,
    /// The text, in the pieces in which it was told.
    pub said: Vec<Piece>,
}

/// What was said, token by token, joined.
pub open spec fn joined(spoken: Seq<Seq<Said>>) -> Seq<Said>
    decreases spoken.len(),
{
    if spoken.len() == 0 {
        Seq::empty()
    } else {
        joined(spoken.drop_last()) + spoken.last()
    }
}

/// Each of these pieces of text was told.
pub open spec fn all_told<O2: Fn(&Piece)>(on_token: O2, pieces: Seq<Piece>) -> bool {
    forall|k: int|
        0 <= k < pieces.len() ==> call_ensures(on_token, (&#[trigger] pieces[k],), ())
}

/// Tells pieces of text, and keeps them.
fn emit<O2: Fn(&Piece)>(pieces: Vec<Piece>, said: &mut Vec<Piece>, on_token: &O2)
    requires
        forall|piece: &Piece| #[trigger] call_requires(*on_token, (piece,)),
    ensures
        final(said)@ == old(said)@ + pieces@,
        channels::said(final(said)@) == channels::said(old(said)@) + channels::said(pieces@),
        all_told(*on_token, pieces@),
{
    let mut i: usize = 0;
    while i < pieces.len()
        invariant
            i <= pieces@.len(),
            forall|piece: &Piece| #[trigger] call_requires(*on_token, (piece,)),
            forall|k: int|
                0 <= k < i ==> call_ensures(*on_token, (&#[trigger] pieces@[k],), ()),
        decreases pieces.len() - i,
    {
        on_token(&pieces[i]);
        i = i + 1;
    }
    let ghost told = pieces@;
    let ghost before = said@;
    let mut pieces = pieces;
    said.append(&mut pieces);
    proof {
        assert(said@ == before + told);
        assert(channels::said(said@) =~= channels::said(before) + channels::said(told));
    }
}

impl<
    T: Copy,
    Z: Copy,
    N: Fn(Weight) -> T + Copy,
    M: Fn(T, T, T) -> T + Copy,
    L: Fn(T, T, T) -> T + Copy,
    P: Fn(T, T) -> T + Copy,
    A: Fn(&[T]) -> Z + Copy,
    B: Fn(T, Z, T) -> T + Copy,
    R: Fn(T, T, usize, usize) -> (T, T) + Copy,
    C: Fn(T) -> T + Copy,
    H: Fn(Vec<T>, Option<T>) -> Vec<T> + Copy,
    G: Fn(T, T) -> T + Copy,
    K: Fn(T, T) -> T + Copy,
    D: Fn(T) -> u32 + Copy,
> Arithmetic<T, N, M, L, P, A, B, R, C, H, G, K, D> {
    /// A token is chosen, with a number that was drawn, that does not end the text; it is said and
    /// taken in.
    pub open spec fn goes_on<
        D2: Fn(T) -> u32 + Copy,
        P2: Fn(T, T) -> T + Copy,
        F2: Fn(T, u32) -> T + Copy,
        C2: Fn(T, u32) -> T + Copy,
        S2: Fn(Vec<T>) -> Vec<T> + Copy,
        V2: Fn(T, T) -> bool + Copy,
        U2: Fn(u64) -> T + Copy,
    >(
        self,
        sampler: Sampler<T, D2, P2, F2, C2, S2, V2, U2>,
        model: &Model<T>,
        lexicon: Option<tokenizer::Lexicon>,
        channels: bool,
        settings: Settings,
        draw: u64,
        before: Generation<T>,
        after: Generation<T>,
        said: Seq<Said>,
    ) -> bool {
        exists|token: usize, pieces: Seq<Piece>|
            {
                &&& #[trigger] sampler.chooses(
                    before.logits@,
                    before.out@,
                    settings,
                    draw,
                    token as int,
                )
                &&& !generation::ends(lexicon, token)
                &&& #[trigger] self.grows(model, lexicon, channels, token, before, after, pieces)
                &&& said == channels::said(pieces)
            }
    }

    /// A token is chosen, with a number that was drawn, that ends the text.
    pub open spec fn stops<
        D2: Fn(T) -> u32 + Copy,
        P2: Fn(T, T) -> T + Copy,
        F2: Fn(T, u32) -> T + Copy,
        C2: Fn(T, u32) -> T + Copy,
        S2: Fn(Vec<T>) -> Vec<T> + Copy,
        V2: Fn(T, T) -> bool + Copy,
        U2: Fn(u64) -> T + Copy,
    >(
        self,
        sampler: Sampler<T, D2, P2, F2, C2, S2, V2, U2>,
        lexicon: Option<tokenizer::Lexicon>,
        settings: Settings,
        draw: u64,
        last: Generation<T>,
    ) -> bool {
        exists|token: usize|
            {
                &&& #[trigger] sampler.chooses(
                    last.logits@,
                    last.out@,
                    settings,
                    draw,
                    token as int,
                )
                &&& generation::ends(lexicon, token)
            }
    }

    /// From a prompt on, its tokens taken in `together` or each alone, token after token, with the
    /// numbers of a seed from an index on.
    pub open spec fn continues<
        D2: Fn(T) -> u32 + Copy,
        P2: Fn(T, T) -> T + Copy,
        F2: Fn(T, u32) -> T + Copy,
        C2: Fn(T, u32) -> T + Copy,
        S2: Fn(Vec<T>) -> Vec<T> + Copy,
        V2: Fn(T, T) -> bool + Copy,
        U2: Fn(u64) -> T + Copy,
    >(
        self,
        sampler: Sampler<T, D2, P2, F2, C2, S2, V2, U2>,
        model: &Model<T>,
        lexicon: Option<tokenizer::Lexicon>,
        channels: bool,
        settings: Settings,
        seed: u64,
        index: nat,
        together: bool,
        prompt: Seq<usize>,
        trace: Seq<Generation<T>>,
        spoken: Seq<Seq<Said>>,
    ) -> bool {
        &&& trace.len() == spoken.len() + 1
        &&& trace[0].pos == prompt.len()
        &&& trace[0].out@.len() == 0
        &&& trace[0].transcript@ == channels::Speech::start()
        &&& self.recalls(model, together, prompt, trace[0])
        &&& forall|k: int|
            #![trigger spoken[k]]
            0 <= k < spoken.len() ==> self.goes_on(
                sampler,
                model,
                lexicon,
                channels,
                settings,
                random::standard_number(seed, (index + k) as nat),
                trace[k],
                trace[k + 1],
                spoken[k],
            )
    }

    /// The answer to a prompt, with the numbers of a seed from an index on: at most `max_new`
    /// tokens, fewer only where a token ended the text, and the text of all of them.
    pub open spec fn answers<
        D2: Fn(T) -> u32 + Copy,
        P2: Fn(T, T) -> T + Copy,
        F2: Fn(T, u32) -> T + Copy,
        C2: Fn(T, u32) -> T + Copy,
        S2: Fn(Vec<T>) -> Vec<T> + Copy,
        V2: Fn(T, T) -> bool + Copy,
        U2: Fn(u64) -> T + Copy,
    >(
        self,
        sampler: Sampler<T, D2, P2, F2, C2, S2, V2, U2>,
        model: &Model<T>,
        lexicon: Option<tokenizer::Lexicon>,
        channels: bool,
        settings: Settings,
        seed: u64,
        index: nat,
        together: bool,
        prompt: Seq<usize>,
        max_new: nat,
        out: Seq<usize>,
        said: Seq<Said>,
    ) -> bool {
        exists|trace: Seq<Generation<T>>, spoken: Seq<Seq<Said>>|
            {
                &&& #[trigger] self.continues(
                    sampler,
                    model,
                    lexicon,
                    channels,
                    settings,
                    seed,
                    index,
                    together,
                    prompt,
                    trace,
                    spoken,
                )
                &&& spoken.len() <= max_new
                &&& spoken.len() < max_new ==> self.stops(
                    sampler,
                    lexicon,
                    settings,
                    random::standard_number(seed, index + spoken.len()),
                    trace.last(),
                )
                &&& out == trace.last().out@
                &&& said == joined(spoken) + trace.last().transcript@.finish().1
                &&& self.recalls(model, together, prompt, trace.last())
            }
    }

    /// Answers a prompt, and tells every piece of text as soon as it is there. With channels the
    /// prompt is taken in token by token, which is told too.
    pub fn generate<
        D2: Fn(T) -> u32 + Copy,
        P2: Fn(T, T) -> T + Copy,
        F2: Fn(T, u32) -> T + Copy,
        C2: Fn(T, u32) -> T + Copy,
        S2: Fn(Vec<T>) -> Vec<T> + Copy,
        V2: Fn(T, T) -> bool + Copy,
        U2: Fn(u64) -> T + Copy,
        O2: Fn(&Piece),
        W2: Fn(usize, usize),
    >(
        &self,
        sampler: &Sampler<T, D2, P2, F2, C2, S2, V2, U2>,
        model: &Model<T>,
        tok: Option<&Tokenizer>,
        channels: bool,
        settings: &Settings,
        prompt: &[usize],
        batched: bool,
        max_new: usize,
        draws: &mut Draws,
        on_token: &O2,
        on_prefill: &W2,
    ) -> (answer: Answer)
        requires
            self.usable(),
            sampler.usable(),
            generation::speaks(model),
            generation::usable_tokenizer(tok),
            0 < settings.top_k || sampling::greedy(settings.temperature),
            0 < prompt@.len(),
            prompt@.len() + max_new < usize::MAX,
            forall|t: int|
                0 <= t < prompt@.len() ==> (#[trigger] prompt@[t]) < model.cfg.vocab_size,
            batched && !channels && model.cfg.n_experts == 0 ==> {
                &&& prompt@.len() * model.cfg.q_total() <= usize::MAX
                &&& prompt@.len() * model.cfg.kv_total() <= usize::MAX
                &&& prompt@.len() * model.cfg.embed_dim <= usize::MAX
                &&& prompt@.len() * model.cfg.ffn_dim <= usize::MAX
            },
            forall|piece: &Piece| #[trigger] call_requires(*on_token, (piece,)),
            forall|done: usize, total: usize| #[trigger] call_requires(*on_prefill, (done, total)),
            old(draws).taken() + max_new <= usize::MAX,
        ensures
            final(draws).seed() == old(draws).seed(),
            final(draws).taken() == old(draws).taken() + if sampling::greedy(settings.temperature) {
                0
            } else if answer.out@.len() < max_new {
                answer.out@.len() + 1
            } else {
                max_new as nat
            },
            self.answers(
                *sampler,
                model,
                generation::lexicon_of(tok),
                channels,
                *settings,
                old(draws).seed(),
                old(draws).taken(),
                llm::at_once(batched && !channels, model.cfg, prompt@.len()),
                prompt@,
                max_new as nat,
                answer.out@,
                channels::said(answer.said@),
            ),
            all_told(*on_token, answer.said@),
            channels ==> llm_prefill::counts_up(
                *on_prefill,
                prompt@.len(),
                prompt@.len() as int,
            ),
    {
        let ghost lexicon = generation::lexicon_of(tok);
        let ghost seed = draws.seed();
        let ghost index = draws.taken();
        let ghost together = llm::at_once(batched && !channels, model.cfg, prompt@.len());
        let ghost greedy = sampling::greedy(settings.temperature);
        let mut g = if channels {
            self.begin_telling(model, prompt, on_prefill)
        } else {
            self.begin(model, prompt, batched)
        };
        let mut said: Vec<Piece> = Vec::new();
        let ghost mut trace = seq![g];
        let ghost mut spoken: Seq<Seq<Said>> = Seq::empty();
        let mut made: usize = 0;
        let mut ended = false;
        proof {
            assert(channels::said(said@) =~= joined(spoken));
        }
        while made < max_new && !ended
            invariant
                self.usable(),
                sampler.usable(),
                generation::speaks(model),
                generation::usable_tokenizer(tok),
                0 < settings.top_k || sampling::greedy(settings.temperature),
                prompt@.len() + max_new < usize::MAX,
                forall|piece: &Piece| #[trigger] call_requires(*on_token, (piece,)),
                lexicon == generation::lexicon_of(tok),
                greedy == sampling::greedy(settings.temperature),
                index + max_new <= usize::MAX,
                draws.seed() == seed,
                draws.taken() == index + if greedy {
                    0int
                } else if ended {
                    made + 1
                } else {
                    made as int
                },
                ended ==> made < max_new,
                made <= max_new,
                spoken.len() == made,
                g.wf(model),
                g.pos == prompt@.len() + made,
                g.out@.len() == made,
                trace.len() == made + 1,
                trace.last() == g,
                self.recalls(model, together, prompt@, g),
                self.continues(
                    *sampler,
                    model,
                    lexicon,
                    channels,
                    *settings,
                    seed,
                    index,
                    together,
                    prompt@,
                    trace,
                    spoken,
                ),
                ended ==> self.stops(
                    *sampler,
                    lexicon,
                    *settings,
                    random::standard_number(seed, index + made as nat),
                    g,
                ),
                channels::said(said@) == joined(spoken),
                all_told(*on_token, said@),
            decreases max_new - made, if ended { 0int } else { 1 },
        {
            let ghost before = g;
            let ghost coming = draws.coming();
            let ghost draw = random::standard_number(seed, index + made as nat);
            let told = self.advance_drawing(sampler, model, tok, channels, settings, draws, &mut g);
            proof {
                assert forall|token: usize|
                    #[trigger] sampler.chooses(
                        before.logits@,
                        before.out@,
                        *settings,
                        coming,
                        token as int,
                    ) implies sampler.chooses(
                    before.logits@,
                    before.out@,
                    *settings,
                    draw,
                    token as int,
                ) by {
                    if greedy {
                        sampler.greed_ignores_draws(
                            before.logits@,
                            before.out@,
                            *settings,
                            coming,
                            draw,
                            token as int,
                        );
                    }
                }
            }
            match told {
                None => {
                    proof {
                        assert(self.stops(*sampler, lexicon, *settings, draw, g));
                    }
                    ended = true;
                },
                Some(pieces) => {
                    let ghost told = channels::said(pieces@);
                    let ghost longer = spoken.push(told);
                    proof {
                        assert(self.goes_on(
                            *sampler,
                            model,
                            lexicon,
                            channels,
                            *settings,
                            draw,
                            before,
                            g,
                            told,
                        ));
                        let states = trace.push(g);
                        assert forall|k: int|
                            #![trigger longer[k]]
                            0 <= k < longer.len() implies self.goes_on(
                            *sampler,
                            model,
                            lexicon,
                            channels,
                            *settings,
                            random::standard_number(seed, (index + k) as nat),
                            states[k],
                            states[k + 1],
                            longer[k],
                        ) by {
                            if k < spoken.len() {
                                assert(longer[k] == spoken[k]);
                                assert(states[k] == trace[k] && states[k + 1] == trace[k + 1]);
                            }
                        }
                        assert(states[0] == trace[0]);
                        assert(longer.drop_last() =~= spoken);
                        trace = states;
                        spoken = longer;
                    }
                    emit(pieces, &mut said, on_token);
                    made = made + 1;
                },
            }
        }
        let mut transcript = g.transcript;
        let rest = transcript.finish();
        emit(rest, &mut said, on_token);
        Answer { out: g.out, said }
    }
}

} // verus!
