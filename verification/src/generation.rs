//! Generating text token by token.

use vstd::prelude::*;
use crate::arithmetic::Arithmetic;
use crate::channels;
use crate::channels::{Piece, Transcript};
use crate::llm;
use crate::llm_model::{Cache, Model};
use crate::llm_prefill;
use crate::quant::Weight;
use crate::random::Draws;
use crate::sampling;
use crate::sampling::{Sampler, Settings};
use crate::text;
use crate::text::push_usize;
use crate::tokenizer;
use crate::tokenizer::Tokenizer;

verus! {

broadcast use vstd::string::group_string_axioms;

/// A text on its way.
pub struct Generation<T> {
    pub caches: Vec<Cache<T>>,
    /// The scores of the next token.
    pub logits: Vec<T>,
    /// The position of the next token.
    pub pos: usize,
    /// The tokens so far, without the prompt.
    pub out: Vec<usize>,
    pub transcript: Transcript,
}

/// A model that gives scores for each of its tokens and has an embedding for each.
pub open spec fn speaks<T>(model: &Model<T>) -> bool {
    &&& model.fits()
    &&& 0 < model.cfg.vocab_size <= u32::MAX
    &&& forall|t: int| 0 <= t < model.cfg.vocab_size ==> #[trigger] model.knows(t)
}

impl<T> Generation<T> {
    /// The caches hold the positions so far, and the tokens so far are tokens of the model.
    pub open spec fn wf(&self, model: &Model<T>) -> bool {
        &&& self.logits@.len() == model.cfg.vocab_size
        &&& llm::filled(model, self.caches@, self.pos as nat)
        &&& forall|i: int|
            0 <= i < self.out@.len() ==> (#[trigger] self.out@[i]) < model.cfg.vocab_size
    }
}

/// The token ends the text.
pub open spec fn ends(lexicon: Option<tokenizer::Lexicon>, token: usize) -> bool {
    match lexicon {
        Some(lexicon) => lexicon.ends_turn(token as u32),
        None => token == 2,
    }
}

/// What the token says: with a tokenizer its text, without one its number in brackets.
pub open spec fn tells(
    lexicon: Option<tokenizer::Lexicon>,
    channels: bool,
    speech: channels::Speech,
    token: usize,
) -> (channels::Speech, Seq<channels::Said>) {
    match lexicon {
        Some(lexicon) => if channels {
            speech.hear(lexicon, token as u32)
        } else {
            speech.hear_plain(lexicon, token as u32)
        },
        None => (
            speech,
            seq![
                channels::Said {
                    text: "["@ + text::decimal(token as nat) + "]"@,
                    reasoning: false,
                },
            ],
        ),
    }
}

/// The lexicon of a tokenizer, where there is one.
pub open spec fn lexicon_of(tok: Option<&Tokenizer>) -> Option<tokenizer::Lexicon> {
    match tok {
        Some(tok) => Some(tok@),
        None => None,
    }
}

/// The tokenizer is well-formed, where there is one.
pub open spec fn usable_tokenizer(tok: Option<&Tokenizer>) -> bool {
    match tok {
        Some(tok) => tok.wf(),
        None => true,
    }
}

/// Caches that hold nothing.
pub open spec fn empty_caches<T>(caches: Seq<Cache<T>>, n: nat) -> bool {
    &&& caches.len() == n
    &&& forall|l: int|
        0 <= l < n ==> (#[trigger] caches[l]).keys@.len() == 0 && caches[l].values@.len() == 0
}

/// Caches that hold nothing.
fn fresh_caches<T>(n: usize) -> (caches: Vec<Cache<T>>)
    ensures
        empty_caches(caches@, n as nat),
{
    let mut caches: Vec<Cache<T>> = Vec::with_capacity(n);
    while caches.len() < n
        invariant
            caches@.len() <= n,
            empty_caches(caches@, caches@.len()),
        decreases n - caches.len(),
    {
        caches.push(Cache { keys: Vec::new(), values: Vec::new() });
    }
    caches
}

/// A text whose prompt was taken in.
fn started<T>(caches: Vec<Cache<T>>, logits: Vec<T>, pos: usize) -> (g: Generation<T>)
    ensures
        g.caches == caches,
        g.logits == logits,
        g.pos == pos,
        g.out@ == Seq::<usize>::empty(),
        g.transcript@ == channels::Speech::start(),
{
    Generation { caches, logits, pos, out: Vec::new(), transcript: Transcript::new() }
}

/// The model knows the tokens of a prompt, and caches that hold nothing are filled up to its start.
proof fn lemma_known<T>(model: &Model<T>, prompt: Seq<usize>, caches: Seq<Cache<T>>)
    requires
        speaks(model),
        forall|t: int| 0 <= t < prompt.len() ==> (#[trigger] prompt[t]) < model.cfg.vocab_size,
        empty_caches(caches, model.cfg.n_layers as nat),
    ensures
        forall|t: int| 0 <= t < prompt.len() ==> model.knows(#[trigger] prompt[t] as int),
        llm::filled(model, caches, 0),
{
    let kv = model.cfg.kv_total();
    assert(0 * kv == 0) by (nonlinear_arith);
    assert forall|t: int| 0 <= t < prompt.len() implies model.knows(
        #[trigger] prompt[t] as int,
    ) by {
        assert(prompt[t] < model.cfg.vocab_size);
    }
}

impl<
    T: Copy,
    Z: Copy,
    N: Fn(Weight) -> T + Copy,
    M: Fn(T, T, T) -> T + Copy,
    L: Fn(T, T, T) -> T + Copy,
    P: Fn(T, T) -> T + Copy,
    A: Fn(&[T]) -> Z + Copy,
    B: Fn(T, Z, T) -> T + Copy,
    R: Fn(T, T, usize, usize) -> (T, T) + Copy,
    C: Fn(T) -> T + Copy,
    H: Fn(Vec<T>, Option<T>) -> Vec<T> + Copy,
    G: Fn(T, T) -> T + Copy,
    K: Fn(T, T) -> T + Copy,
    D: Fn(T) -> u32 + Copy,
> Arithmetic<T, N, M, L, P, A, B, R, C, H, G, K, D> {
    /// The caches and scores are those that a prompt, with its tokens `together` or each alone, and
    /// the tokens after it give.
    pub open spec fn recalls(
        self,
        model: &Model<T>,
        together: bool,
        prompt: Seq<usize>,
        g: Generation<T>,
    ) -> bool {
        exists|before: Seq<Cache<T>>|
            {
                &&& empty_caches(before, model.cfg.n_layers as nat)
                &&& #[trigger] self.prefills(
                    model,
                    prompt + g.out@,
                    llm::way(together, prompt.len()) + llm::way(false, g.out@.len()),
                    0,
                    before,
                    g.caches@,
                    g.logits@,
                )
            }
    }

    /// Takes in a prompt.
    pub fn begin(&self, model: &Model<T>, prompt: &[usize], batched: bool) -> (g: Generation<T>)
        requires
            self.usable(),
            speaks(model),
            0 < prompt@.len() < usize::MAX,
            forall|t: int|
                0 <= t < prompt@.len() ==> (#[trigger] prompt@[t]) < model.cfg.vocab_size,
            batched && model.cfg.n_experts == 0 ==> {
                &&& prompt@.len() * model.cfg.q_total() <= usize::MAX
                &&& prompt@.len() * model.cfg.kv_total() <= usize::MAX
                &&& prompt@.len() * model.cfg.embed_dim <= usize::MAX
                &&& prompt@.len() * model.cfg.ffn_dim <= usize::MAX
            },
        ensures
            g.wf(model),
            g.pos == prompt@.len(),
            g.out@.len() == 0,
            g.transcript@ == channels::Speech::start(),
            self.recalls(
                model,
                llm::at_once(batched, model.cfg, prompt@.len()),
                prompt@,
                g,
            ),
    {
        let mut caches = fresh_caches(model.cfg.n_layers);
        let ghost before = caches@;
        proof {
            lemma_known(model, prompt@, before);
            assert(prompt@.len() == prompt.len());
        }
        let logits = self.prefill(model, prompt, batched, &mut caches);
        let g = started(caches, logits, prompt.len());
        proof {
            assert(prompt@ + g.out@ =~= prompt@);
            let together = llm::at_once(batched, model.cfg, prompt@.len());
            assert(llm::way(together, prompt@.len()) + llm::way(false, 0) =~= llm::way(
                together,
                prompt@.len(),
            ));
            assert(self.prefills(
                model,
                prompt@ + g.out@,
                llm::way(together, prompt@.len()) + llm::way(false, g.out@.len()),
                0,
                before,
                g.caches@,
                g.logits@,
            ));
        }
        g
    }

    /// Takes in a prompt token by token, and tells before each how many are done.
    pub fn begin_telling<W: Fn(usize, usize)>(
        &self,
        model: &Model<T>,
        prompt: &[usize],
        on_prefill: &W,
    ) -> (g: Generation<T>)
        requires
            self.usable(),
            speaks(model),
            0 < prompt@.len() < usize::MAX,
            forall|t: int|
                0 <= t < prompt@.len() ==> (#[trigger] prompt@[t]) < model.cfg.vocab_size,
            forall|done: usize, total: usize| #[trigger] call_requires(*on_prefill, (done, total)),
        ensures
            g.wf(model),
            g.pos == prompt@.len(),
            g.out@.len() == 0,
            g.transcript@ == channels::Speech::start(),
            self.recalls(model, false, prompt@, g),
            llm_prefill::counts_up(*on_prefill, prompt@.len(), prompt@.len() as int),
    {
        let mut caches = fresh_caches(model.cfg.n_layers);
        let ghost before = caches@;
        proof {
            lemma_known(model, prompt@, before);
            assert(prompt@.len() == prompt.len());
        }
        let logits = self.prefill_each(model, prompt, &mut caches, on_prefill);
        let g = started(caches, logits, prompt.len());
        proof {
            assert(prompt@ + g.out@ =~= prompt@);
            let together = false;
            assert(llm::way(together, prompt@.len()) + llm::way(false, 0) =~= llm::way(
                together,
                prompt@.len(),
            ));
            assert(self.prefills(
                model,
                prompt@ + g.out@,
                llm::way(together, prompt@.len()) + llm::way(false, g.out@.len()),
                0,
                before,
                g.caches@,
                g.logits@,
            ));
        }
        g
    }

    /// `g` becomes `after` by a token: its text is said, it joins the tokens so far, and the model
    /// takes it in.
    pub open spec fn grows(
        self,
        model: &Model<T>,
        lexicon: Option<tokenizer::Lexicon>,
        channels: bool,
        token: usize,
        g: Generation<T>,
        after: Generation<T>,
        pieces: Seq<Piece>,
    ) -> bool {
        let (speech, said) = tells(lexicon, channels, g.transcript@, token);
        &&& after.out@ == g.out@.push(token)
        &&& after.pos == g.pos + 1
        &&& after.transcript@ == speech
        &&& channels::said(pieces) == said
        &&& self.prefills(
            model,
            seq![token],
            llm::way(false, 1),
            g.pos as nat,
            g.caches@,
            after.caches@,
            after.logits@,
        )
    }

    /// A token that the model takes in is recalled with those before it.
    proof fn lemma_recalls(
        self,
        model: &Model<T>,
        lexicon: Option<tokenizer::Lexicon>,
        channels: bool,
        token: usize,
        together: bool,
        prompt: Seq<usize>,
        g: Generation<T>,
        after: Generation<T>,
        pieces: Seq<Piece>,
    )
        requires
            self.grows(model, lexicon, channels, token, g, after, pieces),
            self.recalls(model, together, prompt, g),
            g.pos == prompt.len() + g.out@.len(),
        ensures
            self.recalls(model, together, prompt, after),
    {
        let before = choose|before: Seq<Cache<T>>|
            {
                &&& empty_caches(before, model.cfg.n_layers as nat)
                &&& #[trigger] self.prefills(
                    model,
                    prompt + g.out@,
                    llm::way(together, prompt.len()) + llm::way(false, g.out@.len()),
                    0,
                    before,
                    g.caches@,
                    g.logits@,
                )
            };
        self.prompts_can_be_continued(
            model,
            prompt + g.out@,
            seq![token],
            llm::way(together, prompt.len()) + llm::way(false, g.out@.len()),
            llm::way(false, 1),
            0,
            before,
            g.caches@,
            after.caches@,
            g.logits@,
            after.logits@,
        );
        assert(prompt + g.out@ + seq![token] =~= prompt + after.out@);
        assert(llm::way(together, prompt.len()) + llm::way(false, g.out@.len()) + llm::way(false, 1)
            =~= llm::way(together, prompt.len()) + llm::way(false, after.out@.len()));
    }

    /// Chooses the next token with a number that was drawn, says it and takes it in. A token that
    /// ends the text changes nothing.
    pub fn advance<
        D2: Fn(T) -> u32 + Copy,
        P2: Fn(T, T) -> T + Copy,
        F2: Fn(T, u32) -> T + Copy,
        C2: Fn(T, u32) -> T + Copy,
        S2: Fn(Vec<T>) -> Vec<T> + Copy,
        V2: Fn(T, T) -> bool + Copy,
        U2: Fn(u64) -> T + Copy,
    >(
        &self,
        sampler: &Sampler<T, D2, P2, F2, C2, S2, V2, U2>,
        model: &Model<T>,
        tok: Option<&Tokenizer>,
        channels: bool,
        settings: &Settings,
        draw: u64,
        g: &mut Generation<T>,
    ) -> (said: Option<Vec<Piece>>)
        requires
            self.usable(),
            sampler.usable(),
            speaks(model),
            usable_tokenizer(tok),
            0 < settings.top_k || sampling::greedy(settings.temperature),
            old(g).wf(model),
            old(g).pos < usize::MAX,
        ensures
            final(g).wf(model),
            exists|token: usize|
                {
                    &&& #[trigger] sampler.chooses(
                        old(g).logits@,
                        old(g).out@,
                        *settings,
                        draw,
                        token as int,
                    )
                    &&& match said {
                        Some(pieces) => !ends(lexicon_of(tok), token) && self.grows(
                            model,
                            lexicon_of(tok),
                            channels,
                            token,
                            *old(g),
                            *final(g),
                            pieces@,
                        ),
                        None => ends(lexicon_of(tok), token) && *final(g) == *old(g),
                    }
                },
            forall|together: bool, prompt: Seq<usize>| #[trigger]
                self.recalls(model, together, prompt, *old(g)) && old(g).pos == prompt.len()
                    + old(g).out@.len() ==> self.recalls(model, together, prompt, *final(g)),
    {
        let ghost before = *g;
        let token: usize = sampler.choose_next(&g.logits, &g.out, settings, draw);
        let ended = match tok {
            Some(t) => t.is_eos(token as u32),
            None => token == 2,
        };
        if ended {
            proof {
                assert(sampler.chooses(
                    before.logits@,
                    before.out@,
                    *settings,
                    draw,
                    token as int,
                ));
            }
            return None;
        }
        let pieces = match tok {
            Some(t) => if channels {
                g.transcript.hear(t, token as u32)
            } else {
                g.transcript.hear_plain(t, token as u32)
            },
            None => {
                let mut shown = String::new();
                shown.append("[");
                push_usize(&mut shown, token);
                shown.append("]");
                let piece = Piece { text: shown, reasoning: false };
                let mut pieces: Vec<Piece> = Vec::new();
                pieces.push(piece);
                proof {
                    assert(piece.text@ =~= "["@ + text::decimal(token as nat) + "]"@);
                    assert(channels::said(pieces@) =~= seq![piece@]);
                }
                pieces
            },
        };
        proof {
            assert(model.knows(token as int));
        }
        let logits = self.forward(model, token, g.pos, &mut g.caches);
        g.logits = logits;
        g.out.push(token);
        g.pos = g.pos + 1;
        proof {
            assert(self.grows(
                model,
                lexicon_of(tok),
                channels,
                token,
                before,
                *g,
                pieces@,
            ));
            assert(sampler.chooses(before.logits@, before.out@, *settings, draw, token as int));
            assert forall|together: bool, prompt: Seq<usize>| #[trigger]
                self.recalls(model, together, prompt, before) && before.pos == prompt.len()
                    + before.out@.len() implies self.recalls(model, together, prompt, *g) by {
                self.lemma_recalls(
                    model,
                    lexicon_of(tok),
                    channels,
                    token,
                    together,
                    prompt,
                    before,
                    *g,
                    pieces@,
                );
            }
        }
        Some(pieces)
    }

    /// Chooses the next token with the number that comes next, which is taken unless the greatest
    /// score decides.
    pub fn advance_drawing<
        D2: Fn(T) -> u32 + Copy,
        P2: Fn(T, T) -> T + Copy,
        F2: Fn(T, u32) -> T + Copy,
        C2: Fn(T, u32) -> T + Copy,
        S2: Fn(Vec<T>) -> Vec<T> + Copy,
        V2: Fn(T, T) -> bool + Copy,
        U2: Fn(u64) -> T + Copy,
    >(
        &self,
        sampler: &Sampler<T, D2, P2, F2, C2, S2, V2, U2>,
        model: &Model<T>,
        tok: Option<&Tokenizer>,
        channels: bool,
        settings: &Settings,
        draws: &mut Draws,
        g: &mut Generation<T>,
    ) -> (said: Option<Vec<Piece>>)
        requires
            self.usable(),
            sampler.usable(),
            speaks(model),
            usable_tokenizer(tok),
            0 < settings.top_k || sampling::greedy(settings.temperature),
            old(g).wf(model),
            old(g).pos < usize::MAX,
            old(draws).taken() < usize::MAX,
        ensures
            final(g).wf(model),
            final(draws).seed() == old(draws).seed(),
            final(draws).taken() == old(draws).taken() + if sampling::greedy(settings.temperature) {
                0int
            } else {
                1
            },
            exists|token: usize|
                {
                    &&& #[trigger] sampler.chooses(
                        old(g).logits@,
                        old(g).out@,
                        *settings,
                        old(draws).coming(),
                        token as int,
                    )
                    &&& match said {
                        Some(pieces) => !ends(lexicon_of(tok), token) && self.grows(
                            model,
                            lexicon_of(tok),
                            channels,
                            token,
                            *old(g),
                            *final(g),
                            pieces@,
                        ),
                        None => ends(lexicon_of(tok), token) && *final(g) == *old(g),
                    }
                },
            forall|together: bool, prompt: Seq<usize>| #[trigger]
                self.recalls(model, together, prompt, *old(g)) && old(g).pos == prompt.len()
                    + old(g).out@.len() ==> self.recalls(model, together, prompt, *final(g)),
    {
        let draw: u64 = if sampling::is_greedy(settings.temperature) {
            0
        } else {
            draws.next()
        };
        let ghost coming = old(draws).coming();
        let ghost before = *g;
        let said = self.advance(sampler, model, tok, channels, settings, draw, g);
        proof {
            assert forall|token: usize|
                #[trigger] sampler.chooses(
                    before.logits@,
                    before.out@,
                    *settings,
                    draw,
                    token as int,
                ) implies sampler.chooses(
                before.logits@,
                before.out@,
                *settings,
                coming,
                token as int,
            ) by {
                if sampling::greedy(settings.temperature) {
                    sampler.greed_ignores_draws(
                        before.logits@,
                        before.out@,
                        *settings,
                        draw,
                        coming,
                        token as int,
                    );
                }
            }
        }
        said
    }
}

} // verus!
