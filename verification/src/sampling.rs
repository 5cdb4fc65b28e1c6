//! Choosing the next token from its scores.

use vstd::prelude::*;
use crate::float_order;
use crate::float_order::{is_greater, is_nan};
use crate::fold;
use crate::llm_config::ONE;
use crate::ordering;
use crate::ordering::{last_greatest, leading};

verus! {

/// How many of the last tokens are penalized.
pub const REPEAT_WINDOW: usize = 64;

/// How tokens are chosen. Numbers are given by bit pattern.
#[derive(Clone, Copy, Debug, PartialEq, Eq)]
pub struct Settings {
    pub temperature: u32,
    pub top_k: usize,
    pub repeat_penalty: u32,
}

/// The operations on scores.
#[derive(Clone, Copy)]
pub struct Sampler<T, D, P, F, C, S, V, U> {
    pub zero: T,
    /// The bit pattern of a score, by which scores are ordered.
    pub bits: D,
    pub plus: P,
    /// A score with the repeat penalty.
    pub penalize: F,
    /// A score divided by the temperature.
    pub cool: C,
    /// Scores, from the greatest down, turned into probabilities.
    pub share: S,
    /// Whether a draw is at most a sum of probabilities.
    pub covers: V,
    /// A draw as a fraction.
    pub fraction: U,
}

/// The last tokens, which are penalized.
pub open spec fn window(out: Seq<usize>) -> Seq<usize> {
    if out.len() > REPEAT_WINDOW {
        out.skip(out.len() - REPEAT_WINDOW)
    } else {
        out
    }
}

/// The temperature asks for the greatest score.
pub open spec fn greedy(temperature: u32) -> bool {
    !float_order::nan(temperature) && float_order::level(temperature) <= 0
}

/// Whether the temperature asks for the greatest score.
pub fn is_greedy(temperature: u32) -> (r: bool)
    ensures
        r == greedy(temperature),
{
    !is_nan(temperature) && !is_greater(temperature, 0)
}

/// The smaller of two numbers.
pub open spec fn smaller(a: nat, b: nat) -> nat {
    if a < b {
        a
    } else {
        b
    }
}

/// The first index at which a flag is set, or zero.
pub open spec fn first_set(flags: Seq<bool>, from: int) -> int
    decreases flags.len() - from,
{
    if from >= flags.len() || from < 0 {
        0
    } else if flags[from] {
        from
    } else {
        first_set(flags, from + 1)
    }
}

/// The inner values of a draw.
pub struct Draw<T> {
    pub scaled: Seq<T>,
    pub bits: Seq<u32>,
    pub chosen: Seq<usize>,
    pub shares: Seq<T>,
    pub point: T,
    /// The sums of the first shares.
    pub sums: Seq<T>,
    /// Whether each sum covers the point.
    pub covered: Seq<bool>,
}

impl<
    T: Copy,
    D: Fn(T) -> u32 + Copy,
    P: Fn(T, T) -> T + Copy,
    F: Fn(T, u32) -> T + Copy,
    C: Fn(T, u32) -> T + Copy,
    S: Fn(Vec<T>) -> Vec<T> + Copy,
    V: Fn(T, T) -> bool + Copy,
    U: Fn(u64) -> T + Copy,
> Sampler<T, D, P, F, C, S, V, U> {
    /// Every operation accepts every argument, and there are as many probabilities as scores.
    pub open spec fn usable(self) -> bool {
        &&& fold::total1(self.bits)
        &&& fold::total2(self.plus)
        &&& fold::total2(self.penalize)
        &&& fold::total2(self.cool)
        &&& fold::total1(self.share)
        &&& forall|scores: Vec<T>, shares: Vec<T>| #[trigger]
            call_ensures(self.share, (scores,), shares) ==> shares@.len() == scores@.len()
        &&& fold::total2(self.covers)
        &&& fold::total1(self.fraction)
    }

    /// `after` are the scores with a penalty for each token of a window, as often as it occurs.
    pub open spec fn penalizes(
        self,
        scores: Seq<T>,
        recent: Seq<usize>,
        penalty: u32,
        after: Seq<T>,
    ) -> bool
        decreases recent.len(),
    {
        if recent.len() == 0 {
            after == scores
        } else {
            exists|before: Seq<T>, value: T|
                {
                    &&& self.penalizes(scores, recent.drop_last(), penalty, before)
                    &&& #[trigger] call_ensures(
                        self.penalize,
                        (before[recent.last() as int], penalty),
                        value,
                    )
                    &&& after == #[trigger] before.update(recent.last() as int, value)
                }
        }
    }

    /// `after` are the scores that a token is chosen from.
    pub open spec fn adjusts(
        self,
        scores: Seq<T>,
        out: Seq<usize>,
        penalty: u32,
        after: Seq<T>,
    ) -> bool {
        if float_order::greater(penalty, ONE) {
            self.penalizes(scores, window(out), penalty, after)
        } else {
            after == scores
        }
    }

    /// A token is drawn: of the greatest scores, divided by the temperature and turned into
    /// probabilities, the first whose sum with those before it covers the point that was drawn. If
    /// none does, it is the greatest.
    pub open spec fn draws(
        self,
        scores: Seq<T>,
        settings: Settings,
        draw: u64,
        d: Draw<T>,
        token: int,
    ) -> bool {
        let k = smaller(settings.top_k as nat, scores.len());
        &&& d.scaled.len() == scores.len()
        &&& forall|i: int|
            0 <= i < scores.len() ==> call_ensures(
                self.cool,
                (scores[i], settings.temperature),
                #[trigger] d.scaled[i],
            )
        &&& d.bits.len() == scores.len()
        &&& forall|i: int|
            0 <= i < scores.len() ==> call_ensures(
                self.bits,
                (d.scaled[i],),
                #[trigger] d.bits[i],
            )
        &&& d.chosen.len() == k
        &&& ordering::leads(d.bits, d.chosen)
        &&& exists|top: Vec<T>, shares: Vec<T>|
            {
                &&& #[trigger] call_ensures(self.share, (top,), shares)
                &&& top@ == Seq::new(k, |i: int| d.scaled[d.chosen[i] as int])
                &&& shares@ == d.shares
            }
        &&& call_ensures(self.fraction, (draw,), d.point)
        &&& d.sums.len() == k + 1
        &&& d.sums[0] == self.zero
        &&& forall|i: int|
            0 <= i < k ==> call_ensures(
                self.plus,
                (d.sums[i], d.shares[i]),
                #[trigger] d.sums[i + 1],
            )
        &&& d.covered.len() == k
        &&& forall|i: int|
            0 <= i < k ==> call_ensures(
                self.covers,
                (d.point, d.sums[i + 1]),
                #[trigger] d.covered[i],
            )
        &&& token == d.chosen[first_set(d.covered, 0)]
    }

    /// `token` is chosen from scores.
    pub open spec fn picks(
        self,
        scores: Seq<T>,
        settings: Settings,
        draw: u64,
        token: int,
    ) -> bool {
        if greedy(settings.temperature) {
            exists|bits: Seq<u32>|
                {
                    &&& bits.len() == scores.len()
                    &&& forall|i: int|
                        0 <= i < scores.len() ==> call_ensures(
                            self.bits,
                            (scores[i],),
                            #[trigger] bits[i],
                        )
                    &&& #[trigger] ordering::is_last_greatest(bits, token)
                }
        } else {
            exists|d: Draw<T>| #[trigger] self.draws(scores, settings, draw, d, token)
        }
    }

    /// `token` follows the tokens of `out`, whose scores were `scores`.
    pub open spec fn chooses(
        self,
        scores: Seq<T>,
        out: Seq<usize>,
        settings: Settings,
        draw: u64,
        token: int,
    ) -> bool {
        exists|adjusted: Seq<T>| #[trigger]
            self.adjusts(scores, out, settings.repeat_penalty, adjusted) && self.picks(
                adjusted,
                settings,
                draw,
                token,
            )
    }

    /// Where the greatest score decides, the number that was drawn does not matter.
    pub proof fn greed_ignores_draws(
        self,
        scores: Seq<T>,
        out: Seq<usize>,
        settings: Settings,
        one: u64,
        other: u64,
        token: int,
    )
        requires
            greedy(settings.temperature),
        ensures
            self.chooses(scores, out, settings, one, token) == self.chooses(
                scores,
                out,
                settings,
                other,
                token,
            ),
    {
        assert forall|adjusted: Seq<T>|
            self.picks(adjusted, settings, one, token) == #[trigger] self.picks(
                adjusted,
                settings,
                other,
                token,
            ) by {}
    }

    /// The scores with the repeat penalty.
    fn adjust(&self, scores: &[T], out: &[usize], penalty: u32) -> (after: Vec<T>)
        requires
            self.usable(),
            forall|i: int| 0 <= i < out@.len() ==> (#[trigger] out@[i]) < scores@.len(),
        ensures
            after@.len() == scores@.len(),
            self.adjusts(scores@, out@, penalty, after@),
    {
        let mut after = vstd::slice::slice_to_vec(scores);
        if !is_greater(penalty, ONE) {
            return after;
        }
        proof {
            assert(out@.len() == out.len());
        }
        let start: usize = if out.len() > REPEAT_WINDOW {
            out.len() - REPEAT_WINDOW
        } else {
            0
        };
        let ghost recent = window(out@);
        let mut i: usize = start;
        proof {
            assert(recent =~= out@.skip(start as int));
            assert(recent.take(0) =~= Seq::empty());
        }
        while i < out.len()
            invariant
                self.usable(),
                start <= i <= out@.len() == out.len(),
                recent == out@.skip(start as int),
                after@.len() == scores@.len(),
                forall|i: int| 0 <= i < out@.len() ==> (#[trigger] out@[i]) < scores@.len(),
                self.penalizes(scores@, recent.take(i - start), penalty, after@),
            decreases out.len() - i,
        {
            let token: usize = out[i];
            let ghost before = after@;
            proof {
                assert(out@[i as int] < scores@.len());
            }
            let value = (self.penalize)(after[token], penalty);
            after.set(token, value);
            proof {
                let longer = recent.take(i + 1 - start);
                assert(longer.drop_last() =~= recent.take(i - start));
                assert(longer.last() == token);
                assert(call_ensures(
                    self.penalize,
                    (before[longer.last() as int], penalty),
                    value,
                ));
                assert(after@ == before.update(longer.last() as int, value));
            }
            i = i + 1;
        }
        proof {
            assert(recent.take(i - start) =~= recent);
        }
        after
    }

    /// The bit patterns of scores.
    fn bits_of(&self, scores: &[T]) -> (bits: Vec<u32>)
        requires
            self.usable(),
        ensures
            bits@.len() == scores@.len(),
            forall|i: int|
                0 <= i < scores@.len() ==> call_ensures(
                    self.bits,
                    (scores@[i],),
                    #[trigger] bits@[i],
                ),
    {
        let mut bits: Vec<u32> = Vec::with_capacity(scores.len());
        let mut i: usize = 0;
        proof {
            assert(scores@.len() == scores.len());
        }
        while i < scores.len()
            invariant
                self.usable(),
                i == bits@.len() <= scores@.len() == scores.len(),
                forall|j: int|
                    0 <= j < i ==> call_ensures(self.bits, (scores@[j],), #[trigger] bits@[j]),
            decreases scores.len() - i,
        {
            bits.push((self.bits)(scores[i]));
            i = i + 1;
        }
        bits
    }

    /// Draws a token.
    fn draw(&self, scores: &[T], settings: &Settings, draw: u64) -> (token: usize)
        requires
            self.usable(),
            0 < scores@.len(),
            0 < settings.top_k,
        ensures
            token < scores@.len(),
            exists|d: Draw<T>| #[trigger]
                self.draws(scores@, *settings, draw, d, token as int),
    {
        proof {
            assert(scores@.len() == scores.len());
        }
        let k: usize = if settings.top_k < scores.len() {
            settings.top_k
        } else {
            scores.len()
        };
        let mut scaled: Vec<T> = Vec::with_capacity(scores.len());
        let mut i: usize = 0;
        while i < scores.len()
            invariant
                self.usable(),
                i == scaled@.len() <= scores@.len() == scores.len(),
                forall|j: int|
                    0 <= j < i ==> call_ensures(
                        self.cool,
                        (scores@[j], settings.temperature),
                        #[trigger] scaled@[j],
                    ),
            decreases scores.len() - i,
        {
            scaled.push((self.cool)(scores[i], settings.temperature));
            i = i + 1;
        }
        let bits = self.bits_of(&scaled);
        let chosen = leading(&bits, k);
        let mut top: Vec<T> = Vec::with_capacity(k);
        let mut i: usize = 0;
        while i < k
            invariant
                i == top@.len() <= k == chosen@.len(),
                ordering::leads(bits@, chosen@),
                bits@.len() == scaled@.len(),
                forall|j: int| 0 <= j < i ==> #[trigger] top@[j] == scaled@[chosen@[j] as int],
            decreases k - i,
        {
            proof {
                assert(chosen@[i as int] < bits@.len());
            }
            top.push(scaled[chosen[i]]);
            i = i + 1;
        }
        let ghost shown = top;
        let shares = (self.share)(top);
        let point = (self.fraction)(draw);
        let mut sum = self.zero;
        let mut pick: Option<usize> = None;
        let ghost mut sums: Seq<T> = seq![self.zero];
        let ghost mut covered: Seq<bool> = Seq::empty();
        let mut i: usize = 0;
        while i < k
            invariant
                self.usable(),
                i <= k == shares@.len(),
                sums.len() == i + 1,
                sums[0] == self.zero,
                sums[i as int] == sum,
                covered.len() == i,
                forall|j: int|
                    0 <= j < i ==> call_ensures(
                        self.plus,
                        (sums[j], shares@[j]),
                        #[trigger] sums[j + 1],
                    ),
                forall|j: int|
                    0 <= j < i ==> call_ensures(
                        self.covers,
                        (point, sums[j + 1]),
                        #[trigger] covered[j],
                    ),
                match pick {
                    Some(p) => p < i && covered[p as int] && forall|j: int|
                        0 <= j < p ==> !#[trigger] covered[j],
                    None => forall|j: int| 0 <= j < i ==> !#[trigger] covered[j],
                },
            decreases k - i,
        {
            let ghost before = sums;
            let ghost flags = covered;
            sum = (self.plus)(sum, shares[i]);
            let covers = (self.covers)(point, sum);
            if covers && pick.is_none() {
                pick = Some(i);
            }
            proof {
                sums = sums.push(sum);
                covered = covered.push(covers);
                assert forall|j: int| 0 <= j < i + 1 implies call_ensures(
                    self.plus,
                    (sums[j], shares@[j]),
                    #[trigger] sums[j + 1],
                ) by {
                    assert(sums[j] == before[j]);
                    if j < i {
                        assert(sums[j + 1] == before[j + 1]);
                    }
                }
                assert forall|j: int| 0 <= j < i + 1 implies call_ensures(
                    self.covers,
                    (point, sums[j + 1]),
                    #[trigger] covered[j],
                ) by {
                    if j < i {
                        assert(covered[j] == flags[j]);
                        assert(sums[j + 1] == before[j + 1]);
                    }
                }
                assert forall|j: int| 0 <= j < i implies #[trigger] covered[j] == flags[j] by {}
            }
            i = i + 1;
        }
        let at: usize = match pick {
            Some(p) => p,
            None => 0,
        };
        proof {
            lemma_first_set(covered, 0, pick);
            assert(chosen@[at as int] < bits@.len());
            let d = Draw {
                scaled: scaled@,
                bits: bits@,
                chosen: chosen@,
                shares: shares@,
                point,
                sums,
                covered,
            };
            assert(shown@ =~= Seq::new(k as nat, |i: int| d.scaled[d.chosen[i] as int]));
            assert(call_ensures(self.share, (shown,), shares));
            assert(self.draws(scores@, *settings, draw, d, chosen@[at as int] as int));
        }
        chosen[at]
    }

    /// Chooses the next token.
    pub fn choose_next(
        &self,
        scores: &[T],
        out: &[usize],
        settings: &Settings,
        draw: u64,
    ) -> (token: usize)
        requires
            self.usable(),
            0 < scores@.len(),
            0 < settings.top_k || greedy(settings.temperature),
            forall|i: int| 0 <= i < out@.len() ==> (#[trigger] out@[i]) < scores@.len(),
        ensures
            token < scores@.len(),
            self.chooses(scores@, out@, *settings, draw, token as int),
    {
        let adjusted = self.adjust(scores, out, settings.repeat_penalty);
        if is_greedy(settings.temperature) {
            let bits = self.bits_of(&adjusted);
            let token = last_greatest(&bits);
            proof {
                assert(self.picks(adjusted@, *settings, draw, token as int));
            }
            token
        } else {
            let token = self.draw(&adjusted, settings, draw);
            proof {
                assert(self.picks(adjusted@, *settings, draw, token as int));
            }
            token
        }
    }
}

/// The first index at which a flag is set.
proof fn lemma_first_set(flags: Seq<bool>, from: int, pick: Option<usize>)
    requires
        0 <= from <= flags.len(),
        match pick {
            Some(p) => from <= p < flags.len() && flags[p as int] && forall|j: int|
                from <= j < p ==> !#[trigger] flags[j],
            None => forall|j: int| from <= j < flags.len() ==> !#[trigger] flags[j],
        },
    ensures
        first_set(flags, from) == match pick {
            Some(p) => p as int,
            None => 0,
        },
    decreases flags.len() - from,
{
    if from < flags.len() && !flags[from] {
        lemma_first_set(flags, from + 1, pick);
    }
}

} // verus!
