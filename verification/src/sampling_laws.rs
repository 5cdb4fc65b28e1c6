//! What the settings do to the choice of a token.

use vstd::prelude::*;
use crate::exact;
use crate::float_order;
use crate::llm_config::ONE;
use crate::ordering;
use crate::sampling;
use crate::sampling::{Draw, Sampler, Settings};

verus! {

/// `cooled` are scores after the cooling operation, with one temperature for all of them.
pub open spec fn cools<T, C: Fn(T, u32) -> T>(
    cool: C,
    scores: Seq<T>,
    temperature: u32,
    cooled: Seq<T>,
) -> bool {
    &&& cooled.len() == scores.len()
    &&& forall|i: int|
        0 <= i < scores.len() ==> call_ensures(
            cool,
            (scores[i], temperature),
            #[trigger] cooled[i],
        )
}

/// The operation leaves scores as they are.
pub open spec fn leaves_alone<T, C: Fn(T, u32) -> T>(cool: C) -> bool {
    forall|x: T, temperature: u32, y: T| #[trigger]
        call_ensures(cool, (x, temperature), y) <==> y == x
}

/// A draw with other settings for the cooling, from scores that are cooled already.
proof fn lemma_cooled<T, D, P, F, C, C2, S, V, U>(
    sampler: Sampler<T, D, P, F, C, S, V, U>,
    still: Sampler<T, D, P, F, C2, S, V, U>,
    scores: Seq<T>,
    cooled: Seq<T>,
    settings: Settings,
    draw: u64,
    d: Draw<T>,
    token: int,
) where
    T: Copy,
    D: Fn(T) -> u32 + Copy,
    P: Fn(T, T) -> T + Copy,
    F: Fn(T, u32) -> T + Copy,
    C: Fn(T, u32) -> T + Copy,
    C2: Fn(T, u32) -> T + Copy,
    S: Fn(Vec<T>) -> Vec<T> + Copy,
    V: Fn(T, T) -> bool + Copy,
    U: Fn(u64) -> T + Copy,

    requires
        still.zero == sampler.zero,
        still.bits == sampler.bits,
        still.plus == sampler.plus,
        still.share == sampler.share,
        still.covers == sampler.covers,
        still.fraction == sampler.fraction,
        leaves_alone(still.cool),
        d.scaled == cooled,
        cools(sampler.cool, scores, settings.temperature, cooled),
    ensures
        sampler.draws(scores, settings, draw, d, token) == still.draws(
            cooled,
            settings,
            draw,
            d,
            token,
        ),
{
}

/// The temperature counts: what can be drawn from scores at a temperature is what can be drawn,
/// without any cooling, from the scores that the cooling operation makes of each score and that
/// temperature.
pub proof fn the_temperature_cools_every_score<T, D, P, F, C, C2, S, V, U>(
    sampler: Sampler<T, D, P, F, C, S, V, U>,
    still: Sampler<T, D, P, F, C2, S, V, U>,
    scores: Seq<T>,
    out: Seq<usize>,
    settings: Settings,
    draw: u64,
    token: int,
) where
    T: Copy,
    D: Fn(T) -> u32 + Copy,
    P: Fn(T, T) -> T + Copy,
    F: Fn(T, u32) -> T + Copy,
    C: Fn(T, u32) -> T + Copy,
    C2: Fn(T, u32) -> T + Copy,
    S: Fn(Vec<T>) -> Vec<T> + Copy,
    V: Fn(T, T) -> bool + Copy,
    U: Fn(u64) -> T + Copy,

    requires
        0 < float_order::level(settings.temperature),
        still.zero == sampler.zero,
        still.bits == sampler.bits,
        still.plus == sampler.plus,
        still.share == sampler.share,
        still.covers == sampler.covers,
        still.fraction == sampler.fraction,
        leaves_alone(still.cool),
    ensures
        sampler.chooses(scores, out, settings, draw, token) <==> exists|
            adjusted: Seq<T>,
            cooled: Seq<T>,
        |
            {
                &&& sampler.adjusts(scores, out, settings.repeat_penalty, adjusted)
                &&& #[trigger] cools(sampler.cool, adjusted, settings.temperature, cooled)
                &&& still.picks(cooled, settings, draw, token)
            },
{
    if sampler.chooses(scores, out, settings, draw, token) {
        let adjusted = choose|adjusted: Seq<T>| #[trigger]
            sampler.adjusts(scores, out, settings.repeat_penalty, adjusted) && sampler.picks(
                adjusted,
                settings,
                draw,
                token,
            );
        let d = choose|d: Draw<T>| #[trigger]
            sampler.draws(adjusted, settings, draw, d, token);
        assert(cools(sampler.cool, adjusted, settings.temperature, d.scaled));
        lemma_cooled(sampler, still, adjusted, d.scaled, settings, draw, d, token);
        assert(still.picks(d.scaled, settings, draw, token));
    }
    if exists|adjusted: Seq<T>, cooled: Seq<T>|
        {
            &&& sampler.adjusts(scores, out, settings.repeat_penalty, adjusted)
            &&& #[trigger] cools(sampler.cool, adjusted, settings.temperature, cooled)
            &&& still.picks(cooled, settings, draw, token)
        } {
        let (adjusted, cooled) = choose|adjusted: Seq<T>, cooled: Seq<T>|
            {
                &&& sampler.adjusts(scores, out, settings.repeat_penalty, adjusted)
                &&& #[trigger] cools(sampler.cool, adjusted, settings.temperature, cooled)
                &&& still.picks(cooled, settings, draw, token)
            };
        let d = choose|d: Draw<T>| #[trigger] still.draws(cooled, settings, draw, d, token);
        assert(d.scaled =~= cooled);
        lemma_cooled(sampler, still, adjusted, cooled, settings, draw, d, token);
        assert(sampler.picks(adjusted, settings, draw, token));
    }
}

/// The order of scores by their bit patterns.
pub open spec fn ranks<T, D: Fn(T) -> u32>(bits: D, scores: Seq<T>, places: Seq<int>) -> bool {
    exists|patterns: Seq<u32>|
        {
            &&& patterns.len() == scores.len()
            &&& #[trigger] places_of(patterns) == places
            &&& forall|i: int|
                0 <= i < scores.len() ==> call_ensures(bits, (scores[i],), #[trigger] patterns[i])
        }
}

/// The places of numbers in their total order.
pub open spec fn places_of(patterns: Seq<u32>) -> Seq<int> {
    Seq::new(patterns.len(), |i: int| float_order::place(patterns[i]))
}

/// The first set flag, or the first of all.
proof fn lemma_first_set(flags: Seq<bool>, from: int)
    requires
        0 <= from <= flags.len(),
    ensures
        ({
            let c = sampling::first_set(flags, from);
            ||| from <= c < flags.len() && flags[c] && forall|j: int|
                from <= j < c ==> !#[trigger] flags[j]
            ||| c == 0 && forall|j: int| from <= j < flags.len() ==> !#[trigger] flags[j]
        }),
    decreases flags.len() - from,
{
    if from < flags.len() && !flags[from] {
        lemma_first_set(flags, from + 1);
    }
}

/// Only the best are drawn: of the cooled scores, fewer than `top_k` are greater than that of the
/// token.
pub proof fn only_the_best_are_drawn<T, D, P, F, C, S, V, U>(
    sampler: Sampler<T, D, P, F, C, S, V, U>,
    scores: Seq<T>,
    settings: Settings,
    draw: u64,
    token: int,
) where
    T: Copy,
    D: Fn(T) -> u32 + Copy,
    P: Fn(T, T) -> T + Copy,
    F: Fn(T, u32) -> T + Copy,
    C: Fn(T, u32) -> T + Copy,
    S: Fn(Vec<T>) -> Vec<T> + Copy,
    V: Fn(T, T) -> bool + Copy,
    U: Fn(u64) -> T + Copy,

    requires
        0 < float_order::level(settings.temperature),
        !float_order::nan(settings.temperature),
        0 < settings.top_k,
        0 < scores.len() <= usize::MAX,
        sampler.picks(scores, settings, draw, token),
    ensures
        0 <= token < scores.len(),
        exists|cooled: Seq<T>, places: Seq<int>|
            {
                &&& #[trigger] cools(sampler.cool, scores, settings.temperature, cooled)
                &&& #[trigger] ranks(sampler.bits, cooled, places)
                &&& places.len() == scores.len()
                &&& better(places, token).finite()
                &&& better(places, token).len() < settings.top_k
            },
{
    let d = choose|d: Draw<T>| #[trigger] sampler.draws(scores, settings, draw, d, token);
    let k = d.chosen.len();
    let c = sampling::first_set(d.covered, 0);
    lemma_first_set(d.covered, 0);
    assert(0 <= c < k);
    let places = places_of(d.bits);
    assert(cools(sampler.cool, scores, settings.temperature, d.scaled));
    assert(ranks(sampler.bits, d.scaled, places));
    assert(d.chosen[c] < d.bits.len());
    let first = d.chosen.take(c);
    let named = first.map(|i: int, n: usize| n as int);
    assert(named.no_duplicates()) by {
        assert forall|i: int, j: int| 0 <= i < c && 0 <= j < c && i != j implies named[i]
            != named[j] by {
            assert(d.chosen[i] != d.chosen[j]);
        }
    }
    named.unique_seq_to_set();
    assert forall|n: int| #[trigger] better(places, token).contains(n) implies named.to_set().contains(
        n,
    ) by {
        if !d.chosen.contains(n as usize) {
            assert(float_order::place(d.bits[n]) <= float_order::place(
                d.bits[d.chosen[c] as int],
            ));
        }
        let j = choose|j: int| 0 <= j < d.chosen.len() && d.chosen[j] == n as usize;
        if j >= c {
            assert(float_order::place(d.bits[d.chosen[j] as int]) <= float_order::place(
                d.bits[d.chosen[c] as int],
            ));
        }
        assert(named[j] == n);
    }
    vstd::set_lib::lemma_len_subset(better(places, token), named.to_set());
}

/// The tokens with a greater score.
pub open spec fn better(places: Seq<int>, token: int) -> Set<int> {
    Set::new(|n: int| 0 <= n < places.len() && places[n] > places[token])
}

/// The sum of the first `n` shares.
pub open spec fn mass<T>(value: spec_fn(T) -> int, shares: Seq<T>, n: int) -> int {
    exact::sum(n as nat, |i: int| value(shares[i]))
}

/// `best` names the greatest of the places, from the greatest down.
pub open spec fn names_best(places: Seq<int>, best: Seq<int>) -> bool {
    &&& best.no_duplicates()
    &&& forall|i: int| 0 <= i < best.len() ==> 0 <= #[trigger] best[i] < places.len()
    &&& forall|i: int, j: int|
        #![trigger best[i], best[j]]
        0 <= i < j < best.len() ==> places[best[j]] <= places[best[i]]
    &&& forall|n: int, i: int|
        #![trigger places[n], best[i]]
        0 <= n < places.len() && 0 <= i < best.len() && !best.contains(n) ==> places[n]
            <= places[best[i]]
}

/// The sums of a draw.
proof fn lemma_sums<T, P: Fn(T, T) -> T>(
    plus: P,
    value: spec_fn(T) -> int,
    shares: Seq<T>,
    sums: Seq<T>,
    n: int,
)
    requires
        exact::adds(plus, value),
        value(sums[0]) == 0,
        forall|i: int|
            0 <= i < n ==> call_ensures(plus, (sums[i], shares[i]), #[trigger] sums[i + 1]),
        0 <= n,
    ensures
        value(sums[n]) == mass(value, shares, n),
    decreases n,
{
    if n > 0 {
        lemma_sums(plus, value, shares, sums, n - 1);
        assert(call_ensures(plus, (sums[n - 1], shares[n - 1]), sums[n - 1 + 1]));
    }
}

/// A draw falls into the share of its token: the shares of the best tokens, from the best on, are
/// laid end to end, and the token is the first whose end the drawn point does not pass; the best,
/// where the point passes them all. The shares are those that the best cooled scores are turned
/// into.
pub proof fn a_draw_falls_into_its_share<T, D, P, F, C, S, V, U>(
    sampler: Sampler<T, D, P, F, C, S, V, U>,
    value: spec_fn(T) -> int,
    scores: Seq<T>,
    settings: Settings,
    draw: u64,
    token: int,
) where
    T: Copy,
    D: Fn(T) -> u32 + Copy,
    P: Fn(T, T) -> T + Copy,
    F: Fn(T, u32) -> T + Copy,
    C: Fn(T, u32) -> T + Copy,
    S: Fn(Vec<T>) -> Vec<T> + Copy,
    V: Fn(T, T) -> bool + Copy,
    U: Fn(u64) -> T + Copy,

    requires
        0 < float_order::level(settings.temperature),
        !float_order::nan(settings.temperature),
        0 < settings.top_k,
        0 < scores.len() <= usize::MAX,
        value(sampler.zero) == 0,
        exact::adds(sampler.plus, value),
        forall|point: T, end: T, b: bool| #[trigger]
            call_ensures(sampler.covers, (point, end), b) ==> b == (value(point) <= value(end)),
        sampler.picks(scores, settings, draw, token),
    ensures
        exists|
            cooled: Seq<T>,
            places: Seq<int>,
            best: Seq<int>,
            top: Vec<T>,
            shares: Vec<T>,
            point: T,
            c: int,
        |
            {
                &&& #[trigger] cools(sampler.cool, scores, settings.temperature, cooled)
                &&& #[trigger] ranks(sampler.bits, cooled, places)
                &&& #[trigger] names_best(places, best)
                &&& best.len() == if settings.top_k < scores.len() {
                    settings.top_k as int
                } else {
                    scores.len() as int
                }
                &&& top@ == Seq::new(best.len(), |i: int| cooled[best[i]])
                &&& #[trigger] call_ensures(sampler.share, (top,), shares)
                &&& #[trigger] call_ensures(sampler.fraction, (draw,), point)
                &&& 0 <= c < best.len()
                &&& token == #[trigger] best[c]
                &&& {
                    ||| {
                        &&& value(point) <= mass(value, shares@, c + 1)
                        &&& forall|j: int|
                            0 <= j < c ==> #[trigger] mass(value, shares@, j + 1) < value(point)
                    }
                    ||| {
                        &&& c == 0
                        &&& forall|j: int|
                            0 <= j < best.len() ==> #[trigger] mass(value, shares@, j + 1) < value(
                                point,
                            )
                    }
                }
            },
{
    let d = choose|d: Draw<T>| #[trigger] sampler.draws(scores, settings, draw, d, token);
    let k = d.chosen.len();
    let c = sampling::first_set(d.covered, 0);
    lemma_first_set(d.covered, 0);
    let places = places_of(d.bits);
    let best = d.chosen.map(|i: int, n: usize| n as int);
    let (top, shares) = choose|top: Vec<T>, shares: Vec<T>|
        {
            &&& #[trigger] call_ensures(sampler.share, (top,), shares)
            &&& top@ == Seq::new(k, |i: int| d.scaled[d.chosen[i] as int])
            &&& shares@ == d.shares
        };
    assert(cools(sampler.cool, scores, settings.temperature, d.scaled));
    assert(ranks(sampler.bits, d.scaled, places));
    assert(names_best(places, best)) by {
        assert forall|i: int, j: int| 0 <= i < k && 0 <= j < k && i != j implies best[i]
            != best[j] by {
            assert(d.chosen[i] != d.chosen[j]);
        }
        assert forall|i: int| 0 <= i < best.len() implies 0 <= #[trigger] best[i]
            < places.len() by {
            assert(d.chosen[i] < d.bits.len());
        }
        assert forall|i: int, j: int|
            #![trigger best[i], best[j]]
            0 <= i < j < best.len() implies places[best[j]] <= places[best[i]] by {
            assert(d.chosen[i] < d.bits.len() && d.chosen[j] < d.bits.len());
        }
        assert forall|n: int, i: int|
            #![trigger places[n], best[i]]
            0 <= n < places.len() && 0 <= i < best.len() && !best.contains(n) implies places[n]
            <= places[best[i]] by {
            assert(d.chosen[i] < d.bits.len());
            if d.chosen.contains(n as usize) {
                let j = choose|j: int| 0 <= j < d.chosen.len() && d.chosen[j] == n as usize;
                assert(best[j] == n);
            }
            assert(float_order::place(d.bits[n]) <= float_order::place(
                d.bits[d.chosen[i] as int],
            ));
        }
    }
    assert(top@ =~= Seq::new(best.len(), |i: int| d.scaled[best[i]]));
    assert forall|j: int| 0 <= j < k implies d.covered[j] == (value(d.point) <= #[trigger] mass(
        value,
        shares@,
        j + 1,
    )) by {
        lemma_sums(sampler.plus, value, shares@, d.sums, j + 1);
        assert(call_ensures(sampler.covers, (d.point, d.sums[j + 1]), d.covered[j]));
    }
    assert(best[c] == token);
    assert(call_ensures(sampler.fraction, (draw,), d.point));
}

/// Without a temperature the token with the greatest score is chosen, the last of several.
pub proof fn without_temperature_the_greatest_wins<T, D, P, F, C, S, V, U>(
    sampler: Sampler<T, D, P, F, C, S, V, U>,
    scores: Seq<T>,
    settings: Settings,
    draw: u64,
    token: int,
) where
    T: Copy,
    D: Fn(T) -> u32 + Copy,
    P: Fn(T, T) -> T + Copy,
    F: Fn(T, u32) -> T + Copy,
    C: Fn(T, u32) -> T + Copy,
    S: Fn(Vec<T>) -> Vec<T> + Copy,
    V: Fn(T, T) -> bool + Copy,
    U: Fn(u64) -> T + Copy,

    requires
        !float_order::nan(settings.temperature),
        float_order::level(settings.temperature) <= 0,
    ensures
        sampler.picks(scores, settings, draw, token) <==> exists|places: Seq<int>|
            {
                &&& #[trigger] ranks(sampler.bits, scores, places)
                &&& 0 <= token < scores.len()
                &&& forall|n: int|
                    0 <= n < scores.len() ==> (#[trigger] places[n] < places[token] || (places[n]
                        == places[token] && n <= token))
            },
{
    if sampler.picks(scores, settings, draw, token) {
        let bits = choose|bits: Seq<u32>|
            {
                &&& bits.len() == scores.len()
                &&& forall|i: int|
                    0 <= i < scores.len() ==> call_ensures(
                        sampler.bits,
                        (scores[i],),
                        #[trigger] bits[i],
                    )
                &&& #[trigger] ordering::is_last_greatest(bits, token)
            };
        let places = places_of(bits);
        assert(ranks(sampler.bits, scores, places));
        assert forall|n: int| 0 <= n < scores.len() implies (#[trigger] places[n] < places[token]
            || (places[n] == places[token] && n <= token)) by {
            assert(float_order::place(bits[n]) <= float_order::place(bits[token]));
        }
    }
    if exists|places: Seq<int>|
        {
            &&& #[trigger] ranks(sampler.bits, scores, places)
            &&& 0 <= token < scores.len()
            &&& forall|n: int|
                0 <= n < scores.len() ==> (#[trigger] places[n] < places[token] || (places[n]
                    == places[token] && n <= token))
        } {
        let places = choose|places: Seq<int>|
            {
                &&& #[trigger] ranks(sampler.bits, scores, places)
                &&& 0 <= token < scores.len()
                &&& forall|n: int|
                    0 <= n < scores.len() ==> (#[trigger] places[n] < places[token] || (places[n]
                        == places[token] && n <= token))
            };
        let bits = choose|patterns: Seq<u32>|
            {
                &&& patterns.len() == scores.len()
                &&& #[trigger] places_of(patterns) == places
                &&& forall|i: int|
                    0 <= i < scores.len() ==> call_ensures(
                        sampler.bits,
                        (scores[i],),
                        #[trigger] patterns[i],
                    )
            };
        assert forall|n: int| 0 <= n < bits.len() implies float_order::place(#[trigger] bits[n])
            <= float_order::place(bits[token]) && (n > token ==> float_order::place(bits[n])
            < float_order::place(bits[token])) by {
            assert(places[n] == float_order::place(bits[n]));
            assert(places[token] == float_order::place(bits[token]));
        }
        assert(ordering::is_last_greatest(bits, token));
    }
}

/// `after` is a score with a penalty, taken a number of times.
pub open spec fn penalized<T, F: Fn(T, u32) -> T>(
    penalize: F,
    before: T,
    penalty: u32,
    times: nat,
    after: T,
) -> bool
    decreases times,
{
    if times == 0 {
        after == before
    } else {
        exists|middle: T|
            penalized(penalize, before, penalty, (times - 1) as nat, middle)
                && #[trigger] call_ensures(penalize, (middle, penalty), after)
    }
}

/// How often a token is among others.
pub open spec fn times(tokens: Seq<usize>, token: int) -> nat
    decreases tokens.len(),
{
    if tokens.len() == 0 {
        0
    } else {
        times(tokens.drop_last(), token) + if tokens.last() == token {
            1nat
        } else {
            0nat
        }
    }
}

proof fn lemma_penalizes<T, D, P, F, C, S, V, U>(
    sampler: Sampler<T, D, P, F, C, S, V, U>,
    scores: Seq<T>,
    recent: Seq<usize>,
    penalty: u32,
    after: Seq<T>,
) where
    T: Copy,
    D: Fn(T) -> u32 + Copy,
    P: Fn(T, T) -> T + Copy,
    F: Fn(T, u32) -> T + Copy,
    C: Fn(T, u32) -> T + Copy,
    S: Fn(Vec<T>) -> Vec<T> + Copy,
    V: Fn(T, T) -> bool + Copy,
    U: Fn(u64) -> T + Copy,

    requires
        sampler.penalizes(scores, recent, penalty, after),
        forall|i: int| 0 <= i < recent.len() ==> (#[trigger] recent[i]) < scores.len(),
    ensures
        after.len() == scores.len(),
        forall|n: int|
            0 <= n < scores.len() ==> penalized(
                sampler.penalize,
                scores[n],
                penalty,
                times(recent, n),
                #[trigger] after[n],
            ),
    decreases recent.len(),
{
    if recent.len() > 0 {
        let init = recent.drop_last();
        let last = recent.last() as int;
        let (before, value) = choose|before: Seq<T>, value: T|
            {
                &&& sampler.penalizes(scores, init, penalty, before)
                &&& #[trigger] call_ensures(
                    sampler.penalize,
                    (before[recent.last() as int], penalty),
                    value,
                )
                &&& after == #[trigger] before.update(recent.last() as int, value)
            };
        assert forall|i: int| 0 <= i < init.len() implies (#[trigger] init[i]) < scores.len() by {
            assert(init[i] == recent[i]);
        }
        lemma_penalizes(sampler, scores, init, penalty, before);
        assert(recent[recent.len() - 1] == last);
        assert forall|n: int| 0 <= n < scores.len() implies penalized(
            sampler.penalize,
            scores[n],
            penalty,
            times(recent, n),
            #[trigger] after[n],
        ) by {
            assert(before[n] == before[n]);
            if n == last {
                assert(call_ensures(sampler.penalize, (before[n], penalty), after[n]));
            } else {
                assert(after[n] == before[n]);
            }
        }
    }
}

/// A token is penalized once for every time it is among the last 64, and not at all where the
/// penalty is at most one.
pub proof fn repetition_is_penalized<T, D, P, F, C, S, V, U>(
    sampler: Sampler<T, D, P, F, C, S, V, U>,
    scores: Seq<T>,
    out: Seq<usize>,
    penalty: u32,
    after: Seq<T>,
    n: int,
) where
    T: Copy,
    D: Fn(T) -> u32 + Copy,
    P: Fn(T, T) -> T + Copy,
    F: Fn(T, u32) -> T + Copy,
    C: Fn(T, u32) -> T + Copy,
    S: Fn(Vec<T>) -> Vec<T> + Copy,
    V: Fn(T, T) -> bool + Copy,
    U: Fn(u64) -> T + Copy,

    requires
        sampler.adjusts(scores, out, penalty, after),
        forall|i: int| 0 <= i < out.len() ==> (#[trigger] out[i]) < scores.len(),
        0 <= n < scores.len(),
    ensures
        after.len() == scores.len(),
        penalized(
            sampler.penalize,
            scores[n],
            penalty,
            if !float_order::nan(penalty) && float_order::level(penalty) > 0x3f80_0000 {
                if out.len() <= 64 {
                    times(out, n)
                } else {
                    times(out.subrange(out.len() - 64, out.len() as int), n)
                }
            } else {
                0
            },
            after[n],
        ),
{
    if float_order::greater(penalty, ONE) {
        let recent = sampling::window(out);
        assert forall|i: int| 0 <= i < recent.len() implies (#[trigger] recent[i])
            < scores.len() by {
            if out.len() > 64 {
                assert(recent[i] == out[out.len() - 64 + i]);
            }
        }
        lemma_penalizes(sampler, scores, recent, penalty, after);
        if out.len() > 64 {
            assert(recent =~= out.subrange(out.len() - 64, out.len() as int));
        }
        assert(after[n] == after[n]);
    }
}

} // verus!
