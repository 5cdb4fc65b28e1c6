//! What the products of quantized rows come to, whatever the order they are summed in.

use vstd::prelude::*;
use vstd::arithmetic::power2::pow2;
use crate::arithmetic::{Arithmetic, Matrix};
use crate::exact;
use crate::fold;
use crate::gguf;
use crate::half;
use crate::quant;
use crate::quant::{Grids, Weight};
use crate::row_sums;
use crate::row_sums::Order;

verus! {

/// A greater exponent means a greater magnitude.
proof fn lemma_magnitude_order(a: u32, b: u32)
    requires
        half::single_exponent(a) < half::single_exponent(b),
    ensures
        half::single_magnitude(a) < half::single_magnitude(b),
{
    let (e, f) = (half::single_exponent(a), half::single_fraction(a));
    let (g, h) = (half::single_exponent(b), half::single_fraction(b));
    let top = pow2((g - 1) as nat);
    vstd::arithmetic::power2::lemma_pow2_pos((g - 1) as nat);
    assert(half::single_magnitude(b) >= 0x80_0000 * top) by (nonlinear_arith)
        requires
            half::single_magnitude(b) == (0x80_0000 + h) * top,
            h >= 0,
            top > 0,
    ;
    if e == 0 {
        assert(0x80_0000 * top >= 0x80_0000) by (nonlinear_arith)
            requires
                top >= 1,
        ;
    } else {
        let low = pow2((e - 1) as nat);
        vstd::arithmetic::power2::lemma_pow2_pos((e - 1) as nat);
        vstd::arithmetic::power2::lemma_pow2_unfold(e);
        if e < g - 1 {
            vstd::arithmetic::power2::lemma_pow2_strictly_increases(e, (g - 1) as nat);
        }
        assert(2 * low <= top);
        assert(half::single_magnitude(a) < 0x80_0000 * top) by (nonlinear_arith)
            requires
                half::single_magnitude(a) == (0x80_0000 + f) * low,
                f < 0x80_0000,
                low > 0,
                2 * low <= top,
        ;
    }
}

/// A half-precision number is widened in one way only.
pub proof fn halves_widen_in_one_way(bits: u16, a: u32, b: u32)
    requires
        half::widens(bits, a),
        half::widens(bits, b),
    ensures
        a == b,
{
    if half::single_exponent(a) < half::single_exponent(b) {
        lemma_magnitude_order(a, b);
    } else if half::single_exponent(b) < half::single_exponent(a) {
        lemma_magnitude_order(b, a);
    } else if half::single_exponent(a) > 0 && half::half_exponent(bits) != 31 {
        let scale = pow2((half::single_exponent(a) - 1) as nat);
        let (f, h) = (half::single_fraction(a), half::single_fraction(b));
        vstd::arithmetic::power2::lemma_pow2_pos((half::single_exponent(a) - 1) as nat);
        assert(f == h) by (nonlinear_arith)
            requires
                (0x80_0000 + f) * scale == (0x80_0000 + h) * scale,
                scale > 0,
        ;
    }
}

/// A normal half-precision number keeps its sign and its fraction, and its exponent counts from the
/// other bias.
pub proof fn normal_halves_keep_their_fields(bits: u16, single: u32)
    requires
        half::widens(bits, single),
        1 <= (bits / 1024) % 32 <= 30,
    ensures
        single == (bits / 32768) * 0x8000_0000 + ((bits / 1024) % 32 + 112) * 0x80_0000 + (bits
            % 1024) * 8192,
{
    let e = half::half_exponent(bits);
    let f = half::half_fraction(bits);
    let candidate = (half::half_sign(bits) * 0x8000_0000 + (e + 112) * 0x80_0000 + f
        * 8192) as u32;
    assert(half::single_sign(candidate) == half::half_sign(bits));
    assert(half::single_exponent(candidate) == e + 112);
    assert(half::single_fraction(candidate) == f * 8192);
    let small = pow2((e - 1) as nat);
    let large = pow2((e + 111) as nat);
    vstd::arithmetic::power2::lemma_pow2_adds((e - 1) as nat, 112);
    vstd::arithmetic::power2::lemma_pow2_adds(13, 112);
    vstd::arithmetic::power2::lemma2_to64();
    assert(pow2(13) == 8192);
    let step = pow2(112);
    assert((0x80_0000 + f * 8192) * large == ((1024 + f) * small) * pow2(125)) by (nonlinear_arith)
        requires
            large == small * step,
            pow2(125) == 8192 * step,
    ;
    assert(half::widens(bits, candidate));
    halves_widen_in_one_way(bits, single, candidate);
}

/// What a weight stands for, where `pattern` says what bit patterns stand for and `rest` what the
/// weights of the grid formats do.
pub open spec fn worth(
    pattern: spec_fn(u32) -> int,
    rest: spec_fn(Weight) -> int,
    w: Weight,
) -> int {
    match w {
        Weight::Plain(bits) => pattern(bits),
        Weight::Scaled { d, code } => pattern(d) * code,
        Weight::Affine { d, m, code } => code * pattern(d) + pattern(m),
        Weight::Offset { d, dmin, scale, min, code } => pattern(d) * scale * code - pattern(dmin) * min,
        Weight::Twice { d, scale, code } => pattern(d) * scale * code,
        _ => rest(w),
    }
}

/// `number` gives what weights stand for, 0 and 1 among them.
pub open spec fn gives_worth<T, G: Fn(Weight) -> T>(
    number: G,
    value: spec_fn(T) -> int,
    pattern: spec_fn(u32) -> int,
    rest: spec_fn(Weight) -> int,
) -> bool {
    &&& pattern(0) == 0
    &&& pattern(0x3f80_0000) == 1
    &&& forall|w: Weight, r: T| #[trigger]
        call_ensures(number, (w,), r) ==> value(r) == worth(pattern, rest, w)
}

/// The product of one element.
spec fn term<T>(
    value: spec_fn(T) -> int,
    pattern: spec_fn(u32) -> int,
    rest: spec_fn(Weight) -> int,
    x: Seq<T>,
    weights: Seq<Weight>,
) -> spec_fn(int) -> int {
    |k: int| value(x[k]) * worth(pattern, rest, weights[k])
}

/// Runs of products.
proof fn lemma_run<T, F: Fn(T, T, T) -> T>(
    mac: F,
    value: spec_fn(T) -> int,
    x: Seq<T>,
    row: Seq<T>,
    from: int,
    n: nat,
    zero: T,
    total: T,
    f: spec_fn(int) -> int,
)
    requires
        exact::multiplies_and_adds(mac, value),
        value(zero) == 0,
        fold::accumulates(mac, x, row, fold::run(from, from, n), zero, total),
        forall|k: int|
            from <= k < from + n ==> #[trigger] f(k) == value(x[k]) * value(row[k]),
    ensures
        value(total) == exact::sum(n, |i: int| f(from + i)),
{
    let taps = fold::run(from, from, n);
    exact::lemma_accumulates(mac, value, x, row, taps, zero, total);
    let left = |i: int| value(x[taps[i].0]) * value(row[taps[i].1]);
    let right = |i: int| f(from + i);
    assert forall|i: int| 0 <= i < n implies #[trigger] left(i) == right(i) by {
        assert(f(from + i) == value(x[from + i]) * value(row[from + i]));
    }
    exact::lemma_sum_same(n, left, right);
}

proof fn lemma_block_sum<T, F: Fn(T, T, T) -> T, P: Fn(T, T) -> T>(
    mac: F,
    plus: P,
    value: spec_fn(T) -> int,
    x: Seq<T>,
    row: Seq<T>,
    n: nat,
    zero: T,
    total: T,
    f: spec_fn(int) -> int,
)
    requires
        exact::multiplies_and_adds(mac, value),
        exact::adds(plus, value),
        value(zero) == 0,
        row_sums::block_sum(mac, plus, zero, x, row, n, total),
        forall|k: int| 0 <= k < 256 * n ==> #[trigger] f(k) == value(x[k]) * value(row[k]),
    ensures
        value(total) == exact::sum(256 * n, f),
    decreases n,
{
    if n > 0 {
        let m = (n - 1) as nat;
        let (partial, block) = choose|partial: T, block: T|
            {
                &&& row_sums::block_sum(mac, plus, zero, x, row, m, partial)
                &&& fold::accumulates(
                    mac,
                    x,
                    row,
                    fold::run(256 * (n - 1), 256 * (n - 1), 256),
                    zero,
                    block,
                )
                &&& #[trigger] call_ensures(plus, (partial, block), total)
            };
        lemma_block_sum(mac, plus, value, x, row, m, zero, partial, f);
        lemma_run(mac, value, x, row, 256 * m as int, 256, zero, block, f);
        exact::lemma_sum_split(256 * m, 256, f);
        assert(256 * m + 256 == 256 * n);
    }
}

proof fn lemma_pair_sum<T, F: Fn(T, T, T) -> T, P: Fn(T, T) -> T>(
    mac: F,
    plus: P,
    value: spec_fn(T) -> int,
    x: Seq<T>,
    row: Seq<T>,
    n: nat,
    zero: T,
    total: T,
)
    requires
        exact::multiplies_and_adds(mac, value),
        exact::adds(plus, value),
        value(zero) == 0,
        row_sums::pair_sum(mac, plus, zero, x, row, n, total),
    ensures
        value(total) == exact::sum(
            n,
            |i: int|
                {
                    let k = 32 * (i / 16) + i % 16;
                    value(x[k]) * value(row[k]) + value(x[k + 16]) * value(row[k + 16])
                },
        ),
    decreases n,
{
    if n > 0 {
        let m = (n - 1) as nat;
        let (partial, term) = choose|partial: T, term: T|
            {
                &&& row_sums::pair_sum(mac, plus, zero, x, row, m, partial)
                &&& row_sums::pair_term(mac, zero, x, row, n - 1, term)
                &&& #[trigger] call_ensures(plus, (partial, term), total)
            };
        lemma_pair_sum(mac, plus, value, x, row, m, zero, partial);
        let k = row_sums::pair_at(n - 1);
        let first = choose|first: T|
            {
                &&& #[trigger] call_ensures(mac, (zero, x[k], row[k]), first)
                &&& call_ensures(mac, (first, x[k + 16], row[k + 16]), term)
            };
        assert(value(first) == value(x[k]) * value(row[k]));
    }
}

/// The two halves of each 32 elements, taken side by side.
proof fn lemma_side_by_side(base: int, m: nat, f: spec_fn(int) -> int)
    ensures
        exact::sum(m, |i: int| f(base + i) + f(base + i + 16)) == exact::sum(
            m,
            |i: int| f(base + i),
        ) + exact::sum(m, |i: int| f(base + 16 + i)),
    decreases m,
{
    if m > 0 {
        lemma_side_by_side(base, (m - 1) as nat, f);
        assert(base + (m - 1) + 16 == base + 16 + (m - 1));
    }
}

/// The two halves of each 32 elements, taken in turn.
proof fn lemma_in_turn(base: int, m: nat, f: spec_fn(int) -> int)
    ensures
        exact::sum(2 * m, |s: int| f(base + s / 2 + 16 * (s % 2))) == exact::sum(
            m,
            |i: int| f(base + i),
        ) + exact::sum(m, |i: int| f(base + 16 + i)),
    decreases m,
{
    let turn = |s: int| f(base + s / 2 + 16 * (s % 2));
    if m > 0 {
        let l = (m - 1) as nat;
        lemma_in_turn(base, l, f);
        reveal_with_fuel(exact::sum, 3);
        assert(turn(2 * l as int) == f(base + l));
        assert(turn(2 * l as int + 1) == f(base + 16 + l)) by {
            assert((2 * l + 1) / 2 == l && (2 * l + 1) % 2 == 1);
        }
        assert(exact::sum(2 * m, turn) == exact::sum(2 * l, turn) + turn(2 * l as int) + turn(2 * l as int + 1));
    }
}

/// 32 elements are two halves.
proof fn lemma_halves(base: int, f: spec_fn(int) -> int)
    ensures
        exact::sum(16, |i: int| f(base + i)) + exact::sum(16, |i: int| f(base + 16 + i))
            == exact::sum(32, |i: int| f(base + i)),
{
    let from = |i: int| f(base + i);
    exact::lemma_sum_split(16, 16, from);
    exact::lemma_sum_same(16, |i: int| from(16 + i), |i: int| f(base + 16 + i));
}

/// All pairs are all elements.
proof fn lemma_all_pairs(blocks: nat, f: spec_fn(int) -> int)
    ensures
        exact::sum(
            16 * blocks,
            |i: int| f(32 * (i / 16) + i % 16) + f(32 * (i / 16) + i % 16 + 16),
        ) == exact::sum(32 * blocks, f),
    decreases blocks,
{
    let pair = |i: int| f(32 * (i / 16) + i % 16) + f(32 * (i / 16) + i % 16 + 16);
    if blocks > 0 {
        let m = (blocks - 1) as nat;
        lemma_all_pairs(m, f);
        exact::lemma_sum_split(16 * m, 16, pair);
        let found = |i: int| pair(16 * m + i);
        let wanted = |i: int| f(32 * m + i) + f(32 * m + i + 16);
        assert forall|i: int| 0 <= i < 16 implies #[trigger] found(i) == wanted(i) by {
            assert((16 * m + i) / 16 == m && (16 * m + i) % 16 == i);
        }
        exact::lemma_sum_same(16, found, wanted);
        lemma_side_by_side(32 * m as int, 16, f);
        lemma_halves(32 * m as int, f);
        exact::lemma_sum_split(32 * m, 32, f);
        assert(16 * m + 16 == 16 * blocks && 32 * m + 32 == 32 * blocks);
    }
}

proof fn lemma_step_at(m: nat, i: int)
    requires
        0 <= i < 32,
    ensures
        (32 * m + i) / 32 == m,
        (32 * m + i) % 32 == i,
        (32 * m + i) % 2 == i % 2,
{
}

/// All steps are all elements.
proof fn lemma_all_steps(blocks: nat, f: spec_fn(int) -> int)
    ensures
        exact::sum(
            32 * blocks,
            |i: int| f(32 * (i / 32) + (i % 32) / 2 + 16 * (i % 2)),
        ) == exact::sum(32 * blocks, f),
    decreases blocks,
{
    let step = |i: int| f(32 * (i / 32) + (i % 32) / 2 + 16 * (i % 2));
    if blocks > 0 {
        let m = (blocks - 1) as nat;
        lemma_all_steps(m, f);
        exact::lemma_sum_split(32 * m, 32, step);
        let found = |i: int| step(32 * m + i);
        let wanted = |s: int| f(32 * m + s / 2 + 16 * (s % 2));
        assert forall|i: int| 0 <= i < 32 implies #[trigger] found(i) == wanted(i) by {
            lemma_step_at(m, i);
        }
        exact::lemma_sum_same(32, found, wanted);
        lemma_in_turn(32 * m as int, 16, f);
        lemma_halves(32 * m as int, f);
        exact::lemma_sum_split(32 * m, 32, f);
        assert(32 * m + 32 == 32 * blocks);
    }
}

proof fn lemma_half_sum<T, G: Fn(Weight) -> T, F: Fn(T, T, T) -> T>(
    number: G,
    mac: F,
    value: spec_fn(T) -> int,
    pattern: spec_fn(u32) -> int,
    rest: spec_fn(Weight) -> int,
    x: Seq<T>,
    weights: Seq<Weight>,
    n: nat,
    zero: T,
    total: T,
)
    requires
        exact::multiplies_and_adds(mac, value),
        gives_worth(number, value, pattern, rest),
        value(zero) == 0,
        n <= weights.len(),
        weights.len() % 32 == 0,
        forall|k: int| 0 <= k < weights.len() ==> (#[trigger] weights[k]) is Scaled,
        row_sums::half_sum(number, mac, zero, x, weights, n, total),
    ensures
        value(total) == exact::sum(
            n,
            |i: int|
                term(value, pattern, rest, x, weights)(
                    32 * (i / 32) + (i % 32) / 2 + 16 * (i % 2),
                ),
        ),
    decreases n,
{
    if n > 0 {
        let m = (n - 1) as nat;
        let k = row_sums::half_at(n - 1);
        let partial = choose|partial: T|
            {
                &&& row_sums::half_sum(number, mac, zero, x, weights, m, partial)
                &&& #[trigger] row_sums::half_step(
                    number,
                    mac,
                    zero,
                    x[k],
                    weights[k],
                    partial,
                    total,
                )
            };
        lemma_half_sum(number, mac, value, pattern, rest, x, weights, m, zero, partial);
        let w = weights[k];
        assert(0 <= k < weights.len());
        let (scale, code, scaled) = choose|scale: T, code: T, scaled: T|
            {
                &&& #[trigger] call_ensures(number, (row_sums::scale_part(w),), scale)
                &&& #[trigger] call_ensures(number, (row_sums::code_part(w),), code)
                &&& #[trigger] call_ensures(mac, (zero, x[k], scale), scaled)
                &&& call_ensures(mac, (partial, scaled, code), total)
            };
        match w {
            Weight::Scaled { d, code: c } => {
                let (a, r) = (value(x[k]), pattern(d));
                assert(value(scale) == r);
                assert(1 * c == c) by (nonlinear_arith);
                assert(value(code) == c);
                assert((a * r) * c == a * (r * c)) by (nonlinear_arith);
            },
            _ => {},
        }
    }
}

/// The sum of elements.
proof fn lemma_plain_sum<T, P: Fn(T, T) -> T>(
    plus: P,
    value: spec_fn(T) -> int,
    zero: T,
    x: Seq<T>,
    from: int,
    n: nat,
    total: T,
)
    requires
        exact::adds(plus, value),
        value(zero) == 0,
        row_sums::plain_sum(plus, zero, x, from, n, total),
    ensures
        value(total) == exact::sum(n, |i: int| value(x[from + i])),
    decreases n,
{
    if n > 0 {
        let m = (n - 1) as nat;
        let partial = choose|partial: T|
            {
                &&& row_sums::plain_sum(plus, zero, x, from, m, partial)
                &&& #[trigger] call_ensures(plus, (partial, x[from + n - 1]), total)
            };
        lemma_plain_sum(plus, value, zero, x, from, m, partial);
        assert(from + (n - 1) == from + n - 1);
    }
}

/// Weights with the same scale and the same minimum.
spec fn alike(a: Weight, b: Weight) -> bool {
    match (a, b) {
        (
            Weight::Offset { d, dmin, scale, min, code: _ },
            Weight::Offset { d: d2, dmin: dmin2, scale: scale2, min: min2, code: _ },
        ) => d == d2 && dmin == dmin2 && scale == scale2 && min == min2,
        _ => false,
    }
}

/// A group of 32 products.
proof fn lemma_group_term<T, G: Fn(Weight) -> T, F: Fn(T, T, T) -> T, P: Fn(T, T) -> T>(
    number: G,
    mac: F,
    plus: P,
    value: spec_fn(T) -> int,
    pattern: spec_fn(u32) -> int,
    rest: spec_fn(Weight) -> int,
    x: Seq<T>,
    weights: Seq<Weight>,
    codes: Seq<T>,
    g: int,
    zero: T,
    total: T,
)
    requires
        exact::multiplies_and_adds(mac, value),
        exact::adds(plus, value),
        gives_worth(number, value, pattern, rest),
        value(zero) == 0,
        0 <= g,
        32 * g + 32 <= weights.len(),
        row_sums::numbers(number, row_sums::code_parts(weights), codes),
        forall|i: int|
            0 <= i < 32 ==> alike(weights[32 * g], #[trigger] weights[32 * g + i]),
        row_sums::group_term(number, mac, plus, zero, x, weights, codes, g, total),
    ensures
        value(total) == exact::sum(
            32,
            |i: int| term(value, pattern, rest, x, weights)(32 * g + i),
        ),
{
    let first = weights[32 * g];
    let (coded, plain) = choose|coded: T, plain: T|
        {
            &&& fold::accumulates(mac, x, codes, fold::run(32 * g, 32 * g, 32), zero, coded)
            &&& row_sums::plain_sum(plus, zero, x, 32 * g, 32, plain)
            &&& #[trigger] row_sums::group_joins(number, mac, zero, first, coded, plain, total)
        };
    let (scale, less, scaled) = choose|scale: T, less: T, scaled: T|
        {
            &&& #[trigger] call_ensures(number, (row_sums::scale_part(first),), scale)
            &&& #[trigger] call_ensures(number, (row_sums::less_part(first),), less)
            &&& #[trigger] call_ensures(mac, (zero, scale, coded), scaled)
            &&& call_ensures(mac, (scaled, less, plain), total)
        };
    assert(alike(first, weights[32 * g + 0]));
    match first {
        Weight::Offset { d, dmin, scale: s, min: m, code: _ } => {
            let factor = pattern(d) * s;
            let offset = pattern(dmin) * m;
            assert(value(scale) == factor) by {
                assert(factor * 1 - pattern(0) * 0 == factor) by (nonlinear_arith);
            }
            assert(value(less) == -offset) by {
                assert(pattern(0) * 0 * 0 == 0) by (nonlinear_arith);
            }
            let inner = |k: int| value(x[k]) * value(codes[k]);
            lemma_run(mac, value, x, codes, 32 * g, 32, zero, coded, inner);
            lemma_plain_sum(plus, value, zero, x, 32 * g, 32, plain);
            let in_codes = |i: int| inner(32 * g + i);
            let in_plain = |i: int| value(x[32 * g + i]);
            exact::lemma_sum_scale(32, factor, in_codes);
            exact::lemma_sum_scale(32, -offset, in_plain);
            let a = |i: int| factor * in_codes(i);
            let b = |i: int| -offset * in_plain(i);
            exact::lemma_sum_add(32, a, b);
            assert(value(total) == factor * value(coded) + (-offset) * value(plain));
            let found = |i: int| a(i) + b(i);
            let wanted = |i: int| term(value, pattern, rest, x, weights)(32 * g + i);
            assert forall|i: int| 0 <= i < 32 implies #[trigger] found(i) == wanted(i) by {
                let k = 32 * g + i;
                assert(alike(first, weights[k]));
                let c = (weights[k])->Offset_code;
                assert(call_ensures(
                    number,
                    (row_sums::code_parts(weights)[k],),
                    codes[k],
                ));
                assert(value(codes[k]) == c) by {
                    assert(1 * 1 * c - 0 * 0 == c) by (nonlinear_arith);
                }
                let v = value(x[k]);
                assert(factor * (v * c) + (-offset) * v == v * (factor * c - offset))
                    by (nonlinear_arith);
            }
            exact::lemma_sum_same(32, found, wanted);
        },
        _ => {},
    }
}

proof fn lemma_group_sum<T, G: Fn(Weight) -> T, F: Fn(T, T, T) -> T, P: Fn(T, T) -> T>(
    number: G,
    mac: F,
    plus: P,
    value: spec_fn(T) -> int,
    pattern: spec_fn(u32) -> int,
    rest: spec_fn(Weight) -> int,
    x: Seq<T>,
    weights: Seq<Weight>,
    codes: Seq<T>,
    n: nat,
    zero: T,
    total: T,
)
    requires
        exact::multiplies_and_adds(mac, value),
        exact::adds(plus, value),
        gives_worth(number, value, pattern, rest),
        value(zero) == 0,
        32 * n <= weights.len(),
        row_sums::numbers(number, row_sums::code_parts(weights), codes),
        forall|k: int|
            0 <= k < weights.len() ==> alike(weights[32 * (k / 32)], #[trigger] weights[k]),
        row_sums::group_sum(number, mac, plus, zero, x, weights, codes, n, total),
    ensures
        value(total) == exact::sum(32 * n, term(value, pattern, rest, x, weights)),
    decreases n,
{
    if n > 0 {
        let m = (n - 1) as nat;
        let (partial, part) = choose|partial: T, part: T|
            {
                &&& row_sums::group_sum(
                    number,
                    mac,
                    plus,
                    zero,
                    x,
                    weights,
                    codes,
                    m,
                    partial,
                )
                &&& row_sums::group_term(
                    number,
                    mac,
                    plus,
                    zero,
                    x,
                    weights,
                    codes,
                    n - 1,
                    part,
                )
                &&& #[trigger] call_ensures(plus, (partial, part), total)
            };
        lemma_group_sum(
            number,
            mac,
            plus,
            value,
            pattern,
            rest,
            x,
            weights,
            codes,
            m,
            zero,
            partial,
        );
        assert forall|i: int| 0 <= i < 32 implies alike(
            weights[32 * m as int],
            #[trigger] weights[32 * m + i],
        ) by {
            assert((32 * m + i) / 32 == m);
        }
        lemma_group_term(
            number,
            mac,
            plus,
            value,
            pattern,
            rest,
            x,
            weights,
            codes,
            m as int,
            zero,
            part,
        );
        exact::lemma_sum_split(32 * m, 32, term(value, pattern, rest, x, weights));
        assert(32 * m + 32 == 32 * n);
    }
}

/// The bytes of block `b` of row `j` of a matrix whose rows take `blocks` blocks.
pub open spec fn matrix_block(data: Seq<u8>, blocks: int, bytes: int, j: int, b: int) -> Seq<u8> {
    data.subrange((j * blocks + b) * bytes, (j * blocks + b) * bytes + bytes)
}

/// The blocks of a row follow one another, and so do the rows.
proof fn lemma_matrix_block(
    ggml_type: u32,
    data: Seq<u8>,
    in_dim: nat,
    out_dim: nat,
    j: int,
    k: int,
)
    requires
        quant::matrix_fits(ggml_type, data, in_dim, out_dim),
        0 <= j < out_dim,
        0 <= k < in_dim,
    ensures
        ({
            let elements = gguf::block_elements(ggml_type) as int;
            let bytes = gguf::block_bytes(ggml_type) as int;
            quant::block_at(
                ggml_type,
                quant::row_bytes_of(ggml_type, data, in_dim, j),
                k / elements,
            ) == matrix_block(data, in_dim as int / elements, bytes, j, k / elements)
        }),
{
    let elements = gguf::block_elements(ggml_type) as int;
    let bytes = gguf::block_bytes(ggml_type) as int;
    let blocks = in_dim as int / elements;
    let b = k / elements;
    assert(elements > 0 && bytes > 0);
    assert(0 <= b < blocks) by (nonlinear_arith)
        requires
            b == k / elements,
            blocks == in_dim as int / elements,
            in_dim as int % elements == 0,
            0 <= k < in_dim,
            elements > 0,
    ;
    let size = blocks * bytes;
    assert(gguf::type_size(ggml_type, in_dim) == size);
    assert(0 <= j * size && j * size + size <= out_dim * size) by (nonlinear_arith)
        requires
            0 <= j < out_dim,
            0 <= size,
    ;
    assert(0 <= b * bytes && b * bytes + bytes <= size) by (nonlinear_arith)
        requires
            0 <= b < blocks,
            0 < bytes,
            size == blocks * bytes,
    ;
    assert((j * blocks + b) * bytes == j * size + b * bytes) by (nonlinear_arith)
        requires
            size == blocks * bytes,
    ;
    assert(quant::block_at(
        ggml_type,
        quant::row_bytes_of(ggml_type, data, in_dim, j),
        b,
    ) =~= matrix_block(data, blocks, bytes, j, b));
}

proof fn lemma_sums_flat<
    T,
    G: Fn(Weight) -> T,
    F: Fn(T, T, T) -> T,
    P: Fn(T, T) -> T,
>(
    number: G,
    mac: F,
    plus: P,
    zero: T,
    value: spec_fn(T) -> int,
    pattern: spec_fn(u32) -> int,
    rest: spec_fn(Weight) -> int,
    x: Seq<T>,
    weights: Seq<Weight>,
    total: T,
)
    requires
        exact::multiplies_and_adds(mac, value),
        exact::adds(plus, value),
        gives_worth(number, value, pattern, rest),
        value(zero) == 0,
        row_sums::sums(number, mac, plus, zero, x, weights, Order::Flat, total),
    ensures
        value(total) == exact::sum(weights.len(), term(value, pattern, rest, x, weights)),
{
    let in_dim = weights.len();
    let f = term(value, pattern, rest, x, weights);
    let row = choose|row: Seq<T>| #[trigger]
        row_sums::numbers(number, weights, row) && fold::accumulates(
            mac,
            x,
            row,
            fold::run(0, 0, in_dim),
            zero,
            total,
        );
    assert forall|k: int| 0 <= k < 0 + in_dim implies #[trigger] f(k) == value(x[k])
        * value(row[k]) by {
        assert(call_ensures(number, (weights[k],), row[k]));
    }
    lemma_run(mac, value, x, row, 0, in_dim, zero, total, f);
    exact::lemma_sum_same(in_dim, |i: int| f(0 + i), f);
}

proof fn lemma_sums_pairs<
    T,
    G: Fn(Weight) -> T,
    F: Fn(T, T, T) -> T,
    P: Fn(T, T) -> T,
>(
    number: G,
    mac: F,
    plus: P,
    zero: T,
    value: spec_fn(T) -> int,
    pattern: spec_fn(u32) -> int,
    rest: spec_fn(Weight) -> int,
    x: Seq<T>,
    weights: Seq<Weight>,
    total: T,
)
    requires
        exact::multiplies_and_adds(mac, value),
        exact::adds(plus, value),
        gives_worth(number, value, pattern, rest),
        value(zero) == 0,
        row_sums::sums(number, mac, plus, zero, x, weights, Order::Pairs, total),
        weights.len() % 32 == 0,
    ensures
        value(total) == exact::sum(weights.len(), term(value, pattern, rest, x, weights)),
{
    let in_dim = weights.len();
    let f = term(value, pattern, rest, x, weights);
    let row = choose|row: Seq<T>| #[trigger]
        row_sums::numbers(number, weights, row) && row_sums::pair_sum(
            mac,
            plus,
            zero,
            x,
            row,
            in_dim / 2,
            total,
        );
    let blocks = in_dim / 32;
    assert(in_dim / 2 == 16 * blocks && 32 * blocks == in_dim);
    lemma_pair_sum(mac, plus, value, x, row, 16 * blocks, zero, total);
    let found = |i: int|
        {
            let k = 32 * (i / 16) + i % 16;
            value(x[k]) * value(row[k]) + value(x[k + 16]) * value(row[k + 16])
        };
    let wanted = |i: int| f(32 * (i / 16) + i % 16) + f(32 * (i / 16) + i % 16 + 16);
    assert forall|i: int| 0 <= i < 16 * blocks implies #[trigger] found(i) == wanted(
        i,
    ) by {
        let k = 32 * (i / 16) + i % 16;
        assert(0 <= k && k + 16 < in_dim);
        assert(call_ensures(number, (weights[k],), row[k]));
        assert(call_ensures(number, (weights[k + 16],), row[k + 16]));
    }
    exact::lemma_sum_same(16 * blocks, found, wanted);
    lemma_all_pairs(blocks, f);
}

proof fn lemma_sums_halves<
    T,
    G: Fn(Weight) -> T,
    F: Fn(T, T, T) -> T,
    P: Fn(T, T) -> T,
>(
    number: G,
    mac: F,
    plus: P,
    zero: T,
    value: spec_fn(T) -> int,
    pattern: spec_fn(u32) -> int,
    rest: spec_fn(Weight) -> int,
    x: Seq<T>,
    weights: Seq<Weight>,
    total: T,
)
    requires
        exact::multiplies_and_adds(mac, value),
        exact::adds(plus, value),
        gives_worth(number, value, pattern, rest),
        value(zero) == 0,
        row_sums::sums(number, mac, plus, zero, x, weights, Order::Halves, total),
        weights.len() % 32 == 0,
        forall|k: int| 0 <= k < weights.len() ==> (#[trigger] weights[k]) is Scaled,
    ensures
        value(total) == exact::sum(weights.len(), term(value, pattern, rest, x, weights)),
{
    let in_dim = weights.len();
    let f = term(value, pattern, rest, x, weights);
    let blocks = in_dim / 32;
    assert(32 * blocks == in_dim);
    lemma_half_sum(
        number,
        mac,
        value,
        pattern,
        rest,
        x,
        weights,
        in_dim,
        zero,
        total,
    );
    lemma_all_steps(blocks, f);
}

proof fn lemma_sums_groups<
    T,
    G: Fn(Weight) -> T,
    F: Fn(T, T, T) -> T,
    P: Fn(T, T) -> T,
>(
    number: G,
    mac: F,
    plus: P,
    zero: T,
    value: spec_fn(T) -> int,
    pattern: spec_fn(u32) -> int,
    rest: spec_fn(Weight) -> int,
    x: Seq<T>,
    weights: Seq<Weight>,
    total: T,
)
    requires
        exact::multiplies_and_adds(mac, value),
        exact::adds(plus, value),
        gives_worth(number, value, pattern, rest),
        value(zero) == 0,
        row_sums::sums(number, mac, plus, zero, x, weights, Order::Groups, total),
        weights.len() % 32 == 0,
        forall|k: int|
            0 <= k < weights.len() ==> alike(weights[32 * (k / 32)], #[trigger] weights[k]),
    ensures
        value(total) == exact::sum(weights.len(), term(value, pattern, rest, x, weights)),
{
    let in_dim = weights.len();
    let f = term(value, pattern, rest, x, weights);
    let codes = choose|codes: Seq<T>| #[trigger]
        row_sums::numbers(number, row_sums::code_parts(weights), codes)
            && row_sums::group_sum(
            number,
            mac,
            plus,
            zero,
            x,
            weights,
            codes,
            in_dim / 32,
            total,
        );
    assert(32 * (in_dim / 32) == in_dim);
    lemma_group_sum(
        number,
        mac,
        plus,
        value,
        pattern,
        rest,
        x,
        weights,
        codes,
        in_dim / 32,
        zero,
        total,
    );
}

proof fn lemma_sums_blocks<
    T,
    G: Fn(Weight) -> T,
    F: Fn(T, T, T) -> T,
    P: Fn(T, T) -> T,
>(
    number: G,
    mac: F,
    plus: P,
    zero: T,
    value: spec_fn(T) -> int,
    pattern: spec_fn(u32) -> int,
    rest: spec_fn(Weight) -> int,
    x: Seq<T>,
    weights: Seq<Weight>,
    total: T,
)
    requires
        exact::multiplies_and_adds(mac, value),
        exact::adds(plus, value),
        gives_worth(number, value, pattern, rest),
        value(zero) == 0,
        row_sums::sums(number, mac, plus, zero, x, weights, Order::Blocks, total),
        weights.len() % 256 == 0,
    ensures
        value(total) == exact::sum(weights.len(), term(value, pattern, rest, x, weights)),
{
    let in_dim = weights.len();
    let f = term(value, pattern, rest, x, weights);
    let row = choose|row: Seq<T>| #[trigger]
        row_sums::numbers(number, weights, row) && row_sums::block_sum(
            mac,
            plus,
            zero,
            x,
            row,
            in_dim / 256,
            total,
        );
    assert(256 * (in_dim / 256) == in_dim);
    assert forall|k: int| 0 <= k < in_dim implies #[trigger] f(k) == value(x[k]) * value(
        row[k],
    ) by {
        assert(call_ensures(number, (weights[k],), row[k]));
    }
    lemma_block_sum(mac, plus, value, x, row, in_dim / 256, zero, total, f);
}

/// The product of a row of a matrix with a vector, in exact arithmetic: the sum, over all columns,
/// of the element of the vector times what the weight of that column stands for. It does not
/// depend on the order that the type of the matrix is summed in.
pub proof fn a_row_is_multiplied_whole<
    T,
    G: Fn(Weight) -> T,
    F: Fn(T, T, T) -> T,
    P: Fn(T, T) -> T,
>(
    number: G,
    mac: F,
    plus: P,
    zero: T,
    value: spec_fn(T) -> int,
    pattern: spec_fn(u32) -> int,
    rest: spec_fn(Weight) -> int,
    x: Seq<T>,
    ggml_type: u32,
    data: Seq<u8>,
    in_dim: nat,
    out_dim: nat,
    grids: Grids,
    j: int,
    together: bool,
    total: T,
) -> (weights: Seq<Weight>)
    requires
        exact::multiplies_and_adds(mac, value),
        exact::adds(plus, value),
        gives_worth(number, value, pattern, rest),
        value(zero) == 0,
        quant::matrix_fits(ggml_type, data, in_dim, out_dim),
        0 <= j < out_dim,
        quant::row_product(
            number,
            mac,
            plus,
            zero,
            x,
            ggml_type,
            data,
            in_dim,
            grids,
            j,
            together,
            total,
        ),
    ensures
        weights.len() == in_dim,
        forall|k: int|
            0 <= k < in_dim ==> quant::is_weight(
                ggml_type,
                matrix_block(
                    data,
                    in_dim as int / gguf::block_elements(ggml_type) as int,
                    gguf::block_bytes(ggml_type) as int,
                    j,
                    k / gguf::block_elements(ggml_type) as int,
                ),
                k % gguf::block_elements(ggml_type) as int,
                grids,
                #[trigger] weights[k],
            ),
        value(total) == exact::sum(
            in_dim,
            |k: int| value(x[k]) * worth(pattern, rest, weights[k]),
        ),
{
    let elements = gguf::block_elements(ggml_type) as int;
    let bytes = quant::row_bytes_of(ggml_type, data, in_dim, j);
    let order = row_sums::order_of(ggml_type, together);
    let weights = choose|weights: Seq<Weight>|
        {
            &&& weights.len() == in_dim
            &&& #[trigger] quant::decoded(ggml_type, bytes, grids, weights)
            &&& row_sums::sums(number, mac, plus, zero, x, weights, order, total)
        };
    assert forall|k: int| 0 <= k < in_dim implies quant::is_weight(
        ggml_type,
        matrix_block(
            data,
            in_dim as int / elements,
            gguf::block_bytes(ggml_type) as int,
            j,
            k / elements,
        ),
        k % elements,
        grids,
        #[trigger] weights[k],
    ) by {
        lemma_matrix_block(ggml_type, data, in_dim, out_dim, j, k);
    }
    let f = term(value, pattern, rest, x, weights);
    assert(order == Order::Pairs || order == Order::Halves || order == Order::Groups ==> in_dim % 32
        == 0);
    assert(order == Order::Blocks ==> in_dim % 256 == 0);
    match order {
        Order::Flat => {
            lemma_sums_flat(number, mac, plus, zero, value, pattern, rest, x, weights, total);
        },
        Order::Pairs => {
            lemma_sums_pairs(number, mac, plus, zero, value, pattern, rest, x, weights, total);
        },
        Order::Halves => {
            lemma_sums_halves(number, mac, plus, zero, value, pattern, rest, x, weights, total);
        },
        Order::Groups => {
            assert forall|k: int| 0 <= k < weights.len() implies alike(
                weights[32 * (k / 32)],
                #[trigger] weights[k],
            ) by {
                lemma_group_alike(bytes, grids, weights, k);
            }
            lemma_sums_groups(number, mac, plus, zero, value, pattern, rest, x, weights, total);
        },
        Order::Blocks => {
            lemma_sums_blocks(number, mac, plus, zero, value, pattern, rest, x, weights, total);
        },
    }
    exact::lemma_sum_same(
        in_dim,
        f,
        |k: int| value(x[k]) * worth(pattern, rest, weights[k]),
    );
    weights
}

/// The 32 weights of a sub-block have the same scale and the same minimum.
proof fn lemma_group_alike(bytes: Seq<u8>, grids: Grids, weights: Seq<Weight>, k: int)
    requires
        quant::decoded(12, bytes, grids, weights),
        0 <= k < weights.len(),
    ensures
        alike(weights[32 * (k / 32)], weights[k]),
{
    let first = 32 * (k / 32);
    assert(first / 256 == k / 256);
    assert((first % 256) / 32 == (k % 256) / 32);
    let block = quant::block_at(12, bytes, k / 256);
    assert(quant::is_weight(12, block, first % 256, grids, weights[first]));
    assert(quant::is_weight(12, block, k % 256, grids, weights[k]));
    halves_widen_in_one_way(
        (block[0] + 256 * block[1]) as u16,
        weights[first]->Offset_d,
        weights[k]->Offset_d,
    );
    halves_widen_in_one_way(
        (block[2] + 256 * block[3]) as u16,
        weights[first]->Offset_dmin,
        weights[k]->Offset_dmin,
    );
}

/// A projection by a matrix of the file, in exact arithmetic: output `j` is the product of the
/// vector with row `j`, alone or together with other vectors.
pub proof fn a_projection_multiplies_by_the_rows_of_its_matrix<
    T,
    Z,
    N,
    M,
    L,
    P,
    A,
    B,
    R,
    C,
    H,
    G,
    K,
    D,
>(
    arithmetic: Arithmetic<T, N, M, L, P, A, B, R, C, H, G, K, D>,
    value: spec_fn(T) -> int,
    pattern: spec_fn(u32) -> int,
    rest: spec_fn(Weight) -> int,
    together: bool,
    grids: Grids,
    matrix: Matrix,
    x: Seq<T>,
    rows: nat,
    out: Seq<T>,
    j: int,
) -> (weights: Seq<Weight>) where
    T: Copy,
    Z: Copy,
    N: Fn(Weight) -> T + Copy,
    M: Fn(T, T, T) -> T + Copy,
    L: Fn(T, T, T) -> T + Copy,
    P: Fn(T, T) -> T + Copy,
    A: Fn(&[T]) -> Z + Copy,
    B: Fn(T, Z, T) -> T + Copy,
    R: Fn(T, T, usize, usize) -> (T, T) + Copy,
    C: Fn(T) -> T + Copy,
    H: Fn(Vec<T>, Option<T>) -> Vec<T> + Copy,
    G: Fn(T, T) -> T + Copy,
    K: Fn(T, T) -> T + Copy,
    D: Fn(T) -> u32 + Copy,

    requires
        exact::multiplies_and_adds(arithmetic.mac, value),
        exact::adds(arithmetic.plus, value),
        gives_worth(arithmetic.number, value, pattern, rest),
        value(arithmetic.zero) == 0,
        quant::matrix_fits(matrix.ggml_type, matrix.data, x.len(), rows),
        0 <= j < rows,
        arithmetic.projects_one(together, grids, matrix, x, rows, out),
    ensures
        out.len() == rows,
        weights.len() == x.len(),
        forall|k: int|
            0 <= k < x.len() ==> quant::is_weight(
                matrix.ggml_type,
                matrix_block(
                    matrix.data,
                    x.len() as int / gguf::block_elements(matrix.ggml_type) as int,
                    gguf::block_bytes(matrix.ggml_type) as int,
                    j,
                    k / gguf::block_elements(matrix.ggml_type) as int,
                ),
                k % gguf::block_elements(matrix.ggml_type) as int,
                grids,
                #[trigger] weights[k],
            ),
        value(out[j]) == exact::sum(
            x.len(),
            |k: int| value(x[k]) * worth(pattern, rest, weights[k]),
        ),
{
    assert(arithmetic.product(together, grids, matrix, x, j, out[j]));
    a_row_is_multiplied_whole(
        arithmetic.number,
        arithmetic.mac,
        arithmetic.plus,
        arithmetic.zero,
        value,
        pattern,
        rest,
        x,
        matrix.ggml_type,
        matrix.data,
        x.len(),
        rows,
        grids,
        j,
        together,
        out[j],
    )
}

/// Blocks take the bytes of their fields: half-precision scales and minima, and so many bits for
/// each code.
pub proof fn blocks_take_the_bytes_of_their_fields()
    ensures
        gguf::block_of(0) == Some((1nat, 4nat)),
        gguf::block_of(1) == Some((1nat, 2nat)),
        gguf::block_of(30) == Some((1nat, 2nat)),
        gguf::block_of(2) == Some((32nat, (2 + 32 * 4 / 8) as nat)),
        gguf::block_of(3) == Some((32nat, (2 + 2 + 32 * 4 / 8) as nat)),
        gguf::block_of(6) == Some((32nat, (2 + 32 * 5 / 8) as nat)),
        gguf::block_of(7) == Some((32nat, (2 + 2 + 32 * 5 / 8) as nat)),
        gguf::block_of(8) == Some((32nat, (2 + 32 * 8 / 8) as nat)),
        gguf::block_of(10) == Some((256nat, (2 + 2 + 16 * 8 / 8 + 256 * 2 / 8) as nat)),
        gguf::block_of(12) == Some((256nat, (2 + 2 + 8 * 12 / 8 + 256 * 4 / 8) as nat)),
        gguf::block_of(13) == Some((256nat, (2 + 2 + 8 * 12 / 8 + 256 * 5 / 8) as nat)),
        gguf::block_of(14) == Some((256nat, (2 + 16 * 8 / 8 + 256 * 6 / 8) as nat)),
        gguf::block_of(16) == Some((256nat, (2 + 32 * 8 / 8 + 8 * 32 / 8) as nat)),
        gguf::block_of(17) == Some((256nat, (2 + 32 * 16 / 8 + 16 * 4 / 8) as nat)),
        gguf::block_of(20) == Some((32nat, (2 + 32 * 4 / 8) as nat)),
        gguf::block_of(21) == Some((256nat, (2 + 64 * 9 / 8 + 256 * 1 / 8 + 8 * 4 / 8) as nat)),
        gguf::block_of(22) == Some((256nat, (2 + 32 * 10 / 8 + 256 * 1 / 8 + 16 * 4 / 8) as nat)),
{
}

} // verus!
