//! The products of a row of weights with a vector, and the order in which they are summed: rounded
//! sums depend on it.

use vstd::prelude::*;
use crate::fold;
use crate::quant::Weight;

verus! {

/// The bit pattern of 1.
pub const ONE: u32 = 0x3f80_0000;

/// How the products of a row are summed.
#[derive(Clone, Copy, Debug, PartialEq, Eq, Structural)]
pub enum Order {
    /// One after another.
    Flat,
    /// The two of each pair that is 16 apart before the rest.
    Pairs,
    /// The two of each pair that is 16 apart one after the other, and the scale before the code.
    Halves,
    /// For each 32 elements the codes and the elements on their own, and the scale and the offset
    /// after them.
    Groups,
    /// Each 256 on their own before the rest.
    Blocks,
}

/// How the rows of a tensor type are summed, against one vector or together against several or
/// none.
pub open spec fn order_of(ggml_type: u32, together: bool) -> Order {
    if together {
        if ggml_type == 12 || ggml_type == 14 {
            Order::Blocks
        } else {
            Order::Flat
        }
    } else if ggml_type == 7 {
        Order::Pairs
    } else if ggml_type == 12 {
        Order::Groups
    } else if ggml_type == 20 {
        Order::Halves
    } else {
        Order::Flat
    }
}

/// How the rows of a tensor type are summed.
pub fn order_for(ggml_type: u32, together: bool) -> (order: Order)
    ensures
        order == order_of(ggml_type, together),
{
    if together {
        if ggml_type == 12 || ggml_type == 14 {
            Order::Blocks
        } else {
            Order::Flat
        }
    } else if ggml_type == 7 {
        Order::Pairs
    } else if ggml_type == 12 {
        Order::Groups
    } else if ggml_type == 20 {
        Order::Halves
    } else {
        Order::Flat
    }
}

/// How many elements an order takes at a time.
pub open spec fn stride(order: Order) -> nat {
    match order {
        Order::Flat => 1,
        Order::Pairs | Order::Halves | Order::Groups => 32,
        Order::Blocks => 256,
    }
}

/// The code of a weight, as a weight.
pub open spec fn code_part(w: Weight) -> Weight {
    match w {
        Weight::Scaled { code, .. } => Weight::Scaled { d: ONE, code },
        Weight::Offset { code, .. } => Weight::Offset {
            d: ONE,
            dmin: 0,
            scale: 1,
            min: 0,
            code,
        },
        _ => w,
    }
}

/// The scale of a weight, as a weight.
pub open spec fn scale_part(w: Weight) -> Weight {
    match w {
        Weight::Scaled { d, .. } => Weight::Plain(d),
        Weight::Offset { d, scale, .. } => Weight::Offset { d, dmin: 0, scale, min: 0, code: 1 },
        _ => w,
    }
}

/// What a weight has less than its scaled code, as a weight below zero.
pub open spec fn less_part(w: Weight) -> Weight {
    match w {
        Weight::Offset { dmin, min, .. } => Weight::Offset { d: 0, dmin, scale: 0, min, code: 0 },
        _ => w,
    }
}

/// The code of a weight, as a weight.
fn code_of(w: Weight) -> (part: Weight)
    ensures
        part == code_part(w),
{
    match w {
        Weight::Scaled { code, .. } => Weight::Scaled { d: ONE, code },
        Weight::Offset { code, .. } => Weight::Offset {
            d: ONE,
            dmin: 0,
            scale: 1,
            min: 0,
            code,
        },
        other => other,
    }
}

/// The scale of a weight, as a weight.
fn scale_of(w: Weight) -> (part: Weight)
    ensures
        part == scale_part(w),
{
    match w {
        Weight::Scaled { d, .. } => Weight::Plain(d),
        Weight::Offset { d, scale, .. } => Weight::Offset { d, dmin: 0, scale, min: 0, code: 1 },
        other => other,
    }
}

/// What a weight has less than its scaled code, as a weight below zero.
fn less_of(w: Weight) -> (part: Weight)
    ensures
        part == less_part(w),
{
    match w {
        Weight::Offset { dmin, min, .. } => Weight::Offset { d: 0, dmin, scale: 0, min, code: 0 },
        other => other,
    }
}

/// The codes of weights, as weights.
pub open spec fn code_parts(weights: Seq<Weight>) -> Seq<Weight> {
    Seq::new(weights.len(), |k: int| code_part(weights[k]))
}

/// `row` holds the numbers that weights stand for.
pub open spec fn numbers<T, G: Fn(Weight) -> T>(
    number: G,
    weights: Seq<Weight>,
    row: Seq<T>,
) -> bool {
    &&& row.len() == weights.len()
    &&& forall|k: int|
        0 <= k < row.len() ==> call_ensures(number, (weights[k],), #[trigger] row[k])
}

/// The sum of `n` elements of `x` from `from` on.
pub open spec fn plain_sum<T, P: Fn(T, T) -> T>(
    plus: P,
    zero: T,
    x: Seq<T>,
    from: int,
    n: nat,
    total: T,
) -> bool
    decreases n,
{
    if n == 0 {
        total == zero
    } else {
        exists|partial: T|
            {
                &&& plain_sum(plus, zero, x, from, (n - 1) as nat, partial)
                &&& #[trigger] call_ensures(plus, (partial, x[from + n - 1]), total)
            }
    }
}

/// The sum of the first `n` blocks of 256 products.
pub open spec fn block_sum<T, F: Fn(T, T, T) -> T, P: Fn(T, T) -> T>(
    mac: F,
    plus: P,
    zero: T,
    x: Seq<T>,
    row: Seq<T>,
    n: nat,
    total: T,
) -> bool
    decreases n,
{
    if n == 0 {
        total == zero
    } else {
        exists|partial: T, block: T|
            {
                &&& block_sum(mac, plus, zero, x, row, (n - 1) as nat, partial)
                &&& fold::accumulates(
                    mac,
                    x,
                    row,
                    fold::run(256 * (n - 1), 256 * (n - 1), 256),
                    zero,
                    block,
                )
                &&& #[trigger] call_ensures(plus, (partial, block), total)
            }
    }
}

/// The first element of pair `i`.
pub open spec fn pair_at(i: int) -> int {
    32 * (i / 16) + i % 16
}

/// The two products of a pair, summed.
pub open spec fn pair_term<T, F: Fn(T, T, T) -> T>(
    mac: F,
    zero: T,
    x: Seq<T>,
    row: Seq<T>,
    i: int,
    term: T,
) -> bool {
    let k = pair_at(i);
    exists|first: T|
        {
            &&& #[trigger] call_ensures(mac, (zero, x[k], row[k]), first)
            &&& call_ensures(mac, (first, x[k + 16], row[k + 16]), term)
        }
}

/// The sum of the first `n` pairs of products.
pub open spec fn pair_sum<T, F: Fn(T, T, T) -> T, P: Fn(T, T) -> T>(
    mac: F,
    plus: P,
    zero: T,
    x: Seq<T>,
    row: Seq<T>,
    n: nat,
    total: T,
) -> bool
    decreases n,
{
    if n == 0 {
        total == zero
    } else {
        exists|partial: T, term: T|
            {
                &&& pair_sum(mac, plus, zero, x, row, (n - 1) as nat, partial)
                &&& pair_term(mac, zero, x, row, n - 1, term)
                &&& #[trigger] call_ensures(plus, (partial, term), total)
            }
    }
}

/// The element that comes at step `i`, where the two of a pair follow each other.
pub open spec fn half_at(i: int) -> int {
    32 * (i / 32) + (i % 32) / 2 + 16 * (i % 2)
}

/// A product added, the element scaled before it meets the code.
pub open spec fn half_step<T, G: Fn(Weight) -> T, F: Fn(T, T, T) -> T>(
    number: G,
    mac: F,
    zero: T,
    element: T,
    weight: Weight,
    partial: T,
    total: T,
) -> bool {
    exists|scale: T, code: T, scaled: T|
        {
            &&& #[trigger] call_ensures(number, (scale_part(weight),), scale)
            &&& #[trigger] call_ensures(number, (code_part(weight),), code)
            &&& #[trigger] call_ensures(mac, (zero, element, scale), scaled)
            &&& call_ensures(mac, (partial, scaled, code), total)
        }
}

/// The sum of the first `n` products, where the two of a pair follow each other.
pub open spec fn half_sum<T, G: Fn(Weight) -> T, F: Fn(T, T, T) -> T>(
    number: G,
    mac: F,
    zero: T,
    x: Seq<T>,
    weights: Seq<Weight>,
    n: nat,
    total: T,
) -> bool
    decreases n,
{
    if n == 0 {
        total == zero
    } else {
        let k = half_at(n - 1);
        exists|partial: T|
            {
                &&& half_sum(number, mac, zero, x, weights, (n - 1) as nat, partial)
                &&& #[trigger] half_step(
                    number,
                    mac,
                    zero,
                    x[k],
                    weights[k],
                    partial,
                    total,
                )
            }
    }
}

/// The sum of the codes `coded` scaled, and the sum of the elements taken off as often as the weight
/// says.
pub open spec fn group_joins<T, G: Fn(Weight) -> T, F: Fn(T, T, T) -> T>(
    number: G,
    mac: F,
    zero: T,
    weight: Weight,
    coded: T,
    plain: T,
    term: T,
) -> bool {
    exists|scale: T, less: T, scaled: T|
        {
            &&& #[trigger] call_ensures(number, (scale_part(weight),), scale)
            &&& #[trigger] call_ensures(number, (less_part(weight),), less)
            &&& #[trigger] call_ensures(mac, (zero, scale, coded), scaled)
            &&& call_ensures(mac, (scaled, less, plain), term)
        }
}

/// The sum of group `g` of 32 products.
pub open spec fn group_term<T, G: Fn(Weight) -> T, F: Fn(T, T, T) -> T, P: Fn(T, T) -> T>(
    number: G,
    mac: F,
    plus: P,
    zero: T,
    x: Seq<T>,
    weights: Seq<Weight>,
    codes: Seq<T>,
    g: int,
    term: T,
) -> bool {
    exists|coded: T, plain: T|
        {
            &&& fold::accumulates(
                mac,
                x,
                codes,
                fold::run(32 * g, 32 * g, 32),
                zero,
                coded,
            )
            &&& plain_sum(plus, zero, x, 32 * g, 32, plain)
            &&& #[trigger] group_joins(number, mac, zero, weights[32 * g], coded, plain, term)
        }
}

/// The sum of the first `n` groups of 32 products.
pub open spec fn group_sum<T, G: Fn(Weight) -> T, F: Fn(T, T, T) -> T, P: Fn(T, T) -> T>(
    number: G,
    mac: F,
    plus: P,
    zero: T,
    x: Seq<T>,
    weights: Seq<Weight>,
    codes: Seq<T>,
    n: nat,
    total: T,
) -> bool
    decreases n,
{
    if n == 0 {
        total == zero
    } else {
        exists|partial: T, term: T|
            {
                &&& group_sum(
                    number,
                    mac,
                    plus,
                    zero,
                    x,
                    weights,
                    codes,
                    (n - 1) as nat,
                    partial,
                )
                &&& group_term(
                    number,
                    mac,
                    plus,
                    zero,
                    x,
                    weights,
                    codes,
                    n - 1,
                    term,
                )
                &&& #[trigger] call_ensures(plus, (partial, term), total)
            }
    }
}

/// `total` is the product of a row of weights with the vector `x`, as far as the row reaches.
pub open spec fn sums<T, G: Fn(Weight) -> T, F: Fn(T, T, T) -> T, P: Fn(T, T) -> T>(
    number: G,
    mac: F,
    plus: P,
    zero: T,
    x: Seq<T>,
    weights: Seq<Weight>,
    order: Order,
    total: T,
) -> bool {
    let n = weights.len();
    match order {
        Order::Flat => exists|row: Seq<T>| #[trigger]
            numbers(number, weights, row) && fold::accumulates(
                mac,
                x,
                row,
                fold::run(0, 0, n),
                zero,
                total,
            ),
        Order::Pairs => exists|row: Seq<T>| #[trigger]
            numbers(number, weights, row) && pair_sum(mac, plus, zero, x, row, n / 2, total),
        Order::Halves => half_sum(number, mac, zero, x, weights, n, total),
        Order::Groups => exists|codes: Seq<T>| #[trigger]
            numbers(number, code_parts(weights), codes) && group_sum(
                number,
                mac,
                plus,
                zero,
                x,
                weights,
                codes,
                n / 32,
                total,
            ),
        Order::Blocks => exists|row: Seq<T>| #[trigger]
            numbers(number, weights, row) && block_sum(
                mac,
                plus,
                zero,
                x,
                row,
                n / 256,
                total,
            ),
    }
}

/// The numbers that weights stand for.
fn numbers_of<T: Copy, G: Fn(Weight) -> T>(weights: &[Weight], number: &G) -> (row: Vec<T>)
    requires
        fold::total1(*number),
    ensures
        numbers(*number, weights@, row@),
{
    let mut row: Vec<T> = Vec::with_capacity(weights.len());
    let mut k: usize = 0;
    proof {
        assert(weights@.len() == weights.len());
    }
    while k < weights.len()
        invariant
            k == row@.len() <= weights@.len() == weights.len(),
            fold::total1(*number),
            forall|i: int|
                0 <= i < k ==> call_ensures(*number, (weights@[i],), #[trigger] row@[i]),
        decreases weights.len() - k,
    {
        let value = number(weights[k]);
        row.push(value);
        k = k + 1;
    }
    row
}

/// The numbers that the codes of weights stand for.
fn codes_of<T: Copy, G: Fn(Weight) -> T>(weights: &[Weight], number: &G) -> (codes: Vec<T>)
    requires
        fold::total1(*number),
    ensures
        numbers(*number, code_parts(weights@), codes@),
{
    let mut codes: Vec<T> = Vec::with_capacity(weights.len());
    let mut k: usize = 0;
    proof {
        assert(weights@.len() == weights.len());
    }
    while k < weights.len()
        invariant
            k == codes@.len() <= weights@.len() == weights.len(),
            fold::total1(*number),
            forall|i: int|
                0 <= i < k ==> call_ensures(
                    *number,
                    (code_part(weights@[i]),),
                    #[trigger] codes@[i],
                ),
        decreases weights.len() - k,
    {
        let value = number(code_of(weights[k]));
        codes.push(value);
        k = k + 1;
    }
    codes
}

/// The sum of `n` elements.
fn sum_plain<T: Copy, P: Fn(T, T) -> T>(x: &[T], from: usize, n: usize, zero: T, plus: &P) -> (total:
    T)
    requires
        from + n <= x@.len(),
        fold::total2(*plus),
    ensures
        plain_sum(*plus, zero, x@, from as int, n as nat, total),
{
    let mut total = zero;
    let mut i: usize = 0;
    proof {
        assert(x@.len() == x.len());
    }
    while i < n
        invariant
            i <= n,
            from + n <= x@.len() == x.len(),
            fold::total2(*plus),
            plain_sum(*plus, zero, x@, from as int, i as nat, total),
        decreases n - i,
    {
        let ghost partial = total;
        total = plus(total, x[from + i]);
        proof {
            assert(call_ensures(*plus, (partial, x@[from + (i + 1) - 1]), total));
        }
        i = i + 1;
    }
    total
}

/// The sum of the blocks of 256 products.
fn sum_blocks<T: Copy, F: Fn(T, T, T) -> T, P: Fn(T, T) -> T>(
    x: &[T],
    row: &[T],
    zero: T,
    mac: &F,
    plus: &P,
) -> (total: T)
    requires
        row@.len() <= x@.len(),
        fold::total3(*mac),
        fold::total2(*plus),
    ensures
        block_sum(*mac, *plus, zero, x@, row@, row@.len() / 256, total),
{
    proof {
        assert(x@.len() == x.len());
        assert(row@.len() == row.len());
    }
    let blocks: usize = row.len() / 256;
    let mut total = zero;
    let mut b: usize = 0;
    while b < blocks
        invariant
            b <= blocks == row@.len() / 256,
            row@.len() <= x@.len() == x.len(),
            row@.len() == row.len(),
            fold::total3(*mac),
            fold::total2(*plus),
            block_sum(*mac, *plus, zero, x@, row@, b as nat, total),
        decreases blocks - b,
    {
        let ghost partial = total;
        let block = fold::dot(x, 256 * b, row, 256 * b, 256, zero, mac);
        total = plus(total, block);
        proof {
            assert(call_ensures(*plus, (partial, block), total));
        }
        b = b + 1;
    }
    total
}

/// The sum of the pairs of products.
fn sum_pairs<T: Copy, F: Fn(T, T, T) -> T, P: Fn(T, T) -> T>(
    x: &[T],
    row: &[T],
    zero: T,
    mac: &F,
    plus: &P,
) -> (total: T)
    requires
        row@.len() <= x@.len(),
        row@.len() % 32 == 0,
        fold::total3(*mac),
        fold::total2(*plus),
    ensures
        pair_sum(*mac, *plus, zero, x@, row@, row@.len() / 2, total),
{
    proof {
        assert(x@.len() == x.len());
        assert(row@.len() == row.len());
    }
    let pairs: usize = row.len() / 2;
    let mut total = zero;
    let mut i: usize = 0;
    while i < pairs
        invariant
            i <= pairs == row@.len() / 2,
            row@.len() <= x@.len() == x.len(),
            row@.len() == row.len(),
            row@.len() % 32 == 0,
            fold::total3(*mac),
            fold::total2(*plus),
            pair_sum(*mac, *plus, zero, x@, row@, i as nat, total),
        decreases pairs - i,
    {
        let ghost partial = total;
        let k: usize = 32 * (i / 16) + i % 16;
        let first = mac(zero, x[k], row[k]);
        let term = mac(first, x[k + 16], row[k + 16]);
        total = plus(total, term);
        proof {
            assert(k == pair_at(i as int));
            assert(call_ensures(*mac, (zero, x@[k as int], row@[k as int]), first));
            assert(pair_term(*mac, zero, x@, row@, i as int, term));
            assert(call_ensures(*plus, (partial, term), total));
        }
        i = i + 1;
    }
    total
}

/// The element that comes at step `i` of `n`, where the two of a pair follow each other.
fn half_index(i: usize, n: usize) -> (k: usize)
    requires
        i < n,
        n % 32 == 0,
    ensures
        k == half_at(i as int),
        k < n,
{
    32 * (i / 32) + (i % 32) / 2 + 16 * (i % 2)
}

/// Adds a product, the element scaled before it meets the code.
fn add_half<T: Copy, G: Fn(Weight) -> T, F: Fn(T, T, T) -> T>(
    partial: T,
    element: T,
    weight: Weight,
    zero: T,
    number: &G,
    mac: &F,
) -> (total: T)
    requires
        fold::total1(*number),
        fold::total3(*mac),
    ensures
        half_step(*number, *mac, zero, element, weight, partial, total),
{
    let scale = number(scale_of(weight));
    let code = number(code_of(weight));
    let scaled = mac(zero, element, scale);
    let total = mac(partial, scaled, code);
    proof {
        assert(call_ensures(*number, (scale_part(weight),), scale));
        assert(call_ensures(*number, (code_part(weight),), code));
        assert(call_ensures(*mac, (zero, element, scale), scaled));
    }
    total
}

/// The sum of the products, where the two of a pair follow each other.
fn sum_halves<T: Copy, G: Fn(Weight) -> T, F: Fn(T, T, T) -> T>(
    x: &[T],
    weights: &[Weight],
    zero: T,
    number: &G,
    mac: &F,
) -> (total: T)
    requires
        weights@.len() <= x@.len(),
        weights@.len() % 32 == 0,
        fold::total1(*number),
        fold::total3(*mac),
    ensures
        half_sum(*number, *mac, zero, x@, weights@, weights@.len(), total),
{
    proof {
        assert(x@.len() == x.len());
        assert(weights@.len() == weights.len());
    }
    let mut total = zero;
    let mut i: usize = 0;
    while i < weights.len()
        invariant
            i <= weights@.len() == weights.len(),
            weights@.len() <= x@.len() == x.len(),
            weights@.len() % 32 == 0,
            fold::total1(*number),
            fold::total3(*mac),
            half_sum(*number, *mac, zero, x@, weights@, i as nat, total),
        decreases weights.len() - i,
    {
        let ghost partial = total;
        let k: usize = half_index(i, weights.len());
        total = add_half(total, x[k], weights[k], zero, number, mac);
        proof {
            let at = half_at((i + 1) - 1);
            assert(half_step(*number, *mac, zero, x@[at], weights@[at], partial, total));
        }
        i = i + 1;
    }
    total
}

/// The sum of the groups of 32 products.
fn sum_groups<T: Copy, G: Fn(Weight) -> T, F: Fn(T, T, T) -> T, P: Fn(T, T) -> T>(
    x: &[T],
    weights: &[Weight],
    codes: &[T],
    zero: T,
    number: &G,
    mac: &F,
    plus: &P,
) -> (total: T)
    requires
        weights@.len() <= x@.len(),
        codes@.len() == weights@.len(),
        fold::total1(*number),
        fold::total3(*mac),
        fold::total2(*plus),
    ensures
        group_sum(
            *number,
            *mac,
            *plus,
            zero,
            x@,
            weights@,
            codes@,
            weights@.len() / 32,
            total,
        ),
{
    proof {
        assert(x@.len() == x.len());
        assert(weights@.len() == weights.len());
    }
    let groups: usize = weights.len() / 32;
    let mut total = zero;
    let mut g: usize = 0;
    while g < groups
        invariant
            g <= groups == weights@.len() / 32,
            weights@.len() <= x@.len() == x.len(),
            codes@.len() == weights@.len() == weights.len(),
            fold::total1(*number),
            fold::total3(*mac),
            fold::total2(*plus),
            group_sum(
                *number,
                *mac,
                *plus,
                zero,
                x@,
                weights@,
                codes@,
                g as nat,
                total,
            ),
        decreases groups - g,
    {
        let ghost partial = total;
        let coded = fold::dot(x, 32 * g, codes, 32 * g, 32, zero, mac);
        let plain = sum_plain(x, 32 * g, 32, zero, plus);
        let scale = number(scale_of(weights[32 * g]));
        let less = number(less_of(weights[32 * g]));
        let scaled = mac(zero, scale, coded);
        let term = mac(scaled, less, plain);
        total = plus(total, term);
        proof {
            let w = weights@[32 * g as int];
            assert(call_ensures(*number, (scale_part(w),), scale));
            assert(call_ensures(*number, (less_part(w),), less));
            assert(call_ensures(*mac, (zero, scale, coded), scaled));
            assert(group_joins(*number, *mac, zero, w, coded, plain, term));
            assert(group_term(
                *number,
                *mac,
                *plus,
                zero,
                x@,
                weights@,
                codes@,
                g as int,
                term,
            ));
            assert(call_ensures(*plus, (partial, term), total));
        }
        g = g + 1;
    }
    total
}

/// The product of a row of weights with the vector `x`, as far as the row reaches.
pub fn sum_row<T: Copy, G: Fn(Weight) -> T, F: Fn(T, T, T) -> T, P: Fn(T, T) -> T>(
    x: &[T],
    weights: &[Weight],
    order: Order,
    zero: T,
    number: &G,
    mac: &F,
    plus: &P,
) -> (total: T)
    requires
        weights@.len() <= x@.len(),
        weights@.len() % stride(order) == 0,
        fold::total1(*number),
        fold::total3(*mac),
        fold::total2(*plus),
    ensures
        sums(*number, *mac, *plus, zero, x@, weights@, order, total),
{
    proof {
        assert(weights@.len() == weights.len());
    }
    match order {
        Order::Flat => {
            let row = numbers_of(weights, number);
            fold::dot(x, 0, &row, 0, weights.len(), zero, mac)
        },
        Order::Pairs => {
            let row = numbers_of(weights, number);
            sum_pairs(x, &row, zero, mac, plus)
        },
        Order::Halves => sum_halves(x, weights, zero, number, mac),
        Order::Groups => {
            let codes = codes_of(weights, number);
            sum_groups(x, weights, &codes, zero, number, mac, plus)
        },
        Order::Blocks => {
            let row = numbers_of(weights, number);
            sum_blocks(x, &row, zero, mac, plus)
        },
    }
}

} // verus!
