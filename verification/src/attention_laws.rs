//! Which keys and values a head of queries reads, and what it makes of them.

use vstd::prelude::*;
use crate::arithmetic;
use crate::arithmetic::Arithmetic;
use crate::exact;
use crate::fold;
use crate::llm_attention;
use crate::llm_config::Config;
use crate::quant::Weight;

verus! {

/// The heads that read a group of keys.
pub open spec fn readers(cfg: Config, group: int) -> Set<int> {
    Set::new(
        |head: int| 0 <= head < cfg.n_heads && llm_attention::kv_head(cfg, head) == group,
    )
}

/// Where each group of keys is shared by `share` heads, they are `share` heads in a row.
pub proof fn groups_are_shared_in_runs(cfg: Config, share: int, head: int, group: int)
    requires
        cfg.n_heads == share * cfg.n_kv_heads,
        0 <= head < cfg.n_heads,
    ensures
        llm_attention::kv_head(cfg, head) == group <==> group * share <= head < (group + 1) * share,
{
    let kv = cfg.n_kv_heads as int;
    let n = cfg.n_heads as int;
    let at = llm_attention::kv_head(cfg, head);
    assert(0 < kv && 0 < share) by (nonlinear_arith)
        requires
            0 < n,
            n == share * kv,
            0 <= kv,
    ;
    let rest = (head * kv) % n;
    vstd::arithmetic::div_mod::lemma_fundamental_div_mod(head * kv, n);
    assert(at * share <= head && head < (at + 1) * share) by (nonlinear_arith)
        requires
            0 < kv,
            0 < n,
            n == share * kv,
            head * kv == n * at + rest,
            0 <= rest < n,
    ;
    if group * share <= head < (group + 1) * share {
        assert(group == at) by (nonlinear_arith)
            requires
                0 < share,
                group * share <= head,
                head < (group + 1) * share,
                at * share <= head,
                head < (at + 1) * share,
        ;
    }
}

/// Every group of keys is read by equally many heads.
pub proof fn groups_are_shared_evenly(cfg: Config, share: int, group: int)
    requires
        0 < cfg.n_heads,
        cfg.n_heads == share * cfg.n_kv_heads,
        0 <= group < cfg.n_kv_heads,
    ensures
        readers(cfg, group).finite(),
        readers(cfg, group).len() == share,
        readers(cfg, group).contains(group * share),
{
    let kv = cfg.n_kv_heads as int;
    let n = cfg.n_heads as int;
    assert(0 < share) by (nonlinear_arith)
        requires
            0 < n,
            n == share * kv,
            0 <= kv,
    ;
    let low = group * share;
    let high = (group + 1) * share;
    assert(0 <= low && high == low + share && high <= n) by (nonlinear_arith)
        requires
            0 < share,
            0 <= group < kv,
            n == share * kv,
            low == group * share,
            high == (group + 1) * share,
    ;
    let range = vstd::set_lib::set_int_range(low, high);
    assert forall|head: int| readers(cfg, group).contains(head) == range.contains(head) by {
        if 0 <= head < n {
            groups_are_shared_in_runs(cfg, share, head, group);
        }
    }
    assert(readers(cfg, group) =~= range);
    vstd::set_lib::lemma_int_range(low, high);
}

/// With as many groups of keys as heads, every head has its own.
pub proof fn equal_counts_share_nothing(cfg: Config, head: int)
    requires
        cfg.n_kv_heads == cfg.n_heads,
        0 <= head < cfg.n_heads,
    ensures
        llm_attention::kv_head(cfg, head) == head,
{
    groups_are_shared_in_runs(cfg, 1, head, head);
}

/// The product of a head of queries with the key of a group at `t`.
pub open spec fn product_of<T>(
    value: spec_fn(T) -> int,
    cfg: Config,
    q: Seq<T>,
    keys: Seq<T>,
    head: int,
    group: int,
    t: int,
) -> int {
    exact::sum(
        cfg.head_dim as nat,
        |j: int|
            value(q[head * cfg.head_dim + j]) * value(
                keys[t * (cfg.n_kv_heads * cfg.head_dim) + (group * cfg.head_dim + j)],
            ),
    )
}

/// A score is what the scaling makes of a product.
pub open spec fn scaled<T, C: Fn(T) -> T>(
    scale: C,
    value: spec_fn(T) -> int,
    amount: int,
    score: T,
) -> bool {
    exists|product: T|
        value(product) == amount && #[trigger] call_ensures(scale, (product,), score)
}

/// The average of column `i` of the values of a group.
pub open spec fn average_of<T>(
    value: spec_fn(T) -> int,
    cfg: Config,
    weights: Seq<T>,
    values: Seq<T>,
    seq: nat,
    group: int,
    i: int,
) -> int {
    exact::sum(
        seq,
        |t: int|
            value(weights[t]) * value(
                values[t * (cfg.n_kv_heads * cfg.head_dim) + (group * cfg.head_dim + i)],
            ),
    )
}

/// What a head reads, in exact arithmetic: its score for the key at `t` is the scaled product of
/// its queries with the key of its group, and each of its results is the average of one column of
/// the values of its group, weighted by the softmax of the scores.
pub proof fn a_head_averages_the_values_of_its_group<T, Z, N, M, L, P, A, B, R, C, H, G, K, D>(
    arithmetic: Arithmetic<T, N, M, L, P, A, B, R, C, H, G, K, D>,
    value: spec_fn(T) -> int,
    cfg: Config,
    share: int,
    q: Seq<T>,
    keys: Seq<T>,
    values: Seq<T>,
    sinks: Seq<T>,
    seq: nat,
    out: Seq<T>,
    head: int,
    group: int,
) -> (read: (Vec<T>, Option<T>, Vec<T>)) where
    T: Copy,
    Z: Copy,
    N: Fn(Weight) -> T + Copy,
    M: Fn(T, T, T) -> T + Copy,
    L: Fn(T, T, T) -> T + Copy,
    P: Fn(T, T) -> T + Copy,
    A: Fn(&[T]) -> Z + Copy,
    B: Fn(T, Z, T) -> T + Copy,
    R: Fn(T, T, usize, usize) -> (T, T) + Copy,
    C: Fn(T) -> T + Copy,
    H: Fn(Vec<T>, Option<T>) -> Vec<T> + Copy,
    G: Fn(T, T) -> T + Copy,
    K: Fn(T, T) -> T + Copy,
    D: Fn(T) -> u32 + Copy,

    requires
        exact::multiplies_and_adds(arithmetic.mac, value),
        exact::multiplies_and_adds(arithmetic.blend, value),
        value(arithmetic.zero) == 0,
        cfg.n_heads == share * cfg.n_kv_heads,
        0 <= head < cfg.n_heads,
        group * share <= head < (group + 1) * share,
        arithmetic.attends(cfg, q, keys, values, sinks, seq, out),
    ensures
        out.len() == cfg.n_heads * cfg.head_dim,
        ({
            let (scores, sink, weights) = read;
            &&& call_ensures(arithmetic.softmax, (scores, sink), weights)
            &&& head < sinks.len() ==> sink == Some(sinks[head])
            &&& sinks.len() <= head ==> sink is None
            &&& scores@.len() == seq
            &&& forall|t: int|
                0 <= t < seq ==> scaled(
                    arithmetic.scale,
                    value,
                    product_of(value, cfg, q, keys, head, group, t),
                    #[trigger] scores@[t],
                )
            &&& forall|i: int|
                0 <= i < cfg.head_dim ==> value(#[trigger] out[head * cfg.head_dim + i])
                    == average_of(value, cfg, weights@, values, seq, group, i)
        }),
{
    groups_are_shared_in_runs(cfg, share, head, group);
    let width = cfg.head_dim as nat;
    let kv = cfg.kv_total();
    let part = arithmetic::row(out, head, width);
    let at = llm_attention::kv_head(cfg, head) * width;
    assert(at == group * width) by (nonlinear_arith)
        requires
            at == llm_attention::kv_head(cfg, head) * width,
            llm_attention::kv_head(cfg, head) == group,
    ;
    arithmetic::lemma_row(out, head, cfg.n_heads as nat, width);
    let sink = llm_attention::sink_of(sinks, head);
    let (scores, weights) = choose|scores: Vec<T>, weights: Vec<T>|
        {
            &&& #[trigger] call_ensures(arithmetic.softmax, (scores, sink), weights)
            &&& scores@.len() == seq
            &&& forall|t: int|
                0 <= t < seq ==> arithmetic.scores(cfg, q, keys, head, t, #[trigger] scores@[t])
            &&& forall|i: int|
                0 <= i < part.len() ==> arithmetic.blends(
                    cfg,
                    weights@,
                    values,
                    seq,
                    head,
                    i,
                    #[trigger] part[i],
                )
        };
    assert forall|t: int| 0 <= t < seq implies scaled(
        arithmetic.scale,
        value,
        product_of(value, cfg, q, keys, head, group, t),
        #[trigger] scores@[t],
    ) by {
        let taps = fold::run(head * width, t * kv + at, width);
        let product = choose|product: T|
            {
                &&& fold::accumulates(arithmetic.mac, q, keys, taps, arithmetic.zero, product)
                &&& #[trigger] call_ensures(arithmetic.scale, (product,), scores@[t])
            };
        exact::lemma_accumulates(arithmetic.mac, value, q, keys, taps, arithmetic.zero, product);
        exact::lemma_sum_same(
            width,
            |j: int| value(q[taps[j].0]) * value(keys[taps[j].1]),
            |j: int|
                value(q[head * cfg.head_dim + j]) * value(
                    keys[t * (cfg.n_kv_heads * cfg.head_dim) + (group * cfg.head_dim + j)],
                ),
        );
    }
    assert forall|i: int| 0 <= i < cfg.head_dim implies value(
        #[trigger] out[head * cfg.head_dim + i],
    ) == average_of(value, cfg, weights@, values, seq, group, i) by {
        assert(part.len() == width);
        assert(part[i] == out[head * width + i]);
        let taps = llm_attention::column_taps(seq, kv, at + i);
        exact::lemma_accumulates(
            arithmetic.blend,
            value,
            weights@,
            values,
            taps,
            arithmetic.zero,
            part[i],
        );
        exact::lemma_sum_same(
            seq,
            |t: int| value(weights@[taps[t].0]) * value(values[taps[t].1]),
            |t: int|
                value(weights@[t]) * value(
                    values[t * (cfg.n_kv_heads * cfg.head_dim) + (group * cfg.head_dim + i)],
                ),
        );
    }
    (scores, sink, weights)
}

/// The elements of a row.
proof fn lemma_row_at<T>(data: Seq<T>, t: int, n: nat, width: nat, i: int)
    requires
        0 <= t < n,
        data.len() == n * width,
        0 <= i < width,
    ensures
        arithmetic::row(data, t, width).len() == width,
        arithmetic::row(data, t, width)[i] == data[t * width + i],
{
    arithmetic::lemma_row(data, t, n, width);
}

/// One pair of a head that is turned.
proof fn lemma_turned_pair<T, Z, N, M, L, P, A, B, R, C, H, G, K, D>(
    arithmetic: Arithmetic<T, N, M, L, P, A, B, R, C, H, G, K, D>,
    from: Seq<T>,
    half: nat,
    pos: usize,
    to: Seq<T>,
    i: int,
) where
    T: Copy,
    Z: Copy,
    N: Fn(Weight) -> T + Copy,
    M: Fn(T, T, T) -> T + Copy,
    L: Fn(T, T, T) -> T + Copy,
    P: Fn(T, T) -> T + Copy,
    A: Fn(&[T]) -> Z + Copy,
    B: Fn(T, Z, T) -> T + Copy,
    R: Fn(T, T, usize, usize) -> (T, T) + Copy,
    C: Fn(T) -> T + Copy,
    H: Fn(Vec<T>, Option<T>) -> Vec<T> + Copy,
    G: Fn(T, T) -> T + Copy,
    K: Fn(T, T) -> T + Copy,
    D: Fn(T) -> u32 + Copy,

    requires
        arithmetic.turns_head(from, pos, to),
        from.len() == 2 * half,
        0 <= i < half,
    ensures
        call_ensures(
            arithmetic.rotate,
            (from[i], from[half + i], pos, i as usize),
            (to[i], to[half + i]),
        ),
{
    assert(from.len() / 2 == half);
    assert(i + half == half + i);
}

/// Rotary positions turn pairs: the element `i` of the first half of a head and the element `i` of
/// its second half become what the rotation by the position makes of them, whatever the other
/// elements are.
pub proof fn positions_turn_halves_together<T, Z, N, M, L, P, A, B, R, C, H, G, K, D>(
    arithmetic: Arithmetic<T, N, M, L, P, A, B, R, C, H, G, K, D>,
    x: Seq<T>,
    heads: nat,
    width: nat,
    half: nat,
    pos: usize,
    out: Seq<T>,
    head: int,
    i: int,
) where
    T: Copy,
    Z: Copy,
    N: Fn(Weight) -> T + Copy,
    M: Fn(T, T, T) -> T + Copy,
    L: Fn(T, T, T) -> T + Copy,
    P: Fn(T, T) -> T + Copy,
    A: Fn(&[T]) -> Z + Copy,
    B: Fn(T, Z, T) -> T + Copy,
    R: Fn(T, T, usize, usize) -> (T, T) + Copy,
    C: Fn(T) -> T + Copy,
    H: Fn(Vec<T>, Option<T>) -> Vec<T> + Copy,
    G: Fn(T, T) -> T + Copy,
    K: Fn(T, T) -> T + Copy,
    D: Fn(T) -> u32 + Copy,

    requires
        width == 2 * half,
        x.len() == heads * width,
        0 <= head < heads,
        0 <= i < half,
        arithmetic.turns(x, heads, width, pos, out),
    ensures
        out.len() == x.len(),
        call_ensures(
            arithmetic.rotate,
            (x[head * width + i], x[head * width + (half + i)], pos, i as usize),
            (out[head * width + i], out[head * width + (half + i)]),
        ),
{
    lemma_row_at(x, head, heads, width, i);
    lemma_row_at(x, head, heads, width, half + i);
    lemma_row_at(out, head, heads, width, i);
    lemma_row_at(out, head, heads, width, half + i);
    lemma_turned_pair(
        arithmetic,
        arithmetic::row(x, head, width),
        half,
        pos,
        arithmetic::row(out, head, width),
        i,
    );
}

} // verus!
