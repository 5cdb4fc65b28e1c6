//! Rotary positions and grouped-query attention over cached keys and values.

use vstd::prelude::*;
use crate::arithmetic;
use crate::arithmetic::{append_row, Arithmetic};
use crate::fold;
use crate::fold::dot;
use crate::llm_config::Config;
use crate::quant::Weight;

verus! {

/// The group of keys that a head of queries reads.
pub open spec fn kv_head(cfg: Config, head: int) -> int {
    head * cfg.n_kv_heads / cfg.n_heads as int
}

/// A head of queries reads one of the groups of keys.
pub proof fn lemma_kv_head(cfg: Config, head: int)
    requires
        0 <= head < cfg.n_heads,
        0 < cfg.n_kv_heads,
    ensures
        0 <= head * cfg.n_kv_heads < cfg.n_heads * cfg.n_kv_heads,
        0 <= kv_head(cfg, head) < cfg.n_kv_heads,
{
    let kv = cfg.n_kv_heads as int;
    let h = cfg.n_heads as int;
    assert(0 <= head * kv < h * kv) by (nonlinear_arith)
        requires
            0 <= head < h,
            0 < kv,
    ;
    assert(0 <= (head * kv) / h < kv) by (nonlinear_arith)
        requires
            0 <= head * kv < h * kv,
            0 < h,
    ;
}

/// Heads share groups of keys evenly: the heads of a group follow one another.
pub proof fn groups_follow_one_another(cfg: Config, head: int, next: int)
    requires
        0 <= head <= next < cfg.n_heads,
    ensures
        kv_head(cfg, head) <= kv_head(cfg, next),
{
    let kv = cfg.n_kv_heads as int;
    assert(head * kv <= next * kv) by (nonlinear_arith)
        requires
            head <= next,
            0 <= kv,
    ;
    vstd::arithmetic::div_mod::lemma_div_is_ordered(head * kv, next * kv, cfg.n_heads as int);
}

/// The score of the sink of a head, where the model has one.
pub open spec fn sink_of<T>(sinks: Seq<T>, head: int) -> Option<T> {
    if sinks.len() > head {
        Some(sinks[head])
    } else {
        None
    }
}

/// The weights paired with one column of the first `seq` rows of values.
pub open spec fn column_taps(seq: nat, width: nat, column: int) -> Seq<(int, int)> {
    Seq::new(seq, |t: int| (t, t * width + column))
}

impl<
    T: Copy,
    Z: Copy,
    N: Fn(Weight) -> T + Copy,
    M: Fn(T, T, T) -> T + Copy,
    L: Fn(T, T, T) -> T + Copy,
    P: Fn(T, T) -> T + Copy,
    A: Fn(&[T]) -> Z + Copy,
    B: Fn(T, Z, T) -> T + Copy,
    R: Fn(T, T, usize, usize) -> (T, T) + Copy,
    C: Fn(T) -> T + Copy,
    H: Fn(Vec<T>, Option<T>) -> Vec<T> + Copy,
    G: Fn(T, T) -> T + Copy,
    K: Fn(T, T) -> T + Copy,
    D: Fn(T) -> u32 + Copy,
> Arithmetic<T, N, M, L, P, A, B, R, C, H, G, K, D> {
    /// `out` is one head turned for a position: each element of its first half makes a pair with
    /// the element as far into the second half.
    pub open spec fn turns_head(self, x: Seq<T>, pos: usize, out: Seq<T>) -> bool {
        let half = x.len() / 2;
        &&& out.len() == x.len()
        &&& forall|i: int|
            0 <= i < half ==> call_ensures(
                self.rotate,
                (x[i], x[i + half], pos, i as usize),
                (#[trigger] out[i], out[i + half]),
            )
        &&& x.len() % 2 == 1 ==> out.last() == x.last()
    }

    /// `out` is every head of `x` turned for a position.
    pub open spec fn turns(
        self,
        x: Seq<T>,
        heads: nat,
        width: nat,
        pos: usize,
        out: Seq<T>,
    ) -> bool {
        &&& out.len() == heads * width
        &&& forall|h: int|
            0 <= h < heads ==> self.turns_head(
                arithmetic::row(x, h, width),
                pos,
                #[trigger] arithmetic::row(out, h, width),
            )
    }

    /// Turns one head for a position.
    fn rope_head(&self, x: &[T], pos: usize) -> (out: Vec<T>)
        requires
            self.usable(),
        ensures
            self.turns_head(x@, pos, out@),
    {
        proof {
            assert(x@.len() == x.len());
        }
        let half: usize = x.len() / 2;
        let mut out: Vec<T> = Vec::with_capacity(x.len());
        let mut second: Vec<T> = Vec::with_capacity(half);
        let mut i: usize = 0;
        while i < half
            invariant
                self.usable(),
                half == x@.len() / 2,
                x@.len() == x.len(),
                i == out@.len() == second@.len() <= half,
                forall|j: int|
                    0 <= j < i ==> call_ensures(
                        self.rotate,
                        (x@[j], x@[j + half], pos, j as usize),
                        (#[trigger] out@[j], second@[j]),
                    ),
            decreases half - i,
        {
            let (a, b) = (self.rotate)(x[i], x[i + half], pos, i);
            out.push(a);
            second.push(b);
            i = i + 1;
        }
        let ghost first = out@;
        append_row(&mut out, &second);
        if x.len() % 2 == 1 {
            out.push(x[x.len() - 1]);
        }
        proof {
            assert forall|j: int| 0 <= j < half implies call_ensures(
                self.rotate,
                (x@[j], x@[j + half], pos, j as usize),
                (#[trigger] out@[j], out@[j + half]),
            ) by {
                assert(first[j] == out@[j]);
                assert(second@[j] == out@[j + half]);
            }
        }
        out
    }

    /// Turns every head for a position.
    pub fn rope(&self, x: &[T], heads: usize, width: usize, pos: usize) -> (out: Vec<T>)
        requires
            self.usable(),
            x@.len() == heads * width,
        ensures
            self.turns(x@, heads as nat, width as nat, pos, out@),
    {
        proof {
            assert(x@.len() == x.len());
        }
        let mut out: Vec<T> = Vec::with_capacity(x.len());
        let ghost mut rows: Seq<Seq<T>> = Seq::empty();
        let mut h: usize = 0;
        while h < heads
            invariant
                self.usable(),
                h == rows.len() <= heads,
                x@.len() == heads * width == x.len(),
                out@ == arithmetic::joined_rows(rows),
                forall|g: int|
                    0 <= g < h ==> (#[trigger] rows[g]).len() == width && self.turns_head(
                        arithmetic::row(x@, g, width as nat),
                        pos,
                        rows[g],
                    ),
            decreases heads - h,
        {
            proof {
                arithmetic::lemma_row(x@, h as int, heads as nat, width as nat);
            }
            let part = vstd::slice::slice_subrange(x, h * width, h * width + width);
            let turned = self.rope_head(part, pos);
            append_row(&mut out, &turned);
            proof {
                let before = rows;
                rows = rows.push(turned@);
                assert(rows.drop_last() =~= before);
            }
            h = h + 1;
        }
        proof {
            arithmetic::lemma_joined_rows(rows, width as nat);
            assert forall|g: int| 0 <= g < heads implies self.turns_head(
                arithmetic::row(x@, g, width as nat),
                pos,
                #[trigger] arithmetic::row(out@, g, width as nat),
            ) by {
                assert(rows[g].len() == width);
            }
        }
        out
    }

    /// `score` is the scaled product of a head of queries with the same head of the keys at `t`.
    pub open spec fn scores(
        self,
        cfg: Config,
        q: Seq<T>,
        keys: Seq<T>,
        head: int,
        t: int,
        score: T,
    ) -> bool {
        exists|product: T|
            {
                &&& fold::accumulates(
                    self.mac,
                    q,
                    keys,
                    fold::run(
                        head * cfg.head_dim,
                        t * cfg.kv_total() + kv_head(cfg, head) * cfg.head_dim,
                        cfg.head_dim as nat,
                    ),
                    self.zero,
                    product,
                )
                &&& #[trigger] call_ensures(self.scale, (product,), score)
            }
    }

    /// `out` is what one head reads: its scores against `seq` keys are turned into weights, and
    /// the values are summed with them.
    pub open spec fn reads(
        self,
        cfg: Config,
        q: Seq<T>,
        keys: Seq<T>,
        values: Seq<T>,
        sinks: Seq<T>,
        seq: nat,
        head: int,
        out: Seq<T>,
    ) -> bool {
        &&& out.len() == cfg.head_dim
        &&& exists|scores: Vec<T>, weights: Vec<T>|
            {
                &&& #[trigger] call_ensures(self.softmax, (scores, sink_of(sinks, head)), weights)
                &&& scores@.len() == seq
                &&& forall|t: int|
                    0 <= t < seq ==> self.scores(cfg, q, keys, head, t, #[trigger] scores@[t])
                &&& forall|i: int|
                    0 <= i < out.len() ==> self.blends(
                        cfg,
                        weights@,
                        values,
                        seq,
                        head,
                        i,
                        #[trigger] out[i],
                    )
            }
    }

    /// `total` is the weighted sum of column `i` of the values that a head reads.
    pub open spec fn blends(
        self,
        cfg: Config,
        weights: Seq<T>,
        values: Seq<T>,
        seq: nat,
        head: int,
        i: int,
        total: T,
    ) -> bool {
        fold::accumulates(
            self.blend,
            weights,
            values,
            column_taps(seq, cfg.kv_total(), kv_head(cfg, head) * cfg.head_dim + i),
            self.zero,
            total,
        )
    }

    /// `out` is what every head reads.
    pub open spec fn attends(
        self,
        cfg: Config,
        q: Seq<T>,
        keys: Seq<T>,
        values: Seq<T>,
        sinks: Seq<T>,
        seq: nat,
        out: Seq<T>,
    ) -> bool {
        &&& out.len() == cfg.q_total()
        &&& forall|head: int|
            0 <= head < cfg.n_heads ==> self.reads(
                cfg,
                q,
                keys,
                values,
                sinks,
                seq,
                head,
                #[trigger] arithmetic::row(out, head, cfg.head_dim as nat),
            )
    }

    /// What one head reads from `seq` cached keys and values.
    fn attend_head(
        &self,
        cfg: &Config,
        q: &[T],
        keys: &[T],
        values: &[T],
        sinks: &[T],
        seq: usize,
        head: usize,
    ) -> (out: Vec<T>)
        requires
            self.usable(),
            head < cfg.n_heads,
            0 < cfg.n_kv_heads,
            cfg.n_heads * cfg.n_kv_heads <= usize::MAX,
            q@.len() == cfg.q_total(),
            keys@.len() == seq * cfg.kv_total(),
            values@.len() == seq * cfg.kv_total(),
        ensures
            self.reads(*cfg, q@, keys@, values@, sinks@, seq as nat, head as int, out@),
    {
        proof {
            lemma_kv_head(*cfg, head as int);
            arithmetic::lemma_row(q@, head as int, cfg.n_heads as nat, cfg.head_dim as nat);
            assert(q@.len() == q.len());
            assert(keys@.len() == keys.len());
            assert(values@.len() == values.len());
            assert(sinks@.len() == sinks.len());
        }
        let width: usize = cfg.head_dim;
        let group: usize = (head * cfg.n_kv_heads) / cfg.n_heads;
        let ghost kv = cfg.kv_total();
        let mut scores: Vec<T> = Vec::with_capacity(seq);
        let mut t: usize = 0;
        while t < seq
            invariant
                self.usable(),
                t == scores@.len() <= seq,
                group == kv_head(*cfg, head as int),
                0 <= group < cfg.n_kv_heads,
                width == cfg.head_dim,
                kv == cfg.kv_total(),
                keys@.len() == seq * kv == keys.len(),
                0 <= head * width,
                head * width + width <= q@.len() == q.len(),
                forall|s: int|
                    0 <= s < t ==> self.scores(
                        *cfg,
                        q@,
                        keys@,
                        head as int,
                        s,
                        #[trigger] scores@[s],
                    ),
            decreases seq - t,
        {
            proof {
                arithmetic::lemma_row(keys@, t as int, seq as nat, kv);
                self.lemma_group(*cfg, group as int);
            }
            let start: usize = t * (cfg.n_kv_heads * width) + group * width;
            let product = dot(q, head * width, keys, start, width, self.zero, &self.mac);
            let score = (self.scale)(product);
            scores.push(score);
            t = t + 1;
        }
        let ghost scored = scores;
        let sink = if sinks.len() > head {
            Some(sinks[head])
        } else {
            None
        };
        let weights = (self.softmax)(scores, sink);
        let mut out: Vec<T> = Vec::with_capacity(width);
        let mut i: usize = 0;
        while i < width
            invariant
                self.usable(),
                i == out@.len() <= width,
                group == kv_head(*cfg, head as int),
                0 <= group < cfg.n_kv_heads,
                width == cfg.head_dim,
                kv == cfg.kv_total(),
                weights@.len() == seq,
                values@.len() == seq * kv == values.len(),
                forall|j: int|
                    0 <= j < i ==> self.blends(
                        *cfg,
                        weights@,
                        values@,
                        seq as nat,
                        head as int,
                        j,
                        #[trigger] out@[j],
                    ),
            decreases width - i,
        {
            let total = self.blend_column(cfg, &weights, values, seq, group, i);
            out.push(total);
            i = i + 1;
        }
        proof {
            assert(call_ensures(self.softmax, (scored, sink_of(sinks@, head as int)), weights));
        }
        out
    }

    /// A group of keys lies within the keys of a token.
    proof fn lemma_group(self, cfg: Config, group: int)
        requires
            0 <= group < cfg.n_kv_heads,
        ensures
            0 <= group * cfg.head_dim,
            group * cfg.head_dim + cfg.head_dim <= cfg.kv_total(),
    {
        assert(0 <= group * cfg.head_dim && group * cfg.head_dim + cfg.head_dim <= cfg.n_kv_heads
            * cfg.head_dim) by (nonlinear_arith)
            requires
                0 <= group < cfg.n_kv_heads,
                0 <= cfg.head_dim,
        ;
    }

    /// The weighted sum of one column of values.
    fn blend_column(
        &self,
        cfg: &Config,
        weights: &[T],
        values: &[T],
        seq: usize,
        group: usize,
        i: usize,
    ) -> (total: T)
        requires
            self.usable(),
            group < cfg.n_kv_heads,
            i < cfg.head_dim,
            weights@.len() == seq,
            values@.len() == seq * cfg.kv_total(),
        ensures
            fold::accumulates(
                self.blend,
                weights@,
                values@,
                column_taps(seq as nat, cfg.kv_total(), group * cfg.head_dim + i),
                self.zero,
                total,
            ),
    {
        let ghost kv = cfg.kv_total();
        let ghost column = group * cfg.head_dim + i;
        proof {
            assert(column_taps(0, kv, column) =~= Seq::empty());
            assert(weights@.len() == weights.len());
            assert(values@.len() == values.len());
            self.lemma_group(*cfg, group as int);
        }
        let mut total = self.zero;
        let mut t: usize = 0;
        while t < seq
            invariant
                self.usable(),
                t <= seq == weights@.len() == weights.len(),
                values@.len() == seq * kv == values.len(),
                kv == cfg.kv_total(),
                column == group * cfg.head_dim + i,
                0 <= group * cfg.head_dim <= column < kv,
                fold::accumulates(
                    self.blend,
                    weights@,
                    values@,
                    column_taps(t as nat, kv, column),
                    self.zero,
                    total,
                ),
            decreases seq - t,
        {
            proof {
                arithmetic::lemma_row(values@, t as int, seq as nat, kv);
            }
            let at: usize = t * (cfg.n_kv_heads * cfg.head_dim) + (group * cfg.head_dim + i);
            let ghost partial = total;
            total = (self.blend)(total, weights[t], values[at]);
            proof {
                let taps = column_taps(t as nat, kv, column);
                fold::lemma_accumulates_push(
                    self.blend,
                    weights@,
                    values@,
                    taps,
                    (t as int, at as int),
                    self.zero,
                    partial,
                    total,
                );
                assert(
                    taps.push((t as int, at as int)) =~= column_taps((t + 1) as nat, kv, column)
                );
            }
            t = t + 1;
        }
        total
    }

    /// What every head reads from `seq` cached keys and values.
    pub fn attend(
        &self,
        cfg: &Config,
        q: &[T],
        keys: &[T],
        values: &[T],
        sinks: &[T],
        seq: usize,
    ) -> (out: Vec<T>)
        requires
            self.usable(),
            0 < cfg.n_kv_heads,
            cfg.n_heads * cfg.n_kv_heads <= usize::MAX,
            q@.len() == cfg.q_total(),
            keys@.len() == seq * cfg.kv_total(),
            values@.len() == seq * cfg.kv_total(),
        ensures
            self.attends(*cfg, q@, keys@, values@, sinks@, seq as nat, out@),
    {
        let mut out: Vec<T> = Vec::with_capacity(q.len());
        let ghost mut rows: Seq<Seq<T>> = Seq::empty();
        let mut head: usize = 0;
        while head < cfg.n_heads
            invariant
                self.usable(),
                0 < cfg.n_kv_heads,
                cfg.n_heads * cfg.n_kv_heads <= usize::MAX,
                q@.len() == cfg.q_total(),
                keys@.len() == seq * cfg.kv_total(),
                values@.len() == seq * cfg.kv_total(),
                head == rows.len() <= cfg.n_heads,
                out@ == arithmetic::joined_rows(rows),
                forall|g: int|
                    0 <= g < head ==> (#[trigger] rows[g]).len() == cfg.head_dim && self.reads(
                        *cfg,
                        q@,
                        keys@,
                        values@,
                        sinks@,
                        seq as nat,
                        g,
                        rows[g],
                    ),
            decreases cfg.n_heads - head,
        {
            let part = self.attend_head(cfg, q, keys, values, sinks, seq, head);
            append_row(&mut out, &part);
            proof {
                let before = rows;
                rows = rows.push(part@);
                assert(rows.drop_last() =~= before);
            }
            head = head + 1;
        }
        proof {
            arithmetic::lemma_joined_rows(rows, cfg.head_dim as nat);
            assert forall|g: int| 0 <= g < cfg.n_heads implies self.reads(
                *cfg,
                q@,
                keys@,
                values@,
                sinks@,
                seq as nat,
                g,
                #[trigger] arithmetic::row(out@, g, cfg.head_dim as nat),
            ) by {
                assert(rows[g].len() == cfg.head_dim);
            }
        }
        out
    }
}

} // verus!
