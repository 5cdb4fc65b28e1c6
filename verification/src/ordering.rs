//! Choosing the greatest of single-precision numbers, by their total order.

use vstd::prelude::*;
use crate::float_order;
use crate::float_order::place_of;

verus! {

/// `chosen` names the greatest numbers, each once, from the greatest down: a number that it does
/// not name is at most as great as each that it names.
pub open spec fn leads(bits: Seq<u32>, chosen: Seq<usize>) -> bool {
    &&& forall|i: int| 0 <= i < chosen.len() ==> (#[trigger] chosen[i]) < bits.len()
    &&& chosen.no_duplicates()
    &&& forall|i: int, j: int|
        #![trigger chosen[i], chosen[j]]
        0 <= i <= j < chosen.len() ==> float_order::place(bits[chosen[j] as int])
            <= float_order::place(bits[chosen[i] as int])
    &&& forall|n: int, i: int|
        #![trigger bits[n], chosen[i]]
        0 <= n < bits.len() && !chosen.contains(n as usize) && 0 <= i < chosen.len()
            ==> float_order::place(bits[n]) <= float_order::place(bits[chosen[i] as int])
}

/// The greatest numbers are determined up to numbers of the same bit pattern: whatever two choices
/// name at the same rank has the same place.
pub proof fn ranks_have_one_place(bits: Seq<u32>, left: Seq<usize>, right: Seq<usize>, rank: int)
    requires
        leads(bits, left),
        leads(bits, right),
        left.len() == right.len(),
        bits.len() <= usize::MAX,
        0 <= rank < left.len(),
    ensures
        float_order::place(bits[left[rank] as int]) == float_order::place(
            bits[right[rank] as int],
        ),
{
    lemma_no_greater(bits, left, right, rank);
    lemma_no_greater(bits, right, left, rank);
}

/// What one choice names at a rank is at most as great as what another names there.
proof fn lemma_no_greater(bits: Seq<u32>, left: Seq<usize>, right: Seq<usize>, rank: int)
    requires
        leads(bits, left),
        leads(bits, right),
        left.len() == right.len(),
        bits.len() <= usize::MAX,
        0 <= rank < left.len(),
    ensures
        float_order::place(bits[left[rank] as int]) <= float_order::place(
            bits[right[rank] as int],
        ),
{
    let bound = float_order::place(bits[right[rank] as int]);
    if float_order::place(bits[left[rank] as int]) > bound {
        // Each of the first numbers on the left is greater than the bound, so it stands on the
        // right too, and before `rank`: more numbers than there are places.
        let first = left.take(rank + 1);
        let before = right.take(rank);
        assert forall|i: int| 0 <= i < first.len() implies before.contains(#[trigger] first[i]) by {
            let n = left[i];
            assert(first[i] == n);
            assert(float_order::place(bits[left[rank] as int]) <= float_order::place(
                bits[left[i] as int],
            ));
            assert(right.contains(n)) by {
                if !right.contains(n) {
                    assert(bits[n as int] == bits[n as int]);
                    assert(right[rank] == right[rank]);
                    assert(n as int as usize == n);
                }
            }
            let j = choose|j: int| 0 <= j < right.len() && right[j] == n;
            if j >= rank {
                assert(float_order::place(bits[right[j] as int]) <= float_order::place(
                    bits[right[rank] as int],
                ));
            }
            assert(before[j] == n);
        }
        assert(first.to_set().subset_of(before.to_set()));
        assert(first.no_duplicates());
        assert(before.no_duplicates());
        first.unique_seq_to_set();
        before.unique_seq_to_set();
        vstd::set_lib::lemma_len_subset(first.to_set(), before.to_set());
        assert(false);
    }
}

/// Names the `k` greatest numbers, from the greatest down.
pub fn leading(bits: &[u32], k: usize) -> (chosen: Vec<usize>)
    requires
        k <= bits@.len(),
    ensures
        chosen@.len() == k,
        leads(bits@, chosen@),
{
    let mut taken: Vec<bool> = Vec::with_capacity(bits.len());
    proof {
        assert(bits@.len() == bits.len());
    }
    while taken.len() < bits.len()
        invariant
            taken@.len() <= bits@.len() == bits.len(),
            forall|n: int| 0 <= n < taken@.len() ==> !#[trigger] taken@[n],
        decreases bits.len() - taken.len(),
    {
        taken.push(false);
    }
    let mut chosen: Vec<usize> = Vec::with_capacity(k);
    while chosen.len() < k
        invariant
            chosen@.len() <= k <= bits@.len() == bits.len(),
            taken@.len() == bits@.len(),
            leads(bits@, chosen@),
            forall|n: int|
                0 <= n < taken@.len() ==> #[trigger] taken@[n] == chosen@.contains(n as usize),
        decreases k - chosen.len(),
    {
        proof {
            lemma_one_left(chosen@, bits@.len());
        }
        let mut best: Option<usize> = None;
        let mut n: usize = 0;
        while n < bits.len()
            invariant
                n <= bits@.len() == bits.len(),
                taken@.len() == bits@.len(),
                match best {
                    Some(b) => {
                        &&& b < n
                        &&& !taken@[b as int]
                        &&& forall|m: int|
                            0 <= m < n && !(#[trigger] taken@[m]) ==> float_order::place(bits@[m])
                                <= float_order::place(bits@[b as int])
                    },
                    None => forall|m: int| 0 <= m < n ==> #[trigger] taken@[m],
                },
            decreases bits.len() - n,
        {
            if !taken[n] {
                match best {
                    Some(b) => {
                        if place_of(bits[n]) > place_of(bits[b]) {
                            best = Some(n);
                        }
                    },
                    None => {
                        best = Some(n);
                    },
                }
            }
            n = n + 1;
        }
        match best {
            Some(b) => {
                let ghost before = chosen@;
                proof {
                    assert forall|m: int|
                        0 <= m < bits@.len() && !before.contains(m as usize) implies float_order::place(
                        #[trigger] bits@[m],
                    ) <= float_order::place(bits@[b as int]) by {
                        assert(!taken@[m]);
                    }
                }
                taken.set(b, true);
                chosen.push(b);
                proof {
                    lemma_next(bits@, before, b);
                    assert forall|m: int| 0 <= m < taken@.len() implies #[trigger] taken@[m]
                        == chosen@.contains(m as usize) by {
                        if before.contains(m as usize) {
                            let i = choose|i: int| 0 <= i < before.len() && before[i] == m as usize;
                            assert(chosen@[i] == m as usize);
                        }
                        if m == b {
                            assert(chosen@[before.len() as int] == m as usize);
                        }
                        if chosen@.contains(m as usize) && m != b {
                            let i = choose|i: int| 0 <= i < chosen@.len() && chosen@[i] == m as usize;
                            assert(before[i] == m as usize);
                        }
                    }
                }
            },
            None => {
                proof {
                    let m = choose|m: usize| m < bits@.len() && !#[trigger] chosen@.contains(m);
                    assert(taken@[m as int]);
                    assert(false);
                }
                return chosen;
            },
        }
    }
    chosen
}

/// Fewer names than numbers leave a number without a name.
proof fn lemma_one_left(chosen: Seq<usize>, n: nat)
    requires
        chosen.len() < n <= usize::MAX,
        chosen.no_duplicates(),
    ensures
        exists|m: usize| m < n && !#[trigger] chosen.contains(m),
{
    if forall|m: usize| m < n ==> #[trigger] chosen.contains(m) {
        let all = Seq::new(n, |m: int| m as usize);
        assert(all.no_duplicates());
        assert(all.to_set().subset_of(chosen.to_set())) by {
            assert forall|x: usize| all.to_set().contains(x) implies chosen.to_set().contains(x) by {
                let m = choose|m: int| 0 <= m < n && all[m] == x;
                assert(chosen.contains(m as usize));
            }
        }
        all.unique_seq_to_set();
        chosen.unique_seq_to_set();
        vstd::set_lib::lemma_len_subset(all.to_set(), chosen.to_set());
    }
}

/// The greatest number that has no name yet can be named next.
proof fn lemma_next(bits: Seq<u32>, chosen: Seq<usize>, b: usize)
    requires
        leads(bits, chosen),
        b < bits.len() <= usize::MAX,
        !chosen.contains(b),
        forall|m: int|
            0 <= m < bits.len() && !chosen.contains(m as usize) ==> float_order::place(
                #[trigger] bits[m],
            ) <= float_order::place(bits[b as int]),
    ensures
        leads(bits, chosen.push(b)),
{
    let longer = chosen.push(b);
    assert forall|i: int, j: int|
        #![trigger longer[i], longer[j]]
        0 <= i <= j < longer.len() implies float_order::place(bits[longer[j] as int])
        <= float_order::place(bits[longer[i] as int]) by {
        if j < chosen.len() {
            assert(longer[i] == chosen[i] && longer[j] == chosen[j]);
        } else if i < chosen.len() {
            assert(longer[i] == chosen[i]);
            assert(bits[b as int] == bits[b as int]);
            assert((b as int) as usize == b);
        }
    }
    assert forall|n: int, i: int|
        #![trigger bits[n], longer[i]]
        0 <= n < bits.len() && !longer.contains(n as usize) && 0 <= i < longer.len() implies float_order::place(
        bits[n],
    ) <= float_order::place(bits[longer[i] as int]) by {
        assert(!chosen.contains(n as usize)) by {
            if chosen.contains(n as usize) {
                let k = choose|k: int| 0 <= k < chosen.len() && chosen[k] == n as usize;
                assert(longer[k] == n as usize);
            }
        }
        if i < chosen.len() {
            assert(longer[i] == chosen[i]);
        }
    }
}

/// The index of the greatest number, the last of several.
pub open spec fn is_last_greatest(bits: Seq<u32>, index: int) -> bool {
    &&& 0 <= index < bits.len()
    &&& forall|n: int|
        0 <= n < bits.len() ==> float_order::place(#[trigger] bits[n]) <= float_order::place(
            bits[index],
        )
    &&& forall|n: int|
        index < n < bits.len() ==> float_order::place(#[trigger] bits[n]) < float_order::place(
            bits[index],
        )
}

/// Names the greatest number, the last of several.
pub fn last_greatest(bits: &[u32]) -> (index: usize)
    requires
        bits@.len() > 0,
    ensures
        is_last_greatest(bits@, index as int),
{
    let mut index: usize = 0;
    let mut n: usize = 1;
    proof {
        assert(bits@.len() == bits.len());
    }
    while n < bits.len()
        invariant
            index < n <= bits@.len() == bits.len(),
            is_last_greatest(bits@.take(n as int), index as int),
        decreases bits.len() - n,
    {
        let ghost before = bits@.take(n as int);
        if place_of(bits[n]) >= place_of(bits[index]) {
            index = n;
        }
        proof {
            let longer = bits@.take(n + 1);
            assert forall|m: int| 0 <= m < n implies #[trigger] longer[m] == before[m] by {}
            assert forall|m: int| 0 <= m < n implies #[trigger] before[m] == longer[m] by {}
        }
        n = n + 1;
    }
    proof {
        assert(bits@.take(n as int) =~= bits@);
    }
    index
}

} // verus!
