//! Byte-pair merging.

use vstd::prelude::*;
use vstd::hash_map::StringHashMap;
use crate::pair_map::PairMap;
use crate::text;
use crate::text::push_hex;

verus! {

broadcast use vstd::string::group_string_axioms;

/// Ranks of the pairs that may be merged.
pub type Ranks = Map<(Seq<char>, Seq<char>), u32>;

/// The texts of a list of strings.
pub open spec fn texts(strings: Seq<String>) -> Seq<Seq<char>> {
    Seq::new(strings.len(), |i: int| strings[i]@)
}

/// The texts of a list, one after the other.
pub open spec fn joined(pieces: Seq<Seq<char>>) -> Seq<char>
    decreases pieces.len(),
{
    if pieces.len() == 0 {
        Seq::empty()
    } else {
        joined(pieces.drop_last()) + pieces.last()
    }
}

/// Joining two lists joins their texts.
pub proof fn lemma_joined_add(a: Seq<Seq<char>>, b: Seq<Seq<char>>)
    ensures
        joined(a + b) == joined(a) + joined(b),
    decreases b.len(),
{
    if b.len() == 0 {
        assert(a + b =~= a);
        assert(joined(a) + joined(b) =~= joined(a));
    } else {
        lemma_joined_add(a, b.drop_last());
        assert((a + b).drop_last() =~= a + b.drop_last());
        assert(joined(a + b) =~= joined(a) + joined(b));
    }
}

/// The pair of symbols at `i` may be merged.
pub open spec fn mergeable(ranks: Ranks, symbols: Seq<Seq<char>>, i: int) -> bool {
    &&& 0 <= i < symbols.len() - 1
    &&& ranks.contains_key((symbols[i], symbols[i + 1]))
    &&& ranks[(symbols[i], symbols[i + 1])] < u32::MAX
}

/// The rank of the pair of symbols at `i`.
pub open spec fn rank_at(ranks: Ranks, symbols: Seq<Seq<char>>, i: int) -> u32 {
    ranks[(symbols[i], symbols[i + 1])]
}

/// The pair at `i` is the one to merge: no pair has a lower rank, and none before it the same.
pub open spec fn merges_first(ranks: Ranks, symbols: Seq<Seq<char>>, i: int) -> bool {
    &&& mergeable(ranks, symbols, i)
    &&& forall|j: int| #[trigger]
        mergeable(ranks, symbols, j) ==> rank_at(ranks, symbols, i) < rank_at(ranks, symbols, j)
            || (rank_at(ranks, symbols, i) == rank_at(ranks, symbols, j) && i <= j)
}

/// The symbols with the pair at `i` made one.
pub open spec fn merged_at(symbols: Seq<Seq<char>>, i: int) -> Seq<Seq<char>> {
    symbols.update(i, symbols[i] + symbols[i + 1]).remove(i + 1)
}

/// What is left when pairs have been merged, lowest rank first, until none can be.
pub open spec fn merged(ranks: Ranks, symbols: Seq<Seq<char>>) -> Seq<Seq<char>>
    decreases symbols.len(),
{
    if exists|i: int| #[trigger] merges_first(ranks, symbols, i) {
        let i = choose|i: int| #[trigger] merges_first(ranks, symbols, i);
        merged(ranks, merged_at(symbols, i))
    } else {
        symbols
    }
}

/// One symbol for each character.
pub open spec fn singles(word: Seq<char>) -> Seq<Seq<char>> {
    Seq::new(word.len(), |i: int| seq![word[i]])
}

/// Merging a pair keeps the text.
proof fn lemma_merged_at_text(symbols: Seq<Seq<char>>, i: int)
    requires
        0 <= i < symbols.len() - 1,
    ensures
        joined(merged_at(symbols, i)) == joined(symbols),
{
    let head = symbols.take(i);
    let pair = seq![symbols[i], symbols[i + 1]];
    let one = seq![symbols[i] + symbols[i + 1]];
    let tail = symbols.skip(i + 2);
    assert(symbols =~= head + pair + tail);
    assert(merged_at(symbols, i) =~= head + one + tail);
    lemma_joined_add(head + pair, tail);
    lemma_joined_add(head, pair);
    lemma_joined_add(head + one, tail);
    lemma_joined_add(head, one);
    assert(pair.drop_last() =~= seq![symbols[i]]);
    assert(seq![symbols[i]].drop_last() =~= Seq::empty());
    assert(one.drop_last() =~= Seq::empty());
    reveal_with_fuel(joined, 3);
    assert(joined(pair) =~= joined(one));
}

/// However its pairs are merged, a word's symbols still spell the word.
pub proof fn merging_keeps_the_text(ranks: Ranks, symbols: Seq<Seq<char>>)
    ensures
        joined(merged(ranks, symbols)) == joined(symbols),
    decreases symbols.len(),
{
    if exists|i: int| #[trigger] merges_first(ranks, symbols, i) {
        let i = choose|i: int| #[trigger] merges_first(ranks, symbols, i);
        lemma_merged_at_text(symbols, i);
        merging_keeps_the_text(ranks, merged_at(symbols, i));
    }
}

/// Pairs are merged by rank, and among pairs of the same rank the first is: where every pair before
/// `a` and `b` has a higher rank, and no pair after them a lower one, merging goes on with the two
/// made one.
pub proof fn the_lowest_rank_is_merged_first(
    ranks: Ranks,
    head: Seq<Seq<char>>,
    a: Seq<char>,
    b: Seq<char>,
    tail: Seq<Seq<char>>,
)
    requires
        ranks.contains_key((a, b)),
        ranks[(a, b)] < u32::MAX,
        ({
            let symbols = head + seq![a, b] + tail;
            forall|j: int|
                #![trigger symbols[j]]
                0 <= j < symbols.len() - 1 && ranks.contains_key((symbols[j], symbols[j + 1]))
                    ==> if j < head.len() {
                    ranks[(a, b)] < ranks[(symbols[j], symbols[j + 1])]
                } else {
                    ranks[(a, b)] <= ranks[(symbols[j], symbols[j + 1])]
                }
        }),
    ensures
        merged(ranks, head + seq![a, b] + tail) == merged(ranks, head + seq![a + b] + tail),
{
    let symbols = head + seq![a, b] + tail;
    let i = head.len() as int;
    assert(symbols[i] == a && symbols[i + 1] == b);
    assert(merges_first(ranks, symbols, i)) by {
        assert forall|j: int| #[trigger] mergeable(ranks, symbols, j) implies rank_at(
            ranks,
            symbols,
            i,
        ) < rank_at(ranks, symbols, j) || (rank_at(ranks, symbols, i) == rank_at(
            ranks,
            symbols,
            j,
        ) && i <= j) by {
            assert(symbols[j] == symbols[j]);
        }
    }
    let first = choose|i: int| #[trigger] merges_first(ranks, symbols, i);
    assert(mergeable(ranks, symbols, first) && mergeable(ranks, symbols, i));
    assert(first == i);
    assert(merged_at(symbols, i) =~= head + seq![a + b] + tail);
}

/// Where no pair of neighbours has a rank, nothing is merged.
pub proof fn unranked_symbols_stay_apart(ranks: Ranks, symbols: Seq<Seq<char>>)
    requires
        forall|j: int|
            #![trigger symbols[j]]
            0 <= j < symbols.len() - 1 ==> !ranks.contains_key((symbols[j], symbols[j + 1])),
    ensures
        merged(ranks, symbols) == symbols,
{
    assert forall|i: int| !#[trigger] merges_first(ranks, symbols, i) by {
        assert(symbols[i] == symbols[i]);
    }
}

/// The symbols of a word's characters spell the word.
pub proof fn singles_spell_the_word(word: Seq<char>)
    ensures
        joined(singles(word)) == word,
    decreases word.len(),
{
    if word.len() > 0 {
        singles_spell_the_word(word.drop_last());
        assert(singles(word).drop_last() =~= singles(word.drop_last()));
        assert(joined(singles(word)) =~= word);
    }
}

/// Where no pair can be merged, nothing is.
pub proof fn merged_symbols_are_final(ranks: Ranks, symbols: Seq<Seq<char>>)
    ensures
        forall|i: int| !mergeable(ranks, merged(ranks, symbols), i),
    decreases symbols.len(),
{
    if exists|i: int| #[trigger] merges_first(ranks, symbols, i) {
        let i = choose|i: int| #[trigger] merges_first(ranks, symbols, i);
        merged_symbols_are_final(ranks, merged_at(symbols, i));
        assert(merged(ranks, symbols) == merged(ranks, merged_at(symbols, i)));
    } else {
        assert(merged(ranks, symbols) == symbols);
        assert forall|i: int| !mergeable(ranks, symbols, i) by {
            if mergeable(ranks, symbols, i) {
                lemma_first_merge(ranks, symbols, symbols.len() as int, i);
            }
        }
    }
}

/// The pair at `i` is the one to merge among the pairs before `n`.
spec fn first_below(ranks: Ranks, symbols: Seq<Seq<char>>, n: int, i: int) -> bool {
    &&& mergeable(ranks, symbols, i)
    &&& i < n
    &&& forall|j: int| #[trigger]
        mergeable(ranks, symbols, j) && j < n ==> rank_at(ranks, symbols, i) < rank_at(
            ranks,
            symbols,
            j,
        ) || (rank_at(ranks, symbols, i) == rank_at(ranks, symbols, j) && i <= j)
}

/// Some mergeable pair before `n` is the one to merge among those before `n`.
proof fn lemma_first_below(ranks: Ranks, symbols: Seq<Seq<char>>, n: int, i: int) -> (best: int)
    requires
        0 <= i < n,
        mergeable(ranks, symbols, i),
    ensures
        first_below(ranks, symbols, n, best),
    decreases n,
{
    if exists|k: int| 0 <= k < n - 1 && mergeable(ranks, symbols, k) {
        let k = choose|k: int| 0 <= k < n - 1 && mergeable(ranks, symbols, k);
        let earlier = lemma_first_below(ranks, symbols, n - 1, k);
        if mergeable(ranks, symbols, n - 1) && rank_at(ranks, symbols, n - 1) < rank_at(
            ranks,
            symbols,
            earlier,
        ) {
            n - 1
        } else {
            earlier
        }
    } else {
        i
    }
}

proof fn lemma_first_merge(ranks: Ranks, symbols: Seq<Seq<char>>, n: int, i: int)
    requires
        n == symbols.len(),
        mergeable(ranks, symbols, i),
    ensures
        exists|k: int| #[trigger] merges_first(ranks, symbols, k),
{
    let best = lemma_first_below(ranks, symbols, n, i);
    assert(merges_first(ranks, symbols, best));
}

/// The pair to merge, if any.
fn find_merge(ranks: &PairMap, symbols: &Vec<String>) -> (found: Option<usize>)
    requires
        ranks.wf(),
    ensures
        match found {
            Some(i) => merges_first(ranks@, texts(symbols@), i as int),
            None => forall|i: int| !mergeable(ranks@, texts(symbols@), i),
        },
{
    let ghost all = texts(symbols@);
    let mut best: Option<usize> = None;
    let mut best_rank: u32 = u32::MAX;
    let pairs: usize = if symbols.len() == 0 {
        0
    } else {
        symbols.len() - 1
    };
    let mut i: usize = 0;
    while i < pairs
        invariant
            i <= pairs,
            symbols@.len() == 0 ==> pairs == 0,
            symbols@.len() > 0 ==> pairs == symbols@.len() - 1,
            ranks.wf(),
            all == texts(symbols@),
            match best {
                Some(b) => {
                    &&& first_below(ranks@, all, i as int, b as int)
                    &&& best_rank == rank_at(ranks@, all, b as int)
                },
                None => best_rank == u32::MAX && forall|j: int|
                    j < i ==> !mergeable(ranks@, all, j),
            },
        decreases pairs - i,
    {
        match ranks.get(symbols[i].as_str(), symbols[i + 1].as_str()) {
            Some(rank) => {
                if rank < best_rank {
                    best_rank = rank;
                    best = Some(i);
                }
            },
            None => {},
        }
        i = i + 1;
    }
    best
}

/// The string of one character.
pub fn single(c: char) -> (s: String)
    ensures
        s@ == seq![c],
{
    let mut s = String::new();
    s.push(c);
    assert(s@ =~= seq![c]);
    s
}

/// The symbols of a word after merging.
pub fn merge_word(ranks: &PairMap, word: &[char]) -> (symbols: Vec<String>)
    requires
        ranks.wf(),
    ensures
        texts(symbols@) == merged(ranks@, singles(word@)),
{
    let mut symbols: Vec<String> = Vec::with_capacity(word.len());
    let mut i: usize = 0;
    while i < word.len()
        invariant
            i <= word@.len(),
            texts(symbols@) == singles(word@).take(i as int),
        decreases word.len() - i,
    {
        let ghost before = symbols@;
        symbols.push(single(word[i]));
        proof {
            assert(texts(symbols@) =~= texts(before).push(seq![word@[i as int]]));
            assert(singles(word@).take(i + 1) =~= singles(word@).take(i as int).push(
                seq![word@[i as int]],
            ));
        }
        i = i + 1;
    }
    proof {
        assert(singles(word@).take(word@.len() as int) =~= singles(word@));
    }
    let mut done: bool = false;
    while !done
        invariant
            ranks.wf(),
            merged(ranks@, texts(symbols@)) == merged(ranks@, singles(word@)),
            done ==> texts(symbols@) == merged(ranks@, texts(symbols@)),
        decreases
                symbols.len() + if done {
                    0int
                } else {
                    1int
                },
    {
        match find_merge(ranks, &symbols) {
            Some(at) => {
                let ghost before = symbols@;
                let mut pair = symbols[at].clone();
                pair.append(symbols[at + 1].as_str());
                symbols[at] = pair;
                symbols.remove(at + 1);
                proof {
                    assert(texts(symbols@) =~= merged_at(texts(before), at as int));
                    lemma_merge_unique(ranks@, texts(before), at as int);
                }
            },
            None => {
                done = true;
                proof {
                    assert(forall|i: int| !merges_first(ranks@, texts(symbols@), i));
                }
            },
        }
    }
    symbols
}

/// Only one pair is the one to merge.
proof fn lemma_merge_unique(ranks: Ranks, symbols: Seq<Seq<char>>, i: int)
    requires
        merges_first(ranks, symbols, i),
    ensures
        merged(ranks, symbols) == merged(ranks, merged_at(symbols, i)),
{
    let k = choose|k: int| #[trigger] merges_first(ranks, symbols, k);
    assert(merges_first(ranks, symbols, k));
    assert(mergeable(ranks, symbols, i) && mergeable(ranks, symbols, k));
    assert(i == k);
}

/// The name of the token that stands for one byte, such as `<0x0A>`.
pub open spec fn byte_name(b: u8) -> Seq<char> {
    "<0x"@ + text::hex(b as nat, 2) + ">"@
}

/// The name of the token that stands for one byte.
pub fn byte_token(b: u8) -> (name: String)
    ensures
        name@ == byte_name(b),
{
    let mut name = String::new();
    name.append("<0x");
    push_hex(&mut name, b as u64, 2);
    name.append(">");
    name
}

/// The identifiers of bytes: each byte's own token, or `unknown` where the vocabulary has none; the
/// largest number stands for no identifier at all.
pub open spec fn byte_ids(ids: Map<Seq<char>, u32>, bytes: Seq<u8>, unknown: u32) -> Seq<u32>
    decreases bytes.len(),
{
    if bytes.len() == 0 {
        Seq::empty()
    } else {
        let earlier = byte_ids(ids, bytes.drop_last(), unknown);
        let name = byte_name(bytes.last());
        if ids.contains_key(name) {
            earlier.push(ids[name])
        } else if unknown != u32::MAX {
            earlier.push(unknown)
        } else {
            earlier
        }
    }
}

/// Appends the identifiers of bytes.
pub fn push_byte_ids(out: &mut Vec<u32>, ids: &StringHashMap<u32>, bytes: &[u8], unknown: u32)
    ensures
        final(out)@ == old(out)@ + byte_ids(ids@, bytes@, unknown),
{
    let ghost before = out@;
    let mut i: usize = 0;
    while i < bytes.len()
        invariant
            i <= bytes@.len(),
            out@ == before + byte_ids(ids@, bytes@.take(i as int), unknown),
        decreases bytes.len() - i,
    {
        proof {
            assert(bytes@.take(i + 1).drop_last() =~= bytes@.take(i as int));
        }
        let name = byte_token(bytes[i]);
        match ids.get(name.as_str()) {
            Some(id) => {
                out.push(*id);
            },
            None => {
                if unknown != u32::MAX {
                    out.push(unknown);
                }
            },
        }
        i = i + 1;
    }
    assert(bytes@.take(bytes@.len() as int) =~= bytes@);
}

/// The identifiers of symbols: each symbol's own, or those of its bytes.
pub open spec fn symbol_ids(ids: Map<Seq<char>, u32>, symbols: Seq<Seq<char>>) -> Seq<u32>
    decreases symbols.len(),
{
    if symbols.len() == 0 {
        Seq::empty()
    } else {
        let earlier = symbol_ids(ids, symbols.drop_last());
        let symbol = symbols.last();
        if ids.contains_key(symbol) {
            earlier.push(ids[symbol])
        } else {
            earlier + byte_ids(ids, vstd::utf8::encode_utf8(symbol), u32::MAX)
        }
    }
}

/// The identifiers of a word.
pub open spec fn word_ids(ids: Map<Seq<char>, u32>, ranks: Ranks, word: Seq<char>) -> Seq<u32> {
    if word.len() == 0 {
        Seq::empty()
    } else if ids.contains_key(word) {
        seq![ids[word]]
    } else {
        symbol_ids(ids, merged(ranks, singles(word)))
    }
}

/// Appends the identifiers of a word.
pub fn push_word_ids(
    out: &mut Vec<u32>,
    ids: &StringHashMap<u32>,
    ranks: &PairMap,
    word: &[char],
)
    requires
        ranks.wf(),
    ensures
        final(out)@ == old(out)@ + word_ids(ids@, ranks@, word@),
{
    if word.len() == 0 {
        return;
    }
    let ghost before = out@;
    let whole = text::string_of(word, 0, word.len());
    proof {
        assert(whole@ =~= word@);
    }
    match ids.get(whole.as_str()) {
        Some(id) => {
            out.push(*id);
            return;
        },
        None => {},
    }
    let symbols = merge_word(ranks, word);
    let ghost all = texts(symbols@);
    let mut i: usize = 0;
    while i < symbols.len()
        invariant
            i <= symbols@.len(),
            all == texts(symbols@),
            out@ == before + symbol_ids(ids@, all.take(i as int)),
        decreases symbols.len() - i,
    {
        proof {
            assert(all.take(i + 1).drop_last() =~= all.take(i as int));
        }
        match ids.get(symbols[i].as_str()) {
            Some(id) => {
                out.push(*id);
            },
            None => {
                push_byte_ids(out, ids, symbols[i].as_str().as_bytes(), u32::MAX);
            },
        }
        i = i + 1;
    }
    assert(all.take(all.len() as int) =~= all);
}

} // verus!
