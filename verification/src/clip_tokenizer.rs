//! The CLIP byte-pair tokenizer of the diffusion text encoders.
//!
//! A prompt is normalized, split by token class, merged pair by pair, and framed to 77 identifiers:
//! the start token, up to 75 of the prompt, and end tokens.

use vstd::prelude::*;
use vstd::hash_map::StringHashMap;
use crate::bpe;
use crate::bpe::single;
use crate::byte_chars;
use crate::byte_chars::build_byte_unicode_tables;
use crate::fields;
use crate::fields::{join_spaced, split_on, split_whitespace, trim};
use crate::json;
use crate::pair_map::PairMap;
use crate::text;
use crate::text::{chars_of, occurs_at, string_of};
use crate::tokenizer;
use crate::tokenizer::skip_letters;
use crate::unicode;

verus! {

broadcast use vstd::string::group_string_axioms;

/// The length of an encoded prompt.
pub const CONTEXT: usize = 77;

/// How many characters from index `from` on are neither white space, nor letters, nor numeric.
pub open spec fn symbols(text: Seq<char>, from: int) -> int
    decreases text.len() - from,
{
    if 0 <= from < text.len() && !unicode::whitespace(text[from]) && !unicode::alphabetic(
        text[from],
    ) && !unicode::numeric(text[from]) {
        1 + symbols(text, from + 1)
    } else {
        0
    }
}

/// The contractions that are tokens of their own.
pub open spec fn contractions() -> Seq<Seq<char>> {
    seq!["'re"@, "'ve"@, "'ll"@, "'s"@, "'t"@, "'m"@, "'d"@]
}

/// The length of the first of `patterns` that stands at `from`; 0 if none does.
pub open spec fn first_pattern(text: Seq<char>, from: int, patterns: Seq<Seq<char>>) -> int
    decreases patterns.len(),
{
    if patterns.len() == 0 {
        0
    } else if text::occurs(text, patterns[0], from) {
        patterns[0].len() as int
    } else {
        first_pattern(text, from, patterns.skip(1))
    }
}

/// The length of the token at `from`, where no white space stands: a special token, a contraction,
/// a run of letters, one numeric character, or a run of symbols.
pub open spec fn token_len(text: Seq<char>, from: int) -> int {
    let special = first_pattern(text, from, seq!["<|startoftext|>"@, "<|endoftext|>"@]);
    let contraction = first_pattern(text, from, contractions());
    if special > 0 {
        special
    } else if contraction > 0 {
        contraction
    } else if unicode::alphabetic(text[from]) {
        tokenizer::letters(text, from)
    } else if unicode::numeric(text[from]) {
        1
    } else {
        symbols(text, from)
    }
}

/// A pattern that stands in a text ends inside it.
pub proof fn lemma_first_pattern(text: Seq<char>, from: int, patterns: Seq<Seq<char>>)
    requires
        0 <= from <= text.len(),
    ensures
        0 <= first_pattern(text, from, patterns) <= text.len() - from,
    decreases patterns.len(),
{
    if patterns.len() > 0 && !text::occurs(text, patterns[0], from) {
        lemma_first_pattern(text, from, patterns.skip(1));
    }
}

proof fn lemma_symbols(text: Seq<char>, from: int)
    requires
        0 <= from <= text.len(),
    ensures
        0 <= symbols(text, from) <= text.len() - from,
        0 <= tokenizer::letters(text, from) <= text.len() - from,
    decreases text.len() - from,
{
    if from < text.len() {
        lemma_symbols(text, from + 1);
    }
}

/// A token is not empty and ends within the text.
pub proof fn lemma_token_len(text: Seq<char>, from: int)
    requires
        0 <= from < text.len(),
        !unicode::whitespace(text[from]),
    ensures
        0 < token_len(text, from) <= text.len() - from,
{
    lemma_first_pattern(text, from, seq!["<|startoftext|>"@, "<|endoftext|>"@]);
    lemma_first_pattern(text, from, contractions());
    lemma_symbols(text, from);
    lemma_symbols(text, from + 1);
}

/// The tokens of a text from index `from` on; white space is passed over.
pub open spec fn tokens(text: Seq<char>, from: int) -> Seq<Seq<char>>
    decreases text.len() - from,
{
    if from < 0 || from >= text.len() {
        Seq::empty()
    } else if unicode::whitespace(text[from]) {
        tokens(text, from + 1)
    } else {
        proof {
            lemma_token_len(text, from);
        }
        seq![text.subrange(from, from + token_len(text, from))] + tokens(
            text,
            from + token_len(text, from),
        )
    }
}

/// A prompt in lower case, with one space for each stretch of white space inside it and none
/// around it.
pub open spec fn normalized(text: Seq<char>) -> Seq<char> {
    unicode::lowercase(fields::spaced(fields::fields(text, 0)))
}

/// The index after a run of symbols.
fn skip_symbols(text: &[char], from: usize) -> (end: usize)
    requires
        from <= text@.len(),
    ensures
        end == from + symbols(text@, from as int),
        from <= end <= text@.len(),
{
    let mut end: usize = from;
    while end < text.len() && !text[end].is_whitespace() && !text[end].is_alphabetic()
        && !text[end].is_numeric()
        invariant
            from <= end <= text@.len(),
            symbols(text@, from as int) == (end - from) + symbols(text@, end as int),
        decreases text.len() - end,
    {
        end = end + 1;
    }
    end
}

/// The texts of a list of string slices.
pub open spec fn slices(patterns: Seq<&str>) -> Seq<Seq<char>> {
    Seq::new(patterns.len(), |i: int| patterns[i]@)
}

/// The length of the first of `patterns` that stands at `from`.
fn match_first(text: &[char], from: usize, patterns: &[&str]) -> (len: usize)
    requires
        from <= text@.len(),
    ensures
        len == first_pattern(text@, from as int, slices(patterns@)),
        from + len <= text@.len(),
{
    let ghost all = slices(patterns@);
    let mut i: usize = 0;
    proof {
        assert(all.skip(0) =~= all);
    }
    while i < patterns.len()
        invariant
            from <= text@.len(),
            i <= patterns@.len(),
            all == slices(patterns@),
            first_pattern(text@, from as int, all) == first_pattern(
                text@,
                from as int,
                all.skip(i as int),
            ),
        decreases patterns.len() - i,
    {
        proof {
            assert(all.skip(i as int).skip(1) =~= all.skip(i + 1));
            assert(all.skip(i as int)[0] == all[i as int]);
        }
        let pattern = chars_of(patterns[i]);
        if occurs_at(text, &pattern, from) {
            return pattern.len();
        }
        i = i + 1;
    }
    0
}

/// Splits a prompt by token class: special tokens, contractions, runs of letters, single numeric
/// characters, and runs of symbols.
pub fn pre_tokenize(text: &str) -> (pieces: Vec<String>)
    ensures
        bpe::texts(pieces@) == tokens(normalized(text@), 0),
{
    let words = split_whitespace(&chars_of(text));
    let lower = join_spaced(&words).as_str().to_lowercase();
    let chars = chars_of(lower.as_str());
    let ghost all = normalized(text@);
    let mut pieces: Vec<String> = Vec::new();
    let mut at: usize = 0;
    proof {
        assert(bpe::texts(pieces@) + tokens(all, 0) =~= tokens(all, 0));
    }
    while at < chars.len()
        invariant
            chars@ == all,
            at <= chars@.len(),
            bpe::texts(pieces@) + tokens(all, at as int) == tokens(all, 0),
        decreases chars.len() - at,
    {
        let c: char = chars[at];
        if c.is_whitespace() {
            at = at + 1;
        } else {
            proof {
                lemma_token_len(all, at as int);
            }
            let special_patterns: [&str; 2] = ["<|startoftext|>", "<|endoftext|>"];
            let contraction_patterns: [&str; 7] = ["'re", "'ve", "'ll", "'s", "'t", "'m", "'d"];
            proof {
                assert(slices(special_patterns@) =~= seq!["<|startoftext|>"@, "<|endoftext|>"@]);
                assert(slices(contraction_patterns@) =~= contractions());
            }
            let special: usize = match_first(&chars, at, &special_patterns);
            let contraction: usize = match_first(&chars, at, &contraction_patterns);
            let end: usize = if special > 0 {
                at + special
            } else if contraction > 0 {
                at + contraction
            } else if c.is_alphabetic() {
                skip_letters(&chars, at)
            } else if c.is_numeric() {
                at + 1
            } else {
                skip_symbols(&chars, at)
            };
            let ghost before = pieces@;
            pieces.push(string_of(&chars, at, end));
            proof {
                let piece = all.subrange(at as int, end as int);
                assert(end == at + token_len(all, at as int));
                assert(bpe::texts(pieces@) =~= bpe::texts(before).push(piece));
                assert(bpe::texts(pieces@) + tokens(all, end as int) =~= bpe::texts(before) + (
                seq![piece] + tokens(all, end as int)));
            }
            at = end;
        }
    }
    proof {
        assert(bpe::texts(pieces@) + tokens(all, at as int) =~= bpe::texts(pieces@));
    }
    pieces
}

/// The pair of symbols at `i` has a rank.
pub open spec fn ranked(ranks: bpe::Ranks, word: Seq<Seq<char>>, i: int) -> bool {
    &&& 0 <= i < word.len() - 1
    &&& ranks.contains_key((word[i], word[i + 1]))
}

/// The pair at `i` is the one to merge: no pair has a lower rank, and none before it the same.
pub open spec fn lowest(ranks: bpe::Ranks, word: Seq<Seq<char>>, i: int) -> bool {
    &&& ranked(ranks, word, i)
    &&& forall|j: int| #[trigger]
        ranked(ranks, word, j) ==> bpe::rank_at(ranks, word, i) < bpe::rank_at(ranks, word, j) || (
        bpe::rank_at(ranks, word, i) == bpe::rank_at(ranks, word, j) && i <= j)
}

/// The word with every `first` that a `second` follows made one with it, from left to right.
pub open spec fn all_merged(word: Seq<Seq<char>>, first: Seq<char>, second: Seq<char>) -> Seq<
    Seq<char>,
>
    decreases word.len(),
{
    if word.len() == 0 {
        Seq::empty()
    } else if word.len() > 1 && word[0] == first && word[1] == second {
        seq![first + second] + all_merged(word.skip(2), first, second)
    } else {
        seq![word[0]] + all_merged(word.skip(1), first, second)
    }
}

/// Merging a pair that occurs makes the word shorter.
pub proof fn lemma_all_merged_shorter(
    word: Seq<Seq<char>>,
    first: Seq<char>,
    second: Seq<char>,
    i: int,
)
    ensures
        all_merged(word, first, second).len() <= word.len(),
        0 <= i < word.len() - 1 && word[i] == first && word[i + 1] == second ==> all_merged(
            word,
            first,
            second,
        ).len() < word.len(),
    decreases word.len(),
{
    if word.len() == 0 {
    } else if word.len() > 1 && word[0] == first && word[1] == second {
        lemma_all_merged_shorter(word.skip(2), first, second, 0);
    } else {
        lemma_all_merged_shorter(word.skip(1), first, second, i - 1);
    }
}

/// What is left when the pair of the lowest rank has been merged everywhere, again and again,
/// until no pair has a rank.
pub open spec fn merged(ranks: bpe::Ranks, word: Seq<Seq<char>>) -> Seq<Seq<char>>
    decreases word.len(),
{
    if exists|i: int| #[trigger] lowest(ranks, word, i) {
        let i = choose|i: int| #[trigger] lowest(ranks, word, i);
        proof {
            lemma_all_merged_shorter(word, word[i], word[i + 1], i);
        }
        merged(ranks, all_merged(word, word[i], word[i + 1]))
    } else {
        word
    }
}

/// Pairs are merged by rank: where no pair of neighbours but `a` and `b` has a rank as low as
/// theirs, merging goes on with every `a` that a `b` follows made one with it.
pub proof fn the_lowest_rank_is_merged_first(
    ranks: bpe::Ranks,
    word: Seq<Seq<char>>,
    a: Seq<char>,
    b: Seq<char>,
    at: int,
)
    requires
        0 <= at < word.len() - 1,
        word[at] == a,
        word[at + 1] == b,
        ranks.contains_key((a, b)),
        forall|j: int| #[trigger]
            ranked(ranks, word, j) ==> (word[j] == a && word[j + 1] == b) || ranks[(a, b)]
                < ranks[(word[j], word[j + 1])],
    ensures
        merged(ranks, word) == merged(ranks, all_merged(word, a, b)),
    decreases at,
{
    if exists|i: int|
        0 <= i < at && word[i] == a && word[i + 1] == b && #[trigger] ranked(ranks, word, i) {
        let i = choose|i: int|
            0 <= i < at && word[i] == a && word[i + 1] == b && #[trigger] ranked(ranks, word, i);
        the_lowest_rank_is_merged_first(ranks, word, a, b, i);
    } else {
        assert(lowest(ranks, word, at)) by {
            assert forall|j: int| #[trigger] ranked(ranks, word, j) implies bpe::rank_at(
                ranks,
                word,
                at,
            ) < bpe::rank_at(ranks, word, j) || (bpe::rank_at(ranks, word, at) == bpe::rank_at(
                ranks,
                word,
                j,
            ) && at <= j) by {}
        }
        let first = choose|i: int| #[trigger] lowest(ranks, word, i);
        assert(ranked(ranks, word, first) && ranked(ranks, word, at));
        assert(first == at);
    }
}

/// A pair is merged wherever it stands: a symbol that is not the first of the pair stays, and so
/// does the first where the second does not follow.
pub proof fn pairs_are_merged_everywhere(
    a: Seq<char>,
    b: Seq<char>,
    other: Seq<char>,
    rest: Seq<Seq<char>>,
)
    ensures
        all_merged(Seq::empty(), a, b) == Seq::<Seq<char>>::empty(),
        all_merged(seq![a, b] + rest, a, b) == seq![a + b] + all_merged(rest, a, b),
        other != a || rest.len() == 0 || rest[0] != b ==> all_merged(seq![other] + rest, a, b)
            == seq![other] + all_merged(rest, a, b),
{
    let pair = seq![a, b] + rest;
    assert(pair[0] == a && pair[1] == b);
    assert(pair.skip(2) =~= rest);
    let single = seq![other] + rest;
    assert(single[0] == other);
    assert(rest.len() > 0 ==> single[1] == rest[0]);
    assert(single.skip(1) =~= rest);
}

/// The symbols of a token before merging: its characters, the last of which is marked as the end
/// of a word.
pub open spec fn marked(token: Seq<char>) -> Seq<Seq<char>> {
    if token.len() == 0 {
        Seq::empty()
    } else {
        bpe::singles(token).update(token.len() - 1, seq![token.last()] + "</w>"@)
    }
}

proof fn lemma_all_merged_text(word: Seq<Seq<char>>, first: Seq<char>, second: Seq<char>)
    ensures
        bpe::joined(all_merged(word, first, second)) == bpe::joined(word),
    decreases word.len(),
{
    if word.len() == 0 {
    } else if word.len() > 1 && word[0] == first && word[1] == second {
        let rest = word.skip(2);
        lemma_all_merged_text(rest, first, second);
        assert(word =~= seq![first, second] + rest);
        bpe::lemma_joined_add(seq![first, second], rest);
        bpe::lemma_joined_add(seq![first + second], all_merged(rest, first, second));
        assert(seq![first, second].drop_last() =~= seq![first]);
        assert(seq![first].drop_last() =~= Seq::empty());
        assert(seq![first + second].drop_last() =~= Seq::empty());
        reveal_with_fuel(bpe::joined, 3);
        assert(bpe::joined(seq![first, second]) =~= bpe::joined(seq![first + second]));
    } else {
        let rest = word.skip(1);
        lemma_all_merged_text(rest, first, second);
        assert(word =~= seq![word[0]] + rest);
        bpe::lemma_joined_add(seq![word[0]], rest);
        bpe::lemma_joined_add(seq![word[0]], all_merged(rest, first, second));
    }
}

/// However its pairs are merged, a token's symbols still spell the token and the mark at its end.
pub proof fn merging_keeps_the_text(ranks: bpe::Ranks, word: Seq<Seq<char>>)
    ensures
        bpe::joined(merged(ranks, word)) == bpe::joined(word),
    decreases word.len(),
{
    if exists|i: int| #[trigger] lowest(ranks, word, i) {
        let i = choose|i: int| #[trigger] lowest(ranks, word, i);
        lemma_all_merged_shorter(word, word[i], word[i + 1], i);
        lemma_all_merged_text(word, word[i], word[i + 1]);
        merging_keeps_the_text(ranks, all_merged(word, word[i], word[i + 1]));
    }
}

/// The symbols of a token spell it, with the mark at its end.
pub proof fn marked_symbols_spell_the_token(token: Seq<char>)
    requires
        token.len() > 0,
    ensures
        bpe::joined(marked(token)) == token + "</w>"@,
{
    let init = token.drop_last();
    let last = seq![token.last()] + "</w>"@;
    bpe::singles_spell_the_word(init);
    assert(marked(token) =~= bpe::singles(init) + seq![last]);
    bpe::lemma_joined_add(bpe::singles(init), seq![last]);
    assert(seq![last].drop_last() =~= Seq::empty());
    reveal_with_fuel(bpe::joined, 2);
    assert(bpe::joined(seq![last]) =~= last);
    assert(init + last =~= token + "</w>"@);
}

/// The pair at `i` is the one to merge among the pairs before `n`.
spec fn lowest_below(ranks: bpe::Ranks, word: Seq<Seq<char>>, n: int, i: int) -> bool {
    &&& ranked(ranks, word, i)
    &&& i < n
    &&& forall|j: int| #[trigger]
        ranked(ranks, word, j) && j < n ==> bpe::rank_at(ranks, word, i) < bpe::rank_at(
            ranks,
            word,
            j,
        ) || (bpe::rank_at(ranks, word, i) == bpe::rank_at(ranks, word, j) && i <= j)
}

/// The pair to merge, if any.
fn find_lowest(ranks: &PairMap, word: &Vec<String>) -> (found: Option<usize>)
    requires
        ranks.wf(),
    ensures
        match found {
            Some(i) => lowest(ranks@, bpe::texts(word@), i as int),
            None => forall|i: int| !ranked(ranks@, bpe::texts(word@), i),
        },
{
    let ghost all = bpe::texts(word@);
    let mut best: Option<usize> = None;
    let mut best_rank: u32 = 0;
    let pairs: usize = if word.len() == 0 {
        0
    } else {
        word.len() - 1
    };
    let mut i: usize = 0;
    while i < pairs
        invariant
            i <= pairs,
            word@.len() == 0 ==> pairs == 0,
            word@.len() > 0 ==> pairs == word@.len() - 1,
            ranks.wf(),
            all == bpe::texts(word@),
            match best {
                Some(b) => {
                    &&& lowest_below(ranks@, all, i as int, b as int)
                    &&& best_rank == bpe::rank_at(ranks@, all, b as int)
                },
                None => forall|j: int| j < i ==> !ranked(ranks@, all, j),
            },
        decreases pairs - i,
    {
        match ranks.get(word[i].as_str(), word[i + 1].as_str()) {
            Some(rank) => {
                if best.is_none() || rank < best_rank {
                    best_rank = rank;
                    best = Some(i);
                }
            },
            None => {},
        }
        i = i + 1;
    }
    best
}

/// The word with a pair made one wherever it occurs.
fn merge_all(word: &Vec<String>, first: &String, second: &String) -> (result: Vec<String>)
    ensures
        bpe::texts(result@) == all_merged(bpe::texts(word@), first@, second@),
{
    let ghost all = bpe::texts(word@);
    let mut result: Vec<String> = Vec::with_capacity(word.len());
    let mut i: usize = 0;
    proof {
        assert(all.skip(0) =~= all);
        assert(bpe::texts(result@) + all_merged(all, first@, second@) =~= all_merged(
            all,
            first@,
            second@,
        ));
    }
    while i < word.len()
        invariant
            i <= word@.len(),
            all == bpe::texts(word@),
            bpe::texts(result@) + all_merged(all.skip(i as int), first@, second@) == all_merged(
                all,
                first@,
                second@,
            ),
        decreases word.len() - i,
    {
        let ghost rest = all.skip(i as int);
        let ghost before = result@;
        proof {
            assert(rest[0] == all[i as int]);
            if i + 1 < word@.len() {
                assert(rest[1] == all[i + 1]);
                assert(rest.skip(2) =~= all.skip(i + 2));
            }
            assert(rest.skip(1) =~= all.skip(i + 1));
        }
        if word.len() - i > 1 && word[i] == *first && word[i + 1] == *second {
            let mut pair = first.clone();
            pair.append(second.as_str());
            result.push(pair);
            proof {
                assert(bpe::texts(result@) =~= bpe::texts(before).push(first@ + second@));
                assert(bpe::texts(result@) + all_merged(all.skip(i + 2), first@, second@)
                    =~= bpe::texts(before) + (seq![first@ + second@] + all_merged(
                    all.skip(i + 2),
                    first@,
                    second@,
                )));
            }
            i = i + 2;
        } else {
            result.push(word[i].clone());
            proof {
                assert(bpe::texts(result@) =~= bpe::texts(before).push(all[i as int]));
                assert(bpe::texts(result@) + all_merged(all.skip(i + 1), first@, second@)
                    =~= bpe::texts(before) + (seq![all[i as int]] + all_merged(
                    all.skip(i + 1),
                    first@,
                    second@,
                )));
            }
            i = i + 1;
        }
    }
    proof {
        assert(bpe::texts(result@) + all_merged(all.skip(i as int), first@, second@)
            =~= bpe::texts(result@));
    }
    result
}

/// Only one pair is the one to merge.
proof fn lemma_lowest_unique(ranks: bpe::Ranks, word: Seq<Seq<char>>, i: int)
    requires
        lowest(ranks, word, i),
    ensures
        merged(ranks, word) == merged(ranks, all_merged(word, word[i], word[i + 1])),
{
    let k = choose|k: int| #[trigger] lowest(ranks, word, k);
    assert(lowest(ranks, word, k));
    assert(ranked(ranks, word, i) && ranked(ranks, word, k));
    assert(i == k);
}

/// The symbols of a token after merging.
fn merge_token(ranks: &PairMap, token: &[char]) -> (word: Vec<String>)
    requires
        ranks.wf(),
    ensures
        bpe::texts(word@) == merged(ranks@, marked(token@)),
{
    let mut word: Vec<String> = Vec::with_capacity(token.len());
    let mut i: usize = 0;
    while i < token.len()
        invariant
            i <= token@.len(),
            bpe::texts(word@) == marked(token@).take(i as int),
        decreases token.len() - i,
    {
        let ghost before = word@;
        let mut symbol = single(token[i]);
        if i + 1 == token.len() {
            symbol.append("</w>");
        }
        word.push(symbol);
        proof {
            assert(bpe::texts(word@) =~= bpe::texts(before).push(symbol@));
            assert(symbol@ =~= marked(token@)[i as int]);
            assert(marked(token@).take(i + 1) =~= marked(token@).take(i as int).push(
                marked(token@)[i as int],
            ));
        }
        i = i + 1;
    }
    proof {
        assert(marked(token@).take(token@.len() as int) =~= marked(token@));
    }
    let mut done: bool = false;
    while !done
        invariant
            ranks.wf(),
            merged(ranks@, bpe::texts(word@)) == merged(ranks@, marked(token@)),
            done ==> bpe::texts(word@) == merged(ranks@, bpe::texts(word@)),
        decreases
                word.len() + if done {
                    0int
                } else {
                    1int
                },
    {
        let ghost all = bpe::texts(word@);
        match find_lowest(ranks, &word) {
            Some(at) => {
                let next = merge_all(&word, &word[at], &word[at + 1]);
                proof {
                    lemma_lowest_unique(ranks@, all, at as int);
                    lemma_all_merged_shorter(all, all[at as int], all[at + 1], at as int);
                    assert(bpe::texts(next@).len() < all.len());
                }
                word = next;
            },
            None => {
                done = true;
                proof {
                    assert(forall|i: int| !lowest(ranks@, all, i));
                }
            },
        }
    }
    word
}

/// Why the tables of a tokenizer are refused.
#[derive(Clone, Debug, PartialEq, Eq)]
pub enum ClipError {
    InvalidVocabulary,
    EmptyVocabulary,
    MissingStart,
    MissingEnd,
    InvalidMerge { line: String },
    TooManyMerges,
    DuplicateMerge { first: String, second: String },
    EmptyMerges,
}

/// What a [`ClipError`] says, with texts as sequences.
pub enum ClipFault {
    InvalidVocabulary,
    EmptyVocabulary,
    MissingStart,
    MissingEnd,
    InvalidMerge { line: Seq<char> },
    TooManyMerges,
    DuplicateMerge { first: Seq<char>, second: Seq<char> },
    EmptyMerges,
}

impl View for ClipError {
    type V = ClipFault;

    open spec fn view(&self) -> ClipFault {
        match *self {
            ClipError::InvalidVocabulary => ClipFault::InvalidVocabulary,
            ClipError::EmptyVocabulary => ClipFault::EmptyVocabulary,
            ClipError::MissingStart => ClipFault::MissingStart,
            ClipError::MissingEnd => ClipFault::MissingEnd,
            ClipError::InvalidMerge { line } => ClipFault::InvalidMerge { line: line@ },
            ClipError::TooManyMerges => ClipFault::TooManyMerges,
            ClipError::DuplicateMerge { first, second } => ClipFault::DuplicateMerge {
                first: first@,
                second: second@,
            },
            ClipError::EmptyMerges => ClipFault::EmptyMerges,
        }
    }
}

impl ClipFault {
    /// The message for people.
    pub open spec fn text(self) -> Seq<char> {
        match self {
            ClipFault::InvalidVocabulary => "invalid CLIP vocabulary"@,
            ClipFault::EmptyVocabulary => "CLIP vocabulary is empty"@,
            ClipFault::MissingStart => "CLIP vocabulary is missing <|startoftext|>"@,
            ClipFault::MissingEnd => "CLIP vocabulary is missing <|endoftext|>"@,
            ClipFault::InvalidMerge { line } => "invalid CLIP merge line: "@ + line,
            ClipFault::TooManyMerges => "too many CLIP merges"@,
            ClipFault::DuplicateMerge { first, second } => "duplicate CLIP merge pair: "@ + first
                + " "@ + second,
            ClipFault::EmptyMerges => "CLIP merge table is empty"@,
        }
    }
}

impl ClipError {
    /// The message for people.
    pub fn message(&self) -> (message: String)
        ensures
            message@ == self@.text(),
    {
        let mut out = String::new();
        match self {
            ClipError::InvalidVocabulary => {
                out.append("invalid CLIP vocabulary");
            },
            ClipError::EmptyVocabulary => {
                out.append("CLIP vocabulary is empty");
            },
            ClipError::MissingStart => {
                out.append("CLIP vocabulary is missing <|startoftext|>");
            },
            ClipError::MissingEnd => {
                out.append("CLIP vocabulary is missing <|endoftext|>");
            },
            ClipError::InvalidMerge { line } => {
                out.append("invalid CLIP merge line: ");
                out.append(line.as_str());
            },
            ClipError::TooManyMerges => {
                out.append("too many CLIP merges");
            },
            ClipError::DuplicateMerge { first, second } => {
                out.append("duplicate CLIP merge pair: ");
                out.append(first.as_str());
                out.append(" ");
                out.append(second.as_str());
            },
            ClipError::EmptyMerges => {
                out.append("CLIP merge table is empty");
            },
        }
        out
    }
}

/// The identifiers of a vocabulary's entries.
pub open spec fn ids_of(entries: Seq<(Seq<char>, u32)>) -> Map<Seq<char>, u32>
    decreases entries.len(),
{
    if entries.len() == 0 {
        Map::empty()
    } else {
        ids_of(entries.drop_last()).insert(entries.last().0, entries.last().1)
    }
}

/// The pairs of a merge table, lowest rank first; or what is wrong with it. Empty lines, comments
/// and lines of one field are passed over.
pub open spec fn pairs_of(lines: Seq<Seq<char>>) -> Result<
    Seq<(Seq<char>, Seq<char>)>,
    ClipFault,
>
    decreases lines.len(),
{
    if lines.len() == 0 {
        Ok(Seq::empty())
    } else {
        match pairs_of(lines.drop_last()) {
            Err(fault) => Err(fault),
            Ok(pairs) => {
                let parts = fields::fields(lines.last(), 0);
                if parts.len() < 2 || parts[0][0] == '#' {
                    Ok(pairs)
                } else if parts.len() > 2 {
                    Err(ClipFault::InvalidMerge { line: fields::trimmed(lines.last()) })
                } else if pairs.len() > u32::MAX {
                    Err(ClipFault::TooManyMerges)
                } else if pairs.contains((parts[0], parts[1])) {
                    Err(ClipFault::DuplicateMerge { first: parts[0], second: parts[1] })
                } else {
                    Ok(pairs.push((parts[0], parts[1])))
                }
            },
        }
    }
}

/// The ranks of pairs: their places in the table.
pub open spec fn ranks_of(pairs: Seq<(Seq<char>, Seq<char>)>) -> bpe::Ranks
    decreases pairs.len(),
{
    if pairs.len() == 0 {
        Map::empty()
    } else {
        ranks_of(pairs.drop_last()).insert(pairs.last(), (pairs.len() - 1) as u32)
    }
}

proof fn lemma_ranks_of(pairs: Seq<(Seq<char>, Seq<char>)>, pair: (Seq<char>, Seq<char>))
    ensures
        ranks_of(pairs).contains_key(pair) <==> pairs.contains(pair),
    decreases pairs.len(),
{
    if pairs.len() > 0 {
        lemma_ranks_of(pairs.drop_last(), pair);
        if pairs.contains(pair) && pair != pairs.last() {
            let i = choose|i: int| 0 <= i < pairs.len() && pairs[i] == pair;
            assert(pairs.drop_last()[i] == pair);
        }
        if pairs.drop_last().contains(pair) {
            let i = choose|i: int|
                0 <= i < pairs.drop_last().len() && pairs.drop_last()[i] == pair;
            assert(pairs[i] == pair);
        }
        assert(pairs[pairs.len() - 1] == pairs.last());
    }
}

proof fn lemma_pairs_prefix(lines: Seq<Seq<char>>, n: int)
    requires
        0 <= n <= lines.len(),
        pairs_of(lines.take(n)) is Err,
    ensures
        pairs_of(lines) == pairs_of(lines.take(n)),
    decreases lines.len(),
{
    if n == lines.len() {
        assert(lines.take(n) =~= lines);
    } else {
        assert(lines.drop_last().take(n) =~= lines.take(n));
        lemma_pairs_prefix(lines.drop_last(), n);
    }
}

/// What a tokenizer knows.
pub struct ClipLexicon {
    pub ids: Map<Seq<char>, u32>,
    pub ranks: bpe::Ranks,
    pub bos: u32,
    pub eos: u32,
}

/// The tokenizer of a vocabulary's entries, if there are any to read, and a merge table; or what is
/// wrong with them.
pub open spec fn lexicon_of(
    entries: Option<Seq<(Seq<char>, u32)>>,
    merges: Seq<char>,
) -> Result<ClipLexicon, ClipFault> {
    match entries {
        None => Err(ClipFault::InvalidVocabulary),
        Some(entries) => if entries.len() == 0 {
            Err(ClipFault::EmptyVocabulary)
        } else if !ids_of(entries).contains_key("<|startoftext|>"@) {
            Err(ClipFault::MissingStart)
        } else if !ids_of(entries).contains_key("<|endoftext|>"@) {
            Err(ClipFault::MissingEnd)
        } else {
            match pairs_of(fields::split(merges, '\n')) {
                Err(fault) => Err(fault),
                Ok(pairs) => if pairs.len() == 0 {
                    Err(ClipFault::EmptyMerges)
                } else {
                    Ok(
                        ClipLexicon {
                            ids: ids_of(entries),
                            ranks: ranks_of(pairs),
                            bos: ids_of(entries)["<|startoftext|>"@],
                            eos: ids_of(entries)["<|endoftext|>"@],
                        },
                    )
                },
            }
        },
    }
}

impl ClipLexicon {
    /// The identifier of a symbol; the end token stands for a symbol that is not known.
    pub open spec fn id(self, symbol: Seq<char>) -> u32 {
        if self.ids.contains_key(symbol) {
            self.ids[symbol]
        } else {
            self.eos
        }
    }

    /// The identifiers of a token.
    pub open spec fn token_ids(self, token: Seq<char>) -> Seq<u32> {
        let word = merged(self.ranks, marked(tokenizer::spelled(token)));
        Seq::new(word.len(), |i: int| self.id(word[i]))
    }

    /// The identifiers of tokens, one token after the other.
    pub open spec fn all_ids(self, pieces: Seq<Seq<char>>) -> Seq<u32>
        decreases pieces.len(),
    {
        if pieces.len() == 0 {
            Seq::empty()
        } else {
            self.all_ids(pieces.drop_last()) + self.token_ids(pieces.last())
        }
    }

    /// Identifiers framed to the context: the start token, at most 75 identifiers, and end tokens.
    pub open spec fn framed(self, ids: Seq<u32>) -> Seq<u32> {
        Seq::new(
            77,
            |i: int|
                if i == 0 {
                    self.bos
                } else if i <= ids.len() && i < 76 {
                    ids[i - 1]
                } else {
                    self.eos
                },
        )
    }

    /// A prompt, encoded.
    pub open spec fn encode(self, prompt: Seq<char>) -> Seq<u32> {
        self.framed(self.all_ids(tokens(normalized(prompt), 0)))
    }
}

/// Every prompt fills the context: the start token comes first, the end token last, and after the
/// prompt's own identifiers there are end tokens only.
pub proof fn prompts_fill_the_context(lexicon: ClipLexicon, prompt: Seq<char>)
    ensures
        lexicon.encode(prompt).len() == 77,
        lexicon.encode(prompt)[0] == lexicon.bos,
        lexicon.encode(prompt)[76] == lexicon.eos,
        forall|i: int|
            lexicon.all_ids(tokens(normalized(prompt), 0)).len() < i < 77 ==> (
            #[trigger] lexicon.encode(prompt)[i]) == lexicon.eos,
{
}

/// Only the first 75 identifiers of a prompt matter.
pub proof fn long_prompts_are_cut(lexicon: ClipLexicon, ids: Seq<u32>, more: Seq<u32>)
    requires
        ids.len() >= 75,
    ensures
        lexicon.framed(ids + more) == lexicon.framed(ids),
{
    assert(lexicon.framed(ids + more) =~= lexicon.framed(ids));
}

/// A CLIP tokenizer.
pub struct ClipTokenizer {
    token_to_id: StringHashMap<u32>,
    merges: PairMap,
    byte_to_unicode: Vec<char>,
    bos_id: u32,
    eos_id: u32,
}

impl View for ClipTokenizer {
    type V = ClipLexicon;

    closed spec fn view(&self) -> ClipLexicon {
        ClipLexicon {
            ids: self.token_to_id@,
            ranks: self.merges@,
            bos: self.bos_id,
            eos: self.eos_id,
        }
    }
}

/// The identifiers of a vocabulary's entries.
fn collect_ids(entries: &[(String, u32)]) -> (ids: StringHashMap<u32>)
    ensures
        ids@ == ids_of(json::numbers_data(entries@)),
{
    let ghost all = json::numbers_data(entries@);
    let mut ids: StringHashMap<u32> = StringHashMap::new();
    let mut i: usize = 0;
    proof {
        assert(all.take(0) =~= Seq::empty());
    }
    while i < entries.len()
        invariant
            i <= entries@.len(),
            all == json::numbers_data(entries@),
            ids@ == ids_of(all.take(i as int)),
        decreases entries.len() - i,
    {
        proof {
            assert(all.take(i + 1).drop_last() =~= all.take(i as int));
            assert(all.take(i + 1).last() == all[i as int]);
        }
        ids.insert(entries[i].0.clone(), entries[i].1);
        i = i + 1;
    }
    proof {
        assert(all.take(all.len() as int) =~= all);
    }
    ids
}

/// The ranks of a merge table, and how many there are.
fn read_merges(merges: &str) -> (result: Result<(PairMap, usize), ClipError>)
    ensures
        match pairs_of(fields::split(merges@, '\n')) {
            Ok(pairs) => {
                &&& result is Ok
                &&& result->Ok_0.0.wf() && result->Ok_0.0@ == ranks_of(pairs)
                &&& result->Ok_0.1 == pairs.len()
            },
            Err(fault) => result is Err && result->Err_0@ == fault,
        },
{
    let lines = split_on(&chars_of(merges), '\n');
    let ghost all = bpe::texts(lines@);
    let mut table = PairMap::new();
    let mut count: usize = 0;
    let ghost mut pairs: Seq<(Seq<char>, Seq<char>)> = Seq::empty();
    let mut i: usize = 0;
    proof {
        assert(all.take(0) =~= Seq::empty());
    }
    while i < lines.len()
        invariant
            i <= lines@.len(),
            all == bpe::texts(lines@),
            all == fields::split(merges@, '\n'),
            pairs_of(all.take(i as int)) == Ok::<_, ClipFault>(pairs),
            table.wf(),
            table@ == ranks_of(pairs),
            count == pairs.len() <= i,
        decreases lines.len() - i,
    {
        let ghost part = all.take(i + 1);
        proof {
            assert(part.drop_last() =~= all.take(i as int));
            assert(part.last() == lines@[i as int]@);
            if pairs_of(part) is Err {
                lemma_pairs_prefix(all, i + 1);
            }
        }
        let line = chars_of(lines[i].as_str());
        let parts = split_whitespace(&line);
        let ghost found = fields::fields(line@, 0);
        proof {
            assert(bpe::texts(parts@) == found);
            if found.len() > 0 {
                lemma_first_field(line@);
                assert(parts@[0]@ == found[0]);
            }
            if found.len() > 1 {
                assert(parts@[1]@ == found[1]);
            }
        }
        if parts.len() >= 2 && parts[0].as_str().get_char(0) != '#' {
            if parts.len() > 2 {
                return Err(ClipError::InvalidMerge { line: trim(&line) });
            }
            if count > u32::MAX as usize {
                return Err(ClipError::TooManyMerges);
            }
            proof {
                lemma_ranks_of(pairs, (parts@[0]@, parts@[1]@));
            }
            if table.get(parts[0].as_str(), parts[1].as_str()).is_some() {
                return Err(
                    ClipError::DuplicateMerge { first: parts[0].clone(), second: parts[1].clone() },
                );
            }
            table.insert(parts[0].clone(), parts[1].clone(), count as u32);
            proof {
                let next = pairs.push((parts@[0]@, parts@[1]@));
                assert(next.drop_last() =~= pairs);
                pairs = next;
            }
            count = count + 1;
        }
        i = i + 1;
    }
    proof {
        assert(all.take(all.len() as int) =~= all);
    }
    Ok((table, count))
}

/// A field is not empty.
proof fn lemma_first_field(line: Seq<char>)
    ensures
        fields::fields(line, 0).len() > 0 ==> fields::fields(line, 0)[0].len() > 0,
{
    let start = fields::gap(line, 0);
    fields::lemma_gap_and_run(line, 0);
    if start < line.len() {
        fields::lemma_gap_and_run(line, start);
    }
}

impl ClipTokenizer {
    /// The tables are those of the tokenizer's view.
    pub closed spec fn wf(&self) -> bool {
        &&& self.merges.wf()
        &&& byte_chars::is_byte_table(self.byte_to_unicode@)
    }

    /// Reads a tokenizer from the text of its vocabulary, a JSON object of identifiers, and of its
    /// merge table.
    pub fn from_texts(vocabulary_text: &str, merges_text: &str) -> (result: Result<
        Self,
        ClipError,
    >)
        ensures
            match lexicon_of(json::json_numbers(vocabulary_text@), merges_text@) {
                Ok(lexicon) => result is Ok && result->Ok_0.wf() && result->Ok_0@ == lexicon,
                Err(fault) => result is Err && result->Err_0@ == fault,
            },
    {
        match json::parse_numbers(vocabulary_text) {
            Some(entries) => ClipTokenizer::from_entries(&entries, merges_text),
            None => Err(ClipError::InvalidVocabulary),
        }
    }

    /// Makes a tokenizer of the entries of a vocabulary and the text of a merge table.
    pub fn from_entries(entries: &[(String, u32)], merges_text: &str) -> (result: Result<
        Self,
        ClipError,
    >)
        ensures
            match lexicon_of(Some(json::numbers_data(entries@)), merges_text@) {
                Ok(lexicon) => result is Ok && result->Ok_0.wf() && result->Ok_0@ == lexicon,
                Err(fault) => result is Err && result->Err_0@ == fault,
            },
    {
        if entries.len() == 0 {
            return Err(ClipError::EmptyVocabulary);
        }
        let token_to_id = collect_ids(entries);
        let bos_id: u32 = match token_to_id.get("<|startoftext|>") {
            Some(id) => *id,
            None => {
                return Err(ClipError::MissingStart);
            },
        };
        let eos_id: u32 = match token_to_id.get("<|endoftext|>") {
            Some(id) => *id,
            None => {
                return Err(ClipError::MissingEnd);
            },
        };
        let merges = match read_merges(merges_text) {
            Ok((merges, count)) => {
                if count == 0 {
                    return Err(ClipError::EmptyMerges);
                }
                merges
            },
            Err(error) => {
                return Err(error);
            },
        };
        let (byte_to_unicode, _) = build_byte_unicode_tables();
        Ok(ClipTokenizer { token_to_id, merges, byte_to_unicode, bos_id, eos_id })
    }

    /// The symbols of a token after merging.
    pub fn bpe(&self, token: &str) -> (word: Vec<String>)
        requires
            self.wf(),
        ensures
            bpe::texts(word@) == merged(self@.ranks, marked(token@)),
    {
        merge_token(&self.merges, &chars_of(token))
    }

    /// Encodes a prompt to the fixed context.
    pub fn encode(&self, prompt: &str) -> (ids: [u32; 77])
        requires
            self.wf(),
        ensures
            ids@ == self@.encode(prompt@),
    {
        let pieces = pre_tokenize(prompt);
        let ghost all = bpe::texts(pieces@);
        let ghost total = self@.all_ids(all);
        let mut out: [u32; 77] = [self.eos_id; 77];
        out[0] = self.bos_id;
        let mut len: usize = 1;
        let ghost mut known: Seq<u32> = Seq::empty();
        let mut i: usize = 0;
        proof {
            assert(all.take(0) =~= Seq::empty());
        }
        while i < pieces.len() && len < 76
            invariant
                self.wf(),
                i <= pieces@.len(),
                all == bpe::texts(pieces@),
                1 <= len <= 76,
                known == self@.all_ids(all.take(i as int)),
                len - 1 == if known.len() < 75 {
                    known.len() as int
                } else {
                    75
                },
                out@ =~= self@.framed(known),
            decreases pieces.len() - i,
        {
            proof {
                assert(all.take(i + 1).drop_last() =~= all.take(i as int));
            }
            let bytes = pieces[i].as_str().as_bytes();
            let mut token: Vec<char> = Vec::with_capacity(bytes.len());
            let mut j: usize = 0;
            while j < bytes.len()
                invariant
                    self.wf(),
                    j <= bytes@.len(),
                    token@.len() == j,
                    forall|k: int| 0 <= k < j ==> token@[k] == byte_chars::byte_char(bytes@[k]),
                decreases bytes.len() - j,
            {
                token.push(self.byte_to_unicode[bytes[j] as usize]);
                j = j + 1;
            }
            proof {
                assert(token@ =~= tokenizer::spelled(all[i as int]));
            }
            let word = merge_token(&self.merges, &token);
            let ghost fresh = self@.token_ids(all[i as int]);
            let mut k: usize = 0;
            proof {
                assert(known + fresh.take(0) =~= known);
            }
            while k < word.len() && len < 76
                invariant
                    self.wf(),
                    k <= word@.len() == fresh.len(),
                    forall|m: int| 0 <= m < fresh.len() ==> #[trigger] fresh[m] == self@.id(
                        word@[m]@,
                    ),
                    1 <= len <= 76,
                    len - 1 == if known.len() + k < 75 {
                        (known.len() + k) as int
                    } else {
                        75
                    },
                    out@ =~= self@.framed(known + fresh.take(k as int)),
                decreases word.len() - k,
            {
                let id: u32 = match self.token_to_id.get(word[k].as_str()) {
                    Some(id) => *id,
                    None => self.eos_id,
                };
                out[len] = id;
                proof {
                    assert(id == fresh[k as int]);
                    assert((known + fresh.take(k + 1))[len - 1] == id);
                }
                len = len + 1;
                k = k + 1;
            }
            proof {
                if k == word@.len() {
                    assert(fresh.take(k as int) =~= fresh);
                } else {
                    assert(known + fresh =~= (known + fresh.take(k as int)) + fresh.skip(k as int));
                    long_prompts_are_cut(
                        self@,
                        known + fresh.take(k as int),
                        fresh.skip(k as int),
                    );
                }
                known = known + fresh;
            }
            i = i + 1;
        }
        proof {
            if i == pieces@.len() {
                assert(all.take(i as int) =~= all);
            } else {
                lemma_all_ids_prefix(self@, all, i as int);
                long_prompts_are_cut(self@, known, total.skip(known.len() as int));
                assert(total =~= known + total.skip(known.len() as int));
            }
        }
        out
    }
}

/// The identifiers of the first tokens are the first identifiers.
proof fn lemma_all_ids_prefix(lexicon: ClipLexicon, pieces: Seq<Seq<char>>, n: int)
    requires
        0 <= n <= pieces.len(),
    ensures
        lexicon.all_ids(pieces.take(n)).len() <= lexicon.all_ids(pieces).len(),
        lexicon.all_ids(pieces).take(lexicon.all_ids(pieces.take(n)).len() as int)
            == lexicon.all_ids(pieces.take(n)),
    decreases pieces.len(),
{
    let part = lexicon.all_ids(pieces.take(n));
    if n == pieces.len() {
        assert(pieces.take(n) =~= pieces);
        assert(part.take(part.len() as int) =~= part);
    } else {
        assert(pieces.drop_last().take(n) =~= pieces.take(n));
        lemma_all_ids_prefix(lexicon, pieces.drop_last(), n);
        let init = lexicon.all_ids(pieces.drop_last());
        assert(lexicon.all_ids(pieces).take(part.len() as int) =~= init.take(part.len() as int));
    }
}

} // verus!
