//! Where the words of a text begin and end, told from neighbouring characters alone.

use vstd::prelude::*;
use crate::bpe;
use crate::tokenizer;
use crate::unicode;

verus! {

/// Two neighbours stay in one word: a letter after a letter or a space, or a digit after a digit.
pub open spec fn stay_together(before: char, after: char) -> bool {
    ||| unicode::alphabetic(after) && (unicode::alphabetic(before) || before == ' ')
    ||| unicode::ascii_digit(before) && unicode::ascii_digit(after)
}

/// One of the pieces begins, or the last one ends, after `i` characters of the text that they
/// make.
pub open spec fn breaks_at(pieces: Seq<Seq<char>>, i: int) -> bool {
    exists|k: int|
        0 <= k <= pieces.len() && #[trigger] bpe::joined(pieces.take(k)).len() == i
}

/// A run of letters is made of letters, and none follows it.
proof fn lemma_letters(text: Seq<char>, from: int)
    requires
        0 <= from <= text.len(),
    ensures
        0 <= tokenizer::letters(text, from) <= text.len() - from,
        forall|i: int|
            from <= i < from + tokenizer::letters(text, from) ==> unicode::alphabetic(
                #[trigger] text[i],
            ),
        from + tokenizer::letters(text, from) < text.len() ==> !unicode::alphabetic(
            text[from + tokenizer::letters(text, from)],
        ),
    decreases text.len() - from,
{
    if from < text.len() && unicode::alphabetic(text[from]) {
        lemma_letters(text, from + 1);
    }
}

/// A run of digits is made of digits, and none follows it.
proof fn lemma_digits(text: Seq<char>, from: int)
    requires
        0 <= from <= text.len(),
    ensures
        0 <= tokenizer::digits(text, from) <= text.len() - from,
        forall|i: int|
            from <= i < from + tokenizer::digits(text, from) ==> unicode::ascii_digit(
                #[trigger] text[i],
            ),
        from + tokenizer::digits(text, from) < text.len() ==> !unicode::ascii_digit(
            text[from + tokenizer::digits(text, from)],
        ),
    decreases text.len() - from,
{
    if from < text.len() && unicode::ascii_digit(text[from]) {
        lemma_digits(text, from + 1);
    }
}

/// The characters of a word stay together, and the one after it does not.
proof fn lemma_word(text: Seq<char>, from: int)
    requires
        0 <= from < text.len(),
    ensures
        from < tokenizer::word_end(text, from) <= text.len(),
        forall|i: int|
            from < i < tokenizer::word_end(text, from) ==> #[trigger] stay_together(
                text[i - 1],
                text[i],
            ),
        tokenizer::word_end(text, from) < text.len() ==> !stay_together(
            text[tokenizer::word_end(text, from) - 1],
            text[tokenizer::word_end(text, from)],
        ),
{
    lemma_letters(text, from);
    lemma_letters(text, from + 1);
    lemma_digits(text, from);
    lemma_digits(text, from + 1);
    let end = tokenizer::word_end(text, from);
    assert forall|i: int| from < i < end implies #[trigger] stay_together(text[i - 1], text[i]) by {
        assert(text[i] == text[i]);
        if i - 1 > from {
            assert(text[i - 1] == text[i - 1]);
        }
    }
    if end < text.len() && end - 1 > from {
        assert(text[end - 1] == text[end - 1]);
    }
}

/// The breaks of one piece and more: those of the rest, moved, and the beginning.
proof fn lemma_breaks(first: Seq<char>, rest: Seq<Seq<char>>, i: int)
    ensures
        breaks_at(seq![first] + rest, i) <==> i == 0 || breaks_at(rest, i - first.len()),
{
    let all = seq![first] + rest;
    assert(bpe::joined(seq![first]) =~= first) by {
        reveal_with_fuel(bpe::joined, 2);
        assert(seq![first].drop_last() =~= Seq::empty());
    }
    assert forall|k: int| 0 <= k <= rest.len() implies #[trigger] bpe::joined(all.take(k + 1)).len()
        == first.len() + bpe::joined(rest.take(k)).len() by {
        assert(all.take(k + 1) =~= seq![first] + rest.take(k));
        bpe::lemma_joined_add(seq![first], rest.take(k));
    }
    assert(all.take(0) =~= Seq::empty());
    assert(bpe::joined(all.take(0)).len() == 0);
    if breaks_at(all, i) {
        let k = choose|k: int|
            0 <= k <= all.len() && #[trigger] bpe::joined(all.take(k)).len() == i;
        if k > 0 {
            assert(bpe::joined(all.take((k - 1) + 1)).len() == first.len() + bpe::joined(
                rest.take(k - 1),
            ).len());
        }
    }
    if breaks_at(rest, i - first.len()) {
        let k = choose|k: int|
            0 <= k <= rest.len() && #[trigger] bpe::joined(rest.take(k)).len() == i - first.len();
        assert(bpe::joined(all.take(k + 1)).len() == i);
    }
}

/// The words from a place on, where a word begins.
proof fn lemma_words(text: Seq<char>, from: int, i: int)
    requires
        0 <= from < i < text.len(),
    ensures
        breaks_at(tokenizer::words(text, from), i - from) <==> !stay_together(text[i - 1], text[i]),
    decreases text.len() - from,
{
    lemma_word(text, from);
    let end = tokenizer::word_end(text, from);
    let first = text.subrange(from, end);
    let rest = tokenizer::words(text, end);
    lemma_breaks(first, rest, i - from);
    if i < end {
        assert(stay_together(text[i - 1], text[i]));
        if breaks_at(rest, i - end) {
            let k = choose|k: int|
                0 <= k <= rest.len() && #[trigger] bpe::joined(rest.take(k)).len() == i - end;
            assert(false);
        }
    } else if i == end {
        assert(rest.take(0) =~= Seq::empty());
        assert(bpe::joined(rest.take(0)).len() == 0);
        assert(breaks_at(rest, 0));
    } else {
        lemma_words(text, end, i);
    }
}

/// A word ends between two neighbours exactly where they do not stay together: no word ends between
/// a space and the letter after it, between two letters or between two digits, and everywhere else
/// one does.
pub proof fn words_end_between_neighbours(text: Seq<char>, i: int)
    requires
        0 < i < text.len(),
    ensures
        breaks_at(tokenizer::words(text, 0), i) <==> !stay_together(text[i - 1], text[i]),
{
    lemma_words(text, 0, i);
}

/// Any other list of words that makes the text and ends its words between the same neighbours is
/// the same list: where words end is all there is to say of them.
pub proof fn words_are_determined(text: Seq<char>, other: Seq<Seq<char>>)
    requires
        bpe::joined(other) == text,
        forall|k: int| 0 <= k < other.len() ==> (#[trigger] other[k]).len() > 0,
        forall|i: int|
            0 < i < text.len() ==> (#[trigger] breaks_at(other, i) <==> !stay_together(
                text[i - 1],
                text[i],
            )),
    ensures
        other == tokenizer::words(text, 0),
{
    assert(text.skip(0) =~= text);
    assert forall|i: int| 0 < i < text.len() - 0 implies (#[trigger] breaks_at(other, i)
        <==> !stay_together(text[0 + i - 1], text[0 + i])) by {}
    lemma_determined(text, 0, other);
}

proof fn lemma_determined(text: Seq<char>, from: int, other: Seq<Seq<char>>)
    requires
        0 <= from <= text.len(),
        bpe::joined(other) == text.skip(from),
        forall|k: int| 0 <= k < other.len() ==> (#[trigger] other[k]).len() > 0,
        forall|i: int|
            0 < i < text.len() - from ==> (#[trigger] breaks_at(other, i) <==> !stay_together(
                text[from + i - 1],
                text[from + i],
            )),
    ensures
        other == tokenizer::words(text, from),
    decreases text.len() - from,
{
    if other.len() == 0 {
        assert(text.skip(from).len() == 0);
    } else {
        let first = other[0];
        let rest = other.skip(1);
        assert(other =~= seq![first] + rest);
        assert(bpe::joined(seq![first]) =~= first) by {
            reveal_with_fuel(bpe::joined, 2);
            assert(seq![first].drop_last() =~= Seq::empty());
        }
        bpe::lemma_joined_add(seq![first], rest);
        assert(first.len() > 0);
        let end = from + first.len();
        assert(text.skip(from) == first + bpe::joined(rest));
        assert(text.skip(from).len() == text.len() - from);
        assert(end <= text.len());
        lemma_word(text, from);
        let e = tokenizer::word_end(text, from);
        assert forall|i: int| breaks_at(other, i) <==> i == 0 || #[trigger] breaks_at(
            rest,
            i - first.len(),
        ) by {
            lemma_breaks(first, rest, i);
        }
        assert(rest.take(0) =~= Seq::empty());
        assert(bpe::joined(rest.take(0)).len() == 0);
        assert(breaks_at(rest, 0));
        lemma_breaks(first, rest, first.len() as int);
        if end < e {
            assert(stay_together(text[end - 1], text[end]));
            assert(!breaks_at(other, end - from));
        }
        if e < end {
            lemma_breaks(first, rest, e - from);
            assert(breaks_at(other, e - from));
            let k = choose|k: int|
                0 <= k <= rest.len() && #[trigger] bpe::joined(rest.take(k)).len() == e - from
                    - first.len();
            assert(false);
        }
        assert(first =~= text.subrange(from, e)) by {
            assert(text.skip(from).take(first.len() as int) =~= first);
            assert(text.skip(from).take(first.len() as int) =~= text.subrange(from, end));
        }
        assert(bpe::joined(rest) =~= text.skip(e)) by {
            assert((first + bpe::joined(rest)).skip(first.len() as int) =~= bpe::joined(rest));
            assert(text.skip(from).skip(first.len() as int) =~= text.skip(e));
        }
        assert forall|k: int| 0 <= k < rest.len() implies (#[trigger] rest[k]).len() > 0 by {
            assert(rest[k] == other[k + 1]);
        }
        assert forall|i: int| 0 < i < text.len() - e implies (#[trigger] breaks_at(rest, i)
            <==> !stay_together(text[e + i - 1], text[e + i])) by {
            lemma_breaks(first, rest, i + first.len());
            assert(breaks_at(other, i + first.len()) <==> !stay_together(
                text[from + (i + first.len()) - 1],
                text[from + (i + first.len())],
            ));
        }
        lemma_determined(text, e, rest);
    }
}

} // verus!
