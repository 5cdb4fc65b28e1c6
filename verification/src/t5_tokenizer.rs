//! The Unigram tokenizer of the UMT5 text encoder.
//!
//! Of all ways to cut a text into pieces of the vocabulary, the one with the greatest sum of scores
//! is taken. Scores are single-precision bit patterns; their addition is supplied by the caller.

use vstd::prelude::*;
use vstd::hash_map::StringHashMap;
use crate::bpe;
use crate::float_order;
use crate::float_order::{is_greater, NEG_INFINITY};
use crate::fold;
use crate::gguf;
use crate::gguf::{GgufFile, GgufValue};
use crate::text::{chars_of, string_of};
use crate::tokenizer;
use crate::tokenizer::{collect_texts, SPACE};

verus! {

broadcast use vstd::string::group_string_axioms;

/// What an unknown character costs: the bit pattern of -100.
pub const UNKNOWN_COST: u32 = 0xc2c8_0000;

/// The best way to cut a prefix of a text: its score, where its last piece starts, and that piece's
/// identifier.
#[derive(Clone, Copy, Debug, PartialEq, Eq, Structural)]
pub struct Cell {
    pub score: u32,
    pub prev: usize,
    pub id: u32,
}

/// What a tokenizer knows.
pub struct T5Lexicon {
    pub pieces: Map<Seq<char>, (u32, u32)>,
    pub eos: u32,
    pub pad: u32,
    pub unk: u32,
    pub add_eos: bool,
    pub add_space_prefix: bool,
}

/// No way to cut the prefix is known.
pub open spec fn no_way() -> Cell {
    Cell { score: NEG_INFINITY, prev: 0, id: 0 }
}

impl T5Lexicon {
    /// The best cell for the prefix after `before`, when the last piece may start at the first
    /// `count` places. Of equal scores the first place counts.
    pub open spec fn scanned<F: Fn(u32, u32) -> u32>(
        self,
        plus: F,
        text: Seq<char>,
        before: Seq<Cell>,
        count: nat,
    ) -> Cell
        decreases count,
    {
        if count == 0 {
            no_way()
        } else {
            let cell = self.scanned(plus, text, before, (count - 1) as nat);
            let start = count - 1;
            let piece = text.subrange(start, before.len() as int);
            if before[start].score == NEG_INFINITY || !self.pieces.contains_key(piece) {
                cell
            } else {
                let (id, score) = self.pieces[piece];
                let sum = fold::applied2(plus, before[start].score, score);
                if float_order::greater(sum, cell.score) {
                    Cell { score: sum, prev: start as usize, id }
                } else {
                    cell
                }
            }
        }
    }

    /// The best cell for the prefix after `before`: where no piece ends there, its last character
    /// is unknown.
    pub open spec fn extended<F: Fn(u32, u32) -> u32>(
        self,
        plus: F,
        text: Seq<char>,
        before: Seq<Cell>,
    ) -> Cell {
        let cell = self.scanned(plus, text, before, before.len());
        if cell.score == NEG_INFINITY && before.last().score != NEG_INFINITY {
            Cell {
                score: fold::applied2(plus, before.last().score, UNKNOWN_COST),
                prev: (before.len() - 1) as usize,
                id: self.unk,
            }
        } else {
            cell
        }
    }

    /// The best cells for the prefixes of up to `n` characters.
    pub open spec fn lattice<F: Fn(u32, u32) -> u32>(
        self,
        plus: F,
        text: Seq<char>,
        n: nat,
    ) -> Seq<Cell>
        decreases n,
    {
        if n == 0 {
            seq![Cell { score: 0, prev: 0, id: 0 }]
        } else {
            let before = self.lattice(plus, text, (n - 1) as nat);
            before.push(self.extended(plus, text, before))
        }
    }

    /// The identifiers of the best way to cut a text.
    pub open spec fn viterbi<F: Fn(u32, u32) -> u32>(self, plus: F, text: Seq<char>) -> Seq<u32> {
        path(self.lattice(plus, text, text.len()), text.len() as int)
    }

    /// A text with its spaces made visible, and one put in front where the vocabulary asks for it.
    pub open spec fn normalize(self, text: Seq<char>) -> Seq<char> {
        if self.add_space_prefix && !(text.len() > 0 && text[0] == ' ') {
            seq![SPACE] + tokenizer::visible_spaces(text)
        } else {
            tokenizer::visible_spaces(text)
        }
    }

    /// A text, encoded.
    pub open spec fn encode<F: Fn(u32, u32) -> u32>(self, plus: F, text: Seq<char>) -> Seq<u32> {
        let ids = self.viterbi(plus, self.normalize(text));
        if self.add_eos {
            ids.push(self.eos)
        } else {
            ids
        }
    }

    /// Identifiers cut or padded to `len`; a cut keeps the end token.
    pub open spec fn padded(self, ids: Seq<u32>, len: nat) -> Seq<u32> {
        Seq::new(
            len,
            |i: int|
                if i >= ids.len() {
                    self.pad
                } else if ids.len() > len && i == len - 1 && self.add_eos {
                    self.eos
                } else {
                    ids[i]
                },
        )
    }

    /// The summed score of pieces, from the first to the last.
    pub open spec fn score<F: Fn(u32, u32) -> u32>(self, plus: F, parts: Seq<Seq<char>>) -> u32
        decreases parts.len(),
    {
        if parts.len() == 0 {
            0
        } else {
            fold::applied2(
                plus,
                self.score(plus, parts.drop_last()),
                self.pieces[parts.last()].1,
            )
        }
    }

    /// The summed score of parts of a text, from the first to the last: a part that is taken as a
    /// piece counts its score, and one that is taken as unknown what an unknown character costs.
    pub open spec fn worth<F: Fn(u32, u32) -> u32>(
        self,
        plus: F,
        parts: Seq<Seq<char>>,
        taken: Seq<bool>,
    ) -> u32
        decreases parts.len(),
    {
        if parts.len() == 0 {
            0
        } else {
            fold::applied2(
                plus,
                self.worth(plus, parts.drop_last(), taken.drop_last()),
                if taken.last() {
                    self.pieces[parts.last()].1
                } else {
                    UNKNOWN_COST
                },
            )
        }
    }

    /// The texts are pieces of the vocabulary, none of them empty.
    pub open spec fn knows(self, parts: Seq<Seq<char>>) -> bool {
        forall|i: int|
            0 <= i < parts.len() ==> self.pieces.contains_key(#[trigger] parts[i])
                && parts[i].len() > 0
    }

    /// Every score is finite.
    pub open spec fn finite_scores(self) -> bool {
        forall|piece: Seq<char>| #[trigger]
            self.pieces.contains_key(piece) ==> float_order::finite(self.pieces[piece].1)
    }
}

/// The identifiers on the way back from cell `at` to the start, in order of the text.
pub open spec fn path(cells: Seq<Cell>, at: int) -> Seq<u32>
    decreases at,
{
    if at <= 0 || cells[at].prev >= at {
        Seq::empty()
    } else {
        path(cells, cells[at].prev as int).push(cells[at].id)
    }
}

/// Addition as single-precision numbers have it, where the second number is finite: it gives a
/// number, keeps order, leaves negative infinity as it is, and the cost of an unknown character
/// never reaches it.
pub open spec fn orderly<F: Fn(u32, u32) -> u32>(plus: F) -> bool {
    &&& fold::function2(plus)
    &&& forall|a: u32, s: u32|
        !float_order::nan(a) && float_order::finite(s) ==> !float_order::nan(
            #[trigger] fold::applied2(plus, a, s),
        )
    &&& forall|a: u32, b: u32, s: u32|
        #![trigger fold::applied2(plus, a, s), fold::applied2(plus, b, s)]
        !float_order::nan(a) && !float_order::nan(b) && float_order::finite(s)
            && float_order::level(a) <= float_order::level(b) ==> float_order::level(
            fold::applied2(plus, a, s),
        ) <= float_order::level(fold::applied2(plus, b, s))
    &&& forall|s: u32|
        float_order::finite(s) ==> #[trigger] fold::applied2(plus, NEG_INFINITY, s) == NEG_INFINITY
    &&& forall|a: u32|
        !float_order::nan(a) && a != NEG_INFINITY ==> #[trigger] fold::applied2(
            plus,
            a,
            UNKNOWN_COST,
        ) != NEG_INFINITY
}

proof fn lemma_lattice_len<F: Fn(u32, u32) -> u32>(
    lexicon: T5Lexicon,
    plus: F,
    text: Seq<char>,
    n: nat,
)
    ensures
        lexicon.lattice(plus, text, n).len() == n + 1,
    decreases n,
{
    if n > 0 {
        lemma_lattice_len(lexicon, plus, text, (n - 1) as nat);
    }
}

/// A longer lattice starts with the shorter one.
proof fn lemma_lattice_prefix<F: Fn(u32, u32) -> u32>(
    lexicon: T5Lexicon,
    plus: F,
    text: Seq<char>,
    m: nat,
    n: nat,
)
    requires
        m <= n,
    ensures
        lexicon.lattice(plus, text, n).len() == n + 1,
        lexicon.lattice(plus, text, n).take((m + 1) as int) == lexicon.lattice(plus, text, m),
    decreases n,
{
    lemma_lattice_len(lexicon, plus, text, n);
    lemma_lattice_len(lexicon, plus, text, m);
    let all = lexicon.lattice(plus, text, n);
    if m == n {
        assert(all.take((m + 1) as int) =~= all);
    } else {
        lemma_lattice_prefix(lexicon, plus, text, m, (n - 1) as nat);
        let before = lexicon.lattice(plus, text, (n - 1) as nat);
        assert(all.take((m + 1) as int) =~= before.take((m + 1) as int));
    }
}

/// A scanned cell is a number no smaller than any candidate, and its last piece starts before it.
proof fn lemma_scanned<F: Fn(u32, u32) -> u32>(
    lexicon: T5Lexicon,
    plus: F,
    text: Seq<char>,
    before: Seq<Cell>,
    count: nat,
)
    requires
        orderly(plus),
        lexicon.finite_scores(),
        count <= before.len() <= text.len() <= usize::MAX,
        forall|i: int| 0 <= i < before.len() ==> !float_order::nan((#[trigger] before[i]).score),
    ensures
        ({
            let cell = lexicon.scanned(plus, text, before, count);
            &&& !float_order::nan(cell.score)
            &&& forall|start: int|
                #![trigger before[start]]
                {
                    let piece = text.subrange(start, before.len() as int);
                    0 <= start < count && lexicon.pieces.contains_key(piece)
                        ==> float_order::level(
                        fold::applied2(plus, before[start].score, lexicon.pieces[piece].1),
                    ) <= float_order::level(cell.score)
                }
            &&& cell.score != NEG_INFINITY ==> {
                let piece = text.subrange(cell.prev as int, before.len() as int);
                &&& cell.prev < count
                &&& lexicon.pieces.contains_key(piece)
                &&& cell.id == lexicon.pieces[piece].0
                &&& cell.score == fold::applied2(
                    plus,
                    before[cell.prev as int].score,
                    lexicon.pieces[piece].1,
                )
            }
            &&& cell.score == NEG_INFINITY ==> cell == no_way()
        }),
    decreases count,
{
    if count > 0 {
        lemma_scanned(lexicon, plus, text, before, (count - 1) as nat);
        let start = count - 1;
        let piece = text.subrange(start, before.len() as int);
        let cell = lexicon.scanned(plus, text, before, (count - 1) as nat);
        if lexicon.pieces.contains_key(piece) {
            let s = lexicon.pieces[piece].1;
            assert(float_order::finite(s));
            let sum = fold::applied2(plus, before[start].score, s);
            assert(!float_order::nan(sum));
            if before[start].score == NEG_INFINITY {
                assert(sum == NEG_INFINITY);
            }
        }
    }
}

/// Every cell holds a number; every cell but the first is reached from an earlier one, by a piece
/// of the vocabulary or by one unknown character.
proof fn lemma_cells<F: Fn(u32, u32) -> u32>(
    lexicon: T5Lexicon,
    plus: F,
    text: Seq<char>,
    n: nat,
)
    requires
        orderly(plus),
        lexicon.finite_scores(),
        n <= text.len() <= usize::MAX,
    ensures
        ({
            let cells = lexicon.lattice(plus, text, n);
            &&& cells.len() == n + 1
            &&& forall|i: int|
                0 <= i <= n ==> !float_order::nan((#[trigger] cells[i]).score) && cells[i].score
                    != NEG_INFINITY
            &&& forall|i: int|
                1 <= i <= n ==> (#[trigger] cells[i]).prev < i && lexicon.stands_for(
                    cells[i].id,
                    text.subrange(cells[i].prev as int, i),
                )
        }),
    decreases n,
{
    if n > 0 {
        lemma_cells(lexicon, plus, text, (n - 1) as nat);
        let before = lexicon.lattice(plus, text, (n - 1) as nat);
        lemma_scanned(lexicon, plus, text, before, before.len());
        let cell = lexicon.scanned(plus, text, before, before.len());
        let cells = lexicon.lattice(plus, text, n);
        assert(cells[n as int] == lexicon.extended(plus, text, before));
        assert(forall|i: int| 0 <= i < n ==> cells[i] == before[i]);
        if cell.score == NEG_INFINITY {
            assert(float_order::finite(UNKNOWN_COST));
            assert(before.last().score != NEG_INFINITY);
            assert(cells[n as int].prev == n - 1);
        }
    }
}

impl T5Lexicon {
    /// An identifier stands for a part of a text: it is the part's own, or the part is one
    /// character and the identifier is that of unknown ones.
    pub open spec fn stands_for(self, id: u32, part: Seq<char>) -> bool {
        ||| self.pieces.contains_key(part) && self.pieces[part].0 == id
        ||| part.len() == 1 && id == self.unk
    }

    /// Identifiers stand for the parts that they were taken for: a part that is taken as a piece has
    /// that identifier, and any other is one unknown character.
    pub open spec fn takes(self, ids: Seq<u32>, parts: Seq<Seq<char>>, taken: Seq<bool>) -> bool {
        &&& ids.len() == parts.len() == taken.len()
        &&& forall|i: int|
            0 <= i < ids.len() ==> if #[trigger] taken[i] {
                self.pieces.contains_key(parts[i]) && self.pieces[parts[i]].0 == ids[i]
            } else {
                parts[i].len() == 1 && ids[i] == self.unk
            }
    }

    /// Identifiers stand for consecutive parts that spell a text.
    pub open spec fn spells(self, ids: Seq<u32>, parts: Seq<Seq<char>>, text: Seq<char>) -> bool {
        &&& ids.len() == parts.len()
        &&& bpe::joined(parts) == text
        &&& forall|i: int|
            0 <= i < ids.len() ==> self.stands_for(#[trigger] ids[i], parts[i])
    }
}

/// The parts of the text that the identifiers on a path stand for.
pub open spec fn parts_of(cells: Seq<Cell>, text: Seq<char>, at: int) -> Seq<Seq<char>>
    decreases at,
{
    if at <= 0 || cells[at].prev >= at {
        Seq::empty()
    } else {
        parts_of(cells, text, cells[at].prev as int).push(
            text.subrange(cells[at].prev as int, at),
        )
    }
}

proof fn lemma_path_spells<F: Fn(u32, u32) -> u32>(
    lexicon: T5Lexicon,
    plus: F,
    text: Seq<char>,
    at: int,
)
    requires
        orderly(plus),
        lexicon.finite_scores(),
        0 <= at <= text.len() <= usize::MAX,
    ensures
        ({
            let cells = lexicon.lattice(plus, text, text.len());
            lexicon.spells(path(cells, at), parts_of(cells, text, at), text.take(at))
        }),
    decreases at,
{
    let cells = lexicon.lattice(plus, text, text.len());
    lemma_cells(lexicon, plus, text, text.len());
    if at == 0 {
        assert(text.take(0) =~= Seq::empty());
    } else {
        let prev = cells[at].prev as int;
        lemma_path_spells(lexicon, plus, text, prev);
        let part = text.subrange(prev, at);
        let before = parts_of(cells, text, prev);
        assert(before.push(part).drop_last() =~= before);
        assert(text.take(prev) + part =~= text.take(at));
    }
}

/// Whatever the scores are, the identifiers of a text stand for parts that spell it, in order:
/// pieces of the vocabulary, or single unknown characters.
pub proof fn identifiers_spell_the_text<F: Fn(u32, u32) -> u32>(
    lexicon: T5Lexicon,
    plus: F,
    text: Seq<char>,
) -> (parts: Seq<Seq<char>>)
    requires
        orderly(plus),
        lexicon.finite_scores(),
        text.len() <= usize::MAX,
    ensures
        lexicon.spells(lexicon.viterbi(plus, text), parts, text),
{
    lemma_path_spells(lexicon, plus, text, text.len() as int);
    assert(text.take(text.len() as int) =~= text);
    parts_of(lexicon.lattice(plus, text, text.len()), text, text.len() as int)
}

proof fn lemma_best<F: Fn(u32, u32) -> u32>(
    lexicon: T5Lexicon,
    plus: F,
    text: Seq<char>,
    parts: Seq<Seq<char>>,
)
    requires
        orderly(plus),
        lexicon.finite_scores(),
        text.len() <= usize::MAX,
        lexicon.knows(parts),
        bpe::joined(parts).len() <= text.len(),
        text.take(bpe::joined(parts).len() as int) == bpe::joined(parts),
    ensures
        !float_order::nan(lexicon.score(plus, parts)),
        float_order::level(lexicon.score(plus, parts)) <= float_order::level(
            lexicon.lattice(plus, text, bpe::joined(parts).len()).last().score,
        ),
    decreases parts.len(),
{
    if parts.len() > 0 {
        let init = parts.drop_last();
        let piece = parts.last();
        let end = bpe::joined(parts).len();
        let start = bpe::joined(init).len();
        assert(parts[parts.len() - 1] == piece);
        assert(lexicon.knows(init)) by {
            assert forall|i: int| 0 <= i < init.len() implies lexicon.pieces.contains_key(
                #[trigger] init[i],
            ) && init[i].len() > 0 by {
                assert(parts[i] == init[i]);
            }
        }
        assert(end == start + piece.len());
        assert(text.take(start as int) =~= bpe::joined(init)) by {
            assert(text.take(end as int).take(start as int) =~= text.take(start as int));
            assert(bpe::joined(parts).take(start as int) =~= bpe::joined(init));
        }
        assert(text.subrange(start as int, end as int) =~= piece) by {
            assert(text.take(end as int).skip(start as int) =~= text.subrange(
                start as int,
                end as int,
            ));
            assert(bpe::joined(parts).skip(start as int) =~= piece);
        }
        lemma_best(lexicon, plus, text, init);
        let before = lexicon.lattice(plus, text, (end - 1) as nat);
        lemma_cells(lexicon, plus, text, (end - 1) as nat);
        lemma_lattice_prefix(lexicon, plus, text, start, (end - 1) as nat);
        assert(before.take((start + 1) as int)[start as int] == before[start as int]);
        assert(before[start as int] == lexicon.lattice(plus, text, start).last());
        lemma_scanned(lexicon, plus, text, before, before.len());
        let s = lexicon.pieces[piece].1;
        assert(float_order::finite(s));
        let sum = fold::applied2(plus, before[start as int].score, s);
        let own = fold::applied2(plus, lexicon.score(plus, init), s);
        assert(float_order::level(own) <= float_order::level(sum));
        let cell = lexicon.scanned(plus, text, before, before.len());
        assert(float_order::level(sum) <= float_order::level(cell.score));
        let best = lexicon.lattice(plus, text, end).last();
        assert(best == lexicon.extended(plus, text, before));
        if cell.score == NEG_INFINITY {
            lemma_cells(lexicon, plus, text, end);
            assert(float_order::level(NEG_INFINITY) <= float_order::level(best.score));
        }
    }
}

/// Which parts on a path are taken as pieces of the vocabulary.
pub open spec fn taken_of<F: Fn(u32, u32) -> u32>(
    lexicon: T5Lexicon,
    plus: F,
    text: Seq<char>,
    at: int,
) -> Seq<bool>
    decreases at,
{
    let prev = lexicon.lattice(plus, text, at as nat)[at].prev;
    if at <= 0 || prev >= at {
        Seq::empty()
    } else {
        taken_of(lexicon, plus, text, prev as int).push(
            lexicon.scanned(
                plus,
                text,
                lexicon.lattice(plus, text, (at - 1) as nat),
                at as nat,
            ).score != NEG_INFINITY,
        )
    }
}

/// The score of a cell is that of the parts on its path.
proof fn lemma_worth<F: Fn(u32, u32) -> u32>(
    lexicon: T5Lexicon,
    plus: F,
    text: Seq<char>,
    at: int,
)
    requires
        orderly(plus),
        lexicon.finite_scores(),
        0 <= at <= text.len() <= usize::MAX,
    ensures
        ({
            let cells = lexicon.lattice(plus, text, text.len());
            let parts = parts_of(cells, text, at);
            let taken = taken_of(lexicon, plus, text, at);
            &&& lexicon.takes(path(cells, at), parts, taken)
            &&& lexicon.worth(plus, parts, taken) == cells[at].score
        }),
    decreases at,
{
    let cells = lexicon.lattice(plus, text, text.len());
    lemma_cells(lexicon, plus, text, text.len());
    lemma_lattice_prefix(lexicon, plus, text, at as nat, text.len());
    assert(cells.take(at + 1)[at] == cells[at]);
    if at == 0 {
        lemma_lattice_prefix(lexicon, plus, text, 0, text.len());
        assert(cells.take(1)[0] == cells[0]);
    } else {
        let prev = cells[at].prev as int;
        let before = lexicon.lattice(plus, text, (at - 1) as nat);
        lemma_lattice_prefix(lexicon, plus, text, (at - 1) as nat, text.len());
        assert(cells.take(at)[prev] == cells[prev]);
        assert(cells.take(at)[at - 1] == cells[at - 1]);
        assert(cells[at] == lexicon.extended(plus, text, before));
        lemma_cells(lexicon, plus, text, (at - 1) as nat);
        lemma_scanned(lexicon, plus, text, before, before.len());
        lemma_worth(lexicon, plus, text, prev);
        let parts = parts_of(cells, text, prev);
        let taken = taken_of(lexicon, plus, text, prev);
        let part = text.subrange(prev, at);
        let own = lexicon.scanned(plus, text, before, before.len()).score != NEG_INFINITY;
        assert(parts_of(cells, text, at) == parts.push(part));
        assert(taken_of(lexicon, plus, text, at) == taken.push(own));
        assert(parts.push(part).drop_last() =~= parts);
        assert(taken.push(own).drop_last() =~= taken);
    }
}

/// No way to cut a text into pieces of the vocabulary has a greater summed score than the parts
/// that the identifiers of the text stand for.
pub proof fn no_segmentation_scores_higher<F: Fn(u32, u32) -> u32>(
    lexicon: T5Lexicon,
    plus: F,
    text: Seq<char>,
    others: Seq<Seq<char>>,
) -> (cut: (Seq<Seq<char>>, Seq<bool>))
    requires
        orderly(plus),
        lexicon.finite_scores(),
        text.len() <= usize::MAX,
        lexicon.knows(others),
        bpe::joined(others) == text,
    ensures
        lexicon.spells(lexicon.viterbi(plus, text), cut.0, text),
        lexicon.takes(lexicon.viterbi(plus, text), cut.0, cut.1),
        !float_order::greater(
            lexicon.score(plus, others),
            lexicon.worth(plus, cut.0, cut.1),
        ),
        (forall|i: int| 0 <= i < cut.1.len() ==> #[trigger] cut.1[i]) ==> lexicon.worth(
            plus,
            cut.0,
            cut.1,
        ) == lexicon.score(plus, cut.0),
{
    let n = text.len() as int;
    let cells = lexicon.lattice(plus, text, text.len());
    let parts = parts_of(cells, text, n);
    let taken = taken_of(lexicon, plus, text, n);
    assert(text.take(n) =~= text);
    lemma_best(lexicon, plus, text, others);
    lemma_path_spells(lexicon, plus, text, n);
    lemma_worth(lexicon, plus, text, n);
    lemma_cells(lexicon, plus, text, text.len());
    if forall|i: int| 0 <= i < taken.len() ==> #[trigger] taken[i] {
        lemma_all_taken(lexicon, plus, parts, taken);
    }
    (parts, taken)
}

/// Where every part is taken as a piece, the worth is the pieces' summed score.
proof fn lemma_all_taken<F: Fn(u32, u32) -> u32>(
    lexicon: T5Lexicon,
    plus: F,
    parts: Seq<Seq<char>>,
    taken: Seq<bool>,
)
    requires
        taken.len() == parts.len(),
        forall|i: int| 0 <= i < taken.len() ==> #[trigger] taken[i],
    ensures
        lexicon.worth(plus, parts, taken) == lexicon.score(plus, parts),
    decreases parts.len(),
{
    if parts.len() > 0 {
        assert forall|i: int| 0 <= i < taken.drop_last().len() implies #[trigger]
            taken.drop_last()[i] by {
            assert(taken[i]);
        }
        lemma_all_taken(lexicon, plus, parts.drop_last(), taken.drop_last());
    }
}

/// Padding gives exactly the length asked for, keeps the identifiers before the cut, and never
/// loses the end token where there is room for one.
pub proof fn padding_keeps_the_end_token<F: Fn(u32, u32) -> u32>(
    lexicon: T5Lexicon,
    plus: F,
    text: Seq<char>,
    len: nat,
)
    requires
        lexicon.add_eos,
    ensures
        lexicon.padded(lexicon.encode(plus, text), len).len() == len,
        len > 0 ==> lexicon.padded(lexicon.encode(plus, text), len).contains(lexicon.eos),
        len > 0 && lexicon.encode(plus, text).len() >= len ==> lexicon.padded(
            lexicon.encode(plus, text),
            len,
        ).last() == lexicon.eos,
        forall|i: int|
            0 <= i < len - 1 && i < lexicon.encode(plus, text).len() ==> (#[trigger] lexicon.padded(
                lexicon.encode(plus, text),
                len,
            )[i]) == lexicon.encode(plus, text)[i],
        forall|i: int|
            lexicon.encode(plus, text).len() <= i < len ==> (#[trigger] lexicon.padded(
                lexicon.encode(plus, text),
                len,
            )[i]) == lexicon.pad,
{
    let ids = lexicon.encode(plus, text);
    let out = lexicon.padded(ids, len);
    if len > 0 {
        if ids.len() <= len {
            assert(out[ids.len() - 1] == lexicon.eos);
        } else {
            assert(out[len - 1] == lexicon.eos);
        }
    }
}

/// The pieces of a vocabulary with their identifiers and scores; of a piece that occurs again, the
/// first occurrence counts.
pub open spec fn pieces_of(tokens: Seq<Seq<char>>, scores: Seq<u32>) -> Map<Seq<char>, (u32, u32)>
    decreases tokens.len(),
{
    if tokens.len() == 0 {
        Map::empty()
    } else {
        let earlier = pieces_of(tokens.drop_last(), scores);
        if earlier.contains_key(tokens.last()) {
            earlier
        } else {
            earlier.insert(
                tokens.last(),
                ((tokens.len() - 1) as u32, scores[tokens.len() - 1]),
            )
        }
    }
}

/// The scores of an array's values; a value that is no single-precision number counts as zero.
pub open spec fn scores_of(items: Seq<gguf::GgufData>) -> Seq<u32> {
    Seq::new(
        items.len(),
        |i: int|
            match items[i] {
                gguf::GgufData::Float32(bits) => bits,
                _ => 0,
            },
    )
}

/// A number that the metadata gives, or else `default`.
pub open spec fn number_or(contents: gguf::GgufContents, key: Seq<char>, default: u32) -> u32 {
    match contents.u32_at(key) {
        Some(number) => number,
        None => default,
    }
}

/// A flag that the metadata gives, or else `true`.
pub open spec fn flag(contents: gguf::GgufContents, key: Seq<char>) -> bool {
    match contents.at(key) {
        Some(gguf::GgufData::Bool(value)) => value,
        _ => true,
    }
}

/// The tokenizer that a file's metadata describes; none without a list of tokens and one of as many
/// scores.
pub open spec fn lexicon_of(contents: gguf::GgufContents) -> Option<T5Lexicon> {
    match (contents.at("tokenizer.ggml.tokens"@), contents.at("tokenizer.ggml.scores"@)) {
        (Some(gguf::GgufData::Array(tokens)), Some(gguf::GgufData::Array(scores))) => if tokens.len()
            == scores.len() {
            Some(
                T5Lexicon {
                    pieces: pieces_of(tokenizer::vocab_of(tokens), scores_of(scores)),
                    eos: number_or(contents, "tokenizer.ggml.eos_token_id"@, 1),
                    pad: number_or(contents, "tokenizer.ggml.padding_token_id"@, 0),
                    unk: number_or(contents, "tokenizer.ggml.unknown_token_id"@, 2),
                    add_eos: flag(contents, "tokenizer.ggml.add_eos_token"@),
                    add_space_prefix: flag(contents, "tokenizer.ggml.add_space_prefix"@),
                },
            )
        } else {
            None
        },
        _ => None,
    }
}

/// A Unigram tokenizer.
pub struct T5Tokenizer {
    pieces: StringHashMap<(u32, u32)>,
    max_piece_len: usize,
    pub eos_id: u32,
    pub pad_id: u32,
    pub unk_id: u32,
    pub add_eos: bool,
    pub add_space_prefix: bool,
}

impl View for T5Tokenizer {
    type V = T5Lexicon;

    closed spec fn view(&self) -> T5Lexicon {
        T5Lexicon {
            pieces: self.pieces@,
            eos: self.eos_id,
            pad: self.pad_id,
            unk: self.unk_id,
            add_eos: self.add_eos,
            add_space_prefix: self.add_space_prefix,
        }
    }
}

/// A number that the metadata gives, or else `default`.
fn read_number(file: &GgufFile, key: &str, default: u32) -> (number: u32)
    ensures
        number == number_or(file@, key@, default),
{
    match file.meta_u32(key) {
        Some(number) => number,
        None => default,
    }
}

/// A flag that the metadata gives, or else `true`.
fn read_flag(file: &GgufFile, key: &str) -> (value: bool)
    ensures
        value == flag(file@, key@),
{
    match file.metadata.get(key) {
        Some(GgufValue::Bool(value)) => *value,
        _ => true,
    }
}

/// The scores of an array's values.
fn collect_scores(items: &Vec<GgufValue>) -> (scores: Vec<u32>)
    ensures
        scores@ == scores_of(gguf::data_of(items@)),
{
    let mut scores: Vec<u32> = Vec::with_capacity(items.len());
    let mut i: usize = 0;
    while i < items.len()
        invariant
            i == scores@.len() <= items@.len(),
            forall|j: int|
                0 <= j < i ==> #[trigger] scores@[j] == scores_of(gguf::data_of(items@))[j],
        decreases items.len() - i,
    {
        match &items[i] {
            GgufValue::Float32(bits) => {
                scores.push(*bits);
            },
            _ => {
                scores.push(0);
            },
        }
        i = i + 1;
    }
    assert(scores@ =~= scores_of(gguf::data_of(items@)));
    scores
}

impl T5Tokenizer {
    /// No piece is longer than the longest.
    pub closed spec fn wf(&self) -> bool {
        forall|piece: Seq<char>| #[trigger]
            self.pieces@.contains_key(piece) ==> piece.len() <= self.max_piece_len
    }

    /// The tokenizer that a file's metadata describes.
    pub fn from_gguf(file: &GgufFile) -> (tokenizer: Option<Self>)
        ensures
            match lexicon_of(file@) {
                Some(lexicon) => tokenizer is Some && tokenizer->0.wf() && tokenizer->0@ == lexicon,
                None => tokenizer is None,
            },
    {
        let tokens: Vec<String> = match file.metadata.get("tokenizer.ggml.tokens") {
            Some(GgufValue::Array(items)) => {
                proof {
                    assert(
                        file@.at("tokenizer.ggml.tokens"@)->0->Array_0 =~= gguf::data_of(items@)
                    );
                }
                collect_texts(items)
            },
            _ => {
                return None;
            },
        };
        let scores: Vec<u32> = match file.metadata.get("tokenizer.ggml.scores") {
            Some(GgufValue::Array(items)) => {
                proof {
                    assert(
                        file@.at("tokenizer.ggml.scores"@)->0->Array_0 =~= gguf::data_of(items@)
                    );
                }
                collect_scores(items)
            },
            _ => {
                return None;
            },
        };
        let ghost all = bpe::texts(tokens@);
        if tokens.len() != scores.len() {
            return None;
        }
        let mut pieces: StringHashMap<(u32, u32)> = StringHashMap::new();
        let mut max_piece_len: usize = 1;
        let mut i: usize = 0;
        while i < tokens.len()
            invariant
                i <= tokens@.len() == scores@.len(),
                all == bpe::texts(tokens@),
                pieces@ == pieces_of(all.take(i as int), scores@),
                forall|piece: Seq<char>| #[trigger]
                    pieces@.contains_key(piece) ==> piece.len() <= max_piece_len,
            decreases tokens.len() - i,
        {
            proof {
                assert(all.take(i + 1).drop_last() =~= all.take(i as int));
                assert(all.take(i + 1).last() == tokens@[i as int]@);
            }
            let len: usize = tokens[i].as_str().unicode_len();
            if len > max_piece_len {
                max_piece_len = len;
            }
            if !pieces.contains_key(tokens[i].as_str()) {
                pieces.insert(tokens[i].clone(), (i as u32, scores[i]));
            }
            i = i + 1;
        }
        proof {
            assert(all.take(all.len() as int) =~= all);
        }
        Some(
            T5Tokenizer {
                pieces,
                max_piece_len,
                eos_id: read_number(file, "tokenizer.ggml.eos_token_id", 1),
                pad_id: read_number(file, "tokenizer.ggml.padding_token_id", 0),
                unk_id: read_number(file, "tokenizer.ggml.unknown_token_id", 2),
                add_eos: read_flag(file, "tokenizer.ggml.add_eos_token"),
                add_space_prefix: read_flag(file, "tokenizer.ggml.add_space_prefix"),
            },
        )
    }

    /// The text with its spaces made visible.
    pub fn normalize(&self, text: &str) -> (out: String)
        ensures
            out@ == self@.normalize(text@),
    {
        let chars = chars_of(text);
        let mut out = String::new();
        if self.add_space_prefix && !(chars.len() > 0 && chars[0] == ' ') {
            out.push(SPACE);
        }
        let ghost front = out@;
        let ghost visible = tokenizer::visible_spaces(text@);
        let mut i: usize = 0;
        while i < chars.len()
            invariant
                i <= chars@.len(),
                chars@ == text@,
                visible == tokenizer::visible_spaces(text@),
                out@ == front + visible.take(i as int),
            decreases chars.len() - i,
        {
            let c: char = if chars[i] == ' ' {
                SPACE
            } else {
                chars[i]
            };
            out.push(c);
            proof {
                assert(visible.take(i + 1) =~= visible.take(i as int).push(c));
            }
            i = i + 1;
        }
        proof {
            assert(visible.take(visible.len() as int) =~= visible);
            assert(front + visible =~= self@.normalize(text@));
        }
        out
    }

    /// The best cell for the prefix of `text` after `cells`.
    fn extend<F: Fn(u32, u32) -> u32>(&self, text: &[char], cells: &Vec<Cell>, plus: &F) -> (cell:
        Cell)
        requires
            self.wf(),
            fold::function2(*plus),
            0 < cells@.len() <= text@.len(),
        ensures
            cell == self@.extended(*plus, text@, cells@),
    {
        let end: usize = cells.len();
        let lo: usize = if end > self.max_piece_len {
            end - self.max_piece_len
        } else {
            0
        };
        let mut cell = Cell { score: NEG_INFINITY, prev: 0, id: 0 };
        proof {
            self.lemma_too_long(*plus, text@, cells@, lo as nat);
        }
        let mut start: usize = lo;
        while start < end
            invariant
                self.wf(),
                fold::function2(*plus),
                lo <= start <= end == cells@.len() <= text@.len(),
                cell == self@.scanned(*plus, text@, cells@, start as nat),
            decreases end - start,
        {
            if cells[start].score != NEG_INFINITY {
                let piece = string_of(text, start, end);
                match self.pieces.get(piece.as_str()) {
                    Some(found) => {
                        let (id, score): (u32, u32) = *found;
                        let sum: u32 = plus(cells[start].score, score);
                        proof {
                            assert(call_ensures(*plus, (cells@[start as int].score, score), sum));
                            assert(sum == fold::applied2(*plus, cells@[start as int].score, score));
                        }
                        if is_greater(sum, cell.score) {
                            cell = Cell { score: sum, prev: start, id };
                        }
                    },
                    None => {},
                }
            }
            start = start + 1;
        }
        let last: u32 = cells[end - 1].score;
        if cell.score == NEG_INFINITY && last != NEG_INFINITY {
            let sum: u32 = plus(last, UNKNOWN_COST);
            proof {
                assert(call_ensures(*plus, (last, UNKNOWN_COST), sum));
                assert(sum == fold::applied2(*plus, last, UNKNOWN_COST));
            }
            cell = Cell { score: sum, prev: end - 1, id: self.unk_id };
        }
        cell
    }

    /// No piece reaches from the first `lo` places to the end.
    proof fn lemma_too_long<F: Fn(u32, u32) -> u32>(
        &self,
        plus: F,
        text: Seq<char>,
        cells: Seq<Cell>,
        lo: nat,
    )
        requires
            self.wf(),
            cells.len() <= text.len(),
            lo == 0 || lo + self.max_piece_len <= cells.len(),
        ensures
            self@.scanned(plus, text, cells, lo) == no_way(),
        decreases lo,
    {
        if lo > 0 {
            self.lemma_too_long(plus, text, cells, (lo - 1) as nat);
            let piece = text.subrange(lo - 1, cells.len() as int);
            assert(piece.len() > self.max_piece_len);
            assert(!self.pieces@.contains_key(piece));
        }
    }

    /// The identifiers of the best way to cut a text.
    pub fn viterbi<F: Fn(u32, u32) -> u32>(&self, text: &str, plus: F) -> (ids: Vec<u32>)
        requires
            self.wf(),
            fold::function2(plus),
        ensures
            ids@ == self@.viterbi(plus, text@),
    {
        let chars = chars_of(text);
        let n: usize = chars.len();
        let mut cells: Vec<Cell> = Vec::new();
        cells.push(Cell { score: 0, prev: 0, id: 0 });
        let mut end: usize = 0;
        proof {
            assert(cells@ =~= self@.lattice(plus, text@, 0));
        }
        while end < n
            invariant
                self.wf(),
                fold::function2(plus),
                chars@ == text@,
                end <= n == chars@.len(),
                cells@.len() == end + 1,
                cells@ == self@.lattice(plus, text@, end as nat),
            decreases n - end,
        {
            let cell = self.extend(&chars, &cells, &plus);
            cells.push(cell);
            end = end + 1;
        }
        let mut reversed: Vec<u32> = Vec::new();
        let mut at: usize = n;
        let ghost all = path(cells@, n as int);
        proof {
            assert(all =~= path(cells@, at as int) + reversed@.reverse());
        }
        while at > 0 && cells[at].prev < at
            invariant
                at <= n,
                cells@.len() == n + 1,
                all == path(cells@, at as int) + reversed@.reverse(),
            decreases at,
        {
            let ghost before = reversed@;
            reversed.push(cells[at].id);
            proof {
                assert(reversed@.reverse() =~= seq![cells@[at as int].id] + before.reverse());
                assert(path(cells@, cells@[at as int].prev as int) + reversed@.reverse() =~= path(
                    cells@,
                    at as int,
                ) + before.reverse());
            }
            at = cells[at].prev;
        }
        proof {
            assert(all =~= reversed@.reverse());
        }
        let mut ids: Vec<u32> = Vec::with_capacity(reversed.len());
        let mut i: usize = reversed.len();
        while i > 0
            invariant
                i <= reversed@.len(),
                ids@.len() == reversed@.len() - i,
                forall|k: int|
                    0 <= k < ids@.len() ==> #[trigger] ids@[k] == reversed@[reversed@.len() - 1 - k],
            decreases i,
        {
            i = i - 1;
            ids.push(reversed[i]);
        }
        proof {
            assert(ids@ =~= reversed@.reverse());
        }
        ids
    }

    /// Encodes a text, without padding.
    pub fn encode<F: Fn(u32, u32) -> u32>(&self, text: &str, plus: F) -> (ids: Vec<u32>)
        requires
            self.wf(),
            fold::function2(plus),
        ensures
            ids@ == self@.encode(plus, text@),
    {
        let normal = self.normalize(text);
        let mut ids = self.viterbi(normal.as_str(), plus);
        if self.add_eos {
            ids.push(self.eos_id);
        }
        ids
    }

    /// Encodes a text to exactly `len` identifiers.
    pub fn encode_padded<F: Fn(u32, u32) -> u32>(&self, text: &str, len: usize, plus: F) -> (ids: Vec<
        u32,
    >)
        requires
            self.wf(),
            fold::function2(plus),
        ensures
            ids@ == self@.padded(self@.encode(plus, text@), len as nat),
    {
        let mut ids = self.encode(text, plus);
        let ghost all = ids@;
        if ids.len() > len {
            ids.truncate(len);
            if self.add_eos && len > 0 {
                ids[len - 1] = self.eos_id;
            }
        }
        while ids.len() < len
            invariant
                ids@.len() <= len,
                forall|i: int|
                    0 <= i < ids@.len() ==> #[trigger] ids@[i] == self@.padded(all, len as nat)[i],
                all.len() <= ids@.len() || ids@.len() == len,
            decreases len - ids.len(),
        {
            ids.push(self.pad_id);
        }
        proof {
            assert(ids@ =~= self@.padded(all, len as nat));
        }
        ids
    }
}

} // verus!
