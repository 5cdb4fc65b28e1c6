//! Splitting text at separators and at white space.

use vstd::prelude::*;
use crate::bpe;
use crate::text::string_of;
use crate::unicode;

verus! {

broadcast use vstd::string::group_string_axioms;

/// The index of the first separator, or the length without one.
pub open spec fn until(text: Seq<char>, separator: char) -> int
    decreases text.len(),
{
    if text.len() == 0 || text[0] == separator {
        0
    } else {
        1 + until(text.skip(1), separator)
    }
}

/// The first separator is within the text.
pub proof fn lemma_until(text: Seq<char>, separator: char)
    ensures
        0 <= until(text, separator) <= text.len(),
    decreases text.len(),
{
    if text.len() > 0 && text[0] != separator {
        lemma_until(text.skip(1), separator);
    }
}

/// The parts that separators set apart.
pub open spec fn split(text: Seq<char>, separator: char) -> Seq<Seq<char>>
    decreases text.len(),
{
    let end = until(text, separator);
    proof {
        lemma_until(text, separator);
    }
    if end == text.len() {
        seq![text]
    } else {
        seq![text.take(end)] + split(text.skip(end + 1), separator)
    }
}

/// How many characters from index `from` on are white space.
pub open spec fn gap(text: Seq<char>, from: int) -> int
    decreases text.len() - from,
{
    if 0 <= from < text.len() && unicode::whitespace(text[from]) {
        1 + gap(text, from + 1)
    } else {
        0
    }
}

/// How many characters from index `from` on are not white space.
pub open spec fn run(text: Seq<char>, from: int) -> int
    decreases text.len() - from,
{
    if 0 <= from < text.len() && !unicode::whitespace(text[from]) {
        1 + run(text, from + 1)
    } else {
        0
    }
}

/// Gaps and runs end within the text, a gap before a character that is not white space and a run
/// before one that is.
pub proof fn lemma_gap_and_run(text: Seq<char>, from: int)
    requires
        0 <= from <= text.len(),
    ensures
        0 <= gap(text, from) <= text.len() - from,
        0 <= run(text, from) <= text.len() - from,
        from + gap(text, from) < text.len() ==> !unicode::whitespace(
            text[from + gap(text, from)],
        ),
        from < text.len() && !unicode::whitespace(text[from]) ==> run(text, from) > 0,
    decreases text.len() - from,
{
    if from < text.len() {
        lemma_gap_and_run(text, from + 1);
    }
}

/// The runs of characters other than white space, from index `from` on.
pub open spec fn fields(text: Seq<char>, from: int) -> Seq<Seq<char>>
    decreases text.len() - from,
{
    let start = from + gap(text, from);
    let end = start + run(text, start);
    if 0 <= from <= text.len() && start < text.len() {
        proof {
            lemma_gap_and_run(text, from);
            lemma_gap_and_run(text, start);
        }
        seq![text.subrange(start, end)] + fields(text, end)
    } else {
        Seq::empty()
    }
}

/// The parts, with a space between each two.
pub open spec fn spaced(parts: Seq<Seq<char>>) -> Seq<char>
    decreases parts.len(),
{
    if parts.len() == 0 {
        Seq::empty()
    } else if parts.len() == 1 {
        parts[0]
    } else {
        spaced(parts.drop_last()) + seq![' '] + parts.last()
    }
}

/// How many characters at the end are white space.
pub open spec fn trailing(text: Seq<char>) -> int
    decreases text.len(),
{
    if text.len() > 0 && unicode::whitespace(text.last()) {
        1 + trailing(text.drop_last())
    } else {
        0
    }
}

/// The text without the white space at its start and end.
pub open spec fn trimmed(text: Seq<char>) -> Seq<char> {
    let start = gap(text, 0);
    if start == text.len() {
        Seq::empty()
    } else {
        text.subrange(start, text.len() - trailing(text))
    }
}

/// The index after a gap.
pub fn skip_gap(text: &[char], from: usize) -> (end: usize)
    requires
        from <= text@.len(),
    ensures
        end == from + gap(text@, from as int),
        from <= end <= text@.len(),
{
    let mut end: usize = from;
    while end < text.len() && text[end].is_whitespace()
        invariant
            from <= end <= text@.len(),
            gap(text@, from as int) == (end - from) + gap(text@, end as int),
        decreases text.len() - end,
    {
        end = end + 1;
    }
    end
}

/// The index after a run.
pub fn skip_run(text: &[char], from: usize) -> (end: usize)
    requires
        from <= text@.len(),
    ensures
        end == from + run(text@, from as int),
        from <= end <= text@.len(),
{
    let mut end: usize = from;
    while end < text.len() && !text[end].is_whitespace()
        invariant
            from <= end <= text@.len(),
            run(text@, from as int) == (end - from) + run(text@, end as int),
        decreases text.len() - end,
    {
        end = end + 1;
    }
    end
}

/// The runs of characters other than white space.
pub fn split_whitespace(text: &[char]) -> (parts: Vec<String>)
    ensures
        bpe::texts(parts@) == fields(text@, 0),
{
    let mut parts: Vec<String> = Vec::new();
    let mut at: usize = 0;
    let mut done: bool = false;
    proof {
        assert(bpe::texts(parts@) + fields(text@, 0) =~= fields(text@, 0));
    }
    while !done
        invariant
            at <= text@.len(),
            !done ==> bpe::texts(parts@) + fields(text@, at as int) == fields(text@, 0),
            done ==> bpe::texts(parts@) == fields(text@, 0),
        decreases
                text@.len() - at + if done {
                    0int
                } else {
                    1int
                },
    {
        proof {
            lemma_gap_and_run(text@, at as int);
        }
        let start: usize = skip_gap(text, at);
        if start == text.len() {
            done = true;
            proof {
                assert(bpe::texts(parts@) + fields(text@, at as int) =~= bpe::texts(parts@));
            }
        } else {
            proof {
                lemma_gap_and_run(text@, start as int);
            }
            let end: usize = skip_run(text, start);
            let ghost before = parts@;
            parts.push(string_of(text, start, end));
            proof {
                let part = text@.subrange(start as int, end as int);
                assert(bpe::texts(parts@) =~= bpe::texts(before).push(part));
                assert(bpe::texts(parts@) + fields(text@, end as int) =~= bpe::texts(before) + (
                seq![part] + fields(text@, end as int)));
            }
            at = end;
        }
    }
    parts
}

/// The text without the white space at its start and end.
pub fn trim(text: &[char]) -> (result: String)
    ensures
        result@ == trimmed(text@),
{
    let start: usize = skip_gap(text, 0);
    if start == text.len() {
        return String::new();
    }
    proof {
        lemma_gap_and_run(text@, 0);
    }
    let mut end: usize = text.len();
    proof {
        assert(text@.take(end as int) =~= text@);
    }
    while end > start && text[end - 1].is_whitespace()
        invariant
            start < text@.len(),
            !unicode::whitespace(text@[start as int]),
            start < end <= text@.len(),
            trailing(text@) == (text@.len() - end) + trailing(text@.take(end as int)),
        decreases end,
    {
        proof {
            assert(text@.take(end as int).drop_last() =~= text@.take(end - 1));
            assert(text@.take(end as int).last() == text@[end - 1]);
        }
        end = end - 1;
    }
    proof {
        assert(text@.take(end as int).last() == text@[end - 1]);
    }
    string_of(text, start, end)
}

/// The parts with a space between each two.
pub fn join_spaced(parts: &Vec<String>) -> (text: String)
    ensures
        text@ == spaced(bpe::texts(parts@)),
{
    let ghost all = bpe::texts(parts@);
    let mut text = String::new();
    let mut i: usize = 0;
    while i < parts.len()
        invariant
            i <= parts@.len(),
            all == bpe::texts(parts@),
            text@ == spaced(all.take(i as int)),
        decreases parts.len() - i,
    {
        proof {
            assert(all.take(i + 1).drop_last() =~= all.take(i as int));
            assert(all.take(i + 1).last() == all[i as int]);
        }
        if i > 0 {
            text.push(' ');
        }
        text.append(parts[i].as_str());
        proof {
            if i == 0 {
                assert(text@ =~= all[0]);
            } else {
                assert(text@ =~= spaced(all.take(i as int)) + seq![' '] + all[i as int]);
            }
        }
        i = i + 1;
    }
    proof {
        assert(all.take(all.len() as int) =~= all);
    }
    text
}

/// The parts that separators set apart.
pub fn split_on(text: &[char], separator: char) -> (parts: Vec<String>)
    ensures
        bpe::texts(parts@) == split(text@, separator),
{
    let mut parts: Vec<String> = Vec::new();
    let len: usize = text.len();
    let mut start: usize = 0;
    let mut done: bool = false;
    proof {
        assert(text@.skip(0) =~= text@);
        assert(bpe::texts(parts@) + split(text@, separator) =~= split(text@, separator));
    }
    while !done
        invariant
            len == text@.len(),
            start <= len,
            !done ==> bpe::texts(parts@) + split(text@.skip(start as int), separator) == split(
                text@,
                separator,
            ),
            done ==> bpe::texts(parts@) == split(text@, separator),
        decreases
                len - start + if done {
                    0int
                } else {
                    1int
                },
    {
        let ghost rest = text@.skip(start as int);
        let mut end: usize = start;
        while end < len && text[end] != separator
            invariant
                len == text@.len(),
                start <= end <= len,
                rest == text@.skip(start as int),
                until(rest, separator) == (end - start) + until(
                    text@.skip(end as int),
                    separator,
                ),
            decreases len - end,
        {
            proof {
                assert(text@.skip(end as int).skip(1) =~= text@.skip(end + 1));
                assert(text@.skip(end as int)[0] == text@[end as int]);
            }
            end = end + 1;
        }
        proof {
            if end < len {
                assert(text@.skip(end as int)[0] == separator);
            }
        }
        let ghost before = parts@;
        parts.push(string_of(text, start, end));
        proof {
            let part = text@.subrange(start as int, end as int);
            assert(bpe::texts(parts@) =~= bpe::texts(before).push(part));
            if end == len {
                assert(part =~= rest);
                assert(bpe::texts(parts@) =~= bpe::texts(before) + seq![rest]);
            } else {
                assert(part =~= rest.take(end - start));
                assert(rest.skip(end - start + 1) =~= text@.skip(end + 1));
                assert(bpe::texts(parts@) + split(text@.skip(end + 1), separator)
                    =~= bpe::texts(before) + (seq![part] + split(text@.skip(end + 1), separator)));
            }
        }
        if end == len {
            done = true;
        } else {
            start = end + 1;
        }
    }
    parts
}

} // verus!
