//! Characters, strings and the number formats that messages and token names use.

use vstd::prelude::*;

verus! {

broadcast use vstd::string::group_string_axioms;

/// `String::push` appends one character.
pub assume_specification[ std::string::String::push ](s: &mut String, c: char)
    ensures
        final(s)@ == old(s)@.push(c),
;

/// The decimal digit `d`, for `d < 10`.
pub open spec fn digit(d: nat) -> char {
    (48 + d) as char
}

/// `n` written in decimal, without leading zeros.
pub open spec fn decimal(n: nat) -> Seq<char>
    decreases n,
{
    if n < 10 {
        seq![digit(n)]
    } else {
        decimal(n / 10).push(digit(n % 10))
    }
}

/// Numbers separated by `, `.
pub open spec fn comma_separated(values: Seq<usize>) -> Seq<char>
    decreases values.len(),
{
    if values.len() == 0 {
        Seq::empty()
    } else if values.len() == 1 {
        decimal(values[0] as nat)
    } else {
        comma_separated(values.drop_last()) + seq![',', ' '] + decimal(values.last() as nat)
    }
}

/// A list of numbers in square brackets, such as `[1, 4, 8]`.
pub open spec fn bracketed(values: Seq<usize>) -> Seq<char> {
    seq!['['] + comma_separated(values) + seq![']']
}

/// One upper-case hexadecimal digit, for `d < 16`.
pub open spec fn hex_digit(d: nat) -> char {
    if d < 10 {
        (48 + d) as char
    } else {
        (55 + d) as char
    }
}

/// The lowest `width` hexadecimal digits of `n`, most significant first.
pub open spec fn hex(n: nat, width: nat) -> Seq<char>
    decreases width,
{
    if width == 0 {
        Seq::empty()
    } else {
        hex(n / 16, (width - 1) as nat).push(hex_digit(n % 16))
    }
}

/// Appends `n` in decimal.
pub fn push_decimal(out: &mut String, n: u64)
    ensures
        final(out)@ == old(out)@ + decimal(n as nat),
    decreases n,
{
    if n >= 10 {
        push_decimal(out, n / 10);
    }
    let d: u8 = (n % 10) as u8;
    out.push((48 + d) as char);
}

/// Appends `n` in decimal.
pub fn push_usize(out: &mut String, n: usize)
    ensures
        final(out)@ == old(out)@ + decimal(n as nat),
{
    push_decimal(out, n as u64);
}

/// Appends a bracketed list of numbers.
pub fn push_bracketed(out: &mut String, values: &[usize])
    ensures
        final(out)@ == old(out)@ + bracketed(values@),
{
    out.push('[');
    let mut i: usize = 0;
    let ghost before = out@;
    while i < values.len()
        invariant
            i <= values@.len(),
            out@ == before + comma_separated(values@.take(i as int)),
        decreases values.len() - i,
    {
        proof {
            assert(values@.take(i + 1).drop_last() =~= values@.take(i as int));
        }
        if i > 0 {
            out.push(',');
            out.push(' ');
        }
        push_usize(out, values[i]);
        i = i + 1;
    }
    proof {
        assert(values@.take(values@.len() as int) =~= values@);
    }
    out.push(']');
}

/// Appends the lowest `width` hexadecimal digits of `n`.
pub fn push_hex(out: &mut String, n: u64, width: usize)
    ensures
        final(out)@ == old(out)@ + hex(n as nat, width as nat),
    decreases width,
{
    if width > 0 {
        push_hex(out, n / 16, width - 1);
        let d: u8 = (n % 16) as u8;
        if d < 10 {
            out.push((48 + d) as char);
        } else {
            out.push((55 + d) as char);
        }
    }
}

/// The characters of a string, in order.
pub fn chars_of(text: &str) -> (chars: Vec<char>)
    ensures
        chars@ == text@,
{
    let mut chars: Vec<char> = Vec::new();
    for c in iter: text.chars()
        invariant
            chars@ == text@.take(iter.index() as int),
            iter.seq() == text@,
    {
        chars.push(c);
    }
    chars
}

/// The string that `chars[from..to]` spells.
pub fn string_of(chars: &[char], from: usize, to: usize) -> (text: String)
    requires
        from <= to <= chars@.len(),
    ensures
        text@ == chars@.subrange(from as int, to as int),
{
    let mut text = String::new();
    let mut i: usize = from;
    while i < to
        invariant
            from <= i <= to <= chars@.len(),
            text@ == chars@.subrange(from as int, i as int),
        decreases to - i,
    {
        text.push(chars[i]);
        i = i + 1;
    }
    text
}

/// Two strings are the same text.
pub fn same_text(left: &str, right: &str) -> (same: bool)
    ensures
        same == (left@ == right@),
{
    left.to_owned() == right.to_owned()
}

/// `pattern` stands in `text` at index `at`.
pub open spec fn occurs(text: Seq<char>, pattern: Seq<char>, at: int) -> bool {
    &&& 0 <= at
    &&& at + pattern.len() <= text.len()
    &&& text.subrange(at, at + pattern.len()) == pattern
}

/// The first index from `from` on at which `pattern` stands in `text`.
pub open spec fn first_from(text: Seq<char>, pattern: Seq<char>, from: int) -> Option<int>
    decreases text.len() + 1 - from,
{
    if from + pattern.len() > text.len() {
        None
    } else if occurs(text, pattern, from) {
        Some(from)
    } else {
        first_from(text, pattern, from + 1)
    }
}

/// The first index is one at which the pattern stands, and no earlier one is; without one, the
/// pattern stands nowhere.
pub proof fn lemma_first_from(text: Seq<char>, pattern: Seq<char>, from: int)
    requires
        0 <= from,
    ensures
        match first_from(text, pattern, from) {
            Some(at) => from <= at && occurs(text, pattern, at) && forall|i: int|
                from <= i < at ==> !occurs(text, pattern, i),
            None => forall|i: int| from <= i ==> !occurs(text, pattern, i),
        },
    decreases text.len() + 1 - from,
{
    if from + pattern.len() <= text.len() && !occurs(text, pattern, from) {
        lemma_first_from(text, pattern, from + 1);
    }
}

/// Whether `pattern` stands in `text` at index `at`.
pub fn occurs_at(text: &[char], pattern: &[char], at: usize) -> (found: bool)
    requires
        at <= text@.len(),
    ensures
        found == occurs(text@, pattern@, at as int),
{
    if pattern.len() > text.len() - at {
        return false;
    }
    let mut i: usize = 0;
    while i < pattern.len()
        invariant
            i <= pattern@.len(),
            at + pattern@.len() <= text@.len() == text.len(),
            forall|j: int| 0 <= j < i ==> text@[at + j] == pattern@[j],
        decreases pattern.len() - i,
    {
        if text[at + i] != pattern[i] {
            proof {
                assert(
                    text@.subrange(at as int, at + pattern@.len())[i as int] != pattern@[i as int]
                );
            }
            return false;
        }
        i = i + 1;
    }
    assert(text@.subrange(at as int, at + pattern@.len()) =~= pattern@);
    true
}

/// The first index from `from` on at which `pattern` stands in `text`.
pub fn find_from(text: &[char], pattern: &[char], from: usize) -> (found: Option<usize>)
    requires
        from <= text@.len(),
    ensures
        match found {
            Some(at) => first_from(text@, pattern@, from as int) == Some(at as int) && at
                + pattern@.len() <= text@.len(),
            None => first_from(text@, pattern@, from as int) is None,
        },
{
    let mut at: usize = from;
    while at < text.len()
        invariant
            from <= at <= text@.len(),
            first_from(text@, pattern@, from as int) == first_from(text@, pattern@, at as int),
        decreases text.len() - at,
    {
        if occurs_at(text, pattern, at) {
            return Some(at);
        }
        at = at + 1;
    }
    proof {
        reveal_with_fuel(first_from, 2);
    }
    if occurs_at(text, pattern, at) {
        Some(at)
    } else {
        None
    }
}

/// Numbers separated by `, `.
pub open spec fn comma_separated64(values: Seq<u64>) -> Seq<char>
    decreases values.len(),
{
    if values.len() == 0 {
        Seq::empty()
    } else if values.len() == 1 {
        decimal(values[0] as nat)
    } else {
        comma_separated64(values.drop_last()) + seq![',', ' '] + decimal(values.last() as nat)
    }
}

/// A list of numbers in square brackets.
pub open spec fn bracketed64(values: Seq<u64>) -> Seq<char> {
    seq!['['] + comma_separated64(values) + seq![']']
}

/// Appends a bracketed list of numbers.
pub fn push_bracketed64(out: &mut String, values: &[u64])
    ensures
        final(out)@ == old(out)@ + bracketed64(values@),
{
    out.push('[');
    let mut i: usize = 0;
    let ghost before = out@;
    while i < values.len()
        invariant
            i <= values@.len(),
            out@ == before + comma_separated64(values@.take(i as int)),
        decreases values.len() - i,
    {
        proof {
            assert(values@.take(i + 1).drop_last() =~= values@.take(i as int));
        }
        if i > 0 {
            out.push(',');
            out.push(' ');
        }
        push_decimal(out, values[i]);
        i = i + 1;
    }
    proof {
        assert(values@.take(values@.len() as int) =~= values@);
    }
    out.push(']');
}

/// A text in quotation marks, with what needs escaping escaped, as `str`'s `Debug` writes it.
pub uninterp spec fn debug_text(text: Seq<char>) -> Seq<char>;

/// No character needs escaping between quotation marks.
pub open spec fn plain(text: Seq<char>) -> bool {
    forall|i: int|
        0 <= i < text.len() ==> ' ' <= (#[trigger] text[i]) <= '~' && text[i] != '"' && text[i]
            != '\\'
}

/// `str`'s `Debug`: the result depends on the text alone. A text of printable ASCII characters
/// without quotation marks and backslashes is put between quotation marks as it is.
#[verifier::external_body]
pub(crate) fn quote(text: &str) -> (quoted: String)
    ensures
        quoted@ == debug_text(text@),
        plain(text@) ==> quoted@ == seq!['"'] + text@ + seq!['"'],
{
    format!("{text:?}")
}

} // verus!
