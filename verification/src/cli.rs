//! The command line.

use vstd::prelude::*;
use crate::text::{chars_of, same_text};
use crate::unicode::is_ascii_digit;
use crate::unicode;

verus! {

broadcast use vstd::string::group_string_axioms;

/// The port of the server where none is given.
pub const DEFAULT_PORT: u64 = 18081;

/// How many tokens are generated where no number is given.
pub const DEFAULT_TOKENS: u64 = 200;

/// What the command line asks for.
pub struct Command {
    pub path: String,
    /// Only the tensors of the model are listed.
    pub list_tensors: bool,
    /// The port of the server, where one is asked for.
    pub server: Option<u64>,
    pub prompt: String,
    pub max_new: u64,
    /// The prompt is given without a system message.
    pub nosys: bool,
}

/// The number that decimal digits stand for.
pub open spec fn digits_value(digits: Seq<char>) -> nat
    decreases digits.len(),
{
    if digits.len() == 0 {
        0
    } else {
        (digits_value(digits.drop_last()) * 10 + (digits.last() as int - '0' as int)) as nat
    }
}

/// Every character is a decimal digit.
pub open spec fn all_digits(text: Seq<char>) -> bool {
    forall|i: int| 0 <= i < text.len() ==> unicode::ascii_digit(#[trigger] text[i])
}

/// A text without a leading plus sign.
pub open spec fn unsigned_part(text: Seq<char>) -> Seq<char> {
    if text.len() > 0 && text[0] == '+' {
        text.skip(1)
    } else {
        text
    }
}

/// The number that a text stands for, if it is at most `limit`: decimal digits, perhaps after a
/// plus sign.
pub open spec fn number_of(text: Seq<char>, limit: nat) -> Option<nat> {
    let digits = unsigned_part(text);
    if digits.len() > 0 && all_digits(digits) && digits_value(digits) <= limit {
        Some(digits_value(digits))
    } else {
        None
    }
}

/// Digits in front make a number no greater.
proof fn lemma_prefix(digits: Seq<char>, n: int)
    requires
        0 <= n <= digits.len(),
        all_digits(digits),
    ensures
        digits_value(digits.take(n)) <= digits_value(digits),
    decreases digits.len(),
{
    if n < digits.len() {
        let init = digits.drop_last();
        assert(unicode::ascii_digit(digits.last()));
        assert forall|i: int| 0 <= i < init.len() implies unicode::ascii_digit(
            #[trigger] init[i],
        ) by {
            assert(unicode::ascii_digit(digits[i]));
        }
        lemma_prefix(init, n);
        assert(init.take(n) =~= digits.take(n));
    } else {
        assert(digits.take(n) =~= digits);
    }
}

/// Reads a number of at most `limit`.
pub fn parse_number(text: &str, limit: u64) -> (number: Option<u64>)
    ensures
        match number {
            Some(n) => number_of(text@, limit as nat) == Some(n as nat),
            None => number_of(text@, limit as nat) is None,
        },
{
    let chars = chars_of(text);
    let from: usize = if chars.len() > 0 && chars[0] == '+' {
        1
    } else {
        0
    };
    let ghost digits = unsigned_part(text@);
    proof {
        assert(digits =~= chars@.skip(from as int));
        assert(digits.take(0) =~= Seq::empty());
    }
    if chars.len() == from {
        return None;
    }
    let mut i: usize = from;
    let mut value: u64 = 0;
    while i < chars.len()
        invariant
            from <= i <= chars@.len(),
            from < chars@.len(),
            digits == chars@.skip(from as int),
            digits == unsigned_part(text@),
            forall|j: int| 0 <= j < i - from ==> unicode::ascii_digit(#[trigger] digits[j]),
            value == digits_value(digits.take(i - from)),
            value <= limit,
        decreases chars.len() - i,
    {
        let c = chars[i];
        proof {
            assert(digits[i - from] == c);
            assert(digits.take(i + 1 - from).drop_last() =~= digits.take(i - from));
        }
        if !is_ascii_digit(c) {
            proof {
                assert(!unicode::ascii_digit(digits[i - from]));
                assert(!all_digits(digits));
            }
            return None;
        }
        let next: u128 = value as u128 * 10 + (c as u32 - 48) as u128;
        if next > limit as u128 {
            proof {
                if all_digits(digits) {
                    lemma_prefix(digits, i + 1 - from);
                }
            }
            return None;
        }
        value = next as u64;
        i = i + 1;
    }
    proof {
        assert(digits.take(i - from) =~= digits);
        assert(all_digits(digits));
    }
    Some(value)
}

/// The argument at an index, if there is one.
pub open spec fn argument(args: Seq<Seq<char>>, index: int) -> Option<Seq<char>> {
    if 0 <= index < args.len() {
        Some(args[index])
    } else {
        None
    }
}

/// The first index of an argument, from an index on.
pub open spec fn position(args: Seq<Seq<char>>, name: Seq<char>, from: int) -> Option<int>
    decreases args.len() - from,
{
    if from < 0 || from >= args.len() {
        None
    } else if args[from] == name {
        Some(from)
    } else {
        position(args, name, from + 1)
    }
}

/// The number that an argument stands for, or a default.
pub open spec fn number_or(argument: Option<Seq<char>>, limit: nat, default: nat) -> nat {
    match argument {
        Some(text) => match number_of(text, limit) {
            Some(n) => n,
            None => default,
        },
        None => default,
    }
}

/// A text, or a default.
pub open spec fn text_or(argument: Option<Seq<char>>, default: Seq<char>) -> Seq<char> {
    match argument {
        Some(text) => text,
        None => default,
    }
}

/// The texts of arguments.
pub open spec fn texts(args: Seq<String>) -> Seq<Seq<char>> {
    Seq::new(args.len(), |i: int| args[i]@)
}

impl Command {
    /// What arguments ask for.
    pub open spec fn means(&self, args: Seq<Seq<char>>) -> bool {
        &&& self.path@ == text_or(argument(args, 1), "tiny_model.gguf"@)
        &&& self.list_tensors == (position(args, "--list-tensors"@, 0) is Some)
        &&& match (position(args, "--server"@, 0), self.server) {
            (Some(at), Some(port)) => port == number_or(
                argument(args, at + 1),
                65535,
                DEFAULT_PORT as nat,
            ) && port <= 65535,
            (None, None) => true,
            _ => false,
        }
        &&& self.prompt@ == text_or(argument(args, 2), "What is 2+2?"@)
        &&& self.max_new == number_or(argument(args, 3), usize::MAX as nat, DEFAULT_TOKENS as nat)
        &&& self.nosys == (position(args, "--nosys"@, 0) is Some)
    }

    /// Reads the command line, with the name of the program in front.
    pub fn parse(args: &Vec<String>) -> (command: Self)
        ensures
            command.means(texts(args@)),
    {
        let path = text_at(args, 1, "tiny_model.gguf");
        let list_tensors = find(args, "--list-tensors").is_some();
        proof {
            assert(args@.len() == args.len());
        }
        let server: Option<u64> = match find(args, "--server") {
            Some(at) => Some(number_at(args, at + 1, 65535, DEFAULT_PORT)),
            None => None,
        };
        let prompt = text_at(args, 2, "What is 2+2?");
        let max_new: u64 = number_at(args, 3, usize::MAX as u64, DEFAULT_TOKENS);
        let nosys = find(args, "--nosys").is_some();
        Command { path, list_tensors, server, prompt, max_new, nosys }
    }
}

/// The first index of an argument.
fn find(args: &Vec<String>, name: &str) -> (found: Option<usize>)
    ensures
        match found {
            Some(at) => position(texts(args@), name@, 0) == Some(at as int) && at < args@.len(),
            None => position(texts(args@), name@, 0) is None,
        },
{
    let mut i: usize = 0;
    while i < args.len()
        invariant
            i <= args@.len(),
            position(texts(args@), name@, 0) == position(texts(args@), name@, i as int),
        decreases args.len() - i,
    {
        if same_text(args[i].as_str(), name) {
            return Some(i);
        }
        i = i + 1;
    }
    None
}

/// The argument at an index, or a default.
fn text_at(args: &Vec<String>, index: usize, default: &str) -> (found: String)
    ensures
        found@ == text_or(argument(texts(args@), index as int), default@),
{
    if index < args.len() {
        args[index].clone()
    } else {
        default.to_owned()
    }
}

/// The number that an argument stands for, or a default.
fn number_at(args: &Vec<String>, index: usize, limit: u64, default: u64) -> (found: u64)
    requires
        default <= limit,
    ensures
        found == number_or(
            argument(texts(args@), index as int),
            limit as nat,
            default as nat,
        ),
        found <= limit,
{
    if index < args.len() {
        match parse_number(args[index].as_str(), limit) {
            Some(n) => n,
            None => default,
        }
    } else {
        default
    }
}

} // verus!
