//! The printable character that stands for each byte in byte-level vocabularies.
//!
//! Bytes that print on their own (33 to 126, 161 to 172 and 174 to 255) stand for themselves. The
//! remaining 68 bytes, in order, are the characters from U+0100 to U+0143.

use std::collections::HashMap;
use vstd::prelude::*;

verus! {

broadcast use vstd::std_specs::hash::group_hash_axioms;

/// `char::from_u32` gives the character of a code point that is a Unicode scalar value, and nothing
/// for any other number.
pub assume_specification[ char::from_u32 ](i: u32) -> (c: Option<char>)
    ensures
        vstd::utf8::is_scalar(i) ==> c == Some(i as char),
        !vstd::utf8::is_scalar(i) ==> c is None,
;

/// The byte prints on its own.
pub open spec fn printable(b: int) -> bool {
    33 <= b <= 126 || 161 <= b <= 172 || 174 <= b <= 255
}

/// How many bytes below `b` do not print on their own.
pub open spec fn shifted_below(b: int) -> nat
    decreases b,
{
    if b <= 0 {
        0
    } else {
        shifted_below(b - 1) + if printable(b - 1) {
            0nat
        } else {
            1nat
        }
    }
}

/// The code point that stands for a byte.
pub open spec fn code_point(b: int) -> int {
    if printable(b) {
        b
    } else {
        0x100 + shifted_below(b) as int
    }
}

/// The character that stands for a byte.
pub open spec fn byte_char(b: u8) -> char {
    code_point(b as int) as char
}

/// Counting never goes down, and steps up at every shifted byte.
proof fn lemma_shifted_below(a: int, b: int)
    requires
        0 <= a <= b <= 256,
    ensures
        shifted_below(a) <= shifted_below(b) <= shifted_below(a) + (b - a),
        a < b && !printable(a) ==> shifted_below(a) < shifted_below(b),
    decreases b - a,
{
    if a < b {
        lemma_shifted_below(a, b - 1);
    }
}

/// Every stand-in is a character below U+0144.
pub proof fn lemma_code_point(b: int)
    requires
        0 <= b < 256,
    ensures
        0 < code_point(b) <= 0x143,
        printable(b) <==> code_point(b) < 0x100,
{
    lemma_shifted_below(0, 33);
    lemma_shifted_below(0, b);
    lemma_shifted_below(b, 256);
    assert(shifted_below(0) == 0);
    lemma_shifted_count();
    if !printable(b) {
        assert(shifted_below(b) < shifted_below(256));
    }
}

/// There are 68 shifted bytes.
proof fn lemma_shifted_count()
    ensures
        shifted_below(256) == 68,
{
    lemma_shifted_run(0, 33, 1);
    lemma_shifted_run(33, 127, 0);
    lemma_shifted_run(127, 161, 1);
    lemma_shifted_run(161, 173, 0);
    lemma_shifted_run(173, 174, 1);
    lemma_shifted_run(174, 256, 0);
}

/// Over a run of bytes of one class the count grows by that class's step.
proof fn lemma_shifted_run(a: int, b: int, step: nat)
    requires
        0 <= a <= b <= 256,
        step <= 1,
        forall|i: int| a <= i < b ==> #[trigger] printable(i) == (step == 0),
    ensures
        shifted_below(b) == shifted_below(a) + step * (b - a),
    decreases b - a,
{
    if a < b {
        lemma_shifted_run(a, b - 1, step);
        assert(printable(b - 1) == (step == 0));
        assert(step * (b - a) == step * (b - 1 - a) + step) by (nonlinear_arith);
    } else {
        assert(step * 0 == 0) by (nonlinear_arith);
    }
}

/// No two bytes share a stand-in, so the byte can be recovered from its character.
pub proof fn byte_chars_are_distinct(a: u8, b: u8)
    requires
        byte_char(a) == byte_char(b),
    ensures
        a == b,
{
    lemma_code_point(a as int);
    lemma_code_point(b as int);
    assert(code_point(a as int) == code_point(b as int));
    if a < b {
        lemma_shifted_below(a as int, b as int);
    } else if b < a {
        lemma_shifted_below(b as int, a as int);
    }
}

/// The table maps every byte to its stand-in.
pub open spec fn is_byte_table(table: Seq<char>) -> bool {
    &&& table.len() == 256
    &&& forall|b: int| 0 <= b < 256 ==> #[trigger] table[b] == byte_char(b as u8)
}

/// The map takes exactly the stand-ins, by code point, back to their bytes.
pub open spec fn is_char_table(map: Map<u32, u8>) -> bool {
    &&& forall|b: u8| map.contains_key(#[trigger] byte_char(b) as u32) && map[byte_char(b) as u32]
        == b
    &&& forall|c: u32| #[trigger] map.contains_key(c) ==> byte_char(map[c]) as u32 == c
}

/// Builds both tables.
pub fn build_byte_unicode_tables() -> (tables: (Vec<char>, HashMap<u32, u8>))
    ensures
        is_byte_table(tables.0@),
        is_char_table(tables.1@),
{
    let mut table: Vec<char> = Vec::with_capacity(256);
    let mut map: HashMap<u32, u8> = HashMap::new();
    let mut n: u32 = 0;
    let mut b: u32 = 0;
    while b < 256
        invariant
            b <= 256,
            table@.len() == b,
            n == shifted_below(b as int),
            n <= b,
            forall|i: int| 0 <= i < b ==> #[trigger] table@[i] == byte_char(i as u8),
            forall|i: u8|
                i < b ==> map@.contains_key(#[trigger] byte_char(i) as u32)
                    && map@[byte_char(i) as u32] == i,
            forall|c: u32| #[trigger]
                map@.contains_key(c) ==> map@[c] < b && byte_char(map@[c]) as u32 == c,
        decreases 256 - b,
    {
        let byte: u8 = b as u8;
        let own: bool = (33 <= b && b <= 126) || (161 <= b && b <= 172) || 174 <= b;
        proof {
            lemma_code_point(b as int);
        }
        let c: char = if own {
            byte as char
        } else {
            char::from_u32(0x100 + n).unwrap()
        };
        proof {
            assert(c == byte_char(byte));
            assert forall|i: u8| i < b implies byte_char(i) as u32 != c as u32 by {
                if byte_char(i) == byte_char(byte) {
                    byte_chars_are_distinct(i, byte);
                }
                lemma_code_point(i as int);
            }
        }
        table.push(c);
        map.insert(c as u32, byte);
        if !own {
            n = n + 1;
        }
        b = b + 1;
    }
    (table, map)
}

} // verus!
