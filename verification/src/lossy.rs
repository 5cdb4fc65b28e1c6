//! Text from bytes that need not be text: what is no character is replaced.

use vstd::prelude::*;
use vstd::utf8::*;

verus! {

/// The character that stands for bytes that are no text.
pub const REPLACEMENT: char = '\u{FFFD}';

/// Bytes that further bytes can make valid UTF-8.
pub open spec fn completable(bytes: Seq<u8>) -> bool {
    exists|tail: Seq<u8>| #[trigger] valid_utf8(bytes + tail)
}

/// The length of the longest valid prefix of at most `n` bytes.
pub open spec fn valid_prefix(bytes: Seq<u8>, n: nat) -> nat
    decreases n,
{
    if n == 0 || valid_utf8(bytes.take(n as int)) {
        n
    } else {
        valid_prefix(bytes, (n - 1) as nat)
    }
}

/// The least number of bytes, from `n` on, that cannot be completed: the last of them is the byte
/// that is not expected.
pub open spec fn unexpected_end(bytes: Seq<u8>, n: nat) -> nat
    decreases bytes.len() - n,
{
    if n >= bytes.len() || !completable(bytes.take(n as int)) {
        n
    } else {
        unexpected_end(bytes, n + 1)
    }
}

/// How many bytes make one error, of those that start with no character and end with the byte that
/// is not expected.
pub uninterp spec fn invalid_len(bytes: Seq<u8>) -> nat;

/// The bytes up to the one that is not expected.
pub open spec fn up_to_error(bytes: Seq<u8>) -> Seq<u8> {
    bytes.take(unexpected_end(bytes, 0) as int)
}

/// How many bytes make the error that bytes start with. What follows the byte that is not expected
/// does not count.
pub open spec fn error_len(bytes: Seq<u8>) -> nat {
    invalid_len(up_to_error(bytes))
}

/// The text of bytes: each error is replaced by one character, and so is an unfinished end.
pub open spec fn lossy_utf8(bytes: Seq<u8>) -> Seq<char>
    decreases bytes.len(),
{
    let valid = valid_prefix(bytes, bytes.len());
    if bytes.len() == 0 {
        Seq::empty()
    } else if 0 < valid <= bytes.len() {
        decode_utf8(bytes.take(valid as int)) + lossy_utf8(bytes.skip(valid as int))
    } else if !completable(bytes) && 0 < error_len(bytes) <= bytes.len() {
        seq![REPLACEMENT] + lossy_utf8(bytes.skip(error_len(bytes) as int))
    } else {
        seq![REPLACEMENT]
    }
}

/// `String::from_utf8_lossy`: valid bytes become the characters that they encode, and each invalid
/// sequence, as `std::str::from_utf8` delimits it, one replacement character. An unfinished
/// sequence at the end counts as one.
#[verifier::external_body]
pub(crate) fn decode_lossy(bytes: &[u8]) -> (text: String)
    ensures
        text@ == lossy_utf8(bytes@),
{
    String::from_utf8_lossy(bytes).into_owned()
}

/// `std::str::from_utf8`. Valid bytes pass. Of others it gives the length of the longest valid
/// prefix, and whether what follows is an error: it is none exactly where further bytes could
/// complete it, and then fewer than a character's bytes are left; otherwise its length is at least
/// one and depends on the bytes up to the one that is not expected.
#[verifier::external_body]
pub(crate) fn check_utf8(bytes: &[u8]) -> (result: Result<(), (usize, Option<usize>)>)
    ensures
        result is Ok <==> valid_utf8(bytes@),
        result matches Err((valid, error)) ==> valid < bytes@.len() && valid_utf8(
            bytes@.take(valid as int),
        ) && forall|m: int| valid < m <= bytes@.len() ==> !valid_utf8(#[trigger] bytes@.take(m)),
        result matches Err((valid, error)) ==> (error is None <==> completable(
            bytes@.skip(valid as int),
        )),
        result matches Err((valid, Some(len))) ==> len == invalid_len(
            up_to_error(bytes@.skip(valid as int)),
        ) && 0 < len && valid + len <= bytes@.len(),
{
    std::str::from_utf8(bytes).map(|_| ()).map_err(|error| (error.valid_up_to(), error.error_len()))
}

/// The valid prefix is valid, and no longer one is.
pub proof fn lemma_valid_prefix(bytes: Seq<u8>, n: nat)
    requires
        n <= bytes.len(),
    ensures
        valid_prefix(bytes, n) <= n,
        valid_utf8(bytes.take(valid_prefix(bytes, n) as int)),
        forall|m: int|
            valid_prefix(bytes, n) < m <= n ==> !valid_utf8(#[trigger] bytes.take(m)),
    decreases n,
{
    if n == 0 {
        assert(bytes.take(0) =~= Seq::empty());
    } else if !valid_utf8(bytes.take(n as int)) {
        lemma_valid_prefix(bytes, (n - 1) as nat);
    }
}

/// The text of valid bytes is the text that they encode.
pub proof fn valid_bytes_are_their_text(bytes: Seq<u8>)
    requires
        valid_utf8(bytes),
    ensures
        lossy_utf8(bytes) == decode_utf8(bytes),
{
    assert(bytes.take(bytes.len() as int) =~= bytes);
    assert(valid_prefix(bytes, bytes.len()) == bytes.len());
    assert(bytes.skip(bytes.len() as int) =~= Seq::empty());
    reveal_with_fuel(lossy_utf8, 2);
    assert(decode_utf8(bytes) + Seq::<char>::empty() =~= decode_utf8(bytes));
}

/// Valid bytes followed by bytes that keep them valid.
pub proof fn lemma_split(a: Seq<u8>, b: Seq<u8>)
    requires
        valid_utf8(a),
        valid_utf8(a + b),
    ensures
        valid_utf8(b),
        decode_utf8(a + b) == decode_utf8(a) + decode_utf8(b),
    decreases a.len(),
{
    if a.len() == 0 {
        assert(a + b =~= b);
        assert(decode_utf8(a) + decode_utf8(b) =~= decode_utf8(b));
    } else {
        let whole = a + b;
        assert(whole[0] == a[0]);
        let n = length_of_first_scalar(a);
        assert(forall|i: int| 0 <= i < a.len() ==> whole[i] == a[i]);
        assert(pop_first_scalar(whole) =~= pop_first_scalar(a) + b);
        lemma_split(pop_first_scalar(a), b);
        assert(decode_utf8(whole) =~= seq![decode_first_scalar(a) as char] + (decode_utf8(
            pop_first_scalar(a),
        ) + decode_utf8(b)));
        assert(decode_utf8(a) + decode_utf8(b) =~= seq![decode_first_scalar(a) as char] + (
        decode_utf8(pop_first_scalar(a)) + decode_utf8(b)));
    }
}

/// Valid bytes in front stand for their text, whatever follows.
pub proof fn lemma_valid_front(a: Seq<u8>, b: Seq<u8>)
    requires
        valid_utf8(a),
    ensures
        lossy_utf8(a + b) == decode_utf8(a) + lossy_utf8(b),
{
    let all = a + b;
    if a.len() == 0 {
        assert(all =~= b);
        assert(decode_utf8(a) + lossy_utf8(b) =~= lossy_utf8(b));
    } else {
        let p = valid_prefix(all, all.len());
        let q = valid_prefix(b, b.len());
        lemma_valid_prefix(all, all.len());
        lemma_valid_prefix(b, b.len());
        let n = a.len() as int;
        assert(all.take(n) =~= a);
        assert(p >= n);
        assert(all.take(p as int) =~= a + b.take(p - n));
        lemma_split(a, b.take(p - n));
        valid_utf8_concat(a, b.take(q as int));
        assert(all.take(n + q) =~= a + b.take(q as int));
        assert(q == p - n);
        assert(all.skip(p as int) =~= b.skip(q as int));
        let rest = lossy_utf8(b.skip(q as int));
        assert(lossy_utf8(all) == decode_utf8(all.take(p as int)) + rest);
        if q == 0 {
            assert(b.skip(0) =~= b);
            assert(b.take(0) =~= Seq::empty());
            assert(decode_utf8(a + b.take(0)) =~= decode_utf8(a));
        } else {
            assert(decode_utf8(a) + decode_utf8(b.take(q as int)) + rest =~= decode_utf8(a) + (
            decode_utf8(b.take(q as int)) + rest));
        }
    }
}

/// Bytes after an error do not move the byte that is not expected.
proof fn lemma_unexpected_end(a: Seq<u8>, b: Seq<u8>, n: nat)
    requires
        n <= a.len(),
        !completable(a),
    ensures
        unexpected_end(a + b, n) == unexpected_end(a, n),
        unexpected_end(a, n) <= a.len(),
    decreases a.len() - n,
{
    if n < a.len() {
        assert((a + b).take(n as int) =~= a.take(n as int));
        lemma_unexpected_end(a, b, n + 1);
    } else {
        assert((a + b).take(n as int) =~= a);
    }
}

/// An error in front is the same error, whatever follows.
pub proof fn lemma_error_front(a: Seq<u8>, b: Seq<u8>)
    requires
        0 < a.len(),
        valid_prefix(a, a.len()) == 0,
        !completable(a),
    ensures
        valid_prefix(a + b, (a + b).len()) == 0,
        !completable(a + b),
        error_len(a + b) == error_len(a),
{
    let all = a + b;
    let p = valid_prefix(all, all.len());
    lemma_valid_prefix(all, all.len());
    lemma_valid_prefix(a, a.len());
    if 0 < p <= a.len() {
        assert(all.take(p as int) =~= a.take(p as int));
    } else if p > a.len() {
        assert(all.take(p as int) =~= a + b.take(p - a.len()));
        assert(valid_utf8(a + b.take(p - a.len())));
    }
    if completable(all) {
        let tail = choose|tail: Seq<u8>| #[trigger] valid_utf8(all + tail);
        assert(all + tail =~= a + (b + tail));
    }
    lemma_unexpected_end(a, b, 0);
    let end = unexpected_end(a, 0) as int;
    assert(all.take(end) =~= a.take(end));
}

} // verus!
