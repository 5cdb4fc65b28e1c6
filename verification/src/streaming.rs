//! Text from bytes that come in pieces: characters are given out as soon as they are complete.

use vstd::prelude::*;
use vstd::utf8::*;
use crate::lossy;
use crate::lossy::{check_utf8, decode_lossy, REPLACEMENT};

verus! {

/// The pieces of text that bytes give, and the bytes that wait for more.
pub open spec fn emitted(bytes: Seq<u8>) -> (Seq<Seq<char>>, Seq<u8>)
    decreases bytes.len(),
{
    let valid = lossy::valid_prefix(bytes, bytes.len());
    if bytes.len() == 0 {
        (Seq::empty(), bytes)
    } else if 0 < valid <= bytes.len() {
        let (pieces, rest) = emitted(bytes.skip(valid as int));
        (seq![decode_utf8(bytes.take(valid as int))] + pieces, rest)
    } else if lossy::completable(bytes) {
        (Seq::empty(), bytes)
    } else if 0 < lossy::error_len(bytes) <= bytes.len() {
        let (pieces, rest) = emitted(bytes.skip(lossy::error_len(bytes) as int));
        (seq![seq![REPLACEMENT]] + pieces, rest)
    } else {
        (Seq::empty(), bytes)
    }
}

/// Texts joined.
pub open spec fn joined(pieces: Seq<Seq<char>>) -> Seq<char>
    decreases pieces.len(),
{
    if pieces.len() == 0 {
        Seq::empty()
    } else {
        pieces[0] + joined(pieces.skip(1))
    }
}

/// Chunks of bytes joined.
pub open spec fn all_bytes(chunks: Seq<Seq<u8>>) -> Seq<u8>
    decreases chunks.len(),
{
    if chunks.len() == 0 {
        Seq::empty()
    } else {
        chunks[0] + all_bytes(chunks.skip(1))
    }
}

/// The pieces of text that chunks of bytes give one after another, after bytes that wait, and the
/// bytes that still wait then.
pub open spec fn streamed(waiting: Seq<u8>, chunks: Seq<Seq<u8>>) -> (Seq<Seq<char>>, Seq<u8>)
    decreases chunks.len(),
{
    if chunks.len() == 0 {
        (Seq::empty(), waiting)
    } else {
        let (pieces, rest) = emitted(waiting + chunks[0]);
        let (more, last) = streamed(rest, chunks.skip(1));
        (pieces + more, last)
    }
}

/// Of bytes that further bytes complete to a text, the pieces that they give and the text of what
/// waits with the further bytes make that text.
pub proof fn lemma_emitted(a: Seq<u8>, b: Seq<u8>)
    requires
        valid_utf8(a + b),
    ensures
        valid_utf8(emitted(a).1 + b),
        joined(emitted(a).0) + decode_utf8(emitted(a).1 + b) == decode_utf8(a + b),
    decreases a.len(),
{
    let valid = lossy::valid_prefix(a, a.len());
    lossy::lemma_valid_prefix(a, a.len());
    if a.len() == 0 {
        assert(joined(emitted(a).0) + decode_utf8(a + b) =~= decode_utf8(a + b));
    } else if 0 < valid {
        let first = a.take(valid as int);
        let rest = a.skip(valid as int);
        assert(a + b =~= first + (rest + b));
        lossy::lemma_split(first, rest + b);
        lemma_emitted(rest, b);
        let (pieces, last) = emitted(rest);
        let all = seq![decode_utf8(first)] + pieces;
        assert(all.skip(1) =~= pieces);
        assert(all[0] == decode_utf8(first));
        assert(joined(all) + decode_utf8(last + b) =~= decode_utf8(first) + (joined(pieces)
            + decode_utf8(last + b)));
    } else {
        assert(lossy::completable(a));
        assert(joined(emitted(a).0) + decode_utf8(a + b) =~= decode_utf8(a + b));
    }
}

/// Pieces joined with pieces.
proof fn lemma_joined(left: Seq<Seq<char>>, right: Seq<Seq<char>>)
    ensures
        joined(left + right) == joined(left) + joined(right),
    decreases left.len(),
{
    if left.len() == 0 {
        assert(left + right =~= right);
        assert(joined(left) + joined(right) =~= joined(right));
    } else {
        assert((left + right).skip(1) =~= left.skip(1) + right);
        lemma_joined(left.skip(1), right);
        assert(joined(left + right) =~= joined(left) + joined(right));
    }
}

/// What waits is not valid text.
proof fn lemma_waiting(bytes: Seq<u8>)
    requires
        valid_utf8(emitted(bytes).1),
        lossy::completable(bytes),
    ensures
        emitted(bytes).1.len() == 0,
    decreases bytes.len(),
{
    let valid = lossy::valid_prefix(bytes, bytes.len());
    lossy::lemma_valid_prefix(bytes, bytes.len());
    if bytes.len() > 0 {
        if 0 < valid {
            let first = bytes.take(valid as int);
            let rest = bytes.skip(valid as int);
            let tail = choose|tail: Seq<u8>| #[trigger] valid_utf8(bytes + tail);
            assert(bytes + tail =~= first + (rest + tail));
            lossy::lemma_split(first, rest + tail);
            lemma_waiting(rest);
        } else {
            assert(bytes.take(bytes.len() as int) =~= bytes);
        }
    }
}

/// However the bytes of a text are cut into chunks, the pieces that the chunks give make the text,
/// and nothing waits in the end.
pub proof fn chunks_give_the_text(chunks: Seq<Seq<u8>>)
    requires
        valid_utf8(all_bytes(chunks)),
    ensures
        joined(streamed(Seq::empty(), chunks).0) == decode_utf8(all_bytes(chunks)),
        streamed(Seq::empty(), chunks).1.len() == 0,
{
    let none = Seq::<u8>::empty();
    assert(none + all_bytes(chunks) =~= all_bytes(chunks));
    lemma_streamed(none, chunks);
    assert(none.len() == 0);
}

proof fn lemma_streamed(waiting: Seq<u8>, chunks: Seq<Seq<u8>>)
    requires
        valid_utf8(waiting + all_bytes(chunks)),
        valid_utf8(waiting) ==> waiting.len() == 0,
    ensures
        joined(streamed(waiting, chunks).0) == decode_utf8(waiting + all_bytes(chunks)),
        streamed(waiting, chunks).1.len() == 0,
    decreases chunks.len(),
{
    if chunks.len() == 0 {
        assert(waiting + all_bytes(chunks) =~= waiting);
        assert(decode_utf8(waiting) =~= Seq::empty());
    } else {
        let now = waiting + chunks[0];
        let later = all_bytes(chunks.skip(1));
        assert(now + later =~= waiting + all_bytes(chunks));
        lemma_emitted(now, later);
        let (pieces, rest) = emitted(now);
        assert(lossy::completable(now)) by {
            assert(valid_utf8(now + later));
        }
        if valid_utf8(rest) {
            lemma_waiting(now);
        }
        lemma_streamed(rest, chunks.skip(1));
        let (more, last) = streamed(rest, chunks.skip(1));
        lemma_joined(pieces, more);
    }
}

/// What is given out of bytes, and the text of what waits with further bytes, make the text of all
/// of them.
proof fn lemma_emitted_lossy(a: Seq<u8>, b: Seq<u8>)
    ensures
        joined(emitted(a).0) + lossy::lossy_utf8(emitted(a).1 + b) == lossy::lossy_utf8(a + b),
    decreases a.len(),
{
    let valid = lossy::valid_prefix(a, a.len());
    lossy::lemma_valid_prefix(a, a.len());
    if 0 < valid {
        let first = a.take(valid as int);
        let rest = a.skip(valid as int);
        assert(a + b =~= first + (rest + b));
        lossy::lemma_valid_front(first, rest + b);
        lemma_emitted_lossy(rest, b);
        let (pieces, last) = emitted(rest);
        let all = seq![decode_utf8(first)] + pieces;
        assert(all.skip(1) =~= pieces);
        assert(all[0] == decode_utf8(first));
        assert(joined(all) + lossy::lossy_utf8(last + b) =~= decode_utf8(first) + (joined(pieces)
            + lossy::lossy_utf8(last + b)));
    } else if a.len() > 0 && !lossy::completable(a) && 0 < lossy::error_len(a) <= a.len() {
        let n = lossy::error_len(a) as int;
        let rest = a.skip(n);
        lossy::lemma_error_front(a, b);
        assert((a + b).skip(n) =~= rest + b);
        lemma_emitted_lossy(rest, b);
        let (pieces, last) = emitted(rest);
        let all = seq![seq![REPLACEMENT]] + pieces;
        assert(all.skip(1) =~= pieces);
        assert(all[0] == seq![REPLACEMENT]);
        assert(joined(all) + lossy::lossy_utf8(last + b) =~= seq![REPLACEMENT] + (joined(pieces)
            + lossy::lossy_utf8(last + b)));
    } else {
        assert(joined(emitted(a).0) + lossy::lossy_utf8(a + b) =~= lossy::lossy_utf8(a + b));
    }
}

proof fn lemma_streamed_lossy(waiting: Seq<u8>, chunks: Seq<Seq<u8>>)
    ensures
        joined(streamed(waiting, chunks).0) + lossy::lossy_utf8(streamed(waiting, chunks).1)
            == lossy::lossy_utf8(waiting + all_bytes(chunks)),
    decreases chunks.len(),
{
    if chunks.len() == 0 {
        assert(waiting + all_bytes(chunks) =~= waiting);
        assert(joined(streamed(waiting, chunks).0) + lossy::lossy_utf8(waiting) =~= lossy::lossy_utf8(waiting));
    } else {
        let now = waiting + chunks[0];
        let later = all_bytes(chunks.skip(1));
        assert(now + later =~= waiting + all_bytes(chunks));
        lemma_emitted_lossy(now, later);
        let (pieces, rest) = emitted(now);
        lemma_streamed_lossy(rest, chunks.skip(1));
        let (more, last) = streamed(rest, chunks.skip(1));
        lemma_joined(pieces, more);
        assert(joined(pieces) + joined(more) + lossy::lossy_utf8(last) =~= joined(pieces) + (joined(more)
            + lossy::lossy_utf8(last)));
    }
}

/// However bytes are cut into chunks, and whether they are text or not, the pieces that the chunks
/// give, with the one for what waits in the end, make the text of all the bytes at once.
pub proof fn chunks_give_the_text_of_all_bytes(chunks: Seq<Seq<u8>>)
    ensures
        joined(
            streamed(Seq::empty(), chunks).0 + flushed(streamed(Seq::empty(), chunks).1),
        ) == lossy::lossy_utf8(all_bytes(chunks)),
{
    let none = Seq::<u8>::empty();
    assert(none + all_bytes(chunks) =~= all_bytes(chunks));
    lemma_streamed_lossy(none, chunks);
    let (pieces, last) = streamed(none, chunks);
    lemma_joined(pieces, flushed(last));
    reveal_with_fuel(joined, 2);
    if flushed(last).len() > 0 {
        assert(flushed(last).skip(1) =~= Seq::empty());
        assert(joined(flushed(last)) =~= lossy::lossy_utf8(last));
    } else {
        assert(lossy::lossy_utf8(last) =~= Seq::empty());
        assert(joined(flushed(last)) =~= Seq::empty());
    }
}

/// The views of texts.
pub open spec fn texts(pieces: Seq<String>) -> Seq<Seq<char>> {
    Seq::new(pieces.len(), |i: int| pieces[i]@)
}

/// Adds bytes to those that wait, and gives out the text that is complete.
pub fn emit_utf8(pending: &mut Vec<u8>, bytes: &[u8]) -> (pieces: Vec<String>)
    ensures
        texts(pieces@) == emitted(old(pending)@ + bytes@).0,
        final(pending)@ == emitted(old(pending)@ + bytes@).1,
{
    let ghost before = pending@;
    crate::arithmetic::append_row(pending, bytes);
    let ghost all = pending@;
    let mut pieces: Vec<String> = Vec::new();
    let mut done: bool = false;
    proof {
        assert(texts(pieces@) + emitted(pending@).0 =~= emitted(all).0);
    }
    while !done
        invariant
            all == before + bytes@,
            !done ==> texts(pieces@) + emitted(pending@).0 == emitted(all).0 && emitted(
                pending@,
            ).1 == emitted(all).1,
            done ==> texts(pieces@) == emitted(all).0 && pending@ == emitted(all).1,
        decreases
                pending@.len() + if done {
                    0int
                } else {
                    1int
                },
    {
        let ghost now = pending@;
        let ghost given = texts(pieces@);
        if pending.len() == 0 {
            done = true;
            proof {
                assert(given + emitted(now).0 =~= given);
            }
        } else {
            proof {
                lossy::lemma_valid_prefix(now, now.len());
                assert(now.take(now.len() as int) =~= now);
            }
            match check_utf8(pending) {
                Ok(()) => {
                    let piece = decode_lossy(pending);
                    proof {
                        lossy::valid_bytes_are_their_text(now);
                    }
                    pieces.push(piece);
                    pending.clear();
                    proof {
                        assert(lossy::valid_prefix(now, now.len()) == now.len());
                        assert(now.skip(now.len() as int) =~= Seq::empty());
                        assert(texts(pieces@) =~= given + seq![decode_utf8(now)]);
                        assert(given + seq![decode_utf8(now)] + emitted(pending@).0 =~= given
                            + emitted(now).0);
                    }
                },
                Err((valid, error)) => {
                    proof {
                        let p = lossy::valid_prefix(now, now.len());
                        if p < valid {
                            assert(!valid_utf8(now.take(valid as int)));
                        }
                        if valid < p {
                            assert(!valid_utf8(now.take(p as int)));
                        }
                        assert(p == valid);
                    }
                    if valid > 0 {
                        let part = vstd::slice::slice_subrange(pending, 0, valid);
                        let piece = decode_lossy(part);
                        proof {
                            lossy::valid_bytes_are_their_text(part@);
                        }
                        let rest = vstd::slice::slice_subrange(pending, valid, pending.len());
                        let kept = vstd::slice::slice_to_vec(rest);
                        pieces.push(piece);
                        *pending = kept;
                        proof {
                            assert(now.subrange(0, valid as int) =~= now.take(valid as int));
                            assert(pending@ =~= now.skip(valid as int));
                            let first = decode_utf8(now.take(valid as int));
                            assert(texts(pieces@) =~= given + seq![first]);
                            assert(given + seq![first] + emitted(pending@).0 =~= given + (seq![
                                first,
                            ] + emitted(pending@).0));
                        }
                    } else {
                        proof {
                            assert(now.skip(0) =~= now);
                        }
                        match error {
                            Some(len) => {
                                let rest = vstd::slice::slice_subrange(pending, len, pending.len());
                                let kept = vstd::slice::slice_to_vec(rest);
                                let mut piece = String::new();
                                piece.push(REPLACEMENT);
                                pieces.push(piece);
                                *pending = kept;
                                proof {
                                    assert(pending@ =~= now.skip(len as int));
                                    assert(piece@ =~= seq![REPLACEMENT]);
                                    assert(texts(pieces@) =~= given + seq![seq![REPLACEMENT]]);
                                    assert(given + seq![seq![REPLACEMENT]] + emitted(pending@).0
                                        =~= given + (seq![seq![REPLACEMENT]] + emitted(
                                        pending@,
                                    ).0));
                                }
                            },
                            None => {
                                done = true;
                                proof {
                                    assert(given + emitted(now).0 =~= given);
                                }
                            },
                        }
                    }
                },
            }
        }
    }
    pieces
}

/// Gives out the bytes that wait as text, with what is no text replaced.
pub fn flush_utf8(pending: &mut Vec<u8>) -> (pieces: Vec<String>)
    ensures
        final(pending)@.len() == 0,
        texts(pieces@) == flushed(old(pending)@),
{
    let mut pieces: Vec<String> = Vec::new();
    if pending.len() > 0 {
        let piece = decode_lossy(pending);
        if piece.as_str().is_empty() {
            proof {
                assert(texts(pieces@) =~= flushed(pending@));
            }
        } else {
            pieces.push(piece);
            proof {
                assert(texts(pieces@) =~= flushed(pending@));
            }
        }
        pending.clear();
    } else {
        proof {
            assert(texts(pieces@) =~= flushed(pending@));
        }
    }
    pieces
}

/// The text of waiting bytes, where there is any.
pub open spec fn flushed(bytes: Seq<u8>) -> Seq<Seq<char>> {
    if bytes.len() > 0 && lossy::lossy_utf8(bytes).len() > 0 {
        seq![lossy::lossy_utf8(bytes)]
    } else {
        Seq::empty()
    }
}

} // verus!
