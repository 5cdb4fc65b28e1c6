//! What holds of vocabularies of sentence pieces: the longest piece is taken first, and decoding
//! gives back what was encoded.

use vstd::prelude::*;
use vstd::utf8::*;
use crate::bpe;
use crate::text;
use crate::tokenizer;
use crate::tokenizer::Lexicon;
use crate::tokenizer_laws;

verus! {

broadcast use vstd::string::group_string_axioms;

impl Lexicon {
    /// Every byte has a token.
    pub open spec fn has_bytes(self) -> bool {
        &&& self.vocab.len() <= u32::MAX
        &&& self.is_tabled()
        &&& forall|b: u8| self.ids.contains_key(#[trigger] bpe::byte_name(b))
    }

    /// No token that stands for something else than its characters occurs in a text.
    pub open spec fn plain_in(self, text: Seq<char>) -> bool {
        forall|a: int, b: int|
            0 <= a < b <= text.len() && self.ids.contains_key(#[trigger] text.subrange(a, b)) ==> {
                &&& !tokenizer::special_token(text.subrange(a, b))
                &&& tokenizer::named_byte(text.subrange(a, b)) is None
            }
    }
}

/// A digit has the value that it was made for.
proof fn lemma_hex_digit(d: nat)
    requires
        d < 16,
    ensures
        tokenizer::hex_value(text::hex_digit(d)) == Some(d),
{
}

/// The token of a byte names the byte, and marks no structure.
proof fn lemma_byte_name(b: u8)
    ensures
        tokenizer::named_byte(bpe::byte_name(b)) == Some(b),
        !tokenizer::special_token(bpe::byte_name(b)),
{
    reveal_strlit("<0x");
    reveal_strlit(">");
    reveal_strlit("<s>");
    reveal_strlit("</s>");
    reveal_strlit("<unk>");
    let n = b as nat;
    let high = text::hex_digit(n / 16 % 16);
    let low = text::hex_digit(n % 16);
    reveal_with_fuel(text::hex, 3);
    assert(text::hex(n, 2) =~= seq![high, low]);
    let name = bpe::byte_name(b);
    assert(name =~= seq!['<', '0', 'x', high, low, '>']);
    assert(name.subrange(0, 3) =~= seq!['<', '0', 'x']);
    let digits = name.subrange(3, 5);
    assert(digits =~= seq![high, low]);
    lemma_hex_digit(n / 16 % 16);
    lemma_hex_digit(n % 16);
    assert(digits.drop_last() =~= seq![high]);
    assert(seq![high].drop_last() =~= Seq::<char>::empty());
    reveal_with_fuel(tokenizer::hex_number, 3);
    assert(tokenizer::hex_number(seq![high]) == Some(n / 16));
    assert(tokenizer::hex_number(digits) == Some(n));
    assert(name.subrange(0, 2)[1] == '0');
}

/// The tokens of bytes stand for the bytes.
proof fn lemma_bytes(lexicon: Lexicon, bytes: Seq<u8>)
    requires
        lexicon.has_bytes(),
    ensures
        lexicon.bytes_of_all(bpe::byte_ids(lexicon.ids, bytes, lexicon.unk_id)) == bytes,
    decreases bytes.len(),
{
    if bytes.len() > 0 {
        let init = bytes.drop_last();
        lemma_bytes(lexicon, init);
        let name = bpe::byte_name(bytes.last());
        assert(lexicon.ids.contains_key(name));
        lemma_byte_name(bytes.last());
        tokenizer_laws::lemma_ids(lexicon.vocab, name);
        let earlier = bpe::byte_ids(lexicon.ids, init, lexicon.unk_id);
        let all = bpe::byte_ids(lexicon.ids, bytes, lexicon.unk_id);
        assert(all == earlier.push(lexicon.ids[name]));
        assert(all.drop_last() =~= earlier);
        assert(lexicon.bytes_of_all(all) =~= init + seq![bytes.last()]);
        assert(init + seq![bytes.last()] =~= bytes);
    } else {
        assert(lexicon.bytes_of_all(bpe::byte_ids(lexicon.ids, bytes, lexicon.unk_id)) =~= bytes);
    }
}

/// A match has an identifier.
proof fn lemma_match(ids: Map<Seq<char>, u32>, text: Seq<char>, from: int, limit: nat)
    ensures
        tokenizer::longest_match(ids, text, from, limit) > 0 ==> ids.contains_key(
            text.subrange(from, from + tokenizer::longest_match(ids, text, from, limit)),
        ),
    decreases limit,
{
    if limit > 0 && !ids.contains_key(text.subrange(from, from + limit)) {
        lemma_match(ids, text, from, (limit - 1) as nat);
    }
}

/// A token of one character is found where it stands.
proof fn lemma_found(ids: Map<Seq<char>, u32>, text: Seq<char>, from: int, limit: nat)
    requires
        limit >= 1,
        ids.contains_key(text.subrange(from, from + 1)),
    ensures
        tokenizer::longest_match(ids, text, from, limit) > 0,
    decreases limit,
{
    if limit > 1 && !ids.contains_key(text.subrange(from, from + limit)) {
        lemma_found(ids, text, from, (limit - 1) as nat);
    }
}

/// No token is longer than the longest.
proof fn lemma_longest(vocab: Seq<Seq<char>>, token: Seq<char>)
    requires
        tokenizer::ids_of(vocab).contains_key(token),
    ensures
        token.len() <= tokenizer::longest_of(vocab),
    decreases vocab.len(),
{
    if vocab.len() > 0 && vocab.last() != token {
        lemma_longest(vocab.drop_last(), token);
    }
}

/// The bytes of one token.
proof fn lemma_one(lexicon: Lexicon, id: u32)
    ensures
        lexicon.bytes_of_all(seq![id]) == lexicon.bytes_of(id),
{
    let ids = seq![id];
    assert(ids.drop_last() =~= Seq::<u32>::empty());
    assert(lexicon.bytes_of_all(ids.drop_last()) =~= Seq::<u8>::empty());
    assert(lexicon.bytes_of_all(ids) =~= lexicon.bytes_of(id));
}

/// The tokens of the rest of a text stand for the rest.
proof fn lemma_greedy(lexicon: Lexicon, visible: Seq<char>, from: int)
    requires
        lexicon.spm,
        lexicon.has_bytes(),
        lexicon.plain_in(visible),
        0 <= from <= visible.len(),
        visible.contains(tokenizer::SPACE) ==> lexicon.ids.contains_key(seq![tokenizer::SPACE]),
    ensures
        lexicon.bytes_of_all(lexicon.greedy(visible, from)) == encode_utf8(
            tokenizer::plain_spaces(visible.skip(from)),
        ),
    decreases visible.len() - from,
{
    let plain = tokenizer::plain_spaces(visible.skip(from));
    if from == visible.len() {
        assert(plain =~= Seq::<char>::empty());
        assert(lexicon.greedy(visible, from) =~= Seq::<u32>::empty());
        assert(lexicon.bytes_of_all(lexicon.greedy(visible, from)) =~= encode_utf8(plain));
    } else {
        let reach = lexicon.reach(visible, from);
        let len = tokenizer::longest_match(lexicon.ids, visible, from, reach);
        tokenizer::lemma_longest_match(lexicon.ids, visible, from, reach);
        lemma_match(lexicon.ids, visible, from, reach);
        if len > 0 {
            let token = visible.subrange(from, from + len);
            let id = lexicon.ids[token];
            tokenizer_laws::lemma_ids(lexicon.vocab, token);
            assert(lexicon.bytes_of(id) == encode_utf8(tokenizer::plain_spaces(token)));
            lemma_greedy(lexicon, visible, from + len);
            tokenizer_laws::lemma_bytes_add(
                lexicon,
                seq![id],
                lexicon.greedy(visible, from + len),
            );
            lemma_one(lexicon, id);
            tokenizer_laws::lemma_encode_add(
                tokenizer::plain_spaces(token),
                tokenizer::plain_spaces(visible.skip(from + len)),
            );
            assert(plain =~= tokenizer::plain_spaces(token) + tokenizer::plain_spaces(
                visible.skip(from + len),
            ));
        } else {
            let c = seq![visible[from]];
            lemma_bytes(lexicon, encode_utf8(c));
            lemma_greedy(lexicon, visible, from + 1);
            tokenizer_laws::lemma_bytes_add(
                lexicon,
                bpe::byte_ids(lexicon.ids, encode_utf8(c), lexicon.unk_id),
                lexicon.greedy(visible, from + 1),
            );
            if visible[from] == tokenizer::SPACE {
                lemma_longest(lexicon.vocab, c);
                assert(visible.subrange(from, from + 1) =~= c);
                lemma_found(lexicon.ids, visible, from, reach);
            }
            assert(tokenizer::plain_spaces(c) =~= c);
            tokenizer_laws::lemma_encode_add(
                c,
                tokenizer::plain_spaces(visible.skip(from + 1)),
            );
            assert(plain =~= c + tokenizer::plain_spaces(visible.skip(from + 1)));
        }
    }
}

/// A match in the rest of a text is the same as in the rest alone.
proof fn lemma_match_shifts(
    ids: Map<Seq<char>, u32>,
    text: Seq<char>,
    by: int,
    from: int,
    limit: nat,
)
    requires
        0 <= by,
        0 <= from,
        by + from + limit <= text.len(),
    ensures
        tokenizer::longest_match(ids, text.skip(by), from, limit) == tokenizer::longest_match(
            ids,
            text,
            by + from,
            limit,
        ),
    decreases limit,
{
    if limit > 0 {
        assert(text.skip(by).subrange(from, from + limit) =~= text.subrange(
            by + from,
            by + from + limit,
        ));
        lemma_match_shifts(ids, text, by, from, (limit - 1) as nat);
    }
}

/// The tokens of the rest of a text are the tokens of the rest alone.
proof fn lemma_greedy_shifts(lexicon: Lexicon, text: Seq<char>, by: int, from: int)
    requires
        0 <= by,
        0 <= from,
        by + from <= text.len(),
    ensures
        lexicon.greedy(text.skip(by), from) == lexicon.greedy(text, by + from),
    decreases text.len() - by - from,
{
    let rest = text.skip(by);
    if by + from < text.len() {
        let reach = lexicon.reach(text, by + from);
        assert(lexicon.reach(rest, from) == reach);
        lemma_match_shifts(lexicon.ids, text, by, from, reach);
        let len = tokenizer::longest_match(lexicon.ids, text, by + from, reach);
        tokenizer::lemma_longest_match(lexicon.ids, text, by + from, reach);
        if len > 0 {
            lemma_greedy_shifts(lexicon, text, by, from + len);
            assert(rest.subrange(from, from + len) =~= text.subrange(by + from, by + from + len));
        } else {
            lemma_greedy_shifts(lexicon, text, by, from + 1);
        }
    }
}

/// The longest of the tokens that a text starts with is matched.
proof fn lemma_match_is(ids: Map<Seq<char>, u32>, text: Seq<char>, n: nat, limit: nat)
    requires
        n <= limit <= text.len(),
        n > 0 ==> ids.contains_key(text.take(n as int)),
        forall|m: int| n < m <= limit ==> !ids.contains_key(#[trigger] text.take(m)),
    ensures
        tokenizer::longest_match(ids, text, 0, limit) == n,
    decreases limit,
{
    if limit > 0 {
        assert(text.subrange(0, limit as int) =~= text.take(limit as int));
        if n < limit {
            lemma_match_is(ids, text, n, (limit - 1) as nat);
        }
    }
}

/// The longest of the tokens that a text with its spaces made visible starts with comes first; the
/// rest of the text is encoded as on its own. No visible space is put in front.
pub proof fn the_longest_token_comes_first(lexicon: Lexicon, text: Seq<char>, n: nat)
    requires
        lexicon.is_tabled(),
        0 < n <= text.len(),
        lexicon.ids.contains_key(tokenizer::visible_spaces(text).take(n as int)),
        forall|m: int|
            n < m <= text.len() ==> !lexicon.ids.contains_key(
                #[trigger] tokenizer::visible_spaces(text).take(m),
            ),
    ensures
        lexicon.encode_spm(text) == seq![
            lexicon.ids[tokenizer::visible_spaces(text).take(n as int)],
        ] + lexicon.encode_spm(text.skip(n as int)),
        lexicon.spm ==> lexicon.encode(text) == seq![
            lexicon.ids[tokenizer::visible_spaces(text).take(n as int)],
        ] + lexicon.encode(text.skip(n as int)),
{
    let visible = tokenizer::visible_spaces(text);
    lemma_longest(lexicon.vocab, visible.take(n as int));
    lemma_match_is(lexicon.ids, visible, n, lexicon.reach(visible, 0));
    lemma_greedy_shifts(lexicon, visible, n as int, 0);
    assert(visible.subrange(0, n as int) =~= visible.take(n as int));
    assert(tokenizer::visible_spaces(text.skip(n as int)) =~= visible.skip(n as int));
}

/// Where a text starts with no token, the bytes of its first character come first; the rest of the
/// text is encoded as on its own.
pub proof fn an_uncovered_character_becomes_bytes(lexicon: Lexicon, text: Seq<char>)
    requires
        0 < text.len(),
        forall|m: int|
            0 < m <= text.len() ==> !lexicon.ids.contains_key(
                #[trigger] tokenizer::visible_spaces(text).take(m),
            ),
    ensures
        lexicon.encode_spm(text) == bpe::byte_ids(
            lexicon.ids,
            encode_utf8(seq![tokenizer::visible_spaces(text)[0]]),
            lexicon.unk_id,
        ) + lexicon.encode_spm(text.skip(1)),
        lexicon.spm ==> lexicon.encode(text) == bpe::byte_ids(
            lexicon.ids,
            encode_utf8(seq![tokenizer::visible_spaces(text)[0]]),
            lexicon.unk_id,
        ) + lexicon.encode(text.skip(1)),
{
    let visible = tokenizer::visible_spaces(text);
    lemma_match_is(lexicon.ids, visible, 0, lexicon.reach(visible, 0));
    lemma_greedy_shifts(lexicon, visible, 1, 0);
    assert(tokenizer::visible_spaces(text.skip(1)) =~= visible.skip(1));
}

/// A matched token is one of the vocabulary.
proof fn lemma_match_found(ids: Map<Seq<char>, u32>, text: Seq<char>, from: int, limit: nat)
    requires
        tokenizer::longest_match(ids, text, from, limit) > 0,
    ensures
        ids.contains_key(
            text.subrange(from, from + tokenizer::longest_match(ids, text, from, limit)),
        ),
    decreases limit,
{
    if limit > 0 && !ids.contains_key(text.subrange(from, from + limit)) {
        lemma_match_found(ids, text, from, (limit - 1) as nat);
    }
}

/// The identifier is that of a token for text, of a token that stands in the text as it is, or the
/// unknown one.
pub open spec fn accounted(lexicon: Lexicon, visible: Seq<char>, id: u32) -> bool {
    ||| lexicon.ordinary(id)
    ||| (id as int) < lexicon.vocab.len() && exists|at: int|
        text::occurs(visible, lexicon.vocab[id as int], at)
    ||| id == lexicon.unk_id && id != u32::MAX
}

/// Every identifier from a place on is accounted for.
proof fn lemma_greedy_accounted(lexicon: Lexicon, visible: Seq<char>, from: int, i: int)
    requires
        lexicon.is_tabled(),
        lexicon.vocab.len() <= u32::MAX,
        0 <= from,
        0 <= i < lexicon.greedy(visible, from).len(),
    ensures
        accounted(lexicon, visible, lexicon.greedy(visible, from)[i]),
    decreases visible.len() - from,
{
    let reach = lexicon.reach(visible, from);
    let len = tokenizer::longest_match(lexicon.ids, visible, from, reach);
    tokenizer::lemma_longest_match(lexicon.ids, visible, from, reach);
    if len > 0 {
        let token = visible.subrange(from, from + len);
        if i == 0 {
            lemma_match_found(lexicon.ids, visible, from, reach);
            tokenizer_laws::lemma_ids(lexicon.vocab, token);
            assert(text::occurs(visible, token, from));
        } else {
            lemma_greedy_accounted(lexicon, visible, from + len, i - 1);
        }
    } else {
        let bytes = encode_utf8(seq![visible[from]]);
        let first = bpe::byte_ids(lexicon.ids, bytes, lexicon.unk_id);
        if i < first.len() {
            tokenizer_laws::lemma_byte_ids(lexicon, bytes, lexicon.unk_id, i);
        } else {
            lemma_greedy_accounted(lexicon, visible, from + 1, i - first.len());
        }
    }
}

/// Sentence pieces are tokens of the vocabulary, or the unknown token; one that marks structure
/// comes only of a text in which it stands, with the spaces made visible, as it is.
pub proof fn structure_comes_only_of_its_own_name(lexicon: Lexicon, text: Seq<char>)
    requires
        lexicon.is_tabled(),
        lexicon.vocab.len() <= u32::MAX,
    ensures
        forall|i: int|
            0 <= i < lexicon.encode_spm(text).len() ==> accounted(
                lexicon,
                tokenizer::visible_spaces(text),
                #[trigger] lexicon.encode_spm(text)[i],
            ),
{
    let visible = tokenizer::visible_spaces(text);
    assert forall|i: int| 0 <= i < lexicon.encode_spm(text).len() implies accounted(
        lexicon,
        visible,
        #[trigger] lexicon.encode_spm(text)[i],
    ) by {
        lemma_greedy_accounted(lexicon, visible, 0, i);
    }
}

/// Decoding undoes encoding: with a vocabulary of sentence pieces in which every byte has a token,
/// the tokens of a text stand for exactly its bytes. The text has no visible space of its own, and
/// nothing in it reads like a token that stands for something else; and where it has a space, the
/// vocabulary has the piece for one.
pub proof fn decoding_undoes_encoding(lexicon: Lexicon, text: Seq<char>)
    requires
        lexicon.spm,
        lexicon.has_bytes(),
        !text.contains(tokenizer::SPACE),
        lexicon.plain_in(tokenizer::visible_spaces(text)),
        text.contains(' ') ==> lexicon.ids.contains_key(seq![tokenizer::SPACE]),
    ensures
        lexicon.bytes_of_all(lexicon.encode(text)) == encode_utf8(text),
        valid_utf8(lexicon.bytes_of_all(lexicon.encode(text))),
        decode_utf8(lexicon.bytes_of_all(lexicon.encode(text))) == text,
{
    let visible = tokenizer::visible_spaces(text);
    if visible.contains(tokenizer::SPACE) {
        let i = choose|i: int| 0 <= i < visible.len() && visible[i] == tokenizer::SPACE;
        assert(!text.contains(tokenizer::SPACE));
        assert(text[i] == ' ' || text[i] == visible[i]);
        assert(text.contains(text[i]));
    }
    lemma_greedy(lexicon, visible, 0);
    assert(visible.skip(0) =~= visible);
    assert forall|i: int| 0 <= i < text.len() implies #[trigger] text[i] != tokenizer::SPACE by {
        assert(text.contains(text[i]));
    }
    assert(tokenizer::plain_spaces(visible) =~= text);
    encode_utf8_valid_utf8(text);
    encode_utf8_decode_utf8(text);
}

} // verus!
