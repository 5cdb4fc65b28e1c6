//! What holds of byte-level vocabularies: text is encoded without structure, and decoding gives back
//! what was encoded.

use vstd::prelude::*;
use vstd::utf8::*;
use crate::bpe;
use crate::byte_chars;
use crate::text;
use crate::tokenizer;
use crate::tokenizer::Lexicon;
use crate::unicode;

verus! {

broadcast use vstd::string::group_string_axioms;

/// Encoding a concatenation concatenates the encodings.
pub proof fn lemma_encode_add(a: Seq<char>, b: Seq<char>)
    ensures
        encode_utf8(a + b) == encode_utf8(a) + encode_utf8(b),
    decreases a.len(),
{
    if a.len() == 0 {
        assert(a + b =~= b);
        assert(encode_utf8(a) + encode_utf8(b) =~= encode_utf8(b));
    } else {
        lemma_encode_add(a.drop_first(), b);
        assert((a + b).drop_first() =~= a.drop_first() + b);
        assert(encode_utf8(a + b) =~= encode_utf8(a) + encode_utf8(b));
    }
}

/// An ASCII byte of an encoding is an ASCII character of the text.
proof fn lemma_ascii_byte(text: Seq<char>, at: int)
    requires
        0 <= at < encode_utf8(text).len(),
        encode_utf8(text)[at] < 0x80,
    ensures
        exists|i: int|
            0 <= i < text.len() && #[trigger] text[i] as int == encode_utf8(text)[at] as int,
    decreases text.len(),
{
    let s = text[0] as u32;
    let first = encode_scalar(s);
    let rest = encode_utf8(text.drop_first());
    char_is_scalar(text[0]);
    if at < first.len() {
        if !has_width_1_encoding(s) {
            lemma_wide_bytes(s);
            assert(encode_utf8(text)[at] == first[at]);
            assert(false);
        }
        assert(s & 0x7f == s) by (bit_vector)
            requires
                s <= 0x7f,
        ;
        char_u32_cast(text[0], s);
        assert((s as char) as int == s as int);
        assert(encode_utf8(text)[at] == first[at]);
        assert(text[0] as int == encode_utf8(text)[at] as int);
    } else {
        assert(encode_utf8(text)[at] == rest[at - first.len()]);
        lemma_ascii_byte(text.drop_first(), at - first.len());
        let i = choose|i: int|
            0 <= i < text.drop_first().len() && #[trigger] text.drop_first()[i] as int
                == rest[at - first.len()] as int;
        assert(text[i + 1] == text.drop_first()[i]);
    }
}

/// No byte of a longer encoding is ASCII.
proof fn lemma_wide_bytes(s: u32)
    ensures
        leading_byte_width_2(s) >= 0x80,
        leading_byte_width_3(s) >= 0x80,
        leading_byte_width_4(s) >= 0x80,
        last_continuation_byte(s) >= 0x80,
        second_last_continuation_byte(s) >= 0x80,
        third_last_continuation_byte(s) >= 0x80,
{
    lemma_high_bit(((s >> 6) & 0x1F) as u8);
    lemma_high_bit(((s >> 12) & 0x0F) as u8);
    lemma_high_bit(((s >> 18) & 0x7) as u8);
    lemma_high_bit((s & 0x3F) as u8);
    lemma_high_bit(((s >> 6) & 0x3F) as u8);
    lemma_high_bit(((s >> 12) & 0x3F) as u8);
}

proof fn lemma_high_bit(b: u8)
    by (bit_vector)
    ensures
        0xC0u8 | b >= 0x80,
        0xE0u8 | b >= 0x80,
        0xF0u8 | b >= 0x80,
        0x80u8 | b >= 0x80,
{
}

/// The identifiers belong to the vocabulary.
pub(crate) proof fn lemma_ids(vocab: Seq<Seq<char>>, token: Seq<char>)
    requires
        vocab.len() <= u32::MAX,
        tokenizer::ids_of(vocab).contains_key(token),
    ensures
        (tokenizer::ids_of(vocab)[token] as int) < vocab.len(),
        vocab[tokenizer::ids_of(vocab)[token] as int] == token,
    decreases vocab.len(),
{
    if vocab.len() > 0 && vocab.last() != token {
        lemma_ids(vocab.drop_last(), token);
    }
}

/// Only the bracket itself has an angle bracket in a word.
proof fn lemma_word_bracket(t: Seq<char>, from: int, i: int)
    requires
        0 <= from < t.len(),
        from <= i < tokenizer::word_end(t, from),
        t[i] == '<',
    ensures
        tokenizer::word_end(t, from) == from + 1,
{
    if t[from] == ' ' {
        lemma_letters_all(t, from + 1, i);
    } else if unicode::alphabetic(t[from]) {
        lemma_letters_all(t, from, i);
    } else if unicode::ascii_digit(t[from]) {
        lemma_digits_all(t, from, i);
    }
}

proof fn lemma_letters_all(t: Seq<char>, from: int, i: int)
    requires
        0 <= from,
        from <= i < from + tokenizer::letters(t, from),
    ensures
        0 <= i < t.len(),
        unicode::alphabetic(t[i]),
    decreases t.len() - from,
{
    if i > from {
        lemma_letters_all(t, from + 1, i);
    }
}

proof fn lemma_digits_all(t: Seq<char>, from: int, i: int)
    requires
        0 <= from,
        from <= i < from + tokenizer::digits(t, from),
    ensures
        0 <= i < t.len(),
        unicode::ascii_digit(t[i]),
    decreases t.len() - from,
{
    if i > from {
        lemma_digits_all(t, from + 1, i);
    }
}

/// A word that has an angle bracket is nothing else.
pub open spec fn bracket_alone(word: Seq<char>) -> bool {
    forall|i: int| 0 <= i < word.len() && #[trigger] word[i] == '<' ==> word.len() == 1
}

/// Every word of a text leaves angle brackets alone.
proof fn lemma_words_bracket(t: Seq<char>, from: int, k: int)
    requires
        0 <= from <= t.len(),
        0 <= k < tokenizer::words(t, from).len(),
    ensures
        bracket_alone(tokenizer::words(t, from)[k]),
    decreases t.len() - from,
{
    tokenizer::lemma_word_end(t, from);
    let end = tokenizer::word_end(t, from);
    let word = t.subrange(from, end);
    if k == 0 {
        assert(tokenizer::words(t, from)[0] == word);
        assert forall|i: int| 0 <= i < word.len() && #[trigger] word[i]
            == '<' implies word.len() == 1 by {
            lemma_word_bracket(t, from, from + i);
        }
    } else {
        assert(tokenizer::words(t, from)[k] == tokenizer::words(t, end)[k - 1]);
        lemma_words_bracket(t, end, k - 1);
    }
}

/// A word's spelling leaves angle brackets alone too.
proof fn lemma_spelled_bracket(word: Seq<char>)
    requires
        bracket_alone(word),
    ensures
        bracket_alone(tokenizer::spelled(word)),
{
    let bytes = encode_utf8(word);
    let out = tokenizer::spelled(word);
    assert forall|i: int| 0 <= i < out.len() && #[trigger] out[i] == '<' implies out.len()
        == 1 by {
        assert(byte_chars::byte_char(60u8) == '<');
        byte_chars::byte_chars_are_distinct(bytes[i], 60u8);
        lemma_ascii_byte(word, i);
        let k = choose|k: int| 0 <= k < word.len() && #[trigger] word[k] as int == bytes[i] as int;
        assert(word[k] == '<');
        assert(word =~= seq!['<']);
        assert(word.drop_first() =~= Seq::empty());
        reveal_with_fuel(encode_utf8, 2);
        assert(has_width_1_encoding(word[0] as u32));
    }
}

/// Undoing a spelling works piece by piece.
proof fn lemma_unspelled_add(a: Seq<char>, b: Seq<char>)
    ensures
        tokenizer::unspelled(a + b) == tokenizer::unspelled(a) + tokenizer::unspelled(b),
    decreases b.len(),
{
    if b.len() == 0 {
        assert(a + b =~= a);
        assert(tokenizer::unspelled(a) + tokenizer::unspelled(b) =~= tokenizer::unspelled(a));
    } else {
        lemma_unspelled_add(a, b.drop_last());
        assert((a + b).drop_last() =~= a + b.drop_last());
        assert(tokenizer::unspelled(a + b) =~= tokenizer::unspelled(a) + tokenizer::unspelled(b));
    }
}

impl Lexicon {
    /// Every byte has a token, and so has whatever merging makes.
    pub open spec fn complete(self) -> bool {
        &&& self.vocab.len() <= u32::MAX
        &&& self.ids == tokenizer::ids_of(self.vocab)
        &&& forall|b: u8| self.ids.contains_key(seq![#[trigger] byte_chars::byte_char(b)])
        &&& forall|pair: (Seq<char>, Seq<char>)| #[trigger]
            self.ranks.contains_key(pair) && self.ranks[pair] < u32::MAX ==> self.ids.contains_key(
                pair.0 + pair.1,
            )
    }
}

/// A token that no bracket opens, and that has an identifier, decodes to its spelling's bytes.
proof fn lemma_token_bytes(lexicon: Lexicon, token: Seq<char>)
    requires
        !lexicon.spm,
        lexicon.complete(),
        lexicon.ids.contains_key(token),
        token.len() > 0,
        token.len() == 1 || token[0] != '<',
    ensures
        lexicon.bytes_of(lexicon.ids[token]) == tokenizer::unspelled(token),
{
    lemma_ids(lexicon.vocab, token);
    reveal_strlit("<s>");
    reveal_strlit("</s>");
    reveal_strlit("<unk>");
    if token[0] != '<' {
        assert("<s>"@[0] == '<');
        assert("</s>"@[0] == '<');
        assert("<unk>"@[0] == '<');
        if text::occurs(token, seq!['<', '|'], 0) {
            assert(token.subrange(0, 2)[0] == token[0]);
            assert(seq!['<', '|'][0] == '<');
        }
        if text::occurs(token, seq!['<', '0', 'x'], 0) {
            assert(token.subrange(0, 3)[0] == token[0]);
            assert(seq!['<', '0', 'x'][0] == '<');
        }
    }
    assert(!tokenizer::special_token(token));
    assert(tokenizer::named_byte(token) is None);
}

/// The bytes of a concatenation of tokens.
pub(crate) proof fn lemma_bytes_add(lexicon: Lexicon, a: Seq<u32>, b: Seq<u32>)
    ensures
        lexicon.bytes_of_all(a + b) == lexicon.bytes_of_all(a) + lexicon.bytes_of_all(b),
    decreases b.len(),
{
    if b.len() == 0 {
        assert(a + b =~= a);
        assert(lexicon.bytes_of_all(a) + lexicon.bytes_of_all(b) =~= lexicon.bytes_of_all(a));
    } else {
        lemma_bytes_add(lexicon, a, b.drop_last());
        assert((a + b).drop_last() =~= a + b.drop_last());
        assert(lexicon.bytes_of_all(a + b) =~= lexicon.bytes_of_all(a) + lexicon.bytes_of_all(b));
    }
}

/// The symbols have identifiers and are not empty.
spec fn known(lexicon: Lexicon, symbols: Seq<Seq<char>>) -> bool {
    forall|i: int|
        0 <= i < symbols.len() ==> lexicon.ids.contains_key(#[trigger] symbols[i])
            && symbols[i].len() > 0
}

/// Merging known symbols makes known symbols.
proof fn lemma_merged_known(lexicon: Lexicon, symbols: Seq<Seq<char>>)
    requires
        lexicon.complete(),
        known(lexicon, symbols),
    ensures
        known(lexicon, bpe::merged(lexicon.ranks, symbols)),
    decreases symbols.len(),
{
    if exists|i: int| #[trigger] bpe::merges_first(lexicon.ranks, symbols, i) {
        let i = choose|i: int| #[trigger] bpe::merges_first(lexicon.ranks, symbols, i);
        let next = bpe::merged_at(symbols, i);
        let pair = (symbols[i], symbols[i + 1]);
        assert(lexicon.ranks.contains_key(pair));
        assert forall|k: int| 0 <= k < next.len() implies lexicon.ids.contains_key(
            #[trigger] next[k],
        ) && next[k].len() > 0 by {
            if k < i {
                assert(next[k] == symbols[k]);
            } else if k > i {
                assert(next[k] == symbols[k + 1]);
            }
        }
        lemma_merged_known(lexicon, next);
    }
}

/// A character of a piece is a character of the whole.
proof fn lemma_piece_char(pieces: Seq<Seq<char>>, k: int, c: int)
    requires
        0 <= k < pieces.len(),
        0 <= c < pieces[k].len(),
    ensures
        exists|i: int|
            0 <= i < bpe::joined(pieces).len() && #[trigger] bpe::joined(pieces)[i] == pieces[k][c],
        pieces[k].len() <= bpe::joined(pieces).len(),
    decreases pieces.len(),
{
    let init = bpe::joined(pieces.drop_last());
    if k == pieces.len() - 1 {
        assert(bpe::joined(pieces)[init.len() + c] == pieces[k][c]);
    } else {
        lemma_piece_char(pieces.drop_last(), k, c);
        let i = choose|i: int|
            0 <= i < init.len() && #[trigger] init[i] == pieces.drop_last()[k][c];
        assert(bpe::joined(pieces)[i] == init[i]);
    }
}

/// Known symbols decode to the bytes of their spelling.
proof fn lemma_symbols_bytes(lexicon: Lexicon, symbols: Seq<Seq<char>>)
    requires
        !lexicon.spm,
        lexicon.complete(),
        known(lexicon, symbols),
        forall|i: int|
            0 <= i < symbols.len() ==> (#[trigger] symbols[i]).len() == 1 || symbols[i][0] != '<',
    ensures
        lexicon.bytes_of_all(bpe::symbol_ids(lexicon.ids, symbols)) == tokenizer::unspelled(
            bpe::joined(symbols),
        ),
    decreases symbols.len(),
{
    if symbols.len() > 0 {
        let init = symbols.drop_last();
        let last = symbols.last();
        assert forall|i: int| 0 <= i < init.len() implies lexicon.ids.contains_key(
            #[trigger] init[i],
        ) && init[i].len() > 0 && (init[i].len() == 1 || init[i][0] != '<') by {
            assert(init[i] == symbols[i]);
        }
        lemma_symbols_bytes(lexicon, init);
        assert(symbols[symbols.len() - 1] == last);
        lemma_token_bytes(lexicon, last);
        let earlier = bpe::symbol_ids(lexicon.ids, init);
        let id = lexicon.ids[last];
        assert(earlier.push(id).drop_last() =~= earlier);
        lemma_unspelled_add(bpe::joined(init), last);
    }
}

/// A word decodes to the bytes of its spelling.
proof fn lemma_word_bytes(lexicon: Lexicon, word: Seq<char>, bytes: Seq<u8>)
    requires
        !lexicon.spm,
        lexicon.complete(),
        bracket_alone(word),
        word == Seq::new(bytes.len(), |i: int| byte_chars::byte_char(bytes[i])),
    ensures
        lexicon.bytes_of_all(bpe::word_ids(lexicon.ids, lexicon.ranks, word)) == bytes,
{
    tokenizer::spelling_can_be_undone(bytes);
    let ids = bpe::word_ids(lexicon.ids, lexicon.ranks, word);
    if word.len() == 0 {
        assert(bytes =~= Seq::empty());
    } else if lexicon.ids.contains_key(word) {
        assert(word[0] == '<' ==> word.len() == 1);
        lemma_token_bytes(lexicon, word);
        assert(ids.drop_last() =~= Seq::empty());
        reveal_with_fuel(Lexicon::bytes_of_all, 2);
        assert(lexicon.bytes_of_all(ids) =~= lexicon.bytes_of(ids.last()));
    } else {
        let singles = bpe::singles(word);
        assert forall|i: int| 0 <= i < singles.len() implies lexicon.ids.contains_key(
            #[trigger] singles[i],
        ) && singles[i].len() > 0 by {
            assert(singles[i] =~= seq![byte_chars::byte_char(bytes[i])]);
        }
        lemma_merged_known(lexicon, singles);
        let symbols = bpe::merged(lexicon.ranks, singles);
        bpe::merging_keeps_the_text(lexicon.ranks, singles);
        bpe::singles_spell_the_word(word);
        assert forall|i: int| 0 <= i < symbols.len() implies (#[trigger] symbols[i]).len() == 1
            || symbols[i][0] != '<' by {
            if symbols[i][0] == '<' {
                lemma_piece_char(symbols, i, 0);
                let k = choose|k: int|
                    0 <= k < bpe::joined(symbols).len() && #[trigger] bpe::joined(symbols)[k]
                        == symbols[i][0];
                assert(word[k] == '<');
            }
        }
        lemma_symbols_bytes(lexicon, symbols);
    }
}

/// Words decode to the bytes of their text.
proof fn lemma_words_bytes(lexicon: Lexicon, pieces: Seq<Seq<char>>)
    requires
        !lexicon.spm,
        lexicon.complete(),
        forall|i: int| 0 <= i < pieces.len() ==> bracket_alone(#[trigger] pieces[i]),
    ensures
        lexicon.bytes_of_all(lexicon.spelled_words(pieces)) == encode_utf8(bpe::joined(pieces)),
    decreases pieces.len(),
{
    if pieces.len() > 0 {
        let init = pieces.drop_last();
        let last = pieces.last();
        assert forall|i: int| 0 <= i < init.len() implies bracket_alone(#[trigger] init[i]) by {
            assert(init[i] == pieces[i]);
        }
        lemma_words_bytes(lexicon, init);
        assert(pieces[pieces.len() - 1] == last);
        lemma_spelled_bracket(last);
        lemma_word_bytes(lexicon, tokenizer::spelled(last), encode_utf8(last));
        lemma_bytes_add(
            lexicon,
            lexicon.spelled_words(init),
            bpe::word_ids(lexicon.ids, lexicon.ranks, tokenizer::spelled(last)),
        );
        lemma_encode_add(bpe::joined(init), last);
    }
}

/// Decoding undoes encoding: with a byte-level vocabulary in which every byte and every merge has a
/// token, the tokens of a text stand for exactly its bytes, which decode to the text.
pub proof fn decoding_undoes_encoding(lexicon: Lexicon, text: Seq<char>)
    requires
        !lexicon.spm,
        lexicon.complete(),
    ensures
        lexicon.bytes_of_all(lexicon.encode(text)) == encode_utf8(text),
        valid_utf8(lexicon.bytes_of_all(lexicon.encode(text))),
        decode_utf8(lexicon.bytes_of_all(lexicon.encode(text))) == text,
{
    let pieces = tokenizer::words(text, 0);
    assert forall|i: int| 0 <= i < pieces.len() implies bracket_alone(#[trigger] pieces[i]) by {
        lemma_words_bracket(text, 0, i);
    }
    lemma_words_bytes(lexicon, pieces);
    tokenizer::words_spell_the_text(text, 0);
    assert(text.skip(0) =~= text);
    encode_utf8_valid_utf8(text);
    encode_utf8_decode_utf8(text);
}

/// The token of a byte marks no structure.
proof fn lemma_byte_name(b: u8)
    ensures
        !tokenizer::special_token(bpe::byte_name(b)),
{
    let name = bpe::byte_name(b);
    reveal_strlit("<0x");
    reveal_strlit(">");
    reveal_strlit("<s>");
    reveal_strlit("</s>");
    reveal_strlit("<unk>");
    assert(name[1] == '0');
    assert("<s>"@[1] == 's');
    assert("</s>"@[1] == '/');
    assert("<unk>"@[1] == 'u');
    if text::occurs(name, seq!['<', '|'], 0) {
        assert(name.subrange(0, 2)[1] == name[1]);
        assert(seq!['<', '|'][1] == '|');
    }
}

/// The identifiers of bytes are those of ordinary tokens, or the unknown one.
pub(crate) proof fn lemma_byte_ids(lexicon: Lexicon, bytes: Seq<u8>, unknown: u32, i: int)
    requires
        lexicon.is_tabled(),
        lexicon.vocab.len() <= u32::MAX,
        0 <= i < bpe::byte_ids(lexicon.ids, bytes, unknown).len(),
    ensures
        lexicon.ordinary(bpe::byte_ids(lexicon.ids, bytes, unknown)[i]) || (unknown != u32::MAX
            && bpe::byte_ids(lexicon.ids, bytes, unknown)[i] == unknown),
    decreases bytes.len(),
{
    let earlier = bpe::byte_ids(lexicon.ids, bytes.drop_last(), unknown);
    if i < earlier.len() {
        lemma_byte_ids(lexicon, bytes.drop_last(), unknown, i);
    } else {
        let name = bpe::byte_name(bytes.last());
        lemma_byte_name(bytes.last());
        if lexicon.ids.contains_key(name) {
            lemma_ids(lexicon.vocab, name);
        }
    }
}

/// A token that no bracket opens marks no structure.
proof fn lemma_unbracketed(lexicon: Lexicon, token: Seq<char>)
    requires
        lexicon.is_tabled(),
        lexicon.vocab.len() <= u32::MAX,
        lexicon.ids.contains_key(token),
        token.len() <= 1 || token[0] != '<',
    ensures
        lexicon.ordinary(lexicon.ids[token]),
{
    lemma_ids(lexicon.vocab, token);
    reveal_strlit("<s>");
    reveal_strlit("</s>");
    reveal_strlit("<unk>");
    assert("<s>"@[0] == '<');
    assert("</s>"@[0] == '<');
    assert("<unk>"@[0] == '<');
    if text::occurs(token, seq!['<', '|'], 0) {
        assert(token.subrange(0, 2)[0] == token[0]);
        assert(seq!['<', '|'][0] == '<');
    }
}

/// Symbols that no bracket opens have ordinary identifiers.
proof fn lemma_symbol_ids(lexicon: Lexicon, symbols: Seq<Seq<char>>, i: int)
    requires
        lexicon.is_tabled(),
        lexicon.vocab.len() <= u32::MAX,
        forall|k: int|
            0 <= k < symbols.len() ==> (#[trigger] symbols[k]).len() <= 1 || symbols[k][0] != '<',
        0 <= i < bpe::symbol_ids(lexicon.ids, symbols).len(),
    ensures
        lexicon.ordinary(bpe::symbol_ids(lexicon.ids, symbols)[i]),
    decreases symbols.len(),
{
    let init = symbols.drop_last();
    let earlier = bpe::symbol_ids(lexicon.ids, init);
    if i < earlier.len() {
        assert forall|k: int| 0 <= k < init.len() implies (#[trigger] init[k]).len() <= 1
            || init[k][0] != '<' by {
            assert(init[k] == symbols[k]);
        }
        lemma_symbol_ids(lexicon, init, i);
    } else {
        let symbol = symbols[symbols.len() - 1];
        if lexicon.ids.contains_key(symbol) {
            lemma_unbracketed(lexicon, symbol);
        } else {
            lemma_byte_ids(lexicon, encode_utf8(symbol), u32::MAX, i - earlier.len());
        }
    }
}

/// A word that leaves angle brackets alone has ordinary identifiers.
proof fn lemma_word_ids(lexicon: Lexicon, word: Seq<char>, i: int)
    requires
        lexicon.is_tabled(),
        lexicon.vocab.len() <= u32::MAX,
        bracket_alone(word),
        0 <= i < bpe::word_ids(lexicon.ids, lexicon.ranks, word).len(),
    ensures
        lexicon.ordinary(bpe::word_ids(lexicon.ids, lexicon.ranks, word)[i]),
{
    if lexicon.ids.contains_key(word) {
        assert(word[0] == '<' ==> word.len() == 1);
        lemma_unbracketed(lexicon, word);
    } else {
        let singles = bpe::singles(word);
        let symbols = bpe::merged(lexicon.ranks, singles);
        bpe::merging_keeps_the_text(lexicon.ranks, singles);
        bpe::singles_spell_the_word(word);
        assert forall|k: int| 0 <= k < symbols.len() implies (#[trigger] symbols[k]).len() <= 1
            || symbols[k][0] != '<' by {
            if symbols[k].len() > 0 && symbols[k][0] == '<' {
                lemma_piece_char(symbols, k, 0);
                let j = choose|j: int|
                    0 <= j < bpe::joined(symbols).len() && #[trigger] bpe::joined(symbols)[j]
                        == symbols[k][0];
                assert(word[j] == '<');
            }
        }
        lemma_symbol_ids(lexicon, symbols, i);
    }
}

/// Words that leave angle brackets alone have ordinary identifiers.
proof fn lemma_spelled_words(lexicon: Lexicon, pieces: Seq<Seq<char>>, i: int)
    requires
        lexicon.is_tabled(),
        lexicon.vocab.len() <= u32::MAX,
        forall|k: int| 0 <= k < pieces.len() ==> bracket_alone(#[trigger] pieces[k]),
        0 <= i < lexicon.spelled_words(pieces).len(),
    ensures
        lexicon.ordinary(lexicon.spelled_words(pieces)[i]),
    decreases pieces.len(),
{
    let init = pieces.drop_last();
    let earlier = lexicon.spelled_words(init);
    if i < earlier.len() {
        assert forall|k: int| 0 <= k < init.len() implies bracket_alone(#[trigger] init[k]) by {
            assert(init[k] == pieces[k]);
        }
        lemma_spelled_words(lexicon, init, i);
    } else {
        let last = pieces[pieces.len() - 1];
        lemma_spelled_bracket(last);
        lemma_word_ids(lexicon, tokenizer::spelled(last), i - earlier.len());
    }
}

/// Text is encoded without structure: with a byte-level vocabulary, every token of a text is one of
/// the vocabulary and none marks structure, whatever the text holds.
pub proof fn text_is_encoded_without_structure(lexicon: Lexicon, text: Seq<char>)
    requires
        !lexicon.spm,
        lexicon.is_tabled(),
        lexicon.vocab.len() <= u32::MAX,
    ensures
        forall|i: int|
            0 <= i < lexicon.encode(text).len() ==> lexicon.ordinary(
                #[trigger] lexicon.encode(text)[i],
            ),
{
    let pieces = tokenizer::words(text, 0);
    assert forall|i: int| 0 <= i < lexicon.encode(text).len() implies lexicon.ordinary(
        #[trigger] lexicon.encode(text)[i],
    ) by {
        assert forall|k: int| 0 <= k < pieces.len() implies bracket_alone(#[trigger] pieces[k]) by {
            lemma_words_bracket(text, 0, k);
        }
        lemma_spelled_words(lexicon, pieces, i);
    }
}

} // verus!
