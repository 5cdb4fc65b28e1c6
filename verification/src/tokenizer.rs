//! The language-model tokenizer: byte-level BPE or SentencePiece-style longest match, loaded from
//! the `tokenizer.ggml.*` metadata.

use std::collections::HashMap;
use vstd::prelude::*;
use vstd::hash_map::StringHashMap;
use crate::bpe;
use crate::bpe::{push_byte_ids, push_word_ids};
use crate::byte_chars;
use crate::byte_chars::build_byte_unicode_tables;
use crate::gguf;
use crate::gguf::{GgufFile, GgufValue};
use crate::lossy;
use crate::lossy::decode_lossy;
use crate::pair_map::PairMap;
use crate::text;
use crate::text::{chars_of, find_from, occurs_at, same_text, string_of};
use crate::unicode;
use crate::unicode::is_ascii_digit;

verus! {

broadcast use {vstd::string::group_string_axioms, vstd::std_specs::hash::group_hash_axioms};

/// SentencePiece's visible space.
pub const SPACE: char = '\u{2581}';

/// How many characters from index `from` on are alphabetic.
pub open spec fn letters(text: Seq<char>, from: int) -> int
    decreases text.len() - from,
{
    if 0 <= from < text.len() && unicode::alphabetic(text[from]) {
        1 + letters(text, from + 1)
    } else {
        0
    }
}

/// How many characters from index `from` on are ASCII digits.
pub open spec fn digits(text: Seq<char>, from: int) -> int
    decreases text.len() - from,
{
    if 0 <= from < text.len() && unicode::ascii_digit(text[from]) {
        1 + digits(text, from + 1)
    } else {
        0
    }
}

/// Where the word that starts at `from` ends: line breaks stand alone, a space goes with a run of
/// letters after it, letters and digits form runs, and anything else stands alone.
pub open spec fn word_end(text: Seq<char>, from: int) -> int {
    let c = text[from];
    if c == '\n' || c == '\r' {
        from + 1
    } else if c == ' ' {
        from + 1 + letters(text, from + 1)
    } else if unicode::alphabetic(c) {
        from + letters(text, from)
    } else if unicode::ascii_digit(c) {
        from + digits(text, from)
    } else {
        from + 1
    }
}

/// A run of letters stays within the text.
proof fn lemma_letters(text: Seq<char>, from: int)
    requires
        0 <= from <= text.len(),
    ensures
        0 <= letters(text, from) <= text.len() - from,
    decreases text.len() - from,
{
    if from < text.len() && unicode::alphabetic(text[from]) {
        lemma_letters(text, from + 1);
    }
}

/// A run of digits stays within the text.
proof fn lemma_digits(text: Seq<char>, from: int)
    requires
        0 <= from <= text.len(),
    ensures
        0 <= digits(text, from) <= text.len() - from,
    decreases text.len() - from,
{
    if from < text.len() && unicode::ascii_digit(text[from]) {
        lemma_digits(text, from + 1);
    }
}

/// A word has a character and ends within the text.
pub proof fn lemma_word_end(text: Seq<char>, from: int)
    requires
        0 <= from < text.len(),
    ensures
        from < word_end(text, from) <= text.len(),
{
    lemma_letters(text, from);
    lemma_letters(text, from + 1);
    lemma_digits(text, from);
    lemma_digits(text, from + 1);
}

/// The words of a text from index `from` on.
pub open spec fn words(text: Seq<char>, from: int) -> Seq<Seq<char>>
    decreases text.len() - from,
    when 0 <= from
    via words_decreases
{
    if from >= text.len() {
        Seq::empty()
    } else {
        seq![text.subrange(from, word_end(text, from))] + words(text, word_end(text, from))
    }
}

#[via_fn]
proof fn words_decreases(text: Seq<char>, from: int) {
    if from < text.len() {
        lemma_word_end(text, from);
    }
}

/// Splitting loses nothing: the words of a text, one after the other, are the text.
pub proof fn words_spell_the_text(text: Seq<char>, from: int)
    requires
        0 <= from <= text.len(),
    ensures
        bpe::joined(words(text, from)) == text.skip(from),
    decreases text.len() - from,
{
    if from < text.len() {
        lemma_word_end(text, from);
        let end = word_end(text, from);
        words_spell_the_text(text, end);
        let first = seq![text.subrange(from, end)];
        bpe::lemma_joined_add(first, words(text, end));
        assert(first.drop_last() =~= Seq::empty());
        reveal_with_fuel(bpe::joined, 2);
        assert(bpe::joined(first) =~= text.subrange(from, end));
        assert(text.skip(from) =~= text.subrange(from, end) + text.skip(end));
    } else {
        assert(text.skip(from) =~= Seq::empty());
    }
}

/// The index after a run of letters.
pub(crate) fn skip_letters(text: &[char], from: usize) -> (end: usize)
    requires
        from <= text@.len(),
    ensures
        end == from + letters(text@, from as int),
        from <= end <= text@.len(),
{
    let mut end: usize = from;
    while end < text.len() && text[end].is_alphabetic()
        invariant
            from <= end <= text@.len(),
            letters(text@, from as int) == (end - from) + letters(text@, end as int),
        decreases text.len() - end,
    {
        end = end + 1;
    }
    end
}

/// The index after a run of digits.
fn skip_digits(text: &[char], from: usize) -> (end: usize)
    requires
        from <= text@.len(),
    ensures
        end == from + digits(text@, from as int),
        from <= end <= text@.len(),
{
    let mut end: usize = from;
    while end < text.len() && is_ascii_digit(text[end])
        invariant
            from <= end <= text@.len(),
            digits(text@, from as int) == (end - from) + digits(text@, end as int),
        decreases text.len() - end,
    {
        end = end + 1;
    }
    end
}

/// Splits a text into the words that are encoded on their own.
pub fn pre_tokenize(text: &str) -> (pieces: Vec<String>)
    ensures
        bpe::texts(pieces@) == words(text@, 0),
        bpe::joined(bpe::texts(pieces@)) == text@,
{
    let chars = chars_of(text);
    let mut pieces: Vec<String> = Vec::new();
    let mut at: usize = 0;
    while at < chars.len()
        invariant
            chars@ == text@,
            at <= chars@.len(),
            bpe::texts(pieces@) + words(text@, at as int) == words(text@, 0),
        decreases chars.len() - at,
    {
        proof {
            lemma_word_end(text@, at as int);
        }
        let c: char = chars[at];
        let end: usize = if c == '\n' || c == '\r' {
            at + 1
        } else if c == ' ' {
            skip_letters(&chars, at + 1)
        } else if c.is_alphabetic() {
            skip_letters(&chars, at)
        } else if is_ascii_digit(c) {
            skip_digits(&chars, at)
        } else {
            at + 1
        };
        let ghost before = pieces@;
        pieces.push(string_of(&chars, at, end));
        proof {
            let piece = text@.subrange(at as int, end as int);
            assert(bpe::texts(pieces@) =~= bpe::texts(before).push(piece));
            assert(bpe::texts(pieces@) + words(text@, end as int) =~= bpe::texts(before) + (
            seq![piece] + words(text@, end as int)));
        }
        at = end;
    }
    proof {
        assert(bpe::texts(pieces@) + words(text@, at as int) =~= bpe::texts(pieces@));
        words_spell_the_text(text@, 0);
        assert(text@.skip(0) =~= text@);
    }
    pieces
}

/// Identifiers by token; of a token that occurs twice, the later one counts.
pub open spec fn ids_of(vocab: Seq<Seq<char>>) -> Map<Seq<char>, u32>
    decreases vocab.len(),
{
    if vocab.len() == 0 {
        Map::empty()
    } else {
        ids_of(vocab.drop_last()).insert(vocab.last(), (vocab.len() - 1) as u32)
    }
}

/// The length of the longest token, or 1 without tokens.
pub open spec fn longest_of(vocab: Seq<Seq<char>>) -> nat
    decreases vocab.len(),
{
    if vocab.len() == 0 {
        1
    } else if vocab.len() == 1 {
        vocab[0].len()
    } else {
        let earlier = longest_of(vocab.drop_last());
        if vocab.last().len() > earlier {
            vocab.last().len()
        } else {
            earlier
        }
    }
}

/// What a tokenizer knows.
pub struct Lexicon {
    pub vocab: Seq<Seq<char>>,
    pub ids: Map<Seq<char>, u32>,
    pub ranks: bpe::Ranks,
    pub spm: bool,
    pub longest: nat,
    pub bos_id: u32,
    pub eos_id: u32,
    pub unk_id: u32,
    pub im_start_id: u32,
    pub im_end_id: u32,
    pub msg_start_id: u32,
    pub end_id: u32,
    pub return_id: u32,
    pub channel_id: u32,
    pub message_id: u32,
}

/// A text with every space made visible.
pub open spec fn visible_spaces(text: Seq<char>) -> Seq<char> {
    Seq::new(
        text.len(),
        |i: int|
            if text[i] == ' ' {
                SPACE
            } else {
                text[i]
            },
    )
}

/// The length of the longest token of at most `limit` characters that stands at `from`; 0 if none.
pub open spec fn longest_match(
    ids: Map<Seq<char>, u32>,
    text: Seq<char>,
    from: int,
    limit: nat,
) -> nat
    decreases limit,
{
    if limit == 0 {
        0
    } else if ids.contains_key(text.subrange(from, from + limit)) {
        limit
    } else {
        longest_match(ids, text, from, (limit - 1) as nat)
    }
}

/// A match is never longer than its limit.
pub proof fn lemma_longest_match(ids: Map<Seq<char>, u32>, text: Seq<char>, from: int, limit: nat)
    ensures
        longest_match(ids, text, from, limit) <= limit,
    decreases limit,
{
    if limit > 0 && !ids.contains_key(text.subrange(from, from + limit)) {
        lemma_longest_match(ids, text, from, (limit - 1) as nat);
    }
}

/// The bytes of GPT-2's printable spelling of a text.
pub open spec fn spelled(text: Seq<char>) -> Seq<char> {
    let bytes = vstd::utf8::encode_utf8(text);
    Seq::new(bytes.len(), |i: int| byte_chars::byte_char(bytes[i]))
}

impl Lexicon {
    /// The identifiers and the longest length are those of the vocabulary.
    pub open spec fn is_tabled(self) -> bool {
        &&& self.ids == ids_of(self.vocab)
        &&& self.longest == longest_of(self.vocab)
    }

    /// The most characters a match at `from` may have.
    pub open spec fn reach(self, text: Seq<char>, from: int) -> nat {
        if self.longest < text.len() - from {
            self.longest
        } else {
            (text.len() - from) as nat
        }
    }

    /// The identifiers of a text from `from` on by longest match; a character that no token covers
    /// becomes its bytes.
    pub open spec fn greedy(self, text: Seq<char>, from: int) -> Seq<u32>
        decreases text.len() - from,
    {
        if from < 0 || from >= text.len() {
            Seq::empty()
        } else {
            let len = longest_match(self.ids, text, from, self.reach(text, from));
            proof {
                lemma_longest_match(self.ids, text, from, self.reach(text, from));
            }
            if len > 0 {
                seq![self.ids[text.subrange(from, from + len)]] + self.greedy(text, from + len)
            } else {
                bpe::byte_ids(
                    self.ids,
                    vstd::utf8::encode_utf8(seq![text[from]]),
                    self.unk_id,
                ) + self.greedy(text, from + 1)
            }
        }
    }

    /// The identifiers of words, one after the other.
    pub open spec fn spelled_words(self, pieces: Seq<Seq<char>>) -> Seq<u32>
        decreases pieces.len(),
    {
        if pieces.len() == 0 {
            Seq::empty()
        } else {
            self.spelled_words(pieces.drop_last()) + bpe::word_ids(
                self.ids,
                self.ranks,
                spelled(pieces.last()),
            )
        }
    }

    /// The identifiers of a text as sentence pieces.
    pub open spec fn encode_spm(self, text: Seq<char>) -> Seq<u32> {
        self.greedy(visible_spaces(text), 0)
    }

    /// The identifiers of a text.
    pub open spec fn encode(self, text: Seq<char>) -> Seq<u32> {
        if self.spm {
            self.encode_spm(text)
        } else {
            self.spelled_words(words(text, 0))
        }
    }

    /// The length of the special token that a template starts with, where the vocabulary has it.
    pub open spec fn special_at(self, text: Seq<char>) -> Option<int> {
        if !text::occurs(text, seq!['<', '|'], 0) {
            None
        } else {
            match text::first_from(text, seq!['|', '>'], 0) {
                Some(end) => if self.ids.contains_key(text.take(end + 2)) {
                    Some(end + 2)
                } else {
                    None
                },
                None => None,
            }
        }
    }

    /// Where the plain text that a template starts with ends: before the next `<|`.
    pub open spec fn plain_end(self, text: Seq<char>) -> int {
        match text::first_from(text, seq!['<', '|'], 1) {
            Some(at) => at,
            None => text.len() as int,
        }
    }

    /// The identifiers of a template: special tokens stand for themselves, the text between them is
    /// encoded.
    pub open spec fn template(self, text: Seq<char>) -> Seq<u32>
        decreases text.len(),
        via Self::template_decreases
    {
        if text.len() == 0 {
            Seq::empty()
        } else {
            match self.special_at(text) {
                Some(len) => seq![self.ids[text.take(len)]] + self.template(text.skip(len)),
                None => self.encode(text.take(self.plain_end(text))) + self.template(
                    text.skip(self.plain_end(text)),
                ),
            }
        }
    }

    #[via_fn]
    proof fn template_decreases(self, text: Seq<char>) {
        if text.len() > 0 {
            text::lemma_first_from(text, seq!['|', '>'], 0);
            text::lemma_first_from(text, seq!['<', '|'], 1);
        }
    }

    /// The token marks structure rather than text.
    pub open spec fn special(self, id: u32) -> bool {
        &&& (id as int) < self.vocab.len()
        &&& special_token(self.vocab[id as int])
    }

    /// The token is one of the vocabulary, and stands for text.
    pub open spec fn ordinary(self, id: u32) -> bool {
        (id as int) < self.vocab.len() && !self.special(id)
    }

    /// The bytes of a token.
    pub open spec fn bytes_of(self, id: u32) -> Seq<u8> {
        if id as int >= self.vocab.len() || self.special(id) {
            Seq::empty()
        } else {
            let token = self.vocab[id as int];
            match named_byte(token) {
                Some(byte) => seq![byte],
                None => if self.spm {
                    vstd::utf8::encode_utf8(plain_spaces(token))
                } else {
                    unspelled(token)
                },
            }
        }
    }

    /// The bytes of tokens, one after the other.
    pub open spec fn bytes_of_all(self, ids: Seq<u32>) -> Seq<u8>
        decreases ids.len(),
    {
        if ids.len() == 0 {
            Seq::empty()
        } else {
            self.bytes_of_all(ids.drop_last()) + self.bytes_of(ids.last())
        }
    }

    /// The token ends the turn.
    pub open spec fn ends_turn(self, id: u32) -> bool {
        if self.return_id != u32::MAX {
            id == self.return_id || id == self.bos_id
        } else {
            id == self.eos_id || id == self.im_end_id || id == self.bos_id
        }
    }
}

/// A token that marks structure: `<|..|>`, or a sentence or unknown marker.
pub open spec fn special_token(token: Seq<char>) -> bool {
    ||| text::occurs(token, seq!['<', '|'], 0) && text::occurs(
        token,
        seq!['|', '>'],
        token.len() - 2,
    )
    ||| token == "<s>"@
    ||| token == "</s>"@
    ||| token == "<unk>"@
}

/// A text with every visible space made a space.
pub open spec fn plain_spaces(text: Seq<char>) -> Seq<char> {
    Seq::new(
        text.len(),
        |i: int|
            if text[i] == SPACE {
                ' '
            } else {
                text[i]
            },
    )
}

/// The bytes whose stand-ins a token holds; other characters stand for nothing.
pub open spec fn unspelled(token: Seq<char>) -> Seq<u8>
    decreases token.len(),
{
    if token.len() == 0 {
        Seq::empty()
    } else {
        let earlier = unspelled(token.drop_last());
        if exists|b: u8| #[trigger] byte_chars::byte_char(b) == token.last() {
            earlier.push(choose|b: u8| #[trigger] byte_chars::byte_char(b) == token.last())
        } else {
            earlier
        }
    }
}

/// Spelling a text out byte by byte can be undone.
pub proof fn spelling_can_be_undone(bytes: Seq<u8>)
    ensures
        unspelled(Seq::new(bytes.len(), |i: int| byte_chars::byte_char(bytes[i]))) == bytes,
    decreases bytes.len(),
{
    let token = Seq::new(bytes.len(), |i: int| byte_chars::byte_char(bytes[i]));
    if bytes.len() > 0 {
        let init = bytes.drop_last();
        spelling_can_be_undone(init);
        assert(token.drop_last() =~= Seq::new(init.len(), |i: int| byte_chars::byte_char(init[i])));
        let last = bytes.last();
        assert(byte_chars::byte_char(last) == token.last());
        let b = choose|b: u8| #[trigger] byte_chars::byte_char(b) == token.last();
        byte_chars::byte_chars_are_distinct(b, last);
        assert(unspelled(token) =~= bytes);
    }
}

/// The value of a hexadecimal digit of either case.
pub open spec fn hex_value(c: char) -> Option<nat> {
    if '0' <= c <= '9' {
        Some((c as int - 48) as nat)
    } else if 'A' <= c <= 'F' {
        Some((c as int - 55) as nat)
    } else if 'a' <= c <= 'f' {
        Some((c as int - 87) as nat)
    } else {
        None
    }
}

/// The number that hexadecimal digits spell.
pub open spec fn hex_number(digits: Seq<char>) -> Option<nat>
    decreases digits.len(),
{
    if digits.len() == 0 {
        Some(0)
    } else {
        match (hex_number(digits.drop_last()), hex_value(digits.last())) {
            (Some(high), Some(low)) => Some(16 * high + low),
            _ => None,
        }
    }
}

/// The byte that a string of hexadecimal digits spells: at least one digit, with or without a plus
/// sign before them, and a value below 256.
pub open spec fn hex_byte(text: Seq<char>) -> Option<u8> {
    let digits = if text.len() > 0 && text[0] == '+' {
        text.skip(1)
    } else {
        text
    };
    if digits.len() == 0 {
        None
    } else {
        match hex_number(digits) {
            Some(n) => if n < 256 {
                Some(n as u8)
            } else {
                None
            },
            None => None,
        }
    }
}

/// The byte that a token such as `<0x0A>` names.
pub open spec fn named_byte(token: Seq<char>) -> Option<u8> {
    if token.len() >= 4 && text::occurs(token, seq!['<', '0', 'x'], 0) && token.last() == '>' {
        hex_byte(token.subrange(3, token.len() - 1))
    } else {
        None
    }
}

/// The tokenizer.
pub struct Tokenizer {
    vocab: Vec<String>,
    token_to_id: StringHashMap<u32>,
    merges: PairMap,
    byte_to_u: Vec<char>,
    u_to_byte: HashMap<u32, u8>,
    spm: bool,
    max_token_chars: usize,
    pub bos_id: u32,
    pub eos_id: u32,
    pub unk_id: u32,
    pub im_start_id: u32,
    pub im_end_id: u32,
    /// `<|start|>`, the role delimiter.
    pub msg_start_id: u32,
    pub end_id: u32,
    pub return_id: u32,
    /// `<|channel|>`, the channel switch.
    pub channel_id: u32,
    /// `<|message|>`, the message start.
    pub message_id: u32,
}

impl View for Tokenizer {
    type V = Lexicon;

    closed spec fn view(&self) -> Lexicon {
        Lexicon {
            vocab: bpe::texts(self.vocab@),
            ids: self.token_to_id@,
            ranks: self.merges@,
            spm: self.spm,
            longest: self.max_token_chars as nat,
            bos_id: self.bos_id,
            eos_id: self.eos_id,
            unk_id: self.unk_id,
            im_start_id: self.im_start_id,
            im_end_id: self.im_end_id,
            msg_start_id: self.msg_start_id,
            end_id: self.end_id,
            return_id: self.return_id,
            channel_id: self.channel_id,
            message_id: self.message_id,
        }
    }
}

impl Tokenizer {
    /// The tables belong to the vocabulary.
    pub closed spec fn wf(&self) -> bool {
        &&& self.merges.wf()
        &&& byte_chars::is_byte_table(self.byte_to_u@)
        &&& byte_chars::is_char_table(self.u_to_byte@)
        &&& self.token_to_id@ == ids_of(bpe::texts(self.vocab@))
        &&& self.max_token_chars == longest_of(bpe::texts(self.vocab@))
    }

    /// What a tokenizer knows of its tokens is what its vocabulary says.
    pub proof fn tables_belong_to_the_vocabulary(&self)
        requires
            self.wf(),
        ensures
            self@.is_tabled(),
    {
    }

    /// The token that declares a channel.
    pub fn channel_token(&self) -> (id: u32)
        ensures
            id == self@.channel_id,
    {
        self.channel_id
    }

    /// The token that starts a message.
    pub fn message_token(&self) -> (id: u32)
        ensures
            id == self@.message_id,
    {
        self.message_id
    }

    /// Encodes a text.
    pub fn encode(&self, text: &str) -> (ids: Vec<u32>)
        requires
            self.wf(),
        ensures
            ids@ == self@.encode(text@),
    {
        if self.spm {
            return self.encode_spm(text);
        }
        let pieces = pre_tokenize(text);
        let ghost all = bpe::texts(pieces@);
        let mut ids: Vec<u32> = Vec::new();
        let mut i: usize = 0;
        while i < pieces.len()
            invariant
                self.wf(),
                i <= pieces@.len(),
                all == bpe::texts(pieces@),
                ids@ == self@.spelled_words(all.take(i as int)),
            decreases pieces.len() - i,
        {
            proof {
                assert(all.take(i + 1).drop_last() =~= all.take(i as int));
            }
            let bytes = pieces[i].as_str().as_bytes();
            let mut word: Vec<char> = Vec::with_capacity(bytes.len());
            let mut j: usize = 0;
            while j < bytes.len()
                invariant
                    self.wf(),
                    j <= bytes@.len(),
                    word@.len() == j,
                    forall|k: int| 0 <= k < j ==> word@[k] == byte_chars::byte_char(bytes@[k]),
                decreases bytes.len() - j,
            {
                word.push(self.byte_to_u[bytes[j] as usize]);
                j = j + 1;
            }
            proof {
                assert(word@ =~= spelled(all[i as int]));
            }
            push_word_ids(&mut ids, &self.token_to_id, &self.merges, &word);
            i = i + 1;
        }
        proof {
            assert(all.take(all.len() as int) =~= all);
        }
        ids
    }

    /// Encodes a text as sentence pieces: with its spaces made visible, by longest match from the
    /// start, whatever kind of vocabulary this is.
    pub fn encode_spm(&self, text: &str) -> (ids: Vec<u32>)
        requires
            self.wf(),
        ensures
            ids@ == self@.encode_spm(text@),
    {
        let mut chars = chars_of(text);
        let ghost norm = visible_spaces(text@);
        let mut i: usize = 0;
        while i < chars.len()
            invariant
                i <= chars@.len() == text@.len(),
                norm == visible_spaces(text@),
                forall|k: int| 0 <= k < i ==> chars@[k] == norm[k],
                forall|k: int| i <= k < chars@.len() ==> chars@[k] == text@[k],
            decreases chars.len() - i,
        {
            if chars[i] == ' ' {
                chars[i] = SPACE;
            }
            i = i + 1;
        }
        proof {
            assert(chars@ =~= norm);
        }
        let mut ids: Vec<u32> = Vec::new();
        let mut at: usize = 0;
        while at < chars.len()
            invariant
                self.wf(),
                chars@ == norm,
                at <= chars@.len(),
                ids@ + self@.greedy(norm, at as int) == self@.greedy(norm, 0),
            decreases chars.len() - at,
        {
            let remaining: usize = chars.len() - at;
            let limit: usize = if self.max_token_chars < remaining {
                self.max_token_chars
            } else {
                remaining
            };
            let ghost before = ids@;
            let mut len: usize = limit;
            let mut matched: Option<u32> = None;
            while len > 0 && matched.is_none()
                invariant
                    chars@ == norm,
                    norm.len() <= usize::MAX,
                    len <= limit <= norm.len() - at,
                    longest_match(self@.ids, norm, at as int, limit as nat) == longest_match(
                        self@.ids,
                        norm,
                        at as int,
                        len as nat,
                    ),
                    matched is Some ==> len > 0 && self@.ids.contains_key(
                        norm.subrange(at as int, at + len),
                    ) && matched->0 == self@.ids[norm.subrange(at as int, at + len)],
                decreases
                        len + if matched is Some {
                            0int
                        } else {
                            1int
                        },
            {
                let token = string_of(&chars, at, at + len);
                match self.token_to_id.get(token.as_str()) {
                    Some(id) => {
                        matched = Some(*id);
                    },
                    None => {
                        len = len - 1;
                    },
                }
            }
            match matched {
                Some(id) => {
                    ids.push(id);
                    proof {
                        assert(ids@ + self@.greedy(norm, at + len) =~= before + (seq![id]
                            + self@.greedy(norm, at + len)));
                    }
                    at = at + len;
                },
                None => {
                    let one = bpe::single(chars[at]);
                    push_byte_ids(
                        &mut ids,
                        &self.token_to_id,
                        one.as_str().as_bytes(),
                        self.unk_id,
                    );
                    proof {
                        let bytes = bpe::byte_ids(
                            self@.ids,
                            vstd::utf8::encode_utf8(seq![norm[at as int]]),
                            self@.unk_id,
                        );
                        assert(ids@ + self@.greedy(norm, at + 1) =~= before + (bytes
                            + self@.greedy(norm, at + 1)));
                    }
                    at = at + 1;
                },
            }
        }
        proof {
            assert(ids@ + self@.greedy(norm, at as int) =~= ids@);
        }
        ids
    }

    /// Encodes a template, treating `<|...|>` as atomic special tokens.
    pub fn encode_template(&self, text: &str) -> (ids: Vec<u32>)
        requires
            self.wf(),
        ensures
            ids@ == self@.template(text@),
    {
        let chars = chars_of(text);
        let open: [char; 2] = ['<', '|'];
        let close: [char; 2] = ['|', '>'];
        assert(open@ =~= seq!['<', '|']);
        assert(close@ =~= seq!['|', '>']);
        let mut ids: Vec<u32> = Vec::new();
        let mut at: usize = 0;
        proof {
            assert(text@.skip(0) =~= text@);
            assert(ids@ + self@.template(text@) =~= self@.template(text@));
        }
        while at < chars.len()
            invariant
                self.wf(),
                chars@ == text@,
                at <= chars@.len(),
                open@ == seq!['<', '|'],
                close@ == seq!['|', '>'],
                ids@ + self@.template(text@.skip(at as int)) == self@.template(text@),
            decreases chars.len() - at,
        {
            let ghost rest = text@.skip(at as int);
            let ghost before = ids@;
            let tail = vstd::slice::slice_subrange(&chars, at, chars.len());
            proof {
                assert(tail@ =~= rest);
                text::lemma_first_from(rest, seq!['|', '>'], 0);
                text::lemma_first_from(rest, seq!['<', '|'], 1);
            }
            let mut special: Option<(usize, u32)> = None;
            if occurs_at(tail, &open, 0) {
                match find_from(tail, &close, 0) {
                    Some(end) => {
                        let token = string_of(tail, 0, end + 2);
                        proof {
                            assert(token@ =~= rest.take(end + 2));
                        }
                        match self.token_to_id.get(token.as_str()) {
                            Some(id) => {
                                special = Some((end + 2, *id));
                            },
                            None => {},
                        }
                    },
                    None => {},
                }
            }
            match special {
                Some((len, id)) => {
                    ids.push(id);
                    proof {
                        assert(rest.skip(len as int) =~= text@.skip(at + len));
                        assert(ids@ + self@.template(rest.skip(len as int)) =~= before + (seq![id]
                            + self@.template(rest.skip(len as int))));
                    }
                    at = at + len;
                },
                None => {
                    let next: usize = match find_from(tail, &open, 1) {
                        Some(end) => end,
                        None => tail.len(),
                    };
                    let plain = string_of(tail, 0, next);
                    proof {
                        assert(plain@ =~= rest.take(next as int));
                    }
                    let mut more = self.encode(plain.as_str());
                    let ghost added = more@;
                    ids.append(&mut more);
                    proof {
                        assert(rest.skip(next as int) =~= text@.skip(at + next));
                        assert(ids@ + self@.template(rest.skip(next as int)) =~= before + (added
                            + self@.template(rest.skip(next as int))));
                    }
                    at = at + next;
                },
            }
        }
        proof {
            assert(text@.skip(at as int) =~= Seq::empty());
            assert(ids@ + self@.template(text@.skip(at as int)) =~= ids@);
        }
        ids
    }
}

/// Role and text of messages.
pub type Turn = (Seq<char>, Seq<char>);

/// Role and text of messages.
pub open spec fn turns(messages: Seq<(&str, &str)>) -> Seq<Turn> {
    Seq::new(messages.len(), |i: int| (messages[i].0@, messages[i].1@))
}

/// A role that instructs the model.
pub open spec fn instructs(role: Seq<char>) -> bool {
    role == "system"@ || role == "developer"@
}

/// The prompt formats.
#[derive(Clone, Copy, Debug, PartialEq, Eq, Structural)]
pub enum Format {
    /// `<|start|>role<|message|>text<|end|>`
    Channels,
    /// `<|im_start|>role` and `<|im_end|>`
    ChatMl,
    /// `<|user|>` and `<|assistant|>`
    Tagged,
    /// `USER:` and `ASSISTANT:`
    Plain,
}

/// One message as the prompt shows it.
pub open spec fn shown(format: Format, turn: Turn) -> Seq<char> {
    let (role, content) = turn;
    match format {
        Format::Channels => if instructs(role) {
            "<|start|>developer<|message|>\n# Instructions\n\n"@ + content + "<|end|>"@
        } else if role == "assistant"@ {
            "<|start|>assistant<|message|>"@ + content + "<|end|>"@
        } else {
            "<|start|>user<|message|>"@ + content + "<|end|>"@
        },
        Format::ChatMl => "<|im_start|>"@ + role + "\n"@ + content + "<|im_end|>\n"@,
        Format::Tagged => if instructs(role) {
            "<|system|>\n"@ + content + "</s>\n"@
        } else if role == "assistant"@ {
            "<|assistant|>\n"@ + content + "</s>\n"@
        } else {
            "<|user|>\n"@ + content + "</s>\n"@
        },
        Format::Plain => if instructs(role) {
            "SYSTEM: "@ + content + "\n"@
        } else if role == "assistant"@ {
            content + "\n"@
        } else {
            "USER: "@ + content + "\nASSISTANT:"@
        },
    }
}

/// Messages as the prompt shows them, one after the other.
pub open spec fn shown_all(format: Format, messages: Seq<Turn>) -> Seq<char>
    decreases messages.len(),
{
    if messages.len() == 0 {
        Seq::empty()
    } else {
        shown_all(format, messages.drop_last()) + shown(format, messages.last())
    }
}

/// Some message is neither an instruction nor the assistant's.
pub open spec fn user_spoke(messages: Seq<Turn>) -> bool {
    exists|i: int|
        0 <= i < messages.len() && !instructs((#[trigger] messages[i]).0) && messages[i].0
            != "assistant"@
}

/// What stands before the messages.
pub open spec fn opening(format: Format) -> Seq<char> {
    match format {
        Format::Channels => "<|start|>system<|message|>"@ + "Knowledge cutoff: 2024-06\n\n"@
            + "Reasoning: low\n\n"@
            + "# Valid channels: analysis, final. Channel must be included for every message."@
            + "<|end|>"@,
        _ => Seq::empty(),
    }
}

/// What stands after the messages and calls for the assistant's turn.
pub open spec fn closing(format: Format, messages: Seq<Turn>) -> Seq<char> {
    match format {
        Format::Channels => "<|start|>assistant"@,
        Format::ChatMl => "<|im_start|>assistant\n"@,
        Format::Tagged => "<|assistant|>\n"@,
        Format::Plain => if user_spoke(messages) {
            Seq::empty()
        } else {
            "USER: hello\nASSISTANT:"@
        },
    }
}

/// The prompt of a conversation.
pub open spec fn prompt(format: Format, messages: Seq<Turn>) -> Seq<char> {
    opening(format) + shown_all(format, messages) + closing(format, messages)
}

impl Lexicon {
    /// The format of the model's prompts: with channels where the vocabulary has their marker, and
    /// otherwise ChatML.
    pub open spec fn format(self) -> Format {
        if self.ids.contains_key("<|start|>"@) {
            Format::Channels
        } else {
            Format::ChatMl
        }
    }

    /// The identifiers of a conversation's prompt.
    pub open spec fn conversation(self, messages: Seq<Turn>) -> Seq<u32> {
        self.template(prompt(self.format(), messages))
    }
}

/// Whether a role instructs the model.
fn role_instructs(role: &str) -> (r: bool)
    ensures
        r == instructs(role@),
{
    same_text(role, "system") || same_text(role, "developer")
}

/// Appends one message as the prompt shows it.
fn push_shown(out: &mut String, format: Format, role: &str, content: &str)
    ensures
        final(out)@ == old(out)@ + shown(format, (role@, content@)),
{
    let ghost before = out@;
    let instruction: bool = role_instructs(role);
    let assistant: bool = same_text(role, "assistant");
    match format {
        Format::Channels => {
            if instruction {
                out.append("<|start|>developer<|message|>\n# Instructions\n\n");
            } else if assistant {
                out.append("<|start|>assistant<|message|>");
            } else {
                out.append("<|start|>user<|message|>");
            }
            out.append(content);
            out.append("<|end|>");
        },
        Format::ChatMl => {
            out.append("<|im_start|>");
            out.append(role);
            out.append("\n");
            out.append(content);
            out.append("<|im_end|>\n");
        },
        Format::Tagged => {
            if instruction {
                out.append("<|system|>\n");
            } else if assistant {
                out.append("<|assistant|>\n");
            } else {
                out.append("<|user|>\n");
            }
            out.append(content);
            out.append("</s>\n");
        },
        Format::Plain => {
            if instruction {
                out.append("SYSTEM: ");
                out.append(content);
                out.append("\n");
            } else if assistant {
                out.append(content);
                out.append("\n");
            } else {
                out.append("USER: ");
                out.append(content);
                out.append("\nASSISTANT:");
            }
        },
    }
    assert(out@ =~= before + shown(format, (role@, content@)));
}

/// The prompt of a conversation.
pub fn build_prompt(format: Format, messages: &[(&str, &str)]) -> (out: String)
    ensures
        out@ == prompt(format, turns(messages@)),
{
    let ghost all = turns(messages@);
    let mut out = String::new();
    match format {
        Format::Channels => {
            out.append("<|start|>system<|message|>");
            out.append("Knowledge cutoff: 2024-06\n\n");
            out.append("Reasoning: low\n\n");
            out.append(
                "# Valid channels: analysis, final. Channel must be included for every message.",
            );
            out.append("<|end|>");
        },
        _ => {},
    }
    proof {
        assert(out@ =~= opening(format));
    }
    let mut saw_user: bool = false;
    let mut i: usize = 0;
    while i < messages.len()
        invariant
            i <= messages@.len(),
            all == turns(messages@),
            out@ == opening(format) + shown_all(format, all.take(i as int)),
            saw_user == user_spoke(all.take(i as int)),
        decreases messages.len() - i,
    {
        let (role, content) = messages[i];
        let ghost before = out@;
        let ghost longer = all.take(i + 1);
        push_shown(&mut out, format, role, content);
        let speaks: bool = !role_instructs(role) && !same_text(role, "assistant");
        proof {
            assert(longer.drop_last() =~= all.take(i as int));
            assert(longer.last() == (role@, content@));
            assert(out@ =~= opening(format) + shown_all(format, longer));
            if user_spoke(all.take(i as int)) {
                let k = choose|k: int|
                    0 <= k < all.take(i as int).len() && !instructs(
                        (#[trigger] all.take(i as int)[k]).0,
                    ) && all.take(i as int)[k].0 != "assistant"@;
                assert(longer[k] == all.take(i as int)[k]);
            }
            if speaks {
                assert(longer[i as int] == (role@, content@));
            }
            if user_spoke(longer) {
                let k = choose|k: int|
                    0 <= k < longer.len() && !instructs((#[trigger] longer[k]).0) && longer[k].0
                        != "assistant"@;
                if k < i {
                    assert(all.take(i as int)[k] == longer[k]);
                }
            }
        }
        saw_user = saw_user || speaks;
        i = i + 1;
    }
    proof {
        assert(all.take(all.len() as int) =~= all);
    }
    match format {
        Format::Channels => {
            out.append("<|start|>assistant");
        },
        Format::ChatMl => {
            out.append("<|im_start|>assistant\n");
        },
        Format::Tagged => {
            out.append("<|assistant|>\n");
        },
        Format::Plain => {
            if !saw_user {
                out.append("USER: hello\nASSISTANT:");
            }
        },
    }
    assert(out@ =~= prompt(format, all));
    out
}

/// The default system message.
pub open spec fn default_system() -> Seq<char> {
    "You are Qwen, created by Alibaba Cloud. You are a helpful assistant."@
}

impl Tokenizer {
    /// The format of the model's prompts.
    pub fn format(&self) -> (format: Format)
        requires
            self.wf(),
        ensures
            format == self@.format(),
    {
        if self.token_to_id.contains_key("<|start|>") {
            Format::Channels
        } else {
            Format::ChatMl
        }
    }

    /// Encodes a conversation of (role, text) pairs, in the format of the model's prompts, which is
    /// ChatML where the vocabulary has no marker for channels. The prompt ends where the assistant's
    /// turn begins; with channels the model opens its own.
    pub fn encode_messages(&self, messages: &[(&str, &str)]) -> (ids: Vec<u32>)
        requires
            self.wf(),
        ensures
            ids@ == self@.conversation(turns(messages@)),
    {
        let out = build_prompt(self.format(), messages);
        self.encode_template(out.as_str())
    }

    /// Encodes one user message after the default system message.
    pub fn chat_encode(&self, user_text: &str) -> (ids: Vec<u32>)
        requires
            self.wf(),
        ensures
            ids@ == self@.conversation(
                seq![("system"@, default_system()), ("user"@, user_text@)],
            ),
    {
        let system = "You are Qwen, created by Alibaba Cloud. You are a helpful assistant.";
        let messages: [(&str, &str); 2] = [("system", system), ("user", user_text)];
        assert(turns(messages@) =~= seq![("system"@, default_system()), ("user"@, user_text@)]);
        self.encode_messages(&messages)
    }

    /// Encodes one user message alone.
    pub fn chat_encode_nosys(&self, user_text: &str) -> (ids: Vec<u32>)
        requires
            self.wf(),
        ensures
            ids@ == self@.conversation(seq![("user"@, user_text@)]),
    {
        let messages: [(&str, &str); 1] = [("user", user_text)];
        assert(turns(messages@) =~= seq![("user"@, user_text@)]);
        self.encode_messages(&messages)
    }

    /// The text of tokens.
    pub fn decode(&self, ids: &[u32]) -> (text: String)
        requires
            self.wf(),
        ensures
            text@ == lossy::lossy_utf8(self@.bytes_of_all(ids@)),
            vstd::utf8::valid_utf8(self@.bytes_of_all(ids@)) ==> text@ == vstd::utf8::decode_utf8(
                self@.bytes_of_all(ids@),
            ),
    {
        let bytes = self.decode_bytes(ids);
        proof {
            if vstd::utf8::valid_utf8(bytes@) {
                lossy::valid_bytes_are_their_text(bytes@);
            }
        }
        decode_lossy(&bytes)
    }

    /// The bytes of tokens, one after the other.
    pub fn decode_bytes(&self, ids: &[u32]) -> (bytes: Vec<u8>)
        requires
            self.wf(),
        ensures
            bytes@ == self@.bytes_of_all(ids@),
    {
        let mut bytes: Vec<u8> = Vec::new();
        let mut i: usize = 0;
        while i < ids.len()
            invariant
                self.wf(),
                i <= ids@.len(),
                bytes@ == self@.bytes_of_all(ids@.take(i as int)),
            decreases ids.len() - i,
        {
            proof {
                assert(ids@.take(i + 1).drop_last() =~= ids@.take(i as int));
            }
            let mut more = self.token_bytes(ids[i]);
            bytes.append(&mut more);
            i = i + 1;
        }
        proof {
            assert(ids@.take(ids@.len() as int) =~= ids@);
        }
        bytes
    }

    /// The text of a single token, for streaming output.
    pub fn decode_token(&self, id: u32) -> (text: String)
        requires
            self.wf(),
        ensures
            text@ == lossy::lossy_utf8(self@.bytes_of(id)),
            vstd::utf8::valid_utf8(self@.bytes_of(id)) ==> text@ == vstd::utf8::decode_utf8(
                self@.bytes_of(id),
            ),
    {
        let ids: [u32; 1] = [id];
        proof {
            assert(ids@ =~= seq![id]);
            assert(ids@.drop_last() =~= Seq::empty());
            reveal_with_fuel(Lexicon::bytes_of_all, 2);
            assert(self@.bytes_of_all(ids@) =~= self@.bytes_of(id));
        }
        self.decode(&ids)
    }

    /// The bytes of a token.
    pub fn token_bytes(&self, id: u32) -> (bytes: Vec<u8>)
        requires
            self.wf(),
        ensures
            bytes@ == self@.bytes_of(id),
    {
        if id as usize >= self.vocab.len() {
            return Vec::new();
        }
        if self.is_special(id) {
            return Vec::new();
        }
        let token = chars_of(self.vocab[id as usize].as_str());
        proof {
            assert(token@ == self@.vocab[id as int]);
        }
        match byte_named(&token) {
            Some(byte) => {
                let mut bytes: Vec<u8> = Vec::new();
                bytes.push(byte);
                proof {
                    assert(bytes@ =~= seq![byte]);
                }
                return bytes;
            },
            None => {},
        }
        if self.spm {
            let mut plain = String::new();
            let mut i: usize = 0;
            while i < token.len()
                invariant
                    i <= token@.len(),
                    plain@ == plain_spaces(token@).take(i as int),
                decreases token.len() - i,
            {
                if token[i] == SPACE {
                    plain.push(' ');
                } else {
                    plain.push(token[i]);
                }
                proof {
                    assert(plain@ =~= plain_spaces(token@).take(i + 1));
                }
                i = i + 1;
            }
            proof {
                assert(plain@ =~= plain_spaces(token@));
            }
            return vstd::slice::slice_to_vec(plain.as_str().as_bytes());
        }
        let mut bytes: Vec<u8> = Vec::new();
        let mut i: usize = 0;
        while i < token.len()
            invariant
                self.wf(),
                i <= token@.len(),
                bytes@ == unspelled(token@.take(i as int)),
            decreases token.len() - i,
        {
            let ghost longer = token@.take(i + 1);
            let code: u32 = token[i] as u32;
            proof {
                assert(longer.drop_last() =~= token@.take(i as int));
            }
            match self.u_to_byte.get(&code) {
                Some(byte) => {
                    proof {
                        vstd::utf8::char_u32_cast(byte_chars::byte_char(*byte), code);
                        vstd::utf8::char_u32_cast(token@[i as int], code);
                        assert(byte_chars::byte_char(*byte) == longer.last());
                        let b = choose|b: u8| #[trigger]
                            byte_chars::byte_char(b) == longer.last();
                        byte_chars::byte_chars_are_distinct(b, *byte);
                    }
                    bytes.push(*byte);
                },
                None => {
                    proof {
                        assert forall|b: u8| #[trigger]
                            byte_chars::byte_char(b) != longer.last() by {
                            assert(self.u_to_byte@.contains_key(
                                byte_chars::byte_char(b) as u32,
                            ));
                        }
                    }
                },
            }
            i = i + 1;
        }
        proof {
            assert(token@.take(token@.len() as int) =~= token@);
        }
        bytes
    }

    /// Whether a token marks structure rather than text.
    pub fn is_special(&self, id: u32) -> (special: bool)
        requires
            self.wf(),
        ensures
            special == self@.special(id),
    {
        if id as usize >= self.vocab.len() {
            return false;
        }
        let token = self.vocab[id as usize].as_str();
        let chars = chars_of(token);
        let open: [char; 2] = ['<', '|'];
        let close: [char; 2] = ['|', '>'];
        assert(open@ =~= seq!['<', '|']);
        assert(close@ =~= seq!['|', '>']);
        if chars.len() >= 2 && occurs_at(&chars, &open, 0) && occurs_at(
            &chars,
            &close,
            chars.len() - 2,
        ) {
            return true;
        }
        same_text(token, "<s>") || same_text(token, "</s>") || same_text(token, "<unk>")
    }

    /// Whether a token ends the turn: with channels only `<|return|>` does, since `<|end|>` closes
    /// one message.
    pub fn is_eos(&self, id: u32) -> (eos: bool)
        ensures
            eos == self@.ends_turn(id),
    {
        if self.return_id != u32::MAX {
            return id == self.return_id || id == self.bos_id;
        }
        id == self.eos_id || id == self.im_end_id || id == self.bos_id
    }

    /// Whether a token closes the current channel's message, but not the turn.
    pub fn is_channel_end(&self, id: u32) -> (end: bool)
        ensures
            end == (self@.return_id != u32::MAX && id == self@.end_id),
    {
        self.return_id != u32::MAX && id == self.end_id
    }
}

/// The value of a hexadecimal digit.
fn hex_digit_value(c: char) -> (value: Option<u8>)
    ensures
        match value {
            Some(v) => hex_value(c) == Some(v as nat) && v < 16,
            None => hex_value(c) is None,
        },
{
    if '0' <= c && c <= '9' {
        Some((c as u32 - 48) as u8)
    } else if 'A' <= c && c <= 'F' {
        Some((c as u32 - 55) as u8)
    } else if 'a' <= c && c <= 'f' {
        Some((c as u32 - 87) as u8)
    } else {
        None
    }
}

/// A number does not shrink with more digits, and bad digits stay bad.
proof fn lemma_hex_number_prefix(digits: Seq<char>, n: int)
    requires
        0 <= n <= digits.len(),
    ensures
        hex_number(digits.take(n)) is None ==> hex_number(digits) is None,
        hex_number(digits) is Some ==> hex_number(digits.take(n)) is Some && hex_number(
            digits.take(n),
        )->0 <= hex_number(digits)->0,
    decreases digits.len(),
{
    if n == digits.len() {
        assert(digits.take(n) =~= digits);
    } else {
        lemma_hex_number_prefix(digits.drop_last(), n);
        assert(digits.drop_last().take(n) =~= digits.take(n));
    }
}

/// The byte that a token names.
fn byte_named(token: &[char]) -> (byte: Option<u8>)
    ensures
        byte == named_byte(token@),
{
    let open: [char; 3] = ['<', '0', 'x'];
    assert(open@ =~= seq!['<', '0', 'x']);
    if token.len() < 4 || !occurs_at(token, &open, 0) || token[token.len() - 1] != '>' {
        return None;
    }
    let ghost hex = token@.subrange(3, token@.len() - 1);
    let end: usize = token.len() - 1;
    let start: usize = if end > 3 && token[3] == '+' {
        4
    } else {
        3
    };
    let ghost digits = if hex.len() > 0 && hex[0] == '+' {
        hex.skip(1)
    } else {
        hex
    };
    proof {
        assert(digits =~= token@.subrange(start as int, end as int));
    }
    if start == end {
        return None;
    }
    proof {
        assert(named_byte(token@) == hex_byte(hex));
    }
    let mut value: u32 = 0;
    let mut i: usize = start;
    while i < end
        invariant
            start <= i <= end < token@.len(),
            digits == token@.subrange(start as int, end as int),
            value < 256,
            named_byte(token@) == (match hex_number(digits) {
                Some(n) => if n < 256 {
                    Some(n as u8)
                } else {
                    None
                },
                None => None,
            }),
            hex_number(digits.take(i - start)) == Some(value as nat),
        decreases end - i,
    {
        proof {
            assert(digits.take(i + 1 - start).drop_last() =~= digits.take(i - start));
            lemma_hex_number_prefix(digits, i + 1 - start);
        }
        match hex_digit_value(token[i]) {
            Some(d) => {
                value = 16 * value + d as u32;
            },
            None => {
                return None;
            },
        }
        if value >= 256 {
            return None;
        }
        i = i + 1;
    }
    proof {
        assert(digits.take(end - start) =~= digits);
    }
    Some(value as u8)
}

/// The texts of an array's values; a value that is no text counts as empty.
pub open spec fn vocab_of(items: Seq<gguf::GgufData>) -> Seq<Seq<char>> {
    Seq::new(
        items.len(),
        |i: int|
            match items[i].str_value() {
                Some(text) => text,
                None => Seq::empty(),
            },
    )
}

/// The pairs of a merge list, ranked by their place in it: each entry is split at its first space,
/// and an entry without one is passed over.
pub open spec fn ranks_of(items: Seq<gguf::GgufData>) -> bpe::Ranks
    decreases items.len(),
{
    if items.len() == 0 {
        Map::empty()
    } else {
        let earlier = ranks_of(items.drop_last());
        match items.last().str_value() {
            Some(line) => match text::first_from(line, seq![' '], 0) {
                Some(at) => earlier.insert(
                    (line.take(at), line.skip(at + 1)),
                    (items.len() - 1) as u32,
                ),
                None => earlier,
            },
            None => earlier,
        }
    }
}

/// The identifier of a token, or the largest number without one.
pub open spec fn id_of(ids: Map<Seq<char>, u32>, token: Seq<char>) -> u32 {
    if ids.contains_key(token) {
        ids[token]
    } else {
        u32::MAX
    }
}

/// The smaller of two identifiers.
pub open spec fn smaller(a: u32, b: u32) -> u32 {
    if a <= b {
        a
    } else {
        b
    }
}

/// An identifier that the metadata gives, or the largest number without one.
pub open spec fn meta_id(contents: gguf::GgufContents, key: Seq<char>) -> u32 {
    match contents.u32_at(key) {
        Some(id) => id,
        None => u32::MAX,
    }
}

/// The vocabulary is SentencePiece's: its model says so, or a token starts with the visible space.
pub open spec fn sentence_pieces(contents: gguf::GgufContents, vocab: Seq<Seq<char>>) -> bool {
    let model = match contents.at("tokenizer.ggml.model"@) {
        Some(item) => match item.str_value() {
            Some(name) => name,
            None => Seq::empty(),
        },
        None => Seq::empty(),
    };
    ||| text::first_from(model, "llama"@, 0) is Some
    ||| text::first_from(model, "sentencepiece"@, 0) is Some
    ||| exists|i: int| 0 <= i < vocab.len() && starts_visible(#[trigger] vocab[i])
}

/// The token starts with the visible space.
pub open spec fn starts_visible(token: Seq<char>) -> bool {
    token.len() > 0 && token[0] == SPACE
}

/// The tokenizer that a file's metadata describes; none without a list of tokens.
pub open spec fn lexicon_of(contents: gguf::GgufContents) -> Option<Lexicon> {
    match contents.at("tokenizer.ggml.tokens"@) {
        Some(gguf::GgufData::Array(items)) => {
            let vocab = vocab_of(items);
            let ids = ids_of(vocab);
            let bos_id = smaller(
                smaller(id_of(ids, "<|endoftext|>"@), id_of(ids, "<s>"@)),
                meta_id(contents, "tokenizer.ggml.bos_token_id"@),
            );
            let im_end_id = id_of(ids, "<|im_end|>"@);
            let end_id = id_of(ids, "<|end|>"@);
            let return_id = id_of(ids, "<|return|>"@);
            Some(
                Lexicon {
                    vocab,
                    ids,
                    ranks: match contents.at("tokenizer.ggml.merges"@) {
                        Some(gguf::GgufData::Array(lines)) => ranks_of(lines),
                        _ => Map::empty(),
                    },
                    spm: sentence_pieces(contents, vocab),
                    longest: longest_of(vocab),
                    bos_id,
                    eos_id: if return_id != u32::MAX {
                        return_id
                    } else if end_id != u32::MAX {
                        end_id
                    } else if im_end_id != u32::MAX {
                        im_end_id
                    } else if ids.contains_key("</s>"@) {
                        ids["</s>"@]
                    } else {
                        bos_id
                    },
                    unk_id: smaller(
                        id_of(ids, "<unk>"@),
                        meta_id(contents, "tokenizer.ggml.unknown_token_id"@),
                    ),
                    im_start_id: id_of(ids, "<|im_start|>"@),
                    im_end_id,
                    msg_start_id: id_of(ids, "<|start|>"@),
                    end_id,
                    return_id,
                    channel_id: id_of(ids, "<|channel|>"@),
                    message_id: id_of(ids, "<|message|>"@),
                },
            )
        },
        _ => None,
    }
}

/// The texts of an array's values.
pub(crate) fn collect_texts(items: &Vec<GgufValue>) -> (vocab: Vec<String>)
    ensures
        bpe::texts(vocab@) == vocab_of(gguf::data_of(items@)),
{
    let ghost all = vocab_of(gguf::data_of(items@));
    let mut vocab: Vec<String> = Vec::with_capacity(items.len());
    let mut i: usize = 0;
    while i < items.len()
        invariant
            i <= items@.len(),
            all == vocab_of(gguf::data_of(items@)),
            bpe::texts(vocab@) == all.take(i as int),
        decreases items.len() - i,
    {
        let ghost before = vocab@;
        let token: String = match items[i].as_str() {
            Some(s) => s.to_owned(),
            None => String::new(),
        };
        proof {
            assert(token@ =~= all[i as int]);
        }
        vocab.push(token);
        proof {
            assert(bpe::texts(vocab@) =~= bpe::texts(before).push(token@));
            assert(all.take(i + 1) =~= all.take(i as int).push(all[i as int]));
        }
        i = i + 1;
    }
    proof {
        assert(all.take(items@.len() as int) =~= all);
    }
    vocab
}

/// The identifier of a token, or the largest number without one.
fn find_id(ids: &StringHashMap<u32>, token: &str) -> (id: u32)
    ensures
        id == id_of(ids@, token@),
{
    match ids.get(token) {
        Some(id) => *id,
        None => u32::MAX,
    }
}

/// An identifier that the metadata gives, or the largest number without one.
fn find_meta_id(file: &GgufFile, key: &str) -> (id: u32)
    ensures
        id == meta_id(file@, key@),
{
    match file.meta_u32(key) {
        Some(id) => id,
        None => u32::MAX,
    }
}

/// The smaller of two identifiers.
fn min_id(a: u32, b: u32) -> (id: u32)
    ensures
        id == smaller(a, b),
{
    if a <= b {
        a
    } else {
        b
    }
}

/// The ranked pairs of a merge list.
fn collect_ranks(items: &Vec<GgufValue>) -> (ranks: PairMap)
    ensures
        ranks.wf(),
        ranks@ == ranks_of(gguf::data_of(items@)),
{
    let ghost all = gguf::data_of(items@);
    let space: [char; 1] = [' '];
    assert(space@ =~= seq![' ']);
    let mut ranks = PairMap::new();
    let mut i: usize = 0;
    while i < items.len()
        invariant
            i <= items@.len(),
            all == gguf::data_of(items@),
            space@ == seq![' '],
            ranks.wf(),
            ranks@ == ranks_of(all.take(i as int)),
        decreases items.len() - i,
    {
        proof {
            assert(all.take(i + 1).drop_last() =~= all.take(i as int));
            assert(all.take(i + 1).last() == items@[i as int]@);
        }
        match items[i].as_str() {
            Some(line) => {
                let chars = chars_of(line);
                let len: usize = chars.len();
                match find_from(&chars, &space, 0) {
                    Some(at) => {
                        let first = string_of(&chars, 0, at);
                        let second = string_of(&chars, at + 1, len);
                        proof {
                            assert(first@ =~= line@.take(at as int));
                            assert(second@ =~= line@.skip(at + 1));
                        }
                        ranks.insert(first, second, i as u32);
                    },
                    None => {},
                }
            },
            None => {},
        }
        i = i + 1;
    }
    proof {
        assert(all.take(items@.len() as int) =~= all);
    }
    ranks
}

/// Whether the vocabulary is SentencePiece's.
fn has_sentence_pieces(file: &GgufFile, vocab: &Vec<String>) -> (spm: bool)
    ensures
        spm == sentence_pieces(file@, bpe::texts(vocab@)),
{
    let model: Vec<char> = match file.metadata.get("tokenizer.ggml.model") {
        Some(item) => match item.as_str() {
            Some(name) => chars_of(name),
            None => Vec::new(),
        },
        None => Vec::new(),
    };
    let llama = chars_of("llama");
    let sentencepiece = chars_of("sentencepiece");
    if find_from(&model, &llama, 0).is_some() || find_from(&model, &sentencepiece, 0).is_some() {
        return true;
    }
    let ghost all = bpe::texts(vocab@);
    let mut i: usize = 0;
    while i < vocab.len()
        invariant
            i <= vocab@.len(),
            all == bpe::texts(vocab@),
            forall|j: int| 0 <= j < i ==> !starts_visible(#[trigger] all[j]),
        decreases vocab.len() - i,
    {
        let token = chars_of(vocab[i].as_str());
        if token.len() > 0 && token[0] == SPACE {
            proof {
                assert(starts_visible(all[i as int]));
            }
            return true;
        }
        i = i + 1;
    }
    false
}

impl Tokenizer {
    /// The tokenizer that a file's metadata describes.
    pub fn from_gguf(file: &GgufFile) -> (tokenizer: Option<Self>)
        ensures
            match lexicon_of(file@) {
                Some(lexicon) => tokenizer is Some && tokenizer->0.wf() && tokenizer->0@ == lexicon,
                None => tokenizer is None,
            },
    {
        let vocab: Vec<String> = match file.metadata.get("tokenizer.ggml.tokens") {
            Some(GgufValue::Array(items)) => {
                proof {
                    assert(
                        file@.at("tokenizer.ggml.tokens"@)->0->Array_0 =~= gguf::data_of(items@)
                    );
                }
                collect_texts(items)
            },
            _ => {
                return None;
            },
        };
        let ghost all = bpe::texts(vocab@);
        let mut token_to_id: StringHashMap<u32> = StringHashMap::new();
        let mut max_token_chars: usize = 1;
        let mut i: usize = 0;
        while i < vocab.len()
            invariant
                i <= vocab@.len(),
                all == bpe::texts(vocab@),
                token_to_id@ == ids_of(all.take(i as int)),
                max_token_chars == longest_of(all.take(i as int)),
            decreases vocab.len() - i,
        {
            proof {
                assert(all.take(i + 1).drop_last() =~= all.take(i as int));
                assert(all.take(i + 1).last() == vocab@[i as int]@);
            }
            let len: usize = vocab[i].as_str().unicode_len();
            if i == 0 || len > max_token_chars {
                max_token_chars = len;
            }
            token_to_id.insert(vocab[i].clone(), i as u32);
            i = i + 1;
        }
        proof {
            assert(all.take(vocab@.len() as int) =~= all);
        }
        let merges: PairMap = match file.metadata.get("tokenizer.ggml.merges") {
            Some(GgufValue::Array(items)) => {
                proof {
                    assert(
                        file@.at("tokenizer.ggml.merges"@)->0->Array_0 =~= gguf::data_of(items@)
                    );
                }
                collect_ranks(items)
            },
            _ => PairMap::new(),
        };
        let (byte_to_u, u_to_byte) = build_byte_unicode_tables();
        let spm: bool = has_sentence_pieces(file, &vocab);
        let bos_id: u32 = min_id(
            min_id(find_id(&token_to_id, "<|endoftext|>"), find_id(&token_to_id, "<s>")),
            find_meta_id(file, "tokenizer.ggml.bos_token_id"),
        );
        let unk_id: u32 = min_id(
            find_id(&token_to_id, "<unk>"),
            find_meta_id(file, "tokenizer.ggml.unknown_token_id"),
        );
        let im_end_id: u32 = find_id(&token_to_id, "<|im_end|>");
        let im_start_id: u32 = find_id(&token_to_id, "<|im_start|>");
        let end_id: u32 = find_id(&token_to_id, "<|end|>");
        let return_id: u32 = find_id(&token_to_id, "<|return|>");
        let msg_start_id: u32 = find_id(&token_to_id, "<|start|>");
        let channel_id: u32 = find_id(&token_to_id, "<|channel|>");
        let message_id: u32 = find_id(&token_to_id, "<|message|>");
        let eos_id: u32 = if return_id != u32::MAX {
            return_id
        } else if end_id != u32::MAX {
            end_id
        } else if im_end_id != u32::MAX {
            im_end_id
        } else {
            match token_to_id.get("</s>") {
                Some(id) => *id,
                None => bos_id,
            }
        };
        Some(
            Tokenizer {
                vocab,
                token_to_id,
                merges,
                byte_to_u,
                u_to_byte,
                spm,
                max_token_chars,
                bos_id,
                eos_id,
                unk_id,
                im_start_id,
                im_end_id,
                msg_start_id,
                end_id,
                return_id,
                channel_id,
                message_id,
            },
        )
    }
}

} // verus!
