//! What a model says, as pieces of text: plain, or sorted into channels by its control tokens.
//!
//! A model with channels declares the channel of a message either by `<|channel|>`, its name and
//! `<|message|>`, or by its name as plain text and `<|message|>`. So a short alphabetic token waits
//! until the next one shows whether it was a name.

use vstd::prelude::*;
use crate::fields;
use crate::fields::trim;
use crate::lossy;
use crate::lossy::decode_lossy;
use crate::streaming;
use crate::streaming::{emit_utf8, flush_utf8};
use crate::text;
use crate::text::{chars_of, same_text};
use crate::tokenizer;
use crate::tokenizer::Tokenizer;
use crate::unicode;

verus! {

broadcast use vstd::string::group_string_axioms;

/// A piece of text, and whether it belongs to the reasoning.
#[derive(Clone, Debug, PartialEq, Eq)]
pub struct Piece {
    pub text: String,
    pub reasoning: bool,
}

/// A piece of text, and whether it belongs to the reasoning.
pub struct Said {
    pub text: Seq<char>,
    pub reasoning: bool,
}

impl View for Piece {
    type V = Said;

    open spec fn view(&self) -> Said {
        Said { text: self.text@, reasoning: self.reasoning }
    }
}

/// The views of pieces.
pub open spec fn said(pieces: Seq<Piece>) -> Seq<Said> {
    Seq::new(pieces.len(), |i: int| pieces[i]@)
}

/// Texts of one channel.
pub open spec fn in_channel(texts: Seq<Seq<char>>, reasoning: bool) -> Seq<Said> {
    Seq::new(texts.len(), |i: int| Said { text: texts[i], reasoning })
}

/// Where a model is in what it says.
pub struct Speech {
    /// The current message is reasoning.
    pub reasoning: bool,
    /// A channel is being declared.
    pub declaring: bool,
    /// The name of the channel so far.
    pub name: Seq<char>,
    /// The bytes of a token that may be the name of a channel.
    pub lookahead: Option<Seq<u8>>,
    /// Bytes of an incomplete character.
    pub pending: Seq<u8>,
}

impl Speech {
    /// Nothing said yet.
    pub open spec fn start() -> Speech {
        Speech {
            reasoning: false,
            declaring: false,
            name: Seq::empty(),
            lookahead: None,
            pending: Seq::empty(),
        }
    }

    /// Says bytes.
    pub open spec fn say(self, bytes: Seq<u8>) -> (Speech, Seq<Said>) {
        let (texts, rest) = streaming::emitted(self.pending + bytes);
        (Speech { pending: rest, ..self }, in_channel(texts, self.reasoning))
    }

    /// Says the bytes of the token that waits.
    pub open spec fn release(self) -> (Speech, Seq<Said>) {
        match self.lookahead {
            Some(bytes) => (Speech { lookahead: None, ..self }).say(bytes),
            None => (self, Seq::empty()),
        }
    }

    /// Says everything that waits.
    pub open spec fn finish(self) -> (Speech, Seq<Said>) {
        let (released, first) = self.release();
        (
            Speech { pending: Seq::empty(), ..released },
            first + in_channel(streaming::flushed(released.pending), released.reasoning),
        )
    }

    /// The name of the channel of a message that starts.
    pub open spec fn declared(self) -> Seq<char> {
        match self.lookahead {
            Some(bytes) => unicode::lowercase(fields::trimmed(lossy::lossy_utf8(bytes))),
            None => if self.declaring {
                unicode::lowercase(fields::trimmed(self.name))
            } else {
                Seq::empty()
            },
        }
    }

    /// Starts a message.
    pub open spec fn message(self) -> Speech {
        let name = self.declared();
        let closed = match self.lookahead {
            Some(_) => Speech { lookahead: None, ..self },
            None => Speech {
                declaring: false,
                name: if self.declaring {
                    Seq::empty()
                } else {
                    self.name
                },
                ..self
            },
        };
        if name == "analysis"@ {
            Speech { reasoning: true, pending: Seq::empty(), ..closed }
        } else if name == "final"@ {
            Speech { reasoning: false, pending: Seq::empty(), ..closed }
        } else {
            closed
        }
    }

    /// Adds a token to the name of a channel. A long name is none: it is said after all.
    pub open spec fn spell(self, bytes: Seq<u8>) -> (Speech, Seq<Said>) {
        let name = self.name + lossy::lossy_utf8(bytes);
        if vstd::utf8::encode_utf8(name).len() > 20 {
            (Speech { name: Seq::empty(), declaring: false, ..self }).say(
                vstd::utf8::encode_utf8(name),
            )
        } else {
            (Speech { name, ..self }, Seq::empty())
        }
    }

    /// Takes in the bytes of a token of text.
    pub open spec fn text(self, bytes: Seq<u8>, channels: bool) -> (Speech, Seq<Said>) {
        if !channels {
            self.say(bytes)
        } else {
            let (released, first) = self.release();
            if could_be_name(bytes) {
                (Speech { lookahead: Some(bytes), ..released }, first)
            } else {
                let (spoken, second) = released.say(bytes);
                (spoken, first + second)
            }
        }
    }

    /// Takes in a token of a model with channels.
    pub open spec fn hear(self, lexicon: tokenizer::Lexicon, id: u32) -> (Speech, Seq<Said>) {
        if lexicon.return_id != u32::MAX && id == lexicon.end_id {
            self.finish()
        } else if id == lexicon.channel_id {
            let (released, pieces) = self.release();
            (Speech { declaring: true, name: Seq::empty(), ..released }, pieces)
        } else if id == lexicon.message_id {
            (self.message(), Seq::empty())
        } else if lexicon.special(id) {
            (self, Seq::empty())
        } else if self.declaring {
            self.spell(lexicon.bytes_of(id))
        } else {
            self.text(lexicon.bytes_of(id), lexicon.message_id != u32::MAX)
        }
    }

    /// Takes in a token of a model whose channels are not told apart.
    pub open spec fn hear_plain(self, lexicon: tokenizer::Lexicon, id: u32) -> (Speech, Seq<Said>) {
        if lexicon.special(id) {
            (self, Seq::empty())
        } else {
            self.say(lexicon.bytes_of(id))
        }
    }
}

/// Bytes that may be the name of a channel: short, and alphabetic but for the space around.
pub open spec fn could_be_name(bytes: Seq<u8>) -> bool {
    let name = fields::trimmed(lossy::lossy_utf8(bytes));
    &&& name.len() > 0
    &&& vstd::utf8::encode_utf8(name).len() <= 15
    &&& forall|i: int| 0 <= i < name.len() ==> unicode::alphabetic(#[trigger] name[i])
}

/// Where a model is in what it says.
pub struct Transcript {
    reasoning: bool,
    declaring: bool,
    name: String,
    lookahead: Option<Vec<u8>>,
    pending: Vec<u8>,
}

/// The bytes that wait, if any do.
spec fn waiting(lookahead: Option<Vec<u8>>) -> Option<Seq<u8>> {
    match lookahead {
        Some(bytes) => Some(bytes@),
        None => None,
    }
}

impl View for Transcript {
    type V = Speech;

    closed spec fn view(&self) -> Speech {
        Speech {
            reasoning: self.reasoning,
            declaring: self.declaring,
            name: self.name@,
            lookahead: waiting(self.lookahead),
            pending: self.pending@,
        }
    }
}

/// Whether bytes may be the name of a channel.
fn may_be_name(bytes: &[u8]) -> (r: bool)
    ensures
        r == could_be_name(bytes@),
{
    let decoded = decode_lossy(bytes);
    let name = trim(&chars_of(decoded.as_str()));
    if name.as_str().is_empty() || name.as_str().as_bytes().len() > 15 {
        return false;
    }
    let chars = chars_of(name.as_str());
    let mut i: usize = 0;
    while i < chars.len()
        invariant
            i <= chars@.len(),
            chars@ == fields::trimmed(lossy::lossy_utf8(bytes@)),
            forall|j: int| 0 <= j < i ==> unicode::alphabetic(#[trigger] chars@[j]),
        decreases chars.len() - i,
    {
        if !chars[i].is_alphabetic() {
            proof {
                assert(!unicode::alphabetic(chars@[i as int]));
                assert(chars@ == fields::trimmed(lossy::lossy_utf8(bytes@)));
            }
            return false;
        }
        i = i + 1;
    }
    true
}

/// Appends texts of one channel.
fn push_texts(pieces: &mut Vec<Piece>, texts: Vec<String>, reasoning: bool)
    ensures
        said(final(pieces)@) == said(old(pieces)@) + in_channel(
            streaming::texts(texts@),
            reasoning,
        ),
{
    let ghost before = said(pieces@);
    let ghost all = in_channel(streaming::texts(texts@), reasoning);
    let mut i: usize = 0;
    proof {
        assert(said(pieces@) =~= before + all.take(0));
    }
    while i < texts.len()
        invariant
            i <= texts@.len(),
            all == in_channel(streaming::texts(texts@), reasoning),
            said(pieces@) == before + all.take(i as int),
        decreases texts.len() - i,
    {
        let ghost sofar = pieces@;
        let piece = Piece { text: texts[i].clone(), reasoning };
        pieces.push(piece);
        proof {
            assert(piece@ == all[i as int]);
            assert(said(pieces@) =~= said(sofar).push(piece@));
            assert(said(pieces@) =~= before + all.take(i + 1));
        }
        i = i + 1;
    }
    proof {
        assert(all.take(i as int) =~= all);
    }
}

impl Transcript {
    /// Nothing said yet.
    pub fn new() -> (transcript: Self)
        ensures
            transcript@ == Speech::start(),
    {
        let transcript = Transcript {
            reasoning: false,
            declaring: false,
            name: String::new(),
            lookahead: None,
            pending: Vec::new(),
        };
        proof {
            assert(transcript@.pending =~= Seq::empty());
        }
        transcript
    }

    /// Says bytes.
    fn say(&mut self, bytes: &[u8], pieces: &mut Vec<Piece>)
        ensures
            final(self)@ == old(self)@.say(bytes@).0,
            said(final(pieces)@) == said(old(pieces)@) + old(self)@.say(bytes@).1,
    {
        let texts = emit_utf8(&mut self.pending, bytes);
        push_texts(pieces, texts, self.reasoning);
    }

    /// Says the bytes of the token that waits.
    fn release(&mut self, pieces: &mut Vec<Piece>)
        ensures
            final(self)@ == old(self)@.release().0,
            said(final(pieces)@) == said(old(pieces)@) + old(self)@.release().1,
    {
        let ghost before = said(pieces@);
        let lookahead = self.lookahead.take();
        match lookahead {
            Some(bytes) => {
                self.say(&bytes, pieces);
            },
            None => {
                proof {
                    assert(said(pieces@) =~= before + Seq::empty());
                }
            },
        }
    }

    /// Says everything that waits.
    pub fn finish(&mut self) -> (pieces: Vec<Piece>)
        ensures
            final(self)@ == old(self)@.finish().0,
            said(pieces@) == old(self)@.finish().1,
    {
        let mut pieces: Vec<Piece> = Vec::new();
        proof {
            assert(said(pieces@) =~= Seq::empty());
        }
        self.release(&mut pieces);
        let texts = flush_utf8(&mut self.pending);
        push_texts(&mut pieces, texts, self.reasoning);
        proof {
            assert(self@.pending =~= Seq::empty());
            let first = old(self)@.release().1;
            assert(Seq::<Said>::empty() + first =~= first);
        }
        pieces
    }

    /// Starts a message.
    fn message(&mut self)
        ensures
            final(self)@ == old(self)@.message(),
    {
        let lookahead = self.lookahead.take();
        let name = match lookahead {
            Some(bytes) => {
                let decoded = decode_lossy(&bytes);
                trim(&chars_of(decoded.as_str())).as_str().to_lowercase()
            },
            None => {
                if self.declaring {
                    let name = trim(&chars_of(self.name.as_str())).as_str().to_lowercase();
                    self.declaring = false;
                    self.name = String::new();
                    name
                } else {
                    String::new()
                }
            },
        };
        proof {
            assert(name@ == old(self)@.declared());
        }
        if same_text(name.as_str(), "analysis") {
            self.reasoning = true;
            self.pending.clear();
        } else if same_text(name.as_str(), "final") {
            self.reasoning = false;
            self.pending.clear();
        }
    }

    /// Adds a token to the name of a channel.
    fn spell(&mut self, bytes: &[u8], pieces: &mut Vec<Piece>)
        ensures
            final(self)@ == old(self)@.spell(bytes@).0,
            said(final(pieces)@) == said(old(pieces)@) + old(self)@.spell(bytes@).1,
    {
        let ghost before = said(pieces@);
        let decoded = decode_lossy(bytes);
        self.name.append(decoded.as_str());
        if self.name.as_str().as_bytes().len() > 20 {
            let name = vstd::slice::slice_to_vec(self.name.as_str().as_bytes());
            self.name = String::new();
            self.declaring = false;
            self.say(&name, pieces);
        } else {
            proof {
                assert(said(pieces@) =~= before + Seq::empty());
            }
        }
    }

    /// Takes in the bytes of a token of text.
    fn text(&mut self, bytes: Vec<u8>, channels: bool, pieces: &mut Vec<Piece>)
        ensures
            final(self)@ == old(self)@.text(bytes@, channels).0,
            said(final(pieces)@) == said(old(pieces)@) + old(self)@.text(bytes@, channels).1,
    {
        let ghost before = said(pieces@);
        if !channels {
            self.say(&bytes, pieces);
            return ;
        }
        self.release(pieces);
        let ghost first = old(self)@.release().1;
        if may_be_name(&bytes) {
            self.lookahead = Some(bytes);
        } else {
            let ghost released = self@;
            self.say(&bytes, pieces);
            proof {
                let second = released.say(bytes@).1;
                assert(before + first + second =~= before + (first + second));
            }
        }
    }

    /// Takes in a token of a model with channels, and gives out what can be said.
    pub fn hear(&mut self, tok: &Tokenizer, id: u32) -> (pieces: Vec<Piece>)
        requires
            tok.wf(),
        ensures
            final(self)@ == old(self)@.hear(tok@, id).0,
            said(pieces@) == old(self)@.hear(tok@, id).1,
    {
        if tok.is_channel_end(id) {
            return self.finish();
        }
        let mut pieces: Vec<Piece> = Vec::new();
        proof {
            assert(said(pieces@) =~= Seq::empty());
        }
        if id == tok.channel_token() {
            self.release(&mut pieces);
            self.declaring = true;
            self.name = String::new();
            proof {
                let first = old(self)@.release().1;
                assert(Seq::<Said>::empty() + first =~= first);
            }
        } else if id == tok.message_token() {
            self.message();
        } else if tok.is_special(id) {
        } else if self.declaring {
            let bytes = tok.token_bytes(id);
            self.spell(&bytes, &mut pieces);
            proof {
                let first = old(self)@.spell(bytes@).1;
                assert(Seq::<Said>::empty() + first =~= first);
            }
        } else {
            let bytes = tok.token_bytes(id);
            let ghost held = bytes@;
            self.text(bytes, tok.message_token() != u32::MAX, &mut pieces);
            proof {
                let first = old(self)@.text(held, tok@.message_id != u32::MAX).1;
                assert(Seq::<Said>::empty() + first =~= first);
            }
        }
        pieces
    }

    /// Takes in a token of a model whose channels are not told apart.
    pub fn hear_plain(&mut self, tok: &Tokenizer, id: u32) -> (pieces: Vec<Piece>)
        requires
            tok.wf(),
        ensures
            final(self)@ == old(self)@.hear_plain(tok@, id).0,
            said(pieces@) == old(self)@.hear_plain(tok@, id).1,
    {
        let mut pieces: Vec<Piece> = Vec::new();
        proof {
            assert(said(pieces@) =~= Seq::empty());
        }
        if !tok.is_special(id) {
            let bytes = tok.token_bytes(id);
            self.say(&bytes, &mut pieces);
            proof {
                let first = old(self)@.say(bytes@).1;
                assert(Seq::<Said>::empty() + first =~= first);
            }
        }
        pieces
    }
}

} // verus!
