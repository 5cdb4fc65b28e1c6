//! JSON documents.

use vstd::prelude::*;
use std::collections::BTreeMap;
use serde_json::Value;
use crate::fields;
use crate::text;
use crate::text::{chars_of, same_text, string_of};

verus! {

broadcast use vstd::string::group_string_axioms;

/// A JSON value. Numbers are told apart as integers that are not negative, negative integers, and
/// all others, which are held as the bit pattern of their double-precision value.
#[derive(Debug)]
pub enum Json {
    Null,
    Bool(bool),
    Unsigned(u64),
    Negative(i64),
    Float(u64),
    Text(String),
    List(Vec<Json>),
    Object(Vec<(String, Json)>),
}

/// What a [`Json`] holds, with strings and lists as sequences.
pub enum JsonData {
    Null,
    Bool(bool),
    Unsigned(u64),
    Negative(i64),
    Float(u64),
    Text(Seq<char>),
    List(Seq<JsonData>),
    Object(Seq<(Seq<char>, JsonData)>),
}

impl Json {
    /// The value with strings and lists as sequences.
    pub open spec fn data(self) -> JsonData
        decreases self,
    {
        match self {
            Json::Null => JsonData::Null,
            Json::Bool(v) => JsonData::Bool(v),
            Json::Unsigned(v) => JsonData::Unsigned(v),
            Json::Negative(v) => JsonData::Negative(v),
            Json::Float(v) => JsonData::Float(v),
            Json::Text(v) => JsonData::Text(v@),
            Json::List(items) => JsonData::List(
                Seq::new(
                    items@.len(),
                    |i: int|
                        if 0 <= i < items@.len() {
                            items@[i].data()
                        } else {
                            arbitrary()
                        },
                ),
            ),
            Json::Object(entries) => JsonData::Object(
                Seq::new(
                    entries@.len(),
                    |i: int|
                        if 0 <= i < entries@.len() {
                            (entries@[i].0@, entries@[i].1.data())
                        } else {
                            arbitrary()
                        },
                ),
            ),
        }
    }
}

impl View for Json {
    type V = JsonData;

    open spec fn view(&self) -> JsonData {
        self.data()
    }
}

/// The document that `serde_json` reads from bytes, if they are JSON.
pub uninterp spec fn json_document(bytes: Seq<u8>) -> Option<JsonData>;

/// One byte sequence comes before another in dictionary order.
pub open spec fn comes_before(a: Seq<u8>, b: Seq<u8>) -> bool
    decreases a.len(),
{
    if b.len() == 0 {
        false
    } else if a.len() == 0 {
        true
    } else {
        a[0] < b[0] || (a[0] == b[0] && comes_before(a.skip(1), b.skip(1)))
    }
}

/// Keys come in ascending order of their bytes.
pub open spec fn ascending(entries: Seq<(Seq<char>, JsonData)>) -> bool {
    forall|i: int, j: int|
        #![trigger entries[i], entries[j]]
        0 <= i < j < entries.len() ==> comes_before(
            vstd::utf8::encode_utf8(entries[i].0),
            vstd::utf8::encode_utf8(entries[j].0),
        )
}

/// Nothing comes before itself.
pub proof fn lemma_not_before_itself(a: Seq<u8>)
    ensures
        !comes_before(a, a),
    decreases a.len(),
{
    if a.len() > 0 {
        lemma_not_before_itself(a.skip(1));
    }
}

/// The error of `serde_json`.
#[verifier::external_type_specification]
#[verifier::external_body]
pub struct ExJsonError(serde_json::Error);

/// The value of `serde_json`.
#[verifier::external_type_specification]
#[verifier::external_body]
pub struct ExJsonValue(serde_json::Value);

/// Moves a `serde_json::Value` over, variant by variant.
#[verifier::external_body]
fn converted(value: Value) -> (json: Json) {
    match value {
        Value::Null => Json::Null,
        Value::Bool(v) => Json::Bool(v),
        Value::Number(n) => match (n.as_u64(), n.as_i64(), n.as_f64()) {
            (Some(v), _, _) => Json::Unsigned(v),
            (_, Some(v), _) => Json::Negative(v),
            (_, _, v) => Json::Float(v.unwrap_or_default().to_bits()),
        },
        Value::String(v) => Json::Text(v),
        Value::Array(v) => Json::List(v.into_iter().map(converted).collect()),
        Value::Object(v) => Json::Object(
            v.into_iter().map(|(key, item)| (key, converted(item))).collect(),
        ),
    }
}

/// `serde_json::from_slice`: whether bytes are JSON, and which document they hold, depends on the
/// bytes alone. An object's entries come in ascending order of their keys, each key once.
#[verifier::external_body]
fn read_document(bytes: &[u8]) -> (result: Result<Json, serde_json::Error>)
    ensures
        match json_document(bytes@) {
            Some(document) => result is Ok && result->Ok_0@ == document,
            None => result is Err,
        },
        result is Ok && result->Ok_0@ is Object ==> ascending(result->Ok_0@->Object_0),
{
    serde_json::from_slice::<serde_json::Value>(bytes).map(converted)
}

/// The entries that `serde_json` reads from a text as a map of texts to 32-bit numbers, if the text
/// holds one.
pub uninterp spec fn json_numbers(text: Seq<char>) -> Option<Seq<(Seq<char>, u32)>>;

/// Numbered texts, with the texts as sequences.
pub open spec fn numbers_data(entries: Seq<(String, u32)>) -> Seq<(Seq<char>, u32)> {
    Seq::new(entries.len(), |i: int| (entries[i].0@, entries[i].1))
}

/// Texts come in ascending order of their bytes.
pub open spec fn texts_ascend(entries: Seq<(Seq<char>, u32)>) -> bool {
    forall|i: int, j: int|
        #![trigger entries[i], entries[j]]
        0 <= i < j < entries.len() ==> comes_before(
            vstd::utf8::encode_utf8(entries[i].0),
            vstd::utf8::encode_utf8(entries[j].0),
        )
}

/// `serde_json::from_str` for a `BTreeMap` of strings to `u32`: whether a text holds such a map, and
/// which entries it has, depends on the text alone. The entries come in ascending order of their
/// keys, each key once.
#[verifier::external_body]
fn read_numbers(text: &str) -> (result: Result<Vec<(String, u32)>, serde_json::Error>)
    ensures
        match json_numbers(text@) {
            Some(entries) => result is Ok && numbers_data(result->Ok_0@) == entries,
            None => result is Err,
        },
        result is Ok ==> texts_ascend(numbers_data(result->Ok_0@)),
{
    serde_json::from_str::<BTreeMap<String, u32>>(text).map(|map| map.into_iter().collect())
}

/// Reads a map of texts to numbers.
pub fn parse_numbers(text: &str) -> (entries: Option<Vec<(String, u32)>>)
    ensures
        match json_numbers(text@) {
            Some(numbers) => entries is Some && numbers_data(entries->0@) == numbers,
            None => entries is None,
        },
        entries is Some ==> texts_ascend(numbers_data(entries->0@)),
{
    match read_numbers(text) {
        Ok(entries) => Some(entries),
        Err(_) => None,
    }
}

/// Reads a document.
pub fn parse(bytes: &[u8]) -> (json: Option<Json>)
    ensures
        match json_document(bytes@) {
            Some(document) => json is Some && json->0@ == document,
            None => json is None,
        },
        json is Some && json->0@ is Object ==> ascending(json->0@->Object_0),
{
    match read_document(bytes) {
        Ok(json) => Some(json),
        Err(_) => None,
    }
}

/// The value under a key of an object's entries; of a key that occurs twice, the first counts.
pub open spec fn entry(entries: Seq<(Seq<char>, JsonData)>, key: Seq<char>) -> Option<JsonData>
    decreases entries.len(),
{
    if entries.len() == 0 {
        None
    } else if entries[0].0 == key {
        Some(entries[0].1)
    } else {
        entry(entries.skip(1), key)
    }
}

/// Different numbers are written differently.
pub proof fn lemma_decimal_distinct(a: nat, b: nat)
    requires
        text::decimal(a) == text::decimal(b),
    ensures
        a == b,
    decreases a,
{
    lemma_decimal_len(a);
    lemma_decimal_len(b);
    if a < 10 {
        if b < 10 {
            assert(text::decimal(a)[0] == text::digit(a));
            assert(text::decimal(b)[0] == text::digit(b));
            assert((48 + a) as char == (48 + b) as char);
        } else {
            assert(text::decimal(b).len() > 1) by {
                lemma_decimal_len(b / 10);
            }
        }
    } else {
        if b < 10 {
            lemma_decimal_len(a / 10);
            assert(text::decimal(a).len() > 1);
        } else {
            assert(text::decimal(a).drop_last() =~= text::decimal(a / 10));
            assert(text::decimal(b).drop_last() =~= text::decimal(b / 10));
            lemma_decimal_distinct(a / 10, b / 10);
            assert(text::decimal(a).last() == text::digit(a % 10));
            assert(text::decimal(b).last() == text::digit(b % 10));
        }
    }
}

proof fn lemma_decimal_len(a: nat)
    ensures
        text::decimal(a).len() > 0,
    decreases a,
{
    if a >= 10 {
        lemma_decimal_len(a / 10);
    }
}

impl JsonData {
    /// The value that a name leads to: a key of an object, or an index of a list in decimal.
    pub open spec fn child(self, name: Seq<char>) -> Option<JsonData> {
        match self {
            JsonData::Object(entries) => entry(entries, name),
            JsonData::List(items) => if exists|i: nat|
                i < items.len() && #[trigger] text::decimal(i) == name {
                let i = choose|i: nat| i < items.len() && #[trigger] text::decimal(i) == name;
                Some(items[i as int])
            } else {
                None
            },
            _ => None,
        }
    }

    /// The value that names, one after the other, lead to.
    pub open spec fn descend(self, names: Seq<Seq<char>>) -> Option<JsonData>
        decreases names.len(),
    {
        if names.len() == 0 {
            Some(self)
        } else {
            match self.child(names[0]) {
                Some(next) => next.descend(names.skip(1)),
                None => None,
            }
        }
    }

    /// The value at a pointer: names, each after a slash. The empty pointer is the value itself.
    pub open spec fn at(self, pointer: Seq<char>) -> Option<JsonData> {
        if pointer.len() == 0 {
            Some(self)
        } else if pointer[0] != '/' {
            None
        } else {
            self.descend(fields::split(pointer.skip(1), '/'))
        }
    }
}

/// What the entries of an object hold.
pub open spec fn entries_data(entries: Seq<(String, Json)>) -> Seq<(Seq<char>, JsonData)> {
    Seq::new(entries.len(), |i: int| (entries[i].0@, entries[i].1@))
}

/// What the items of a list hold.
pub open spec fn items_data(items: Seq<Json>) -> Seq<JsonData> {
    Seq::new(items.len(), |i: int| items[i]@)
}

/// The value under a key of an object's entries.
pub fn find_entry<'a>(entries: &'a Vec<(String, Json)>, key: &str) -> (found: Option<&'a Json>)
    ensures
        match found {
            Some(json) => entry(entries_data(entries@), key@) == Some(json@),
            None => entry(entries_data(entries@), key@) is None,
        },
{
    let ghost all = entries_data(entries@);
    let mut i: usize = 0;
    proof {
        assert(all.skip(0) =~= all);
    }
    while i < entries.len()
        invariant
            i <= entries@.len(),
            all == entries_data(entries@),
            entry(all, key@) == entry(all.skip(i as int), key@),
        decreases entries.len() - i,
    {
        proof {
            assert(all.skip(i as int).skip(1) =~= all.skip(i + 1));
            assert(all.skip(i as int)[0] == all[i as int]);
        }
        if same_text(entries[i].0.as_str(), key) {
            return Some(&entries[i].1);
        }
        i = i + 1;
    }
    None
}

impl Json {
    /// The value that a name leads to.
    pub fn child(&self, name: &str) -> (found: Option<&Json>)
        ensures
            match found {
                Some(json) => self@.child(name@) == Some(json@),
                None => self@.child(name@) is None,
            },
    {
        match self {
            Json::Object(entries) => {
                proof {
                    assert(self@->Object_0 =~= entries_data(entries@));
                }
                find_entry(entries, name)
            },
            Json::List(items) => {
                proof {
                    assert(self@->List_0 =~= items_data(items@));
                }
                let mut i: usize = 0;
                while i < items.len()
                    invariant
                        i <= items@.len(),
                        self@ == JsonData::List(items_data(items@)),
                        forall|j: nat| j < i ==> #[trigger] text::decimal(j) != name@,
                    decreases items.len() - i,
                {
                    let mut digits = String::new();
                    text::push_usize(&mut digits, i);
                    proof {
                        assert(digits@ =~= text::decimal(i as nat));
                    }
                    if same_text(digits.as_str(), name) {
                        proof {
                            let here = i as nat;
                            assert(here < items_data(items@).len() && text::decimal(here) == name@);
                            let k = choose|k: nat|
                                k < items_data(items@).len() && #[trigger] text::decimal(k)
                                    == name@;
                            lemma_decimal_distinct(k, here);
                        }
                        return Some(&items[i]);
                    }
                    i = i + 1;
                }
                None
            },
            _ => None,
        }
    }

    /// The value at a pointer.
    pub fn at(&self, pointer: &str) -> (found: Option<&Json>)
        ensures
            match found {
                Some(json) => self@.at(pointer@) == Some(json@),
                None => self@.at(pointer@) is None,
            },
    {
        let chars = chars_of(pointer);
        let len: usize = chars.len();
        if len == 0 {
            return Some(self);
        }
        if chars[0] != '/' {
            return None;
        }
        let ghost path = pointer@;
        let mut target: &Json = self;
        let mut start: usize = 1;
        let mut done: bool = false;
        while !done
            invariant
                path == pointer@,
                chars@ == path,
                chars@.len() == len,
                !done ==> 1 <= start <= len && self@.at(path) == target@.descend(
                    fields::split(path.skip(start as int), '/'),
                ),
                done ==> self@.at(path) == Some(target@),
            decreases
                    len - start + if done {
                        0int
                    } else {
                        1int
                    },
        {
            let ghost rest = path.skip(start as int);
            let mut end: usize = start;
            while end < len && chars[end] != '/'
                invariant
                    chars@ == path,
                    chars@.len() == len,
                    start <= end <= len,
                    rest == path.skip(start as int),
                    fields::until(rest, '/') == (end - start) + fields::until(
                        path.skip(end as int),
                        '/',
                    ),
                decreases len - end,
            {
                proof {
                    assert(path.skip(end as int).skip(1) =~= path.skip(end + 1));
                    assert(path.skip(end as int)[0] == path[end as int]);
                }
                end = end + 1;
            }
            proof {
                if end < len {
                    assert(path.skip(end as int)[0] == '/');
                }
                assert(fields::until(rest, '/') == end - start);
            }
            let name = string_of(&chars, start, end);
            let ghost names = fields::split(rest, '/');
            proof {
                if end == len {
                    assert(name@ =~= rest);
                    assert(names[0] == name@);
                    assert(names.skip(1) =~= Seq::empty());
                } else {
                    assert(name@ =~= rest.take(end - start));
                    assert(names[0] == name@);
                    assert(rest.skip(end - start + 1) =~= path.skip(end + 1));
                    assert(names.skip(1) =~= fields::split(path.skip(end + 1), '/'));
                }
            }
            match target.child(name.as_str()) {
                Some(next) => {
                    proof {
                        assert(target@.descend(names) == next@.descend(names.skip(1)));
                        if end == len {
                            assert(next@.descend(names.skip(1)) == Some(next@));
                        }
                    }
                    target = next;
                },
                None => {
                    return None;
                },
            }
            if end == len {
                done = true;
            } else {
                start = end + 1;
            }
        }
        Some(target)
    }
}

} // verus!
