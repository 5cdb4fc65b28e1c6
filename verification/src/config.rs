//! Rules that the configuration documents of a model pack must meet.

use vstd::prelude::*;
use crate::json;
use crate::json::{Json, JsonData};
use crate::text;
use crate::text::{push_bracketed64, push_decimal, quote, same_text};

verus! {

broadcast use vstd::string::group_string_axioms;

/// A decimal constant of the model family.
#[derive(Clone, Copy, Debug, PartialEq, Eq, Structural)]
pub enum Constant {
    /// 0.00001.
    NormEpsilon,
    /// 0.00085.
    BetaStart,
    /// 0.012.
    BetaEnd,
    /// 0.13025.
    VaeScale,
}

impl Constant {
    /// The bit pattern of the constant in double precision.
    pub open spec fn center(self) -> u64 {
        match self {
            Constant::NormEpsilon => 0x3ee4_f8b5_88e3_68f1,
            Constant::BetaStart => 0x3f4b_da51_19ce_075f,
            Constant::BetaEnd => 0x3f88_9374_bc6a_7efa,
            Constant::VaeScale => 0x3fc0_ac08_3126_e979,
        }
    }

    /// How far, in units of the last place, a number within 10^-12 of the constant is from it.
    pub open spec fn radius(self) -> u64 {
        match self {
            Constant::NormEpsilon => 590295810,
            Constant::BetaStart => 9223372,
            Constant::BetaEnd => 576460,
            Constant::VaeScale => 36028,
        }
    }

    /// How messages write the constant.
    pub open spec fn text(self) -> Seq<char> {
        match self {
            Constant::NormEpsilon => "0.00001"@,
            Constant::BetaStart => "0.00085"@,
            Constant::BetaEnd => "0.012"@,
            Constant::VaeScale => "0.13025"@,
        }
    }

    /// How messages write the constant.
    pub fn name(self) -> (name: &'static str)
        ensures
            name@ == self.text(),
    {
        match self {
            Constant::NormEpsilon => "0.00001",
            Constant::BetaStart => "0.00085",
            Constant::BetaEnd => "0.012",
            Constant::VaeScale => "0.13025",
        }
    }

    /// The bit pattern and the radius.
    pub fn bounds(self) -> (bounds: (u64, u64))
        ensures
            bounds == (self.center(), self.radius()),
    {
        match self {
            Constant::NormEpsilon => (0x3ee4_f8b5_88e3_68f1, 590295810),
            Constant::BetaStart => (0x3f4b_da51_19ce_075f, 9223372),
            Constant::BetaEnd => (0x3f88_9374_bc6a_7efa, 576460),
            Constant::VaeScale => (0x3fc0_ac08_3126_e979, 36028),
        }
    }
}

/// A number of a document, which is read in double precision: a bit pattern, or an integer.
#[derive(Clone, Copy, Debug, PartialEq, Eq)]
pub enum Decimal {
    Float(u64),
    Unsigned(u64),
    Negative(i64),
}

/// What a field must hold.
#[derive(Clone, Debug)]
pub enum Expected {
    Text(&'static str),
    Number(u64),
    Flag(bool),
    Near(Constant),
    Numbers(Vec<u64>),
}

/// What a field must hold, with texts and lists as sequences.
#[verifier::ext_equal]
pub enum ExpectedData {
    Text(Seq<char>),
    Number(u64),
    Flag(bool),
    Near(Constant),
    Numbers(Seq<u64>),
}

impl View for Expected {
    type V = ExpectedData;

    open spec fn view(&self) -> ExpectedData {
        match *self {
            Expected::Text(s) => ExpectedData::Text(s@),
            Expected::Number(n) => ExpectedData::Number(n),
            Expected::Flag(b) => ExpectedData::Flag(b),
            Expected::Near(c) => ExpectedData::Near(c),
            Expected::Numbers(v) => ExpectedData::Numbers(v@),
        }
    }
}

/// A field, by JSON pointer, and what it must hold.
#[derive(Clone, Debug)]
pub struct Rule {
    pub pointer: &'static str,
    pub expected: Expected,
}

/// A field and what it must hold, with texts as sequences.
#[verifier::ext_equal]
pub struct RuleData {
    pub pointer: Seq<char>,
    pub expected: ExpectedData,
}

impl View for Rule {
    type V = RuleData;

    open spec fn view(&self) -> RuleData {
        RuleData { pointer: self.pointer@, expected: self.expected@ }
    }
}

/// What rules say.
pub open spec fn rules_of(rules: Seq<Rule>) -> Seq<RuleData> {
    Seq::new(rules.len(), |i: int| rules[i]@)
}

/// Why a configuration is refused.
#[allow(inconsistent_fields)]
#[derive(Clone, Debug, PartialEq, Eq)]
pub enum ConfigError {
    MissingText { pointer: String },
    TextMismatch { pointer: String, actual: String, expected: String },
    MissingNumber { pointer: String },
    NumberMismatch { pointer: String, actual: u64, expected: u64 },
    MissingFlag { pointer: String },
    FlagMismatch { pointer: String, expected: bool },
    MissingDecimal { pointer: String },
    DecimalMismatch { pointer: String, actual: Decimal, expected: Constant },
    MissingList { pointer: String },
    NotNumbers { pointer: String },
    ListMismatch { pointer: String, actual: Vec<u64>, expected: Vec<u64> },
}

/// What a [`ConfigError`] says, with texts and lists as sequences.
#[allow(inconsistent_fields)]
pub enum ConfigFault {
    MissingText { pointer: Seq<char> },
    TextMismatch { pointer: Seq<char>, actual: Seq<char>, expected: Seq<char> },
    MissingNumber { pointer: Seq<char> },
    NumberMismatch { pointer: Seq<char>, actual: u64, expected: u64 },
    MissingFlag { pointer: Seq<char> },
    FlagMismatch { pointer: Seq<char>, expected: bool },
    MissingDecimal { pointer: Seq<char> },
    DecimalMismatch { pointer: Seq<char>, actual: Decimal, expected: Constant },
    MissingList { pointer: Seq<char> },
    NotNumbers { pointer: Seq<char> },
    ListMismatch { pointer: Seq<char>, actual: Seq<u64>, expected: Seq<u64> },
}

impl View for ConfigError {
    type V = ConfigFault;

    open spec fn view(&self) -> ConfigFault {
        match *self {
            ConfigError::MissingText { pointer } => ConfigFault::MissingText { pointer: pointer@ },
            ConfigError::TextMismatch { pointer, actual, expected } => ConfigFault::TextMismatch {
                pointer: pointer@,
                actual: actual@,
                expected: expected@,
            },
            ConfigError::MissingNumber { pointer } => ConfigFault::MissingNumber {
                pointer: pointer@,
            },
            ConfigError::NumberMismatch { pointer, actual, expected } =>
                ConfigFault::NumberMismatch { pointer: pointer@, actual, expected },
            ConfigError::MissingFlag { pointer } => ConfigFault::MissingFlag { pointer: pointer@ },
            ConfigError::FlagMismatch { pointer, expected } => ConfigFault::FlagMismatch {
                pointer: pointer@,
                expected,
            },
            ConfigError::MissingDecimal { pointer } => ConfigFault::MissingDecimal {
                pointer: pointer@,
            },
            ConfigError::DecimalMismatch { pointer, actual, expected } =>
                ConfigFault::DecimalMismatch { pointer: pointer@, actual, expected },
            ConfigError::MissingList { pointer } => ConfigFault::MissingList { pointer: pointer@ },
            ConfigError::NotNumbers { pointer } => ConfigFault::NotNumbers { pointer: pointer@ },
            ConfigError::ListMismatch { pointer, actual, expected } => ConfigFault::ListMismatch {
                pointer: pointer@,
                actual: actual@,
                expected: expected@,
            },
        }
    }
}

/// How messages write a flag.
pub open spec fn flag_text(flag: bool) -> Seq<char> {
    if flag {
        "true"@
    } else {
        "false"@
    }
}

impl ConfigFault {
    /// The message for people, with `shown` for a number in double precision.
    pub open spec fn text(self, shown: Seq<char>) -> Seq<char> {
        match self {
            ConfigFault::MissingText { pointer } => "missing string config field "@ + pointer,
            ConfigFault::TextMismatch { pointer, actual, expected } => "config field "@ + pointer
                + " is "@ + text::debug_text(actual) + "; expected "@ + text::debug_text(expected),
            ConfigFault::MissingNumber { pointer } => "missing integer config field "@ + pointer,
            ConfigFault::NumberMismatch { pointer, actual, expected } => "config field "@ + pointer
                + " is "@ + text::decimal(actual as nat) + "; expected "@ + text::decimal(
                expected as nat,
            ),
            ConfigFault::MissingFlag { pointer } => "missing boolean config field "@ + pointer,
            ConfigFault::FlagMismatch { pointer, expected } => "config field "@ + pointer + " is "@
                + flag_text(!expected) + "; expected "@ + flag_text(expected),
            ConfigFault::MissingDecimal { pointer } => "missing numeric config field "@ + pointer,
            ConfigFault::DecimalMismatch { pointer, actual, expected } => "config field "@ + pointer
                + " is "@ + shown + "; expected "@ + expected.text(),
            ConfigFault::MissingList { pointer } => "missing array config field "@ + pointer,
            ConfigFault::NotNumbers { pointer } => "config field "@ + pointer
                + " must contain only integers"@,
            ConfigFault::ListMismatch { pointer, actual, expected } => "config field "@ + pointer
                + " is "@ + text::bracketed64(actual) + "; expected "@ + text::bracketed64(
                expected,
            ),
        }
    }
}

impl ConfigFault {
    /// A message tells of the fault. `show` writes a number in double precision.
    pub open spec fn told<S: Fn(Decimal) -> String>(self, show: S, message: Seq<char>) -> bool {
        match self {
            ConfigFault::DecimalMismatch { actual, .. } => exists|shown: String| #[trigger]
                call_ensures(show, (actual,), shown) && message == self.text(shown@),
            _ => message == self.text(Seq::empty()),
        }
    }
}

/// How messages write a flag.
fn flag_name(flag: bool) -> (name: &'static str)
    ensures
        name@ == flag_text(flag),
{
    if flag {
        "true"
    } else {
        "false"
    }
}

impl ConfigError {
    /// The message for people. `show` writes a number in double precision.
    pub fn message<S: Fn(Decimal) -> String>(&self, show: &S) -> (message: String)
        requires
            forall|d: Decimal| call_requires(*show, (d,)),
        ensures
            self@.told(*show, message@),
    {
        let mut out = String::new();
        match self {
            ConfigError::MissingText { pointer } => {
                out.append("missing string config field ");
                out.append(pointer.as_str());
            },
            ConfigError::TextMismatch { pointer, actual, expected } => {
                out.append("config field ");
                out.append(pointer.as_str());
                out.append(" is ");
                out.append(quote(actual.as_str()).as_str());
                out.append("; expected ");
                out.append(quote(expected.as_str()).as_str());
            },
            ConfigError::MissingNumber { pointer } => {
                out.append("missing integer config field ");
                out.append(pointer.as_str());
            },
            ConfigError::NumberMismatch { pointer, actual, expected } => {
                out.append("config field ");
                out.append(pointer.as_str());
                out.append(" is ");
                push_decimal(&mut out, *actual);
                out.append("; expected ");
                push_decimal(&mut out, *expected);
            },
            ConfigError::MissingFlag { pointer } => {
                out.append("missing boolean config field ");
                out.append(pointer.as_str());
            },
            ConfigError::FlagMismatch { pointer, expected } => {
                out.append("config field ");
                out.append(pointer.as_str());
                out.append(" is ");
                out.append(flag_name(!*expected));
                out.append("; expected ");
                out.append(flag_name(*expected));
            },
            ConfigError::MissingDecimal { pointer } => {
                out.append("missing numeric config field ");
                out.append(pointer.as_str());
            },
            ConfigError::DecimalMismatch { pointer, actual, expected } => {
                let shown = show(*actual);
                out.append("config field ");
                out.append(pointer.as_str());
                out.append(" is ");
                out.append(shown.as_str());
                out.append("; expected ");
                out.append(expected.name());
                proof {
                    assert(call_ensures(*show, (*actual,), shown));
                    assert(out@ =~= self@.text(shown@));
                }
            },
            ConfigError::MissingList { pointer } => {
                out.append("missing array config field ");
                out.append(pointer.as_str());
            },
            ConfigError::NotNumbers { pointer } => {
                out.append("config field ");
                out.append(pointer.as_str());
                out.append(" must contain only integers");
            },
            ConfigError::ListMismatch { pointer, actual, expected } => {
                out.append("config field ");
                out.append(pointer.as_str());
                out.append(" is ");
                push_bracketed64(&mut out, actual);
                out.append("; expected ");
                push_bracketed64(&mut out, expected);
            },
        }
        out
    }
}

/// What is wrong with a text field.
pub open spec fn text_fault(
    document: JsonData,
    pointer: Seq<char>,
    expected: Seq<char>,
) -> Option<ConfigFault> {
    match document.at(pointer) {
        Some(JsonData::Text(actual)) => if actual == expected {
            None
        } else {
            Some(ConfigFault::TextMismatch { pointer, actual, expected })
        },
        _ => Some(ConfigFault::MissingText { pointer }),
    }
}

/// What is wrong with a field that holds a number.
pub open spec fn number_fault(document: JsonData, pointer: Seq<char>, expected: u64) -> Option<
    ConfigFault,
> {
    match document.at(pointer) {
        Some(JsonData::Unsigned(actual)) => if actual == expected {
            None
        } else {
            Some(ConfigFault::NumberMismatch { pointer, actual, expected })
        },
        _ => Some(ConfigFault::MissingNumber { pointer }),
    }
}

/// What is wrong with a field that holds a flag.
pub open spec fn flag_fault(document: JsonData, pointer: Seq<char>, expected: bool) -> Option<
    ConfigFault,
> {
    match document.at(pointer) {
        Some(JsonData::Bool(actual)) => if actual == expected {
            None
        } else {
            Some(ConfigFault::FlagMismatch { pointer, expected })
        },
        _ => Some(ConfigFault::MissingFlag { pointer }),
    }
}

/// What is wrong with a field that holds a decimal constant. No integer is near any constant.
pub open spec fn decimal_fault(
    document: JsonData,
    pointer: Seq<char>,
    expected: Constant,
) -> Option<ConfigFault> {
    match document.at(pointer) {
        Some(JsonData::Float(bits)) => if expected.center() - expected.radius() <= bits
            <= expected.center() + expected.radius() {
            None
        } else {
            Some(
                ConfigFault::DecimalMismatch { pointer, actual: Decimal::Float(bits), expected },
            )
        },
        Some(JsonData::Unsigned(n)) => Some(
            ConfigFault::DecimalMismatch { pointer, actual: Decimal::Unsigned(n), expected },
        ),
        Some(JsonData::Negative(n)) => Some(
            ConfigFault::DecimalMismatch { pointer, actual: Decimal::Negative(n), expected },
        ),
        _ => Some(ConfigFault::MissingDecimal { pointer }),
    }
}

/// A list's items are numbers.
pub open spec fn all_numbers(items: Seq<JsonData>) -> bool {
    forall|i: int| 0 <= i < items.len() ==> (#[trigger] items[i]) is Unsigned
}

/// The numbers of a list.
pub open spec fn numbers(items: Seq<JsonData>) -> Seq<u64> {
    Seq::new(items.len(), |i: int| items[i]->Unsigned_0)
}

/// What is wrong with a field that holds numbers.
pub open spec fn list_fault(
    document: JsonData,
    pointer: Seq<char>,
    expected: Seq<u64>,
) -> Option<ConfigFault> {
    match document.at(pointer) {
        Some(JsonData::List(items)) => if !all_numbers(items) {
            Some(ConfigFault::NotNumbers { pointer })
        } else if numbers(items) == expected {
            None
        } else {
            Some(ConfigFault::ListMismatch { pointer, actual: numbers(items), expected })
        },
        _ => Some(ConfigFault::MissingList { pointer }),
    }
}

/// What is wrong with the field of a rule.
pub open spec fn rule_fault(document: JsonData, rule: RuleData) -> Option<ConfigFault> {
    match rule.expected {
        ExpectedData::Text(expected) => text_fault(document, rule.pointer, expected),
        ExpectedData::Number(expected) => number_fault(document, rule.pointer, expected),
        ExpectedData::Flag(expected) => flag_fault(document, rule.pointer, expected),
        ExpectedData::Near(expected) => decimal_fault(document, rule.pointer, expected),
        ExpectedData::Numbers(expected) => list_fault(document, rule.pointer, expected),
    }
}

/// What is wrong with a document: the fault of the first rule that it breaks.
pub open spec fn first_fault(document: JsonData, rules: Seq<RuleData>) -> Option<ConfigFault>
    decreases rules.len(),
{
    if rules.len() == 0 {
        None
    } else {
        match first_fault(document, rules.drop_last()) {
            Some(fault) => Some(fault),
            None => rule_fault(document, rules.last()),
        }
    }
}

/// A document is accepted exactly if it breaks none of the rules.
pub proof fn accepted_documents_meet_every_rule(document: JsonData, rules: Seq<RuleData>)
    ensures
        first_fault(document, rules) is None <==> forall|i: int|
            0 <= i < rules.len() ==> rule_fault(document, #[trigger] rules[i]) is None,
    decreases rules.len(),
{
    if rules.len() > 0 {
        let init = rules.drop_last();
        accepted_documents_meet_every_rule(document, init);
        assert(rules.last() == rules[rules.len() - 1]);
        if first_fault(document, rules) is None {
            assert forall|i: int| 0 <= i < rules.len() implies rule_fault(
                document,
                #[trigger] rules[i],
            ) is None by {
                if i < init.len() {
                    assert(init[i] == rules[i]);
                }
            }
        } else if forall|i: int|
            0 <= i < rules.len() ==> rule_fault(document, #[trigger] rules[i]) is None {
            assert forall|i: int| 0 <= i < init.len() implies rule_fault(
                document,
                #[trigger] init[i],
            ) is None by {
                assert(init[i] == rules[i]);
            }
        }
    }
}

/// The result of a check is the fault, if there is one.
pub open spec fn reports(result: Result<(), ConfigError>, fault: Option<ConfigFault>) -> bool {
    match fault {
        Some(fault) => result is Err && result->Err_0@ == fault,
        None => result is Ok,
    }
}

/// Checks a text field.
pub fn expect_string(value: &Json, pointer: &str, expected: &str) -> (result: Result<
    (),
    ConfigError,
>)
    ensures
        reports(result, text_fault(value@, pointer@, expected@)),
{
    match value.at(pointer) {
        Some(Json::Text(actual)) => {
            if same_text(actual.as_str(), expected) {
                Ok(())
            } else {
                Err(
                    ConfigError::TextMismatch {
                        pointer: pointer.to_owned(),
                        actual: actual.clone(),
                        expected: expected.to_owned(),
                    },
                )
            }
        },
        _ => Err(ConfigError::MissingText { pointer: pointer.to_owned() }),
    }
}

/// Checks a field that holds a number.
pub fn expect_u64(value: &Json, pointer: &str, expected: u64) -> (result: Result<(), ConfigError>)
    ensures
        reports(result, number_fault(value@, pointer@, expected)),
{
    match value.at(pointer) {
        Some(Json::Unsigned(actual)) => {
            if *actual == expected {
                Ok(())
            } else {
                Err(
                    ConfigError::NumberMismatch {
                        pointer: pointer.to_owned(),
                        actual: *actual,
                        expected,
                    },
                )
            }
        },
        _ => Err(ConfigError::MissingNumber { pointer: pointer.to_owned() }),
    }
}

/// Checks a field that holds a flag.
pub fn expect_bool(value: &Json, pointer: &str, expected: bool) -> (result: Result<
    (),
    ConfigError,
>)
    ensures
        reports(result, flag_fault(value@, pointer@, expected)),
{
    match value.at(pointer) {
        Some(Json::Bool(actual)) => {
            if *actual == expected {
                Ok(())
            } else {
                Err(ConfigError::FlagMismatch { pointer: pointer.to_owned(), expected })
            }
        },
        _ => Err(ConfigError::MissingFlag { pointer: pointer.to_owned() }),
    }
}

/// Checks a field that holds a decimal constant.
pub fn expect_decimal(value: &Json, pointer: &str, expected: Constant) -> (result: Result<
    (),
    ConfigError,
>)
    ensures
        reports(result, decimal_fault(value@, pointer@, expected)),
{
    match value.at(pointer) {
        Some(Json::Float(bits)) => {
            let (center, radius): (u64, u64) = expected.bounds();
            let distance: u64 = if *bits >= center {
                *bits - center
            } else {
                center - *bits
            };
            if distance <= radius {
                Ok(())
            } else {
                Err(
                    ConfigError::DecimalMismatch {
                        pointer: pointer.to_owned(),
                        actual: Decimal::Float(*bits),
                        expected,
                    },
                )
            }
        },
        Some(Json::Unsigned(n)) => Err(
            ConfigError::DecimalMismatch {
                pointer: pointer.to_owned(),
                actual: Decimal::Unsigned(*n),
                expected,
            },
        ),
        Some(Json::Negative(n)) => Err(
            ConfigError::DecimalMismatch {
                pointer: pointer.to_owned(),
                actual: Decimal::Negative(*n),
                expected,
            },
        ),
        _ => Err(ConfigError::MissingDecimal { pointer: pointer.to_owned() }),
    }
}

/// The two lists are the same.
fn same_numbers(left: &[u64], right: &[u64]) -> (same: bool)
    ensures
        same == (left@ == right@),
{
    if left.len() != right.len() {
        return false;
    }
    let mut i: usize = 0;
    while i < left.len()
        invariant
            i <= left@.len() == right@.len(),
            forall|j: int| 0 <= j < i ==> left@[j] == right@[j],
        decreases left.len() - i,
    {
        if left[i] != right[i] {
            return false;
        }
        i = i + 1;
    }
    assert(left@ =~= right@);
    true
}

/// Checks a field that holds numbers.
pub fn expect_u64_array(value: &Json, pointer: &str, expected: &[u64]) -> (result: Result<
    (),
    ConfigError,
>)
    ensures
        reports(result, list_fault(value@, pointer@, expected@)),
{
    match value.at(pointer) {
        Some(found) => {
            match found {
                Json::List(items) => {
                    let ghost all = json::items_data(items@);
                    proof {
                        assert(found@->List_0 =~= all);
                    }
                    let mut actual: Vec<u64> = Vec::new();
                    let mut i: usize = 0;
                    while i < items.len()
                        invariant
                            i == actual@.len() <= items@.len(),
                            all == json::items_data(items@),
                            value@.at(pointer@) == Some(JsonData::List(all)),
                            forall|j: int|
                                0 <= j < i ==> #[trigger] all[j] == JsonData::Unsigned(
                                actual@[j],
                            ),
                        decreases items.len() - i,
                    {
                        match &items[i] {
                            Json::Unsigned(n) => {
                                actual.push(*n);
                            },
                            _ => {
                                proof {
                                    assert(!(all[i as int] is Unsigned));
                                }
                                return Err(ConfigError::NotNumbers { pointer: pointer.to_owned() });
                            },
                        }
                        i = i + 1;
                    }
                    proof {
                        assert(actual@ =~= numbers(all));
                        assert(all_numbers(all));
                    }
                    if same_numbers(&actual, expected) {
                        Ok(())
                    } else {
                        Err(
                            ConfigError::ListMismatch {
                                pointer: pointer.to_owned(),
                                actual,
                                expected: vstd::slice::slice_to_vec(expected),
                            },
                        )
                    }
                },
                _ => Err(ConfigError::MissingList { pointer: pointer.to_owned() }),
            }
        },
        None => Err(ConfigError::MissingList { pointer: pointer.to_owned() }),
    }
}

/// Checks the field of a rule.
fn check_rule(value: &Json, rule: &Rule) -> (result: Result<(), ConfigError>)
    ensures
        reports(result, rule_fault(value@, rule@)),
{
    match &rule.expected {
        Expected::Text(expected) => expect_string(value, rule.pointer, expected),
        Expected::Number(expected) => expect_u64(value, rule.pointer, *expected),
        Expected::Flag(expected) => expect_bool(value, rule.pointer, *expected),
        Expected::Near(expected) => expect_decimal(value, rule.pointer, *expected),
        Expected::Numbers(expected) => expect_u64_array(value, rule.pointer, expected),
    }
}

/// Checks a document against rules, in order.
pub fn check_rules(value: &Json, rules: &Vec<Rule>) -> (result: Result<(), ConfigError>)
    ensures
        reports(result, first_fault(value@, rules_of(rules@))),
{
    let ghost all = rules_of(rules@);
    let mut i: usize = 0;
    proof {
        assert(all.take(0) =~= Seq::empty());
    }
    while i < rules.len()
        invariant
            i <= rules@.len(),
            all == rules_of(rules@),
            first_fault(value@, all.take(i as int)) is None,
        decreases rules.len() - i,
    {
        proof {
            assert(all.take(i + 1).drop_last() =~= all.take(i as int));
            assert(all.take(i + 1).last() == rules@[i as int]@);
        }
        match check_rule(value, &rules[i]) {
            Ok(()) => {},
            Err(error) => {
                proof {
                    lemma_fault_prefix(value@, all, i + 1);
                }
                return Err(error);
            },
        }
        i = i + 1;
    }
    proof {
        assert(all.take(all.len() as int) =~= all);
    }
    Ok(())
}

proof fn lemma_fault_prefix(document: JsonData, rules: Seq<RuleData>, n: int)
    requires
        0 <= n <= rules.len(),
        first_fault(document, rules.take(n)) is Some,
    ensures
        first_fault(document, rules) == first_fault(document, rules.take(n)),
    decreases rules.len(),
{
    if n == rules.len() {
        assert(rules.take(n) =~= rules);
    } else {
        assert(rules.drop_last().take(n) =~= rules.take(n));
        lemma_fault_prefix(document, rules.drop_last(), n);
    }
}

} // verus!
