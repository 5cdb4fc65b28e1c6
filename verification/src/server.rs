//! What the HTTP server makes of a request.

use vstd::prelude::*;
use crate::float_order;
use crate::float_order::is_greater;
use crate::llm_config::ONE;
use crate::sampling;
use crate::sampling::Settings;
use crate::text;
use crate::text::push_decimal;

verus! {

broadcast use vstd::string::group_string_axioms;

/// How many tokens are generated where a request does not say.
pub const DEFAULT_MAX_TOKENS: usize = 512;

/// How many of the best tokens are drawn from where a request does not say.
pub const DEFAULT_TOP_K: usize = 40;

/// What a request asks for, as far as it says. Numbers are given by bit pattern.
#[derive(Clone, Copy, Debug, PartialEq, Eq)]
pub struct Wishes {
    pub max_tokens: Option<usize>,
    pub temperature: Option<u32>,
    pub top_k: Option<usize>,
    pub repeat_penalty: Option<u32>,
}

/// A number, or the least that is allowed where it is smaller or not a number.
pub open spec fn at_least(bits: u32, least: u32) -> u32 {
    if float_order::greater(bits, least) {
        bits
    } else {
        least
    }
}

impl Wishes {
    /// How many tokens are generated.
    pub open spec fn tokens(self) -> usize {
        match self.max_tokens {
            Some(n) => n,
            None => DEFAULT_MAX_TOKENS,
        }
    }

    /// How tokens are chosen: without a temperature the greatest score decides, at least one token
    /// is drawn from, and repetition is never rewarded.
    pub open spec fn choice(self) -> Settings {
        Settings {
            temperature: match self.temperature {
                Some(bits) => at_least(bits, 0),
                None => 0,
            },
            top_k: match self.top_k {
                Some(0) => 1,
                Some(k) => k,
                None => DEFAULT_TOP_K,
            },
            repeat_penalty: match self.repeat_penalty {
                Some(bits) => at_least(bits, ONE),
                None => ONE,
            },
        }
    }

    /// How many tokens are generated.
    pub fn max_new(&self) -> (n: usize)
        ensures
            n == self.tokens(),
    {
        match self.max_tokens {
            Some(n) => n,
            None => DEFAULT_MAX_TOKENS,
        }
    }

    /// How tokens are chosen.
    pub fn settings(&self) -> (settings: Settings)
        ensures
            settings == self.choice(),
            settings.top_k > 0,
    {
        let temperature: u32 = match self.temperature {
            Some(bits) => if is_greater(bits, 0) {
                bits
            } else {
                0
            },
            None => 0,
        };
        let top_k: usize = match self.top_k {
            Some(k) => if k == 0 {
                1
            } else {
                k
            },
            None => DEFAULT_TOP_K,
        };
        let repeat_penalty: u32 = match self.repeat_penalty {
            Some(bits) => if is_greater(bits, ONE) {
                bits
            } else {
                ONE
            },
            None => ONE,
        };
        Settings { temperature, top_k, repeat_penalty }
    }
}

/// A request without a temperature, or with one of at most zero, is answered with the greatest
/// scores.
pub proof fn no_temperature_means_greedy(wishes: Wishes)
    requires
        wishes.temperature matches Some(bits) ==> !float_order::greater(bits, 0),
    ensures
        sampling::greedy(wishes.choice().temperature),
{
}

/// The address to listen on: the local machine alone, unless another is given.
pub open spec fn listening(bind: Option<Seq<char>>, port: nat) -> Seq<char> {
    (match bind {
        Some(host) => host,
        None => "127.0.0.1"@,
    }) + ":"@ + text::decimal(port)
}

/// The address to listen on.
pub fn address(bind: Option<&str>, port: u64) -> (address: String)
    ensures
        address@ == listening(
            match bind {
                Some(host) => Some(host@),
                None => None,
            },
            port as nat,
        ),
{
    let mut address = String::new();
    match bind {
        Some(host) => {
            address.append(host);
        },
        None => {
            address.append("127.0.0.1");
        },
    }
    address.append(":");
    push_decimal(&mut address, port);
    address
}

} // verus!
