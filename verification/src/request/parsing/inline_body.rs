//! Reading an inline body parameter: `name=text` gives a string, `name:number` a
//! number.
use vstd::prelude::*;

use crate::request::parsing::{BaseParser, StopAt, stop_pred};
use crate::runner::value::Value;
use crate::text::{chars_of, first_from, lemma_first_from, slice_of, string_from};

verus! {

pub open spec fn is_digit(c: char) -> bool {
    '0' <= c && c <= '9'
}

pub open spec fn is_sign(c: char) -> bool {
    c == '+' || c == '-'
}

/// The first index from `i` on that does not hold a digit, or the length.
pub open spec fn digits_end(s: Seq<char>, i: int) -> int
    decreases s.len() - i,
{
    if i < 0 || i >= s.len() {
        s.len() as int
    } else if is_digit(s[i]) {
        digits_end(s, i + 1)
    } else {
        i
    }
}

/// `s` without a leading sign.
pub open spec fn unsigned(s: Seq<char>) -> Seq<char> {
    if s.len() > 0 && is_sign(s[0]) {
        s.skip(1)
    } else {
        s
    }
}

/// An exponent's digits after the `e`: an optional sign, then at least one digit.
pub open spec fn exponent_ok(s: Seq<char>) -> bool {
    let t = unsigned(s);
    t.len() > 0 && digits_end(t, 0) == t.len()
}

/// A decimal number: digits, an optional `.` and digits (at least one digit in
/// all), then an optional exponent.
pub open spec fn decimal_number(s: Seq<char>) -> bool {
    let a = digits_end(s, 0);
    let b = if a < s.len() && s[a] == '.' {
        digits_end(s, a + 1)
    } else {
        a
    };
    let digits = if a < s.len() && s[a] == '.' {
        b - 1
    } else {
        b
    };
    digits > 0 && (b == s.len() || ((s[b] == 'e' || s[b] == 'E') && exponent_ok(s.skip(b + 1))))
}

/// `s` with its ASCII capitals made small.
pub open spec fn lowercased(s: Seq<char>) -> Seq<char> {
    s.map_values(|c: char| if 'A' <= c && c <= 'Z' {
        ((c as u32) + 32) as char
    } else {
        c
    })
}

/// The texts that `f64`'s `FromStr` reads as a number (its documented grammar, taken
/// case-insensitively): an optional sign, then `inf`, `infinity`, `nan`, or a
/// decimal number.
pub open spec fn float_literal(s: Seq<char>) -> bool {
    let t = lowercased(unsigned(s));
    ||| t == seq!['i', 'n', 'f']
    ||| t == seq!['i', 'n', 'f', 'i', 'n', 'i', 't', 'y']
    ||| t == seq!['n', 'a', 'n']
    ||| decimal_number(unsigned(s))
}

/// Where the name of an inline body parameter ends: at its first `=` or `:`.
pub open spec fn body_name_end(s: Seq<char>) -> int {
    first_from(s, 0, stop_pred(StopAt::NameEnd))
}

/// The inline body parameters that can be read: they hold `=` or `:`, and the text
/// after a `:` is a number.
pub open spec fn body_param_readable(s: Seq<char>) -> bool {
    let k = body_name_end(s);
    k < s.len() && (s[k] == ':' ==> float_literal(s.skip(k + 1)))
}

/// Reads an inline body parameter.
pub struct InlineBodyParamParser {
    src: Vec<char>,
    pos: usize,
}

impl BaseParser for InlineBodyParamParser {
    closed spec fn text(&self) -> Seq<char> {
        self.src@
    }

    closed spec fn at(&self) -> int {
        self.pos as int
    }

    fn src(&self) -> (r: &Vec<char>) {
        &self.src
    }

    fn position(&self) -> (p: usize) {
        self.pos
    }

    fn set_position(&mut self, p: usize) {
        self.pos = p;
    }
}

impl InlineBodyParamParser {
    pub fn new(src: &str) -> (r: Self)
        ensures
            r.text() == src@,
            r.at() == 0,
    {
        InlineBodyParamParser { src: chars_of(src), pos: 0 }
    }

    /// Reads the parameter: its name (up to the first `=` or `:`) and its value, the
    /// text after the separator: a string after `=`, a number (held as that text)
    /// after `:`.
    pub fn parse(&mut self) -> (r: (String, Value))
        requires
            old(self).at() == 0,
            body_param_readable(old(self).text()),
        ensures
            ({
                let s = old(self).text();
                let k = body_name_end(s);
                &&& r.0@ == s.take(k)
                &&& s[k] == '=' ==> (r.1 matches Value::String(t) && t@ == s.skip(k + 1))
                &&& s[k] == ':' ==> (r.1 matches Value::Number(t) && t@ == s.skip(k + 1))
            }),
    {
        let ghost s = self.text();
        proof {
            lemma_first_from(s, 0, stop_pred(StopAt::NameEnd));
        }
        let name = self.consume_until(StopAt::NameEnd);
        let separator = self.src[self.pos];
        self.bump_n(1);
        let raw = string_from(&slice_of(&self.src, self.pos, self.src.len()));
        assert(raw@ =~= s.skip(body_name_end(s) + 1));
        assert(name@ =~= s.take(body_name_end(s)));
        let value = if separator == ':' {
            Value::Number(raw)
        } else {
            Value::String(raw)
        };
        (string_from(&name), value)
    }
}

} // verus!
