//! Inline parameters of a request line: `name<separator>value`.
use vstd::prelude::*;

use crate::json::{json_document, json_unmatched_error, parse_json};
use crate::request::error::RequestError;
use crate::request::parsing::{BaseParser, StopAt, stop_pred};
use crate::request::{MultipartRequestValue, MultipartView};
use crate::runner::value::{Value, ValueView, json_value};
use crate::text::{chars_of, first_from, string_from, string_of};

verus! {

/// Reads one inline parameter.
pub struct InlineParamParser {
    src: Vec<char>,
    pos: usize,
}

impl BaseParser for InlineParamParser {
    closed spec fn text(&self) -> Seq<char> {
        self.src@
    }

    closed spec fn at(&self) -> int {
        self.pos as int
    }

    fn src(&self) -> (r: &Vec<char>) {
        &self.src
    }

    fn position(&self) -> (p: usize) {
        self.pos
    }

    fn set_position(&mut self, p: usize) {
        self.pos = p;
    }
}

/// Where an inline parameter goes: `?` the query, `:` the headers, `=` the body and
/// `@` the multipart form.
#[derive(PartialEq, Eq, Structural, Clone, Copy, Debug)]
pub enum InlineItemKind {
    Query,
    Header,
    Body,
    Form,
}

/// The value of an inline parameter.
#[derive(PartialEq, Eq, Debug)]
pub enum InlineValue {
    Value(Value),
    Form(MultipartRequestValue),
}

pub enum InlineValueView {
    Value(ValueView),
    Form(MultipartView),
}

impl InlineValue {
    pub open spec fn view(&self) -> InlineValueView {
        match self {
            InlineValue::Value(v) => InlineValueView::Value(v.view()),
            InlineValue::Form(f) => InlineValueView::Form(f@),
        }
    }
}

/// An inline parameter: where it goes, its name and its value.
#[derive(PartialEq, Eq, Debug)]
pub struct InlineItem {
    pub kind: InlineItemKind,
    pub key: String,
    pub value: InlineValue,
}

/// Why an inline parameter could not be read.
#[derive(PartialEq, Eq, Structural, Clone, Copy, Debug)]
pub enum InlineFailure {
    /// It has no name, or no separator after the name.
    Syntax,
    /// Its JSON value is not JSON, or holds an array.
    Json,
}

/// The value after `@`: `@` then a file path, or `=` then a text, or a text.
pub open spec fn form_value(rest: Seq<char>) -> MultipartView {
    if rest.len() > 0 && rest[0] == '@' {
        MultipartView::File(rest.drop_first())
    } else if rest.len() > 0 && rest[0] == '=' {
        MultipartView::Text(rest.drop_first())
    } else {
        MultipartView::Text(rest)
    }
}

/// The value after `=` or `?`: `:` then a JSON value, or `=` then a string, or a string.
pub open spec fn param_value(rest: Seq<char>) -> Result<ValueView, InlineFailure> {
    if rest.len() > 0 && rest[0] == ':' {
        match json_document(rest.drop_first()) {
            Some(m) => match json_value(m) {
                Some(v) => Ok(v),
                None => Err(InlineFailure::Json),
            },
            None => Err(InlineFailure::Json),
        }
    } else if rest.len() > 0 && rest[0] == '=' {
        Ok(ValueView::Text(rest.drop_first()))
    } else {
        Ok(ValueView::Text(rest))
    }
}

/// The inline parameter `s` stands for: the name is what comes before the first of
/// `=`, `:`, `?`, `@`; that separator gives the kind; the rest gives the value (a
/// header's value is the rest as a string).
pub open spec fn inline_param(s: Seq<char>) -> Result<
    (InlineItemKind, Seq<char>, InlineValueView),
    InlineFailure,
> {
    let k = first_from(s, 0, stop_pred(StopAt::ParamSeparator));
    if k <= 0 || k >= s.len() {
        Err(InlineFailure::Syntax)
    } else {
        let key = s.subrange(0, k);
        let c = s[k];
        let rest = s.subrange(k + 1, s.len() as int);
        if c == ':' {
            Ok((InlineItemKind::Header, key, InlineValueView::Value(ValueView::Text(rest))))
        } else if c == '@' {
            Ok((InlineItemKind::Form, key, InlineValueView::Form(form_value(rest))))
        } else {
            let kind = if c == '=' {
                InlineItemKind::Body
            } else {
                InlineItemKind::Query
            };
            match param_value(rest) {
                Ok(v) => Ok((kind, key, InlineValueView::Value(v))),
                Err(f) => Err(f),
            }
        }
    }
}

/// Whether `c` separates an inline parameter's name from its value.
pub open spec fn is_param_separator(c: char) -> bool {
    c == '=' || c == ':' || c == '?' || c == '@'
}

proof fn lemma_param_name_end(key: Seq<char>, c: char, rest: Seq<char>)
    requires
        forall|i: int| 0 <= i < key.len() ==> !is_param_separator(#[trigger] key[i]),
        is_param_separator(c),
    ensures
        ({
            let s = key + seq![c] + rest;
            &&& first_from(s, 0, stop_pred(StopAt::ParamSeparator)) == key.len()
            &&& s[key.len() as int] == c
            &&& s.subrange(key.len() as int, s.len() as int).drop_first() == rest
            &&& s.subrange(0, key.len() as int) == key
            &&& s.subrange((key.len() + 1) as int, s.len() as int) == rest
        }),
{
    let s = key + seq![c] + rest;
    let p = stop_pred(StopAt::ParamSeparator);
    crate::text::lemma_first_from(s, 0, p);
    let f = first_from(s, 0, p);
    if f < key.len() {
        assert(s[f] == key[f]);
    }
    if f > key.len() {
        assert(!p(s[key.len() as int]));
    }
    assert(s.subrange(0, key.len() as int) =~= key);
    assert(s.subrange((key.len() + 1) as int, s.len() as int) =~= rest);
    assert(s.subrange(key.len() as int, s.len() as int).drop_first() =~= rest);
}

/// An inline parameter is its name, a separator and the rest. The name is all that
/// comes before the first separator (`=`, `:`, `?`, `@`), and must not be empty; the
/// separator gives the kind: `:` a header, whose value is the rest as it is; `@` a
/// form field, whose value is a file after a further `@`, else a text (after a
/// further `=`, or the rest as it is); `=` the body and `?` the query, whose value
/// is a string: the rest after a further `=`, or the rest as it is when it starts
/// with neither `=` nor `:` (only a further `:` makes it JSON).
pub proof fn law_inline_param_kinds(key: Seq<char>, c: char, rest: Seq<char>)
    requires
        forall|i: int| 0 <= i < key.len() ==> !is_param_separator(#[trigger] key[i]),
        is_param_separator(c),
    ensures
        ({
            let s = key + seq![c] + rest;
            let starts = |x: char| rest.len() > 0 && rest[0] == x;
            &&& key.len() == 0 ==> inline_param(s) == Err::<(InlineItemKind, Seq<char>, InlineValueView), InlineFailure>(InlineFailure::Syntax)
            &&& key.len() > 0 && c == ':' ==> inline_param(s) == Ok::<(InlineItemKind, Seq<char>, InlineValueView), InlineFailure>(
                (InlineItemKind::Header, key, InlineValueView::Value(ValueView::Text(rest))),
            )
            &&& key.len() > 0 && c == '@' && starts('@') ==> inline_param(s) == Ok::<(InlineItemKind, Seq<char>, InlineValueView), InlineFailure>(
                (InlineItemKind::Form, key, InlineValueView::Form(MultipartView::File(rest.drop_first()))),
            )
            &&& key.len() > 0 && c == '@' && starts('=') ==> inline_param(s) == Ok::<(InlineItemKind, Seq<char>, InlineValueView), InlineFailure>(
                (InlineItemKind::Form, key, InlineValueView::Form(MultipartView::Text(rest.drop_first()))),
            )
            &&& key.len() > 0 && c == '@' && !starts('@') && !starts('=') ==> inline_param(s) == Ok::<(InlineItemKind, Seq<char>, InlineValueView), InlineFailure>(
                (InlineItemKind::Form, key, InlineValueView::Form(MultipartView::Text(rest))),
            )
            &&& key.len() > 0 && c == '?' && starts('=') ==> inline_param(s) == Ok::<(InlineItemKind, Seq<char>, InlineValueView), InlineFailure>(
                (InlineItemKind::Query, key, InlineValueView::Value(ValueView::Text(rest.drop_first()))),
            )
            &&& key.len() > 0 && c == '?' && !starts('=') && !starts(':') ==> inline_param(s) == Ok::<(InlineItemKind, Seq<char>, InlineValueView), InlineFailure>(
                (InlineItemKind::Query, key, InlineValueView::Value(ValueView::Text(rest))),
            )
            &&& key.len() > 0 && c == '=' && starts('=') ==> inline_param(s) == Ok::<(InlineItemKind, Seq<char>, InlineValueView), InlineFailure>(
                (InlineItemKind::Body, key, InlineValueView::Value(ValueView::Text(rest.drop_first()))),
            )
            &&& key.len() > 0 && c == '=' && !starts('=') && !starts(':') ==> inline_param(s) == Ok::<(InlineItemKind, Seq<char>, InlineValueView), InlineFailure>(
                (InlineItemKind::Body, key, InlineValueView::Value(ValueView::Text(rest))),
            )
        }),
{
    lemma_param_name_end(key, c, rest);
}

/// A text with no separator is no inline parameter.
pub proof fn law_inline_param_needs_a_separator(s: Seq<char>)
    requires
        forall|i: int| 0 <= i < s.len() ==> !is_param_separator(#[trigger] s[i]),
    ensures
        inline_param(s) == Err::<(InlineItemKind, Seq<char>, InlineValueView), InlineFailure>(InlineFailure::Syntax),
{
    let p = stop_pred(StopAt::ParamSeparator);
    crate::text::lemma_first_from(s, 0, p);
    let f = first_from(s, 0, p);
    if f < s.len() {
        assert(!is_param_separator(s[f]));
    }
}

/// Whether a parse result agrees with the inline parameter that `s` stands for.
pub open spec fn parsed_as_inline(r: Result<InlineItem, RequestError>, s: Seq<char>) -> bool {
    match inline_param(s) {
        Ok((kind, key, value)) => r matches Ok(item) && item.kind == kind && item.key@ == key
            && item.value.view() == value,
        Err(InlineFailure::Syntax) => r matches Err(RequestError::ParseInlineParam),
        Err(InlineFailure::Json) => r matches Err(RequestError::ParseInlineJsonValue(_)),
    }
}

impl InlineParamParser {
    pub fn new(src: &str) -> (r: Self)
        ensures
            r.text() == src@,
            r.at() == 0,
    {
        InlineParamParser { src: chars_of(src), pos: 0 }
    }

    /// The rest of the text, from the position.
    fn rest(&self) -> (r: String)
        requires
            self.at() <= self.text().len(),
        ensures
            r@ == self.text().subrange(self.at(), self.text().len() as int),
    {
        string_of(&self.src, self.pos, self.src.len())
    }

    /// Reads the parameter (see [`inline_param`]).
    pub fn parse(&mut self) -> (r: Result<InlineItem, RequestError>)
        requires
            old(self).at() == 0,
        ensures
            parsed_as_inline(r, old(self).text()),
    {
        let ghost s = self.src@;
        let name = self.consume_until(StopAt::ParamSeparator);
        let ghost k = first_from(s, 0, stop_pred(StopAt::ParamSeparator));
        proof {
            crate::text::lemma_first_from(s, 0, stop_pred(StopAt::ParamSeparator));
        }
        if name.len() == 0 {
            return Err(RequestError::ParseInlineParam);
        }
        let kind_char = match self.peek() {
            Some(c) => c,
            None => {
                return Err(RequestError::ParseInlineParam);
            },
        };
        self.bump_n(1);
        let param_name = string_from(&name);
        let kind = if kind_char == '=' {
            InlineItemKind::Body
        } else if kind_char == '?' {
            InlineItemKind::Query
        } else if kind_char == ':' {
            InlineItemKind::Header
        } else {
            InlineItemKind::Form
        };
        let ghost rest = s.subrange(k + 1, s.len() as int);
        let value = if kind_char == ':' {
            InlineValue::Value(Value::String(self.rest()))
        } else if kind_char == '@' {
            let next = self.peek();
            if next == Some('@') {
                self.bump_n(1);
                assert(s.subrange(k + 2, s.len() as int) == rest.drop_first());
                InlineValue::Form(MultipartRequestValue::File(self.rest()))
            } else if next == Some('=') {
                self.bump_n(1);
                assert(s.subrange(k + 2, s.len() as int) == rest.drop_first());
                InlineValue::Form(MultipartRequestValue::Text(self.rest()))
            } else {
                InlineValue::Form(MultipartRequestValue::Text(self.rest()))
            }
        } else {
            let next = self.peek();
            if next == Some(':') {
                self.bump_n(1);
                assert(s.subrange(k + 2, s.len() as int) == rest.drop_first());
                let text = self.rest();
                match parse_json(text.as_str()) {
                    Ok(node) => match Value::from_json(&node) {
                        Some(v) => InlineValue::Value(v),
                        None => {
                            return Err(RequestError::ParseInlineJsonValue(json_unmatched_error()));
                        },
                    },
                    Err(e) => {
                        return Err(RequestError::ParseInlineJsonValue(e));
                    },
                }
            } else if next == Some('=') {
                self.bump_n(1);
                assert(s.subrange(k + 2, s.len() as int) == rest.drop_first());
                InlineValue::Value(Value::String(self.rest()))
            } else {
                InlineValue::Value(Value::String(self.rest()))
            }
        };
        Ok(InlineItem { kind, key: param_name, value })
    }
}

} // verus!
