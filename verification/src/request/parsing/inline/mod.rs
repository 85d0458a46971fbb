//! Inline requests: a method, a URI and parameters, all on one line.
use vstd::prelude::*;

use crate::map::{OrderedMap, insert_sorted, lemma_insert_sorted_map_vals};
use crate::request::parsing::inline::body::{InlineItem, InlineItemKind, InlineParamParser, InlineValue, InlineValueView, inline_param};
use crate::request::parsing::url::{UrlParser, completed_url, url_scannable};
use crate::request::parsing::{BaseParser, StopAt, stop_pred};
use crate::request::{MultipartRequestValue, MultipartView};
use crate::runner::value::{Value, ValueView, display, empty_fields, insert_value};
use crate::text::{first_from, is_ascii_char, lemma_first_from, split_ws, string_from, string_of, views, ws_split};

pub mod body;

verus! {

/// Reads an inline request: `METHOD uri param param ...`.
pub struct InlineRequestParser {
    src: Vec<char>,
    pos: usize,
    default_scheme: Vec<char>,
}

impl BaseParser for InlineRequestParser {
    closed spec fn text(&self) -> Seq<char> {
        self.src@
    }

    closed spec fn at(&self) -> int {
        self.pos as int
    }

    fn src(&self) -> (r: &Vec<char>) {
        &self.src
    }

    fn position(&self) -> (p: usize) {
        self.pos
    }

    fn set_position(&mut self, p: usize) {
        self.pos = p;
    }
}

/// A request read from an inline request line.
#[derive(PartialEq, Eq, Debug)]
pub struct InlineRequest {
    pub method: String,
    pub uri: String,
    pub headers: OrderedMap<String>,
    pub body: OrderedMap<Value>,
    pub params: OrderedMap<String>,
    pub form: OrderedMap<MultipartRequestValue>,
}

impl Default for InlineRequest {
    fn default() -> (r: Self)
        ensures
            r.method@ == Seq::<char>::empty(),
            r.uri@ == Seq::<char>::empty(),
            r.headers.view_pairs() == Seq::<(Seq<char>, Seq<char>)>::empty(),
            r.body.field_views() == Seq::<(Seq<char>, ValueView)>::empty(),
            r.params.view_pairs() == Seq::<(Seq<char>, Seq<char>)>::empty(),
            r.form.view_pairs() == Seq::<(Seq<char>, MultipartView)>::empty(),
    {
        let r = InlineRequest {
            method: String::new(),
            uri: String::new(),
            headers: OrderedMap::new(),
            body: empty_fields(),
            params: OrderedMap::new(),
            form: OrderedMap::new(),
        };
        assert(r.headers.view_pairs() =~= Seq::<(Seq<char>, Seq<char>)>::empty());
        assert(r.params.view_pairs() =~= Seq::<(Seq<char>, Seq<char>)>::empty());
        assert(r.form.view_pairs() =~= Seq::<(Seq<char>, MultipartView)>::empty());
        r
    }
}

/// Whether a token starts a new parameter: it holds one of `=`, `:`, `?`, and not
/// first.
pub open spec fn starts_new_param(t: Seq<char>) -> bool {
    let k = first_from(t, 0, |c: char| c == '=' || c == ':' || c == '?');
    0 < k < t.len()
}

/// The parameter entries that the tokens from the `i`-th on make, after `acc`: a
/// token that does not start a new parameter joins the last entry, after a space.
pub open spec fn entries_from(tokens: Seq<Seq<char>>, i: int, acc: Seq<Seq<char>>) -> Seq<
    Seq<char>,
>
    decreases tokens.len() - i,
{
    if i < 0 || i >= tokens.len() {
        acc
    } else if starts_new_param(tokens[i]) || acc.len() == 0 {
        entries_from(tokens, i + 1, acc.push(tokens[i]))
    } else {
        entries_from(tokens, i + 1, acc.update(acc.len() - 1, acc.last() + seq![' '] + tokens[i]))
    }
}

/// The parameter entries of a text: its whitespace-separated tokens, each token that
/// does not start a new parameter joined to the one before.
pub open spec fn param_entries(raw: Seq<char>) -> Seq<Seq<char>> {
    entries_from(ws_split(raw), 0, Seq::empty())
}

/// An inline request as its line describes it.
pub struct InlineRequestView {
    pub method: Seq<char>,
    pub uri: Seq<char>,
    pub headers: Seq<(Seq<char>, Seq<char>)>,
    pub body: Seq<(Seq<char>, ValueView)>,
    pub params: Seq<(Seq<char>, Seq<char>)>,
    pub form: Seq<(Seq<char>, MultipartView)>,
}

/// `acc` with one more parameter: a query parameter or header by the display of its
/// value, a body parameter by its value, a form field by its value.
pub open spec fn add_inline(acc: InlineRequestView, kind: InlineItemKind, key: Seq<char>, value: InlineValueView) -> InlineRequestView {
    match value {
        InlineValueView::Value(v) => match kind {
            InlineItemKind::Query => InlineRequestView {
                params: insert_sorted(acc.params, key, display(v)),
                ..acc
            },
            InlineItemKind::Header => InlineRequestView {
                headers: insert_sorted(acc.headers, key, display(v)),
                ..acc
            },
            InlineItemKind::Body => InlineRequestView { body: insert_sorted(acc.body, key, v), ..acc },
            InlineItemKind::Form => acc,
        },
        InlineValueView::Form(f) => match kind {
            InlineItemKind::Form => InlineRequestView { form: insert_sorted(acc.form, key, f), ..acc },
            _ => acc,
        },
    }
}

/// The request after the parameter entries from the `i`-th on are added to `acc`.
pub open spec fn add_entries(entries: Seq<Seq<char>>, i: int, acc: InlineRequestView) -> InlineRequestView
    decreases entries.len() - i,
{
    if i < 0 || i >= entries.len() {
        acc
    } else {
        match inline_param(entries[i]) {
            Ok((kind, key, value)) => add_entries(entries, i + 1, add_inline(acc, kind, key, value)),
            Err(_) => acc,
        }
    }
}

/// Where the method ends: at the first whitespace.
pub open spec fn method_end(s: Seq<char>) -> int {
    first_from(s, 0, stop_pred(StopAt::Whitespace))
}

/// Where the URI ends: at the first whitespace after the one that ends the method.
pub open spec fn uri_end(s: Seq<char>) -> int {
    first_from(s, method_end(s) + 1, stop_pred(StopAt::Whitespace))
}

/// The inline request line `s` stands for, with URIs completed by `default_scheme`.
pub open spec fn inline_request(s: Seq<char>, default_scheme: Seq<char>) -> InlineRequestView {
    let m = method_end(s);
    let u = uri_end(s);
    add_entries(
        param_entries(s.subrange(u, s.len() as int)),
        0,
        InlineRequestView {
            method: s.subrange(0, m),
            uri: completed_url(s.subrange(m + 1, u), default_scheme),
            headers: Seq::empty(),
            body: Seq::empty(),
            params: Seq::empty(),
            form: Seq::empty(),
        },
    )
}

/// The lines that [`InlineRequestParser::parse`] reads without failing: the method is
/// followed by an ASCII whitespace character, the URI can be scanned for its scheme,
/// and every parameter entry is a well-formed inline parameter.
pub open spec fn inline_request_readable(s: Seq<char>) -> bool {
    let m = method_end(s);
    let u = uri_end(s);
    &&& m < s.len()
    &&& is_ascii_char(s[m])
    &&& url_scannable(s.subrange(m + 1, u))
    &&& forall|i: int|
        0 <= i < param_entries(s.subrange(u, s.len() as int)).len() ==> inline_param(
            #[trigger] param_entries(s.subrange(u, s.len() as int))[i],
        ) is Ok
}

impl InlineRequest {
    pub open spec fn view(&self) -> InlineRequestView {
        InlineRequestView {
            method: self.method@,
            uri: self.uri@,
            headers: self.headers.view_pairs(),
            body: self.body.field_views(),
            params: self.params.view_pairs(),
            form: self.form.view_pairs(),
        }
    }
}

impl InlineRequestParser {
    pub closed spec fn default_scheme(&self) -> Seq<char> {
        self.default_scheme@
    }

    pub fn new(src: &str, default_scheme: &str) -> (r: Self)
        ensures
            r.text() == src@,
            r.at() == 0,
            r.default_scheme() == default_scheme@,
    {
        InlineRequestParser {
            src: crate::text::chars_of(src),
            default_scheme: crate::text::chars_of(default_scheme),
            pos: 0,
        }
    }

    /// Reads the request line (see [`inline_request`]).
    pub fn parse(&mut self) -> (r: InlineRequest)
        requires
            old(self).at() == 0,
            inline_request_readable(old(self).text()),
        ensures
            r.view() == inline_request(old(self).text(), old(self).default_scheme()),
    {
        let ghost s = self.src@;
        let ghost ds = self.default_scheme@;
        let scheme = string_from(&self.default_scheme);
        proof {
            lemma_first_from(s, 0, stop_pred(StopAt::Whitespace));
        }
        let method = self.consume_until(StopAt::Whitespace);
        self.bump_n(1);
        proof {
            lemma_first_from(s, method_end(s) + 1, stop_pred(StopAt::Whitespace));
        }
        let uri = self.consume_until(StopAt::Whitespace);
        let uri_text = string_from(&uri);
        let mut url_parser = UrlParser::new(uri_text.as_str(), scheme.as_str());
        let parsed_uri = url_parser.parse();
        let mut result = InlineRequest {
            method: string_from(&method),
            uri: parsed_uri,
            ..Default::default()
        };
        assert(result.view() == InlineRequestView {
            method: s.subrange(0, method_end(s)),
            uri: completed_url(s.subrange(method_end(s) + 1, uri_end(s)), ds),
            headers: Seq::empty(),
            body: Seq::empty(),
            params: Seq::empty(),
            form: Seq::empty(),
        });
        let raw_params = string_of(&self.src, self.pos, self.src.len());
        let rest = self.src.len() - self.pos;
        self.bump_n(rest);
        let entries = Self::split_param_entries(raw_params.as_str());
        let ghost es = param_entries(s.subrange(uri_end(s), s.len() as int));
        assert(string_views(entries@) == es);
        let mut i: usize = 0;
        while i < entries.len()
            invariant
                string_views(entries@) == es,
                i <= es.len(),
                forall|k: int| 0 <= k < es.len() ==> inline_param(#[trigger] es[k]) is Ok,
                inline_request(s, ds) == add_entries(es, i as int, result.view()),
            decreases es.len() - i,
        {
            assert(entries@[i as int]@ == es[i as int]);
            let mut parser = InlineParamParser::new(entries[i].as_str());
            let parsed = match parser.parse() {
                Ok(p) => p,
                Err(_) => {
                    assert(false);
                    return result;
                },
            };
            let InlineItem { kind, key, value } = parsed;
            match value {
                InlineValue::Value(v) => match kind {
                    InlineItemKind::Query => {
                        let shown = v.to_string();
                        let ghost before = result.params.pairs();
                        proof {
                            lemma_insert_sorted_map_vals(before, key@, shown, |x: String| x@);
                        }
                        result.params.insert(key, shown);
                    },
                    InlineItemKind::Header => {
                        let shown = v.to_string();
                        let ghost before = result.headers.pairs();
                        proof {
                            lemma_insert_sorted_map_vals(before, key@, shown, |x: String| x@);
                        }
                        result.headers.insert(key, shown);
                    },
                    InlineItemKind::Body => insert_value(&mut result.body, key, v),
                    InlineItemKind::Form => {},
                },
                InlineValue::Form(f) => {
                    if kind == InlineItemKind::Form {
                        let ghost before = result.form.pairs();
                        proof {
                            lemma_insert_sorted_map_vals(
                                before,
                                key@,
                                f,
                                |x: MultipartRequestValue| x@,
                            );
                        }
                        result.form.insert(key, f);
                    }
                },
            }
            i = i + 1;
        }
        result
    }

    /// Splits raw parameters at whitespace, joining a token that does not start a new
    /// `name<separator>value` pair to the entry before it, after a space, so that
    /// values with spaces stay whole (`name==John Doe`).
    pub fn split_param_entries(raw_params: &str) -> (r: Vec<String>)
        ensures
            string_views(r@) == param_entries(raw_params@),
    {
        let chars = crate::text::chars_of(raw_params);
        let tokens = split_ws(&chars);
        let ghost tv = views(tokens@);
        let mut entries: Vec<Vec<char>> = Vec::new();
        assert(views(entries@) =~= Seq::<Seq<char>>::empty());
        let mut i: usize = 0;
        while i < tokens.len()
            invariant
                tv == views(tokens@),
                tv == ws_split(raw_params@),
                i <= tokens@.len(),
                entries_from(tv, 0, Seq::empty()) == entries_from(tv, i as int, views(entries@)),
            decreases tokens@.len() - i,
        {
            let token = &tokens[i];
            assert(token@ == tv[i as int]);
            let ghost before = views(entries@);
            if Self::starts_new_param(token) || entries.len() == 0 {
                let copy = crate::text::slice_of(token, 0, token.len());
                assert(copy@ =~= token@);
                entries.push(copy);
                assert(views(entries@) =~= before.push(tv[i as int]));
            } else {
                let last = entries.len() - 1;
                let mut joined = crate::text::slice_of(&entries[last], 0, entries[last].len());
                assert(joined@ =~= before.last());
                joined.push(' ');
                crate::text::append_chars(&mut joined, token);
                let ghost jv = joined@;
                entries.set(last, joined);
                assert(jv == before.last() + seq![' '] + tv[i as int]);
                assert(views(entries@) =~= before.update(
                    before.len() - 1,
                    before.last() + seq![' '] + tv[i as int],
                ));
            }
            i = i + 1;
        }
        let mut out: Vec<String> = Vec::new();
        let mut k: usize = 0;
        while k < entries.len()
            invariant
                k <= entries@.len(),
                string_views(out@) == views(entries@).subrange(0, k as int),
            decreases entries@.len() - k,
        {
            out.push(string_from(&entries[k]));
            assert(views(entries@).subrange(0, k + 1) == views(entries@).subrange(0, k as int).push(
                entries@[k as int]@,
            ));
            k = k + 1;
        }
        assert(views(entries@).subrange(0, entries@.len() as int) == views(entries@));
        out
    }

    /// Whether a token starts a new parameter (see [`starts_new_param`]).
    fn starts_new_param(token: &Vec<char>) -> (b: bool)
        ensures
            b == starts_new_param(token@),
    {
        let mut k: usize = 0;
        while k < token.len() && token[k] != '=' && token[k] != ':' && token[k] != '?'
            invariant
                k <= token.len(),
                first_from(token@, k as int, |c: char| c == '=' || c == ':' || c == '?')
                    == first_from(token@, 0, |c: char| c == '=' || c == ':' || c == '?'),
            decreases token.len() - k,
        {
            k = k + 1;
        }
        0 < k && k < token.len()
    }
}

/// The views of a sequence of strings.
pub open spec fn string_views(v: Seq<String>) -> Seq<Seq<char>> {
    v.map_values(|x: String| x@)
}

} // verus!
