//! Parsing request documents.
use vstd::prelude::*;

use crate::map::{OrderedMap, insert_all, insert_sorted, lemma_insert_sorted_contains, lemma_insert_sorted_lookup, lookup, map_vals};
use crate::request::error::RequestError;
use crate::request::parsing::inline::body::{InlineFailure, InlineItem, InlineItemKind, InlineParamParser, InlineValue, InlineValueView, inline_param};
use crate::request::parsing::url::{UrlParser, completed_url, url_scannable};
use crate::request::{HttpRequest, MultipartRequestValue, MultipartView};
use crate::runner::value::{Value, ValueView, display, empty_fields, field, field_count, insert_value, json_text};
use crate::text::{append_chars, join, join_chars, ws_split, split_ws};
use crate::text::{colon_split, lemma_colon_split, lemma_colon_split_unique, all_ascii, char_pred, chars_of, first_from, is_whitespace, is_ws, lemma_first_from, lines, next_char, slice_of, split_lines, string_from, string_of, trim, trim_chars, views};

pub mod inline;
pub mod inline_body;
pub mod readable;
pub mod url;

verus! {

/// The characters at which [`BaseParser::consume_until`] stops.
#[derive(PartialEq, Eq, Structural, Clone, Copy, Debug)]
pub enum StopAt {
    /// Whitespace (`char::is_whitespace`).
    Whitespace,
    /// `=` or `:`.
    NameEnd,
    /// `=`, `:`, `?` or `@`.
    ParamSeparator,
}

pub open spec fn stops_at(k: StopAt, c: char) -> bool {
    match k {
        StopAt::Whitespace => is_ws(c),
        StopAt::NameEnd => c == '=' || c == ':',
        StopAt::ParamSeparator => c == '=' || c == ':' || c == '?' || c == '@',
    }
}

pub open spec fn stop_pred(k: StopAt) -> spec_fn(char) -> bool {
    |c: char| stops_at(k, c)
}

pub fn is_stop(k: StopAt, c: char) -> (b: bool)
    ensures
        b == stops_at(k, c),
{
    match k {
        StopAt::Whitespace => is_whitespace(c),
        StopAt::NameEnd => c == '=' || c == ':',
        StopAt::ParamSeparator => c == '=' || c == ':' || c == '?' || c == '@',
    }
}

/// A parser that reads a text from a position onwards.
pub trait BaseParser {
    /// The text being read.
    spec fn text(&self) -> Seq<char>;

    /// The index of the next character to read.
    spec fn at(&self) -> int;

    fn src(&self) -> (r: &Vec<char>)
        ensures
            r@ == self.text(),
    ;

    fn position(&self) -> (p: usize)
        ensures
            p == self.at(),
    ;

    fn set_position(&mut self, p: usize)
        ensures
            final(self).text() == old(self).text(),
            final(self).at() == p,
    ;

    /// Moves `n` characters on.
    fn bump_n(&mut self, n: usize)
        requires
            old(self).at() + n <= old(self).text().len(),
        ensures
            final(self).text() == old(self).text(),
            final(self).at() == old(self).at() + n,
    {
        let p = self.position();
        let len = self.src().len();
        self.set_position(p + n);
    }

    /// Reads up to the first character at which `stop` stops (or to the end).
    fn consume_until(&mut self, stop: StopAt) -> (r: Vec<char>)
        requires
            0 <= old(self).at() <= old(self).text().len(),
        ensures
            final(self).text() == old(self).text(),
            final(self).at() == first_from(old(self).text(), old(self).at(), stop_pred(stop)),
            r@ == old(self).text().subrange(
                old(self).at(),
                first_from(old(self).text(), old(self).at(), stop_pred(stop)),
            ),
    {
        let start = self.position();
        let s = self.src();
        let mut k = start;
        while k < s.len() && !is_stop(stop, s[k])
            invariant
                start <= k <= s.len(),
                first_from(s@, k as int, stop_pred(stop)) == first_from(
                    s@,
                    start as int,
                    stop_pred(stop),
                ),
            decreases s.len() - k,
        {
            k = k + 1;
        }
        let r = slice_of(s, start, k);
        self.set_position(k);
        r
    }

    /// The character at the position, if any.
    fn peek(&self) -> (c: Option<char>)
        requires
            0 <= self.at() <= self.text().len(),
        ensures
            c == (if self.at() < self.text().len() {
                Some(self.text()[self.at()])
            } else {
                None
            }),
    {
        let p = self.position();
        let s = self.src();
        if p < s.len() {
            Some(s[p])
        } else {
            None
        }
    }
}


/// Why a multipart value or line could not be read.
#[derive(PartialEq, Eq, Structural, Clone, Copy, Debug)]
pub enum MultipartFailure {
    /// The line holds no `:`, or the value is empty.
    Empty,
    /// The value starts with this character, which is neither `"` nor `@`.
    Invalid(char),
}

/// Where a quoted text that starts at `i` ends: at the next `"`, or at the end.
pub open spec fn quote_end(s: Seq<char>, i: int) -> int {
    first_from(s, i, char_pred('"'))
}

pub open spec fn file_stop() -> spec_fn(char) -> bool {
    |c: char| c == '"' || c == ' '
}

/// Where a file path that starts at `i` ends: at the next `"` or space, or at the end.
pub open spec fn file_end(s: Seq<char>, i: int) -> int {
    first_from(s, i, file_stop())
}

/// The multipart value `s` stands for: `"` then a text up to the next `"`, or `@`
/// then a file path up to the next `"` or space.
pub open spec fn multipart_value(s: Seq<char>) -> Result<MultipartView, MultipartFailure> {
    if s.len() == 0 {
        Err(MultipartFailure::Empty)
    } else if s[0] == '"' {
        Ok(MultipartView::Text(s.subrange(1, quote_end(s, 1))))
    } else if s[0] == '@' {
        Ok(MultipartView::File(s.subrange(1, file_end(s, 1))))
    } else {
        Err(MultipartFailure::Invalid(s[0]))
    }
}

/// The values that the reading by single bytes takes without leaving a character
/// boundary: the characters it reads after the first are ASCII.
pub open spec fn multipart_readable(s: Seq<char>) -> bool {
    &&& (s.len() > 0 && s[0] == '"') ==> all_ascii(s.subrange(1, quote_end(s, 1)))
    &&& (s.len() > 0 && s[0] == '@') ==> all_ascii(s.subrange(1, file_end(s, 1)))
}

/// Reads one multipart value.
pub struct MultipartValueParser {
    src: Vec<char>,
    position: usize,
}

impl MultipartValueParser {
    pub closed spec fn text(&self) -> Seq<char> {
        self.src@
    }

    pub closed spec fn at(&self) -> int {
        self.position as int
    }

    #[verifier::type_invariant]
    closed spec fn inv(&self) -> bool {
        self.position <= self.src.len()
    }

    pub fn new(src: &str) -> (r: Self)
        ensures
            r.text() == src@,
            r.at() == 0,
    {
        MultipartValueParser { src: chars_of(src), position: 0 }
    }

    /// Reads the value (see [`multipart_value`]).
    pub fn parse(&mut self) -> (r: Result<MultipartRequestValue, RequestError>)
        requires
            old(self).at() == 0,
            multipart_readable(old(self).text()),
        ensures
            match multipart_value(old(self).text()) {
                Ok(v) => r matches Ok(x) && x@ == v,
                Err(MultipartFailure::Empty) => r matches Err(RequestError::EmptyMultipartValue),
                Err(MultipartFailure::Invalid(c)) => r matches Err(
                    RequestError::InvalidMultipartCharacter(d),
                ) && c == d,
            },
    {
        let next_char = match self.peek() {
            Some(c) => c,
            None => {
                return Err(RequestError::EmptyMultipartValue);
            },
        };
        if next_char == '"' {
            self.bump();
            let s = self.consume_string();
            Ok(MultipartRequestValue::Text(s))
        } else if next_char == '@' {
            self.bump();
            let p = self.consume_file();
            Ok(MultipartRequestValue::File(p))
        } else {
            Err(RequestError::InvalidMultipartCharacter(next_char))
        }
    }

    fn bump(&mut self)
        requires
            old(self).at() < old(self).text().len(),
        ensures
            final(self).text() == old(self).text(),
            final(self).at() == old(self).at() + 1,
    {
        if self.position < self.src.len() {
            self.position = self.position + 1;
        }
    }

    fn peek(&self) -> (c: Option<char>)
        ensures
            c == (if self.at() < self.text().len() {
                Some(self.text()[self.at()])
            } else {
                None
            }),
    {
        proof {
            use_type_invariant(self);
        }
        if self.position < self.src.len() {
            Some(self.src[self.position])
        } else {
            None
        }
    }

    /// Reads a text up to its closing `"`, which it passes.
    fn consume_string(&mut self) -> (content: String)
        ensures
            final(self).text() == old(self).text(),
            content@ == old(self).text().subrange(
                old(self).at(),
                quote_end(old(self).text(), old(self).at()),
            ),
    {
        proof {
            use_type_invariant(&*self);
            lemma_first_from(self.src@, self.position as int, char_pred('"'));
        }
        let start = self.position;
        let end = next_char(&self.src, start, '"');
        let content = string_of(&self.src, start, end);
        if end < self.src.len() {
            self.position = end + 1;
        } else {
            self.position = end;
        }
        content
    }

    /// Reads a file path up to a `"` or space, which it passes.
    fn consume_file(&mut self) -> (content: String)
        ensures
            final(self).text() == old(self).text(),
            content@ == old(self).text().subrange(
                old(self).at(),
                file_end(old(self).text(), old(self).at()),
            ),
    {
        proof {
            use_type_invariant(&*self);
        }
        let start = self.position;
        let mut k = start;
        while k < self.src.len() && self.src[k] != '"' && self.src[k] != ' '
            invariant
                start <= k <= self.src.len(),
                first_from(self.src@, k as int, file_stop()) == first_from(
                    self.src@,
                    start as int,
                    file_stop(),
                ),
            decreases self.src.len() - k,
        {
            k = k + 1;
        }
        let content = string_of(&self.src, start, k);
        if k < self.src.len() {
            self.position = k + 1;
        } else {
            self.position = k;
        }
        content
    }
}

/// The multipart field a body line stands for: the trimmed name before the first
/// `:`, and the value read from the trimmed rest.
pub open spec fn multipart_line(l: Seq<char>) -> Result<(Seq<char>, MultipartView), MultipartFailure> {
    let c = first_from(l, 0, char_pred(':'));
    if c >= l.len() {
        Err(MultipartFailure::Empty)
    } else {
        match multipart_value(trim(l.subrange(c + 1, l.len() as int))) {
            Ok(v) => Ok((trim(l.subrange(0, c)), v)),
            Err(f) => Err(f),
        }
    }
}

/// The trimmed value of a multipart line, when it has a `:`.
pub open spec fn multipart_line_value(l: Seq<char>) -> Seq<char> {
    let c = first_from(l, 0, char_pred(':'));
    trim(l.subrange(c + 1, l.len() as int))
}

/// The fields of multipart body lines from the `i`-th on, put into `acc` by name; the
/// first line that cannot be read fails the whole.
pub open spec fn multipart_lines(
    ls: Seq<Seq<char>>,
    i: int,
    acc: Seq<(Seq<char>, MultipartView)>,
) -> Result<Seq<(Seq<char>, MultipartView)>, MultipartFailure>
    decreases ls.len() - i,
{
    if i < 0 || i >= ls.len() {
        Ok(acc)
    } else {
        match multipart_line(ls[i]) {
            Ok((n, v)) => multipart_lines(ls, i + 1, insert_sorted(acc, n, v)),
            Err(f) => Err(f),
        }
    }
}

/// The lines that are read before the first failure hold readable values.
pub open spec fn multipart_lines_readable(ls: Seq<Seq<char>>, i: int) -> bool
    decreases ls.len() - i,
{
    if i < 0 || i >= ls.len() {
        true
    } else {
        let l = ls[i];
        let c = first_from(l, 0, char_pred(':'));
        if c >= l.len() {
            true
        } else {
            multipart_readable(multipart_line_value(l)) && (multipart_value(
                multipart_line_value(l),
            ) is Ok ==> multipart_lines_readable(ls, i + 1))
        }
    }
}

/// The multipart fields of a body: one `name: value` per line.
pub open spec fn multipart_body(raw: Seq<char>) -> Result<Seq<(Seq<char>, MultipartView)>, MultipartFailure> {
    multipart_lines(lines(raw), 0, Seq::empty())
}

pub fn parse_multipart_http_body(raw: &Vec<char>) -> (r: Result<OrderedMap<MultipartRequestValue>, RequestError>)
    requires
        multipart_lines_readable(lines(raw@), 0),
    ensures
        match multipart_body(raw@) {
            Ok(ps) => r matches Ok(m) && m.view_pairs() == ps,
            Err(MultipartFailure::Empty) => r matches Err(RequestError::EmptyMultipartValue),
            Err(MultipartFailure::Invalid(c)) => r matches Err(
                RequestError::InvalidMultipartCharacter(d),
            ) && c == d,
        },
{
    let ls = split_lines(raw);
    let ghost lv = lines(raw@);
    let mut m: OrderedMap<MultipartRequestValue> = OrderedMap::new();
    assert(m.view_pairs() =~= Seq::<(Seq<char>, MultipartView)>::empty());
    let mut i: usize = 0;
    while i < ls.len()
        invariant
            views(ls@) == lv,
            i <= ls@.len(),
            multipart_lines_readable(lv, i as int),
            multipart_body(raw@) == multipart_lines(lv, i as int, m.view_pairs()),
        decreases ls@.len() - i,
    {
        let line = &ls[i];
        assert(line@ == lv[i as int]);
        let c = next_char(line, 0, ':');
        proof {
            lemma_first_from(line@, 0, char_pred(':'));
        }
        if c >= line.len() {
            return Err(RequestError::EmptyMultipartValue);
        }
        let name_part = slice_of(line, 0, c);
        let value_part = slice_of(line, c + 1, line.len());
        let name = trim_chars(&name_part);
        let value = trim_chars(&value_part);
        let value_text = string_from(&value);
        let mut parser = MultipartValueParser::new(value_text.as_str());
        let parsed = parser.parse()?;
        let ghost before = m.pairs();
        proof {
            crate::map::lemma_insert_sorted_map_vals(before, name@, parsed, |v: MultipartRequestValue| v@);
        }
        m.insert(string_from(&name), parsed);
        i = i + 1;
    }
    Ok(m)
}


/// The inline parameters of a request line, each kind in its own map.
pub struct InlineParamsView {
    pub query: Seq<(Seq<char>, ValueView)>,
    pub headers: Seq<(Seq<char>, ValueView)>,
    pub body: Seq<(Seq<char>, ValueView)>,
    pub form: Seq<(Seq<char>, MultipartView)>,
}

pub open spec fn no_inline_params() -> InlineParamsView {
    InlineParamsView {
        query: Seq::empty(),
        headers: Seq::empty(),
        body: Seq::empty(),
        form: Seq::empty(),
    }
}

/// `acc` with one more inline parameter in the map of its kind.
pub open spec fn add_param(
    acc: InlineParamsView,
    kind: InlineItemKind,
    key: Seq<char>,
    value: InlineValueView,
) -> InlineParamsView {
    match value {
        InlineValueView::Value(v) => match kind {
            InlineItemKind::Query => InlineParamsView {
                query: insert_sorted(acc.query, key, v),
                ..acc
            },
            InlineItemKind::Header => InlineParamsView {
                headers: insert_sorted(acc.headers, key, v),
                ..acc
            },
            InlineItemKind::Body => InlineParamsView { body: insert_sorted(acc.body, key, v), ..acc },
            InlineItemKind::Form => acc,
        },
        InlineValueView::Form(f) => match kind {
            InlineItemKind::Form => InlineParamsView { form: insert_sorted(acc.form, key, f), ..acc },
            _ => acc,
        },
    }
}

/// The inline parameters `tokens[i..]` add to `acc`; the first that cannot be read
/// fails the whole.
pub open spec fn inline_params_from(
    tokens: Seq<Seq<char>>,
    i: int,
    acc: InlineParamsView,
) -> Result<InlineParamsView, InlineFailure>
    decreases tokens.len() - i,
{
    if i < 0 || i >= tokens.len() {
        Ok(acc)
    } else {
        match inline_param(tokens[i]) {
            Ok((kind, key, value)) => inline_params_from(
                tokens,
                i + 1,
                add_param(acc, kind, key, value),
            ),
            Err(f) => Err(f),
        }
    }
}

/// Inline parameters, each kind in its own map.
pub struct InlineParams {
    pub query: OrderedMap<Value>,
    pub headers: OrderedMap<Value>,
    pub body: OrderedMap<Value>,
    pub form: OrderedMap<MultipartRequestValue>,
}

impl InlineParams {
    pub open spec fn view(&self) -> InlineParamsView {
        InlineParamsView {
            query: self.query.field_views(),
            headers: self.headers.field_views(),
            body: self.body.field_views(),
            form: self.form.view_pairs(),
        }
    }
}

/// Reads the inline parameters `tokens[from..]` (see [`inline_params_from`]).
pub fn parse_inline_params(tokens: &Vec<Vec<char>>, from: usize) -> (r: Result<InlineParams, RequestError>)
    requires
        from <= tokens@.len(),
    ensures
        match inline_params_from(views(tokens@), from as int, no_inline_params()) {
            Ok(p) => r matches Ok(q) && q.view() == p,
            Err(InlineFailure::Syntax) => r matches Err(RequestError::ParseInlineParam),
            Err(InlineFailure::Json) => r matches Err(RequestError::ParseInlineJsonValue(_)),
        },
{
    let mut params = InlineParams {
        query: empty_fields(),
        headers: empty_fields(),
        body: empty_fields(),
        form: OrderedMap::new(),
    };
    assert(params.form.view_pairs() =~= Seq::<(Seq<char>, MultipartView)>::empty());
    assert(params.view() == no_inline_params());
    let ghost tv = views(tokens@);
    let mut i = from;
    while i < tokens.len()
        invariant
            tv == views(tokens@),
            from <= i <= tokens@.len(),
            inline_params_from(tv, from as int, no_inline_params()) == inline_params_from(
                tv,
                i as int,
                params.view(),
            ),
        decreases tokens@.len() - i,
    {
        let text = string_from(&tokens[i]);
        let mut parser = InlineParamParser::new(text.as_str());
        let item = parser.parse()?;
        let InlineItem { kind, key, value } = item;
        let ghost before = params.view();
        match value {
            InlineValue::Value(v) => match kind {
                InlineItemKind::Query => insert_value(&mut params.query, key, v),
                InlineItemKind::Header => insert_value(&mut params.headers, key, v),
                InlineItemKind::Body => insert_value(&mut params.body, key, v),
                InlineItemKind::Form => {},
            },
            InlineValue::Form(f) => {
                if kind == InlineItemKind::Form {
                    let ghost fb = params.form.pairs();
                    proof {
                        crate::map::lemma_insert_sorted_map_vals(fb, key@, f, |v: MultipartRequestValue| v@);
                    }
                    params.form.insert(key, f);
                }
            },
        }
        i = i + 1;
    }
    Ok(params)
}

/// The first index at or after `i` whose line is not empty, or the number of lines.
pub open spec fn first_nonempty(ls: Seq<Seq<char>>, i: int) -> int
    decreases ls.len() - i,
{
    if i < 0 || i >= ls.len() {
        ls.len() as int
    } else if ls[i].len() > 0 {
        i
    } else {
        first_nonempty(ls, i + 1)
    }
}

/// The headers of the lines from the `j`-th up to the first empty one, put into
/// `acc`, and the index of the line after that empty one (where the body starts);
/// `Err` when a header line holds no `:`.
pub open spec fn header_lines(ls: Seq<Seq<char>>, j: int, acc: Seq<(Seq<char>, Seq<char>)>) -> (
    Result<Seq<(Seq<char>, Seq<char>)>, ()>,
    int,
)
    decreases ls.len() - j,
{
    if j < 0 || j >= ls.len() {
        (Ok(acc), ls.len() as int)
    } else if ls[j].len() == 0 {
        (Ok(acc), j + 1)
    } else {
        let l = ls[j];
        let c = first_from(l, 0, char_pred(':'));
        if c >= l.len() {
            (Err(()), j)
        } else {
            header_lines(
                ls,
                j + 1,
                insert_sorted(acc, trim(l.subrange(0, c)), trim(l.subrange(c + 1, l.len() as int))),
            )
        }
    }
}

/// Whether the line `l` writes a header named `name`, with some value.
pub open spec fn line_names(l: Seq<char>, name: Seq<char>) -> bool {
    exists|v: Seq<char>| #![trigger colon_split(l, name, v)] colon_split(l, name, v)
}

/// Every pair of `acc` is written on a line from `j0` up to `j`.
#[verifier::opaque]
spec fn pairs_from_lines(ls: Seq<Seq<char>>, j0: int, j: int, acc: Seq<(Seq<char>, Seq<char>)>) -> bool {
    forall|x: (Seq<char>, Seq<char>)| #[trigger]
        acc.contains(x) ==> exists|i: int| j0 <= i < j && colon_split(ls[i], x.0, x.1)
}

/// Every line from `j0` up to `j` is a header line that names a pair of `acc`.
#[verifier::opaque]
spec fn lines_named(ls: Seq<Seq<char>>, j0: int, j: int, acc: Seq<(Seq<char>, Seq<char>)>) -> bool {
    forall|i: int|
        j0 <= i < j ==> ls[i].len() > 0 && exists|x: (Seq<char>, Seq<char>)|
            #[trigger] acc.contains(x) && line_names(ls[i], x.0)
}

/// For each line from `j0` up to `j` that is the last there to name its header, `acc`
/// gives that line's value under that name.
#[verifier::opaque]
spec fn last_line_wins(ls: Seq<Seq<char>>, j0: int, j: int, acc: Seq<(Seq<char>, Seq<char>)>) -> bool {
    forall|i: int, name: Seq<char>, val: Seq<char>|
        j0 <= i < j && #[trigger] colon_split(ls[i], name, val) && (forall|i2: int|
            i < i2 < j ==> !#[trigger] line_names(ls[i2], name)) ==> lookup(acc, name) == Some(val)
}

proof fn lemma_last_line_wins_step(
    ls: Seq<Seq<char>>,
    j0: int,
    j: int,
    acc: Seq<(Seq<char>, Seq<char>)>,
    k: Seq<char>,
    v: Seq<char>,
)
    requires
        0 <= j0 <= j < ls.len(),
        colon_split(ls[j], k, v),
        last_line_wins(ls, j0, j, acc),
    ensures
        last_line_wins(ls, j0, j + 1, insert_sorted(acc, k, v)),
{
    reveal(last_line_wins);
    let acc2 = insert_sorted(acc, k, v);
    assert(line_names(ls[j], k));
    assert forall|i: int, name: Seq<char>, val: Seq<char>|
        j0 <= i < j + 1 && #[trigger] colon_split(ls[i], name, val) && (forall|i2: int|
            i < i2 < j + 1 ==> !#[trigger] line_names(ls[i2], name)) implies lookup(acc2, name)
        == Some(val) by {
        lemma_insert_sorted_lookup(acc, k, v, name);
        if i == j {
            lemma_colon_split_unique(ls[j], name, val, k, v);
        } else {
            assert(!line_names(ls[j], name));
            assert(name != k);
            assert(forall|i2: int| i < i2 < j ==> !#[trigger] line_names(ls[i2], name));
        }
    }
}

proof fn lemma_last_line_wins_end(ls: Seq<Seq<char>>, j0: int, j: int, acc: Seq<(Seq<char>, Seq<char>)>)
    requires
        0 <= j0 <= j < ls.len(),
        ls[j].len() == 0,
        last_line_wins(ls, j0, j, acc),
    ensures
        last_line_wins(ls, j0, j + 1, acc),
{
    reveal(last_line_wins);
    assert forall|i: int, name: Seq<char>, val: Seq<char>|
        j0 <= i < j + 1 && #[trigger] colon_split(ls[i], name, val) && (forall|i2: int|
            i < i2 < j + 1 ==> !#[trigger] line_names(ls[i2], name)) implies lookup(acc, name)
        == Some(val) by {
        if i == j {
            let (a, b) = choose|a: Seq<char>, b: Seq<char>|
                #![trigger a + seq![':'] + b]
                ls[i] == a + seq![':'] + b && !a.contains(':') && trim(a) == name && trim(b) == val;
            assert((a + seq![':'] + b).len() > 0);
        } else {
            assert(forall|i2: int| i < i2 < j ==> !#[trigger] line_names(ls[i2], name));
        }
    }
}

proof fn lemma_pairs_step(
    ls: Seq<Seq<char>>,
    j0: int,
    j: int,
    acc: Seq<(Seq<char>, Seq<char>)>,
    k: Seq<char>,
    v: Seq<char>,
)
    requires
        0 <= j0 <= j < ls.len(),
        ls[j].len() > 0,
        colon_split(ls[j], k, v),
        pairs_from_lines(ls, j0, j, acc),
        lines_named(ls, j0, j, acc),
    ensures
        pairs_from_lines(ls, j0, j + 1, insert_sorted(acc, k, v)),
        lines_named(ls, j0, j + 1, insert_sorted(acc, k, v)),
{
    reveal(pairs_from_lines);
    reveal(lines_named);
    let acc2 = insert_sorted(acc, k, v);
    lemma_insert_sorted_contains(acc, k, v);
    assert(line_names(ls[j], k));
    assert forall|x: (Seq<char>, Seq<char>)| #[trigger]
        acc2.contains(x) implies exists|i: int| j0 <= i < j + 1 && colon_split(ls[i], x.0, x.1) by {
        if x == (k, v) {
            assert(colon_split(ls[j], x.0, x.1));
        } else {
            assert(acc.contains(x));
            let i = choose|i: int| j0 <= i < j && colon_split(ls[i], x.0, x.1);
            assert(colon_split(ls[i], x.0, x.1));
        }
    }
    assert forall|i: int| j0 <= i < j + 1 implies ls[i].len() > 0 && exists|x: (Seq<char>, Seq<char>)|
        #[trigger] acc2.contains(x) && line_names(ls[i], x.0) by {
        if i == j {
            assert(acc2.contains((k, v)) && line_names(ls[i], (k, v).0));
        } else {
            let x = choose|x: (Seq<char>, Seq<char>)| #[trigger] acc.contains(x) && line_names(ls[i], x.0);
            if x.0 != k {
                assert(acc2.contains(x) && line_names(ls[i], x.0));
            } else {
                assert(acc2.contains((k, v)) && line_names(ls[i], (k, v).0));
            }
        }
    }
}

proof fn lemma_pairs_end(ls: Seq<Seq<char>>, j0: int, j: int, acc: Seq<(Seq<char>, Seq<char>)>)
    requires
        0 <= j0 <= j < ls.len(),
        pairs_from_lines(ls, j0, j, acc),
    ensures
        pairs_from_lines(ls, j0, j + 1, acc),
{
    reveal(pairs_from_lines);
    assert forall|x: (Seq<char>, Seq<char>)| #[trigger]
        acc.contains(x) implies exists|i: int| j0 <= i < j + 1 && colon_split(ls[i], x.0, x.1) by {
        let i = choose|i: int| j0 <= i < j && colon_split(ls[i], x.0, x.1);
        assert(colon_split(ls[i], x.0, x.1));
    }
}

proof fn lemma_header_lines_pairs(ls: Seq<Seq<char>>, j0: int, j: int, acc: Seq<(Seq<char>, Seq<char>)>)
    requires
        0 <= j0 <= j <= ls.len(),
        pairs_from_lines(ls, j0, j, acc),
        lines_named(ls, j0, j, acc),
        last_line_wins(ls, j0, j, acc),
    ensures
        header_lines(ls, j, acc).0 is Ok ==> {
            let hs = header_lines(ls, j, acc).0->Ok_0;
            let b = header_lines(ls, j, acc).1;
            &&& j <= b <= ls.len()
            &&& pairs_from_lines(ls, j0, b, hs)
            &&& last_line_wins(ls, j0, b, hs)
            &&& lines_named(ls, j0, b, hs) || (b > j0 && ls[b - 1].len() == 0 && lines_named(ls, j0, b - 1, hs))
        },
    decreases ls.len() - j,
{
    if j < ls.len() && ls[j].len() > 0 {
        let l = ls[j];
        let c = first_from(l, 0, char_pred(':'));
        if c < l.len() {
            let k = trim(l.subrange(0, c));
            let v = trim(l.subrange(c + 1, l.len() as int));
            lemma_colon_split(l);
            lemma_pairs_step(ls, j0, j, acc, k, v);
            lemma_last_line_wins_step(ls, j0, j, acc, k, v);
            lemma_header_lines_pairs(ls, j0, j + 1, insert_sorted(acc, k, v));
        }
    } else if j < ls.len() {
        lemma_pairs_end(ls, j0, j, acc);
        lemma_last_line_wins_end(ls, j0, j, acc);
    }
}

/// Header lines are split at their first `:`: every header read from the lines from
/// the `j`-th on was written on one of them (before the body starts at `b`) as its
/// name, a `:` and its value (see [`colon_split`]: the name holds no `:`, the value
/// may); every non-empty line before the body names one of the headers read; and a
/// name gives the value of the last line that names it.
pub proof fn law_header_lines_split_at_first_colon(ls: Seq<Seq<char>>, j: int)
    requires
        0 <= j <= ls.len(),
    ensures
        header_lines(ls, j, Seq::empty()).0 is Ok ==> {
            let hs = header_lines(ls, j, Seq::empty()).0->Ok_0;
            let b = header_lines(ls, j, Seq::empty()).1;
            &&& j <= b <= ls.len()
            &&& forall|x: (Seq<char>, Seq<char>)| #[trigger]
                hs.contains(x) ==> exists|i: int| j <= i < b && colon_split(ls[i], x.0, x.1)
            &&& forall|i: int|
                j <= i < b && ls[i].len() > 0 ==> exists|x: (Seq<char>, Seq<char>)|
                    #[trigger] hs.contains(x) && line_names(ls[i], x.0)
            &&& forall|i: int, name: Seq<char>, val: Seq<char>|
                j <= i < b && #[trigger] colon_split(ls[i], name, val) && (forall|i2: int|
                    i < i2 < b ==> !#[trigger] line_names(ls[i2], name)) ==> lookup(hs, name) == Some(val)
        },
{
    reveal(pairs_from_lines);
    reveal(lines_named);
    reveal(last_line_wins);
    lemma_header_lines_pairs(ls, j, j, Seq::empty());
}

pub proof fn lemma_header_lines_end(ls: Seq<Seq<char>>, j: int, acc: Seq<(Seq<char>, Seq<char>)>)
    requires
        0 <= j <= ls.len(),
    ensures
        header_lines(ls, j, acc).1 <= ls.len(),
    decreases ls.len() - j,
{
    if j < ls.len() && ls[j].len() > 0 {
        let l = ls[j];
        let c = first_from(l, 0, char_pred(':'));
        if c < l.len() {
            lemma_header_lines_end(
                ls,
                j + 1,
                insert_sorted(acc, trim(l.subrange(0, c)), trim(l.subrange(c + 1, l.len() as int))),
            );
        }
    }
}

/// `url?name=value&...` for the query parameters from the `i`-th on, each value by
/// its display.
pub open spec fn query_string(q: Seq<(Seq<char>, ValueView)>, i: int) -> Seq<char>
    decreases q.len() - i,
{
    if i < 0 || i >= q.len() {
        Seq::empty()
    } else {
        (if i > 0 {
            seq!['&']
        } else {
            Seq::empty()
        }) + q[i].0 + seq!['='] + display(q[i].1) + query_string(q, i + 1)
    }
}

/// The URL with the query parameters appended, when there are any.
pub open spec fn with_query(url: Seq<char>, q: Seq<(Seq<char>, ValueView)>) -> Seq<char> {
    if q.len() == 0 {
        url
    } else {
        url + seq!['?'] + query_string(q, 0)
    }
}

/// The method that marks a multipart request.
pub open spec fn multipart_method() -> Seq<char> {
    seq!['M', 'U', 'L', 'T', 'I', 'P', 'A', 'R', 'T']
}

/// A request as a document describes it.
pub struct RequestModel {
    pub url: Seq<char>,
    pub method: Seq<char>,
    pub headers: Seq<(Seq<char>, Seq<char>)>,
    pub body: Seq<char>,
    pub form: Seq<(Seq<char>, MultipartView)>,
}

/// Why a document describes no request.
pub enum RequestFailure {
    EmptyRequestFile,
    MissingMethod,
    MissingUri,
    ParseHeaderLine,
    Inline(InlineFailure),
    Multipart(MultipartFailure),
}

/// The request line's pieces: the lines, the index of the request line, and its
/// whitespace-separated parts.
pub open spec fn request_line_parts(doc: Seq<char>) -> Seq<Seq<char>> {
    ws_split(lines(doc)[first_nonempty(lines(doc), 0)])
}

/// The raw body: the lines after the first empty line that follows the request line,
/// joined by `\n`.
pub open spec fn raw_body(doc: Seq<char>) -> Seq<char> {
    let ls = lines(doc);
    let b = header_lines(ls, first_nonempty(ls, 0) + 1, Seq::empty()).1;
    join(ls.subrange(b, ls.len() as int), seq!['\n'])
}

/// The request a document describes.
///
/// Leading empty lines are skipped. The request line holds the method, the URI
/// (completed with `default_scheme` when it has none) and inline parameters. The lines
/// after it, up to an empty line, are headers `name: value`; the lines after that
/// are the body. The inline headers are used only when there are no header lines;
/// the inline query only when the URL holds no `?`; the inline body (as a JSON
/// object) only when the raw body is blank. A `MULTIPART` request reads its form
/// from that body, as multipart lines, unless the raw body is blank and there is no
/// inline body; then, as any other request, it takes the inline form fields.
pub open spec fn request_http(doc: Seq<char>, default_scheme: Seq<char>) -> Result<
    RequestModel,
    RequestFailure,
> {
    let ls = lines(doc);
    let f = first_nonempty(ls, 0);
    if f >= ls.len() {
        Err(RequestFailure::EmptyRequestFile)
    } else {
        let parts = ws_split(ls[f]);
        if parts.len() == 0 {
            Err(RequestFailure::MissingMethod)
        } else if parts.len() == 1 {
            Err(RequestFailure::MissingUri)
        } else {
            let method = parts[0];
            let url0 = completed_url(parts[1], default_scheme);
            match inline_params_from(parts, 2, no_inline_params()) {
                Err(e) => Err(RequestFailure::Inline(e)),
                Ok(inl) => {
                    let (hres, b) = header_lines(ls, f + 1, Seq::empty());
                    match hres {
                        Err(_) => Err(RequestFailure::ParseHeaderLine),
                        Ok(hs) => {
                            let headers = if hs.len() == 0 {
                                insert_all(Seq::empty(), map_vals(inl.headers, |v: ValueView| display(v)), 0)
                            } else {
                                hs
                            };
                            let url = if url0.contains('?') {
                                url0
                            } else {
                                with_query(url0, inl.query)
                            };
                            let raw = join(ls.subrange(b, ls.len() as int), seq!['\n']);
                            let blank = trim(raw).len() == 0;
                            let body = if !blank || inl.body.len() == 0 {
                                raw
                            } else {
                                json_text(ValueView::Object(inl.body))
                            };
                            let form = if method == multipart_method() && (!blank || inl.body.len() > 0) {
                                multipart_body(body)
                            } else {
                                Ok(inl.form)
                            };
                            match form {
                                Err(e) => Err(RequestFailure::Multipart(e)),
                                Ok(form) => Ok(
                                    RequestModel { url, method, headers, body, form },
                                ),
                            }
                        },
                    }
                },
            }
        }
    }
}

/// The documents whose reading by bytes stays on character boundaries: the URI's
/// scheme scan, and the multipart values read before a failure.
pub open spec fn request_readable(doc: Seq<char>) -> bool {
    let ls = lines(doc);
    let f = first_nonempty(ls, 0);
    let parts = ws_split(ls[f]);
    f < ls.len() && parts.len() >= 2 ==> {
        &&& url_scannable(parts[1])
        &&& (parts[0] == multipart_method() && trim(raw_body(doc)).len() > 0)
            ==> multipart_lines_readable(lines(raw_body(doc)), 0)
        &&& (parts[0] == multipart_method() && trim(raw_body(doc)).len() == 0) ==> match inline_params_from(
            parts,
            2,
            no_inline_params(),
        ) {
            Ok(inl) => inl.body.len() > 0 ==> multipart_lines_readable(
                lines(json_text(ValueView::Object(inl.body))),
                0,
            ),
            Err(_) => true,
        }
    }
}

/// Whether a parse result agrees with the request a document describes.
pub open spec fn parsed_as_request(r: Result<HttpRequest, RequestError>, m: Result<RequestModel, RequestFailure>) -> bool {
    match m {
        Ok(m) => r matches Ok(req) && req.url@ == m.url && req.method@ == m.method
            && req.headers.view_pairs() == m.headers && req.body@ == m.body
            && req.form.view_pairs() == m.form,
        Err(RequestFailure::EmptyRequestFile) => r matches Err(RequestError::EmptyRequestFile),
        Err(RequestFailure::MissingMethod) => r matches Err(RequestError::MissingMethod),
        Err(RequestFailure::MissingUri) => r matches Err(RequestError::MissingUri),
        Err(RequestFailure::ParseHeaderLine) => r matches Err(RequestError::ParseHeaderLine),
        Err(RequestFailure::Inline(InlineFailure::Syntax)) => r matches Err(RequestError::ParseInlineParam),
        Err(RequestFailure::Inline(InlineFailure::Json)) => r matches Err(
            RequestError::ParseInlineJsonValue(_),
        ),
        Err(RequestFailure::Multipart(MultipartFailure::Empty)) => r matches Err(
            RequestError::EmptyMultipartValue,
        ),
        Err(RequestFailure::Multipart(MultipartFailure::Invalid(c))) => r matches Err(
            RequestError::InvalidMultipartCharacter(d),
        ) && c == d,
    }
}

pub(crate) fn first_nonempty_line(ls: &Vec<Vec<char>>) -> (f: usize)
    ensures
        f == first_nonempty(views(ls@), 0),
{
    let mut i: usize = 0;
    while i < ls.len() && ls[i].len() == 0
        invariant
            i <= ls@.len(),
            first_nonempty(views(ls@), i as int) == first_nonempty(views(ls@), 0),
        decreases ls@.len() - i,
    {
        i = i + 1;
    }
    i
}

/// Reads the header lines from the `from`-th line (see [`header_lines`]).
pub(crate) fn parse_header_lines(ls: &Vec<Vec<char>>, from: usize) -> (r: Result<(OrderedMap<String>, usize), RequestError>)
    requires
        from <= ls@.len(),
    ensures
        match header_lines(views(ls@), from as int, Seq::empty()) {
            (Ok(hs), b) => r matches Ok((m, e)) && m.view_pairs() == hs && e == b,
            (Err(_), _) => r matches Err(RequestError::ParseHeaderLine),
        },
{
    let ghost lv = views(ls@);
    let mut m: OrderedMap<String> = OrderedMap::new();
    assert(m.view_pairs() =~= Seq::<(Seq<char>, Seq<char>)>::empty());
    let mut j = from;
    while j < ls.len()
        invariant
            lv == views(ls@),
            from <= j <= ls@.len(),
            header_lines(lv, from as int, Seq::empty()) == header_lines(lv, j as int, m.view_pairs()),
        decreases ls@.len() - j,
    {
        let line = &ls[j];
        assert(line@ == lv[j as int]);
        if line.len() == 0 {
            return Ok((m, j + 1));
        }
        let c = next_char(line, 0, ':');
        proof {
            lemma_first_from(line@, 0, char_pred(':'));
        }
        if c >= line.len() {
            return Err(RequestError::ParseHeaderLine);
        }
        let name = trim_chars(&slice_of(line, 0, c));
        let value = trim_chars(&slice_of(line, c + 1, line.len()));
        let name_s = string_from(&name);
        let value_s = string_from(&value);
        let ghost before = m.pairs();
        proof {
            crate::map::lemma_insert_sorted_map_vals(before, name_s@, value_s, |v: String| v@);
        }
        m.insert(name_s, value_s);
        j = j + 1;
    }
    Ok((m, ls.len()))
}

/// The query parameters appended to `url`, when there are any (see [`with_query`]).
fn append_query_params(url: Vec<char>, params: &OrderedMap<Value>) -> (r: Vec<char>)
    ensures
        r@ == with_query(url@, params.field_views()),
{
    let n = field_count(params);
    if n == 0 {
        return url;
    }
    let ghost q = params.field_views();
    let mut out = url;
    out.push('?');
    let ghost start = out@;
    let mut i: usize = 0;
    while i < n
        invariant
            n == q.len(),
            q == params.field_views(),
            i <= n,
            out@ + query_string(q, i as int) == start + query_string(q, 0),
        decreases n - i,
    {
        let (k, v) = field(params, i);
        let ghost before = out@;
        if i > 0 {
            out.push('&');
        }
        let kc = chars_of(k.as_str());
        append_chars(&mut out, &kc);
        out.push('=');
        let d = chars_of(v.to_string().as_str());
        append_chars(&mut out, &d);
        assert(out@ == before + (if i > 0 {
            seq!['&']
        } else {
            Seq::empty()
        }) + q[i as int].0 + seq!['='] + display(q[i as int].1));
        i = i + 1;
    }
    assert(query_string(q, i as int) == Seq::<char>::empty());
    out
}

/// Whether `s` holds `c`.
fn contains_char(s: &Vec<char>, c: char) -> (b: bool)
    ensures
        b == s@.contains(c),
{
    let mut i: usize = 0;
    while i < s.len()
        invariant
            i <= s.len(),
            forall|k: int| 0 <= k < i ==> s@[k] != c,
        decreases s.len() - i,
    {
        if s[i] == c {
            return true;
        }
        i = i + 1;
    }
    false
}

/// Reads the request a document describes (see [`request_http`]).
pub fn parse_request_http(doc: &str, default_scheme: &str) -> (r: Result<HttpRequest, RequestError>)
    requires
        request_readable(doc@),
    ensures
        parsed_as_request(r, request_http(doc@, default_scheme@)),
{
    let chars = chars_of(doc);
    let ls = split_lines(&chars);
    let ghost lv = lines(doc@);
    let f = first_nonempty_line(&ls);
    if f >= ls.len() {
        return Err(RequestError::EmptyRequestFile);
    }
    let parts = split_ws(&ls[f]);
    assert(ls@[f as int]@ == lv[f as int]);
    if parts.len() == 0 {
        return Err(RequestError::MissingMethod);
    }
    if parts.len() == 1 {
        return Err(RequestError::MissingUri);
    }
    let method = string_from(&parts[0]);
    let uri = string_from(&parts[1]);
    assert(parts@[1]@ == views(parts@)[1]);
    let mut url_parser = UrlParser::new(uri.as_str(), default_scheme);
    let parsed_uri = url_parser.parse();
    let inline_params = parse_inline_params(&parts, 2)?;
    let (mut headers, b) = parse_header_lines(&ls, f + 1)?;
    proof {
        lemma_header_lines_end(lv, f + 1, Seq::empty());
    }
    if headers.is_empty() {
        let n = field_count(&inline_params.headers);
        let ghost src = map_vals(inline_params.headers.field_views(), |v: ValueView| display(v));
        assert(headers.view_pairs() =~= Seq::<(Seq<char>, Seq<char>)>::empty());
        let mut i: usize = 0;
        while i < n
            invariant
                n == src.len(),
                src == map_vals(inline_params.headers.field_views(), |v: ValueView| display(v)),
                i <= n,
                insert_all(Seq::empty(), src, 0) == insert_all(headers.view_pairs(), src, i as int),
            decreases n - i,
        {
            let (k, v) = field(&inline_params.headers, i);
            let shown = v.to_string();
            let ghost before = headers.pairs();
            proof {
                crate::map::lemma_insert_sorted_map_vals(before, k@, shown, |v: String| v@);
            }
            headers.insert(k.clone(), shown);
            i = i + 1;
        }
    }
    let url_chars = chars_of(parsed_uri.as_str());
    let url = if contains_char(&url_chars, '?') {
        url_chars
    } else {
        append_query_params(url_chars, &inline_params.query)
    };
    let mut newline: Vec<char> = Vec::new();
    newline.push('\n');
    let raw = join_chars(&ls, b, &newline);
    let blank = crate::text::is_blank(&raw);
    let has_inline_body = field_count(&inline_params.body) > 0;
    let ghost inl = inline_params.view();
    let InlineParams { query: _, headers: _, body: fields, form: inline_form } = inline_params;
    let body = if !blank || !has_inline_body {
        string_from(&raw)
    } else {
        let object = Value::Object(fields);
        object.to_json()
    };
    let multipart = crate::text::chars_eq_str(&parts[0], "MULTIPART");
    proof {
        reveal_strlit("MULTIPART");
        assert("MULTIPART"@ =~= multipart_method());
    }
    proof {
        assert(views(ls@).subrange(b as int, ls@.len() as int) == lv.subrange(b as int, lv.len() as int));
        assert(raw@ == raw_body(doc@));
        assert(parts@[0]@ == views(parts@)[0]);
        assert(views(parts@) == request_line_parts(doc@));
    }
    let form = if multipart && (!blank || has_inline_body) {
        let body_chars = chars_of(body.as_str());
        parse_multipart_http_body(&body_chars)?
    } else {
        inline_form
    };
    let req = HttpRequest { url: string_from(&url), method, headers, body, form };
    proof {
        let m = request_http(doc@, default_scheme@);
        assert(ls@.subrange(b as int, ls@.len() as int) =~= ls@.subrange(b as int, ls@.len() as int));
        assert(views(ls@).subrange(b as int, ls@.len() as int) == lv.subrange(b as int, lv.len() as int));
        let ls2 = lines(doc@);
        assert(ls2 == lv);
        assert(f as int == first_nonempty(ls2, 0));
        assert(views(parts@) == ws_split(ls2[f as int]));
        assert(inline_params_from(views(parts@), 2, no_inline_params()) is Ok);
        assert(header_lines(ls2, f + 1, Seq::empty()).0 is Ok);
        assert(m is Ok);
        assert(req.url@ == m->Ok_0.url);
        assert(req.method@ == m->Ok_0.method);
        assert(req.headers.view_pairs() == m->Ok_0.headers);
        assert(req.body@ == m->Ok_0.body);
        assert(req.form.view_pairs() == m->Ok_0.form);
    }
    Ok(req)
}

} // verus!
