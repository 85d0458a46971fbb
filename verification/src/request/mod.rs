//! Requests: their parsed forms and the parsers that make them.
use vstd::prelude::*;

use crate::json::{json_quote, json_string};
use crate::map::OrderedMap;
use crate::request::error::RequestError;
use crate::request::parsing::url::{find_chars, find_from};
use crate::text::{append_str, chars_eq_str, chars_of, join, join_chars, lines, split_lines, string_from, string_of, views};
use crate::wire::{ascii_lower, header_map_append, header_map_new, header_name_ok, header_name_parses, header_pairs, header_value_ok, header_value_parses};

pub mod collection;
pub mod error;
pub mod parsing;
pub mod plain;

verus! {

/// A multipart form field: the path of a file to send, or a text.
#[derive(PartialEq, Eq, Debug)]
pub enum MultipartRequestValue {
    File(String),
    Text(String),
}

/// What a [`MultipartRequestValue`] holds.
pub enum MultipartView {
    File(Seq<char>),
    Text(Seq<char>),
}

impl View for MultipartRequestValue {
    type V = MultipartView;

    open spec fn view(&self) -> MultipartView {
        match self {
            MultipartRequestValue::File(f) => MultipartView::File(f@),
            MultipartRequestValue::Text(t) => MultipartView::Text(t@),
        }
    }
}

/// A request read from a document: its URL (with its scheme), method, headers, body
/// and multipart form fields.
pub struct HttpRequest {
    pub url: String,
    pub method: String,
    pub headers: OrderedMap<String>,
    pub body: String,
    pub form: OrderedMap<MultipartRequestValue>,
}


/// Whether `http` takes every header name and value of `ps`.
pub open spec fn headers_accepted(ps: Seq<(Seq<char>, Seq<char>)>) -> bool {
    forall|i: int| 0 <= i < ps.len() ==> header_name_ok(#[trigger] ps[i].0) && header_value_ok(ps[i].1)
}

/// The header pairs of `ps` as `http` keeps them: each name in lower case.
pub open spec fn lowered(ps: Seq<(Seq<char>, Seq<char>)>) -> Seq<(Seq<char>, Seq<char>)> {
    ps.map_values(|p: (Seq<char>, Seq<char>)| (ascii_lower(p.0), p.1))
}

/// Whether `r` is the header map of the pairs `ps`: it holds each pair, its name in
/// lower case, when `http` takes every name and value; `ParseHeader` when `http`
/// refuses one; `TooManyHeaders` when the map cannot grow, which `http` allows only
/// from 6554 names on.
pub open spec fn header_map_result(r: Result<http::HeaderMap, RequestError>, ps: Seq<(Seq<char>, Seq<char>)>) -> bool {
    &&& r is Ok ==> headers_accepted(ps)
    &&& headers_accepted(ps) && ps.len() < 6554 ==> r is Ok
    &&& (!headers_accepted(ps) && ps.len() < 6554 ==> (r matches Err(RequestError::ParseHeader)))
    &&& (r matches Err(RequestError::ParseHeader) ==> !headers_accepted(ps))
    &&& (r matches Err(RequestError::TooManyHeaders) ==> ps.len() >= 6554)
    &&& (r matches Err(e) ==> (e is ParseHeader || e is TooManyHeaders))
    &&& (r matches Ok(m) ==> header_pairs(m) == lowered(ps).to_multiset())
}

/// The headers as an `http` header map (see [`header_map_result`]).
pub fn header_map_of(headers: &OrderedMap<String>) -> (r: Result<http::HeaderMap, RequestError>)
    ensures
        header_map_result(r, headers.view_pairs()),
{
    let ghost ps = headers.view_pairs();
    let mut m = header_map_new();
    let n = headers.len();
    let mut i: usize = 0;
    proof {
        assert(lowered(ps).take(0) =~= Seq::<(Seq<char>, Seq<char>)>::empty());
        vstd::seq_lib::to_multiset_len(lowered(ps).take(0));
    }
    while i < n
        invariant
            n == headers.pairs().len(),
            ps == headers.view_pairs(),
            n == ps.len(),
            i <= n,
            forall|j: int| 0 <= j < i ==> header_name_ok(#[trigger] ps[j].0) && header_value_ok(ps[j].1),
            header_pairs(m) == lowered(ps).take(i as int).to_multiset(),
        decreases n - i,
    {
        let (k, v) = headers.entry(i);
        assert(ps[i as int] == (k@, v@));
        if !header_name_parses(k.as_str()) || !header_value_parses(v.as_str()) {
            assert(!(header_name_ok(ps[i as int].0) && header_value_ok(ps[i as int].1)));
            return Err(RequestError::ParseHeader);
        }
        assert(header_name_ok(ps[i as int].0) && header_value_ok(ps[i as int].1));
        proof {
            vstd::seq_lib::to_multiset_len(lowered(ps).take(i as int));
        }
        let ghost before = m;
        let appended = header_map_append(&mut m, k.as_str(), v.as_str());
        if !appended {
            return Err(RequestError::TooManyHeaders);
        }
        assert(header_pairs(m) == header_pairs(before).insert((ascii_lower(k@), v@)));
        proof {
            assert(lowered(ps).take(i + 1) =~= lowered(ps).take(i as int).push((ascii_lower(k@), v@)));
            vstd::seq_lib::to_multiset_build(lowered(ps).take(i as int), (ascii_lower(k@), v@));
            assert forall|j: int| 0 <= j < i + 1 implies header_name_ok(#[trigger] ps[j].0)
                && header_value_ok(ps[j].1) by {
                if j == i {
                    assert(ps[j] == (k@, v@));
                }
            }
        }
        i = i + 1;
    }
    proof {
        assert(lowered(ps).take(n as int) =~= lowered(ps));
    }
    assert(headers_accepted(ps));
    Ok(m)
}

impl HttpRequest {
    /// The headers as an `http` header map (see [`header_map_result`]).
    pub fn headers(&self) -> (r: Result<http::HeaderMap, RequestError>)
        ensures
            header_map_result(r, self.headers.view_pairs()),
    {
        header_map_of(&self.headers)
    }
}

/// A multipart request: its URL, headers and form fields.
pub struct MultipartRequest {
    pub url: String,
    pub headers: OrderedMap<String>,
    pub body: OrderedMap<MultipartRequestValue>,
}

impl MultipartRequest {
    /// The headers as an `http` header map (see [`header_map_result`]).
    pub fn headers(&self) -> (r: Result<http::HeaderMap, RequestError>)
        ensures
            header_map_result(r, self.headers.view_pairs()),
    {
        header_map_of(&self.headers)
    }
}

/// A GraphQL request: its URL, its query and its headers.
pub struct GraphQLRequest {
    pub url: String,
    pub query: String,
    pub headers: OrderedMap<String>,
}

/// The JSON body that carries a GraphQL query, with no variables.
pub open spec fn graphql_body(query: Seq<char>) -> Seq<char> {
    seq!['{', '"', 'q', 'u', 'e', 'r', 'y', '"', ':'] + json_string(query) + seq![
        ',',
        '"',
        'v',
        'a',
        'r',
        'i',
        'a',
        'b',
        'l',
        'e',
        's',
        '"',
        ':',
        '{',
        '}',
        '}',
    ]
}

impl GraphQLRequest {
    /// The JSON body sent for the query: `{"query":...,"variables":{}}`.
    pub fn body_json(&self) -> (r: String)
        ensures
            r@ == graphql_body(self.query@),
    {
        let mut r = chars_of("{\"query\":");
        let q = json_quote(self.query.as_str());
        append_str(&mut r, q.as_str());
        append_str(&mut r, ",\"variables\":{}}");
        proof {
            reveal_strlit("{\"query\":");
            reveal_strlit(",\"variables\":{}}");
            assert(r@ =~= graphql_body(self.query@));
        }
        string_from(&r)
    }
}

/// A request sorted by its kind: a plain one, a multipart form, or a GraphQL query.
pub enum ParsedRequest {
    Http(HttpRequest),
    Multipart(MultipartRequest),
    GraphQL(GraphQLRequest),
}

/// The method that marks a GraphQL request.
pub open spec fn graphql_method() -> Seq<char> {
    seq!['G', 'R', 'A', 'P', 'H', 'Q', 'L']
}

/// The method that marks a multipart request.
pub open spec fn multipart_name() -> Seq<char> {
    seq!['M', 'U', 'L', 'T', 'I', 'P', 'A', 'R', 'T']
}

impl ParsedRequest {
    /// Sorts a request by its method: `MULTIPART` sends its form, `GRAPHQL` sends its
    /// body as the query, and any other is sent as it is.
    pub fn from_request(r: HttpRequest) -> (p: ParsedRequest)
        ensures
            r.method@ == multipart_name() ==> (p matches ParsedRequest::Multipart(m) && m.url == r.url
                && m.headers == r.headers && m.body == r.form),
            r.method@ == graphql_method() ==> (p matches ParsedRequest::GraphQL(g) && g.url == r.url
                && g.query == r.body && g.headers == r.headers),
            r.method@ != multipart_name() && r.method@ != graphql_method() ==> p == ParsedRequest::Http(
                r,
            ),
    {
        let m = chars_of(r.method.as_str());
        let multipart = chars_eq_str(&m, "MULTIPART");
        let graphql = chars_eq_str(&m, "GRAPHQL");
        proof {
            reveal_strlit("MULTIPART");
            reveal_strlit("GRAPHQL");
            assert("MULTIPART"@ =~= multipart_name());
            assert("GRAPHQL"@ =~= graphql_method());
        }
        if multipart {
            let HttpRequest { url, method: _, headers, body: _, form } = r;
            ParsedRequest::Multipart(MultipartRequest { url, headers, body: form })
        } else if graphql {
            let HttpRequest { url, method: _, headers, body, form: _ } = r;
            ParsedRequest::GraphQL(GraphQLRequest { url, query: body, headers })
        } else {
            ParsedRequest::Http(r)
        }
    }
}

/// The delimiter between a request file's notes and its request document.
pub open spec fn file_delimiter() -> Seq<char> {
    seq!['-', '-', '-']
}

/// A request file: the notes before its first `---`, and the request document after.
pub struct RequestFile {
    pub markdown: String,
    pub http: String,
}

impl RequestFile {
    /// The file with the content `content`, split at its first `---`; `None` when
    /// it holds none.
    pub fn from_content(content: &str) -> (r: Option<RequestFile>)
        ensures
            r is None <==> find_from(content@, 0, file_delimiter()) >= content@.len(),
            r matches Some(f) ==> {
                let i = find_from(content@, 0, file_delimiter());
                f.markdown@ == content@.take(i) && f.http@ == content@.skip(i + 3)
            },
    {
        let c = chars_of(content);
        let d = chars_of("---");
        proof {
            reveal_strlit("---");
            assert("---"@ =~= file_delimiter());
            crate::request::parsing::url::lemma_find_from(c@, 0, file_delimiter());
        }
        let i = find_chars(&c, 0, &d);
        if i >= c.len() {
            return None;
        }
        let markdown = string_of(&c, 0, i);
        let http = string_of(&c, i + 3, c.len());
        assert(markdown@ =~= content@.take(i as int));
        assert(http@ =~= content@.skip(i + 3));
        Some(RequestFile { markdown, http })
    }
}

/// The index of the first line of `ls` from `i` on that is `---`, or the number of
/// lines.
pub open spec fn delimiter_line(ls: Seq<Seq<char>>, i: int) -> int
    decreases ls.len() - i,
{
    if i < 0 || i >= ls.len() {
        ls.len() as int
    } else if ls[i] == file_delimiter() {
        i
    } else {
        delimiter_line(ls, i + 1)
    }
}

/// The request document of a request file: its lines before the first line that is
/// `---`, joined by `\n`.
pub open spec fn raw_request_http(content: Seq<char>) -> Seq<char> {
    let ls = lines(content);
    join(ls.take(delimiter_line(ls, 0)), seq!['\n'])
}

/// The request document of a request file (see [`raw_request_http`]).
pub fn raw_request_of(content: &str) -> (r: String)
    ensures
        r@ == raw_request_http(content@),
{
    let c = chars_of(content);
    let mut ls = split_lines(&c);
    let ghost lv = views(ls@);
    proof {
        reveal_strlit("---");
        assert("---"@ =~= file_delimiter());
    }
    let mut k: usize = 0;
    while k < ls.len()
        invariant
            k <= ls.len(),
            lv == views(ls@),
            "---"@ == file_delimiter(),
            delimiter_line(lv, 0) == delimiter_line(lv, k as int),
        ensures
            k <= ls.len(),
            lv == views(ls@),
            delimiter_line(lv, 0) == delimiter_line(lv, k as int),
            k < ls.len() ==> lv[k as int] == file_delimiter(),
        decreases ls.len() - k,
    {
        assert(ls@[k as int]@ == lv[k as int]);
        if chars_eq_str(&ls[k], "---") {
            break;
        }
        k = k + 1;
    }
    proof {
        if k < ls.len() {
            assert(ls@[k as int]@ == lv[k as int]);
            assert(lv[k as int] == file_delimiter());
        }
    }
    assert(delimiter_line(lv, 0) == k);
    ls.truncate(k);
    let mut newline: Vec<char> = Vec::new();
    newline.push('\n');
    let joined = join_chars(&ls, 0, &newline);
    assert(views(ls@).subrange(0, ls@.len() as int) =~= lv.take(k as int));
    string_from(&joined)
}

} // verus!
