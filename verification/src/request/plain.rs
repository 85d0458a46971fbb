//! Reading a request document as written, without inline parameters or a default
//! scheme: the method and URI of its request line, its headers and its body, sorted
//! by the kind of request.
use vstd::prelude::*;

use crate::map::OrderedMap;
use crate::request::error::RequestError;
use crate::request::parsing::{
    RequestFailure, first_nonempty, first_nonempty_line, header_lines, lemma_header_lines_end,
    multipart_body, multipart_lines_readable, multipart_method, parse_header_lines,
    parse_multipart_http_body, parsed_as_request, raw_body,
};
use crate::request::{
    GraphQLRequest, HttpRequest, MultipartRequest, ParsedRequest, graphql_method,
};
use crate::text::{chars_eq_str, chars_of, join, join_chars, lines, split_lines, split_ws, string_from, views, ws_split};

verus! {

/// The parts of a request as a document writes them.
pub struct PlainModel {
    pub method: Seq<char>,
    pub url: Seq<char>,
    pub headers: Seq<(Seq<char>, Seq<char>)>,
    pub body: Seq<char>,
}

/// The request a document writes: leading empty lines skipped, the method and URI
/// of the request line, the header lines up to an empty line (a later name
/// replacing an earlier one), and the lines after it as the body.
pub open spec fn plain_request(doc: Seq<char>) -> Result<PlainModel, RequestFailure> {
    let ls = lines(doc);
    let f = first_nonempty(ls, 0);
    if f >= ls.len() {
        Err(RequestFailure::EmptyRequestFile)
    } else {
        let parts = ws_split(ls[f]);
        if parts.len() == 0 {
            Err(RequestFailure::MissingMethod)
        } else if parts.len() == 1 {
            Err(RequestFailure::MissingUri)
        } else {
            match header_lines(ls, f + 1, Seq::empty()) {
                (Err(_), _) => Err(RequestFailure::ParseHeaderLine),
                (Ok(hs), _) => Ok(
                    PlainModel { method: parts[0], url: parts[1], headers: hs, body: raw_body(doc) },
                ),
            }
        }
    }
}

/// The documents whose multipart body the reading by single bytes takes without
/// leaving a character boundary.
pub open spec fn plain_readable(doc: Seq<char>) -> bool {
    match plain_request(doc) {
        Ok(m) => m.method == multipart_method() ==> multipart_lines_readable(lines(m.body), 0),
        Err(_) => true,
    }
}

/// Whether `r` is what reading the document `doc` as written gives: a `MULTIPART`
/// request with its form read from the body, a `GRAPHQL` one with its body as the
/// query, any other as a plain request with no form.
pub open spec fn read_as_plain(r: Result<ParsedRequest, RequestError>, doc: Seq<char>) -> bool {
    match plain_request(doc) {
        Err(f) => r matches Err(e) && parsed_as_request(Err(e), Err(f)),
        Ok(m) => if m.method == multipart_method() {
            match multipart_body(m.body) {
                Ok(fs) => r matches Ok(ParsedRequest::Multipart(mr)) && mr.url@ == m.url
                    && mr.headers.view_pairs() == m.headers && mr.body.view_pairs() == fs,
                Err(mf) => r matches Err(e) && parsed_as_request(
                    Err(e),
                    Err(RequestFailure::Multipart(mf)),
                ),
            }
        } else if m.method == graphql_method() {
            r matches Ok(ParsedRequest::GraphQL(g)) && g.url@ == m.url && g.query@ == m.body
                && g.headers.view_pairs() == m.headers
        } else {
            r matches Ok(ParsedRequest::Http(h)) && h.url@ == m.url && h.method@ == m.method
                && h.headers.view_pairs() == m.headers && h.body@ == m.body
                && h.form.pairs().len() == 0
        },
    }
}

/// Reads the request a document writes (see [`read_as_plain`]).
pub fn parse_request_http(doc: &str) -> (r: Result<ParsedRequest, RequestError>)
    requires
        plain_readable(doc@),
    ensures
        read_as_plain(r, doc@),
{
    let chars = chars_of(doc);
    let ls = split_lines(&chars);
    let ghost lv = lines(doc@);
    let f = first_nonempty_line(&ls);
    if f >= ls.len() {
        return Err(RequestError::EmptyRequestFile);
    }
    let parts = split_ws(&ls[f]);
    assert(ls@[f as int]@ == lv[f as int]);
    if parts.len() == 0 {
        return Err(RequestError::MissingMethod);
    }
    if parts.len() == 1 {
        return Err(RequestError::MissingUri);
    }
    assert(parts@[0]@ == views(parts@)[0]);
    assert(parts@[1]@ == views(parts@)[1]);
    let method = string_from(&parts[0]);
    let url = string_from(&parts[1]);
    let (headers, b) = parse_header_lines(&ls, f + 1)?;
    proof {
        lemma_header_lines_end(lv, f + 1, Seq::empty());
    }
    let mut newline: Vec<char> = Vec::new();
    newline.push('\n');
    let raw = join_chars(&ls, b, &newline);
    assert(views(ls@).subrange(b as int, ls@.len() as int) == lv.subrange(b as int, lv.len() as int));
    assert(raw@ == raw_body(doc@));
    let multipart = chars_eq_str(&parts[0], "MULTIPART");
    let graphql = chars_eq_str(&parts[0], "GRAPHQL");
    proof {
        reveal_strlit("MULTIPART");
        reveal_strlit("GRAPHQL");
        assert("MULTIPART"@ =~= multipart_method());
        assert("GRAPHQL"@ =~= graphql_method());
    }
    if multipart {
        let body = parse_multipart_http_body(&raw)?;
        Ok(ParsedRequest::Multipart(MultipartRequest { url, headers, body }))
    } else if graphql {
        Ok(ParsedRequest::GraphQL(GraphQLRequest { url, query: string_from(&raw), headers }))
    } else {
        let form = OrderedMap::new();
        Ok(ParsedRequest::Http(HttpRequest { url, method, headers, body: string_from(&raw), form }))
    }
}

} // verus!
