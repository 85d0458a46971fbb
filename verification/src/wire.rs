//! The calls into the `http` crate: reading methods, URIs, header names and values,
//! building requests, and filling header maps.
use std::str::FromStr;

use vstd::multiset::Multiset;
use vstd::prelude::*;
use vstd::utf8::encode_utf8;

verus! {

#[verifier::external_type_specification]
#[verifier::external_body]
pub struct ExMethod(http::Method);

#[verifier::external_type_specification]
#[verifier::external_body]
pub struct ExUri(http::Uri);

#[verifier::external_type_specification]
#[verifier::external_body]
pub struct ExInvalidUri(http::uri::InvalidUri);

#[verifier::external_type_specification]
#[verifier::external_body]
pub struct ExBuilder(http::request::Builder);

#[verifier::external_type_specification]
#[verifier::external_body]
#[verifier::reject_recursive_types(T)]
pub struct ExRequest<T>(http::Request<T>);

#[verifier::external_type_specification]
#[verifier::external_body]
#[verifier::reject_recursive_types(T)]
pub struct ExHeaderMap<T>(http::HeaderMap<T>);

#[verifier::external_type_specification]
#[verifier::external_body]
pub struct ExHeaderValue(http::HeaderValue);

/// The characters of an HTTP token, which method and header names are made of.
pub open spec fn is_token_char(c: char) -> bool {
    ||| ('0' <= c && c <= '9')
    ||| ('A' <= c && c <= 'Z')
    ||| ('a' <= c && c <= 'z')
    ||| c == '!' || c == '#' || c == '$' || c == '%' || c == '&' || c == '\''
    ||| c == '*' || c == '+' || c == '-' || c == '.' || c == '^' || c == '_'
    ||| c == '`' || c == '|' || c == '~'
}

/// The names that `http` takes for a method: nonempty, of token characters.
pub open spec fn method_token(s: Seq<char>) -> bool {
    s.len() > 0 && forall|i: int| 0 <= i < s.len() ==> is_token_char(#[trigger] s[i])
}

/// The names that `http` takes for a header: nonempty, at most 65535 long, of token
/// characters.
pub open spec fn header_name_ok(s: Seq<char>) -> bool {
    0 < s.len() <= 65535 && forall|i: int| 0 <= i < s.len() ==> is_token_char(#[trigger] s[i])
}

/// The characters that a header value may hold: a tab, or any character from the
/// space on but the delete character.
pub open spec fn is_value_char(c: char) -> bool {
    c == '\t' || (' ' <= c && c != '\x7f')
}

/// The texts that `http` takes for a header value.
pub open spec fn header_value_ok(s: Seq<char>) -> bool {
    forall|i: int| 0 <= i < s.len() ==> is_value_char(#[trigger] s[i])
}

/// `c` with an ASCII capital letter made small.
pub open spec fn lower_char(c: char) -> char {
    if 'A' <= c && c <= 'Z' {
        ((c as u32) + 32) as char
    } else {
        c
    }
}

/// `s` with its ASCII capital letters made small, as `http` keeps header names.
pub open spec fn ascii_lower(s: Seq<char>) -> Seq<char> {
    s.map_values(|c: char| lower_char(c))
}

/// Whether `http::Uri::from_str` accepts `s`.
pub uninterp spec fn uri_parses(s: Seq<char>) -> bool;

/// The method that `http::Method::from_str` reads from `s`.
pub uninterp spec fn method_value(s: Seq<char>) -> http::Method;

/// The URI that `http::Uri::from_str` reads from `s`.
pub uninterp spec fn uri_value(s: Seq<char>) -> http::Uri;

/// What a header map holds: each value under its (lower-case) name.
pub uninterp spec fn header_pairs(m: http::HeaderMap) -> Multiset<(Seq<char>, Seq<char>)>;

/// `http::Method::from_str`: the method named `s`. Its source accepts exactly the
/// nonempty names made of token characters (the table `METHOD_CHARS`).
#[verifier::external_body]
pub(crate) fn parse_method(s: &str) -> (r: Result<http::Method, http::method::InvalidMethod>)
    ensures
        r is Ok <==> method_token(s@),
        r matches Ok(m) ==> m == method_value(s@),
{
    http::Method::from_str(s)
}

/// `http::Uri::from_str`: the URI written `s`; whether it is accepted is named by
/// `uri_parses`.
#[verifier::external_body]
pub(crate) fn parse_uri(s: &str) -> (r: Result<http::Uri, http::uri::InvalidUri>)
    ensures
        r is Ok <==> uri_parses(s@),
        r matches Ok(u) ==> u == uri_value(s@),
{
    http::Uri::from_str(s)
}

/// What a request builder has been given: the method, the URI, the header pairs
/// it took (each name in lower case), and whether a step has failed.
pub struct BuilderModel {
    pub method: http::Method,
    pub uri: http::Uri,
    pub headers: Seq<(Seq<char>, Seq<char>)>,
    pub failed: bool,
}

/// An `http` request builder, with what it has been given.
pub struct RequestBuilder {
    inner: http::request::Builder,
    model: Ghost<BuilderModel>,
}

impl RequestBuilder {
    /// What the builder has been given.
    pub closed spec fn model(&self) -> BuilderModel {
        self.model@
    }
}

/// The builder `m` after one more header step that failed or not.
pub open spec fn builder_step(m: BuilderModel, name: Seq<char>, value: Seq<char>, failed: bool) -> BuilderModel {
    BuilderModel {
        method: m.method,
        uri: m.uri,
        headers: if failed { m.headers } else { m.headers.push((ascii_lower(name), value)) },
        failed,
    }
}

/// What an `http` request holds: its method, its URI, whether its version is
/// HTTP/1.1, each header value under its (lower-case) name, and its body's bytes.
pub struct RequestParts {
    pub method: http::Method,
    pub uri: http::Uri,
    pub http_11: bool,
    pub headers: Multiset<(Seq<char>, Seq<char>)>,
    pub body: Seq<u8>,
}

/// What a built request holds.
pub uninterp spec fn request_parts(r: http::Request<Vec<u8>>) -> RequestParts;

/// `http::Request::builder()` given the method, the URI and the version HTTP/1.1
/// (each of these steps takes a value of the right type and cannot fail).
#[verifier::external_body]
pub(crate) fn request_builder(method: http::Method, uri: http::Uri) -> (b: RequestBuilder)
    ensures
        b.model() == (BuilderModel { method, uri, headers: Seq::empty(), failed: false }),
{
    let model = Ghost(BuilderModel { method, uri, headers: Seq::empty(), failed: false });
    let inner = http::Request::builder().method(method).uri(uri).version(http::Version::HTTP_11);
    RequestBuilder { inner, model }
}

/// `http::request::Builder::header` with a name and a value read from text. Its
/// source keeps a failed builder failed; otherwise the step fails exactly when the
/// name or the value is refused (as in `header_name_parses` and
/// `header_value_parses`) or when the header map cannot grow (`try_append`), which
/// cannot happen below 6554 names; else the pair is appended, the name in lower case.
#[verifier::external_body]
pub(crate) fn builder_header(b: RequestBuilder, name: &str, value: &str) -> (r: RequestBuilder)
    ensures
        b.model().failed ==> r.model() == b.model(),
        !b.model().failed ==> r.model() == builder_step(b.model(), name@, value@, r.model().failed),
        !b.model().failed && !(header_name_ok(name@) && header_value_ok(value@)) ==> r.model().failed,
        !b.model().failed && header_name_ok(name@) && header_value_ok(value@) && b.model().headers.len()
            < 6554 ==> !r.model().failed,
{
    let inner = b.inner.header(name, value);
    let failed = inner.headers_ref().is_none();
    let model = Ghost(if b.model@.failed { b.model@ } else { builder_step(b.model@, name@, value@, failed) });
    RequestBuilder { inner, model }
}

/// `http::request::Builder::body`: the request, with `body`'s bytes as its body, when
/// no step has failed; the error of the failed step otherwise.
#[verifier::external_body]
pub(crate) fn builder_body(b: RequestBuilder, body: String) -> (r: Result<
    http::Request<Vec<u8>>,
    http::Error,
>)
    ensures
        r is Ok <==> !b.model().failed,
        r matches Ok(q) ==> request_parts(q) == (RequestParts {
            method: b.model().method,
            uri: b.model().uri,
            http_11: true,
            headers: b.model().headers.to_multiset(),
            body: encode_utf8(body@),
        }),
{
    b.inner.body(body.into_bytes())
}

/// Whether `http::HeaderName::from_str` accepts `s`: its source accepts exactly the
/// names of `header_name_ok` (the table `HEADER_CHARS`, and `MAX_HEADER_NAME_LEN`).
#[verifier::external_body]
pub(crate) fn header_name_parses(s: &str) -> (r: bool)
    ensures
        r == header_name_ok(s@),
{
    http::HeaderName::from_str(s).is_ok()
}

/// Whether `http::HeaderValue::from_str` accepts `s`: its source refuses a byte below
/// 32 other than a tab, and the byte 127.
#[verifier::external_body]
pub(crate) fn header_value_parses(s: &str) -> (r: bool)
    ensures
        r == header_value_ok(s@),
{
    http::HeaderValue::from_str(s).is_ok()
}

/// `http::HeaderMap::new`: a map holding nothing.
#[verifier::external_body]
pub(crate) fn header_map_new() -> (m: http::HeaderMap)
    ensures
        header_pairs(m) == Multiset::<(Seq<char>, Seq<char>)>::empty(),
{
    http::HeaderMap::new()
}

/// `http::HeaderMap::try_append` of the name and value read from `name` and `value`.
/// On success the map holds one more value under the name, kept in lower case. Its
/// source fails, leaving the values as they were, only when the map would have to
/// grow past its largest size, which cannot happen below 6554 names.
#[verifier::external_body]
pub(crate) fn header_map_append(m: &mut http::HeaderMap, name: &str, value: &str) -> (r: bool)
    requires
        header_name_ok(name@),
        header_value_ok(value@),
    ensures
        r ==> header_pairs(*final(m)) == header_pairs(*old(m)).insert((ascii_lower(name@), value@)),
        !r ==> header_pairs(*final(m)) == header_pairs(*old(m)),
        header_pairs(*old(m)).len() < 6554 ==> r,
{
    let name = http::HeaderName::from_str(name).unwrap();
    m.try_append(name, http::HeaderValue::from_str(value).unwrap()).is_ok()
}

} // verus!
