//! Reading a request document into an `http::Request`: a request line `METHOD URI`,
//! header lines up to an empty line, and the body after it.
use vstd::prelude::*;

use crate::request::RequestFile;
use crate::request::error::RequestError;
use crate::request::parsing::{first_nonempty, first_nonempty_line};
use crate::text::{
    char_pred, chars_of, colon_split, first_from, lemma_colon_split, join, join_chars, lemma_first_from, lines, next_char, slice_of,
    split_lines, split_ws, string_from, trim, trim_chars, views, ws_split,
};
use crate::request::{headers_accepted, lowered};
use crate::wire::{
    ascii_lower, builder_body, builder_header, header_name_ok, header_value_ok, method_token,
    method_value, parse_method, parse_uri, request_builder, request_parts, uri_parses, uri_value,
    RequestParts,
};
use vstd::utf8::encode_utf8;

verus! {

/// Why a document describes no request message.
pub enum MessageFailure {
    EmptyRequestFile,
    MissingMethod,
    MissingUri,
    ParseMethod,
    ParseUri,
    ParseHeaderLine,
}

/// The parts of a request message as a document describes them.
pub struct MessageModel {
    pub method: Seq<char>,
    pub uri: Seq<char>,
    pub headers: Seq<(Seq<char>, Seq<char>)>,
    pub body: Seq<char>,
}

/// The header lines from the `j`-th up to the first empty one, appended to `acc` in
/// order as trimmed `(name, value)` pairs, and the index of the line after that
/// empty one; `Err` when a header line holds no `:`.
pub open spec fn header_list(ls: Seq<Seq<char>>, j: int, acc: Seq<(Seq<char>, Seq<char>)>) -> (
    Result<Seq<(Seq<char>, Seq<char>)>, ()>,
    int,
)
    decreases ls.len() - j,
{
    if j < 0 || j >= ls.len() {
        (Ok(acc), ls.len() as int)
    } else if ls[j].len() == 0 {
        (Ok(acc), j + 1)
    } else {
        let l = ls[j];
        let c = first_from(l, 0, char_pred(':'));
        if c >= l.len() {
            (Err(()), j)
        } else {
            header_list(
                ls,
                j + 1,
                acc.push((trim(l.subrange(0, c)), trim(l.subrange(c + 1, l.len() as int)))),
            )
        }
    }
}

pub proof fn lemma_header_list_end(ls: Seq<Seq<char>>, j: int, acc: Seq<(Seq<char>, Seq<char>)>)
    requires
        0 <= j <= ls.len(),
    ensures
        header_list(ls, j, acc).1 <= ls.len(),
    decreases ls.len() - j,
{
    if j < ls.len() && ls[j].len() > 0 {
        let l = ls[j];
        let c = first_from(l, 0, char_pred(':'));
        if c < l.len() {
            lemma_header_list_end(
                ls,
                j + 1,
                acc.push((trim(l.subrange(0, c)), trim(l.subrange(c + 1, l.len() as int)))),
            );
        }
    }
}

proof fn lemma_header_list_lines(ls: Seq<Seq<char>>, j: int, acc: Seq<(Seq<char>, Seq<char>)>)
    requires
        0 <= j <= ls.len(),
    ensures
        header_list(ls, j, acc).0 is Ok ==> {
            let hs = header_list(ls, j, acc).0->Ok_0;
            let n = hs.len() - acc.len();
            &&& acc.len() <= hs.len()
            &&& hs.take(acc.len() as int) == acc
            &&& j + n <= ls.len()
            &&& forall|k: int| 0 <= k < n ==> ls[j + k].len() > 0 && colon_split(
                #[trigger] ls[j + k],
                hs[acc.len() + k].0,
                hs[acc.len() + k].1,
            )
            &&& j + n < ls.len() ==> ls[j + n].len() == 0 && header_list(ls, j, acc).1 == j + n + 1
            &&& j + n == ls.len() ==> header_list(ls, j, acc).1 == ls.len()
        },
    decreases ls.len() - j,
{
    if j < ls.len() && ls[j].len() > 0 {
        let l = ls[j];
        let c = first_from(l, 0, char_pred(':'));
        if c < l.len() {
            let p = (trim(l.subrange(0, c)), trim(l.subrange(c + 1, l.len() as int)));
            let acc2 = acc.push(p);
            lemma_header_list_lines(ls, j + 1, acc2);
            lemma_colon_split(l);
            if header_list(ls, j, acc).0 is Ok {
                let hs = header_list(ls, j, acc).0->Ok_0;
                assert(hs == header_list(ls, j + 1, acc2).0->Ok_0);
                assert(hs.take(acc.len() as int) =~= hs.take(acc2.len() as int).take(acc.len() as int));
                assert(hs[acc.len() as int] == acc2[acc.len() as int]);
                let n = hs.len() - acc.len();
                assert forall|k: int| 0 <= k < n implies ls[j + k].len() > 0 && colon_split(
                    #[trigger] ls[j + k],
                    hs[acc.len() + k].0,
                    hs[acc.len() + k].1,
                ) by {
                    if k > 0 {
                        assert(ls[(j + 1) + (k - 1)] == ls[j + k]);
                        assert(acc2.len() + (k - 1) == acc.len() + k);
                    }
                }
            }
        }
    } else {
        if j < ls.len() {
            assert(acc.take(acc.len() as int) =~= acc);
        } else {
            assert(acc.take(acc.len() as int) =~= acc);
        }
    }
}

/// Header lines are split at their first `:`: reading the header lines from the
/// `j`-th on gives one pair per line, in order, up to the first empty line (or the
/// end), each line being its pair's name, a `:` and its value (see
/// [`colon_split`]: the name holds no `:`, the value may); the body starts after
/// that empty line.
pub proof fn law_header_lines_split_at_first_colon(ls: Seq<Seq<char>>, j: int)
    requires
        0 <= j <= ls.len(),
    ensures
        header_list(ls, j, Seq::empty()).0 is Ok ==> {
            let hs = header_list(ls, j, Seq::empty()).0->Ok_0;
            &&& j + hs.len() <= ls.len()
            &&& forall|k: int| 0 <= k < hs.len() ==> ls[j + k].len() > 0 && colon_split(
                #[trigger] ls[j + k],
                hs[k].0,
                hs[k].1,
            )
            &&& j + hs.len() < ls.len() ==> ls[j + hs.len()].len() == 0 && header_list(
                ls,
                j,
                Seq::empty(),
            ).1 == j + hs.len() + 1
            &&& j + hs.len() == ls.len() ==> header_list(ls, j, Seq::empty()).1 == ls.len()
        },
{
    lemma_header_list_lines(ls, j, Seq::empty());
}

/// The request message a document describes. Leading empty lines are skipped; the
/// request line holds the method and the URI, which `http` must accept; the lines
/// after it, up to an empty line, are headers `name: value` (trimmed, kept in
/// order); the lines after that, joined by `\n`, are the body.
pub open spec fn request_message(doc: Seq<char>) -> Result<MessageModel, MessageFailure> {
    let ls = lines(doc);
    let f = first_nonempty(ls, 0);
    if f >= ls.len() {
        Err(MessageFailure::EmptyRequestFile)
    } else {
        let parts = ws_split(ls[f]);
        if parts.len() == 0 {
            Err(MessageFailure::MissingMethod)
        } else if parts.len() == 1 {
            Err(MessageFailure::MissingUri)
        } else if !method_token(parts[0]) {
            Err(MessageFailure::ParseMethod)
        } else if !uri_parses(parts[1]) {
            Err(MessageFailure::ParseUri)
        } else {
            match header_list(ls, f + 1, Seq::empty()) {
                (Err(_), _) => Err(MessageFailure::ParseHeaderLine),
                (Ok(hs), b) => Ok(
                    MessageModel {
                        method: parts[0],
                        uri: parts[1],
                        headers: hs,
                        body: join(ls.subrange(b, ls.len() as int), seq!['\n']),
                    },
                ),
            }
        }
    }
}

/// Whether an error is the one that a failure calls for.
pub open spec fn message_error(e: RequestError, f: MessageFailure) -> bool {
    match f {
        MessageFailure::EmptyRequestFile => e is EmptyRequestFile,
        MessageFailure::MissingMethod => e is MissingMethod,
        MessageFailure::MissingUri => e is MissingUri,
        MessageFailure::ParseMethod => e is ParseMethod,
        MessageFailure::ParseUri => e is ParseUrl,
        MessageFailure::ParseHeaderLine => e is ParseHeaderLine,
    }
}

/// The parts of a request message, read from a document.
pub struct RequestMessage {
    pub method: String,
    pub uri: String,
    pub headers: Vec<(String, String)>,
    pub body: String,
}

/// The header pairs, each text by its view.
pub open spec fn pair_views(v: Seq<(String, String)>) -> Seq<(Seq<char>, Seq<char>)> {
    v.map_values(|p: (String, String)| (p.0@, p.1@))
}

/// Whether `r` is what reading a document that describes `m` gives.
pub open spec fn read_as_message(
    r: Result<RequestMessage, RequestError>,
    m: Result<MessageModel, MessageFailure>,
) -> bool {
    match m {
        Ok(m) => r matches Ok(msg) && msg.method@ == m.method && msg.uri@ == m.uri && pair_views(
            msg.headers@,
        ) == m.headers && msg.body@ == m.body,
        Err(f) => r matches Err(e) && message_error(e, f),
    }
}

/// Reads the header lines from the `from`-th line (see [`header_list`]).
fn read_header_list(ls: &Vec<Vec<char>>, from: usize) -> (r: Result<
    (Vec<(String, String)>, usize),
    RequestError,
>)
    requires
        from <= ls@.len(),
    ensures
        match header_list(views(ls@), from as int, Seq::empty()) {
            (Ok(hs), b) => r matches Ok((v, e)) && pair_views(v@) == hs && e == b,
            (Err(_), _) => r matches Err(RequestError::ParseHeaderLine),
        },
{
    let ghost lv = views(ls@);
    let mut hs: Vec<(String, String)> = Vec::new();
    assert(pair_views(hs@) =~= Seq::<(Seq<char>, Seq<char>)>::empty());
    let mut j = from;
    while j < ls.len()
        invariant
            lv == views(ls@),
            from <= j <= ls@.len(),
            header_list(lv, from as int, Seq::empty()) == header_list(lv, j as int, pair_views(hs@)),
        decreases ls@.len() - j,
    {
        let line = &ls[j];
        assert(line@ == lv[j as int]);
        if line.len() == 0 {
            return Ok((hs, j + 1));
        }
        let c = next_char(line, 0, ':');
        proof {
            lemma_first_from(line@, 0, char_pred(':'));
        }
        if c >= line.len() {
            return Err(RequestError::ParseHeaderLine);
        }
        let name = string_from(&trim_chars(&slice_of(line, 0, c)));
        let value = string_from(&trim_chars(&slice_of(line, c + 1, line.len())));
        let ghost before = hs@;
        hs.push((name, value));
        assert(pair_views(hs@) =~= pair_views(before).push((name@, value@)));
        j = j + 1;
    }
    Ok((hs, ls.len()))
}

/// Reads the parts of the request message a document describes (see
/// [`request_message`]).
pub fn read_request_message(doc: &str) -> (r: Result<RequestMessage, RequestError>)
    ensures
        read_as_message(r, request_message(doc@)),
{
    let chars = chars_of(doc);
    let ls = split_lines(&chars);
    let ghost lv = lines(doc@);
    let f = first_nonempty_line(&ls);
    if f >= ls.len() {
        return Err(RequestError::EmptyRequestFile);
    }
    let parts = split_ws(&ls[f]);
    assert(ls@[f as int]@ == lv[f as int]);
    if parts.len() == 0 {
        return Err(RequestError::MissingMethod);
    }
    if parts.len() == 1 {
        return Err(RequestError::MissingUri);
    }
    let method = string_from(&parts[0]);
    let uri = string_from(&parts[1]);
    assert(parts@[0]@ == views(parts@)[0]);
    assert(parts@[1]@ == views(parts@)[1]);
    if let Err(e) = parse_method(method.as_str()) {
        return Err(RequestError::ParseMethod(e));
    }
    if parse_uri(uri.as_str()).is_err() {
        return Err(RequestError::ParseUrl);
    }
    let (headers, b) = read_header_list(&ls, f + 1)?;
    proof {
        lemma_header_list_end(lv, f + 1, Seq::empty());
    }
    let mut newline: Vec<char> = Vec::new();
    newline.push('\n');
    let body = string_from(&join_chars(&ls, b, &newline));
    proof {
        assert(views(ls@).subrange(b as int, ls@.len() as int) == lv.subrange(b as int, lv.len() as int));
    }
    Ok(RequestMessage { method, uri, headers, body })
}

/// What a request built from the message `m` holds: the method and the URI read
/// from its texts, HTTP/1.1, its header pairs with their names in lower case, and the
/// UTF-8 bytes of its body.
pub open spec fn message_parts(m: MessageModel) -> RequestParts {
    RequestParts {
        method: method_value(m.method),
        uri: uri_value(m.uri),
        http_11: true,
        headers: lowered(m.headers).to_multiset(),
        body: encode_utf8(m.body),
    }
}

/// Whether `r` is what building the request of a document that describes `m` gives:
/// the error of the first part that does not read; else a request that holds
/// [`message_parts`], when `http` takes every header (which it does whenever the
/// headers are fewer than 6554), and the builder's error when it refuses one.
pub open spec fn built_as_message(
    r: Result<http::Request<Vec<u8>>, RequestError>,
    m: Result<MessageModel, MessageFailure>,
) -> bool {
    match m {
        Err(f) => r matches Err(e) && message_error(e, f),
        Ok(m) => {
            &&& r is Ok ==> headers_accepted(m.headers)
            &&& headers_accepted(m.headers) && m.headers.len() < 6554 ==> r is Ok
            &&& (r matches Err(e) ==> e is BuildRequest)
            &&& (r matches Ok(q) ==> request_parts(q) == message_parts(m))
        },
    }
}

/// Reads the request a document describes and builds it with `http`, as HTTP/1.1
/// (see [`built_as_message`]).
pub fn parse_request_http(doc: String) -> (r: Result<http::Request<Vec<u8>>, RequestError>)
    ensures
        built_as_message(r, request_message(doc@)),
{
    let msg = read_request_message(doc.as_str())?;
    let ghost m = request_message(doc@)->Ok_0;
    let RequestMessage { method, uri, headers, body } = msg;
    let method = match parse_method(method.as_str()) {
        Ok(m) => m,
        Err(e) => {
            return Err(RequestError::ParseMethod(e));
        },
    };
    let uri = match parse_uri(uri.as_str()) {
        Ok(u) => u,
        Err(_) => {
            return Err(RequestError::ParseUrl);
        },
    };
    let ghost hs = m.headers;
    let mut builder = request_builder(method, uri);
    let mut i: usize = 0;
    assert(lowered(hs).take(0) =~= Seq::<(Seq<char>, Seq<char>)>::empty());
    while i < headers.len()
        invariant
            i <= headers.len(),
            pair_views(headers@) == hs,
            builder.model().method == method_value(m.method),
            builder.model().uri == uri_value(m.uri),
            !builder.model().failed ==> builder.model().headers == lowered(hs).take(i as int),
            !builder.model().failed ==> forall|j: int|
                0 <= j < i ==> header_name_ok(#[trigger] hs[j].0) && header_value_ok(hs[j].1),
            headers_accepted(hs) && hs.len() < 6554 ==> !builder.model().failed,
        decreases headers.len() - i,
    {
        let ghost before = builder.model();
        assert(hs[i as int] == (headers@[i as int].0@, headers@[i as int].1@));
        builder = builder_header(builder, headers[i].0.as_str(), headers[i].1.as_str());
        proof {
            if !before.failed {
                assert(lowered(hs).take(i + 1) =~= lowered(hs).take(i as int).push(
                    (ascii_lower(hs[i as int].0), hs[i as int].1),
                ));
                if builder.model().failed && header_name_ok(hs[i as int].0) && header_value_ok(hs[i as int].1) {
                    assert(before.headers.len() >= 6554);
                }
                if !builder.model().failed {
                    assert forall|j: int| 0 <= j < i + 1 implies header_name_ok(#[trigger] hs[j].0)
                        && header_value_ok(hs[j].1) by {}
                }
            }
        }
        i = i + 1;
    }
    proof {
        assert(lowered(hs).take(hs.len() as int) =~= lowered(hs));
    }
    match builder_body(builder, body) {
        Ok(req) => Ok(req),
        Err(e) => Err(RequestError::BuildRequest(e)),
    }
}

impl RequestFile {
    /// The request of the file's request document, built with `http` (see
    /// [`parse_request_http`]).
    pub fn request(&self) -> (r: Result<http::Request<Vec<u8>>, RequestError>)
        ensures
            built_as_message(r, request_message(self.http@)),
    {
        parse_request_http(self.http.clone())
    }
}

/// Whether two results of building the request of one message agree: both requests
/// hold the same method, URI, version, headers and body; on a document that
/// describes no message both fail with the same error kind; and below 6554 headers
/// one is built exactly when the other is.
pub open spec fn builds_agree(
    a: Result<http::Request<Vec<u8>>, RequestError>,
    b: Result<http::Request<Vec<u8>>, RequestError>,
    m: Result<MessageModel, MessageFailure>,
) -> bool {
    &&& (a is Ok && b is Ok) ==> request_parts(a->Ok_0) == request_parts(b->Ok_0)
    &&& (m matches Err(f) ==> (a matches Err(e1) && b matches Err(e2) && message_error(e1, f)
        && message_error(e2, f)))
    &&& (m is Ok && m->Ok_0.headers.len() < 6554) ==> (a is Ok <==> b is Ok)
}

/// A request file's request and the request that [`parse_request_http`] reads from
/// the file's request document agree (see [`builds_agree`]): wherever the reader
/// succeeds on a message of fewer than 6554 headers, the file's request is built too,
/// and holds the same parts.
pub proof fn law_file_request_agrees_with_reader(
    doc: Seq<char>,
    from_file: Result<http::Request<Vec<u8>>, RequestError>,
    read: Result<http::Request<Vec<u8>>, RequestError>,
)
    requires
        built_as_message(from_file, request_message(doc)),
        built_as_message(read, request_message(doc)),
    ensures
        builds_agree(from_file, read, request_message(doc)),
{
}

} // verus!
