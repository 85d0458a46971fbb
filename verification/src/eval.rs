//! Evaluating a request document: its expressions replaced by the texts of their
//! values, and the request it then describes.
use vstd::prelude::*;

use crate::parsing::message::{built_as_message, builds_agree, parse_request_http, request_message};
use crate::parsing::{RequestTokenizer, tokens};
use crate::request::error::RequestError;
use crate::runner::{expr_count, render_document, rendered};
use crate::space::Lapse;

verus! {

/// The texts of a list of values.
pub open spec fn texts(values: Seq<String>) -> Seq<Seq<char>> {
    values.map_values(|v: String| v@)
}

/// The document `doc` with each of its expressions replaced by the text of its
/// value: `values` holds one text per expression of `doc`, in order.
pub fn evaluate_document(doc: &str, values: &Vec<String>) -> (r: String)
    requires
        values.len() == expr_count(tokens(doc@)),
    ensures
        r@ == rendered(tokens(doc@), texts(values@)),
{
    let mut tokenizer = RequestTokenizer::new(doc);
    let toks = tokenizer.tokenize();
    render_document(&toks, values)
}

impl Lapse {
    /// The request that the document `req` describes once its expressions are
    /// evaluated (`values` holds the text of each expression's value, in order),
    /// built with `http` (see [`parse_request_http`]).
    pub fn resolve_request(&self, req: &str, values: &Vec<String>) -> (r: Result<
        http::Request<Vec<u8>>,
        RequestError,
    >)
        requires
            values.len() == expr_count(tokens(req@)),
        ensures
            built_as_message(r, request_message(rendered(tokens(req@), texts(values@)))),
    {
        let resolved = evaluate_document(req, values);
        parse_request_http(resolved)
    }
}

/// Resolving a request is reading the evaluated document: the request that
/// `resolve_request` gives for `req` and the values of its expressions agrees (see
/// [`builds_agree`]) with the one that [`parse_request_http`] reads from the text
/// that [`evaluate_document`] gives for them.
pub proof fn law_resolve_reads_the_evaluated_document(
    req: Seq<char>,
    values: Seq<String>,
    evaluated: Seq<char>,
    resolved: Result<http::Request<Vec<u8>>, RequestError>,
    read: Result<http::Request<Vec<u8>>, RequestError>,
)
    requires
        evaluated == rendered(tokens(req), texts(values)),
        built_as_message(resolved, request_message(rendered(tokens(req), texts(values)))),
        built_as_message(read, request_message(evaluated)),
    ensures
        builds_agree(resolved, read, request_message(evaluated)),
{
}

} // verus!
