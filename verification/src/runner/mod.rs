//! Running requests: the values that variables and expressions hold, the responses
//! that come back, and the assembling of an evaluated document.
use vstd::prelude::*;

use crate::env::config::EnvConfig;
use crate::map::OrderedMap;
use crate::space::Lapse;
use crate::parsing::{RequestToken, TokenView};
use crate::text::{append_chars, chars_of, decimal, decimal_chars, string_from};

pub mod eval;
pub mod session;
pub mod value;

verus! {

/// What running a request gave: the response's text, status and headers, when it
/// started (in nanoseconds since the Unix epoch), the request as it was sent after
/// evaluation, and how long it took (in nanoseconds).
#[derive(Debug, PartialEq, Eq)]
pub struct ExecutionResult {
    pub text: String,
    pub status: u16,
    pub headers: OrderedMap<String>,
    pub timestamp: u128,
    pub resolved_request: String,
    pub duration: u128,
}

impl Default for ExecutionResult {
    fn default() -> (r: ExecutionResult)
        ensures
            r.text@ == Seq::<char>::empty(),
            r.status == 0,
            r.headers.view() == Map::<Seq<char>, String>::empty(),
            r.timestamp == 0,
            r.resolved_request@ == Seq::<char>::empty(),
            r.duration == 0,
    {
        ExecutionResult {
            text: String::new(),
            status: 0,
            headers: OrderedMap::new(),
            timestamp: 0,
            resolved_request: String::new(),
            duration: 0,
        }
    }
}

/// The lines `name: value` of the headers from the `i`-th on, each ended by `\n`.
pub open spec fn header_block(ps: Seq<(Seq<char>, Seq<char>)>, i: int) -> Seq<char>
    decreases ps.len() - i,
{
    if i < 0 || i >= ps.len() {
        Seq::empty()
    } else {
        ps[i].0 + seq![':', ' '] + ps[i].1 + seq!['\n'] + header_block(ps, i + 1)
    }
}

/// How a response is shown: its status, its headers one per line, an empty line,
/// and its text, each line ended by `\n`.
pub open spec fn response_text(status: u16, headers: Seq<(Seq<char>, Seq<char>)>, text: Seq<char>) -> Seq<char> {
    decimal(status as nat) + seq!['\n'] + header_block(headers, 0) + seq!['\n'] + text + seq!['\n']
}

/// Writes a response (see [`response_text`]); the headers come in the order of
/// their names.
fn write_response(status: u16, headers: &OrderedMap<String>, text: &String) -> (r: String)
    ensures
        r@ == response_text(status, headers.view_pairs(), text@),
{
    let ghost ps = headers.view_pairs();
    let mut out = decimal_chars(status as u128);
    out.push('\n');
    let ghost start = out@;
    let n = headers.len();
    let mut i: usize = 0;
    while i < n
        invariant
            n == ps.len(),
            ps == headers.view_pairs(),
            i <= n,
            out@ + header_block(ps, i as int) == start + header_block(ps, 0),
        decreases n - i,
    {
        let (k, v) = headers.entry(i);
        assert(ps[i as int] == (k@, v@));
        let ghost before = out@;
        append_chars(&mut out, &chars_of(k.as_str()));
        out.push(':');
        out.push(' ');
        append_chars(&mut out, &chars_of(v.as_str()));
        out.push('\n');
        assert(out@ == before + (ps[i as int].0 + seq![':', ' '] + ps[i as int].1 + seq!['\n']));
        assert(header_block(ps, i as int) == (ps[i as int].0 + seq![':', ' '] + ps[i as int].1
            + seq!['\n']) + header_block(ps, i + 1));
        i = i + 1;
    }
    assert(header_block(ps, n as int) == Seq::<char>::empty());
    out.push('\n');
    append_chars(&mut out, &chars_of(text.as_str()));
    out.push('\n');
    assert(out@ =~= response_text(status, ps, text@));
    string_from(&out)
}

/// A response to a request: its text, status and headers, when it started and how
/// long it took (in nanoseconds).
#[derive(Debug, PartialEq, Eq)]
pub struct Response {
    pub text: String,
    pub status: u16,
    pub headers: OrderedMap<String>,
    pub timestamp: u128,
    pub duration: u128,
}

impl Response {
    /// The response as it is shown (see [`response_text`]).
    pub fn to_string(&self) -> (r: String)
        ensures
            r@ == response_text(self.status, self.headers.view_pairs(), self.text@),
    {
        write_response(self.status, &self.headers, &self.text)
    }
}

/// A response to a request: its text, status and headers.
#[derive(Debug, PartialEq, Eq)]
pub struct RunnerResponse {
    pub text: String,
    pub status: u16,
    pub headers: OrderedMap<String>,
}

impl RunnerResponse {
    /// The response as it is shown (see [`response_text`]).
    pub fn to_string(&self) -> (r: String)
        ensures
            r@ == response_text(self.status, self.headers.view_pairs(), self.text@),
    {
        write_response(self.status, &self.headers, &self.text)
    }
}

/// The number of expressions among the tokens.
pub open spec fn expr_count(ts: Seq<TokenView>) -> nat
    decreases ts.len(),
{
    if ts.len() == 0 {
        0
    } else {
        expr_count(ts.drop_last()) + (if ts.last() is Expr {
            1nat
        } else {
            0nat
        })
    }
}

/// A document put back together: each literal text as it is, each expression
/// replaced by the text of its value, the values taken in order.
pub open spec fn rendered(ts: Seq<TokenView>, values: Seq<Seq<char>>) -> Seq<char>
    decreases ts.len(),
{
    if ts.len() == 0 {
        Seq::empty()
    } else {
        rendered(ts.drop_last(), values) + match ts.last() {
            TokenView::Text(t) => t,
            TokenView::Expr(_) => values[expr_count(ts.drop_last()) as int],
        }
    }
}

/// The views of a token list.
pub open spec fn token_views(ts: Seq<RequestToken>) -> Seq<TokenView> {
    ts.map_values(|t: RequestToken| t@)
}

/// Puts an evaluated document together: the literal texts of `tokens`, with each
/// expression replaced by the text of its value (`values`, one per expression, in
/// order).
pub fn render_document(tokens: &Vec<RequestToken>, values: &Vec<String>) -> (r: String)
    requires
        values.len() == expr_count(token_views(tokens@)),
    ensures
        r@ == rendered(token_views(tokens@), values@.map_values(|v: String| v@)),
{
    let ghost ts = token_views(tokens@);
    let ghost vs = values@.map_values(|v: String| v@);
    let mut out: Vec<char> = Vec::new();
    let mut e: usize = 0;
    let mut i: usize = 0;
    proof {
        assert(ts.take(0) =~= Seq::<TokenView>::empty());
    }
    while i < tokens.len()
        invariant
            ts == token_views(tokens@),
            vs == values@.map_values(|v: String| v@),
            values.len() == expr_count(ts),
            i <= tokens.len(),
            e == expr_count(ts.take(i as int)),
            out@ == rendered(ts.take(i as int), vs),
        decreases tokens.len() - i,
    {
        let ghost before = ts.take(i as int);
        proof {
            assert(ts.take(i + 1).drop_last() =~= before);
            lemma_expr_count_prefix(ts, i + 1);
        }
        match &tokens[i] {
            RequestToken::String(t) => {
                append_chars(&mut out, &chars_of(t.as_str()));
            },
            RequestToken::Expr(_) => {
                append_chars(&mut out, &chars_of(values[e].as_str()));
                e = e + 1;
            },
        }
        i = i + 1;
    }
    proof {
        assert(ts.take(i as int) =~= ts);
    }
    string_from(&out)
}

/// The expressions of a prefix are no more than those of the whole.
proof fn lemma_expr_count_prefix(ts: Seq<TokenView>, n: int)
    requires
        0 <= n <= ts.len(),
    ensures
        expr_count(ts.take(n)) <= expr_count(ts),
        n > 0 && ts[n - 1] is Expr ==> expr_count(ts.take(n - 1)) < expr_count(ts),
    decreases ts.len() - n,
{
    if n < ts.len() {
        lemma_expr_count_prefix(ts, n + 1);
        assert(ts.take(n + 1).drop_last() =~= ts.take(n));
        if n > 0 {
            assert(ts.take(n).drop_last() =~= ts.take(n - 1));
            assert(ts.take(n).last() == ts[n - 1]);
        }
    } else {
        assert(ts.take(n) =~= ts);
        if n > 0 {
            assert(ts.take(n).drop_last() =~= ts.take(n - 1));
        }
    }
}

/// What scripts see of a space: the space and the settings of its environment.
pub struct LapseLuaApi {
    pub lapse: Lapse,
    pub config: EnvConfig,
}

impl LapseLuaApi {
    pub fn new(lapse: Lapse, config: EnvConfig) -> (r: Self)
        ensures
            r.lapse == lapse,
            r.config == config,
    {
        LapseLuaApi { lapse, config }
    }
}

} // verus!
