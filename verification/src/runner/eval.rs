//! The grammar of an evaluated document: literal text, and `${...}` expressions
//! whose braces balance. A `$` that does not start such an expression is an error.
use vstd::prelude::*;

use crate::parsing::{RequestToken, TokenView};
use crate::runner::{expr_count, render_document, rendered, token_views};
use crate::text::{chars_of, string_of};

verus! {

/// A piece of a document: literal text, or the source of an expression.
pub type DocumentToken = RequestToken;

/// Where a document stops following the grammar.
#[derive(Debug, PartialEq, Eq)]
pub struct ParsingError {
    pub message: String,
    pub span: std::ops::Range<usize>,
}

/// Why a document could not be read.
#[derive(Debug, PartialEq, Eq)]
pub enum ParseErrorSummary {
    Syntax(Vec<ParsingError>),
}

/// The index of the `}` that closes an expression body read from `i` with `depth`
/// braces open inside it, or -1 when the text ends first.
pub open spec fn body_close(s: Seq<char>, i: int, depth: nat) -> int
    decreases s.len() - i,
{
    if i < 0 || i >= s.len() {
        -1
    } else if s[i] == '{' {
        body_close(s, i + 1, depth + 1)
    } else if s[i] == '}' {
        if depth == 0 {
            i
        } else {
            body_close(s, i + 1, (depth - 1) as nat)
        }
    } else {
        body_close(s, i + 1, depth)
    }
}

pub proof fn lemma_body_close(s: Seq<char>, i: int, depth: nat)
    requires
        0 <= i,
    ensures
        body_close(s, i, depth) == -1 || (i <= body_close(s, i, depth) < s.len() && s[body_close(
            s,
            i,
            depth,
        )] == '}'),
    decreases s.len() - i,
{
    if i < s.len() {
        if s[i] == '{' {
            lemma_body_close(s, i + 1, depth + 1);
        } else if s[i] == '}' {
            if depth > 0 {
                lemma_body_close(s, i + 1, (depth - 1) as nat);
            }
        } else {
            lemma_body_close(s, i + 1, depth);
        }
    }
}

/// The first index from `i` on that holds a `$`, or the length.
pub open spec fn dollar_at(s: Seq<char>, i: int) -> int
    decreases s.len() - i,
{
    if i < 0 || i >= s.len() {
        s.len() as int
    } else if s[i] == '$' {
        i
    } else {
        dollar_at(s, i + 1)
    }
}

pub proof fn lemma_dollar_at(s: Seq<char>, i: int)
    requires
        0 <= i <= s.len(),
    ensures
        i <= dollar_at(s, i) <= s.len(),
        dollar_at(s, i) < s.len() ==> s[dollar_at(s, i)] == '$',
    decreases s.len() - i,
{
    if i < s.len() && s[i] != '$' {
        lemma_dollar_at(s, i + 1);
    }
}

/// The expression that starts at `i`, when one does: its body and the index after
/// its closing `}`.
pub open spec fn expression_at(s: Seq<char>, i: int) -> Option<(Seq<char>, int)> {
    if 0 <= i && i + 1 < s.len() && s[i] == '$' && s[i + 1] == '{' && body_close(s, i + 2, 0) >= 0 {
        Some((s.subrange(i + 2, body_close(s, i + 2, 0)), body_close(s, i + 2, 0) + 1))
    } else {
        None
    }
}

/// The tokens of `s` from `i` on: each maximal run of text without `$`, and each
/// expression; `None` when a `$` starts no expression.
pub open spec fn document_from(s: Seq<char>, i: int) -> Option<Seq<TokenView>>
    decreases s.len() - i,
{
    if i < 0 || i >= s.len() {
        Some(Seq::empty())
    } else if s[i] == '$' {
        match expression_at(s, i) {
            None => None,
            Some((body, next)) => {
                proof {
                    lemma_body_close(s, i + 2, 0);
                }
                match document_from(s, next) {
                    None => None,
                    Some(rest) => Some(seq![TokenView::Expr(body)] + rest),
                }
            },
        }
    } else {
        proof {
            lemma_dollar_at(s, i);
        }
        let j = dollar_at(s, i);
        match document_from(s, j) {
            None => None,
            Some(rest) => Some(seq![TokenView::Text(s.subrange(i, j))] + rest),
        }
    }
}

/// The first index from `i` on where `document_from` gives up (the `$` that starts
/// no expression), or the length when it does not.
pub open spec fn failure_at(s: Seq<char>, i: int) -> int
    decreases s.len() - i,
{
    if i < 0 || i >= s.len() {
        s.len() as int
    } else if s[i] == '$' {
        match expression_at(s, i) {
            None => i,
            Some((_, next)) => {
                proof {
                    lemma_body_close(s, i + 2, 0);
                }
                failure_at(s, next)
            },
        }
    } else {
        proof {
            lemma_dollar_at(s, i);
        }
        failure_at(s, dollar_at(s, i))
    }
}

/// The index of the `}` closing the body read from `i`.
fn find_body_close(s: &Vec<char>, i: usize) -> (r: Option<usize>)
    requires
        i <= s.len(),
    ensures
        r is None <==> body_close(s@, i as int, 0) < 0,
        r matches Some(c) ==> c == body_close(s@, i as int, 0),
{
    proof {
        lemma_body_close(s@, i as int, 0);
    }
    let mut k = i;
    let mut depth: usize = 0;
    while k < s.len()
        invariant
            i <= k <= s.len(),
            depth <= k - i,
            body_close(s@, i as int, 0) == body_close(s@, k as int, depth as nat),
        decreases s.len() - k,
    {
        let c = s[k];
        if c == '{' {
            depth = depth + 1;
        } else if c == '}' {
            if depth == 0 {
                return Some(k);
            }
            depth = depth - 1;
        }
        k = k + 1;
    }
    None
}

/// The first index from `i` on that holds a `$`.
fn find_dollar(s: &Vec<char>, i: usize) -> (r: usize)
    requires
        i <= s.len(),
    ensures
        r == dollar_at(s@, i as int),
{
    let mut k = i;
    while k < s.len() && s[k] != '$'
        invariant
            i <= k <= s.len(),
            dollar_at(s@, i as int) == dollar_at(s@, k as int),
        decreases s.len() - k,
    {
        k = k + 1;
    }
    k
}

/// The error for a document that stops following the grammar at `at`.
fn syntax_error(at: usize, len: usize) -> (e: ParseErrorSummary)
    ensures
        e matches ParseErrorSummary::Syntax(v) && v@.len() == 1 && v@[0].span.start == at
            && v@[0].span.end == len,
{
    let mut v = Vec::new();
    v.push(ParsingError { message: "expected an expression `${...}` with balanced braces".to_owned(), span: at..len });
    ParseErrorSummary::Syntax(v)
}

/// Reads a document (see [`document_from`]): its tokens, or the error at the first
/// `$` that starts no expression.
pub fn parse_document(doc: &str) -> (r: Result<Vec<DocumentToken>, ParseErrorSummary>)
    ensures
        match document_from(doc@, 0) {
            Some(ts) => r matches Ok(v) && token_views(v@) == ts,
            None => r matches Err(ParseErrorSummary::Syntax(es)) && es@.len() == 1 && es@[0].span.start
                == failure_at(doc@, 0) && es@[0].span.end == doc@.len(),
        },
{
    let s = chars_of(doc);
    let ghost d = doc@;
    let mut out: Vec<DocumentToken> = Vec::new();
    let mut i: usize = 0;
    while i < s.len()
        invariant
            s@ == d,
            d == doc@,
            i <= s.len(),
            failure_at(d, 0) == failure_at(d, i as int),
            document_from(d, 0) == match document_from(d, i as int) {
                None => None,
                Some(rest) => Some(token_views(out@) + rest),
            },
        decreases s.len() - i,
    {
        let ghost before = out@;
        if s[i] == '$' {
            if i + 1 < s.len() && s[i + 1] == '{' {
                match find_body_close(&s, i + 2) {
                    Some(c) => {
                        proof {
                            lemma_body_close(d, i + 2, 0);
                        }
                        let body = string_of(&s, i + 2, c);
                        out.push(RequestToken::Expr(body));
                        proof {
                            assert(token_views(out@) =~= token_views(before).push(
                                TokenView::Expr(d.subrange(i + 2, c as int)),
                            ));
                            match document_from(d, c + 1) {
                                None => {},
                                Some(rest) => {
                                    assert(token_views(before) + (seq![
                                        TokenView::Expr(d.subrange(i + 2, c as int)),
                                    ] + rest) =~= token_views(out@) + rest);
                                },
                            }
                        }
                        i = c + 1;
                    },
                    None => {
                        proof {
                            assert(expression_at(d, i as int) is None);
                            assert(document_from(d, i as int) is None);
                            assert(failure_at(d, i as int) == i);
                            assert(document_from(d, 0) is None);
                            assert(failure_at(d, 0) == i);
                        }
                        return Err(syntax_error(i, s.len()));
                    },
                }
            } else {
                proof {
                    assert(expression_at(d, i as int) is None);
                    assert(document_from(d, i as int) is None);
                    assert(failure_at(d, i as int) == i);
                    assert(document_from(d, 0) is None);
                    assert(failure_at(d, 0) == i);
                }
                return Err(syntax_error(i, s.len()));
            }
        } else {
            proof {
                lemma_dollar_at(d, i as int);
            }
            let j = find_dollar(&s, i);
            let text = string_of(&s, i, j);
            out.push(RequestToken::String(text));
            proof {
                assert(token_views(out@) =~= token_views(before).push(
                    TokenView::Text(d.subrange(i as int, j as int)),
                ));
                match document_from(d, j as int) {
                    None => {},
                    Some(rest) => {
                        assert(token_views(before) + (seq![
                            TokenView::Text(d.subrange(i as int, j as int)),
                        ] + rest) =~= token_views(out@) + rest);
                    },
                }
            }
            i = j;
        }
    }
    proof {
        assert(token_views(out@) + Seq::<TokenView>::empty() =~= token_views(out@));
    }
    Ok(out)
}

/// Reads a text that is one expression, `${...}` and nothing after: its body.
pub fn parse_interpolated(s: &str) -> (r: Result<String, ParseErrorSummary>)
    ensures
        match expression_at(s@, 0) {
            Some((body, next)) => if next == s@.len() {
                r matches Ok(b) && b@ == body
            } else {
                r is Err
            },
            None => r is Err,
        },
{
    let c = chars_of(s);
    proof {
        if c@.len() >= 2 {
            lemma_body_close(c@, 2, 0);
        }
    }
    if c.len() >= 2 && c[0] == '$' && c[1] == '{' {
        match find_body_close(&c, 2) {
            Some(k) => {
                if k + 1 == c.len() {
                    return Ok(string_of(&c, 2, k));
                }
                return Err(syntax_error(k + 1, c.len()));
            },
            None => {
                return Err(syntax_error(c.len(), c.len()));
            },
        }
    }
    Err(syntax_error(0, c.len()))
}

/// A document with its expressions replaced by the texts of their values: `values`
/// holds one text per expression, in order. A document that does not follow the
/// grammar gives its error.
pub fn evaluate(doc: &str, values: &Vec<String>) -> (r: Result<String, ParseErrorSummary>)
    requires
        document_from(doc@, 0) matches Some(ts) ==> values.len() == expr_count(ts),
    ensures
        match document_from(doc@, 0) {
            Some(ts) => r matches Ok(t) && t@ == rendered(ts, values@.map_values(|v: String| v@)),
            None => r is Err,
        },
{
    let tokens = parse_document(doc)?;
    Ok(render_document(&tokens, values))
}

/// Each expression source written back as `${source}`.
pub open spec fn wrapped(es: Seq<Seq<char>>) -> Seq<Seq<char>> {
    es.map_values(|e: Seq<char>| seq!['$', '{'] + e + seq!['}'])
}

proof fn lemma_expr_count_concat(a: Seq<TokenView>, b: Seq<TokenView>)
    ensures
        expr_count(a + b) == expr_count(a) + expr_count(b),
    decreases b.len(),
{
    if b.len() == 0 {
        assert(a + b =~= a);
    } else {
        assert((a + b).drop_last() =~= a + b.drop_last());
        lemma_expr_count_concat(a, b.drop_last());
    }
}

proof fn lemma_expr_sources_concat(a: Seq<TokenView>, b: Seq<TokenView>)
    ensures
        crate::runner::session::expr_sources(a + b) == crate::runner::session::expr_sources(a)
            + crate::runner::session::expr_sources(b),
    decreases b.len(),
{
    if b.len() == 0 {
        assert(a + b =~= a);
        assert(crate::runner::session::expr_sources(a) + Seq::<Seq<char>>::empty()
            =~= crate::runner::session::expr_sources(a));
    } else {
        assert((a + b).drop_last() =~= a + b.drop_last());
        lemma_expr_sources_concat(a, b.drop_last());
        let x = crate::runner::session::expr_sources(a);
        let y = crate::runner::session::expr_sources(b.drop_last());
        let z = match b.last() {
            TokenView::Expr(e) => seq![e],
            TokenView::Text(_) => Seq::<Seq<char>>::empty(),
        };
        assert(x + y + z =~= x + (y + z));
    }
}

proof fn lemma_rendered_concat(a: Seq<TokenView>, b: Seq<TokenView>, vs: Seq<Seq<char>>)
    requires
        expr_count(a + b) <= vs.len(),
    ensures
        rendered(a + b, vs) == rendered(a, vs) + rendered(b, vs.skip(expr_count(a) as int)),
    decreases b.len(),
{
    if b.len() == 0 {
        assert(a + b =~= a);
        assert(rendered(a, vs) + Seq::<char>::empty() =~= rendered(a, vs));
    } else {
        assert((a + b).drop_last() =~= a + b.drop_last());
        lemma_expr_count_concat(a, b.drop_last());
        lemma_expr_count_concat(a, b);
        lemma_rendered_concat(a, b.drop_last(), vs);
        let tail = match b.last() {
            TokenView::Text(t) => t,
            TokenView::Expr(_) => vs[expr_count(a + b.drop_last()) as int],
        };
        let tail2 = match b.last() {
            TokenView::Text(t) => t,
            TokenView::Expr(_) => vs.skip(expr_count(a) as int)[expr_count(b.drop_last()) as int],
        };
        if b.last() is Expr {
            assert(expr_count(a + b) == expr_count(a + b.drop_last()) + 1);
            assert(tail == tail2);
        }
        assert(rendered(a, vs) + rendered(b.drop_last(), vs.skip(expr_count(a) as int)) + tail
            =~= rendered(a, vs) + (rendered(b.drop_last(), vs.skip(expr_count(a) as int)) + tail2));
    }
}

proof fn lemma_round_trip_from(s: Seq<char>, i: int)
    requires
        0 <= i <= s.len(),
        document_from(s, i) is Some,
    ensures
        ({
            let ts = document_from(s, i)->0;
            rendered(ts, wrapped(crate::runner::session::expr_sources(ts))) == s.skip(i)
        }),
    decreases s.len() - i,
{
    if i >= s.len() {
        assert(s.skip(i) =~= Seq::<char>::empty());
    } else if s[i] == '$' {
        lemma_body_close(s, i + 2, 0);
        let c = body_close(s, i + 2, 0);
        let body = s.subrange(i + 2, c);
        let rest = document_from(s, c + 1)->0;
        lemma_round_trip_from(s, c + 1);
        let head = seq![TokenView::Expr(body)];
        let ts = head + rest;
        assert(document_from(s, i)->0 == ts);
        lemma_expr_sources_concat(head, rest);
        assert(head.drop_last() =~= Seq::<TokenView>::empty());
        assert(head.last() == TokenView::Expr(body));
        assert(crate::runner::session::expr_sources(head.drop_last()) =~= Seq::<Seq<char>>::empty());
        assert(crate::runner::session::expr_sources(head) =~= seq![body]);
        crate::runner::session::lemma_expr_sources_len(ts);
        let vs = wrapped(crate::runner::session::expr_sources(ts));
        lemma_rendered_concat(head, rest, vs);
        assert(expr_count(head) == 1);
        assert(vs.skip(1) =~= wrapped(crate::runner::session::expr_sources(rest)));
        assert(expr_count(head.drop_last()) == 0);
        assert(rendered(head.drop_last(), vs) == Seq::<char>::empty());
        assert(Seq::<char>::empty() + vs[0] =~= vs[0]);
        assert(rendered(head, vs) == vs[0]);
        assert(vs[0] == seq!['$', '{'] + body + seq!['}']);
        assert(s.skip(i) =~= (seq!['$', '{'] + body + seq!['}']) + s.skip(c + 1));
    } else {
        lemma_dollar_at(s, i);
        let j = dollar_at(s, i);
        let rest = document_from(s, j)->0;
        lemma_round_trip_from(s, j);
        let head = seq![TokenView::Text(s.subrange(i, j))];
        let ts = head + rest;
        assert(document_from(s, i)->0 == ts);
        lemma_expr_sources_concat(head, rest);
        assert(head.drop_last() =~= Seq::<TokenView>::empty());
        assert(head.last() == TokenView::Text(s.subrange(i, j)));
        assert(crate::runner::session::expr_sources(head.drop_last()) =~= Seq::<Seq<char>>::empty());
        assert(crate::runner::session::expr_sources(head) =~= Seq::<Seq<char>>::empty());
        crate::runner::session::lemma_expr_sources_len(ts);
        assert(crate::runner::session::expr_sources(ts) =~= crate::runner::session::expr_sources(rest));
        let vs = wrapped(crate::runner::session::expr_sources(ts));
        lemma_rendered_concat(head, rest, vs);
        assert(expr_count(head.drop_last()) == 0);
        assert(rendered(head.drop_last(), vs) == Seq::<char>::empty());
        assert(Seq::<char>::empty() + s.subrange(i, j) =~= s.subrange(i, j));
        assert(expr_count(head) == 0);
        assert(vs.skip(0) =~= vs);
        assert(rendered(head, vs) == s.subrange(i, j));
        assert(s.skip(i) =~= s.subrange(i, j) + s.skip(j));
    }
}

/// Evaluation touches nothing but the expressions: a document that follows the
/// grammar, with each expression given its own source `${...}` as its value, comes
/// back unchanged.
pub proof fn law_evaluation_keeps_text(s: Seq<char>)
    requires
        document_from(s, 0) is Some,
    ensures
        ({
            let ts = document_from(s, 0)->0;
            rendered(ts, wrapped(crate::runner::session::expr_sources(ts))) == s
        }),
{
    lemma_round_trip_from(s, 0);
    assert(s.skip(0) =~= s);
}

} // verus!
