//! Splitting a request document into literal text and `${ ... }` expressions.
use vstd::prelude::*;

use crate::text::{chars_of, string_of};

pub mod message;

verus! {

/// A piece of a request document: literal text, or the source of an interpolated
/// expression (without its `${` and `}`).
#[derive(PartialEq, Eq, Debug)]
pub enum RequestToken {
    String(String),
    Expr(String),
}

/// What a [`RequestToken`] holds, as character sequences.
pub enum TokenView {
    Text(Seq<char>),
    Expr(Seq<char>),
}

impl View for RequestToken {
    type V = TokenView;

    open spec fn view(&self) -> TokenView {
        match self {
            RequestToken::String(s) => TokenView::Text(s@),
            RequestToken::Expr(e) => TokenView::Expr(e@),
        }
    }
}

/// Whether an expression `${` starts at index `i`.
pub open spec fn starts_expr(s: Seq<char>, i: int) -> bool {
    0 <= i && i + 1 < s.len() && s[i] == '$' && s[i + 1] == '{'
}

/// Where the literal text that starts at `i` ends: at the next `${`, or at the end.
pub open spec fn text_end(s: Seq<char>, i: int) -> int
    decreases s.len() - i,
{
    if i >= s.len() {
        s.len() as int
    } else if starts_expr(s, i) {
        i
    } else {
        text_end(s, i + 1)
    }
}

/// Reads an expression body from `i` at brace depth `depth` (at least 1): the text
/// kept, and the index just past the `}` that closes depth 1 (or the end of `s` when
/// none does). A `\` takes the character after it literally, out of the depth count.
pub open spec fn expr_scan(s: Seq<char>, i: int, depth: nat) -> (Seq<char>, int)
    decreases s.len() - i,
{
    if i < 0 || i >= s.len() {
        (Seq::empty(), s.len() as int)
    } else if s[i] == '\\' {
        if i + 1 < s.len() {
            let r = expr_scan(s, i + 2, depth);
            (seq![s[i + 1]] + r.0, r.1)
        } else {
            (Seq::empty(), s.len() as int)
        }
    } else if s[i] == '{' {
        let r = expr_scan(s, i + 1, depth + 1);
        (seq!['{'] + r.0, r.1)
    } else if s[i] == '}' {
        if depth <= 1 {
            (Seq::empty(), i + 1)
        } else {
            let r = expr_scan(s, i + 1, (depth - 1) as nat);
            (seq!['}'] + r.0, r.1)
        }
    } else {
        let r = expr_scan(s, i + 1, depth);
        (seq![s[i]] + r.0, r.1)
    }
}

pub proof fn lemma_expr_scan_end(s: Seq<char>, i: int, depth: nat)
    requires
        0 <= i,
    ensures
        i <= expr_scan(s, i, depth).1 <= s.len() || (i > s.len() && expr_scan(s, i, depth).1
            == s.len()),
    decreases s.len() - i,
{
    if i < s.len() {
        if s[i] == '\\' {
            if i + 1 < s.len() {
                lemma_expr_scan_end(s, i + 2, depth);
            }
        } else if s[i] == '{' {
            lemma_expr_scan_end(s, i + 1, depth + 1);
        } else if s[i] == '}' {
            if depth > 1 {
                lemma_expr_scan_end(s, i + 1, (depth - 1) as nat);
            }
        } else {
            lemma_expr_scan_end(s, i + 1, depth);
        }
    }
}

pub proof fn lemma_text_end(s: Seq<char>, i: int)
    requires
        0 <= i <= s.len(),
    ensures
        i <= text_end(s, i) <= s.len(),
        text_end(s, i) < s.len() ==> starts_expr(s, text_end(s, i)),
        forall|k: int| i <= k < text_end(s, i) ==> !starts_expr(s, k),
    decreases s.len() - i,
{
    if i < s.len() && !starts_expr(s, i) {
        lemma_text_end(s, i + 1);
    }
}

/// The tokens of `s` from index `i` on: each maximal run of literal text (when not
/// empty), then the expression that follows it, and so on.
pub open spec fn tokens_from(s: Seq<char>, i: int) -> Seq<TokenView>
    decreases s.len() - i,
{
    if i < 0 || i >= s.len() {
        Seq::empty()
    } else {
        let j = text_end(s, i);
        let head = if j > i {
            seq![TokenView::Text(s.subrange(i, j))]
        } else {
            Seq::empty()
        };
        if j >= s.len() {
            head
        } else {
            proof {
                lemma_text_end(s, i);
                lemma_expr_scan_end(s, j + 2, 1);
            }
            let e = expr_scan(s, j + 2, 1);
            head + seq![TokenView::Expr(e.0)] + tokens_from(s, e.1)
        }
    }
}

/// A document with no `${` in it is one literal text, whatever `$`, braces or
/// backslashes it holds.
pub proof fn law_plain_text_is_one_token(s: Seq<char>)
    requires
        s.len() > 0,
        forall|i: int| 0 <= i < s.len() ==> !starts_expr(s, i),
    ensures
        tokens_from(s, 0) == seq![TokenView::Text(s)],
{
    lemma_text_end(s, 0);
    assert(text_end(s, 0) == s.len()) by {
        if text_end(s, 0) < s.len() {
            assert(starts_expr(s, text_end(s, 0)));
        }
    }
    assert(s.subrange(0, s.len() as int) =~= s);
}

/// The tokens of a whole document.
pub open spec fn tokens(s: Seq<char>) -> Seq<TokenView> {
    tokens_from(s, 0)
}

/// Whether the expression body read from `i` at brace depth `depth` is closed by a
/// `}` before the end of `s` (see [`expr_scan`]).
pub open spec fn scan_closes(s: Seq<char>, i: int, depth: nat) -> bool
    decreases s.len() - i,
{
    if i < 0 || i >= s.len() {
        false
    } else if s[i] == '\\' {
        i + 1 < s.len() && scan_closes(s, i + 2, depth)
    } else if s[i] == '{' {
        scan_closes(s, i + 1, depth + 1)
    } else if s[i] == '}' {
        depth <= 1 || scan_closes(s, i + 1, (depth - 1) as nat)
    } else {
        scan_closes(s, i + 1, depth)
    }
}

/// Whether every expression of `s` from index `i` on is closed.
pub open spec fn exprs_closed_from(s: Seq<char>, i: int) -> bool
    decreases s.len() - i,
{
    if i < 0 || i >= s.len() {
        true
    } else {
        let j = text_end(s, i);
        if j >= s.len() {
            true
        } else {
            proof {
                lemma_text_end(s, i);
                lemma_expr_scan_end(s, j + 2, 1);
            }
            scan_closes(s, j + 2, 1) && exprs_closed_from(s, expr_scan(s, j + 2, 1).1)
        }
    }
}

/// Whether every expression of a document is closed.
pub open spec fn exprs_closed(s: Seq<char>) -> bool {
    exprs_closed_from(s, 0)
}

/// A token written back: a text as it is, an expression between `${` and `}`.
pub open spec fn render_token(t: TokenView) -> Seq<char> {
    match t {
        TokenView::Text(x) => x,
        TokenView::Expr(e) => seq!['$', '{'] + e + seq!['}'],
    }
}

/// Tokens written back one after the other.
pub open spec fn render_tokens(ts: Seq<TokenView>) -> Seq<char>
    decreases ts.len(),
{
    if ts.len() == 0 {
        Seq::empty()
    } else {
        render_token(ts[0]) + render_tokens(ts.drop_first())
    }
}

proof fn lemma_render_concat(a: Seq<TokenView>, b: Seq<TokenView>)
    ensures
        render_tokens(a + b) == render_tokens(a) + render_tokens(b),
    decreases a.len(),
{
    if a.len() == 0 {
        assert(a + b =~= b);
    } else {
        lemma_render_concat(a.drop_first(), b);
        assert((a + b).drop_first() =~= a.drop_first() + b);
        assert(render_tokens(a + b) =~= render_token(a[0]) + render_tokens(a.drop_first() + b));
    }
}

/// Without backslashes, a closed expression body is the text up to its closing `}`.
proof fn lemma_closed_scan(s: Seq<char>, i: int, depth: nat)
    requires
        0 <= i,
        forall|k: int| 0 <= k < s.len() ==> s[k] != '\\',
        scan_closes(s, i, depth),
    ensures
        i < expr_scan(s, i, depth).1 <= s.len(),
        expr_scan(s, i, depth).0 + seq!['}'] == s.subrange(i, expr_scan(s, i, depth).1),
    decreases s.len() - i,
{
    let r = expr_scan(s, i, depth);
    if s[i] == '{' {
        lemma_closed_scan(s, i + 1, depth + 1);
        assert(r.0 + seq!['}'] =~= seq![s[i]] + (expr_scan(s, i + 1, depth + 1).0 + seq!['}']));
        assert(s.subrange(i, r.1) =~= seq![s[i]] + s.subrange(i + 1, r.1));
    } else if s[i] == '}' {
        if depth <= 1 {
            assert(s.subrange(i, i + 1) =~= seq!['}']);
            assert(r.0 + seq!['}'] =~= seq!['}']);
        } else {
            lemma_closed_scan(s, i + 1, (depth - 1) as nat);
            assert(r.0 + seq!['}'] =~= seq![s[i]] + (expr_scan(s, i + 1, (depth - 1) as nat).0
                + seq!['}']));
            assert(s.subrange(i, r.1) =~= seq![s[i]] + s.subrange(i + 1, r.1));
        }
    } else {
        lemma_closed_scan(s, i + 1, depth);
        assert(r.0 + seq!['}'] =~= seq![s[i]] + (expr_scan(s, i + 1, depth).0 + seq!['}']));
        assert(s.subrange(i, r.1) =~= seq![s[i]] + s.subrange(i + 1, r.1));
    }
}

proof fn lemma_render_from(s: Seq<char>, i: int)
    requires
        0 <= i <= s.len(),
        forall|k: int| 0 <= k < s.len() ==> s[k] != '\\',
        exprs_closed_from(s, i),
    ensures
        render_tokens(tokens_from(s, i)) == s.subrange(i, s.len() as int),
    decreases s.len() - i,
{
    if i < s.len() {
        lemma_text_end(s, i);
        let j = text_end(s, i);
        let head = if j > i {
            seq![TokenView::Text(s.subrange(i, j))]
        } else {
            Seq::empty()
        };
        assert(render_tokens(head) == s.subrange(i, j)) by {
            if j > i {
                assert(render_tokens(head) =~= s.subrange(i, j) + render_tokens(head.drop_first()));
            } else {
                assert(s.subrange(i, j) =~= Seq::<char>::empty());
            }
        }
        if j >= s.len() {
            assert(tokens_from(s, i) == head);
        } else {
            let e = expr_scan(s, j + 2, 1);
            lemma_closed_scan(s, j + 2, 1);
            lemma_render_from(s, e.1);
            let ex = seq![TokenView::Expr(e.0)];
            assert(tokens_from(s, i) == head + ex + tokens_from(s, e.1));
            lemma_render_concat(head + ex, tokens_from(s, e.1));
            lemma_render_concat(head, ex);
            assert(render_tokens(ex) =~= render_token(TokenView::Expr(e.0)) + render_tokens(
                ex.drop_first(),
            ));
            assert(ex.drop_first().len() == 0);
            assert(render_tokens(ex.drop_first()) =~= Seq::<char>::empty());
            assert(starts_expr(s, j));
            assert(s.subrange(j, e.1) =~= seq!['$', '{'] + s.subrange(j + 2, e.1));
            assert(render_tokens(ex) =~= s.subrange(j, e.1));
            assert(s.subrange(i, s.len() as int) =~= s.subrange(i, j) + s.subrange(j, e.1)
                + s.subrange(e.1, s.len() as int));
        }
    }
}

/// Writing a document's tokens back, each text as it is and each expression between
/// `${` and `}`, gives the document again, when it holds no backslash and every
/// expression in it is closed.
pub proof fn law_tokens_render_back(s: Seq<char>)
    requires
        forall|k: int| 0 <= k < s.len() ==> s[k] != '\\',
        exprs_closed(s),
    ensures
        render_tokens(tokens(s)) == s,
{
    lemma_render_from(s, 0);
    assert(s.subrange(0, s.len() as int) =~= s);
}

/// Splits a document into [`RequestToken`]s.
pub struct RequestTokenizer {
    src: Vec<char>,
    pos: usize,
}

impl RequestTokenizer {
    /// The characters being tokenized.
    pub closed spec fn source(&self) -> Seq<char> {
        self.src@
    }

    /// The index of the next character to read.
    pub closed spec fn position(&self) -> int {
        self.pos as int
    }

    #[verifier::type_invariant]
    closed spec fn inv(&self) -> bool {
        self.pos <= self.src.len()
    }

    pub fn new(src: &str) -> (r: Self)
        ensures
            r.source() == src@,
            r.position() == 0,
    {
        Self { src: chars_of(src), pos: 0 }
    }

    /// The tokens of the rest of the document, in order; the tokenizer ends at its end.
    pub fn tokenize(&mut self) -> (tokens: Vec<RequestToken>)
        ensures
            tokens@.map_values(|t: RequestToken| t@) == tokens_from(
                old(self).source(),
                old(self).position(),
            ),
            final(self).source() == old(self).source(),
            final(self).position() == old(self).source().len(),
    {
        proof {
            use_type_invariant(&*self);
        }
        let ghost s = self.src@;
        let ghost start = self.pos as int;
        let mut tokens: Vec<RequestToken> = Vec::new();
        loop
            invariant
                self.src@ == s,
                s == old(self).source(),
                start == old(self).position(),
                start <= self.pos <= s.len(),
                tokens@.map_values(|t: RequestToken| t@) + tokens_from(s, self.pos as int)
                    == tokens_from(s, start),
            decreases s.len() - self.pos,
        {
            proof {
                use_type_invariant(&*self);
            }
            let ghost i = self.pos as int;
            let ghost before = tokens@;
            let string = self.consume_string();
            let ghost j = self.pos as int;
            proof {
                lemma_text_end(s, i);
            }
            if !string.as_str().is_empty() {
                tokens.push(RequestToken::String(string));
            }
            assert(tokens@.map_values(|t: RequestToken| t@) == before.map_values(
                |t: RequestToken| t@,
            ) + (if j > i {
                seq![TokenView::Text(s.subrange(i, j))]
            } else {
                Seq::empty()
            }));
            if self.peek().is_none() {
                assert(tokens_from(s, self.pos as int) == Seq::<TokenView>::empty());
                assert(tokens@.map_values(|t: RequestToken| t@) + Seq::<TokenView>::empty()
                    == tokens@.map_values(|t: RequestToken| t@));
                return tokens;
            }
            proof {
                lemma_expr_scan_end(s, j + 2, 1);
            }
            let ghost mid = tokens@;
            let expr = self.consume_expr();
            tokens.push(RequestToken::Expr(expr));
            assert(tokens@.map_values(|t: RequestToken| t@) == mid.map_values(
                |t: RequestToken| t@,
            ).push(TokenView::Expr(expr_scan(s, j + 2, 1).0)));
        }
    }

    /// Reads an expression: the position is at the `$` of a `${`, and ends just past
    /// the `}` that closes it (or at the end of the document).
    fn consume_expr(&mut self) -> (content: String)
        requires
            starts_expr(old(self).source(), old(self).position()),
        ensures
            final(self).source() == old(self).source(),
            content@ == expr_scan(old(self).source(), old(self).position() + 2, 1).0,
            final(self).position() == expr_scan(old(self).source(), old(self).position() + 2, 1).1,
    {
        proof {
            use_type_invariant(&*self);
        }
        let ghost s = self.src@;
        let ghost start = self.pos + 2;
        self.bump();
        self.bump();
        let mut content: Vec<char> = Vec::new();
        let mut depth: usize = 1;
        proof {
            lemma_expr_scan_end(s, start, 1);
        }
        while self.pos < self.src.len()
            invariant_except_break
                self.src@ == s,
                start <= self.pos <= s.len(),
                start >= 2,
                1 <= depth <= self.pos - start + 1,
                content@ + expr_scan(s, self.pos as int, depth as nat).0 == expr_scan(
                    s,
                    start,
                    1,
                ).0,
                expr_scan(s, self.pos as int, depth as nat).1 == expr_scan(s, start, 1).1,
            ensures
                self.src@ == s,
                content@ == expr_scan(s, start, 1).0,
                self.pos == expr_scan(s, start, 1).1,
            decreases s.len() - self.pos,
        {
            proof {
                use_type_invariant(&*self);
            }
            let c = self.src[self.pos];
            let ghost i = self.pos as int;
            if c == '\\' {
                self.bump();
                if self.pos < self.src.len() {
                    let escaped = self.src[self.pos];
                    content.push(escaped);
                    self.bump();
                    assert(expr_scan(s, i, depth as nat).0 == seq![escaped] + expr_scan(
                        s,
                        i + 2,
                        depth as nat,
                    ).0);
                } else {
                    assert(content@ + Seq::<char>::empty() == content@);
                }
            } else if c == '{' {
                depth = depth + 1;
                content.push(c);
                self.bump();
            } else if c == '}' {
                self.bump();
                if depth == 1 {
                    assert(content@ + Seq::<char>::empty() == content@);
                    break;
                }
                depth = depth - 1;
                content.push(c);
            } else {
                content.push(c);
                self.bump();
            }
        }
        string_of(&content, 0, content.len())
    }

    /// Reads literal text up to the next `${` or the end of the document.
    fn consume_string(&mut self) -> (content: String)
        ensures
            final(self).source() == old(self).source(),
            final(self).position() == text_end(old(self).source(), old(self).position()),
            content@ == old(self).source().subrange(
                old(self).position(),
                text_end(old(self).source(), old(self).position()),
            ),
    {
        proof {
            use_type_invariant(&*self);
        }
        let start = self.pos;
        while self.pos < self.src.len()
            invariant_except_break
                start <= self.pos <= self.src.len(),
                self.src@ == old(self).src@,
                text_end(self.src@, self.pos as int) == text_end(self.src@, start as int),
            ensures
                self.src@ == old(self).src@,
                start <= self.pos <= self.src.len(),
                self.pos == text_end(self.src@, start as int),
            decreases self.src.len() - self.pos,
        {
            let c = self.src[self.pos];
            if c == '$' && self.peek_at(1) == Some('{') {
                break;
            }
            self.bump();
        }
        string_of(&self.src, start, self.pos)
    }

    /// The character at the position, if any.
    fn peek(&self) -> (c: Option<char>)
        ensures
            c == (if self.position() < self.source().len() {
                Some(self.source()[self.position()])
            } else {
                None
            }),
    {
        proof {
            use_type_invariant(self);
        }
        if self.pos < self.src.len() {
            Some(self.src[self.pos])
        } else {
            None
        }
    }

    /// The character `n` places after the position, if any.
    fn peek_at(&self, n: usize) -> (c: Option<char>)
        ensures
            c == (if self.position() + n < self.source().len() {
                Some(self.source()[self.position() + n])
            } else {
                None
            }),
    {
        proof {
            use_type_invariant(self);
        }
        if n < self.src.len() - self.pos {
            Some(self.src[self.pos + n])
        } else {
            None
        }
    }

    /// Moves past the character at the position, returning it.
    fn bump(&mut self) -> (c: Option<char>)
        ensures
            final(self).source() == old(self).source(),
            c == (if old(self).position() < old(self).source().len() {
                Some(old(self).source()[old(self).position()])
            } else {
                None
            }),
            final(self).position() == (if old(self).position() < old(self).source().len() {
                old(self).position() + 1
            } else {
                old(self).position()
            }),
    {
        proof {
            use_type_invariant(&*self);
        }
        let c = self.peek()?;
        self.pos = self.pos + 1;
        Some(c)
    }
}

} // verus!
