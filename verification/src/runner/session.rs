//! Running a request, step by step: the hooks before it, the evaluation of its
//! expressions, the sending, the hooks after it, and the result. The steps that need
//! the scripts runtime, the network or the clock are left to a driver, which reports
//! each outcome back as an event.
use vstd::prelude::*;

use crate::env::hook::EventMap;
use crate::map::OrderedMap;
use crate::parsing::TokenView;
use crate::request::error::RequestError;
use crate::request::parsing::readable::readable;
use crate::request::parsing::{RequestModel, parse_request_http, parsed_as_request, request_http, request_readable};
use crate::request::{ParsedRequest, graphql_method, multipart_name};
use crate::runner::eval::{DocumentToken, ParseErrorSummary, document_from, parse_document};
use crate::runner::{ExecutionResult, expr_count, render_document, rendered, token_views};

verus! {

/// Where a run stands.
#[derive(Clone, Copy, PartialEq, Eq, Structural, Debug)]
pub enum Stage {
    /// Running the `i`-th hook before the request.
    PreHooks(usize),
    /// Waiting for the values of the request's expressions.
    Evaluating,
    /// Waiting for the response.
    Sending,
    /// Running the `i`-th hook after the response.
    PostHooks(usize),
    /// Waiting for the time the run took.
    Measuring,
    /// Done, or failed.
    Over,
}

/// Why a run failed.
#[derive(Debug)]
pub enum RunError {
    /// The request document does not follow the grammar of expressions.
    Syntax(ParseErrorSummary),
    /// The evaluated document describes no request.
    Request(RequestError),
    /// The evaluated document cannot be read by single bytes where the reading
    /// needs it (see `request_readable`).
    Unreadable,
    /// An event came that the run was not waiting for.
    OutOfOrder,
}

/// What the driver reports.
pub enum RunEvent {
    /// The hook it was asked to run has run.
    HookDone,
    /// The texts of the values of the expressions it was asked to evaluate, in order.
    Evaluated(Vec<String>),
    /// The response to the request it was asked to send.
    Responded { status: u16, headers: OrderedMap<String>, text: String },
    /// The time since the run started, in nanoseconds.
    Elapsed(u128),
}

/// What the run asks of the driver next.
pub enum RunAction {
    /// Run this hook script.
    RunHook(String),
    /// Evaluate these expressions, in order.
    Evaluate(Vec<String>),
    /// Send this request.
    Send(ParsedRequest),
    /// Measure the time since the run started.
    Measure,
    /// The run is over, with this result.
    Done(ExecutionResult),
    /// The run failed.
    Fail(RunError),
}

/// A run of a request.
pub struct RequestRun {
    pub stage: Stage,
    /// The request document, before evaluation.
    pub document: String,
    /// The hooks to run before the request, and after the response.
    pub pre: Vec<String>,
    pub post: Vec<String>,
    /// The scheme given to a URL that has none.
    pub default_scheme: String,
    /// When the run started, in nanoseconds since the Unix epoch.
    pub timestamp: u128,
    /// The tokens of the document, once it has been read.
    pub tokens: Vec<DocumentToken>,
    /// The document after evaluation.
    pub resolved: String,
    /// The response, once it has come.
    pub status: u16,
    pub headers: OrderedMap<String>,
    pub text: String,
}

/// The sources of the expressions among the tokens, in order.
pub open spec fn expr_sources(ts: Seq<TokenView>) -> Seq<Seq<char>>
    decreases ts.len(),
{
    if ts.len() == 0 {
        Seq::empty()
    } else {
        expr_sources(ts.drop_last()) + match ts.last() {
            TokenView::Expr(e) => seq![e],
            TokenView::Text(_) => Seq::empty(),
        }
    }
}

pub proof fn lemma_expr_sources_len(ts: Seq<TokenView>)
    ensures
        expr_sources(ts).len() == expr_count(ts),
    decreases ts.len(),
{
    if ts.len() > 0 {
        lemma_expr_sources_len(ts.drop_last());
    }
}

/// The texts of a list of strings.
pub open spec fn strings(v: Seq<String>) -> Seq<Seq<char>> {
    v.map_values(|s: String| s@)
}

/// The hooks of an event, or none.
pub open spec fn hook_list(h: Option<Vec<String>>) -> Seq<String> {
    match h {
        Some(v) => v@,
        None => Seq::empty(),
    }
}

/// How a request a document describes is sent: a `MULTIPART` one as its form, a
/// `GRAPHQL` one as its body for query, any other as it is.
pub open spec fn sent_as(p: ParsedRequest, m: RequestModel) -> bool {
    match p {
        ParsedRequest::Multipart(r) => m.method == multipart_name() && r.url@ == m.url
            && r.headers.view_pairs() == m.headers && r.body.view_pairs() == m.form,
        ParsedRequest::GraphQL(r) => m.method == graphql_method() && r.url@ == m.url
            && r.headers.view_pairs() == m.headers && r.query@ == m.body,
        ParsedRequest::Http(r) => m.method != multipart_name() && m.method != graphql_method()
            && r.url@ == m.url && r.method@ == m.method && r.headers.view_pairs() == m.headers
            && r.body@ == m.body && r.form.view_pairs() == m.form,
    }
}

/// What does not change over a run.
pub open spec fn setup_kept(a: RequestRun, b: RequestRun) -> bool {
    &&& a.document == b.document
    &&& a.pre == b.pre
    &&& a.post == b.post
    &&& a.default_scheme == b.default_scheme
    &&& a.timestamp == b.timestamp
}

impl RequestRun {
    /// The hook indices stay within their lists.
    pub open spec fn valid(&self) -> bool {
        match self.stage {
            Stage::PreHooks(i) => i < self.pre@.len(),
            Stage::PostHooks(i) => i < self.post@.len(),
            _ => true,
        }
    }
}

/// The run has read its document: it evaluates its expressions, or fails when the
/// document does not follow the grammar.
pub open spec fn began_evaluating(s: RequestRun, a: RunAction) -> bool {
    match document_from(s.document@, 0) {
        None => s.stage == Stage::Over && a matches RunAction::Fail(RunError::Syntax(_)),
        Some(ts) => {
            &&& s.stage == Stage::Evaluating
            &&& token_views(s.tokens@) == ts
            &&& a matches RunAction::Evaluate(es) && strings(es@) == expr_sources(ts)
        },
    }
}

/// The run has the values of its expressions: it sends the request that the
/// evaluated document describes, or fails.
pub open spec fn sent(old: RequestRun, values: Seq<String>, s: RequestRun, a: RunAction) -> bool {
    let ts = token_views(old.tokens@);
    let doc = rendered(ts, strings(values));
    if values.len() != expr_count(ts) {
        s.stage == Stage::Over && a matches RunAction::Fail(RunError::OutOfOrder)
    } else if !request_readable(doc) {
        s.stage == Stage::Over && s.resolved@ == doc && a matches RunAction::Fail(RunError::Unreadable)
    } else {
        match request_http(doc, old.default_scheme@) {
            Err(f) => {
                &&& s.stage == Stage::Over
                &&& s.resolved@ == doc
                &&& a matches RunAction::Fail(RunError::Request(e)) && parsed_as_request(Err(e), Err(f))
            },
            Ok(m) => {
                &&& s.stage == Stage::Sending
                &&& s.resolved@ == doc
                &&& a matches RunAction::Send(p) && sent_as(p, m)
            },
        }
    }
}

/// The run has its response: it runs the hooks after it, then measures.
pub open spec fn began_post_hooks(s: RequestRun, a: RunAction) -> bool {
    if s.post@.len() > 0 {
        s.stage == Stage::PostHooks(0) && a == RunAction::RunHook(s.post@[0])
    } else {
        s.stage == Stage::Measuring && a is Measure
    }
}

/// The sources of the expressions among the tokens.
fn sources_of(tokens: &Vec<DocumentToken>) -> (r: Vec<String>)
    ensures
        strings(r@) == expr_sources(token_views(tokens@)),
{
    let ghost ts = token_views(tokens@);
    let mut r: Vec<String> = Vec::new();
    let mut i: usize = 0;
    proof {
        assert(ts.take(0) =~= Seq::<TokenView>::empty());
        assert(strings(r@) =~= Seq::<Seq<char>>::empty());
    }
    while i < tokens.len()
        invariant
            ts == token_views(tokens@),
            i <= tokens.len(),
            strings(r@) == expr_sources(ts.take(i as int)),
        decreases tokens.len() - i,
    {
        let ghost before = r@;
        proof {
            assert(ts.take(i + 1).drop_last() =~= ts.take(i as int));
            assert(ts.take(i + 1).last() == ts[i as int]);
        }
        match &tokens[i] {
            DocumentToken::Expr(e) => {
                r.push(e.clone());
                assert(strings(r@) =~= strings(before) + seq![e@]);
            },
            DocumentToken::String(_) => {
                assert(strings(r@) =~= strings(before) + Seq::<Seq<char>>::empty());
            },
        }
        i = i + 1;
    }
    proof {
        assert(ts.take(i as int) =~= ts);
    }
    r
}

impl RequestRun {
    /// Starts a run of the document `document` at `timestamp`, with the hooks of the
    /// current environment and the scheme for URLs without one: it first runs the
    /// hooks before the request, then evaluates the document.
    pub fn start(document: String, hooks: EventMap<Vec<String>>, default_scheme: String, timestamp: u128) -> (r: (
        RequestRun,
        RunAction,
    ))
        ensures
            r.0.valid(),
            r.0.document == document,
            r.0.pre@ == hook_list(hooks.pre_request),
            r.0.post@ == hook_list(hooks.post_request),
            r.0.default_scheme == default_scheme,
            r.0.timestamp == timestamp,
            r.0.pre@.len() > 0 ==> r.0.stage == Stage::PreHooks(0) && r.1 == RunAction::RunHook(
                r.0.pre@[0],
            ),
            r.0.pre@.len() == 0 ==> began_evaluating(r.0, r.1),
    {
        let EventMap { pre_request, post_request } = hooks;
        let pre = match pre_request {
            Some(v) => v,
            None => Vec::new(),
        };
        let post = match post_request {
            Some(v) => v,
            None => Vec::new(),
        };
        let mut run = RequestRun {
            stage: Stage::Over,
            document,
            pre,
            post,
            default_scheme,
            timestamp,
            tokens: Vec::new(),
            resolved: String::new(),
            status: 0,
            headers: OrderedMap::new(),
            text: String::new(),
        };
        if run.pre.len() > 0 {
            run.stage = Stage::PreHooks(0);
            let h = run.pre[0].clone();
            (run, RunAction::RunHook(h))
        } else {
            let a = run.begin_evaluating();
            (run, a)
        }
    }

    fn begin_evaluating(&mut self) -> (a: RunAction)
        ensures
            setup_kept(*old(self), *final(self)),
            final(self).valid(),
            began_evaluating(*final(self), a),
    {
        match parse_document(self.document.as_str()) {
            Err(e) => {
                self.stage = Stage::Over;
                RunAction::Fail(RunError::Syntax(e))
            },
            Ok(tokens) => {
                let sources = sources_of(&tokens);
                self.tokens = tokens;
                self.stage = Stage::Evaluating;
                RunAction::Evaluate(sources)
            },
        }
    }

    fn begin_post_hooks(&mut self) -> (a: RunAction)
        ensures
            setup_kept(*old(self), *final(self)),
            final(self).status == old(self).status,
            final(self).headers == old(self).headers,
            final(self).text == old(self).text,
            final(self).resolved == old(self).resolved,
            final(self).valid(),
            began_post_hooks(*final(self), a),
    {
        if self.post.len() > 0 {
            self.stage = Stage::PostHooks(0);
            RunAction::RunHook(self.post[0].clone())
        } else {
            self.stage = Stage::Measuring;
            RunAction::Measure
        }
    }

    fn send(&mut self, values: Vec<String>) -> (a: RunAction)
        ensures
            setup_kept(*old(self), *final(self)),
            final(self).valid(),
            sent(*old(self), values@, *final(self), a),
    {
        let ghost ts = token_views(self.tokens@);
        if values.len() != self.tokens_exprs() {
            self.stage = Stage::Over;
            return RunAction::Fail(RunError::OutOfOrder);
        }
        let resolved = render_document(&self.tokens, &values);
        self.resolved = resolved;
        if !readable(self.resolved.as_str()) {
            self.stage = Stage::Over;
            return RunAction::Fail(RunError::Unreadable);
        }
        match parse_request_http(self.resolved.as_str(), self.default_scheme.as_str()) {
            Err(e) => {
                self.stage = Stage::Over;
                RunAction::Fail(RunError::Request(e))
            },
            Ok(req) => {
                self.stage = Stage::Sending;
                RunAction::Send(ParsedRequest::from_request(req))
            },
        }
    }

    /// The number of expressions among the tokens.
    fn tokens_exprs(&self) -> (n: usize)
        ensures
            n == expr_count(token_views(self.tokens@)),
    {
        let ghost ts = token_views(self.tokens@);
        let mut n: usize = 0;
        let mut i: usize = 0;
        proof {
            assert(ts.take(0) =~= Seq::<TokenView>::empty());
        }
        while i < self.tokens.len()
            invariant
                ts == token_views(self.tokens@),
                i <= self.tokens.len(),
                n == expr_count(ts.take(i as int)),
                n <= i,
            decreases self.tokens.len() - i,
        {
            proof {
                assert(ts.take(i + 1).drop_last() =~= ts.take(i as int));
                assert(ts.take(i + 1).last() == ts[i as int]);
            }
            if let DocumentToken::Expr(_) = &self.tokens[i] {
                n = n + 1;
            }
            i = i + 1;
        }
        proof {
            assert(ts.take(i as int) =~= ts);
        }
        n
    }

    /// Takes the next event: what the run asks next, and where it then stands. An
    /// event the run was not waiting for ends it with `OutOfOrder`.
    pub fn step(&mut self, event: RunEvent) -> (a: RunAction)
        requires
            old(self).valid(),
        ensures
            setup_kept(*old(self), *final(self)),
            final(self).valid(),
            match (old(self).stage, event) {
                (Stage::PreHooks(i), RunEvent::HookDone) => if i + 1 < old(self).pre@.len() {
                    final(self).stage == Stage::PreHooks((i + 1) as usize) && a == RunAction::RunHook(
                        old(self).pre@[i + 1],
                    )
                } else {
                    began_evaluating(*final(self), a)
                },
                (Stage::Evaluating, RunEvent::Evaluated(values)) => sent(*old(self), values@, *final(self), a),
                (Stage::Sending, RunEvent::Responded { status, headers, text }) => final(self).status
                    == status && final(self).headers == headers && final(self).text == text
                    && began_post_hooks(*final(self), a),
                (Stage::PostHooks(i), RunEvent::HookDone) => if i + 1 < old(self).post@.len() {
                    final(self).stage == Stage::PostHooks((i + 1) as usize) && a == RunAction::RunHook(
                        old(self).post@[i + 1],
                    )
                } else {
                    final(self).stage == Stage::Measuring && a is Measure
                },
                (Stage::Measuring, RunEvent::Elapsed(d)) => {
                    &&& final(self).stage == Stage::Over
                    &&& a matches RunAction::Done(r) && r.text == old(self).text && r.status == old(
                        self,
                    ).status && r.headers == old(self).headers && r.timestamp == old(self).timestamp
                        && r.resolved_request == old(self).resolved && r.duration == d
                },
                _ => final(self).stage == Stage::Over && a matches RunAction::Fail(RunError::OutOfOrder),
            },
    {
        match (self.stage, event) {
            (Stage::PreHooks(i), RunEvent::HookDone) => {
                assert(i < self.pre.len());
                if i + 1 < self.pre.len() {
                    self.stage = Stage::PreHooks(i + 1);
                    RunAction::RunHook(self.pre[i + 1].clone())
                } else {
                    self.begin_evaluating()
                }
            },
            (Stage::Evaluating, RunEvent::Evaluated(values)) => self.send(values),
            (Stage::Sending, RunEvent::Responded { status, headers, text }) => {
                self.status = status;
                self.headers = headers;
                self.text = text;
                self.begin_post_hooks()
            },
            (Stage::PostHooks(i), RunEvent::HookDone) => {
                assert(i < self.post.len());
                if i + 1 < self.post.len() {
                    self.stage = Stage::PostHooks(i + 1);
                    RunAction::RunHook(self.post[i + 1].clone())
                } else {
                    self.stage = Stage::Measuring;
                    RunAction::Measure
                }
            },
            (Stage::Measuring, RunEvent::Elapsed(d)) => {
                self.stage = Stage::Over;
                let mut headers = OrderedMap::new();
                std::mem::swap(&mut headers, &mut self.headers);
                let result = ExecutionResult {
                    text: self.text.clone(),
                    status: self.status,
                    headers,
                    timestamp: self.timestamp,
                    resolved_request: self.resolved.clone(),
                    duration: d,
                };
                RunAction::Done(result)
            },
            _ => {
                self.stage = Stage::Over;
                RunAction::Fail(RunError::OutOfOrder)
            },
        }
    }
}

} // verus!
