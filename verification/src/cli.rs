//! The command line: its commands and options, and how its output is laid out and
//! coloured.
use vstd::prelude::*;

use crate::log::ResponseLog;
use crate::map::OrderedMap;
use crate::text::{decimal, decimal_chars, string_views};
use nucleo_matcher::pattern::{CaseMatching, Normalization, Pattern};
use crate::text::{chars_of, first_from, lines, char_pred, slice_of, split_lines, string_from, lemma_first_from};

verus! {

/// A preset to fill a new space with.
#[derive(Clone, Copy, PartialEq, Eq, Structural, Debug)]
pub enum AvailablePreset {
    Httpbin,
}

/// A shell to write a completion script for.
#[derive(Clone, Copy, PartialEq, Eq, Structural, Debug)]
pub enum CliCompletionShell {
    Bash,
    Elvish,
    Zsh,
    Fish,
    Powershell,
}

/// The environment commands.
#[derive(Debug, PartialEq, Eq)]
pub enum EnvCommand {
    /// Switches to another environment.
    Switch { name: Option<String> },
    /// Leaves the current environment.
    Unset,
    /// Lists the environments.
    Ls { path: Option<String> },
}

/// The script commands.
#[derive(Debug, PartialEq, Eq)]
pub enum ScriptCommand {
    /// Runs a script.
    Run { script: Option<String> },
    /// Lists the scripts.
    Ls { path: Option<String> },
}

/// The settings commands.
#[derive(Debug, PartialEq, Eq)]
pub enum ConfigCommand {
    /// Shows a setting.
    Get { key: String },
    /// Stores a setting.
    Assign { key: String, value: String },
}

/// A command.
#[derive(Debug, PartialEq, Eq)]
pub enum Command {
    /// Makes the current directory a space.
    Init { preset: Option<AvailablePreset>, schema: Option<String> },
    /// Lists the requests.
    Ls { path: Option<String> },
    /// Sends a request: showing only the response's body, or only the evaluated
    /// request without sending it.
    Send { request: Option<String>, body: bool, dry_run: bool },
    /// Runs a script.
    Run { script: Option<String> },
    /// Shows the logged responses.
    Log { entry: Option<usize> },
    /// Writes a completion script.
    Completion { shell: CliCompletionShell },
    Env(EnvCommand),
    Script(ScriptCommand),
    Config(ConfigCommand),
}

/// The command line as given.
#[derive(Debug, PartialEq, Eq)]
pub struct Cli {
    pub command: Command,
}

/// The colours the output uses.
#[derive(Clone, Copy, PartialEq, Eq, Structural, Debug)]
pub enum ColorName {
    Green,
    Red,
    Blue,
    Yellow,
    White,
}

/// The colour a response status is shown in: green for success, red for the common
/// failures, blue for any other.
pub open spec fn status_color_of(status: u16) -> ColorName {
    if status == 200 || status == 201 || status == 204 {
        ColorName::Green
    } else if status == 500 || status == 503 || status == 400 || status == 404 || status == 403
        || status == 401 {
        ColorName::Red
    } else {
        ColorName::Blue
    }
}

pub fn status_color(status: u16) -> (c: ColorName)
    ensures
        c == status_color_of(status),
{
    if status == 200 || status == 201 || status == 204 {
        ColorName::Green
    } else if status == 500 || status == 503 || status == 400 || status == 404 || status == 403
        || status == 401 {
        ColorName::Red
    } else {
        ColorName::Blue
    }
}

/// How response statuses are coloured: the successes 200, 201 and 204 green; the
/// client and server errors 400, 401, 403, 404, 500 and 503 red; every other status
/// blue.
pub proof fn law_status_colors(status: u16)
    ensures
        (status_color_of(status) == ColorName::Green) <==> (status == 200 || status == 201 || status
            == 204),
        (status_color_of(status) == ColorName::Red) <==> (status == 400 || status == 401 || status
            == 403 || status == 404 || status == 500 || status == 503),
        (status_color_of(status) == ColorName::Blue) <==> !(status == 200 || status == 201 || status
            == 204 || status == 400 || status == 401 || status == 403 || status == 404 || status
            == 500 || status == 503),
{
}

/// The colour a method is shown in.
pub open spec fn method_color_of(method: Seq<char>) -> ColorName {
    if method == seq!['G', 'E', 'T'] {
        ColorName::Green
    } else if method == seq!['D', 'E', 'L', 'E', 'T', 'E'] {
        ColorName::Red
    } else if method == seq!['P', 'O', 'S', 'T'] {
        ColorName::Blue
    } else if method == seq!['P', 'A', 'T', 'C', 'H'] || method == seq!['P', 'U', 'T'] {
        ColorName::Yellow
    } else {
        ColorName::White
    }
}

pub fn method_color(method: &str) -> (c: ColorName)
    ensures
        c == method_color_of(method@),
{
    let m = chars_of(method);
    proof {
        reveal_strlit("GET");
        reveal_strlit("DELETE");
        reveal_strlit("POST");
        reveal_strlit("PATCH");
        reveal_strlit("PUT");
        assert("GET"@ =~= seq!['G', 'E', 'T']);
        assert("DELETE"@ =~= seq!['D', 'E', 'L', 'E', 'T', 'E']);
        assert("POST"@ =~= seq!['P', 'O', 'S', 'T']);
        assert("PATCH"@ =~= seq!['P', 'A', 'T', 'C', 'H']);
        assert("PUT"@ =~= seq!['P', 'U', 'T']);
    }
    if crate::text::chars_eq_str(&m, "GET") {
        ColorName::Green
    } else if crate::text::chars_eq_str(&m, "DELETE") {
        ColorName::Red
    } else if crate::text::chars_eq_str(&m, "POST") {
        ColorName::Blue
    } else if crate::text::chars_eq_str(&m, "PATCH") || crate::text::chars_eq_str(&m, "PUT") {
        ColorName::Yellow
    } else {
        ColorName::White
    }
}

/// The first line of a text, or nothing for a text without lines.
pub open spec fn first_line(s: Seq<char>) -> Seq<char> {
    if lines(s).len() > 0 {
        lines(s)[0]
    } else {
        Seq::empty()
    }
}

/// The method and URL of a request's first line: the text before and after its
/// first space, when it has one.
pub open spec fn request_head(s: Seq<char>) -> Option<(Seq<char>, Seq<char>)> {
    let l = first_line(s);
    let k = first_from(l, 0, char_pred(' '));
    if k < l.len() {
        Some((l.take(k), l.skip(k + 1)))
    } else {
        None
    }
}

/// A logged response shown on one line: the method and URL of its request.
pub struct InlineLogEntry(pub ResponseLog);

impl InlineLogEntry {
    /// The method and URL shown for the entry (see [`request_head`]); nothing is
    /// shown when the request's first line holds no space.
    pub fn head(&self) -> (r: Option<(String, String)>)
        ensures
            match request_head(self.0.result.resolved_request@) {
                Some((m, u)) => r matches Some((a, b)) && a@ == m && b@ == u,
                None => r is None,
            },
    {
        let c = chars_of(self.0.result.resolved_request.as_str());
        let ls = split_lines(&c);
        let l: Vec<char> = if ls.len() > 0 {
            slice_of(&ls[0], 0, ls[0].len())
        } else {
            Vec::new()
        };
        assert(l@ =~= first_line(self.0.result.resolved_request@));
        let k = crate::text::next_char(&l, 0, ' ');
        proof {
            lemma_first_from(l@, 0, char_pred(' '));
        }
        if k < l.len() {
            let m = string_from(&slice_of(&l, 0, k));
            let u = string_from(&slice_of(&l, k + 1, l.len()));
            assert(m@ =~= l@.take(k as int));
            assert(u@ =~= l@.skip(k + 1));
            Some((m, u))
        } else {
            None
        }
    }
}

/// A logged response shown in full.
pub struct DetailedLogEntry(pub ResponseLog);

impl DetailedLogEntry {
    /// How long the request took, in whole milliseconds.
    pub fn duration_millis(&self) -> (r: u128)
        ensures
            r == self.0.result.duration / 1_000_000,
    {
        self.0.result.duration / 1_000_000
    }

    /// The colour the status is shown in.
    pub fn status_color(&self) -> (c: ColorName)
        ensures
            c == status_color_of(self.0.result.status),
    {
        status_color(self.0.result.status)
    }

    /// The entry as styled pieces of text (see [`detailed_segments`]), with the date
    /// as the caller formats it.
    pub fn segments(&self, date: &str) -> (r: Vec<(String, Style)>)
        ensures
            segment_views(r@) == detailed_segments(
                match self.0.request {
                    Some(q) => q@,
                    None => Seq::empty(),
                },
                date@,
                (self.0.result.duration / 1_000_000) as nat,
                self.0.result.status,
                self.0.result.headers.view_pairs(),
                self.0.result.text@,
            ),
    {
        let mut out: Vec<(String, Style)> = Vec::new();
        let request = match &self.0.request {
            Some(q) => q.clone(),
            None => String::new(),
        };
        let millis = string_from(&decimal_chars(self.duration_millis()));
        let status = string_from(&decimal_chars(self.0.result.status as u128));
        out.push(("Request".to_owned(), Style::Black));
        out.push((" ".to_owned(), Style::Plain));
        out.push((request, Style::Green));
        out.push(("\n".to_owned(), Style::Plain));
        out.push(("Date:".to_owned(), Style::Black));
        out.push((" ".to_owned(), Style::Plain));
        out.push((date.to_owned(), Style::Cyan));
        out.push(("\n".to_owned(), Style::Plain));
        out.push(("Duration:".to_owned(), Style::Black));
        out.push((" ".to_owned(), Style::Plain));
        out.push((millis, Style::Purple));
        out.push(("ms".to_owned(), Style::Purple));
        out.push(("\n".to_owned(), Style::Plain));
        out.push(("Status:".to_owned(), Style::Black));
        out.push((" ".to_owned(), Style::Plain));
        out.push((status, Style::Paint(status_color(self.0.result.status))));
        out.push(("\n\n".to_owned(), Style::Plain));
        out.push(("Headers".to_owned(), Style::Red));
        out.push(("\n\n".to_owned(), Style::Plain));
        proof {
            reveal_strlit("Request");
            reveal_strlit(" ");
            reveal_strlit("\n");
            reveal_strlit("Date:");
            reveal_strlit("Duration:");
            reveal_strlit("ms");
            reveal_strlit("Status:");
            reveal_strlit("\n\n");
            reveal_strlit("Headers");
            assert("Request"@ =~= seq!['R', 'e', 'q', 'u', 'e', 's', 't']);
            assert(" "@ =~= seq![' ']);
            assert("\n"@ =~= seq!['\n']);
            assert("Date:"@ =~= seq!['D', 'a', 't', 'e', ':']);
            assert("Duration:"@ =~= seq!['D', 'u', 'r', 'a', 't', 'i', 'o', 'n', ':']);
            assert("ms"@ =~= seq!['m', 's']);
            assert("Status:"@ =~= seq!['S', 't', 'a', 't', 'u', 's', ':']);
            assert("\n\n"@ =~= seq!['\n', '\n']);
            assert("Headers"@ =~= seq!['H', 'e', 'a', 'd', 'e', 'r', 's']);
        }
        let ghost head = segment_views(out@);
        proof {
            let nl = seq!['\n'];
            assert(head =~= seq![
                (seq!['R', 'e', 'q', 'u', 'e', 's', 't'], Style::Black),
                (seq![' '], Style::Plain),
                (match self.0.request {
                    Some(q) => q@,
                    None => Seq::empty(),
                }, Style::Green),
                (nl, Style::Plain),
                (seq!['D', 'a', 't', 'e', ':'], Style::Black),
                (seq![' '], Style::Plain),
                (date@, Style::Cyan),
                (nl, Style::Plain),
                (seq!['D', 'u', 'r', 'a', 't', 'i', 'o', 'n', ':'], Style::Black),
                (seq![' '], Style::Plain),
                (decimal((self.0.result.duration / 1_000_000) as nat), Style::Purple),
                (seq!['m', 's'], Style::Purple),
                (nl, Style::Plain),
                (seq!['S', 't', 'a', 't', 'u', 's', ':'], Style::Black),
                (seq![' '], Style::Plain),
                (decimal(self.0.result.status as nat), Style::Paint(status_color_of(self.0.result.status))),
                (seq!['\n', '\n'], Style::Plain),
                (seq!['H', 'e', 'a', 'd', 'e', 'r', 's'], Style::Red),
                (seq!['\n', '\n'], Style::Plain),
            ]);
        }
        let headers = &self.0.result.headers;
        let ghost ps = headers.view_pairs();
        let n = headers.len();
        let mut i: usize = 0;
        while i < n
            invariant
                n == ps.len(),
                ps == headers.view_pairs(),
                i <= n,
                segment_views(out@) + header_segments(ps, i as int) == head + header_segments(ps, 0),
            decreases n - i,
        {
            let (k, v) = headers.entry(i);
            assert(ps[i as int] == (k@, v@));
            let ghost before = segment_views(out@);
            out.push((k.clone(), Style::BrightBlack));
            out.push((": ".to_owned(), Style::Plain));
            out.push((v.clone(), Style::Yellow));
            out.push(("\n".to_owned(), Style::Plain));
            proof {
                reveal_strlit(": ");
                reveal_strlit("\n");
                assert(": "@ =~= seq![':', ' ']);
                assert("\n"@ =~= seq!['\n']);
                assert(segment_views(out@) =~= before + seq![
                    (k@, Style::BrightBlack),
                    (seq![':', ' '], Style::Plain),
                    (v@, Style::Yellow),
                    (seq!['\n'], Style::Plain),
                ]);
                assert(before + seq![
                    (k@, Style::BrightBlack),
                    (seq![':', ' '], Style::Plain),
                    (v@, Style::Yellow),
                    (seq!['\n'], Style::Plain),
                ] + header_segments(ps, i + 1) =~= before + header_segments(ps, i as int));
            }
            i = i + 1;
        }
        let ghost middle = segment_views(out@);
        out.push(("\n".to_owned(), Style::Plain));
        out.push((self.0.result.text.clone(), Style::Plain));
        out.push(("\n".to_owned(), Style::Plain));
        proof {
            reveal_strlit("\n");
            assert("\n"@ =~= seq!['\n']);
            assert(header_segments(ps, n as int) =~= Seq::<(Seq<char>, Style)>::empty());
            assert(middle =~= head + header_segments(ps, 0));
            assert(segment_views(out@) =~= middle + seq![
                (seq!['\n'], Style::Plain),
                (self.0.result.text@, Style::Plain),
                (seq!['\n'], Style::Plain),
            ]);
            assert(segment_views(out@) =~= detailed_segments(
                match self.0.request {
                    Some(q) => q@,
                    None => Seq::empty(),
                },
                date@,
                (self.0.result.duration / 1_000_000) as nat,
                self.0.result.status,
                ps,
                self.0.result.text@,
            ));
        }
        out
    }
}

/// How a piece of output is shown.
#[derive(Clone, Copy, PartialEq, Eq, Structural, Debug)]
pub enum Style {
    Plain,
    Black,
    BrightBlack,
    Cyan,
    Purple,
    Red,
    Yellow,
    Green,
    Paint(ColorName),
}

/// The pieces of a styled output, each text by its view.
pub open spec fn segment_views(v: Seq<(String, Style)>) -> Seq<(Seq<char>, Style)> {
    v.map_values(|p: (String, Style)| (p.0@, p.1))
}

/// The lines `name: value` of the headers from the `i`-th on: the name in bright
/// black and the value in yellow.
pub open spec fn header_segments(ps: Seq<(Seq<char>, Seq<char>)>, i: int) -> Seq<(Seq<char>, Style)>
    decreases ps.len() - i,
{
    if i < 0 || i >= ps.len() {
        Seq::empty()
    } else {
        seq![
            (ps[i].0, Style::BrightBlack),
            (seq![':', ' '], Style::Plain),
            (ps[i].1, Style::Yellow),
            (seq!['\n'], Style::Plain),
        ] + header_segments(ps, i + 1)
    }
}

/// A logged response shown in full: the request's name, the date, the duration in
/// milliseconds and the status (in the colour of [`status_color_of`]), each labelled
/// in black on a line of its own; then `Headers` in red, each header on a line, an
/// empty line, and the response's text.
pub open spec fn detailed_segments(
    request: Seq<char>,
    date: Seq<char>,
    millis: nat,
    status: u16,
    headers: Seq<(Seq<char>, Seq<char>)>,
    text: Seq<char>,
) -> Seq<(Seq<char>, Style)> {
    let nl = seq!['\n'];
    seq![
        (seq!['R', 'e', 'q', 'u', 'e', 's', 't'], Style::Black),
        (seq![' '], Style::Plain),
        (request, Style::Green),
        (nl, Style::Plain),
        (seq!['D', 'a', 't', 'e', ':'], Style::Black),
        (seq![' '], Style::Plain),
        (date, Style::Cyan),
        (nl, Style::Plain),
        (seq!['D', 'u', 'r', 'a', 't', 'i', 'o', 'n', ':'], Style::Black),
        (seq![' '], Style::Plain),
        (decimal(millis), Style::Purple),
        (seq!['m', 's'], Style::Purple),
        (nl, Style::Plain),
        (seq!['S', 't', 'a', 't', 'u', 's', ':'], Style::Black),
        (seq![' '], Style::Plain),
        (decimal(status as nat), Style::Paint(status_color_of(status))),
        (seq!['\n', '\n'], Style::Plain),
        (seq!['H', 'e', 'a', 'd', 'e', 'r', 's'], Style::Red),
        (seq!['\n', '\n'], Style::Plain),
    ] + header_segments(headers, 0) + seq![(nl, Style::Plain), (text, Style::Plain), (nl, Style::Plain)]
}

/// What picking a resource from the candidates that match a query comes to.
#[derive(Debug, PartialEq, Eq)]
pub enum Selection {
    /// Several candidates: the user picks one of them.
    Ask(Vec<String>),
    /// The one candidate.
    Chosen(String),
    /// No candidate.
    NoMatch,
}

/// Picks a resource among the candidates (all of them, or those matching the
/// query): the user is asked when there are several, the one is taken when there is
/// one, and there is no match when there are none.
pub fn select_entry(candidates: Vec<String>) -> (r: Selection)
    ensures
        candidates@.len() > 1 ==> r == Selection::Ask(candidates),
        candidates@.len() == 1 ==> r == Selection::Chosen(candidates@[0]),
        candidates@.len() == 0 ==> r is NoMatch,
{
    if candidates.len() > 1 {
        Selection::Ask(candidates)
    } else {
        let mut c = candidates;
        match c.pop() {
            Some(only) => Selection::Chosen(only),
            None => Selection::NoMatch,
        }
    }
}

/// The names among `names` that the fuzzy pattern `query` matches, best match first,
/// as `nucleo_matcher`'s `Pattern::match_list` gives them (path matching, case
/// ignored, smart normalisation).
pub uninterp spec fn fuzzy_matches(names: Seq<Seq<char>>, query: Seq<char>) -> Seq<Seq<char>>;

/// `Pattern::parse(query, CaseMatching::Ignore, Normalization::Smart).match_list` over
/// the names, with a matcher configured for paths: the matching names, copied out.
#[verifier::external_body]
pub(crate) fn match_names(names: &Vec<String>, query: &str) -> (r: Vec<String>)
    ensures
        string_views(r@) == fuzzy_matches(string_views(names@), query@),
{
    let mut matcher = nucleo_matcher::Matcher::new(nucleo_matcher::Config::DEFAULT.match_paths());
    let pattern = Pattern::parse(query, CaseMatching::Ignore, Normalization::Smart);
    pattern.match_list(names, &mut matcher).into_iter().map(|entry| entry.0.clone()).collect()
}

/// The candidates for a query: all the names when there is none, else those that
/// the query matches.
pub open spec fn candidates_for(names: Seq<Seq<char>>, query: Option<Seq<char>>) -> Seq<Seq<char>> {
    match query {
        Some(q) => fuzzy_matches(names, q),
        None => names,
    }
}

/// The text of an optional string.
pub open spec fn option_view(s: Option<String>) -> Option<Seq<char>> {
    match s {
        Some(t) => Some(t@),
        None => None,
    }
}

/// Picks a resource among `names` by an optional fuzzy query (see
/// [`candidates_for`] and [`select_entry`]).
pub fn select_candidates(names: Vec<String>, query: Option<String>) -> (r: Selection)
    ensures
        ({
            let c = candidates_for(string_views(names@), option_view(query));
            &&& c.len() > 1 ==> (r matches Selection::Ask(v) && string_views(v@) == c)
            &&& c.len() == 1 ==> (r matches Selection::Chosen(s) && s@ == c[0])
            &&& c.len() == 0 ==> r is NoMatch
        }),
{
    let candidates = match query {
        Some(q) => match_names(&names, q.as_str()),
        None => names,
    };
    select_entry(candidates)
}

} // verus!
