//! Completing a request URL with a default scheme.
use vstd::prelude::*;

use crate::text::{all_ascii, chars_eq, chars_of, slice_of, string_from, string_of};

verus! {

/// Whether `d` occurs in `s` at index `k`.
pub open spec fn occurs_at(s: Seq<char>, k: int, d: Seq<char>) -> bool {
    0 <= k && k + d.len() <= s.len() && s.subrange(k, k + d.len()) == d
}

/// The first index at or after `k` where `d` occurs in `s`, or the length of `s`.
pub open spec fn find_from(s: Seq<char>, k: int, d: Seq<char>) -> int
    decreases s.len() - k,
{
    if k < 0 || k >= s.len() {
        s.len() as int
    } else if occurs_at(s, k, d) {
        k
    } else {
        find_from(s, k + 1, d)
    }
}

pub proof fn lemma_find_from(s: Seq<char>, k: int, d: Seq<char>)
    requires
        0 <= k <= s.len(),
    ensures
        k <= find_from(s, k, d) <= s.len(),
        find_from(s, k, d) < s.len() ==> occurs_at(s, find_from(s, k, d), d),
        forall|j: int| k <= j < find_from(s, k, d) ==> !occurs_at(s, j, d),
    decreases s.len() - k,
{
    if k < s.len() && !occurs_at(s, k, d) {
        lemma_find_from(s, k + 1, d);
    }
}

/// Whether `d` occurs in `s` at `k`.
pub fn occurs_in(s: &Vec<char>, k: usize, d: &Vec<char>) -> (b: bool)
    ensures
        b == occurs_at(s@, k as int, d@),
{
    if d.len() > s.len() || k > s.len() - d.len() {
        return false;
    }
    let mut i: usize = 0;
    while i < d.len()
        invariant
            i <= d.len(),
            k + d.len() <= s.len(),
            forall|j: int| 0 <= j < i ==> s@[k + j] == d@[j],
        decreases d.len() - i,
    {
        if s[k + i] != d[i] {
            assert(s@.subrange(k as int, k + d@.len())[i as int] != d@[i as int]);
            return false;
        }
        i = i + 1;
    }
    assert(s@.subrange(k as int, k + d@.len()) =~= d@);
    true
}

/// The first index from `from` on where `d` occurs in `s`, or the length of `s`.
pub fn find_chars(s: &Vec<char>, from: usize, d: &Vec<char>) -> (r: usize)
    requires
        from <= s.len(),
    ensures
        r == find_from(s@, from as int, d@),
{
    let mut k = from;
    while k < s.len()
        invariant
            from <= k <= s.len(),
            find_from(s@, from as int, d@) == find_from(s@, k as int, d@),
        decreases s.len() - k,
    {
        if occurs_in(s, k, d) {
            return k;
        }
        k = k + 1;
    }
    k
}

/// The separator between a URL's scheme and the rest.
pub open spec fn scheme_sep() -> Seq<char> {
    seq![':', '/', '/']
}

/// Whether `uri` names its own scheme, that is, holds `://`.
pub open spec fn has_scheme(uri: Seq<char>) -> bool {
    find_from(uri, 0, scheme_sep()) < uri.len()
}

/// The inputs that the scheme scan reads by single bytes without leaving a character
/// boundary: every character before the first `://` (before the end, when there is
/// none) is ASCII.
pub open spec fn url_scannable(uri: Seq<char>) -> bool {
    all_ascii(uri.subrange(0, find_from(uri, 0, scheme_sep())))
}

/// The URL a [`UrlParser`] makes of `uri`: `uri` itself when it holds `://`, else
/// `default_scheme` followed by `uri`.
pub open spec fn completed_url(uri: Seq<char>, default_scheme: Seq<char>) -> Seq<char> {
    if has_scheme(uri) {
        uri
    } else {
        default_scheme + uri
    }
}

/// Completing a URL gives one that names a scheme, when the default scheme does, so
/// that completing it again changes nothing.
pub proof fn law_completion_is_idempotent(uri: Seq<char>, default_scheme: Seq<char>)
    requires
        has_scheme(default_scheme),
    ensures
        has_scheme(completed_url(uri, default_scheme)),
        completed_url(completed_url(uri, default_scheme), default_scheme) == completed_url(
            uri,
            default_scheme,
        ),
{
    if !has_scheme(uri) {
        let s = default_scheme + uri;
        lemma_find_from(default_scheme, 0, scheme_sep());
        let k = find_from(default_scheme, 0, scheme_sep());
        assert(s.subrange(k, k + 3) =~= default_scheme.subrange(k, k + 3));
        assert(occurs_at(s, k, scheme_sep()));
        lemma_find_from(s, 0, scheme_sep());
    }
}

/// Prefixes a URL that names no scheme with a default one.
pub struct UrlParser {
    src: Vec<char>,
    pos: usize,
    default_scheme: Vec<char>,
}

impl UrlParser {
    pub closed spec fn source(&self) -> Seq<char> {
        self.src@
    }

    pub closed spec fn position(&self) -> int {
        self.pos as int
    }

    pub closed spec fn default_scheme(&self) -> Seq<char> {
        self.default_scheme@
    }

    #[verifier::type_invariant]
    closed spec fn inv(&self) -> bool {
        self.pos <= self.src.len()
    }

    pub fn new(src: &str, default_scheme: &str) -> (r: Self)
        ensures
            r.source() == src@,
            r.position() == 0,
            r.default_scheme() == default_scheme@,
    {
        Self { src: chars_of(src), pos: 0, default_scheme: chars_of(default_scheme) }
    }

    /// The next `n` characters (fewer at the end).
    fn peek_n(&self, n: usize) -> (r: Vec<char>)
        ensures
            r@ == self.source().subrange(
                self.position(),
                if self.position() + n <= self.source().len() {
                    self.position() + n
                } else {
                    self.source().len() as int
                },
            ),
    {
        proof {
            use_type_invariant(self);
        }
        let end = if n <= self.src.len() - self.pos {
            self.pos + n
        } else {
            self.src.len()
        };
        slice_of(&self.src, self.pos, end)
    }

    /// Reads up to and including the first character of the next occurrence of
    /// `delimiter`; when there is none, reads nothing.
    fn consume_until_delimiter(&mut self, delimiter: &Vec<char>) -> (r: Option<String>)
        requires
            delimiter@.len() > 0,
            all_ascii(
                old(self).source().subrange(
                    old(self).position(),
                    find_from(old(self).source(), old(self).position(), delimiter@),
                ),
            ),
        ensures
            final(self).source() == old(self).source(),
            final(self).default_scheme() == old(self).default_scheme(),
            ({
                let s = old(self).source();
                let p = old(self).position();
                let k = find_from(s, p, delimiter@);
                if k < s.len() {
                    r.is_some() && r.unwrap()@ == s.subrange(p, k + 1) && final(self).position() == k + 1
                } else {
                    r is None && final(self).position() == p
                }
            }),
    {
        proof {
            use_type_invariant(&*self);
            lemma_find_from(self.src@, self.pos as int, delimiter@);
        }
        let initial_pos = self.pos;
        let ghost s = self.src@;
        let ghost k = find_from(s, initial_pos as int, delimiter@);
        while self.pos < self.src.len()
            invariant
                self.src@ == s,
                s == old(self).src@,
                initial_pos == old(self).pos,
                self.default_scheme@ == old(self).default_scheme@,
                initial_pos <= self.pos <= s.len(),
                self.pos <= k,
                k == find_from(s, initial_pos as int, delimiter@),
                k <= s.len(),
                k < s.len() ==> occurs_at(s, k, delimiter@),
                forall|j: int| initial_pos <= j < k ==> !occurs_at(s, j, delimiter@),
                delimiter@.len() > 0,
            decreases s.len() - self.pos,
        {
            let next = self.peek_n(delimiter.len());
            let ghost at = self.pos as int;
            self.bump_n(1);
            if chars_eq(&next, delimiter) {
                assert(occurs_at(s, at, delimiter@));
                let found = string_of(&self.src, initial_pos, self.pos);
                return Some(found);
            }
            assert(!occurs_at(s, at, delimiter@));
        }
        self.pos = initial_pos;
        None
    }

    /// The scheme with its `:`, when the URL holds `://`; else the default scheme.
    fn consume_scheme(&mut self) -> (r: String)
        requires
            old(self).position() == 0,
            url_scannable(old(self).source()),
        ensures
            final(self).source() == old(self).source(),
            ({
                let s = old(self).source();
                let k = find_from(s, 0, scheme_sep());
                if k < s.len() {
                    r@ == s.subrange(0, k + 1) && final(self).position() == k + 1
                } else {
                    r@ == old(self).default_scheme() && final(self).position() == 0
                }
            }),
    {
        let mut delimiter: Vec<char> = Vec::new();
        delimiter.push(':');
        delimiter.push('/');
        delimiter.push('/');
        assert(delimiter@ == scheme_sep());
        match self.consume_until_delimiter(&delimiter) {
            Some(scheme) => scheme,
            None => string_from(&self.default_scheme),
        }
    }

    fn bump_n(&mut self, n: usize)
        ensures
            final(self).source() == old(self).source(),
            final(self).default_scheme() == old(self).default_scheme(),
            final(self).position() == if old(self).position() + n <= old(self).source().len() {
                old(self).position() + n
            } else {
                old(self).source().len() as int
            },
    {
        proof {
            use_type_invariant(&*self);
        }
        if n <= self.src.len() - self.pos {
            self.pos = self.pos + n;
        } else {
            self.pos = self.src.len();
        }
    }

    /// The URL with its scheme: the source as it is when it holds `://`, else the
    /// default scheme followed by the source.
    pub fn parse(&mut self) -> (r: String)
        requires
            old(self).position() == 0,
            url_scannable(old(self).source()),
        ensures
            r@ == completed_url(old(self).source(), old(self).default_scheme()),
    {
        proof {
            use_type_invariant(&*self);
            lemma_find_from(self.src@, 0, scheme_sep());
        }
        let ghost s = self.src@;
        let scheme = self.consume_scheme();
        proof {
            use_type_invariant(&*self);
        }
        let remaining = string_of(&self.src, self.pos, self.src.len());
        let mut out = chars_of(scheme.as_str());
        let rest = chars_of(remaining.as_str());
        crate::text::append_chars(&mut out, &rest);
        proof {
            let k = find_from(s, 0, scheme_sep());
            if k < s.len() {
                assert(s.subrange(0, k + 1) + s.subrange(k + 1, s.len() as int) == s);
            } else {
                assert(s.subrange(0, s.len() as int) == s);
            }
        }
        string_from(&out)
    }
}

} // verus!
