//! Logs of responses: one file per response in the logs directory, named by the
//! time the request started, read back newest first.
use vstd::prelude::*;

use crate::map::{OrderedMap, key_lt, lemma_lookup_absent};
use crate::runner::ExecutionResult;
use crate::space::Lapse;
use crate::text::{decimal, decimal_chars, digit_char, string_from, string_views};

verus! {

/// A logged response: the request as it was written, when known, and what running
/// it gave.
#[derive(Debug, PartialEq, Eq)]
pub struct ResponseLog {
    pub request: Option<String>,
    pub result: ExecutionResult,
}

impl ResponseLog {
    /// The name of the file the log is saved in: the decimal digits of the time the
    /// request started.
    pub fn file_name(&self) -> (r: String)
        ensures
            r@ == decimal(self.result.timestamp as nat),
    {
        string_from(&decimal_chars(self.result.timestamp))
    }
}

/// The names rise strictly, in the order of `str`'s `Ord`.
pub open spec fn strictly_sorted(s: Seq<Seq<char>>) -> bool {
    forall|i: int, j: int| 0 <= i < j < s.len() ==> key_lt(#[trigger] s[i], #[trigger] s[j])
}

proof fn lemma_decimal_len(n: nat)
    ensures
        decimal(n).len() >= 1,
        n >= 10 ==> decimal(n).len() == decimal(n / 10).len() + 1,
        n < 10 ==> decimal(n).len() == 1,
    decreases n,
{
    if n >= 10 {
        lemma_decimal_len(n / 10);
    }
}

proof fn lemma_digit_char_lt(a: nat, b: nat)
    requires
        a < b < 10,
    ensures
        digit_char(a) < digit_char(b),
{
}

/// Names of equal length that differ first in their last character, or that already
/// differ before it, keep their order when a character is added to each.
proof fn lemma_key_lt_push(a: Seq<char>, b: Seq<char>, x: char, y: char)
    requires
        a.len() == b.len(),
        key_lt(a, b) || (a == b && x < y),
    ensures
        key_lt(a.push(x), b.push(y)),
    decreases a.len(),
{
    if a.len() == 0 {
        assert(a.push(x)[0] == x && b.push(y)[0] == y);
    } else {
        assert(a.push(x).drop_first() =~= a.drop_first().push(x));
        assert(b.push(y).drop_first() =~= b.drop_first().push(y));
        if a[0] == b[0] {
            if a == b {
                assert(a.drop_first() == b.drop_first());
            }
            lemma_key_lt_push(a.drop_first(), b.drop_first(), x, y);
        }
    }
}

/// A log saved later is read first: of two start times written with as many
/// digits, the later one names a file that sorts after the earlier one's (and the
/// logs are read from the greatest name down).
pub proof fn law_later_logs_sort_after(t1: nat, t2: nat)
    requires
        t1 < t2,
        decimal(t1).len() == decimal(t2).len(),
    ensures
        key_lt(decimal(t1), decimal(t2)),
    decreases t2,
{
    lemma_decimal_len(t1);
    lemma_decimal_len(t2);
    if t2 < 10 {
        lemma_digit_char_lt(t1, t2);
        assert(decimal(t1)[0] == digit_char(t1));
        assert(decimal(t2)[0] == digit_char(t2));
    } else {
        assert(t1 >= 10);
        lemma_decimal_len(t1 / 10);
        lemma_decimal_len(t2 / 10);
        if t1 / 10 < t2 / 10 {
            law_later_logs_sort_after(t1 / 10, t2 / 10);
        } else {
            assert(t1 % 10 < t2 % 10);
            lemma_digit_char_lt(t1 % 10, t2 % 10);
        }
        lemma_key_lt_push(decimal(t1 / 10), decimal(t2 / 10), digit_char(t1 % 10), digit_char(t2 % 10));
    }
}

/// The names of the log files of a space still to be read, kept in rising order and
/// handed out from the greatest (the newest) down.
pub struct RawResponseLogsIter {
    lapse: Lapse,
    src: Vec<String>,
}

impl RawResponseLogsIter {
    /// The names still to be read, in rising order.
    pub closed spec fn names(&self) -> Seq<Seq<char>> {
        string_views(self.src@)
    }

    /// The directory of the space whose logs these are.
    pub closed spec fn space(&self) -> Seq<char> {
        self.lapse.dir()
    }

    #[verifier::type_invariant]
    closed spec fn inv(&self) -> bool {
        strictly_sorted(self.names())
    }

    /// The names still to be read, in the order in which they come: newest first.
    pub open spec fn remaining(&self) -> Seq<Seq<char>> {
        self.names().reverse()
    }

    /// The space whose logs these are.
    pub fn lapse(&self) -> (r: &Lapse)
        ensures
            r.dir() == self.space(),
    {
        &self.lapse
    }

    /// The name of the next log file to read (the greatest left), or `None` when all
    /// have been read.
    pub fn next_name(&mut self) -> (r: Option<String>)
        ensures
            old(self).names().len() == 0 ==> r is None && final(self).names() == old(self).names(),
            old(self).names().len() > 0 ==> (r matches Some(n) && n@ == old(self).names().last()
                && final(self).names() == old(self).names().drop_last()),
            r matches Some(n) ==> forall|i: int|
                0 <= i < final(self).names().len() ==> key_lt(#[trigger] final(self).names()[i], n@),
            strictly_sorted(final(self).names()),
            final(self).space() == old(self).space(),
    {
        proof {
            use_type_invariant(&*self);
        }
        let ghost before = self.names();
        let mut src: Vec<String> = Vec::new();
        std::mem::swap(&mut src, &mut self.src);
        let r = src.pop();
        proof {
            assert(string_views(src@) =~= if before.len() > 0 {
                before.drop_last()
            } else {
                before
            });
        }
        self.src = src;
        r
    }

    /// The logs read as responses.
    pub fn into_parsed(self) -> (r: ResponseLogsIter)
        ensures
            r.source() == self,
    {
        ResponseLogsIter::new(self)
    }
}

/// The logs of a space, each read back as a [`ResponseLog`], newest first.
pub struct ResponseLogsIter {
    src: RawResponseLogsIter,
}

impl ResponseLogsIter {
    /// The names of the log files still to be read.
    pub closed spec fn source(&self) -> RawResponseLogsIter {
        self.src
    }

    pub fn new(src: RawResponseLogsIter) -> (r: Self)
        ensures
            r.source() == src,
    {
        ResponseLogsIter { src }
    }

    /// The space whose logs these are.
    pub fn lapse(&self) -> (r: &Lapse)
        ensures
            r.dir() == self.source().space(),
    {
        self.src.lapse()
    }

    /// The name of the next log file to read (see [`RawResponseLogsIter::next_name`]).
    pub fn next_name(&mut self) -> (r: Option<String>)
        ensures
            old(self).source().names().len() == 0 ==> r is None && final(self).source().names()
                == old(self).source().names(),
            old(self).source().names().len() > 0 ==> (r matches Some(n) && n@ == old(
                self,
            ).source().names().last() && final(self).source().names() == old(
                self,
            ).source().names().drop_last()),
            r matches Some(n) ==> forall|i: int|
                0 <= i < final(self).source().names().len() ==> key_lt(
                    #[trigger] final(self).source().names()[i],
                    n@,
                ),
            final(self).source().space() == old(self).source().space(),
    {
        self.src.next_name()
    }
}

/// The names, each once, in rising order (of `str`'s `Ord`): how the entries of a
/// directory are listed.
pub fn sorted_names(names: Vec<String>) -> (src: Vec<String>)
    ensures
        strictly_sorted(string_views(src@)),
        string_views(src@).to_set() == string_views(names@).to_set(),
{
    let ghost nv = string_views(names@);
    let mut set: OrderedMap<()> = OrderedMap::new();
    let mut i: usize = 0;
    proof {
        assert(nv.take(0).to_set() =~= Set::<Seq<char>>::empty());
        assert(set.view().dom() =~= Set::<Seq<char>>::empty());
    }
    while i < names.len()
        invariant
            nv == string_views(names@),
            i <= names.len(),
            set.view().dom() == nv.take(i as int).to_set(),
        decreases names.len() - i,
    {
        let ghost before = nv.take(i as int);
        set.insert(names[i].clone(), ());
        proof {
            assert(nv.take(i + 1) =~= before.push(nv[i as int]));
            assert forall|x: Seq<char>| #[trigger] before.push(nv[i as int]).contains(x) <==> (
            before.contains(x) || x == nv[i as int]) by {
                if x == nv[i as int] {
                    assert(before.push(nv[i as int])[before.len() as int] == x);
                }
                if before.contains(x) {
                    let k = choose|k: int| 0 <= k < before.len() && before[k] == x;
                    assert(before.push(nv[i as int])[k] == x);
                }
                if before.push(nv[i as int]).contains(x) {
                    let k = choose|k: int| 0 <= k < before.len() + 1 && before.push(nv[i as int])[k] == x;
                    if k < before.len() {
                        assert(before[k] == x);
                    }
                }
            }
            assert(set.view().dom() =~= nv.take(i + 1).to_set());
        }
        i = i + 1;
    }
    proof {
        assert(nv.take(i as int) =~= nv);
    }
    let ghost ps = set.pairs();
    let mut src: Vec<String> = Vec::new();
    let n = set.len();
    let mut j: usize = 0;
    while j < n
        invariant
            n == ps.len(),
            ps == set.pairs(),
            j <= n,
            string_views(src@) == ps.take(j as int).map_values(|p: (Seq<char>, ())| p.0),
        decreases n - j,
    {
        let (k, _) = set.entry(j);
        let ghost before = src@;
        let kc = k.clone();
        assert(kc@ == ps[j as int].0);
        src.push(kc);
        proof {
            assert(string_views(src@) =~= string_views(before).push(ps[j as int].0));
            assert(ps.take(j + 1) =~= ps.take(j as int).push(ps[j as int]));
            assert(string_views(src@) =~= ps.take(j + 1).map_values(|p: (Seq<char>, ())| p.0));
        }
        j = j + 1;
    }
    proof {
        let keys = ps.map_values(|p: (Seq<char>, ())| p.0);
        assert(ps.take(n as int) =~= ps);
        assert(string_views(src@) == keys);
        assert forall|x: Seq<char>| #[trigger] keys.contains(x) <==> set.view().dom().contains(x) by {
            lemma_lookup_absent(ps, x);
            if keys.contains(x) {
                let k = choose|k: int| 0 <= k < keys.len() && keys[k] == x;
                assert(ps[k].0 == x);
            }
            if set.view().dom().contains(x) {
                let k = choose|k: int| 0 <= k < ps.len() && ps[k].0 == x;
                assert(keys[k] == x);
            }
        }
        assert(keys.to_set() =~= set.view().dom());
    }
    src
}

impl Lapse {
    /// The logs of the space, from the names of the files in its logs directory (as
    /// listed, in any order): each name once, read back greatest (newest) first.
    pub fn logs_iter(&self, names: Vec<String>) -> (r: RawResponseLogsIter)
        ensures
            r.space() == self.dir(),
            strictly_sorted(r.names()),
            r.names().to_set() == string_views(names@).to_set(),
    {
        let src = sorted_names(names);
        RawResponseLogsIter { lapse: self.duplicate(), src }
    }
}

} // verus!
