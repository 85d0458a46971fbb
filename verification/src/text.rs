//! Character-level helpers shared by the parsers: the model of `char::is_whitespace`,
//! `str::lines`, `str::split_whitespace`, `str::trim`, `str::split_once` and `join`
//! over sequences of characters, with executable versions over `Vec<char>`.
use vstd::prelude::*;

verus! {

broadcast use vstd::string::group_string_axioms;

/// `char::is_whitespace`: the characters with the Unicode `White_Space` property.
pub open spec fn is_ws(c: char) -> bool {
    let u = c as u32;
    ||| 0x09 <= u <= 0x0D
    ||| u == 0x20
    ||| u == 0x85
    ||| u == 0xA0
    ||| u == 0x1680
    ||| 0x2000 <= u <= 0x200A
    ||| u == 0x2028
    ||| u == 0x2029
    ||| u == 0x202F
    ||| u == 0x205F
    ||| u == 0x3000
}

/// Whether `c` is a character of the ASCII range (a single byte in UTF-8).
pub open spec fn is_ascii_char(c: char) -> bool {
    (c as u32) < 0x80
}

/// Whether every character of `s` is ASCII.
pub open spec fn all_ascii(s: Seq<char>) -> bool {
    forall|k: int| 0 <= k < s.len() ==> is_ascii_char(#[trigger] s[k])
}

/// The first index at or after `i` whose character satisfies `p`, or the length of `s`.
pub open spec fn first_from(s: Seq<char>, i: int, p: spec_fn(char) -> bool) -> int
    decreases s.len() - i,
{
    if i >= s.len() {
        s.len() as int
    } else if p(s[i]) {
        i
    } else {
        first_from(s, i + 1, p)
    }
}

pub proof fn lemma_first_from(s: Seq<char>, i: int, p: spec_fn(char) -> bool)
    requires
        0 <= i <= s.len(),
    ensures
        i <= first_from(s, i, p) <= s.len(),
        forall|k: int| i <= k < first_from(s, i, p) ==> !p(#[trigger] s[k]),
        first_from(s, i, p) < s.len() ==> p(s[first_from(s, i, p)]),
    decreases s.len() - i,
{
    if i < s.len() && !p(s[i]) {
        lemma_first_from(s, i + 1, p);
    }
}

/// A scan that stops at `j` stops at `j` from any start between.
pub proof fn lemma_first_from_between(s: Seq<char>, i: int, j: int, p: spec_fn(char) -> bool)
    requires
        0 <= i <= j <= first_from(s, i, p),
        first_from(s, i, p) <= s.len(),
    ensures
        first_from(s, j, p) == first_from(s, i, p),
    decreases j - i,
{
    if i < j {
        lemma_first_from(s, i, p);
        lemma_first_from_between(s, i + 1, j, p);
    }
}

pub open spec fn ws_pred() -> spec_fn(char) -> bool {
    |c: char| is_ws(c)
}

pub open spec fn non_ws_pred() -> spec_fn(char) -> bool {
    |c: char| !is_ws(c)
}

pub open spec fn char_pred(x: char) -> spec_fn(char) -> bool {
    |c: char| c == x
}

/// The pieces of `s` from `i` on that `str::split_whitespace` yields.
pub open spec fn ws_split_from(s: Seq<char>, i: int) -> Seq<Seq<char>>
    decreases s.len() - i,
{
    if 0 <= i <= s.len() {
        let a = first_from(s, i, non_ws_pred());
        if a >= s.len() {
            Seq::empty()
        } else {
            let b = first_from(s, a, ws_pred());
            proof {
                lemma_first_from(s, i, non_ws_pred());
                lemma_first_from(s, a, ws_pred());
            }
            seq![s.subrange(a, b)] + ws_split_from(s, b)
        }
    } else {
        Seq::empty()
    }
}

/// `str::split_whitespace`.
pub open spec fn ws_split(s: Seq<char>) -> Seq<Seq<char>> {
    ws_split_from(s, 0)
}

/// A line without its `\r` ending, as `str::lines` strips it.
pub open spec fn strip_cr(l: Seq<char>) -> Seq<char> {
    if l.len() > 0 && l.last() == '\r' {
        l.drop_last()
    } else {
        l
    }
}

/// The lines of `s` from `i` on, as `str::lines` yields them.
pub open spec fn lines_from(s: Seq<char>, i: int) -> Seq<Seq<char>>
    decreases s.len() - i,
{
    if i < 0 || i >= s.len() {
        Seq::empty()
    } else {
        let j = first_from(s, i, char_pred('\n'));
        if j >= s.len() {
            seq![s.subrange(i, s.len() as int)]
        } else {
            proof {
                lemma_first_from(s, i, char_pred('\n'));
            }
            seq![strip_cr(s.subrange(i, j))] + lines_from(s, j + 1)
        }
    }
}

/// `str::lines`: the text split at `\n`, each line without a trailing `\r`, and no
/// empty line after a final `\n`.
pub open spec fn lines(s: Seq<char>) -> Seq<Seq<char>> {
    lines_from(s, 0)
}

/// The index where `str::trim` starts keeping characters.
pub open spec fn trim_start(s: Seq<char>) -> int {
    first_from(s, 0, non_ws_pred())
}

/// The index where `str::trim` stops keeping characters: one past the last
/// non-whitespace character at or before `j`, or 0.
pub open spec fn trim_end_from(s: Seq<char>, j: int) -> int
    decreases j,
{
    if j <= 0 {
        0
    } else if !is_ws(s[j - 1]) {
        j
    } else {
        trim_end_from(s, j - 1)
    }
}

/// `str::trim`.
pub open spec fn trim(s: Seq<char>) -> Seq<char> {
    let a = trim_start(s);
    let b = trim_end_from(s, s.len() as int);
    if a < b {
        s.subrange(a, b)
    } else {
        Seq::empty()
    }
}

/// Whether the line `l` writes the pair `name`, `value` with a `:` between them: it is
/// some text that holds no `:`, then `:`, then the rest; the name is that text
/// trimmed and the value is the rest trimmed.
pub open spec fn colon_split(l: Seq<char>, name: Seq<char>, value: Seq<char>) -> bool {
    exists|a: Seq<char>, b: Seq<char>|
        #![trigger a + seq![':'] + b]
        l == a + seq![':'] + b && !a.contains(':') && trim(a) == name && trim(b) == value
}

/// A line with a `:` writes the pair made of what comes before its first `:` and
/// what comes after it, each trimmed.
pub proof fn lemma_colon_split(l: Seq<char>)
    requires
        first_from(l, 0, char_pred(':')) < l.len(),
    ensures
        ({
            let c = first_from(l, 0, char_pred(':'));
            colon_split(l, trim(l.subrange(0, c)), trim(l.subrange(c + 1, l.len() as int)))
        }),
{
    let c = first_from(l, 0, char_pred(':'));
    lemma_first_from(l, 0, char_pred(':'));
    let a = l.subrange(0, c);
    let b = l.subrange(c + 1, l.len() as int);
    assert(l =~= a + seq![':'] + b);
    assert(!a.contains(':')) by {
        if a.contains(':') {
            let i = choose|i: int| 0 <= i < a.len() && a[i] == ':';
            assert(l[i] == ':');
        }
    }
}

/// A line writes at most one pair: the text before its first `:` and the rest.
pub proof fn lemma_colon_split_unique(
    l: Seq<char>,
    n1: Seq<char>,
    v1: Seq<char>,
    n2: Seq<char>,
    v2: Seq<char>,
)
    requires
        colon_split(l, n1, v1),
        colon_split(l, n2, v2),
    ensures
        n1 == n2,
        v1 == v2,
{
    let (a1, b1) = choose|a: Seq<char>, b: Seq<char>|
        #![trigger a + seq![':'] + b]
        l == a + seq![':'] + b && !a.contains(':') && trim(a) == n1 && trim(b) == v1;
    let (a2, b2) = choose|a: Seq<char>, b: Seq<char>|
        #![trigger a + seq![':'] + b]
        l == a + seq![':'] + b && !a.contains(':') && trim(a) == n2 && trim(b) == v2;
    if a1.len() < a2.len() {
        assert(l[a1.len() as int] == ':');
        assert(a2[a1.len() as int] == l[a1.len() as int]);
        assert(a2.contains(':'));
    }
    if a2.len() < a1.len() {
        assert(l[a2.len() as int] == ':');
        assert(a1[a2.len() as int] == l[a2.len() as int]);
        assert(a1.contains(':'));
    }
    assert(a1 =~= l.take(a1.len() as int));
    assert(a2 =~= l.take(a2.len() as int));
    assert(b1 =~= l.skip((a1.len() + 1) as int));
    assert(b2 =~= l.skip((a2.len() + 1) as int));
}

/// `lines.join(sep)`.
pub open spec fn join(lines: Seq<Seq<char>>, sep: Seq<char>) -> Seq<char>
    decreases lines.len(),
{
    if lines.len() == 0 {
        Seq::empty()
    } else if lines.len() == 1 {
        lines[0]
    } else {
        join(lines.drop_last(), sep) + sep + lines.last()
    }
}

/// The views of a sequence of character vectors.
pub open spec fn views(v: Seq<Vec<char>>) -> Seq<Seq<char>> {
    v.map_values(|l: Vec<char>| l@)
}

/// The views of a sequence of strings.
pub open spec fn string_views(v: Seq<String>) -> Seq<Seq<char>> {
    v.map_values(|l: String| l@)
}

pub fn is_whitespace(c: char) -> (b: bool)
    ensures
        b == is_ws(c),
{
    let u = c as u32;
    (0x09 <= u && u <= 0x0D) || u == 0x20 || u == 0x85 || u == 0xA0 || u == 0x1680 || (0x2000
        <= u && u <= 0x200A) || u == 0x2028 || u == 0x2029 || u == 0x202F || u == 0x205F || u
        == 0x3000
}

pub fn is_ascii(c: char) -> (b: bool)
    ensures
        b == is_ascii_char(c),
{
    (c as u32) < 0x80
}

/// The characters of `s`, in order.
pub fn chars_of(s: &str) -> (v: Vec<char>)
    ensures
        v@ == s@,
{
    let mut v: Vec<char> = Vec::new();
    for c in iter: s.chars()
        invariant
            v@ == iter.seq().take(iter.index() as int),
    {
        v.push(c);
    }
    v
}

/// `String::push`.
#[verifier::external_body]
pub(crate) fn push_char(s: &mut String, c: char)
    ensures
        final(s)@ == old(s)@.push(c),
{
    s.push(c);
}

/// The string made of `v[lo..hi]`.
pub fn string_of(v: &Vec<char>, lo: usize, hi: usize) -> (r: String)
    requires
        lo <= hi <= v.len(),
    ensures
        r@ == v@.subrange(lo as int, hi as int),
{
    let mut r = String::new();
    let mut k = lo;
    while k < hi
        invariant
            lo <= k <= hi <= v.len(),
            r@ == v@.subrange(lo as int, k as int),
        decreases hi - k,
    {
        push_char(&mut r, v[k]);
        assert(v@.subrange(lo as int, k + 1) == v@.subrange(lo as int, k as int).push(v@[k as int]));
        k = k + 1;
    }
    r
}

/// The string made of all of `v`.
pub fn string_from(v: &Vec<char>) -> (r: String)
    ensures
        r@ == v@,
{
    let r = string_of(v, 0, v.len());
    assert(v@.subrange(0, v@.len() as int) == v@);
    r
}

/// `v[lo..hi]` as a new vector.
pub fn slice_of(v: &Vec<char>, lo: usize, hi: usize) -> (r: Vec<char>)
    requires
        lo <= hi <= v.len(),
    ensures
        r@ == v@.subrange(lo as int, hi as int),
{
    let mut r: Vec<char> = Vec::new();
    let mut k = lo;
    while k < hi
        invariant
            lo <= k <= hi <= v.len(),
            r@ == v@.subrange(lo as int, k as int),
        decreases hi - k,
    {
        r.push(v[k]);
        assert(v@.subrange(lo as int, k + 1) == v@.subrange(lo as int, k as int).push(v@[k as int]));
        k = k + 1;
    }
    r
}

/// Appends `b` to `a`.
pub fn append_chars(a: &mut Vec<char>, b: &Vec<char>)
    ensures
        final(a)@ == old(a)@ + b@,
{
    let mut k: usize = 0;
    while k < b.len()
        invariant
            k <= b.len(),
            a@ == old(a)@ + b@.subrange(0, k as int),
        decreases b.len() - k,
    {
        a.push(b[k]);
        assert(b@.subrange(0, k + 1) == b@.subrange(0, k as int).push(b@[k as int]));
        k = k + 1;
    }
    assert(b@.subrange(0, b@.len() as int) == b@);
}

/// Appends the characters of `b` to `a`.
pub fn append_str(a: &mut Vec<char>, b: &str)
    ensures
        final(a)@ == old(a)@ + b@,
{
    let bc = chars_of(b);
    append_chars(a, &bc);
}

/// Whether two character vectors are equal.
pub fn chars_eq(a: &Vec<char>, b: &Vec<char>) -> (r: bool)
    ensures
        r == (a@ == b@),
{
    if a.len() != b.len() {
        return false;
    }
    let mut k: usize = 0;
    while k < a.len()
        invariant
            k <= a.len() == b.len(),
            forall|m: int| 0 <= m < k ==> a@[m] == b@[m],
        decreases a.len() - k,
    {
        if a[k] != b[k] {
            return false;
        }
        k = k + 1;
    }
    assert(a@ =~= b@);
    true
}

/// Whether the characters of `a` are those of the text `b`.
pub fn chars_eq_str(a: &Vec<char>, b: &str) -> (r: bool)
    ensures
        r == (a@ == b@),
{
    let bc = chars_of(b);
    chars_eq(a, &bc)
}

/// The first index at or after `i` that holds whitespace, or the length.
pub fn next_ws(s: &Vec<char>, i: usize) -> (r: usize)
    requires
        i <= s.len(),
    ensures
        r == first_from(s@, i as int, ws_pred()),
{
    let mut k = i;
    while k < s.len() && !is_whitespace(s[k])
        invariant
            i <= k <= s.len(),
            first_from(s@, k as int, ws_pred()) == first_from(s@, i as int, ws_pred()),
        decreases s.len() - k,
    {
        k = k + 1;
    }
    k
}

/// The first index at or after `i` that holds no whitespace, or the length.
pub fn next_non_ws(s: &Vec<char>, i: usize) -> (r: usize)
    requires
        i <= s.len(),
    ensures
        r == first_from(s@, i as int, non_ws_pred()),
{
    let mut k = i;
    while k < s.len() && is_whitespace(s[k])
        invariant
            i <= k <= s.len(),
            first_from(s@, k as int, non_ws_pred()) == first_from(s@, i as int, non_ws_pred()),
        decreases s.len() - k,
    {
        k = k + 1;
    }
    k
}

/// The first index at or after `i` that holds `c`, or the length.
pub fn next_char(s: &Vec<char>, i: usize, c: char) -> (r: usize)
    requires
        i <= s.len(),
    ensures
        r == first_from(s@, i as int, char_pred(c)),
{
    let mut k = i;
    while k < s.len() && s[k] != c
        invariant
            i <= k <= s.len(),
            first_from(s@, k as int, char_pred(c)) == first_from(s@, i as int, char_pred(c)),
        decreases s.len() - k,
    {
        k = k + 1;
    }
    k
}

/// `str::split_whitespace`, collected.
pub fn split_ws(s: &Vec<char>) -> (r: Vec<Vec<char>>)
    ensures
        views(r@) == ws_split(s@),
{
    let mut r: Vec<Vec<char>> = Vec::new();
    let mut i: usize = 0;
    while i < s.len()
        invariant
            i <= s.len(),
            views(r@) + ws_split_from(s@, i as int) == ws_split(s@),
        decreases s.len() - i,
    {
        let a = next_non_ws(s, i);
        proof {
            lemma_first_from(s@, i as int, non_ws_pred());
        }
        if a >= s.len() {
            assert(ws_split_from(s@, i as int) == Seq::<Seq<char>>::empty());
            assert(views(r@) + Seq::<Seq<char>>::empty() == views(r@));
            i = s.len();
        } else {
            let b = next_ws(s, a);
            proof {
                lemma_first_from(s@, a as int, ws_pred());
            }
            let piece = slice_of(s, a, b);
            let ghost before = r@;
            r.push(piece);
            assert(views(r@) == views(before).push(piece@));
            assert(views(r@) + ws_split_from(s@, b as int) == views(before) + (seq![s@.subrange(
                a as int,
                b as int,
            )] + ws_split_from(s@, b as int)));
            i = b;
        }
    }
    assert(ws_split_from(s@, i as int) == Seq::<Seq<char>>::empty());
    assert(views(r@) + Seq::<Seq<char>>::empty() == views(r@));
    r
}

/// `str::lines`, collected.
pub fn split_lines(s: &Vec<char>) -> (r: Vec<Vec<char>>)
    ensures
        views(r@) == lines(s@),
{
    let mut r: Vec<Vec<char>> = Vec::new();
    let mut i: usize = 0;
    while i < s.len()
        invariant
            i <= s.len(),
            views(r@) + lines_from(s@, i as int) == lines(s@),
        decreases s.len() - i,
    {
        let j = next_char(s, i, '\n');
        proof {
            lemma_first_from(s@, i as int, char_pred('\n'));
        }
        let ghost before = r@;
        if j >= s.len() {
            let piece = slice_of(s, i, s.len());
            r.push(piece);
            assert(views(r@) == views(before).push(piece@));
            assert(lines_from(s@, s@.len() as int) == Seq::<Seq<char>>::empty());
            assert(views(r@) + lines_from(s@, s@.len() as int) == views(before) + lines_from(
                s@,
                i as int,
            ));
            i = s.len();
        } else {
            let end = if j > i && s[j - 1] == '\r' {
                j - 1
            } else {
                j
            };
            let piece = slice_of(s, i, end);
            assert(piece@ == strip_cr(s@.subrange(i as int, j as int)));
            r.push(piece);
            assert(views(r@) == views(before).push(piece@));
            assert(views(r@) + lines_from(s@, j + 1) == views(before) + lines_from(s@, i as int));
            i = j + 1;
        }
    }
    assert(lines_from(s@, i as int) == Seq::<Seq<char>>::empty());
    assert(views(r@) + Seq::<Seq<char>>::empty() == views(r@));
    r
}

pub proof fn lemma_trim_end(s: Seq<char>, j: int)
    requires
        0 <= j <= s.len(),
    ensures
        0 <= trim_end_from(s, j) <= j,
        forall|k: int| trim_end_from(s, j) <= k < j ==> is_ws(#[trigger] s[k]),
        trim_end_from(s, j) > 0 ==> !is_ws(s[trim_end_from(s, j) - 1]),
    decreases j,
{
    if j > 0 && is_ws(s[j - 1]) {
        lemma_trim_end(s, j - 1);
    }
}

/// `str::trim`, as a new vector.
pub fn trim_chars(s: &Vec<char>) -> (r: Vec<char>)
    ensures
        r@ == trim(s@),
{
    let a = next_non_ws(s, 0);
    let mut b = s.len();
    while b > 0 && is_whitespace(s[b - 1])
        invariant
            b <= s.len(),
            trim_end_from(s@, b as int) == trim_end_from(s@, s@.len() as int),
        decreases b,
    {
        b = b - 1;
    }
    if a < b {
        slice_of(s, a, b)
    } else {
        Vec::new()
    }
}

/// Whether `str::trim` leaves nothing of `s`, that is, `s` is all whitespace.
pub fn is_blank(s: &Vec<char>) -> (r: bool)
    ensures
        r == (trim(s@).len() == 0),
{
    let t = trim_chars(s);
    t.len() == 0
}

/// `lines.join(sep)` over character vectors.
pub fn join_chars(lines: &Vec<Vec<char>>, lo: usize, sep: &Vec<char>) -> (r: Vec<char>)
    requires
        lo <= lines.len(),
    ensures
        r@ == join(views(lines@).subrange(lo as int, lines@.len() as int), sep@),
{
    let mut r: Vec<char> = Vec::new();
    let mut k = lo;
    while k < lines.len()
        invariant
            lo <= k <= lines.len(),
            r@ == join(views(lines@).subrange(lo as int, k as int), sep@),
        decreases lines.len() - k,
    {
        let ghost prev = views(lines@).subrange(lo as int, k as int);
        let ghost next = views(lines@).subrange(lo as int, k + 1);
        assert(next.drop_last() == prev);
        assert(next.last() == lines@[k as int]@);
        if k > lo {
            append_chars(&mut r, sep);
        }
        append_chars(&mut r, &lines[k]);
        k = k + 1;
    }
    r
}

/// The decimal digits of `n`.
pub open spec fn decimal(n: nat) -> Seq<char>
    decreases n,
{
    if n < 10 {
        seq![digit_char(n)]
    } else {
        decimal(n / 10).push(digit_char(n % 10))
    }
}

pub open spec fn digit_char(d: nat) -> char {
    if d == 0 {
        '0'
    } else if d == 1 {
        '1'
    } else if d == 2 {
        '2'
    } else if d == 3 {
        '3'
    } else if d == 4 {
        '4'
    } else if d == 5 {
        '5'
    } else if d == 6 {
        '6'
    } else if d == 7 {
        '7'
    } else if d == 8 {
        '8'
    } else {
        '9'
    }
}

fn digit(d: u128) -> (c: char)
    requires
        d < 10,
    ensures
        c == digit_char(d as nat),
{
    if d == 0 {
        '0'
    } else if d == 1 {
        '1'
    } else if d == 2 {
        '2'
    } else if d == 3 {
        '3'
    } else if d == 4 {
        '4'
    } else if d == 5 {
        '5'
    } else if d == 6 {
        '6'
    } else if d == 7 {
        '7'
    } else if d == 8 {
        '8'
    } else {
        '9'
    }
}

/// The decimal digits of `n` (as `u128`'s `Display` writes them).
pub fn decimal_chars(n: u128) -> (r: Vec<char>)
    ensures
        r@ == decimal(n as nat),
    decreases n,
{
    if n < 10 {
        let mut r = Vec::new();
        r.push(digit(n));
        r
    } else {
        let mut r = decimal_chars(n / 10);
        r.push(digit(n % 10));
        r
    }
}

/// `i64`'s `Display`: a minus sign for negative numbers, then the digits of the magnitude.
pub open spec fn int_text(i: int) -> Seq<char> {
    if i < 0 {
        seq!['-'] + decimal((-i) as nat)
    } else {
        decimal(i as nat)
    }
}

pub fn int_chars(i: i64) -> (r: Vec<char>)
    ensures
        r@ == int_text(i as int),
{
    if i < 0 {
        let mag: u128 = (0i128 - (i as i128)) as u128;
        let d = decimal_chars(mag);
        let mut r = Vec::new();
        r.push('-');
        append_chars(&mut r, &d);
        assert(r@ == seq!['-'] + d@);
        r
    } else {
        decimal_chars(i as u128)
    }
}

} // verus!
