//! How a number held as decimal text is displayed: in positional notation, with no
//! exponent, no leading zero before the units, no trailing zero after the point, and
//! no point when the number is whole (as `f64`'s `Display` writes a number whose
//! shortest digits the text holds).
use vstd::prelude::*;

use crate::text::{append_chars, char_pred, first_from, lemma_first_from, next_char, slice_of};

verus! {

pub open spec fn is_digit(c: char) -> bool {
    '0' <= c && c <= '9'
}

pub open spec fn all_digits(s: Seq<char>) -> bool {
    forall|i: int| 0 <= i < s.len() ==> is_digit(#[trigger] s[i])
}

/// The value of a string of decimal digits.
pub open spec fn digits_value(s: Seq<char>) -> nat
    decreases s.len(),
{
    if s.len() == 0 {
        0
    } else {
        digits_value(s.drop_last()) * 10 + (((s.last() as nat) - ('0' as nat)) as nat)
    }
}

pub open spec fn exp_pred() -> spec_fn(char) -> bool {
    |c: char| c == 'e' || c == 'E'
}

pub open spec fn nonzero_pred() -> spec_fn(char) -> bool {
    |c: char| c != '0'
}

/// `s` without the sign it starts with, if any.
pub open spec fn unsigned(s: Seq<char>) -> Seq<char> {
    if s.len() > 0 && (s[0] == '-' || s[0] == '+') {
        s.drop_first()
    } else {
        s
    }
}

/// A number as a sign, a string of digits, and the place of the decimal point
/// among them (counted from the first digit; it may lie before or after them).
pub struct DecimalParts {
    pub negative: bool,
    pub digits: Seq<char>,
    pub point: int,
}

/// The parts of a number written `[sign] digits [. digits] [e [sign] digits]`, with
/// at least one digit before the exponent and at most three in it; `None` for any
/// other text.
pub open spec fn decimal_parts(t: Seq<char>) -> Option<DecimalParts> {
    let u = unsigned(t);
    let e = first_from(u, 0, exp_pred());
    let m = u.take(e);
    let d = first_from(m, 0, char_pred('.'));
    let a = m.take(d);
    let f = if d < m.len() {
        m.skip(d + 1)
    } else {
        Seq::empty()
    };
    let x = if e < u.len() {
        unsigned(u.skip(e + 1))
    } else {
        Seq::empty()
    };
    let x_negative = e < u.len() && u.len() - e > 1 && u[e + 1] == '-';
    if all_digits(a) && all_digits(f) && a.len() + f.len() > 0 && (e < u.len() ==> 0 < x.len()
        <= 3 && all_digits(x)) {
        let xv = if x_negative {
            -(digits_value(x) as int)
        } else {
            digits_value(x) as int
        };
        Some(DecimalParts { negative: t.len() > 0 && t[0] == '-', digits: a + f, point: a.len() + xv })
    } else {
        None
    }
}

/// The length of `s.take(j)` without its trailing zeros.
pub open spec fn trail_end(s: Seq<char>, j: int) -> int
    decreases j,
{
    if j <= 0 {
        0
    } else if s[j - 1] != '0' {
        j
    } else {
        trail_end(s, j - 1)
    }
}

pub open spec fn zeros(n: int) -> Seq<char> {
    Seq::new(n as nat, |i: int| '0')
}

/// A number in positional notation: its significant digits (leading and trailing
/// zeros dropped), with `0.` and zeros before them when the point lies before them,
/// zeros after them when it lies after them, and the point between them otherwise;
/// `0` when no digit is significant; `-` in front of a negative number.
pub open spec fn plain_decimal(p: DecimalParts) -> Seq<char> {
    let z = first_from(p.digits, 0, nonzero_pred());
    let rest = p.digits.skip(z);
    let ds = rest.take(trail_end(rest, rest.len() as int));
    let point = p.point - z;
    let body = if ds.len() == 0 {
        seq!['0']
    } else if point <= 0 {
        seq!['0', '.'] + zeros(-point) + ds
    } else if point >= ds.len() {
        ds + zeros(point - ds.len())
    } else {
        ds.take(point) + seq!['.'] + ds.skip(point)
    };
    if p.negative {
        seq!['-'] + body
    } else {
        body
    }
}

/// How the number written `t` is displayed (see [`plain_decimal`]); a text that is
/// not a number is displayed as it is.
pub open spec fn number_display(t: Seq<char>) -> Seq<char> {
    match decimal_parts(t) {
        Some(p) => plain_decimal(p),
        None => t,
    }
}

proof fn lemma_trail_end(s: Seq<char>, j: int)
    requires
        0 <= j <= s.len(),
    ensures
        0 <= trail_end(s, j) <= j,
    decreases j,
{
    if j > 0 && s[j - 1] == '0' {
        lemma_trail_end(s, j - 1);
    }
}

fn find_exp(s: &Vec<char>) -> (r: usize)
    ensures
        r == first_from(s@, 0, exp_pred()),
{
    let mut k: usize = 0;
    while k < s.len() && s[k] != 'e' && s[k] != 'E'
        invariant
            k <= s.len(),
            first_from(s@, k as int, exp_pred()) == first_from(s@, 0, exp_pred()),
        decreases s.len() - k,
    {
        k = k + 1;
    }
    k
}

fn find_nonzero(s: &Vec<char>) -> (r: usize)
    ensures
        r == first_from(s@, 0, nonzero_pred()),
{
    let mut k: usize = 0;
    while k < s.len() && s[k] == '0'
        invariant
            k <= s.len(),
            first_from(s@, k as int, nonzero_pred()) == first_from(s@, 0, nonzero_pred()),
        decreases s.len() - k,
    {
        k = k + 1;
    }
    k
}

fn trailing_end(s: &Vec<char>) -> (r: usize)
    ensures
        r == trail_end(s@, s@.len() as int),
{
    let mut j: usize = s.len();
    while j > 0 && s[j - 1] == '0'
        invariant
            j <= s.len(),
            trail_end(s@, j as int) == trail_end(s@, s@.len() as int),
        decreases j,
    {
        j = j - 1;
    }
    j
}

fn check_digits(s: &Vec<char>) -> (r: bool)
    ensures
        r == all_digits(s@),
{
    let mut k: usize = 0;
    while k < s.len()
        invariant
            k <= s.len(),
            forall|i: int| 0 <= i < k ==> is_digit(#[trigger] s@[i]),
        decreases s.len() - k,
    {
        if s[k] < '0' || s[k] > '9' {
            return false;
        }
        k = k + 1;
    }
    true
}

fn digits_u32(s: &Vec<char>) -> (r: u32)
    requires
        all_digits(s@),
        s.len() <= 3,
    ensures
        r == digits_value(s@),
        r < 1000,
{
    let mut v: u32 = 0;
    let mut k: usize = 0;
    assert(s@.take(0) =~= Seq::<char>::empty());
    while k < s.len()
        invariant
            k <= s.len() <= 3,
            all_digits(s@),
            v == digits_value(s@.take(k as int)),
            k == 0 ==> v < 1,
            k == 1 ==> v < 10,
            k == 2 ==> v < 100,
            k == 3 ==> v < 1000,
        decreases s.len() - k,
    {
        let c = s[k];
        assert(is_digit(s@[k as int]));
        let dv = (c as u32) - ('0' as u32);
        assert(s@.take(k + 1).drop_last() =~= s@.take(k as int));
        v = v * 10 + dv;
        k = k + 1;
    }
    assert(s@.take(s.len() as int) =~= s@);
    v
}

/// Appends `n` zeros.
fn push_zeros(out: &mut Vec<char>, n: i128)
    requires
        n >= 0,
    ensures
        final(out)@ == old(out)@ + zeros(n as int),
{
    let ghost start = out@;
    let mut k: i128 = 0;
    assert(start + zeros(0) =~= start);
    while k < n
        invariant
            0 <= k <= n,
            out@ == start + zeros(k as int),
        decreases n - k,
    {
        out.push('0');
        assert(start + zeros(k + 1) =~= (start + zeros(k as int)).push('0'));
        k = k + 1;
    }
}

/// Writes a number from its parts (see [`plain_decimal`]).
fn plain(negative: bool, digits: &Vec<char>, point: i128) -> (r: Vec<char>)
    requires
        -1000 <= point <= 0x1_0000_0000_0000_0000_0000,
    ensures
        r@ == plain_decimal(DecimalParts { negative, digits: digits@, point: point as int }),
{
    let ghost pd = DecimalParts { negative, digits: digits@, point: point as int };
    let z = find_nonzero(digits);
    proof {
        lemma_first_from(digits@, 0, nonzero_pred());
    }
    let rest = slice_of(digits, z, digits.len());
    assert(rest@ == digits@.skip(z as int));
    let te = trailing_end(&rest);
    proof {
        lemma_trail_end(rest@, rest@.len() as int);
    }
    let ds = slice_of(&rest, 0, te);
    assert(ds@ == rest@.take(te as int));
    let p: i128 = point - (z as i128);
    let mut r: Vec<char> = Vec::new();
    if negative {
        r.push('-');
    }
    let ghost lead = r@;
    assert(lead == if negative { seq!['-'] } else { Seq::<char>::empty() });
    if ds.len() == 0 {
        r.push('0');
        assert(r@ =~= lead + seq!['0']);
    } else if p <= 0 {
        r.push('0');
        r.push('.');
        push_zeros(&mut r, -p);
        append_chars(&mut r, &ds);
        assert(r@ =~= lead + (seq!['0', '.'] + zeros(-p as int) + ds@));
    } else if p >= ds.len() as i128 {
        append_chars(&mut r, &ds);
        push_zeros(&mut r, p - ds.len() as i128);
        assert(r@ =~= lead + (ds@ + zeros(p - ds.len())));
    } else {
        let q = p as usize;
        let head = slice_of(&ds, 0, q);
        let tail = slice_of(&ds, q, ds.len());
        append_chars(&mut r, &head);
        r.push('.');
        append_chars(&mut r, &tail);
        assert(r@ =~= lead + (ds@.take(q as int) + seq!['.'] + ds@.skip(q as int)));
    }
    proof {
        if negative {
            assert(plain_decimal(pd) =~= seq!['-'] + (r@.skip(1)));
        }
    }
    r
}

/// The parts of the number written `t`, the digits and the place of the point (see
/// [`decimal_parts`]).
#[verifier::rlimit(40)]
fn parts_of(t: &Vec<char>) -> (r: Option<(Vec<char>, i128)>)
    ensures
        match decimal_parts(t@) {
            None => r is None,
            Some(p) => r matches Some((ds, pt)) && ds@ == p.digits && pt == p.point && -1000 <= pt
                <= 0x1_0000_0000_0000_0000_0000,
        },
{
    let signed = t.len() > 0 && (t[0] == '-' || t[0] == '+');
    let u = if signed {
        slice_of(t, 1, t.len())
    } else {
        slice_of(t, 0, t.len())
    };
    assert(u@ =~= unsigned(t@));
    let e = find_exp(&u);
    proof {
        lemma_first_from(u@, 0, exp_pred());
    }
    let m = slice_of(&u, 0, e);
    assert(m@ =~= u@.take(e as int));
    let d = next_char(&m, 0, '.');
    proof {
        lemma_first_from(m@, 0, char_pred('.'));
    }
    let a = slice_of(&m, 0, d);
    let f = if d < m.len() {
        slice_of(&m, d + 1, m.len())
    } else {
        Vec::new()
    };
    let x = if e < u.len() {
        let xs = slice_of(&u, e + 1, u.len());
        if xs.len() > 0 && (xs[0] == '-' || xs[0] == '+') {
            slice_of(&xs, 1, xs.len())
        } else {
            xs
        }
    } else {
        Vec::new()
    };
    let x_negative = e < u.len() && u.len() - e > 1 && u[e + 1] == '-';
    assert(a@ =~= m@.take(d as int));
    assert(f@ =~= if d < m@.len() { m@.skip(d + 1) } else { Seq::<char>::empty() });
    assert(x@ =~= if e < u@.len() { unsigned(u@.skip(e + 1)) } else { Seq::<char>::empty() });
    let exponent_ok = e >= u.len() || (x.len() > 0 && x.len() <= 3 && check_digits(&x));
    if !(check_digits(&a) && check_digits(&f) && (a.len() > 0 || f.len() > 0) && exponent_ok) {
        return None;
    }
    let magnitude: u32 = if e < u.len() {
        digits_u32(&x)
    } else {
        0
    };
    let mut digits = slice_of(&a, 0, a.len());
    append_chars(&mut digits, &f);
    let shift: i128 = if x_negative {
        -(magnitude as i128)
    } else {
        magnitude as i128
    };
    let point: i128 = (a.len() as i128) + shift;
    assert(digits@ =~= a@ + f@);
    assert(x_negative == (e + 1 < u@.len() && u@[e + 1] == '-'));
    assert(magnitude == digits_value(x@));
    Some((digits, point))
}

/// The display of the number written `t` (see [`number_display`]).
pub fn display_number(t: &Vec<char>) -> (r: Vec<char>)
    ensures
        r@ == number_display(t@),
{
    let negative = t.len() > 0 && t[0] == '-';
    match parts_of(t) {
        Some((digits, point)) => plain(negative, &digits, point),
        None => slice_of(t, 0, t.len()),
    }
}

} // verus!
