//! Whether a request document can be read: the reading of the URI's scheme and of
//! multipart values goes by single bytes, so the characters it reads must be ASCII.
use vstd::prelude::*;

use crate::map::insert_sorted;
use crate::request::parsing::url::{find_chars, lemma_find_from, scheme_sep};
use crate::request::parsing::{InlineParams, parse_inline_params, file_stop, first_nonempty_line, header_lines, lemma_header_lines_end, multipart_line_value, multipart_lines_readable, multipart_method, multipart_readable, multipart_value, raw_body, request_readable};
use crate::runner::value::{Value, field_count};
use crate::text::{ws_split, all_ascii, char_pred, chars_eq_str, chars_of, first_from, is_ascii, is_blank, join_chars, lemma_first_from, lines, next_char, slice_of, split_lines, split_ws, trim, trim_chars, views};

verus! {

/// Whether the characters of `s` from `lo` to `hi` are ASCII.
fn ascii_between(s: &Vec<char>, lo: usize, hi: usize) -> (b: bool)
    requires
        lo <= hi <= s.len(),
    ensures
        b == all_ascii(s@.subrange(lo as int, hi as int)),
{
    let mut k = lo;
    while k < hi
        invariant
            lo <= k <= hi <= s.len(),
            forall|j: int| lo <= j < k ==> crate::text::is_ascii_char(#[trigger] s@[j]),
        decreases hi - k,
    {
        if !is_ascii(s[k]) {
            assert(s@.subrange(lo as int, hi as int)[k - lo] == s@[k as int]);
            return false;
        }
        k = k + 1;
    }
    assert forall|j: int| 0 <= j < hi - lo implies crate::text::is_ascii_char(
        #[trigger] s@.subrange(lo as int, hi as int)[j],
    ) by {
        assert(s@.subrange(lo as int, hi as int)[j] == s@[lo + j]);
    }
    true
}

/// The first index from `i` on that holds `"` or a space.
fn next_file_stop(s: &Vec<char>, i: usize) -> (r: usize)
    requires
        i <= s.len(),
    ensures
        r == first_from(s@, i as int, file_stop()),
{
    let mut k = i;
    while k < s.len() && s[k] != '"' && s[k] != ' '
        invariant
            i <= k <= s.len(),
            first_from(s@, k as int, file_stop()) == first_from(s@, i as int, file_stop()),
        decreases s.len() - k,
    {
        k = k + 1;
    }
    k
}

/// Whether a multipart value can be read (see [`multipart_readable`]).
fn value_readable(v: &Vec<char>) -> (b: bool)
    ensures
        b == multipart_readable(v@),
{
    if v.len() > 0 && v[0] == '"' {
        proof {
            lemma_first_from(v@, 1, char_pred('"'));
        }
        let e = next_char(v, 1, '"');
        ascii_between(v, 1, e)
    } else if v.len() > 0 && v[0] == '@' {
        proof {
            lemma_first_from(v@, 1, file_stop());
        }
        let e = next_file_stop(v, 1);
        ascii_between(v, 1, e)
    } else {
        true
    }
}

/// Whether the multipart lines can be read (see [`multipart_lines_readable`]).
fn lines_readable(ls: &Vec<Vec<char>>) -> (b: bool)
    ensures
        b == multipart_lines_readable(views(ls@), 0),
{
    let ghost lv = views(ls@);
    let mut i: usize = 0;
    while i < ls.len()
        invariant
            lv == views(ls@),
            i <= ls.len(),
            multipart_lines_readable(lv, 0) == multipart_lines_readable(lv, i as int),
        decreases ls.len() - i,
    {
        let l = &ls[i];
        assert(l@ == lv[i as int]);
        let c = next_char(l, 0, ':');
        proof {
            lemma_first_from(l@, 0, char_pred(':'));
        }
        if c >= l.len() {
            return true;
        }
        let v = trim_chars(&slice_of(l, c + 1, l.len()));
        assert(v@ == multipart_line_value(l@));
        if !value_readable(&v) {
            return false;
        }
        if v.len() == 0 || (v[0] != '"' && v[0] != '@') {
            assert(multipart_value(v@) is Err);
            return true;
        }
        assert(multipart_value(v@) is Ok);
        i = i + 1;
    }
    true
}

/// The index of the line after the header lines read from `from` (see
/// [`header_lines`]).
fn header_end(ls: &Vec<Vec<char>>, from: usize) -> (r: usize)
    requires
        from <= ls.len(),
    ensures
        r == header_lines(views(ls@), from as int, Seq::empty()).1,
{
    let ghost lv = views(ls@);
    let ghost mut acc: Seq<(Seq<char>, Seq<char>)> = Seq::empty();
    let mut j = from;
    while j < ls.len()
        invariant
            lv == views(ls@),
            from <= j <= ls.len(),
            header_lines(lv, from as int, Seq::empty()).1 == header_lines(lv, j as int, acc).1,
        decreases ls.len() - j,
    {
        let line = &ls[j];
        assert(line@ == lv[j as int]);
        if line.len() == 0 {
            return j + 1;
        }
        let c = next_char(line, 0, ':');
        proof {
            lemma_first_from(line@, 0, char_pred(':'));
        }
        if c >= line.len() {
            return j;
        }
        proof {
            acc = insert_sorted(
                acc,
                trim(line@.subrange(0, c as int)),
                trim(line@.subrange(c + 1, line@.len() as int)),
            );
        }
        j = j + 1;
    }
    ls.len()
}

/// Whether a request document can be read (see [`request_readable`]).
pub fn readable(doc: &str) -> (b: bool)
    ensures
        b == request_readable(doc@),
{
    let chars = chars_of(doc);
    let ls = split_lines(&chars);
    let ghost lv = lines(doc@);
    let f = first_nonempty_line(&ls);
    if f >= ls.len() {
        return true;
    }
    let parts = split_ws(&ls[f]);
    assert(ls@[f as int]@ == lv[f as int]);
    if parts.len() < 2 {
        return true;
    }
    let uri = &parts[1];
    assert(uri@ == views(parts@)[1]);
    let sep = chars_of("://");
    proof {
        reveal_strlit("://");
        assert("://"@ =~= scheme_sep());
        lemma_find_from(uri@, 0, scheme_sep());
    }
    let k = find_chars(uri, 0, &sep);
    if !ascii_between(uri, 0, k) {
        return false;
    }
    assert(parts@[0]@ == views(parts@)[0]);
    let multipart = chars_eq_str(&parts[0], "MULTIPART");
    proof {
        reveal_strlit("MULTIPART");
        assert("MULTIPART"@ =~= multipart_method());
    }
    if !multipart {
        return true;
    }
    let b = header_end(&ls, f + 1);
    proof {
        lemma_header_lines_end(lv, f + 1, Seq::empty());
    }
    let mut newline: Vec<char> = Vec::new();
    newline.push('\n');
    let raw = join_chars(&ls, b, &newline);
    assert(views(ls@).subrange(b as int, ls@.len() as int) == lv.subrange(b as int, lv.len() as int));
    assert(raw@ == raw_body(doc@));
    if is_blank(&raw) {
        proof {
            assert(views(parts@) == ws_split(lv[f as int]));
        }
        return match parse_inline_params(&parts, 2) {
            Ok(inline_params) => {
                if field_count(&inline_params.body) == 0 {
                    true
                } else {
                    let InlineParams { query: _, headers: _, body: fields, form: _ } = inline_params;
                    let json = Value::Object(fields).to_json();
                    let jl = split_lines(&chars_of(json.as_str()));
                    lines_readable(&jl)
                }
            },
            Err(_) => true,
        };
    }
    let rl = split_lines(&raw);
    lines_readable(&rl)
}

} // verus!
