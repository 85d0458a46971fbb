//! The resources of a space (requests, environments, scripts) as a tree of
//! collections, and how such a tree is listed.
use vstd::prelude::*;

use crate::text::{append_chars, chars_of, slice_of, string_from, string_of};

verus! {

/// An entry of a collection: a resource, by its path relative to the collection's
/// root (without its extension), or a sub-collection, by its directory's name.
#[derive(Debug, PartialEq, Eq)]
pub enum RequestsCollectionEntry {
    Request(String),
    Collection(String, Box<Vec<RequestsCollectionEntry>>),
}

impl RequestsCollectionEntry {
    /// The name an entry is listed by: a request's path, or a collection's name.
    pub fn name(&self) -> (r: &String)
        ensures
            match self {
                RequestsCollectionEntry::Request(p) => r == p,
                RequestsCollectionEntry::Collection(n, _) => r == n,
            },
    {
        match self {
            RequestsCollectionEntry::Request(p) => p,
            RequestsCollectionEntry::Collection(n, _) => n,
        }
    }
}

/// `n` spaces.
pub open spec fn spaces(n: nat) -> Seq<char> {
    Seq::new(n, |i: int| ' ')
}

/// The lines that list the entries of `es` from the `i`-th on, each preceded by
/// `indent`: each shown entry on a line of its own, each collection followed by its
/// own entries indented by one space more; resources are shown when `files` is set,
/// collections when `dirs` is.
pub open spec fn tree_lines(
    es: Seq<RequestsCollectionEntry>,
    i: int,
    indent: Seq<char>,
    files: bool,
    dirs: bool,
) -> Seq<Seq<char>>
    decreases es, es.len() - i,
{
    if i < 0 || i >= es.len() {
        Seq::empty()
    } else {
        let here = match es[i] {
            RequestsCollectionEntry::Request(name) => if files {
                seq![indent + name@]
            } else {
                Seq::empty()
            },
            RequestsCollectionEntry::Collection(name, items) => {
                proof {
                    assert(decreases_to!(es => es[i]));
                    assert(decreases_to!(es[i] => es[i]->Collection_1));
                    assert(decreases_to!(*items => items@));
                }
                (if dirs {
                    seq![indent + name@]
                } else {
                    Seq::empty()
                }) + tree_lines(items@, 0, indent.push(' '), files, dirs)
            },
        };
        here + tree_lines(es, i + 1, indent, files, dirs)
    }
}

/// The views of a list of lines.
pub open spec fn line_views(v: Seq<String>) -> Seq<Seq<char>> {
    v.map_values(|s: String| s@)
}

/// Appends the lines that list `es` (see [`tree_lines`]) to `out`.
fn push_tree_lines(
    out: &mut Vec<String>,
    es: &Vec<RequestsCollectionEntry>,
    indent: &Vec<char>,
    files: bool,
    dirs: bool,
)
    ensures
        line_views(final(out)@) == line_views(old(out)@) + tree_lines(es@, 0, indent@, files, dirs),
    decreases es@,
{
    let ghost start = line_views(out@);
    let mut i: usize = 0;
    proof {
        assert(start + tree_lines(es@, 0, indent@, files, dirs) =~= line_views(out@) + tree_lines(
            es@,
            0,
            indent@,
            files,
            dirs,
        ));
    }
    while i < es.len()
        invariant
            i <= es.len(),
            line_views(out@) + tree_lines(es@, i as int, indent@, files, dirs) == start + tree_lines(
                es@,
                0,
                indent@,
                files,
                dirs,
            ),
        decreases es.len() - i,
    {
        let ghost before = line_views(out@);
        let ghost here: Seq<Seq<char>>;
        match &es[i] {
            RequestsCollectionEntry::Request(name) => {
                if files {
                    let mut line = slice_all(indent);
                    append_chars(&mut line, &chars_of(name.as_str()));
                    out.push(string_from(&line));
                }
                proof {
                    here = if files {
                        seq![indent@ + name@]
                    } else {
                        Seq::empty()
                    };
                    assert(line_views(out@) =~= before + here);
                }
            },
            RequestsCollectionEntry::Collection(name, items) => {
                if dirs {
                    let mut line = slice_all(indent);
                    append_chars(&mut line, &chars_of(name.as_str()));
                    out.push(string_from(&line));
                }
                let ghost head: Seq<Seq<char>> = if dirs {
                    seq![indent@ + name@]
                } else {
                    Seq::empty()
                };
                assert(line_views(out@) =~= before + head);
                let mut deeper = slice_all(indent);
                deeper.push(' ');
                proof {
                    assert(decreases_to!(es@ => es@[i as int]));
                    assert(decreases_to!(es@[i as int] => es@[i as int]->Collection_1));
                    assert(decreases_to!(**items => (**items)@));
                }
                push_tree_lines(out, &**items, &deeper, files, dirs);
                proof {
                    here = head + tree_lines(items@, 0, indent@.push(' '), files, dirs);
                    assert(line_views(out@) =~= before + here);
                }
            },
        }
        proof {
            assert(tree_lines(es@, i as int, indent@, files, dirs) == here + tree_lines(
                es@,
                i + 1,
                indent@,
                files,
                dirs,
            ));
            assert(before + here + tree_lines(es@, i + 1, indent@, files, dirs) =~= before + (here
                + tree_lines(es@, i + 1, indent@, files, dirs)));
        }
        i = i + 1;
    }
}

/// A copy of `v`.
fn slice_all(v: &Vec<char>) -> (r: Vec<char>)
    ensures
        r@ == v@,
{
    let r = crate::text::slice_of(v, 0, v.len());
    assert(v@.subrange(0, v@.len() as int) =~= v@);
    r
}

/// The lines that list a tree (see [`tree_lines`]), starting `level` spaces in.
pub fn output_tree(level: usize, root: &Vec<RequestsCollectionEntry>, files: bool, dirs: bool) -> (r: Vec<
    String,
>)
    ensures
        line_views(r@) == tree_lines(root@, 0, spaces(level as nat), files, dirs),
{
    let mut indent: Vec<char> = Vec::new();
    let mut k: usize = 0;
    while k < level
        invariant
            k <= level,
            indent@ == spaces(k as nat),
        decreases level - k,
    {
        indent.push(' ');
        k = k + 1;
        assert(indent@ =~= spaces(k as nat));
    }
    let mut out: Vec<String> = Vec::new();
    push_tree_lines(&mut out, root, &indent, files, dirs);
    assert(line_views(out@) =~= Seq::<Seq<char>>::empty() + tree_lines(root@, 0, indent@, files, dirs));
    out
}

/// The path of a collection under `prefix`: its name, after `prefix/` when the
/// prefix is not empty.
pub open spec fn joined(prefix: Seq<char>, name: Seq<char>) -> Seq<char> {
    if prefix.len() == 0 {
        name
    } else {
        prefix + seq!['/'] + name
    }
}

/// The names of the entries of `es` from the `i`-th on, depth first, as candidates
/// to pick from: resources by their path (when `files` is set), collections by their
/// path under `prefix` (when `dirs` is).
pub open spec fn flat_list(
    es: Seq<RequestsCollectionEntry>,
    i: int,
    prefix: Seq<char>,
    files: bool,
    dirs: bool,
) -> Seq<Seq<char>>
    decreases es, es.len() - i,
{
    if i < 0 || i >= es.len() {
        Seq::empty()
    } else {
        let here = match es[i] {
            RequestsCollectionEntry::Request(name) => if files {
                seq![name@]
            } else {
                Seq::empty()
            },
            RequestsCollectionEntry::Collection(name, items) => {
                proof {
                    assert(decreases_to!(es => es[i]));
                    assert(decreases_to!(es[i] => es[i]->Collection_1));
                    assert(decreases_to!(*items => items@));
                }
                (if dirs {
                    seq![joined(prefix, name@)]
                } else {
                    Seq::empty()
                }) + flat_list(items@, 0, joined(prefix, name@), files, dirs)
            },
        };
        here + flat_list(es, i + 1, prefix, files, dirs)
    }
}

/// The path of a collection under `prefix` (see [`joined`]).
fn join_name(prefix: &Vec<char>, name: &String) -> (r: Vec<char>)
    ensures
        r@ == joined(prefix@, name@),
{
    let mut out = slice_all(prefix);
    if prefix.len() > 0 {
        out.push('/');
    }
    append_chars(&mut out, &chars_of(name.as_str()));
    out
}

fn push_flat_list(
    out: &mut Vec<String>,
    es: &Vec<RequestsCollectionEntry>,
    prefix: &Vec<char>,
    files: bool,
    dirs: bool,
)
    ensures
        line_views(final(out)@) == line_views(old(out)@) + flat_list(es@, 0, prefix@, files, dirs),
    decreases es@,
{
    let ghost start = line_views(out@);
    let mut i: usize = 0;
    proof {
        assert(start + flat_list(es@, 0, prefix@, files, dirs) =~= line_views(out@) + flat_list(
            es@,
            0,
            prefix@,
            files,
            dirs,
        ));
    }
    while i < es.len()
        invariant
            i <= es.len(),
            line_views(out@) + flat_list(es@, i as int, prefix@, files, dirs) == start + flat_list(
                es@,
                0,
                prefix@,
                files,
                dirs,
            ),
        decreases es.len() - i,
    {
        let ghost before = line_views(out@);
        let ghost here: Seq<Seq<char>>;
        match &es[i] {
            RequestsCollectionEntry::Request(name) => {
                if files {
                    out.push(name.clone());
                }
                proof {
                    here = if files {
                        seq![name@]
                    } else {
                        Seq::empty()
                    };
                    assert(line_views(out@) =~= before + here);
                }
            },
            RequestsCollectionEntry::Collection(name, items) => {
                let full = join_name(prefix, name);
                if dirs {
                    out.push(string_from(&full));
                }
                let ghost head: Seq<Seq<char>> = if dirs {
                    seq![full@]
                } else {
                    Seq::empty()
                };
                assert(line_views(out@) =~= before + head);
                proof {
                    assert(decreases_to!(es@ => es@[i as int]));
                    assert(decreases_to!(es@[i as int] => es@[i as int]->Collection_1));
                    assert(decreases_to!(**items => (**items)@));
                }
                push_flat_list(out, &**items, &full, files, dirs);
                proof {
                    here = head + flat_list(items@, 0, full@, files, dirs);
                    assert(line_views(out@) =~= before + here);
                }
            },
        }
        proof {
            assert(flat_list(es@, i as int, prefix@, files, dirs) == here + flat_list(
                es@,
                i + 1,
                prefix@,
                files,
                dirs,
            ));
            assert(before + here + flat_list(es@, i + 1, prefix@, files, dirs) =~= before + (here
                + flat_list(es@, i + 1, prefix@, files, dirs)));
        }
        i = i + 1;
    }
}

/// The names of a tree's entries to pick from (see [`flat_list`]).
pub fn tree_flat_list(root: &Vec<RequestsCollectionEntry>, files: bool, dirs: bool) -> (r: Vec<String>)
    ensures
        line_views(r@) == flat_list(root@, 0, Seq::empty(), files, dirs),
{
    let mut out: Vec<String> = Vec::new();
    let prefix: Vec<char> = Vec::new();
    push_flat_list(&mut out, root, &prefix, files, dirs);
    assert(line_views(out@) =~= Seq::<Seq<char>>::empty() + flat_list(root@, 0, prefix@, files, dirs));
    out
}

/// The index of the last `c` in `s`, or -1 when there is none.
pub open spec fn last_index_of(s: Seq<char>, c: char) -> int
    decreases s.len(),
{
    if s.len() == 0 {
        -1
    } else if s.last() == c {
        s.len() - 1
    } else {
        last_index_of(s.drop_last(), c)
    }
}

proof fn lemma_last_index_of(s: Seq<char>, c: char)
    ensures
        -1 <= last_index_of(s, c) < s.len(),
    decreases s.len(),
{
    if s.len() > 0 && s.last() != c {
        lemma_last_index_of(s.drop_last(), c);
    }
}

/// A relative path without the extension of its file name: the file name (after the
/// last `/`) is cut at its last `.`, unless that dot is its first character.
pub open spec fn without_extension(s: Seq<char>) -> Seq<char> {
    let start = last_index_of(s, '/') + 1;
    let dot = last_index_of(s.skip(start), '.');
    if dot > 0 {
        s.take(start + dot)
    } else {
        s
    }
}

fn last_index(s: &Vec<char>, c: char) -> (r: Option<usize>)
    ensures
        match r {
            Some(i) => i == last_index_of(s@, c),
            None => last_index_of(s@, c) == -1,
        },
{
    let mut j: usize = s.len();
    assert(s@.take(j as int) =~= s@);
    while j > 0 && s[j - 1] != c
        invariant
            j <= s.len(),
            last_index_of(s@.take(j as int), c) == last_index_of(s@, c),
        decreases j,
    {
        assert(s@.take(j as int).drop_last() =~= s@.take(j - 1));
        j = j - 1;
    }
    if j == 0 {
        None
    } else {
        Some(j - 1)
    }
}

/// The name of a resource from its path relative to the collection's root: the path
/// without its extension (see [`without_extension`]).
pub fn resource_name(relative: &str) -> (r: String)
    ensures
        r@ == without_extension(relative@),
{
    let s = chars_of(relative);
    proof {
        lemma_last_index_of(s@, '/');
    }
    let start = match last_index(&s, '/') {
        Some(i) => i + 1,
        None => 0,
    };
    let name = slice_of(&s, start, s.len());
    assert(name@ =~= s@.skip(start as int));
    proof {
        lemma_last_index_of(name@, '.');
    }
    match last_index(&name, '.') {
        Some(d) => {
            if d > 0 {
                string_of(&s, 0, start + d)
            } else {
                string_from(&s)
            }
        },
        None => string_from(&s),
    }
}

} // verus!
