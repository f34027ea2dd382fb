//! A path model over character strings, with `/` as the separator.
//!
//! The file name is the suffix after the last separator; the parent is what
//! stands before it (the separator itself for an entry directly under the
//! root); the extension is what follows the last dot of the file name, absent
//! when the file name has no dot or only a leading one.  Joining appends a
//! separator only when the base neither is empty nor already ends in one.

use vstd::prelude::*;
use crate::text::{
    append_slice, chars_to_string, find_last, last_occ, lemma_last_occ_bounds, str_to_chars,
    sub_chars,
};

verus! {

/// The file name of `p`: the suffix after the last separator, or all of `p`.
pub open spec fn file_name_spec(p: Seq<char>) -> Seq<char> {
    match last_occ(p, seq!['/']) {
        None => p,
        Some(k) => p.skip(k + 1),
    }
}

/// The parent of `p`: what stands before the last separator, the separator
/// itself when it opens the path, and empty when there is none.
pub open spec fn parent_spec(p: Seq<char>) -> Seq<char> {
    match last_occ(p, seq!['/']) {
        None => Seq::empty(),
        Some(k) => if k == 0 {
            p.subrange(0, 1)
        } else {
            p.subrange(0, k)
        },
    }
}

/// `name` under `base`: a separator is inserted unless `base` is empty or
/// already ends in one.
pub open spec fn join_spec(base: Seq<char>, name: Seq<char>) -> Seq<char> {
    if base.len() == 0 {
        name
    } else if base[base.len() - 1] == '/' {
        base + name
    } else {
        base + seq!['/'] + name
    }
}

/// The position of the extension dot within a file name: the last dot,
/// unless it opens the name.
pub open spec fn dot_split(f: Seq<char>) -> Option<int> {
    match last_occ(f, seq!['.']) {
        None => None,
        Some(k) => if k == 0 {
            None
        } else {
            Some(k)
        },
    }
}

/// The extension of `p`: what follows the extension dot of its file name.
pub open spec fn extension_spec(p: Seq<char>) -> Option<Seq<char>> {
    match dot_split(file_name_spec(p)) {
        None => None,
        Some(k) => Some(file_name_spec(p).skip(k + 1)),
    }
}

/// The stem of `p`: its file name up to the extension dot, or all of it.
pub open spec fn stem_spec(p: Seq<char>) -> Seq<char> {
    match dot_split(file_name_spec(p)) {
        None => file_name_spec(p),
        Some(k) => file_name_spec(p).subrange(0, k),
    }
}

/// `p` with its file name replaced by `name`.
pub open spec fn with_file_name_spec(p: Seq<char>, name: Seq<char>) -> Seq<char> {
    join_spec(parent_spec(p), name)
}

/// `p` with its stem replaced by `new_stem`; an extension, even an empty
/// one, is kept together with its dot.
pub open spec fn with_stem_spec(p: Seq<char>, new_stem: Seq<char>) -> Seq<char> {
    match extension_spec(p) {
        Some(e) => join_spec(parent_spec(p), new_stem + seq!['.'] + e),
        None => join_spec(parent_spec(p), new_stem),
    }
}

/// `p` with its extension replaced by `ext`; an empty `ext` leaves the bare
/// stem without a dot.
pub open spec fn with_extension_spec(p: Seq<char>, ext: Seq<char>) -> Seq<char> {
    if ext.len() == 0 {
        join_spec(parent_spec(p), stem_spec(p))
    } else {
        join_spec(parent_spec(p), stem_spec(p) + seq!['.'] + ext)
    }
}

/// Whether `p` is tidy around its last separator: the separator, if any and
/// not opening the path, does not follow another one.  Splitting a tidy path
/// into parent and file name and joining them back yields the path itself.
pub open spec fn tidy_path(p: Seq<char>) -> bool {
    match last_occ(p, seq!['/']) {
        None => true,
        Some(k) => k == 0 || p[k - 1] != '/',
    }
}

/// A single-character vector.
pub fn one_char_vec(c: char) -> (v: Vec<char>)
    ensures
        v@ == seq![c],
{
    let mut v: Vec<char> = Vec::new();
    v.push(c);
    proof {
        assert(v@ =~= seq![c]);
    }
    v
}

/// The file name of `p`.
pub fn file_name_chars(p: &[char]) -> (v: Vec<char>)
    ensures
        v@ == file_name_spec(p@),
{
    let sep = one_char_vec('/');
    match find_last(p, sep.as_slice()) {
        None => {
            let v = sub_chars(p, 0, p.len());
            proof {
                assert(v@ =~= p@);
            }
            v
        },
        Some(k) => {
            proof {
                lemma_last_occ_bounds(p@, seq!['/'], p@.len() - 1, k as int);
            }
            let n = p.len();
            let v = sub_chars(p, k + 1, n);
            proof {
                assert(v@ =~= p@.skip(k + 1));
            }
            v
        },
    }
}

/// The parent of `p`.
pub fn parent_chars(p: &[char]) -> (v: Vec<char>)
    ensures
        v@ == parent_spec(p@),
{
    let sep = one_char_vec('/');
    match find_last(p, sep.as_slice()) {
        None => {
            let v: Vec<char> = Vec::new();
            proof {
                assert(v@ =~= parent_spec(p@));
            }
            v
        },
        Some(k) => {
            proof {
                lemma_last_occ_bounds(p@, seq!['/'], p@.len() - 1, k as int);
            }
            if k == 0 {
                sub_chars(p, 0, 1)
            } else {
                sub_chars(p, 0, k)
            }
        },
    }
}

/// `name` under `base`.
pub fn join_chars(base: &[char], name: &[char]) -> (v: Vec<char>)
    ensures
        v@ == join_spec(base@, name@),
{
    let mut v: Vec<char> = Vec::new();
    if base.len() == 0 {
        append_slice(&mut v, name);
        proof {
            assert(v@ =~= name@);
        }
        return v;
    }
    append_slice(&mut v, base);
    if base[base.len() - 1] != '/' {
        v.push('/');
        proof {
            assert(v@ =~= base@ + seq!['/']);
        }
    }
    append_slice(&mut v, name);
    proof {
        assert(v@ =~= join_spec(base@, name@));
    }
    v
}

/// The position of the extension dot within the file name `f`, if any.
pub fn dot_index(f: &[char]) -> (r: Option<usize>)
    ensures
        match r {
            Some(k) => dot_split(f@) == Some(k as int) && 1 <= k < f@.len(),
            None => dot_split(f@) is None,
        },
{
    let dot = one_char_vec('.');
    match find_last(f, dot.as_slice()) {
        None => None,
        Some(k) => {
            proof {
                lemma_last_occ_bounds(f@, seq!['.'], f@.len() - 1, k as int);
            }
            if k == 0 {
                None
            } else {
                Some(k)
            }
        },
    }
}

/// The extension of `p`, if any.
pub fn extension_chars(p: &[char]) -> (r: Option<Vec<char>>)
    ensures
        match r {
            Some(e) => extension_spec(p@) == Some(e@),
            None => extension_spec(p@) is None,
        },
{
    let f = file_name_chars(p);
    match dot_index(f.as_slice()) {
        None => None,
        Some(k) => {
            let n = f.len();
            let e = sub_chars(f.as_slice(), k + 1, n);
            proof {
                assert(e@ =~= file_name_spec(p@).skip(k + 1));
            }
            Some(e)
        },
    }
}

/// The stem of `p`.
pub fn stem_chars(p: &[char]) -> (v: Vec<char>)
    ensures
        v@ == stem_spec(p@),
{
    let f = file_name_chars(p);
    match dot_index(f.as_slice()) {
        None => f,
        Some(k) => sub_chars(f.as_slice(), 0, k),
    }
}

/// `p` with its file name replaced by `name`.
pub fn with_file_name_chars(p: &[char], name: &[char]) -> (v: Vec<char>)
    ensures
        v@ == with_file_name_spec(p@, name@),
{
    let parent = parent_chars(p);
    join_chars(parent.as_slice(), name)
}

/// `p` with its extension replaced by `ext`.
pub fn with_extension_chars(p: &[char], ext: &[char]) -> (v: Vec<char>)
    ensures
        v@ == with_extension_spec(p@, ext@),
{
    let parent = parent_chars(p);
    let stem = stem_chars(p);
    if ext.len() == 0 {
        join_chars(parent.as_slice(), stem.as_slice())
    } else {
        let mut name = stem;
        name.push('.');
        append_slice(&mut name, ext);
        proof {
            assert(name@ =~= stem_spec(p@) + seq!['.'] + ext@);
        }
        join_chars(parent.as_slice(), name.as_slice())
    }
}

/// `p` with its stem replaced by `new_stem`.
pub fn with_stem_chars(p: &[char], new_stem: &[char]) -> (v: Vec<char>)
    ensures
        v@ == with_stem_spec(p@, new_stem@),
{
    let parent = parent_chars(p);
    match extension_chars(p) {
        Some(e) => {
            let mut name = sub_chars(new_stem, 0, new_stem.len());
            name.push('.');
            append_slice(&mut name, e.as_slice());
            proof {
                assert(name@ =~= new_stem@ + seq!['.'] + extension_spec(p@)->Some_0);
            }
            join_chars(parent.as_slice(), name.as_slice())
        },
        None => join_chars(parent.as_slice(), new_stem),
    }
}

/// Rebuilds a path under its parent with a new stem, keeping the extension
/// and its dot when the path has one.
pub fn with_stem(path: &str, new_stem: &str) -> (res: Result<String, String>)
    ensures
        res matches Ok(out) && out@ == with_stem_spec(path@, new_stem@),
{
    let pv = str_to_chars(path);
    let sv = str_to_chars(new_stem);
    let v = with_stem_chars(pv.as_slice(), sv.as_slice());
    Ok(chars_to_string(v.as_slice()))
}

/// Splitting a tidy path into parent and file name and joining them back
/// yields the path itself.
pub proof fn lemma_join_parent_file(p: Seq<char>)
    requires
        tidy_path(p),
    ensures
        join_spec(parent_spec(p), file_name_spec(p)) == p,
{
    match last_occ(p, seq!['/']) {
        None => {
            assert(join_spec(parent_spec(p), file_name_spec(p)) =~= p);
        },
        Some(k) => {
            lemma_last_occ_bounds(p, seq!['/'], p.len() - 1, k);
            assert(p.subrange(k, k + 1) == seq!['/']);
            assert(p[k] == '/') by {
                assert(p.subrange(k, k + 1)[0] == p[k]);
            }
            if k == 0 {
                assert(parent_spec(p) == p.subrange(0, 1));
                assert(parent_spec(p)[0] == '/');
                assert(join_spec(parent_spec(p), file_name_spec(p)) =~= p);
            } else {
                assert(p[k - 1] != '/');
                assert(parent_spec(p) == p.subrange(0, k));
                assert(parent_spec(p)[k - 1] == p[k - 1]);
                assert(join_spec(parent_spec(p), file_name_spec(p)) =~= p);
            }
        },
    }
}

/// A file name splits into its stem and, when present, its dot and
/// extension.
pub proof fn lemma_stem_extension(p: Seq<char>)
    ensures
        match extension_spec(p) {
            Some(e) => stem_spec(p) + seq!['.'] + e == file_name_spec(p),
            None => stem_spec(p) == file_name_spec(p),
        },
{
    let f = file_name_spec(p);
    match dot_split(f) {
        None => {
        },
        Some(k) => {
            lemma_last_occ_bounds(f, seq!['.'], f.len() - 1, k);
            assert(f.subrange(k, k + 1) == seq!['.']);
            assert(f[k] == '.') by {
                assert(f.subrange(k, k + 1)[0] == f[k]);
            }
            assert(stem_spec(p) + seq!['.'] + extension_spec(p)->Some_0 =~= f);
        },
    }
}

/// Putting a tidy path's own stem back yields the path itself.
pub proof fn lemma_with_stem_identity(p: Seq<char>)
    requires
        tidy_path(p),
    ensures
        with_stem_spec(p, stem_spec(p)) == p,
{
    lemma_stem_extension(p);
    lemma_join_parent_file(p);
}

/// Putting a tidy path's own file name back yields the path itself.
pub proof fn lemma_with_file_name_identity(p: Seq<char>)
    requires
        tidy_path(p),
    ensures
        with_file_name_spec(p, file_name_spec(p)) == p,
{
    lemma_join_parent_file(p);
}

/// Putting a tidy path's own extension back yields the path itself.
pub proof fn lemma_with_extension_identity(p: Seq<char>)
    requires
        tidy_path(p),
        extension_spec(p) is Some,
        extension_spec(p)->Some_0.len() > 0,
    ensures
        with_extension_spec(p, extension_spec(p)->Some_0) == p,
{
    lemma_stem_extension(p);
    lemma_join_parent_file(p);
}


/// The file name, stem and extension are no longer than the path itself.
pub proof fn lemma_field_lengths(p: Seq<char>)
    ensures
        file_name_spec(p).len() <= p.len(),
        stem_spec(p).len() <= p.len(),
        extension_spec(p) is Some ==> extension_spec(p)->Some_0.len() <= p.len(),
{
    let f = file_name_spec(p);
    match last_occ(p, seq!['/']) {
        None => {},
        Some(k) => {
            lemma_last_occ_bounds(p, seq!['/'], p.len() - 1, k);
        },
    }
    match dot_split(f) {
        None => {},
        Some(k) => {
            lemma_last_occ_bounds(f, seq!['.'], f.len() - 1, k);
        },
    }
}

} // verus!
