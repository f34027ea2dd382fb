//! Character-sequence utilities shared by the replacement engine, the path
//! model and the filter: conversions between `&str`/`String` and `Vec<char>`,
//! literal substring search, global literal replacement, decimal formatting,
//! and Unicode case folding.

use vstd::prelude::*;

verus! {

/// The Unicode lower-case form of a character sequence.
pub uninterp spec fn lower_of(s: Seq<char>) -> Seq<char>;

/// Relies on `str::to_lowercase`: the result depends on the characters
/// alone.
#[verifier::external_body]
pub(crate) fn lowercase(s: &str) -> (r: String)
    ensures
        r@ == lower_of(s@),
{
    s.to_lowercase()
}

/// Relies on `String::push`: appends the given character to the end of the
/// string.
#[verifier::external_body]
pub fn push_char(s: &mut String, c: char)
    ensures
        final(s)@ == old(s)@.push(c),
{
    s.push(c);
}

/// The characters of `s`, as a vector.
pub fn str_to_chars(s: &str) -> (v: Vec<char>)
    ensures
        v@ == s@,
{
    let n = s.unicode_len();
    let mut v: Vec<char> = Vec::new();
    let mut i: usize = 0;
    while i < n
        invariant
            i <= n,
            n == s@.len(),
            v@ == s@.subrange(0, i as int),
        decreases n - i,
    {
        let c = s.get_char(i);
        v.push(c);
        i = i + 1;
        proof {
            assert(v@ =~= s@.subrange(0, i as int));
        }
    }
    proof {
        assert(v@ =~= s@);
    }
    v
}

/// Appends every character of `s` to `out`.
pub fn append_slice(out: &mut Vec<char>, s: &[char])
    ensures
        final(out)@ == old(out)@ + s@,
{
    let mut i: usize = 0;
    while i < s.len()
        invariant
            i <= s@.len(),
            out@ == old(out)@ + s@.subrange(0, i as int),
        decreases s@.len() - i,
    {
        out.push(s[i]);
        i = i + 1;
        proof {
            assert(out@ =~= old(out)@ + s@.subrange(0, i as int));
        }
    }
    proof {
        assert(out@ =~= old(out)@ + s@);
    }
}

/// Appends the characters `s[from..to]` to `out`.
pub fn append_range(out: &mut Vec<char>, s: &[char], from: usize, to: usize)
    requires
        from <= to <= s@.len(),
    ensures
        final(out)@ == old(out)@ + s@.subrange(from as int, to as int),
{
    let mut i: usize = from;
    while i < to
        invariant
            from <= i <= to <= s@.len(),
            out@ == old(out)@ + s@.subrange(from as int, i as int),
        decreases to - i,
    {
        out.push(s[i]);
        i = i + 1;
        proof {
            assert(out@ =~= old(out)@ + s@.subrange(from as int, i as int));
        }
    }
}

/// The characters `s[from..to]`, as a fresh vector.
pub fn sub_chars(s: &[char], from: usize, to: usize) -> (v: Vec<char>)
    requires
        from <= to <= s@.len(),
    ensures
        v@ == s@.subrange(from as int, to as int),
{
    let mut v: Vec<char> = Vec::new();
    append_range(&mut v, s, from, to);
    proof {
        assert(v@ =~= s@.subrange(from as int, to as int));
    }
    v
}

/// Whether two character slices hold the same characters.
pub fn chars_eq(a: &[char], b: &[char]) -> (r: bool)
    ensures
        r == (a@ == b@),
{
    if a.len() != b.len() {
        return false;
    }
    let mut i: usize = 0;
    while i < a.len()
        invariant
            i <= a@.len(),
            a@.len() == b@.len(),
            a@.subrange(0, i as int) == b@.subrange(0, i as int),
        decreases a@.len() - i,
    {
        if a[i] != b[i] {
            proof {
                assert(a@ != b@) by {
                    assert(a@[i as int] != b@[i as int]);
                }
            }
            return false;
        }
        i = i + 1;
        proof {
            assert(a@.subrange(0, i as int) =~= b@.subrange(0, i as int));
        }
    }
    proof {
        assert forall|j: int| 0 <= j < a@.len() implies a@[j] == b@[j] by {
            assert(a@.subrange(0, i as int)[j] == b@.subrange(0, i as int)[j]);
        }
        assert(a@ =~= b@);
    }
    true
}

/// Whether two string slices hold the same characters.
pub fn str_eq(a: &str, b: &str) -> (r: bool)
    ensures
        r == (a@ == b@),
{
    let av = str_to_chars(a);
    let bv = str_to_chars(b);
    chars_eq(av.as_slice(), bv.as_slice())
}

/// The characters of `v`, as a freshly built string.
pub fn chars_to_string(v: &[char]) -> (s: String)
    ensures
        s@ == v@,
{
    let mut s = String::new();
    let mut i: usize = 0;
    while i < v.len()
        invariant
            i <= v@.len(),
            s@ == v@.subrange(0, i as int),
        decreases v@.len() - i,
    {
        push_char(&mut s, v[i]);
        i = i + 1;
        proof {
            assert(s@ =~= v@.subrange(0, i as int));
        }
    }
    proof {
        assert(s@ =~= v@);
    }
    s
}

/// Whether `p` occurs in `t` starting at position `i`.
pub open spec fn is_match_at(t: Seq<char>, p: Seq<char>, i: int) -> bool {
    0 <= i && i + p.len() <= t.len() && t.subrange(i, i + p.len()) == p
}

/// The position of the first occurrence of `p` in `t` at or after `i`.
pub open spec fn first_occ_from(t: Seq<char>, p: Seq<char>, i: int) -> Option<int>
    decreases t.len() - i + 1,
{
    if i + p.len() > t.len() {
        None
    } else if is_match_at(t, p, i) {
        Some(i)
    } else {
        first_occ_from(t, p, i + 1)
    }
}

/// The position of the first occurrence of `p` in `t`.
pub open spec fn first_occ(t: Seq<char>, p: Seq<char>) -> Option<int> {
    first_occ_from(t, p, 0)
}

/// The position of the last occurrence of `p` in `t` starting at or before `i`.
pub open spec fn last_occ_before(t: Seq<char>, p: Seq<char>, i: int) -> Option<int>
    decreases i + 1,
{
    if i < 0 {
        None
    } else if is_match_at(t, p, i) {
        Some(i)
    } else {
        last_occ_before(t, p, i - 1)
    }
}

/// The position of the last occurrence of `p` in `t`.
pub open spec fn last_occ(t: Seq<char>, p: Seq<char>) -> Option<int> {
    last_occ_before(t, p, t.len() - p.len())
}

/// A found first occurrence lies at or after the scan start and is a match.
pub proof fn lemma_first_occ_bounds(t: Seq<char>, p: Seq<char>, i: int, k: int)
    requires
        first_occ_from(t, p, i) == Some(k),
    ensures
        i <= k,
        is_match_at(t, p, k),
        forall|j: int| i <= j < k ==> !is_match_at(t, p, j),
    decreases t.len() - i + 1,
{
    if i + p.len() > t.len() {
    } else if is_match_at(t, p, i) {
    } else {
        lemma_first_occ_bounds(t, p, i + 1, k);
    }
}

/// A found last occurrence lies at or before the scan start and is a match.
pub proof fn lemma_last_occ_bounds(t: Seq<char>, p: Seq<char>, i: int, k: int)
    requires
        last_occ_before(t, p, i) == Some(k),
    ensures
        k <= i,
        is_match_at(t, p, k),
        forall|j: int| k < j <= i ==> !is_match_at(t, p, j),
    decreases i + 1,
{
    if i < 0 {
    } else if is_match_at(t, p, i) {
    } else {
        lemma_last_occ_bounds(t, p, i - 1, k);
    }
}

/// When nothing matches at or after `i` up to `j`, the scans from `i` and `j`
/// agree.
pub proof fn lemma_first_occ_skip(t: Seq<char>, p: Seq<char>, i: int, j: int)
    requires
        i <= j,
        forall|k: int| i <= k < j ==> !is_match_at(t, p, k),
    ensures
        first_occ_from(t, p, i) == first_occ_from(t, p, j),
    decreases j - i,
{
    if i < j {
        if i + p.len() > t.len() {
            assert(j + p.len() > t.len());
            assert(first_occ_from(t, p, j) is None);
        } else {
            lemma_first_occ_skip(t, p, i + 1, j);
        }
    }
}

/// When nothing matches at or below `i` down to `j`, the scans from `i` and
/// `j` agree.
pub proof fn lemma_last_occ_skip(t: Seq<char>, p: Seq<char>, i: int, j: int)
    requires
        j <= i,
        forall|k: int| j < k <= i ==> !is_match_at(t, p, k),
    ensures
        last_occ_before(t, p, i) == last_occ_before(t, p, j),
    decreases i - j,
{
    if j < i {
        lemma_last_occ_skip(t, p, i - 1, j);
    }
}

/// Whether `p` occurs in `t` at position `i`.
pub fn match_at(t: &[char], p: &[char], i: usize) -> (r: bool)
    requires
        i + p@.len() <= t@.len(),
    ensures
        r == is_match_at(t@, p@, i as int),
{
    let n = t.len();
    let mut j: usize = 0;
    while j < p.len()
        invariant
            j <= p@.len(),
            i + p@.len() <= t@.len(),
            t@.len() == n,
            t@.subrange(i as int, i + j) == p@.subrange(0, j as int),
        decreases p@.len() - j,
    {
        if t[i + j] != p[j] {
            proof {
                assert(t@.subrange(i as int, i + p@.len())[j as int] == t@[i + j]);
                assert(p@[j as int] != t@[i + j]);
            }
            return false;
        }
        j = j + 1;
        proof {
            assert(t@.subrange(i as int, i + j) =~= p@.subrange(0, j as int));
        }
    }
    proof {
        assert(t@.subrange(i as int, i + p@.len()) =~= p@);
    }
    true
}

/// The first occurrence of `p` in `t`, scanning left to right.
pub fn find_first(t: &[char], p: &[char]) -> (r: Option<usize>)
    ensures
        match r {
            Some(k) => first_occ(t@, p@) == Some(k as int),
            None => first_occ(t@, p@) is None,
        },
{
    if p.len() > t.len() {
        proof {
            assert(first_occ_from(t@, p@, 0) is None);
        }
        return None;
    }
    if p.len() == 0 {
        proof {
            assert(t@.subrange(0, 0) =~= p@);
            assert(is_match_at(t@, p@, 0));
        }
        return Some(0);
    }
    let n = t.len();
    let bound = t.len() - p.len();
    let mut i: usize = 0;
    loop
        invariant
            i <= bound + 1,
            bound + p@.len() == t@.len(),
            t@.len() == n,
            p@.len() >= 1,
            first_occ(t@, p@) == first_occ_from(t@, p@, i as int),
        decreases bound + 1 - i,
    {
        if i > bound {
            proof {
                assert(first_occ_from(t@, p@, i as int) is None);
            }
            return None;
        }
        if match_at(t, p, i) {
            return Some(i);
        }
        proof {
            lemma_first_occ_skip(t@, p@, i as int, i + 1);
        }
        i = i + 1;
    }
}

/// The last occurrence of `p` in `t`, scanning right to left.
pub fn find_last(t: &[char], p: &[char]) -> (r: Option<usize>)
    ensures
        match r {
            Some(k) => last_occ(t@, p@) == Some(k as int),
            None => last_occ(t@, p@) is None,
        },
{
    if p.len() > t.len() {
        proof {
            assert(last_occ_before(t@, p@, t@.len() - p@.len()) is None);
        }
        return None;
    }
    if p.len() == 0 {
        proof {
            assert(t@.subrange(t@.len() as int, t@.len() as int) =~= p@);
            assert(is_match_at(t@, p@, t@.len() as int));
        }
        return Some(t.len());
    }
    let n = t.len();
    let mut i: usize = t.len() - p.len();
    loop
        invariant
            i + p@.len() <= t@.len(),
            t@.len() == n,
            last_occ(t@, p@) == last_occ_before(t@, p@, i as int),
        decreases i,
    {
        if match_at(t, p, i) {
            return Some(i);
        }
        proof {
            lemma_last_occ_skip(t@, p@, i as int, i - 1);
        }
        if i == 0 {
            return None;
        }
        i = i - 1;
    }
}

/// The decimal digit `d`, as a character; meaningful for `d < 10`.
pub open spec fn dec_digit(d: nat) -> char {
    ((48 + (d % 10)) as u8) as char
}

/// The decimal digits of `n`, most significant first.
pub open spec fn dec_nat(n: nat) -> Seq<char>
    decreases n,
{
    if n < 10 {
        seq![dec_digit(n)]
    } else {
        dec_nat(n / 10).push(dec_digit(n % 10))
    }
}

/// The decimal rendering of `n`, with a leading minus sign when negative.
pub open spec fn dec_int(n: int) -> Seq<char> {
    if n < 0 {
        seq!['-'] + dec_nat((-n) as nat)
    } else {
        dec_nat(n as nat)
    }
}

/// Formats `n` in decimal.
pub fn u64_to_dec(n: u64) -> (v: Vec<char>)
    ensures
        v@ == dec_nat(n as nat),
    decreases n,
{
    if n < 10 {
        let mut v: Vec<char> = Vec::new();
        v.push(((48 + n) as u8) as char);
        proof {
            assert(v@ =~= dec_nat(n as nat));
        }
        v
    } else {
        let mut v = u64_to_dec(n / 10);
        v.push(((48 + n % 10) as u8) as char);
        v
    }
}

/// Formats `n` in decimal, with a leading minus sign when negative.
pub fn i64_to_dec(n: i64) -> (v: Vec<char>)
    ensures
        v@ == dec_int(n as int),
{
    if n >= 0 {
        u64_to_dec(n as u64)
    } else {
        let mag: u64 = (-(n as i128)) as u64;
        let mut v: Vec<char> = Vec::new();
        v.push('-');
        let digits = u64_to_dec(mag);
        append_slice(&mut v, digits.as_slice());
        proof {
            assert(v@ =~= dec_int(n as int));
        }
        v
    }
}

/// `t` with every occurrence of `p` replaced by `r`, scanning left to right
/// without rescanning replacements; `t` itself when `p` is empty.
pub open spec fn replace_all_spec(t: Seq<char>, p: Seq<char>, r: Seq<char>) -> Seq<char>
    decreases t.len(),
{
    if p.len() == 0 {
        t
    } else {
        match first_occ(t, p) {
            None => t,
            Some(k) => {
                if 0 <= k && k + p.len() <= t.len() {
                    t.subrange(0, k) + r + replace_all_spec(t.skip(k + p.len()), p, r)
                } else {
                    t
                }
            },
        }
    }
}

/// Replaces every occurrence of `p` in `t` by `r`, scanning left to right.
pub fn replace_all(t: &[char], p: &[char], r: &[char]) -> (out: Vec<char>)
    ensures
        out@ == replace_all_spec(t@, p@, r@),
{
    let mut out: Vec<char> = Vec::new();
    if p.len() == 0 {
        append_slice(&mut out, t);
        proof {
            assert(out@ =~= t@);
        }
        return out;
    }
    let mut rem: Vec<char> = sub_chars(t, 0, t.len());
    proof {
        assert(rem@ =~= t@);
        assert(out@ + replace_all_spec(rem@, p@, r@) =~= replace_all_spec(t@, p@, r@));
    }
    loop
        invariant
            p@.len() >= 1,
            replace_all_spec(t@, p@, r@) == out@ + replace_all_spec(rem@, p@, r@),
        decreases rem@.len(),
    {
        match find_first(rem.as_slice(), p) {
            None => {
                append_slice(&mut out, rem.as_slice());
                proof {
                    assert(out@ =~= replace_all_spec(t@, p@, r@));
                }
                return out;
            },
            Some(k) => {
                proof {
                    lemma_first_occ_bounds(rem@, p@, 0, k as int);
                }
                let ghost out0 = out@;
                let ghost rem0 = rem@;
                append_range(&mut out, rem.as_slice(), 0, k);
                append_slice(&mut out, r);
                let rl = rem.len();
                let next = sub_chars(rem.as_slice(), k + p.len(), rl);
                proof {
                    assert(next@ =~= rem0.skip(k + p@.len()));
                    assert(replace_all_spec(rem0, p@, r@) == rem0.subrange(0, k as int) + r@
                        + replace_all_spec(next@, p@, r@));
                    assert(out@ + replace_all_spec(next@, p@, r@) =~= out0 + replace_all_spec(
                        rem0,
                        p@,
                        r@,
                    ));
                }
                rem = next;
            },
        }
    }
}

} // verus!
