//! The capture-group back-reference sub-language of replacement templates.
//!
//! A template may hold tokens of the shape `<:N>` with one or two decimal
//! digits.  An unescaped token is replaced by capture group `N` of the
//! current match (an absent group yields empty text, an index beyond the
//! capture set yields a literal sentinel); a token prefixed with `@` is
//! emitted literally with the sigil stripped.

use vstd::prelude::*;
use crate::text::{append_slice, chars_to_string, str_to_chars};

verus! {

/// Whether `c` is a decimal digit.
pub open spec fn is_digit(c: char) -> bool {
    48 <= c as u32 && c as u32 <= 57
}

/// The numeric value of a decimal digit.
pub open spec fn digit_val(c: char) -> int {
    c as u32 - 48
}

/// The back-reference token `<:N>` starting at position `i` of `t`, if any:
/// its length and the group index `N`.  Two digits are preferred over one,
/// as the scan of the token's pattern is greedy.
pub open spec fn cap_body_at(t: Seq<char>, i: int) -> Option<(int, int)> {
    if 0 <= i && i + 4 <= t.len() && t[i] == '<' && t[i + 1] == ':' && is_digit(t[i + 2]) {
        if i + 5 <= t.len() && is_digit(t[i + 3]) && t[i + 4] == '>' {
            Some((5int, 10 * digit_val(t[i + 2]) + digit_val(t[i + 3])))
        } else if t[i + 3] == '>' {
            Some((4int, digit_val(t[i + 2])))
        } else {
            None
        }
    } else {
        None
    }
}

/// What a back-reference to group `n` produces: the group's text, empty text
/// for a group that did not participate, and a literal sentinel for an index
/// beyond the capture set.
pub open spec fn group_text(gs: Seq<Option<Seq<char>>>, n: int) -> Seq<char> {
    if 0 <= n < gs.len() {
        match gs[n] {
            Some(s) => s,
            None => Seq::empty(),
        }
    } else {
        "<:invalid_index>"@
    }
}

/// The template `t` from position `i` on, with every back-reference token
/// expanded against the capture set `gs`, scanning left to right.
pub open spec fn expand_caps_from(t: Seq<char>, gs: Seq<Option<Seq<char>>>, i: int) -> Seq<char>
    decreases t.len() - i,
{
    if !(0 <= i < t.len()) {
        Seq::empty()
    } else if t[i] == '@' {
        match cap_body_at(t, i + 1) {
            Some(ln) => t.subrange(i + 1, i + 1 + ln.0) + expand_caps_from(t, gs, i + 1 + ln.0),
            None => seq![t[i]] + expand_caps_from(t, gs, i + 1),
        }
    } else {
        match cap_body_at(t, i) {
            Some(ln) => group_text(gs, ln.1) + expand_caps_from(t, gs, i + ln.0),
            None => seq![t[i]] + expand_caps_from(t, gs, i + 1),
        }
    }
}

/// Whether `c` is a decimal digit.
fn is_digit_exec(c: char) -> (r: bool)
    ensures
        r == is_digit(c),
{
    let u = c as u32;
    48 <= u && u <= 57
}

/// The back-reference token starting at position `i` of `t`, if any.
fn cap_body_exec(t: &[char], i: usize) -> (r: Option<(usize, usize)>)
    ensures
        match r {
            Some(ln) => {
                &&& cap_body_at(t@, i as int) == Some((ln.0 as int, ln.1 as int))
                &&& (ln.0 == 4 || ln.0 == 5)
                &&& i + ln.0 <= t@.len()
                &&& ln.1 < 100
            },
            None => cap_body_at(t@, i as int) is None,
        },
{
    let n = t.len();
    if i >= n || n - i < 4 {
        return None;
    }
    if !(t[i] == '<' && t[i + 1] == ':' && is_digit_exec(t[i + 2])) {
        return None;
    }
    let d1 = (t[i + 2] as u32 - 48) as usize;
    if n - i >= 5 && is_digit_exec(t[i + 3]) && t[i + 4] == '>' {
        let d2 = (t[i + 3] as u32 - 48) as usize;
        Some((5, 10 * d1 + d2))
    } else if t[i + 3] == '>' {
        Some((4, d1))
    } else {
        None
    }
}

/// Expands every back-reference token of `t` against the capture set `gs`.
pub(crate) fn expand_captures(t: &[char], gs: &Vec<Option<Vec<char>>>) -> (out: Vec<char>)
    ensures
        out@ == expand_caps_from(t@, gs.deep_view(), 0),
{
    let ghost gsv = gs.deep_view();
    let mut out: Vec<char> = Vec::new();
    let mut i: usize = 0;
    proof {
        assert(out@ + expand_caps_from(t@, gsv, 0) =~= expand_caps_from(t@, gsv, 0));
    }
    while i < t.len()
        invariant
            i <= t@.len(),
            gsv == gs.deep_view(),
            expand_caps_from(t@, gsv, 0) == out@ + expand_caps_from(t@, gsv, i as int),
        decreases t@.len() - i,
    {
        let ghost out0 = out@;
        let ghost i0 = i as int;
        if t[i] == '@' {
            match cap_body_exec(t, i + 1) {
                Some((l, _n)) => {
                    crate::text::append_range(&mut out, t, i + 1, i + 1 + l);
                    proof {
                        assert(expand_caps_from(t@, gsv, i0) == t@.subrange(i0 + 1, i0 + 1 + l)
                            + expand_caps_from(t@, gsv, i0 + 1 + l));
                    }
                    i = i + 1 + l;
                },
                None => {
                    out.push(t[i]);
                    proof {
                        assert(expand_caps_from(t@, gsv, i0) == seq![t@[i0]] + expand_caps_from(
                            t@,
                            gsv,
                            i0 + 1,
                        ));
                        assert(out@ =~= out0 + seq![t@[i0]]);
                    }
                    i = i + 1;
                },
            }
        } else {
            match cap_body_exec(t, i) {
                Some((l, n)) => {
                    if n < gs.len() {
                        match &gs[n] {
                            Some(s) => {
                                append_slice(&mut out, s.as_slice());
                                proof {
                                    assert(gsv[n as int] == gs@[n as int].deep_view());
                                    assert(group_text(gsv, n as int) == s@);
                                }
                            },
                            None => {
                                proof {
                                    assert(gsv[n as int] == gs@[n as int].deep_view());
                                    assert(group_text(gsv, n as int) == Seq::<char>::empty());
                                    assert(out@ =~= out0 + group_text(gsv, n as int));
                                }
                            },
                        }
                    } else {
                        let sentinel = str_to_chars("<:invalid_index>");
                        append_slice(&mut out, sentinel.as_slice());
                        proof {
                            assert(group_text(gsv, n as int) == "<:invalid_index>"@);
                        }
                    }
                    proof {
                        assert(expand_caps_from(t@, gsv, i0) == group_text(gsv, n as int)
                            + expand_caps_from(t@, gsv, i0 + l));
                    }
                    i = i + l;
                },
                None => {
                    out.push(t[i]);
                    proof {
                        assert(expand_caps_from(t@, gsv, i0) == seq![t@[i0]] + expand_caps_from(
                            t@,
                            gsv,
                            i0 + 1,
                        ));
                        assert(out@ =~= out0 + seq![t@[i0]]);
                    }
                    i = i + 1;
                },
            }
        }
        proof {
            assert(out@ + expand_caps_from(t@, gsv, i as int) =~= out0 + expand_caps_from(
                t@,
                gsv,
                i0,
            ));
        }
    }
    proof {
        assert(expand_caps_from(t@, gsv, i as int) == Seq::<char>::empty());
        assert(out@ =~= expand_caps_from(t@, gsv, 0));
    }
    out
}

/// Expands every back-reference token of `original` against the capture set
/// of the current match: group `N` for `<:N>` (empty when the group did not
/// participate, a literal sentinel when `N` is out of range), and the token
/// itself, sigil stripped, for `@<:N>`.
pub fn replace_with_captures(original: &str, replacement_caps: &Vec<Option<Vec<char>>>) -> (r:
    String)
    ensures
        r@ == expand_caps_from(original@, replacement_caps.deep_view(), 0),
{
    let t = str_to_chars(original);
    let out = expand_captures(t.as_slice(), replacement_caps);
    chars_to_string(out.as_slice())
}

} // verus!
