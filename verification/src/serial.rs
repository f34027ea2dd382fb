//! The serial-number token sub-language of replacement templates.
//!
//! A template may hold a token of the shape `<enum>`, optionally with a
//! single pad character before `enum` (a letter, digit, underscore or
//! hyphen), and optionally a signed single digit `1`-`9` before the closing
//! bracket.  Only the first such token is recognized; its expansion — the
//! serial number in decimal, padded to the requested width — then replaces
//! every literal occurrence of the token's text in the template.  A token
//! prefixed with `@` is kept literally with the sigil stripped.  A positive
//! width left-pads (right-aligns), a negative width right-pads (left-aligns),
//! and a number already at least as wide as the field is kept unchanged.

use vstd::prelude::*;
use crate::groups::{digit_val, is_digit};
use crate::text::{
    chars_to_string, dec_int, i64_to_dec, replace_all, replace_all_spec, str_to_chars, sub_chars,
};

verus! {

/// Whether `c` is a decimal digit `1` to `9`.
pub open spec fn is_nonzero_digit(c: char) -> bool {
    49 <= c as u32 && c as u32 <= 57
}

/// Whether `c` may serve as a pad character: a letter, a digit, `_` or `-`.
pub open spec fn is_pad_char(c: char) -> bool {
    (65 <= c as u32 && c as u32 <= 90) || (97 <= c as u32 && c as u32 <= 122) || is_digit(c) || c
        == '_' || c == '-'
}

/// Whether the word `enum` stands at position `i` of `t`.
pub open spec fn enum_word_at(t: Seq<char>, i: int) -> bool {
    0 <= i && i + 4 <= t.len() && t[i] == 'e' && t[i + 1] == 'n' && t[i + 2] == 'u' && t[i + 3]
        == 'm'
}

/// The width group of a serial token at position `i` of `t`: an optional `-`,
/// an optional digit `1`-`9`, then the closing `>`.  Yields the group's text
/// (without the `>`), preferring the longest form, as the token's pattern is
/// scanned greedily.
pub open spec fn serial_tail_at(t: Seq<char>, i: int) -> Option<Seq<char>> {
    if 0 <= i {
        if i + 3 <= t.len() && t[i] == '-' && is_nonzero_digit(t[i + 1]) && t[i + 2] == '>' {
            Some(t.subrange(i, i + 2))
        } else if i + 2 <= t.len() && t[i] == '-' && t[i + 1] == '>' {
            Some(t.subrange(i, i + 1))
        } else if i + 2 <= t.len() && is_nonzero_digit(t[i]) && t[i + 1] == '>' {
            Some(t.subrange(i, i + 1))
        } else if i + 1 <= t.len() && t[i] == '>' {
            Some(Seq::empty())
        } else {
            None
        }
    } else {
        None
    }
}

/// The serial token body `<enum...>` without a pad character at position `i`:
/// its length and width group.
pub open spec fn serial_body_bare(t: Seq<char>, i: int) -> Option<(int, Option<char>, Seq<char>)> {
    if 0 <= i && i < t.len() && t[i] == '<' && enum_word_at(t, i + 1) {
        match serial_tail_at(t, i + 5) {
            Some(num) => Some((6 + num.len() as int, None, num)),
            None => None,
        }
    } else {
        None
    }
}

/// The serial token body `<...enum...>` at position `i` of `t`: its length,
/// optional pad character and width group.  A pad character is taken greedily
/// and given up when the rest of the token cannot follow it.
pub open spec fn serial_body_at(t: Seq<char>, i: int) -> Option<(int, Option<char>, Seq<char>)> {
    if 0 <= i && i < t.len() && t[i] == '<' {
        if i + 1 < t.len() && is_pad_char(t[i + 1]) && enum_word_at(t, i + 2) {
            match serial_tail_at(t, i + 6) {
                Some(num) => Some((7 + num.len() as int, Some(t[i + 1]), num)),
                None => serial_body_bare(t, i),
            }
        } else {
            serial_body_bare(t, i)
        }
    } else {
        None
    }
}

/// The serial token at position `i` of `t`, escape sigil included: its
/// length, whether it is escaped, its pad character and its width group.
pub open spec fn serial_token_at(t: Seq<char>, i: int) -> Option<(int, bool, Option<char>, Seq<char>)> {
    if 0 <= i && i < t.len() && t[i] == '@' {
        match serial_body_at(t, i + 1) {
            Some(b) => Some((1 + b.0, true, b.1, b.2)),
            None => None,
        }
    } else {
        match serial_body_at(t, i) {
            Some(b) => Some((b.0, false, b.1, b.2)),
            None => None,
        }
    }
}

/// The first serial token of `t` at or after position `i`: its position,
/// length, escape flag, pad character and width group.
pub open spec fn first_serial_token(t: Seq<char>, i: int) -> Option<
    (int, int, bool, Option<char>, Seq<char>),
>
    decreases t.len() - i,
{
    if !(0 <= i < t.len()) {
        None
    } else {
        match serial_token_at(t, i) {
            Some(tok) => Some((i, tok.0, tok.1, tok.2, tok.3)),
            None => first_serial_token(t, i + 1),
        }
    }
}

/// The signed field width a width group denotes; a group that is empty or a
/// bare `-` falls back to one.
pub open spec fn num_group_width(num: Seq<char>) -> int {
    if num.len() == 2 {
        -digit_val(num[1])
    } else if num.len() == 1 && is_nonzero_digit(num[0]) {
        digit_val(num[0])
    } else {
        1
    }
}

/// The pad character and signed width a token denotes: with a pad character,
/// the group's width (default one); with a width group alone, zero-padding;
/// bare, a width of zero, which pads nothing.
pub open spec fn token_pad_width(pad: Option<char>, num: Seq<char>) -> (char, int) {
    match pad {
        Some(c) => (c, num_group_width(num)),
        None => if num.len() > 0 {
            ('0', num_group_width(num))
        } else {
            ('0', 0)
        },
    }
}

/// `n` copies of `c`.
pub open spec fn repeat_char(c: char, n: nat) -> Seq<char>
    decreases n,
{
    if n == 0 {
        Seq::empty()
    } else {
        repeat_char(c, (n - 1) as nat).push(c)
    }
}

/// `s` padded with `fill` to the width's magnitude: a non-negative width
/// left-pads, a negative one right-pads, and a value at least as wide as the
/// field is kept unchanged.
pub open spec fn pad_spec(s: Seq<char>, width: int, fill: char) -> Seq<char> {
    let w = if width >= 0 {
        width
    } else {
        -width
    };
    if s.len() >= w {
        s
    } else if width >= 0 {
        repeat_char(fill, (w - s.len()) as nat) + s
    } else {
        s + repeat_char(fill, (w - s.len()) as nat)
    }
}

/// The template with its first serial token expanded against `serial`: the
/// padded decimal of `serial` (or, escaped, the token text without the
/// sigil) replaces every literal occurrence of the token's text.
pub open spec fn serial_expand_spec(tmpl: Seq<char>, serial: int) -> Seq<char> {
    match first_serial_token(tmpl, 0) {
        None => tmpl,
        Some(tok) => {
            let captured = tmpl.subrange(tok.0, tok.0 + tok.1);
            let computed = if tok.2 {
                captured.skip(1)
            } else {
                pad_spec(
                    dec_int(serial),
                    token_pad_width(tok.3, tok.4).1,
                    token_pad_width(tok.3, tok.4).0,
                )
            };
            replace_all_spec(tmpl, captured, computed)
        },
    }
}

/// Whether `c` is a decimal digit `1` to `9`.
fn is_nonzero_digit_exec(c: char) -> (r: bool)
    ensures
        r == is_nonzero_digit(c),
{
    let u = c as u32;
    49 <= u && u <= 57
}

/// Whether `c` may serve as a pad character.
fn is_pad_char_exec(c: char) -> (r: bool)
    ensures
        r == is_pad_char(c),
{
    let u = c as u32;
    (65 <= u && u <= 90) || (97 <= u && u <= 122) || (48 <= u && u <= 57) || c == '_' || c == '-'
}

/// Whether the word `enum` stands at position `i` of `t`.
fn enum_word_exec(t: &[char], i: usize) -> (r: bool)
    ensures
        r == enum_word_at(t@, i as int),
{
    let n = t.len();
    if i >= n || n - i < 4 {
        return false;
    }
    t[i] == 'e' && t[i + 1] == 'n' && t[i + 2] == 'u' && t[i + 3] == 'm'
}

/// The width group of a serial token at position `i` of `t`.
fn serial_tail_exec(t: &[char], i: usize) -> (r: Option<Vec<char>>)
    ensures
        match r {
            Some(num) => serial_tail_at(t@, i as int) == Some(num@) && i + num@.len() + 1
                <= t@.len() && num@.len() <= 2 && (num@.len() == 2 ==> is_nonzero_digit(num@[1])),
            None => serial_tail_at(t@, i as int) is None,
        },
{
    let n = t.len();
    if i < n && n - i >= 3 && t[i] == '-' && is_nonzero_digit_exec(t[i + 1]) && t[i + 2] == '>' {
        let num = sub_chars(t, i, i + 2);
        Some(num)
    } else if i < n && n - i >= 2 && t[i] == '-' && t[i + 1] == '>' {
        let num = sub_chars(t, i, i + 1);
        Some(num)
    } else if i < n && n - i >= 2 && is_nonzero_digit_exec(t[i]) && t[i + 1] == '>' {
        let num = sub_chars(t, i, i + 1);
        Some(num)
    } else if i < n && t[i] == '>' {
        let num: Vec<char> = Vec::new();
        proof {
            assert(num@ =~= Seq::<char>::empty());
        }
        Some(num)
    } else {
        None
    }
}

/// The serial token at position `i` of `t`, escape sigil included.
fn serial_token_exec(t: &[char], i: usize) -> (r: Option<(usize, bool, Option<char>, Vec<char>)>)
    ensures
        match r {
            Some(tok) => serial_token_at(t@, i as int) == Some(
                (tok.0 as int, tok.1, tok.2, tok.3@),
            ) && i + tok.0 <= t@.len() && 1 <= tok.0 && tok.3@.len() <= 2 && (tok.3@.len() == 2
                ==> is_nonzero_digit(tok.3@[1])),
            None => serial_token_at(t@, i as int) is None,
        },
{
    let n = t.len();
    if i < n && t[i] == '@' {
        match serial_body_exec(t, i + 1) {
            Some((len, pad_ch, num)) => Some((1 + len, true, pad_ch, num)),
            None => None,
        }
    } else {
        match serial_body_exec(t, i) {
            Some((len, pad_ch, num)) => Some((len, false, pad_ch, num)),
            None => None,
        }
    }
}

/// The serial token body at position `i` of `t`.
fn serial_body_exec(t: &[char], i: usize) -> (r: Option<(usize, Option<char>, Vec<char>)>)
    ensures
        match r {
            Some(b) => serial_body_at(t@, i as int) == Some((b.0 as int, b.1, b.2@)) && i + b.0
                <= t@.len() && 1 <= b.0 && b.2@.len() <= 2 && (b.2@.len() == 2
                ==> is_nonzero_digit(b.2@[1])),
            None => serial_body_at(t@, i as int) is None,
        },
{
    let n = t.len();
    if !(i < n && t[i] == '<') {
        return None;
    }
    if i + 1 < n && is_pad_char_exec(t[i + 1]) && enum_word_exec(t, i + 2) {
        match serial_tail_exec(t, i + 6) {
            Some(num) => {
                let len = 7 + num.len();
                return Some((len, Some(t[i + 1]), num));
            },
            None => {
                return serial_body_bare_exec(t, i);
            },
        }
    }
    serial_body_bare_exec(t, i)
}

/// The serial token body without a pad character at position `i` of `t`.
fn serial_body_bare_exec(t: &[char], i: usize) -> (r: Option<(usize, Option<char>, Vec<char>)>)
    ensures
        match r {
            Some(b) => serial_body_bare(t@, i as int) == Some((b.0 as int, b.1, b.2@)) && i + b.0
                <= t@.len() && 1 <= b.0 && b.2@.len() <= 2 && (b.2@.len() == 2
                ==> is_nonzero_digit(b.2@[1])),
            None => serial_body_bare(t@, i as int) is None,
        },
{
    let n = t.len();
    if !(i < n && t[i] == '<' && enum_word_exec(t, i + 1)) {
        return None;
    }
    match serial_tail_exec(t, i + 5) {
        Some(num) => {
            let len = 6 + num.len();
            Some((len, None, num))
        },
        None => None,
    }
}

/// The first serial token of `t`: its position, length, escape flag, pad
/// character and width group.
fn find_serial_token(t: &[char]) -> (r: Option<(usize, usize, bool, Option<char>, Vec<char>)>)
    ensures
        match r {
            Some(tok) => first_serial_token(t@, 0) == Some(
                (tok.0 as int, tok.1 as int, tok.2, tok.3, tok.4@),
            ) && tok.0 + tok.1 <= t@.len() && 1 <= tok.1 && tok.4@.len() <= 2 && (tok.4@.len()
                == 2 ==> is_nonzero_digit(tok.4@[1])),
            None => first_serial_token(t@, 0) is None,
        },
{
    let mut i: usize = 0;
    while i < t.len()
        invariant
            i <= t@.len(),
            first_serial_token(t@, 0) == first_serial_token(t@, i as int),
        decreases t@.len() - i,
    {
        match serial_token_exec(t, i) {
            Some((len, escaped, pad_ch, num)) => {
                return Some((i, len, escaped, pad_ch, num));
            },
            None => {},
        }
        i = i + 1;
    }
    None
}

/// `n` copies of `c`.
fn repeat_fill(c: char, n: usize) -> (v: Vec<char>)
    ensures
        v@ == repeat_char(c, n as nat),
{
    let mut v: Vec<char> = Vec::new();
    let mut i: usize = 0;
    while i < n
        invariant
            i <= n,
            v@ == repeat_char(c, i as nat),
        decreases n - i,
    {
        v.push(c);
        i = i + 1;
    }
    v
}

/// Pads `s` with `fill` to the magnitude of `width` characters: non-negative
/// widths left-pad, negative widths right-pad.
fn pad_chars(s: &[char], width: i32, fill: char) -> (v: Vec<char>)
    requires
        -128 <= width <= 127,
    ensures
        v@ == pad_spec(s@, width as int, fill),
{
    let w: usize = if width >= 0 {
        width as usize
    } else {
        (-width) as usize
    };
    if s.len() >= w {
        let v = sub_chars(s, 0, s.len());
        proof {
            assert(v@ =~= s@);
        }
        return v;
    }
    let fills = repeat_fill(fill, w - s.len());
    let mut v: Vec<char> = Vec::new();
    if width >= 0 {
        crate::text::append_slice(&mut v, fills.as_slice());
        crate::text::append_slice(&mut v, s);
        proof {
            assert(v@ =~= pad_spec(s@, width as int, fill));
        }
    } else {
        crate::text::append_slice(&mut v, s);
        crate::text::append_slice(&mut v, fills.as_slice());
        proof {
            assert(v@ =~= pad_spec(s@, width as int, fill));
        }
    }
    v
}

/// Pads `s` with `fill_char` to the magnitude of `width` characters:
/// non-negative widths left-pad (right-align), negative widths right-pad
/// (left-align); a value already at least as wide is returned unchanged.
pub fn pad(s: &str, width: i8, fill_char: char) -> (r: String)
    ensures
        r@ == pad_spec(s@, width as int, fill_char),
{
    let sv = str_to_chars(s);
    let v = pad_chars(sv.as_slice(), width as i32, fill_char);
    chars_to_string(v.as_slice())
}

/// The signed field width denoted by a token's width group.
fn num_width_exec(num: &[char]) -> (w: i32)
    requires
        num@.len() == 2 ==> is_nonzero_digit(num@[1]),
    ensures
        w as int == num_group_width(num@),
        -9 <= w <= 9,
{
    if num.len() == 2 {
        let d = num[1] as u32;
        48 - (d as i32)
    } else if num.len() == 1 && is_nonzero_digit_exec(num[0]) {
        let d = num[0] as u32;
        (d as i32) - 48
    } else {
        1
    }
}

/// Expands the first serial token of `replacement` against `serial_number`:
/// the token's computed text — the serial number in decimal, padded as the
/// token requests, or the token itself with the `@` sigil stripped — then
/// replaces every literal occurrence of the token's text in the template.  A
/// template without a serial token is returned unchanged.
pub fn replacement_handler(replacement: &str, serial_number: i64) -> (res: Result<String, String>)
    ensures
        res matches Ok(out) && out@ == serial_expand_spec(replacement@, serial_number as int),
{
    let tmpl = str_to_chars(replacement);
    match find_serial_token(tmpl.as_slice()) {
        None => Ok(replacement.to_owned()),
        Some((pos, len, escaped, pad_ch, num)) => {
            let captured = sub_chars(tmpl.as_slice(), pos, pos + len);
            let computed: Vec<char> = if escaped {
                sub_chars(captured.as_slice(), 1, captured.len())
            } else {
                let fill: char = match pad_ch {
                    Some(c) => c,
                    None => '0',
                };
                let width: i32 = if pad_ch.is_some() || num.len() > 0 {
                    num_width_exec(num.as_slice())
                } else {
                    0
                };
                let digits = i64_to_dec(serial_number);
                pad_chars(digits.as_slice(), width, fill)
            };
            let out = replace_all(tmpl.as_slice(), captured.as_slice(), computed.as_slice());
            proof {
                assert(captured@.skip(1) =~= tmpl@.subrange(pos + 1, pos + len));
            }
            Ok(chars_to_string(out.as_slice()))
        },
    }
}

} // verus!
