//! The directional counted replacement engine.
//!
//! One run scans a text for matches of a pattern — literal or regular
//! expression — under a signed count: a non-negative count scans forward and
//! selects the first matches (zero selects all), a negative count scans
//! backward from the end and selects the last ones.  The run is modelled as a
//! sequence of segments: each selected match contributes a `Hit` carrying the
//! match's surroundings, its expansion and its 1-based scan ordinal, and the
//! unprocessed leftover contributes a `Plain` segment.  The three outputs —
//! highlighted, replaced, highlighted-replaced — are three renderings of the
//! same segment sequence, which makes their positional correspondence exact
//! by construction.
//!
//! A match that touches either end of the original text ends a regular
//! expression scan early; this prevents a zero-width match from being taken
//! at a fixed boundary forever when the count selects all matches.

use vstd::prelude::*;
use crate::groups::{expand_caps_from, expand_captures};
use crate::rx::{
    regex_compiles, regex_cut_first, regex_cut_last, regex_first_caps, rx_cut_first, rx_cut_last,
    rx_first_caps, rx_ok,
};
use crate::text::{
    append_range, append_slice, chars_eq, chars_to_string, dec_nat, find_first, find_last, first_occ,
    last_occ, lemma_first_occ_bounds, lemma_last_occ_bounds, str_to_chars, sub_chars, u64_to_dec,
};

verus! {

/// One piece of a replacement run: either untouched text, or one selected
/// match together with its surroundings inside the resolved piece, its
/// expansion, and its 1-based scan ordinal.
pub enum Segment {
    Plain { text: Seq<char> },
    Hit {
        pre: Seq<char>,
        matched: Seq<char>,
        expansion: Seq<char>,
        post: Seq<char>,
        ordinal: nat,
    },
}

/// The three renderings of a segment sequence.
pub enum Channel {
    Highlighted,
    Replaced,
    HighlightedReplaced,
}

/// The highlight wrapper around `x`, annotated with a scan ordinal.
pub open spec fn marker(x: Seq<char>, ordinal: nat) -> Seq<char> {
    "<span class=\"highlight\">"@ + x + "<<span><sup>"@ + dec_nat(ordinal) + "<<sup>"@
}

/// What one segment contributes to one output channel.
pub open spec fn seg_render(c: Channel, s: Segment) -> Seq<char> {
    match s {
        Segment::Plain { text } => text,
        Segment::Hit { pre, matched, expansion, post, ordinal } => match c {
            Channel::Highlighted => pre + marker(matched, ordinal) + post,
            Channel::Replaced => pre + expansion + post,
            Channel::HighlightedReplaced => pre + marker(expansion, ordinal) + post,
        },
    }
}

/// One output channel of a segment sequence, concatenated in order.
pub open spec fn render(c: Channel, segs: Seq<Segment>) -> Seq<char>
    decreases segs.len(),
{
    if segs.len() == 0 {
        Seq::empty()
    } else {
        seg_render(c, segs[0]) + render(c, segs.drop_first())
    }
}

/// Rendering a single segment yields that segment's contribution.
pub proof fn lemma_render_one(c: Channel, s: Segment)
    ensures
        render(c, seq![s]) == seg_render(c, s),
{
    assert(seq![s].drop_first() =~= Seq::<Segment>::empty());
    assert(render(c, Seq::<Segment>::empty()) == Seq::<char>::empty());
    assert(seq![s][0] == s);
    assert(seg_render(c, s) + Seq::<char>::empty() =~= seg_render(c, s));
}

/// Rendering distributes over concatenation of segment sequences.
pub proof fn lemma_render_concat(c: Channel, a: Seq<Segment>, b: Seq<Segment>)
    ensures
        render(c, a + b) == render(c, a) + render(c, b),
    decreases a.len(),
{
    if a.len() == 0 {
        assert(a + b =~= b);
        assert(render(c, a) == Seq::<char>::empty());
        assert(render(c, a) + render(c, b) =~= render(c, b));
    } else {
        assert((a + b).len() > 0);
        assert((a + b)[0] == a[0]);
        assert((a + b).drop_first() =~= a.drop_first() + b);
        lemma_render_concat(c, a.drop_first(), b);
        assert(render(c, a + b) == seg_render(c, a[0]) + (render(c, a.drop_first()) + render(
            c,
            b,
        )));
        assert(seg_render(c, a[0]) + (render(c, a.drop_first()) + render(c, b)) =~= (seg_render(
            c,
            a[0],
        ) + render(c, a.drop_first())) + render(c, b));
    }
}

/// The segments of a forward literal scan of `t`: each step takes the first
/// occurrence of `p`, resolves the text up to and including it, and goes on
/// with the rest.  `budget` bounds the steps unless `all` is set.
pub open spec fn lit_fwd_segs(
    t: Seq<char>,
    p: Seq<char>,
    tmpl: Seq<char>,
    ordinal: nat,
    budget: nat,
    all: bool,
) -> Seq<Segment>
    decreases t.len(),
{
    if !all && budget == 0 {
        seq![Segment::Plain { text: t }]
    } else {
        match first_occ(t, p) {
            None => seq![Segment::Plain { text: t }],
            Some(k) => {
                if 0 <= k && 1 <= k + p.len() <= t.len() {
                    seq![
                        Segment::Hit {
                            pre: t.subrange(0, k),
                            matched: p,
                            expansion: tmpl,
                            post: Seq::empty(),
                            ordinal,
                        },
                    ] + lit_fwd_segs(
                        t.skip(k + p.len() as int),
                        p,
                        tmpl,
                        ordinal + 1,
                        if all {
                            0
                        } else {
                            (budget - 1) as nat
                        },
                        all,
                    )
                } else {
                    seq![Segment::Plain { text: t }]
                }
            },
        }
    }
}

/// The segments of a backward literal scan of `t`: each step takes the last
/// occurrence of `p`, resolves the text from it to the end, and goes on with
/// the prefix before it.  The resolved pieces stand in text order, so the
/// lowest ordinal annotates the rightmost selected match.
pub open spec fn lit_bwd_segs(
    t: Seq<char>,
    p: Seq<char>,
    tmpl: Seq<char>,
    ordinal: nat,
    budget: nat,
) -> Seq<Segment>
    decreases budget,
{
    if budget == 0 {
        seq![Segment::Plain { text: t }]
    } else {
        match last_occ(t, p) {
            None => seq![Segment::Plain { text: t }],
            Some(k) => {
                if 0 <= k && k + p.len() <= t.len() {
                    lit_bwd_segs(t.subrange(0, k), p, tmpl, ordinal + 1, (budget - 1) as nat)
                        + seq![
                        Segment::Hit {
                            pre: Seq::empty(),
                            matched: p,
                            expansion: tmpl,
                            post: t.skip(k + p.len() as int),
                            ordinal,
                        },
                    ]
                } else {
                    seq![Segment::Plain { text: t }]
                }
            },
        }
    }
}

/// The segment a resolved piece contributes in a regular expression scan:
/// the piece is searched once more on its own, the first match found in it
/// is expanded against its capture set, and a piece without a match stays
/// plain.
pub open spec fn piece_seg(p: Seq<char>, tmpl: Seq<char>, piece: Seq<char>, ordinal: nat) -> Segment {
    match rx_first_caps(p, piece) {
        None => Segment::Plain { text: piece },
        Some(c) => {
            if piece == c.0 + c.1 + c.2 {
                Segment::Hit {
                    pre: c.0,
                    matched: c.1,
                    expansion: expand_caps_from(tmpl, c.3, 0),
                    post: c.2,
                    ordinal,
                }
            } else {
                Segment::Plain { text: piece }
            }
        },
    }
}

/// The segments of a forward regular expression scan of `t`, with `orig` the
/// full original text: each step cuts at the end of the first match and
/// resolves the piece holding it.  A match that touches the start of the
/// text, or the end of the original text, ends the scan after its piece.
pub open spec fn rx_fwd_segs(
    t: Seq<char>,
    p: Seq<char>,
    tmpl: Seq<char>,
    orig: Seq<char>,
    ordinal: nat,
    budget: nat,
    all: bool,
) -> Seq<Segment>
    decreases t.len(),
{
    if !all && budget == 0 {
        seq![Segment::Plain { text: t }]
    } else {
        match rx_cut_first(p, t) {
            None => seq![Segment::Plain { text: t }],
            Some(cut) => {
                if t == cut.0 + cut.1 {
                    let seg = piece_seg(p, tmpl, cut.0, ordinal);
                    if cut.0.len() == 0 || (cut.1.len() == 0 && t == orig) {
                        seq![seg, Segment::Plain { text: cut.1 }]
                    } else {
                        seq![seg] + rx_fwd_segs(
                            cut.1,
                            p,
                            tmpl,
                            orig,
                            ordinal + 1,
                            if all {
                                0
                            } else {
                                (budget - 1) as nat
                            },
                            all,
                        )
                    }
                } else {
                    seq![Segment::Plain { text: t }]
                }
            },
        }
    }
}

/// The segments of a backward regular expression scan of `t`, with `orig`
/// the full original text: each step cuts at the start of the last match and
/// resolves the piece from it to the end.  A match that touches the start of
/// the text, or whose piece is empty at the end of the original text, ends
/// the scan after its piece.
pub open spec fn rx_bwd_segs(
    t: Seq<char>,
    p: Seq<char>,
    tmpl: Seq<char>,
    orig: Seq<char>,
    ordinal: nat,
    budget: nat,
) -> Seq<Segment>
    decreases budget,
{
    if budget == 0 {
        seq![Segment::Plain { text: t }]
    } else {
        match rx_cut_last(p, t) {
            None => seq![Segment::Plain { text: t }],
            Some(cut) => {
                if t == cut.0 + cut.1 {
                    let seg = piece_seg(p, tmpl, cut.1, ordinal);
                    if cut.0.len() == 0 || (cut.1.len() == 0 && t == orig) {
                        seq![Segment::Plain { text: cut.0 }, seg]
                    } else {
                        rx_bwd_segs(cut.0, p, tmpl, orig, ordinal + 1, (budget - 1) as nat)
                            + seq![seg]
                    }
                } else {
                    seq![Segment::Plain { text: t }]
                }
            },
        }
    }
}

/// The segments of one full replacement run of `t` under a signed `count`:
/// zero selects all matches scanning forward, a positive count the first
/// `count` of them, a negative count the last `-count`, scanning backward.
/// A pattern that does not compile (regular expression mode) and an empty
/// pattern (literal mode) leave the text untouched.
pub open spec fn replace_count_segs(
    use_regex: bool,
    t: Seq<char>,
    p: Seq<char>,
    tmpl: Seq<char>,
    count: int,
) -> Seq<Segment> {
    if use_regex {
        if !rx_ok(p) {
            seq![Segment::Plain { text: t }]
        } else if count >= 0 {
            rx_fwd_segs(t, p, tmpl, t, 1, count as nat, count == 0)
        } else {
            rx_bwd_segs(t, p, tmpl, t, 1, (-count) as nat)
        }
    } else {
        if p.len() == 0 {
            seq![Segment::Plain { text: t }]
        } else if count >= 0 {
            lit_fwd_segs(t, p, tmpl, 1, count as nat, count == 0)
        } else {
            lit_bwd_segs(t, p, tmpl, 1, (-count) as nat)
        }
    }
}

/// The `(highlighted, replaced, highlighted_replaced)` outputs of one run.
pub open spec fn replace_count_spec(
    use_regex: bool,
    t: Seq<char>,
    p: Seq<char>,
    tmpl: Seq<char>,
    count: int,
) -> (Seq<char>, Seq<char>, Seq<char>) {
    let segs = replace_count_segs(use_regex, t, p, tmpl, count);
    (
        render(Channel::Highlighted, segs),
        render(Channel::Replaced, segs),
        render(Channel::HighlightedReplaced, segs),
    )
}

/// Appends the highlight wrapper around `x` with the given ordinal.
fn append_marker(out: &mut Vec<char>, x: &[char], ordinal: usize)
    ensures
        final(out)@ == old(out)@ + marker(x@, ordinal as nat),
{
    let open_tag = str_to_chars("<span class=\"highlight\">");
    append_slice(out, open_tag.as_slice());
    append_slice(out, x);
    let mid_tag = str_to_chars("<<span><sup>");
    append_slice(out, mid_tag.as_slice());
    let digits = u64_to_dec(ordinal as u64);
    append_slice(out, digits.as_slice());
    let close_tag = str_to_chars("<<sup>");
    append_slice(out, close_tag.as_slice());
    proof {
        assert(out@ =~= old(out)@ + marker(x@, ordinal as nat));
    }
}

/// The forward literal scan, rendered on all three channels.
fn lit_fwd_exec(t: &[char], p: &[char], tmpl: &[char], budget: usize, all: bool) -> (res: (
    Vec<char>,
    Vec<char>,
    Vec<char>,
))
    requires
        p@.len() >= 1,
        t@.len() + 2 <= usize::MAX,
        all ==> budget == 0,
    ensures
        res.0@ == render(Channel::Highlighted, lit_fwd_segs(t@, p@, tmpl@, 1, budget as nat, all)),
        res.1@ == render(Channel::Replaced, lit_fwd_segs(t@, p@, tmpl@, 1, budget as nat, all)),
        res.2@ == render(
            Channel::HighlightedReplaced,
            lit_fwd_segs(t@, p@, tmpl@, 1, budget as nat, all),
        ),
{
    let mut hi: Vec<char> = Vec::new();
    let mut rep: Vec<char> = Vec::new();
    let mut hirep: Vec<char> = Vec::new();
    let mut rem: Vec<char> = sub_chars(t, 0, t.len());
    let mut ord: usize = 1;
    let mut left: usize = budget;
    proof {
        assert(rem@ =~= t@);
        assert(hi@ + render(Channel::Highlighted, lit_fwd_segs(rem@, p@, tmpl@, 1, left as nat, all))
            =~= render(Channel::Highlighted, lit_fwd_segs(t@, p@, tmpl@, 1, budget as nat, all)));
        assert(rep@ + render(Channel::Replaced, lit_fwd_segs(rem@, p@, tmpl@, 1, left as nat, all))
            =~= render(Channel::Replaced, lit_fwd_segs(t@, p@, tmpl@, 1, budget as nat, all)));
        assert(hirep@ + render(
            Channel::HighlightedReplaced,
            lit_fwd_segs(rem@, p@, tmpl@, 1, left as nat, all),
        ) =~= render(
            Channel::HighlightedReplaced,
            lit_fwd_segs(t@, p@, tmpl@, 1, budget as nat, all),
        ));
    }
    loop
        invariant
            p@.len() >= 1,
            1 <= ord,
            ord + rem@.len() <= t@.len() + 2,
            t@.len() + 2 <= usize::MAX,
            all ==> left == 0,
            render(Channel::Highlighted, lit_fwd_segs(t@, p@, tmpl@, 1, budget as nat, all)) == hi@
                + render(
                Channel::Highlighted,
                lit_fwd_segs(rem@, p@, tmpl@, ord as nat, left as nat, all),
            ),
            render(Channel::Replaced, lit_fwd_segs(t@, p@, tmpl@, 1, budget as nat, all)) == rep@
                + render(
                Channel::Replaced,
                lit_fwd_segs(rem@, p@, tmpl@, ord as nat, left as nat, all),
            ),
            render(Channel::HighlightedReplaced, lit_fwd_segs(t@, p@, tmpl@, 1, budget as nat, all))
                == hirep@ + render(
                Channel::HighlightedReplaced,
                lit_fwd_segs(rem@, p@, tmpl@, ord as nat, left as nat, all),
            ),
        ensures
            lit_fwd_segs(rem@, p@, tmpl@, ord as nat, left as nat, all) == seq![
                Segment::Plain { text: rem@ },
            ],
        decreases
                (if all {
                    0int
                } else {
                    left as int
                }),
                rem@.len(),
    {
        if !all && left == 0 {
            break;
        }
        match find_first(rem.as_slice(), p) {
            None => {
                break;
            },
            Some(pos) => {
                proof {
                    lemma_first_occ_bounds(rem@, p@, 0, pos as int);
                }
                let ghost rem0 = rem@;
                let ghost hi0 = hi@;
                let ghost rep0 = rep@;
                let ghost hirep0 = hirep@;
                let ghost seg = Segment::Hit {
                    pre: rem0.subrange(0, pos as int),
                    matched: p@,
                    expansion: tmpl@,
                    post: Seq::empty(),
                    ordinal: ord as nat,
                };
                append_range(&mut hi, rem.as_slice(), 0, pos);
                append_marker(&mut hi, p, ord);
                append_range(&mut rep, rem.as_slice(), 0, pos);
                append_slice(&mut rep, tmpl);
                append_range(&mut hirep, rem.as_slice(), 0, pos);
                append_marker(&mut hirep, tmpl, ord);
                let rl = rem.len();
                let next = sub_chars(rem.as_slice(), pos + p.len(), rl);
                let ghost lnext: nat = if all {
                    0nat
                } else {
                    (left - 1) as nat
                };
                proof {
                    assert(next@ =~= rem0.skip(pos + p@.len() as int));
                    let rest_segs = lit_fwd_segs(next@, p@, tmpl@, (ord + 1) as nat, lnext, all);
                    assert(lit_fwd_segs(rem0, p@, tmpl@, ord as nat, left as nat, all) == seq![seg]
                        + rest_segs);
                    lemma_render_concat(Channel::Highlighted, seq![seg], rest_segs);
                    lemma_render_concat(Channel::Replaced, seq![seg], rest_segs);
                    lemma_render_concat(Channel::HighlightedReplaced, seq![seg], rest_segs);
                    lemma_render_one(Channel::Highlighted, seg);
                    lemma_render_one(Channel::Replaced, seg);
                    lemma_render_one(Channel::HighlightedReplaced, seg);
                    assert(hi@ =~= hi0 + seg_render(Channel::Highlighted, seg));
                    assert(rep@ =~= rep0 + seg_render(Channel::Replaced, seg));
                    assert(hirep@ =~= hirep0 + seg_render(Channel::HighlightedReplaced, seg));
                    assert(hi@ + render(Channel::Highlighted, rest_segs) =~= hi0 + render(
                        Channel::Highlighted,
                        lit_fwd_segs(rem0, p@, tmpl@, ord as nat, left as nat, all),
                    ));
                    assert(rep@ + render(Channel::Replaced, rest_segs) =~= rep0 + render(
                        Channel::Replaced,
                        lit_fwd_segs(rem0, p@, tmpl@, ord as nat, left as nat, all),
                    ));
                    assert(hirep@ + render(Channel::HighlightedReplaced, rest_segs) =~= hirep0
                        + render(
                        Channel::HighlightedReplaced,
                        lit_fwd_segs(rem0, p@, tmpl@, ord as nat, left as nat, all),
                    ));
                }
                rem = next;
                ord = ord + 1;
                if !all {
                    left = left - 1;
                }
            },
        }
    }
    proof {
        lemma_render_one(Channel::Highlighted, Segment::Plain { text: rem@ });
        lemma_render_one(Channel::Replaced, Segment::Plain { text: rem@ });
        lemma_render_one(Channel::HighlightedReplaced, Segment::Plain { text: rem@ });
    }
    append_slice(&mut hi, rem.as_slice());
    append_slice(&mut rep, rem.as_slice());
    append_slice(&mut hirep, rem.as_slice());
    (hi, rep, hirep)
}

/// The backward literal scan, rendered on all three channels.
fn lit_bwd_exec(t: &[char], p: &[char], tmpl: &[char], ord: usize, budget: usize) -> (res: (
    Vec<char>,
    Vec<char>,
    Vec<char>,
))
    requires
        p@.len() >= 1,
        ord + budget <= usize::MAX,
    ensures
        res.0@ == render(
            Channel::Highlighted,
            lit_bwd_segs(t@, p@, tmpl@, ord as nat, budget as nat),
        ),
        res.1@ == render(Channel::Replaced, lit_bwd_segs(t@, p@, tmpl@, ord as nat, budget as nat)),
        res.2@ == render(
            Channel::HighlightedReplaced,
            lit_bwd_segs(t@, p@, tmpl@, ord as nat, budget as nat),
        ),
    decreases budget,
{
    proof {
        lemma_render_one(Channel::Highlighted, Segment::Plain { text: t@ });
        lemma_render_one(Channel::Replaced, Segment::Plain { text: t@ });
        lemma_render_one(Channel::HighlightedReplaced, Segment::Plain { text: t@ });
    }
    if budget == 0 {
        let a = sub_chars(t, 0, t.len());
        let b = sub_chars(t, 0, t.len());
        let c = sub_chars(t, 0, t.len());
        proof {
            assert(a@ =~= t@);
        }
        return (a, b, c);
    }
    match find_last(t, p) {
        None => {
            let a = sub_chars(t, 0, t.len());
            let b = sub_chars(t, 0, t.len());
            let c = sub_chars(t, 0, t.len());
            proof {
                assert(a@ =~= t@);
            }
            (a, b, c)
        },
        Some(pos) => {
            proof {
                lemma_last_occ_bounds(t@, p@, t@.len() - p@.len(), pos as int);
            }
            let rest = sub_chars(t, 0, pos);
            let sub = lit_bwd_exec(rest.as_slice(), p, tmpl, ord + 1, budget - 1);
            let (mut hi, mut rep, mut hirep) = sub;
            let ghost hi0 = hi@;
            let ghost rep0 = rep@;
            let ghost hirep0 = hirep@;
            let ghost seg = Segment::Hit {
                pre: Seq::empty(),
                matched: p@,
                expansion: tmpl@,
                post: t@.skip(pos + p@.len() as int),
                ordinal: ord as nat,
            };
            append_marker(&mut hi, p, ord);
            append_range(&mut hi, t, pos + p.len(), t.len());
            append_slice(&mut rep, tmpl);
            append_range(&mut rep, t, pos + p.len(), t.len());
            append_marker(&mut hirep, tmpl, ord);
            append_range(&mut hirep, t, pos + p.len(), t.len());
            proof {
                assert(rest@ =~= t@.subrange(0, pos as int));
                let sub_segs = lit_bwd_segs(
                    rest@,
                    p@,
                    tmpl@,
                    (ord + 1) as nat,
                    (budget - 1) as nat,
                );
                assert(lit_bwd_segs(t@, p@, tmpl@, ord as nat, budget as nat) == sub_segs + seq![
                    seg,
                ]);
                lemma_render_concat(Channel::Highlighted, sub_segs, seq![seg]);
                lemma_render_concat(Channel::Replaced, sub_segs, seq![seg]);
                lemma_render_concat(Channel::HighlightedReplaced, sub_segs, seq![seg]);
                lemma_render_one(Channel::Highlighted, seg);
                lemma_render_one(Channel::Replaced, seg);
                lemma_render_one(Channel::HighlightedReplaced, seg);
                assert(hi@ =~= hi0 + seg_render(Channel::Highlighted, seg));
                assert(rep@ =~= rep0 + seg_render(Channel::Replaced, seg));
                assert(hirep@ =~= hirep0 + seg_render(Channel::HighlightedReplaced, seg));
            }
            (hi, rep, hirep)
        },
    }
}

/// Resolves one piece of a regular expression scan onto all three channels:
/// the first match found in the piece is highlighted and expanded against its
/// capture set; a piece without a match is appended untouched.
fn append_piece(
    pattern: &str,
    tmpl: &[char],
    piece: &[char],
    ord: usize,
    hi: &mut Vec<char>,
    rep: &mut Vec<char>,
    hirep: &mut Vec<char>,
)
    ensures
        final(hi)@ == old(hi)@ + seg_render(
            Channel::Highlighted,
            piece_seg(pattern@, tmpl@, piece@, ord as nat),
        ),
        final(rep)@ == old(rep)@ + seg_render(
            Channel::Replaced,
            piece_seg(pattern@, tmpl@, piece@, ord as nat),
        ),
        final(hirep)@ == old(hirep)@ + seg_render(
            Channel::HighlightedReplaced,
            piece_seg(pattern@, tmpl@, piece@, ord as nat),
        ),
{
    let piece_str = chars_to_string(piece);
    match regex_first_caps(pattern, piece_str.as_str()) {
        None => {
            append_slice(hi, piece);
            append_slice(rep, piece);
            append_slice(hirep, piece);
        },
        Some(c) => {
            let (pre, mat, post, gs) = c;
            let exp = expand_captures(tmpl, &gs);
            let ghost seg = piece_seg(pattern@, tmpl@, piece@, ord as nat);
            proof {
                assert(seg == (Segment::Hit {
                    pre: pre@,
                    matched: mat@,
                    expansion: exp@,
                    post: post@,
                    ordinal: ord as nat,
                }));
            }
            append_slice(hi, pre.as_slice());
            append_marker(hi, mat.as_slice(), ord);
            append_slice(hi, post.as_slice());
            append_slice(rep, pre.as_slice());
            append_slice(rep, exp.as_slice());
            append_slice(rep, post.as_slice());
            append_slice(hirep, pre.as_slice());
            append_marker(hirep, exp.as_slice(), ord);
            append_slice(hirep, post.as_slice());
            proof {
                assert(hi@ =~= old(hi)@ + seg_render(Channel::Highlighted, seg));
                assert(rep@ =~= old(rep)@ + seg_render(Channel::Replaced, seg));
                assert(hirep@ =~= old(hirep)@ + seg_render(Channel::HighlightedReplaced, seg));
            }
        },
    }
}

/// The forward regular expression scan, rendered on all three channels.
#[verifier::rlimit(60)]
#[verifier::spinoff_prover]
fn rx_fwd_exec(pattern: &str, t: &[char], tmpl: &[char], budget: usize, all: bool) -> (res: (
    Vec<char>,
    Vec<char>,
    Vec<char>,
))
    requires
        t@.len() + 2 <= usize::MAX,
        all ==> budget == 0,
    ensures
        res.0@ == render(
            Channel::Highlighted,
            rx_fwd_segs(t@, pattern@, tmpl@, t@, 1, budget as nat, all),
        ),
        res.1@ == render(
            Channel::Replaced,
            rx_fwd_segs(t@, pattern@, tmpl@, t@, 1, budget as nat, all),
        ),
        res.2@ == render(
            Channel::HighlightedReplaced,
            rx_fwd_segs(t@, pattern@, tmpl@, t@, 1, budget as nat, all),
        ),
{
    let mut hi: Vec<char> = Vec::new();
    let mut rep: Vec<char> = Vec::new();
    let mut hirep: Vec<char> = Vec::new();
    let mut rem: Vec<char> = sub_chars(t, 0, t.len());
    let mut ord: usize = 1;
    let mut left: usize = budget;
    proof {
        assert(rem@ =~= t@);
        assert(hi@ + render(
            Channel::Highlighted,
            rx_fwd_segs(rem@, pattern@, tmpl@, t@, 1, left as nat, all),
        ) =~= render(Channel::Highlighted, rx_fwd_segs(t@, pattern@, tmpl@, t@, 1, budget as nat, all)));
        assert(rep@ + render(
            Channel::Replaced,
            rx_fwd_segs(rem@, pattern@, tmpl@, t@, 1, left as nat, all),
        ) =~= render(Channel::Replaced, rx_fwd_segs(t@, pattern@, tmpl@, t@, 1, budget as nat, all)));
        assert(hirep@ + render(
            Channel::HighlightedReplaced,
            rx_fwd_segs(rem@, pattern@, tmpl@, t@, 1, left as nat, all),
        ) =~= render(
            Channel::HighlightedReplaced,
            rx_fwd_segs(t@, pattern@, tmpl@, t@, 1, budget as nat, all),
        ));
    }
    loop
        invariant
            1 <= ord,
            ord + rem@.len() <= t@.len() + 2,
            t@.len() + 2 <= usize::MAX,
            all ==> left == 0,
            render(Channel::Highlighted, rx_fwd_segs(t@, pattern@, tmpl@, t@, 1, budget as nat, all))
                == hi@ + render(
                Channel::Highlighted,
                rx_fwd_segs(rem@, pattern@, tmpl@, t@, ord as nat, left as nat, all),
            ),
            render(Channel::Replaced, rx_fwd_segs(t@, pattern@, tmpl@, t@, 1, budget as nat, all))
                == rep@ + render(
                Channel::Replaced,
                rx_fwd_segs(rem@, pattern@, tmpl@, t@, ord as nat, left as nat, all),
            ),
            render(
                Channel::HighlightedReplaced,
                rx_fwd_segs(t@, pattern@, tmpl@, t@, 1, budget as nat, all),
            ) == hirep@ + render(
                Channel::HighlightedReplaced,
                rx_fwd_segs(rem@, pattern@, tmpl@, t@, ord as nat, left as nat, all),
            ),
        ensures
            rx_fwd_segs(rem@, pattern@, tmpl@, t@, ord as nat, left as nat, all) == seq![
                Segment::Plain { text: rem@ },
            ],
        decreases
                (if all {
                    0int
                } else {
                    left as int
                }),
                rem@.len(),
    {
        if !all && left == 0 {
            break;
        }
        let rem_str = chars_to_string(rem.as_slice());
        match regex_cut_first(pattern, rem_str.as_str()) {
            None => {
                break;
            },
            Some(cut) => {
                let (piece, rest) = cut;
                let ghost rem0 = rem@;
                let ghost hi0 = hi@;
                let ghost rep0 = rep@;
                let ghost hirep0 = hirep@;
                let ghost seg = piece_seg(pattern@, tmpl@, piece@, ord as nat);
                let stop = piece.len() == 0 || (rest.len() == 0 && chars_eq(rem.as_slice(), t));
                append_piece(pattern, tmpl, piece.as_slice(), ord, &mut hi, &mut rep, &mut hirep);
                if stop {
                    proof {
                        let two = seq![seg, Segment::Plain { text: rest@ }];
                        assert(rx_fwd_segs(rem0, pattern@, tmpl@, t@, ord as nat, left as nat, all)
                            == two);
                        assert(two =~= seq![seg] + seq![Segment::Plain { text: rest@ }]);
                        lemma_render_concat(
                            Channel::Highlighted,
                            seq![seg],
                            seq![Segment::Plain { text: rest@ }],
                        );
                        lemma_render_concat(
                            Channel::Replaced,
                            seq![seg],
                            seq![Segment::Plain { text: rest@ }],
                        );
                        lemma_render_concat(
                            Channel::HighlightedReplaced,
                            seq![seg],
                            seq![Segment::Plain { text: rest@ }],
                        );
                        lemma_render_one(Channel::Highlighted, seg);
                        lemma_render_one(Channel::Replaced, seg);
                        lemma_render_one(Channel::HighlightedReplaced, seg);
                        lemma_render_one(Channel::Highlighted, Segment::Plain { text: rest@ });
                        lemma_render_one(Channel::Replaced, Segment::Plain { text: rest@ });
                        lemma_render_one(
                            Channel::HighlightedReplaced,
                            Segment::Plain { text: rest@ },
                        );
                    }
                    append_slice(&mut hi, rest.as_slice());
                    append_slice(&mut rep, rest.as_slice());
                    append_slice(&mut hirep, rest.as_slice());
                    proof {
                        assert(hi@ =~= hi0 + render(
                            Channel::Highlighted,
                            rx_fwd_segs(rem0, pattern@, tmpl@, t@, ord as nat, left as nat, all),
                        ));
                        assert(rep@ =~= rep0 + render(
                            Channel::Replaced,
                            rx_fwd_segs(rem0, pattern@, tmpl@, t@, ord as nat, left as nat, all),
                        ));
                        assert(hirep@ =~= hirep0 + render(
                            Channel::HighlightedReplaced,
                            rx_fwd_segs(rem0, pattern@, tmpl@, t@, ord as nat, left as nat, all),
                        ));
                    }
                    return (hi, rep, hirep);
                }
                let ghost lnext: nat = if all {
                    0nat
                } else {
                    (left - 1) as nat
                };
                proof {
                    let rest_segs = rx_fwd_segs(
                        rest@,
                        pattern@,
                        tmpl@,
                        t@,
                        (ord + 1) as nat,
                        lnext,
                        all,
                    );
                    assert(rx_fwd_segs(rem0, pattern@, tmpl@, t@, ord as nat, left as nat, all)
                        == seq![seg] + rest_segs);
                    lemma_render_concat(Channel::Highlighted, seq![seg], rest_segs);
                    lemma_render_concat(Channel::Replaced, seq![seg], rest_segs);
                    lemma_render_concat(Channel::HighlightedReplaced, seq![seg], rest_segs);
                    lemma_render_one(Channel::Highlighted, seg);
                    lemma_render_one(Channel::Replaced, seg);
                    lemma_render_one(Channel::HighlightedReplaced, seg);
                    assert(hi@ + render(Channel::Highlighted, rest_segs) =~= hi0 + render(
                        Channel::Highlighted,
                        rx_fwd_segs(rem0, pattern@, tmpl@, t@, ord as nat, left as nat, all),
                    ));
                    assert(rep@ + render(Channel::Replaced, rest_segs) =~= rep0 + render(
                        Channel::Replaced,
                        rx_fwd_segs(rem0, pattern@, tmpl@, t@, ord as nat, left as nat, all),
                    ));
                    assert(hirep@ + render(Channel::HighlightedReplaced, rest_segs) =~= hirep0
                        + render(
                        Channel::HighlightedReplaced,
                        rx_fwd_segs(rem0, pattern@, tmpl@, t@, ord as nat, left as nat, all),
                    ));
                }
                rem = rest;
                ord = ord + 1;
                if !all {
                    left = left - 1;
                }
            },
        }
    }
    proof {
        lemma_render_one(Channel::Highlighted, Segment::Plain { text: rem@ });
        lemma_render_one(Channel::Replaced, Segment::Plain { text: rem@ });
        lemma_render_one(Channel::HighlightedReplaced, Segment::Plain { text: rem@ });
    }
    append_slice(&mut hi, rem.as_slice());
    append_slice(&mut rep, rem.as_slice());
    append_slice(&mut hirep, rem.as_slice());
    (hi, rep, hirep)
}

/// The backward regular expression scan, rendered on all three channels.
fn rx_bwd_exec(pattern: &str, t: &[char], tmpl: &[char], orig: &[char], ord: usize, budget: usize) -> (res: (
    Vec<char>,
    Vec<char>,
    Vec<char>,
))
    requires
        ord + budget <= usize::MAX,
    ensures
        res.0@ == render(
            Channel::Highlighted,
            rx_bwd_segs(t@, pattern@, tmpl@, orig@, ord as nat, budget as nat),
        ),
        res.1@ == render(
            Channel::Replaced,
            rx_bwd_segs(t@, pattern@, tmpl@, orig@, ord as nat, budget as nat),
        ),
        res.2@ == render(
            Channel::HighlightedReplaced,
            rx_bwd_segs(t@, pattern@, tmpl@, orig@, ord as nat, budget as nat),
        ),
    decreases budget,
{
    proof {
        lemma_render_one(Channel::Highlighted, Segment::Plain { text: t@ });
        lemma_render_one(Channel::Replaced, Segment::Plain { text: t@ });
        lemma_render_one(Channel::HighlightedReplaced, Segment::Plain { text: t@ });
    }
    if budget == 0 {
        let a = sub_chars(t, 0, t.len());
        let b = sub_chars(t, 0, t.len());
        let c = sub_chars(t, 0, t.len());
        proof {
            assert(a@ =~= t@);
        }
        return (a, b, c);
    }
    let t_str = chars_to_string(t);
    match regex_cut_last(pattern, t_str.as_str()) {
        None => {
            let a = sub_chars(t, 0, t.len());
            let b = sub_chars(t, 0, t.len());
            let c = sub_chars(t, 0, t.len());
            proof {
                assert(a@ =~= t@);
            }
            (a, b, c)
        },
        Some(cut) => {
            let (rest, piece) = cut;
            let ghost seg = piece_seg(pattern@, tmpl@, piece@, ord as nat);
            let stop = rest.len() == 0 || (piece.len() == 0 && chars_eq(t, orig));
            if stop {
                let mut hi: Vec<char> = Vec::new();
                let mut rep: Vec<char> = Vec::new();
                let mut hirep: Vec<char> = Vec::new();
                append_slice(&mut hi, rest.as_slice());
                append_slice(&mut rep, rest.as_slice());
                append_slice(&mut hirep, rest.as_slice());
                append_piece(pattern, tmpl, piece.as_slice(), ord, &mut hi, &mut rep, &mut hirep);
                proof {
                    let two = seq![Segment::Plain { text: rest@ }, seg];
                    assert(rx_bwd_segs(t@, pattern@, tmpl@, orig@, ord as nat, budget as nat)
                        == two);
                    assert(two =~= seq![Segment::Plain { text: rest@ }] + seq![seg]);
                    lemma_render_concat(
                        Channel::Highlighted,
                        seq![Segment::Plain { text: rest@ }],
                        seq![seg],
                    );
                    lemma_render_concat(
                        Channel::Replaced,
                        seq![Segment::Plain { text: rest@ }],
                        seq![seg],
                    );
                    lemma_render_concat(
                        Channel::HighlightedReplaced,
                        seq![Segment::Plain { text: rest@ }],
                        seq![seg],
                    );
                    lemma_render_one(Channel::Highlighted, seg);
                    lemma_render_one(Channel::Replaced, seg);
                    lemma_render_one(Channel::HighlightedReplaced, seg);
                    lemma_render_one(Channel::Highlighted, Segment::Plain { text: rest@ });
                    lemma_render_one(Channel::Replaced, Segment::Plain { text: rest@ });
                    lemma_render_one(Channel::HighlightedReplaced, Segment::Plain { text: rest@ });
                    assert(hi@ =~= Seq::<char>::empty() + rest@ + seg_render(
                        Channel::Highlighted,
                        seg,
                    ));
                    assert(hi@ =~= render(
                        Channel::Highlighted,
                        rx_bwd_segs(t@, pattern@, tmpl@, orig@, ord as nat, budget as nat),
                    ));
                    assert(rep@ =~= render(
                        Channel::Replaced,
                        rx_bwd_segs(t@, pattern@, tmpl@, orig@, ord as nat, budget as nat),
                    ));
                    assert(hirep@ =~= render(
                        Channel::HighlightedReplaced,
                        rx_bwd_segs(t@, pattern@, tmpl@, orig@, ord as nat, budget as nat),
                    ));
                }
                (hi, rep, hirep)
            } else {
                let sub = rx_bwd_exec(pattern, rest.as_slice(), tmpl, orig, ord + 1, budget - 1);
                let (mut hi, mut rep, mut hirep) = sub;
                let ghost hi0 = hi@;
                let ghost rep0 = rep@;
                let ghost hirep0 = hirep@;
                append_piece(pattern, tmpl, piece.as_slice(), ord, &mut hi, &mut rep, &mut hirep);
                proof {
                    let sub_segs = rx_bwd_segs(
                        rest@,
                        pattern@,
                        tmpl@,
                        orig@,
                        (ord + 1) as nat,
                        (budget - 1) as nat,
                    );
                    assert(rx_bwd_segs(t@, pattern@, tmpl@, orig@, ord as nat, budget as nat)
                        == sub_segs + seq![seg]);
                    lemma_render_concat(Channel::Highlighted, sub_segs, seq![seg]);
                    lemma_render_concat(Channel::Replaced, sub_segs, seq![seg]);
                    lemma_render_concat(Channel::HighlightedReplaced, sub_segs, seq![seg]);
                    lemma_render_one(Channel::Highlighted, seg);
                    lemma_render_one(Channel::Replaced, seg);
                    lemma_render_one(Channel::HighlightedReplaced, seg);
                }
                (hi, rep, hirep)
            }
        },
    }
}

/// Runs one replacement over `text` under the given pattern, expanded
/// replacement template and signed count, and returns the triple
/// `(highlighted, replaced, highlighted_replaced)`.  A pattern that does not
/// compile (regular expression mode) and an empty pattern (literal mode) are
/// soft no-ops: all three outputs equal the input.
pub fn replace_with_count(
    use_regex: bool,
    text: &str,
    pattern: &str,
    replacement: &str,
    count: i8,
) -> (res: Result<(String, String, String), String>)
    requires
        text@.len() + 2 <= usize::MAX,
    ensures
        res matches Ok(out) && {
            let triple = replace_count_spec(use_regex, text@, pattern@, replacement@, count as int);
            out.0@ == triple.0 && out.1@ == triple.1 && out.2@ == triple.2
        },
{
    let t = str_to_chars(text);
    let p = str_to_chars(pattern);
    let tmpl = str_to_chars(replacement);
    proof {
        lemma_render_one(Channel::Highlighted, Segment::Plain { text: text@ });
        lemma_render_one(Channel::Replaced, Segment::Plain { text: text@ });
        lemma_render_one(Channel::HighlightedReplaced, Segment::Plain { text: text@ });
    }
    if use_regex {
        if !regex_compiles(pattern) {
            return Ok((text.to_owned(), text.to_owned(), text.to_owned()));
        }
        if count >= 0 {
            let out = rx_fwd_exec(
                pattern,
                t.as_slice(),
                tmpl.as_slice(),
                count as usize,
                count == 0,
            );
            Ok(
                (
                    chars_to_string(out.0.as_slice()),
                    chars_to_string(out.1.as_slice()),
                    chars_to_string(out.2.as_slice()),
                ),
            )
        } else {
            let budget = (-(count as i32)) as usize;
            let out = rx_bwd_exec(pattern, t.as_slice(), tmpl.as_slice(), t.as_slice(), 1, budget);
            Ok(
                (
                    chars_to_string(out.0.as_slice()),
                    chars_to_string(out.1.as_slice()),
                    chars_to_string(out.2.as_slice()),
                ),
            )
        }
    } else {
        if p.len() == 0 {
            return Ok((text.to_owned(), text.to_owned(), text.to_owned()));
        }
        if count >= 0 {
            let out = lit_fwd_exec(
                t.as_slice(),
                p.as_slice(),
                tmpl.as_slice(),
                count as usize,
                count == 0,
            );
            Ok(
                (
                    chars_to_string(out.0.as_slice()),
                    chars_to_string(out.1.as_slice()),
                    chars_to_string(out.2.as_slice()),
                ),
            )
        } else {
            let budget = (-(count as i32)) as usize;
            let out = lit_bwd_exec(t.as_slice(), p.as_slice(), tmpl.as_slice(), 1, budget);
            Ok(
                (
                    chars_to_string(out.0.as_slice()),
                    chars_to_string(out.1.as_slice()),
                    chars_to_string(out.2.as_slice()),
                ),
            )
        }
    }
}

/// Whether the pattern compiles as a regular expression.
pub fn validate_pattern(pattern: &str) -> (r: bool)
    ensures
        r == rx_ok(pattern@),
{
    regex_compiles(pattern)
}

} // verus!
