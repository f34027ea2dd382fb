//! Laws of the replacement engine and the resolver.
//!
//! These proof functions state, over the engine's segment model, how many
//! matches a run selects, how its scan ordinals stand in the output, and
//! that a run whose pattern matches nothing leaves both the text and the
//! resolved entry untouched.

use vstd::prelude::*;
use crate::engine::{lit_bwd_segs, lit_fwd_segs, replace_count_segs, replace_count_spec, Segment};
use crate::paths::{
    extension_spec, lemma_with_extension_identity, lemma_with_file_name_identity,
    lemma_with_stem_identity, tidy_path,
};
use crate::plan::{entry_renames, planned_entry};
use crate::resolve::{target_field, RenameTarget};
use crate::text::{
    first_occ, first_occ_from, is_match_at, last_occ, last_occ_before, lemma_first_occ_bounds,
    lemma_last_occ_bounds,
};

verus! {

/// How many selected matches a segment sequence carries.
pub open spec fn hit_count(segs: Seq<Segment>) -> nat
    decreases segs.len(),
{
    if segs.len() == 0 {
        0
    } else {
        (match segs[0] {
            Segment::Hit { pre: _, matched: _, expansion: _, post: _, ordinal: _ } => 1nat,
            Segment::Plain { text: _ } => 0nat,
        }) + hit_count(segs.drop_first())
    }
}

/// The scan ordinals of the selected matches, in output order.
pub open spec fn hit_ordinals(segs: Seq<Segment>) -> Seq<nat>
    decreases segs.len(),
{
    if segs.len() == 0 {
        Seq::empty()
    } else {
        match segs[0] {
            Segment::Hit { pre: _, matched: _, expansion: _, post: _, ordinal } => seq![ordinal]
                + hit_ordinals(segs.drop_first()),
            Segment::Plain { text: _ } => hit_ordinals(segs.drop_first()),
        }
    }
}

/// How many non-overlapping occurrences a greedy left-to-right literal scan
/// of `t` finds.
pub open spec fn occ_count_fwd(t: Seq<char>, p: Seq<char>) -> nat
    decreases t.len(),
{
    if p.len() == 0 {
        0
    } else {
        match first_occ(t, p) {
            None => 0,
            Some(k) => {
                if 0 <= k && 1 <= k + p.len() <= t.len() {
                    1 + occ_count_fwd(t.skip(k + p.len() as int), p)
                } else {
                    0
                }
            },
        }
    }
}

/// How many non-overlapping occurrences a greedy right-to-left literal scan
/// of `t` finds.
pub open spec fn occ_count_bwd(t: Seq<char>, p: Seq<char>) -> nat
    decreases t.len(),
{
    if p.len() == 0 {
        0
    } else {
        match last_occ(t, p) {
            None => 0,
            Some(k) => {
                if 0 <= k && k + p.len() <= t.len() {
                    1 + occ_count_bwd(t.subrange(0, k), p)
                } else {
                    0
                }
            },
        }
    }
}

/// Counting a single segment.
proof fn lemma_hits_one(s: Segment)
    ensures
        hit_count(seq![s]) == (match s {
            Segment::Hit { pre: _, matched: _, expansion: _, post: _, ordinal: _ } => 1nat,
            Segment::Plain { text: _ } => 0nat,
        }),
        hit_ordinals(seq![s]) == (match s {
            Segment::Hit { pre: _, matched: _, expansion: _, post: _, ordinal } => seq![ordinal],
            Segment::Plain { text: _ } => Seq::<nat>::empty(),
        }),
{
    assert(seq![s].drop_first() =~= Seq::<Segment>::empty());
    assert(seq![s][0] == s);
    assert(hit_count(Seq::<Segment>::empty()) == 0);
    assert(hit_ordinals(Seq::<Segment>::empty()) == Seq::<nat>::empty());
    match s {
        Segment::Hit { pre: _, matched: _, expansion: _, post: _, ordinal } => {
            assert(hit_ordinals(seq![s]) =~= seq![ordinal]);
        },
        Segment::Plain { text: _ } => {
        },
    }
}

/// Counting distributes over concatenation of segment sequences.
proof fn lemma_hits_concat(a: Seq<Segment>, b: Seq<Segment>)
    ensures
        hit_count(a + b) == hit_count(a) + hit_count(b),
        hit_ordinals(a + b) == hit_ordinals(a) + hit_ordinals(b),
    decreases a.len(),
{
    if a.len() == 0 {
        assert(a + b =~= b);
        assert(hit_ordinals(a) + hit_ordinals(b) =~= hit_ordinals(b));
    } else {
        assert((a + b).len() > 0);
        assert((a + b)[0] == a[0]);
        assert((a + b).drop_first() =~= a.drop_first() + b);
        lemma_hits_concat(a.drop_first(), b);
        match a[0] {
            Segment::Hit { pre: _, matched: _, expansion: _, post: _, ordinal } => {
                assert(hit_ordinals(a + b) =~= hit_ordinals(a) + hit_ordinals(b));
            },
            Segment::Plain { text: _ } => {
            },
        }
    }
}

/// A scan that finds nothing from `i` on finds nothing anywhere at or after
/// `i`.
proof fn lemma_first_occ_none(t: Seq<char>, p: Seq<char>, i: int)
    requires
        first_occ_from(t, p, i) is None,
    ensures
        forall|j: int| j >= i ==> !is_match_at(t, p, j),
    decreases t.len() - i + 1,
{
    if i + p.len() > t.len() {
        assert forall|j: int| j >= i implies !is_match_at(t, p, j) by {
            assert(j + p.len() > t.len());
        }
    } else {
        lemma_first_occ_none(t, p, i + 1);
    }
}

/// Where no occurrence exists, the backward scan finds none either.
proof fn lemma_no_match_bwd(t: Seq<char>, p: Seq<char>, i: int)
    requires
        forall|j: int| !is_match_at(t, p, j),
    ensures
        last_occ_before(t, p, i) is None,
    decreases i + 1,
{
    if i >= 0 {
        lemma_no_match_bwd(t, p, i - 1);
    }
}

/// A literal run whose pattern is absent from the text — or empty — returns
/// the text unchanged on all three channels, whatever the count.  In
/// particular, re-running a replacement whose output no longer holds the
/// pattern changes nothing further.
pub proof fn lemma_literal_no_match_identity(t: Seq<char>, p: Seq<char>, tmpl: Seq<char>, count: int)
    requires
        p.len() == 0 || first_occ(t, p) is None,
    ensures
        replace_count_spec(false, t, p, tmpl, count) == (t, t, t),
{
    let segs = replace_count_segs(false, t, p, tmpl, count);
    if p.len() == 0 {
        assert(segs == seq![Segment::Plain { text: t }]);
    } else if count >= 0 {
        assert(segs == seq![Segment::Plain { text: t }]);
    } else {
        lemma_first_occ_none(t, p, 0);
        lemma_no_match_bwd(t, p, t.len() - p.len());
        assert(segs == seq![Segment::Plain { text: t }]);
    }
    crate::engine::lemma_render_one(crate::engine::Channel::Highlighted, Segment::Plain { text: t });
    crate::engine::lemma_render_one(crate::engine::Channel::Replaced, Segment::Plain { text: t });
    crate::engine::lemma_render_one(
        crate::engine::Channel::HighlightedReplaced,
        Segment::Plain { text: t },
    );
}

/// The selected matches of a forward literal scan: as many as the budget
/// allows of all that are there, with ordinals counting up from `ord` in
/// left-to-right text order.
proof fn lemma_fwd_scan(t: Seq<char>, p: Seq<char>, tmpl: Seq<char>, ord: nat, budget: nat, all: bool)
    requires
        p.len() >= 1,
    ensures
        ({
            let segs = lit_fwd_segs(t, p, tmpl, ord, budget, all);
            let total = occ_count_fwd(t, p);
            let n: nat = if all {
                total
            } else if budget <= total {
                budget
            } else {
                total
            };
            hit_count(segs) == n && hit_ordinals(segs) == Seq::new(n, |i: int| (ord + i) as nat)
        }),
    decreases t.len(),
{
    let segs = lit_fwd_segs(t, p, tmpl, ord, budget, all);
    let total = occ_count_fwd(t, p);
    let n: nat = if all {
        total
    } else if budget <= total {
        budget
    } else {
        total
    };
    if !all && budget == 0 {
        lemma_hits_one(Segment::Plain { text: t });
        assert(hit_ordinals(segs) =~= Seq::new(n, |i: int| (ord + i) as nat));
    } else {
        match first_occ(t, p) {
            None => {
                lemma_hits_one(Segment::Plain { text: t });
                assert(hit_ordinals(segs) =~= Seq::new(n, |i: int| (ord + i) as nat));
            },
            Some(k) => {
                lemma_first_occ_bounds(t, p, 0, k);
                let rest = t.skip(k + p.len() as int);
                let bnext: nat = if all {
                    0
                } else {
                    (budget - 1) as nat
                };
                let hit = Segment::Hit {
                    pre: t.subrange(0, k),
                    matched: p,
                    expansion: tmpl,
                    post: Seq::empty(),
                    ordinal: ord,
                };
                let rest_segs = lit_fwd_segs(rest, p, tmpl, ord + 1, bnext, all);
                assert(segs == seq![hit] + rest_segs);
                lemma_fwd_scan(rest, p, tmpl, ord + 1, bnext, all);
                lemma_hits_concat(seq![hit], rest_segs);
                lemma_hits_one(hit);
                assert(total == 1 + occ_count_fwd(rest, p));
                let rest_total = occ_count_fwd(rest, p);
                let rest_n: nat = if all {
                    rest_total
                } else if bnext <= rest_total {
                    bnext
                } else {
                    rest_total
                };
                assert(n == 1 + rest_n);
                assert(hit_ordinals(segs) =~= Seq::new(n, |i: int| (ord + i) as nat)) by {
                    assert(hit_ordinals(segs) == seq![ord] + Seq::new(
                        rest_n,
                        |i: int| (ord + 1 + i) as nat,
                    ));
                }
            },
        }
    }
}

/// The selected matches of a backward literal scan: as many as the budget
/// allows of all the right-to-left scan finds, with ordinals counting up
/// from `ord` right to left — so in output order they count down.
proof fn lemma_bwd_scan(t: Seq<char>, p: Seq<char>, tmpl: Seq<char>, ord: nat, budget: nat)
    requires
        p.len() >= 1,
    ensures
        ({
            let segs = lit_bwd_segs(t, p, tmpl, ord, budget);
            let total = occ_count_bwd(t, p);
            let n: nat = if budget <= total {
                budget
            } else {
                total
            };
            hit_count(segs) == n && hit_ordinals(segs) == Seq::new(
                n,
                |i: int| (ord + n - 1 - i) as nat,
            )
        }),
    decreases budget,
{
    let segs = lit_bwd_segs(t, p, tmpl, ord, budget);
    let total = occ_count_bwd(t, p);
    let n: nat = if budget <= total {
        budget
    } else {
        total
    };
    if budget == 0 {
        lemma_hits_one(Segment::Plain { text: t });
        assert(hit_ordinals(segs) =~= Seq::new(n, |i: int| (ord + n - 1 - i) as nat));
    } else {
        match last_occ(t, p) {
            None => {
                lemma_hits_one(Segment::Plain { text: t });
                assert(hit_ordinals(segs) =~= Seq::new(n, |i: int| (ord + n - 1 - i) as nat));
            },
            Some(k) => {
                lemma_last_occ_bounds(t, p, t.len() - p.len(), k);
                let rest = t.subrange(0, k);
                let hit = Segment::Hit {
                    pre: Seq::empty(),
                    matched: p,
                    expansion: tmpl,
                    post: t.skip(k + p.len() as int),
                    ordinal: ord,
                };
                let rest_segs = lit_bwd_segs(rest, p, tmpl, ord + 1, (budget - 1) as nat);
                assert(segs == rest_segs + seq![hit]);
                lemma_bwd_scan(rest, p, tmpl, ord + 1, (budget - 1) as nat);
                lemma_hits_concat(rest_segs, seq![hit]);
                lemma_hits_one(hit);
                assert(total == 1 + occ_count_bwd(rest, p));
                let rest_total = occ_count_bwd(rest, p);
                let rest_n: nat = if (budget - 1) as nat <= rest_total {
                    (budget - 1) as nat
                } else {
                    rest_total
                };
                assert(n == 1 + rest_n);
                assert(hit_ordinals(segs) =~= Seq::new(n, |i: int| (ord + n - 1 - i) as nat)) by {
                    assert(hit_ordinals(segs) == Seq::new(
                        rest_n,
                        |i: int| (ord + 1 + rest_n - 1 - i) as nat,
                    ) + seq![ord]);
                }
            },
        }
    }
}

/// Selecting all matches (count zero) of a literal run selects exactly the
/// non-overlapping, left-to-right occurrences of the pattern, one ordinal
/// each, numbered upward in text order.
pub proof fn lemma_count_all_selects_every_match(t: Seq<char>, p: Seq<char>, tmpl: Seq<char>)
    ensures
        ({
            let segs = replace_count_segs(false, t, p, tmpl, 0);
            hit_count(segs) == occ_count_fwd(t, p) && hit_ordinals(segs) == Seq::new(
                occ_count_fwd(t, p),
                |i: int| (1 + i) as nat,
            )
        }),
{
    if p.len() == 0 {
        lemma_hits_one(Segment::Plain { text: t });
        let segs = replace_count_segs(false, t, p, tmpl, 0);
        assert(hit_ordinals(segs) =~= Seq::new(
            occ_count_fwd(t, p),
            |i: int| (1 + i) as nat,
        ));
    } else {
        lemma_fwd_scan(t, p, tmpl, 1, 0, true);
    }
}

/// A positive count `k` selects the first `min(k, total)` matches of a
/// literal run, scanning left to right, with ordinals `1..` upward in text
/// order.
pub proof fn lemma_forward_count_selection(t: Seq<char>, p: Seq<char>, tmpl: Seq<char>, k: int)
    requires
        1 <= k,
    ensures
        ({
            let segs = replace_count_segs(false, t, p, tmpl, k);
            let total = occ_count_fwd(t, p);
            let n: nat = if k <= total {
                k as nat
            } else {
                total
            };
            hit_count(segs) == n && hit_ordinals(segs) == Seq::new(n, |i: int| (1 + i) as nat)
        }),
{
    let total = occ_count_fwd(t, p);
    let n: nat = if k <= total {
        k as nat
    } else {
        total
    };
    if p.len() == 0 {
        lemma_hits_one(Segment::Plain { text: t });
        let segs = replace_count_segs(false, t, p, tmpl, k);
        assert(hit_ordinals(segs) =~= Seq::new(n, |i: int| (1 + i) as nat));
    } else {
        lemma_fwd_scan(t, p, tmpl, 1, k as nat, false);
    }
}

/// A negative count `-k` selects the last `min(k, total)` matches of a
/// literal run, scanning right to left: ordinals are `1..` in scan order, so
/// in the output — which stays in text order — they count down, the lowest
/// ordinal annotating the rightmost selected match.
pub proof fn lemma_backward_count_selection(t: Seq<char>, p: Seq<char>, tmpl: Seq<char>, k: int)
    requires
        1 <= k,
    ensures
        ({
            let segs = replace_count_segs(false, t, p, tmpl, -k);
            let total = occ_count_bwd(t, p);
            let n: nat = if k <= total {
                k as nat
            } else {
                total
            };
            hit_count(segs) == n && hit_ordinals(segs) == Seq::new(n, |i: int| (n - i) as nat)
        }),
{
    let total = occ_count_bwd(t, p);
    let n: nat = if k <= total {
        k as nat
    } else {
        total
    };
    if p.len() == 0 {
        lemma_hits_one(Segment::Plain { text: t });
        let segs = replace_count_segs(false, t, p, tmpl, -k);
        assert(hit_ordinals(segs) =~= Seq::new(n, |i: int| (n - i) as nat));
    } else {
        lemma_bwd_scan(t, p, tmpl, 1, k as nat);
        assert(hit_ordinals(replace_count_segs(false, t, p, tmpl, -k)) =~= Seq::new(
            n,
            |i: int| (n - i) as nat,
        ));
    }
}

/// A literal plan step whose pattern is absent from the targeted field is a
/// true no-op: the entry's target path equals its original path, so — by the
/// planner's contract — the serial counter does not advance for it.  (The
/// one excluded corner is an extension that is present but empty: putting it
/// back drops its dot.)
pub proof fn lemma_no_match_keeps_entry(
    serial: int,
    path: Seq<char>,
    pattern: Seq<char>,
    replacement: Seq<char>,
    target: RenameTarget,
    count: int,
    src_exists: bool,
)
    requires
        tidy_path(path),
        match target_field(path, target) {
            Some(field) => pattern.len() == 0 || first_occ(field, pattern) is None,
            None => true,
        },
        target is SUFFIX ==> match extension_spec(path) {
            Some(e) => e.len() > 0,
            None => true,
        },
    ensures
        ({
            let e = planned_entry(serial, path, pattern, replacement, false, target, count, src_exists);
            e.original_path == path && e.target_path == path && !entry_renames(e)
        }),
{
    if src_exists {
        match target_field(path, target) {
            None => {
            },
            Some(field) => {
                let tmpl = crate::serial::serial_expand_spec(replacement, serial);
                lemma_literal_no_match_identity(field, pattern, tmpl, count);
                match target {
                    RenameTarget::NAME => {
                        lemma_with_file_name_identity(path);
                    },
                    RenameTarget::STEM => {
                        lemma_with_stem_identity(path);
                    },
                    RenameTarget::SUFFIX => {
                        lemma_with_extension_identity(path);
                    },
                }
            },
        }
    }
}

} // verus!
