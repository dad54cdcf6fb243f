//! The token-rewrite pipeline: a window scanner that collects each plugin's
//! match ranges, a range splicer that substitutes the matched spans, and an
//! orchestrator that runs one scan-and-splice pass per configured plugin.

use vstd::prelude::*;

use crate::plugin::{
    ch_step, is_marker_window, is_shallow_heading, plugin_final, plugin_replace_view, plugin_step,
    CollapsibleHeaders, Emoji, Plugin,
};
use crate::state::State;
use crate::token::{strip, view_pairs, with_positions, Tag, Token, TokenView};
use crate::MatchRange;

verus! {

/// Positions stored beside the tokens are exactly their indices.
pub open spec fn indexed(toks: Seq<(usize, Token)>) -> bool {
    forall|k: int| 0 <= k < toks.len() ==> (#[trigger] toks[k]).0 == k
}

/// Positions stored beside the token views are exactly their indices.
pub open spec fn indexed_views(toks: Seq<(usize, TokenView)>) -> bool {
    forall|k: int| 0 <= k < toks.len() ==> (#[trigger] toks[k]).0 == k
}

/// The ranges collected, and the plugin state reached, by sliding the
/// plugin's window one position at a time from `i` to the end of the
/// sequence.
pub open spec fn scan_windows(p: Plugin, toks: Seq<(usize, TokenView)>, i: int) -> (
    Seq<MatchRange>,
    Plugin,
)
    decreases toks.len() - i,
{
    if i < 0 || i + p.spec_window_size() > toks.len() {
        (Seq::empty(), p)
    } else {
        let step = plugin_step(p, toks.subrange(i, i + p.spec_window_size()));
        let rest = scan_windows(step.0, toks, i + 1);
        (
            match step.1 {
                Some(m) => seq![m] + rest.0,
                None => rest.0,
            },
            rest.1,
        )
    }
}

/// The full scan of one pass: every window match in order, then whatever the
/// final boundary check with the last token's position adds.
pub open spec fn scan_spec(p: Plugin, toks: Seq<(usize, TokenView)>) -> Seq<MatchRange> {
    let w = scan_windows(p, toks, 0);
    if toks.len() == 0 {
        w.0
    } else {
        match plugin_final(w.1, toks.last().0) {
            Some(m) => w.0.push(m),
            None => w.0,
        }
    }
}

/// One plugin step keeps the plugin's window size.
pub proof fn lemma_step_keeps_window(p: Plugin, w: Seq<(usize, TokenView)>)
    ensures
        plugin_step(p, w).0.spec_window_size() == p.spec_window_size(),
{
}

/// Slides the plugin's window across the whole sequence, collecting every
/// returned range, then appends the final boundary check's range if any.
/// Returns the collected list, or nothing when no window matched.
pub fn check_collection_with(plugin: &mut Plugin, collection: &[(usize, Token)]) -> (r: Option<
    Vec<MatchRange>,
>)
    requires
        indexed(collection@),
    ensures
        r is Some <==> scan_spec(*old(plugin), view_pairs(collection@)).len() > 0,
        r matches Some(v) ==> v@ == scan_spec(*old(plugin), view_pairs(collection@)),
        *final(plugin) is Emoji <==> *old(plugin) is Emoji,
{
    proof {
        lemma_scan_keeps_kind(*plugin, view_pairs(collection@), 0);
    }
    let ghost toks = view_pairs(collection@);
    let ghost p0 = *plugin;
    proof {
        assert(toks.len() == collection@.len());
        assert forall|k: int| 0 <= k < toks.len() implies (#[trigger] toks[k]).0 == k by {
            assert(toks[k] == (collection@[k].0, collection@[k].1@));
        }
    }
    let ws = plugin.window_size();
    let len = collection.len();
    let mut ranges: Vec<MatchRange> = Vec::new();
    if ws <= len {
        let mut i: usize = 0;
        while i <= len - ws
            invariant
                indexed(collection@),
                toks == view_pairs(collection@),
                ws == plugin.spec_window_size(),
                1 <= ws <= len,
                len == collection@.len(),
                i <= len - ws + 1,
                scan_windows(p0, toks, 0).0 == ranges@ + scan_windows(*plugin, toks, i as int).0,
                scan_windows(p0, toks, 0).1 == scan_windows(*plugin, toks, i as int).1,
            decreases len - i,
        {
            let ghost p_before = *plugin;
            let window = &collection[i..i + ws];
            proof {
                assert(window@ == collection@.subrange(i as int, i + ws));
                assert(view_pairs(window@) =~= toks.subrange(i as int, i + ws));
                assert forall|k: int| 0 <= k < window@.len() implies (#[trigger] window@[k]).0
                    < usize::MAX by {
                    assert(window@[k] == collection@[i + k]);
                    assert(collection@[i + k].0 == i + k);
                }
            }
            let found = plugin.check_slice(window);
            proof {
                lemma_step_keeps_window(p_before, toks.subrange(i as int, i + ws));
                let step = plugin_step(p_before, toks.subrange(i as int, i + ws));
                let rest = scan_windows(*plugin, toks, i + 1);
                assert(scan_windows(p_before, toks, i as int).0 == match step.1 {
                    Some(m) => seq![m] + rest.0,
                    None => rest.0,
                });
            }
            match found {
                Some(range) => {
                    let ghost before = ranges@;
                    ranges.push(range);
                    proof {
                        assert(before + (seq![range] + scan_windows(*plugin, toks, i + 1).0)
                            =~= ranges@ + scan_windows(*plugin, toks, i + 1).0);
                    }
                },
                None => {},
            }
            i = i + 1;
        }
        proof {
            assert(scan_windows(*plugin, toks, i as int).0 =~= Seq::<MatchRange>::empty());
            assert(ranges@ + Seq::<MatchRange>::empty() =~= ranges@);
        }
    } else {
        proof {
            assert(scan_windows(p0, toks, 0).0 =~= Seq::<MatchRange>::empty());
            assert(ranges@ =~= scan_windows(p0, toks, 0).0);
        }
    }
    proof {
        assert(ranges@ == scan_windows(p0, toks, 0).0);
        assert(*plugin == scan_windows(p0, toks, 0).1);
    }
    if len > 0 {
        let last_pos = collection[len - 1].0;
        proof {
            assert(toks.last().0 == collection@.last().0);
        }
        match plugin.final_check(last_pos) {
            Some(range) => {
                ranges.push(range);
            },
            None => {},
        }
    }
    if ranges.len() == 0 {
        None
    } else {
        Some(ranges)
    }
}

/// The mid-scan state invariant of the collapsible-headers plugin, at the
/// point where the window at position `i` is about to be inspected and every
/// future emitted range must start at `lo` or later. With no open span, no
/// window before `lo` can be a marker window, so no span can open too early;
/// an open span started at or after `lo`, strictly before `i`, and its four
/// pattern tokens are in bounds.
pub open spec fn ch_state_ok(
    c: CollapsibleHeaders,
    toks: Seq<(usize, TokenView)>,
    i: int,
    lo: int,
) -> bool {
    match c.range {
        None => forall|m: int|
            i <= m < lo ==> !(m + 4 <= toks.len() && is_marker_window(
                #[trigger] toks.subrange(m, m + 4),
                c.level,
                c.text@,
            )),
        Some(r) => lo <= r.start && r.start + 4 <= toks.len() && r.start < i,
    }
}

/// The mid-scan state invariant of a plugin, at window position `i` with
/// emitted-range floor `lo`.
pub open spec fn state_ok(p: Plugin, toks: Seq<(usize, TokenView)>, i: int, lo: int) -> bool {
    match p {
        Plugin::Emoji(_) => lo <= i,
        Plugin::CollapsibleHeaders(c) => ch_state_ok(c, toks, i, lo),
    }
}

/// An upper bound on where any range emitted by a window check can end:
/// the emoji plugin's ranges may reach the end of the sequence, while the
/// collapsible-headers plugin always closes at an existing token's position.
pub open spec fn scan_end_bound(p: Plugin, len: int) -> int {
    match p {
        Plugin::Emoji(_) => len,
        Plugin::CollapsibleHeaders(_) => len - 1,
    }
}

/// The window scan yields non-empty, bounded, strictly ascending, pairwise
/// disjoint ranges starting at `lo` or later, and leaves the plugin in a
/// state from which the final boundary check stays consistent with them.
pub proof fn lemma_scan_windows_wf(p: Plugin, toks: Seq<(usize, TokenView)>, i: int, lo: int)
    requires
        indexed_views(toks),
        toks.len() <= usize::MAX,
        0 <= i,
        0 <= lo,
        state_ok(p, toks, i, lo),
    ensures
        ({
            let rs = scan_windows(p, toks, i).0;
            let pf = scan_windows(p, toks, i).1;
            &&& forall|k: int|
                0 <= k < rs.len() ==> (#[trigger] rs[k]).start < rs[k].end <= scan_end_bound(
                    p,
                    toks.len() as int,
                )
            &&& forall|k: int| 0 <= k < rs.len() ==> lo <= (#[trigger] rs[k]).start
            &&& forall|k: int| 0 < k < rs.len() ==> (#[trigger] rs[k]).start >= rs[k - 1].end
            &&& match pf {
                Plugin::Emoji(_) => true,
                Plugin::CollapsibleHeaders(c) => match c.range {
                    Some(r) => r.start + 4 <= toks.len() && r.start >= (if rs.len() == 0 {
                        lo
                    } else {
                        rs.last().end as int
                    }),
                    None => true,
                },
            }
        }),
    decreases toks.len() - i,
{
    let ws = p.spec_window_size();
    if i < 0 || i + ws > toks.len() {
    } else {
        let w = toks.subrange(i, i + ws);
        let step = plugin_step(p, w);
        let rs = scan_windows(p, toks, i).0;
        let rest = scan_windows(step.0, toks, i + 1).0;
        assert(forall|m: int| 0 <= m < ws ==> (#[trigger] w[m]) == toks[i + m]);
        assert(forall|m: int| 0 <= m < ws ==> (#[trigger] w[m]).0 == i + m);
        match p {
            Plugin::Emoji(e) => {
                match step.1 {
                    Some(m) => {
                        assert(m == MatchRange { start: (i as usize), end: ((i + 1) as usize) });
                        lemma_scan_windows_wf(step.0, toks, i + 1, i + 1);
                        assert forall|k: int| 0 <= k < rs.len() implies lo <= (
                        #[trigger] rs[k]).start && rs[k].start < rs[k].end <= scan_end_bound(
                            p,
                            toks.len() as int,
                        ) && (0 < k ==> rs[k].start >= rs[k - 1].end) by {
                            if k == 0 {
                                assert(rs[0] == m);
                            } else {
                                assert(rs[k] == rest[k - 1]);
                                if k > 1 {
                                    assert(rs[k - 1] == rest[k - 2]);
                                }
                                if k == 1 {
                                    assert(rs[0] == m);
                                }
                            }
                        }
                    },
                    None => {
                        lemma_scan_windows_wf(step.0, toks, i + 1, lo);
                    },
                }
            },
            Plugin::CollapsibleHeaders(c) => {
                let cs = ch_step(c, w);
                if is_marker_window(w, c.level, c.text@) {
                    match c.range {
                        Some(r) => {
                            // A marker window closes the open span at the
                            // marker's own closing token.
                            let emitted = MatchRange { start: r.start, end: ((i + 3) as usize) };
                            assert(w[3].0 == i + 3);
                            assert(step.1 == Some(emitted));
                            assert(cs.0.range is None);
                            // The three windows that start inside the marker
                            // pattern cannot themselves be marker windows.
                            assert forall|m: int|
                                i + 1 <= m < i + 3 implies !(m + 4 <= toks.len()
                                && is_marker_window(
                                    #[trigger] toks.subrange(m, m + 4),
                                    c.level,
                                    c.text@,
                                )) by {
                                if m + 4 <= toks.len() {
                                    let wm = toks.subrange(m, m + 4);
                                    assert(wm[0] == toks[m]);
                                    if m == i + 1 {
                                        assert(toks[m].1 == TokenView::Start(Tag::Emphasis));
                                    } else {
                                        assert(toks[m].1 matches TokenView::Text(_));
                                    }
                                }
                            }
                            lemma_scan_windows_wf(step.0, toks, i + 1, i + 3);
                            assert forall|k: int| 0 <= k < rs.len() implies lo <= (
                            #[trigger] rs[k]).start && rs[k].start < rs[k].end <= scan_end_bound(
                                p,
                                toks.len() as int,
                            ) && (0 < k ==> rs[k].start >= rs[k - 1].end) by {
                                if k == 0 {
                                    assert(rs[0] == emitted);
                                } else {
                                    assert(rs[k] == rest[k - 1]);
                                    if k > 1 {
                                        assert(rs[k - 1] == rest[k - 2]);
                                    }
                                    if k == 1 {
                                        assert(rs[0] == emitted);
                                    }
                                }
                            }
                        },
                        None => {
                            // A marker window with no open span opens one at
                            // the heading's position.
                            assert(w[0].0 == i);
                            assert(step.1 is None);
                            // `lo <= i`: otherwise this very window would
                            // contradict the closed-state invariant.
                            assert(lo <= i) by {
                                if i < lo {
                                    assert(!(i + 4 <= toks.len() && is_marker_window(
                                        toks.subrange(i, i + 4),
                                        c.level,
                                        c.text@,
                                    )));
                                }
                            }
                            lemma_scan_windows_wf(step.0, toks, i + 1, lo);
                        },
                    }
                } else if w.len() >= 1 && (is_shallow_heading(w[0].1, c.level)
                    || w[0].1 is Rule) {
                    match c.range {
                        Some(r) => {
                            let emitted = MatchRange { start: r.start, end: (i as usize) };
                            assert(w[0].0 == i);
                            assert(step.1 == Some(emitted));
                            lemma_scan_windows_wf(step.0, toks, i + 1, i);
                            assert forall|k: int| 0 <= k < rs.len() implies lo <= (
                            #[trigger] rs[k]).start && rs[k].start < rs[k].end <= scan_end_bound(
                                p,
                                toks.len() as int,
                            ) && (0 < k ==> rs[k].start >= rs[k - 1].end) by {
                                if k == 0 {
                                    assert(rs[0] == emitted);
                                } else {
                                    assert(rs[k] == rest[k - 1]);
                                    if k > 1 {
                                        assert(rs[k - 1] == rest[k - 2]);
                                    }
                                    if k == 1 {
                                        assert(rs[0] == emitted);
                                    }
                                }
                            }
                        },
                        None => {
                            assert(step.1 is None);
                            lemma_scan_windows_wf(step.0, toks, i + 1, lo);
                        },
                    }
                } else {
                    assert(step.1 is None);
                    assert(step.0 == p);
                    lemma_scan_windows_wf(step.0, toks, i + 1, lo);
                }
            },
        }
    }
}

/// The invariant a scan pass establishes: every range is non-empty and in
/// bounds, and the ranges are strictly ascending and pairwise disjoint.
pub open spec fn ranges_wf(ranges: Seq<MatchRange>, len: int) -> bool {
    &&& forall|k: int| 0 <= k < ranges.len() ==> (#[trigger] ranges[k]).wf(len)
    &&& forall|k: int| 0 < k < ranges.len() ==> (#[trigger] ranges[k]).start >= ranges[k - 1].end
}

/// The scan leaves the plugin of the same kind it started with.
pub proof fn lemma_scan_keeps_kind(p: Plugin, toks: Seq<(usize, TokenView)>, i: int)
    ensures
        scan_windows(p, toks, i).1 is Emoji <==> p is Emoji,
    decreases toks.len() - i,
{
    if i < 0 || i + p.spec_window_size() > toks.len() {
    } else {
        let step = plugin_step(p, toks.subrange(i, i + p.spec_window_size()));
        lemma_scan_keeps_kind(step.0, toks, i + 1);
    }
}

/// Non-overlap invariant: for any plugin freshly constructed for a pass and
/// any indexed input sequence, the ranges one scan pass returns are pairwise
/// disjoint, strictly ascending, non-empty, and within the sequence.
pub proof fn lemma_scan_wf(p: Plugin, toks: Seq<(usize, TokenView)>)
    requires
        p.fresh(),
        indexed_views(toks),
        toks.len() <= usize::MAX,
    ensures
        ranges_wf(scan_spec(p, toks), toks.len() as int),
        p is CollapsibleHeaders ==> forall|k: int|
            0 <= k < scan_spec(p, toks).len() ==> (#[trigger] scan_spec(p, toks)[k]).end
                < toks.len(),
{
    lemma_scan_windows_wf(p, toks, 0, 0);
    let rs = scan_windows(p, toks, 0).0;
    let pf = scan_windows(p, toks, 0).1;
    let full = scan_spec(p, toks);
    if toks.len() == 0 {
        assert(full == rs);
        assert(rs.len() == 0);
    } else {
        assert(toks.last().0 == toks.len() - 1);
        match plugin_final(pf, toks.last().0) {
            Some(m) => {
                assert(full == rs.push(m));
                let r = match pf {
                    Plugin::CollapsibleHeaders(c) => c.range->0,
                    Plugin::Emoji(_) => m,
                };
                assert(m.start == r.start && m.end == toks.len() - 1);
                assert(r.start + 4 <= toks.len());
                assert forall|k: int| 0 <= k < full.len() implies (#[trigger] full[k]).wf(
                    toks.len() as int,
                ) && (0 < k ==> full[k].start >= full[k - 1].end) by {
                    if k < rs.len() {
                        assert(full[k] == rs[k]);
                        if k > 0 {
                            assert(full[k - 1] == rs[k - 1]);
                        }
                    } else {
                        assert(full[k] == m);
                        if rs.len() > 0 {
                            assert(full[k - 1] == rs[rs.len() - 1]);
                            assert(m.start >= rs.last().end);
                        }
                    }
                }
                lemma_scan_keeps_kind(p, toks, 0);
                if p is CollapsibleHeaders {
                    assert forall|k: int| 0 <= k < full.len() implies (#[trigger] full[k]).end
                        < toks.len() by {
                        if k < rs.len() {
                            assert(full[k] == rs[k]);
                            assert(rs[k].end <= scan_end_bound(p, toks.len() as int));
                        } else {
                            assert(full[k] == m);
                        }
                    }
                }
            },
            None => {
                assert(full == rs);
                if p is CollapsibleHeaders {
                    assert forall|k: int| 0 <= k < full.len() implies (#[trigger] full[k]).end
                        < toks.len() by {
                        assert(rs[k].end <= scan_end_bound(p, toks.len() as int));
                    }
                }
            },
        }
    }
}

/// The total number of token positions the ranges cover.
pub open spec fn ranges_total(ranges: Seq<MatchRange>) -> int
    decreases ranges.len(),
{
    if ranges.len() == 0 {
        0
    } else {
        ranges[0].spec_len() + ranges_total(ranges.skip(1))
    }
}

/// For non-empty ascending ranges, the total coverage cannot exceed the
/// stretch from the first range's start to the last range's end.
pub proof fn lemma_ranges_total_bound(ranges: Seq<MatchRange>)
    requires
        forall|k: int| 0 <= k < ranges.len() ==> (#[trigger] ranges[k]).start < ranges[k].end,
        forall|k: int| 0 < k < ranges.len() ==> (#[trigger] ranges[k]).start >= ranges[k - 1].end,
    ensures
        ranges.len() > 0 ==> ranges_total(ranges) <= ranges.last().end - ranges[0].start,
        ranges_total(ranges) >= 0,
    decreases ranges.len(),
{
    if ranges.len() == 0 {
    } else {
        let rest = ranges.skip(1);
        assert(forall|k: int| 0 <= k < rest.len() ==> rest[k] == ranges[k + 1]);
        assert forall|k: int| 0 <= k < rest.len() implies (#[trigger] rest[k]).start
            < rest[k].end by {
            assert(rest[k] == ranges[k + 1]);
        }
        assert forall|k: int| 0 < k < rest.len() implies (#[trigger] rest[k]).start >= rest[k
            - 1].end by {
            assert(rest[k] == ranges[k + 1]);
            assert(rest[k - 1] == ranges[k]);
        }
        lemma_ranges_total_bound(rest);
        if rest.len() > 0 {
            assert(rest[0] == ranges[1]);
            assert(rest.last() == ranges.last());
        }
    }
}

/// Coverage bound for the collapsible-headers plugin: on any non-empty
/// indexed sequence, a fresh plugin's scan covers strictly fewer positions
/// than the sequence holds.
pub proof fn lemma_coverage_collapsible(p: Plugin, toks: Seq<(usize, TokenView)>)
    requires
        p.fresh(),
        p is CollapsibleHeaders,
        indexed_views(toks),
        0 < toks.len() <= usize::MAX,
    ensures
        ranges_total(scan_spec(p, toks)) < toks.len(),
{
    lemma_scan_wf(p, toks);
    let full = scan_spec(p, toks);
    lemma_ranges_total_bound(full);
    if full.len() > 0 {
        assert(full.last().end < toks.len());
        assert(full[0].start >= 0);
    }
}

/// The emoji window scan from position `i` covers at most one position per
/// remaining window, and one fewer when some remaining token does not match.
proof fn lemma_emoji_scan_total(p: Plugin, toks: Seq<(usize, TokenView)>, i: int)
    requires
        p is Emoji,
        indexed_views(toks),
        toks.len() <= usize::MAX,
        0 <= i <= toks.len(),
    ensures
        ranges_total(scan_windows(p, toks, i).0) <= toks.len() - i,
        (exists|m: int|
            i <= m < toks.len() && !crate::plugin::emoji_token_matches(
                #[trigger] toks[m].1,
            )) ==> ranges_total(scan_windows(p, toks, i).0) <= toks.len() - i - 1,
    decreases toks.len() - i,
{
    if i + 1 > toks.len() {
    } else {
        let w = toks.subrange(i, i + 1);
        let step = plugin_step(p, w);
        let rs = scan_windows(p, toks, i).0;
        let rest = scan_windows(step.0, toks, i + 1).0;
        lemma_emoji_scan_total(step.0, toks, i + 1);
        assert(w[0] == toks[i]);
        match step.1 {
            Some(m) => {
                assert(rs == seq![m] + rest);
                assert(rs[0] == m);
                assert(rs.skip(1) =~= rest);
                assert(m.spec_len() == 1);
                if exists|j: int|
                    i <= j < toks.len() && !crate::plugin::emoji_token_matches(
                        #[trigger] toks[j].1,
                    ) {
                    let j = choose|j: int|
                        i <= j < toks.len() && !crate::plugin::emoji_token_matches(
                            #[trigger] toks[j].1,
                        );
                    assert(crate::plugin::emoji_token_matches(toks[i].1));
                    assert(j >= i + 1);
                }
            },
            None => {
                assert(rs == rest);
            },
        }
    }
}

/// Coverage bound for the emoji plugin: on any non-empty indexed sequence
/// holding at least one token it cannot match, the scan covers strictly
/// fewer positions than the sequence holds. On a sequence whose every token
/// is a matching text token, each window matches and coverage reaches the
/// whole sequence, so that case is excluded here.
pub proof fn lemma_coverage_emoji(p: Plugin, toks: Seq<(usize, TokenView)>)
    requires
        p is Emoji,
        indexed_views(toks),
        0 < toks.len() <= usize::MAX,
        exists|m: int|
            0 <= m < toks.len() && !crate::plugin::emoji_token_matches(#[trigger] toks[m].1),
    ensures
        ranges_total(scan_spec(p, toks)) < toks.len(),
{
    lemma_emoji_scan_total(p, toks, 0);
    lemma_scan_keeps_kind(p, toks, 0);
    let pf = scan_windows(p, toks, 0).1;
    assert(plugin_final(pf, toks.last().0) is None);
    assert(scan_spec(p, toks) == scan_windows(p, toks, 0).0);
}

/// The spliced output from token position `idx` on, with the ranges from
/// `ridx` on still pending: tokens outside the next pending range are copied;
/// a position inside it emits the plugin's replacement for the spanned slice
/// and continues past the range's end.
pub open spec fn splice_from(
    toks: Seq<(usize, TokenView)>,
    ranges: Seq<MatchRange>,
    p: Plugin,
    idx: int,
    ridx: int,
) -> Seq<TokenView>
    decreases toks.len() - idx, ranges.len() - ridx,
{
    if idx < 0 || idx >= toks.len() {
        Seq::empty()
    } else if 0 <= ridx < ranges.len() && ranges[ridx].spec_contains(idx) && ranges[ridx].end
        <= toks.len() {
        plugin_replace_view(
            p,
            strip(toks.subrange(ranges[ridx].start as int, ranges[ridx].end as int)),
        ) + splice_from(toks, ranges, p, ranges[ridx].end as int, ridx + 1)
    } else {
        seq![toks[idx].1] + splice_from(toks, ranges, p, idx + 1, ridx)
    }
}

/// One scan-and-splice pass: the scanner's ranges applied by the splicer,
/// or the sequence unchanged when nothing matched.
pub open spec fn pass_spec(tv: Seq<TokenView>, p: Plugin) -> Seq<TokenView> {
    let toks = with_positions(tv);
    let ranges = scan_spec(p, toks);
    if ranges.len() == 0 {
        tv
    } else {
        splice_from(toks, ranges, p, 0, 0)
    }
}

/// The whole pipeline: one pass per plugin, in order, each pass reading the
/// re-indexed output of the pass before it.
pub open spec fn pipeline_spec(tv: Seq<TokenView>, ps: Seq<Plugin>) -> Seq<TokenView>
    decreases ps.len(),
{
    if ps.len() == 0 {
        tv
    } else {
        pipeline_spec(pass_spec(tv, ps[0]), ps.skip(1))
    }
}

/// Identity property: with no plugins configured, the pipeline returns its
/// input sequence exactly, same tokens in the same order.
pub proof fn lemma_pipeline_identity(tv: Seq<TokenView>)
    ensures
        pipeline_spec(tv, Seq::empty()) == tv,
{
}

/// Idempotence of a no-op pass: a pass whose window checks and final check
/// returned no range leaves the sequence unchanged.
pub proof fn lemma_noop_pass(tv: Seq<TokenView>, p: Plugin)
    requires
        scan_spec(p, with_positions(tv)).len() == 0,
    ensures
        pass_spec(tv, p) == tv,
{
}

/// Splicing depends on the plugin only through its kind, never through its
/// mutable scan state.
proof fn lemma_splice_same_kind(
    toks: Seq<(usize, TokenView)>,
    ranges: Seq<MatchRange>,
    p1: Plugin,
    p2: Plugin,
    idx: int,
    ridx: int,
)
    requires
        p1 is Emoji <==> p2 is Emoji,
    ensures
        splice_from(toks, ranges, p1, idx, ridx) == splice_from(toks, ranges, p2, idx, ridx),
    decreases toks.len() - idx, ranges.len() - ridx,
{
    if idx < 0 || idx >= toks.len() {
    } else if 0 <= ridx < ranges.len() && ranges[ridx].spec_contains(idx) && ranges[ridx].end
        <= toks.len() {
        lemma_splice_same_kind(toks, ranges, p1, p2, ranges[ridx].end as int, ridx + 1);
    } else {
        lemma_splice_same_kind(toks, ranges, p1, p2, idx + 1, ridx);
    }
}

/// A splice that starts inside the sequence emits at least one token.
proof fn lemma_splice_nonempty(
    toks: Seq<(usize, TokenView)>,
    ranges: Seq<MatchRange>,
    p: Plugin,
    idx: int,
    ridx: int,
)
    requires
        0 <= idx < toks.len(),
    ensures
        splice_from(toks, ranges, p, idx, ridx).len() > 0,
{
    if 0 <= ridx < ranges.len() && ranges[ridx].spec_contains(idx) && ranges[ridx].end
        <= toks.len() {
        let w = strip(toks.subrange(ranges[ridx].start as int, ranges[ridx].end as int));
        assert(w.len() >= 1);
        assert(plugin_replace_view(p, w).len() > 0);
    }
}

/// Defensive pipeline invariant: a pass keeps a non-empty sequence
/// non-empty.
pub proof fn lemma_pass_nonempty(tv: Seq<TokenView>, p: Plugin)
    requires
        tv.len() > 0,
    ensures
        pass_spec(tv, p).len() > 0,
{
    let toks = with_positions(tv);
    if scan_spec(p, toks).len() > 0 {
        lemma_splice_nonempty(toks, scan_spec(p, toks), p, 0, 0);
    }
}

/// Defensive pipeline invariant: the whole pipeline keeps a non-empty
/// sequence non-empty.
pub proof fn lemma_pipeline_nonempty(tv: Seq<TokenView>, ps: Seq<Plugin>)
    requires
        tv.len() > 0,
    ensures
        pipeline_spec(tv, ps).len() > 0,
    decreases ps.len(),
{
    if ps.len() == 0 {
    } else {
        lemma_pass_nonempty(tv, ps[0]);
        lemma_pipeline_nonempty(pass_spec(tv, ps[0]), ps.skip(1));
    }
}

/// Walks the sequence once: copies each token not covered by the next
/// pending range, and replaces each covered span with the plugin's
/// replacement tokens.
pub fn rewrite_collection_with(
    plugin: &Plugin,
    collection: &[(usize, Token)],
    ranges: &[MatchRange],
) -> (out: Vec<Token>)
    requires
        indexed(collection@),
        ranges_wf(ranges@, collection@.len() as int),
    ensures
        out@.map_values(|t: Token| t@) == splice_from(
            view_pairs(collection@),
            ranges@,
            *plugin,
            0,
            0,
        ),
{
    let ghost toks = view_pairs(collection@);
    proof {
        assert forall|k: int| 0 <= k < toks.len() implies (#[trigger] toks[k]).0 == k by {
            assert(toks[k] == (collection@[k].0, collection@[k].1@));
        }
    }
    let len = collection.len();
    let mut out: Vec<Token> = Vec::new();
    let mut idx: usize = 0;
    let mut range_idx: usize = 0;
    proof {
        assert(out@.map_values(|t: Token| t@) =~= Seq::<TokenView>::empty());
    }
    while idx < len
        invariant
            indexed(collection@),
            toks == view_pairs(collection@),
            len == collection@.len(),
            ranges_wf(ranges@, len as int),
            idx <= len,
            range_idx <= ranges@.len(),
            range_idx < ranges@.len() ==> ranges@[range_idx as int].start >= idx,
            splice_from(toks, ranges@, *plugin, 0, 0) == out@.map_values(|t: Token| t@)
                + splice_from(toks, ranges@, *plugin, idx as int, range_idx as int),
        decreases len - idx,
    {
        let in_range = if range_idx < ranges.len() {
            ranges[range_idx].contains(collection[idx].0)
        } else {
            false
        };
        let ghost out_before = out@;
        if in_range {
            let r = ranges[range_idx];
            assert(r.start == idx);
            let window = &collection[r.start..r.end];
            proof {
                assert(window@ == collection@.subrange(r.start as int, r.end as int));
            }
            let mut rep = plugin.replace_slice(window);
            let ghost rep_view = rep@;
            proof {
                assert(crate::token::views(window@) =~= strip(
                    toks.subrange(r.start as int, r.end as int),
                ));
            }
            out.append(&mut rep);
            proof {
                assert(out@.map_values(|t: Token| t@) =~= out_before.map_values(|t: Token| t@)
                    + rep_view.map_values(|t: Token| t@));
                assert(splice_from(toks, ranges@, *plugin, idx as int, range_idx as int)
                    == rep_view.map_values(|t: Token| t@) + splice_from(
                    toks,
                    ranges@,
                    *plugin,
                    r.end as int,
                    range_idx + 1,
                ));
                assert(out_before.map_values(|t: Token| t@) + (rep_view.map_values(|t: Token| t@)
                    + splice_from(toks, ranges@, *plugin, r.end as int, range_idx + 1)) =~= out@
                    .map_values(|t: Token| t@) + splice_from(
                    toks,
                    ranges@,
                    *plugin,
                    r.end as int,
                    range_idx + 1,
                ));
            }
            idx = r.end;
            range_idx = range_idx + 1;
        } else {
            out.push(collection[idx].1.clone());
            proof {
                assert(out@.map_values(|t: Token| t@) =~= out_before.map_values(|t: Token| t@)
                    + seq![toks[idx as int].1]);
                assert(out_before.map_values(|t: Token| t@) + (seq![toks[idx as int].1]
                    + splice_from(toks, ranges@, *plugin, idx + 1, range_idx as int)) =~= out@
                    .map_values(|t: Token| t@) + splice_from(
                    toks,
                    ranges@,
                    *plugin,
                    idx + 1,
                    range_idx as int,
                ));
            }
            idx = idx + 1;
        }
    }
    proof {
        assert(splice_from(toks, ranges@, *plugin, idx as int, range_idx as int) =~= Seq::<
            TokenView,
        >::empty());
        assert(out@.map_values(|t: Token| t@) + Seq::<TokenView>::empty() =~= out@.map_values(
            |t: Token| t@,
        ));
    }
    out
}

/// The plugin list a configuration asks for: the emoji plugin when
/// shortcodes are enabled, then a fresh collapsible-headers plugin when one
/// is configured.
pub open spec fn plugins_of(state: State) -> Seq<Plugin> {
    let emoji: Seq<Plugin> = if state.emoji_shortcodes {
        seq![Plugin::Emoji(Emoji)]
    } else {
        Seq::empty()
    };
    let collapsible: Seq<Plugin> = match state.collapsible_headers {
        Some(options) => seq![
            Plugin::CollapsibleHeaders(
                CollapsibleHeaders { range: None, level: options.0, text: options.1 },
            ),
        ],
        None => Seq::empty(),
    };
    emoji + collapsible
}

/// Builds the configured plugin list, each plugin freshly constructed.
pub fn make_commonmark_plugins(state: &State) -> (plugins: Vec<Plugin>)
    ensures
        plugins@ == plugins_of(*state),
        forall|k: int| 0 <= k < plugins@.len() ==> (#[trigger] plugins@[k]).fresh(),
{
    let mut plugins: Vec<Plugin> = Vec::new();
    if state.emoji_shortcodes {
        plugins.push(Plugin::Emoji(Emoji));
    }
    match &state.collapsible_headers {
        Some(options) => {
            plugins.push(
                Plugin::CollapsibleHeaders(CollapsibleHeaders::new(options.0, options.1.clone())),
            );
        },
        None => {},
    }
    proof {
        assert(plugins@ =~= plugins_of(*state));
    }
    plugins
}

/// Pairs each token with its position in the sequence.
fn index_tokens(tokens: &Vec<Token>) -> (out: Vec<(usize, Token)>)
    ensures
        out@.len() == tokens@.len(),
        forall|k: int|
            0 <= k < out@.len() ==> (#[trigger] out@[k]).0 == k && out@[k].1 == tokens@[k],
{
    let mut out: Vec<(usize, Token)> = Vec::new();
    let mut k: usize = 0;
    while k < tokens.len()
        invariant
            k <= tokens@.len(),
            out@.len() == k,
            forall|j: int|
                0 <= j < k ==> (#[trigger] out@[j]).0 == j && out@[j].1 == tokens@[j],
        decreases tokens@.len() - k,
    {
        out.push((k, tokens[k].clone()));
        k = k + 1;
    }
    out
}

/// Runs one scan-and-splice pass per configured plugin, in order,
/// re-indexing positions from zero before each pass. With no plugins the
/// input is returned unchanged, and a non-empty input always yields a
/// non-empty output.
pub fn process_commonmark_tokens(tokens: Vec<Token>, plugins: Vec<Plugin>) -> (out: Vec<Token>)
    requires
        forall|k: int| 0 <= k < plugins@.len() ==> (#[trigger] plugins@[k]).fresh(),
    ensures
        out@.map_values(|t: Token| t@) == pipeline_spec(
            tokens@.map_values(|t: Token| t@),
            plugins@,
        ),
        tokens@.len() > 0 ==> out@.len() > 0,
{
    let ghost ps0 = plugins@;
    let ghost tv0 = tokens@.map_values(|t: Token| t@);
    let mut rest = plugins;
    let mut current = tokens;
    while rest.len() > 0
        invariant
            forall|k: int| 0 <= k < rest@.len() ==> (#[trigger] rest@[k]).fresh(),
            pipeline_spec(tv0, ps0) == pipeline_spec(current@.map_values(|t: Token| t@), rest@),
        decreases rest@.len(),
    {
        let ghost rest_before = rest@;
        let mut p = rest.remove(0);
        let ghost p0 = p;
        let ghost tv = current@.map_values(|t: Token| t@);
        let ghost toks = with_positions(tv);
        proof {
            assert(rest@ =~= rest_before.skip(1));
        }
        let n = current.len();
        let pairs = index_tokens(&current);
        proof {
            assert(indexed(pairs@));
            assert(view_pairs(pairs@) =~= toks);
            assert(indexed_views(toks));
            assert(toks.len() == n <= usize::MAX);
        }
        match check_collection_with(&mut p, pairs.as_slice()) {
            Some(ranges) => {
                proof {
                    lemma_scan_wf(p0, toks);
                    assert(ranges@ == scan_spec(p0, toks));
                }
                let rewritten = rewrite_collection_with(&p, pairs.as_slice(), ranges.as_slice());
                proof {
                    lemma_splice_same_kind(toks, ranges@, p, p0, 0, 0);
                    assert(rewritten@.map_values(|t: Token| t@) == pass_spec(tv, p0));
                }
                current = rewritten;
            },
            None => {
                proof {
                    assert(pass_spec(tv, p0) == tv);
                }
            },
        }
        proof {
            assert(rest_before[0] == p0);
            assert(pipeline_spec(tv, rest_before) == pipeline_spec(
                pass_spec(tv, p0),
                rest_before.skip(1),
            ));
        }
    }
    proof {
        assert(pipeline_spec(current@.map_values(|t: Token| t@), rest@) == current@.map_values(
            |t: Token| t@,
        ));
        if tv0.len() > 0 {
            lemma_pipeline_nonempty(tv0, ps0);
        }
        assert(current@.map_values(|t: Token| t@).len() == current@.len());
    }
    current
}

} // verus!
