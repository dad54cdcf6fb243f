//! The two token-rewrite plugins.
//!
//! `Emoji` is stateless with a window of one token: it matches a text token
//! holding a `:name:` shortcode known to the emoji table and rewrites every
//! resolvable shortcode in that token. `CollapsibleHeaders` is stateful with
//! a window of four tokens: it opens a span at a heading that wraps a marker
//! text in emphasis, closes it at the next marker, at a shallower heading, at
//! a thematic break, or at the end of the document, and rewrites the span as
//! a collapsible container.

use vstd::prelude::*;
use vstd::string::StrSliceExecFns;

use crate::text::{find_char, find_char_from, lemma_find_char_bounds, str_eq};
use crate::token::{view_pairs, views, Tag, Token, TokenView};
use crate::MatchRange;

verus! {

/// The glyph, if any, that the emoji table maps a GitHub shortcode to.
pub uninterp spec fn emoji_glyph(name: Seq<char>) -> Option<Seq<char>>;

/// Relies on emojis::get_by_shortcode, a lookup in a constant table compiled
/// into that crate, so the result is a function of the name alone; the glyph
/// text is taken from the found entry with emojis::Emoji::as_str.
#[verifier::external_body]
fn emoji_for_shortcode(name: &str) -> (r: Option<String>)
    ensures
        r is Some <==> emoji_glyph(name@) is Some,
        r matches Some(g) ==> Some(g@) == emoji_glyph(name@),
{
    emojis::get_by_shortcode(name).map(|e| e.as_str().to_owned())
}

/// The first pair of colons in `s`: the index of the first colon and of the
/// next colon after it.
pub open spec fn emoji_first_candidate(s: Seq<char>) -> Option<(int, int)> {
    match find_char_from(s, ':', 0) {
        Some(a) => match find_char_from(s, ':', a + 1) {
            Some(b) => Some((a, b)),
            None => None,
        },
        None => None,
    }
}

/// True when a token is a text run whose first colon pair encloses a known
/// shortcode: exactly the condition under which `Emoji::check_slice` matches.
pub open spec fn emoji_token_matches(t: TokenView) -> bool {
    match t {
        TokenView::Text(v) => match emoji_first_candidate(v) {
            Some((a, b)) => emoji_glyph(v.subrange(a + 1, b)) is Some,
            None => false,
        },
        _ => false,
    }
}

/// What `Emoji::check_slice` returns for a window.
pub open spec fn emoji_check_spec(w: Seq<(usize, TokenView)>) -> Option<MatchRange> {
    if w.len() == 1 && emoji_token_matches(w[0].1) {
        Some(MatchRange { start: w[0].0, end: (w[0].0 + 1) as usize })
    } else {
        None
    }
}

/// The complete runs `:name:` that a greedy left-to-right scan from
/// position `i` finds, given the position `open` of a yet-unpaired colon:
/// each range `(a, b)` spans from one colon to just past its partner, with
/// at least one character between them. A final unpaired colon leaves no
/// run: the trailing partial text after it is not a candidate.
pub open spec fn shortcode_ranges_from(s: Seq<char>, i: int, open: Option<int>) -> Seq<(int, int)>
    decreases s.len() - i,
{
    if i < 0 || i >= s.len() {
        Seq::empty()
    } else if s[i] == ':' {
        match open {
            None => shortcode_ranges_from(s, i + 1, Some(i)),
            Some(st) => if i + 1 - st > 2 {
                seq![(st, i + 1)] + shortcode_ranges_from(s, i + 1, None)
            } else {
                shortcode_ranges_from(s, i + 1, None)
            },
        }
    } else {
        shortcode_ranges_from(s, i + 1, open)
    }
}

pub open spec fn shortcode_ranges(s: Seq<char>) -> Seq<(int, int)> {
    shortcode_ranges_from(s, 0, None)
}

/// A shortcode run is in bounds of a text of length `len` and spans more
/// than two characters.
pub open spec fn run_wf(r: (int, int), len: int) -> bool {
    0 <= r.0 && r.0 + 2 < r.1 && r.1 <= len
}

/// Every run the scan yields is in bounds, longer than two characters, and
/// the runs are disjoint and ascending, starting no earlier than the open
/// colon or the scan position.
pub proof fn lemma_shortcode_ranges_wf(s: Seq<char>, i: int, open: Option<int>)
    requires
        0 <= i,
        open matches Some(st) ==> 0 <= st < i,
    ensures
        forall|k: int|
            0 <= k < shortcode_ranges_from(s, i, open).len() ==> run_wf(
                #[trigger] shortcode_ranges_from(s, i, open)[k],
                s.len() as int,
            ),
        forall|k: int|
            0 < k < shortcode_ranges_from(s, i, open).len() ==> shortcode_ranges_from(
                s,
                i,
                open,
            )[k - 1].1 <= (#[trigger] shortcode_ranges_from(s, i, open)[k]).0,
        shortcode_ranges_from(s, i, open).len() > 0 ==> (match open {
            Some(st) => st,
            None => i,
        }) <= shortcode_ranges_from(s, i, open)[0].0,
    decreases s.len() - i,
{
    let whole = shortcode_ranges_from(s, i, open);
    if i < 0 || i >= s.len() {
    } else if s[i] == ':' {
        match open {
            None => {
                lemma_shortcode_ranges_wf(s, i + 1, Some(i));
                let rest = shortcode_ranges_from(s, i + 1, Some(i));
                assert forall|k: int| 0 <= k < whole.len() implies run_wf(
                    #[trigger] whole[k],
                    s.len() as int,
                ) && (0 < k ==> whole[k - 1].1 <= whole[k].0) by {
                    assert(whole[k] == rest[k]);
                    if k > 0 {
                        assert(whole[k - 1] == rest[k - 1]);
                    }
                }
            },
            Some(st) => {
                lemma_shortcode_ranges_wf(s, i + 1, None);
                let rest = shortcode_ranges_from(s, i + 1, None);
                assert forall|k: int| 0 <= k < whole.len() implies run_wf(
                    #[trigger] whole[k],
                    s.len() as int,
                ) && (0 < k ==> whole[k - 1].1 <= whole[k].0) by {
                    if i + 1 - st > 2 {
                        if k > 0 {
                            assert(whole[k] == rest[k - 1]);
                            if k > 1 {
                                assert(whole[k - 1] == rest[k - 2]);
                            } else {
                                assert(whole[0] == (st, i + 1));
                            }
                        } else {
                            assert(whole[0] == (st, i + 1));
                        }
                    } else {
                        assert(whole[k] == rest[k]);
                        if k > 0 {
                            assert(whole[k - 1] == rest[k - 1]);
                        }
                    }
                }
            },
        }
    } else {
        lemma_shortcode_ranges_wf(s, i + 1, open);
        let rest = shortcode_ranges_from(s, i + 1, open);
        assert forall|k: int| 0 <= k < whole.len() implies run_wf(
            #[trigger] whole[k],
            s.len() as int,
        ) && (0 < k ==> whole[k - 1].1 <= whole[k].0) by {
            assert(whole[k] == rest[k]);
            if k > 0 {
                assert(whole[k - 1] == rest[k - 1]);
            }
        }
    }
}

/// `s` from position `i` on, with each of the runs `rs` substituted in
/// place: the text before a run is copied, a run whose name resolves is
/// replaced by its glyph, a run whose name does not resolve is copied
/// verbatim, colons included, and everything after the last run is copied.
pub open spec fn substitute_runs(s: Seq<char>, i: int, rs: Seq<(int, int)>) -> Seq<char>
    decreases rs.len(),
{
    if rs.len() == 0 {
        if 0 <= i <= s.len() {
            s.skip(i)
        } else {
            Seq::empty()
        }
    } else {
        let a = rs[0].0;
        let b = rs[0].1;
        if 0 <= i <= a && a + 2 < b && b <= s.len() {
            let replaced = match emoji_glyph(s.subrange(a + 1, b - 1)) {
                Some(g) => g,
                None => s.subrange(a, b),
            };
            s.subrange(i, a) + replaced + substitute_runs(s, b, rs.skip(1))
        } else {
            substitute_runs(s, i, rs.skip(1))
        }
    }
}

/// The text of a rewritten emoji token: every complete `:name:` run whose
/// name the emoji table resolves is replaced by its glyph; unresolved runs,
/// the text between runs, and any trailing partial run stay untouched.
pub open spec fn emoji_substitute(s: Seq<char>) -> Seq<char> {
    substitute_runs(s, 0, shortcode_ranges(s))
}

/// What `Emoji::replace_slice` returns for a matched window: a single text
/// token is rewritten by `emoji_substitute`; any other window is copied.
pub open spec fn emoji_replace_view(w: Seq<TokenView>) -> Seq<TokenView> {
    if w.len() == 1 {
        match w[0] {
            TokenView::Text(v) => seq![TokenView::Text(emoji_substitute(v))],
            _ => w,
        }
    } else {
        w
    }
}

/// The stateless emoji-shortcode plugin.
#[derive(Debug, Default, PartialEq, Eq, Clone, Copy)]
pub struct Emoji;

impl Emoji {
    /// The number of consecutive tokens `check_slice` inspects per call.
    pub fn window_size(&self) -> (n: usize)
        ensures
            n == 1,
    {
        1
    }

    /// The least number of tokens one replacement inserts.
    pub fn new_items(&self) -> (n: usize)
        ensures
            n == 1,
    {
        1
    }

    /// Checks a window for a text token whose first `:name:` run names a
    /// known emoji; on a match the token's own position is the range.
    pub fn check_slice(&mut self, slice: &[(usize, Token)]) -> (r: Option<MatchRange>)
        requires
            forall|k: int| 0 <= k < slice@.len() ==> (#[trigger] slice@[k]).0 < usize::MAX,
        ensures
            r == emoji_check_spec(view_pairs(slice@)),
    {
        if slice.len() != 1 {
            return None;
        }
        match &slice[0] {
            (i, Token::Text(value)) => {
                let vlen = value.as_str().unicode_len();
                proof {
                    lemma_find_char_bounds(value@, ':', 0);
                }
                match find_char(value.as_str(), ':', 0) {
                    Some(a) => {
                        assert(a < vlen);
                        proof {
                            lemma_find_char_bounds(value@, ':', a + 1);
                        }
                        match find_char(value.as_str(), ':', a + 1) {
                            Some(b) => {
                                let candidate = value.as_str().substring_char(a + 1, b);
                                if emoji_for_shortcode(candidate).is_some() {
                                    Some(MatchRange::new(*i, *i + 1))
                                } else {
                                    None
                                }
                            },
                            None => None,
                        }
                    },
                    None => None,
                }
            },
            _ => None,
        }
    }

    /// The emoji plugin never holds an open span at the end of a document.
    pub fn final_check(&mut self, _pos: usize) -> (r: Option<MatchRange>)
        ensures
            r is None,
    {
        None
    }

    /// Rewrites one matched text token, substituting the glyph for every
    /// resolvable `:name:` run; other windows are returned unchanged.
    pub fn replace_slice(&self, slice: &[(usize, Token)]) -> (r: Vec<Token>)
        ensures
            r@.map_values(|t: Token| t@) == emoji_replace_view(views(slice@)),
    {
        if slice.len() == 1 {
            if let (_, Token::Text(value)) = &slice[0] {
                let rewritten = substitute_shortcodes(value.as_str());
                let mut out: Vec<Token> = Vec::new();
                out.push(Token::Text(rewritten));
                proof {
                    assert(out@.map_values(|t: Token| t@) =~= emoji_replace_view(views(slice@)));
                }
                return out;
            }
        }
        let mut out: Vec<Token> = Vec::new();
        let mut k: usize = 0;
        while k < slice.len()
            invariant
                k <= slice@.len(),
                out@.len() == k,
                forall|j: int| 0 <= j < k ==> out@[j] == slice@[j].1,
            decreases slice@.len() - k,
        {
            out.push(slice[k].1.clone());
            k = k + 1;
        }
        proof {
            assert(out@.map_values(|t: Token| t@) =~= emoji_replace_view(views(slice@)));
        }
        out
    }
}

/// The greedy colon-pair scan of `shortcode_ranges`, as executable code.
fn scan_shortcode_ranges(s: &str) -> (out: Vec<(usize, usize)>)
    ensures
        out@.map_values(|p: (usize, usize)| (p.0 as int, p.1 as int)) == shortcode_ranges(s@),
{
    let len = s.unicode_len();
    let mut out: Vec<(usize, usize)> = Vec::new();
    let mut open: Option<usize> = None;
    let mut i: usize = 0;
    proof {
        assert(out@.map_values(|p: (usize, usize)| (p.0 as int, p.1 as int)) =~= Seq::<(
            int,
            int,
        )>::empty());
    }
    while i < len
        invariant
            i <= len,
            len == s@.len(),
            open matches Some(st) ==> st < i,
            shortcode_ranges(s@) == out@.map_values(|p: (usize, usize)| (p.0 as int, p.1 as int))
                + shortcode_ranges_from(
                s@,
                i as int,
                match open {
                    Some(st) => Some(st as int),
                    None => None,
                },
            ),
        decreases len - i,
    {
        let c = s.get_char(i);
        if c == ':' {
            match open {
                None => {
                    open = Some(i);
                },
                Some(st) => {
                    if i + 1 - st > 2 {
                        let ghost before = out@;
                        out.push((st, i + 1));
                        proof {
                            assert(out@.map_values(|p: (usize, usize)| (p.0 as int, p.1 as int))
                                =~= before.map_values(|p: (usize, usize)| (p.0 as int, p.1 as int))
                                + seq![(st as int, i + 1 as int)]);
                        }
                    }
                    open = None;
                },
            }
        }
        i = i + 1;
    }
    proof {
        assert(out@.map_values(|p: (usize, usize)| (p.0 as int, p.1 as int)) =~= shortcode_ranges(
            s@,
        ));
    }
    out
}

/// Substitutes, left to right, the glyph of every resolvable shortcode
/// run, copying everything else verbatim.
fn substitute_shortcodes(value: &str) -> (out: String)
    ensures
        out@ == emoji_substitute(value@),
{
    let ranges = scan_shortcode_ranges(value);
    proof {
        lemma_shortcode_ranges_wf(value@, 0, None);
    }
    let ghost full = shortcode_ranges(value@);
    let len = value.unicode_len();
    let mut out = String::new();
    let mut pos: usize = 0;
    let mut k: usize = 0;
    proof {
        assert(full.skip(0) =~= full);
        assert(out@ + substitute_runs(value@, 0, full) =~= substitute_runs(value@, 0, full));
    }
    while k < ranges.len()
        invariant
            k <= ranges@.len(),
            ranges@.map_values(|p: (usize, usize)| (p.0 as int, p.1 as int)) == full,
            len == value@.len(),
            pos <= len,
            forall|j: int| 0 <= j < full.len() ==> run_wf(#[trigger] full[j], value@.len() as int),
            forall|j: int| 0 < j < full.len() ==> full[j - 1].1 <= (#[trigger] full[j]).0,
            k < full.len() ==> pos <= full[k as int].0,
            emoji_substitute(value@) == out@ + substitute_runs(
                value@,
                pos as int,
                full.skip(k as int),
            ),
        decreases ranges@.len() - k,
    {
        let a = ranges[k].0;
        let b = ranges[k].1;
        assert(full[k as int] == (a as int, b as int));
        let ghost remaining = full.skip(k as int);
        proof {
            assert(remaining[0] == full[k as int]);
            assert(remaining.skip(1) =~= full.skip(k + 1));
        }
        let before = value.substring_char(pos, a);
        out.append(before);
        let candidate = value.substring_char(a + 1, b - 1);
        match emoji_for_shortcode(candidate) {
            Some(glyph) => {
                out.append(glyph.as_str());
            },
            None => {
                let verbatim = value.substring_char(a, b);
                out.append(verbatim);
            },
        }
        proof {
            if k + 1 < full.len() {
                assert(full[k as int].1 <= full[k + 1].0);
            }
            assert(substitute_runs(value@, pos as int, remaining) == value@.subrange(
                pos as int,
                a as int,
            ) + (match emoji_glyph(value@.subrange(a + 1, b - 1)) {
                Some(g) => g,
                None => value@.subrange(a as int, b as int),
            }) + substitute_runs(value@, b as int, full.skip(k + 1)));
        }
        pos = b;
        k = k + 1;
    }
    let tail = value.substring_char(pos, len);
    out.append(tail);
    proof {
        assert(full.skip(k as int) =~= Seq::<(int, int)>::empty());
        assert(substitute_runs(value@, pos as int, Seq::<(int, int)>::empty()) == value@.skip(
            pos as int,
        ));
        assert(tail@ =~= value@.skip(pos as int));
    }
    out
}

/// True when a window is the four-token pattern that opens or closes a
/// collapsible span: a heading at `level` or deeper whose first content is
/// the marker `text` wrapped in emphasis.
pub open spec fn is_marker_window(w: Seq<(usize, TokenView)>, level: u8, text: Seq<char>) -> bool {
    &&& w.len() == 4
    &&& w[0].1 matches TokenView::Start(Tag::Heading(l, _)) && l >= level
    &&& w[1].1 == TokenView::Start(Tag::Emphasis)
    &&& w[2].1 matches TokenView::Text(t) && t == text
    &&& w[3].1 == TokenView::End(Tag::Emphasis)
}

/// True when a token is a heading shallower than the configured level.
pub open spec fn is_shallow_heading(t: TokenView, level: u8) -> bool {
    t matches TokenView::Start(Tag::Heading(l, _)) && l < level
}

/// The stateful collapsible-section plugin: while a span is open, `range`
/// holds its start (the stored end is provisional until the span closes).
#[derive(Debug, PartialEq, Eq)]
pub struct CollapsibleHeaders {
    /// The span opened at a marker heading and not yet closed.
    pub range: Option<MatchRange>,
    /// Headings at this level or deeper can open a span.
    pub level: u8,
    /// The marker text that identifies a collapsible heading.
    pub text: String,
}

/// The exact transition `CollapsibleHeaders::check_slice` makes on one
/// window: the new plugin state and the emitted range, if any. A marker
/// window closes an open span at the marker's end token or opens a new span;
/// a shallower heading or a thematic break closes an open span at its own
/// position; anything else leaves the state alone.
pub open spec fn ch_step(p: CollapsibleHeaders, w: Seq<(usize, TokenView)>) -> (
    CollapsibleHeaders,
    Option<MatchRange>,
) {
    if is_marker_window(w, p.level, p.text@) {
        match p.range {
            Some(r) => (
                CollapsibleHeaders { range: None, ..p },
                Some(MatchRange { start: r.start, end: w[3].0 }),
            ),
            None => (
                CollapsibleHeaders {
                    range: Some(MatchRange { start: w[0].0, end: w[3].0 }),
                    ..p
                },
                None,
            ),
        }
    } else if w.len() >= 1 && (is_shallow_heading(w[0].1, p.level) || w[0].1 is Rule) {
        match p.range {
            Some(r) => (
                CollapsibleHeaders { range: None, ..p },
                Some(MatchRange { start: r.start, end: w[0].0 }),
            ),
            None => (p, None),
        }
    } else {
        (p, None)
    }
}

/// What `CollapsibleHeaders::final_check` returns: a still-open span is
/// closed at the given position.
pub open spec fn ch_final(p: CollapsibleHeaders, pos: usize) -> Option<MatchRange> {
    match p.range {
        Some(r) => Some(MatchRange { start: r.start, end: pos }),
        None => None,
    }
}

/// What `CollapsibleHeaders::replace_slice` returns for a matched span: a
/// collapsible container whose summary is the emphasis, marker text and
/// closing emphasis of the opening heading; the five tokens of the heading
/// pattern are consumed, and everything after them is kept.
pub open spec fn ch_replace_view(w: Seq<TokenView>) -> Seq<TokenView> {
    let mid = if w.len() >= 4 {
        seq![w[1], w[2], w[3]]
    } else {
        Seq::empty()
    };
    let tail = if w.len() >= 5 {
        w.skip(5)
    } else {
        Seq::empty()
    };
    seq![
        TokenView::Html("<details open>"@),
        TokenView::SoftBreak,
        TokenView::Html("<summary>"@),
    ] + mid + seq![TokenView::Html("</summary>"@)] + tail + seq![TokenView::Html("</details>"@)]
}

impl CollapsibleHeaders {
    /// A fresh plugin with no open span, matching headings at `level` or
    /// deeper whose first content is `text` wrapped in emphasis.
    pub fn new(level: u8, text: String) -> (p: CollapsibleHeaders)
        ensures
            p.range is None,
            p.level == level,
            p.text == text,
    {
        CollapsibleHeaders { range: None, level, text }
    }

    /// The number of consecutive tokens `check_slice` inspects per call.
    pub fn window_size(&self) -> (n: usize)
        ensures
            n == 4,
    {
        4
    }

    /// The least number of tokens one replacement inserts.
    pub fn new_items(&self) -> (n: usize)
        ensures
            n == 5,
    {
        5
    }

    /// Advances the span state machine by one window and returns the range
    /// to replace, if this window closed a span.
    pub fn check_slice(&mut self, slice: &[(usize, Token)]) -> (r: Option<MatchRange>)
        ensures
            *final(self) == ch_step(*old(self), view_pairs(slice@)).0,
            r == ch_step(*old(self), view_pairs(slice@)).1,
    {
        if slice.len() == 4 {
            match (&slice[0].1, &slice[1].1, &slice[2].1, &slice[3].1) {
                (
                    Token::Start(Tag::Heading(l, _)),
                    Token::Start(Tag::Emphasis),
                    Token::Text(v),
                    Token::End(Tag::Emphasis),
                ) => {
                    if *l >= self.level && str_eq(v.as_str(), self.text.as_str()) {
                        match self.range {
                            Some(r) => {
                                self.range = None;
                                return Some(MatchRange { start: r.start, end: slice[3].0 });
                            },
                            None => {
                                self.range = Some(
                                    MatchRange { start: slice[0].0, end: slice[3].0 },
                                );
                                return None;
                            },
                        }
                    }
                },
                _ => {},
            }
        }
        if slice.len() >= 1 {
            let shallow = match &slice[0].1 {
                Token::Start(Tag::Heading(l, _)) => *l < self.level,
                Token::Rule => true,
                _ => false,
            };
            if shallow {
                match self.range {
                    Some(r) => {
                        self.range = None;
                        return Some(MatchRange { start: r.start, end: slice[0].0 });
                    },
                    None => {
                        return None;
                    },
                }
            }
        }
        None
    }

    /// Closes a span the document ended before any closing window appeared,
    /// ending it at `pos`.
    pub fn final_check(&mut self, pos: usize) -> (r: Option<MatchRange>)
        ensures
            r == ch_final(*old(self), pos),
            final(self).range == r,
            final(self).level == old(self).level,
            final(self).text == old(self).text,
    {
        match &self.range {
            Some(r) => {
                let closed = MatchRange { start: r.start, end: pos };
                self.range = Some(closed);
                Some(closed)
            },
            None => None,
        }
    }

    /// Rewrites one closed span as a collapsible container: a block opener,
    /// the three summary tokens from the heading pattern, the rest of the
    /// span unchanged, and a block closer.
    pub fn replace_slice(&self, slice: &[(usize, Token)]) -> (r: Vec<Token>)
        ensures
            r@.map_values(|t: Token| t@) == ch_replace_view(views(slice@)),
    {
        let mut out: Vec<Token> = Vec::new();
        out.push(Token::Html("<details open>".to_owned()));
        out.push(Token::SoftBreak);
        out.push(Token::Html("<summary>".to_owned()));
        if slice.len() >= 4 {
            out.push(slice[1].1.clone());
            out.push(slice[2].1.clone());
            out.push(slice[3].1.clone());
        }
        out.push(Token::Html("</summary>".to_owned()));
        let ghost mid_len: int = if slice@.len() >= 4 {
            3int
        } else {
            0int
        };
        let mut k: usize = 5;
        while k < slice.len()
            invariant
                5 <= k,
                slice@.len() >= 5 ==> k <= slice@.len(),
                slice@.len() < 5 ==> k == 5,
                mid_len == if slice@.len() >= 4 {
                    3int
                } else {
                    0int
                },
                out@.len() == 4 + mid_len + (k - 5),
                out@[0] matches Token::Html(h) && h@ == "<details open>"@,
                out@[1] == Token::SoftBreak,
                out@[2] matches Token::Html(h) && h@ == "<summary>"@,
                mid_len == 3 ==> out@[3] == slice@[1].1 && out@[4] == slice@[2].1 && out@[5]
                    == slice@[3].1,
                out@[3 + mid_len] matches Token::Html(h) && h@ == "</summary>"@,
                forall|j: int| 5 <= j < k ==> out@[4 + mid_len + (j - 5)] == slice@[j].1,
            decreases slice@.len() - k,
        {
            out.push(slice[k].1.clone());
            k = k + 1;
        }
        out.push(Token::Html("</details>".to_owned()));
        proof {
            assert(out@.map_values(|t: Token| t@) =~= ch_replace_view(views(slice@)));
        }
        out
    }
}

/// One configured rewrite plugin. The roster is closed, so the scanner and
/// splicer dispatch over this enum rather than a trait object.
#[derive(Debug, PartialEq, Eq)]
pub enum Plugin {
    Emoji(Emoji),
    CollapsibleHeaders(CollapsibleHeaders),
}

/// The exact transition one `Plugin::check_slice` call makes on one window.
pub open spec fn plugin_step(p: Plugin, w: Seq<(usize, TokenView)>) -> (Plugin, Option<MatchRange>) {
    match p {
        Plugin::Emoji(e) => (p, emoji_check_spec(w)),
        Plugin::CollapsibleHeaders(c) => {
            let (c2, r) = ch_step(c, w);
            (Plugin::CollapsibleHeaders(c2), r)
        },
    }
}

/// What one `Plugin::final_check` call returns at the end of a scan.
pub open spec fn plugin_final(p: Plugin, pos: usize) -> Option<MatchRange> {
    match p {
        Plugin::Emoji(e) => None,
        Plugin::CollapsibleHeaders(c) => ch_final(c, pos),
    }
}

/// The plugin state after its final boundary check.
pub open spec fn plugin_after_final(p: Plugin, pos: usize) -> Plugin {
    match p {
        Plugin::Emoji(e) => p,
        Plugin::CollapsibleHeaders(c) => Plugin::CollapsibleHeaders(
            CollapsibleHeaders { range: ch_final(c, pos), ..c },
        ),
    }
}

/// What `Plugin::replace_slice` returns for the views of a matched slice.
pub open spec fn plugin_replace_view(p: Plugin, w: Seq<TokenView>) -> Seq<TokenView> {
    match p {
        Plugin::Emoji(e) => emoji_replace_view(w),
        Plugin::CollapsibleHeaders(c) => ch_replace_view(w),
    }
}

impl Plugin {
    /// The fixed number of consecutive tokens this plugin inspects per call.
    pub open spec fn spec_window_size(self) -> int {
        match self {
            Plugin::Emoji(_) => 1,
            Plugin::CollapsibleHeaders(_) => 4,
        }
    }

    /// A plugin freshly constructed for a scan pass holds no open span.
    pub open spec fn fresh(self) -> bool {
        match self {
            Plugin::Emoji(_) => true,
            Plugin::CollapsibleHeaders(c) => c.range is None,
        }
    }

    /// The number of consecutive tokens `check_slice` inspects per call.
    pub fn window_size(&self) -> (n: usize)
        ensures
            n == self.spec_window_size(),
            1 <= n <= 4,
    {
        match self {
            Plugin::Emoji(e) => e.window_size(),
            Plugin::CollapsibleHeaders(c) => c.window_size(),
        }
    }

    /// The least number of tokens one replacement inserts.
    pub fn new_items(&self) -> (n: usize)
        ensures
            n == match *self {
                Plugin::Emoji(_) => 1int,
                Plugin::CollapsibleHeaders(_) => 5int,
            },
    {
        match self {
            Plugin::Emoji(e) => e.new_items(),
            Plugin::CollapsibleHeaders(c) => c.new_items(),
        }
    }

    /// Inspects one window and returns the range to replace, if any.
    pub fn check_slice(&mut self, slice: &[(usize, Token)]) -> (r: Option<MatchRange>)
        requires
            forall|k: int| 0 <= k < slice@.len() ==> (#[trigger] slice@[k]).0 < usize::MAX,
        ensures
            *final(self) == plugin_step(*old(self), view_pairs(slice@)).0,
            r == plugin_step(*old(self), view_pairs(slice@)).1,
    {
        match self {
            Plugin::Emoji(e) => e.check_slice(slice),
            Plugin::CollapsibleHeaders(c) => c.check_slice(slice),
        }
    }

    /// Lets the plugin close a span the document ended before any closing
    /// window appeared.
    pub fn final_check(&mut self, pos: usize) -> (r: Option<MatchRange>)
        ensures
            r == plugin_final(*old(self), pos),
            *final(self) == plugin_after_final(*old(self), pos),
            *final(self) is Emoji <==> *old(self) is Emoji,
    {
        match self {
            Plugin::Emoji(e) => e.final_check(pos),
            Plugin::CollapsibleHeaders(c) => c.final_check(pos),
        }
    }

    /// Rewrites the tokens of one previously returned match range.
    pub fn replace_slice(&self, slice: &[(usize, Token)]) -> (r: Vec<Token>)
        ensures
            r@.map_values(|t: Token| t@) == plugin_replace_view(*self, views(slice@)),
    {
        match self {
            Plugin::Emoji(e) => e.replace_slice(slice),
            Plugin::CollapsibleHeaders(c) => c.replace_slice(slice),
        }
    }
}

} // verus!
