//! Reference-definition front matter: a run of `[id]: uri "title"` lines at
//! the very start of a document. `scan` finds the byte range of that run,
//! and `parse_gray_matter` turns it into reference definitions grouped by
//! id, in first-appearance order.

use vstd::prelude::*;
use vstd::slice::{slice_subrange, slice_to_vec};

verus! {

/// One reference definition: a target and an optional title.
#[derive(Debug, PartialEq, Eq)]
pub struct RefDef {
    pub uri: String,
    pub title: Option<String>,
}

/// The view of an optional string.
pub open spec fn opt_str_view(o: Option<String>) -> Option<Seq<char>> {
    match o {
        Some(s) => Some(s@),
        None => None,
    }
}

/// The view of one reference definition.
pub open spec fn refdef_view(d: RefDef) -> (Seq<char>, Option<Seq<char>>) {
    (d.uri@, opt_str_view(d.title))
}

/// The view of the grouped result: each id with its definitions in order.
pub open spec fn groups_view(v: Seq<(String, Vec<RefDef>)>) -> Seq<
    (Seq<char>, Seq<(Seq<char>, Option<Seq<char>>)>),
> {
    v.map_values(
        |g: (String, Vec<RefDef>)| (g.0@, g.1@.map_values(|d: RefDef| refdef_view(d))),
    )
}

/// The least index `>= i` at which byte `b` occurs in `s`, if any.
pub open spec fn find_byte_from(s: Seq<u8>, b: u8, i: int) -> Option<int>
    decreases s.len() - i,
{
    if i < 0 || i >= s.len() {
        None
    } else if s[i] == b {
        Some(i)
    } else {
        find_byte_from(s, b, i + 1)
    }
}

pub proof fn lemma_find_byte_bounds(s: Seq<u8>, b: u8, i: int)
    ensures
        find_byte_from(s, b, i) matches Some(j) ==> i <= j < s.len() && s[j] == b,
    decreases s.len() - i,
{
    if i < 0 || i >= s.len() {
    } else if s[i] == b {
    } else {
        lemma_find_byte_bounds(s, b, i + 1);
    }
}

/// The least index `>= from` at which byte `b` occurs in `s`, if any.
fn find_byte(s: &[u8], b: u8, from: usize) -> (r: Option<usize>)
    requires
        from <= s@.len(),
    ensures
        r is Some <==> find_byte_from(s@, b, from as int) is Some,
        r matches Some(j) ==> find_byte_from(s@, b, from as int) == Some(j as int),
{
    let len = s.len();
    let mut i: usize = from;
    while i < len
        invariant
            from <= i <= len,
            len == s@.len(),
            find_byte_from(s@, b, from as int) == find_byte_from(s@, b, i as int),
        decreases len - i,
    {
        if s[i] == b {
            return Some(i);
        }
        i = i + 1;
    }
    None
}

/// The byte range of the leading reference-definition run, as the scan state
/// machine computes it from position `i`: `til_end` is set while the rest of
/// a started line is skipped, and `range` holds the first line's start and
/// the position of the last line-ending newline seen so far. A byte that
/// starts neither a definition nor a new line stops the scan.
pub open spec fn scan_spec(
    s: Seq<u8>,
    i: int,
    til_end: bool,
    range: Option<(int, int)>,
) -> Option<(int, int)>
    decreases s.len() - i,
{
    if i < 0 || i >= s.len() {
        range
    } else if s[i] == 91 && !til_end {
        scan_spec(
            s,
            i + 1,
            true,
            if range is None {
                Some((i, 0))
            } else {
                range
            },
        )
    } else if s[i] == 10 {
        scan_spec(
            s,
            i + 1,
            false,
            match range {
                Some(r) => Some((r.0, i)),
                None => None,
            },
        )
    } else if til_end {
        scan_spec(s, i + 1, true, range)
    } else {
        range
    }
}

/// The lines of `s`, split at every newline byte, scanning from `i` with the
/// current line started at `start`.
pub open spec fn split_lines_from(s: Seq<u8>, start: int, i: int) -> Seq<Seq<u8>>
    decreases s.len() - i,
{
    if i < 0 || i > s.len() {
        Seq::empty()
    } else if i == s.len() {
        seq![s.subrange(start, i)]
    } else if s[i] == 10 {
        seq![s.subrange(start, i)] + split_lines_from(s, i + 1, i + 1)
    } else {
        split_lines_from(s, start, i + 1)
    }
}

/// The lines of `s`, split at every newline byte.
pub open spec fn split_lines(s: Seq<u8>) -> Seq<Seq<u8>> {
    split_lines_from(s, 0, 0)
}

/// Splitting from a position inside a line: the next newline at `j` ends the
/// line begun at `start`, and with no newline left the line runs to the end.
proof fn lemma_split_step(s: Seq<u8>, start: int, i: int)
    requires
        0 <= start <= i <= s.len(),
    ensures
        find_byte_from(s, 10, i) matches Some(j) ==> split_lines_from(s, start, i) == seq![
            s.subrange(start, j),
        ] + split_lines_from(s, j + 1, j + 1),
        find_byte_from(s, 10, i) is None ==> split_lines_from(s, start, i) == seq![
            s.subrange(start, s.len() as int),
        ],
    decreases s.len() - i,
{
    if i == s.len() {
    } else if s[i] == 10 {
    } else {
        lemma_split_step(s, start, i + 1);
    }
}

/// One capture of the reference-definition pattern: the id, the target, and
/// the optional title.
type Capture = (String, String, Option<String>);

/// The view of one capture.
pub open spec fn capture_view(c: Capture) -> (Seq<char>, Seq<char>, Option<Seq<char>>) {
    (c.0@, c.1@, opt_str_view(c.2))
}

/// All reference-definition captures in one line of bytes, in order. A line
/// that is not valid UTF-8 has none.
pub uninterp spec fn refdef_captures_of(line: Seq<u8>) -> Seq<
    (Seq<char>, Seq<char>, Option<Seq<char>>),
>;

/// Relies on regex::Regex::captures_iter with the fixed reference-definition
/// pattern, and on str::from_utf8: both are functions of the line alone, so
/// the captures are too.
#[verifier::external_body]
fn refdef_captures(line: &[u8]) -> (r: Vec<Capture>)
    ensures
        r@.map_values(|c: Capture| capture_view(c)) == refdef_captures_of(line@),
{
    let mut out: Vec<Capture> = Vec::new();
    if let (Ok(text), Ok(re)) = (
        core::str::from_utf8(line),
        regex::Regex::new(r#"\[(?<id>[^\[\]]+)\]:\s(?<uri>[^\n\r"]+)("(?<title>[^"]+)")?"#),
    ) {
        for found in re.captures_iter(text) {
            if let (Some(id), Some(uri)) = (found.name("id"), found.name("uri")) {
                let title = found.name("title").map(|t| t.as_str().to_owned());
                out.push((id.as_str().to_owned(), uri.as_str().to_owned(), title));
            }
        }
    }
    out
}

/// The captures of every line, in line order.
pub open spec fn all_captures(lines: Seq<Seq<u8>>) -> Seq<
    (Seq<char>, Seq<char>, Option<Seq<char>>),
>
    decreases lines.len(),
{
    if lines.len() == 0 {
        Seq::empty()
    } else {
        refdef_captures_of(lines[0]) + all_captures(lines.skip(1))
    }
}

/// The first group whose id is `id`, if any.
pub open spec fn find_group(
    acc: Seq<(Seq<char>, Seq<(Seq<char>, Option<Seq<char>>)>)>,
    id: Seq<char>,
) -> Option<int>
    decreases acc.len(),
{
    if acc.len() == 0 {
        None
    } else if acc[0].0 == id {
        Some(0)
    } else {
        match find_group(acc.skip(1), id) {
            Some(j) => Some(j + 1),
            None => None,
        }
    }
}

/// `find_group` names the first index holding `id`, if one does.
proof fn lemma_find_group_at(
    acc: Seq<(Seq<char>, Seq<(Seq<char>, Option<Seq<char>>)>)>,
    id: Seq<char>,
    k: int,
)
    requires
        0 <= k <= acc.len(),
        forall|j: int| 0 <= j < k ==> (#[trigger] acc[j]).0 != id,
        k < acc.len() ==> acc[k].0 == id,
    ensures
        k < acc.len() ==> find_group(acc, id) == Some(k),
        k == acc.len() ==> find_group(acc, id) is None,
    decreases acc.len(),
{
    if acc.len() == 0 {
    } else if acc[0].0 == id {
        assert(k == 0);
    } else {
        let rest = acc.skip(1);
        assert(forall|j: int| 0 <= j < rest.len() ==> rest[j] == acc[j + 1]);
        lemma_find_group_at(rest, id, k - 1);
    }
}

/// The groups after folding the captures into `acc`, one at a time: a
/// capture with a known id appends its definition to that id's group, and
/// any other capture starts a new group at the end.
pub open spec fn group_captures(
    cs: Seq<(Seq<char>, Seq<char>, Option<Seq<char>>)>,
    acc: Seq<(Seq<char>, Seq<(Seq<char>, Option<Seq<char>>)>)>,
) -> Seq<(Seq<char>, Seq<(Seq<char>, Option<Seq<char>>)>)>
    decreases cs.len(),
{
    if cs.len() == 0 {
        acc
    } else {
        let c = cs[0];
        let acc2 = match find_group(acc, c.0) {
            Some(j) => acc.update(j, (acc[j].0, acc[j].1.push((c.1, c.2)))),
            None => acc.push((c.0, seq![(c.1, c.2)])),
        };
        group_captures(cs.skip(1), acc2)
    }
}

/// Folding a concatenation folds its parts in turn.
proof fn lemma_group_concat(
    cs1: Seq<(Seq<char>, Seq<char>, Option<Seq<char>>)>,
    cs2: Seq<(Seq<char>, Seq<char>, Option<Seq<char>>)>,
    acc: Seq<(Seq<char>, Seq<(Seq<char>, Option<Seq<char>>)>)>,
)
    ensures
        group_captures(cs1 + cs2, acc) == group_captures(cs2, group_captures(cs1, acc)),
    decreases cs1.len(),
{
    if cs1.len() == 0 {
        assert(cs1 + cs2 =~= cs2);
    } else {
        assert((cs1 + cs2)[0] == cs1[0]);
        assert((cs1 + cs2).skip(1) =~= cs1.skip(1) + cs2);
        let c = cs1[0];
        let acc2 = match find_group(acc, c.0) {
            Some(j) => acc.update(j, (acc[j].0, acc[j].1.push((c.1, c.2)))),
            None => acc.push((c.0, seq![(c.1, c.2)])),
        };
        lemma_group_concat(cs1.skip(1), cs2, acc2);
    }
}

/// The grouped reference definitions of a byte run: its lines' captures,
/// folded in order into groups keyed by id.
pub open spec fn refdef_groups(bytes: Seq<u8>) -> Seq<
    (Seq<char>, Seq<(Seq<char>, Option<Seq<char>>)>),
> {
    group_captures(all_captures(split_lines(bytes)), Seq::empty())
}

/// A scanner for the reference-definition front matter of one document. Each
/// definition must sit whole on one line of its own, and the run must start
/// at the first byte of the document.
#[derive(Debug)]
pub struct RefDefMatter {
    /// The document bytes.
    pub slice: Vec<u8>,
    /// The byte range the scan found, from the first definition's opening
    /// bracket to the newline that ended the last definition line.
    pub range: Option<(usize, usize)>,
}

impl RefDefMatter {
    /// A scanner over the given document bytes, nothing scanned yet.
    pub fn new(slice: &[u8]) -> (r: RefDefMatter)
        ensures
            r.slice@ == slice@,
            r.range is None,
    {
        RefDefMatter { slice: slice_to_vec(slice), range: None }
    }

    /// Finds the byte range of the leading run of reference-definition
    /// lines, leaving the document bytes unchanged.
    pub fn scan(&mut self)
        ensures
            final(self).slice == old(self).slice,
            ({
                let expected = scan_spec(old(self).slice@, 0, false, None);
                match (final(self).range, expected) {
                    (Some(got), Some(want)) => got.0 == want.0 && got.1 == want.1,
                    (None, None) => true,
                    _ => false,
                }
            }),
    {
        let ghost s = self.slice@;
        let len = self.slice.len();
        let mut til_end: bool = false;
        let mut range: Option<(usize, usize)> = None;
        let mut i: usize = 0;
        let mut stopped: bool = false;
        while i < len && !stopped
            invariant
                i <= len,
                len == s.len(),
                s == self.slice@,
                !stopped ==> scan_spec(s, 0, false, None) == scan_spec(
                    s,
                    i as int,
                    til_end,
                    match range {
                        Some(r) => Some((r.0 as int, r.1 as int)),
                        None => None,
                    },
                ),
                stopped ==> scan_spec(s, 0, false, None) == match range {
                    Some(r) => Some((r.0 as int, r.1 as int)),
                    None => None,
                },
            decreases
                    len - i + (if stopped {
                        0int
                    } else {
                        1int
                    }),
        {
            let b = self.slice[i];
            if b == 91 && !til_end {
                til_end = true;
                if range.is_none() {
                    range = Some((i, 0));
                }
            } else if b == 10 {
                til_end = false;
                range = match range {
                    Some(r) => Some((r.0, i)),
                    None => None,
                };
            } else if til_end {
            } else {
                stopped = true;
            }
            if !stopped {
                i = i + 1;
            }
        }
        self.range = range;
    }

    /// Parses the scanned range into reference definitions grouped by id, in
    /// first-appearance order; with nothing scanned, or a scanned range that
    /// no newline ever closed, there is nothing to parse.
    pub fn parse_gray_matter(&self) -> (r: Option<Vec<(String, Vec<RefDef>)>>)
        ensures
            match self.range {
                Some(range) => if range.0 <= range.1 <= self.slice@.len() {
                    r matches Some(groups) && groups_view(groups@) == refdef_groups(
                        self.slice@.subrange(range.0 as int, range.1 as int),
                    )
                } else {
                    r is None
                },
                None => r is None,
            },
    {
        let (st, en) = match self.range {
            Some(range) => range,
            None => {
                return None;
            },
        };
        if !(st <= en && en <= self.slice.len()) {
            return None;
        }
        let bytes: &[u8] = slice_subrange(self.slice.as_slice(), st, en);
        let ghost b = self.slice@.subrange(st as int, en as int);
        let blen = bytes.len();
        let mut groups: Vec<(String, Vec<RefDef>)> = Vec::new();
        let mut pos: usize = 0;
        let mut done: bool = false;
        proof {
            assert(groups_view(groups@) =~= Seq::<
                (Seq<char>, Seq<(Seq<char>, Option<Seq<char>>)>),
            >::empty());
        }
        while !done
            invariant
                pos <= blen,
                blen == b.len(),
                bytes@ == b,
                !done ==> refdef_groups(b) == group_captures(
                    all_captures(split_lines_from(b, pos as int, pos as int)),
                    groups_view(groups@),
                ),
                done ==> refdef_groups(b) == groups_view(groups@),
            decreases b.len() - pos + (if done {
                0int
            } else {
                1int
            }),
        {
            let line_end: usize = match find_byte(bytes, 10, pos) {
                Some(j) => {
                    proof {
                        lemma_find_byte_bounds(b, 10, pos as int);
                    }
                    j
                },
                None => blen,
            };
            let line: &[u8] = slice_subrange(bytes, pos, line_end);
            proof {
                lemma_split_step(b, pos as int, pos as int);
            }
            let ghost lines_rest: Seq<Seq<u8>> = if line_end < blen {
                split_lines_from(b, line_end + 1, line_end + 1)
            } else {
                Seq::empty()
            };
            proof {
                if line_end < blen {
                    assert(split_lines_from(b, pos as int, pos as int) == seq![line@]
                        + lines_rest);
                } else {
                    assert(split_lines_from(b, pos as int, pos as int) == seq![line@]);
                    assert(seq![line@] =~= seq![line@] + Seq::<Seq<u8>>::empty());
                }
                assert((seq![line@] + lines_rest).skip(1) =~= lines_rest);
                assert(all_captures(seq![line@] + lines_rest) == refdef_captures_of(line@)
                    + all_captures(lines_rest));
                lemma_group_concat(
                    refdef_captures_of(line@),
                    all_captures(lines_rest),
                    groups_view(groups@),
                );
            }
            let mut caps = refdef_captures(line);
            let ghost caps_full = refdef_captures_of(line@);
            let ghost target_line = group_captures(caps_full, groups_view(groups@));
            let ghost mut consumed: int = 0;
            proof {
                assert(caps@.map_values(|c: Capture| capture_view(c)) =~= caps_full.skip(0));
                assert(caps_full.skip(0) =~= caps_full);
            }
            while caps.len() > 0
                invariant
                    0 <= consumed <= caps_full.len(),
                    caps@.map_values(|c: Capture| capture_view(c)) == caps_full.skip(consumed),
                    target_line == group_captures(
                        caps_full.skip(consumed),
                        groups_view(groups@),
                    ),
                decreases caps@.len(),
            {
                let ghost caps_before = caps@;
                let ghost remaining = caps_full.skip(consumed);
                let c = caps.remove(0);
                let ghost cv = capture_view(c);
                proof {
                    assert(caps_before.map_values(|x: Capture| capture_view(x))[0]
                        == capture_view(caps_before[0]));
                    assert(remaining[0] == cv);
                    assert(caps@ =~= caps_before.skip(1));
                    assert forall|j: int| 0 <= j < caps@.len() implies caps@.map_values(
                        |x: Capture| capture_view(x),
                    )[j] == #[trigger] caps_full.skip(consumed + 1)[j] by {
                        assert(caps@.map_values(|x: Capture| capture_view(x))[j]
                            == capture_view(caps@[j]));
                        assert(caps@[j] == caps_before[j + 1]);
                        assert(caps_before.map_values(|x: Capture| capture_view(x))[j + 1]
                            == capture_view(caps_before[j + 1]));
                        assert(remaining[j + 1] == caps_full[consumed + 1 + j]);
                    }
                    assert(caps@.map_values(|x: Capture| capture_view(x)) =~= caps_full.skip(
                        consumed + 1,
                    ));
                    assert(remaining.skip(1) =~= caps_full.skip(consumed + 1));
                }
                let (id, uri, title) = c;
                let ghost gv_before = groups_view(groups@);
                let ghost groups_before = groups@;
                match find_group_index(&groups, &id) {
                    Some(k) => {
                        let mut g = groups.remove(k);
                        let ghost defs_before = g.1@;
                        g.1.push(RefDef { uri, title });
                        let ghost g_snap = g;
                        let ghost g_view = (
                            gv_before[k as int].0,
                            gv_before[k as int].1.push((cv.1, cv.2)),
                        );
                        groups.insert(k, g);
                        proof {
                            assert(groups@ =~= groups_before.update(k as int, g_snap));
                            assert(g_snap.1@ == defs_before.push(
                                RefDef { uri: g_snap.1@.last().uri, title: g_snap.1@.last().title },
                            ));
                            assert forall|j: int| 0 <= j < groups@.len() implies groups_view(
                                groups@,
                            )[j] == gv_before.update(k as int, g_view)[j] by {
                                assert(groups_view(groups@)[j] == (
                                    groups@[j].0@,
                                    groups@[j].1@.map_values(|d: RefDef| refdef_view(d)),
                                ));
                                assert(groups_view(groups_before)[j] == (
                                    groups_before[j].0@,
                                    groups_before[j].1@.map_values(|d: RefDef| refdef_view(d)),
                                ));
                                if j == k {
                                    assert(groups@[j] == g_snap);
                                    assert forall|m: int| 0 <= m < g_snap.1@.len() implies
                                        g_snap.1@.map_values(|d: RefDef| refdef_view(d))[m]
                                        == gv_before[k as int].1.push((cv.1, cv.2))[m] by {
                                        assert(g_snap.1@.map_values(|d: RefDef| refdef_view(d))[m]
                                            == refdef_view(g_snap.1@[m]));
                                        if m < defs_before.len() {
                                            assert(g_snap.1@[m] == defs_before[m]);
                                            assert(defs_before.map_values(
                                                |d: RefDef| refdef_view(d),
                                            )[m] == refdef_view(defs_before[m]));
                                        }
                                    }
                                    assert(g_snap.1@.map_values(|d: RefDef| refdef_view(d))
                                        =~= gv_before[k as int].1.push((cv.1, cv.2)));
                                } else {
                                    assert(groups@[j] == groups_before[j]);
                                }
                            }
                            assert(groups_view(groups@) =~= gv_before.update(k as int, g_view));
                        }
                    },
                    None => {
                        let mut defs: Vec<RefDef> = Vec::new();
                        defs.push(RefDef { uri, title });
                        groups.push((id, defs));
                        proof {
                            assert forall|j: int| 0 <= j < groups@.len() implies groups_view(
                                groups@,
                            )[j] == gv_before.push((cv.0, seq![(cv.1, cv.2)]))[j] by {
                                assert(groups_view(groups@)[j] == (
                                    groups@[j].0@,
                                    groups@[j].1@.map_values(|d: RefDef| refdef_view(d)),
                                ));
                                if j < groups_before.len() {
                                    assert(groups@[j] == groups_before[j]);
                                    assert(groups_view(groups_before)[j] == (
                                        groups_before[j].0@,
                                        groups_before[j].1@.map_values(|d: RefDef| refdef_view(d)),
                                    ));
                                } else {
                                    assert(groups@[j].1@.map_values(|d: RefDef| refdef_view(d))
                                        =~= seq![(cv.1, cv.2)]);
                                }
                            }
                            assert(groups_view(groups@) =~= gv_before.push(
                                (cv.0, seq![(cv.1, cv.2)]),
                            ));
                        }
                    },
                }
                proof {
                    consumed = consumed + 1;
                }
            }
            proof {
                assert(caps_full.skip(consumed).len() == 0);
                assert(caps_full.skip(consumed) =~= Seq::<
                    (Seq<char>, Seq<char>, Option<Seq<char>>),
                >::empty());
            }
            if line_end < blen {
                pos = line_end + 1;
            } else {
                done = true;
            }
        }
        Some(groups)
    }
}

/// The index of the first group whose id is `id`, if any.
fn find_group_index(groups: &Vec<(String, Vec<RefDef>)>, id: &String) -> (r: Option<usize>)
    ensures
        match r {
            Some(k) => find_group(groups_view(groups@), id@) == Some(k as int) && k
                < groups@.len(),
            None => find_group(groups_view(groups@), id@) is None,
        },
{
    let len = groups.len();
    let mut k: usize = 0;
    while k < len
        invariant
            k <= len,
            len == groups@.len(),
            forall|j: int| 0 <= j < k ==> groups_view(groups@)[j].0 != id@,
        decreases len - k,
    {
        let g = &groups[k];
        if crate::text::str_eq(g.0.as_str(), id.as_str()) {
            proof {
                assert(groups_view(groups@)[k as int].0 == id@);
                lemma_find_group_at(groups_view(groups@), id@, k as int);
            }
            return Some(k);
        }
        proof {
            assert(groups_view(groups@)[k as int].0 == groups@[k as int].0@);
        }
        k = k + 1;
    }
    proof {
        lemma_find_group_at(groups_view(groups@), id@, len as int);
    }
    None
}

} // verus!
