//! Character-level string operations the plugins and the path mapper rely
//! on: equality, first occurrence of a character, and global left-to-right
//! substring replacement.

use vstd::prelude::*;
use vstd::string::StrSliceExecFns;
use vstd::string::StringExecFns;

verus! {

/// The least index `>= i` at which `c` occurs in `s`, if any.
pub open spec fn find_char_from(s: Seq<char>, c: char, i: int) -> Option<int>
    decreases s.len() - i,
{
    if i < 0 || i >= s.len() {
        None
    } else if s[i] == c {
        Some(i)
    } else {
        find_char_from(s, c, i + 1)
    }
}

/// `h` with every occurrence of `n` replaced by `r`, scanning left to right
/// and never rescanning replaced text, exactly as `str::replace` does.
pub open spec fn replace_all_spec(h: Seq<char>, n: Seq<char>, r: Seq<char>) -> Seq<char>
    decreases h.len(),
{
    if n.len() == 0 || h.len() < n.len() {
        h
    } else if h.subrange(0, n.len() as int) == n {
        r + replace_all_spec(h.skip(n.len() as int), n, r)
    } else {
        seq![h[0]] + replace_all_spec(h.skip(1), n, r)
    }
}

pub proof fn lemma_find_char_bounds(s: Seq<char>, c: char, i: int)
    ensures
        find_char_from(s, c, i) matches Some(j) ==> i <= j < s.len() && s[j] == c,
    decreases s.len() - i,
{
    if i < 0 || i >= s.len() {
    } else if s[i] == c {
    } else {
        lemma_find_char_bounds(s, c, i + 1);
    }
}

/// True exactly when the two string slices hold the same characters.
pub fn str_eq(a: &str, b: &str) -> (r: bool)
    ensures
        r == (a@ == b@),
{
    let a_len = a.unicode_len();
    let b_len = b.unicode_len();
    if a_len != b_len {
        return false;
    }
    let mut j: usize = 0;
    while j < a_len
        invariant
            a_len == a@.len(),
            a_len == b@.len(),
            j <= a_len,
            forall|k: int| 0 <= k < j ==> a@[k] == b@[k],
        decreases a_len - j,
    {
        if a.get_char(j) != b.get_char(j) {
            assert(a@ != b@) by {
                assert(a@[j as int] != b@[j as int]);
            }
            return false;
        }
        j = j + 1;
    }
    proof {
        assert(a@ =~= b@);
    }
    true
}

/// The least index `>= from` at which `c` occurs in `s`, if any.
pub fn find_char(s: &str, c: char, from: usize) -> (r: Option<usize>)
    requires
        from <= s@.len(),
    ensures
        r is Some <==> find_char_from(s@, c, from as int) is Some,
        r matches Some(j) ==> find_char_from(s@, c, from as int) == Some(j as int),
{
    let len = s.unicode_len();
    let mut i: usize = from;
    while i < len
        invariant
            from <= i <= len,
            len == s@.len(),
            find_char_from(s@, c, from as int) == find_char_from(s@, c, i as int),
        decreases len - i,
    {
        if s.get_char(i) == c {
            return Some(i);
        }
        i = i + 1;
    }
    None
}

/// True exactly when `needle` occurs in `hay` starting at character `at`.
fn matches_at(hay: &str, needle: &str, at: usize) -> (r: bool)
    requires
        at + needle@.len() <= hay@.len(),
        hay@.len() <= usize::MAX,
    ensures
        r == (hay@.subrange(at as int, at + needle@.len()) == needle@),
{
    let n_len = needle.unicode_len();
    let mut j: usize = 0;
    while j < n_len
        invariant
            at + n_len <= hay@.len() <= usize::MAX,
            n_len == needle@.len(),
            j <= n_len,
            forall|k: int| 0 <= k < j ==> hay@[at + k] == needle@[k],
        decreases n_len - j,
    {
        if hay.get_char(at + j) != needle.get_char(j) {
            assert(hay@.subrange(at as int, at + needle@.len()) != needle@) by {
                assert(hay@.subrange(at as int, at + needle@.len())[j as int] == hay@[at + j]);
            }
            return false;
        }
        j = j + 1;
    }
    proof {
        assert(hay@.subrange(at as int, at + needle@.len()) =~= needle@);
    }
    true
}

/// `hay` with every occurrence of `needle` replaced by `repl`, scanning left
/// to right over the characters of `hay`.
pub fn replace_all(hay: &str, needle: &str, repl: &str) -> (out: String)
    requires
        needle@.len() > 0,
    ensures
        out@ == replace_all_spec(hay@, needle@, repl@),
{
    let hay_len = hay.unicode_len();
    let needle_len = needle.unicode_len();
    let mut out = String::new();
    let mut i: usize = 0;
    proof {
        assert(hay@.skip(0) =~= hay@);
        assert(out@ + replace_all_spec(hay@, needle@, repl@) =~= replace_all_spec(
            hay@,
            needle@,
            repl@,
        ));
    }
    while i < hay_len
        invariant
            needle@.len() == needle_len,
            needle_len > 0,
            hay@.len() == hay_len,
            i <= hay_len,
            replace_all_spec(hay@, needle@, repl@) == out@ + replace_all_spec(
                hay@.skip(i as int),
                needle@,
                repl@,
            ),
        decreases hay_len - i,
    {
        let ghost tail = hay@.skip(i as int);
        if needle_len <= hay_len - i && matches_at(hay, needle, i) {
            out.append(repl);
            proof {
                assert(tail.subrange(0, needle_len as int) =~= hay@.subrange(
                    i as int,
                    i + needle_len,
                ));
                assert(tail.skip(needle_len as int) =~= hay@.skip(i + needle_len));
                assert(replace_all_spec(tail, needle@, repl@) == repl@ + replace_all_spec(
                    hay@.skip(i + needle_len),
                    needle@,
                    repl@,
                ));
            }
            i = i + needle_len;
        } else {
            let piece = hay.substring_char(i, i + 1);
            out.append(piece);
            proof {
                assert(piece@ =~= seq![hay@[i as int]]);
                assert(tail.skip(1) =~= hay@.skip(i + 1));
                if tail.len() < needle_len {
                    assert(tail =~= seq![hay@[i as int]] + hay@.skip(i + 1));
                    assert(hay@.skip(i + 1).len() < needle_len);
                    assert(replace_all_spec(tail, needle@, repl@) == seq![hay@[i as int]]
                        + replace_all_spec(hay@.skip(i + 1), needle@, repl@));
                } else {
                    assert(tail.subrange(0, needle_len as int) != needle@) by {
                        assert(tail.subrange(0, needle_len as int) =~= hay@.subrange(
                            i as int,
                            i + needle_len,
                        ));
                    }
                    assert(replace_all_spec(tail, needle@, repl@) == seq![tail[0]]
                        + replace_all_spec(tail.skip(1), needle@, repl@));
                }
            }
            i = i + 1;
        }
    }
    proof {
        assert(hay@.skip(i as int) =~= Seq::<char>::empty());
        assert(replace_all_spec(Seq::<char>::empty(), needle@, repl@) =~= Seq::<char>::empty());
        assert(out@ =~= out@ + Seq::<char>::empty());
    }
    out
}

} // verus!
