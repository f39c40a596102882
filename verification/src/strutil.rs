use vstd::prelude::*;
use vstd::string::{StrSliceExecFns, StringExecFns};

verus! {

/// Character-sequence equality of two string slices.
pub fn str_eq(a: &str, b: &str) -> (r: bool)
    ensures
        r == (a@ == b@),
{
    let sa = String::from_str(a);
    let sb = String::from_str(b);
    sa.eq(&sb)
}

/// The whitespace characters recognized when trimming and splitting.
pub open spec fn is_ws(c: char) -> bool {
    c == ' ' || c == '\t' || c == '\n' || c == '\r'
}

/// Executable mirror of `is_ws`.
pub fn is_ws_char(c: char) -> (r: bool)
    ensures
        r == is_ws(c),
{
    c == ' ' || c == '\t' || c == '\n' || c == '\r'
}

/// First index at or after `start` holding `sep`, or the length of `s`.
pub open spec fn seg_end(s: Seq<char>, start: int, sep: char) -> int
    decreases s.len() - start,
{
    if start < 0 || start >= s.len() {
        s.len() as int
    } else if s[start] == sep {
        start
    } else {
        seg_end(s, start + 1, sep)
    }
}

pub proof fn lemma_seg_end(s: Seq<char>, start: int, sep: char)
    requires
        0 <= start <= s.len(),
    ensures
        start <= seg_end(s, start, sep) <= s.len(),
        seg_end(s, start, sep) < s.len() ==> s[seg_end(s, start, sep)] == sep,
        forall|k: int| start <= k < seg_end(s, start, sep) ==> s[k] != sep,
    decreases s.len() - start,
{
    if start < s.len() && s[start] != sep {
        lemma_seg_end(s, start + 1, sep);
    }
}

/// Executable search for `seg_end`.
pub fn find_from(s: &str, len: usize, start: usize, sep: char) -> (r: usize)
    requires
        len == s@.len(),
        start <= len,
    ensures
        r == seg_end(s@, start as int, sep),
{
    let mut i: usize = start;
    while i < len
        invariant
            start <= i <= len,
            len == s@.len(),
            seg_end(s@, start as int, sep) == seg_end(s@, i as int, sep),
        decreases len - i,
    {
        if s.get_char(i) == sep {
            return i;
        }
        i += 1;
    }
    i
}

/// Index after the leading whitespace of `s`, scanning from `i`.
pub open spec fn ltrim_from(s: Seq<char>, i: int) -> int
    decreases s.len() - i,
{
    if i < 0 || i >= s.len() {
        s.len() as int
    } else if is_ws(s[i]) {
        ltrim_from(s, i + 1)
    } else {
        i
    }
}

/// Index before the trailing whitespace of `s`, scanning down from `j`.
pub open spec fn rtrim_from(s: Seq<char>, j: int) -> int
    decreases j,
{
    if j <= 0 || j > s.len() {
        0
    } else if is_ws(s[j - 1]) {
        rtrim_from(s, j - 1)
    } else {
        j
    }
}

/// `s` with leading and trailing whitespace removed.
pub open spec fn trimmed(s: Seq<char>) -> Seq<char> {
    let a = ltrim_from(s, 0);
    let b = rtrim_from(s, s.len() as int);
    if a >= b {
        Seq::empty()
    } else {
        s.subrange(a, b)
    }
}

pub proof fn lemma_ltrim(s: Seq<char>, i: int)
    requires
        0 <= i <= s.len(),
    ensures
        i <= ltrim_from(s, i) <= s.len(),
        forall|k: int| i <= k < ltrim_from(s, i) ==> is_ws(s[k]),
        ltrim_from(s, i) < s.len() ==> !is_ws(s[ltrim_from(s, i)]),
    decreases s.len() - i,
{
    if i < s.len() && is_ws(s[i]) {
        lemma_ltrim(s, i + 1);
    }
}

pub proof fn lemma_rtrim(s: Seq<char>, j: int)
    requires
        0 <= j <= s.len(),
    ensures
        0 <= rtrim_from(s, j) <= j,
        forall|k: int| rtrim_from(s, j) <= k < j ==> is_ws(s[k]),
        rtrim_from(s, j) > 0 ==> !is_ws(s[rtrim_from(s, j) - 1]),
    decreases j,
{
    if j > 0 && j <= s.len() && is_ws(s[j - 1]) {
        lemma_rtrim(s, j - 1);
    }
}

/// Trim whitespace from both ends of `s`.
pub fn trim_str(s: &str) -> (r: String)
    ensures
        r@ == trimmed(s@),
{
    let len = s.unicode_len();
    let mut a: usize = 0;
    while a < len && is_ws_char(s.get_char(a))
        invariant
            0 <= a <= len,
            len == s@.len(),
            ltrim_from(s@, 0) == ltrim_from(s@, a as int),
        decreases len - a,
    {
        a += 1;
    }
    let mut b: usize = len;
    while b > a && is_ws_char(s.get_char(b - 1))
        invariant
            a <= b <= len,
            len == s@.len(),
            a == ltrim_from(s@, 0),
            rtrim_from(s@, len as int) == rtrim_from(s@, b as int),
        decreases b,
    {
        b -= 1;
    }
    proof {
        lemma_ltrim(s@, 0);
        lemma_rtrim(s@, len as int);
    }
    if b <= a {
        proof {
            let ta = ltrim_from(s@, 0);
            let tb = rtrim_from(s@, s@.len() as int);
            lemma_rtrim(s@, b as int);
            assert(tb <= b <= a == ta);
            assert(trimmed(s@) =~= Seq::<char>::empty());
        }
        String::new()
    } else {
        proof {
            let ta = ltrim_from(s@, 0);
            let tb = rtrim_from(s@, s@.len() as int);
            assert(ta == a);
            assert(tb == rtrim_from(s@, b as int));
            lemma_rtrim(s@, b as int);
            // b > a and s[b-1] is not whitespace (loop exit), so rtrim stops at b
            assert(tb == b);
            assert(trimmed(s@) == s@.subrange(a as int, b as int));
        }
        let piece = s.substring_char(a, b);
        piece.to_owned()
    }
}

} // verus!
