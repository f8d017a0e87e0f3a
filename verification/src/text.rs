//! Character-level helpers shared by the renderer and the recovery pass: a
//! string is handled as the vector of its characters, scanned and rebuilt
//! with exact contracts.

use vstd::prelude::*;
use vstd::string::StrSliceExecFns;

verus! {

/// The pattern `p` occurs in `s` starting at position `i`.
pub open spec fn starts_with_seq(s: Seq<char>, i: int, p: Seq<char>) -> bool {
    0 <= i && i + p.len() <= s.len() && s.subrange(i, i + p.len()) == p
}

/// The first position at or after `from` holding `a` or `b`, if any.
pub open spec fn find2(s: Seq<char>, from: int, a: char, b: char) -> Option<int>
    decreases s.len() - from
    when 0 <= from <= s.len()
{
    if from >= s.len() {
        None
    } else if s[from] == a || s[from] == b {
        Some(from)
    } else {
        find2(s, from + 1, a, b)
    }
}

/// The first position at or after `from` where the pattern `p` occurs, if any.
pub open spec fn find_sub(s: Seq<char>, from: int, p: Seq<char>) -> Option<int>
    decreases s.len() - from
    when 0 <= from <= s.len() && 0 < p.len()
{
    if from + p.len() > s.len() {
        None
    } else if s.subrange(from, from + p.len()) == p {
        Some(from)
    } else {
        find_sub(s, from + 1, p)
    }
}

/// Whether a pattern occurs at position `i` of `s` can equally be read off
/// the suffix of `s` that begins at `i`.
pub proof fn lemma_starts_with_skip(s: Seq<char>, i: int, p: Seq<char>)
    requires
        0 <= i <= s.len(),
    ensures
        starts_with_seq(s, i, p) == starts_with_seq(s.skip(i), 0, p),
{
    if i + p.len() <= s.len() {
        assert(s.skip(i).subrange(0, p.len() as int) =~= s.subrange(i, i + p.len()));
    }
}

/// Turns a string slice into the vector of its characters.
pub fn str_to_chars(s: &str) -> (v: Vec<char>)
    ensures
        v@ == s@,
{
    let n = s.unicode_len();
    let mut v: Vec<char> = Vec::new();
    let mut i: usize = 0;
    while i < n
        invariant
            n == s@.len(),
            i <= n,
            v@ == s@.subrange(0, i as int),
        decreases n - i,
    {
        let c = s.get_char(i);
        v.push(c);
        i = i + 1;
        proof {
            assert(v@ =~= s@.subrange(0, i as int));
        }
    }
    proof {
        assert(v@ =~= s@);
    }
    v
}

/// Appends every character of the string slice to the vector.
pub fn push_str_chars(out: &mut Vec<char>, s: &str)
    ensures
        final(out)@ == old(out)@ + s@,
{
    let n = s.unicode_len();
    let mut i: usize = 0;
    while i < n
        invariant
            n == s@.len(),
            i <= n,
            out@ == old(out)@ + s@.subrange(0, i as int),
        decreases n - i,
    {
        let c = s.get_char(i);
        out.push(c);
        i = i + 1;
        proof {
            assert(out@ =~= old(out)@ + s@.subrange(0, i as int));
        }
    }
    proof {
        assert(out@ =~= old(out)@ + s@);
    }
}

/// Appends the characters `s[from..to]` to the vector.
pub fn push_char_range(out: &mut Vec<char>, s: &Vec<char>, from: usize, to: usize)
    requires
        from <= to <= s@.len(),
    ensures
        final(out)@ == old(out)@ + s@.subrange(from as int, to as int),
{
    let mut i: usize = from;
    while i < to
        invariant
            from <= i <= to <= s@.len(),
            out@ == old(out)@ + s@.subrange(from as int, i as int),
        decreases to - i,
    {
        let c = s[i];
        out.push(c);
        i = i + 1;
        proof {
            assert(out@ =~= old(out)@ + s@.subrange(from as int, i as int));
        }
    }
}

/// Decides whether the pattern occurs in `v` starting at position `i`.
pub fn starts_with_at(v: &Vec<char>, i: usize, pat: &str) -> (b: bool)
    ensures
        b == starts_with_seq(v@, i as int, pat@),
{
    let m = pat.unicode_len();
    if m > v.len() || i > v.len() - m {
        proof {
            assert(!starts_with_seq(v@, i as int, pat@));
        }
        return false;
    }
    let vl = v.len();
    let mut j: usize = 0;
    while j < m
        invariant
            m == pat@.len(),
            vl == v@.len(),
            i + m <= vl,
            j <= m,
            forall|q: int| 0 <= q < j ==> v@[i + q] == pat@[q],
        decreases m - j,
    {
        if v[i + j] != pat.get_char(j) {
            proof {
                assert(v@.subrange(i as int, i + m) != pat@) by {
                    assert(v@.subrange(i as int, i + m)[j as int] != pat@[j as int]);
                }
            }
            return false;
        }
        j = j + 1;
    }
    proof {
        assert(v@.subrange(i as int, i + m) =~= pat@);
    }
    true
}

/// Finds the first position at or after `from` holding `a` or `b`.
pub fn find2_at(v: &Vec<char>, from: usize, a: char, b: char) -> (r: Option<usize>)
    requires
        from <= v@.len(),
    ensures
        match r {
            Some(k) => from <= k < v@.len() && find2(v@, from as int, a, b) == Some(k as int),
            None => find2(v@, from as int, a, b) is None,
        },
{
    let mut j: usize = from;
    while j < v.len()
        invariant
            from <= j <= v@.len(),
            find2(v@, from as int, a, b) == find2(v@, j as int, a, b),
        decreases v@.len() - j,
    {
        let c = v[j];
        if c == a || c == b {
            return Some(j);
        }
        j = j + 1;
    }
    None
}

/// Finds the first position at or after `from` where the pattern occurs.
pub fn find_sub_at(v: &Vec<char>, from: usize, pat: &str) -> (r: Option<usize>)
    requires
        from <= v@.len(),
        pat@.len() > 0,
    ensures
        match r {
            Some(k) => from <= k && k + pat@.len() <= v@.len() && find_sub(v@, from as int, pat@)
                == Some(k as int),
            None => find_sub(v@, from as int, pat@) is None,
        },
{
    let mut j: usize = from;
    loop
        invariant
            from <= j <= v@.len(),
            pat@.len() > 0,
            find_sub(v@, from as int, pat@) == find_sub(v@, j as int, pat@),
        decreases v@.len() - j,
    {
        if starts_with_at(v, j, pat) {
            return Some(j);
        }
        if j >= v.len() {
            return None;
        }
        j = j + 1;
    }
}

/// The whitespace characters that trimming and the markup patterns treat as
/// blank.
pub open spec fn is_ws_char(c: char) -> bool {
    c == ' ' || c == '\t' || c == '\n' || c == '\r'
}

/// Decides whether a character is blank.
pub fn is_ws(c: char) -> (b: bool)
    ensures
        b == is_ws_char(c),
{
    c == ' ' || c == '\t' || c == '\n' || c == '\r'
}

/// The first position at or after `i` holding a character that is not blank,
/// or the length if there is none.
pub open spec fn trim_start_idx(s: Seq<char>, i: int) -> int
    decreases s.len() - i
    when 0 <= i <= s.len()
{
    if i >= s.len() {
        i
    } else if is_ws_char(s[i]) {
        trim_start_idx(s, i + 1)
    } else {
        i
    }
}

/// The position after the last character before `j` that is not blank, or
/// zero if there is none.
pub open spec fn trim_end_idx(s: Seq<char>, j: int) -> int
    decreases j
    when 0 <= j <= s.len()
{
    if j <= 0 {
        0
    } else if is_ws_char(s[j - 1]) {
        trim_end_idx(s, j - 1)
    } else {
        j
    }
}

/// The text with blank characters removed from both ends.
pub open spec fn trim_spec(s: Seq<char>) -> Seq<char> {
    let a = trim_start_idx(s, 0);
    let b = trim_end_idx(s, s.len() as int);
    if a <= b {
        s.subrange(a, b)
    } else {
        Seq::empty()
    }
}

/// Trims blank characters from both ends of the text.
pub fn trim_chars(v: &Vec<char>) -> (r: Vec<char>)
    ensures
        r@ == trim_spec(v@),
{
    let n = v.len();
    let mut a: usize = 0;
    while a < n && is_ws(v[a])
        invariant
            n == v@.len(),
            a <= n,
            trim_start_idx(v@, 0) == trim_start_idx(v@, a as int),
        decreases n - a,
    {
        a = a + 1;
    }
    proof {
        assert(trim_start_idx(v@, 0) == a as int);
    }
    let mut b: usize = n;
    while b > a && is_ws(v[b - 1])
        invariant
            n == v@.len(),
            a <= b <= n,
            a == n || !is_ws_char(v@[a as int]),
            a == n || a < b,
            trim_start_idx(v@, 0) == a as int,
            trim_end_idx(v@, n as int) == trim_end_idx(v@, b as int),
        decreases b,
    {
        b = b - 1;
    }
    let mut out: Vec<char> = Vec::new();
    push_char_range(&mut out, v, a, b);
    proof {
        if a < n {
            assert(!is_ws_char(v@[a as int]));
            assert(b > a);
            assert(trim_end_idx(v@, n as int) == b as int);
        } else {
            assert(b == n);
            let e = trim_end_idx(v@, n as int);
            lemma_trim_end_le(v@, n as int);
            if e < n {
                assert(trim_spec(v@) =~= Seq::<char>::empty());
                assert(out@ =~= Seq::<char>::empty());
            } else {
                assert(trim_spec(v@) =~= v@.subrange(a as int, b as int));
            }
        }
    }
    out
}

/// The end index of a trim never exceeds the starting bound.
proof fn lemma_trim_end_le(s: Seq<char>, j: int)
    requires
        0 <= j <= s.len(),
    ensures
        trim_end_idx(s, j) <= j,
    decreases j,
{
    if j > 0 && is_ws_char(s[j - 1]) {
        lemma_trim_end_le(s, j - 1);
    }
}

/// The text holds the character somewhere.
pub open spec fn has_char(s: Seq<char>, c: char) -> bool {
    exists|q: int| 0 <= q < s.len() && s[q] == c
}

/// Decides whether the string holds the character.
pub fn str_has_char(s: &str, c: char) -> (b: bool)
    ensures
        b == has_char(s@, c),
{
    let n = s.unicode_len();
    let mut i: usize = 0;
    while i < n
        invariant
            n == s@.len(),
            i <= n,
            forall|q: int| 0 <= q < i ==> s@[q] != c,
        decreases n - i,
    {
        if s.get_char(i) == c {
            return true;
        }
        i = i + 1;
    }
    false
}

/// Decides whether two string slices hold the same characters.
pub fn str_eq(a: &str, b: &str) -> (r: bool)
    ensures
        r == (a@ == b@),
{
    let n = a.unicode_len();
    if n != b.unicode_len() {
        proof {
            assert(a@ != b@);
        }
        return false;
    }
    let mut i: usize = 0;
    while i < n
        invariant
            n == a@.len() && n == b@.len(),
            i <= n,
            forall|q: int| 0 <= q < i ==> a@[q] == b@[q],
        decreases n - i,
    {
        if a.get_char(i) != b.get_char(i) {
            return false;
        }
        i = i + 1;
    }
    proof {
        assert(a@ =~= b@);
    }
    true
}

/// Turns a character vector back into a string.
///
/// Relies on `String`'s `FromIterator` over characters: collecting an
/// iterator of characters yields the string holding exactly those characters
/// in order.
#[verifier::external_body]
pub fn chars_to_string(v: &Vec<char>) -> (s: String)
    ensures
        s@ == v@,
{
    v.iter().collect()
}

} // verus!
