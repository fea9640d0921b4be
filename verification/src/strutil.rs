//! Small verified string utilities shared by the resolver.

use vstd::prelude::*;

verus! {

/// Character-for-character equality of two string slices.
pub fn str_eq(a: &str, b: &str) -> (r: bool)
    ensures
        r == (a@ == b@),
{
    let alen = a.unicode_len();
    let blen = b.unicode_len();
    if alen != blen {
        return false;
    }
    for i in 0..alen
        invariant
            alen == a@.len(),
            alen == b@.len(),
            forall|j: int| 0 <= j < i ==> a@[j] == b@[j],
    {
        if a.get_char(i) != b.get_char(i) {
            return false;
        }
    }
    proof {
        assert(a@ =~= b@);
    }
    true
}

/// The whitespace characters trimmed from header names and values and
/// treated as blank in credential values: the Unicode `White_Space` set, as
/// `char::is_whitespace` accepts it.
pub open spec fn is_space(c: char) -> bool {
    let n = c as u32;
    n == 0x09 || n == 0x0A || n == 0x0B || n == 0x0C || n == 0x0D || n == 0x20 || n == 0x85
        || n == 0xA0 || n == 0x1680 || (0x2000 <= n && n <= 0x200A) || n == 0x2028 || n == 0x2029
        || n == 0x202F || n == 0x205F || n == 0x3000
}

/// Executable test for `is_space`.
pub fn char_is_space(c: char) -> (r: bool)
    ensures
        r == is_space(c),
{
    let n: u32 = c as u32;
    n == 0x09 || n == 0x0A || n == 0x0B || n == 0x0C || n == 0x0D || n == 0x20 || n == 0x85
        || n == 0xA0 || n == 0x1680 || (0x2000 <= n && n <= 0x200A) || n == 0x2028 || n == 0x2029
        || n == 0x202F || n == 0x205F || n == 0x3000
}

/// Whether `s` is empty or consists of whitespace only.
pub open spec fn is_blank(s: Seq<char>) -> bool {
    forall|m: int| 0 <= m < s.len() ==> is_space(s[m])
}

/// Executable test for `is_blank`.
pub fn blank(s: &str) -> (r: bool)
    ensures
        r == is_blank(s@),
{
    let len = s.unicode_len();
    for i in 0..len
        invariant
            len == s@.len(),
            forall|j: int| 0 <= j < i ==> is_space(s@[j]),
    {
        if !char_is_space(s.get_char(i)) {
            return false;
        }
    }
    true
}

/// Index of the first non-whitespace character at or after `from`, or the
/// length of `s` if there is none.
pub open spec fn first_non_space(s: Seq<char>, from: int) -> int
    decreases s.len() - from,
{
    if from < 0 || from >= s.len() {
        s.len() as int
    } else if !is_space(s[from]) {
        from
    } else {
        first_non_space(s, from + 1)
    }
}

/// Index just past the last non-whitespace character before `until`, not
/// going below `lo`.
pub open spec fn last_non_space(s: Seq<char>, until: int, lo: int) -> int
    decreases until - lo,
{
    if until <= lo {
        lo
    } else if !is_space(s[until - 1]) {
        until
    } else {
        last_non_space(s, until - 1, lo)
    }
}

/// `s` with leading and trailing whitespace removed.
pub open spec fn trim_spec(s: Seq<char>) -> Seq<char> {
    let a = first_non_space(s, 0);
    let b = last_non_space(s, s.len() as int, a);
    s.subrange(a, b)
}

/// Removes leading and trailing whitespace.
pub fn trim(s: &str) -> (r: String)
    ensures
        r@ == trim_spec(s@),
{
    let len = s.unicode_len();
    let mut a: usize = 0;
    loop
        invariant
            len == s@.len(),
            0 <= a <= len,
            first_non_space(s@, 0) == first_non_space(s@, a as int),
        ensures
            0 <= a <= len,
            first_non_space(s@, 0) == a as int,
        decreases len - a,
    {
        if a >= len {
            break;
        }
        if !char_is_space(s.get_char(a)) {
            break;
        }
        a = a + 1;
    }
    let mut b: usize = len;
    loop
        invariant
            len == s@.len(),
            a <= b <= len,
            last_non_space(s@, len as int, a as int) == last_non_space(s@, b as int, a as int),
        ensures
            a <= b <= len,
            last_non_space(s@, len as int, a as int) == b as int,
        decreases b,
    {
        if b <= a {
            break;
        }
        if !char_is_space(s.get_char(b - 1)) {
            break;
        }
        b = b - 1;
    }
    let r = String::from_str(s.substring_char(a, b));
    proof {
        assert(r@ =~= trim_spec(s@));
    }
    r
}

/// Index of the first occurrence of `c` at or after `from`, if any.
pub open spec fn find_char_from(s: Seq<char>, from: int, c: char) -> Option<int>
    decreases s.len() - from,
{
    if from < 0 || from >= s.len() {
        None
    } else if s[from] == c {
        Some(from)
    } else {
        find_char_from(s, from + 1, c)
    }
}

pub proof fn lemma_find_char_bounds(s: Seq<char>, from: int, c: char, k: int)
    requires
        find_char_from(s, from, c) == Some(k),
    ensures
        from <= k,
        k < s.len(),
        s[k] == c,
        forall|m: int| from <= m < k ==> s[m] != c,
    decreases s.len() - from,
{
    if from < 0 || from >= s.len() {
    } else if s[from] == c {
    } else {
        lemma_find_char_bounds(s, from + 1, c, k);
    }
}

/// Exact mirror of `find_char_from` on a string slice.
pub fn find_char(s: &str, from: usize, c: char) -> (r: Option<usize>)
    requires
        from <= s@.len(),
    ensures
        match r {
            Some(k) => find_char_from(s@, from as int, c) == Some(k as int),
            None => find_char_from(s@, from as int, c) is None,
        },
{
    let len = s.unicode_len();
    let mut i = from;
    while i < len
        invariant
            from <= i <= len,
            len == s@.len(),
            find_char_from(s@, from as int, c) == find_char_from(s@, i as int, c),
        decreases len - i,
    {
        if s.get_char(i) == c {
            return Some(i);
        }
        i = i + 1;
    }
    None
}

} // verus!
