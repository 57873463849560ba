//! Character-level text utilities: conversions between `String` and
//! `Vec<char>`, substring search, and the lexicographic order used to state
//! in which order rows come back from the store.

use vstd::prelude::*;
use vstd::string::*;

verus! {

/// `needle` occurs in `hay` starting at position `i`.
pub open spec fn occurs_at(hay: Seq<char>, needle: Seq<char>, i: int) -> bool {
    0 <= i && i + needle.len() <= hay.len() && hay.subrange(i, i + needle.len() as int)
        == needle
}

/// `needle` occurs somewhere in `hay` as a contiguous run of characters.
pub open spec fn contains_sub(hay: Seq<char>, needle: Seq<char>) -> bool {
    exists|i: int| occurs_at(hay, needle, i)
}

/// Strict lexicographic order on character sequences by code point; this is
/// also the byte order SQLite uses on UTF-8 text columns, since UTF-8
/// preserves code-point order.
pub open spec fn lex_lt(a: Seq<char>, b: Seq<char>) -> bool
    decreases a.len(),
{
    if b.len() == 0 {
        false
    } else if a.len() == 0 {
        true
    } else if a[0] != b[0] {
        (a[0] as u32) < (b[0] as u32)
    } else {
        lex_lt(a.skip(1), b.skip(1))
    }
}

/// Weak lexicographic order: `a` comes no later than `b`.
pub open spec fn lex_leq(a: Seq<char>, b: Seq<char>) -> bool {
    lex_lt(a, b) || a == b
}

/// The characters of `s`, as a vector.
pub fn to_char_vec(s: &str) -> (v: Vec<char>)
    ensures
        v@ == s@,
{
    let n = s.unicode_len();
    let mut v: Vec<char> = Vec::new();
    let mut i: usize = 0;
    while i < n
        invariant
            n == s@.len(),
            i <= n,
            v@ == s@.subrange(0, i as int),
        decreases n - i,
    {
        v.push(s.get_char(i));
        i = i + 1;
        proof {
            assert(v@ =~= s@.subrange(0, i as int));
        }
    }
    proof {
        assert(v@ =~= s@);
    }
    v
}

/// Relies on `String: FromIterator<char>` of std: collecting the characters
/// of a vector yields the string with exactly those characters.
#[verifier::external_body]
pub fn chars_to_string(v: &Vec<char>) -> (s: String)
    ensures
        s@ == v@,
{
    v.iter().collect()
}

/// Does `hay[i..]` start with `needle`?
fn starts_with_at(hay: &Vec<char>, needle: &Vec<char>, i: usize) -> (b: bool)
    requires
        i + needle@.len() <= hay@.len(),
    ensures
        b == (hay@.subrange(i as int, i as int + needle@.len() as int) == needle@),
{
    let hlen = hay.len();
    let n = needle.len();
    let mut j: usize = 0;
    while j < n
        invariant
            hlen == hay@.len(),
            n == needle@.len(),
            i + n <= hay@.len(),
            j <= n,
            forall|k: int| 0 <= k < j ==> hay@[i + k] == needle@[k],
        decreases n - j,
    {
        if hay[i + j] != needle[j] {
            proof {
                assert(hay@.subrange(i as int, i as int + needle@.len() as int)[j as int]
                    == hay@[i + j]);
            }
            return false;
        }
        j = j + 1;
    }
    proof {
        assert(hay@.subrange(i as int, i as int + needle@.len() as int) =~= needle@);
    }
    true
}

/// Case-sensitive substring test over character vectors.
pub fn chars_contain(hay: &Vec<char>, needle: &Vec<char>) -> (b: bool)
    ensures
        b == contains_sub(hay@, needle@),
{
    let h = hay.len();
    let n = needle.len();
    if n > h {
        proof {
            assert(forall|i: int| !occurs_at(hay@, needle@, i));
        }
        return false;
    }
    if n == 0 {
        proof {
            assert(hay@.subrange(0, 0) =~= needle@);
            assert(occurs_at(hay@, needle@, 0));
        }
        return true;
    }
    let mut i: usize = 0;
    while i <= h - n
        invariant
            h == hay@.len(),
            n == needle@.len(),
            1 <= n <= h,
            i <= h - n + 1,
            forall|k: int| 0 <= k < i ==> !occurs_at(hay@, needle@, k),
        decreases h - n - i + 1,
    {
        if starts_with_at(hay, needle, i) {
            proof {
                assert(occurs_at(hay@, needle@, i as int));
            }
            return true;
        }
        i = i + 1;
    }
    proof {
        assert(forall|k: int| occurs_at(hay@, needle@, k) ==> 0 <= k <= h - n);
    }
    false
}

/// Case-sensitive substring test on strings.
pub fn str_contains_sub(hay: &str, needle: &str) -> (b: bool)
    ensures
        b == contains_sub(hay@, needle@),
{
    let h = to_char_vec(hay);
    let n = to_char_vec(needle);
    chars_contain(&h, &n)
}

/// Character-for-character equality of two strings.
pub fn str_eq(a: &str, b: &str) -> (r: bool)
    ensures
        r == (a@ == b@),
{
    let na = a.unicode_len();
    let nb = b.unicode_len();
    if na != nb {
        return false;
    }
    let mut i: usize = 0;
    while i < na
        invariant
            na == a@.len(),
            na == b@.len(),
            i <= na,
            forall|k: int| 0 <= k < i ==> a@[k] == b@[k],
        decreases na - i,
    {
        if a.get_char(i) != b.get_char(i) {
            return false;
        }
        i = i + 1;
    }
    proof {
        assert(a@ =~= b@);
    }
    true
}

} // verus!
