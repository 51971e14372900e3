//! Verified helpers over strings viewed as sequences of characters:
//! prefix tests, equality, substring search, locating the last occurrence
//! of a character, extension extraction and extension replacement.

use vstd::prelude::*;
use vstd::string::StrSliceExecFns;
use vstd::string::StringExecFns;

verus! {

/// True iff `prefix` is a prefix of `s`.
pub open spec fn spec_starts_with(s: Seq<char>, prefix: Seq<char>) -> bool {
    prefix.len() <= s.len() && s.subrange(0, prefix.len() as int) == prefix
}

/// True iff `s` ends with the character `c`.
pub open spec fn spec_ends_with(s: Seq<char>, c: char) -> bool {
    s.len() > 0 && s[s.len() - 1] == c
}

/// True iff `needle` occurs in `hay` as a contiguous substring.
pub open spec fn spec_contains(hay: Seq<char>, needle: Seq<char>) -> bool {
    exists|i: int|
        0 <= i && i + needle.len() <= hay.len() && #[trigger] hay.subrange(i, i + needle.len())
            == needle
}

/// Index of the last occurrence of `c` in `s`, or `-1` if `c` does not occur.
pub open spec fn spec_last_index_of(s: Seq<char>, c: char) -> int
    decreases s.len(),
{
    if s.len() == 0 {
        -1
    } else if s[s.len() - 1] == c {
        s.len() - 1
    } else {
        spec_last_index_of(s.drop_last(), c)
    }
}

/// `spec_last_index_of` is the largest index holding `c`, or `-1` if none does.
pub proof fn lemma_last_index_of(s: Seq<char>, c: char)
    ensures
        -1 <= spec_last_index_of(s, c) < s.len(),
        spec_last_index_of(s, c) >= 0 ==> s[spec_last_index_of(s, c)] == c,
        forall|j: int| spec_last_index_of(s, c) < j < s.len() ==> s[j] != c,
        forall|j: int| 0 <= j < s.len() && s[j] == c ==> j <= spec_last_index_of(s, c),
    decreases s.len(),
{
    if s.len() > 0 && s[s.len() - 1] != c {
        lemma_last_index_of(s.drop_last(), c);
        assert(forall|j: int| 0 <= j < s.len() - 1 ==> s.drop_last()[j] == s[j]);
    }
}

/// The extension of a file name: everything after the last `.`, or the whole
/// name if it holds no `.` (so a dotless name is its own extension).
pub open spec fn spec_ext_of(name: Seq<char>) -> Seq<char> {
    name.subrange(spec_last_index_of(name, '.') + 1, name.len() as int)
}

/// The stem kept by extension replacement: everything before the last `.`,
/// except that a name whose only `.` is its first character, or which has no
/// `.` at all, is kept whole.
pub open spec fn spec_stem_of(name: Seq<char>) -> Seq<char> {
    if spec_last_index_of(name, '.') >= 1 {
        name.subrange(0, spec_last_index_of(name, '.'))
    } else {
        name
    }
}

/// The sibling file name obtained by substituting extension `ext`.
pub open spec fn spec_with_ext(name: Seq<char>, ext: Seq<char>) -> Seq<char> {
    if ext.len() == 0 {
        spec_stem_of(name)
    } else {
        spec_stem_of(name) + seq!['.'] + ext
    }
}

/// ASCII-lowercased code point: uppercase ASCII letters map to their
/// lowercase counterpart, every other code point is unchanged.
pub open spec fn spec_ascii_lower(u: u32) -> u32 {
    if 65 <= u && u <= 90 {
        (u + 32) as u32
    } else {
        u
    }
}

/// True iff the ASCII-lowercasing of `a` is exactly `b`.
pub open spec fn spec_lower_eq(a: Seq<char>, b: Seq<char>) -> bool {
    a.len() == b.len() && forall|i: int|
        0 <= i < a.len() ==> spec_ascii_lower(#[trigger] a[i] as u32) == b[i] as u32
}

/// Character-wise equality of two string slices.
pub fn str_eq(a: &str, b: &str) -> (r: bool)
    ensures
        r == (a@ == b@),
{
    let alen = a.unicode_len();
    if alen != b.unicode_len() {
        return false;
    }
    let mut i: usize = 0;
    while i < alen
        invariant
            i <= alen,
            alen == a@.len(),
            alen == b@.len(),
            forall|j: int| 0 <= j < i ==> a@[j] == b@[j],
        decreases alen - i,
    {
        if a.get_char(i) != b.get_char(i) {
            return false;
        }
        i += 1;
    }
    proof {
        assert(a@ =~= b@);
    }
    true
}

/// True iff `prefix` is a prefix of `s`.
pub fn str_starts_with(s: &str, prefix: &str) -> (r: bool)
    ensures
        r == spec_starts_with(s@, prefix@),
{
    let n = prefix.unicode_len();
    if n > s.unicode_len() {
        return false;
    }
    let mut i: usize = 0;
    while i < n
        invariant
            i <= n,
            n == prefix@.len(),
            n <= s@.len(),
            forall|j: int| 0 <= j < i ==> s@[j] == prefix@[j],
        decreases n - i,
    {
        if s.get_char(i) != prefix.get_char(i) {
            assert(s@.subrange(0, n as int)[i as int] != prefix@[i as int]);
            return false;
        }
        i += 1;
    }
    proof {
        assert(s@.subrange(0, n as int) =~= prefix@);
    }
    true
}

/// True iff `s` ends with the character `c`.
pub fn str_ends_with(s: &str, c: char) -> (r: bool)
    ensures
        r == spec_ends_with(s@, c),
{
    let n = s.unicode_len();
    if n == 0 {
        false
    } else {
        s.get_char(n - 1) == c
    }
}

/// Index of the last occurrence of `c` in `s`, or `None` if `c` does not occur.
pub fn str_last_index_of(s: &str, c: char) -> (r: Option<usize>)
    ensures
        match r {
            Some(i) => i == spec_last_index_of(s@, c) && i < s@.len(),
            None => spec_last_index_of(s@, c) == -1,
        },
{
    let mut i: usize = s.unicode_len();
    while i > 0
        invariant
            i <= s@.len(),
            forall|j: int| i <= j < s@.len() ==> s@[j] != c,
        decreases i,
    {
        i = i - 1;
        if s.get_char(i) == c {
            proof {
                lemma_last_index_of(s@, c);
            }
            return Some(i);
        }
    }
    proof {
        lemma_last_index_of(s@, c);
    }
    None
}

/// The extension of `name`: the slice after the last `.`, or the whole name
/// if it holds no `.`.
pub fn ext_of<'a>(name: &'a str) -> (r: &'a str)
    ensures
        r@ == spec_ext_of(name@),
{
    let n = name.unicode_len();
    match str_last_index_of(name, '.') {
        Some(i) => name.substring_char(i + 1, n),
        None => name.substring_char(0, n),
    }
}

/// The sibling file name of `name` with extension `ext` substituted.
pub fn with_ext(name: &str, ext: &str) -> (r: String)
    ensures
        r@ == spec_with_ext(name@, ext@),
{
    let n = name.unicode_len();
    let stem = match str_last_index_of(name, '.') {
        Some(i) => {
            if i >= 1 {
                name.substring_char(0, i)
            } else {
                name.substring_char(0, n)
            }
        },
        None => name.substring_char(0, n),
    };
    proof {
        assert(name@.subrange(0, n as int) =~= name@);
        assert(stem@ == spec_stem_of(name@));
    }
    if ext.is_empty() {
        proof {
            assert(spec_with_ext(name@, ext@) == spec_stem_of(name@));
        }
        String::from_str(stem)
    } else {
        let r = String::from_str(stem).concat(".").concat(ext);
        proof {
            reveal_strlit(".");
            assert(r@ =~= spec_stem_of(name@) + seq!['.'] + ext@);
        }
        r
    }
}

/// True iff the ASCII-lowercasing of `a` is exactly `b`.
pub fn str_lower_eq(a: &str, b: &str) -> (r: bool)
    ensures
        r == spec_lower_eq(a@, b@),
{
    let alen = a.unicode_len();
    if alen != b.unicode_len() {
        return false;
    }
    let mut i: usize = 0;
    while i < alen
        invariant
            i <= alen,
            alen == a@.len(),
            alen == b@.len(),
            forall|j: int| 0 <= j < i ==> spec_ascii_lower(#[trigger] a@[j] as u32) == b@[j] as u32,
        decreases alen - i,
    {
        let ua = a.get_char(i) as u32;
        let ub = b.get_char(i) as u32;
        let la = if 65 <= ua && ua <= 90 {
            ua + 32
        } else {
            ua
        };
        if la != ub {
            return false;
        }
        i += 1;
    }
    true
}

/// True iff `needle` occurs in `hay` as a contiguous substring.
pub fn str_contains(hay: &str, needle: &str) -> (r: bool)
    ensures
        r == spec_contains(hay@, needle@),
{
    let hlen = hay.unicode_len();
    let nlen = needle.unicode_len();
    if nlen > hlen {
        assert(!spec_contains(hay@, needle@));
        return false;
    }
    if nlen == 0 {
        proof {
            assert(hay@.subrange(0, 0 + needle@.len() as int) =~= needle@);
        }
        return true;
    }
    let end = hlen - nlen;
    let mut i: usize = 0;
    while i <= end
        invariant
            1 <= nlen <= hlen,
            hlen == hay@.len(),
            nlen == needle@.len(),
            end == hlen - nlen,
            i <= end + 1,
            forall|p: int|
                0 <= p < i ==> #[trigger] hay@.subrange(p, p + needle@.len() as int) != needle@,
        decreases end + 1 - i,
    {
        if match_at(hay, needle, i) {
            return true;
        }
        i += 1;
    }
    false
}

/// True iff some element of `v` views to `s`'s characters.
pub fn vec_contains_str(v: &Vec<String>, s: &str) -> (r: bool)
    ensures
        r == v.deep_view().contains(s@),
{
    let mut i: usize = 0;
    while i < v.len()
        invariant
            i <= v@.len(),
            forall|j: int| 0 <= j < i ==> v.deep_view()[j] != s@,
        decreases v@.len() - i,
    {
        if str_eq(v[i].as_str(), s) {
            assert(v.deep_view()[i as int] == s@);
            return true;
        }
        i += 1;
    }
    false
}

/// Copies a list of name strings.
pub fn clone_string_vec(v: &Vec<String>) -> (r: Vec<String>)
    ensures
        r.deep_view() == v.deep_view(),
{
    let mut r: Vec<String> = Vec::new();
    let mut i: usize = 0;
    while i < v.len()
        invariant
            i <= v@.len(),
            r@.len() == i,
            forall|j: int| 0 <= j < i ==> r.deep_view()[j] == v.deep_view()[j],
        decreases v@.len() - i,
    {
        r.push(v[i].clone());
        i += 1;
    }
    proof {
        assert(r.deep_view() =~= v.deep_view());
    }
    r
}

/// True iff `needle` matches `hay` starting at character position `at`.
fn match_at(hay: &str, needle: &str, at: usize) -> (r: bool)
    requires
        at + needle@.len() <= hay@.len(),
    ensures
        r == (hay@.subrange(at as int, at + needle@.len() as int) == needle@),
{
    let hlen = hay.unicode_len();
    let nlen = needle.unicode_len();
    let mut j: usize = 0;
    while j < nlen
        invariant
            j <= nlen,
            nlen == needle@.len(),
            hlen == hay@.len(),
            at + nlen <= hay@.len(),
            forall|k: int| 0 <= k < j ==> hay@[at + k] == needle@[k],
        decreases nlen - j,
    {
        if hay.get_char(at + j) != needle.get_char(j) {
            assert(hay@.subrange(at as int, at + needle@.len() as int)[j as int] != needle@[j as int]);
            return false;
        }
        j += 1;
    }
    proof {
        assert(hay@.subrange(at as int, at + needle@.len() as int) =~= needle@);
    }
    true
}

} // verus!
