//! String and path arithmetic used throughout the engine: concatenation,
//! suffix tests for extension filtering, and the deterministic mapping
//! from a source path to its object-file path.

use vstd::prelude::*;

verus! {

/// `suffix` is a suffix of `s`.
pub open spec fn spec_ends_with(s: Seq<char>, suffix: Seq<char>) -> bool {
    s.len() >= suffix.len() && s.subrange(s.len() - suffix.len(), s.len() as int) == suffix
}

/// Concatenation of two strings.
pub fn str_concat(a: &str, b: &str) -> (r: String)
    ensures
        r@ == a@ + b@,
{
    let s = String::from_str(a);
    s.concat(b)
}

/// Suffix test, character by character.
pub fn str_ends_with(s: &str, suffix: &str) -> (r: bool)
    ensures
        r == spec_ends_with(s@, suffix@),
{
    let n = s.unicode_len();
    let m = suffix.unicode_len();
    if m > n {
        return false;
    }
    let mut i: usize = 0;
    while i < m
        invariant
            m <= n,
            n == s@.len(),
            m == suffix@.len(),
            i <= m,
            forall|j: int| 0 <= j < i ==> s@[n - m + j] == suffix@[j],
        decreases m - i,
    {
        if s.get_char(n - m + i) != suffix.get_char(i) {
            assert(s@.subrange(n - m, n as int)[i as int] != suffix@[i as int]);
            return false;
        }
        i += 1;
    }
    assert(s@.subrange(n - m, n as int) =~= suffix@);
    true
}

/// Where the extension of the last path component begins: the index of the
/// final `.` of the last component, provided that dot is neither the first
/// character of the component nor preceded by `/`; otherwise the full
/// length (no extension to strip). `i` is how much of `s` is still to be
/// scanned, right to left.
pub open spec fn spec_ext_cut_from(s: Seq<char>, i: int) -> int
    decreases i,
{
    if i <= 0 {
        s.len() as int
    } else if s[i - 1] == '/' {
        s.len() as int
    } else if s[i - 1] == '.' {
        if i - 2 >= 0 && s[i - 2] != '/' {
            i - 1
        } else {
            s.len() as int
        }
    } else {
        spec_ext_cut_from(s, i - 1)
    }
}

/// `s` with its extension (if any) replaced by `.o`: the stem of the last
/// path component, then `.o`.
pub open spec fn spec_with_object_ext(s: Seq<char>) -> Seq<char> {
    s.subrange(0, spec_ext_cut_from(s, s.len() as int)) + seq!['.', 'o']
}

proof fn lemma_ext_cut_bounds(s: Seq<char>, i: int)
    requires
        0 <= i <= s.len(),
    ensures
        0 <= spec_ext_cut_from(s, i) <= s.len(),
    decreases i,
{
    if i > 0 && s[i - 1] != '/' && s[i - 1] != '.' {
        lemma_ext_cut_bounds(s, i - 1);
    }
}

/// Replace the extension of `s`'s last path component by `.o` (append
/// `.o` when the component has no extension).
pub fn with_object_extension(s: &str) -> (r: String)
    ensures
        r@ == spec_with_object_ext(s@),
{
    let n = s.unicode_len();
    let mut i: usize = n;
    let mut cut: usize = n;
    loop
        invariant_except_break
            cut == n,
        invariant
            i <= n,
            n == s@.len(),
            spec_ext_cut_from(s@, n as int) == spec_ext_cut_from(s@, i as int),
        ensures
            cut as int == spec_ext_cut_from(s@, n as int),
            cut <= n,
        decreases i,
    {
        if i == 0 {
            break;
        }
        let c = s.get_char(i - 1);
        if c == '/' {
            break;
        }
        if c == '.' {
            if i >= 2 && s.get_char(i - 2) != '/' {
                cut = i - 1;
            }
            break;
        }
        i -= 1;
    }
    let stem = s.substring_char(0, cut);
    let r = str_concat(stem, ".o");
    proof {
        reveal_strlit(".o");
        assert(r@ =~= spec_with_object_ext(s@));
    }
    r
}

} // verus!
