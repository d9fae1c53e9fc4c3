//! Ordering and searching over strings, specified over their `Seq<char>` views.
//!
//! Creation ordinals and snapshot identities are opaque strings; the engine
//! orders timeline keys by plain lexicographic comparison of the character
//! sequences and recognizes diagnostic messages by substring search.

use vstd::prelude::*;

verus! {

/// Outcome of a three-way comparison.
#[derive(Debug, PartialEq, Eq, Structural, Clone, Copy)]
pub enum Comparison {
    Less,
    Equal,
    Greater,
}

/// Strict lexicographic order on character sequences: `a` comes before `b`
/// when, at the first position where they differ, `a` holds the smaller
/// character, or when `a` is a proper prefix of `b`.
pub open spec fn lex_lt(a: Seq<char>, b: Seq<char>) -> bool
    decreases a.len(),
{
    if b.len() == 0 {
        false
    } else if a.len() == 0 {
        true
    } else if (a[0] as int) < (b[0] as int) {
        true
    } else if (a[0] as int) > (b[0] as int) {
        false
    } else {
        lex_lt(a.drop_first(), b.drop_first())
    }
}

/// Non-strict lexicographic order.
pub open spec fn lex_le(a: Seq<char>, b: Seq<char>) -> bool {
    lex_lt(a, b) || a == b
}

/// Lexicographic order is transitive.
pub proof fn lemma_lex_lt_trans(a: Seq<char>, b: Seq<char>, c: Seq<char>)
    requires
        lex_lt(a, b),
        lex_lt(b, c),
    ensures
        lex_lt(a, c),
    decreases a.len(),
{
    if a.len() == 0 {
    } else if b.len() == 0 {
    } else if c.len() == 0 {
    } else {
        if a[0] as int == b[0] as int && b[0] as int == c[0] as int {
            assert(a[0] == b[0] && b[0] == c[0]);
            lemma_lex_lt_trans(a.drop_first(), b.drop_first(), c.drop_first());
        }
    }
}

/// Lexicographic order is irreflexive.
pub proof fn lemma_lex_lt_irrefl(a: Seq<char>)
    ensures
        !lex_lt(a, a),
    decreases a.len(),
{
    if a.len() > 0 {
        lemma_lex_lt_irrefl(a.drop_first());
    }
}

/// Compares the character sequences of `a` and `b` from position `i` on.
fn compare_from(a: &str, b: &str, i: usize) -> (r: Comparison)
    requires
        i <= a@.len(),
        i <= b@.len(),
    ensures
        (r == Comparison::Less) == lex_lt(a@.skip(i as int), b@.skip(i as int)),
        (r == Comparison::Equal) == (a@.skip(i as int) == b@.skip(i as int)),
        (r == Comparison::Greater) == lex_lt(b@.skip(i as int), a@.skip(i as int)),
    decreases a@.len() - i,
{
    let a_len = a.unicode_len();
    let b_len = b.unicode_len();
    if i == a_len && i == b_len {
        assert(a@.skip(i as int) =~= b@.skip(i as int));
        Comparison::Equal
    } else if i == a_len {
        assert(a@.skip(i as int).len() == 0 && b@.skip(i as int).len() > 0);
        assert(a@.skip(i as int) != b@.skip(i as int));
        Comparison::Less
    } else if i == b_len {
        assert(b@.skip(i as int).len() == 0 && a@.skip(i as int).len() > 0);
        assert(a@.skip(i as int) != b@.skip(i as int));
        Comparison::Greater
    } else {
        let ca = a.get_char(i);
        let cb = b.get_char(i);
        assert(a@.skip(i as int)[0] == a@[i as int]);
        assert(b@.skip(i as int)[0] == b@[i as int]);
        if (ca as u32) < (cb as u32) {
            assert(a@.skip(i as int) != b@.skip(i as int));
            Comparison::Less
        } else if (ca as u32) > (cb as u32) {
            assert(a@.skip(i as int) != b@.skip(i as int));
            Comparison::Greater
        } else {
            let r = compare_from(a, b, i + 1);
            proof {
                assert(a@.skip(i as int).drop_first() =~= a@.skip(i + 1));
                assert(b@.skip(i as int).drop_first() =~= b@.skip(i + 1));
                assert(ca == cb);
                assert(a@.skip(i as int) =~= seq![a@[i as int]] + a@.skip(i + 1));
                assert(b@.skip(i as int) =~= seq![b@[i as int]] + b@.skip(i + 1));
                if a@.skip(i + 1) == b@.skip(i + 1) {
                    assert(a@.skip(i as int) == b@.skip(i as int));
                }
            }
            r
        }
    }
}

/// Three-way lexicographic comparison of two strings by their characters.
pub fn str_compare(a: &str, b: &str) -> (r: Comparison)
    ensures
        (r == Comparison::Less) == lex_lt(a@, b@),
        (r == Comparison::Equal) == (a@ == b@),
        (r == Comparison::Greater) == lex_lt(b@, a@),
{
    proof {
        assert(a@.skip(0) =~= a@);
        assert(b@.skip(0) =~= b@);
    }
    compare_from(a, b, 0)
}

/// Whether the two strings hold the same characters.
pub fn str_eq(a: &str, b: &str) -> (r: bool)
    ensures
        r == (a@ == b@),
{
    matches!(str_compare(a, b), Comparison::Equal)
}

/// `needle` occurs contiguously somewhere in `hay`.
pub open spec fn has_substring(hay: Seq<char>, needle: Seq<char>) -> bool {
    exists|k: int|
        0 <= k <= hay.len() - needle.len() && #[trigger] hay.subrange(k, k + needle.len())
            == needle
}

/// Whether `needle` occurs in `hay` starting exactly at position `k`.
fn matches_at(hay: &str, needle: &str, k: usize) -> (r: bool)
    requires
        k + needle@.len() <= hay@.len(),
    ensures
        r == (hay@.subrange(k as int, k + needle@.len()) == needle@),
{
    let h = hay.unicode_len();
    let n = needle.unicode_len();
    let mut j: usize = 0;
    while j < n
        invariant
            j <= n,
            h == hay@.len(),
            n == needle@.len(),
            k + n <= h,
            forall|jj: int| 0 <= jj < j ==> hay@[k + jj] == needle@[jj],
        decreases n - j,
    {
        let hc = hay.get_char(k + j);
        let nc = needle.get_char(j);
        if (hc as u32) != (nc as u32) {
            assert(hay@.subrange(k as int, k + needle@.len())[j as int] == hay@[k + j]);
            assert(hay@[k + j] != needle@[j as int]);
            return false;
        }
        j = j + 1;
    }
    assert(hay@.subrange(k as int, k + needle@.len()) =~= needle@);
    true
}

/// Whether `needle` occurs contiguously anywhere in `hay`.
pub fn contains_str(hay: &str, needle: &str) -> (r: bool)
    ensures
        r == has_substring(hay@, needle@),
{
    let h = hay.unicode_len();
    let n = needle.unicode_len();
    if n > h {
        assert(!has_substring(hay@, needle@));
        return false;
    }
    if n == 0 {
        assert(hay@.subrange(0, 0 + needle@.len() as int) =~= needle@);
        assert(has_substring(hay@, needle@));
        return true;
    }
    let last = h - n;
    let mut k: usize = 0;
    while k <= last
        invariant
            k <= last + 1,
            last == h - n,
            1 <= n <= h,
            h == hay@.len(),
            n == needle@.len(),
            forall|kk: int|
                0 <= kk < k ==> #[trigger] hay@.subrange(kk, kk + needle@.len()) != needle@,
        decreases last + 1 - k,
    {
        if matches_at(hay, needle, k) {
            assert(has_substring(hay@, needle@));
            return true;
        }
        k = k + 1;
    }
    assert(!has_substring(hay@, needle@));
    false
}

/// `prefix` is an initial segment of `s`.
pub open spec fn has_prefix(s: Seq<char>, prefix: Seq<char>) -> bool {
    prefix.len() <= s.len() && s.subrange(0, prefix.len() as int) == prefix
}

/// Whether `s` starts with `prefix`.
pub fn starts_with_str(s: &str, prefix: &str) -> (r: bool)
    ensures
        r == has_prefix(s@, prefix@),
{
    let n = prefix.unicode_len();
    if n > s.unicode_len() {
        return false;
    }
    matches_at(s, prefix, 0)
}

} // verus!
