//! Recognized-text matching.
//!
//! Text recognition yields a string per frame; a profile matches when any
//! of its patterns occurs as a substring of the lower-cased text. The
//! patterns are ASCII, so matching works on bytes, with ASCII lower-casing.

use vstd::prelude::*;

verus! {

/// ASCII lower-casing of one byte.
pub open spec fn lower_byte(b: u8) -> u8 {
    if 65 <= b <= 90 {
        (b + 32) as u8
    } else {
        b
    }
}

/// ASCII lower-casing of a byte string.
pub open spec fn lower_seq(s: Seq<u8>) -> Seq<u8> {
    s.map_values(|b: u8| lower_byte(b))
}

/// Lower-cases ASCII letters of a byte string.
pub fn to_lower_bytes(text: &Vec<u8>) -> (r: Vec<u8>)
    ensures
        r@ == lower_seq(text@),
{
    let mut r: Vec<u8> = Vec::new();
    let mut i: usize = 0;
    while i < text.len()
        invariant
            i <= text@.len(),
            r@.len() == i,
            forall|j: int| 0 <= j < i ==> #[trigger] r@[j] == lower_byte(text@[j]),
        decreases text@.len() - i,
    {
        let b = text[i];
        if 65 <= b && b <= 90 {
            r.push(b + 32);
        } else {
            r.push(b);
        }
        i += 1;
    }
    proof {
        assert(r@ =~= lower_seq(text@));
    }
    r
}

/// `pat` occurs in `text` starting at offset `i`.
pub open spec fn match_at(text: Seq<u8>, pat: Seq<u8>, i: int) -> bool {
    forall|k: int| 0 <= k < pat.len() ==> text[i + k] == #[trigger] pat[k]
}

/// `pat` occurs somewhere in `text` (an empty pattern always occurs).
pub open spec fn contains_sub(text: Seq<u8>, pat: Seq<u8>) -> bool {
    exists|i: int| 0 <= i <= text.len() - pat.len() && match_at(text, pat, i)
}

/// Whether `pat` occurs as a substring of `text`.
pub fn find_sub(text: &Vec<u8>, pat: &Vec<u8>) -> (r: bool)
    ensures
        r == contains_sub(text@, pat@),
{
    if pat.len() > text.len() {
        return false;
    }
    if pat.len() == 0 {
        proof {
            assert(match_at(text@, pat@, 0));
        }
        return true;
    }
    let last = text.len() - pat.len();
    let mut i: usize = 0;
    while i <= last
        invariant
            i <= last + 1,
            last == text@.len() - pat@.len(),
            1 <= pat@.len() <= text@.len(),
            text@.len() <= usize::MAX,
            forall|m: int| 0 <= m < i ==> !match_at(text@, pat@, m),
        decreases last - i + 1,
    {
        let mut j: usize = 0;
        let mut ok = true;
        while j < pat.len()
            invariant
                j <= pat@.len(),
                i + pat@.len() <= text@.len(),
                text@.len() <= usize::MAX,
                ok ==> forall|k: int| 0 <= k < j ==> text@[i + k] == #[trigger] pat@[k],
                !ok ==> !match_at(text@, pat@, i as int),
            decreases pat@.len() - j,
        {
            if text[i + j] != pat[j] {
                proof {
                    assert(text@[i + j] != pat@[j as int]);
                }
                ok = false;
                j = pat.len();
            } else {
                j += 1;
            }
        }
        if ok {
            proof {
                assert(match_at(text@, pat@, i as int));
            }
            return true;
        }
        i += 1;
    }
    proof {
        assert forall|m: int| 0 <= m <= text@.len() - pat@.len() implies !match_at(
            text@,
            pat@,
            m,
        ) by {
            assert(m < i);
        }
    }
    false
}

/// Whether any pattern occurs in the lower-cased text: the match test a
/// text profile runs against every recognition result.
pub fn text_matches(text: &Vec<u8>, patterns: &Vec<Vec<u8>>) -> (r: bool)
    ensures
        r == exists|p: int| 0 <= p < patterns@.len()
            && contains_sub(lower_seq(text@), #[trigger] patterns@[p]@),
{
    let lowered = to_lower_bytes(text);
    let mut p: usize = 0;
    while p < patterns.len()
        invariant
            p <= patterns@.len(),
            lowered@ == lower_seq(text@),
            forall|q: int| 0 <= q < p ==> !contains_sub(lower_seq(text@), #[trigger] patterns@[q]@),
        decreases patterns@.len() - p,
    {
        if find_sub(&lowered, &patterns[p]) {
            proof {
                assert(contains_sub(lower_seq(text@), patterns@[p as int]@));
            }
            return true;
        }
        p += 1;
    }
    false
}

/// Whether two byte strings are equal.
pub fn eq_bytes(a: &Vec<u8>, b: &Vec<u8>) -> (r: bool)
    ensures
        r == (a@ == b@),
{
    if a.len() != b.len() {
        return false;
    }
    let mut i: usize = 0;
    while i < a.len()
        invariant
            i <= a@.len(),
            a@.len() == b@.len(),
            forall|j: int| 0 <= j < i ==> #[trigger] a@[j] == b@[j],
        decreases a@.len() - i,
    {
        if a[i] != b[i] {
            return false;
        }
        i += 1;
    }
    proof {
        assert(a@ =~= b@);
    }
    true
}

/// Whether `needle` is one of the patterns, byte for byte.
pub fn has_pattern(patterns: &Vec<Vec<u8>>, needle: &Vec<u8>) -> (r: bool)
    ensures
        r == exists|p: int| 0 <= p < patterns@.len() && (#[trigger] patterns@[p]@) == needle@,
{
    let mut p: usize = 0;
    while p < patterns.len()
        invariant
            p <= patterns@.len(),
            forall|q: int| 0 <= q < p ==> (#[trigger] patterns@[q]@) != needle@,
        decreases patterns@.len() - p,
    {
        if eq_bytes(&patterns[p], needle) {
            proof {
                assert(patterns@[p as int]@ == needle@);
            }
            return true;
        }
        p += 1;
    }
    false
}

} // verus!
