//! Byte-wise comparisons: exact, and ASCII case-insensitive.
use vstd::prelude::*;

verus! {

/// `u8::to_ascii_lowercase`: `A`..`Z` become `a`..`z`, all else stays.
pub open spec fn ascii_lower(b: u8) -> u8 {
    if 65 <= b <= 90 {
        (b + 32) as u8
    } else {
        b
    }
}

/// `eq_ignore_ascii_case` on byte strings: same length and the same bytes
/// once ASCII letters are lowercased.
pub open spec fn eq_ignore_ascii_case(a: Seq<u8>, b: Seq<u8>) -> bool {
    &&& a.len() == b.len()
    &&& forall|i: int| 0 <= i < a.len() ==> ascii_lower(#[trigger] a[i]) == ascii_lower(b[i])
}

fn to_ascii_lower(b: u8) -> (r: u8)
    ensures
        r == ascii_lower(b),
{
    if 65 <= b && b <= 90 {
        b + 32
    } else {
        b
    }
}

/// Whether `a[start..start + b.len()]` matches `b`, ignoring ASCII case.
pub fn region_eq_ignore_ascii_case(a: &[u8], start: usize, b: &[u8]) -> (r: bool)
    requires
        start + b@.len() <= a@.len(),
    ensures
        r == eq_ignore_ascii_case(a@.subrange(start as int, start + b@.len()), b@),
{
    let n = b.len();
    let alen = a.len();
    let mut i: usize = 0;
    while i < n
        invariant
            n == b@.len(),
            alen == a@.len(),
            start + n <= a@.len(),
            i <= n,
            forall|j: int| 0 <= j < i ==> ascii_lower(a@[start + j]) == ascii_lower(b@[j]),
        decreases n - i,
    {
        if to_ascii_lower(a[start + i]) != to_ascii_lower(b[i]) {
            assert(a@.subrange(start as int, start + n)[i as int] == a@[start + i]);
            return false;
        }
        i = i + 1;
    }
    let ghost sub = a@.subrange(start as int, start + n);
    assert forall|j: int| 0 <= j < sub.len() implies ascii_lower(#[trigger] sub[j]) == ascii_lower(
        b@[j],
    ) by {
        assert(sub[j] == a@[start + j]);
    }
    true
}

/// `<[u8]>::eq_ignore_ascii_case`.
pub fn bytes_eq_ignore_ascii_case(a: &[u8], b: &[u8]) -> (r: bool)
    ensures
        r == eq_ignore_ascii_case(a@, b@),
{
    if a.len() != b.len() {
        return false;
    }
    assert(a@.subrange(0, b@.len() as int) =~= a@);
    region_eq_ignore_ascii_case(a, 0, b)
}

/// Whether `a[start..start + b.len()]` equals `b` byte for byte.
pub fn region_eq(a: &[u8], start: usize, b: &[u8]) -> (r: bool)
    requires
        start + b@.len() <= a@.len(),
    ensures
        r == (a@.subrange(start as int, start + b@.len()) == b@),
{
    let n = b.len();
    let alen = a.len();
    let mut i: usize = 0;
    while i < n
        invariant
            n == b@.len(),
            alen == a@.len(),
            start + n <= a@.len(),
            i <= n,
            forall|j: int| 0 <= j < i ==> a@[start + j] == b@[j],
        decreases n - i,
    {
        if a[start + i] != b[i] {
            assert(a@.subrange(start as int, start + n)[i as int] == a@[start + i]);
            return false;
        }
        i = i + 1;
    }
    assert(a@.subrange(start as int, start + n) =~= b@);
    true
}

/// Byte-for-byte equality.
pub fn bytes_eq(a: &[u8], b: &[u8]) -> (r: bool)
    ensures
        r == (a@ == b@),
{
    if a.len() != b.len() {
        return false;
    }
    assert(a@.subrange(0, b@.len() as int) =~= a@);
    region_eq(a, 0, b)
}

} // verus!
