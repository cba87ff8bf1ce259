//! Method selectors at the head of calldata, and their replacement.
use vstd::prelude::*;
use crate::ascii::region_eq;
use crate::config::{NEW_METHOD_ID, OLD_METHOD_ID};

verus! {

/// `input` is at least four bytes long and begins with `selector`.
pub open spec fn starts_with_selector(input: Seq<u8>, selector: Seq<u8>) -> bool {
    &&& selector.len() == 4
    &&& input.len() >= 4
    &&& input.take(4) == selector
}

/// `input` with its first four bytes replaced by `selector`.
pub open spec fn replace_selector(input: Seq<u8>, selector: Seq<u8>) -> Seq<u8> {
    selector + input.skip(4)
}

/// Whether `input` begins with the watched selector `OLD_METHOD_ID`.
pub fn calls_old_method(input: &[u8]) -> (r: bool)
    ensures
        r == starts_with_selector(input@, OLD_METHOD_ID@),
{
    if input.len() < 4 {
        return false;
    }
    let r = region_eq(input, 0, OLD_METHOD_ID.as_slice());
    assert(input@.take(4) == input@.subrange(0, 4));
    r
}

/// `NEW_METHOD_ID` followed by `input[4..]`.
pub fn with_new_selector(input: &[u8]) -> (r: Vec<u8>)
    requires
        input@.len() >= 4,
    ensures
        r@ == replace_selector(input@, NEW_METHOD_ID@),
{
    let mut out: Vec<u8> = Vec::new();
    let mut k: usize = 0;
    while k < 4
        invariant
            k <= 4,
            out@ == NEW_METHOD_ID@.take(k as int),
        decreases 4 - k,
    {
        out.push(NEW_METHOD_ID[k]);
        k = k + 1;
        assert(out@ =~= NEW_METHOD_ID@.take(k as int));
    }
    let n = input.len();
    let mut i: usize = 4;
    while i < n
        invariant
            n == input@.len(),
            4 <= i <= n,
            out@ == NEW_METHOD_ID@ + input@.subrange(4, i as int),
        decreases n - i,
    {
        out.push(input[i]);
        i = i + 1;
        assert(out@ =~= NEW_METHOD_ID@ + input@.subrange(4, i as int));
    }
    assert(input@.subrange(4, n as int) =~= input@.skip(4));
    out
}

/// The replacement keeps the length and the arguments, begins with
/// `NEW_METHOD_ID`, and so no longer calls the watched method.
pub proof fn lemma_replacement_shape(input: Seq<u8>)
    requires
        input.len() >= 4,
    ensures
        replace_selector(input, NEW_METHOD_ID@).len() == input.len(),
        replace_selector(input, NEW_METHOD_ID@).skip(4) == input.skip(4),
        starts_with_selector(replace_selector(input, NEW_METHOD_ID@), NEW_METHOD_ID@),
        !starts_with_selector(replace_selector(input, NEW_METHOD_ID@), OLD_METHOD_ID@),
{
    let r = replace_selector(input, NEW_METHOD_ID@);
    assert(r.skip(4) =~= input.skip(4));
    assert(r.take(4) =~= NEW_METHOD_ID@);
    assert(r.take(4)[0] != OLD_METHOD_ID@[0]);
}

/// Replacing the selector twice gives what replacing it once gives.
pub proof fn lemma_replacement_idempotent(input: Seq<u8>)
    requires
        input.len() >= 4,
    ensures
        replace_selector(replace_selector(input, NEW_METHOD_ID@), NEW_METHOD_ID@)
            == replace_selector(input, NEW_METHOD_ID@),
{
    let r = replace_selector(input, NEW_METHOD_ID@);
    assert(r.skip(4) =~= input.skip(4));
    assert(replace_selector(r, NEW_METHOD_ID@) =~= r);
}

} // verus!
