//! Structure detection by self-similarity: the frame sizes it works with.
//! The spectral analysis itself is floating-point work done by the
//! application.
use vstd::prelude::*;

verus! {

/// Whether `x` is a power of two.
pub open spec fn is_pow2(x: nat) -> bool
    decreases x,
{
    if x == 1 {
        true
    } else if x == 0 || x % 2 != 0 {
        false
    } else {
        is_pow2(x / 2)
    }
}

/// The smallest power of two that is at least `n` (1 for 0), as
/// `usize::next_power_of_two` gives it.
pub fn next_pow2(n: usize) -> (r: usize)
    requires
        n <= usize::MAX / 2 + 1,
    ensures
        is_pow2(r as nat),
        r >= n,
        r == 1 || r / 2 < n,
{
    let mut p: usize = 1;
    while p < n
        invariant
            n <= usize::MAX / 2 + 1,
            is_pow2(p as nat),
            p >= 1,
            p == 1 || p / 2 < n,
        decreases usize::MAX - p,
    {
        assert((p * 2) as nat / 2 == p as nat);
        assert((p * 2) as nat % 2 == 0);
        p = p * 2;
    }
    p
}

} // verus!
