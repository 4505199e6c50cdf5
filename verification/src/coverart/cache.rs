//! Where cached cover art lives.
use vstd::prelude::*;

verus! {

/// The cache directory for a base path: the base itself.
pub fn get_cache_dir(base: &str) -> (r: String)
    ensures
        r@ == base@,
{
    String::from_str(base)
}

} // verus!
