//! Provider API keys: which provider a key is for, how it is stored, and
//! which providers have one.
use vstd::prelude::*;

use crate::models::book::opt_str;
use crate::text::{chars_of, push_all, str_eq, string_from, trim, trimmed};

verus! {

/// Which provider API keys are configured.
#[derive(Debug, Clone, Copy)]
pub struct ApiKeyStatus {
    pub tmdb_configured: bool,
    pub tvdb_configured: bool,
}

/// The providers that take an API key.
#[derive(Debug, Clone, Copy, PartialEq, Eq, Structural)]
pub enum KeyProvider {
    Tmdb,
    Tvdb,
}

/// The provider a key is set for, by its id; any other id is refused.
pub fn key_provider(provider: &str) -> (r: Result<KeyProvider, String>)
    ensures
        provider@ == "tmdb"@ ==> r == Ok::<KeyProvider, String>(KeyProvider::Tmdb),
        provider@ == "tvdb"@ ==> r == Ok::<KeyProvider, String>(KeyProvider::Tvdb),
        provider@ != "tmdb"@ && provider@ != "tvdb"@ ==> (r matches Err(m) && m@ == "Unknown provider '"@
            + provider@ + "'"@),
{
    proof {
        reveal_strlit("tmdb");
        reveal_strlit("tvdb");
        assert("tmdb"@[1] != "tvdb"@[1]);
    }
    if str_eq(provider, "tmdb") {
        Ok(KeyProvider::Tmdb)
    } else if str_eq(provider, "tvdb") {
        Ok(KeyProvider::Tvdb)
    } else {
        let mut m = chars_of("Unknown provider '");
        push_all(&mut m, chars_of(provider).as_slice());
        push_all(&mut m, chars_of("'").as_slice());
        Err(string_from(m.as_slice()))
    }
}

/// A key is stored without surrounding whitespace.
pub fn stored_api_key(api_key: &str) -> (r: String)
    ensures
        r@ == trim(api_key@),
{
    let t = trimmed(chars_of(api_key).as_slice());
    string_from(t.as_slice())
}

/// Whether a stored key counts: present and not blank.
pub open spec fn key_set(stored: Option<Seq<char>>) -> bool {
    match stored {
        Some(k) => trim(k).len() > 0,
        None => false,
    }
}

fn is_set(stored: &Option<String>) -> (r: bool)
    ensures
        r == key_set(opt_str(*stored)),
{
    match stored {
        Some(k) => trimmed(chars_of(k.as_str()).as_slice()).len() > 0,
        None => false,
    }
}

/// Which providers have a key, from the stored keys; the keys themselves
/// are not reported.
pub fn api_key_status(tmdb: &Option<String>, tvdb: &Option<String>) -> (r: ApiKeyStatus)
    ensures
        r.tmdb_configured == key_set(opt_str(*tmdb)),
        r.tvdb_configured == key_set(opt_str(*tvdb)),
{
    ApiKeyStatus { tmdb_configured: is_set(tmdb), tvdb_configured: is_set(tvdb) }
}

} // verus!
