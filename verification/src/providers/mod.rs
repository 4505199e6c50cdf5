//! What the online metadata providers answer, turned into the library's
//! records, and the requests that ask them.
//!
//! Fetching is the application's part: it sends the requests these
//! functions build and hands the decoded replies to them.
pub mod coverart;
pub mod musicbrainz;
pub mod tmdb;
pub mod tvdb;

use vstd::prelude::*;
use vstd::utf8::encode_utf8;

use crate::models::book::opt_str;

verus! {

/// A byte that URL encoding leaves as it is: ASCII letters and digits,
/// `-`, `.`, `_` and `~`.
pub open spec fn url_safe(b: u8) -> bool {
    (0x30 <= b <= 0x39) || (0x41 <= b <= 0x5a) || (0x61 <= b <= 0x7a) || b == 0x2d || b == 0x2e
        || b == 0x5f || b == 0x7e
}

/// An upper-case hexadecimal digit.
pub open spec fn hex_digit(d: u8) -> char {
    if d < 10 {
        (0x30 + d) as char
    } else {
        (0x41 - 10 + d) as char
    }
}

/// Percent-encoding of a byte string: safe bytes stay, every other byte
/// becomes `%` and two upper-case hexadecimal digits.
pub open spec fn percent_encoded(b: Seq<u8>) -> Seq<char>
    decreases b.len(),
{
    if b.len() == 0 {
        Seq::empty()
    } else {
        let last = b.last();
        percent_encoded(b.drop_last()) + if url_safe(last) {
            seq![last as char]
        } else {
            seq!['%', hex_digit(last / 16), hex_digit(last % 16)]
        }
    }
}

/// `urlencoding::encode`: percent-encodes every byte of the text's UTF-8
/// form except ASCII letters, digits and `-`, `_`, `.`, `~`, with
/// upper-case hexadecimal digits.
#[verifier::external_body]
pub(crate) fn url_encode(s: &str) -> (r: String)
    ensures
        r@ == percent_encoded(encode_utf8(s@)),
{
    urlencoding::encode(s).into_owned()
}

/// An optional text, copied.
pub(crate) fn clone_opt(o: &Option<String>) -> (r: Option<String>)
    ensures
        opt_str(r) == opt_str(*o),
{
    match o {
        Some(s) => Some(s.clone()),
        None => None,
    }
}

} // verus!
