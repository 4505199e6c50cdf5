//! File-system path pieces, taken from `std::path::Path`.
//!
//! `Path`'s component rules (separators, `.`/`..`, trailing slashes) are
//! std's; the library names what each operation returns rather than
//! restating them.
use vstd::prelude::*;

verus! {

/// The extension `Path::extension` reports for a path.
pub uninterp spec fn path_extension(p: Seq<char>) -> Option<Seq<char>>;

/// The stem `Path::file_stem` reports for a path.
pub uninterp spec fn path_file_stem(p: Seq<char>) -> Option<Seq<char>>;

/// The final component `Path::file_name` reports for a path.
pub uninterp spec fn path_file_name(p: Seq<char>) -> Option<Seq<char>>;

/// The parent `Path::parent` reports for a path.
pub uninterp spec fn path_parent(p: Seq<char>) -> Option<Seq<char>>;

/// The path `Path::join` builds from a base and a relative path.
pub uninterp spec fn path_join(base: Seq<char>, rel: Seq<char>) -> Seq<char>;

/// The path `Path::with_extension` builds.
pub uninterp spec fn path_with_extension(p: Seq<char>, ext: Seq<char>) -> Seq<char>;

/// `Path::extension`. The path is UTF-8, so the extension converts back to
/// a `String` unchanged.
#[verifier::external_body]
pub(crate) fn extension(p: &str) -> (r: Option<String>)
    ensures
        match r {
            Some(e) => path_extension(p@) == Some(e@),
            None => path_extension(p@) is None,
        },
{
    std::path::Path::new(p).extension().map(|e| e.to_string_lossy().to_string())
}

/// `Path::file_stem`.
#[verifier::external_body]
pub(crate) fn file_stem(p: &str) -> (r: Option<String>)
    ensures
        match r {
            Some(e) => path_file_stem(p@) == Some(e@),
            None => path_file_stem(p@) is None,
        },
{
    std::path::Path::new(p).file_stem().map(|e| e.to_string_lossy().to_string())
}

/// `Path::file_name`.
#[verifier::external_body]
pub(crate) fn file_name(p: &str) -> (r: Option<String>)
    ensures
        match r {
            Some(e) => path_file_name(p@) == Some(e@),
            None => path_file_name(p@) is None,
        },
{
    std::path::Path::new(p).file_name().map(|e| e.to_string_lossy().to_string())
}

/// `Path::parent`.
#[verifier::external_body]
pub(crate) fn parent(p: &str) -> (r: Option<String>)
    ensures
        match r {
            Some(e) => path_parent(p@) == Some(e@),
            None => path_parent(p@) is None,
        },
{
    std::path::Path::new(p).parent().map(|e| e.to_string_lossy().to_string())
}

/// `Path::join`.
#[verifier::external_body]
pub(crate) fn join(base: &str, rel: &str) -> (r: String)
    ensures
        r@ == path_join(base@, rel@),
{
    std::path::Path::new(base).join(rel).to_string_lossy().to_string()
}

/// `Path::with_extension`.
#[verifier::external_body]
pub(crate) fn with_extension(p: &str, ext: &str) -> (r: String)
    ensures
        r@ == path_with_extension(p@, ext@),
{
    std::path::Path::new(p).with_extension(ext).to_string_lossy().to_string()
}

/// `Path::exists`. What is on disk can change at any time, so nothing is
/// promised about the answer.
#[verifier::external_body]
pub(crate) fn path_exists(p: &str) -> bool {
    std::path::Path::new(p).exists()
}

/// `Path::is_file`. What is on disk can change at any time, so nothing is
/// promised about the answer.
#[verifier::external_body]
pub(crate) fn is_file(p: &str) -> bool {
    std::path::Path::new(p).is_file()
}

} // verus!
