//! Duplicate detection: the keys by which recordings are compared.
pub mod detector;
pub mod fingerprint;

use vstd::prelude::*;

use crate::models::book::opt_str;
use crate::paths::{file_name, join, path_file_name, path_join};
use crate::text::{chars_of, decimal, format_u64, push_all, string_from};

verus! {

/// How duplicates were matched.
#[derive(Debug, Clone, Copy, PartialEq, Eq, Structural)]
pub enum DuplicateMode {
    /// Byte-identical files.
    Exact,
    /// Same recording by tags, regardless of encoding.
    Fuzzy,
    /// Same recording by audio content.
    Acoustic,
}

/// One file of a duplicate group. The score, a similarity to the group's
/// reference file between 0 and 1, is a decimal number the library carries
/// as the type parameter `S` and never computes with.
#[derive(Debug, Clone)]
pub struct DuplicateFile<S> {
    pub path: String,
    pub file_name: String,
    pub file_size: u64,
    pub duration_ms: Option<u64>,
    pub bitrate_kbps: Option<u32>,
    pub format: Option<String>,
    pub title: Option<String>,
    pub artist: Option<String>,
    pub album: Option<String>,
    /// Similarity to the group's reference file. Always the top score for exact.
    pub score: S,
    /// The copy suggested for keeping: highest bitrate, then largest file.
    pub recommended_keep: bool,
}

#[derive(Debug, Clone)]
pub struct DuplicateGroup<S> {
    pub id: String,
    pub mode: DuplicateMode,
    /// Human-readable explanation of why these were grouped.
    pub reason: String,
    pub files: Vec<DuplicateFile<S>>,
    pub wasted_bytes: u64,
}

#[derive(Debug, Clone)]
pub struct DuplicateReport<S> {
    pub groups: Vec<DuplicateGroup<S>>,
    pub total_groups: usize,
    pub total_files: usize,
    pub reclaimable_bytes: u64,
    pub warnings: Vec<String>,
}

/// A duplicate file as the contracts speak of it.
pub ghost struct FileView<S> {
    pub path: Seq<char>,
    pub file_name: Seq<char>,
    pub file_size: u64,
    pub duration_ms: Option<u64>,
    pub bitrate_kbps: Option<u32>,
    pub format: Option<Seq<char>>,
    pub title: Option<Seq<char>>,
    pub artist: Option<Seq<char>>,
    pub album: Option<Seq<char>>,
    pub score: S,
    pub recommended_keep: bool,
}

pub open spec fn file_view<S>(f: DuplicateFile<S>) -> FileView<S> {
    FileView {
        path: f.path@,
        file_name: f.file_name@,
        file_size: f.file_size,
        duration_ms: f.duration_ms,
        bitrate_kbps: f.bitrate_kbps,
        format: opt_str(f.format),
        title: opt_str(f.title),
        artist: opt_str(f.artist),
        album: opt_str(f.album),
        score: f.score,
        recommended_keep: f.recommended_keep,
    }
}

pub open spec fn files_view<S>(v: Seq<DuplicateFile<S>>) -> Seq<FileView<S>> {
    Seq::new(v.len(), |i: int| file_view(v[i]))
}

/// A duplicate group as the contracts speak of it.
pub ghost struct GroupView<S> {
    pub id: Seq<char>,
    pub mode: DuplicateMode,
    pub reason: Seq<char>,
    pub files: Seq<FileView<S>>,
    pub wasted_bytes: u64,
}

pub open spec fn group_view<S>(g: DuplicateGroup<S>) -> GroupView<S> {
    GroupView { id: g.id@, mode: g.mode, reason: g.reason@, files: files_view(g.files@), wasted_bytes: g.wasted_bytes }
}

pub open spec fn groups_view<S>(v: Seq<DuplicateGroup<S>>) -> Seq<GroupView<S>> {
    Seq::new(v.len(), |i: int| group_view(v[i]))
}

/// What the user asked to happen to one file of a duplicate group.
#[derive(Debug, Clone)]
pub struct ResolveOutcome {
    pub path: String,
    pub success: bool,
    pub moved_to: Option<String>,
    pub error: Option<String>,
}

/// The name a file keeps in quarantine: its own, or `unnamed`.
pub open spec fn quarantine_name_spec(path: Seq<char>) -> Seq<char> {
    match path_file_name(path) {
        Some(n) => n,
        None => "unnamed"@,
    }
}

/// The `attempt`-th place tried for a file in the quarantine folder: its
/// name, then the name prefixed with a counter, since duplicates share
/// names.
pub open spec fn quarantine_target_spec(dir: Seq<char>, name: Seq<char>, attempt: nat) -> Seq<char> {
    if attempt == 0 {
        path_join(dir, name)
    } else {
        path_join(dir, decimal(attempt) + "-"@ + name)
    }
}

pub fn quarantine_name(path: &str) -> (r: String)
    ensures
        r@ == quarantine_name_spec(path@),
{
    match file_name(path) {
        Some(n) => n,
        None => "unnamed".to_string(),
    }
}

pub fn quarantine_target(dir: &str, name: &str, attempt: u64) -> (r: String)
    ensures
        r@ == quarantine_target_spec(dir@, name@, attempt as nat),
{
    if attempt == 0 {
        join(dir, name)
    } else {
        let mut v = format_u64(attempt);
        push_all(&mut v, chars_of("-").as_slice());
        push_all(&mut v, chars_of(name).as_slice());
        let n = string_from(v.as_slice());
        join(dir, n.as_str())
    }
}

} // verus!
