//! NFO sidecars: where Kodi, Jellyfin and Plex look for them.
pub mod parser;
pub mod writer;

use vstd::prelude::*;

use crate::paths::{is_file, join, parent, path_join, path_parent, path_with_extension, with_extension};

verus! {

/// The per-file sidecar: the video's path with the extension `nfo`.
pub open spec fn sidecar_path(video: Seq<char>) -> Seq<char> {
    path_with_extension(video, "nfo"@)
}

/// The sidecar chosen from what is on disk: the per-file `<name>.nfo`,
/// then `movie.nfo`, then `tvshow.nfo` in the same folder.
pub open spec fn nfo_choice(video: Seq<char>, sidecar: bool, movie: bool, tvshow: bool) -> Option<Seq<char>> {
    if sidecar {
        Some(sidecar_path(video))
    } else {
        match path_parent(video) {
            None => None,
            Some(dir) => if movie {
                Some(path_join(dir, "movie.nfo"@))
            } else if tvshow {
                Some(path_join(dir, "tvshow.nfo"@))
            } else {
                None
            },
        }
    }
}

/// Which sidecar to read, given which of the three candidates are files.
pub fn pick_nfo_path(video_path: &str, sidecar: bool, movie: bool, tvshow: bool) -> (r: Option<String>)
    ensures
        match r {
            Some(p) => nfo_choice(video_path@, sidecar, movie, tvshow) == Some(p@),
            None => nfo_choice(video_path@, sidecar, movie, tvshow) is None,
        },
{
    if sidecar {
        return Some(with_extension(video_path, "nfo"));
    }
    match parent(video_path) {
        None => None,
        Some(dir) => {
            if movie {
                Some(join(dir.as_str(), "movie.nfo"))
            } else if tvshow {
                Some(join(dir.as_str(), "tvshow.nfo"))
            } else {
                None
            }
        },
    }
}

/// Locate the NFO sidecar for a video file. What is on disk decides which
/// candidate is found, so the result is one of the three candidates, in the
/// order `<name>.nfo`, `movie.nfo`, `tvshow.nfo`, or `None`.
pub fn find_nfo_path(video_path: &str) -> (r: Option<String>)
    ensures
        exists|s: bool, m: bool, t: bool|
            #![auto]
            match r {
                Some(p) => nfo_choice(video_path@, s, m, t) == Some(p@),
                None => nfo_choice(video_path@, s, m, t) is None,
            },
{
    let sidecar = with_extension(video_path, "nfo");
    let s = is_file(sidecar.as_str());
    let (m, t) = match parent(video_path) {
        Some(dir) => {
            let mv = join(dir.as_str(), "movie.nfo");
            let m = is_file(mv.as_str());
            let t = if m { false } else {
                let tv = join(dir.as_str(), "tvshow.nfo");
                is_file(tv.as_str())
            };
            (m, t)
        },
        None => (false, false),
    };
    pick_nfo_path(video_path, s, m, t)
}

/// Where a new NFO is written for a video file: beside it, `<name>.nfo`.
pub fn default_nfo_path(video_path: &str) -> (r: String)
    ensures
        r@ == sidecar_path(video_path@),
{
    with_extension(video_path, "nfo")
}

} // verus!
