//! Video metadata: what Kodi/Jellyfin/Plex keep in NFO sidecars, and what
//! movie and TV providers return.
//!
//! Ratings are decimal numbers; the library carries them as a type
//! parameter `R` and never computes with them.
use vstd::prelude::*;

verus! {

#[derive(Debug, Clone, Copy, PartialEq, Eq, Structural)]
pub enum VideoResultType {
    Movie,
    Series,
}

#[derive(Debug, Clone)]
pub struct VideoSearchResult<R> {
    pub provider: String,
    pub result_type: VideoResultType,
    pub id: String,
    pub title: String,
    pub year: Option<i32>,
    pub overview: Option<String>,
    pub poster_url: Option<String>,
    pub rating: Option<R>,
}

#[derive(Debug, Clone)]
pub struct MovieMetadata<R> {
    pub title: String,
    pub original_title: Option<String>,
    pub year: Option<i32>,
    pub release_date: Option<String>,
    pub tagline: Option<String>,
    pub overview: Option<String>,
    pub runtime_minutes: Option<u32>,
    pub genres: Vec<String>,
    pub rating: Option<R>,
    pub country: Option<String>,
    pub studios: Vec<String>,
    pub directors: Vec<String>,
    pub writers: Vec<String>,
    pub cast: Vec<String>,
    pub tmdb_id: Option<String>,
    pub imdb_id: Option<String>,
    pub poster_url: Option<String>,
    pub backdrop_url: Option<String>,
}

#[derive(Debug, Clone)]
pub struct SeriesMetadata<R> {
    pub title: String,
    pub year: Option<i32>,
    pub first_aired: Option<String>,
    pub overview: Option<String>,
    pub genres: Vec<String>,
    pub rating: Option<R>,
    pub network: Option<String>,
    pub status: Option<String>,
    pub total_seasons: Option<u32>,
    pub tmdb_id: Option<String>,
    pub tvdb_id: Option<String>,
    pub imdb_id: Option<String>,
    pub poster_url: Option<String>,
    pub backdrop_url: Option<String>,
    pub episodes: Vec<EpisodeMetadata<R>>,
}

#[derive(Debug, Clone)]
pub struct EpisodeMetadata<R> {
    pub title: String,
    pub season: u32,
    pub episode: u32,
    pub air_date: Option<String>,
    pub overview: Option<String>,
    pub rating: Option<R>,
    pub runtime_minutes: Option<u32>,
    pub still_url: Option<String>,
    pub tmdb_id: Option<String>,
    pub tvdb_id: Option<String>,
}

/// Whether a video file is a standalone movie or an episode of a series.
#[derive(Debug, Clone, Copy, PartialEq, Eq, Structural)]
pub enum VideoKind {
    Movie,
    Episode,
}

impl Default for VideoKind {
    fn default() -> (r: Self)
        ensures
            r == VideoKind::Movie,
    {
        VideoKind::Movie
    }
}

/// Where a file's metadata was loaded from.
#[derive(Debug, Clone, Copy, PartialEq, Eq, Structural)]
pub enum VideoMetadataSource {
    Nfo,
    Embedded,
    /// Nothing found; fields were derived from the filename.
    Filename,
    Unset,
}

/// The source a video's metadata has when none was recorded.
pub fn default_source() -> (r: VideoMetadataSource)
    ensures
        r == VideoMetadataSource::Unset,
{
    VideoMetadataSource::Unset
}

impl Default for VideoMetadataSource {
    fn default() -> (r: Self)
        ensures
            r == VideoMetadataSource::Unset,
    {
        VideoMetadataSource::Unset
    }
}

/// A single actor credit, kept structured so NFO round-trips keep roles.
#[derive(Debug, Clone)]
pub struct ActorCredit {
    pub name: String,
    pub role: Option<String>,
    pub thumb: Option<String>,
}

/// The editable metadata for one video file.
///
/// Mirrors what Kodi/Jellyfin/Plex store in NFO sidecars, which is the
/// interchange format those servers actually read.
#[derive(Debug, Clone)]
pub struct VideoMetadata<R> {
    pub kind: VideoKind,
    pub title: Option<String>,
    pub original_title: Option<String>,
    pub sort_title: Option<String>,
    pub year: Option<i32>,
    pub release_date: Option<String>,
    pub tagline: Option<String>,
    pub plot: Option<String>,
    pub outline: Option<String>,
    pub runtime_minutes: Option<u32>,
    pub rating: Option<R>,
    pub votes: Option<u32>,
    /// Age certification, e.g. "PG-13".
    pub certification: Option<String>,
    pub genres: Vec<String>,
    pub studios: Vec<String>,
    pub countries: Vec<String>,
    pub directors: Vec<String>,
    pub writers: Vec<String>,
    pub actors: Vec<ActorCredit>,
    pub tags: Vec<String>,
    // Episode-specific.
    pub show_title: Option<String>,
    pub season: Option<u32>,
    pub episode: Option<u32>,
    pub aired: Option<String>,
    pub imdb_id: Option<String>,
    pub tmdb_id: Option<String>,
    pub tvdb_id: Option<String>,
    pub trailer: Option<String>,
    /// Where these values came from. Not written back to disk.
    pub source: VideoMetadataSource,
    /// Path of the NFO backing this file, when one exists.
    pub nfo_path: Option<String>,
}

/// Metadata with nothing set.
pub open spec fn is_blank_video<R>(m: VideoMetadata<R>) -> bool {
    &&& m.kind == VideoKind::Movie
    &&& m.title is None && m.original_title is None && m.sort_title is None && m.year is None
    &&& m.release_date is None && m.tagline is None && m.plot is None && m.outline is None
    &&& m.runtime_minutes is None && m.rating is None && m.votes is None
    &&& m.certification is None
    &&& m.genres@.len() == 0 && m.studios@.len() == 0 && m.countries@.len() == 0
    &&& m.directors@.len() == 0 && m.writers@.len() == 0 && m.actors@.len() == 0
    &&& m.tags@.len() == 0
    &&& m.show_title is None && m.season is None && m.episode is None && m.aired is None
    &&& m.imdb_id is None && m.tmdb_id is None && m.tvdb_id is None && m.trailer is None
    &&& m.source == VideoMetadataSource::Unset
    &&& m.nfo_path is None
}

impl<R> VideoMetadata<R> {
    /// Metadata with nothing set (what `Default` gives).
    pub fn blank() -> (r: Self)
        ensures
            is_blank_video(r),
    {
        VideoMetadata {
            kind: VideoKind::Movie,
            title: None,
            original_title: None,
            sort_title: None,
            year: None,
            release_date: None,
            tagline: None,
            plot: None,
            outline: None,
            runtime_minutes: None,
            rating: None,
            votes: None,
            certification: None,
            genres: Vec::new(),
            studios: Vec::new(),
            countries: Vec::new(),
            directors: Vec::new(),
            writers: Vec::new(),
            actors: Vec::new(),
            tags: Vec::new(),
            show_title: None,
            season: None,
            episode: None,
            aired: None,
            imdb_id: None,
            tmdb_id: None,
            tvdb_id: None,
            trailer: None,
            source: VideoMetadataSource::Unset,
            nfo_path: None,
        }
    }
}

/// Container-level technical details, the video analogue of `AudioProperties`.
#[derive(Debug, Clone)]
pub struct VideoProperties {
    pub duration_ms: Option<u64>,
    pub container: String,
    pub file_size: u64,
    pub overall_bitrate_kbps: Option<u32>,
}

/// A candidate image offered by a provider during poster rematch.
#[derive(Debug, Clone)]
pub struct RemoteArtwork<R> {
    pub provider: String,
    /// "poster" or "backdrop".
    pub art_type: String,
    /// Full-size image, saved when the user picks it.
    pub url: String,
    /// Smaller variant used for the grid.
    pub thumb_url: String,
    pub width: Option<u32>,
    pub height: Option<u32>,
    /// ISO-639-1 code, when the provider labels the image by language.
    pub language: Option<String>,
    pub rating: Option<R>,
}

/// A poster or fanart image found next to a video file.
#[derive(Debug, Clone)]
pub struct VideoArtwork {
    /// "poster", "fanart", "banner", "thumb"
    pub art_type: String,
    pub path: String,
    pub data: String,
    pub mime_type: String,
}

#[derive(Debug, Clone)]
pub struct VideoProviderInfo {
    pub id: String,
    pub display_name: String,
    pub requires_api_key: bool,
    pub configured: bool,
}

} // verus!
