//! What music metadata providers return.
use vstd::prelude::*;

use super::album::AlbumMetadata;
use super::artist::ArtistMetadata;
use super::track::TrackMetadata;

verus! {

#[derive(Debug, Clone, Copy, PartialEq, Eq, Structural)]
pub enum SearchResultType {
    Release,
    Recording,
    Artist,
    ReleaseGroup,
}

/// A provider's search hit. The score is the provider's own relevance
/// score (MusicBrainz gives 0 to 100); extra details are named text values.
#[derive(Debug, Clone)]
pub struct ProviderSearchResult {
    pub provider: String,
    pub result_type: SearchResultType,
    pub id: String,
    pub score: Option<u32>,
    pub title: String,
    pub artist: Option<String>,
    pub year: Option<i32>,
    pub extra: Vec<(String, String)>,
}

#[derive(Debug, Clone)]
pub struct ProviderRelease {
    pub provider: String,
    pub id: String,
    pub album: AlbumMetadata,
    pub tracks: Vec<TrackMetadata>,
    pub artists: Vec<ArtistMetadata>,
}

#[derive(Debug, Clone)]
pub struct ProviderInfo {
    pub id: String,
    pub display_name: String,
    pub supported_types: Vec<String>,
}

} // verus!
