//! Album records and cover art descriptions.
use vstd::prelude::*;

verus! {

#[derive(Debug, Clone)]
pub struct AlbumMetadata {
    pub title: String,
    pub artist: String,
    pub year: Option<i32>,
    pub release_date: Option<String>,
    pub genre: Option<Vec<String>>,
    pub label: Option<String>,
    pub catalog_number: Option<String>,
    pub barcode: Option<String>,
    pub release_type: Option<String>,
    pub release_country: Option<String>,
    pub musicbrainz_release_id: Option<String>,
    pub musicbrainz_release_group_id: Option<String>,
    pub total_tracks: Option<u32>,
    pub total_discs: Option<u32>,
    pub cover_art: Vec<CoverArt>,
}

#[derive(Debug, Clone)]
pub struct CoverArt {
    pub id: String,
    pub art_type: CoverArtType,
    pub source: ArtSource,
    pub mime_type: String,
    pub width: Option<u32>,
    pub height: Option<u32>,
    pub data_path: Option<String>,
    pub url: Option<String>,
}

#[derive(Debug, Clone)]
pub enum CoverArtType {
    Front,
    Back,
    Disc,
    Booklet,
    Artist,
    Other(String),
}

#[derive(Debug, Clone, Copy, PartialEq, Eq, Structural)]
pub enum ArtSource {
    Embedded,
    LocalFile,
    CoverArtArchive,
    FanartTv,
    Itunes,
    Deezer,
    Manual,
}

#[derive(Debug, Clone)]
pub struct CoverArtData {
    pub data: String,
    pub mime_type: String,
    pub art_type: CoverArtType,
    pub width: Option<u32>,
    pub height: Option<u32>,
}

} // verus!
