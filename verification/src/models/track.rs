//! Per-track tag values and audio stream properties.
use std::collections::HashMap;

use vstd::prelude::*;

verus! {

#[derive(Debug, Clone)]
pub struct TrackMetadata {
    pub title: Option<String>,
    pub artist: Option<String>,
    pub album_artist: Option<String>,
    pub album: Option<String>,
    pub track_number: Option<u32>,
    pub total_tracks: Option<u32>,
    pub disc_number: Option<u32>,
    pub total_discs: Option<u32>,
    pub year: Option<i32>,
    pub date: Option<String>,
    pub genre: Option<Vec<String>>,
    pub composer: Option<Vec<String>>,
    pub comment: Option<String>,
    pub lyrics: Option<String>,
    pub isrc: Option<String>,
    pub musicbrainz_track_id: Option<String>,
    pub musicbrainz_release_id: Option<String>,
    pub musicbrainz_artist_id: Option<String>,
    pub musicbrainz_release_group_id: Option<String>,
    pub custom_tags: HashMap<String, Vec<String>>,
}

impl Default for TrackMetadata {
    fn default() -> (r: Self)
        ensures
            r.title is None && r.artist is None && r.album_artist is None && r.album is None,
            r.track_number is None && r.total_tracks is None && r.disc_number is None,
            r.total_discs is None && r.year is None && r.date is None && r.genre is None,
            r.composer is None && r.comment is None && r.lyrics is None && r.isrc is None,
            r.musicbrainz_track_id is None && r.musicbrainz_release_id is None,
            r.musicbrainz_artist_id is None && r.musicbrainz_release_group_id is None,
            r.custom_tags@ == Map::<String, Vec<String>>::empty(),
    {
        TrackMetadata {
            title: None,
            artist: None,
            album_artist: None,
            album: None,
            track_number: None,
            total_tracks: None,
            disc_number: None,
            total_discs: None,
            year: None,
            date: None,
            genre: None,
            composer: None,
            comment: None,
            lyrics: None,
            isrc: None,
            musicbrainz_track_id: None,
            musicbrainz_release_id: None,
            musicbrainz_artist_id: None,
            musicbrainz_release_group_id: None,
            custom_tags: HashMap::new(),
        }
    }
}

#[derive(Debug, Clone)]
pub struct AudioProperties {
    pub duration_ms: u64,
    pub bitrate_kbps: u32,
    pub sample_rate_hz: u32,
    pub channels: u8,
    pub bits_per_sample: Option<u8>,
    pub format: String,
}

} // verus!
