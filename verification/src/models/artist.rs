//! Artist records returned by music metadata providers.
use vstd::prelude::*;

verus! {

#[derive(Debug, Clone)]
pub struct ArtistMetadata {
    pub name: String,
    pub sort_name: Option<String>,
    pub musicbrainz_artist_id: Option<String>,
    pub disambiguation: Option<String>,
    pub artist_type: Option<String>,
    pub country: Option<String>,
}

} // verus!
