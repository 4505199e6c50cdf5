//! The Cover Art Archive: a release's images as cover art candidates.
use vstd::prelude::*;

use crate::models::album::{ArtSource, CoverArt, CoverArtType};
use crate::models::book::{opt_str, strs};
use crate::text::{chars_of, decimal, format_u64, push_all, str_eq, string_from};

verus! {

/// The sizes the archive keeps of an image (250, 500 and 1200 pixels).
#[derive(Debug, Clone)]
pub struct CaaThumbnails {
    pub small: Option<String>,
    pub large: Option<String>,
    pub xl: Option<String>,
}

/// An image of a release.
#[derive(Debug, Clone)]
pub struct CaaImage {
    pub id: u64,
    pub image: String,
    pub thumbnails: CaaThumbnails,
    pub front: bool,
    pub back: bool,
    pub types: Vec<String>,
}

/// The list of a release's images.
pub open spec fn release_images_url_spec(release_id: Seq<char>) -> Seq<char> {
    "https://coverartarchive.org/release/"@ + release_id
}

pub fn release_images_url(release_id: &str) -> (r: String)
    ensures
        r@ == release_images_url_spec(release_id@),
{
    let mut out = chars_of("https://coverartarchive.org/release/");
    let id = chars_of(release_id);
    push_all(&mut out, id.as_slice());
    string_from(out.as_slice())
}

/// What an image shows: front and back as flagged, else a disc or a
/// booklet as its types say, else its first type (or `Other`).
pub open spec fn caa_art_type(t: CoverArtType, img: CaaImage) -> bool {
    if img.front {
        t is Front
    } else if img.back {
        t is Back
    } else if strs(img.types@).contains("Disc"@) {
        t is Disc
    } else if strs(img.types@).contains("Booklet"@) {
        t is Booklet
    } else {
        t is Other && t->Other_0@ == (if img.types@.len() > 0 {
            img.types@[0]@
        } else {
            "Other"@
        })
    }
}

/// The address kept: the 1200-pixel thumbnail, else the 500-pixel one,
/// else the full image.
pub open spec fn best_url(img: CaaImage) -> Seq<char> {
    match img.thumbnails.xl {
        Some(x) => x@,
        None => match img.thumbnails.large {
            Some(l) => l@,
            None => img.image@,
        },
    }
}

/// An archive image as a cover art candidate.
pub open spec fn caa_cover(c: CoverArt, img: CaaImage) -> bool {
    &&& c.id@ == decimal(img.id as nat)
    &&& caa_art_type(c.art_type, img)
    &&& c.source == ArtSource::CoverArtArchive
    &&& c.mime_type@ == "image/jpeg"@
    &&& c.width is None && c.height is None && c.data_path is None
    &&& opt_str(c.url) == Some(best_url(img))
}

fn has_type(types: &Vec<String>, wanted: &str) -> (r: bool)
    ensures
        r == strs(types@).contains(wanted@),
{
    let mut k: usize = 0;
    while k < types.len()
        invariant
            0 <= k <= types@.len(),
            forall|i: int| 0 <= i < k ==> types@[i]@ != wanted@,
        decreases types@.len() - k,
    {
        if str_eq(types[k].as_str(), wanted) {
            assert(strs(types@)[k as int] == wanted@);
            return true;
        }
        k = k + 1;
    }
    assert forall|i: int| 0 <= i < strs(types@).len() implies strs(types@)[i] != wanted@ by {
        assert(strs(types@)[i] == types@[i]@);
    }
    false
}

fn cover_of(img: &CaaImage) -> (c: CoverArt)
    ensures
        caa_cover(c, *img),
{
    let art_type = if img.front {
        CoverArtType::Front
    } else if img.back {
        CoverArtType::Back
    } else if has_type(&img.types, "Disc") {
        CoverArtType::Disc
    } else if has_type(&img.types, "Booklet") {
        CoverArtType::Booklet
    } else if img.types.len() > 0 {
        CoverArtType::Other(img.types[0].clone())
    } else {
        CoverArtType::Other(String::from_str("Other"))
    };
    let url = match &img.thumbnails.xl {
        Some(x) => x.clone(),
        None => match &img.thumbnails.large {
            Some(l) => l.clone(),
            None => img.image.clone(),
        },
    };
    let id = format_u64(img.id);
    CoverArt {
        id: string_from(id.as_slice()),
        art_type: art_type,
        source: ArtSource::CoverArtArchive,
        mime_type: String::from_str("image/jpeg"),
        width: None,
        height: None,
        data_path: None,
        url: Some(url),
    }
}

/// A release's images as cover art candidates, in the archive's order.
pub fn covers_from_archive(images: &Vec<CaaImage>) -> (r: Vec<CoverArt>)
    ensures
        r@.len() == images@.len(),
        forall|i: int| 0 <= i < images@.len() ==> #[trigger] caa_cover(r@[i], images@[i]),
{
    let mut out: Vec<CoverArt> = Vec::new();
    let mut k: usize = 0;
    while k < images.len()
        invariant
            0 <= k <= images@.len(),
            out@.len() == k,
            forall|i: int| 0 <= i < k ==> #[trigger] caa_cover(out@[i], images@[i]),
        decreases images@.len() - k,
    {
        out.push(cover_of(&images[k]));
        k = k + 1;
    }
    out
}

} // verus!
