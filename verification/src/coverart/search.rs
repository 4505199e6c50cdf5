//! Searching the iTunes and Deezer catalogues for album covers: the
//! requests, and their hits as front-cover candidates.
use vstd::prelude::*;
use vstd::utf8::encode_utf8;

use crate::commands::batch::{replace_exec, replace_spec};
use crate::error::NotataError;
use crate::models::album::{ArtSource, CoverArt, CoverArtType};
use crate::models::book::opt_str;
use crate::providers::{percent_encoded, url_encode};
use crate::text::{chars_of, decimal, format_u64, push_all, string_from};

verus! {

/// An album among the iTunes search results.
#[derive(Debug, Clone)]
pub struct ItunesResult {
    pub collection_id: Option<u64>,
    pub collection_name: Option<String>,
    pub artist_name: Option<String>,
    pub artwork_url100: Option<String>,
}

#[derive(Debug, Clone)]
pub struct DeezerArtist {
    pub name: String,
}

/// An album among the Deezer search results.
#[derive(Debug, Clone)]
pub struct DeezerAlbum {
    pub id: u64,
    pub title: String,
    pub cover_xl: Option<String>,
    pub cover_big: Option<String>,
    pub artist: DeezerArtist,
}

fn push_str(out: &mut Vec<char>, s: &str)
    ensures
        final(out)@ == old(out)@ + s@,
{
    let c = chars_of(s);
    push_all(out, c.as_slice());
}

/// The iTunes album search, ten results.
pub open spec fn itunes_search_url_spec(query: Seq<char>) -> Seq<char> {
    "https://itunes.apple.com/search?term="@ + percent_encoded(encode_utf8(query))
        + "&entity=album&limit=10"@
}

pub fn itunes_search_url(query: &str) -> (r: String)
    ensures
        r@ == itunes_search_url_spec(query@),
{
    let enc = url_encode(query);
    let mut out: Vec<char> = Vec::new();
    push_str(&mut out, "https://itunes.apple.com/search?term=");
    push_str(&mut out, enc.as_str());
    push_str(&mut out, "&entity=album&limit=10");
    string_from(out.as_slice())
}

/// The Deezer album search, ten results.
pub open spec fn deezer_search_url_spec(query: Seq<char>) -> Seq<char> {
    "https://api.deezer.com/search/album?q="@ + percent_encoded(encode_utf8(query)) + "&limit=10"@
}

pub fn deezer_search_url(query: &str) -> (r: String)
    ensures
        r@ == deezer_search_url_spec(query@),
{
    let enc = url_encode(query);
    let mut out: Vec<char> = Vec::new();
    push_str(&mut out, "https://api.deezer.com/search/album?q=");
    push_str(&mut out, enc.as_str());
    push_str(&mut out, "&limit=10");
    string_from(out.as_slice())
}

pub open spec fn or_unknown(o: Option<String>) -> Seq<char> {
    match o {
        Some(s) => s@,
        None => "Unknown"@,
    }
}

/// The iTunes hits that carry artwork, in order.
pub open spec fn with_artwork(results: Seq<ItunesResult>) -> Seq<ItunesResult>
    decreases results.len(),
{
    if results.len() == 0 {
        Seq::empty()
    } else {
        with_artwork(results.drop_last()) + if results.last().artwork_url100 is Some {
            seq![results.last()]
        } else {
            Seq::empty()
        }
    }
}

/// An iTunes hit as a front cover: its artwork at 1200 pixels instead of
/// 100, labelled with artist and album.
pub open spec fn itunes_cover(c: CoverArt, r: ItunesResult) -> bool {
    &&& c.id@ == "itunes-"@ + decimal(
        (match r.collection_id {
            Some(i) => i,
            None => 0,
        }) as nat,
    )
    &&& c.art_type is Front
    &&& c.source == ArtSource::Itunes
    &&& c.mime_type@ == "image/jpeg"@
    &&& c.width is None && c.height is None
    &&& opt_str(c.data_path) == Some(or_unknown(r.artist_name) + " — "@ + or_unknown(r.collection_name))
    &&& opt_str(c.url) == Some(
        replace_spec(opt_str(r.artwork_url100)->0, "100x100bb"@, "1200x1200bb"@),
    )
}

fn push_or_unknown(out: &mut Vec<char>, o: &Option<String>)
    ensures
        final(out)@ == old(out)@ + or_unknown(*o),
{
    match o {
        Some(s) => push_str(out, s.as_str()),
        None => push_str(out, "Unknown"),
    }
}

/// The iTunes hits as front covers; hits without artwork are left out.
pub fn itunes_covers(results: &Vec<ItunesResult>) -> (r: Vec<CoverArt>)
    ensures
        r@.len() == with_artwork(results@).len(),
        forall|j: int| 0 <= j < r@.len() ==> #[trigger] itunes_cover(r@[j], with_artwork(results@)[j]),
{
    let ghost all = results@;
    let mut out: Vec<CoverArt> = Vec::new();
    let mut k: usize = 0;
    while k < results.len()
        invariant
            0 <= k <= all.len(),
            all == results@,
            out@.len() == with_artwork(all.subrange(0, k as int)).len(),
            forall|j: int| 0 <= j < out@.len() ==> #[trigger] itunes_cover(out@[j], with_artwork(all.subrange(0, k as int))[j]),
        decreases all.len() - k,
    {
        let ghost before = out@;
        assert(all.subrange(0, k + 1).drop_last() =~= all.subrange(0, k as int));
        assert(all.subrange(0, k + 1).last() == all[k as int]);
        let r = &results[k];
        match &r.artwork_url100 {
            Some(art) => {
                let c = chars_of(art.as_str());
                let from = chars_of("100x100bb");
                proof {
                    reveal_strlit("100x100bb");
                }
                let to = chars_of("1200x1200bb");
                let hi_res = replace_exec(c.as_slice(), from.as_slice(), to.as_slice());
                let mut label: Vec<char> = Vec::new();
                push_or_unknown(&mut label, &r.artist_name);
                push_str(&mut label, " — ");
                push_or_unknown(&mut label, &r.collection_name);
                let mut id: Vec<char> = Vec::new();
                push_str(&mut id, "itunes-");
                let n = match r.collection_id {
                    Some(i) => i,
                    None => 0,
                };
                let digits = format_u64(n);
                push_all(&mut id, digits.as_slice());
                out.push(CoverArt {
                    id: string_from(id.as_slice()),
                    art_type: CoverArtType::Front,
                    source: ArtSource::Itunes,
                    mime_type: String::from_str("image/jpeg"),
                    width: None,
                    height: None,
                    data_path: Some(string_from(label.as_slice())),
                    url: Some(string_from(hi_res.as_slice())),
                });
                assert forall|j: int| 0 <= j < out@.len() implies #[trigger] itunes_cover(out@[j], with_artwork(all.subrange(0, k + 1))[j]) by {
                    if j < before.len() {
                        assert(out@[j] == before[j]);
                    }
                }
            },
            None => {
                assert(with_artwork(all.subrange(0, k + 1)) =~= with_artwork(all.subrange(0, k as int)));
            },
        }
        k = k + 1;
    }
    assert(all.subrange(0, all.len() as int) =~= all);
    out
}

/// The Deezer hits that carry a cover (extra large or big), in order.
pub open spec fn with_cover(albums: Seq<DeezerAlbum>) -> Seq<DeezerAlbum>
    decreases albums.len(),
{
    if albums.len() == 0 {
        Seq::empty()
    } else {
        with_cover(albums.drop_last()) + if albums.last().cover_xl is Some || albums.last().cover_big is Some {
            seq![albums.last()]
        } else {
            Seq::empty()
        }
    }
}

/// A Deezer hit as a front cover: the extra large cover, else the big one,
/// labelled with artist and album.
pub open spec fn deezer_cover(c: CoverArt, a: DeezerAlbum) -> bool {
    &&& c.id@ == "deezer-"@ + decimal(a.id as nat)
    &&& c.art_type is Front
    &&& c.source == ArtSource::Deezer
    &&& c.mime_type@ == "image/jpeg"@
    &&& c.width is None && c.height is None
    &&& opt_str(c.data_path) == Some(a.artist.name@ + " — "@ + a.title@)
    &&& opt_str(c.url) == (match a.cover_xl {
        Some(x) => Some(x@),
        None => opt_str(a.cover_big),
    })
}

/// The Deezer hits as front covers; hits without a cover are left out.
pub fn deezer_covers(albums: &Vec<DeezerAlbum>) -> (r: Vec<CoverArt>)
    ensures
        r@.len() == with_cover(albums@).len(),
        forall|j: int| 0 <= j < r@.len() ==> #[trigger] deezer_cover(r@[j], with_cover(albums@)[j]),
{
    let ghost all = albums@;
    let mut out: Vec<CoverArt> = Vec::new();
    let mut k: usize = 0;
    while k < albums.len()
        invariant
            0 <= k <= all.len(),
            all == albums@,
            out@.len() == with_cover(all.subrange(0, k as int)).len(),
            forall|j: int| 0 <= j < out@.len() ==> #[trigger] deezer_cover(out@[j], with_cover(all.subrange(0, k as int))[j]),
        decreases all.len() - k,
    {
        let ghost before = out@;
        assert(all.subrange(0, k + 1).drop_last() =~= all.subrange(0, k as int));
        assert(all.subrange(0, k + 1).last() == all[k as int]);
        let a = &albums[k];
        let url = match &a.cover_xl {
            Some(x) => Some(x.clone()),
            None => match &a.cover_big {
                Some(b) => Some(b.clone()),
                None => None,
            },
        };
        match url {
            Some(u) => {
                let mut label: Vec<char> = Vec::new();
                push_str(&mut label, a.artist.name.as_str());
                push_str(&mut label, " — ");
                push_str(&mut label, a.title.as_str());
                let mut id: Vec<char> = Vec::new();
                push_str(&mut id, "deezer-");
                let digits = format_u64(a.id);
                push_all(&mut id, digits.as_slice());
                out.push(CoverArt {
                    id: string_from(id.as_slice()),
                    art_type: CoverArtType::Front,
                    source: ArtSource::Deezer,
                    mime_type: String::from_str("image/jpeg"),
                    width: None,
                    height: None,
                    data_path: Some(string_from(label.as_slice())),
                    url: Some(u),
                });
                assert forall|j: int| 0 <= j < out@.len() implies #[trigger] deezer_cover(out@[j], with_cover(all.subrange(0, k + 1))[j]) by {
                    if j < before.len() {
                        assert(out@[j] == before[j]);
                    }
                }
            },
            None => {
                assert(with_cover(all.subrange(0, k + 1)) =~= with_cover(all.subrange(0, k as int)));
            },
        }
        k = k + 1;
    }
    assert(all.subrange(0, all.len() as int) =~= all);
    out
}

pub open spec fn found(r: Result<Vec<CoverArt>, NotataError>) -> Seq<CoverArt> {
    match r {
        Ok(v) => v@,
        Err(_) => Seq::empty(),
    }
}

/// The covers both catalogues found: iTunes first, then Deezer; a search
/// that failed adds nothing.
pub fn merge_cover_results(
    itunes: Result<Vec<CoverArt>, NotataError>,
    deezer: Result<Vec<CoverArt>, NotataError>,
) -> (r: Vec<CoverArt>)
    ensures
        r@ == found(itunes) + found(deezer),
{
    let ghost a = found(itunes);
    let ghost b = found(deezer);
    let mut results: Vec<CoverArt> = Vec::new();
    match itunes {
        Ok(mut v) => results.append(&mut v),
        Err(_) => {},
    }
    assert(results@ =~= a);
    match deezer {
        Ok(mut v) => results.append(&mut v),
        Err(_) => {},
    }
    assert(results@ =~= a + b);
    results
}

} // verus!
