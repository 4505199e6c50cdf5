//! TheTVDB: the requests, and search hits, titles, episodes and artwork as
//! the library's video records.
//!
//! Scores are decimal numbers; they pass through as the type parameter `R`.
use vstd::prelude::*;
use vstd::utf8::encode_utf8;

use crate::error::NotataError;
use crate::models::book::{opt_str, strs};
use crate::models::video::{
    EpisodeMetadata, MovieMetadata, RemoteArtwork, SeriesMetadata, VideoResultType, VideoSearchResult,
};
use crate::providers::tmdb::{params_view, year_from_date, year_from_date_spec};
use crate::providers::{percent_encoded, url_encode};
use crate::text::{chars_of, decimal, format_u64, push_all, signed_decimal, string_from};

verus! {

/// A hit of a search.
#[derive(Debug, Clone)]
pub struct TvdbSearchItem {
    pub tvdb_id: Option<String>,
    pub name: Option<String>,
    pub year: Option<String>,
    pub overview: Option<String>,
    pub image_url: Option<String>,
}

#[derive(Debug, Clone)]
pub struct TvdbNameHolder {
    pub name: String,
}

/// A movie or series looked up in full.
#[derive(Debug, Clone)]
pub struct TvdbSeriesExtended<R> {
    pub id: u64,
    pub name: Option<String>,
    pub overview: Option<String>,
    pub first_aired: Option<String>,
    pub status: Option<TvdbNameHolder>,
    pub genres: Vec<TvdbNameHolder>,
    pub score: Option<R>,
    pub image: Option<String>,
}

#[derive(Debug, Clone)]
pub struct TvdbEpisode {
    pub id: Option<u64>,
    pub name: Option<String>,
    pub season_number: Option<u32>,
    pub number: Option<u32>,
    pub aired: Option<String>,
    pub overview: Option<String>,
    pub runtime: Option<u32>,
    pub image: Option<String>,
}

#[derive(Debug, Clone)]
pub struct TvdbArtwork<R> {
    pub image: Option<String>,
    pub thumbnail: Option<String>,
    pub width: Option<u32>,
    pub height: Option<u32>,
    pub language: Option<String>,
    pub score: Option<R>,
    /// TheTVDB artwork type ids: 2, 7 and 14 are posters, 3 and 15 are
    /// backgrounds.
    pub art_type: Option<u32>,
}

fn push_str(out: &mut Vec<char>, s: &str)
    ensures
        final(out)@ == old(out)@ + s@,
{
    let c = chars_of(s);
    push_all(out, c.as_slice());
}

pub open spec fn text_or_empty(o: Option<String>) -> Seq<char> {
    match o {
        Some(s) => s@,
        None => Seq::empty(),
    }
}

fn take_text(o: Option<String>) -> (r: String)
    ensures
        r@ == text_or_empty(o),
{
    match o {
        Some(s) => s,
        None => String::new(),
    }
}

/// A year written as text: its first four characters, read as a number.
pub fn parse_year(year: &Option<String>) -> (r: Option<i32>)
    ensures
        r == year_from_date_spec(opt_str(*year)),
{
    year_from_date(year)
}

/// The query parameters joined with `&`, each value URL-encoded.
pub open spec fn query_string(query: Seq<(String, String)>) -> Seq<char>
    decreases query.len(),
{
    if query.len() == 0 {
        Seq::empty()
    } else if query.len() == 1 {
        query[0].0@ + "="@ + percent_encoded(encode_utf8(query[0].1@))
    } else {
        query_string(query.drop_last()) + "&"@ + query.last().0@ + "="@ + percent_encoded(
            encode_utf8(query.last().1@),
        )
    }
}

/// A request to the API: the path, and the query when there is one.
pub open spec fn api_url_spec(path: Seq<char>, query: Seq<(String, String)>) -> Seq<char> {
    if query.len() == 0 {
        "https://api4.thetvdb.com/v4"@ + path
    } else {
        "https://api4.thetvdb.com/v4"@ + path + "?"@ + query_string(query)
    }
}

pub fn api_url(path: &str, query: &[(String, String)]) -> (r: String)
    ensures
        r@ == api_url_spec(path@, query@),
{
    let mut out: Vec<char> = Vec::new();
    push_str(&mut out, "https://api4.thetvdb.com/v4");
    push_str(&mut out, path);
    if query.len() > 0 {
        push_str(&mut out, "?");
        let ghost head = out@;
        let mut k: usize = 0;
        while k < query.len()
            invariant
                0 <= k <= query@.len(),
                query@.len() > 0,
                out@ == head + query_string(query@.subrange(0, k as int)),
            decreases query@.len() - k,
        {
            assert(query@.subrange(0, k + 1).drop_last() =~= query@.subrange(0, k as int));
            if k > 0 {
                push_str(&mut out, "&");
            }
            push_str(&mut out, query[k].0.as_str());
            push_str(&mut out, "=");
            let enc = url_encode(query[k].1.as_str());
            push_str(&mut out, enc.as_str());
            proof {
                if k == 0 {
                    assert(query@.subrange(0, 1)[0] == query@[0]);
                }
            }
            k = k + 1;
        }
        assert(query@.subrange(0, query@.len() as int) =~= query@);
    }
    string_from(out.as_slice())
}

/// The key the login is sent with; without one, the error that asks for it.
pub fn require_key(api_key: &Option<String>) -> (r: Result<String, NotataError>)
    ensures
        match r {
            Ok(k) => *api_key == Some(k),
            Err(e) => api_key is None && e is Provider && e->provider@ == "tvdb"@ && e->message@
                == "No TheTVDB API key configured. Add one in Settings."@,
        },
{
    match api_key {
        Some(k) => Ok(k.clone()),
        None => Err(
            NotataError::Provider {
                provider: String::from_str("tvdb"),
                message: String::from_str("No TheTVDB API key configured. Add one in Settings."),
            },
        ),
    }
}

/// A provider error of TheTVDB with the given message.
pub fn tvdb_error(message: &str) -> (r: NotataError)
    ensures
        r is Provider && r->provider@ == "tvdb"@ && r->message@ == message@,
{
    NotataError::Provider { provider: String::from_str("tvdb"), message: String::from_str(message) }
}

/// The parameters of a title search: the query, the kind of title, and the
/// year when one is given.
pub open spec fn search_params_spec(query: Seq<char>, year: Option<i32>, is_series: bool) -> Seq<(Seq<char>, Seq<char>)> {
    let head = seq![("query"@, query), ("type"@, if is_series { "series"@ } else { "movie"@ })];
    match year {
        Some(y) => head.push(("year"@, signed_decimal(y as int))),
        None => head,
    }
}

pub fn search_params(query: &str, year: Option<i32>, is_series: bool) -> (r: Vec<(String, String)>)
    ensures
        params_view(r@) == search_params_spec(query@, year, is_series),
{
    let mut v: Vec<(String, String)> = Vec::new();
    v.push((String::from_str("query"), String::from_str(query)));
    let kind = if is_series {
        String::from_str("series")
    } else {
        String::from_str("movie")
    };
    v.push((String::from_str("type"), kind));
    match year {
        Some(y) => {
            let digits = crate::text::format_i64(y as i64);
            v.push((String::from_str("year"), string_from(digits.as_slice())));
        },
        None => {},
    }
    assert(params_view(v@) =~= search_params_spec(query@, year, is_series));
    v
}

/// The search hits that carry an identifier, in order.
pub open spec fn identified(items: Seq<TvdbSearchItem>) -> Seq<TvdbSearchItem>
    decreases items.len(),
{
    if items.len() == 0 {
        Seq::empty()
    } else {
        identified(items.drop_last()) + if items.last().tvdb_id is Some {
            seq![items.last()]
        } else {
            Seq::empty()
        }
    }
}

/// A search hit as a search result.
pub open spec fn tvdb_result<R>(r: VideoSearchResult<R>, i: TvdbSearchItem, is_series: bool) -> bool {
    &&& r.provider@ == "tvdb"@
    &&& r.result_type == (if is_series { VideoResultType::Series } else { VideoResultType::Movie })
    &&& Some(r.id@) == opt_str(i.tvdb_id)
    &&& r.title@ == text_or_empty(i.name)
    &&& r.year == year_from_date_spec(opt_str(i.year))
    &&& opt_str(r.overview) == opt_str(i.overview)
    &&& opt_str(r.poster_url) == opt_str(i.image_url)
    &&& r.rating is None
}

/// The hits of a search as results; hits without an identifier are left
/// out.
pub fn search_results<R>(items: Vec<TvdbSearchItem>, is_series: bool) -> (r: Vec<VideoSearchResult<R>>)
    ensures
        r@.len() == identified(items@).len(),
        forall|j: int| 0 <= j < r@.len() ==> #[trigger] tvdb_result(r@[j], identified(items@)[j], is_series),
{
    let ghost all = items@;
    let mut rest = items;
    let ghost mut k: int = 0;
    let mut out: Vec<VideoSearchResult<R>> = Vec::new();
    while rest.len() > 0
        invariant
            0 <= k <= all.len(),
            rest@ == all.subrange(k, all.len() as int),
            out@.len() == identified(all.subrange(0, k)).len(),
            forall|j: int| 0 <= j < out@.len() ==> #[trigger] tvdb_result(out@[j], identified(all.subrange(0, k))[j], is_series),
        decreases rest@.len(),
    {
        let ghost before = out@;
        let ghost before_rest = rest@;
        let item = rest.remove(0);
        assert(item == before_rest[0]);
        assert(all.subrange(0, k + 1).drop_last() =~= all.subrange(0, k));
        assert(all.subrange(0, k + 1).last() == all[k]);
        let TvdbSearchItem { tvdb_id, name, year, overview, image_url } = item;
        match tvdb_id {
            Some(id) => {
                let y = parse_year(&year);
                out.push(VideoSearchResult {
                    provider: String::from_str("tvdb"),
                    result_type: if is_series { VideoResultType::Series } else { VideoResultType::Movie },
                    id: id,
                    title: take_text(name),
                    year: y,
                    overview: overview,
                    poster_url: image_url,
                    rating: None,
                });
                assert forall|j: int| 0 <= j < out@.len() implies #[trigger] tvdb_result(out@[j], identified(all.subrange(0, k + 1))[j], is_series) by {
                    if j < before.len() {
                        assert(out@[j] == before[j]);
                    }
                }
            },
            None => {
                assert(identified(all.subrange(0, k + 1)) =~= identified(all.subrange(0, k)));
            },
        }
        assert(rest@ =~= all.subrange(k + 1, all.len() as int));
        proof {
            k = k + 1;
        }
    }
    assert(all.subrange(0, k) =~= all);
    out
}

fn genre_names_of(genres: Vec<TvdbNameHolder>) -> (r: Vec<String>)
    ensures
        strs(r@) == Seq::new(genres@.len(), |i: int| genres@[i].name@),
{
    let ghost names = Seq::new(genres@.len(), |i: int| genres@[i].name@);
    let mut out: Vec<String> = Vec::new();
    let mut k: usize = 0;
    while k < genres.len()
        invariant
            0 <= k <= genres@.len(),
            names == Seq::new(genres@.len(), |i: int| genres@[i].name@),
            strs(out@) == names.subrange(0, k as int),
        decreases genres@.len() - k,
    {
        let ghost before = out@;
        let x = genres[k].name.clone();
        out.push(x);
        assert(out@ == before.push(x));
        assert(strs(out@) =~= strs(before).push(x@));
        assert(names.subrange(0, k + 1) =~= names.subrange(0, k as int).push(names[k as int]));
        k = k + 1;
    }
    assert(names.subrange(0, names.len() as int) =~= names);
    out
}

/// A movie looked up in full as the library's movie record: the fields
/// TheTVDB has, the rest unset.
pub fn movie_from_extended<R>(detail: TvdbSeriesExtended<R>) -> (r: MovieMetadata<R>)
    ensures
        r.title@ == text_or_empty(detail.name),
        r.year == year_from_date_spec(opt_str(detail.first_aired)),
        opt_str(r.release_date) == opt_str(detail.first_aired),
        opt_str(r.overview) == opt_str(detail.overview),
        strs(r.genres@) == Seq::new(detail.genres@.len(), |i: int| detail.genres@[i].name@),
        r.rating == detail.score,
        opt_str(r.poster_url) == opt_str(detail.image),
        r.original_title is None && r.tagline is None && r.runtime_minutes is None,
        r.country is None && r.tmdb_id is None && r.imdb_id is None && r.backdrop_url is None,
        r.studios@.len() == 0 && r.directors@.len() == 0 && r.writers@.len() == 0 && r.cast@.len() == 0,
{
    let year = parse_year(&detail.first_aired);
    MovieMetadata {
        title: take_text(detail.name),
        original_title: None,
        year: year,
        release_date: detail.first_aired,
        tagline: None,
        overview: detail.overview,
        runtime_minutes: None,
        genres: genre_names_of(detail.genres),
        rating: detail.score,
        country: None,
        studios: Vec::new(),
        directors: Vec::new(),
        writers: Vec::new(),
        cast: Vec::new(),
        tmdb_id: None,
        imdb_id: None,
        poster_url: detail.image,
        backdrop_url: None,
    }
}

/// A series looked up in full as the library's series record, without
/// episodes.
pub fn series_from_extended<R>(detail: TvdbSeriesExtended<R>) -> (r: SeriesMetadata<R>)
    ensures
        r.title@ == text_or_empty(detail.name),
        r.year == year_from_date_spec(opt_str(detail.first_aired)),
        opt_str(r.first_aired) == opt_str(detail.first_aired),
        opt_str(r.overview) == opt_str(detail.overview),
        strs(r.genres@) == Seq::new(detail.genres@.len(), |i: int| detail.genres@[i].name@),
        r.rating == detail.score,
        r.network is None,
        opt_str(r.status) == (match detail.status {
            Some(s) => Some(s.name@),
            None => None,
        }),
        r.total_seasons is None && r.tmdb_id is None && r.imdb_id is None && r.backdrop_url is None,
        opt_str(r.tvdb_id) == Some(decimal(detail.id as nat)),
        opt_str(r.poster_url) == opt_str(detail.image),
        r.episodes@.len() == 0,
{
    let year = parse_year(&detail.first_aired);
    let id = format_u64(detail.id);
    SeriesMetadata {
        title: take_text(detail.name),
        year: year,
        first_aired: detail.first_aired,
        overview: detail.overview,
        genres: genre_names_of(detail.genres),
        rating: detail.score,
        network: None,
        status: match detail.status {
            Some(s) => Some(s.name),
            None => None,
        },
        total_seasons: None,
        tmdb_id: None,
        tvdb_id: Some(string_from(id.as_slice())),
        imdb_id: None,
        poster_url: detail.image,
        backdrop_url: None,
        episodes: Vec::new(),
    }
}

/// Whether an episode is one of the season asked for (every episode when
/// none is).
pub open spec fn in_season(e: TvdbEpisode, season: Option<u32>) -> bool {
    season is None || e.season_number == season
}

/// The episodes of the season asked for, in order.
pub open spec fn season_episodes(episodes: Seq<TvdbEpisode>, season: Option<u32>) -> Seq<TvdbEpisode>
    decreases episodes.len(),
{
    if episodes.len() == 0 {
        Seq::empty()
    } else {
        season_episodes(episodes.drop_last(), season) + if in_season(episodes.last(), season) {
            seq![episodes.last()]
        } else {
            Seq::empty()
        }
    }
}

/// An episode as the library's episode record.
pub open spec fn tvdb_episode<R>(r: EpisodeMetadata<R>, e: TvdbEpisode) -> bool {
    &&& r.title@ == text_or_empty(e.name)
    &&& r.season == (match e.season_number {
        Some(n) => n,
        None => 0,
    })
    &&& r.episode == (match e.number {
        Some(n) => n,
        None => 0,
    })
    &&& opt_str(r.air_date) == opt_str(e.aired)
    &&& opt_str(r.overview) == opt_str(e.overview)
    &&& r.rating is None
    &&& r.runtime_minutes == e.runtime
    &&& opt_str(r.still_url) == opt_str(e.image)
    &&& r.tmdb_id is None
    &&& opt_str(r.tvdb_id) == (match e.id {
        Some(i) => Some(decimal(i as nat)),
        None => None,
    })
}

fn episode_of<R>(e: TvdbEpisode) -> (r: EpisodeMetadata<R>)
    ensures
        tvdb_episode(r, e),
{
    let tvdb_id = match e.id {
        Some(i) => {
            let c = format_u64(i);
            Some(string_from(c.as_slice()))
        },
        None => None,
    };
    EpisodeMetadata {
        title: take_text(e.name),
        season: match e.season_number {
            Some(n) => n,
            None => 0,
        },
        episode: match e.number {
            Some(n) => n,
            None => 0,
        },
        air_date: e.aired,
        overview: e.overview,
        rating: None,
        runtime_minutes: e.runtime,
        still_url: e.image,
        tmdb_id: None,
        tvdb_id: tvdb_id,
    }
}

/// A series' episodes as episode records, kept to the season asked for.
pub fn episodes_of<R>(episodes: Vec<TvdbEpisode>, season: Option<u32>) -> (r: Vec<EpisodeMetadata<R>>)
    ensures
        r@.len() == season_episodes(episodes@, season).len(),
        forall|j: int| 0 <= j < r@.len() ==> #[trigger] tvdb_episode(r@[j], season_episodes(episodes@, season)[j]),
{
    let ghost all = episodes@;
    let mut rest = episodes;
    let ghost mut k: int = 0;
    let mut out: Vec<EpisodeMetadata<R>> = Vec::new();
    while rest.len() > 0
        invariant
            0 <= k <= all.len(),
            rest@ == all.subrange(k, all.len() as int),
            out@.len() == season_episodes(all.subrange(0, k), season).len(),
            forall|j: int| 0 <= j < out@.len() ==> #[trigger] tvdb_episode(out@[j], season_episodes(all.subrange(0, k), season)[j]),
        decreases rest@.len(),
    {
        let ghost before = out@;
        let ghost before_rest = rest@;
        let e = rest.remove(0);
        assert(e == before_rest[0]);
        assert(all.subrange(0, k + 1).drop_last() =~= all.subrange(0, k));
        assert(all.subrange(0, k + 1).last() == all[k]);
        let keep = match season {
            None => true,
            Some(s) => match e.season_number {
                Some(n) => n == s,
                None => false,
            },
        };
        if keep {
            out.push(episode_of(e));
            assert forall|j: int| 0 <= j < out@.len() implies #[trigger] tvdb_episode(out@[j], season_episodes(all.subrange(0, k + 1), season)[j]) by {
                if j < before.len() {
                    assert(out@[j] == before[j]);
                }
            }
        } else {
            assert(season_episodes(all.subrange(0, k + 1), season) =~= season_episodes(all.subrange(0, k), season));
        }
        assert(rest@ =~= all.subrange(k + 1, all.len() as int));
        proof {
            k = k + 1;
        }
    }
    assert(all.subrange(0, k) =~= all);
    out
}

/// The kind of candidate an artwork type id gives: posters and
/// backgrounds; other types (icons, banners, clear art) give none.
pub open spec fn art_kind(t: Option<u32>) -> Option<Seq<char>> {
    match t {
        Some(n) => if n == 2 || n == 7 || n == 14 {
            Some("poster"@)
        } else if n == 3 || n == 15 {
            Some("backdrop"@)
        } else {
            None
        },
        None => None,
    }
}

/// Whether an artwork becomes a candidate: it has an image and a kind.
pub open spec fn usable<R>(a: TvdbArtwork<R>) -> bool {
    a.image is Some && art_kind(a.art_type) is Some
}

/// The artworks that become candidates, in order.
pub open spec fn usable_artworks<R>(artworks: Seq<TvdbArtwork<R>>) -> Seq<TvdbArtwork<R>>
    decreases artworks.len(),
{
    if artworks.len() == 0 {
        Seq::empty()
    } else {
        usable_artworks(artworks.drop_last()) + if usable(artworks.last()) {
            seq![artworks.last()]
        } else {
            Seq::empty()
        }
    }
}

/// An artwork as a candidate; the thumbnail falls back to the image.
pub open spec fn tvdb_artwork<R>(r: RemoteArtwork<R>, a: TvdbArtwork<R>) -> bool {
    &&& r.provider@ == "tvdb"@
    &&& Some(r.art_type@) == art_kind(a.art_type)
    &&& Some(r.url@) == opt_str(a.image)
    &&& r.thumb_url@ == (match a.thumbnail {
        Some(t) => t@,
        None => text_or_empty(a.image),
    })
    &&& r.width == a.width
    &&& r.height == a.height
    &&& opt_str(r.language) == opt_str(a.language)
    &&& r.rating == a.score
}

/// The posters and backgrounds among a title's artworks, as candidates.
pub fn artwork_candidates<R>(artworks: Vec<TvdbArtwork<R>>) -> (r: Vec<RemoteArtwork<R>>)
    ensures
        r@.len() == usable_artworks(artworks@).len(),
        forall|j: int| 0 <= j < r@.len() ==> #[trigger] tvdb_artwork(r@[j], usable_artworks(artworks@)[j]),
{
    let ghost all = artworks@;
    let mut rest = artworks;
    let ghost mut k: int = 0;
    let mut out: Vec<RemoteArtwork<R>> = Vec::new();
    while rest.len() > 0
        invariant
            0 <= k <= all.len(),
            rest@ == all.subrange(k, all.len() as int),
            out@.len() == usable_artworks(all.subrange(0, k)).len(),
            forall|j: int| 0 <= j < out@.len() ==> #[trigger] tvdb_artwork(out@[j], usable_artworks(all.subrange(0, k))[j]),
        decreases rest@.len(),
    {
        let ghost before = out@;
        let ghost before_rest = rest@;
        let a = rest.remove(0);
        assert(a == before_rest[0]);
        assert(all.subrange(0, k + 1).drop_last() =~= all.subrange(0, k));
        assert(all.subrange(0, k + 1).last() == all[k]);
        let ghost ag = a;
        let kind: Option<&str> = match a.art_type {
            Some(n) => if n == 2 || n == 7 || n == 14 {
                Some("poster")
            } else if n == 3 || n == 15 {
                Some("backdrop")
            } else {
                None
            },
            None => None,
        };
        let TvdbArtwork { image, thumbnail, width, height, language, score, art_type } = a;
        match (image, kind) {
            (Some(url), Some(k_str)) => {
                let thumb = match thumbnail {
                    Some(t) => t,
                    None => url.clone(),
                };
                out.push(RemoteArtwork {
                    provider: String::from_str("tvdb"),
                    art_type: String::from_str(k_str),
                    url: url,
                    thumb_url: thumb,
                    width: width,
                    height: height,
                    language: language,
                    rating: score,
                });
                assert(usable(ag));
                assert forall|j: int| 0 <= j < out@.len() implies #[trigger] tvdb_artwork(out@[j], usable_artworks(all.subrange(0, k + 1))[j]) by {
                    if j < before.len() {
                        assert(out@[j] == before[j]);
                    }
                }
            },
            _ => {
                assert(!usable(ag));
                assert(usable_artworks(all.subrange(0, k + 1)) =~= usable_artworks(all.subrange(0, k)));
            },
        }
        assert(rest@ =~= all.subrange(k + 1, all.len() as int));
        proof {
            k = k + 1;
        }
    }
    assert(all.subrange(0, k) =~= all);
    out
}

/// The path of a full lookup of a movie or series.
pub fn extended_path(id: &str, is_series: bool) -> (r: String)
    ensures
        r@ == (if is_series { "/series/"@ } else { "/movies/"@ }) + id@ + "/extended"@,
{
    let mut out: Vec<char> = Vec::new();
    if is_series {
        push_str(&mut out, "/series/");
    } else {
        push_str(&mut out, "/movies/");
    }
    push_str(&mut out, id);
    push_str(&mut out, "/extended");
    string_from(out.as_slice())
}

/// The path of a series' episode list in the default order.
pub fn episodes_path(series_id: &str) -> (r: String)
    ensures
        r@ == "/series/"@ + series_id@ + "/episodes/default"@,
{
    let mut out: Vec<char> = Vec::new();
    push_str(&mut out, "/series/");
    push_str(&mut out, series_id);
    push_str(&mut out, "/episodes/default");
    string_from(out.as_slice())
}

} // verus!
