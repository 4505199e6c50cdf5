//! TMDB: the requests, and movies, series, episodes and images as the
//! library's video records.
//!
//! Vote averages are decimal numbers; they pass through as the type
//! parameter `R`.
use vstd::prelude::*;
use vstd::utf8::encode_utf8;

use crate::error::NotataError;
use crate::models::book::{opt_str, strs};
use crate::models::video::{
    EpisodeMetadata, MovieMetadata, RemoteArtwork, SeriesMetadata, VideoResultType, VideoSearchResult,
};
use crate::providers::musicbrainz::year_of;
use crate::providers::{clone_opt, percent_encoded, url_encode};
use crate::text::{chars_of, decimal, format_u64, parse_i32, push_all, slice_range, str_eq, string_from, trim, trimmed};

verus! {

/// A movie in a search's results.
#[derive(Debug, Clone)]
pub struct TmdbMovieResult<R> {
    pub id: u64,
    pub title: String,
    pub release_date: Option<String>,
    pub overview: Option<String>,
    pub poster_path: Option<String>,
    pub vote_average: Option<R>,
}

/// A series in a search's results.
#[derive(Debug, Clone)]
pub struct TmdbSeriesResult<R> {
    pub id: u64,
    pub name: String,
    pub first_air_date: Option<String>,
    pub overview: Option<String>,
    pub poster_path: Option<String>,
    pub vote_average: Option<R>,
}

#[derive(Debug, Clone)]
pub struct TmdbGenre {
    pub name: String,
}

#[derive(Debug, Clone)]
pub struct TmdbCompany {
    pub name: String,
}

#[derive(Debug, Clone)]
pub struct TmdbCountry {
    pub iso_3166_1: String,
}

#[derive(Debug, Clone)]
pub struct TmdbCrewMember {
    pub name: String,
    pub job: String,
}

#[derive(Debug, Clone)]
pub struct TmdbCastMember {
    pub name: String,
}

#[derive(Debug, Clone)]
pub struct TmdbCredits {
    pub cast: Vec<TmdbCastMember>,
    pub crew: Vec<TmdbCrewMember>,
}

/// A movie looked up with its credits.
#[derive(Debug, Clone)]
pub struct TmdbMovieDetail<R> {
    pub id: u64,
    pub title: String,
    pub original_title: Option<String>,
    pub release_date: Option<String>,
    pub tagline: Option<String>,
    pub overview: Option<String>,
    pub runtime: Option<u32>,
    pub genres: Vec<TmdbGenre>,
    pub vote_average: Option<R>,
    pub production_companies: Vec<TmdbCompany>,
    pub production_countries: Vec<TmdbCountry>,
    pub imdb_id: Option<String>,
    pub poster_path: Option<String>,
    pub backdrop_path: Option<String>,
    pub credits: Option<TmdbCredits>,
}

#[derive(Debug, Clone)]
pub struct TmdbNetwork {
    pub name: String,
}

#[derive(Debug, Clone)]
pub struct TmdbExternalIds {
    pub imdb_id: Option<String>,
    pub tvdb_id: Option<u64>,
}

/// A series looked up with its external identifiers.
#[derive(Debug, Clone)]
pub struct TmdbSeriesDetail<R> {
    pub id: u64,
    pub name: String,
    pub first_air_date: Option<String>,
    pub overview: Option<String>,
    pub genres: Vec<TmdbGenre>,
    pub vote_average: Option<R>,
    pub networks: Vec<TmdbNetwork>,
    pub status: Option<String>,
    pub number_of_seasons: Option<u32>,
    pub poster_path: Option<String>,
    pub backdrop_path: Option<String>,
    pub external_ids: Option<TmdbExternalIds>,
}

#[derive(Debug, Clone)]
pub struct TmdbEpisode<R> {
    pub id: Option<u64>,
    pub name: Option<String>,
    pub season_number: Option<u32>,
    pub episode_number: Option<u32>,
    pub air_date: Option<String>,
    pub overview: Option<String>,
    pub vote_average: Option<R>,
    pub runtime: Option<u32>,
    pub still_path: Option<String>,
}

#[derive(Debug, Clone)]
pub struct TmdbImage<R> {
    pub file_path: String,
    pub width: Option<u32>,
    pub height: Option<u32>,
    pub iso_639_1: Option<String>,
    pub vote_average: Option<R>,
}

#[derive(Debug, Clone)]
pub struct TmdbImages<R> {
    pub posters: Vec<TmdbImage<R>>,
    pub backdrops: Vec<TmdbImage<R>>,
}

fn push_str(out: &mut Vec<char>, s: &str)
    ensures
        final(out)@ == old(out)@ + s@,
{
    let c = chars_of(s);
    push_all(out, c.as_slice());
}

/// An image's address at a given size, when there is an image.
pub open spec fn image_url_spec(path: Option<Seq<char>>, size: Seq<char>) -> Option<Seq<char>> {
    match path {
        Some(p) => Some("https://image.tmdb.org/t/p/"@ + size + p),
        None => None,
    }
}

pub fn image_url(path: &Option<String>, size: &str) -> (r: Option<String>)
    ensures
        opt_str(r) == image_url_spec(opt_str(*path), size@),
{
    match path {
        Some(p) => {
            let mut out: Vec<char> = Vec::new();
            push_str(&mut out, "https://image.tmdb.org/t/p/");
            push_str(&mut out, size);
            push_str(&mut out, p.as_str());
            Some(string_from(out.as_slice()))
        },
        None => None,
    }
}

/// TMDB dates are `YYYY-MM-DD`: the year is the first four characters,
/// read as a number.
pub open spec fn year_from_date_spec(date: Option<Seq<char>>) -> Option<i32> {
    match date {
        Some(d) => if d.len() >= 4 {
            year_of(d.subrange(0, 4))
        } else {
            None
        },
        None => None,
    }
}

pub fn year_from_date(date: &Option<String>) -> (r: Option<i32>)
    ensures
        r == year_from_date_spec(opt_str(*date)),
{
    match date {
        Some(d) => {
            let c = chars_of(d.as_str());
            if c.len() >= 4 {
                let head = slice_range(c.as_slice(), 0, 4);
                parse_i32(head.as_slice())
            } else {
                None
            }
        },
        None => None,
    }
}

/// The extra query parameters, each value URL-encoded.
pub open spec fn query_params(extra: Seq<(String, String)>) -> Seq<char>
    decreases extra.len(),
{
    if extra.len() == 0 {
        Seq::empty()
    } else {
        query_params(extra.drop_last()) + "&"@ + extra.last().0@ + "="@ + percent_encoded(
            encode_utf8(extra.last().1@),
        )
    }
}

/// A request to the API: the path, the key and the extra parameters.
pub open spec fn api_url_spec(path: Seq<char>, key: Seq<char>, extra: Seq<(String, String)>) -> Seq<char> {
    "https://api.themoviedb.org/3"@ + path + "?api_key="@ + key + query_params(extra)
}

pub fn api_url(path: &str, key: &str, extra: &[(String, String)]) -> (r: String)
    ensures
        r@ == api_url_spec(path@, key@, extra@),
{
    let mut out: Vec<char> = Vec::new();
    push_str(&mut out, "https://api.themoviedb.org/3");
    push_str(&mut out, path);
    push_str(&mut out, "?api_key=");
    push_str(&mut out, key);
    let ghost head = out@;
    let mut k: usize = 0;
    while k < extra.len()
        invariant
            0 <= k <= extra@.len(),
            out@ == head + query_params(extra@.subrange(0, k as int)),
        decreases extra@.len() - k,
    {
        assert(extra@.subrange(0, k + 1).drop_last() =~= extra@.subrange(0, k as int));
        push_str(&mut out, "&");
        push_str(&mut out, extra[k].0.as_str());
        push_str(&mut out, "=");
        let enc = url_encode(extra[k].1.as_str());
        push_str(&mut out, enc.as_str());
        k = k + 1;
    }
    assert(extra@.subrange(0, extra@.len() as int) =~= extra@);
    string_from(out.as_slice())
}

/// The key kept from the settings: a blank one counts as none.
pub open spec fn configured_key_spec(api_key: Option<Seq<char>>) -> Option<Seq<char>> {
    match api_key {
        Some(k) => if trim(k).len() > 0 {
            Some(k)
        } else {
            None
        },
        None => None,
    }
}

pub fn configured_key(api_key: Option<String>) -> (r: Option<String>)
    ensures
        opt_str(r) == configured_key_spec(opt_str(api_key)),
{
    match api_key {
        Some(k) => {
            let c = chars_of(k.as_str());
            let t = trimmed(c.as_slice());
            if t.len() > 0 {
                Some(k)
            } else {
                None
            }
        },
        None => None,
    }
}

/// The key a request is sent with; without one, the error that asks for it.
pub fn require_key(api_key: &Option<String>) -> (r: Result<String, NotataError>)
    ensures
        match r {
            Ok(k) => *api_key == Some(k),
            Err(e) => api_key is None && e is Provider && e->provider@ == "tmdb"@ && e->message@
                == "No TMDB API key configured. Add one in Settings."@,
        },
{
    match api_key {
        Some(k) => Ok(k.clone()),
        None => Err(
            NotataError::Provider {
                provider: String::from_str("tmdb"),
                message: String::from_str("No TMDB API key configured. Add one in Settings."),
            },
        ),
    }
}

fn id_text(id: u64) -> (r: String)
    ensures
        r@ == decimal(id as nat),
{
    let c = format_u64(id);
    string_from(c.as_slice())
}

/// A movie search hit as a search result.
pub fn movie_result<R>(m: TmdbMovieResult<R>) -> (r: VideoSearchResult<R>)
    ensures
        r.provider@ == "tmdb"@,
        r.result_type == VideoResultType::Movie,
        r.id@ == decimal(m.id as nat),
        r.title@ == m.title@,
        r.year == year_from_date_spec(opt_str(m.release_date)),
        opt_str(r.overview) == opt_str(m.overview),
        opt_str(r.poster_url) == image_url_spec(opt_str(m.poster_path), "w342"@),
        r.rating == m.vote_average,
{
    let year = year_from_date(&m.release_date);
    let poster = image_url(&m.poster_path, "w342");
    VideoSearchResult {
        provider: String::from_str("tmdb"),
        result_type: VideoResultType::Movie,
        id: id_text(m.id),
        title: m.title,
        year: year,
        overview: m.overview,
        poster_url: poster,
        rating: m.vote_average,
    }
}

/// A series search hit as a search result.
pub fn series_result<R>(s: TmdbSeriesResult<R>) -> (r: VideoSearchResult<R>)
    ensures
        r.provider@ == "tmdb"@,
        r.result_type == VideoResultType::Series,
        r.id@ == decimal(s.id as nat),
        r.title@ == s.name@,
        r.year == year_from_date_spec(opt_str(s.first_air_date)),
        opt_str(r.overview) == opt_str(s.overview),
        opt_str(r.poster_url) == image_url_spec(opt_str(s.poster_path), "w342"@),
        r.rating == s.vote_average,
{
    let year = year_from_date(&s.first_air_date);
    let poster = image_url(&s.poster_path, "w342");
    VideoSearchResult {
        provider: String::from_str("tmdb"),
        result_type: VideoResultType::Series,
        id: id_text(s.id),
        title: s.name,
        year: year,
        overview: s.overview,
        poster_url: poster,
        rating: s.vote_average,
    }
}

pub open spec fn genre_names(g: Seq<TmdbGenre>) -> Seq<Seq<char>> {
    Seq::new(g.len(), |i: int| g[i].name@)
}

pub open spec fn company_names(c: Seq<TmdbCompany>) -> Seq<Seq<char>> {
    Seq::new(c.len(), |i: int| c[i].name@)
}

pub open spec fn is_director(job: Seq<char>) -> bool {
    job == "Director"@
}

pub open spec fn is_writer(job: Seq<char>) -> bool {
    job == "Writer"@ || job == "Screenplay"@
}

/// The names of the crew in the given role, in credit order: directors,
/// or writers (credited as `Writer` or `Screenplay`).
pub open spec fn crew_names(crew: Seq<TmdbCrewMember>, writers: bool) -> Seq<Seq<char>>
    decreases crew.len(),
{
    if crew.len() == 0 {
        Seq::empty()
    } else {
        let m = crew.last();
        let keep = if writers {
            is_writer(m.job@)
        } else {
            is_director(m.job@)
        };
        crew_names(crew.drop_last(), writers) + if keep {
            seq![m.name@]
        } else {
            Seq::empty()
        }
    }
}

/// The top-billed cast: the first twenty names.
pub open spec fn top_cast(cast: Seq<TmdbCastMember>) -> Seq<Seq<char>> {
    let names = Seq::new(cast.len(), |i: int| cast[i].name@);
    if names.len() <= 20 {
        names
    } else {
        names.subrange(0, 20)
    }
}

fn genres_of(g: &Vec<TmdbGenre>) -> (r: Vec<String>)
    ensures
        strs(r@) == genre_names(g@),
{
    let mut out: Vec<String> = Vec::new();
    let mut k: usize = 0;
    while k < g.len()
        invariant
            0 <= k <= g@.len(),
            strs(out@) == genre_names(g@).subrange(0, k as int),
        decreases g@.len() - k,
    {
        let ghost before = out@;
        let x = g[k].name.clone();
        out.push(x);
        assert(out@ == before.push(x));
        assert(strs(out@) =~= strs(before).push(x@));
        assert(genre_names(g@).subrange(0, k + 1) =~= genre_names(g@).subrange(0, k as int).push(genre_names(g@)[k as int]));
        assert(strs(out@) =~= genre_names(g@).subrange(0, k + 1));
        k = k + 1;
    }
    assert(genre_names(g@).subrange(0, g@.len() as int) =~= genre_names(g@));
    out
}

fn companies_of(c: &Vec<TmdbCompany>) -> (r: Vec<String>)
    ensures
        strs(r@) == company_names(c@),
{
    let mut out: Vec<String> = Vec::new();
    let mut k: usize = 0;
    while k < c.len()
        invariant
            0 <= k <= c@.len(),
            strs(out@) == company_names(c@).subrange(0, k as int),
        decreases c@.len() - k,
    {
        let ghost before = out@;
        let x = c[k].name.clone();
        out.push(x);
        assert(out@ == before.push(x));
        assert(strs(out@) =~= strs(before).push(x@));
        assert(company_names(c@).subrange(0, k + 1) =~= company_names(c@).subrange(0, k as int).push(company_names(c@)[k as int]));
        assert(strs(out@) =~= company_names(c@).subrange(0, k + 1));
        k = k + 1;
    }
    assert(company_names(c@).subrange(0, c@.len() as int) =~= company_names(c@));
    out
}

fn crew_of(crew: &Vec<TmdbCrewMember>, writers: bool) -> (r: Vec<String>)
    ensures
        strs(r@) == crew_names(crew@, writers),
{
    let mut out: Vec<String> = Vec::new();
    let mut k: usize = 0;
    while k < crew.len()
        invariant
            0 <= k <= crew@.len(),
            strs(out@) == crew_names(crew@.subrange(0, k as int), writers),
        decreases crew@.len() - k,
    {
        assert(crew@.subrange(0, k + 1).drop_last() =~= crew@.subrange(0, k as int));
        let job = crew[k].job.as_str();
        let keep = if writers {
            str_eq(job, "Writer") || str_eq(job, "Screenplay")
        } else {
            str_eq(job, "Director")
        };
        if keep {
            let ghost before = out@;
            out.push(crew[k].name.clone());
            assert(strs(out@) =~= strs(before) + seq![crew@[k as int].name@]);
        } else {
            assert(strs(out@) =~= strs(out@) + Seq::<Seq<char>>::empty());
        }
        k = k + 1;
    }
    assert(crew@.subrange(0, crew@.len() as int) =~= crew@);
    out
}

fn cast_of(cast: &Vec<TmdbCastMember>) -> (r: Vec<String>)
    ensures
        strs(r@) == top_cast(cast@),
{
    let ghost names = Seq::new(cast@.len(), |i: int| cast@[i].name@);
    let n: usize = if cast.len() <= 20 { cast.len() } else { 20 };
    let mut out: Vec<String> = Vec::new();
    let mut k: usize = 0;
    while k < n
        invariant
            0 <= k <= n <= cast@.len(),
            n == (if cast@.len() <= 20 { cast@.len() as int } else { 20 }),
            names == Seq::new(cast@.len(), |i: int| cast@[i].name@),
            strs(out@) == names.subrange(0, k as int),
        decreases n - k,
    {
        let ghost before = out@;
        let x = cast[k].name.clone();
        out.push(x);
        assert(out@ == before.push(x));
        assert(strs(out@) =~= strs(before).push(x@));
        assert(names.subrange(0, k + 1) =~= names.subrange(0, k as int).push(names[k as int]));
        assert(strs(out@) =~= names.subrange(0, k + 1));
        k = k + 1;
    }
    assert(names.subrange(0, names.len() as int) =~= names);
    out
}

/// A looked-up movie as the library's movie record.
///
/// Directors and writers come from the crew in credit order, the cast is
/// the top twenty names; without credits all three are empty. An empty
/// tagline counts as none.
pub fn movie_from_detail<R>(detail: TmdbMovieDetail<R>) -> (r: MovieMetadata<R>)
    ensures
        r.title@ == detail.title@,
        opt_str(r.original_title) == opt_str(detail.original_title),
        r.year == year_from_date_spec(opt_str(detail.release_date)),
        opt_str(r.release_date) == opt_str(detail.release_date),
        opt_str(r.tagline) == (match detail.tagline {
            Some(t) => if t@.len() > 0 { Some(t@) } else { None },
            None => None,
        }),
        opt_str(r.overview) == opt_str(detail.overview),
        r.runtime_minutes == detail.runtime,
        strs(r.genres@) == genre_names(detail.genres@),
        r.rating == detail.vote_average,
        opt_str(r.country) == (if detail.production_countries@.len() > 0 {
            Some(detail.production_countries@[0].iso_3166_1@)
        } else {
            None
        }),
        strs(r.studios@) == company_names(detail.production_companies@),
        strs(r.directors@) == (match detail.credits {
            Some(c) => crew_names(c.crew@, false),
            None => Seq::empty(),
        }),
        strs(r.writers@) == (match detail.credits {
            Some(c) => crew_names(c.crew@, true),
            None => Seq::empty(),
        }),
        strs(r.cast@) == (match detail.credits {
            Some(c) => top_cast(c.cast@),
            None => Seq::empty(),
        }),
        opt_str(r.tmdb_id) == Some(decimal(detail.id as nat)),
        opt_str(r.imdb_id) == opt_str(detail.imdb_id),
        opt_str(r.poster_url) == image_url_spec(opt_str(detail.poster_path), "original"@),
        opt_str(r.backdrop_url) == image_url_spec(opt_str(detail.backdrop_path), "original"@),
{
    let (directors, writers, cast) = match &detail.credits {
        Some(c) => (crew_of(&c.crew, false), crew_of(&c.crew, true), cast_of(&c.cast)),
        None => {
            let (d, w, k): (Vec<String>, Vec<String>, Vec<String>) = (Vec::new(), Vec::new(), Vec::new());
            assert(strs(d@) =~= Seq::<Seq<char>>::empty());
            (d, w, k)
        },
    };
    let year = year_from_date(&detail.release_date);
    let tagline = match &detail.tagline {
        Some(t) => if chars_of(t.as_str()).len() > 0 { Some(t.clone()) } else { None },
        None => None,
    };
    let country = if detail.production_countries.len() > 0 {
        Some(detail.production_countries[0].iso_3166_1.clone())
    } else {
        None
    };
    let genres = genres_of(&detail.genres);
    let studios = companies_of(&detail.production_companies);
    let poster = image_url(&detail.poster_path, "original");
    let backdrop = image_url(&detail.backdrop_path, "original");
    MovieMetadata {
        title: detail.title,
        original_title: detail.original_title,
        year: year,
        release_date: detail.release_date,
        tagline: tagline,
        overview: detail.overview,
        runtime_minutes: detail.runtime,
        genres: genres,
        rating: detail.vote_average,
        country: country,
        studios: studios,
        directors: directors,
        writers: writers,
        cast: cast,
        tmdb_id: Some(id_text(detail.id)),
        imdb_id: detail.imdb_id,
        poster_url: poster,
        backdrop_url: backdrop,
    }
}

fn opt_id_text(id: Option<u64>) -> (r: Option<String>)
    ensures
        opt_str(r) == (match id {
            Some(i) => Some(decimal(i as nat)),
            None => None,
        }),
{
    match id {
        Some(i) => Some(id_text(i)),
        None => None,
    }
}

/// A looked-up series as the library's series record, without episodes.
pub fn series_from_detail<R>(detail: TmdbSeriesDetail<R>) -> (r: SeriesMetadata<R>)
    ensures
        r.title@ == detail.name@,
        r.year == year_from_date_spec(opt_str(detail.first_air_date)),
        opt_str(r.first_aired) == opt_str(detail.first_air_date),
        opt_str(r.overview) == opt_str(detail.overview),
        strs(r.genres@) == genre_names(detail.genres@),
        r.rating == detail.vote_average,
        opt_str(r.network) == (if detail.networks@.len() > 0 {
            Some(detail.networks@[0].name@)
        } else {
            None
        }),
        opt_str(r.status) == opt_str(detail.status),
        r.total_seasons == detail.number_of_seasons,
        opt_str(r.tmdb_id) == Some(decimal(detail.id as nat)),
        opt_str(r.tvdb_id) == (match detail.external_ids {
            Some(e) => match e.tvdb_id {
                Some(i) => Some(decimal(i as nat)),
                None => None,
            },
            None => None,
        }),
        opt_str(r.imdb_id) == (match detail.external_ids {
            Some(e) => opt_str(e.imdb_id),
            None => None,
        }),
        opt_str(r.poster_url) == image_url_spec(opt_str(detail.poster_path), "original"@),
        opt_str(r.backdrop_url) == image_url_spec(opt_str(detail.backdrop_path), "original"@),
        r.episodes@.len() == 0,
{
    let year = year_from_date(&detail.first_air_date);
    let genres = genres_of(&detail.genres);
    let network = if detail.networks.len() > 0 {
        Some(detail.networks[0].name.clone())
    } else {
        None
    };
    let (tvdb_id, imdb_id) = match &detail.external_ids {
        Some(e) => (opt_id_text(e.tvdb_id), clone_opt(&e.imdb_id)),
        None => (None, None),
    };
    let poster = image_url(&detail.poster_path, "original");
    let backdrop = image_url(&detail.backdrop_path, "original");
    SeriesMetadata {
        title: detail.name,
        year: year,
        first_aired: detail.first_air_date,
        overview: detail.overview,
        genres: genres,
        rating: detail.vote_average,
        network: network,
        status: detail.status,
        total_seasons: detail.number_of_seasons,
        tmdb_id: Some(id_text(detail.id)),
        tvdb_id: tvdb_id,
        imdb_id: imdb_id,
        poster_url: poster,
        backdrop_url: backdrop,
        episodes: Vec::new(),
    }
}

/// An episode of a season as the library's episode record: a missing name
/// is empty, a missing season or episode number is 0.
pub open spec fn tmdb_episode<R>(r: EpisodeMetadata<R>, e: TmdbEpisode<R>) -> bool {
    &&& r.title@ == (match e.name {
        Some(n) => n@,
        None => Seq::empty(),
    })
    &&& r.season == (match e.season_number {
        Some(n) => n,
        None => 0,
    })
    &&& r.episode == (match e.episode_number {
        Some(n) => n,
        None => 0,
    })
    &&& opt_str(r.air_date) == opt_str(e.air_date)
    &&& opt_str(r.overview) == opt_str(e.overview)
    &&& r.rating == e.vote_average
    &&& r.runtime_minutes == e.runtime
    &&& opt_str(r.still_url) == image_url_spec(opt_str(e.still_path), "w300"@)
    &&& opt_str(r.tmdb_id) == (match e.id {
        Some(i) => Some(decimal(i as nat)),
        None => None,
    })
    &&& r.tvdb_id is None
}

pub fn episode_from<R>(e: TmdbEpisode<R>) -> (r: EpisodeMetadata<R>)
    ensures
        tmdb_episode(r, e),
{
    let still = image_url(&e.still_path, "w300");
    let tmdb_id = opt_id_text(e.id);
    let title = match e.name {
        Some(n) => n,
        None => String::new(),
    };
    EpisodeMetadata {
        title: title,
        season: match e.season_number {
            Some(n) => n,
            None => 0,
        },
        episode: match e.episode_number {
            Some(n) => n,
            None => 0,
        },
        air_date: e.air_date,
        overview: e.overview,
        rating: e.vote_average,
        runtime_minutes: e.runtime,
        still_url: still,
        tmdb_id: tmdb_id,
        tvdb_id: None,
    }
}

/// A season's episodes, in the order given.
pub fn episodes_from<R>(episodes: Vec<TmdbEpisode<R>>) -> (r: Vec<EpisodeMetadata<R>>)
    ensures
        r@.len() == episodes@.len(),
        forall|i: int| 0 <= i < episodes@.len() ==> #[trigger] tmdb_episode(r@[i], episodes@[i]),
{
    let ghost all = episodes@;
    let mut rest = episodes;
    let mut out: Vec<EpisodeMetadata<R>> = Vec::new();
    while rest.len() > 0
        invariant
            out@.len() + rest@.len() == all.len(),
            rest@ == all.subrange(out@.len() as int, all.len() as int),
            forall|i: int| 0 <= i < out@.len() ==> #[trigger] tmdb_episode(out@[i], all[i]),
        decreases rest@.len(),
    {
        let ghost k = out@.len() as int;
        let ghost before = out@;
        let e = rest.remove(0);
        assert(e == all[k]);
        out.push(episode_from(e));
        assert forall|i: int| 0 <= i < out@.len() implies #[trigger] tmdb_episode(out@[i], all[i]) by {
            if i < k {
                assert(out@[i] == before[i]);
            }
        }
        assert(rest@ =~= all.subrange(k + 1, all.len() as int));
    }
    out
}

/// The seasons whose episodes are fetched: the one asked for, else every
/// season the series reports, from 1.
pub open spec fn seasons_spec(season: Option<u32>, number_of_seasons: Option<u32>) -> Seq<u32> {
    match season {
        Some(s) => seq![s],
        None => {
            let n = match number_of_seasons {
                Some(n) => n,
                None => 0,
            };
            Seq::new(n as nat, |i: int| (i + 1) as u32)
        },
    }
}

pub fn seasons_to_fetch(season: Option<u32>, number_of_seasons: Option<u32>) -> (r: Vec<u32>)
    ensures
        r@ == seasons_spec(season, number_of_seasons),
{
    match season {
        Some(s) => {
            let mut v: Vec<u32> = Vec::new();
            v.push(s);
            assert(v@ =~= seq![s]);
            v
        },
        None => {
            let n: u32 = match number_of_seasons {
                Some(n) => n,
                None => 0,
            };
            let mut v: Vec<u32> = Vec::new();
            let mut k: u32 = 0;
            while k < n
                invariant
                    k <= n,
                    v@ =~= Seq::new(k as nat, |i: int| (i + 1) as u32),
                decreases n - k,
            {
                v.push(k + 1);
                k = k + 1;
            }
            v
        },
    }
}

/// A provider image as a candidate, at full size and as a `w342` thumbnail.
pub open spec fn tmdb_artwork<R>(a: RemoteArtwork<R>, img: TmdbImage<R>, art_type: Seq<char>) -> bool {
    &&& a.provider@ == "tmdb"@
    &&& a.art_type@ == art_type
    &&& a.url@ == "https://image.tmdb.org/t/p/original"@ + img.file_path@
    &&& a.thumb_url@ == "https://image.tmdb.org/t/p/w342"@ + img.file_path@
    &&& a.width == img.width
    &&& a.height == img.height
    &&& opt_str(a.language) == opt_str(img.iso_639_1)
    &&& a.rating == img.vote_average
}

fn artwork_of<R>(img: TmdbImage<R>, art_type: &str) -> (r: RemoteArtwork<R>)
    ensures
        tmdb_artwork(r, img, art_type@),
{
    let mut url: Vec<char> = Vec::new();
    push_str(&mut url, "https://image.tmdb.org/t/p/original");
    push_str(&mut url, img.file_path.as_str());
    let mut thumb: Vec<char> = Vec::new();
    push_str(&mut thumb, "https://image.tmdb.org/t/p/w342");
    push_str(&mut thumb, img.file_path.as_str());
    RemoteArtwork {
        provider: String::from_str("tmdb"),
        art_type: String::from_str(art_type),
        url: string_from(url.as_slice()),
        thumb_url: string_from(thumb.as_slice()),
        width: img.width,
        height: img.height,
        language: img.iso_639_1,
        rating: img.vote_average,
    }
}

fn push_artwork<R>(out: &mut Vec<RemoteArtwork<R>>, images: Vec<TmdbImage<R>>, art_type: &str)
    ensures
        final(out)@.len() == old(out)@.len() + images@.len(),
        forall|i: int| 0 <= i < old(out)@.len() ==> #[trigger] final(out)@[i] == old(out)@[i],
        forall|i: int|
            0 <= i < images@.len() ==> #[trigger] tmdb_artwork(final(out)@[old(out)@.len() + i], images@[i], art_type@),
{
    let ghost start = out@;
    let ghost all = images@;
    let mut rest = images;
    let ghost mut k: int = 0;
    while rest.len() > 0
        invariant
            0 <= k,
            out@.len() == start.len() + k,
            k + rest@.len() == all.len(),
            rest@ == all.subrange(k, all.len() as int),
            forall|i: int| 0 <= i < start.len() ==> #[trigger] out@[i] == start[i],
            forall|i: int| 0 <= i < k ==> #[trigger] tmdb_artwork(out@[start.len() + i], all[i], art_type@),
        decreases rest@.len(),
    {
        let ghost before = out@;
        let ghost before_rest = rest@;
        let img = rest.remove(0);
        assert(img == before_rest[0]);
        assert(before_rest[0] == all[k]);
        out.push(artwork_of(img, art_type));
        assert forall|i: int| 0 <= i < k + 1 implies #[trigger] tmdb_artwork(out@[start.len() + i], all[i], art_type@) by {
            if i < k {
                assert(out@[start.len() + i] == before[start.len() + i]);
            }
        }
        assert(rest@ =~= all.subrange(k + 1, all.len() as int));
        proof {
            k = k + 1;
        }
    }
}

/// Every poster, then every backdrop, as candidates.
pub fn artwork_from_images<R>(images: TmdbImages<R>) -> (r: Vec<RemoteArtwork<R>>)
    ensures
        r@.len() == images.posters@.len() + images.backdrops@.len(),
        forall|i: int|
            0 <= i < images.posters@.len() ==> #[trigger] tmdb_artwork(r@[i], images.posters@[i], "poster"@),
        forall|i: int|
            0 <= i < images.backdrops@.len() ==> #[trigger] tmdb_artwork(
                r@[images.posters@.len() + i],
                images.backdrops@[i],
                "backdrop"@,
            ),
{
    let ghost posters = images.posters@;
    let mut out: Vec<RemoteArtwork<R>> = Vec::new();
    push_artwork(&mut out, images.posters, "poster");
    let ghost mid = out@;
    push_artwork(&mut out, images.backdrops, "backdrop");
    assert forall|i: int| 0 <= i < posters.len() implies #[trigger] tmdb_artwork(out@[i], posters[i], "poster"@) by {
        assert(out@[i] == mid[i]);
        assert(mid[0 + i] == mid[i]);
    }
    out
}

/// The path of a title's images.
pub fn images_path(id: &str, is_series: bool) -> (r: String)
    ensures
        r@ == (if is_series { "/tv/"@ } else { "/movie/"@ }) + id@ + "/images"@,
{
    let mut out: Vec<char> = Vec::new();
    if is_series {
        push_str(&mut out, "/tv/");
    } else {
        push_str(&mut out, "/movie/");
    }
    push_str(&mut out, id);
    push_str(&mut out, "/images");
    string_from(out.as_slice())
}

/// The path of one season of a series.
pub fn season_path(series_id: &str, season: u32) -> (r: String)
    ensures
        r@ == "/tv/"@ + series_id@ + "/season/"@ + decimal(season as nat),
{
    let mut out: Vec<char> = Vec::new();
    push_str(&mut out, "/tv/");
    push_str(&mut out, series_id);
    push_str(&mut out, "/season/");
    let n = format_u64(season as u64);
    push_all(&mut out, n.as_slice());
    string_from(out.as_slice())
}

/// The parameters of a title search: the query, and the year when one is
/// given (`year` for movies, `first_air_date_year` for series).
pub open spec fn search_params_spec(query: Seq<char>, year: Option<i32>, is_series: bool) -> Seq<(Seq<char>, Seq<char>)> {
    match year {
        Some(y) => seq![
            ("query"@, query),
            (if is_series { "first_air_date_year"@ } else { "year"@ }, crate::text::signed_decimal(y as int)),
        ],
        None => seq![("query"@, query)],
    }
}

pub open spec fn params_view(v: Seq<(String, String)>) -> Seq<(Seq<char>, Seq<char>)> {
    Seq::new(v.len(), |i: int| (v[i].0@, v[i].1@))
}

pub fn search_params(query: &str, year: Option<i32>, is_series: bool) -> (r: Vec<(String, String)>)
    ensures
        params_view(r@) == search_params_spec(query@, year, is_series),
{
    let mut v: Vec<(String, String)> = Vec::new();
    v.push((String::from_str("query"), String::from_str(query)));
    match year {
        Some(y) => {
            let key = if is_series {
                String::from_str("first_air_date_year")
            } else {
                String::from_str("year")
            };
            let digits = crate::text::format_i64(y as i64);
            v.push((key, string_from(digits.as_slice())));
        },
        None => {},
    }
    assert(params_view(v@) =~= search_params_spec(query@, year, is_series));
    v
}

/// The path of a movie or series lookup.
pub fn title_path(id: &str, is_series: bool) -> (r: String)
    ensures
        r@ == (if is_series { "/tv/"@ } else { "/movie/"@ }) + id@,
{
    let mut out: Vec<char> = Vec::new();
    if is_series {
        push_str(&mut out, "/tv/");
    } else {
        push_str(&mut out, "/movie/");
    }
    push_str(&mut out, id);
    string_from(out.as_slice())
}

} // verus!
