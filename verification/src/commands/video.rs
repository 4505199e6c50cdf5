//! Folding a provider's record into a video file's metadata.
use vstd::prelude::*;

use crate::models::video::{ActorCredit, EpisodeMetadata, MovieMetadata, SeriesMetadata, VideoKind, VideoMetadata};

verus! {

/// The provider's value when it has one, else the current one.
pub open spec fn prefer<T>(provider: Option<T>, current: Option<T>) -> Option<T> {
    match provider {
        Some(v) => Some(v),
        None => current,
    }
}

/// A list from the provider replaces the current one unless it is empty.
pub open spec fn prefer_list(provider: Vec<String>, current: Vec<String>) -> Vec<String> {
    if provider@.len() > 0 {
        provider
    } else {
        current
    }
}

/// The cast as actor credits: names only.
pub open spec fn credits_of(cast: Seq<String>, actors: Seq<ActorCredit>) -> bool {
    &&& actors.len() == cast.len()
    &&& forall|i: int| 0 <= i < cast.len() ==> #[trigger] actors[i].name == cast[i] && actors[i].role is None
        && actors[i].thumb is None
}

/// `Option::or`: the provider's value when it has one.
fn take<T>(provider: Option<T>, current: Option<T>) -> (r: Option<T>)
    ensures
        r == prefer(provider, current),
{
    match provider {
        Some(v) => Some(v),
        None => current,
    }
}

fn credits(cast: Vec<String>) -> (r: Vec<ActorCredit>)
    ensures
        credits_of(cast@, r@),
{
    let mut out: Vec<ActorCredit> = Vec::new();
    let mut rest = cast;
    let ghost all = rest@;
    let ghost mut k: int = 0;
    while rest.len() > 0
        invariant
            0 <= k <= all.len(),
            rest@ == all.subrange(k, all.len() as int),
            out@.len() == k,
            forall|i: int| 0 <= i < k ==> #[trigger] out@[i].name == all[i] && out@[i].role is None && out@[i].thumb is None,
        decreases rest@.len(),
    {
        let ghost before = rest@;
        let ghost ob = out@;
        let name = rest.remove(0);
        proof {
            assert(name == before[0]);
            assert(before[0] == all[k]);
        }
        out.push(ActorCredit { name, role: None, thumb: None });
        proof {
            assert(forall|i: int| 0 <= i < k ==> out@[i] == ob[i]);
            assert(rest@ =~= all.subrange(k + 1, all.len() as int));
            k = k + 1;
        }
    }
    proof {
        assert(k == all.len());
    }
    out
}

/// Fold a provider movie record into a file's metadata.
///
/// Provider values win for the fields it supplies, and everything else is
/// preserved; a non-empty cast replaces the actors with bare credits, and a
/// country replaces the countries.
pub fn apply_movie_to_metadata<R>(current: VideoMetadata<R>, movie: MovieMetadata<R>) -> (r: VideoMetadata<R>)
    ensures
        r.kind == VideoKind::Movie,
        r.title == Some(movie.title),
        r.original_title == prefer(movie.original_title, current.original_title),
        r.year == prefer(movie.year, current.year),
        r.release_date == prefer(movie.release_date, current.release_date),
        r.tagline == prefer(movie.tagline, current.tagline),
        r.plot == prefer(movie.overview, current.plot),
        r.runtime_minutes == prefer(movie.runtime_minutes, current.runtime_minutes),
        r.rating == prefer(movie.rating, current.rating),
        r.genres == prefer_list(movie.genres, current.genres),
        r.studios == prefer_list(movie.studios, current.studios),
        r.countries@ == (match movie.country {
            Some(c) => seq![c],
            None => current.countries@,
        }),
        r.directors == prefer_list(movie.directors, current.directors),
        r.writers == prefer_list(movie.writers, current.writers),
        if movie.cast@.len() > 0 { credits_of(movie.cast@, r.actors@) } else { r.actors == current.actors },
        r.tmdb_id == prefer(movie.tmdb_id, current.tmdb_id),
        r.imdb_id == prefer(movie.imdb_id, current.imdb_id),
        r.sort_title == current.sort_title,
        r.outline == current.outline,
        r.votes == current.votes,
        r.certification == current.certification,
        r.tags == current.tags,
        r.show_title == current.show_title,
        r.season == current.season,
        r.episode == current.episode,
        r.aired == current.aired,
        r.tvdb_id == current.tvdb_id,
        r.trailer == current.trailer,
        r.source == current.source,
        r.nfo_path == current.nfo_path,
{
    let mut next = current;
    next.kind = VideoKind::Movie;
    next.title = Some(movie.title);
    next.original_title = take(movie.original_title, next.original_title);
    next.year = take(movie.year, next.year);
    next.release_date = take(movie.release_date, next.release_date);
    next.tagline = take(movie.tagline, next.tagline);
    next.plot = take(movie.overview, next.plot);
    next.runtime_minutes = take(movie.runtime_minutes, next.runtime_minutes);
    next.rating = take(movie.rating, next.rating);
    if movie.genres.len() > 0 {
        next.genres = movie.genres;
    }
    if movie.studios.len() > 0 {
        next.studios = movie.studios;
    }
    if let Some(country) = movie.country {
        next.countries = vec![country];
    }
    if movie.directors.len() > 0 {
        next.directors = movie.directors;
    }
    if movie.writers.len() > 0 {
        next.writers = movie.writers;
    }
    if movie.cast.len() > 0 {
        next.actors = credits(movie.cast);
    }
    next.tmdb_id = take(movie.tmdb_id, next.tmdb_id);
    next.imdb_id = take(movie.imdb_id, next.imdb_id);
    next
}

/// Fold a provider episode (plus its series) into a file's metadata.
///
/// The episode's air date stands for both the air date and the release
/// date; a network replaces the studios; the TVDB id comes from the
/// episode, else the series.
pub fn apply_episode_to_metadata<R>(
    current: VideoMetadata<R>,
    series: SeriesMetadata<R>,
    episode: EpisodeMetadata<R>,
) -> (r: VideoMetadata<R>)
    ensures
        r.kind == VideoKind::Episode,
        r.title == Some(episode.title),
        r.show_title == Some(series.title),
        r.season == Some(episode.season),
        r.episode == Some(episode.episode),
        r.aired == prefer(episode.air_date, current.aired),
        r.release_date == prefer(episode.air_date, current.release_date),
        r.plot == prefer(episode.overview, current.plot),
        r.runtime_minutes == prefer(episode.runtime_minutes, current.runtime_minutes),
        r.rating == prefer(episode.rating, current.rating),
        r.genres == prefer_list(series.genres, current.genres),
        r.studios@ == (match series.network {
            Some(n) => seq![n],
            None => current.studios@,
        }),
        r.tmdb_id == prefer(episode.tmdb_id, current.tmdb_id),
        r.tvdb_id == prefer(episode.tvdb_id, prefer(series.tvdb_id, current.tvdb_id)),
        r.imdb_id == prefer(series.imdb_id, current.imdb_id),
        r.original_title == current.original_title,
        r.sort_title == current.sort_title,
        r.year == current.year,
        r.tagline == current.tagline,
        r.outline == current.outline,
        r.votes == current.votes,
        r.certification == current.certification,
        r.countries == current.countries,
        r.directors == current.directors,
        r.writers == current.writers,
        r.actors == current.actors,
        r.tags == current.tags,
        r.trailer == current.trailer,
        r.source == current.source,
        r.nfo_path == current.nfo_path,
{
    let mut next = current;
    next.kind = VideoKind::Episode;
    next.title = Some(episode.title);
    next.show_title = Some(series.title);
    next.season = Some(episode.season);
    next.episode = Some(episode.episode);
    let air = match &episode.air_date {
        Some(a) => Some(a.clone()),
        None => None,
    };
    next.aired = match air {
        Some(a) => Some(a),
        None => next.aired,
    };
    next.release_date = take(episode.air_date, next.release_date);
    next.plot = take(episode.overview, next.plot);
    next.runtime_minutes = take(episode.runtime_minutes, next.runtime_minutes);
    next.rating = take(episode.rating, next.rating);
    if series.genres.len() > 0 {
        next.genres = series.genres;
    }
    if let Some(network) = series.network {
        next.studios = vec![network];
    }
    next.tmdb_id = take(episode.tmdb_id, next.tmdb_id);
    next.tvdb_id = take(episode.tvdb_id, take(series.tvdb_id, next.tvdb_id));
    next.imdb_id = take(series.imdb_id, next.imdb_id);
    next
}

} // verus!
