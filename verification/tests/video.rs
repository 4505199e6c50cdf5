use notata::metadata::video::{
    artwork_candidates, clean_title, from_filename, parse_season_episode, parse_year, poster_path,
    season_episode,
};
use notata::models::video::{VideoKind, VideoMetadata, VideoMetadataSource};
use notata::nfo::{default_nfo_path, pick_nfo_path};

#[test]
fn extracts_season_and_episode_from_common_patterns() {
    assert_eq!(parse_season_episode("Breaking.Bad.S05E14.1080p"), (Some(5), Some(14)));
    assert_eq!(parse_season_episode("Show 1x02 title"), (Some(1), Some(2)));
    assert_eq!(parse_season_episode("s01e01"), (Some(1), Some(1)));
    assert_eq!(parse_season_episode("A Movie 2019"), (None, None));
}

#[test]
fn takes_a_plausible_year() {
    assert_eq!(parse_year("Blade Runner (1982)"), Some(1982));
    assert_eq!(parse_year("Movie.2019.1080p"), Some(2019));
    assert_eq!(parse_year("No year here"), None);
    assert_eq!(parse_year("Thing 9999"), None);
}

#[test]
fn cleans_release_noise_off_the_title() {
    assert_eq!(clean_title("Blade.Runner.1982.1080p.BluRay"), "Blade Runner");
    assert_eq!(clean_title("Blade Runner (1982)"), "Blade Runner");
    assert_eq!(clean_title("Some_Movie_Name"), "Some Movie Name");
}

#[test]
fn filename_fallback_classifies_episodes() {
    let meta: VideoMetadata<f32> = from_filename("/tv/Breaking.Bad.S05E14.mkv");
    assert_eq!(meta.kind, VideoKind::Episode);
    assert_eq!(meta.season, Some(5));
    assert_eq!(meta.episode, Some(14));
    assert_eq!(meta.source, VideoMetadataSource::Filename);
}

#[test]
fn filename_fallback_classifies_movies() {
    let meta: VideoMetadata<f32> = from_filename("/movies/Blade.Runner.1982.mkv");
    assert_eq!(meta.kind, VideoKind::Movie);
    assert_eq!(meta.title.as_deref(), Some("Blade Runner"));
    assert_eq!(meta.year, Some(1982));
}

#[test]
fn a_season_cut_through_a_character_is_refused() {
    // The season digits are cut by byte offsets that fall inside "é".
    assert_eq!(season_episode("é1x02"), Some((Some(1), Some(2))));
    assert_eq!(parse_season_episode("Amélie 1x02"), (Some(1), Some(2)));
    assert_eq!(season_episode("e1x02"), Some((Some(1), Some(2))));
}

#[test]
fn sidecars_are_chosen_in_priority_order() {
    assert_eq!(pick_nfo_path("/m/Film.mkv", true, true, true), Some("/m/Film.nfo".to_string()));
    assert_eq!(pick_nfo_path("/m/Film.mkv", false, true, true), Some("/m/movie.nfo".to_string()));
    assert_eq!(pick_nfo_path("/m/Film.mkv", false, false, true), Some("/m/tvshow.nfo".to_string()));
    assert_eq!(pick_nfo_path("/m/Film.mkv", false, false, false), None);
    assert_eq!(default_nfo_path("/m/Film.mkv"), "/m/Film.nfo");
}

#[test]
fn artwork_is_looked_for_beside_the_video_first() {
    let (posters, fanart) = artwork_candidates("/m/Film.mkv").unwrap();
    assert_eq!(posters.len(), 32);
    assert_eq!(posters[0], "/m/Film-poster.jpg");
    assert_eq!(posters[1], "/m/poster.jpg");
    assert_eq!(fanart[2], "/m/Film-fanart.jpeg");
}

#[test]
fn posters_are_saved_beside_the_video() {
    assert_eq!(poster_path("/m/Film.mkv", "image/png").unwrap(), "/m/Film-poster.png");
    assert_eq!(poster_path("/m/Film.mkv", "image/jpeg").unwrap(), "/m/Film-poster.jpg");
}

use notata::commands::video::{apply_episode_to_metadata, apply_movie_to_metadata};
use notata::models::video::{ActorCredit, EpisodeMetadata, MovieMetadata, SeriesMetadata};

fn movie() -> MovieMetadata<f32> {
    MovieMetadata {
        title: "Blade Runner".into(),
        original_title: None,
        year: Some(1982),
        release_date: Some("1982-06-25".into()),
        tagline: None,
        overview: Some("Replicants.".into()),
        runtime_minutes: Some(117),
        genres: vec!["Science Fiction".into()],
        rating: Some(7.9),
        country: Some("US".into()),
        studios: vec![],
        directors: vec!["Ridley Scott".into()],
        writers: vec![],
        cast: vec!["Harrison Ford".into(), "Sean Young".into()],
        tmdb_id: Some("78".into()),
        imdb_id: None,
        poster_url: None,
        backdrop_url: None,
    }
}

#[test]
fn a_movie_record_wins_where_it_has_values() {
    let current = VideoMetadata {
        kind: VideoKind::Episode,
        title: Some("blade".into()),
        tagline: Some("kept".into()),
        studios: vec!["Warner".into()],
        writers: vec!["Fancher".into()],
        imdb_id: Some("tt0083658".into()),
        actors: vec![ActorCredit { name: "Old".into(), role: Some("R".into()), thumb: None }],
        ..VideoMetadata::blank()
    };
    let next = apply_movie_to_metadata(current, movie());
    assert_eq!(next.kind, VideoKind::Movie);
    assert_eq!(next.title.as_deref(), Some("Blade Runner"));
    assert_eq!(next.tagline.as_deref(), Some("kept"));
    assert_eq!(next.year, Some(1982));
    assert_eq!(next.rating, Some(7.9));
    assert_eq!(next.studios, vec!["Warner".to_string()]);
    assert_eq!(next.writers, vec!["Fancher".to_string()]);
    assert_eq!(next.countries, vec!["US".to_string()]);
    assert_eq!(next.actors.len(), 2);
    assert_eq!(next.actors[1].name, "Sean Young");
    assert_eq!(next.actors[1].role, None);
    assert_eq!(next.imdb_id.as_deref(), Some("tt0083658"));
    assert_eq!(next.tmdb_id.as_deref(), Some("78"));
}

#[test]
fn an_episode_record_sets_show_and_numbers() {
    let series = SeriesMetadata::<f32> {
        title: "Breaking Bad".into(),
        year: Some(2008),
        first_aired: None,
        overview: None,
        genres: vec![],
        rating: None,
        network: Some("AMC".into()),
        status: None,
        total_seasons: Some(5),
        tmdb_id: Some("1396".into()),
        tvdb_id: Some("81189".into()),
        imdb_id: Some("tt0903747".into()),
        poster_url: None,
        backdrop_url: None,
        episodes: vec![],
    };
    let episode = EpisodeMetadata::<f32> {
        title: "Ozymandias".into(),
        season: 5,
        episode: 14,
        air_date: Some("2013-09-15".into()),
        overview: None,
        rating: Some(9.9),
        runtime_minutes: None,
        still_url: None,
        tmdb_id: None,
        tvdb_id: None,
    };
    let current = VideoMetadata { genres: vec!["Drama".into()], plot: Some("p".into()), ..VideoMetadata::blank() };
    let next = apply_episode_to_metadata(current, series, episode);
    assert_eq!(next.kind, VideoKind::Episode);
    assert_eq!(next.show_title.as_deref(), Some("Breaking Bad"));
    assert_eq!((next.season, next.episode), (Some(5), Some(14)));
    assert_eq!(next.aired.as_deref(), Some("2013-09-15"));
    assert_eq!(next.release_date.as_deref(), Some("2013-09-15"));
    assert_eq!(next.plot.as_deref(), Some("p"));
    assert_eq!(next.genres, vec!["Drama".to_string()]);
    assert_eq!(next.studios, vec!["AMC".to_string()]);
    assert_eq!(next.tvdb_id.as_deref(), Some("81189"));
    assert_eq!(next.imdb_id.as_deref(), Some("tt0903747"));
    assert_eq!(next.tmdb_id, None);
}

use notata::metadata::video::video_properties;

#[test]
fn video_properties_drop_a_zero_duration() {
    let p = video_properties("/v/Film.mkv", 42, Some(0));
    assert_eq!(p.container, "MKV");
    assert_eq!(p.duration_ms, None);
    assert_eq!(video_properties("/v/Film.mp4", 42, Some(5000)).duration_ms, Some(5000));
    assert_eq!(p.overall_bitrate_kbps, None);
}
