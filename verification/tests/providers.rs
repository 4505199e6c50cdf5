use notata::coverart::search::{
    deezer_covers, deezer_search_url, itunes_covers, itunes_search_url, merge_cover_results, DeezerAlbum,
    DeezerArtist, ItunesResult,
};
use notata::error::NotataError;
use notata::models::album::{ArtSource, CoverArt, CoverArtType};
use notata::models::video::VideoResultType;
use notata::providers::coverart::{covers_from_archive, release_images_url, CaaImage, CaaThumbnails};
use notata::providers::musicbrainz::{
    artist_search_url, extract_year, format_artist_credit, recording_search_url, release_from_detail,
    release_search_url, release_url, MbArtist, MbArtistCredit, MbLabel, MbLabelInfo, MbMedia,
    MbReleaseDetail, MbReleaseGroup, MbTrack, MbTrackRecording,
};
use notata::providers::tmdb::{
    api_url, artwork_from_images, configured_key, episode_from, episodes_from, image_url, images_path,
    movie_from_detail, movie_result, require_key, search_params, season_path, seasons_to_fetch,
    series_from_detail, series_result, title_path, year_from_date, TmdbCastMember, TmdbCompany,
    TmdbCountry, TmdbCredits, TmdbCrewMember, TmdbEpisode, TmdbExternalIds, TmdbGenre, TmdbImage,
    TmdbImages, TmdbMovieDetail, TmdbMovieResult, TmdbNetwork, TmdbSeriesDetail, TmdbSeriesResult,
};
use notata::providers::tvdb;
use notata::providers::tvdb::{
    artwork_candidates, episodes_of, movie_from_extended, search_results, series_from_extended,
    TvdbArtwork, TvdbEpisode, TvdbNameHolder, TvdbSearchItem, TvdbSeriesExtended,
};

fn s(x: &str) -> String {
    x.to_string()
}

fn artist(id: &str, name: &str) -> MbArtist {
    MbArtist {
        id: s(id),
        name: s(name),
        sort_name: Some(format!("{}, sort", name)),
        disambiguation: None,
        artist_type: Some(s("Person")),
        country: Some(s("US")),
    }
}

fn credit(id: &str, name: &str, join: Option<&str>) -> MbArtistCredit {
    MbArtistCredit { artist: artist(id, name), joinphrase: join.map(s) }
}

#[test]
fn artist_credits_join_with_their_phrases() {
    let credits = vec![credit("a1", "Simon", Some(" & ")), credit("a2", "Garfunkel", None)];
    assert_eq!(format_artist_credit(&credits), "Simon & Garfunkel");
    assert_eq!(format_artist_credit(&[]), "");
}

#[test]
fn release_years_come_from_the_leading_field() {
    assert_eq!(extract_year(&Some(s("1994-05-02"))), Some(1994));
    assert_eq!(extract_year(&Some(s("2001"))), Some(2001));
    assert_eq!(extract_year(&Some(s("unknown-date"))), None);
    assert_eq!(extract_year(&Some(s(""))), None);
    assert_eq!(extract_year(&None), None);
}

#[test]
fn musicbrainz_requests_encode_the_query() {
    assert_eq!(
        release_url("abc"),
        "https://musicbrainz.org/ws/2/release/abc?inc=recordings+artists+labels+artist-credits+isrcs&fmt=json"
    );
    assert_eq!(
        release_search_url("OK Computer", Some("Radiohead")),
        "https://musicbrainz.org/ws/2/release/?query=release%3A%22OK%20Computer%22%20AND%20artist%3A%22Radiohead%22&limit=25&fmt=json"
    );
    assert_eq!(
        recording_search_url("Karma_Police.", None),
        "https://musicbrainz.org/ws/2/recording/?query=recording%3A%22Karma_Police.%22&limit=25&fmt=json"
    );
    assert_eq!(
        artist_search_url("Björk"),
        "https://musicbrainz.org/ws/2/artist/?query=artist:\"Bj%C3%B6rk\"&limit=25&fmt=json"
    );
}

fn track(position: u32, title: &str, rec: &str, isrc: Option<&str>) -> MbTrack {
    MbTrack {
        position,
        title: s(title),
        length: Some(200_000),
        recording: MbTrackRecording {
            id: s(rec),
            artist_credit: vec![credit("a1", "Solo", None)],
            isrcs: isrc.map(|i| vec![s(i)]).unwrap_or_default(),
        },
    }
}

fn detail() -> MbReleaseDetail {
    MbReleaseDetail {
        id: s("rel-1"),
        title: s("Double Album"),
        date: Some(s("1979-11-30")),
        country: Some(s("GB")),
        barcode: None,
        artist_credit: vec![credit("a1", "Band", Some(" feat. ")), credit("a2", "Guest", None)],
        release_group: Some(MbReleaseGroup { id: s("rg-1"), primary_type: Some(s("Album")) }),
        label_info: vec![MbLabelInfo { catalog_number: Some(s("CAT-9")), label: Some(MbLabel { name: s("Harvest") }) }],
        media: vec![
            MbMedia {
                position: 1,
                track_count: 2,
                tracks: vec![track(1, "One", "r1", Some("GB0001")), track(2, "Two", "r2", None)],
            },
            MbMedia { position: 2, track_count: 1, tracks: vec![track(1, "Three", "r3", None)] },
        ],
    }
}

#[test]
fn a_release_becomes_an_album_with_every_track() {
    let r = release_from_detail(detail());
    assert_eq!(r.provider, "musicbrainz");
    assert_eq!(r.id, "rel-1");
    assert_eq!(r.album.title, "Double Album");
    assert_eq!(r.album.artist, "Band feat. Guest");
    assert_eq!(r.album.year, Some(1979));
    assert_eq!(r.album.label.as_deref(), Some("Harvest"));
    assert_eq!(r.album.catalog_number.as_deref(), Some("CAT-9"));
    assert_eq!(r.album.release_type.as_deref(), Some("Album"));
    assert_eq!(r.album.musicbrainz_release_group_id.as_deref(), Some("rg-1"));
    assert_eq!(r.album.total_tracks, Some(3));
    assert_eq!(r.album.total_discs, Some(2));
    assert!(r.album.cover_art.is_empty());
    assert_eq!(r.tracks.len(), 3);
    let titles: Vec<_> = r.tracks.iter().map(|t| t.title.clone().unwrap()).collect();
    assert_eq!(titles, vec!["One", "Two", "Three"]);
    let third = &r.tracks[2];
    assert_eq!(third.disc_number, Some(2));
    assert_eq!(third.track_number, Some(1));
    assert_eq!(third.total_tracks, Some(1));
    assert_eq!(third.total_discs, Some(2));
    assert_eq!(third.artist.as_deref(), Some("Solo"));
    assert_eq!(third.album_artist.as_deref(), Some("Band feat. Guest"));
    assert_eq!(third.musicbrainz_track_id.as_deref(), Some("r3"));
    assert_eq!(third.musicbrainz_artist_id.as_deref(), Some("a1"));
    assert_eq!(r.tracks[0].isrc.as_deref(), Some("GB0001"));
    assert_eq!(r.tracks[1].isrc, None);
    assert_eq!(r.artists.len(), 2);
    assert_eq!(r.artists[1].name, "Guest");
    assert_eq!(r.artists[1].musicbrainz_artist_id.as_deref(), Some("a2"));
    assert_eq!(r.artists[0].sort_name.as_deref(), Some("Band, sort"));
}

#[test]
fn tmdb_images_and_years() {
    assert_eq!(image_url(&Some(s("/abc.jpg")), "w342").as_deref(), Some("https://image.tmdb.org/t/p/w342/abc.jpg"));
    assert_eq!(image_url(&None, "w342"), None);
    assert_eq!(year_from_date(&Some(s("2010-07-16"))), Some(2010));
    assert_eq!(year_from_date(&Some(s("20"))), None);
    assert_eq!(year_from_date(&Some(s("TBA-01"))), None);
}

#[test]
fn tmdb_requests_carry_the_key_and_encoded_parameters() {
    let params = search_params("Blade Runner", Some(1982), false);
    assert_eq!(params, vec![(s("query"), s("Blade Runner")), (s("year"), s("1982"))]);
    assert_eq!(
        api_url("/search/movie", "KEY", &params),
        "https://api.themoviedb.org/3/search/movie?api_key=KEY&query=Blade%20Runner&year=1982"
    );
    let series = search_params("Dark", Some(2017), true);
    assert_eq!(series[1], (s("first_air_date_year"), s("2017")));
    assert_eq!(search_params("Dark", None, true).len(), 1);
    assert_eq!(title_path("603", false), "/movie/603");
    assert_eq!(images_path("1399", true), "/tv/1399/images");
    assert_eq!(season_path("1399", 2), "/tv/1399/season/2");
}

#[test]
fn blank_api_keys_count_as_none() {
    assert_eq!(configured_key(Some(s("   "))), None);
    assert_eq!(configured_key(Some(s(" k "))), Some(s(" k ")));
    assert_eq!(configured_key(None), None);
    match require_key(&None) {
        Err(e) => assert_eq!(e.message(), "Provider error (tmdb): No TMDB API key configured. Add one in Settings."),
        Ok(_) => panic!("a key without one"),
    }
    assert_eq!(require_key(&Some(s("abc"))).ok(), Some(s("abc")));
    match tvdb::require_key(&None) {
        Err(NotataError::Provider { provider, .. }) => assert_eq!(provider, "tvdb"),
        _ => panic!("a key without one"),
    }
}

fn crew(name: &str, job: &str) -> TmdbCrewMember {
    TmdbCrewMember { name: s(name), job: s(job) }
}

#[test]
fn a_tmdb_movie_keeps_directors_writers_and_top_cast() {
    let cast: Vec<TmdbCastMember> = (0..25).map(|i| TmdbCastMember { name: format!("Actor {}", i) }).collect();
    let detail = TmdbMovieDetail::<f32> {
        id: 78,
        title: s("Blade Runner"),
        original_title: Some(s("Blade Runner")),
        release_date: Some(s("1982-06-25")),
        tagline: Some(s("")),
        overview: Some(s("Replicants.")),
        runtime: Some(117),
        genres: vec![TmdbGenre { name: s("Science Fiction") }, TmdbGenre { name: s("Drama") }],
        vote_average: Some(7.9),
        production_companies: vec![TmdbCompany { name: s("Ladd") }],
        production_countries: vec![TmdbCountry { iso_3166_1: s("US") }, TmdbCountry { iso_3166_1: s("HK") }],
        imdb_id: Some(s("tt0083658")),
        poster_path: Some(s("/p.jpg")),
        backdrop_path: None,
        credits: Some(TmdbCredits {
            cast,
            crew: vec![
                crew("Ridley Scott", "Director"),
                crew("Hampton Fancher", "Screenplay"),
                crew("Vangelis", "Original Music Composer"),
                crew("Philip K. Dick", "Writer"),
            ],
        }),
    };
    let m = movie_from_detail(detail);
    assert_eq!(m.directors, vec!["Ridley Scott"]);
    assert_eq!(m.writers, vec!["Hampton Fancher", "Philip K. Dick"]);
    assert_eq!(m.cast.len(), 20);
    assert_eq!(m.cast[19], "Actor 19");
    assert_eq!(m.tagline, None);
    assert_eq!(m.year, Some(1982));
    assert_eq!(m.country.as_deref(), Some("US"));
    assert_eq!(m.genres, vec!["Science Fiction", "Drama"]);
    assert_eq!(m.studios, vec!["Ladd"]);
    assert_eq!(m.tmdb_id.as_deref(), Some("78"));
    assert_eq!(m.poster_url.as_deref(), Some("https://image.tmdb.org/t/p/original/p.jpg"));
    assert_eq!(m.backdrop_url, None);
    assert_eq!(m.rating, Some(7.9));
}

#[test]
fn a_tmdb_movie_without_credits_has_no_people() {
    let detail = TmdbMovieDetail::<f32> {
        id: 1,
        title: s("X"),
        original_title: None,
        release_date: None,
        tagline: Some(s("Tag")),
        overview: None,
        runtime: None,
        genres: vec![],
        vote_average: None,
        production_companies: vec![],
        production_countries: vec![],
        imdb_id: None,
        poster_path: None,
        backdrop_path: None,
        credits: None,
    };
    let m = movie_from_detail(detail);
    assert!(m.directors.is_empty() && m.writers.is_empty() && m.cast.is_empty());
    assert_eq!(m.tagline.as_deref(), Some("Tag"));
    assert_eq!(m.country, None);
}

#[test]
fn tmdb_series_and_search_results() {
    let d = TmdbSeriesDetail::<f32> {
        id: 1399,
        name: s("Game of Thrones"),
        first_air_date: Some(s("2011-04-17")),
        overview: None,
        genres: vec![TmdbGenre { name: s("Drama") }],
        vote_average: Some(8.4),
        networks: vec![TmdbNetwork { name: s("HBO") }],
        status: Some(s("Ended")),
        number_of_seasons: Some(8),
        poster_path: None,
        backdrop_path: Some(s("/b.jpg")),
        external_ids: Some(TmdbExternalIds { imdb_id: Some(s("tt0944947")), tvdb_id: Some(121361) }),
    };
    let m = series_from_detail(d);
    assert_eq!(m.title, "Game of Thrones");
    assert_eq!(m.year, Some(2011));
    assert_eq!(m.network.as_deref(), Some("HBO"));
    assert_eq!(m.tvdb_id.as_deref(), Some("121361"));
    assert_eq!(m.imdb_id.as_deref(), Some("tt0944947"));
    assert_eq!(m.tmdb_id.as_deref(), Some("1399"));
    assert_eq!(m.total_seasons, Some(8));
    assert_eq!(m.backdrop_url.as_deref(), Some("https://image.tmdb.org/t/p/original/b.jpg"));
    assert!(m.episodes.is_empty());

    let hit = movie_result(TmdbMovieResult::<f32> {
        id: 603,
        title: s("The Matrix"),
        release_date: Some(s("1999-03-30")),
        overview: None,
        poster_path: Some(s("/m.jpg")),
        vote_average: Some(8.2),
    });
    assert_eq!(hit.provider, "tmdb");
    assert_eq!(hit.result_type, VideoResultType::Movie);
    assert_eq!(hit.id, "603");
    assert_eq!(hit.year, Some(1999));
    assert_eq!(hit.poster_url.as_deref(), Some("https://image.tmdb.org/t/p/w342/m.jpg"));
    let show = series_result(TmdbSeriesResult::<f32> {
        id: 1,
        name: s("Dark"),
        first_air_date: None,
        overview: None,
        poster_path: None,
        vote_average: None,
    });
    assert_eq!(show.result_type, VideoResultType::Series);
    assert_eq!(show.year, None);
}

#[test]
fn tmdb_episodes_fill_missing_numbers_with_zero() {
    let e = episode_from(TmdbEpisode::<f32> {
        id: Some(63056),
        name: None,
        season_number: Some(1),
        episode_number: None,
        air_date: Some(s("2011-04-17")),
        overview: None,
        vote_average: None,
        runtime: Some(62),
        still_path: Some(s("/s.jpg")),
    });
    assert_eq!(e.title, "");
    assert_eq!(e.season, 1);
    assert_eq!(e.episode, 0);
    assert_eq!(e.still_url.as_deref(), Some("https://image.tmdb.org/t/p/w300/s.jpg"));
    assert_eq!(e.tmdb_id.as_deref(), Some("63056"));
    assert_eq!(e.tvdb_id, None);
    let list = episodes_from(vec![
        TmdbEpisode::<f32> {
            id: None,
            name: Some(s("A")),
            season_number: Some(2),
            episode_number: Some(1),
            air_date: None,
            overview: None,
            vote_average: None,
            runtime: None,
            still_path: None,
        },
        TmdbEpisode::<f32> {
            id: None,
            name: Some(s("B")),
            season_number: Some(2),
            episode_number: Some(2),
            air_date: None,
            overview: None,
            vote_average: None,
            runtime: None,
            still_path: None,
        },
    ]);
    assert_eq!(list.iter().map(|e| e.title.clone()).collect::<Vec<_>>(), vec!["A", "B"]);
}

#[test]
fn every_reported_season_is_fetched_when_none_is_asked_for() {
    assert_eq!(seasons_to_fetch(None, Some(3)), vec![1, 2, 3]);
    assert_eq!(seasons_to_fetch(Some(2), Some(3)), vec![2]);
    assert!(seasons_to_fetch(None, None).is_empty());
}

fn image(path: &str) -> TmdbImage<f32> {
    TmdbImage { file_path: s(path), width: Some(1000), height: Some(1500), iso_639_1: None, vote_average: Some(5.0) }
}

#[test]
fn tmdb_artwork_lists_posters_before_backdrops() {
    let art = artwork_from_images(TmdbImages { posters: vec![image("/p1.jpg"), image("/p2.jpg")], backdrops: vec![image("/b1.jpg")] });
    assert_eq!(art.len(), 3);
    assert_eq!(art[0].art_type, "poster");
    assert_eq!(art[1].url, "https://image.tmdb.org/t/p/original/p2.jpg");
    assert_eq!(art[2].art_type, "backdrop");
    assert_eq!(art[2].thumb_url, "https://image.tmdb.org/t/p/w342/b1.jpg");
}

#[test]
fn tvdb_requests_join_their_parameters() {
    assert_eq!(tvdb::api_url("/series/1/extended", &[]), "https://api4.thetvdb.com/v4/series/1/extended");
    let params = tvdb::search_params("Dark Matter", Some(2015), true);
    assert_eq!(
        tvdb::api_url("/search", &params),
        "https://api4.thetvdb.com/v4/search?query=Dark%20Matter&type=series&year=2015"
    );
    assert_eq!(tvdb::extended_path("7", false), "/movies/7/extended");
    assert_eq!(tvdb::episodes_path("7"), "/series/7/episodes/default");
    assert_eq!(tvdb::parse_year(&Some(s("2015"))), Some(2015));
    assert_eq!(tvdb::tvdb_error("TheTVDB token expired or was rejected.").message(), "Provider error (tvdb): TheTVDB token expired or was rejected.");
}

fn item(id: Option<&str>, name: Option<&str>) -> TvdbSearchItem {
    TvdbSearchItem { tvdb_id: id.map(s), name: name.map(s), year: Some(s("2015")), overview: None, image_url: Some(s("http://x/i.jpg")) }
}

#[test]
fn tvdb_hits_without_an_id_are_dropped() {
    let results = search_results::<f32>(vec![item(Some("1"), Some("A")), item(None, Some("B")), item(Some("3"), None)], true);
    assert_eq!(results.len(), 2);
    assert_eq!(results[0].id, "1");
    assert_eq!(results[1].title, "");
    assert_eq!(results[1].result_type, VideoResultType::Series);
    assert_eq!(results[0].year, Some(2015));
    assert_eq!(results[0].poster_url.as_deref(), Some("http://x/i.jpg"));
    assert_eq!(results[0].rating, None);
}

fn ep(season: Option<u32>, number: u32) -> TvdbEpisode {
    TvdbEpisode {
        id: Some(number as u64 + 100),
        name: Some(format!("E{}", number)),
        season_number: season,
        number: Some(number),
        aired: None,
        overview: None,
        runtime: None,
        image: None,
    }
}

#[test]
fn tvdb_episodes_keep_to_the_season_asked_for() {
    let all = vec![ep(Some(1), 1), ep(Some(2), 2), ep(None, 3), ep(Some(1), 4)];
    let first: Vec<notata::models::video::EpisodeMetadata<f32>> = episodes_of(all.clone(), Some(1));
    assert_eq!(first.iter().map(|e| e.episode).collect::<Vec<_>>(), vec![1, 4]);
    assert_eq!(first[0].tvdb_id.as_deref(), Some("101"));
    let every: Vec<notata::models::video::EpisodeMetadata<f32>> = episodes_of(all, None);
    assert_eq!(every.len(), 4);
    assert_eq!(every[2].season, 0);
}

fn artwork(image: Option<&str>, thumb: Option<&str>, t: Option<u32>) -> TvdbArtwork<f32> {
    TvdbArtwork { image: image.map(s), thumbnail: thumb.map(s), width: None, height: None, language: None, score: None, art_type: t }
}

#[test]
fn tvdb_artwork_keeps_posters_and_backgrounds() {
    let art = artwork_candidates(vec![
        artwork(Some("p"), Some("pt"), Some(2)),
        artwork(Some("icon"), None, Some(5)),
        artwork(Some("bg"), None, Some(15)),
        artwork(None, Some("t"), Some(7)),
        artwork(Some("mp"), None, Some(14)),
        artwork(Some("b3"), None, Some(3)),
    ]);
    let kinds: Vec<_> = art.iter().map(|a| (a.url.clone(), a.art_type.clone())).collect();
    assert_eq!(
        kinds,
        vec![(s("p"), s("poster")), (s("bg"), s("backdrop")), (s("mp"), s("poster")), (s("b3"), s("backdrop"))]
    );
    assert_eq!(art[0].thumb_url, "pt");
    assert_eq!(art[1].thumb_url, "bg");
}

#[test]
fn tvdb_titles_fill_what_tvdb_has() {
    let d = TvdbSeriesExtended::<f32> {
        id: 42,
        name: None,
        overview: Some(s("o")),
        first_aired: Some(s("2008-01-20")),
        status: Some(TvdbNameHolder { name: s("Ended") }),
        genres: vec![TvdbNameHolder { name: s("Crime") }],
        score: Some(9.5),
        image: Some(s("i")),
    };
    let m = movie_from_extended(d.clone());
    assert_eq!(m.title, "");
    assert_eq!(m.year, Some(2008));
    assert_eq!(m.genres, vec!["Crime"]);
    assert_eq!(m.poster_url.as_deref(), Some("i"));
    assert!(m.directors.is_empty());
    let series = series_from_extended(d);
    assert_eq!(series.tvdb_id.as_deref(), Some("42"));
    assert_eq!(series.status.as_deref(), Some("Ended"));
    assert_eq!(series.rating, Some(9.5));
}

#[test]
fn itunes_artwork_is_taken_at_full_size() {
    assert_eq!(
        itunes_search_url("Abbey Road"),
        "https://itunes.apple.com/search?term=Abbey%20Road&entity=album&limit=10"
    );
    let covers = itunes_covers(&vec![
        ItunesResult {
            collection_id: Some(401),
            collection_name: Some(s("Abbey Road")),
            artist_name: Some(s("The Beatles")),
            artwork_url100: Some(s("https://is1.example/100x100bb.jpg")),
        },
        ItunesResult { collection_id: None, collection_name: None, artist_name: None, artwork_url100: None },
        ItunesResult { collection_id: None, collection_name: None, artist_name: None, artwork_url100: Some(s("u")) },
    ]);
    assert_eq!(covers.len(), 2);
    assert_eq!(covers[0].id, "itunes-401");
    assert_eq!(covers[0].url.as_deref(), Some("https://is1.example/1200x1200bb.jpg"));
    assert_eq!(covers[0].data_path.as_deref(), Some("The Beatles — Abbey Road"));
    assert_eq!(covers[0].source, ArtSource::Itunes);
    assert!(matches!(covers[0].art_type, CoverArtType::Front));
    assert_eq!(covers[1].id, "itunes-0");
    assert_eq!(covers[1].data_path.as_deref(), Some("Unknown — Unknown"));
}

#[test]
fn deezer_covers_fall_back_to_the_big_size() {
    assert_eq!(deezer_search_url("a&b"), "https://api.deezer.com/search/album?q=a%26b&limit=10");
    let album = |id: u64, xl: Option<&str>, big: Option<&str>| DeezerAlbum {
        id,
        title: s("T"),
        cover_xl: xl.map(s),
        cover_big: big.map(s),
        artist: DeezerArtist { name: s("A") },
    };
    let covers = deezer_covers(&vec![album(1, Some("xl"), Some("big")), album(2, None, Some("big")), album(3, None, None)]);
    assert_eq!(covers.len(), 2);
    assert_eq!(covers[0].url.as_deref(), Some("xl"));
    assert_eq!(covers[1].url.as_deref(), Some("big"));
    assert_eq!(covers[1].id, "deezer-2");
    assert_eq!(covers[1].data_path.as_deref(), Some("A — T"));
}

fn cover(id: &str) -> CoverArt {
    CoverArt {
        id: s(id),
        art_type: CoverArtType::Front,
        source: ArtSource::Manual,
        mime_type: s("image/jpeg"),
        width: None,
        height: None,
        data_path: None,
        url: None,
    }
}

#[test]
fn a_failed_catalogue_adds_nothing() {
    let merged = merge_cover_results(Ok(vec![cover("i1")]), Ok(vec![cover("d1"), cover("d2")]));
    assert_eq!(merged.iter().map(|c| c.id.clone()).collect::<Vec<_>>(), vec!["i1", "d1", "d2"]);
    let merged = merge_cover_results(Err(NotataError::Custom(s("down"))), Ok(vec![cover("d1")]));
    assert_eq!(merged.len(), 1);
    assert!(merge_cover_results(Err(NotataError::Custom(s("x"))), Err(NotataError::Custom(s("y")))).is_empty());
}

fn caa(id: u64, front: bool, back: bool, types: &[&str], xl: Option<&str>, large: Option<&str>) -> CaaImage {
    CaaImage {
        id,
        image: s("full"),
        thumbnails: CaaThumbnails { small: Some(s("small")), large: large.map(s), xl: xl.map(s) },
        front,
        back,
        types: types.iter().map(|t| s(t)).collect(),
    }
}

#[test]
fn archive_images_are_classified_and_take_the_largest_thumbnail() {
    assert_eq!(release_images_url("r-1"), "https://coverartarchive.org/release/r-1");
    let covers = covers_from_archive(&vec![
        caa(1, true, false, &["Front"], Some("xl"), Some("large")),
        caa(2, false, true, &[], None, Some("large")),
        caa(3, false, false, &["Medium", "Disc"], None, None),
        caa(4, false, false, &["Booklet"], None, None),
        caa(5, false, false, &["Tray"], None, None),
        caa(6, false, false, &[], None, None),
    ]);
    assert!(matches!(covers[0].art_type, CoverArtType::Front));
    assert!(matches!(covers[1].art_type, CoverArtType::Back));
    assert!(matches!(covers[2].art_type, CoverArtType::Disc));
    assert!(matches!(covers[3].art_type, CoverArtType::Booklet));
    assert!(matches!(&covers[4].art_type, CoverArtType::Other(t) if t == "Tray"));
    assert!(matches!(&covers[5].art_type, CoverArtType::Other(t) if t == "Other"));
    assert_eq!(covers[0].url.as_deref(), Some("xl"));
    assert_eq!(covers[1].url.as_deref(), Some("large"));
    assert_eq!(covers[2].url.as_deref(), Some("full"));
    assert_eq!(covers[5].id, "6");
    assert_eq!(covers[0].source, ArtSource::CoverArtArchive);
    assert_eq!(covers[0].mime_type, "image/jpeg");
}

use notata::commands::settings::{api_key_status, key_provider, stored_api_key, KeyProvider};

#[test]
fn keys_are_set_per_provider_and_stored_trimmed() {
    assert_eq!(key_provider("tmdb"), Ok(KeyProvider::Tmdb));
    assert_eq!(key_provider("tvdb"), Ok(KeyProvider::Tvdb));
    assert_eq!(key_provider("imdb"), Err("Unknown provider 'imdb'".to_string()));
    assert_eq!(stored_api_key("  abc123 \n"), "abc123");
    let status = api_key_status(&Some(" x ".to_string()), &Some("  ".to_string()));
    assert!(status.tmdb_configured);
    assert!(!status.tvdb_configured);
    assert!(!api_key_status(&None, &None).tmdb_configured);
}

use notata::models::provider_result::SearchResultType;
use notata::providers::musicbrainz::{
    artist_hits, recording_hits, release_hits, MbRecordingRelease, MbRecordingResult, MbReleaseResult,
};

#[test]
fn musicbrainz_hits_become_search_results() {
    let releases = release_hits(&vec![
        MbReleaseResult {
            id: s("r1"),
            score: Some(100),
            title: s("Kid A"),
            date: Some(s("2000-10-02")),
            artist_credit: vec![credit("a", "Radiohead", None)],
            release_group: Some(MbReleaseGroup { id: s("g"), primary_type: Some(s("Album")) }),
        },
        MbReleaseResult { id: s("r2"), score: None, title: s("X"), date: None, artist_credit: vec![], release_group: None },
    ]);
    assert_eq!(releases[0].provider, "musicbrainz");
    assert!(matches!(releases[0].result_type, SearchResultType::Release));
    assert_eq!(releases[0].score, Some(100));
    assert_eq!(releases[0].year, Some(2000));
    assert_eq!(releases[0].artist.as_deref(), Some("Radiohead"));
    assert_eq!(releases[0].extra, vec![(s("releaseType"), s("Album"))]);
    assert!(releases[1].extra.is_empty());
    assert_eq!(releases[1].artist.as_deref(), Some(""));

    let recordings = recording_hits(&vec![MbRecordingResult {
        id: s("rec"),
        score: Some(87),
        title: s("Idioteque"),
        artist_credit: vec![credit("a", "Radiohead", None)],
        releases: vec![
            MbRecordingRelease { id: s("r1"), title: s("Kid A"), date: Some(s("2000")) },
            MbRecordingRelease { id: s("r9"), title: s("Live"), date: Some(s("2001")) },
        ],
        length: Some(309_000),
        isrcs: vec![],
    }]);
    assert!(matches!(recordings[0].result_type, SearchResultType::Recording));
    assert_eq!(recordings[0].year, Some(2000));

    let artists = artist_hits(&vec![artist("id-1", "Björk")]);
    assert!(matches!(artists[0].result_type, SearchResultType::Artist));
    assert_eq!(artists[0].title, "Björk");
    assert_eq!(artists[0].id, "id-1");
    assert_eq!(artists[0].score, None);
}
