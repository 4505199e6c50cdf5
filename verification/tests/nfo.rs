use notata::error::NotataError;
use notata::models::video::{ActorCredit, VideoKind, VideoMetadata, VideoMetadataSource};
use notata::nfo::parser::parse_nfo;
use notata::nfo::writer::to_nfo_xml;

fn rating_of(m: &VideoMetadata<String>) -> Option<f32> {
    m.rating.as_deref().and_then(|r| r.parse::<f32>().ok())
}

#[test]
fn parses_a_movie_nfo() {
    let xml = r#"<?xml version="1.0" encoding="UTF-8"?>
<movie>
  <title>Blade Runner</title>
  <originaltitle>Blade Runner</originaltitle>
  <year>1982</year>
  <premiered>1982-06-25</premiered>
  <tagline>Man has made his match... now it's his problem.</tagline>
  <plot>A blade runner must pursue replicants.</plot>
  <runtime>117</runtime>
  <mpaa>R</mpaa>
  <genre>Science Fiction</genre>
  <genre>Thriller</genre>
  <studio>Warner Bros.</studio>
  <country>USA</country>
  <director>Ridley Scott</director>
  <credits>Hampton Fancher</credits>
  <id>tt0083658</id>
  <tmdbid>78</tmdbid>
  <rating>8.1</rating>
  <votes>12,345</votes>
  <actor>
    <name>Harrison Ford</name>
    <role>Rick Deckard</role>
  </actor>
  <actor>
    <name>Rutger Hauer</name>
    <role>Roy Batty</role>
  </actor>
</movie>"#;

    let m = parse_nfo(xml).unwrap();

    assert_eq!(m.kind, VideoKind::Movie);
    assert_eq!(m.title.as_deref(), Some("Blade Runner"));
    assert_eq!(m.year, Some(1982));
    assert_eq!(m.runtime_minutes, Some(117));
    assert_eq!(m.certification.as_deref(), Some("R"));
    assert_eq!(m.genres, vec!["Science Fiction", "Thriller"]);
    assert_eq!(m.directors, vec!["Ridley Scott"]);
    assert_eq!(m.writers, vec!["Hampton Fancher"]);
    assert_eq!(m.imdb_id.as_deref(), Some("tt0083658"));
    assert_eq!(m.tmdb_id.as_deref(), Some("78"));
    assert_eq!(rating_of(&m), Some(8.1));
    assert_eq!(m.votes, Some(12345));
    assert_eq!(m.actors.len(), 2);
    assert_eq!(m.actors[0].name, "Harrison Ford");
    assert_eq!(m.actors[0].role.as_deref(), Some("Rick Deckard"));
    assert_eq!(m.source, VideoMetadataSource::Nfo);
}

#[test]
fn parses_an_episode_nfo() {
    let xml = r#"<episodedetails>
  <title>Ozymandias</title>
  <showtitle>Breaking Bad</showtitle>
  <season>5</season>
  <episode>14</episode>
  <aired>2013-09-15</aired>
  <plot>Everything comes apart.</plot>
</episodedetails>"#;

    let m = parse_nfo(xml).unwrap();

    assert_eq!(m.kind, VideoKind::Episode);
    assert_eq!(m.show_title.as_deref(), Some("Breaking Bad"));
    assert_eq!(m.season, Some(5));
    assert_eq!(m.episode, Some(14));
    assert_eq!(m.aired.as_deref(), Some("2013-09-15"));
}

#[test]
fn reads_the_nested_rating_form() {
    let xml = r#"<movie>
  <title>X</title>
  <ratings><rating name="themoviedb"><value>7.4</value><votes>900</votes></rating></ratings>
</movie>"#;

    let m = parse_nfo(xml).unwrap();
    assert_eq!(rating_of(&m), Some(7.4));
}

#[test]
fn rejects_documents_that_are_not_nfos() {
    assert!(parse_nfo("<html><body>hi</body></html>").is_err());
}

#[test]
fn reports_malformed_xml() {
    assert!(parse_nfo("<movie><title>Unclosed</movie>").is_err());
}

#[test]
fn does_not_duplicate_repeated_genres() {
    let xml = r#"<movie><title>X</title><genre>Drama</genre><genre>Drama</genre>
        <genre>Crime / Drama</genre></movie>"#;
    let m = parse_nfo(xml).unwrap();
    assert_eq!(m.genres, vec!["Drama", "Crime"]);
}

fn sample() -> VideoMetadata<String> {
    VideoMetadata {
        kind: VideoKind::Movie,
        title: Some("Blade Runner".into()),
        year: Some(1982),
        plot: Some("A blade runner must pursue replicants.".into()),
        runtime_minutes: Some(117),
        certification: Some("R".into()),
        genres: vec!["Science Fiction".into(), "Thriller".into()],
        directors: vec!["Ridley Scott".into()],
        imdb_id: Some("tt0083658".into()),
        tmdb_id: Some("78".into()),
        rating: Some(8.1f32.to_string()),
        actors: vec![ActorCredit {
            name: "Harrison Ford".into(),
            role: Some("Rick Deckard".into()),
            thumb: None,
        }],
        ..VideoMetadata::blank()
    }
}

#[test]
fn round_trips_through_the_parser() {
    let original = sample();
    let parsed = parse_nfo(&to_nfo_xml(&original)).unwrap();

    assert_eq!(parsed.title, original.title);
    assert_eq!(parsed.year, original.year);
    assert_eq!(parsed.runtime_minutes, original.runtime_minutes);
    assert_eq!(parsed.certification, original.certification);
    assert_eq!(parsed.genres, original.genres);
    assert_eq!(parsed.directors, original.directors);
    assert_eq!(parsed.imdb_id, original.imdb_id);
    assert_eq!(parsed.tmdb_id, original.tmdb_id);
    assert_eq!(rating_of(&parsed), rating_of(&original));
    assert_eq!(parsed.actors.len(), 1);
    assert_eq!(parsed.actors[0].role.as_deref(), Some("Rick Deckard"));
}

#[test]
fn round_trips_an_episode() {
    let episode = VideoMetadata {
        kind: VideoKind::Episode,
        title: Some("Ozymandias".into()),
        show_title: Some("Breaking Bad".into()),
        season: Some(5),
        episode: Some(14),
        aired: Some("2013-09-15".into()),
        ..VideoMetadata::<String>::blank()
    };

    let parsed = parse_nfo(&to_nfo_xml(&episode)).unwrap();

    assert_eq!(parsed.kind, VideoKind::Episode);
    assert_eq!(parsed.show_title.as_deref(), Some("Breaking Bad"));
    assert_eq!(parsed.season, Some(5));
    assert_eq!(parsed.episode, Some(14));
}

#[test]
fn writer_escapes_markup_in_values() {
    let meta = VideoMetadata {
        title: Some("Fish & <Chips>".into()),
        ..VideoMetadata::<String>::blank()
    };
    let xml = to_nfo_xml(&meta);

    assert!(xml.contains("Fish &amp; &lt;Chips&gt;"));
    // And it must survive a parse back.
    assert_eq!(parse_nfo(&xml).unwrap().title.as_deref(), Some("Fish & <Chips>"));
}

#[test]
fn omits_fields_that_are_unset() {
    let meta = VideoMetadata {
        title: Some("X".into()),
        ..VideoMetadata::<String>::blank()
    };
    let xml = to_nfo_xml(&meta);

    assert!(!xml.contains("<tagline>"));
    assert!(!xml.contains("<runtime>"));
    assert!(!xml.contains("<actor>"));
}

#[test]
fn a_document_without_a_known_root_names_the_expected_roots() {
    match parse_nfo("<html><body>hi</body></html>") {
        Err(NotataError::Custom(m)) => assert_eq!(
            m,
            "Not a recognised NFO \u{2014} expected <movie>, <episodedetails>, or <tvshow>"
        ),
        other => panic!("unexpected result: {:?}", other.map(|m| m.title)),
    }
}

#[test]
fn malformed_documents_report_a_position() {
    match parse_nfo("<movie><title>Unclosed</movie>") {
        Err(NotataError::Custom(m)) => assert!(m.starts_with("Malformed NFO at position ")),
        other => panic!("unexpected result: {:?}", other.map(|m| m.title)),
    }
}

#[test]
fn a_tvshow_root_reads_as_a_movie_shaped_record() {
    let m = parse_nfo("<tvshow><title>Dark</title><uniqueid>tt5753856</uniqueid></tvshow>").unwrap();
    assert_eq!(m.kind, VideoKind::Movie);
    assert_eq!(m.imdb_id.as_deref(), Some("tt5753856"));
}

#[test]
fn a_bare_numeric_id_is_taken_as_the_tmdb_id() {
    let m = parse_nfo("<movie><id>78</id><tvdbid>81189</tvdbid></movie>").unwrap();
    assert_eq!(m.tmdb_id.as_deref(), Some("78"));
    assert_eq!(m.imdb_id, None);
    assert_eq!(m.tvdb_id.as_deref(), Some("81189"));
}

#[test]
fn entities_and_upper_case_tags_are_read() {
    let m = parse_nfo("<MOVIE><Title>Tom &amp; Jerry &#x21;</Title><Year>abc</Year></MOVIE>").unwrap();
    assert_eq!(m.title.as_deref(), Some("Tom & Jerry !"));
    assert_eq!(m.year, None);
}

#[test]
fn an_actor_without_a_name_is_dropped() {
    let m = parse_nfo("<movie><actor><role>Extra</role></actor><actor><name> Ann </name></actor></movie>").unwrap();
    assert_eq!(m.actors.len(), 1);
    assert_eq!(m.actors[0].name, "Ann");
}
