use notata::metadata::reader::{custom_tags, is_standard_key, split_genres, track_from_tag, TagItemText, TagSnapshot};
use notata::metadata::writer::{tag_writes, TagKey, TagWrite};
use notata::models::track::TrackMetadata;

fn snapshot() -> TagSnapshot {
    TagSnapshot {
        title: Some("Bakesale".into()),
        artist: Some("Sebadoh".into()),
        album: None,
        genre: Some("Indie Rock; Lo-Fi/Noise , ,".into()),
        comment: None,
        track_number: Some(3),
        total_tracks: Some(15),
        disc_number: None,
        total_discs: None,
        year: Some(1994),
        album_artist: None,
        date: None,
        lyrics: None,
        isrc: None,
        musicbrainz_track_id: None,
        musicbrainz_release_id: None,
        musicbrainz_artist_id: None,
        musicbrainz_release_group_id: None,
        composers: vec![],
        items: vec![
            TagItemText { key: "TrackTitle".into(), text: Some("Bakesale".into()) },
            TagItemText { key: "Unknown(\"MOOD\")".into(), text: Some("calm".into()) },
            TagItemText { key: "Bpm".into(), text: None },
            TagItemText { key: "Unknown(\"MOOD\")".into(), text: Some("sad".into()) },
            TagItemText { key: "Publisher".into(), text: Some("Sub Pop".into()) },
        ],
    }
}

#[test]
fn genres_split_on_semicolons_commas_and_slashes() {
    assert_eq!(split_genres("Indie Rock; Lo-Fi/Noise , ,"), vec!["Indie Rock", "Lo-Fi", "Noise"]);
    assert!(split_genres(" ; ").is_empty());
}

#[test]
fn standard_keys_are_recognised_by_name() {
    assert!(is_standard_key("TrackTitle"));
    assert!(is_standard_key("MusicBrainzReleaseGroupId"));
    assert!(!is_standard_key("Publisher"));
    assert!(!is_standard_key("tracktitle"));
}

#[test]
fn custom_tags_group_texts_by_key() {
    let groups = custom_tags(&snapshot().items);
    assert_eq!(
        groups,
        vec![
            ("Unknown(\"MOOD\")".to_string(), vec!["calm".to_string(), "sad".to_string()]),
            ("Publisher".to_string(), vec!["Sub Pop".to_string()]),
        ]
    );
}

#[test]
fn a_tag_reads_into_track_metadata() {
    let m = track_from_tag(Some(snapshot()));
    assert_eq!(m.title.as_deref(), Some("Bakesale"));
    assert_eq!(m.track_number, Some(3));
    assert_eq!(m.year, Some(1994));
    assert_eq!(m.genre, Some(vec!["Indie Rock".to_string(), "Lo-Fi".to_string(), "Noise".to_string()]));
    assert_eq!(m.composer, None);
    assert_eq!(m.custom_tags.get("Publisher"), Some(&vec!["Sub Pop".to_string()]));
    assert_eq!(m.custom_tags.len(), 2);
}

#[test]
fn a_file_without_a_tag_reads_as_empty() {
    let m = track_from_tag(None);
    assert!(m.title.is_none() && m.genre.is_none() && m.custom_tags.is_empty());
}

#[test]
fn writing_replaces_each_field_in_order() {
    let m = TrackMetadata {
        title: Some("Rebound".into()),
        artist: Some(String::new()),
        track_number: Some(7),
        year: Some(1994),
        genre: Some(vec!["Rock".into(), "Pop".into()]),
        composer: Some(vec!["Lou".into(), "Jason".into()]),
        ..Default::default()
    };
    let ws = tag_writes(&m);
    assert_eq!(ws.len(), 23);
    assert!(matches!(&ws[0], TagWrite::Remove(TagKey::TrackTitle)));
    assert!(matches!(&ws[1], TagWrite::Push(TagKey::TrackTitle, v) if v == "Rebound"));
    // An empty artist is removed, not written.
    assert!(matches!(&ws[2], TagWrite::Remove(TagKey::TrackArtist)));
    assert!(matches!(&ws[3], TagWrite::Remove(TagKey::AlbumArtist)));
    assert!(matches!(&ws[5], TagWrite::Insert(TagKey::TrackNumber, v) if v == "7"));
    assert!(matches!(&ws[9], TagWrite::SetYear(1994)));
    assert!(matches!(&ws[12], TagWrite::Push(TagKey::Genre, v) if v == "Rock; Pop"));
    assert!(matches!(&ws[13], TagWrite::Remove(TagKey::Composer)));
    assert!(matches!(&ws[15], TagWrite::Push(TagKey::Composer, v) if v == "Jason"));
    assert!(matches!(&ws[22], TagWrite::Remove(TagKey::MusicBrainzReleaseGroupId)));
}

#[test]
fn a_negative_year_is_written_as_an_unsigned_number() {
    let m = TrackMetadata { year: Some(-1), ..Default::default() };
    let ws = tag_writes(&m);
    assert!(matches!(&ws[8], TagWrite::SetYear(4294967295)));
    let none = tag_writes(&TrackMetadata::default());
    assert!(matches!(&none[8], TagWrite::RemoveYear));
}

use notata::metadata::reader::audio_properties;

#[test]
fn audio_properties_default_missing_values_to_zero() {
    let p = audio_properties("/m/a.flac", 215_000, Some(900), None, Some(2), Some(24));
    assert_eq!(p.format, "FLAC");
    assert_eq!(p.duration_ms, 215_000);
    assert_eq!(p.bitrate_kbps, 900);
    assert_eq!(p.sample_rate_hz, 0);
    assert_eq!(p.channels, 2);
    assert_eq!(p.bits_per_sample, Some(24));
    assert_eq!(audio_properties("/m/noext", 0, None, None, None, None).format, "UNKNOWN");
}
