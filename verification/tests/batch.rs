use notata::commands::batch::{apply_op, preview_entries, read_field, write_field, BatchEdit, FieldOp};
use notata::models::track::TrackMetadata;

#[test]
fn set_overwrites_and_clear_empties() {
    assert_eq!(apply_op("old", &FieldOp::Overwrite { value: "new".into() }, 0), "new");
    assert_eq!(apply_op("old", &FieldOp::Clear, 0), "");
}

#[test]
fn replace_rewrites_substrings_and_ignores_an_empty_needle() {
    let op = FieldOp::Replace { find: "feat.".into(), replace: "ft.".into() };
    assert_eq!(apply_op("Song feat. X", &op, 0), "Song ft. X");

    let noop = FieldOp::Replace { find: String::new(), replace: "x".into() };
    assert_eq!(apply_op("Song", &noop, 0), "Song");
}

#[test]
fn enumerate_numbers_by_position() {
    let op = FieldOp::Enumerate { start: 1 };
    assert_eq!(apply_op("", &op, 0), "1");
    assert_eq!(apply_op("", &op, 4), "5");
}

#[test]
fn numeric_fields_reject_unparseable_values() {
    let mut m = TrackMetadata { track_number: Some(3), ..Default::default() };
    write_field(&mut m, "tracknumber", "not a number").unwrap();
    assert_eq!(m.track_number, None);

    write_field(&mut m, "tracknumber", "7").unwrap();
    assert_eq!(m.track_number, Some(7));
}

#[test]
fn multi_value_fields_split_on_semicolons() {
    let mut m = TrackMetadata::default();
    write_field(&mut m, "genre", "Rock; Alternative ; ").unwrap();
    assert_eq!(m.genre, Some(vec!["Rock".to_string(), "Alternative".to_string()]));
    assert_eq!(read_field(&m, "genre"), "Rock; Alternative");
}

#[test]
fn unknown_fields_are_rejected() {
    let mut m = TrackMetadata::default();
    assert!(write_field(&mut m, "nonsense", "x").is_err());
}

#[test]
fn replace_does_not_rescan_what_it_wrote() {
    let op = FieldOp::Replace { find: "aa".into(), replace: "a".into() };
    assert_eq!(apply_op("aaaa", &op, 0), "aa");
}

#[test]
fn previews_show_before_and_after() {
    let m = TrackMetadata { title: Some("Old".into()), ..Default::default() };
    let edits = vec![
        BatchEdit { field: "Title".into(), op: FieldOp::Overwrite { value: "New".into() } },
        BatchEdit { field: "album".into(), op: FieldOp::Clear },
    ];
    let rows = preview_entries("/a.flac", &m, &edits, 0);
    assert_eq!(rows.len(), 2);
    assert_eq!(rows[0].field, "title");
    assert_eq!(rows[0].before, "Old");
    assert_eq!(rows[0].after, "New");
    assert!(rows[0].changed);
    assert!(!rows[1].changed);
}

use notata::commands::batch::apply_edits;

#[test]
fn edits_apply_in_turn_and_stop_at_an_unknown_field() {
    let mut meta = TrackMetadata::default();
    meta.title = Some("Song (feat. X)".to_string());
    let edits = vec![
        BatchEdit { field: "Title".to_string(), op: FieldOp::Replace { find: "feat.".into(), replace: "ft.".into() } },
        BatchEdit { field: "TRACKNUMBER".to_string(), op: FieldOp::Enumerate { start: 1 } },
        BatchEdit { field: "mood".to_string(), op: FieldOp::Clear },
        BatchEdit { field: "album".to_string(), op: FieldOp::Overwrite { value: "Never".into() } },
    ];
    let r = apply_edits(&mut meta, &edits, 4);
    assert_eq!(r, Err("Unknown field 'mood'".to_string()));
    assert_eq!(meta.title.as_deref(), Some("Song (ft. X)"));
    assert_eq!(meta.track_number, Some(5));
    assert_eq!(meta.album, None);

    let mut meta = TrackMetadata::default();
    assert_eq!(apply_edits(&mut meta, &edits[..2], 0), Ok(()));
    assert_eq!(meta.track_number, Some(1));
}
