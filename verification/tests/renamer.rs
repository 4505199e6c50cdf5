use notata::renamer::build_plan;
use notata::renamer::template::{parse, render_template, sanitize_value, FieldValues};

fn values(pairs: &[(&str, &str)]) -> FieldValues {
    let mut v = FieldValues::new();
    for (k, x) in pairs {
        v.insert(k.to_string(), x.to_string());
    }
    v
}

fn track(title: &str, artist: &str, album: &str, n: u32) -> FieldValues {
    values(&[
        ("title", title),
        ("artist", artist),
        ("albumartist", artist),
        ("album", album),
        ("track", &n.to_string()),
        ("year", "1994"),
    ])
}

#[test]
fn substitutes_fields_and_pads_numbers() {
    let v = values(&[("track", "7"), ("title", "Blue Monday")]);
    assert_eq!(render_template("{track:02} - {title}", &v).unwrap(), "07 - Blue Monday");
}

#[test]
fn padding_leaves_non_numeric_values_alone() {
    let v = values(&[("title", "Intro")]);
    assert_eq!(render_template("{title:05}", &v).unwrap(), "Intro");
}

#[test]
fn optional_group_is_dropped_when_a_field_is_empty() {
    let v = values(&[("album", "Power")]);
    assert_eq!(render_template("{album}[ ({year})]", &v).unwrap(), "Power");

    let v = values(&[("album", "Power"), ("year", "1983")]);
    assert_eq!(render_template("{album}[ ({year})]", &v).unwrap(), "Power (1983)");
}

#[test]
fn slashes_inside_values_do_not_create_directories() {
    let v = values(&[("artist", "AC/DC"), ("title", "T.N.T")]);
    assert_eq!(render_template("{artist}/{title}", &v).unwrap(), "AC_DC/T.N.T");
}

#[test]
fn collapsed_components_do_not_leave_empty_path_segments() {
    let v = values(&[("artist", "Nine Inch Nails"), ("title", "Closer")]);
    assert_eq!(
        render_template("{artist}/[{album}]/{title}", &v).unwrap(),
        "Nine Inch Nails/Closer"
    );
}

#[test]
fn strips_trailing_dots_and_spaces_from_components() {
    let v = values(&[("album", "Wish You Were Here.")]);
    assert_eq!(render_template("{album}/x", &v).unwrap(), "Wish You Were Here/x");
}

#[test]
fn escape_yields_literal_braces() {
    let v = values(&[("title", "x")]);
    assert_eq!(render_template("%{{title}%}", &v).unwrap(), "{x}");
}

#[test]
fn reports_malformed_templates() {
    assert!(parse("{title").is_err());
    assert!(parse("[{title}").is_err());
    assert!(parse("{title}]").is_err());
    assert!(parse("{}").is_err());
    assert!(parse("{track:xx}").is_err());
}

#[test]
fn builds_paths_from_template() {
    let files = vec![("/music/01.flac".to_string(), track("Bakesale", "Sebadoh", "Bakesale", 3))];
    let plan = build_plan(
        "{albumartist}/{album}[ ({year})]/{track:02} - {title}",
        &files,
        Some("/library"),
    )
    .unwrap();

    assert_eq!(plan.entries[0].relative_target, "Sebadoh/Bakesale (1994)/03 - Bakesale.flac");
    assert!(plan.entries[0].changed);
    assert_eq!(plan.conflicts, 0);
}

#[test]
fn builds_paths_for_a_movie() {
    let files = vec![(
        "/movies/blade.mkv".to_string(),
        values(&[("title", "Blade Runner"), ("year", "1982")]),
    )];
    let plan = build_plan("{title}[ ({year})]/{title}[ ({year})]", &files, Some("/library")).unwrap();

    assert_eq!(plan.entries[0].relative_target, "Blade Runner (1982)/Blade Runner (1982).mkv");
    assert!(plan.entries[0].conflict.is_none());
}

#[test]
fn flags_a_file_whose_template_resolved_to_punctuation_only() {
    let files = vec![("/movies/unknown.mkv".to_string(), FieldValues::new())];
    let plan = build_plan("{title} ({year})/{title} ({year})", &files, Some("/library")).unwrap();

    assert_eq!(plan.conflicts, 1);
    let conflict = plan.entries[0].conflict.as_ref().unwrap();
    assert!(conflict.contains("No metadata"), "unexpected message: {}", conflict);
}

#[test]
fn optional_groups_keep_partial_metadata_usable() {
    let files = vec![("/movies/x.mkv".to_string(), values(&[("title", "Solaris")]))];
    let plan = build_plan("{title}[ ({year})]", &files, Some("/library")).unwrap();

    assert_eq!(plan.entries[0].relative_target, "Solaris.mkv");
    assert!(plan.entries[0].conflict.is_none());
}

#[test]
fn flags_two_files_targeting_the_same_path() {
    let files = vec![
        ("/music/a.flac".to_string(), track("Same", "A", "X", 1)),
        ("/music/b.flac".to_string(), track("Same", "A", "X", 1)),
    ];
    let plan = build_plan("{artist}/{title}", &files, Some("/library")).unwrap();

    assert!(plan.entries[0].conflict.is_none());
    assert!(plan.entries[1].conflict.is_some());
    assert_eq!(plan.conflicts, 1);
}

#[test]
fn flags_templates_that_resolve_to_nothing() {
    let files = vec![("/music/a.flac".to_string(), FieldValues::new())];
    let plan = build_plan("{artist}/{title}", &files, Some("/library")).unwrap();

    assert!(plan.entries[0].conflict.is_some());
}

#[test]
fn unchanged_names_are_not_counted_as_changes() {
    let files = vec![("/library/A/Song.flac".to_string(), track("Song", "A", "X", 1))];
    let plan = build_plan("{artist}/{title}", &files, Some("/library")).unwrap();

    assert!(!plan.entries[0].changed);
    assert_eq!(plan.changed, 0);
}

#[test]
fn rejects_invalid_templates() {
    let files = vec![("/music/a.flac".to_string(), FieldValues::new())];
    assert!(build_plan("{unclosed", &files, None).is_err());
}

#[test]
fn rendered_paths_have_no_empty_segments() {
    let v = values(&[("a", ""), ("b", "x")]);
    let out = render_template("{a}/{b}/{a}", &v).unwrap();
    assert_eq!(out, "x");
    assert!(!out.split('/').any(|s| s.is_empty()));
}

#[test]
fn sanitized_values_hold_no_path_separators() {
    assert_eq!(sanitize_value("a/b\\c:d"), "a_b_c_d");
}

#[test]
fn plain_text_templates_render_literally() {
    let v = FieldValues::new();
    assert_eq!(render_template("Just Text", &v).unwrap(), "Just Text");
}

use notata::renamer::apply::{apply_next, ApplyAction, ApplyEvent};
use notata::renamer::RenamePlanEntry;

fn plan_entry(changed: bool, conflict: Option<&str>) -> RenamePlanEntry {
    RenamePlanEntry {
        source_path: "/m/in.mp3".to_string(),
        target_path: "/m/Artist/out.mp3".to_string(),
        relative_target: "Artist/out.mp3".to_string(),
        changed,
        conflict: conflict.map(|c| c.to_string()),
    }
}

#[test]
fn applying_skips_unchanged_and_flagged_entries() {
    assert!(matches!(apply_next(&plan_entry(false, None), ApplyEvent::Begin), ApplyAction::Skip));
    assert!(matches!(apply_next(&plan_entry(true, Some("clash")), ApplyEvent::Begin), ApplyAction::Skip));
}

#[test]
fn applying_creates_the_directory_then_rechecks_the_target() {
    let e = plan_entry(true, None);
    match apply_next(&e, ApplyEvent::Begin) {
        ApplyAction::CreateDir(d) => assert_eq!(d, "/m/Artist"),
        other => panic!("unexpected {:?}", other),
    }
    assert!(matches!(apply_next(&e, ApplyEvent::DirCreated(Ok(()))), ApplyAction::CheckTarget));
    assert!(matches!(apply_next(&e, ApplyEvent::TargetExists(false)), ApplyAction::Move));
    match apply_next(&e, ApplyEvent::TargetExists(true)) {
        ApplyAction::Record(o) => {
            assert!(!o.success);
            assert_eq!(o.error.as_deref(), Some("A file already exists at the target path"));
        }
        other => panic!("unexpected {:?}", other),
    }
}

#[test]
fn applying_records_what_the_file_system_said() {
    let e = plan_entry(true, None);
    match apply_next(&e, ApplyEvent::Moved(Ok(()))) {
        ApplyAction::Record(o) => {
            assert!(o.success);
            assert_eq!(o.error, None);
            assert_eq!(o.source_path, "/m/in.mp3");
            assert_eq!(o.target_path, "/m/Artist/out.mp3");
        }
        other => panic!("unexpected {:?}", other),
    }
    match apply_next(&e, ApplyEvent::DirCreated(Err("denied".to_string()))) {
        ApplyAction::Record(o) => assert_eq!(o.error.as_deref(), Some("Could not create directory: denied")),
        other => panic!("unexpected {:?}", other),
    }
    match apply_next(&e, ApplyEvent::Moved(Err("cross-device".to_string()))) {
        ApplyAction::Record(o) => assert_eq!(o.error.as_deref(), Some("cross-device")),
        other => panic!("unexpected {:?}", other),
    }
}

use notata::renamer::flag_conflicts_with;

#[test]
fn components_lose_trailing_dots_hidden_behind_whitespace() {
    let v = values(&[("title", "Song")]);
    assert_eq!(render_template("x.\t/{title}", &v).unwrap(), "x/Song");
    assert_eq!(render_template("Vol. . /{title}", &v).unwrap(), "Vol/Song");
}

#[test]
fn an_unchanged_file_does_not_free_its_path() {
    let mut entries = vec![
        RenamePlanEntry {
            source_path: "/m/a.mp3".to_string(),
            target_path: "/m/b.mp3".to_string(),
            relative_target: "b.mp3".to_string(),
            changed: true,
            conflict: None,
        },
        RenamePlanEntry {
            source_path: "/m/b.mp3".to_string(),
            target_path: "/m/b.mp3".to_string(),
            relative_target: "b.mp3".to_string(),
            changed: false,
            conflict: None,
        },
    ];
    flag_conflicts_with(&mut entries, &vec![true, true]);
    assert_eq!(entries[0].conflict.as_deref(), Some("A file already exists at the target path"));

    let mut moving = vec![
        RenamePlanEntry {
            source_path: "/m/a.mp3".to_string(),
            target_path: "/m/b.mp3".to_string(),
            relative_target: "b.mp3".to_string(),
            changed: true,
            conflict: None,
        },
        RenamePlanEntry {
            source_path: "/m/b.mp3".to_string(),
            target_path: "/m/c.mp3".to_string(),
            relative_target: "c.mp3".to_string(),
            changed: true,
            conflict: None,
        },
    ];
    flag_conflicts_with(&mut moving, &vec![true, false]);
    assert_eq!(moving[0].conflict, None);
}
