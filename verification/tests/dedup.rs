use notata::dedup::detector::normalize;

#[test]
fn normalize_strips_articles_punctuation_and_suffixes() {
    assert_eq!(normalize("The Beatles"), "beatles");
    assert_eq!(normalize("Let It Be (Remastered 2009)"), "let it be");
    assert_eq!(normalize("Song [Live]"), "song");
    assert_eq!(normalize("A.C.  -  D.C."), "a c d c");
}

#[test]
fn normalize_keeps_inner_parentheses() {
    assert_eq!(
        normalize("Everything (I Do) I Do It For You"),
        "everything (i do) i do it for you"
            .chars()
            .map(|c| if c.is_alphanumeric() { c } else { ' ' })
            .collect::<String>()
            .split_whitespace()
            .collect::<Vec<_>>()
            .join(" ")
    );
}

#[test]
fn normalize_drops_every_trailing_group() {
    assert_eq!(normalize("Song (Live) [2011 Remaster]"), "song");
    assert_eq!(normalize("the the band"), "band");
}

use std::collections::HashMap;

use notata::dedup::detector::{
    build_report, finish_group, fuzzy_buckets, find_exact_duplicates, find_fuzzy_duplicates, mark_recommended, sort_groups,
    to_duplicate_file,
};
use notata::dedup::{DuplicateFile, DuplicateGroup, DuplicateMode};
use notata::models::media_file::{MediaFile, MediaType};
use notata::models::track::TrackMetadata;

fn media_file(path: &str, size: u64, bitrate: Option<u32>) -> MediaFile {
    MediaFile {
        id: path.to_string(),
        path: path.to_string(),
        file_name: path.rsplit('/').next().unwrap_or(path).to_string(),
        parent_dir: "/m".to_string(),
        media_type: MediaType::Audio,
        audio_format: None,
        file_size: size,
        modified_at: 0,
        scanned_at: 0,
        has_cover_art: false,
        duration_ms: None,
        bitrate_kbps: bitrate,
        sample_rate_hz: None,
        channels: None,
        first_seen_at: 0,
        last_modified_by_app: None,
        is_new: false,
    }
}

fn track(title: &str, artist: &str) -> TrackMetadata {
    TrackMetadata {
        title: Some(title.to_string()),
        artist: Some(artist.to_string()),
        ..Default::default()
    }
}

/// Tag matching as the application runs it: bucket by title, compare the
/// artists within a bucket by Jaro-Winkler similarity.
fn fuzzy_by_jaro_winkler(
    files: &[MediaFile],
    metadata: &HashMap<String, TrackMetadata>,
    threshold: f64,
) -> Vec<DuplicateGroup<f64>> {
    let metas: Vec<Option<TrackMetadata>> = files.iter().map(|f| metadata.get(&f.path).cloned()).collect();
    let buckets = fuzzy_buckets(files, &metas);
    let matches: Vec<Vec<Vec<Option<f64>>>> = buckets
        .iter()
        .map(|(_, members)| {
            let artists: Vec<String> = members
                .iter()
                .map(|&i| {
                    metas[i]
                        .as_ref()
                        .and_then(|m| m.artist.clone())
                        .map(|a| normalize(&a))
                        .unwrap_or_default()
                })
                .collect();
            artists
                .iter()
                .map(|r| {
                    artists
                        .iter()
                        .map(|c| {
                            let score = if r.is_empty() && c.is_empty() {
                                threshold
                            } else {
                                strsim::jaro_winkler(r, c)
                            };
                            if score >= threshold {
                                Some(score)
                            } else {
                                None
                            }
                        })
                        .collect()
                })
                .collect()
        })
        .collect();
    find_fuzzy_duplicates(files, &metas, &buckets, &matches, 1.0)
}

#[test]
fn fuzzy_groups_same_song_across_encodings() {
    let files = vec![
        media_file("/m/a.mp3", 3_000_000, Some(192)),
        media_file("/m/b.flac", 30_000_000, Some(1000)),
    ];
    let mut metadata = HashMap::new();
    metadata.insert("/m/a.mp3".to_string(), track("Let It Be (Remastered)", "The Beatles"));
    metadata.insert("/m/b.flac".to_string(), track("Let It Be", "Beatles"));

    let groups = fuzzy_by_jaro_winkler(&files, &metadata, 0.85);

    assert_eq!(groups.len(), 1);
    assert_eq!(groups[0].files.len(), 2);
    // The FLAC has the higher bitrate, so it is the one to keep.
    let kept = groups[0].files.iter().find(|f| f.recommended_keep).unwrap();
    assert_eq!(kept.path, "/m/b.flac");
    assert_eq!(groups[0].wasted_bytes, 3_000_000);
}

#[test]
fn fuzzy_keeps_different_artists_apart() {
    let files = vec![
        media_file("/m/a.mp3", 1000, Some(192)),
        media_file("/m/b.mp3", 1000, Some(192)),
    ];
    let mut metadata = HashMap::new();
    metadata.insert("/m/a.mp3".to_string(), track("Hurt", "Nine Inch Nails"));
    metadata.insert("/m/b.mp3".to_string(), track("Hurt", "Johnny Cash"));

    assert!(fuzzy_by_jaro_winkler(&files, &metadata, 0.85).is_empty());
}

#[test]
fn fuzzy_ignores_files_without_a_title() {
    let files = vec![
        media_file("/m/a.mp3", 1000, None),
        media_file("/m/b.mp3", 1000, None),
    ];
    let metadata = HashMap::new();

    assert!(fuzzy_by_jaro_winkler(&files, &metadata, 0.85).is_empty());
}

#[test]
fn fuzzy_group_ids_count_the_clusters_of_a_bucket() {
    let files = vec![
        media_file("/m/a.mp3", 10, Some(128)),
        media_file("/m/b.mp3", 20, Some(128)),
        media_file("/m/c.mp3", 30, Some(128)),
        media_file("/m/d.mp3", 40, Some(128)),
    ];
    let metas = vec![
        Some(track("Hurt", "Nine Inch Nails")),
        Some(track("Hurt", "Johnny Cash")),
        Some(track("Hurt!", "Nine Inch Nails")),
        Some(track("hurt", "Johnny Cash")),
    ];
    let buckets = fuzzy_buckets(&files, &metas);
    assert_eq!(buckets, vec![("hurt".to_string(), vec![0, 1, 2, 3])]);
    // a matches c, b matches d.
    let yes = Some(1u8);
    let m = vec![
        vec![yes, None, yes, None],
        vec![None, yes, None, yes],
        vec![yes, None, yes, None],
        vec![None, yes, None, yes],
    ];
    let groups = find_fuzzy_duplicates(&files, &metas, &buckets, &[m], 9u8);
    assert_eq!(groups.len(), 2);
    // Ordered by reclaimable bytes: b+d frees 20, a+c frees 10.
    assert_eq!(groups[0].id, "fuzzy-hurt-1");
    assert_eq!(groups[0].wasted_bytes, 20);
    assert_eq!(groups[0].reason, "2 files tagged as \"hurt\"");
    assert_eq!(groups[1].id, "fuzzy-hurt-0");
    assert_eq!(groups[1].files[0].score, 9);
    assert_eq!(groups[1].files[1].score, 1);
    assert_eq!(groups[1].mode, DuplicateMode::Fuzzy);
}

#[test]
fn exact_groups_need_the_same_size_and_hash() {
    let h1 = "0123456789abcdef".to_string();
    let h2 = "fedcba9876543210".to_string();
    let files = vec![
        media_file("/m/a.flac", 500, Some(900)),
        media_file("/m/b.flac", 500, Some(1000)),
        media_file("/m/c.flac", 500, Some(900)),
        media_file("/m/d.flac", 700, None),
        media_file("/m/e.flac", 0, None),
        media_file("/m/f.flac", 0, None),
    ];
    let hashes = vec![
        Some(h1.clone()),
        Some(h1.clone()),
        Some(h2.clone()),
        Some(h1.clone()),
        Some(h1.clone()),
        Some(h1.clone()),
    ];
    let groups = find_exact_duplicates(&files, &hashes, 1u8);
    assert_eq!(groups.len(), 1);
    let g = &groups[0];
    assert_eq!(g.id, "exact-0123456789ab");
    assert_eq!(g.reason, "2 identical files (500 bytes each)");
    assert_eq!(g.mode, DuplicateMode::Exact);
    assert_eq!(g.files.len(), 2);
    assert!(!g.files[0].recommended_keep);
    assert!(g.files[1].recommended_keep);
    assert_eq!(g.wasted_bytes, 500);
}

#[test]
fn an_unhashed_file_joins_no_group() {
    let files = vec![media_file("/m/a", 5, None), media_file("/m/b", 5, None)];
    let hashes = vec![Some("aaaaaaaaaaaaaaaa".to_string()), None];
    assert!(find_exact_duplicates(&files, &hashes, 1u8).is_empty());
}

fn dup(path: &str, size: u64, bitrate: Option<u32>) -> DuplicateFile<u8> {
    to_duplicate_file(&media_file(path, size, bitrate), None, 1u8)
}

#[test]
fn the_last_of_the_best_copies_is_kept() {
    let mut files = vec![dup("/a", 10, Some(320)), dup("/b", 10, Some(320)), dup("/c", 99, Some(128))];
    mark_recommended(&mut files);
    let kept: Vec<bool> = files.iter().map(|f| f.recommended_keep).collect();
    assert_eq!(kept, vec![false, true, false]);
}

#[test]
fn a_larger_file_breaks_a_bitrate_tie() {
    let mut files = vec![dup("/a", 30, None), dup("/b", 10, Some(0)), dup("/c", 20, None)];
    mark_recommended(&mut files);
    assert!(files[0].recommended_keep);
    assert!(!files[1].recommended_keep && !files[2].recommended_keep);
}

#[test]
fn reports_sum_over_their_groups() {
    let g1 = finish_group("x".to_string(), DuplicateMode::Exact, "r".to_string(), vec![dup("/a", 10, None), dup("/b", 10, None)]);
    let g2 = finish_group(
        "y".to_string(),
        DuplicateMode::Fuzzy,
        "s".to_string(),
        vec![dup("/c", 100, Some(1)), dup("/d", 50, Some(2)), dup("/e", 70, Some(2))],
    );
    assert_eq!(g1.wasted_bytes, 10);
    assert_eq!(g2.wasted_bytes, 150);
    let sorted = sort_groups(vec![g1, g2]);
    assert_eq!(sorted[0].id, "y");
    let report = build_report(sorted, vec!["w".to_string()]);
    assert_eq!(report.total_groups, 2);
    assert_eq!(report.total_files, 5);
    assert_eq!(report.reclaimable_bytes, 160);
    assert_eq!(report.warnings, vec!["w".to_string()]);
}

#[test]
fn an_empty_group_wastes_nothing() {
    let g: DuplicateGroup<u8> = finish_group("z".to_string(), DuplicateMode::Acoustic, String::new(), Vec::new());
    assert_eq!(g.wasted_bytes, 0);
}

use notata::dedup::detector::{acoustic_order, find_acoustic_duplicates, skipped_warnings};

fn timed(path: &str, size: u64, duration: Option<u64>) -> MediaFile {
    MediaFile { duration_ms: duration, ..media_file(path, size, None) }
}

#[test]
fn acoustic_order_sorts_by_duration_and_skips_unknown_lengths() {
    let files = vec![
        timed("/m/a", 1, Some(200_000)),
        timed("/m/b", 1, None),
        timed("/m/c", 1, Some(100_000)),
        timed("/m/d", 1, Some(200_000)),
    ];
    assert_eq!(acoustic_order(&files), vec![2, 0, 3]);
    assert_eq!(
        skipped_warnings(&files),
        vec!["Skipped /m/b \u{2014} no duration indexed, rescan the library to fix this".to_string()]
    );
}

#[test]
fn acoustic_groups_stay_within_the_duration_tolerance() {
    let files = vec![
        timed("/m/a", 100, Some(180_000)),
        timed("/m/b", 300, Some(183_000)),
        timed("/m/c", 200, Some(190_000)),
        timed("/m/d", 50, Some(181_000)),
    ];
    let order = acoustic_order(&files);
    assert_eq!(order, vec![0, 3, 1, 2]);
    // Every pair sounds alike, but c is more than five seconds longer
    // than a, the first reference.
    let matches = vec![vec![Some(90u8); 3], vec![Some(80u8); 2], vec![Some(70u8); 1], vec![]];
    let fp = vec![true, true, true, true];
    let groups = find_acoustic_duplicates(&files, &order, &fp, &matches, 100u8);
    assert_eq!(groups.len(), 1);
    let g = &groups[0];
    assert_eq!(g.id, "acoustic-/m/a-3");
    assert_eq!(g.reason, "3 files sound like the same recording");
    assert_eq!(g.mode, DuplicateMode::Acoustic);
    let paths: Vec<&str> = g.files.iter().map(|f| f.path.as_str()).collect();
    assert_eq!(paths, vec!["/m/a", "/m/d", "/m/b"]);
    assert_eq!(g.files[0].score, 100);
    assert_eq!(g.files[1].score, 90);
    assert_eq!(g.wasted_bytes, 150);
}

#[test]
fn an_unfingerprinted_file_is_neither_reference_nor_candidate() {
    let files = vec![timed("/m/a", 10, Some(1000)), timed("/m/b", 10, Some(1000)), timed("/m/c", 10, Some(1000))];
    let order = acoustic_order(&files);
    let matches = vec![vec![Some(1u8), Some(1u8)], vec![Some(1u8)], vec![]];
    let groups = find_acoustic_duplicates(&files, &order, &[false, true, true], &matches, 9u8);
    assert_eq!(groups.len(), 1);
    assert_eq!(groups[0].id, "acoustic-/m/b-2");
}

use notata::dedup::{quarantine_name, quarantine_target};

#[test]
fn quarantined_files_keep_their_names_or_take_a_counter() {
    assert_eq!(quarantine_name("/m/x.flac"), "x.flac");
    assert_eq!(quarantine_name("/"), "unnamed");
    assert_eq!(quarantine_target("/t/batch", "x.flac", 0), "/t/batch/x.flac");
    assert_eq!(quarantine_target("/t/batch", "x.flac", 2), "/t/batch/2-x.flac");
}
