use notata::chapters::mp3::{id3_chapters, id3_plan, Id3ChapterFrame};
use notata::chapters::mp4::{read_chapters_from_bytes, write_chapters_to_bytes};
use notata::chapters::vorbis::{
    chapter_key, chapter_name_key, format_timestamp, parse_chapter_key, parse_hms, vorbis_chapters,
    vorbis_update, VorbisItem,
};
use notata::chapters::{
    chapter_format, fill_end_times, read_chapters, sort_by_start, write_chapters, Chapter,
    ChapterFormat, ChapterSource, ChapterTarget, ChapterUpdate,
};

fn mp4_box(code: &[u8; 4], body: &[u8]) -> Vec<u8> {
    let mut out = ((body.len() + 8) as u32).to_be_bytes().to_vec();
    out.extend_from_slice(code);
    out.extend_from_slice(body);
    out
}

fn chpl(entries: &[(u64, &str)]) -> Vec<u8> {
    let mut body = vec![1u8, 0, 0, 0, 0, 0, 0, 0, entries.len() as u8];
    for (ms, title) in entries {
        body.extend_from_slice(&(ms * 10_000).to_be_bytes());
        body.push(title.len() as u8);
        body.extend_from_slice(title.as_bytes());
    }
    mp4_box(b"chpl", &body)
}

fn chapter(title: &str, start_ms: u64) -> Chapter {
    Chapter { id: String::new(), title: title.to_string(), start_ms, end_ms: 0 }
}

/// A file whose media data follows the `moov` box, with one chunk offset
/// pointing into it.
fn sample_file(moov_extra: &[u8]) -> Vec<u8> {
    let ftyp = mp4_box(b"ftyp", b"M4A \0\0\0\0");
    let mut stco_body = vec![0u8, 0, 0, 0, 0, 0, 0, 1];
    stco_body.extend_from_slice(&0u32.to_be_bytes());
    let stco = mp4_box(b"stco", &stco_body);
    let stbl = mp4_box(b"stbl", &stco);
    let minf = mp4_box(b"minf", &stbl);
    let mdia = mp4_box(b"mdia", &minf);
    let trak = mp4_box(b"trak", &mdia);
    let mut moov_body = trak;
    moov_body.extend_from_slice(moov_extra);
    let moov = mp4_box(b"moov", &moov_body);
    let mdat_start = (ftyp.len() + moov.len()) as u32;
    let mut file = ftyp;
    // Point the one chunk at the start of `mdat`.
    let mut moov_fixed = moov.clone();
    let pos = moov_fixed.len() - moov_extra.len() - 4;
    moov_fixed[pos..pos + 4].copy_from_slice(&(mdat_start + 8).to_be_bytes());
    file.extend_from_slice(&moov_fixed);
    file.extend_from_slice(&mp4_box(b"mdat", b"audio"));
    file
}

fn chunk_offset(file: &[u8]) -> u32 {
    let at = file.windows(4).position(|w| w == b"stco").unwrap();
    u32::from_be_bytes(file[at + 12..at + 16].try_into().unwrap())
}

#[test]
fn reads_chapters_from_a_chpl_box() {
    let udta = mp4_box(b"udta", &chpl(&[(5000, "Two"), (0, "One")]));
    let file = sample_file(&udta);
    let cs = read_chapters_from_bytes(&file);
    assert_eq!(cs.len(), 2);
    assert_eq!(cs[0].title, "One");
    assert_eq!(cs[0].start_ms, 0);
    assert_eq!(cs[0].end_ms, 5000);
    assert_eq!(cs[0].id, "chp2");
    assert_eq!(cs[1].title, "Two");
    assert_eq!(cs[1].end_ms, 0);
}

#[test]
fn written_chapters_read_back_and_offsets_move() {
    let file = sample_file(&[]);
    let before = chunk_offset(&file);
    let out = write_chapters_to_bytes(&file, &[chapter("B", 90_000), chapter("A", 0)]).unwrap();
    let cs = read_chapters_from_bytes(&out);
    assert_eq!(cs.iter().map(|c| c.title.as_str()).collect::<Vec<_>>(), vec!["A", "B"]);
    assert_eq!(cs[0].start_ms, 0);
    assert_eq!(cs[1].start_ms, 90_000);
    assert_eq!(cs[0].end_ms, 90_000);
    let grown = (out.len() - file.len()) as u32;
    assert_eq!(chunk_offset(&out), before + grown);
    assert_eq!(&out[out.len() - 13..], &mp4_box(b"mdat", b"audio")[..]);
}

#[test]
fn a_file_without_moov_cannot_take_chapters() {
    let file = mp4_box(b"ftyp", b"M4A ");
    let err = write_chapters_to_bytes(&file, &[chapter("A", 0)]).unwrap_err();
    assert_eq!(err.message(), "File has no moov atom");
    assert!(read_chapters_from_bytes(&file).is_empty());
}

#[test]
fn formats_follow_the_extension() {
    assert_eq!(chapter_format("/a/b.MP3").unwrap(), ChapterFormat::Id3);
    assert_eq!(chapter_format("/a/b.opus").unwrap(), ChapterFormat::Vorbis);
    assert_eq!(chapter_format("/a/b.m4b").unwrap(), ChapterFormat::Mp4);
    assert_eq!(chapter_format("/a/b.wav").unwrap_err().message(), "Chapters are not supported for .wav files");
    assert!(read_chapters("/a/b", &ChapterSource::Mp4(Vec::new())).is_err());
}

#[test]
fn timestamps_are_written_and_read_as_clock_times() {
    assert_eq!(format_timestamp(3_723_004), "01:02:03.004");
    assert_eq!(format_timestamp(360_000_000), "100:00:00.000");
    assert_eq!(parse_hms("01:02:03.004"), Some(3_723_004));
    assert_eq!(parse_hms(" 2:03 "), Some(123_000));
    assert_eq!(parse_hms("1:2:3:4"), None);
    assert_eq!(parse_hms("x:03"), None);
}

#[test]
fn chapter_keys_are_numbered_with_three_digits() {
    assert_eq!(chapter_key(7), "CHAPTER007");
    assert_eq!(chapter_name_key(12), "CHAPTER012NAME");
    assert_eq!(parse_chapter_key("chapter003name"), Some((3, true)));
    assert_eq!(parse_chapter_key("CHAPTER010"), Some((10, false)));
    assert_eq!(parse_chapter_key("CHAPTERNAME"), None);
    assert_eq!(parse_chapter_key("TITLE"), None);
}

#[test]
fn vorbis_items_become_ordered_chapters() {
    let item = |k: &str, t: &str| VorbisItem { key: k.into(), text: Some(t.into()), seconds_ms: None };
    let items = vec![
        item("CHAPTER002", "00:01:00.000"),
        item("CHAPTER001", "00:00:00.000"),
        item("CHAPTER001NAME", "Intro"),
        item("CHAPTER002NAME", "Main"),
        VorbisItem { key: "CHAPTER003".into(), text: Some("90.5".into()), seconds_ms: Some(90_500) },
    ];
    let cs = vorbis_chapters(&items);
    assert_eq!(cs.iter().map(|c| c.title.as_str()).collect::<Vec<_>>(), vec!["Intro", "Main", ""]);
    assert_eq!(cs[0].id, "chp1");
    assert_eq!(cs[0].end_ms, 60_000);
    assert_eq!(cs[2].start_ms, 90_500);
}

#[test]
fn vorbis_writes_replace_the_old_chapter_keys() {
    let keys = vec!["TITLE".to_string(), "chapter001".to_string(), "ChApTeR001NAME".to_string()];
    let u = vorbis_update(&keys, &[chapter("Late", 2000), chapter("Early", 1000)]);
    assert_eq!(u.remove, vec!["chapter001".to_string(), "ChApTeR001NAME".to_string()]);
    assert_eq!(u.add[0], ("CHAPTER001".to_string(), "00:00:01.000".to_string()));
    assert_eq!(u.add[1], ("CHAPTER001NAME".to_string(), "Early".to_string()));
    assert_eq!(u.add[3], ("CHAPTER002NAME".to_string(), "Late".to_string()));
}

#[test]
fn id3_frames_give_titled_chapters() {
    let frame = |id: &str, start: u32, title: Option<&str>| Id3ChapterFrame {
        element_id: id.into(),
        start_time: start,
        end_time: start + 10,
        frames: vec![("TPE1".into(), Some("x".into())), ("TIT2".into(), title.map(|t| t.to_string()))],
    };
    let cs = id3_chapters(&[frame("b", 50, Some("Second")), frame("a", 0, None)]);
    assert_eq!(cs[0].id, "a");
    assert_eq!(cs[0].title, "");
    assert_eq!(cs[1].title, "Second");
    assert_eq!(cs[1].end_ms, 60);
}

#[test]
fn id3_writes_number_chapters_without_ids() {
    let mut named = chapter("Named", 5);
    named.id = "keep".into();
    let plan = id3_plan(&[named, chapter("First", 1)]);
    assert_eq!(plan.toc, vec!["chp0".to_string(), "keep".to_string()]);
    assert_eq!(plan.chapters[0].3, "First");
    assert_eq!(plan.chapters[1].1, 5);
}

#[test]
fn sorting_is_stable_and_ends_follow_starts() {
    let mut cs = sort_by_start(vec![chapter("b", 10), chapter("a", 0), chapter("c", 10)]);
    fill_end_times(&mut cs);
    assert_eq!(cs.iter().map(|c| c.title.as_str()).collect::<Vec<_>>(), vec!["a", "b", "c"]);
    assert_eq!(cs[0].end_ms, 10);
    assert_eq!(cs[1].end_ms, 10);
    assert_eq!(cs[2].end_ms, 0);
}

#[test]
fn writes_go_to_the_store_the_extension_selects() {
    let file = sample_file(&[]);
    match write_chapters("/a/b.m4a", &[chapter("A", 0)], &ChapterTarget::Mp4(file)).unwrap() {
        ChapterUpdate::Mp4(bytes) => assert_eq!(read_chapters_from_bytes(&bytes)[0].title, "A"),
        _ => panic!("expected an MP4 update"),
    }
    assert!(write_chapters("/a/b.txt", &[], &ChapterTarget::Id3).is_err());
}

use notata::chapters::detect::allin1::{allin1_status, capitalize, segment_chapters, tail_lines, Allin1Run, Segment};

#[test]
fn section_labels_become_capitalised_chapters() {
    assert_eq!(capitalize("chorus"), "Chorus");
    assert_eq!(capitalize(""), "");
    assert_eq!(capitalize("ßolo"), "SSolo");
    let chapters = segment_chapters(&vec![
        Segment { start_ms: 0, end_ms: 12_500, label: "intro".to_string() },
        Segment { start_ms: 12_500, end_ms: 40_000, label: "verse".to_string() },
    ]);
    assert_eq!(chapters.len(), 2);
    assert_eq!(chapters[0].id, "chp1");
    assert_eq!(chapters[1].id, "chp2");
    assert_eq!(chapters[1].title, "Verse");
    assert_eq!(chapters[1].start_ms, 12_500);
    assert_eq!(chapters[1].end_ms, 40_000);
}

#[test]
fn a_failed_check_reports_the_end_of_the_error_output() {
    assert_eq!(tail_lines("a\r\nb\n\nc\nd\ne\nf\n"), "\nc\nd\ne\nf");
    assert_eq!(tail_lines("only\r"), "only\r");
    assert_eq!(tail_lines(""), "");
    let ok = allin1_status("allin1", Allin1Run::Exited { success: true, stderr: String::new(), status: "exit status: 0".into() });
    assert!(ok.available && ok.found && ok.error.is_none());
    let failed = allin1_status(
        "/opt/allin1",
        Allin1Run::Exited { success: false, stderr: "  \n".into(), status: "exit status: 2".into() },
    );
    assert!(!failed.available && failed.found);
    assert_eq!(failed.error.as_deref(), Some("exited with status exit status: 2"));
    assert_eq!(failed.path, "/opt/allin1");
    let traced = allin1_status(
        "allin1",
        Allin1Run::Exited { success: false, stderr: "1\n2\n3\n4\n5\n6\nModuleNotFoundError: torch\n".into(), status: "x".into() },
    );
    assert_eq!(traced.error.as_deref(), Some("3\n4\n5\n6\nModuleNotFoundError: torch"));
    let missing = allin1_status("allin1", Allin1Run::NotStarted("No such file or directory".into()));
    assert!(!missing.found && !missing.available);
    assert_eq!(missing.error.as_deref(), Some("No such file or directory"));
}

use notata::chapters::detect::ssm::next_pow2;

#[test]
fn frame_sizes_round_up_to_a_power_of_two() {
    assert_eq!(next_pow2(0), 1);
    assert_eq!(next_pow2(1), 1);
    assert_eq!(next_pow2(2), 2);
    assert_eq!(next_pow2(3), 4);
    assert_eq!(next_pow2(1000), 1024);
    assert_eq!(next_pow2(4096), 4096);
}

use notata::chapters::ffprobe::{probed_chapters, ProbedChapter};

#[test]
fn probed_chapters_keep_their_listed_numbers_and_sort_by_start() {
    let list = vec![
        ProbedChapter { start_ms: Some(60_000), end_ms: Some(120_000), title: Some("Two".to_string()) },
        ProbedChapter { start_ms: None, end_ms: Some(1), title: Some("Broken".to_string()) },
        ProbedChapter { start_ms: Some(0), end_ms: Some(60_000), title: None },
    ];
    let chapters = probed_chapters(&list).unwrap();
    assert_eq!(chapters.len(), 2);
    assert_eq!(chapters[0].id, "chp3");
    assert_eq!(chapters[0].title, "");
    assert_eq!(chapters[1].id, "chp1");
    assert_eq!(chapters[1].title, "Two");
    assert!(probed_chapters(&vec![ProbedChapter { start_ms: None, end_ms: None, title: None }]).is_none());
    assert!(probed_chapters(&vec![]).is_none());
}
