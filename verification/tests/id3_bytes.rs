use id3::frame::Chapter as Id3Chapter;
use id3::{Frame, TagLike, Version};

use notata::chapters::mp3::read_id3_chapters;

fn tagged(chapters: &[(&str, u32, u32, &str)]) -> Vec<u8> {
    let mut tag = id3::Tag::new();
    for (id, start, end, title) in chapters {
        tag.add_frame(Id3Chapter {
            element_id: id.to_string(),
            start_time: *start,
            end_time: *end,
            start_offset: 0xffff_ffff,
            end_offset: 0xffff_ffff,
            frames: vec![Frame::text("TIT2", *title)],
        });
    }
    let mut out = Vec::new();
    tag.write_to(&mut out, Version::Id3v24).unwrap();
    out.extend_from_slice(&[0u8; 16]);
    out
}

#[test]
fn chapters_are_read_from_the_tag_bytes_in_start_order() {
    let bytes = tagged(&[("chp1", 5000, 9000, "Second"), ("chp0", 0, 5000, "First")]);
    let chapters = read_id3_chapters(&bytes).unwrap();
    assert_eq!(chapters.len(), 2);
    assert_eq!(chapters[0].id, "chp0");
    assert_eq!(chapters[0].title, "First");
    assert_eq!(chapters[0].start_ms, 0);
    assert_eq!(chapters[0].end_ms, 5000);
    assert_eq!(chapters[1].id, "chp1");
    assert_eq!(chapters[1].title, "Second");
}

#[test]
fn bytes_without_a_tag_hold_no_chapters() {
    let chapters = read_id3_chapters(&[0u8; 64]).unwrap();
    assert!(chapters.is_empty());
}
