use std::io::Write;

use notata::book::archive::read_entry;

fn archive(entries: &[(&str, &str)]) -> Vec<u8> {
    let mut writer = zip::ZipWriter::new(std::io::Cursor::new(Vec::new()));
    for (name, body) in entries {
        writer
            .start_file(name.to_string(), zip::write::SimpleFileOptions::default().compression_method(zip::CompressionMethod::Stored))
            .unwrap();
        writer.write_all(body.as_bytes()).unwrap();
    }
    writer.finish().unwrap().into_inner()
}

#[test]
fn an_entry_is_found_by_base_name_ignoring_case() {
    let bytes = archive(&[("pages/001.jpg", "x"), ("Meta/comicinfo.XML", "<ComicInfo/>")]);
    assert_eq!(read_entry(&bytes, "ComicInfo.xml"), Ok(Some(b"<ComicInfo/>".to_vec())));
}

#[test]
fn a_missing_entry_is_none() {
    let bytes = archive(&[("pages/001.jpg", "x")]);
    assert_eq!(read_entry(&bytes, "ComicInfo.xml"), Ok(None));
}

#[test]
fn bytes_that_are_no_archive_are_refused() {
    match read_entry(b"not a zip at all", "ComicInfo.xml") {
        Err(m) => assert!(m.starts_with("Not a readable archive: "), "{}", m),
        Ok(_) => panic!("not an archive"),
    }
}
