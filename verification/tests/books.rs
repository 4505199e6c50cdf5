use notata::book::archive::{find_entry_name, is_supported_archive};
use notata::book::comicinfo::{parse_comic_info, to_comic_info_xml};
use notata::book::opf::{parse_opf, update_opf_metadata};
use notata::book::xml::{escape, read_all, read_elements};
use notata::metadata::book::{
    cover_from_entry, find_cover_entry_name, find_opf_path, find_year, from_filename, kind_for,
    read_book_metadata, split_series_and_issue, write_book_cover, write_book_metadata,
};
use notata::models::book::{BookKind, BookMetadata, BookMetadataSource};

#[test]
fn rar_comics_are_reported_as_unsupported() {
    assert!(!is_supported_archive("/x/book.cbr"));
    assert!(is_supported_archive("/x/book.cbz"));
    assert!(is_supported_archive("/x/book.epub"));
}

#[test]
fn parses_a_comicinfo_document() {
    let xml = r#"<?xml version="1.0"?>
<ComicInfo>
  <Title>The Vigil</Title>
  <Series>Sandman</Series>
  <Number>8</Number>
  <Count>75</Count>
  <Volume>1</Volume>
  <Summary>Death visits.</Summary>
  <Year>1989</Year>
  <Month>8</Month>
  <Writer>Neil Gaiman</Writer>
  <Penciller>Mike Dringenberg, Malcolm Jones III</Penciller>
  <Publisher>DC Comics</Publisher>
  <Genre>Fantasy, Horror</Genre>
  <PageCount>24</PageCount>
  <LanguageISO>en</LanguageISO>
  <AgeRating>Mature 17+</AgeRating>
</ComicInfo>"#;

    let m = parse_comic_info(xml).unwrap();

    assert_eq!(m.title.as_deref(), Some("The Vigil"));
    assert_eq!(m.series.as_deref(), Some("Sandman"));
    assert_eq!(m.number.as_deref(), Some("8"));
    assert_eq!(m.count, Some(75));
    assert_eq!(m.year, Some(1989));
    assert_eq!(m.month, Some(8));
    assert_eq!(m.authors, vec!["Neil Gaiman"]);
    assert_eq!(m.pencillers, vec!["Mike Dringenberg", "Malcolm Jones III"]);
    assert_eq!(m.genres, vec!["Fantasy", "Horror"]);
    assert_eq!(m.page_count, Some(24));
    assert_eq!(m.language.as_deref(), Some("en"));
    assert_eq!(m.source, BookMetadataSource::ComicInfo);
}

#[test]
fn round_trips_through_the_writer() {
    let original = BookMetadata {
        kind: BookKind::Comic,
        title: Some("The Vigil".into()),
        series: Some("Sandman".into()),
        number: Some("8".into()),
        year: Some(1989),
        authors: vec!["Neil Gaiman".into()],
        pencillers: vec!["Mike Dringenberg".into(), "Malcolm Jones III".into()],
        genres: vec!["Fantasy".into(), "Horror".into()],
        publisher: Some("DC Comics".into()),
        page_count: Some(24),
        ..Default::default()
    };

    let parsed = parse_comic_info(&to_comic_info_xml(&original)).unwrap();

    assert_eq!(parsed.title, original.title);
    assert_eq!(parsed.series, original.series);
    assert_eq!(parsed.number, original.number);
    assert_eq!(parsed.year, original.year);
    assert_eq!(parsed.authors, original.authors);
    assert_eq!(parsed.pencillers, original.pencillers);
    assert_eq!(parsed.genres, original.genres);
    assert_eq!(parsed.page_count, original.page_count);
}

#[test]
fn comicinfo_escapes_markup_in_values() {
    let meta = BookMetadata { title: Some("Tom & Jerry <Special>".into()), ..Default::default() };
    let parsed = parse_comic_info(&to_comic_info_xml(&meta)).unwrap();
    assert_eq!(parsed.title.as_deref(), Some("Tom & Jerry <Special>"));
}

#[test]
fn omits_empty_credit_lists() {
    let meta = BookMetadata { title: Some("X".into()), ..Default::default() };
    let xml = to_comic_info_xml(&meta);
    assert!(!xml.contains("<Writer>"));
    assert!(!xml.contains("<Genre>"));
}

const SAMPLE: &str = r#"<?xml version="1.0"?>
<package xmlns:opf="http://www.idpf.org/2007/opf" version="2.0">
  <metadata xmlns:dc="http://purl.org/dc/elements/1.1/">
    <dc:title>Dune</dc:title>
    <dc:creator opf:role="aut">Frank Herbert</dc:creator>
    <dc:contributor opf:role="trl">A Translator</dc:contributor>
    <dc:publisher>Chilton Books</dc:publisher>
    <dc:language>en</dc:language>
    <dc:date>1965-08-01</dc:date>
    <dc:subject>Science Fiction</dc:subject>
    <dc:identifier opf:scheme="ISBN">9780441013593</dc:identifier>
    <dc:identifier id="uuid">urn:uuid:12345</dc:identifier>
    <meta name="calibre:series" content="Dune Chronicles"/>
    <meta name="calibre:series_index" content="1"/>
  </metadata>
  <manifest><item id="c" href="c.xhtml"/></manifest>
  <spine><itemref idref="c"/></spine>
</package>"#;

#[test]
fn parses_dublin_core_metadata() {
    let m = parse_opf(SAMPLE).unwrap();

    assert_eq!(m.title.as_deref(), Some("Dune"));
    assert_eq!(m.authors, vec!["Frank Herbert"]);
    assert_eq!(m.translators, vec!["A Translator"]);
    assert_eq!(m.publisher.as_deref(), Some("Chilton Books"));
    assert_eq!(m.language.as_deref(), Some("en"));
    assert_eq!(m.year, Some(1965));
    assert_eq!(m.genres, vec!["Science Fiction"]);
    assert_eq!(m.isbn.as_deref(), Some("9780441013593"));
    assert_eq!(m.series.as_deref(), Some("Dune Chronicles"));
    assert_eq!(m.number.as_deref(), Some("1"));
    assert_eq!(m.source, BookMetadataSource::Opf);
}

#[test]
fn update_preserves_manifest_and_spine() {
    let meta = parse_opf(SAMPLE).unwrap();
    let updated = update_opf_metadata(SAMPLE, &meta).unwrap();

    assert!(updated.contains("<manifest>"));
    assert!(updated.contains("<itemref idref=\"c\"/>"));
    assert!(updated.contains("</package>"));
}

#[test]
fn update_round_trips_edited_values() {
    let mut meta = parse_opf(SAMPLE).unwrap();
    meta.title = Some("Dune Messiah".into());
    meta.authors = vec!["Frank Herbert".into()];

    let reparsed = parse_opf(&update_opf_metadata(SAMPLE, &meta).unwrap()).unwrap();

    assert_eq!(reparsed.title.as_deref(), Some("Dune Messiah"));
    assert_eq!(reparsed.authors, vec!["Frank Herbert"]);
    assert_eq!(reparsed.series.as_deref(), Some("Dune Chronicles"));
}

#[test]
fn update_keeps_the_uuid_identifier() {
    let meta = parse_opf(SAMPLE).unwrap();
    let updated = update_opf_metadata(SAMPLE, &meta).unwrap();
    assert!(updated.contains("urn:uuid:12345"));
}

#[test]
fn rejects_a_package_without_metadata() {
    assert!(update_opf_metadata("<package></package>", &BookMetadata::default()).is_err());
}

#[test]
fn keeps_entity_text_intact() {
    let elements = read_elements("<r><a>Tom &amp; Jerry</a></r>").unwrap();
    let a = elements.iter().find(|(n, _)| n == "a").unwrap();
    assert_eq!(a.1, "Tom & Jerry");
}

#[test]
fn strips_namespace_prefixes() {
    let elements = read_elements("<p><dc:title>Dune</dc:title></p>").unwrap();
    assert!(elements.iter().any(|(n, v)| n == "title" && v == "Dune"));
}

#[test]
fn exposes_attributes() {
    let all = read_all(r#"<p><item id="cover" href="c.jpg"/></p>"#).unwrap();
    let item = all.iter().find(|e| e.name == "item").unwrap();
    assert_eq!(
        item.attributes.iter().find(|(k, _)| k == "href").map(|(_, v)| v.as_str()),
        Some("c.jpg")
    );
}

#[test]
fn reports_malformed_documents() {
    assert!(read_elements("<a><b></a>").is_err());
}

#[test]
fn splits_series_and_issue_number() {
    assert_eq!(split_series_and_issue("Sandman 008"), (Some("Sandman".into()), Some("008".into())));
    assert_eq!(split_series_and_issue("Saga #12"), (Some("Saga".into()), Some("12".into())));
}

#[test]
fn does_not_mistake_a_year_for_an_issue_number() {
    assert_eq!(split_series_and_issue("Watchmen 1986"), (None, None));
}

#[test]
fn reads_year_from_the_name() {
    assert_eq!(find_year("Sandman 008 (1989)"), Some(1989));
    assert_eq!(find_year("Sandman 008"), None);
}

#[test]
fn filename_fallback_populates_a_title() {
    let meta = from_filename("/comics/Sandman_008_(1989).cbz");
    assert_eq!(meta.source, BookMetadataSource::Filename);
    assert_eq!(meta.series.as_deref(), Some("Sandman"));
    assert_eq!(meta.number.as_deref(), Some("008"));
    assert_eq!(meta.year, Some(1989));
    assert_eq!(meta.kind, BookKind::Comic);
}

#[test]
fn epub_extension_selects_the_ebook_kind() {
    assert_eq!(kind_for("/books/dune.epub"), BookKind::Ebook);
    assert_eq!(kind_for("/comics/x.cbz"), BookKind::Comic);
}

#[test]
fn writing_a_cbr_reports_it_as_unsupported() {
    let err = write_book_metadata("/comics/x.cbr", &BookMetadata::default(), None, None)
        .unwrap_err()
        .message();
    assert!(err.contains("CBR"), "unexpected message: {}", err);
}

#[test]
fn escape_writes_entity_references() {
    assert_eq!(escape("a & b < c > \"d\""), "a &amp; b &lt; c &gt; &quot;d&quot;");
}

#[test]
fn entries_are_found_by_base_name_ignoring_case() {
    let names = vec!["OEBPS/Content.OPF".to_string(), "mimetype".to_string()];
    assert_eq!(find_entry_name(&names, "content.opf"), Some("OEBPS/Content.OPF".to_string()));
    assert_eq!(find_entry_name(&names, "MIMETYPE"), Some("mimetype".to_string()));
    assert_eq!(find_entry_name(&names, "missing.xml"), None);
}

#[test]
fn the_cover_is_the_first_image_naming_a_cover() {
    let names = vec![
        "002.jpg".to_string(),
        "zz-Cover.PNG".to_string(),
        "001.jpg".to_string(),
        "notes.txt".to_string(),
    ];
    assert_eq!(find_cover_entry_name("/c/x.cbz", &names), Some("zz-Cover.PNG".to_string()));
    let pages = vec!["002.jpg".to_string(), "001.jpg".to_string()];
    assert_eq!(find_cover_entry_name("/c/x.cbz", &pages), Some("001.jpg".to_string()));
    assert_eq!(find_cover_entry_name("/c/x.cbr", &pages), None);
}

#[test]
fn a_new_comic_cover_gets_its_own_entry() {
    let none: Vec<String> = Vec::new();
    assert_eq!(write_book_cover("/c/x.cbz", &none, "image/png").unwrap(), "000-cover.png");
    let err = write_book_cover("/b/x.epub", &none, "image/png").unwrap_err().message();
    assert_eq!(err, "This EPUB has no existing cover image to replace");
}

#[test]
fn cover_images_are_encoded_in_base64() {
    let c = cover_from_entry("OEBPS/cover.PNG", b"hi!");
    assert_eq!(c.data, "aGkh");
    assert_eq!(c.mime_type, "image/png");
    assert_eq!(c.entry_path, "OEBPS/cover.PNG");
}

#[test]
fn embedded_metadata_takes_the_file_name_as_a_missing_title() {
    let embedded = BookMetadata { series: Some("S".into()), ..Default::default() };
    let m = read_book_metadata("/c/Some_Book.cbz", Some(embedded));
    assert_eq!(m.title.as_deref(), Some("Some Book"));
    assert_eq!(m.series.as_deref(), Some("S"));
    let fallback = read_book_metadata("/c/Some_Book.cbr", Some(BookMetadata::default()));
    assert_eq!(fallback.source, BookMetadataSource::Filename);
}

#[test]
fn the_container_names_the_package() {
    let xml = r#"<container><rootfiles><rootfile full-path="OEBPS/content.opf" media-type="x"/></rootfiles></container>"#;
    assert_eq!(find_opf_path(xml).unwrap(), Some("OEBPS/content.opf".to_string()));
}

#[test]
fn an_epub_write_rewrites_its_package() {
    let meta = BookMetadata { title: Some("New".into()), ..Default::default() };
    let u = write_book_metadata("/b/x.epub", &meta, Some("content.opf".into()), Some(SAMPLE.into())).unwrap();
    assert_eq!(u.entry_name, "content.opf");
    assert!(u.contents.contains("<dc:title>New</dc:title>"));
    let missing = write_book_metadata("/b/x.epub", &meta, Some("p.opf".into()), None).unwrap_err().message();
    assert_eq!(missing, "EPUB is missing its package document p.opf");
}

use notata::metadata::book::book_properties;

#[test]
fn book_properties_count_pages_of_readable_archives() {
    let entries = vec!["ComicInfo.xml".to_string(), "001.JPG".to_string(), "002.png".to_string(), "notes/".to_string()];
    let p = book_properties("/c/Issue 1.cbz", 1234, Some(entries.clone()));
    assert_eq!(p.container, "CBZ");
    assert_eq!(p.file_size, 1234);
    assert!(p.readable);
    assert_eq!(p.page_count, Some(2));
    let unread = book_properties("/c/Issue 1.cbz", 1, None);
    assert_eq!(unread.page_count, None);
    let rar = book_properties("/c/Issue 1.cbr", 1, Some(entries));
    assert!(!rar.readable);
    assert_eq!(rar.page_count, None);
    assert_eq!(rar.container, "CBR");
    assert_eq!(book_properties("/c/README", 0, None).container, "UNKNOWN");
}

#[test]
fn update_cuts_the_block_where_it_stands_in_the_document() {
    let original = "<package><!-- İstanbul --><METADATA>\n<dc:title>Old</dc:title>\n</METADATA><spine/></package>";
    let mut meta = parse_opf(original).unwrap();
    meta.title = Some("New".to_string());
    let updated = update_opf_metadata(original, &meta).unwrap();
    assert!(updated.starts_with("<package><!-- İstanbul --><METADATA>"));
    assert!(updated.ends_with("</METADATA><spine/></package>"));
    assert!(updated.contains("New"));
    assert!(!updated.contains("Old"));
}
