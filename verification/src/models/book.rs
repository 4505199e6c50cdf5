//! Comic and ebook metadata.
use vstd::prelude::*;

verus! {

#[derive(Debug, Clone, Copy, PartialEq, Eq, Structural)]
pub enum BookKind {
    /// CBZ/CBR archive carrying ComicInfo.xml.
    Comic,
    /// EPUB carrying an OPF package document.
    Ebook,
}

impl Default for BookKind {
    fn default() -> (r: Self)
        ensures
            r == BookKind::Comic,
    {
        BookKind::Comic
    }
}

/// Where the metadata came from.
#[derive(Debug, Clone, Copy, PartialEq, Eq, Structural)]
pub enum BookMetadataSource {
    /// ComicInfo.xml inside the archive.
    ComicInfo,
    /// OPF package document inside the EPUB.
    Opf,
    /// Nothing embedded; values derived from the filename.
    Filename,
    Unset,
}

impl Default for BookMetadataSource {
    fn default() -> (r: Self)
        ensures
            r == BookMetadataSource::Unset,
    {
        BookMetadataSource::Unset
    }
}

/// Editable metadata for a comic issue or an ebook.
///
/// One model covers both because the useful fields overlap heavily; the
/// writer maps them onto whichever schema the container actually uses.
#[derive(Debug, Clone)]
pub struct BookMetadata {
    pub kind: BookKind,
    pub title: Option<String>,
    pub series: Option<String>,
    /// Issue number — a string because comics use "1.5", "0", "Annual 2".
    pub number: Option<String>,
    /// Total issues in the series, when the file records it.
    pub count: Option<u32>,
    pub volume: Option<u32>,
    pub summary: Option<String>,
    pub year: Option<i32>,
    pub month: Option<u32>,
    pub day: Option<u32>,
    pub authors: Vec<String>,
    pub pencillers: Vec<String>,
    pub inkers: Vec<String>,
    pub colorists: Vec<String>,
    pub letterers: Vec<String>,
    pub cover_artists: Vec<String>,
    pub editors: Vec<String>,
    pub translators: Vec<String>,
    pub publisher: Option<String>,
    pub imprint: Option<String>,
    pub genres: Vec<String>,
    pub characters: Vec<String>,
    pub story_arc: Option<String>,
    pub language: Option<String>,
    pub isbn: Option<String>,
    pub page_count: Option<u32>,
    pub age_rating: Option<String>,
    pub web: Option<String>,
    pub rights: Option<String>,
    pub source: BookMetadataSource,
    /// Entry inside the archive the metadata was read from.
    pub entry_path: Option<String>,
}

pub open spec fn opt_str(o: Option<String>) -> Option<Seq<char>> {
    match o {
        Some(s) => Some(s@),
        None => None,
    }
}

pub open spec fn strs(v: Seq<String>) -> Seq<Seq<char>> {
    Seq::new(v.len(), |i: int| v[i]@)
}

/// Book metadata as the contracts speak of it: strings as character
/// sequences, lists as sequences of them.
#[verifier::ext_equal]
pub ghost struct BookView {
    pub kind: BookKind,
    pub title: Option<Seq<char>>,
    pub series: Option<Seq<char>>,
    pub number: Option<Seq<char>>,
    pub count: Option<u32>,
    pub volume: Option<u32>,
    pub summary: Option<Seq<char>>,
    pub year: Option<i32>,
    pub month: Option<u32>,
    pub day: Option<u32>,
    pub authors: Seq<Seq<char>>,
    pub pencillers: Seq<Seq<char>>,
    pub inkers: Seq<Seq<char>>,
    pub colorists: Seq<Seq<char>>,
    pub letterers: Seq<Seq<char>>,
    pub cover_artists: Seq<Seq<char>>,
    pub editors: Seq<Seq<char>>,
    pub translators: Seq<Seq<char>>,
    pub publisher: Option<Seq<char>>,
    pub imprint: Option<Seq<char>>,
    pub genres: Seq<Seq<char>>,
    pub characters: Seq<Seq<char>>,
    pub story_arc: Option<Seq<char>>,
    pub language: Option<Seq<char>>,
    pub isbn: Option<Seq<char>>,
    pub page_count: Option<u32>,
    pub age_rating: Option<Seq<char>>,
    pub web: Option<Seq<char>>,
    pub rights: Option<Seq<char>>,
    pub source: BookMetadataSource,
    pub entry_path: Option<Seq<char>>,
}

pub open spec fn book_view(m: BookMetadata) -> BookView {
    BookView {
        kind: m.kind,
        title: opt_str(m.title),
        series: opt_str(m.series),
        number: opt_str(m.number),
        count: m.count,
        volume: m.volume,
        summary: opt_str(m.summary),
        year: m.year,
        month: m.month,
        day: m.day,
        authors: strs(m.authors@),
        pencillers: strs(m.pencillers@),
        inkers: strs(m.inkers@),
        colorists: strs(m.colorists@),
        letterers: strs(m.letterers@),
        cover_artists: strs(m.cover_artists@),
        editors: strs(m.editors@),
        translators: strs(m.translators@),
        publisher: opt_str(m.publisher),
        imprint: opt_str(m.imprint),
        genres: strs(m.genres@),
        characters: strs(m.characters@),
        story_arc: opt_str(m.story_arc),
        language: opt_str(m.language),
        isbn: opt_str(m.isbn),
        page_count: m.page_count,
        age_rating: opt_str(m.age_rating),
        web: opt_str(m.web),
        rights: opt_str(m.rights),
        source: m.source,
        entry_path: opt_str(m.entry_path),
    }
}

/// The view of metadata with nothing set but its kind and source.
pub open spec fn blank_book_view(kind: BookKind, source: BookMetadataSource) -> BookView {
    BookView {
        kind,
        title: None,
        series: None,
        number: None,
        count: None,
        volume: None,
        summary: None,
        year: None,
        month: None,
        day: None,
        authors: Seq::empty(),
        pencillers: Seq::empty(),
        inkers: Seq::empty(),
        colorists: Seq::empty(),
        letterers: Seq::empty(),
        cover_artists: Seq::empty(),
        editors: Seq::empty(),
        translators: Seq::empty(),
        publisher: None,
        imprint: None,
        genres: Seq::empty(),
        characters: Seq::empty(),
        story_arc: None,
        language: None,
        isbn: None,
        page_count: None,
        age_rating: None,
        web: None,
        rights: None,
        source,
        entry_path: None,
    }
}

/// Metadata with nothing set.
pub open spec fn is_blank_book(m: BookMetadata) -> bool {
    &&& m.kind == BookKind::Comic
    &&& m.title is None && m.series is None && m.number is None && m.count is None
    &&& m.volume is None && m.summary is None && m.year is None && m.month is None
    &&& m.day is None
    &&& m.authors@.len() == 0 && m.pencillers@.len() == 0 && m.inkers@.len() == 0
    &&& m.colorists@.len() == 0 && m.letterers@.len() == 0 && m.cover_artists@.len() == 0
    &&& m.editors@.len() == 0 && m.translators@.len() == 0
    &&& m.publisher is None && m.imprint is None
    &&& m.genres@.len() == 0 && m.characters@.len() == 0
    &&& m.story_arc is None && m.language is None && m.isbn is None && m.page_count is None
    &&& m.age_rating is None && m.web is None && m.rights is None
    &&& m.source == BookMetadataSource::Unset
    &&& m.entry_path is None
}

impl Default for BookMetadata {
    fn default() -> (r: Self)
        ensures
            is_blank_book(r),
    {
        BookMetadata {
            kind: BookKind::Comic,
            title: None,
            series: None,
            number: None,
            count: None,
            volume: None,
            summary: None,
            year: None,
            month: None,
            day: None,
            authors: Vec::new(),
            pencillers: Vec::new(),
            inkers: Vec::new(),
            colorists: Vec::new(),
            letterers: Vec::new(),
            cover_artists: Vec::new(),
            editors: Vec::new(),
            translators: Vec::new(),
            publisher: None,
            imprint: None,
            genres: Vec::new(),
            characters: Vec::new(),
            story_arc: None,
            language: None,
            isbn: None,
            page_count: None,
            age_rating: None,
            web: None,
            rights: None,
            source: BookMetadataSource::Unset,
            entry_path: None,
        }
    }
}

#[derive(Debug, Clone)]
pub struct BookProperties {
    pub container: String,
    pub file_size: u64,
    /// Number of image entries in a comic archive, when countable.
    pub page_count: Option<u32>,
    /// False when the archive format cannot be opened for metadata.
    pub readable: bool,
}

/// The cover image extracted from a comic archive or EPUB.
#[derive(Debug, Clone)]
pub struct BookCover {
    pub data: String,
    pub mime_type: String,
    pub entry_path: String,
}

} // verus!
