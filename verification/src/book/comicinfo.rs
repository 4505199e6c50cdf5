//! ComicRack `ComicInfo.xml`: a flat schema whose credits are comma lists.
use vstd::prelude::*;

use crate::book::xml::{
    document_elements, escape, escape_spec, name_text_pairs, name_text_view, read_elements,
};
use crate::error::NotataError;
use crate::models::book::{
    blank_book_view, book_view, strs, BookKind, BookMetadata, BookMetadataSource, BookView,
};
use crate::text::{
    chars_of, decimal, format_i64, format_u64, join, lowercase, parse_i32, parse_signed, parse_u32,
    parse_unsigned, push_all, signed_decimal, str_eq, string_from, to_lowercase, trim, trimmed,
};

verus! {

/// A trimmed item, kept when it is not empty.
pub open spec fn keep_item(cur: Seq<char>) -> Seq<Seq<char>> {
    if trim(cur).len() > 0 { seq![trim(cur)] } else { Seq::empty() }
}

/// The `sep`-separated items of `s` from here on, given the item read so far.
pub open spec fn list_from(s: Seq<char>, cur: Seq<char>, sep: char) -> Seq<Seq<char>>
    decreases s.len(),
{
    if s.len() == 0 {
        keep_item(cur)
    } else if s[0] == sep {
        keep_item(cur) + list_from(s.drop_first(), Seq::empty(), sep)
    } else {
        list_from(s.drop_first(), cur.push(s[0]), sep)
    }
}

/// The items of a `sep`-separated list, trimmed, without empty ones.
pub open spec fn split_items_spec(s: Seq<char>, sep: char) -> Seq<Seq<char>> {
    list_from(s, Seq::empty(), sep)
}

/// ComicInfo packs multiple credits into one comma-separated element: the
/// items, trimmed, without empty ones.
pub open spec fn split_list_spec(s: Seq<char>) -> Seq<Seq<char>> {
    split_items_spec(s, ',')
}

pub fn split_list(value: &str) -> (r: Vec<String>)
    ensures
        strs(r@) == split_list_spec(value@),
{
    split_items(value, ',')
}

/// The items of a `sep`-separated list, trimmed, without empty ones.
pub fn split_items(value: &str, sep: char) -> (r: Vec<String>)
    ensures
        strs(r@) == split_items_spec(value@, sep),
{
    let c = chars_of(value);
    let mut out: Vec<String> = Vec::new();
    let mut cur: Vec<char> = Vec::new();
    let mut i: usize = 0;
    assert(c@.subrange(0, c@.len() as int) =~= c@);
    assert(strs(out@) =~= Seq::<Seq<char>>::empty());
    assert(cur@ =~= Seq::<char>::empty());
    while i < c.len()
        invariant
            0 <= i <= c@.len(),
            c@ == value@,
            strs(out@) + list_from(c@.subrange(i as int, c@.len() as int), cur@, sep) == split_items_spec(value@, sep),
        decreases c@.len() - i,
    {
        let ghost rest = c@.subrange(i as int, c@.len() as int);
        let ghost before = strs(out@);
        let ghost cur0 = cur@;
        assert(rest.drop_first() =~= c@.subrange(i + 1, c@.len() as int));
        if c[i] == sep {
            let t = trimmed(cur.as_slice());
            if t.len() > 0 {
                out.push(string_from(t.as_slice()));
                assert(strs(out@) =~= before + keep_item(cur0));
            } else {
                assert(strs(out@) =~= before + keep_item(cur0));
            }
            cur = Vec::new();
            assert(strs(out@) + list_from(rest.drop_first(), cur@, sep) =~= before + list_from(rest, cur0, sep));
        } else {
            cur.push(c[i]);
        }
        i = i + 1;
    }
    let ghost before = strs(out@);
    let t = trimmed(cur.as_slice());
    if t.len() > 0 {
        out.push(string_from(t.as_slice()));
    }
    assert(strs(out@) =~= before + keep_item(cur@));
    out
}

pub open spec fn u32_field(t: Seq<char>) -> Option<u32> {
    match parse_unsigned(t) {
        Some(v) => if v <= u32::MAX { Some(v as u32) } else { None },
        None => None,
    }
}

pub open spec fn i32_field(t: Seq<char>) -> Option<i32> {
    match parse_signed(t) {
        Some(v) => if i32::MIN <= v <= i32::MAX { Some(v as i32) } else { None },
        None => None,
    }
}

/// One ComicInfo element applied to the metadata read so far. Element
/// names match ignoring case; empty values are skipped; a number that does
/// not parse clears its field.
pub open spec fn comic_apply(v: BookView, name: Seq<char>, value: Seq<char>) -> BookView {
    let t = trim(value);
    let n = lowercase(name);
    if t.len() == 0 {
        v
    } else if n == "title"@ {
        BookView { title: Some(t), ..v }
    } else if n == "series"@ {
        BookView { series: Some(t), ..v }
    } else if n == "number"@ {
        BookView { number: Some(t), ..v }
    } else if n == "count"@ {
        BookView { count: u32_field(t), ..v }
    } else if n == "volume"@ {
        BookView { volume: u32_field(t), ..v }
    } else if (n == "summary"@ || n == "notes"@) && v.summary is None {
        BookView { summary: Some(t), ..v }
    } else if n == "year"@ {
        BookView { year: i32_field(t), ..v }
    } else if n == "month"@ {
        BookView { month: u32_field(t), ..v }
    } else if n == "day"@ {
        BookView { day: u32_field(t), ..v }
    } else if n == "writer"@ {
        BookView { authors: split_list_spec(t), ..v }
    } else if n == "penciller"@ {
        BookView { pencillers: split_list_spec(t), ..v }
    } else if n == "inker"@ {
        BookView { inkers: split_list_spec(t), ..v }
    } else if n == "colorist"@ {
        BookView { colorists: split_list_spec(t), ..v }
    } else if n == "letterer"@ {
        BookView { letterers: split_list_spec(t), ..v }
    } else if n == "coverartist"@ {
        BookView { cover_artists: split_list_spec(t), ..v }
    } else if n == "editor"@ {
        BookView { editors: split_list_spec(t), ..v }
    } else if n == "translator"@ {
        BookView { translators: split_list_spec(t), ..v }
    } else if n == "publisher"@ {
        BookView { publisher: Some(t), ..v }
    } else if n == "imprint"@ {
        BookView { imprint: Some(t), ..v }
    } else if n == "genre"@ {
        BookView { genres: split_list_spec(t), ..v }
    } else if n == "characters"@ {
        BookView { characters: split_list_spec(t), ..v }
    } else if n == "storyarc"@ {
        BookView { story_arc: Some(t), ..v }
    } else if n == "languageiso"@ {
        BookView { language: Some(t), ..v }
    } else if n == "gtin"@ || n == "isbn"@ {
        BookView { isbn: Some(t), ..v }
    } else if n == "pagecount"@ {
        BookView { page_count: u32_field(t), ..v }
    } else if n == "agerating"@ {
        BookView { age_rating: Some(t), ..v }
    } else if n == "web"@ {
        BookView { web: Some(t), ..v }
    } else {
        v
    }
}

pub open spec fn comic_fold(els: Seq<(Seq<char>, Seq<char>)>) -> BookView
    decreases els.len(),
{
    if els.len() == 0 {
        blank_book_view(BookKind::Comic, BookMetadataSource::ComicInfo)
    } else {
        comic_apply(comic_fold(els.drop_last()), els.last().0, els.last().1)
    }
}

fn apply_comic_field(meta: &mut BookMetadata, name: &str, value: &str)
    ensures
        book_view(*final(meta)) == comic_apply(book_view(*old(meta)), name@, value@),
{
    let tc = trimmed(chars_of(value).as_slice());
    if tc.len() == 0 {
        return;
    }
    let t = string_from(tc.as_slice());
    let lower = to_lowercase(name);
    let n = lower.as_str();
    if str_eq(n, "title") {
        meta.title = Some(t);
    } else if str_eq(n, "series") {
        meta.series = Some(t);
    } else if str_eq(n, "number") {
        meta.number = Some(t);
    } else if str_eq(n, "count") {
        meta.count = parse_u32(tc.as_slice());
    } else if str_eq(n, "volume") {
        meta.volume = parse_u32(tc.as_slice());
    } else if (str_eq(n, "summary") || str_eq(n, "notes")) && meta.summary.is_none() {
        meta.summary = Some(t);
    } else if str_eq(n, "year") {
        meta.year = parse_i32(tc.as_slice());
    } else if str_eq(n, "month") {
        meta.month = parse_u32(tc.as_slice());
    } else if str_eq(n, "day") {
        meta.day = parse_u32(tc.as_slice());
    } else if str_eq(n, "writer") {
        meta.authors = split_list(t.as_str());
    } else if str_eq(n, "penciller") {
        meta.pencillers = split_list(t.as_str());
    } else if str_eq(n, "inker") {
        meta.inkers = split_list(t.as_str());
    } else if str_eq(n, "colorist") {
        meta.colorists = split_list(t.as_str());
    } else if str_eq(n, "letterer") {
        meta.letterers = split_list(t.as_str());
    } else if str_eq(n, "coverartist") {
        meta.cover_artists = split_list(t.as_str());
    } else if str_eq(n, "editor") {
        meta.editors = split_list(t.as_str());
    } else if str_eq(n, "translator") {
        meta.translators = split_list(t.as_str());
    } else if str_eq(n, "publisher") {
        meta.publisher = Some(t);
    } else if str_eq(n, "imprint") {
        meta.imprint = Some(t);
    } else if str_eq(n, "genre") {
        meta.genres = split_list(t.as_str());
    } else if str_eq(n, "characters") {
        meta.characters = split_list(t.as_str());
    } else if str_eq(n, "storyarc") {
        meta.story_arc = Some(t);
    } else if str_eq(n, "languageiso") {
        meta.language = Some(t);
    } else if str_eq(n, "gtin") || str_eq(n, "isbn") {
        meta.isbn = Some(t);
    } else if str_eq(n, "pagecount") {
        meta.page_count = parse_u32(tc.as_slice());
    } else if str_eq(n, "agerating") {
        meta.age_rating = Some(t);
    } else if str_eq(n, "web") {
        meta.web = Some(t);
    }
}

/// The metadata a list of ComicInfo elements (name and text) describes.
pub fn comic_info_from_elements(elements: &[(String, String)]) -> (r: BookMetadata)
    ensures
        book_view(r) == comic_fold(name_text_view(elements@)),
{
    let mut meta = BookMetadata::default();
    meta.kind = BookKind::Comic;
    meta.source = BookMetadataSource::ComicInfo;
    let ghost ev = name_text_view(elements@);
    assert(book_view(meta) =~= comic_fold(ev.subrange(0, 0)));
    let mut k: usize = 0;
    while k < elements.len()
        invariant
            0 <= k <= elements@.len(),
            ev == name_text_view(elements@),
            book_view(meta) == comic_fold(ev.subrange(0, k as int)),
        decreases elements@.len() - k,
    {
        let (name, value) = &elements[k];
        apply_comic_field(&mut meta, name.as_str(), value.as_str());
        assert(ev.subrange(0, k + 1).drop_last() =~= ev.subrange(0, k as int));
        k = k + 1;
    }
    assert(ev.subrange(0, k as int) =~= ev);
    meta
}

/// Parse a ComicRack `ComicInfo.xml` document: the metadata its elements
/// describe, or the reader's error.
pub fn parse_comic_info(xml: &str) -> (r: Result<BookMetadata, NotataError>)
    ensures
        match document_elements(xml@) {
            Ok(es) => r matches Ok(m) && book_view(m) == comic_fold(name_text_pairs(es)),
            Err(msg) => r matches Err(e) && (e matches NotataError::Custom(t) && t@ == msg),
        },
{
    match read_elements(xml) {
        Err(e) => Err(e),
        Ok(elements) => Ok(comic_info_from_elements(elements.as_slice())),
    }
}


/// One element of the written document, left out when the value is blank.
pub open spec fn xml_line(tag: Seq<char>, value: Seq<char>) -> Seq<char> {
    if trim(value).len() > 0 {
        "  <"@ + tag + ">"@ + escape_spec(value) + "</"@ + tag + ">\n"@
    } else {
        Seq::empty()
    }
}

pub open spec fn opt_line(tag: Seq<char>, v: Option<Seq<char>>) -> Seq<char> {
    match v {
        Some(x) => xml_line(tag, x),
        None => Seq::empty(),
    }
}

pub open spec fn num_line(tag: Seq<char>, v: Option<u32>) -> Seq<char> {
    match v {
        Some(x) => xml_line(tag, decimal(x as nat)),
        None => Seq::empty(),
    }
}

pub open spec fn list_line(tag: Seq<char>, v: Seq<Seq<char>>) -> Seq<char> {
    xml_line(tag, join(v, ", "@))
}

pub open spec fn comic_header() -> Seq<char> {
    "<?xml version=\"1.0\" encoding=\"utf-8\"?>\n"@ + "<ComicInfo xmlns:xsi=\"http://www.w3.org/2001/XMLSchema-instance\" xmlns:xsd=\"http://www.w3.org/2001/XMLSchema\">\n"@
}

/// ComicInfo.xml for the metadata, in the schema's element order, with
/// blank values and empty lists left out.
pub open spec fn comic_xml(v: BookView) -> Seq<char> {
    comic_header() + opt_line("Title"@, v.title) + opt_line("Series"@, v.series) + opt_line(
        "Number"@,
        v.number,
    ) + num_line("Count"@, v.count) + num_line("Volume"@, v.volume) + opt_line("Summary"@, v.summary)
        + match v.year {
        Some(y) => xml_line("Year"@, signed_decimal(y as int)),
        None => Seq::empty(),
    } + num_line("Month"@, v.month) + num_line("Day"@, v.day) + list_line("Writer"@, v.authors)
        + list_line("Penciller"@, v.pencillers) + list_line("Inker"@, v.inkers) + list_line(
        "Colorist"@,
        v.colorists,
    ) + list_line("Letterer"@, v.letterers) + list_line("CoverArtist"@, v.cover_artists) + list_line(
        "Editor"@,
        v.editors,
    ) + list_line("Translator"@, v.translators) + opt_line("Publisher"@, v.publisher) + opt_line(
        "Imprint"@,
        v.imprint,
    ) + list_line("Genre"@, v.genres) + opt_line("Web"@, v.web) + num_line("PageCount"@, v.page_count)
        + opt_line("LanguageISO"@, v.language) + opt_line("AgeRating"@, v.age_rating) + list_line(
        "Characters"@,
        v.characters,
    ) + opt_line("StoryArc"@, v.story_arc) + opt_line("GTIN"@, v.isbn) + "</ComicInfo>\n"@
}

fn push_line(out: &mut Vec<char>, tag: &str, value: &[char])
    ensures
        final(out)@ == old(out)@ + xml_line(tag@, value@),
{
    let t = trimmed(value);
    if t.len() == 0 {
        assert(old(out)@ + xml_line(tag@, value@) =~= old(out)@);
        return;
    }
    let open1 = chars_of("  <");
    let tg = chars_of(tag);
    let close1 = chars_of(">");
    let open2 = chars_of("</");
    let close2 = chars_of(">\n");
    let vs = string_from(value);
    let esc = escape(vs.as_str());
    let ec = chars_of(esc.as_str());
    push_all(out, open1.as_slice());
    push_all(out, tg.as_slice());
    push_all(out, close1.as_slice());
    push_all(out, ec.as_slice());
    push_all(out, open2.as_slice());
    push_all(out, tg.as_slice());
    push_all(out, close2.as_slice());
}

fn push_opt(out: &mut Vec<char>, tag: &str, v: &Option<String>)
    ensures
        final(out)@ == old(out)@ + opt_line(tag@, crate::models::book::opt_str(*v)),
{
    match v {
        Some(x) => {
            let c = chars_of(x.as_str());
            push_line(out, tag, c.as_slice());
        },
        None => {
            assert(old(out)@ + Seq::<char>::empty() =~= old(out)@);
        },
    }
}

fn push_num(out: &mut Vec<char>, tag: &str, v: Option<u32>)
    ensures
        final(out)@ == old(out)@ + num_line(tag@, v),
{
    match v {
        Some(x) => {
            let c = format_u64(x as u64);
            push_line(out, tag, c.as_slice());
        },
        None => {
            assert(old(out)@ + Seq::<char>::empty() =~= old(out)@);
        },
    }
}

/// The items joined with `", "`.
pub fn join_list(values: &[String]) -> (r: Vec<char>)
    ensures
        r@ == join(strs(values@), ", "@),
{
    join_with(values, ", ")
}

/// The values joined with `sep` between them.
pub fn join_with(values: &[String], sep: &str) -> (r: Vec<char>)
    ensures
        r@ == join(strs(values@), sep@),
{
    let mut parts: Vec<Vec<char>> = Vec::new();
    let mut k: usize = 0;
    while k < values.len()
        invariant
            0 <= k <= values@.len(),
            crate::text::vecs_view(parts@) == strs(values@).subrange(0, k as int),
        decreases values@.len() - k,
    {
        let ghost before = parts@;
        let c = chars_of(values[k].as_str());
        parts.push(c);
        assert(parts@ == before.push(c));
        assert(crate::text::vecs_view(parts@) =~= crate::text::vecs_view(before).push(values@[k as int]@));
        assert(crate::text::vecs_view(parts@) =~= strs(values@).subrange(0, k + 1));
        k = k + 1;
    }
    assert(crate::text::vecs_view(parts@) =~= strs(values@));
    let sep = chars_of(sep);
    let r = crate::text::join_parts(parts.as_slice(), parts.len(), sep.as_slice());
    assert(crate::text::vecs_view(parts@).subrange(0, parts@.len() as int) =~= crate::text::vecs_view(parts@));
    r
}

fn push_list(out: &mut Vec<char>, tag: &str, v: &Vec<String>)
    ensures
        final(out)@ == old(out)@ + list_line(tag@, strs(v@)),
{
    let j = join_list(v.as_slice());
    push_line(out, tag, j.as_slice());
}

/// Serialize back to ComicInfo.xml, preserving the schema's element order.
pub fn to_comic_info_xml(meta: &BookMetadata) -> (r: String)
    ensures
        r@ == comic_xml(book_view(*meta)),
{
    let mut out = chars_of("<?xml version=\"1.0\" encoding=\"utf-8\"?>\n");
    let head = chars_of(
        "<ComicInfo xmlns:xsi=\"http://www.w3.org/2001/XMLSchema-instance\" xmlns:xsd=\"http://www.w3.org/2001/XMLSchema\">\n",
    );
    push_all(&mut out, head.as_slice());
    push_opt(&mut out, "Title", &meta.title);
    push_opt(&mut out, "Series", &meta.series);
    push_opt(&mut out, "Number", &meta.number);
    push_num(&mut out, "Count", meta.count);
    push_num(&mut out, "Volume", meta.volume);
    push_opt(&mut out, "Summary", &meta.summary);
    let ghost before_year = out@;
    match meta.year {
        Some(y) => {
            let c = format_i64(y as i64);
            push_line(&mut out, "Year", c.as_slice());
        },
        None => {},
    }
    push_num(&mut out, "Month", meta.month);
    push_num(&mut out, "Day", meta.day);
    push_list(&mut out, "Writer", &meta.authors);
    push_list(&mut out, "Penciller", &meta.pencillers);
    push_list(&mut out, "Inker", &meta.inkers);
    push_list(&mut out, "Colorist", &meta.colorists);
    push_list(&mut out, "Letterer", &meta.letterers);
    push_list(&mut out, "CoverArtist", &meta.cover_artists);
    push_list(&mut out, "Editor", &meta.editors);
    push_list(&mut out, "Translator", &meta.translators);
    push_opt(&mut out, "Publisher", &meta.publisher);
    push_opt(&mut out, "Imprint", &meta.imprint);
    push_list(&mut out, "Genre", &meta.genres);
    push_opt(&mut out, "Web", &meta.web);
    push_num(&mut out, "PageCount", meta.page_count);
    push_opt(&mut out, "LanguageISO", &meta.language);
    push_opt(&mut out, "AgeRating", &meta.age_rating);
    push_list(&mut out, "Characters", &meta.characters);
    push_opt(&mut out, "StoryArc", &meta.story_arc);
    push_opt(&mut out, "GTIN", &meta.isbn);
    let tail = chars_of("</ComicInfo>\n");
    push_all(&mut out, tail.as_slice());
    assert(out@ =~= comic_xml(book_view(*meta)));
    string_from(out.as_slice())
}

} // verus!
