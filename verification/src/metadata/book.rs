//! Book metadata: what a comic or ebook file name says, and which archive
//! entry a write goes to.
use vstd::prelude::*;

use crate::book::archive::{is_supported_archive, is_supported_archive_spec};
use crate::models::book::{BookKind, BookMetadata, BookMetadataSource};
use crate::paths::{extension, file_stem, path_extension, path_file_stem};
use crate::text::{
    all_digits, chars_of, digits_to_u64, digits_value, is_digit_char, join, join_parts, lowercase,
    split_words, str_eq, string_from, to_lowercase, vecs_view, words,
};

verus! {

pub open spec fn kind_for_spec(path: Seq<char>) -> BookKind {
    match path_extension(path) {
        Some(e) => if lowercase(e) == "epub"@ { BookKind::Ebook } else { BookKind::Comic },
        None => BookKind::Comic,
    }
}

/// `.epub` files are ebooks; everything else is treated as a comic.
pub fn kind_for(path: &str) -> (r: BookKind)
    ensures
        r == kind_for_spec(path@),
{
    match extension(path) {
        Some(e) => {
            let l = to_lowercase(e.as_str());
            if str_eq(l.as_str(), "epub") { BookKind::Ebook } else { BookKind::Comic }
        },
        None => BookKind::Comic,
    }
}

/// `t` without its leading `#` characters.
pub open spec fn strip_hashes(t: Seq<char>) -> Seq<char>
    decreases t.len(),
{
    if t.len() > 0 && t[0] == '#' { strip_hashes(t.drop_first()) } else { t }
}

/// Token `i` is taken as the issue number: after its leading `#`s it is a
/// number that fits `i32`, it is not a four-digit year from 1900 to 2100,
/// and words come before it.
pub open spec fn is_issue_token(tokens: Seq<Seq<char>>, i: int) -> bool {
    let d = strip_hashes(tokens[i]);
    &&& d.len() > 0
    &&& all_digits(d)
    &&& digits_value(d) <= i32::MAX
    &&& !(1900 <= digits_value(d) <= 2100 && d.len() == 4)
    &&& i != 0
    &&& join(tokens.subrange(0, i), " "@).len() > 0
}

pub open spec fn series_issue_from(tokens: Seq<Seq<char>>, i: int) -> (Option<Seq<char>>, Option<Seq<char>>)
    decreases tokens.len() - i,
{
    if i < 0 || i >= tokens.len() {
        (None, None)
    } else if is_issue_token(tokens, i) {
        (Some(join(tokens.subrange(0, i), " "@)), Some(strip_hashes(tokens[i])))
    } else {
        series_issue_from(tokens, i + 1)
    }
}

/// "Series 012 (2011)": the words before the first issue-like number are
/// the series, the number (without `#`) the issue.
pub open spec fn split_series_and_issue_spec(name: Seq<char>) -> (Option<Seq<char>>, Option<Seq<char>>) {
    series_issue_from(words(name), 0)
}

fn strip_hashes_exec(t: &[char]) -> (r: usize)
    ensures
        r <= t@.len(),
        strip_hashes(t@) == t@.subrange(r as int, t@.len() as int),
{
    let mut k: usize = 0;
    assert(t@.subrange(0, t@.len() as int) =~= t@);
    while k < t.len() && t[k] == '#'
        invariant
            k <= t@.len(),
            strip_hashes(t@) == strip_hashes(t@.subrange(k as int, t@.len() as int)),
        decreases t@.len() - k,
    {
        assert(t@.subrange(k as int, t@.len() as int).drop_first() =~= t@.subrange(k + 1, t@.len() as int));
        k = k + 1;
    }
    k
}

fn all_digit_chars(t: &[char], from: usize) -> (r: bool)
    requires
        from <= t@.len(),
    ensures
        r == all_digits(t@.subrange(from as int, t@.len() as int)),
{
    let mut k = from;
    while k < t.len()
        invariant
            from <= k <= t@.len(),
            forall|m: int| from <= m < k ==> crate::text::is_digit(#[trigger] t@[m]),
        decreases t@.len() - k,
    {
        if !is_digit_char(t[k]) {
            assert(!crate::text::is_digit(t@.subrange(from as int, t@.len() as int)[k - from]));
            return false;
        }
        k = k + 1;
    }
    assert forall|m: int| 0 <= m < t@.len() - from implies crate::text::is_digit(
        #[trigger] t@.subrange(from as int, t@.len() as int)[m],
    ) by {
        assert(t@.subrange(from as int, t@.len() as int)[m] == t@[m + from]);
    }
    true
}

/// Split "Series 012" into its series and issue number.
pub fn split_series_and_issue(name: &str) -> (r: (Option<String>, Option<String>))
    ensures
        (match r.0 {
            Some(s) => Some(s@),
            None => None,
        }, match r.1 {
            Some(s) => Some(s@),
            None => None,
        }) == split_series_and_issue_spec(name@),
{
    let chars = chars_of(name);
    let tokens = split_words(chars.as_slice());
    let ghost tv = vecs_view(tokens@);
    let mut i: usize = 0;
    while i < tokens.len()
        invariant
            0 <= i <= tokens@.len(),
            tv == vecs_view(tokens@),
            tv == words(name@),
            series_issue_from(tv, i as int) == split_series_and_issue_spec(name@),
        decreases tokens@.len() - i,
    {
        let tok = tokens[i].as_slice();
        let h = strip_hashes_exec(tok);
        assert(tv[i as int] == tok@);
        let digits_ok = h < tok.len() && all_digit_chars(tok, h);
        if digits_ok {
            let value = digits_to_u64(tok, h, tok.len());
            match value {
                Some(v) => {
                    if v <= 2147483647 {
                        let is_year = 1900 <= v && v <= 2100 && tok.len() - h == 4;
                        if !is_year && i != 0 {
                            let sep: [char; 1] = [' '];
                            let series = join_parts(tokens.as_slice(), i, &sep);
                            assert(sep@ =~= " "@) by {
                                reveal_strlit(" ");
                            }
                            if series.len() > 0 {
                                let issue = crate::text::slice_range(tok, h, tok.len());
                                return (Some(string_from(series.as_slice())), Some(string_from(issue.as_slice())));
                            }
                        }
                    }
                },
                None => {},
            }
        }
        i = i + 1;
    }
    (None, None)
}

/// Four digits at `i` that read as a year from 1900 to 2100.
pub open spec fn is_year_at(s: Seq<char>, i: int) -> bool {
    0 <= i && i + 4 <= s.len() && all_digits(s.subrange(i, i + 4)) && 1900 <= digits_value(
        s.subrange(i, i + 4),
    ) <= 2100
}

/// The last year among the four-character windows starting before `n`.
pub open spec fn last_year_before(s: Seq<char>, n: int) -> Option<int>
    decreases n,
{
    if n <= 0 {
        None
    } else if is_year_at(s, n - 1) {
        Some(digits_value(s.subrange(n - 1, n + 3)) as int)
    } else {
        last_year_before(s, n - 1)
    }
}

/// The last run of four digits in `name` that is a year from 1900 to 2100.
pub open spec fn find_year_spec(name: Seq<char>) -> Option<int> {
    last_year_before(name, name.len() - 3)
}

pub fn find_year(name: &str) -> (r: Option<i32>)
    ensures
        match r {
            Some(y) => find_year_spec(name@) == Some(y as int) && 1900 <= y <= 2100,
            None => find_year_spec(name@) is None,
        },
{
    let chars = chars_of(name);
    let n = chars.len();
    let end: usize = if n >= 3 { n - 3 } else { 0 };
    let mut found: Option<i32> = None;
    let mut i: usize = 0;
    while i < end
        invariant
            n == chars@.len(),
            chars@ == name@,
            end == (if n >= 3 { n - 3 } else { 0 }),
            0 <= i <= end,
            match found {
                Some(y) => last_year_before(name@, i as int) == Some(y as int) && 1900 <= y <= 2100,
                None => last_year_before(name@, i as int) is None,
            },
        decreases end - i,
    {
        let window = crate::text::slice_range(chars.as_slice(), i, i + 4);
        if all_digit_chars(window.as_slice(), 0) {
            assert(window@.subrange(0, 4) =~= window@);
            match digits_to_u64(window.as_slice(), 0, 4) {
                Some(v) => {
                    if 1900 <= v && v <= 2100 {
                        found = Some(v as i32);
                    }
                },
                None => {},
            }
        } else {
            assert(window@.subrange(0, 4) =~= window@);
        }
        i = i + 1;
    }
    if n < 3 {
        assert(last_year_before(name@, name@.len() - 3) is None);
    }
    found
}


/// `_` and `.` read as spaces in file names.
pub open spec fn underscores_to_spaces(s: Seq<char>) -> Seq<char> {
    Seq::new(s.len(), |i: int| if s[i] == '_' || s[i] == '.' { ' ' } else { s[i] })
}

/// `s` with `_`/`.` as spaces and runs of whitespace collapsed to one space.
pub open spec fn cleaned_words(s: Seq<char>) -> Seq<char> {
    join(words(underscores_to_spaces(s)), " "@)
}

/// The file stem with `_`/`.` as spaces and runs of whitespace collapsed.
pub open spec fn cleaned_stem(path: Seq<char>) -> Seq<char> {
    let stem = match path_file_stem(path) {
        Some(s) => s,
        None => Seq::empty(),
    };
    cleaned_words(stem)
}

pub open spec fn opt_view(o: Option<String>) -> Option<Seq<char>> {
    match o {
        Some(s) => Some(s@),
        None => None,
    }
}

/// What a file name alone says of a book: its kind, the cleaned stem as
/// title, series and issue when the name has them, and a year; nothing else.
pub open spec fn from_filename_spec(path: Seq<char>, m: BookMetadata) -> bool {
    let name = cleaned_stem(path);
    let (series, number) = split_series_and_issue_spec(name);
    let year = find_year_spec(name);
    &&& m.kind == kind_for_spec(path)
    &&& opt_view(m.title) == Some(name)
    &&& opt_view(m.series) == series
    &&& opt_view(m.number) == number
    &&& (match m.year {
        Some(y) => year == Some(y as int),
        None => year is None,
    })
    &&& m.source == BookMetadataSource::Filename
    &&& m.count is None && m.volume is None && m.summary is None && m.month is None && m.day is None
    &&& m.authors@.len() == 0 && m.pencillers@.len() == 0 && m.inkers@.len() == 0
    &&& m.colorists@.len() == 0 && m.letterers@.len() == 0 && m.cover_artists@.len() == 0
    &&& m.editors@.len() == 0 && m.translators@.len() == 0
    &&& m.publisher is None && m.imprint is None
    &&& m.genres@.len() == 0 && m.characters@.len() == 0
    &&& m.story_arc is None && m.language is None && m.isbn is None && m.page_count is None
    &&& m.age_rating is None && m.web is None && m.rights is None && m.entry_path is None
}

fn cleaned_name(path: &str) -> (r: String)
    ensures
        r@ == cleaned_stem(path@),
{
    let stem = match file_stem(path) {
        Some(s) => s,
        None => String::new(),
    };
    cleaned_words_exec(stem.as_str())
}

/// `s` with `_`/`.` as spaces and runs of whitespace collapsed to one space.
pub fn cleaned_words_exec(s: &str) -> (r: String)
    ensures
        r@ == cleaned_words(s@),
{
    let chars = chars_of(s);
    let mut mapped: Vec<char> = Vec::new();
    let mut i: usize = 0;
    while i < chars.len()
        invariant
            0 <= i <= chars@.len(),
            mapped@ == underscores_to_spaces(chars@).subrange(0, i as int),
        decreases chars@.len() - i,
    {
        let c = chars[i];
        mapped.push(if c == '_' || c == '.' { ' ' } else { c });
        assert(mapped@ =~= underscores_to_spaces(chars@).subrange(0, i + 1));
        i = i + 1;
    }
    assert(mapped@ =~= underscores_to_spaces(chars@));
    let parts = split_words(mapped.as_slice());
    let sep: [char; 1] = [' '];
    assert(sep@ =~= " "@) by {
        reveal_strlit(" ");
    }
    let joined = join_parts(parts.as_slice(), parts.len(), &sep);
    assert(vecs_view(parts@).subrange(0, parts@.len() as int) =~= vecs_view(parts@));
    string_from(joined.as_slice())
}

/// Derive a title (and series/issue for comics) from the file name.
pub fn from_filename(path: &str) -> (r: BookMetadata)
    ensures
        from_filename_spec(path@, r),
{
    let cleaned = cleaned_name(path);
    let (series, number) = split_series_and_issue(cleaned.as_str());
    let year = find_year(cleaned.as_str());
    let mut m = BookMetadata::default();
    m.kind = kind_for(path);
    m.title = Some(cleaned);
    m.series = series;
    m.number = number;
    m.year = year;
    m.source = BookMetadataSource::Filename;
    m
}

pub open spec fn image_extension(e: Seq<char>) -> bool {
    let l = lowercase(e);
    l == "jpg"@ || l == "jpeg"@ || l == "png"@ || l == "webp"@ || l == "gif"@ || l == "bmp"@
}

/// An archive entry is a page image when its extension says so.
pub open spec fn is_image_entry_spec(name: Seq<char>) -> bool {
    match path_extension(name) {
        Some(e) => image_extension(e),
        None => false,
    }
}

pub fn is_image_entry(name: &str) -> (r: bool)
    ensures
        r == is_image_entry_spec(name@),
{
    match extension(name) {
        Some(e) => {
            let l = to_lowercase(e.as_str());
            let t = l.as_str();
            str_eq(t, "jpg") || str_eq(t, "jpeg") || str_eq(t, "png") || str_eq(t, "webp")
                || str_eq(t, "gif") || str_eq(t, "bmp")
        },
        None => false,
    }
}


/// Byte order of UTF-8 strings, which is the order of their characters'
/// code points: what `Ord` on `String` compares.
pub open spec fn lex_lt(a: Seq<char>, b: Seq<char>) -> bool
    decreases a.len(),
{
    if a.len() == 0 {
        b.len() > 0
    } else if b.len() == 0 {
        false
    } else if a[0] != b[0] {
        (a[0] as u32) < (b[0] as u32)
    } else {
        lex_lt(a.drop_first(), b.drop_first())
    }
}

fn lex_lt_exec(a: &[char], b: &[char]) -> (r: bool)
    ensures
        r == lex_lt(a@, b@),
{
    let mut k: usize = 0;
    assert(a@.subrange(0, a@.len() as int) =~= a@);
    assert(b@.subrange(0, b@.len() as int) =~= b@);
    while k < a.len() && k < b.len() && a[k] == b[k]
        invariant
            k <= a@.len(),
            k <= b@.len(),
            lex_lt(a@, b@) == lex_lt(a@.subrange(k as int, a@.len() as int), b@.subrange(k as int, b@.len() as int)),
        decreases a@.len() - k,
    {
        proof {
            let x = a@.subrange(k as int, a@.len() as int);
            let y = b@.subrange(k as int, b@.len() as int);
            assert(x.drop_first() =~= a@.subrange(k + 1, a@.len() as int));
            assert(y.drop_first() =~= b@.subrange(k + 1, b@.len() as int));
        }
        k = k + 1;
    }
    if k == a.len() {
        k < b.len()
    } else if k == b.len() {
        false
    } else {
        (a[k] as u32) < (b[k] as u32)
    }
}

/// The smaller of a candidate so far and a new name; the earlier wins a tie.
pub open spec fn better(best: Option<Seq<char>>, n: Seq<char>) -> Option<Seq<char>> {
    match best {
        None => Some(n),
        Some(m) => if lex_lt(n, m) { Some(n) } else { Some(m) },
    }
}

pub open spec fn mentions_cover(n: Seq<char>) -> bool {
    crate::text::contains(lowercase(n), "cover"@)
}

/// Over the page images among `names`: the first in sorted order whose name
/// mentions "cover", and the first of all.
pub open spec fn cover_candidates(names: Seq<Seq<char>>) -> (Option<Seq<char>>, Option<Seq<char>>)
    decreases names.len(),
{
    if names.len() == 0 {
        (None, None)
    } else {
        let (c, i) = cover_candidates(names.drop_last());
        let n = names.last();
        if !is_image_entry_spec(n) {
            (c, i)
        } else {
            (if mentions_cover(n) { better(c, n) } else { c }, better(i, n))
        }
    }
}

/// The entry a cover lives at: among the page images in sorted order, the
/// first whose name mentions "cover", else the first page.
pub open spec fn cover_choice(names: Seq<Seq<char>>) -> Option<Seq<char>> {
    let (c, i) = cover_candidates(names);
    if c is Some { c } else { i }
}

pub open spec fn find_cover_entry_spec(path: Seq<char>, names: Seq<Seq<char>>) -> Option<Seq<char>> {
    if is_supported_archive_spec(path) { cover_choice(names) } else { None }
}

fn better_exec(best: Option<String>, n: &String) -> (r: Option<String>)
    ensures
        opt_view(r) == better(opt_view(best), n@),
{
    match best {
        None => Some(n.clone()),
        Some(m) => {
            let a = chars_of(n.as_str());
            let b = chars_of(m.as_str());
            if lex_lt_exec(a.as_slice(), b.as_slice()) { Some(n.clone()) } else { Some(m) }
        },
    }
}

/// The cover entry of an archive whose entries are `entries`; `None` for an
/// archive this build cannot open, or one without page images.
pub fn find_cover_entry_name(path: &str, entries: &[String]) -> (r: Option<String>)
    ensures
        opt_view(r) == find_cover_entry_spec(path@, crate::book::archive::strings_view(entries@)),
{
    if !is_supported_archive(path) {
        return None;
    }
    let ghost nv = crate::book::archive::strings_view(entries@);
    let mut cover: Option<String> = None;
    let mut first: Option<String> = None;
    let needle = chars_of("cover");
    let mut k: usize = 0;
    while k < entries.len()
        invariant
            0 <= k <= entries@.len(),
            nv == crate::book::archive::strings_view(entries@),
            needle@ == "cover"@,
            (opt_view(cover), opt_view(first)) == cover_candidates(nv.subrange(0, k as int)),
        decreases entries@.len() - k,
    {
        let n = &entries[k];
        assert(nv.subrange(0, k + 1).drop_last() =~= nv.subrange(0, k as int));
        assert(nv.subrange(0, k + 1).last() == n@);
        if is_image_entry(n.as_str()) {
            let l = to_lowercase(n.as_str());
            let lc = chars_of(l.as_str());
            if crate::text::contains_exec(lc.as_slice(), needle.as_slice()) {
                cover = better_exec(cover, n);
            }
            first = better_exec(first, n);
        }
        k = k + 1;
    }
    assert(nv.subrange(0, k as int) =~= nv);
    if cover.is_some() { cover } else { first }
}

/// The extension a new cover entry gets for an image type.
pub open spec fn ext_for_mime_spec(mime: Seq<char>) -> Seq<char> {
    if mime == "image/png"@ {
        "png"@
    } else if mime == "image/webp"@ {
        "webp"@
    } else if mime == "image/gif"@ {
        "gif"@
    } else {
        "jpg"@
    }
}

pub fn ext_for_mime(mime_type: &str) -> (r: &'static str)
    ensures
        r@ == ext_for_mime_spec(mime_type@),
{
    if str_eq(mime_type, "image/png") {
        "png"
    } else if str_eq(mime_type, "image/webp") {
        "webp"
    } else if str_eq(mime_type, "image/gif") {
        "gif"
    } else {
        "jpg"
    }
}

/// The refusal for an archive this build cannot write.
pub open spec fn unsupported_write_message(path: Seq<char>) -> Seq<char> {
    let ext = match path_extension(path) {
        Some(e) => e,
        None => "These"@,
    };
    crate::text::uppercase(ext) + " archives cannot be written by Notata — convert to CBZ first"@
}

fn unsupported_write_error(path: &str) -> (r: crate::error::NotataError)
    ensures
        r matches crate::error::NotataError::Custom(m) && m@ == unsupported_write_message(path@),
{
    let ext = match extension(path) {
        Some(e) => e,
        None => String::from_str("These"),
    };
    let upper = crate::text::to_uppercase(ext.as_str());
    let mut v = chars_of(upper.as_str());
    let tail = chars_of(" archives cannot be written by Notata — convert to CBZ first");
    crate::text::push_all(&mut v, tail.as_slice());
    crate::error::NotataError::Custom(string_from(v.as_slice()))
}

pub open spec fn cover_entry_plan(path: Seq<char>, names: Seq<Seq<char>>, mime: Seq<char>) -> Result<Seq<char>, Seq<char>> {
    if !is_supported_archive_spec(path) {
        Err(unsupported_write_message(path))
    } else {
        match cover_choice(names) {
            Some(n) => Ok(n),
            None => if kind_for_spec(path) == BookKind::Comic {
                Ok("000-cover."@ + ext_for_mime_spec(mime))
            } else {
                Err("This EPUB has no existing cover image to replace"@)
            },
        }
    }
}

/// The archive entry a new cover image is written to: the existing cover
/// entry, or for a comic without images a new `000-cover.<ext>` entry.
/// The caller replaces that entry with the image bytes.
pub fn write_book_cover(path: &str, entries: &[String], mime_type: &str) -> (r: Result<String, crate::error::NotataError>)
    ensures
        match r {
            Ok(n) => cover_entry_plan(path@, crate::book::archive::strings_view(entries@), mime_type@) == Ok::<Seq<char>, Seq<char>>(n@),
            Err(e) => e matches crate::error::NotataError::Custom(m) && cover_entry_plan(
                path@,
                crate::book::archive::strings_view(entries@),
                mime_type@,
            ) == Err::<Seq<char>, Seq<char>>(m@),
        },
{
    if !is_supported_archive(path) {
        return Err(unsupported_write_error(path));
    }
    match find_cover_entry_name(path, entries) {
        Some(n) => Ok(n),
        None => {
            if kind_for(path) == BookKind::Comic {
                let mut v = chars_of("000-cover.");
                let e = chars_of(ext_for_mime(mime_type));
                crate::text::push_all(&mut v, e.as_slice());
                Ok(string_from(v.as_slice()))
            } else {
                Err(crate::error::NotataError::Custom(String::from_str("This EPUB has no existing cover image to replace")))
            }
        },
    }
}

/// Metadata for a book: what the archive embeds, when this build can open
/// it and found some, with the title taken from the file name when the
/// embedded data has none; otherwise what the file name says.
pub fn read_book_metadata(path: &str, embedded: Option<BookMetadata>) -> (r: BookMetadata)
    ensures
        match embedded {
            Some(meta) if is_supported_archive_spec(path@) => {
                &&& opt_view(r.title) == (if meta.title is None {
                    Some(cleaned_stem(path@))
                } else {
                    opt_view(meta.title)
                })
                &&& r == BookMetadata { title: r.title, ..meta }
            },
            _ => from_filename_spec(path@, r),
        },
{
    if is_supported_archive(path) {
        match embedded {
            Some(mut meta) => {
                if meta.title.is_none() {
                    meta.title = from_filename(path).title;
                }
                return meta;
            },
            None => {},
        }
    }
    from_filename(path)
}


pub open spec fn ascii_lower(c: char) -> char {
    if 'A' <= c && c <= 'Z' { ((c as u32) + 32) as char } else { c }
}

/// `str::eq_ignore_ascii_case`.
pub open spec fn eq_ignore_ascii_case(a: Seq<char>, b: Seq<char>) -> bool {
    a.len() == b.len() && forall|i: int| 0 <= i < a.len() ==> ascii_lower(#[trigger] a[i]) == ascii_lower(b[i])
}

fn ascii_lower_exec(c: char) -> (r: char)
    ensures
        r == ascii_lower(c),
{
    if 'A' <= c && c <= 'Z' {
        let b = (c as u8) + 32;
        b as char
    } else {
        c
    }
}

fn eq_ignore_ascii_case_exec(a: &str, b: &str) -> (r: bool)
    ensures
        r == eq_ignore_ascii_case(a@, b@),
{
    let x = chars_of(a);
    let y = chars_of(b);
    if x.len() != y.len() {
        return false;
    }
    let mut k: usize = 0;
    while k < x.len()
        invariant
            0 <= k <= x@.len(),
            x@.len() == y@.len(),
            x@ == a@,
            y@ == b@,
            forall|i: int| 0 <= i < k ==> ascii_lower(#[trigger] x@[i]) == ascii_lower(y@[i]),
        decreases x@.len() - k,
    {
        if ascii_lower_exec(x[k]) != ascii_lower_exec(y[k]) {
            return false;
        }
        k = k + 1;
    }
    true
}

/// The first `rootfile` element, names compared ignoring ASCII case.
pub open spec fn first_rootfile(es: Seq<crate::book::xml::ElementView>) -> Option<int>
    decreases es.len(),
{
    if es.len() == 0 {
        None
    } else {
        match first_rootfile(es.drop_last()) {
            Some(i) => Some(i),
            None => if eq_ignore_ascii_case(es.last().name, "rootfile"@) { Some(es.len() - 1) } else { None },
        }
    }
}

/// The package document an EPUB container names: the `full-path` of its
/// first `rootfile` element.
pub open spec fn opf_path_spec(es: Seq<crate::book::xml::ElementView>) -> Option<Seq<char>> {
    match first_rootfile(es) {
        Some(i) => full_path_attr(es[i].attributes),
        None => None,
    }
}

pub open spec fn full_path_attr(attrs: Seq<(Seq<char>, Seq<char>)>) -> Option<Seq<char>>
    decreases attrs.len(),
{
    if attrs.len() == 0 {
        None
    } else {
        match full_path_attr(attrs.drop_last()) {
            Some(v) => Some(v),
            None => if eq_ignore_ascii_case(attrs.last().0, "full-path"@) { Some(attrs.last().1) } else { None },
        }
    }
}


proof fn lemma_first_rootfile_prefix(es: Seq<crate::book::xml::ElementView>, k: int)
    requires
        0 <= k <= es.len(),
        first_rootfile(es.subrange(0, k)) is Some,
    ensures
        first_rootfile(es) == first_rootfile(es.subrange(0, k)),
    decreases es.len() - k,
{
    if k < es.len() {
        assert(es.drop_last().subrange(0, k) =~= es.subrange(0, k));
        lemma_first_rootfile_prefix(es.drop_last(), k);
    } else {
        assert(es.subrange(0, k) =~= es);
    }
}

proof fn lemma_full_path_prefix(attrs: Seq<(Seq<char>, Seq<char>)>, k: int)
    requires
        0 <= k <= attrs.len(),
        full_path_attr(attrs.subrange(0, k)) is Some,
    ensures
        full_path_attr(attrs) == full_path_attr(attrs.subrange(0, k)),
    decreases attrs.len() - k,
{
    if k < attrs.len() {
        assert(attrs.drop_last().subrange(0, k) =~= attrs.subrange(0, k));
        lemma_full_path_prefix(attrs.drop_last(), k);
    } else {
        assert(attrs.subrange(0, k) =~= attrs);
    }
}

fn full_path_of(attrs: &Vec<(String, String)>) -> (r: Option<String>)
    ensures
        opt_view(r) == full_path_attr(crate::book::xml::pairs_view(attrs@)),
{
    let ghost pv = crate::book::xml::pairs_view(attrs@);
    let mut k: usize = 0;
    while k < attrs.len()
        invariant
            0 <= k <= attrs@.len(),
            pv == crate::book::xml::pairs_view(attrs@),
            full_path_attr(pv.subrange(0, k as int)) is None,
        decreases attrs@.len() - k,
    {
        assert(pv.subrange(0, k + 1).drop_last() =~= pv.subrange(0, k as int));
        if eq_ignore_ascii_case_exec(attrs[k].0.as_str(), "full-path") {
            proof {
                lemma_full_path_prefix(pv, k + 1);
            }
            return Some(attrs[k].1.clone());
        }
        k = k + 1;
    }
    assert(pv.subrange(0, k as int) =~= pv);
    None
}

/// The package path an EPUB container's elements name.
pub fn opf_path_from_elements(elements: &[crate::book::xml::XmlElement]) -> (r: Option<String>)
    ensures
        opt_view(r) == opf_path_spec(crate::book::xml::elements_view(elements@)),
{
    let ghost ev = crate::book::xml::elements_view(elements@);
    let mut k: usize = 0;
    while k < elements.len()
        invariant
            0 <= k <= elements@.len(),
            ev == crate::book::xml::elements_view(elements@),
            first_rootfile(ev.subrange(0, k as int)) is None,
        decreases elements@.len() - k,
    {
        assert(ev.subrange(0, k + 1).drop_last() =~= ev.subrange(0, k as int));
        if eq_ignore_ascii_case_exec(elements[k].name.as_str(), "rootfile") {
            proof {
                lemma_first_rootfile_prefix(ev, k + 1);
            }
            return full_path_of(&elements[k].attributes);
        }
        k = k + 1;
    }
    assert(ev.subrange(0, k as int) =~= ev);
    None
}

/// Resolve the OPF package document an EPUB's `META-INF/container.xml`
/// points at.
pub fn find_opf_path(container_xml: &str) -> (r: Result<Option<String>, crate::error::NotataError>)
    ensures
        match crate::book::xml::document_elements(container_xml@) {
            Ok(es) => r matches Ok(p) && opt_view(p) == opf_path_spec(es),
            Err(msg) => r matches Err(e) && (e matches crate::error::NotataError::Custom(t) && t@ == msg),
        },
{
    match crate::book::xml::read_all(container_xml) {
        Err(e) => Err(e),
        Ok(elements) => Ok(opf_path_from_elements(elements.as_slice())),
    }
}

/// One archive entry to write: its name and new contents.
#[derive(Debug, Clone)]
pub struct EntryUpdate {
    pub entry_name: String,
    pub contents: String,
}

/// The refusal for a package document whose `<metadata>` block, located in
/// its lowercased text, does not fall on character boundaries of the text.
pub open spec fn uncut_block_message() -> Seq<char> {
    "The package document's metadata block cannot be located"@
}

/// What writing metadata into a book amounts to: which entry of the archive
/// gets which new contents, or why nothing can be written.
pub open spec fn write_plan(
    path: Seq<char>,
    v: crate::models::book::BookView,
    package_path: Option<Seq<char>>,
    package_text: Option<Seq<char>>,
) -> Result<(Seq<char>, Seq<char>), Seq<char>> {
    if !is_supported_archive_spec(path) {
        Err(unsupported_write_message(path))
    } else if kind_for_spec(path) == BookKind::Comic {
        Ok(("ComicInfo.xml"@, crate::book::comicinfo::comic_xml(v)))
    } else {
        match package_path {
            None => Err("EPUB has no container.xml pointing at a package"@),
            Some(p) => match package_text {
                None => Err("EPUB is missing its package document "@ + p),
                Some(text) => if !crate::book::opf::block_cuts_ok(text) {
                    Err(uncut_block_message())
                } else {
                    match crate::book::opf::update_opf_spec(text, v) {
                        Ok(updated) => Ok((p, updated)),
                        Err(m) => Err(m),
                    }
                },
            },
        }
    }
}

/// Write metadata back into a book archive.
///
/// Comics get a regenerated `ComicInfo.xml`; EPUBs get their existing OPF
/// rewritten in place so the manifest and spine survive untouched. For an
/// EPUB, `package_path` is the package the container names and
/// `package_text` its contents, as read from the archive. The caller
/// replaces the entry with the contents returned.
pub fn write_book_metadata(
    path: &str,
    meta: &BookMetadata,
    package_path: Option<String>,
    package_text: Option<String>,
) -> (r: Result<EntryUpdate, crate::error::NotataError>)
    ensures
        match r {
            Ok(u) => write_plan(path@, crate::models::book::book_view(*meta), opt_view(package_path), opt_view(package_text))
                == Ok::<(Seq<char>, Seq<char>), Seq<char>>((u.entry_name@, u.contents@)),
            Err(e) => e matches crate::error::NotataError::Custom(m) && write_plan(
                path@,
                crate::models::book::book_view(*meta),
                opt_view(package_path),
                opt_view(package_text),
            ) == Err::<(Seq<char>, Seq<char>), Seq<char>>(m@),
        },
{
    if !is_supported_archive(path) {
        return Err(unsupported_write_error(path));
    }
    if kind_for(path) == BookKind::Comic {
        let xml = crate::book::comicinfo::to_comic_info_xml(meta);
        return Ok(EntryUpdate { entry_name: String::from_str("ComicInfo.xml"), contents: xml });
    }
    let p = match package_path {
        None => {
            return Err(crate::error::NotataError::Custom(String::from_str("EPUB has no container.xml pointing at a package")));
        },
        Some(p) => p,
    };
    let text = match package_text {
        None => {
            let mut v = chars_of("EPUB is missing its package document ");
            let pc = chars_of(p.as_str());
            crate::text::push_all(&mut v, pc.as_slice());
            return Err(crate::error::NotataError::Custom(string_from(v.as_slice())));
        },
        Some(t) => t,
    };
    match crate::book::opf::try_update_opf_metadata(text.as_str(), meta) {
        None => Err(crate::error::NotataError::Custom(String::from_str("The package document's metadata block cannot be located"))),
        Some(Ok(updated)) => Ok(EntryUpdate { entry_name: p, contents: updated }),
        Some(Err(e)) => Err(e),
    }
}


/// The image type of a cover entry, by its extension.
pub open spec fn cover_mime_spec(entry: Seq<char>) -> Seq<char> {
    let e = match path_extension(entry) {
        Some(x) => Some(lowercase(x)),
        None => None,
    };
    if e == Some("png"@) {
        "image/png"@
    } else if e == Some("webp"@) {
        "image/webp"@
    } else if e == Some("gif"@) {
        "image/gif"@
    } else {
        "image/jpeg"@
    }
}

/// The cover read from an archive entry: its bytes in base64, its image
/// type, and where it was found.
pub fn cover_from_entry(entry_name: &str, bytes: &[u8]) -> (r: crate::models::book::BookCover)
    ensures
        r.data@ == crate::bytes::base64_standard(bytes@),
        r.mime_type@ == cover_mime_spec(entry_name@),
        r.entry_path@ == entry_name@,
{
    let mime = match extension(entry_name) {
        Some(x) => {
            let l = to_lowercase(x.as_str());
            let t = l.as_str();
            if str_eq(t, "png") {
                "image/png"
            } else if str_eq(t, "webp") {
                "image/webp"
            } else if str_eq(t, "gif") {
                "image/gif"
            } else {
                "image/jpeg"
            }
        },
        None => "image/jpeg",
    };
    crate::models::book::BookCover {
        data: crate::bytes::encode_base64(bytes),
        mime_type: String::from_str(mime),
        entry_path: String::from_str(entry_name),
    }
}

/// A container's name: the file's extension in upper case, `UNKNOWN` when
/// it has none.
pub open spec fn container_name_spec(path: Seq<char>) -> Seq<char> {
    crate::text::uppercase(
        match path_extension(path) {
            Some(e) => e,
            None => "unknown"@,
        },
    )
}

pub fn container_name(path: &str) -> (r: String)
    ensures
        r@ == container_name_spec(path@),
{
    let e = match extension(path) {
        Some(e) => e,
        None => String::from_str("unknown"),
    };
    crate::text::to_uppercase(e.as_str())
}

/// How many of the entries are page images.
pub open spec fn image_count(names: Seq<String>) -> nat
    decreases names.len(),
{
    if names.len() == 0 {
        0
    } else {
        image_count(names.drop_last()) + if is_image_entry_spec(names.last()@) {
            1nat
        } else {
            0nat
        }
    }
}

proof fn lemma_image_count_bound(names: Seq<String>)
    ensures
        image_count(names) <= names.len(),
    decreases names.len(),
{
    if names.len() > 0 {
        lemma_image_count_bound(names.drop_last());
    }
}

fn count_images(names: &Vec<String>) -> (r: usize)
    ensures
        r == image_count(names@),
{
    let mut n: usize = 0;
    let mut k: usize = 0;
    while k < names.len()
        invariant
            0 <= k <= names@.len(),
            n == image_count(names@.subrange(0, k as int)),
        decreases names@.len() - k,
    {
        assert(names@.subrange(0, k + 1).drop_last() =~= names@.subrange(0, k as int));
        proof {
            lemma_image_count_bound(names@.subrange(0, k as int));
        }
        if is_image_entry(names[k].as_str()) {
            n = n + 1;
        }
        k = k + 1;
    }
    assert(names@.subrange(0, k as int) =~= names@);
    n
}

/// A book file's properties: its container, its size, whether this build
/// can open it, and for an archive that can be opened and listed, how many
/// page images it holds (the count kept to 32 bits, as the record holds
/// it). `entries` is the archive's listing, when it could be read.
pub fn book_properties(path: &str, file_size: u64, entries: Option<Vec<String>>) -> (r: crate::models::book::BookProperties)
    ensures
        r.container@ == container_name_spec(path@),
        r.file_size == file_size,
        r.readable == is_supported_archive_spec(path@),
        r.page_count == (if r.readable {
            match entries {
                Some(v) => Some(image_count(v@) as u32),
                None => None,
            }
        } else {
            None
        }),
{
    let readable = is_supported_archive(path);
    let page_count = if readable {
        match &entries {
            Some(v) => Some(count_images(v) as u32),
            None => None,
        }
    } else {
        None
    };
    crate::models::book::BookProperties {
        container: container_name(path),
        file_size: file_size,
        page_count: page_count,
        readable: readable,
    }
}

proof fn lemma_last_year_before(s: Seq<char>, n: int)
    ensures
        last_year_before(s, n) is None ==> forall|p: int| 0 <= p < n ==> !is_year_at(s, p),
        last_year_before(s, n) matches Some(y) ==> exists|p: int|
            0 <= p < n && is_year_at(s, p) && y == digits_value(s.subrange(p, p + 4)) && forall|q: int|
                p < q < n ==> !#[trigger] is_year_at(s, q),
    decreases n,
{
    if n > 0 {
        lemma_last_year_before(s, n - 1);
        if is_year_at(s, n - 1) {
            let p = n - 1;
            assert(is_year_at(s, p) && last_year_before(s, n) == Some(digits_value(s.subrange(p, p + 4)) as int));
        } else {
            if let Some(y) = last_year_before(s, n - 1) {
                let p = choose|p: int|
                    0 <= p < n - 1 && is_year_at(s, p) && y == digits_value(s.subrange(p, p + 4)) && forall|q: int|
                        p < q < n - 1 ==> !#[trigger] is_year_at(s, q);
                assert(forall|q: int| p < q < n ==> !#[trigger] is_year_at(s, q));
            }
        }
    }
}

/// The year of a name is the plausible year (four digits reading 1900 to
/// 2100) that starts last: no later window holds one, so a title such as
/// "2012" is not taken for the release year of "2012 (2009)". A name with
/// no such window has no year.
pub proof fn law_year_is_the_last_plausible_one(name: Seq<char>)
    ensures
        find_year_spec(name) is None <==> forall|p: int|
            !(0 <= p && p + 4 <= name.len() && all_digits(#[trigger] name.subrange(p, p + 4)) && 1900
                <= digits_value(name.subrange(p, p + 4)) <= 2100),
        find_year_spec(name) matches Some(y) ==> exists|p: int|
            0 <= p && p + 4 <= name.len() && all_digits(#[trigger] name.subrange(p, p + 4)) && y == digits_value(
                name.subrange(p, p + 4),
            ) && 1900 <= y <= 2100 && forall|q: int|
                p < q && q + 4 <= name.len() ==> !(all_digits(#[trigger] name.subrange(q, q + 4)) && 1900
                    <= digits_value(name.subrange(q, q + 4)) <= 2100),
{
    let n = name.len() - 3;
    lemma_last_year_before(name, n);
    assert forall|q: int| q >= n implies !is_year_at(name, q) by {}
    if find_year_spec(name) is None {
        assert forall|p: int| !is_year_at(name, p) by {
            if 0 <= p < n {
            }
        }
        assert forall|p: int|
            !(0 <= p && p + 4 <= name.len() && all_digits(#[trigger] name.subrange(p, p + 4)) && 1900
                <= digits_value(name.subrange(p, p + 4)) <= 2100) by {
            assert(!is_year_at(name, p));
        }
    } else {
        let y = find_year_spec(name)->Some_0;
        let p = choose|p: int|
            0 <= p < n && is_year_at(name, p) && y == digits_value(name.subrange(p, p + 4)) && forall|q: int|
                p < q < n ==> !#[trigger] is_year_at(name, q);
        assert(forall|q: int| p < q ==> !#[trigger] is_year_at(name, q));
        assert(all_digits(name.subrange(p, p + 4)) && 1900 <= digits_value(name.subrange(p, p + 4)) <= 2100);
        assert forall|q: int|
            p < q && q + 4 <= name.len() implies !(all_digits(#[trigger] name.subrange(q, q + 4)) && 1900
                <= digits_value(name.subrange(q, q + 4)) <= 2100) by {
            assert(!is_year_at(name, q));
        }
    }
}

} // verus!
