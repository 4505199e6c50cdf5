//! What reading a written ComicInfo document gives back.
//!
//! The writer puts each value in an element of its own; the reader hands
//! over each element's name and trimmed text, in document order, and the
//! metadata is folded from them. These proofs follow a value through the
//! writer's choices (tags, number formats, the `", "` joins of credit
//! lists) and the reader's (case-insensitive names, trimming, number
//! parsing, list splitting).
use vstd::prelude::*;

use crate::book::comicinfo::{
    comic_apply, comic_fold, i32_field, keep_item, list_from, split_list_spec, u32_field,
};
use crate::models::book::{blank_book_view, BookKind, BookMetadataSource, BookView};
use crate::text::{
    all_ascii, all_digits, ascii_lower, decimal, is_digit, is_ws, join, lemma_decimal_reads_back, lowercase,
    parse_signed, signed_decimal, trim, trim_end, trim_start,
};

verus! {

/// The element a value is written in, as the reader hands it over: the
/// tag and the trimmed value, when the trimmed value is not empty (blank
/// values are not written).
pub open spec fn text_pair(tag: Seq<char>, value: Seq<char>) -> Seq<(Seq<char>, Seq<char>)> {
    if trim(value).len() > 0 {
        seq![(tag, trim(value))]
    } else {
        Seq::empty()
    }
}

pub open spec fn opt_pair(tag: Seq<char>, v: Option<Seq<char>>) -> Seq<(Seq<char>, Seq<char>)> {
    match v {
        Some(x) => text_pair(tag, x),
        None => Seq::empty(),
    }
}

pub open spec fn num_pair(tag: Seq<char>, v: Option<u32>) -> Seq<(Seq<char>, Seq<char>)> {
    match v {
        Some(x) => text_pair(tag, decimal(x as nat)),
        None => Seq::empty(),
    }
}

pub open spec fn list_pair(tag: Seq<char>, v: Seq<Seq<char>>) -> Seq<(Seq<char>, Seq<char>)> {
    text_pair(tag, join(v, ", "@))
}

/// The elements of the document the writer makes of `v`, in document
/// order (each element is handed over when it closes, so the root comes
/// last, with no text of its own).
pub open spec fn comic_pairs(v: BookView) -> Seq<(Seq<char>, Seq<char>)> {
    comic_pairs_head(v) + comic_pairs_credits(v) + comic_pairs_tail(v) + seq![("ComicInfo"@, Seq::<char>::empty())]
}

pub open spec fn comic_pairs_head(v: BookView) -> Seq<(Seq<char>, Seq<char>)> {
    opt_pair("Title"@, v.title) + opt_pair("Series"@, v.series) + opt_pair("Number"@, v.number) + num_pair(
        "Count"@,
        v.count,
    ) + num_pair("Volume"@, v.volume) + opt_pair("Summary"@, v.summary) + match v.year {
        Some(y) => text_pair("Year"@, signed_decimal(y as int)),
        None => Seq::empty(),
    } + num_pair("Month"@, v.month) + num_pair("Day"@, v.day)
}

pub open spec fn comic_pairs_credits(v: BookView) -> Seq<(Seq<char>, Seq<char>)> {
    list_pair("Writer"@, v.authors) + list_pair("Penciller"@, v.pencillers) + list_pair("Inker"@, v.inkers)
        + list_pair("Colorist"@, v.colorists) + list_pair("Letterer"@, v.letterers) + list_pair(
        "CoverArtist"@,
        v.cover_artists,
    ) + list_pair("Editor"@, v.editors) + list_pair("Translator"@, v.translators)
}

pub open spec fn comic_pairs_tail(v: BookView) -> Seq<(Seq<char>, Seq<char>)> {
    opt_pair("Publisher"@, v.publisher) + opt_pair("Imprint"@, v.imprint) + list_pair("Genre"@, v.genres)
        + opt_pair("Web"@, v.web) + num_pair("PageCount"@, v.page_count) + opt_pair("LanguageISO"@, v.language)
        + opt_pair("AgeRating"@, v.age_rating) + list_pair("Characters"@, v.characters) + opt_pair(
        "StoryArc"@,
        v.story_arc,
    ) + opt_pair("GTIN"@, v.isbn)
}

/// A value that reads back as written: not empty, no surrounding
/// whitespace.
pub open spec fn clean_text(s: Seq<char>) -> bool {
    s.len() > 0 && trim(s) == s
}

pub open spec fn clean_opt(o: Option<Seq<char>>) -> bool {
    match o {
        Some(x) => clean_text(x),
        None => true,
    }
}

/// A credit list that reads back as written: clean names without commas
/// (the writer joins them with `", "`).
pub open spec fn clean_list(items: Seq<Seq<char>>) -> bool {
    forall|i: int| 0 <= i < items.len() ==> clean_text(#[trigger] items[i]) && !items[i].contains(',')
}

/// Metadata whose every value reads back as written.
pub open spec fn comic_writable(v: BookView) -> bool {
    &&& clean_opt(v.title) && clean_opt(v.series) && clean_opt(v.number) && clean_opt(v.summary)
    &&& clean_opt(v.publisher) && clean_opt(v.imprint) && clean_opt(v.web) && clean_opt(v.language)
    &&& clean_opt(v.age_rating) && clean_opt(v.story_arc) && clean_opt(v.isbn)
    &&& clean_list(v.authors) && clean_list(v.pencillers) && clean_list(v.inkers) && clean_list(v.colorists)
    &&& clean_list(v.letterers) && clean_list(v.cover_artists) && clean_list(v.editors) && clean_list(
        v.translators,
    )
    &&& clean_list(v.genres) && clean_list(v.characters)
}

/// What a ComicInfo document carries of the metadata: everything but the
/// rights and where it was stored; a read marks it as a comic read from
/// ComicInfo.
pub open spec fn comic_read_back(v: BookView) -> BookView {
    BookView {
        kind: BookKind::Comic,
        source: BookMetadataSource::ComicInfo,
        rights: None,
        entry_path: None,
        ..v
    }
}

/// The metadata folded from elements, starting from `s`.
pub open spec fn fold_from(s: BookView, els: Seq<(Seq<char>, Seq<char>)>) -> BookView
    decreases els.len(),
{
    if els.len() == 0 {
        s
    } else {
        comic_apply(fold_from(s, els.drop_last()), els.last().0, els.last().1)
    }
}

proof fn lemma_fold_is_fold_from(els: Seq<(Seq<char>, Seq<char>)>)
    ensures
        comic_fold(els) == fold_from(blank_book_view(BookKind::Comic, BookMetadataSource::ComicInfo), els),
    decreases els.len(),
{
    if els.len() > 0 {
        lemma_fold_is_fold_from(els.drop_last());
    }
}

proof fn lemma_fold_concat(s: BookView, a: Seq<(Seq<char>, Seq<char>)>, b: Seq<(Seq<char>, Seq<char>)>)
    ensures
        fold_from(s, a + b) == fold_from(fold_from(s, a), b),
    decreases b.len(),
{
    if b.len() == 0 {
        assert(a + b =~= a);
    } else {
        assert((a + b).drop_last() =~= a + b.drop_last());
        lemma_fold_concat(s, a, b.drop_last());
    }
}

proof fn lemma_fold_one(s: BookView, name: Seq<char>, value: Seq<char>)
    ensures
        fold_from(s, seq![(name, value)]) == comic_apply(s, name, value),
{
    let one = seq![(name, value)];
    assert(one.drop_last() =~= Seq::<(Seq<char>, Seq<char>)>::empty());
    assert(fold_from(s, one.drop_last()) == s);
    assert(one.last() == (name, value));
}

/// A text without surrounding whitespace is its own trim.
proof fn lemma_trim_clean(s: Seq<char>)
    requires
        s.len() > 0,
        !is_ws(s[0]),
        !is_ws(s.last()),
    ensures
        trim(s) == s,
{
    assert(trim_start(s) == s);
    assert(trim_end(s) == s);
}

proof fn lemma_digits_not_ws(s: Seq<char>)
    requires
        s.len() > 0,
        all_digits(s),
    ensures
        trim(s) == s,
{
    assert(is_digit(s[0]));
    assert(is_digit(s[s.len() - 1]));
    lemma_trim_clean(s);
}

proof fn lemma_number_reads_back(x: u32)
    ensures
        decimal(x as nat).len() > 0,
        trim(decimal(x as nat)) == decimal(x as nat),
        u32_field(decimal(x as nat)) == Some(x),
{
    lemma_decimal_reads_back(x as nat);
    lemma_digits_not_ws(decimal(x as nat));
}

proof fn lemma_year_reads_back(y: i32)
    ensures
        signed_decimal(y as int).len() > 0,
        trim(signed_decimal(y as int)) == signed_decimal(y as int),
        i32_field(signed_decimal(y as int)) == Some(y),
{
    if y < 0 {
        let d = decimal((-y) as nat);
        lemma_decimal_reads_back((-y) as nat);
        let s = seq!['-'] + d;
        assert(s.drop_first() =~= d);
        assert(s.last() == d.last());
        assert(is_digit(d[d.len() - 1]));
        lemma_trim_clean(s);
        assert(parse_signed(s) == Some(-((-y) as nat as int)));
    } else {
        lemma_decimal_reads_back(y as nat);
        lemma_digits_not_ws(decimal(y as nat));
        assert(decimal(y as nat)[0] != '-') by {
            assert(is_digit(decimal(y as nat)[0]));
        }
    }
}

/// The lowercase form of an ASCII name, letter by letter.
proof fn lemma_lower(s: Seq<char>, l: Seq<char>)
    requires
        s.len() == l.len(),
        forall|i: int| #![trigger s[i]] 0 <= i < s.len() ==> (s[i] as u32) < 128 && ascii_lower(s[i]) == l[i],
    ensures
        lowercase(s) == l,
{
    assert forall|i: int| 0 <= i < s.len() implies (#[trigger] s[i] as u32) < 128 by {}
    assert(all_ascii(s));
    assert(lowercase(s) =~= l);
}

/// Items without commas, joined with `", "`, split back at the commas
/// into the same items.
proof fn lemma_list_from_comma(s: Seq<char>, cur: Seq<char>, t: Seq<char>)
    ensures
        list_from(s + seq![','] + t, cur, ',') == list_from(s, cur, ',') + list_from(t, Seq::empty(), ','),
    decreases s.len(),
{
    if s.len() == 0 {
        assert(s + seq![','] + t =~= seq![','] + t);
        assert((seq![','] + t).drop_first() =~= t);
    } else {
        assert((s + seq![','] + t).drop_first() =~= s.drop_first() + seq![','] + t);
        assert((s + seq![','] + t)[0] == s[0]);
        if s[0] == ',' {
            lemma_list_from_comma(s.drop_first(), Seq::empty(), t);
        } else {
            lemma_list_from_comma(s.drop_first(), cur.push(s[0]), t);
        }
    }
}

proof fn lemma_list_from_plain(s: Seq<char>, cur: Seq<char>)
    requires
        !s.contains(','),
    ensures
        list_from(s, cur, ',') == keep_item(cur + s),
    decreases s.len(),
{
    if s.len() == 0 {
        assert(cur + s =~= cur);
    } else {
        assert(s[0] != ',') by {
            if s[0] == ',' {
                assert(s.contains(','));
            }
        }
        assert(!s.drop_first().contains(',')) by {
            if s.drop_first().contains(',') {
                let k = choose|k: int| 0 <= k < s.drop_first().len() && s.drop_first()[k] == ',';
                assert(s[k + 1] == ',');
            }
        }
        lemma_list_from_plain(s.drop_first(), cur.push(s[0]));
        assert(cur.push(s[0]) + s.drop_first() =~= cur + s);
    }
}

proof fn lemma_split_joined(items: Seq<Seq<char>>)
    requires
        clean_list(items),
    ensures
        split_list_spec(join(items, ", "@)) == items,
    decreases items.len(),
{
    reveal_strlit(", ");
    if items.len() == 0 {
        assert(list_from(Seq::empty(), Seq::empty(), ',') == keep_item(Seq::empty()));
        assert(trim(Seq::<char>::empty()) =~= Seq::<char>::empty());
    } else if items.len() == 1 {
        let x = items[0];
        assert(clean_text(items[0]));
        lemma_list_from_plain(x, Seq::empty());
        assert(Seq::<char>::empty() + x =~= x);
        assert(seq![x] =~= items);
    } else {
        let init = items.drop_last();
        let x = items.last();
        assert(clean_list(init)) by {
            assert forall|i: int| 0 <= i < init.len() implies clean_text(#[trigger] init[i]) && !init[i].contains(',') by {
                assert(init[i] == items[i]);
            }
        }
        assert(clean_text(items[items.len() - 1]) && !items[items.len() - 1].contains(','));
        lemma_split_joined(init);
        let j = join(init, ", "@);
        let tail = seq![' '] + x;
        assert(join(items, ", "@) =~= j + seq![','] + tail);
        lemma_list_from_comma(j, Seq::empty(), tail);
        assert(!tail.contains(',')) by {
            if tail.contains(',') {
                let k = choose|k: int| 0 <= k < tail.len() && tail[k] == ',';
                assert(k > 0);
                assert(x[k - 1] == ',');
            }
        }
        lemma_list_from_plain(tail, Seq::empty());
        assert(Seq::<char>::empty() + tail =~= tail);
        assert(trim_start(tail) == trim_start(x)) by {
            assert(is_ws(tail[0]));
            assert(tail.drop_first() =~= x);
        }
        assert(trim(x) == x);
        assert(trim(tail) == x);
        assert(items =~= init.push(x));
    }
}

/// The tags the writer uses, in lower case as the reader compares them.
proof fn lemma_tag_names()
    ensures
        lowercase("Title"@) == "title"@,
        lowercase("Series"@) == "series"@,
        lowercase("Number"@) == "number"@,
        lowercase("Count"@) == "count"@,
        lowercase("Volume"@) == "volume"@,
        lowercase("Summary"@) == "summary"@,
        lowercase("Year"@) == "year"@,
        lowercase("Month"@) == "month"@,
        lowercase("Day"@) == "day"@,
        lowercase("Writer"@) == "writer"@,
        lowercase("Penciller"@) == "penciller"@,
        lowercase("Inker"@) == "inker"@,
        lowercase("Colorist"@) == "colorist"@,
        lowercase("Letterer"@) == "letterer"@,
        lowercase("CoverArtist"@) == "coverartist"@,
        lowercase("Editor"@) == "editor"@,
        lowercase("Translator"@) == "translator"@,
        lowercase("Publisher"@) == "publisher"@,
        lowercase("Imprint"@) == "imprint"@,
        lowercase("Genre"@) == "genre"@,
        lowercase("Web"@) == "web"@,
        lowercase("PageCount"@) == "pagecount"@,
        lowercase("LanguageISO"@) == "languageiso"@,
        lowercase("AgeRating"@) == "agerating"@,
        lowercase("Characters"@) == "characters"@,
        lowercase("StoryArc"@) == "storyarc"@,
        lowercase("GTIN"@) == "gtin"@,
        lowercase("ComicInfo"@) == "comicinfo"@,
{
    reveal_strlit("Title");
    reveal_strlit("title");
    lemma_lower("Title"@, "title"@);
    reveal_strlit("Series");
    reveal_strlit("series");
    lemma_lower("Series"@, "series"@);
    reveal_strlit("Number");
    reveal_strlit("number");
    lemma_lower("Number"@, "number"@);
    reveal_strlit("Count");
    reveal_strlit("count");
    lemma_lower("Count"@, "count"@);
    reveal_strlit("Volume");
    reveal_strlit("volume");
    lemma_lower("Volume"@, "volume"@);
    reveal_strlit("Summary");
    reveal_strlit("summary");
    lemma_lower("Summary"@, "summary"@);
    reveal_strlit("Year");
    reveal_strlit("year");
    lemma_lower("Year"@, "year"@);
    reveal_strlit("Month");
    reveal_strlit("month");
    lemma_lower("Month"@, "month"@);
    reveal_strlit("Day");
    reveal_strlit("day");
    lemma_lower("Day"@, "day"@);
    reveal_strlit("Writer");
    reveal_strlit("writer");
    lemma_lower("Writer"@, "writer"@);
    reveal_strlit("Penciller");
    reveal_strlit("penciller");
    lemma_lower("Penciller"@, "penciller"@);
    reveal_strlit("Inker");
    reveal_strlit("inker");
    lemma_lower("Inker"@, "inker"@);
    reveal_strlit("Colorist");
    reveal_strlit("colorist");
    lemma_lower("Colorist"@, "colorist"@);
    reveal_strlit("Letterer");
    reveal_strlit("letterer");
    lemma_lower("Letterer"@, "letterer"@);
    reveal_strlit("CoverArtist");
    reveal_strlit("coverartist");
    lemma_lower("CoverArtist"@, "coverartist"@);
    reveal_strlit("Editor");
    reveal_strlit("editor");
    lemma_lower("Editor"@, "editor"@);
    reveal_strlit("Translator");
    reveal_strlit("translator");
    lemma_lower("Translator"@, "translator"@);
    reveal_strlit("Publisher");
    reveal_strlit("publisher");
    lemma_lower("Publisher"@, "publisher"@);
    reveal_strlit("Imprint");
    reveal_strlit("imprint");
    lemma_lower("Imprint"@, "imprint"@);
    reveal_strlit("Genre");
    reveal_strlit("genre");
    lemma_lower("Genre"@, "genre"@);
    reveal_strlit("Web");
    reveal_strlit("web");
    lemma_lower("Web"@, "web"@);
    reveal_strlit("PageCount");
    reveal_strlit("pagecount");
    lemma_lower("PageCount"@, "pagecount"@);
    reveal_strlit("LanguageISO");
    reveal_strlit("languageiso");
    lemma_lower("LanguageISO"@, "languageiso"@);
    reveal_strlit("AgeRating");
    reveal_strlit("agerating");
    lemma_lower("AgeRating"@, "agerating"@);
    reveal_strlit("Characters");
    reveal_strlit("characters");
    lemma_lower("Characters"@, "characters"@);
    reveal_strlit("StoryArc");
    reveal_strlit("storyarc");
    lemma_lower("StoryArc"@, "storyarc"@);
    reveal_strlit("GTIN");
    reveal_strlit("gtin");
    lemma_lower("GTIN"@, "gtin"@);
    reveal_strlit("ComicInfo");
    reveal_strlit("comicinfo");
    lemma_lower("ComicInfo"@, "comicinfo"@);
}

/// The names the reader compares against, spelled out.
proof fn lemma_reader_names()
    ensures
        "title"@ == seq!['t', 'i', 't', 'l', 'e'],
        "series"@ == seq!['s', 'e', 'r', 'i', 'e', 's'],
        "number"@ == seq!['n', 'u', 'm', 'b', 'e', 'r'],
        "count"@ == seq!['c', 'o', 'u', 'n', 't'],
        "volume"@ == seq!['v', 'o', 'l', 'u', 'm', 'e'],
        "summary"@ == seq!['s', 'u', 'm', 'm', 'a', 'r', 'y'],
        "notes"@ == seq!['n', 'o', 't', 'e', 's'],
        "year"@ == seq!['y', 'e', 'a', 'r'],
        "month"@ == seq!['m', 'o', 'n', 't', 'h'],
        "day"@ == seq!['d', 'a', 'y'],
        "writer"@ == seq!['w', 'r', 'i', 't', 'e', 'r'],
        "penciller"@ == seq!['p', 'e', 'n', 'c', 'i', 'l', 'l', 'e', 'r'],
        "inker"@ == seq!['i', 'n', 'k', 'e', 'r'],
        "colorist"@ == seq!['c', 'o', 'l', 'o', 'r', 'i', 's', 't'],
        "letterer"@ == seq!['l', 'e', 't', 't', 'e', 'r', 'e', 'r'],
        "coverartist"@ == seq!['c', 'o', 'v', 'e', 'r', 'a', 'r', 't', 'i', 's', 't'],
        "editor"@ == seq!['e', 'd', 'i', 't', 'o', 'r'],
        "translator"@ == seq!['t', 'r', 'a', 'n', 's', 'l', 'a', 't', 'o', 'r'],
        "publisher"@ == seq!['p', 'u', 'b', 'l', 'i', 's', 'h', 'e', 'r'],
        "imprint"@ == seq!['i', 'm', 'p', 'r', 'i', 'n', 't'],
        "genre"@ == seq!['g', 'e', 'n', 'r', 'e'],
        "characters"@ == seq!['c', 'h', 'a', 'r', 'a', 'c', 't', 'e', 'r', 's'],
        "storyarc"@ == seq!['s', 't', 'o', 'r', 'y', 'a', 'r', 'c'],
        "languageiso"@ == seq!['l', 'a', 'n', 'g', 'u', 'a', 'g', 'e', 'i', 's', 'o'],
        "gtin"@ == seq!['g', 't', 'i', 'n'],
        "isbn"@ == seq!['i', 's', 'b', 'n'],
        "pagecount"@ == seq!['p', 'a', 'g', 'e', 'c', 'o', 'u', 'n', 't'],
        "agerating"@ == seq!['a', 'g', 'e', 'r', 'a', 't', 'i', 'n', 'g'],
        "web"@ == seq!['w', 'e', 'b'],
        "comicinfo"@ == seq!['c', 'o', 'm', 'i', 'c', 'i', 'n', 'f', 'o'],
{
    reveal_strlit("title");
    assert("title"@ =~= seq!['t', 'i', 't', 'l', 'e']);
    reveal_strlit("series");
    assert("series"@ =~= seq!['s', 'e', 'r', 'i', 'e', 's']);
    reveal_strlit("number");
    assert("number"@ =~= seq!['n', 'u', 'm', 'b', 'e', 'r']);
    reveal_strlit("count");
    assert("count"@ =~= seq!['c', 'o', 'u', 'n', 't']);
    reveal_strlit("volume");
    assert("volume"@ =~= seq!['v', 'o', 'l', 'u', 'm', 'e']);
    reveal_strlit("summary");
    assert("summary"@ =~= seq!['s', 'u', 'm', 'm', 'a', 'r', 'y']);
    reveal_strlit("notes");
    assert("notes"@ =~= seq!['n', 'o', 't', 'e', 's']);
    reveal_strlit("year");
    assert("year"@ =~= seq!['y', 'e', 'a', 'r']);
    reveal_strlit("month");
    assert("month"@ =~= seq!['m', 'o', 'n', 't', 'h']);
    reveal_strlit("day");
    assert("day"@ =~= seq!['d', 'a', 'y']);
    reveal_strlit("writer");
    assert("writer"@ =~= seq!['w', 'r', 'i', 't', 'e', 'r']);
    reveal_strlit("penciller");
    assert("penciller"@ =~= seq!['p', 'e', 'n', 'c', 'i', 'l', 'l', 'e', 'r']);
    reveal_strlit("inker");
    assert("inker"@ =~= seq!['i', 'n', 'k', 'e', 'r']);
    reveal_strlit("colorist");
    assert("colorist"@ =~= seq!['c', 'o', 'l', 'o', 'r', 'i', 's', 't']);
    reveal_strlit("letterer");
    assert("letterer"@ =~= seq!['l', 'e', 't', 't', 'e', 'r', 'e', 'r']);
    reveal_strlit("coverartist");
    assert("coverartist"@ =~= seq!['c', 'o', 'v', 'e', 'r', 'a', 'r', 't', 'i', 's', 't']);
    reveal_strlit("editor");
    assert("editor"@ =~= seq!['e', 'd', 'i', 't', 'o', 'r']);
    reveal_strlit("translator");
    assert("translator"@ =~= seq!['t', 'r', 'a', 'n', 's', 'l', 'a', 't', 'o', 'r']);
    reveal_strlit("publisher");
    assert("publisher"@ =~= seq!['p', 'u', 'b', 'l', 'i', 's', 'h', 'e', 'r']);
    reveal_strlit("imprint");
    assert("imprint"@ =~= seq!['i', 'm', 'p', 'r', 'i', 'n', 't']);
    reveal_strlit("genre");
    assert("genre"@ =~= seq!['g', 'e', 'n', 'r', 'e']);
    reveal_strlit("characters");
    assert("characters"@ =~= seq!['c', 'h', 'a', 'r', 'a', 'c', 't', 'e', 'r', 's']);
    reveal_strlit("storyarc");
    assert("storyarc"@ =~= seq!['s', 't', 'o', 'r', 'y', 'a', 'r', 'c']);
    reveal_strlit("languageiso");
    assert("languageiso"@ =~= seq!['l', 'a', 'n', 'g', 'u', 'a', 'g', 'e', 'i', 's', 'o']);
    reveal_strlit("gtin");
    assert("gtin"@ =~= seq!['g', 't', 'i', 'n']);
    reveal_strlit("isbn");
    assert("isbn"@ =~= seq!['i', 's', 'b', 'n']);
    reveal_strlit("pagecount");
    assert("pagecount"@ =~= seq!['p', 'a', 'g', 'e', 'c', 'o', 'u', 'n', 't']);
    reveal_strlit("agerating");
    assert("agerating"@ =~= seq!['a', 'g', 'e', 'r', 'a', 't', 'i', 'n', 'g']);
    reveal_strlit("web");
    assert("web"@ =~= seq!['w', 'e', 'b']);
    reveal_strlit("comicinfo");
    assert("comicinfo"@ =~= seq!['c', 'o', 'm', 'i', 'c', 'i', 'n', 'f', 'o']);
}

proof fn lemma_text_piece(s: BookView, tag: Seq<char>, x: Seq<char>)
    requires
        clean_text(x),
    ensures
        fold_from(s, text_pair(tag, x)) == comic_apply(s, tag, x),
{
    lemma_fold_one(s, tag, x);
}

proof fn lemma_join_ends(items: Seq<Seq<char>>)
    requires
        items.len() > 0,
        clean_list(items),
    ensures
        join(items, ", "@).len() > 0,
        join(items, ", "@)[0] == items[0][0],
        join(items, ", "@).last() == items.last().last(),
    decreases items.len(),
{
    assert(clean_text(items[0]));
    assert(clean_text(items[items.len() - 1]));
    if items.len() > 1 {
        let init = items.drop_last();
        assert(clean_list(init)) by {
            assert forall|i: int| 0 <= i < init.len() implies clean_text(#[trigger] init[i]) && !init[i].contains(',') by {
                assert(init[i] == items[i]);
            }
        }
        lemma_join_ends(init);
        reveal_strlit(", ");
        let j = join(init, ", "@);
        assert(join(items, ", "@) == j + ", "@ + items.last());
        assert((j + ", "@ + items.last())[0] == j[0]);
        assert(init[0] == items[0]);
    }
}

proof fn lemma_clean_first_last(x: Seq<char>)
    requires
        clean_text(x),
    ensures
        !is_ws(x[0]),
        !is_ws(x.last()),
{
    if is_ws(x[0]) {
        crate::text::lemma_trim_len(x.drop_first());
        assert(trim_start(x) == trim_start(x.drop_first()));
        assert(trim(x) == trim(x.drop_first()));
    }
    if is_ws(x.last()) {
        crate::text::lemma_trim_start_is_suffix(x);
        let ts = trim_start(x);
        let a = choose|a: int| 0 <= a <= x.len() && ts == x.subrange(a, x.len() as int);
        if a < x.len() {
            assert(ts.last() == x.last());
            crate::text::lemma_trim_end_is_prefix(ts.drop_last());
            assert(trim_end(ts) == trim_end(ts.drop_last()));
        } else {
            assert(ts.len() == 0);
            crate::text::lemma_trim_end_is_prefix(ts);
        }
    }
}

proof fn lemma_list_piece(s: BookView, tag: Seq<char>, items: Seq<Seq<char>>)
    requires
        clean_list(items),
        items.len() > 0,
    ensures
        fold_from(s, list_pair(tag, items)) == comic_apply(s, tag, join(items, ", "@)),
        trim(join(items, ", "@)) == join(items, ", "@),
        split_list_spec(join(items, ", "@)) == items,
{
    lemma_join_ends(items);
    assert(clean_text(items[0]));
    assert(clean_text(items[items.len() - 1]));
    lemma_clean_first_last(items[0]);
    lemma_clean_first_last(items.last());
    lemma_trim_clean(join(items, ", "@));
    lemma_split_joined(items);
    lemma_text_piece(s, tag, join(items, ", "@));
}

proof fn lemma_apply_title(s: BookView, x: Seq<char>)
    requires
        clean_text(x),
    ensures
        comic_apply(s, "Title"@, x) == (BookView { title: Some(x), ..s }),
{
    lemma_tag_names();
    lemma_reader_names();
}

proof fn lemma_apply_series(s: BookView, x: Seq<char>)
    requires
        clean_text(x),
    ensures
        comic_apply(s, "Series"@, x) == (BookView { series: Some(x), ..s }),
{
    lemma_tag_names();
    lemma_reader_names();
}

proof fn lemma_apply_number(s: BookView, x: Seq<char>)
    requires
        clean_text(x),
    ensures
        comic_apply(s, "Number"@, x) == (BookView { number: Some(x), ..s }),
{
    lemma_tag_names();
    lemma_reader_names();
}

proof fn lemma_apply_count(s: BookView, x: u32)
    ensures
        comic_apply(s, "Count"@, decimal(x as nat)) == (BookView { count: Some(x), ..s }),
{
    lemma_tag_names();
    lemma_reader_names();
    lemma_number_reads_back(x);
}

proof fn lemma_apply_volume(s: BookView, x: u32)
    ensures
        comic_apply(s, "Volume"@, decimal(x as nat)) == (BookView { volume: Some(x), ..s }),
{
    lemma_tag_names();
    lemma_reader_names();
    lemma_number_reads_back(x);
}

proof fn lemma_apply_summary(s: BookView, x: Seq<char>)
    requires
        clean_text(x),
        s.summary is None,
    ensures
        comic_apply(s, "Summary"@, x) == (BookView { summary: Some(x), ..s }),
{
    lemma_tag_names();
    lemma_reader_names();
}

proof fn lemma_apply_year(s: BookView, y: i32)
    ensures
        comic_apply(s, "Year"@, signed_decimal(y as int)) == (BookView { year: Some(y), ..s }),
{
    lemma_tag_names();
    lemma_reader_names();
    lemma_year_reads_back(y);
}

proof fn lemma_apply_month(s: BookView, x: u32)
    ensures
        comic_apply(s, "Month"@, decimal(x as nat)) == (BookView { month: Some(x), ..s }),
{
    lemma_tag_names();
    lemma_reader_names();
    lemma_number_reads_back(x);
}

proof fn lemma_apply_day(s: BookView, x: u32)
    ensures
        comic_apply(s, "Day"@, decimal(x as nat)) == (BookView { day: Some(x), ..s }),
{
    lemma_tag_names();
    lemma_reader_names();
    lemma_number_reads_back(x);
}

proof fn lemma_apply_authors(s: BookView, items: Seq<Seq<char>>)
    requires
        trim(join(items, ", "@)) == join(items, ", "@),
        join(items, ", "@).len() > 0,
        split_list_spec(join(items, ", "@)) == items,
    ensures
        comic_apply(s, "Writer"@, join(items, ", "@)) == (BookView { authors: items, ..s }),
{
    lemma_tag_names();
    lemma_reader_names();
}

proof fn lemma_apply_pencillers(s: BookView, items: Seq<Seq<char>>)
    requires
        trim(join(items, ", "@)) == join(items, ", "@),
        join(items, ", "@).len() > 0,
        split_list_spec(join(items, ", "@)) == items,
    ensures
        comic_apply(s, "Penciller"@, join(items, ", "@)) == (BookView { pencillers: items, ..s }),
{
    lemma_tag_names();
    lemma_reader_names();
}

proof fn lemma_apply_inkers(s: BookView, items: Seq<Seq<char>>)
    requires
        trim(join(items, ", "@)) == join(items, ", "@),
        join(items, ", "@).len() > 0,
        split_list_spec(join(items, ", "@)) == items,
    ensures
        comic_apply(s, "Inker"@, join(items, ", "@)) == (BookView { inkers: items, ..s }),
{
    lemma_tag_names();
    lemma_reader_names();
}

proof fn lemma_apply_colorists(s: BookView, items: Seq<Seq<char>>)
    requires
        trim(join(items, ", "@)) == join(items, ", "@),
        join(items, ", "@).len() > 0,
        split_list_spec(join(items, ", "@)) == items,
    ensures
        comic_apply(s, "Colorist"@, join(items, ", "@)) == (BookView { colorists: items, ..s }),
{
    lemma_tag_names();
    lemma_reader_names();
}

proof fn lemma_apply_letterers(s: BookView, items: Seq<Seq<char>>)
    requires
        trim(join(items, ", "@)) == join(items, ", "@),
        join(items, ", "@).len() > 0,
        split_list_spec(join(items, ", "@)) == items,
    ensures
        comic_apply(s, "Letterer"@, join(items, ", "@)) == (BookView { letterers: items, ..s }),
{
    lemma_tag_names();
    lemma_reader_names();
}

proof fn lemma_apply_cover_artists(s: BookView, items: Seq<Seq<char>>)
    requires
        trim(join(items, ", "@)) == join(items, ", "@),
        join(items, ", "@).len() > 0,
        split_list_spec(join(items, ", "@)) == items,
    ensures
        comic_apply(s, "CoverArtist"@, join(items, ", "@)) == (BookView { cover_artists: items, ..s }),
{
    lemma_tag_names();
    lemma_reader_names();
}

proof fn lemma_apply_editors(s: BookView, items: Seq<Seq<char>>)
    requires
        trim(join(items, ", "@)) == join(items, ", "@),
        join(items, ", "@).len() > 0,
        split_list_spec(join(items, ", "@)) == items,
    ensures
        comic_apply(s, "Editor"@, join(items, ", "@)) == (BookView { editors: items, ..s }),
{
    lemma_tag_names();
    lemma_reader_names();
}

proof fn lemma_apply_translators(s: BookView, items: Seq<Seq<char>>)
    requires
        trim(join(items, ", "@)) == join(items, ", "@),
        join(items, ", "@).len() > 0,
        split_list_spec(join(items, ", "@)) == items,
    ensures
        comic_apply(s, "Translator"@, join(items, ", "@)) == (BookView { translators: items, ..s }),
{
    lemma_tag_names();
    lemma_reader_names();
}

proof fn lemma_apply_publisher(s: BookView, x: Seq<char>)
    requires
        clean_text(x),
    ensures
        comic_apply(s, "Publisher"@, x) == (BookView { publisher: Some(x), ..s }),
{
    lemma_tag_names();
    lemma_reader_names();
}

proof fn lemma_apply_imprint(s: BookView, x: Seq<char>)
    requires
        clean_text(x),
    ensures
        comic_apply(s, "Imprint"@, x) == (BookView { imprint: Some(x), ..s }),
{
    lemma_tag_names();
    lemma_reader_names();
}

proof fn lemma_apply_genres(s: BookView, items: Seq<Seq<char>>)
    requires
        trim(join(items, ", "@)) == join(items, ", "@),
        join(items, ", "@).len() > 0,
        split_list_spec(join(items, ", "@)) == items,
    ensures
        comic_apply(s, "Genre"@, join(items, ", "@)) == (BookView { genres: items, ..s }),
{
    lemma_tag_names();
    lemma_reader_names();
}

proof fn lemma_apply_web(s: BookView, x: Seq<char>)
    requires
        clean_text(x),
    ensures
        comic_apply(s, "Web"@, x) == (BookView { web: Some(x), ..s }),
{
    lemma_tag_names();
    lemma_reader_names();
}

proof fn lemma_apply_page_count(s: BookView, x: u32)
    ensures
        comic_apply(s, "PageCount"@, decimal(x as nat)) == (BookView { page_count: Some(x), ..s }),
{
    lemma_tag_names();
    lemma_reader_names();
    lemma_number_reads_back(x);
}

proof fn lemma_apply_language(s: BookView, x: Seq<char>)
    requires
        clean_text(x),
    ensures
        comic_apply(s, "LanguageISO"@, x) == (BookView { language: Some(x), ..s }),
{
    lemma_tag_names();
    lemma_reader_names();
}

proof fn lemma_apply_age_rating(s: BookView, x: Seq<char>)
    requires
        clean_text(x),
    ensures
        comic_apply(s, "AgeRating"@, x) == (BookView { age_rating: Some(x), ..s }),
{
    lemma_tag_names();
    lemma_reader_names();
}

proof fn lemma_apply_characters(s: BookView, items: Seq<Seq<char>>)
    requires
        trim(join(items, ", "@)) == join(items, ", "@),
        join(items, ", "@).len() > 0,
        split_list_spec(join(items, ", "@)) == items,
    ensures
        comic_apply(s, "Characters"@, join(items, ", "@)) == (BookView { characters: items, ..s }),
{
    lemma_tag_names();
    lemma_reader_names();
}

proof fn lemma_apply_story_arc(s: BookView, x: Seq<char>)
    requires
        clean_text(x),
    ensures
        comic_apply(s, "StoryArc"@, x) == (BookView { story_arc: Some(x), ..s }),
{
    lemma_tag_names();
    lemma_reader_names();
}

proof fn lemma_apply_isbn(s: BookView, x: Seq<char>)
    requires
        clean_text(x),
    ensures
        comic_apply(s, "GTIN"@, x) == (BookView { isbn: Some(x), ..s }),
{
    lemma_tag_names();
    lemma_reader_names();
}

proof fn lemma_step_title(s: BookView, v: BookView)
    requires
        clean_opt(v.title),
        s.title is None,
    ensures
        fold_from(s, opt_pair("Title"@, v.title)) == (BookView { title: v.title, ..s }),
{
    match v.title { Some(x) => { lemma_text_piece(s, "Title"@, x); lemma_apply_title(s, x); }, None => {} }
}

proof fn lemma_step_series(s: BookView, v: BookView)
    requires
        clean_opt(v.series),
        s.series is None,
    ensures
        fold_from(s, opt_pair("Series"@, v.series)) == (BookView { series: v.series, ..s }),
{
    match v.series { Some(x) => { lemma_text_piece(s, "Series"@, x); lemma_apply_series(s, x); }, None => {} }
}

proof fn lemma_step_number(s: BookView, v: BookView)
    requires
        clean_opt(v.number),
        s.number is None,
    ensures
        fold_from(s, opt_pair("Number"@, v.number)) == (BookView { number: v.number, ..s }),
{
    match v.number { Some(x) => { lemma_text_piece(s, "Number"@, x); lemma_apply_number(s, x); }, None => {} }
}

proof fn lemma_step_count(s: BookView, v: BookView)
    requires
        true,
        s.count is None,
    ensures
        fold_from(s, num_pair("Count"@, v.count)) == (BookView { count: v.count, ..s }),
{
    match v.count { Some(x) => { lemma_number_reads_back(x); lemma_text_piece(s, "Count"@, decimal(x as nat)); lemma_apply_count(s, x); }, None => {} }
}

proof fn lemma_step_volume(s: BookView, v: BookView)
    requires
        true,
        s.volume is None,
    ensures
        fold_from(s, num_pair("Volume"@, v.volume)) == (BookView { volume: v.volume, ..s }),
{
    match v.volume { Some(x) => { lemma_number_reads_back(x); lemma_text_piece(s, "Volume"@, decimal(x as nat)); lemma_apply_volume(s, x); }, None => {} }
}

proof fn lemma_step_summary(s: BookView, v: BookView)
    requires
        clean_opt(v.summary),
        s.summary is None,
        s.summary is None,
    ensures
        fold_from(s, opt_pair("Summary"@, v.summary)) == (BookView { summary: v.summary, ..s }),
{
    match v.summary { Some(x) => { lemma_text_piece(s, "Summary"@, x); lemma_apply_summary(s, x); }, None => {} }
}

proof fn lemma_step_year(s: BookView, v: BookView)
    requires
        true,
        s.year is None,
    ensures
        fold_from(s, match v.year { Some(y) => text_pair("Year"@, signed_decimal(y as int)), None => Seq::<(Seq<char>, Seq<char>)>::empty() }) == (BookView { year: v.year, ..s }),
{
    match v.year { Some(y) => { lemma_year_reads_back(y); lemma_text_piece(s, "Year"@, signed_decimal(y as int)); lemma_apply_year(s, y); }, None => {} }
}

proof fn lemma_step_month(s: BookView, v: BookView)
    requires
        true,
        s.month is None,
    ensures
        fold_from(s, num_pair("Month"@, v.month)) == (BookView { month: v.month, ..s }),
{
    match v.month { Some(x) => { lemma_number_reads_back(x); lemma_text_piece(s, "Month"@, decimal(x as nat)); lemma_apply_month(s, x); }, None => {} }
}

proof fn lemma_step_day(s: BookView, v: BookView)
    requires
        true,
        s.day is None,
    ensures
        fold_from(s, num_pair("Day"@, v.day)) == (BookView { day: v.day, ..s }),
{
    match v.day { Some(x) => { lemma_number_reads_back(x); lemma_text_piece(s, "Day"@, decimal(x as nat)); lemma_apply_day(s, x); }, None => {} }
}

proof fn lemma_step_authors(s: BookView, v: BookView)
    requires
        clean_list(v.authors),
        s.authors.len() == 0,
    ensures
        fold_from(s, list_pair("Writer"@, v.authors)) == (BookView { authors: v.authors, ..s }),
{
    if v.authors.len() > 0 { lemma_list_piece(s, "Writer"@, v.authors); lemma_join_ends(v.authors); lemma_apply_authors(s, v.authors); } else { assert(v.authors =~= Seq::<Seq<char>>::empty()); assert(join(v.authors, ", "@) =~= Seq::<char>::empty()); assert(trim(Seq::<char>::empty()) =~= Seq::<char>::empty()); }
}

proof fn lemma_step_pencillers(s: BookView, v: BookView)
    requires
        clean_list(v.pencillers),
        s.pencillers.len() == 0,
    ensures
        fold_from(s, list_pair("Penciller"@, v.pencillers)) == (BookView { pencillers: v.pencillers, ..s }),
{
    if v.pencillers.len() > 0 { lemma_list_piece(s, "Penciller"@, v.pencillers); lemma_join_ends(v.pencillers); lemma_apply_pencillers(s, v.pencillers); } else { assert(v.pencillers =~= Seq::<Seq<char>>::empty()); assert(join(v.pencillers, ", "@) =~= Seq::<char>::empty()); assert(trim(Seq::<char>::empty()) =~= Seq::<char>::empty()); }
}

proof fn lemma_step_inkers(s: BookView, v: BookView)
    requires
        clean_list(v.inkers),
        s.inkers.len() == 0,
    ensures
        fold_from(s, list_pair("Inker"@, v.inkers)) == (BookView { inkers: v.inkers, ..s }),
{
    if v.inkers.len() > 0 { lemma_list_piece(s, "Inker"@, v.inkers); lemma_join_ends(v.inkers); lemma_apply_inkers(s, v.inkers); } else { assert(v.inkers =~= Seq::<Seq<char>>::empty()); assert(join(v.inkers, ", "@) =~= Seq::<char>::empty()); assert(trim(Seq::<char>::empty()) =~= Seq::<char>::empty()); }
}

proof fn lemma_step_colorists(s: BookView, v: BookView)
    requires
        clean_list(v.colorists),
        s.colorists.len() == 0,
    ensures
        fold_from(s, list_pair("Colorist"@, v.colorists)) == (BookView { colorists: v.colorists, ..s }),
{
    if v.colorists.len() > 0 { lemma_list_piece(s, "Colorist"@, v.colorists); lemma_join_ends(v.colorists); lemma_apply_colorists(s, v.colorists); } else { assert(v.colorists =~= Seq::<Seq<char>>::empty()); assert(join(v.colorists, ", "@) =~= Seq::<char>::empty()); assert(trim(Seq::<char>::empty()) =~= Seq::<char>::empty()); }
}

proof fn lemma_step_letterers(s: BookView, v: BookView)
    requires
        clean_list(v.letterers),
        s.letterers.len() == 0,
    ensures
        fold_from(s, list_pair("Letterer"@, v.letterers)) == (BookView { letterers: v.letterers, ..s }),
{
    if v.letterers.len() > 0 { lemma_list_piece(s, "Letterer"@, v.letterers); lemma_join_ends(v.letterers); lemma_apply_letterers(s, v.letterers); } else { assert(v.letterers =~= Seq::<Seq<char>>::empty()); assert(join(v.letterers, ", "@) =~= Seq::<char>::empty()); assert(trim(Seq::<char>::empty()) =~= Seq::<char>::empty()); }
}

proof fn lemma_step_cover_artists(s: BookView, v: BookView)
    requires
        clean_list(v.cover_artists),
        s.cover_artists.len() == 0,
    ensures
        fold_from(s, list_pair("CoverArtist"@, v.cover_artists)) == (BookView { cover_artists: v.cover_artists, ..s }),
{
    if v.cover_artists.len() > 0 { lemma_list_piece(s, "CoverArtist"@, v.cover_artists); lemma_join_ends(v.cover_artists); lemma_apply_cover_artists(s, v.cover_artists); } else { assert(v.cover_artists =~= Seq::<Seq<char>>::empty()); assert(join(v.cover_artists, ", "@) =~= Seq::<char>::empty()); assert(trim(Seq::<char>::empty()) =~= Seq::<char>::empty()); }
}

proof fn lemma_step_editors(s: BookView, v: BookView)
    requires
        clean_list(v.editors),
        s.editors.len() == 0,
    ensures
        fold_from(s, list_pair("Editor"@, v.editors)) == (BookView { editors: v.editors, ..s }),
{
    if v.editors.len() > 0 { lemma_list_piece(s, "Editor"@, v.editors); lemma_join_ends(v.editors); lemma_apply_editors(s, v.editors); } else { assert(v.editors =~= Seq::<Seq<char>>::empty()); assert(join(v.editors, ", "@) =~= Seq::<char>::empty()); assert(trim(Seq::<char>::empty()) =~= Seq::<char>::empty()); }
}

proof fn lemma_step_translators(s: BookView, v: BookView)
    requires
        clean_list(v.translators),
        s.translators.len() == 0,
    ensures
        fold_from(s, list_pair("Translator"@, v.translators)) == (BookView { translators: v.translators, ..s }),
{
    if v.translators.len() > 0 { lemma_list_piece(s, "Translator"@, v.translators); lemma_join_ends(v.translators); lemma_apply_translators(s, v.translators); } else { assert(v.translators =~= Seq::<Seq<char>>::empty()); assert(join(v.translators, ", "@) =~= Seq::<char>::empty()); assert(trim(Seq::<char>::empty()) =~= Seq::<char>::empty()); }
}

proof fn lemma_step_publisher(s: BookView, v: BookView)
    requires
        clean_opt(v.publisher),
        s.publisher is None,
    ensures
        fold_from(s, opt_pair("Publisher"@, v.publisher)) == (BookView { publisher: v.publisher, ..s }),
{
    match v.publisher { Some(x) => { lemma_text_piece(s, "Publisher"@, x); lemma_apply_publisher(s, x); }, None => {} }
}

proof fn lemma_step_imprint(s: BookView, v: BookView)
    requires
        clean_opt(v.imprint),
        s.imprint is None,
    ensures
        fold_from(s, opt_pair("Imprint"@, v.imprint)) == (BookView { imprint: v.imprint, ..s }),
{
    match v.imprint { Some(x) => { lemma_text_piece(s, "Imprint"@, x); lemma_apply_imprint(s, x); }, None => {} }
}

proof fn lemma_step_genres(s: BookView, v: BookView)
    requires
        clean_list(v.genres),
        s.genres.len() == 0,
    ensures
        fold_from(s, list_pair("Genre"@, v.genres)) == (BookView { genres: v.genres, ..s }),
{
    if v.genres.len() > 0 { lemma_list_piece(s, "Genre"@, v.genres); lemma_join_ends(v.genres); lemma_apply_genres(s, v.genres); } else { assert(v.genres =~= Seq::<Seq<char>>::empty()); assert(join(v.genres, ", "@) =~= Seq::<char>::empty()); assert(trim(Seq::<char>::empty()) =~= Seq::<char>::empty()); }
}

proof fn lemma_step_web(s: BookView, v: BookView)
    requires
        clean_opt(v.web),
        s.web is None,
    ensures
        fold_from(s, opt_pair("Web"@, v.web)) == (BookView { web: v.web, ..s }),
{
    match v.web { Some(x) => { lemma_text_piece(s, "Web"@, x); lemma_apply_web(s, x); }, None => {} }
}

proof fn lemma_step_page_count(s: BookView, v: BookView)
    requires
        true,
        s.page_count is None,
    ensures
        fold_from(s, num_pair("PageCount"@, v.page_count)) == (BookView { page_count: v.page_count, ..s }),
{
    match v.page_count { Some(x) => { lemma_number_reads_back(x); lemma_text_piece(s, "PageCount"@, decimal(x as nat)); lemma_apply_page_count(s, x); }, None => {} }
}

proof fn lemma_step_language(s: BookView, v: BookView)
    requires
        clean_opt(v.language),
        s.language is None,
    ensures
        fold_from(s, opt_pair("LanguageISO"@, v.language)) == (BookView { language: v.language, ..s }),
{
    match v.language { Some(x) => { lemma_text_piece(s, "LanguageISO"@, x); lemma_apply_language(s, x); }, None => {} }
}

proof fn lemma_step_age_rating(s: BookView, v: BookView)
    requires
        clean_opt(v.age_rating),
        s.age_rating is None,
    ensures
        fold_from(s, opt_pair("AgeRating"@, v.age_rating)) == (BookView { age_rating: v.age_rating, ..s }),
{
    match v.age_rating { Some(x) => { lemma_text_piece(s, "AgeRating"@, x); lemma_apply_age_rating(s, x); }, None => {} }
}

proof fn lemma_step_characters(s: BookView, v: BookView)
    requires
        clean_list(v.characters),
        s.characters.len() == 0,
    ensures
        fold_from(s, list_pair("Characters"@, v.characters)) == (BookView { characters: v.characters, ..s }),
{
    if v.characters.len() > 0 { lemma_list_piece(s, "Characters"@, v.characters); lemma_join_ends(v.characters); lemma_apply_characters(s, v.characters); } else { assert(v.characters =~= Seq::<Seq<char>>::empty()); assert(join(v.characters, ", "@) =~= Seq::<char>::empty()); assert(trim(Seq::<char>::empty()) =~= Seq::<char>::empty()); }
}

proof fn lemma_step_story_arc(s: BookView, v: BookView)
    requires
        clean_opt(v.story_arc),
        s.story_arc is None,
    ensures
        fold_from(s, opt_pair("StoryArc"@, v.story_arc)) == (BookView { story_arc: v.story_arc, ..s }),
{
    match v.story_arc { Some(x) => { lemma_text_piece(s, "StoryArc"@, x); lemma_apply_story_arc(s, x); }, None => {} }
}

proof fn lemma_step_isbn(s: BookView, v: BookView)
    requires
        clean_opt(v.isbn),
        s.isbn is None,
    ensures
        fold_from(s, opt_pair("GTIN"@, v.isbn)) == (BookView { isbn: v.isbn, ..s }),
{
    match v.isbn { Some(x) => { lemma_text_piece(s, "GTIN"@, x); lemma_apply_isbn(s, x); }, None => {} }
}

proof fn lemma_head(s: BookView, v: BookView)
    requires
        comic_writable(v),
        s.title is None,
        s.series is None,
        s.number is None,
        s.count is None,
        s.volume is None,
        s.summary is None,
        s.year is None,
        s.month is None,
        s.day is None,
    ensures
        fold_from(s, comic_pairs_head(v)) == (BookView { title: v.title, series: v.series, number: v.number, count: v.count, volume: v.volume, summary: v.summary, year: v.year, month: v.month, day: v.day, ..s }),
{
    let p0 = opt_pair("Title"@, v.title);
    let s0 = BookView { title: v.title, ..s };
    lemma_step_title(s, v);
    let a0 = p0;
    let p1 = opt_pair("Series"@, v.series);
    let s1 = BookView { series: v.series, ..s0 };
    lemma_step_series(s0, v);
    let a1 = a0 + p1;
    lemma_fold_concat(s, a0, p1);
    let p2 = opt_pair("Number"@, v.number);
    let s2 = BookView { number: v.number, ..s1 };
    lemma_step_number(s1, v);
    let a2 = a1 + p2;
    lemma_fold_concat(s, a1, p2);
    let p3 = num_pair("Count"@, v.count);
    let s3 = BookView { count: v.count, ..s2 };
    lemma_step_count(s2, v);
    let a3 = a2 + p3;
    lemma_fold_concat(s, a2, p3);
    let p4 = num_pair("Volume"@, v.volume);
    let s4 = BookView { volume: v.volume, ..s3 };
    lemma_step_volume(s3, v);
    let a4 = a3 + p4;
    lemma_fold_concat(s, a3, p4);
    let p5 = opt_pair("Summary"@, v.summary);
    let s5 = BookView { summary: v.summary, ..s4 };
    lemma_step_summary(s4, v);
    let a5 = a4 + p5;
    lemma_fold_concat(s, a4, p5);
    let p6 = match v.year { Some(y) => text_pair("Year"@, signed_decimal(y as int)), None => Seq::<(Seq<char>, Seq<char>)>::empty() };
    let s6 = BookView { year: v.year, ..s5 };
    lemma_step_year(s5, v);
    let a6 = a5 + p6;
    lemma_fold_concat(s, a5, p6);
    let p7 = num_pair("Month"@, v.month);
    let s7 = BookView { month: v.month, ..s6 };
    lemma_step_month(s6, v);
    let a7 = a6 + p7;
    lemma_fold_concat(s, a6, p7);
    let p8 = num_pair("Day"@, v.day);
    let s8 = BookView { day: v.day, ..s7 };
    lemma_step_day(s7, v);
    let a8 = a7 + p8;
    lemma_fold_concat(s, a7, p8);
    assert(a8 == comic_pairs_head(v));
    assert(s8 =~= (BookView { title: v.title, series: v.series, number: v.number, count: v.count, volume: v.volume, summary: v.summary, year: v.year, month: v.month, day: v.day, ..s }));
}

proof fn lemma_credits(s: BookView, v: BookView)
    requires
        comic_writable(v),
        s.authors.len() == 0,
        s.pencillers.len() == 0,
        s.inkers.len() == 0,
        s.colorists.len() == 0,
        s.letterers.len() == 0,
        s.cover_artists.len() == 0,
        s.editors.len() == 0,
        s.translators.len() == 0,
    ensures
        fold_from(s, comic_pairs_credits(v)) == (BookView { authors: v.authors, pencillers: v.pencillers, inkers: v.inkers, colorists: v.colorists, letterers: v.letterers, cover_artists: v.cover_artists, editors: v.editors, translators: v.translators, ..s }),
{
    let p0 = list_pair("Writer"@, v.authors);
    let s0 = BookView { authors: v.authors, ..s };
    lemma_step_authors(s, v);
    let a0 = p0;
    let p1 = list_pair("Penciller"@, v.pencillers);
    let s1 = BookView { pencillers: v.pencillers, ..s0 };
    lemma_step_pencillers(s0, v);
    let a1 = a0 + p1;
    lemma_fold_concat(s, a0, p1);
    let p2 = list_pair("Inker"@, v.inkers);
    let s2 = BookView { inkers: v.inkers, ..s1 };
    lemma_step_inkers(s1, v);
    let a2 = a1 + p2;
    lemma_fold_concat(s, a1, p2);
    let p3 = list_pair("Colorist"@, v.colorists);
    let s3 = BookView { colorists: v.colorists, ..s2 };
    lemma_step_colorists(s2, v);
    let a3 = a2 + p3;
    lemma_fold_concat(s, a2, p3);
    let p4 = list_pair("Letterer"@, v.letterers);
    let s4 = BookView { letterers: v.letterers, ..s3 };
    lemma_step_letterers(s3, v);
    let a4 = a3 + p4;
    lemma_fold_concat(s, a3, p4);
    let p5 = list_pair("CoverArtist"@, v.cover_artists);
    let s5 = BookView { cover_artists: v.cover_artists, ..s4 };
    lemma_step_cover_artists(s4, v);
    let a5 = a4 + p5;
    lemma_fold_concat(s, a4, p5);
    let p6 = list_pair("Editor"@, v.editors);
    let s6 = BookView { editors: v.editors, ..s5 };
    lemma_step_editors(s5, v);
    let a6 = a5 + p6;
    lemma_fold_concat(s, a5, p6);
    let p7 = list_pair("Translator"@, v.translators);
    let s7 = BookView { translators: v.translators, ..s6 };
    lemma_step_translators(s6, v);
    let a7 = a6 + p7;
    lemma_fold_concat(s, a6, p7);
    assert(a7 == comic_pairs_credits(v));
    assert(s7 =~= (BookView { authors: v.authors, pencillers: v.pencillers, inkers: v.inkers, colorists: v.colorists, letterers: v.letterers, cover_artists: v.cover_artists, editors: v.editors, translators: v.translators, ..s }));
}

proof fn lemma_tail(s: BookView, v: BookView)
    requires
        comic_writable(v),
        s.publisher is None,
        s.imprint is None,
        s.genres.len() == 0,
        s.web is None,
        s.page_count is None,
        s.language is None,
        s.age_rating is None,
        s.characters.len() == 0,
        s.story_arc is None,
        s.isbn is None,
    ensures
        fold_from(s, comic_pairs_tail(v)) == (BookView { publisher: v.publisher, imprint: v.imprint, genres: v.genres, web: v.web, page_count: v.page_count, language: v.language, age_rating: v.age_rating, characters: v.characters, story_arc: v.story_arc, isbn: v.isbn, ..s }),
{
    let p0 = opt_pair("Publisher"@, v.publisher);
    let s0 = BookView { publisher: v.publisher, ..s };
    lemma_step_publisher(s, v);
    let a0 = p0;
    let p1 = opt_pair("Imprint"@, v.imprint);
    let s1 = BookView { imprint: v.imprint, ..s0 };
    lemma_step_imprint(s0, v);
    let a1 = a0 + p1;
    lemma_fold_concat(s, a0, p1);
    let p2 = list_pair("Genre"@, v.genres);
    let s2 = BookView { genres: v.genres, ..s1 };
    lemma_step_genres(s1, v);
    let a2 = a1 + p2;
    lemma_fold_concat(s, a1, p2);
    let p3 = opt_pair("Web"@, v.web);
    let s3 = BookView { web: v.web, ..s2 };
    lemma_step_web(s2, v);
    let a3 = a2 + p3;
    lemma_fold_concat(s, a2, p3);
    let p4 = num_pair("PageCount"@, v.page_count);
    let s4 = BookView { page_count: v.page_count, ..s3 };
    lemma_step_page_count(s3, v);
    let a4 = a3 + p4;
    lemma_fold_concat(s, a3, p4);
    let p5 = opt_pair("LanguageISO"@, v.language);
    let s5 = BookView { language: v.language, ..s4 };
    lemma_step_language(s4, v);
    let a5 = a4 + p5;
    lemma_fold_concat(s, a4, p5);
    let p6 = opt_pair("AgeRating"@, v.age_rating);
    let s6 = BookView { age_rating: v.age_rating, ..s5 };
    lemma_step_age_rating(s5, v);
    let a6 = a5 + p6;
    lemma_fold_concat(s, a5, p6);
    let p7 = list_pair("Characters"@, v.characters);
    let s7 = BookView { characters: v.characters, ..s6 };
    lemma_step_characters(s6, v);
    let a7 = a6 + p7;
    lemma_fold_concat(s, a6, p7);
    let p8 = opt_pair("StoryArc"@, v.story_arc);
    let s8 = BookView { story_arc: v.story_arc, ..s7 };
    lemma_step_story_arc(s7, v);
    let a8 = a7 + p8;
    lemma_fold_concat(s, a7, p8);
    let p9 = opt_pair("GTIN"@, v.isbn);
    let s9 = BookView { isbn: v.isbn, ..s8 };
    lemma_step_isbn(s8, v);
    let a9 = a8 + p9;
    lemma_fold_concat(s, a8, p9);
    assert(a9 == comic_pairs_tail(v));
    assert(s9 =~= (BookView { publisher: v.publisher, imprint: v.imprint, genres: v.genres, web: v.web, page_count: v.page_count, language: v.language, age_rating: v.age_rating, characters: v.characters, story_arc: v.story_arc, isbn: v.isbn, ..s }));
}

/// Reading back a written ComicInfo document: the elements the writer
/// writes for `v`, folded as the reader folds them, give back `v` (marked
/// as a comic read from ComicInfo, without the rights and storage place,
/// which the document does not carry), provided every value reads back as
/// written: text values and credits not empty and without surrounding
/// whitespace, credits without commas.
pub proof fn law_comic_info_reads_back(v: BookView)
    requires
        comic_writable(v),
    ensures
        comic_fold(comic_pairs(v)) == comic_read_back(v),
{
    let b = blank_book_view(BookKind::Comic, BookMetadataSource::ComicInfo);
    lemma_fold_is_fold_from(comic_pairs(v));
    let h = comic_pairs_head(v);
    let c = comic_pairs_credits(v);
    let t = comic_pairs_tail(v);
    let root = seq![("ComicInfo"@, Seq::<char>::empty())];
    lemma_head(b, v);
    let sh = fold_from(b, h);
    lemma_credits(sh, v);
    let sc = fold_from(sh, c);
    lemma_tail(sc, v);
    let st = fold_from(sc, t);
    lemma_fold_concat(b, h, c);
    lemma_fold_concat(b, h + c, t);
    lemma_fold_concat(b, h + c + t, root);
    lemma_fold_one(st, "ComicInfo"@, Seq::empty());
    assert(trim(Seq::<char>::empty()) =~= Seq::<char>::empty());
    assert(comic_apply(st, "ComicInfo"@, Seq::empty()) == st);
    assert(comic_pairs(v) == h + c + t + root);
    assert(st =~= comic_read_back(v));
}

} // verus!
