//! Template values for one file, taken from whichever metadata matches the
//! file's type.
use vstd::prelude::*;

use crate::models::book::BookMetadata;
use crate::models::track::TrackMetadata;
use crate::models::video::{VideoKind, VideoMetadata};
use crate::paths::{extension, file_stem, path_extension, path_file_stem};
use crate::renamer::template::FieldValues;
use crate::text::{
    chars_of, decimal, format_i64, format_u64, lowercase, signed_decimal, string_from,
    to_lowercase, trim, trimmed,
};

verus! {

/// The metadata read for one file, by the reader that matches its type.
pub enum FileMetadata<R> {
    Music(TrackMetadata),
    Video(VideoMetadata<R>),
    Book(BookMetadata),
}

/// `values` with `key` set to `value` when there is a value that is not
/// blank.
pub open spec fn put_spec(
    values: Map<Seq<char>, Seq<char>>,
    key: Seq<char>,
    value: Option<Seq<char>>,
) -> Map<Seq<char>, Seq<char>> {
    match value {
        Some(v) => if trim(v).len() > 0 {
            values.insert(key, v)
        } else {
            values
        },
        None => values,
    }
}

pub open spec fn os(o: Option<String>) -> Option<Seq<char>> {
    match o {
        Some(s) => Some(s@),
        None => None,
    }
}

pub open spec fn ou(o: Option<u32>) -> Option<Seq<char>> {
    match o {
        Some(n) => Some(decimal(n as nat)),
        None => None,
    }
}

pub open spec fn oi(o: Option<i32>) -> Option<Seq<char>> {
    match o {
        Some(n) => Some(signed_decimal(n as int)),
        None => None,
    }
}

/// The first entry of a list, if it has one.
pub open spec fn first_of(v: Seq<String>) -> Option<Seq<char>> {
    if v.len() > 0 {
        Some(v[0]@)
    } else {
        None
    }
}

pub open spec fn first_opt(v: Option<Vec<String>>) -> Option<Seq<char>> {
    match v {
        Some(l) => first_of(l@),
        None => None,
    }
}

pub open spec fn or_else(a: Option<String>, b: Option<String>) -> Option<Seq<char>> {
    match a {
        Some(x) => Some(x@),
        None => os(b),
    }
}

pub open spec fn music_fields_spec(m: TrackMetadata) -> Map<Seq<char>, Seq<char>> {
    let v = Map::empty();
    let v = put_spec(v, "title"@, os(m.title));
    let v = put_spec(v, "artist"@, os(m.artist));
    let v = put_spec(v, "albumartist"@, or_else(m.album_artist, m.artist));
    let v = put_spec(v, "album"@, os(m.album));
    let v = put_spec(v, "track"@, ou(m.track_number));
    let v = put_spec(v, "totaltracks"@, ou(m.total_tracks));
    let v = put_spec(v, "disc"@, ou(m.disc_number));
    let v = put_spec(v, "totaldiscs"@, ou(m.total_discs));
    let v = put_spec(v, "year"@, oi(m.year));
    let v = put_spec(v, "date"@, os(m.date));
    let v = put_spec(v, "isrc"@, os(m.isrc));
    let v = put_spec(v, "genre"@, first_opt(m.genre));
    let v = put_spec(v, "composer"@, first_opt(m.composer));
    let v = put_spec(v, "musicbrainzreleaseid"@, os(m.musicbrainz_release_id));
    put_spec(v, "musicbrainztrackid"@, os(m.musicbrainz_track_id))
}

pub open spec fn video_fields_spec<R>(m: VideoMetadata<R>) -> Map<Seq<char>, Seq<char>> {
    let v = Map::empty();
    let v = put_spec(v, "title"@, os(m.title));
    let v = put_spec(v, "episodetitle"@, os(m.title));
    let v = put_spec(v, "originaltitle"@, os(m.original_title));
    let v = put_spec(v, "year"@, oi(m.year));
    let v = put_spec(v, "date"@, os(m.release_date));
    let v = put_spec(v, "aired"@, os(m.aired));
    let v = put_spec(v, "runtime"@, ou(m.runtime_minutes));
    let v = put_spec(v, "certification"@, os(m.certification));
    let v = put_spec(v, "genre"@, first_of(m.genres@));
    let v = put_spec(v, "studio"@, first_of(m.studios@));
    let v = put_spec(v, "director"@, first_of(m.directors@));
    let v = put_spec(v, "imdbid"@, os(m.imdb_id));
    let v = put_spec(v, "tmdbid"@, os(m.tmdb_id));
    let v = put_spec(v, "tvdbid"@, os(m.tvdb_id));
    if m.kind == VideoKind::Episode {
        let v = put_spec(v, "seriestitle"@, os(m.show_title));
        let v = put_spec(v, "season"@, ou(m.season));
        put_spec(v, "episode"@, ou(m.episode))
    } else {
        put_spec(v, "seriestitle"@, os(m.title))
    }
}

pub open spec fn book_fields_spec(m: BookMetadata) -> Map<Seq<char>, Seq<char>> {
    let v = Map::empty();
    let v = put_spec(v, "title"@, os(m.title));
    let v = put_spec(v, "series"@, os(m.series));
    let v = put_spec(v, "number"@, os(m.number));
    let v = put_spec(v, "volume"@, ou(m.volume));
    let v = put_spec(v, "author"@, first_of(m.authors@));
    let v = put_spec(v, "writer"@, first_of(m.authors@));
    let v = put_spec(v, "publisher"@, os(m.publisher));
    let v = put_spec(v, "year"@, oi(m.year));
    let v = put_spec(v, "language"@, os(m.language));
    let v = put_spec(v, "isbn"@, os(m.isbn));
    put_spec(v, "genre"@, first_of(m.genres@))
}

/// The values a file offers to a template: its metadata's fields, plus
/// `filename` and `ext`, which are always available.
pub open spec fn fields_for_path_spec<R>(path: Seq<char>, metadata: FileMetadata<R>) -> Map<
    Seq<char>,
    Seq<char>,
> {
    let v = match metadata {
        FileMetadata::Music(m) => music_fields_spec(m),
        FileMetadata::Video(m) => video_fields_spec(m),
        FileMetadata::Book(m) => book_fields_spec(m),
    };
    let v = put_spec(v, "filename"@, path_file_stem(path));
    put_spec(
        v,
        "ext"@,
        match path_extension(path) {
            Some(e) => Some(lowercase(e)),
            None => None,
        },
    )
}

/// Set `key` when `value` is present and not blank.
fn put(values: &mut FieldValues, key: &str, value: Option<String>)
    ensures
        final(values)@ == put_spec(old(values)@, key@, os(value)),
{
    if let Some(v) = value {
        let c = chars_of(v.as_str());
        let t = trimmed(c.as_slice());
        if t.len() > 0 {
            values.insert(string_from(chars_of(key).as_slice()), v);
        }
    }
}

fn opt_clone(o: &Option<String>) -> (r: Option<String>)
    ensures
        os(r) == os(*o),
{
    match o {
        Some(s) => Some(s.clone()),
        None => None,
    }
}

fn u32_text(o: Option<u32>) -> (r: Option<String>)
    ensures
        os(r) == ou(o),
{
    match o {
        Some(n) => Some(string_from(format_u64(n as u64).as_slice())),
        None => None,
    }
}

fn i32_text(o: Option<i32>) -> (r: Option<String>)
    ensures
        os(r) == oi(o),
{
    match o {
        Some(n) => Some(string_from(format_i64(n as i64).as_slice())),
        None => None,
    }
}

fn first_text(v: &Vec<String>) -> (r: Option<String>)
    ensures
        os(r) == first_of(v@),
{
    if v.len() > 0 {
        Some(v[0].clone())
    } else {
        None
    }
}

fn first_text_opt(v: &Option<Vec<String>>) -> (r: Option<String>)
    ensures
        os(r) == first_opt(*v),
{
    match v {
        Some(l) => first_text(l),
        None => None,
    }
}

pub fn music_fields(m: &TrackMetadata) -> (r: FieldValues)
    ensures
        r@ == music_fields_spec(*m),
{
    let mut v = FieldValues::new();
    put(&mut v, "title", opt_clone(&m.title));
    put(&mut v, "artist", opt_clone(&m.artist));
    let aa = match &m.album_artist {
        Some(a) => Some(a.clone()),
        None => opt_clone(&m.artist),
    };
    put(&mut v, "albumartist", aa);
    put(&mut v, "album", opt_clone(&m.album));
    put(&mut v, "track", u32_text(m.track_number));
    put(&mut v, "totaltracks", u32_text(m.total_tracks));
    put(&mut v, "disc", u32_text(m.disc_number));
    put(&mut v, "totaldiscs", u32_text(m.total_discs));
    put(&mut v, "year", i32_text(m.year));
    put(&mut v, "date", opt_clone(&m.date));
    put(&mut v, "isrc", opt_clone(&m.isrc));
    put(&mut v, "genre", first_text_opt(&m.genre));
    put(&mut v, "composer", first_text_opt(&m.composer));
    put(&mut v, "musicbrainzreleaseid", opt_clone(&m.musicbrainz_release_id));
    put(&mut v, "musicbrainztrackid", opt_clone(&m.musicbrainz_track_id));
    v
}

pub fn video_fields<R>(m: &VideoMetadata<R>) -> (r: FieldValues)
    ensures
        r@ == video_fields_spec(*m),
{
    let mut v = FieldValues::new();
    put(&mut v, "title", opt_clone(&m.title));
    put(&mut v, "episodetitle", opt_clone(&m.title));
    put(&mut v, "originaltitle", opt_clone(&m.original_title));
    put(&mut v, "year", i32_text(m.year));
    put(&mut v, "date", opt_clone(&m.release_date));
    put(&mut v, "aired", opt_clone(&m.aired));
    put(&mut v, "runtime", u32_text(m.runtime_minutes));
    put(&mut v, "certification", opt_clone(&m.certification));
    put(&mut v, "genre", first_text(&m.genres));
    put(&mut v, "studio", first_text(&m.studios));
    put(&mut v, "director", first_text(&m.directors));
    put(&mut v, "imdbid", opt_clone(&m.imdb_id));
    put(&mut v, "tmdbid", opt_clone(&m.tmdb_id));
    put(&mut v, "tvdbid", opt_clone(&m.tvdb_id));
    if m.kind == VideoKind::Episode {
        put(&mut v, "seriestitle", opt_clone(&m.show_title));
        put(&mut v, "season", u32_text(m.season));
        put(&mut v, "episode", u32_text(m.episode));
    } else {
        // Series templates address the show through {seriestitle}; keep
        // {title} pointing at the episode.
        put(&mut v, "seriestitle", opt_clone(&m.title));
    }
    v
}

pub fn book_fields(m: &BookMetadata) -> (r: FieldValues)
    ensures
        r@ == book_fields_spec(*m),
{
    let mut v = FieldValues::new();
    put(&mut v, "title", opt_clone(&m.title));
    put(&mut v, "series", opt_clone(&m.series));
    put(&mut v, "number", opt_clone(&m.number));
    put(&mut v, "volume", u32_text(m.volume));
    put(&mut v, "author", first_text(&m.authors));
    put(&mut v, "writer", first_text(&m.authors));
    put(&mut v, "publisher", opt_clone(&m.publisher));
    put(&mut v, "year", i32_text(m.year));
    put(&mut v, "language", opt_clone(&m.language));
    put(&mut v, "isbn", opt_clone(&m.isbn));
    put(&mut v, "genre", first_text(&m.genres));
    v
}

/// Collect the template values for one file from the metadata the reader
/// for its type produced.
///
/// Reading music tags from a video file yields nothing, which is what made
/// video renames collapse to their template's punctuation; the caller
/// therefore reads each file with the reader that matches its type.
pub fn fields_for_path<R>(path: &str, metadata: &FileMetadata<R>) -> (r: FieldValues)
    ensures
        r@ == fields_for_path_spec(path@, *metadata),
{
    let mut values = match metadata {
        FileMetadata::Music(m) => music_fields(m),
        FileMetadata::Video(m) => video_fields(m),
        FileMetadata::Book(m) => book_fields(m),
    };
    // Always available, regardless of what the metadata reader found.
    put(&mut values, "filename", file_stem(path));
    let ext = match extension(path) {
        Some(e) => Some(to_lowercase(e.as_str())),
        None => None,
    };
    put(&mut values, "ext", ext);
    values
}

/// Putting one key leaves every other key as it was.
proof fn lemma_put_other(v: Map<Seq<char>, Seq<char>>, k: Seq<char>, x: Option<Seq<char>>, q: Seq<char>)
    requires
        q != k,
    ensures
        put_spec(v, k, x).contains_key(q) == v.contains_key(q),
        v.contains_key(q) ==> put_spec(v, k, x)[q] == v[q],
{
}

/// A text value as the fields hold it: present and not blank.
pub open spec fn filled(o: Option<String>) -> bool {
    o matches Some(x) && trim(x@).len() > 0
}

/// The music fields take each value from the track's own field: title,
/// artist, album, date, ISRC and MusicBrainz ids from theirs, and the album
/// artist from the album artist or, when the track has none, from the
/// artist. A blank or absent value leaves its field out.
#[verifier::rlimit(80)]
pub proof fn law_music_fields_take_their_own_values(m: TrackMetadata)
    ensures
        ({
            let v = music_fields_spec(m);
            &&& filled(m.title) ==> v.contains_key("title"@) && v["title"@] == m.title->Some_0@
            &&& !filled(m.title) ==> !v.contains_key("title"@)
            &&& filled(m.artist) ==> v.contains_key("artist"@) && v["artist"@] == m.artist->Some_0@
            &&& !filled(m.artist) ==> !v.contains_key("artist"@)
            &&& filled(m.album) ==> v.contains_key("album"@) && v["album"@] == m.album->Some_0@
            &&& !filled(m.album) ==> !v.contains_key("album"@)
            &&& filled(m.date) ==> v.contains_key("date"@) && v["date"@] == m.date->Some_0@
            &&& !filled(m.date) ==> !v.contains_key("date"@)
            &&& filled(m.isrc) ==> v.contains_key("isrc"@) && v["isrc"@] == m.isrc->Some_0@
            &&& !filled(m.isrc) ==> !v.contains_key("isrc"@)
            &&& filled(m.musicbrainz_release_id) ==> v.contains_key("musicbrainzreleaseid"@) && v["musicbrainzreleaseid"@] == m.musicbrainz_release_id->Some_0@
            &&& !filled(m.musicbrainz_release_id) ==> !v.contains_key("musicbrainzreleaseid"@)
            &&& filled(m.musicbrainz_track_id) ==> v.contains_key("musicbrainztrackid"@) && v["musicbrainztrackid"@] == m.musicbrainz_track_id->Some_0@
            &&& !filled(m.musicbrainz_track_id) ==> !v.contains_key("musicbrainztrackid"@)
            &&& filled(m.album_artist) ==> v.contains_key("albumartist"@) && v["albumartist"@]
                == m.album_artist->Some_0@
            &&& (m.album_artist is None && filled(m.artist)) ==> v.contains_key("albumartist"@)
                && v["albumartist"@] == m.artist->Some_0@
            &&& (m.album_artist is Some && !filled(m.album_artist)) ==> !v.contains_key("albumartist"@)
            &&& (m.album_artist is None && !filled(m.artist)) ==> !v.contains_key("albumartist"@)
        }),
{
    reveal_strlit("title");
    reveal_strlit("artist");
    reveal_strlit("albumartist");
    reveal_strlit("album");
    reveal_strlit("track");
    reveal_strlit("totaltracks");
    reveal_strlit("disc");
    reveal_strlit("totaldiscs");
    reveal_strlit("year");
    reveal_strlit("date");
    reveal_strlit("isrc");
    reveal_strlit("genre");
    reveal_strlit("composer");
    reveal_strlit("musicbrainzreleaseid");
    reveal_strlit("musicbrainztrackid");
    let v0: Map<Seq<char>, Seq<char>> = Map::empty();
    let v1 = put_spec(v0, "title"@, os(m.title));
    let v2 = put_spec(v1, "artist"@, os(m.artist));
    let v3 = put_spec(v2, "albumartist"@, or_else(m.album_artist, m.artist));
    let v4 = put_spec(v3, "album"@, os(m.album));
    let v5 = put_spec(v4, "track"@, ou(m.track_number));
    let v6 = put_spec(v5, "totaltracks"@, ou(m.total_tracks));
    let v7 = put_spec(v6, "disc"@, ou(m.disc_number));
    let v8 = put_spec(v7, "totaldiscs"@, ou(m.total_discs));
    let v9 = put_spec(v8, "year"@, oi(m.year));
    let v10 = put_spec(v9, "date"@, os(m.date));
    let v11 = put_spec(v10, "isrc"@, os(m.isrc));
    let v12 = put_spec(v11, "genre"@, first_opt(m.genre));
    let v13 = put_spec(v12, "composer"@, first_opt(m.composer));
    let v14 = put_spec(v13, "musicbrainzreleaseid"@, os(m.musicbrainz_release_id));
    let v15 = put_spec(v14, "musicbrainztrackid"@, os(m.musicbrainz_track_id));
    assert(music_fields_spec(m) == v15);
    assert("artist"@.len() != "title"@.len());
    lemma_put_other(v0, "title"@, os(m.title), "artist"@);
    assert("album"@[0] != "title"@[0]);
    lemma_put_other(v0, "title"@, os(m.title), "album"@);
    assert("album"@.len() != "artist"@.len());
    lemma_put_other(v1, "artist"@, os(m.artist), "album"@);
    assert("album"@.len() != "albumartist"@.len());
    lemma_put_other(v2, "albumartist"@, or_else(m.album_artist, m.artist), "album"@);
    assert("date"@.len() != "title"@.len());
    lemma_put_other(v0, "title"@, os(m.title), "date"@);
    assert("date"@.len() != "artist"@.len());
    lemma_put_other(v1, "artist"@, os(m.artist), "date"@);
    assert("date"@.len() != "albumartist"@.len());
    lemma_put_other(v2, "albumartist"@, or_else(m.album_artist, m.artist), "date"@);
    assert("date"@.len() != "album"@.len());
    lemma_put_other(v3, "album"@, os(m.album), "date"@);
    assert("date"@.len() != "track"@.len());
    lemma_put_other(v4, "track"@, ou(m.track_number), "date"@);
    assert("date"@.len() != "totaltracks"@.len());
    lemma_put_other(v5, "totaltracks"@, ou(m.total_tracks), "date"@);
    assert("date"@[1] != "disc"@[1]);
    lemma_put_other(v6, "disc"@, ou(m.disc_number), "date"@);
    assert("date"@.len() != "totaldiscs"@.len());
    lemma_put_other(v7, "totaldiscs"@, ou(m.total_discs), "date"@);
    assert("date"@[0] != "year"@[0]);
    lemma_put_other(v8, "year"@, oi(m.year), "date"@);
    assert("isrc"@.len() != "title"@.len());
    lemma_put_other(v0, "title"@, os(m.title), "isrc"@);
    assert("isrc"@.len() != "artist"@.len());
    lemma_put_other(v1, "artist"@, os(m.artist), "isrc"@);
    assert("isrc"@.len() != "albumartist"@.len());
    lemma_put_other(v2, "albumartist"@, or_else(m.album_artist, m.artist), "isrc"@);
    assert("isrc"@.len() != "album"@.len());
    lemma_put_other(v3, "album"@, os(m.album), "isrc"@);
    assert("isrc"@.len() != "track"@.len());
    lemma_put_other(v4, "track"@, ou(m.track_number), "isrc"@);
    assert("isrc"@.len() != "totaltracks"@.len());
    lemma_put_other(v5, "totaltracks"@, ou(m.total_tracks), "isrc"@);
    assert("isrc"@[0] != "disc"@[0]);
    lemma_put_other(v6, "disc"@, ou(m.disc_number), "isrc"@);
    assert("isrc"@.len() != "totaldiscs"@.len());
    lemma_put_other(v7, "totaldiscs"@, ou(m.total_discs), "isrc"@);
    assert("isrc"@[0] != "year"@[0]);
    lemma_put_other(v8, "year"@, oi(m.year), "isrc"@);
    assert("isrc"@[0] != "date"@[0]);
    lemma_put_other(v9, "date"@, os(m.date), "isrc"@);
    assert("musicbrainzreleaseid"@.len() != "title"@.len());
    lemma_put_other(v0, "title"@, os(m.title), "musicbrainzreleaseid"@);
    assert("musicbrainzreleaseid"@.len() != "artist"@.len());
    lemma_put_other(v1, "artist"@, os(m.artist), "musicbrainzreleaseid"@);
    assert("musicbrainzreleaseid"@.len() != "albumartist"@.len());
    lemma_put_other(v2, "albumartist"@, or_else(m.album_artist, m.artist), "musicbrainzreleaseid"@);
    assert("musicbrainzreleaseid"@.len() != "album"@.len());
    lemma_put_other(v3, "album"@, os(m.album), "musicbrainzreleaseid"@);
    assert("musicbrainzreleaseid"@.len() != "track"@.len());
    lemma_put_other(v4, "track"@, ou(m.track_number), "musicbrainzreleaseid"@);
    assert("musicbrainzreleaseid"@.len() != "totaltracks"@.len());
    lemma_put_other(v5, "totaltracks"@, ou(m.total_tracks), "musicbrainzreleaseid"@);
    assert("musicbrainzreleaseid"@.len() != "disc"@.len());
    lemma_put_other(v6, "disc"@, ou(m.disc_number), "musicbrainzreleaseid"@);
    assert("musicbrainzreleaseid"@.len() != "totaldiscs"@.len());
    lemma_put_other(v7, "totaldiscs"@, ou(m.total_discs), "musicbrainzreleaseid"@);
    assert("musicbrainzreleaseid"@.len() != "year"@.len());
    lemma_put_other(v8, "year"@, oi(m.year), "musicbrainzreleaseid"@);
    assert("musicbrainzreleaseid"@.len() != "date"@.len());
    lemma_put_other(v9, "date"@, os(m.date), "musicbrainzreleaseid"@);
    assert("musicbrainzreleaseid"@.len() != "isrc"@.len());
    lemma_put_other(v10, "isrc"@, os(m.isrc), "musicbrainzreleaseid"@);
    assert("musicbrainzreleaseid"@.len() != "genre"@.len());
    lemma_put_other(v11, "genre"@, first_opt(m.genre), "musicbrainzreleaseid"@);
    assert("musicbrainzreleaseid"@.len() != "composer"@.len());
    lemma_put_other(v12, "composer"@, first_opt(m.composer), "musicbrainzreleaseid"@);
    assert("musicbrainztrackid"@.len() != "title"@.len());
    lemma_put_other(v0, "title"@, os(m.title), "musicbrainztrackid"@);
    assert("musicbrainztrackid"@.len() != "artist"@.len());
    lemma_put_other(v1, "artist"@, os(m.artist), "musicbrainztrackid"@);
    assert("musicbrainztrackid"@.len() != "albumartist"@.len());
    lemma_put_other(v2, "albumartist"@, or_else(m.album_artist, m.artist), "musicbrainztrackid"@);
    assert("musicbrainztrackid"@.len() != "album"@.len());
    lemma_put_other(v3, "album"@, os(m.album), "musicbrainztrackid"@);
    assert("musicbrainztrackid"@.len() != "track"@.len());
    lemma_put_other(v4, "track"@, ou(m.track_number), "musicbrainztrackid"@);
    assert("musicbrainztrackid"@.len() != "totaltracks"@.len());
    lemma_put_other(v5, "totaltracks"@, ou(m.total_tracks), "musicbrainztrackid"@);
    assert("musicbrainztrackid"@.len() != "disc"@.len());
    lemma_put_other(v6, "disc"@, ou(m.disc_number), "musicbrainztrackid"@);
    assert("musicbrainztrackid"@.len() != "totaldiscs"@.len());
    lemma_put_other(v7, "totaldiscs"@, ou(m.total_discs), "musicbrainztrackid"@);
    assert("musicbrainztrackid"@.len() != "year"@.len());
    lemma_put_other(v8, "year"@, oi(m.year), "musicbrainztrackid"@);
    assert("musicbrainztrackid"@.len() != "date"@.len());
    lemma_put_other(v9, "date"@, os(m.date), "musicbrainztrackid"@);
    assert("musicbrainztrackid"@.len() != "isrc"@.len());
    lemma_put_other(v10, "isrc"@, os(m.isrc), "musicbrainztrackid"@);
    assert("musicbrainztrackid"@.len() != "genre"@.len());
    lemma_put_other(v11, "genre"@, first_opt(m.genre), "musicbrainztrackid"@);
    assert("musicbrainztrackid"@.len() != "composer"@.len());
    lemma_put_other(v12, "composer"@, first_opt(m.composer), "musicbrainztrackid"@);
    assert("musicbrainztrackid"@.len() != "musicbrainzreleaseid"@.len());
    lemma_put_other(v13, "musicbrainzreleaseid"@, os(m.musicbrainz_release_id), "musicbrainztrackid"@);
    assert("albumartist"@.len() != "title"@.len());
    lemma_put_other(v0, "title"@, os(m.title), "albumartist"@);
    assert("albumartist"@.len() != "artist"@.len());
    lemma_put_other(v1, "artist"@, os(m.artist), "albumartist"@);
    assert("title"@.len() != "artist"@.len());
    lemma_put_other(v1, "artist"@, os(m.artist), "title"@);
    assert("title"@.len() != "albumartist"@.len());
    lemma_put_other(v2, "albumartist"@, or_else(m.album_artist, m.artist), "title"@);
    assert("title"@[0] != "album"@[0]);
    lemma_put_other(v3, "album"@, os(m.album), "title"@);
    assert("title"@[1] != "track"@[1]);
    lemma_put_other(v4, "track"@, ou(m.track_number), "title"@);
    assert("title"@.len() != "totaltracks"@.len());
    lemma_put_other(v5, "totaltracks"@, ou(m.total_tracks), "title"@);
    assert("title"@.len() != "disc"@.len());
    lemma_put_other(v6, "disc"@, ou(m.disc_number), "title"@);
    assert("title"@.len() != "totaldiscs"@.len());
    lemma_put_other(v7, "totaldiscs"@, ou(m.total_discs), "title"@);
    assert("title"@.len() != "year"@.len());
    lemma_put_other(v8, "year"@, oi(m.year), "title"@);
    assert("title"@.len() != "date"@.len());
    lemma_put_other(v9, "date"@, os(m.date), "title"@);
    assert("title"@.len() != "isrc"@.len());
    lemma_put_other(v10, "isrc"@, os(m.isrc), "title"@);
    assert("title"@[0] != "genre"@[0]);
    lemma_put_other(v11, "genre"@, first_opt(m.genre), "title"@);
    assert("title"@.len() != "composer"@.len());
    lemma_put_other(v12, "composer"@, first_opt(m.composer), "title"@);
    assert("title"@.len() != "musicbrainzreleaseid"@.len());
    lemma_put_other(v13, "musicbrainzreleaseid"@, os(m.musicbrainz_release_id), "title"@);
    assert("title"@.len() != "musicbrainztrackid"@.len());
    lemma_put_other(v14, "musicbrainztrackid"@, os(m.musicbrainz_track_id), "title"@);
    assert("artist"@.len() != "albumartist"@.len());
    lemma_put_other(v2, "albumartist"@, or_else(m.album_artist, m.artist), "artist"@);
    assert("artist"@.len() != "album"@.len());
    lemma_put_other(v3, "album"@, os(m.album), "artist"@);
    assert("artist"@.len() != "track"@.len());
    lemma_put_other(v4, "track"@, ou(m.track_number), "artist"@);
    assert("artist"@.len() != "totaltracks"@.len());
    lemma_put_other(v5, "totaltracks"@, ou(m.total_tracks), "artist"@);
    assert("artist"@.len() != "disc"@.len());
    lemma_put_other(v6, "disc"@, ou(m.disc_number), "artist"@);
    assert("artist"@.len() != "totaldiscs"@.len());
    lemma_put_other(v7, "totaldiscs"@, ou(m.total_discs), "artist"@);
    assert("artist"@.len() != "year"@.len());
    lemma_put_other(v8, "year"@, oi(m.year), "artist"@);
    assert("artist"@.len() != "date"@.len());
    lemma_put_other(v9, "date"@, os(m.date), "artist"@);
    assert("artist"@.len() != "isrc"@.len());
    lemma_put_other(v10, "isrc"@, os(m.isrc), "artist"@);
    assert("artist"@.len() != "genre"@.len());
    lemma_put_other(v11, "genre"@, first_opt(m.genre), "artist"@);
    assert("artist"@.len() != "composer"@.len());
    lemma_put_other(v12, "composer"@, first_opt(m.composer), "artist"@);
    assert("artist"@.len() != "musicbrainzreleaseid"@.len());
    lemma_put_other(v13, "musicbrainzreleaseid"@, os(m.musicbrainz_release_id), "artist"@);
    assert("artist"@.len() != "musicbrainztrackid"@.len());
    lemma_put_other(v14, "musicbrainztrackid"@, os(m.musicbrainz_track_id), "artist"@);
    assert("album"@[0] != "track"@[0]);
    lemma_put_other(v4, "track"@, ou(m.track_number), "album"@);
    assert("album"@.len() != "totaltracks"@.len());
    lemma_put_other(v5, "totaltracks"@, ou(m.total_tracks), "album"@);
    assert("album"@.len() != "disc"@.len());
    lemma_put_other(v6, "disc"@, ou(m.disc_number), "album"@);
    assert("album"@.len() != "totaldiscs"@.len());
    lemma_put_other(v7, "totaldiscs"@, ou(m.total_discs), "album"@);
    assert("album"@.len() != "year"@.len());
    lemma_put_other(v8, "year"@, oi(m.year), "album"@);
    assert("album"@.len() != "date"@.len());
    lemma_put_other(v9, "date"@, os(m.date), "album"@);
    assert("album"@.len() != "isrc"@.len());
    lemma_put_other(v10, "isrc"@, os(m.isrc), "album"@);
    assert("album"@[0] != "genre"@[0]);
    lemma_put_other(v11, "genre"@, first_opt(m.genre), "album"@);
    assert("album"@.len() != "composer"@.len());
    lemma_put_other(v12, "composer"@, first_opt(m.composer), "album"@);
    assert("album"@.len() != "musicbrainzreleaseid"@.len());
    lemma_put_other(v13, "musicbrainzreleaseid"@, os(m.musicbrainz_release_id), "album"@);
    assert("album"@.len() != "musicbrainztrackid"@.len());
    lemma_put_other(v14, "musicbrainztrackid"@, os(m.musicbrainz_track_id), "album"@);
    assert("date"@[0] != "isrc"@[0]);
    lemma_put_other(v10, "isrc"@, os(m.isrc), "date"@);
    assert("date"@.len() != "genre"@.len());
    lemma_put_other(v11, "genre"@, first_opt(m.genre), "date"@);
    assert("date"@.len() != "composer"@.len());
    lemma_put_other(v12, "composer"@, first_opt(m.composer), "date"@);
    assert("date"@.len() != "musicbrainzreleaseid"@.len());
    lemma_put_other(v13, "musicbrainzreleaseid"@, os(m.musicbrainz_release_id), "date"@);
    assert("date"@.len() != "musicbrainztrackid"@.len());
    lemma_put_other(v14, "musicbrainztrackid"@, os(m.musicbrainz_track_id), "date"@);
    assert("isrc"@.len() != "genre"@.len());
    lemma_put_other(v11, "genre"@, first_opt(m.genre), "isrc"@);
    assert("isrc"@.len() != "composer"@.len());
    lemma_put_other(v12, "composer"@, first_opt(m.composer), "isrc"@);
    assert("isrc"@.len() != "musicbrainzreleaseid"@.len());
    lemma_put_other(v13, "musicbrainzreleaseid"@, os(m.musicbrainz_release_id), "isrc"@);
    assert("isrc"@.len() != "musicbrainztrackid"@.len());
    lemma_put_other(v14, "musicbrainztrackid"@, os(m.musicbrainz_track_id), "isrc"@);
    assert("musicbrainzreleaseid"@.len() != "musicbrainztrackid"@.len());
    lemma_put_other(v14, "musicbrainztrackid"@, os(m.musicbrainz_track_id), "musicbrainzreleaseid"@);
    assert("albumartist"@.len() != "album"@.len());
    lemma_put_other(v3, "album"@, os(m.album), "albumartist"@);
    assert("albumartist"@.len() != "track"@.len());
    lemma_put_other(v4, "track"@, ou(m.track_number), "albumartist"@);
    assert("albumartist"@[0] != "totaltracks"@[0]);
    lemma_put_other(v5, "totaltracks"@, ou(m.total_tracks), "albumartist"@);
    assert("albumartist"@.len() != "disc"@.len());
    lemma_put_other(v6, "disc"@, ou(m.disc_number), "albumartist"@);
    assert("albumartist"@.len() != "totaldiscs"@.len());
    lemma_put_other(v7, "totaldiscs"@, ou(m.total_discs), "albumartist"@);
    assert("albumartist"@.len() != "year"@.len());
    lemma_put_other(v8, "year"@, oi(m.year), "albumartist"@);
    assert("albumartist"@.len() != "date"@.len());
    lemma_put_other(v9, "date"@, os(m.date), "albumartist"@);
    assert("albumartist"@.len() != "isrc"@.len());
    lemma_put_other(v10, "isrc"@, os(m.isrc), "albumartist"@);
    assert("albumartist"@.len() != "genre"@.len());
    lemma_put_other(v11, "genre"@, first_opt(m.genre), "albumartist"@);
    assert("albumartist"@.len() != "composer"@.len());
    lemma_put_other(v12, "composer"@, first_opt(m.composer), "albumartist"@);
    assert("albumartist"@.len() != "musicbrainzreleaseid"@.len());
    lemma_put_other(v13, "musicbrainzreleaseid"@, os(m.musicbrainz_release_id), "albumartist"@);
    assert("albumartist"@.len() != "musicbrainztrackid"@.len());
    lemma_put_other(v14, "musicbrainztrackid"@, os(m.musicbrainz_track_id), "albumartist"@);
}

} // verus!
