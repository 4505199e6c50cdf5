//! Track metadata read from a file's tag.
//!
//! The tag is what the application reads from the file's primary tag (or
//! its first): the values of the standard fields as the tag library gives
//! them, and every item with its key's name and its text.
use std::collections::HashMap;

use vstd::prelude::*;

use crate::models::book::{opt_str, strs};
use crate::models::track::TrackMetadata;
use crate::text::{chars_of, is_ws, join, lemma_trim_len, str_eq, string_from, trim, trimmed};

verus! {

/// One item of a tag: its key's name (`Debug` form of the key) and its
/// text, when the value is text.
#[derive(Debug, Clone)]
pub struct TagItemText {
    pub key: String,
    pub text: Option<String>,
}

/// What a tag holds, as plain values.
#[derive(Debug, Clone)]
pub struct TagSnapshot {
    pub title: Option<String>,
    pub artist: Option<String>,
    pub album: Option<String>,
    pub genre: Option<String>,
    pub comment: Option<String>,
    pub track_number: Option<u32>,
    pub total_tracks: Option<u32>,
    pub disc_number: Option<u32>,
    pub total_discs: Option<u32>,
    pub year: Option<i32>,
    pub album_artist: Option<String>,
    pub date: Option<String>,
    pub lyrics: Option<String>,
    pub isrc: Option<String>,
    pub musicbrainz_track_id: Option<String>,
    pub musicbrainz_release_id: Option<String>,
    pub musicbrainz_artist_id: Option<String>,
    pub musicbrainz_release_group_id: Option<String>,
    /// Every composer item, in order.
    pub composers: Vec<String>,
    pub items: Vec<TagItemText>,
}

/// The keys that have a field of their own in `TrackMetadata`.
pub open spec fn standard_key_names() -> Seq<Seq<char>> {
    seq![
        "TrackTitle"@,
        "TrackArtist"@,
        "AlbumArtist"@,
        "AlbumTitle"@,
        "TrackNumber"@,
        "TrackTotal"@,
        "DiscNumber"@,
        "DiscTotal"@,
        "Year"@,
        "RecordingDate"@,
        "Genre"@,
        "Composer"@,
        "Comment"@,
        "Lyrics"@,
        "Isrc"@,
        "MusicBrainzRecordingId"@,
        "MusicBrainzReleaseId"@,
        "MusicBrainzArtistId"@,
        "MusicBrainzReleaseGroupId"@,
    ]
}

/// Whether a key has a field of its own, so that it is no custom tag.
pub fn is_standard_key(key: &str) -> (r: bool)
    ensures
        r == standard_key_names().contains(key@),
{
    let names = [
        "TrackTitle",
        "TrackArtist",
        "AlbumArtist",
        "AlbumTitle",
        "TrackNumber",
        "TrackTotal",
        "DiscNumber",
        "DiscTotal",
        "Year",
        "RecordingDate",
        "Genre",
        "Composer",
        "Comment",
        "Lyrics",
        "Isrc",
        "MusicBrainzRecordingId",
        "MusicBrainzReleaseId",
        "MusicBrainzArtistId",
        "MusicBrainzReleaseGroupId",
    ];
    let ghost want = standard_key_names();
    assert(names@.len() == want.len());
    assert forall|i: int| 0 <= i < 19 implies #[trigger] names@[i]@ == want[i] by {}
    let mut k: usize = 0;
    while k < 19
        invariant
            0 <= k <= 19,
            names@.len() == 19,
            want == standard_key_names(),
            forall|i: int| 0 <= i < 19 ==> #[trigger] names@[i]@ == want[i],
            forall|i: int| 0 <= i < k ==> want[i] != key@,
        decreases 19 - k,
    {
        if str_eq(key, names[k]) {
            assert(want[k as int] == key@);
            return true;
        }
        k = k + 1;
    }
    assert(!want.contains(key@));
    false
}

/// A separator of genres in one value.
pub open spec fn genre_sep(c: char) -> bool {
    c == ';' || c == ',' || c == '/'
}

/// The genres of `s` from here on, given the genre read so far: pieces
/// between separators, trimmed, without empty ones.
pub open spec fn genres_from(s: Seq<char>, cur: Seq<char>) -> Seq<Seq<char>>
    decreases s.len(),
{
    if s.len() == 0 {
        keep_genre(cur)
    } else if genre_sep(s[0]) {
        keep_genre(cur) + genres_from(s.drop_first(), Seq::empty())
    } else {
        genres_from(s.drop_first(), cur.push(s[0]))
    }
}

pub open spec fn keep_genre(cur: Seq<char>) -> Seq<Seq<char>> {
    if trim(cur).len() > 0 {
        seq![trim(cur)]
    } else {
        Seq::empty()
    }
}

/// A genre value split on `;`, `,` and `/`, each genre trimmed, empty ones
/// dropped.
pub open spec fn split_genres_spec(s: Seq<char>) -> Seq<Seq<char>> {
    genres_from(s, Seq::empty())
}

pub fn split_genres(value: &str) -> (r: Vec<String>)
    ensures
        strs(r@) == split_genres_spec(value@),
{
    let c = chars_of(value);
    let mut out: Vec<String> = Vec::new();
    let mut cur: Vec<char> = Vec::new();
    let mut i: usize = 0;
    assert(c@.subrange(0, c@.len() as int) =~= c@);
    while i < c.len()
        invariant
            0 <= i <= c@.len(),
            c@ == value@,
            strs(out@) + genres_from(c@.subrange(i as int, c@.len() as int), cur@) == split_genres_spec(value@),
        decreases c@.len() - i,
    {
        let ghost rest = c@.subrange(i as int, c@.len() as int);
        assert(rest.drop_first() =~= c@.subrange(i + 1, c@.len() as int));
        let x = c[i];
        if x == ';' || x == ',' || x == '/' {
            let t = trimmed(cur.as_slice());
            let ghost before = strs(out@);
            if t.len() > 0 {
                out.push(string_from(t.as_slice()));
                assert(strs(out@) =~= before + seq![t@]);
            } else {
                assert(keep_genre(cur@) =~= Seq::<Seq<char>>::empty());
            }
            cur = Vec::new();
        } else {
            cur.push(x);
        }
        i = i + 1;
    }
    let t = trimmed(cur.as_slice());
    let ghost before = strs(out@);
    if t.len() > 0 {
        out.push(string_from(t.as_slice()));
        assert(strs(out@) =~= before + seq![t@]);
    } else {
        assert(before + Seq::<Seq<char>>::empty() =~= before);
    }
    out
}

/// The texts of the items with key `k`, in order.
pub open spec fn texts_of(items: Seq<(Seq<char>, Option<Seq<char>>)>, k: Seq<char>) -> Seq<Seq<char>>
    decreases items.len(),
{
    if items.len() == 0 {
        Seq::empty()
    } else {
        let r = texts_of(items.drop_last(), k);
        if items.last().0 == k && items.last().1 is Some {
            r.push(items.last().1->0)
        } else {
            r
        }
    }
}

/// The keys of the custom items (not standard, with text), each once, in
/// the order they first come.
pub open spec fn custom_keys(items: Seq<(Seq<char>, Option<Seq<char>>)>) -> Seq<Seq<char>>
    decreases items.len(),
{
    if items.len() == 0 {
        Seq::empty()
    } else {
        let r = custom_keys(items.drop_last());
        let (k, t) = items.last();
        if !standard_key_names().contains(k) && t is Some && !r.contains(k) {
            r.push(k)
        } else {
            r
        }
    }
}

/// The custom tags of a tag: each custom key with its texts, in order.
pub open spec fn custom_tags_spec(items: Seq<(Seq<char>, Option<Seq<char>>)>) -> Seq<(Seq<char>, Seq<Seq<char>>)> {
    let ks = custom_keys(items);
    Seq::new(ks.len(), |i: int| (ks[i], texts_of(items, ks[i])))
}

pub open spec fn items_view(v: Seq<TagItemText>) -> Seq<(Seq<char>, Option<Seq<char>>)> {
    Seq::new(v.len(), |i: int| (v[i].key@, opt_str(v[i].text)))
}

pub open spec fn groups_view(v: Seq<(String, Vec<String>)>) -> Seq<(Seq<char>, Seq<Seq<char>>)> {
    Seq::new(v.len(), |i: int| (v[i].0@, strs(v[i].1@)))
}

proof fn lemma_texts_push(items: Seq<(Seq<char>, Option<Seq<char>>)>, k: Seq<char>, n: int)
    requires
        0 <= n < items.len(),
    ensures
        texts_of(items.subrange(0, n + 1), k) == if items[n].0 == k && items[n].1 is Some {
            texts_of(items.subrange(0, n), k).push(items[n].1->0)
        } else {
            texts_of(items.subrange(0, n), k)
        },
{
    assert(items.subrange(0, n + 1).drop_last() =~= items.subrange(0, n));
}

/// The custom tags of a tag: every item whose key is not standard and whose
/// value is text, grouped by key in the order the keys first come.
pub fn custom_tags(items: &Vec<TagItemText>) -> (r: Vec<(String, Vec<String>)>)
    ensures
        groups_view(r@) == custom_tags_spec(items_view(items@)),
{
    let ghost iv = items_view(items@);
    let mut out: Vec<(String, Vec<String>)> = Vec::new();
    let mut n: usize = 0;
    while n < items.len()
        invariant
            0 <= n <= items@.len(),
            iv == items_view(items@),
            groups_view(out@) == custom_tags_spec(iv.subrange(0, n as int)),
        decreases items@.len() - n,
    {
        let ghost pre = iv.subrange(0, n as int);
        let ghost post = iv.subrange(0, n + 1);
        proof {
            assert(post.drop_last() =~= pre);
            assert(post.last() == iv[n as int]);
            assert forall|k: Seq<char>| #[trigger] texts_of(post, k) == (if iv[n as int].0 == k && iv[n as int].1 is Some {
                texts_of(pre, k).push(iv[n as int].1->0)
            } else {
                texts_of(pre, k)
            }) by {
                lemma_texts_push(iv, k, n as int);
            }
        }
        let item = &items[n];
        let ghost before = groups_view(out@);
        let ghost ks = custom_keys(pre);
        proof {
            lemma_custom_keys_distinct(pre);
        }
        match &item.text {
            None => {
                assert(custom_keys(post) == ks);
                assert forall|x: int| 0 <= x < ks.len() implies texts_of(post, #[trigger] ks[x]) == texts_of(pre, ks[x]) by {}
                assert(groups_view(out@) =~= custom_tags_spec(post));
            },
            Some(t) => {
                if is_standard_key(item.key.as_str()) {
                    assert(custom_keys(post) == ks);
                    assert forall|x: int| 0 <= x < ks.len() implies texts_of(post, #[trigger] ks[x]) == texts_of(pre, ks[x]) by {
                        assert(!standard_key_names().contains(ks[x]));
                    }
                    assert(groups_view(out@) =~= custom_tags_spec(post));
                } else {
                    assert(before.len() == ks.len());
                    assert forall|x: int| 0 <= x < ks.len() implies (#[trigger] before[x]).0 == ks[x] by {}
                    let mut g: usize = 0;
                    while g < out.len() && !str_eq(out[g].0.as_str(), item.key.as_str())
                        invariant
                            0 <= g <= out@.len(),
                            before == groups_view(out@),
                            before == custom_tags_spec(pre),
                            ks == custom_keys(pre),
                            before.len() == ks.len(),
                            forall|x: int| 0 <= x < ks.len() ==> (#[trigger] before[x]).0 == ks[x],
                            forall|x: int| 0 <= x < g ==> ks[x] != item.key@,
                        decreases out@.len() - g,
                    {
                        assert(before[g as int].0 == out@[g as int].0@);
                        assert(before[g as int].0 == ks[g as int]);
                        g = g + 1;
                    }
                    if g < out.len() {
                        assert(before[g as int].0 == out@[g as int].0@);
                    }
                    if g < out.len() {
                        assert(ks[g as int] == item.key@);
                        let ghost ov = out@;
                        let mut entry = out.remove(g);
                        let ghost e0 = entry;
                        let tc = t.clone();
                        entry.1.push(tc);
                        out.insert(g, entry);
                        proof {
                            assert(e0 == ov[g as int]);
                            assert(strs(entry.1@) =~= strs(e0.1@).push(t@));
                            assert(ks.contains(item.key@));
                            assert(custom_keys(post) == ks);
                            assert forall|x: int| 0 <= x < ks.len() && x != g implies ks[x] != item.key@ by {
                                lemma_custom_keys_distinct(pre);
                            }
                            let want = custom_tags_spec(post);
                            assert(out@ =~= ov.update(g as int, entry));
                            assert forall|x: int| 0 <= x < ks.len() implies #[trigger] groups_view(out@)[x] == want[x] by {
                                assert(before[x] == (ks[x], texts_of(pre, ks[x])));
                                assert(groups_view(ov)[x] == before[x]);
                                if x == g {
                                    assert(out@[x] == entry);
                                    assert(groups_view(out@)[x] == (entry.0@, strs(entry.1@)));
                                    assert(texts_of(post, ks[x]) == texts_of(pre, ks[x]).push(t@));
                                } else {
                                    assert(out@[x] == ov[x]);
                                    assert(texts_of(post, ks[x]) == texts_of(pre, ks[x]));
                                }
                            }
                            assert(groups_view(out@) =~= custom_tags_spec(post));
                        }
                    } else {
                        assert(!ks.contains(item.key@));
                        let mut texts: Vec<String> = Vec::new();
                        texts.push(t.clone());
                        let ghost ov = out@;
                        out.push((item.key.clone(), texts));
                        proof {
                            assert(custom_keys(post) == ks.push(item.key@));
                            lemma_custom_keys_texts_absent(pre, item.key@);
                            assert(strs(texts@) =~= seq![t@]);
                            let want = custom_tags_spec(post);
                            assert forall|x: int| 0 <= x <= ks.len() implies #[trigger] groups_view(out@)[x] == want[x] by {
                                if x < ks.len() {
                                    assert(out@[x] == ov[x]);
                                    assert(before[x] == (ks[x], texts_of(pre, ks[x])));
                                    assert(groups_view(ov)[x] == before[x]);
                                    assert(ks[x] != item.key@);
                                    assert(texts_of(post, ks[x]) == texts_of(pre, ks[x]));
                                } else {
                                    assert(texts_of(post, item.key@) == texts_of(pre, item.key@).push(t@));
                                    assert(texts_of(post, item.key@) =~= seq![t@]);
                                }
                            }
                            assert(groups_view(out@) =~= custom_tags_spec(post));
                        }
                    }
                }
            },
        }
        n = n + 1;
    }
    assert(iv.subrange(0, n as int) =~= iv);
    out
}

proof fn lemma_custom_keys_distinct(items: Seq<(Seq<char>, Option<Seq<char>>)>)
    ensures
        forall|a: int, b: int| 0 <= a < b < custom_keys(items).len() ==> custom_keys(items)[a] != custom_keys(items)[b],
        forall|a: int| 0 <= a < custom_keys(items).len() ==> !standard_key_names().contains(#[trigger] custom_keys(items)[a]),
    decreases items.len(),
{
    if items.len() > 0 {
        let r = custom_keys(items.drop_last());
        lemma_custom_keys_distinct(items.drop_last());
        let c = custom_keys(items);
        assert forall|a: int, b: int| 0 <= a < b < c.len() implies c[a] != c[b] by {
            if b == r.len() {
                assert(c[a] == r[a]);
                assert(!r.contains(c[b]));
            }
        }
        assert forall|a: int| 0 <= a < c.len() implies !standard_key_names().contains(#[trigger] c[a]) by {
            if a < r.len() {
                assert(c[a] == r[a]);
            }
        }
    }
}

/// A key that is not yet among the custom keys has no texts: it only ever
/// came with no text, or is standard.
proof fn lemma_custom_keys_texts_absent(items: Seq<(Seq<char>, Option<Seq<char>>)>, k: Seq<char>)
    requires
        !custom_keys(items).contains(k),
        !standard_key_names().contains(k),
    ensures
        texts_of(items, k) == Seq::<Seq<char>>::empty(),
    decreases items.len(),
{
    if items.len() > 0 {
        let r = custom_keys(items.drop_last());
        if r.contains(k) {
            let w = choose|w: int| 0 <= w < r.len() && r[w] == k;
            assert(custom_keys(items)[w] == k);
        }
        lemma_custom_keys_texts_absent(items.drop_last(), k);
        if items.last().0 == k && items.last().1 is Some {
            assert(custom_keys(items).last() == k);
            assert(custom_keys(items).contains(k));
        }
    }
}

fn clone_opt(o: &Option<String>) -> (r: Option<String>)
    ensures
        opt_str(r) == opt_str(*o),
{
    match o {
        Some(s) => Some(s.clone()),
        None => None,
    }
}

fn clone_all(v: &Vec<String>) -> (r: Vec<String>)
    ensures
        strs(r@) == strs(v@),
{
    let mut out: Vec<String> = Vec::new();
    let mut k: usize = 0;
    while k < v.len()
        invariant
            0 <= k <= v@.len(),
            strs(out@) == strs(v@).subrange(0, k as int),
        decreases v@.len() - k,
    {
        let ghost before = out@;
        let c = v[k].clone();
        out.push(c);
        assert(out@ == before.push(c));
        assert(c@ == v@[k as int]@);
        assert(strs(out@) =~= strs(before).push(c@));
        assert(strs(v@).subrange(0, k + 1) =~= strs(v@).subrange(0, k as int).push(v@[k as int]@));
        assert(strs(out@) =~= strs(v@).subrange(0, k + 1));
        k = k + 1;
    }
    assert(strs(v@).subrange(0, k as int) =~= strs(v@));
    out
}

pub open spec fn opt_list(o: Option<Vec<String>>) -> Option<Seq<Seq<char>>> {
    match o {
        Some(v) => Some(strs(v@)),
        None => None,
    }
}

/// The track metadata a tag holds: each standard field as read; the genre
/// split into genres; the composers, when there are any; every other item
/// with text as a custom tag under its key's name. A file without a tag has
/// none of them.
pub fn track_from_tag(tag: Option<TagSnapshot>) -> (r: TrackMetadata)
    ensures
        match tag {
            None => r.title is None && r.artist is None && r.album_artist is None && r.album is None
                && r.track_number is None && r.total_tracks is None && r.disc_number is None
                && r.total_discs is None && r.year is None && r.date is None && r.genre is None
                && r.composer is None && r.comment is None && r.lyrics is None && r.isrc is None
                && r.musicbrainz_track_id is None && r.musicbrainz_release_id is None
                && r.musicbrainz_artist_id is None && r.musicbrainz_release_group_id is None,
            Some(t) => {
                &&& opt_str(r.title) == opt_str(t.title)
                &&& opt_str(r.artist) == opt_str(t.artist)
                &&& opt_str(r.album_artist) == opt_str(t.album_artist)
                &&& opt_str(r.album) == opt_str(t.album)
                &&& r.track_number == t.track_number
                &&& r.total_tracks == t.total_tracks
                &&& r.disc_number == t.disc_number
                &&& r.total_discs == t.total_discs
                &&& r.year == t.year
                &&& opt_str(r.date) == opt_str(t.date)
                &&& opt_list(r.genre) == match t.genre {
                    Some(g) => Some(split_genres_spec(g@)),
                    None => None,
                }
                &&& opt_list(r.composer) == if t.composers@.len() == 0 {
                    None
                } else {
                    Some(strs(t.composers@))
                }
                &&& opt_str(r.comment) == opt_str(t.comment)
                &&& opt_str(r.lyrics) == opt_str(t.lyrics)
                &&& opt_str(r.isrc) == opt_str(t.isrc)
                &&& opt_str(r.musicbrainz_track_id) == opt_str(t.musicbrainz_track_id)
                &&& opt_str(r.musicbrainz_release_id) == opt_str(t.musicbrainz_release_id)
                &&& opt_str(r.musicbrainz_artist_id) == opt_str(t.musicbrainz_artist_id)
                &&& opt_str(r.musicbrainz_release_group_id) == opt_str(t.musicbrainz_release_group_id)
            },
        },
{
    let t = match tag {
        None => {
            return TrackMetadata::default();
        },
        Some(t) => t,
    };
    let genre = match &t.genre {
        Some(g) => Some(split_genres(g.as_str())),
        None => None,
    };
    let composer = if t.composers.len() == 0 {
        None
    } else {
        Some(clone_all(&t.composers))
    };
    // Keys with no field of their own; the map is keyed by strings, whose
    // hashing the verifier does not model, so only the groups are specified.
    let groups = custom_tags(&t.items);
    let mut custom: HashMap<String, Vec<String>> = HashMap::new();
    let mut rest = groups;
    while rest.len() > 0
        decreases rest@.len(),
    {
        let (k, v) = rest.remove(0);
        custom.insert(k, v);
    }
    TrackMetadata {
        title: clone_opt(&t.title),
        artist: clone_opt(&t.artist),
        album_artist: clone_opt(&t.album_artist),
        album: clone_opt(&t.album),
        track_number: t.track_number,
        total_tracks: t.total_tracks,
        disc_number: t.disc_number,
        total_discs: t.total_discs,
        year: t.year,
        date: clone_opt(&t.date),
        genre,
        composer,
        comment: clone_opt(&t.comment),
        lyrics: clone_opt(&t.lyrics),
        isrc: clone_opt(&t.isrc),
        musicbrainz_track_id: clone_opt(&t.musicbrainz_track_id),
        musicbrainz_release_id: clone_opt(&t.musicbrainz_release_id),
        musicbrainz_artist_id: clone_opt(&t.musicbrainz_artist_id),
        musicbrainz_release_group_id: clone_opt(&t.musicbrainz_release_group_id),
        custom_tags: custom,
    }
}

/// A genre as it reads back alone: not empty, trimmed, and free of
/// separators.
pub open spec fn plain_genre(g: Seq<char>) -> bool {
    g.len() > 0 && trim(g) == g && forall|i: int| 0 <= i < g.len() ==> !genre_sep(#[trigger] g[i])
}

proof fn lemma_genres_no_sep(a: Seq<char>, cur: Seq<char>)
    requires
        forall|i: int| 0 <= i < a.len() ==> !genre_sep(#[trigger] a[i]),
    ensures
        genres_from(a, cur) == keep_genre(cur + a),
    decreases a.len(),
{
    if a.len() == 0 {
        assert(cur + a =~= cur);
    } else {
        lemma_genres_no_sep(a.drop_first(), cur.push(a[0]));
        assert(cur.push(a[0]) + a.drop_first() =~= cur + a);
    }
}

proof fn lemma_genres_split_at(x: Seq<char>, y: Seq<char>, cur: Seq<char>)
    ensures
        genres_from(x + seq![';'] + y, cur) == genres_from(x, cur) + genres_from(y, Seq::empty()),
    decreases x.len(),
{
    let s = x + seq![';'] + y;
    if x.len() == 0 {
        assert(s =~= seq![';'] + y);
        assert(s.drop_first() =~= y);
    } else {
        assert(s[0] == x[0]);
        assert(s.drop_first() =~= x.drop_first() + seq![';'] + y);
        if genre_sep(x[0]) {
            lemma_genres_split_at(x.drop_first(), y, Seq::empty());
        } else {
            lemma_genres_split_at(x.drop_first(), y, cur.push(x[0]));
        }
    }
}

proof fn lemma_trim_leading_space(g: Seq<char>)
    ensures
        trim(seq![' '] + g) == trim(g),
{
    let s = seq![' '] + g;
    assert(s.len() > 0 && is_ws(s[0]));
    assert(s.drop_first() =~= g);
}

/// Genres joined with `"; "` split back into the same genres, when each is
/// plain.
pub proof fn law_joined_genres_split_back(gs: Seq<Seq<char>>)
    requires
        forall|i: int| 0 <= i < gs.len() ==> plain_genre(#[trigger] gs[i]),
    ensures
        split_genres_spec(join(gs, "; "@)) == gs,
    decreases gs.len(),
{
    reveal_strlit("; ");
    if gs.len() == 0 {
        assert(keep_genre(Seq::empty()) =~= Seq::<Seq<char>>::empty()) by {
            assert(trim(Seq::<char>::empty()).len() == 0) by {
                lemma_trim_len(Seq::<char>::empty());
            }
        }
    } else if gs.len() == 1 {
        let g = gs[0];
        assert(plain_genre(g));
        lemma_genres_no_sep(g, Seq::empty());
        assert(Seq::<char>::empty() + g =~= g);
        assert(seq![g] =~= gs);
    } else {
        let ds = gs.drop_last();
        let g = gs.last();
        assert(plain_genre(gs[gs.len() - 1]));
        assert forall|i: int| 0 <= i < ds.len() implies plain_genre(#[trigger] ds[i]) by {
            assert(ds[i] == gs[i]);
        }
        law_joined_genres_split_back(ds);
        let x = join(ds, "; "@);
        let y = seq![' '] + g;
        assert(join(gs, "; "@) =~= x + seq![';'] + y);
        lemma_genres_split_at(x, y, Seq::empty());
        assert forall|i: int| 0 <= i < y.len() implies !genre_sep(#[trigger] y[i]) by {
            if i > 0 {
                assert(y[i] == g[i - 1]);
            }
        }
        lemma_genres_no_sep(y, Seq::empty());
        assert(Seq::<char>::empty() + y =~= y);
        lemma_trim_leading_space(g);
        assert(ds + seq![g] =~= gs);
    }
}

/// An audio file's stream properties as read from its container: values
/// the container does not give are 0 (bit depth stays unknown), and the
/// format is the file's extension in upper case (`UNKNOWN` without one).
pub fn audio_properties(
    path: &str,
    duration_ms: u64,
    bitrate_kbps: Option<u32>,
    sample_rate_hz: Option<u32>,
    channels: Option<u8>,
    bits_per_sample: Option<u8>,
) -> (r: crate::models::track::AudioProperties)
    ensures
        r.duration_ms == duration_ms,
        r.bitrate_kbps == (match bitrate_kbps {
            Some(b) => b,
            None => 0,
        }),
        r.sample_rate_hz == (match sample_rate_hz {
            Some(s) => s,
            None => 0,
        }),
        r.channels == (match channels {
            Some(c) => c,
            None => 0,
        }),
        r.bits_per_sample == bits_per_sample,
        r.format@ == crate::metadata::book::container_name_spec(path@),
{
    crate::models::track::AudioProperties {
        duration_ms: duration_ms,
        bitrate_kbps: match bitrate_kbps {
            Some(b) => b,
            None => 0,
        },
        sample_rate_hz: match sample_rate_hz {
            Some(s) => s,
            None => 0,
        },
        channels: match channels {
            Some(c) => c,
            None => 0,
        },
        bits_per_sample: bits_per_sample,
        format: crate::metadata::book::container_name(path),
    }
}

} // verus!
