//! MusicBrainz: the search and lookup requests, and releases as album and
//! track records.
use std::collections::HashMap;

use vstd::prelude::*;
use vstd::utf8::encode_utf8;

use crate::chapters::vorbis::{index_of, index_of_exec};
use crate::models::album::AlbumMetadata;
use crate::models::artist::ArtistMetadata;
use crate::models::book::opt_str;
use crate::models::provider_result::{ProviderRelease, ProviderSearchResult, SearchResultType};
use crate::providers::tmdb::params_view;
use crate::models::track::TrackMetadata;
use crate::providers::{clone_opt, percent_encoded, url_encode};
use crate::text::{chars_of, parse_i32, parse_signed, push_all, slice_range, string_from};

verus! {

/// An artist as MusicBrainz describes one.
#[derive(Debug, Clone)]
pub struct MbArtist {
    pub id: String,
    pub name: String,
    pub sort_name: Option<String>,
    pub disambiguation: Option<String>,
    pub artist_type: Option<String>,
    pub country: Option<String>,
}

/// One credited artist and the phrase that joins it to the next.
#[derive(Debug, Clone)]
pub struct MbArtistCredit {
    pub artist: MbArtist,
    pub joinphrase: Option<String>,
}

#[derive(Debug, Clone)]
pub struct MbReleaseGroup {
    pub id: String,
    pub primary_type: Option<String>,
}

#[derive(Debug, Clone)]
pub struct MbLabel {
    pub name: String,
}

#[derive(Debug, Clone)]
pub struct MbLabelInfo {
    pub catalog_number: Option<String>,
    pub label: Option<MbLabel>,
}

#[derive(Debug, Clone)]
pub struct MbTrackRecording {
    pub id: String,
    pub artist_credit: Vec<MbArtistCredit>,
    pub isrcs: Vec<String>,
}

#[derive(Debug, Clone)]
pub struct MbTrack {
    pub position: u32,
    pub title: String,
    pub length: Option<u64>,
    pub recording: MbTrackRecording,
}

/// One disc (or other medium) of a release.
#[derive(Debug, Clone)]
pub struct MbMedia {
    pub position: u32,
    pub track_count: u32,
    pub tracks: Vec<MbTrack>,
}

/// A release among a search's results.
#[derive(Debug, Clone)]
pub struct MbReleaseResult {
    pub id: String,
    pub score: Option<u32>,
    pub title: String,
    pub date: Option<String>,
    pub artist_credit: Vec<MbArtistCredit>,
    pub release_group: Option<MbReleaseGroup>,
}

/// A release a recording appears on.
#[derive(Debug, Clone)]
pub struct MbRecordingRelease {
    pub id: String,
    pub title: String,
    pub date: Option<String>,
}

/// A recording among a search's results.
#[derive(Debug, Clone)]
pub struct MbRecordingResult {
    pub id: String,
    pub score: Option<u32>,
    pub title: String,
    pub artist_credit: Vec<MbArtistCredit>,
    pub releases: Vec<MbRecordingRelease>,
    pub length: Option<u64>,
    pub isrcs: Vec<String>,
}

/// A release looked up with its recordings, artists, labels and ISRCs.
#[derive(Debug, Clone)]
pub struct MbReleaseDetail {
    pub id: String,
    pub title: String,
    pub date: Option<String>,
    pub country: Option<String>,
    pub barcode: Option<String>,
    pub artist_credit: Vec<MbArtistCredit>,
    pub release_group: Option<MbReleaseGroup>,
    pub label_info: Vec<MbLabelInfo>,
    pub media: Vec<MbMedia>,
}

pub open spec fn joinphrase_text(j: Option<String>) -> Seq<char> {
    match j {
        Some(s) => s@,
        None => Seq::empty(),
    }
}

/// The credited artists as MusicBrainz prints them: each name followed by
/// its join phrase.
pub open spec fn credit_text(credits: Seq<MbArtistCredit>) -> Seq<char>
    decreases credits.len(),
{
    if credits.len() == 0 {
        Seq::empty()
    } else {
        credit_text(credits.drop_last()) + credits.last().artist.name@ + joinphrase_text(
            credits.last().joinphrase,
        )
    }
}

/// What `str::parse::<i32>` reads from a text.
pub open spec fn year_of(s: Seq<char>) -> Option<i32> {
    match parse_signed(s) {
        Some(v) => if i32::MIN <= v <= i32::MAX {
            Some(v as i32)
        } else {
            None
        },
        None => None,
    }
}

/// The text before the first `-`, or all of it.
pub open spec fn leading_field(d: Seq<char>) -> Seq<char> {
    match index_of(d, '-', 0) {
        Some(p) => d.subrange(0, p),
        None => d,
    }
}

/// A release date's year: its leading `-`-separated field, read as a
/// number.
pub open spec fn extract_year_spec(date: Option<Seq<char>>) -> Option<i32> {
    match date {
        Some(d) => year_of(leading_field(d)),
        None => None,
    }
}

pub fn format_artist_credit(credits: &[MbArtistCredit]) -> (r: String)
    ensures
        r@ == credit_text(credits@),
{
    let mut out: Vec<char> = Vec::new();
    let mut k: usize = 0;
    while k < credits.len()
        invariant
            0 <= k <= credits@.len(),
            out@ == credit_text(credits@.subrange(0, k as int)),
        decreases credits@.len() - k,
    {
        assert(credits@.subrange(0, k + 1).drop_last() =~= credits@.subrange(0, k as int));
        let name = chars_of(credits[k].artist.name.as_str());
        push_all(&mut out, name.as_slice());
        match &credits[k].joinphrase {
            Some(j) => {
                let jc = chars_of(j.as_str());
                push_all(&mut out, jc.as_slice());
            },
            None => {},
        }
        k = k + 1;
    }
    assert(credits@.subrange(0, credits@.len() as int) =~= credits@);
    string_from(out.as_slice())
}

pub fn extract_year(date: &Option<String>) -> (r: Option<i32>)
    ensures
        r == extract_year_spec(opt_str(*date)),
{
    match date {
        Some(d) => {
            let c = chars_of(d.as_str());
            let head = match index_of_exec(c.as_slice(), '-') {
                Some(p) => slice_range(c.as_slice(), 0, p),
                None => c,
            };
            parse_i32(head.as_slice())
        },
        None => None,
    }
}

fn push_str(out: &mut Vec<char>, s: &str)
    ensures
        final(out)@ == old(out)@ + s@,
{
    let c = chars_of(s);
    push_all(out, c.as_slice());
}

/// The lookup of a release with everything a tagger writes.
pub open spec fn release_url_spec(id: Seq<char>) -> Seq<char> {
    "https://musicbrainz.org/ws/2/release/"@ + id
        + "?inc=recordings+artists+labels+artist-credits+isrcs&fmt=json"@
}

pub fn release_url(id: &str) -> (r: String)
    ensures
        r@ == release_url_spec(id@),
{
    let mut out: Vec<char> = Vec::new();
    push_str(&mut out, "https://musicbrainz.org/ws/2/release/");
    push_str(&mut out, id);
    push_str(&mut out, "?inc=recordings+artists+labels+artist-credits+isrcs&fmt=json");
    string_from(out.as_slice())
}

/// A search query on one field, narrowed to an artist when one is given.
pub open spec fn search_query_spec(field: Seq<char>, query: Seq<char>, artist: Option<Seq<char>>) -> Seq<
    char,
> {
    match artist {
        Some(a) => field + ":\""@ + query + "\" AND artist:\""@ + a + "\""@,
        None => field + ":\""@ + query + "\""@,
    }
}

/// A search of one kind of entity (`release` or `recording`), 25 results.
pub open spec fn search_url_spec(entity: Seq<char>, query: Seq<char>, artist: Option<Seq<char>>) -> Seq<
    char,
> {
    "https://musicbrainz.org/ws/2/"@ + entity + "/?query="@ + percent_encoded(
        encode_utf8(search_query_spec(entity, query, artist)),
    ) + "&limit=25&fmt=json"@
}

pub open spec fn opt_text(o: Option<&str>) -> Option<Seq<char>> {
    match o {
        Some(s) => Some(s@),
        None => None,
    }
}

fn search_url(entity: &str, query: &str, artist: Option<&str>) -> (r: String)
    ensures
        r@ == search_url_spec(entity@, query@, opt_text(artist)),
{
    let mut q: Vec<char> = Vec::new();
    push_str(&mut q, entity);
    push_str(&mut q, ":\"");
    push_str(&mut q, query);
    match artist {
        Some(a) => {
            push_str(&mut q, "\" AND artist:\"");
            push_str(&mut q, a);
            push_str(&mut q, "\"");
        },
        None => {
            push_str(&mut q, "\"");
        },
    }
    let qs = string_from(q.as_slice());
    let enc = url_encode(qs.as_str());
    let mut out: Vec<char> = Vec::new();
    push_str(&mut out, "https://musicbrainz.org/ws/2/");
    push_str(&mut out, entity);
    push_str(&mut out, "/?query=");
    push_str(&mut out, enc.as_str());
    push_str(&mut out, "&limit=25&fmt=json");
    string_from(out.as_slice())
}

/// The search for releases by title, and by artist when one is given.
pub fn release_search_url(query: &str, artist: Option<&str>) -> (r: String)
    ensures
        r@ == search_url_spec("release"@, query@, opt_text(artist)),
{
    search_url("release", query, artist)
}

/// The search for recordings by title, and by artist when one is given.
pub fn recording_search_url(query: &str, artist: Option<&str>) -> (r: String)
    ensures
        r@ == search_url_spec("recording"@, query@, opt_text(artist)),
{
    search_url("recording", query, artist)
}

/// The search for artists by name: only the name is encoded.
pub open spec fn artist_search_url_spec(query: Seq<char>) -> Seq<char> {
    "https://musicbrainz.org/ws/2/artist/?query=artist:\""@ + percent_encoded(encode_utf8(query))
        + "\"&limit=25&fmt=json"@
}

pub fn artist_search_url(query: &str) -> (r: String)
    ensures
        r@ == artist_search_url_spec(query@),
{
    let enc = url_encode(query);
    let mut out: Vec<char> = Vec::new();
    push_str(&mut out, "https://musicbrainz.org/ws/2/artist/?query=artist:\"");
    push_str(&mut out, enc.as_str());
    push_str(&mut out, "\"&limit=25&fmt=json");
    string_from(out.as_slice())
}

pub open spec fn release_group_id(g: Option<MbReleaseGroup>) -> Option<Seq<char>> {
    match g {
        Some(g) => Some(g.id@),
        None => None,
    }
}

pub open spec fn release_type_of(g: Option<MbReleaseGroup>) -> Option<Seq<char>> {
    match g {
        Some(g) => opt_str(g.primary_type),
        None => None,
    }
}

/// The first label's name, when the first label entry names one.
pub open spec fn first_label(li: Seq<MbLabelInfo>) -> Option<Seq<char>> {
    if li.len() > 0 {
        match li[0].label {
            Some(l) => Some(l.name@),
            None => None,
        }
    } else {
        None
    }
}

pub open spec fn first_catalog_number(li: Seq<MbLabelInfo>) -> Option<Seq<char>> {
    if li.len() > 0 {
        opt_str(li[0].catalog_number)
    } else {
        None
    }
}

pub open spec fn first_artist_id(credits: Seq<MbArtistCredit>) -> Option<Seq<char>> {
    if credits.len() > 0 {
        Some(credits[0].artist.id@)
    } else {
        None
    }
}

pub open spec fn first_isrc(isrcs: Seq<String>) -> Option<Seq<char>> {
    if isrcs.len() > 0 {
        Some(isrcs[0]@)
    } else {
        None
    }
}

/// The track counts of the media, added up.
pub open spec fn track_count_sum(media: Seq<MbMedia>) -> nat
    decreases media.len(),
{
    if media.len() == 0 {
        0
    } else {
        track_count_sum(media.drop_last()) + media.last().track_count as nat
    }
}

/// How many tracks the media list, all together.
pub open spec fn tracks_total(media: Seq<MbMedia>) -> nat
    decreases media.len(),
{
    if media.len() == 0 {
        0
    } else {
        tracks_total(media.drop_last()) + media.last().tracks@.len()
    }
}

/// A track of a release, as the release's track record: its own title,
/// position and recording, the release's album, artist, date and
/// identifiers, and its medium's number and track count.
pub open spec fn release_track(t: TrackMetadata, rel: MbReleaseDetail, medium: MbMedia, track: MbTrack) -> bool {
    &&& opt_str(t.title) == Some(track.title@)
    &&& opt_str(t.artist) == Some(credit_text(track.recording.artist_credit@))
    &&& opt_str(t.album_artist) == Some(credit_text(rel.artist_credit@))
    &&& opt_str(t.album) == Some(rel.title@)
    &&& t.track_number == Some(track.position)
    &&& t.total_tracks == Some(medium.track_count)
    &&& t.disc_number == Some(medium.position)
    &&& t.total_discs == Some(rel.media@.len() as u32)
    &&& t.year == extract_year_spec(opt_str(rel.date))
    &&& opt_str(t.date) == opt_str(rel.date)
    &&& t.genre is None && t.composer is None && t.comment is None && t.lyrics is None
    &&& opt_str(t.isrc) == first_isrc(track.recording.isrcs@)
    &&& opt_str(t.musicbrainz_track_id) == Some(track.recording.id@)
    &&& opt_str(t.musicbrainz_release_id) == Some(rel.id@)
    &&& opt_str(t.musicbrainz_artist_id) == first_artist_id(rel.artist_credit@)
    &&& opt_str(t.musicbrainz_release_group_id) == release_group_id(rel.release_group)
    &&& t.custom_tags@ == Map::<String, Vec<String>>::empty()
}

/// A credited artist as an artist record.
pub open spec fn credited_artist(a: ArtistMetadata, c: MbArtistCredit) -> bool {
    &&& a.name@ == c.artist.name@
    &&& opt_str(a.sort_name) == opt_str(c.artist.sort_name)
    &&& opt_str(a.musicbrainz_artist_id) == Some(c.artist.id@)
    &&& opt_str(a.disambiguation) == opt_str(c.artist.disambiguation)
    &&& opt_str(a.artist_type) == opt_str(c.artist.artist_type)
    &&& opt_str(a.country) == opt_str(c.artist.country)
}

proof fn lemma_track_count_prefix(media: Seq<MbMedia>, k: int)
    requires
        0 <= k <= media.len(),
    ensures
        track_count_sum(media.subrange(0, k)) <= track_count_sum(media),
    decreases media.len() - k,
{
    if k < media.len() {
        lemma_track_count_prefix(media, k + 1);
        assert(media.subrange(0, k + 1).drop_last() =~= media.subrange(0, k));
    } else {
        assert(media.subrange(0, k) =~= media);
    }
}

proof fn lemma_tracks_before(media: Seq<MbMedia>, a: int, b: int)
    requires
        0 <= a < b <= media.len(),
    ensures
        tracks_total(media.subrange(0, a)) + media[a].tracks@.len() <= tracks_total(media.subrange(0, b)),
    decreases b - a,
{
    assert(media.subrange(0, b).drop_last() =~= media.subrange(0, b - 1));
    if a + 1 < b {
        lemma_tracks_before(media, a, b - 1);
    }
}

fn track_of(rel: &MbReleaseDetail, m: usize, k: usize, album_artist: &String, year: Option<i32>) -> (t: TrackMetadata)
    requires
        m < rel.media@.len(),
        k < rel.media@[m as int].tracks@.len(),
        album_artist@ == credit_text(rel.artist_credit@),
        year == extract_year_spec(opt_str(rel.date)),
    ensures
        release_track(t, *rel, rel.media@[m as int], rel.media@[m as int].tracks@[k as int]),
{
    let medium = &rel.media[m];
    let track = &medium.tracks[k];
    let isrc = if track.recording.isrcs.len() > 0 {
        Some(track.recording.isrcs[0].clone())
    } else {
        None
    };
    let artist_id = if rel.artist_credit.len() > 0 {
        Some(rel.artist_credit[0].artist.id.clone())
    } else {
        None
    };
    let group_id = match &rel.release_group {
        Some(g) => Some(g.id.clone()),
        None => None,
    };
    TrackMetadata {
        title: Some(track.title.clone()),
        artist: Some(format_artist_credit(track.recording.artist_credit.as_slice())),
        album_artist: Some(album_artist.clone()),
        album: Some(rel.title.clone()),
        track_number: Some(track.position),
        total_tracks: Some(medium.track_count),
        disc_number: Some(medium.position),
        total_discs: Some(rel.media.len() as u32),
        year: year,
        date: clone_opt(&rel.date),
        genre: None,
        composer: None,
        comment: None,
        lyrics: None,
        isrc: isrc,
        musicbrainz_track_id: Some(track.recording.id.clone()),
        musicbrainz_release_id: Some(rel.id.clone()),
        musicbrainz_artist_id: artist_id,
        musicbrainz_release_group_id: group_id,
        custom_tags: HashMap::new(),
    }
}

/// The tracks of every medium, medium after medium.
fn release_tracks(rel: &MbReleaseDetail, album_artist: &String, year: Option<i32>) -> (r: Vec<TrackMetadata>)
    requires
        album_artist@ == credit_text(rel.artist_credit@),
        year == extract_year_spec(opt_str(rel.date)),
    ensures
        r@.len() == tracks_total(rel.media@),
        forall|m: int, k: int|
            #![trigger rel.media@[m].tracks@[k]]
            0 <= m < rel.media@.len() && 0 <= k < rel.media@[m].tracks@.len() ==> release_track(
                r@[tracks_total(rel.media@.subrange(0, m)) + k],
                *rel,
                rel.media@[m],
                rel.media@[m].tracks@[k],
            ),
{
    let ghost media = rel.media@;
    let mut out: Vec<TrackMetadata> = Vec::new();
    let mut m: usize = 0;
    assert(media.subrange(0, 0) =~= Seq::<MbMedia>::empty());
    while m < rel.media.len()
        invariant
            0 <= m <= media.len(),
            media == rel.media@,
            album_artist@ == credit_text(rel.artist_credit@),
            year == extract_year_spec(opt_str(rel.date)),
            out@.len() == tracks_total(media.subrange(0, m as int)),
            forall|mm: int, k: int|
                #![trigger media[mm].tracks@[k]]
                0 <= mm < m && 0 <= k < media[mm].tracks@.len() ==> release_track(
                    out@[tracks_total(media.subrange(0, mm)) + k],
                    *rel,
                    media[mm],
                    media[mm].tracks@[k],
                ),
        decreases media.len() - m,
    {
        let ghost base = out@.len();
        let mut k: usize = 0;
        while k < rel.media[m].tracks.len()
            invariant
                0 <= m < media.len(),
                media == rel.media@,
                0 <= k <= media[m as int].tracks@.len(),
                album_artist@ == credit_text(rel.artist_credit@),
                year == extract_year_spec(opt_str(rel.date)),
                base == tracks_total(media.subrange(0, m as int)),
                out@.len() == base + k,
                forall|mm: int, kk: int|
                    #![trigger media[mm].tracks@[kk]]
                    0 <= mm < m && 0 <= kk < media[mm].tracks@.len() ==> release_track(
                        out@[tracks_total(media.subrange(0, mm)) + kk],
                        *rel,
                        media[mm],
                        media[mm].tracks@[kk],
                    ),
                forall|kk: int|
                    0 <= kk < k ==> release_track(
                        #[trigger] out@[base + kk],
                        *rel,
                        media[m as int],
                        media[m as int].tracks@[kk],
                    ),
            decreases media[m as int].tracks@.len() - k,
        {
            let t = track_of(rel, m, k, album_artist, year);
            let ghost before = out@;
            out.push(t);
            proof {
                assert forall|mm: int, kk: int|
                    #![trigger media[mm].tracks@[kk]]
                    0 <= mm < m && 0 <= kk < media[mm].tracks@.len() implies release_track(
                        out@[tracks_total(media.subrange(0, mm)) + kk],
                        *rel,
                        media[mm],
                        media[mm].tracks@[kk],
                    ) by {
                    lemma_tracks_before(media, mm, m as int);
                    assert(out@[tracks_total(media.subrange(0, mm)) + kk] == before[tracks_total(media.subrange(0, mm)) + kk]);
                }
                assert forall|kk: int| 0 <= kk < k + 1 implies release_track(
                    #[trigger] out@[base + kk],
                    *rel,
                    media[m as int],
                    media[m as int].tracks@[kk],
                ) by {
                    if kk < k {
                        assert(out@[base + kk] == before[base + kk]);
                    }
                }
            }
            k = k + 1;
        }
        proof {
            assert(media.subrange(0, m + 1).drop_last() =~= media.subrange(0, m as int));
            assert forall|mm: int, kk: int|
                #![trigger media[mm].tracks@[kk]]
                0 <= mm < m + 1 && 0 <= kk < media[mm].tracks@.len() implies release_track(
                    out@[tracks_total(media.subrange(0, mm)) + kk],
                    *rel,
                    media[mm],
                    media[mm].tracks@[kk],
                ) by {
                if mm == m {
                    assert(release_track(out@[base + kk], *rel, media[m as int], media[m as int].tracks@[kk]));
                }
            }
        }
        m = m + 1;
    }
    assert(media.subrange(0, media.len() as int) =~= media);
    out
}

fn credited_artists(credits: &Vec<MbArtistCredit>) -> (r: Vec<ArtistMetadata>)
    ensures
        r@.len() == credits@.len(),
        forall|i: int| 0 <= i < credits@.len() ==> #[trigger] credited_artist(r@[i], credits@[i]),
{
    let mut out: Vec<ArtistMetadata> = Vec::new();
    let mut k: usize = 0;
    while k < credits.len()
        invariant
            0 <= k <= credits@.len(),
            out@.len() == k,
            forall|i: int| 0 <= i < k ==> #[trigger] credited_artist(out@[i], credits@[i]),
        decreases credits@.len() - k,
    {
        let a = &credits[k].artist;
        out.push(ArtistMetadata {
            name: a.name.clone(),
            sort_name: clone_opt(&a.sort_name),
            musicbrainz_artist_id: Some(a.id.clone()),
            disambiguation: clone_opt(&a.disambiguation),
            artist_type: clone_opt(&a.artist_type),
            country: clone_opt(&a.country),
        });
        k = k + 1;
    }
    out
}

fn sum_track_counts(media: &Vec<MbMedia>) -> (r: u32)
    requires
        track_count_sum(media@) <= u32::MAX,
    ensures
        r == track_count_sum(media@),
{
    let mut total: u32 = 0;
    let mut k: usize = 0;
    while k < media.len()
        invariant
            0 <= k <= media@.len(),
            track_count_sum(media@) <= u32::MAX,
            total == track_count_sum(media@.subrange(0, k as int)),
        decreases media@.len() - k,
    {
        assert(media@.subrange(0, k + 1).drop_last() =~= media@.subrange(0, k as int));
        proof {
            lemma_track_count_prefix(media@, k + 1);
        }
        total = total + media[k].track_count;
        k = k + 1;
    }
    assert(media@.subrange(0, media@.len() as int) =~= media@);
    total
}

/// A looked-up release as the album, its tracks and its credited artists.
///
/// Every track carries the release's album, artist, date and identifiers;
/// the album's track count adds up the media's own counts.
pub fn release_from_detail(release: MbReleaseDetail) -> (r: ProviderRelease)
    requires
        track_count_sum(release.media@) <= u32::MAX,
    ensures
        r.provider@ == "musicbrainz"@,
        r.id@ == release.id@,
        r.album.title@ == release.title@,
        r.album.artist@ == credit_text(release.artist_credit@),
        r.album.year == extract_year_spec(opt_str(release.date)),
        opt_str(r.album.release_date) == opt_str(release.date),
        r.album.genre is None,
        opt_str(r.album.label) == first_label(release.label_info@),
        opt_str(r.album.catalog_number) == first_catalog_number(release.label_info@),
        opt_str(r.album.barcode) == opt_str(release.barcode),
        opt_str(r.album.release_type) == release_type_of(release.release_group),
        opt_str(r.album.release_country) == opt_str(release.country),
        opt_str(r.album.musicbrainz_release_id) == Some(release.id@),
        opt_str(r.album.musicbrainz_release_group_id) == release_group_id(release.release_group),
        r.album.total_tracks == Some(track_count_sum(release.media@) as u32),
        r.album.total_discs == Some(release.media@.len() as u32),
        r.album.cover_art@.len() == 0,
        r.tracks@.len() == tracks_total(release.media@),
        forall|m: int, k: int|
            #![trigger release.media@[m].tracks@[k]]
            0 <= m < release.media@.len() && 0 <= k < release.media@[m].tracks@.len() ==> release_track(
                r.tracks@[tracks_total(release.media@.subrange(0, m)) + k],
                release,
                release.media@[m],
                release.media@[m].tracks@[k],
            ),
        r.artists@.len() == release.artist_credit@.len(),
        forall|i: int|
            0 <= i < release.artist_credit@.len() ==> #[trigger] credited_artist(
                r.artists@[i],
                release.artist_credit@[i],
            ),
{
    let artist_name = format_artist_credit(release.artist_credit.as_slice());
    let year = extract_year(&release.date);
    let total_discs = release.media.len() as u32;
    let label = if release.label_info.len() > 0 {
        match &release.label_info[0].label {
            Some(l) => Some(l.name.clone()),
            None => None,
        }
    } else {
        None
    };
    let catalog_number = if release.label_info.len() > 0 {
        clone_opt(&release.label_info[0].catalog_number)
    } else {
        None
    };
    let release_type = match &release.release_group {
        Some(g) => clone_opt(&g.primary_type),
        None => None,
    };
    let group_id = match &release.release_group {
        Some(g) => Some(g.id.clone()),
        None => None,
    };
    let tracks = release_tracks(&release, &artist_name, year);
    let artists = credited_artists(&release.artist_credit);
    let total_tracks = sum_track_counts(&release.media);
    ProviderRelease {
        provider: String::from_str("musicbrainz"),
        id: release.id.clone(),
        album: AlbumMetadata {
            title: release.title.clone(),
            artist: artist_name,
            year: year,
            release_date: clone_opt(&release.date),
            genre: None,
            label: label,
            catalog_number: catalog_number,
            barcode: clone_opt(&release.barcode),
            release_type: release_type,
            release_country: clone_opt(&release.country),
            musicbrainz_release_id: Some(release.id.clone()),
            musicbrainz_release_group_id: group_id,
            total_tracks: Some(total_tracks),
            total_discs: Some(total_discs),
            cover_art: Vec::new(),
        },
        tracks: tracks,
        artists: artists,
    }
}

/// A release hit as a search result: its release type, when the release
/// group names one, as the `releaseType` extra.
pub open spec fn release_hit(h: ProviderSearchResult, r: MbReleaseResult) -> bool {
    &&& h.provider@ == "musicbrainz"@
    &&& h.result_type == SearchResultType::Release
    &&& h.id@ == r.id@
    &&& h.score == r.score
    &&& h.title@ == r.title@
    &&& opt_str(h.artist) == Some(credit_text(r.artist_credit@))
    &&& h.year == extract_year_spec(opt_str(r.date))
    &&& params_view(h.extra@) == match release_type_of(r.release_group) {
        Some(t) => seq![("releaseType"@, t)],
        None => Seq::empty(),
    }
}

/// A recording hit as a search result, dated by the first release it
/// appears on.
pub open spec fn recording_hit(h: ProviderSearchResult, r: MbRecordingResult) -> bool {
    &&& h.provider@ == "musicbrainz"@
    &&& h.result_type == SearchResultType::Recording
    &&& h.id@ == r.id@
    &&& h.score == r.score
    &&& h.title@ == r.title@
    &&& opt_str(h.artist) == Some(credit_text(r.artist_credit@))
    &&& h.year == (if r.releases@.len() > 0 {
        extract_year_spec(opt_str(r.releases@[0].date))
    } else {
        None
    })
    &&& h.extra@.len() == 0
}

/// An artist hit as a search result: the name is the title.
pub open spec fn artist_hit(h: ProviderSearchResult, a: MbArtist) -> bool {
    &&& h.provider@ == "musicbrainz"@
    &&& h.result_type == SearchResultType::Artist
    &&& h.id@ == a.id@
    &&& h.score is None
    &&& h.title@ == a.name@
    &&& h.artist is None
    &&& h.year is None
    &&& h.extra@.len() == 0
}

fn release_hit_of(r: &MbReleaseResult) -> (h: ProviderSearchResult)
    ensures
        release_hit(h, *r),
{
    let mut extra: Vec<(String, String)> = Vec::new();
    match &r.release_group {
        Some(g) => match &g.primary_type {
            Some(t) => extra.push((String::from_str("releaseType"), t.clone())),
            None => {},
        },
        None => {},
    }
    assert(params_view(extra@) =~= match release_type_of(r.release_group) {
        Some(t) => seq![("releaseType"@, t)],
        None => Seq::empty(),
    });
    ProviderSearchResult {
        provider: String::from_str("musicbrainz"),
        result_type: SearchResultType::Release,
        id: r.id.clone(),
        score: r.score,
        title: r.title.clone(),
        artist: Some(format_artist_credit(r.artist_credit.as_slice())),
        year: extract_year(&r.date),
        extra: extra,
    }
}

/// The releases a search found, as search results.
pub fn release_hits(results: &Vec<MbReleaseResult>) -> (r: Vec<ProviderSearchResult>)
    ensures
        r@.len() == results@.len(),
        forall|i: int| 0 <= i < results@.len() ==> #[trigger] release_hit(r@[i], results@[i]),
{
    let mut out: Vec<ProviderSearchResult> = Vec::new();
    let mut k: usize = 0;
    while k < results.len()
        invariant
            0 <= k <= results@.len(),
            out@.len() == k,
            forall|i: int| 0 <= i < k ==> #[trigger] release_hit(out@[i], results@[i]),
        decreases results@.len() - k,
    {
        out.push(release_hit_of(&results[k]));
        k = k + 1;
    }
    out
}

/// The recordings a search found, as search results.
pub fn recording_hits(results: &Vec<MbRecordingResult>) -> (r: Vec<ProviderSearchResult>)
    ensures
        r@.len() == results@.len(),
        forall|i: int| 0 <= i < results@.len() ==> #[trigger] recording_hit(r@[i], results@[i]),
{
    let mut out: Vec<ProviderSearchResult> = Vec::new();
    let mut k: usize = 0;
    while k < results.len()
        invariant
            0 <= k <= results@.len(),
            out@.len() == k,
            forall|i: int| 0 <= i < k ==> #[trigger] recording_hit(out@[i], results@[i]),
        decreases results@.len() - k,
    {
        let r = &results[k];
        let year = if r.releases.len() > 0 {
            extract_year(&r.releases[0].date)
        } else {
            None
        };
        out.push(ProviderSearchResult {
            provider: String::from_str("musicbrainz"),
            result_type: SearchResultType::Recording,
            id: r.id.clone(),
            score: r.score,
            title: r.title.clone(),
            artist: Some(format_artist_credit(r.artist_credit.as_slice())),
            year: year,
            extra: Vec::new(),
        });
        k = k + 1;
    }
    out
}

/// The artists a search found, as search results.
pub fn artist_hits(artists: &Vec<MbArtist>) -> (r: Vec<ProviderSearchResult>)
    ensures
        r@.len() == artists@.len(),
        forall|i: int| 0 <= i < artists@.len() ==> #[trigger] artist_hit(r@[i], artists@[i]),
{
    let mut out: Vec<ProviderSearchResult> = Vec::new();
    let mut k: usize = 0;
    while k < artists.len()
        invariant
            0 <= k <= artists@.len(),
            out@.len() == k,
            forall|i: int| 0 <= i < k ==> #[trigger] artist_hit(out@[i], artists@[i]),
        decreases artists@.len() - k,
    {
        let a = &artists[k];
        out.push(ProviderSearchResult {
            provider: String::from_str("musicbrainz"),
            result_type: SearchResultType::Artist,
            id: a.id.clone(),
            score: None,
            title: a.name.clone(),
            artist: None,
            year: None,
            extra: Vec::new(),
        });
        k = k + 1;
    }
    out
}

} // verus!
