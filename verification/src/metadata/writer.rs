//! Track metadata written to a file's tag.
//!
//! Writing is a list of tag operations, applied in order to the file's
//! primary tag (a new one of the file's primary type when it has none),
//! which is then saved.
use vstd::prelude::*;

use crate::book::comicinfo::join_with;
use crate::models::book::{opt_str, strs};
use crate::models::track::TrackMetadata;
use crate::text::{decimal, format_u64, join, string_from};

verus! {

/// The tag keys that have a field of their own in `TrackMetadata`.
#[derive(Debug, Clone, Copy, PartialEq, Eq, Structural)]
pub enum TagKey {
    TrackTitle,
    TrackArtist,
    AlbumArtist,
    AlbumTitle,
    TrackNumber,
    TrackTotal,
    DiscNumber,
    DiscTotal,
    Year,
    RecordingDate,
    Genre,
    Composer,
    Comment,
    Lyrics,
    Isrc,
    MusicBrainzRecordingId,
    MusicBrainzReleaseId,
    MusicBrainzArtistId,
    MusicBrainzReleaseGroupId,
}

/// One operation on a tag.
#[derive(Debug, Clone)]
pub enum TagWrite {
    /// Remove every item with the key.
    Remove(TagKey),
    /// Append a text item, keeping the items already there.
    Push(TagKey, String),
    /// Replace every item with the key by one text item.
    Insert(TagKey, String),
    /// Set the year with the tag's year accessor: into the year item, for
    /// formats that have one (else into the recording date).
    SetYear(u32),
    /// Remove the year and the recording date, as the year accessor does.
    RemoveYear,
}

pub ghost enum WriteView {
    Remove(TagKey),
    Push(TagKey, Seq<char>),
    Insert(TagKey, Seq<char>),
    SetYear(u32),
    RemoveYear,
}

pub open spec fn write_view(w: TagWrite) -> WriteView {
    match w {
        TagWrite::Remove(k) => WriteView::Remove(k),
        TagWrite::Push(k, v) => WriteView::Push(k, v@),
        TagWrite::Insert(k, v) => WriteView::Insert(k, v@),
        TagWrite::SetYear(y) => WriteView::SetYear(y),
        TagWrite::RemoveYear => WriteView::RemoveYear,
    }
}

pub open spec fn writes_view(v: Seq<TagWrite>) -> Seq<WriteView> {
    Seq::new(v.len(), |i: int| write_view(v[i]))
}

/// A text field: the old items removed, and the value written when it is
/// set and not empty.
pub open spec fn set_or_remove(k: TagKey, v: Option<Seq<char>>) -> Seq<WriteView> {
    seq![WriteView::Remove(k)] + match v {
        Some(x) => if x.len() > 0 {
            seq![WriteView::Push(k, x)]
        } else {
            Seq::empty()
        },
        None => Seq::empty(),
    }
}

/// A number field: written as its decimal digits when set, else removed.
pub open spec fn number_field(k: TagKey, v: Option<u32>) -> Seq<WriteView> {
    match v {
        Some(n) => seq![WriteView::Insert(k, decimal(n as nat))],
        None => seq![WriteView::Remove(k)],
    }
}

/// The year, set as an unsigned number (a negative year wraps).
pub open spec fn year_field(v: Option<i32>) -> Seq<WriteView> {
    match v {
        Some(y) => seq![WriteView::SetYear(y as u32)],
        None => seq![WriteView::RemoveYear],
    }
}

/// The genres, joined with `"; "` into one value.
pub open spec fn genre_field(v: Option<Vec<String>>) -> Seq<WriteView> {
    match v {
        Some(g) => set_or_remove(TagKey::Genre, Some(join(strs(g@), "; "@))),
        None => seq![WriteView::Remove(TagKey::Genre)],
    }
}

/// The composers, one item each.
pub open spec fn composer_field(v: Option<Vec<String>>) -> Seq<WriteView> {
    seq![WriteView::Remove(TagKey::Composer)] + match v {
        Some(cs) => Seq::new(cs@.len(), |i: int| WriteView::Push(TagKey::Composer, cs@[i]@)),
        None => Seq::empty(),
    }
}

/// What writing `m` does to a tag, in order.
pub open spec fn writes_spec(m: TrackMetadata) -> Seq<WriteView> {
    set_or_remove(TagKey::TrackTitle, opt_str(m.title))
        + set_or_remove(TagKey::TrackArtist, opt_str(m.artist))
        + set_or_remove(TagKey::AlbumArtist, opt_str(m.album_artist))
        + set_or_remove(TagKey::AlbumTitle, opt_str(m.album))
        + number_field(TagKey::TrackNumber, m.track_number)
        + number_field(TagKey::TrackTotal, m.total_tracks)
        + number_field(TagKey::DiscNumber, m.disc_number)
        + number_field(TagKey::DiscTotal, m.total_discs)
        + year_field(m.year)
        + set_or_remove(TagKey::RecordingDate, opt_str(m.date))
        + genre_field(m.genre)
        + composer_field(m.composer)
        + set_or_remove(TagKey::Comment, opt_str(m.comment))
        + set_or_remove(TagKey::Lyrics, opt_str(m.lyrics))
        + set_or_remove(TagKey::Isrc, opt_str(m.isrc))
        + set_or_remove(TagKey::MusicBrainzRecordingId, opt_str(m.musicbrainz_track_id))
        + set_or_remove(TagKey::MusicBrainzReleaseId, opt_str(m.musicbrainz_release_id))
        + set_or_remove(TagKey::MusicBrainzArtistId, opt_str(m.musicbrainz_artist_id))
        + set_or_remove(TagKey::MusicBrainzReleaseGroupId, opt_str(m.musicbrainz_release_group_id))
}

fn push_set_or_remove(out: &mut Vec<TagWrite>, k: TagKey, v: &Option<String>)
    ensures
        writes_view(final(out)@) == writes_view(old(out)@) + set_or_remove(k, opt_str(*v)),
{
    let ghost before = writes_view(out@);
    out.push(TagWrite::Remove(k));
    match v {
        Some(x) => {
            if crate::text::chars_of(x.as_str()).len() > 0 {
                out.push(TagWrite::Push(k, x.clone()));
            }
        },
        None => {},
    }
    assert(writes_view(out@) =~= before + set_or_remove(k, opt_str(*v)));
}

fn push_number(out: &mut Vec<TagWrite>, k: TagKey, v: Option<u32>)
    ensures
        writes_view(final(out)@) == writes_view(old(out)@) + number_field(k, v),
{
    let ghost before = writes_view(out@);
    match v {
        Some(n) => {
            let d = format_u64(n as u64);
            out.push(TagWrite::Insert(k, string_from(d.as_slice())));
        },
        None => {
            out.push(TagWrite::Remove(k));
        },
    }
    assert(writes_view(out@) =~= before + number_field(k, v));
}

/// The tag operations that write `metadata`, in the order they apply:
/// text fields are replaced (or removed when unset or empty), numbers
/// written as decimal text, the genres joined with `"; "`, and each
/// composer written as an item of its own.
pub fn tag_writes(metadata: &TrackMetadata) -> (r: Vec<TagWrite>)
    ensures
        writes_view(r@) == writes_spec(*metadata),
{
    let m = metadata;
    let mut out: Vec<TagWrite> = Vec::new();
    assert(writes_view(out@) =~= Seq::<WriteView>::empty());
    push_set_or_remove(&mut out, TagKey::TrackTitle, &m.title);
    push_set_or_remove(&mut out, TagKey::TrackArtist, &m.artist);
    push_set_or_remove(&mut out, TagKey::AlbumArtist, &m.album_artist);
    push_set_or_remove(&mut out, TagKey::AlbumTitle, &m.album);
    push_number(&mut out, TagKey::TrackNumber, m.track_number);
    push_number(&mut out, TagKey::TrackTotal, m.total_tracks);
    push_number(&mut out, TagKey::DiscNumber, m.disc_number);
    push_number(&mut out, TagKey::DiscTotal, m.total_discs);
    let ghost before_year = writes_view(out@);
    match m.year {
        Some(y) => {
            out.push(TagWrite::SetYear(y as u32));
        },
        None => {
            out.push(TagWrite::RemoveYear);
        },
    }
    assert(writes_view(out@) =~= before_year + year_field(m.year));
    push_set_or_remove(&mut out, TagKey::RecordingDate, &m.date);
    let ghost before_genre = writes_view(out@);
    match &m.genre {
        Some(genres) => {
            let joined = string_from(join_with(genres.as_slice(), "; ").as_slice());
            push_set_or_remove(&mut out, TagKey::Genre, &Some(joined));
        },
        None => {
            out.push(TagWrite::Remove(TagKey::Genre));
        },
    }
    assert(writes_view(out@) =~= before_genre + genre_field(m.genre));
    let ghost before_composer = writes_view(out@);
    out.push(TagWrite::Remove(TagKey::Composer));
    match &m.composer {
        Some(cs) => {
            let mut k: usize = 0;
            while k < cs.len()
                invariant
                    0 <= k <= cs@.len(),
                    writes_view(out@) == before_composer + seq![WriteView::Remove(TagKey::Composer)] + Seq::new(
                        k as nat,
                        |i: int| WriteView::Push(TagKey::Composer, cs@[i]@),
                    ),
                decreases cs@.len() - k,
            {
                let ghost b = out@;
                let c = cs[k].clone();
                assert(c@ == cs@[k as int]@);
                out.push(TagWrite::Push(TagKey::Composer, c));
                assert(out@ == b.push(TagWrite::Push(TagKey::Composer, c)));
                assert(writes_view(out@) =~= writes_view(b).push(WriteView::Push(TagKey::Composer, cs@[k as int]@)));
                assert(writes_view(out@) =~= before_composer + seq![WriteView::Remove(TagKey::Composer)] + Seq::new(
                    (k + 1) as nat,
                    |i: int| WriteView::Push(TagKey::Composer, cs@[i]@),
                ));
                k = k + 1;
            }
        },
        None => {},
    }
    assert(writes_view(out@) =~= before_composer + composer_field(m.composer));
    push_set_or_remove(&mut out, TagKey::Comment, &m.comment);
    push_set_or_remove(&mut out, TagKey::Lyrics, &m.lyrics);
    push_set_or_remove(&mut out, TagKey::Isrc, &m.isrc);
    push_set_or_remove(&mut out, TagKey::MusicBrainzRecordingId, &m.musicbrainz_track_id);
    push_set_or_remove(&mut out, TagKey::MusicBrainzReleaseId, &m.musicbrainz_release_id);
    push_set_or_remove(&mut out, TagKey::MusicBrainzArtistId, &m.musicbrainz_artist_id);
    push_set_or_remove(&mut out, TagKey::MusicBrainzReleaseGroupId, &m.musicbrainz_release_group_id);
    assert(writes_view(out@) =~= writes_spec(*m));
    out
}

/// A key of an item of a tag: one of the keys with a field, or another
/// key, by name.
pub ghost enum ItemKeyModel {
    Known(TagKey),
    Other(Seq<char>),
}

/// Items of a tag, in order, as key and text.
pub open spec fn drop_key(items: Seq<(ItemKeyModel, Seq<char>)>, k: TagKey) -> Seq<(ItemKeyModel, Seq<char>)>
    decreases items.len(),
{
    if items.len() == 0 {
        items
    } else {
        let r = drop_key(items.drop_last(), k);
        if items.last().0 == ItemKeyModel::Known(k) {
            r
        } else {
            r.push(items.last())
        }
    }
}

/// What an operation does to a tag's items.
pub open spec fn apply_write(items: Seq<(ItemKeyModel, Seq<char>)>, w: WriteView) -> Seq<(ItemKeyModel, Seq<char>)> {
    match w {
        WriteView::Remove(k) => drop_key(items, k),
        WriteView::Push(k, v) => items.push((ItemKeyModel::Known(k), v)),
        WriteView::Insert(k, v) => drop_key(items, k).push((ItemKeyModel::Known(k), v)),
        WriteView::SetYear(y) => drop_key(items, TagKey::Year).push((ItemKeyModel::Known(TagKey::Year), decimal(y as nat))),
        WriteView::RemoveYear => drop_key(drop_key(items, TagKey::Year), TagKey::RecordingDate),
    }
}

pub open spec fn apply_writes(items: Seq<(ItemKeyModel, Seq<char>)>, ws: Seq<WriteView>) -> Seq<(ItemKeyModel, Seq<char>)>
    decreases ws.len(),
{
    if ws.len() == 0 {
        items
    } else {
        apply_write(apply_writes(items, ws.drop_last()), ws.last())
    }
}

/// The texts of the items with key `q`, in order.
pub open spec fn texts_for(items: Seq<(ItemKeyModel, Seq<char>)>, q: ItemKeyModel) -> Seq<Seq<char>>
    decreases items.len(),
{
    if items.len() == 0 {
        Seq::empty()
    } else {
        let r = texts_for(items.drop_last(), q);
        if items.last().0 == q {
            r.push(items.last().1)
        } else {
            r
        }
    }
}

/// The texts a field of `m` leaves under its key once written.
pub open spec fn nonempty_text(v: Option<Seq<char>>) -> Seq<Seq<char>> {
    match v {
        Some(x) => if x.len() > 0 {
            seq![x]
        } else {
            Seq::empty()
        },
        None => Seq::empty(),
    }
}

pub open spec fn number_text(v: Option<u32>) -> Seq<Seq<char>> {
    match v {
        Some(n) => seq![decimal(n as nat)],
        None => Seq::empty(),
    }
}

pub open spec fn field_texts(m: TrackMetadata, k: TagKey) -> Seq<Seq<char>> {
    match k {
        TagKey::TrackTitle => nonempty_text(opt_str(m.title)),
        TagKey::TrackArtist => nonempty_text(opt_str(m.artist)),
        TagKey::AlbumArtist => nonempty_text(opt_str(m.album_artist)),
        TagKey::AlbumTitle => nonempty_text(opt_str(m.album)),
        TagKey::TrackNumber => number_text(m.track_number),
        TagKey::TrackTotal => number_text(m.total_tracks),
        TagKey::DiscNumber => number_text(m.disc_number),
        TagKey::DiscTotal => number_text(m.total_discs),
        TagKey::Year => match m.year {
            Some(y) => seq![decimal((y as u32) as nat)],
            None => Seq::empty(),
        },
        TagKey::RecordingDate => nonempty_text(opt_str(m.date)),
        TagKey::Genre => match m.genre {
            Some(g) => nonempty_text(Some(join(strs(g@), "; "@))),
            None => Seq::empty(),
        },
        TagKey::Composer => match m.composer {
            Some(cs) => strs(cs@),
            None => Seq::empty(),
        },
        TagKey::Comment => nonempty_text(opt_str(m.comment)),
        TagKey::Lyrics => nonempty_text(opt_str(m.lyrics)),
        TagKey::Isrc => nonempty_text(opt_str(m.isrc)),
        TagKey::MusicBrainzRecordingId => nonempty_text(opt_str(m.musicbrainz_track_id)),
        TagKey::MusicBrainzReleaseId => nonempty_text(opt_str(m.musicbrainz_release_id)),
        TagKey::MusicBrainzArtistId => nonempty_text(opt_str(m.musicbrainz_artist_id)),
        TagKey::MusicBrainzReleaseGroupId => nonempty_text(opt_str(m.musicbrainz_release_group_id)),
    }
}

/// What an operation does to the texts under key `q`.
pub open spec fn write_effect(t: Seq<Seq<char>>, w: WriteView, q: ItemKeyModel) -> Seq<Seq<char>> {
    match w {
        WriteView::Remove(k) => if q == ItemKeyModel::Known(k) {
            Seq::empty()
        } else {
            t
        },
        WriteView::Push(k, v) => if q == ItemKeyModel::Known(k) {
            t.push(v)
        } else {
            t
        },
        WriteView::Insert(k, v) => if q == ItemKeyModel::Known(k) {
            seq![v]
        } else {
            t
        },
        WriteView::SetYear(y) => if q == ItemKeyModel::Known(TagKey::Year) {
            seq![decimal(y as nat)]
        } else {
            t
        },
        WriteView::RemoveYear => if q == ItemKeyModel::Known(TagKey::Year) || q == ItemKeyModel::Known(TagKey::RecordingDate) {
            Seq::empty()
        } else {
            t
        },
    }
}

pub open spec fn effects(t: Seq<Seq<char>>, ws: Seq<WriteView>, q: ItemKeyModel) -> Seq<Seq<char>>
    decreases ws.len(),
{
    if ws.len() == 0 {
        t
    } else {
        write_effect(effects(t, ws.drop_last(), q), ws.last(), q)
    }
}

proof fn lemma_texts_drop_key(items: Seq<(ItemKeyModel, Seq<char>)>, k: TagKey, q: ItemKeyModel)
    ensures
        texts_for(drop_key(items, k), q) == if q == ItemKeyModel::Known(k) {
            Seq::<Seq<char>>::empty()
        } else {
            texts_for(items, q)
        },
    decreases items.len(),
{
    if items.len() > 0 {
        let d = items.drop_last();
        let x = items.last();
        lemma_texts_drop_key(d, k, q);
        let r = drop_key(d, k);
        assert(r.push(x).drop_last() =~= r);
        assert(r.push(x).last() == x);
    }
}

proof fn lemma_texts_apply_all(items: Seq<(ItemKeyModel, Seq<char>)>, ws: Seq<WriteView>, q: ItemKeyModel)
    ensures
        texts_for(apply_writes(items, ws), q) == effects(texts_for(items, q), ws, q),
    decreases ws.len(),
{
    if ws.len() > 0 {
        lemma_texts_apply_all(items, ws.drop_last(), q);
        let before = apply_writes(items, ws.drop_last());
        match ws.last() {
            WriteView::Remove(k) => {
                lemma_texts_drop_key(before, k, q);
            },
            WriteView::Push(k, v) => {
                assert(before.push((ItemKeyModel::Known(k), v)).drop_last() =~= before);
            },
            WriteView::SetYear(y) => {
                let k = TagKey::Year;
                let v = decimal(y as nat);
                lemma_texts_drop_key(before, k, q);
                let dk = drop_key(before, k);
                assert(dk.push((ItemKeyModel::Known(k), v)).drop_last() =~= dk);
                assert(texts_for(dk.push((ItemKeyModel::Known(k), v)), q) == if ItemKeyModel::Known(k) == q {
                    texts_for(dk, q).push(v)
                } else {
                    texts_for(dk, q)
                });
                if q == ItemKeyModel::Known(k) {
                    assert(Seq::<Seq<char>>::empty().push(v) =~= seq![v]);
                }
            },
            WriteView::RemoveYear => {
                lemma_texts_drop_key(before, TagKey::Year, q);
                lemma_texts_drop_key(drop_key(before, TagKey::Year), TagKey::RecordingDate, q);
            },
            WriteView::Insert(k, v) => {
                lemma_texts_drop_key(before, k, q);
                let dk = drop_key(before, k);
                assert(dk.push((ItemKeyModel::Known(k), v)).drop_last() =~= dk);
                assert(texts_for(dk.push((ItemKeyModel::Known(k), v)), q) == if ItemKeyModel::Known(k) == q {
                    texts_for(dk, q).push(v)
                } else {
                    texts_for(dk, q)
                });
                if q == ItemKeyModel::Known(k) {
                    assert(Seq::<Seq<char>>::empty().push(v) =~= seq![v]);
                }
            },
        }
    }
}

proof fn lemma_effects_concat(t: Seq<Seq<char>>, a: Seq<WriteView>, b: Seq<WriteView>, q: ItemKeyModel)
    ensures
        effects(t, a + b, q) == effects(effects(t, a, q), b, q),
    decreases b.len(),
{
    if b.len() == 0 {
        assert(a + b =~= a);
    } else {
        lemma_effects_concat(t, a, b.drop_last(), q);
        assert((a + b).drop_last() =~= a + b.drop_last());
        assert((a + b).last() == b.last());
    }
}

proof fn lemma_effects_one(t: Seq<Seq<char>>, a: WriteView, q: ItemKeyModel)
    ensures
        effects(t, seq![a], q) == write_effect(t, a, q),
{
    assert(seq![a].drop_last() =~= Seq::<WriteView>::empty());
    assert(effects(t, Seq::<WriteView>::empty(), q) == t);
}

proof fn lemma_effects_two(t: Seq<Seq<char>>, a: WriteView, b: WriteView, q: ItemKeyModel)
    ensures
        effects(t, seq![a, b], q) == write_effect(write_effect(t, a, q), b, q),
{
    assert(seq![a, b].drop_last() =~= seq![a]);
    lemma_effects_one(t, a, q);
}

proof fn lemma_set_or_remove_effect(t: Seq<Seq<char>>, k: TagKey, v: Option<Seq<char>>, q: ItemKeyModel)
    ensures
        effects(t, set_or_remove(k, v), q) == if q == ItemKeyModel::Known(k) {
            nonempty_text(v)
        } else {
            t
        },
{
    match v {
        Some(x) => {
            if x.len() > 0 {
                assert(set_or_remove(k, v) =~= seq![WriteView::Remove(k), WriteView::Push(k, x)]);
                lemma_effects_two(t, WriteView::Remove(k), WriteView::Push(k, x), q);
                assert(Seq::<Seq<char>>::empty().push(x) =~= seq![x]);
            } else {
                assert(set_or_remove(k, v) =~= seq![WriteView::Remove(k)]);
                lemma_effects_one(t, WriteView::Remove(k), q);
            }
        },
        None => {
            assert(set_or_remove(k, v) =~= seq![WriteView::Remove(k)]);
            lemma_effects_one(t, WriteView::Remove(k), q);
        },
    }
}

proof fn lemma_number_field_effect(t: Seq<Seq<char>>, k: TagKey, v: Option<u32>, q: ItemKeyModel)
    ensures
        effects(t, number_field(k, v), q) == if q == ItemKeyModel::Known(k) {
            number_text(v)
        } else {
            t
        },
{
    match v {
        Some(n) => lemma_effects_one(t, WriteView::Insert(k, decimal(n as nat)), q),
        None => lemma_effects_one(t, WriteView::Remove(k), q),
    }
}

proof fn lemma_year_field_effect(t: Seq<Seq<char>>, v: Option<i32>, q: ItemKeyModel)
    ensures
        effects(t, year_field(v), q) == if q == ItemKeyModel::Known(TagKey::Year) {
            match v {
                Some(y) => seq![decimal((y as u32) as nat)],
                None => Seq::<Seq<char>>::empty(),
            }
        } else if q == ItemKeyModel::Known(TagKey::RecordingDate) && v is None {
            Seq::<Seq<char>>::empty()
        } else {
            t
        },
{
    match v {
        Some(y) => lemma_effects_one(t, WriteView::SetYear(y as u32), q),
        None => lemma_effects_one(t, WriteView::RemoveYear, q),
    }
}

proof fn lemma_genre_field_effect(t: Seq<Seq<char>>, v: Option<Vec<String>>, q: ItemKeyModel)
    ensures
        effects(t, genre_field(v), q) == if q == ItemKeyModel::Known(TagKey::Genre) {
            match v {
                Some(g) => nonempty_text(Some(join(strs(g@), "; "@))),
                None => Seq::<Seq<char>>::empty(),
            }
        } else {
            t
        },
{
    match v {
        Some(g) => {
            lemma_set_or_remove_effect(t, TagKey::Genre, Some(join(strs(g@), "; "@)), q);
        },
        None => {
            lemma_effects_one(t, WriteView::Remove(TagKey::Genre), q);
        },
    }
}

proof fn lemma_pushes_effect(t: Seq<Seq<char>>, cs: Seq<String>, n: int, q: ItemKeyModel)
    requires
        0 <= n <= cs.len(),
    ensures
        effects(t, Seq::new(n as nat, |i: int| WriteView::Push(TagKey::Composer, cs[i]@)), q) == if q
            == ItemKeyModel::Known(TagKey::Composer) {
            t + strs(cs).subrange(0, n)
        } else {
            t
        },
    decreases n,
{
    let ws = Seq::new(n as nat, |i: int| WriteView::Push(TagKey::Composer, cs[i]@));
    if n > 0 {
        lemma_pushes_effect(t, cs, n - 1, q);
        assert(ws.drop_last() =~= Seq::new((n - 1) as nat, |i: int| WriteView::Push(TagKey::Composer, cs[i]@)));
        if q == ItemKeyModel::Known(TagKey::Composer) {
            assert(t + strs(cs).subrange(0, n) =~= (t + strs(cs).subrange(0, n - 1)).push(cs[n - 1]@));
        }
    } else {
        assert(t + strs(cs).subrange(0, 0) =~= t);
    }
}

proof fn lemma_composer_field_effect(t: Seq<Seq<char>>, v: Option<Vec<String>>, q: ItemKeyModel)
    ensures
        effects(t, composer_field(v), q) == if q == ItemKeyModel::Known(TagKey::Composer) {
            match v {
                Some(cs) => strs(cs@),
                None => Seq::<Seq<char>>::empty(),
            }
        } else {
            t
        },
{
    let head = seq![WriteView::Remove(TagKey::Composer)];
    lemma_effects_one(t, WriteView::Remove(TagKey::Composer), q);
    let t0 = effects(t, head, q);
    match v {
        Some(cs) => {
            let pushes = Seq::new(cs@.len(), |i: int| WriteView::Push(TagKey::Composer, cs@[i]@));
            assert(composer_field(v) =~= head + pushes);
            lemma_effects_concat(t, head, pushes, q);
            lemma_pushes_effect(t0, cs@, cs@.len() as int, q);
            assert(strs(cs@).subrange(0, cs@.len() as int) =~= strs(cs@));
            assert(Seq::<Seq<char>>::empty() + strs(cs@) =~= strs(cs@));
        },
        None => {
            assert(composer_field(v) =~= head + Seq::<WriteView>::empty());
            assert(head + Seq::<WriteView>::empty() =~= head);
        },
    }
}

/// Writing `m` leaves under each of its keys exactly what its field holds
/// (a text field when set and not empty, a number as decimal digits, the
/// genres joined with `"; "`, every composer), whatever the tag held there
/// before, and leaves the items of every other key as they were. The year
/// is stated for tags whose format has a year item.
pub proof fn law_written_tag_holds_the_metadata(items: Seq<(ItemKeyModel, Seq<char>)>, m: TrackMetadata, q: ItemKeyModel)
    ensures
        texts_for(apply_writes(items, writes_spec(m)), q) == match q {
            ItemKeyModel::Known(k) => field_texts(m, k),
            ItemKeyModel::Other(_) => texts_for(items, q),
        },
{
    lemma_texts_apply_all(items, writes_spec(m), q);
    let t = texts_for(items, q);
    assert(effects(t, writes_spec(m), q) == match q {
        ItemKeyModel::Known(k) => field_texts(m, k),
        ItemKeyModel::Other(_) => t,
    }) by {
            let w0 = set_or_remove(TagKey::TrackTitle, opt_str(m.title));
            let t0 = effects(t, w0, q);
            lemma_set_or_remove_effect(t, TagKey::TrackTitle, opt_str(m.title), q);
            let g1 = set_or_remove(TagKey::TrackArtist, opt_str(m.artist));
            let w1 = w0 + g1;
            lemma_effects_concat(t, w0, g1, q);
            lemma_set_or_remove_effect(t0, TagKey::TrackArtist, opt_str(m.artist), q);
            let t1 = effects(t, w1, q);
            let g2 = set_or_remove(TagKey::AlbumArtist, opt_str(m.album_artist));
            let w2 = w1 + g2;
            lemma_effects_concat(t, w1, g2, q);
            lemma_set_or_remove_effect(t1, TagKey::AlbumArtist, opt_str(m.album_artist), q);
            let t2 = effects(t, w2, q);
            let g3 = set_or_remove(TagKey::AlbumTitle, opt_str(m.album));
            let w3 = w2 + g3;
            lemma_effects_concat(t, w2, g3, q);
            lemma_set_or_remove_effect(t2, TagKey::AlbumTitle, opt_str(m.album), q);
            let t3 = effects(t, w3, q);
            let g4 = number_field(TagKey::TrackNumber, m.track_number);
            let w4 = w3 + g4;
            lemma_effects_concat(t, w3, g4, q);
            lemma_number_field_effect(t3, TagKey::TrackNumber, m.track_number, q);
            let t4 = effects(t, w4, q);
            let g5 = number_field(TagKey::TrackTotal, m.total_tracks);
            let w5 = w4 + g5;
            lemma_effects_concat(t, w4, g5, q);
            lemma_number_field_effect(t4, TagKey::TrackTotal, m.total_tracks, q);
            let t5 = effects(t, w5, q);
            let g6 = number_field(TagKey::DiscNumber, m.disc_number);
            let w6 = w5 + g6;
            lemma_effects_concat(t, w5, g6, q);
            lemma_number_field_effect(t5, TagKey::DiscNumber, m.disc_number, q);
            let t6 = effects(t, w6, q);
            let g7 = number_field(TagKey::DiscTotal, m.total_discs);
            let w7 = w6 + g7;
            lemma_effects_concat(t, w6, g7, q);
            lemma_number_field_effect(t6, TagKey::DiscTotal, m.total_discs, q);
            let t7 = effects(t, w7, q);
            let g8 = year_field(m.year);
            let w8 = w7 + g8;
            lemma_effects_concat(t, w7, g8, q);
            lemma_year_field_effect(t7, m.year, q);
            let t8 = effects(t, w8, q);
            let g9 = set_or_remove(TagKey::RecordingDate, opt_str(m.date));
            let w9 = w8 + g9;
            lemma_effects_concat(t, w8, g9, q);
            lemma_set_or_remove_effect(t8, TagKey::RecordingDate, opt_str(m.date), q);
            let t9 = effects(t, w9, q);
            let g10 = genre_field(m.genre);
            let w10 = w9 + g10;
            lemma_effects_concat(t, w9, g10, q);
            lemma_genre_field_effect(t9, m.genre, q);
            let t10 = effects(t, w10, q);
            let g11 = composer_field(m.composer);
            let w11 = w10 + g11;
            lemma_effects_concat(t, w10, g11, q);
            lemma_composer_field_effect(t10, m.composer, q);
            let t11 = effects(t, w11, q);
            let g12 = set_or_remove(TagKey::Comment, opt_str(m.comment));
            let w12 = w11 + g12;
            lemma_effects_concat(t, w11, g12, q);
            lemma_set_or_remove_effect(t11, TagKey::Comment, opt_str(m.comment), q);
            let t12 = effects(t, w12, q);
            let g13 = set_or_remove(TagKey::Lyrics, opt_str(m.lyrics));
            let w13 = w12 + g13;
            lemma_effects_concat(t, w12, g13, q);
            lemma_set_or_remove_effect(t12, TagKey::Lyrics, opt_str(m.lyrics), q);
            let t13 = effects(t, w13, q);
            let g14 = set_or_remove(TagKey::Isrc, opt_str(m.isrc));
            let w14 = w13 + g14;
            lemma_effects_concat(t, w13, g14, q);
            lemma_set_or_remove_effect(t13, TagKey::Isrc, opt_str(m.isrc), q);
            let t14 = effects(t, w14, q);
            let g15 = set_or_remove(TagKey::MusicBrainzRecordingId, opt_str(m.musicbrainz_track_id));
            let w15 = w14 + g15;
            lemma_effects_concat(t, w14, g15, q);
            lemma_set_or_remove_effect(t14, TagKey::MusicBrainzRecordingId, opt_str(m.musicbrainz_track_id), q);
            let t15 = effects(t, w15, q);
            let g16 = set_or_remove(TagKey::MusicBrainzReleaseId, opt_str(m.musicbrainz_release_id));
            let w16 = w15 + g16;
            lemma_effects_concat(t, w15, g16, q);
            lemma_set_or_remove_effect(t15, TagKey::MusicBrainzReleaseId, opt_str(m.musicbrainz_release_id), q);
            let t16 = effects(t, w16, q);
            let g17 = set_or_remove(TagKey::MusicBrainzArtistId, opt_str(m.musicbrainz_artist_id));
            let w17 = w16 + g17;
            lemma_effects_concat(t, w16, g17, q);
            lemma_set_or_remove_effect(t16, TagKey::MusicBrainzArtistId, opt_str(m.musicbrainz_artist_id), q);
            let t17 = effects(t, w17, q);
            let g18 = set_or_remove(TagKey::MusicBrainzReleaseGroupId, opt_str(m.musicbrainz_release_group_id));
            let w18 = w17 + g18;
            lemma_effects_concat(t, w17, g18, q);
            lemma_set_or_remove_effect(t17, TagKey::MusicBrainzReleaseGroupId, opt_str(m.musicbrainz_release_group_id), q);
            let t18 = effects(t, w18, q);
        assert(w18 =~= writes_spec(m));
    }
}

} // verus!
