//! Chapter lists: the shared model, and the formats that store them.
pub mod detect;
pub mod ffprobe;
pub mod mp3;
pub mod mp4;
pub mod vorbis;

use vstd::prelude::*;

use crate::error::NotataError;
use crate::paths::{extension, path_extension};
use crate::text::{chars_of, decimal, format_u64, lowercase, push_all, str_eq, string_from, to_lowercase};

verus! {

/// One chapter of an audio or video file. Times are in milliseconds.
#[derive(Debug, Clone)]
pub struct Chapter {
    pub id: String,
    pub title: String,
    pub start_ms: u64,
    pub end_ms: u64,
}

/// A chapter as the contracts speak of it.
pub ghost struct ChapterView {
    pub id: Seq<char>,
    pub title: Seq<char>,
    pub start_ms: nat,
    pub end_ms: nat,
}

pub open spec fn chapter_view(c: Chapter) -> ChapterView {
    ChapterView { id: c.id@, title: c.title@, start_ms: c.start_ms as nat, end_ms: c.end_ms as nat }
}

pub open spec fn chapters_view(cs: Seq<Chapter>) -> Seq<ChapterView> {
    Seq::new(cs.len(), |i: int| chapter_view(cs[i]))
}

/// The id given to the chapter numbered `n`: `chp` and the number.
pub open spec fn chapter_id_spec(n: nat) -> Seq<char> {
    "chp"@ + decimal(n)
}

pub fn chapter_id(n: u64) -> (r: String)
    ensures
        r@ == chapter_id_spec(n as nat),
{
    let mut v = chars_of("chp");
    proof {
        reveal_strlit("chp");
    }
    let d = format_u64(n);
    push_all(&mut v, d.as_slice());
    string_from(v.as_slice())
}

/// A copy of a chapter with the same fields.
pub fn clone_chapter(c: &Chapter) -> (r: Chapter)
    ensures
        chapter_view(r) == chapter_view(*c),
{
    Chapter { id: c.id.clone(), title: c.title.clone(), start_ms: c.start_ms, end_ms: c.end_ms }
}

/// Copies of the chapters of a slice, in order.
pub fn clone_chapters(cs: &[Chapter]) -> (r: Vec<Chapter>)
    ensures
        chapters_view(r@) == chapters_view(cs@),
{
    let mut out: Vec<Chapter> = Vec::new();
    let mut i: usize = 0;
    while i < cs.len()
        invariant
            0 <= i <= cs@.len(),
            chapters_view(out@) == chapters_view(cs@.subrange(0, i as int)),
        decreases cs@.len() - i,
    {
        let ghost before = out@;
        out.push(clone_chapter(&cs[i]));
        proof {
            assert(chapters_view(out@) =~= chapters_view(before).push(chapter_view(cs@[i as int])));
            assert(chapters_view(cs@.subrange(0, i + 1)) =~= chapters_view(cs@.subrange(0, i as int)).push(
                chapter_view(cs@[i as int]),
            ));
        }
        i = i + 1;
    }
    assert(cs@.subrange(0, i as int) =~= cs@);
    out
}

/// `c` placed into `s` after every chapter that starts no later than it,
/// scanning from the back: one step of a stable sort by start time.
pub open spec fn insert_by_start(s: Seq<ChapterView>, c: ChapterView) -> Seq<ChapterView>
    decreases s.len(),
{
    if s.len() == 0 {
        seq![c]
    } else if s.last().start_ms <= c.start_ms {
        s.push(c)
    } else {
        insert_by_start(s.drop_last(), c).push(s.last())
    }
}

/// The chapters ordered by start time; chapters that start together keep
/// their order (a stable sort, as `sort_by_key` is).
pub open spec fn sort_by_start_spec(s: Seq<ChapterView>) -> Seq<ChapterView>
    decreases s.len(),
{
    if s.len() == 0 {
        Seq::empty()
    } else {
        insert_by_start(sort_by_start_spec(s.drop_last()), s.last())
    }
}

pub open spec fn sorted_by_start(s: Seq<ChapterView>) -> bool {
    forall|i: int, j: int| 0 <= i <= j < s.len() ==> s[i].start_ms <= s[j].start_ms
}

/// Where `insert_by_start` puts `c`: after the last chapter that starts no
/// later than `c`.
proof fn lemma_insert_at(s: Seq<ChapterView>, c: ChapterView, p: int)
    requires
        0 <= p <= s.len(),
        forall|k: int| p <= k < s.len() ==> #[trigger] s[k].start_ms > c.start_ms,
        p == 0 || s[p - 1].start_ms <= c.start_ms,
    ensures
        insert_by_start(s, c) == s.insert(p, c),
    decreases s.len(),
{
    if s.len() == 0 {
        assert(s.insert(p, c) =~= seq![c]);
    } else if s.last().start_ms <= c.start_ms {
        assert(p == s.len());
        assert(s.insert(p, c) =~= s.push(c));
    } else {
        lemma_insert_at(s.drop_last(), c, p);
        assert(s.drop_last().insert(p, c).push(s.last()) =~= s.insert(p, c));
    }
}

proof fn lemma_insert_keeps_sorted(s: Seq<ChapterView>, c: ChapterView)
    requires
        sorted_by_start(s),
    ensures
        sorted_by_start(insert_by_start(s, c)),
        insert_by_start(s, c).len() == s.len() + 1,
        insert_by_start(s, c).to_multiset() == s.to_multiset().insert(c),
    decreases s.len(),
{
    broadcast use vstd::seq_lib::group_to_multiset_ensures;
    if s.len() == 0 {
        assert(seq![c] =~= Seq::<ChapterView>::empty().push(c));
    } else if s.last().start_ms <= c.start_ms {
    } else {
        lemma_insert_keeps_sorted(s.drop_last(), c);
        let t = insert_by_start(s.drop_last(), c);
        assert(s =~= s.drop_last().push(s.last()));
        assert forall|i: int, j: int| 0 <= i <= j < t.push(s.last()).len() implies t.push(
            s.last(),
        )[i].start_ms <= t.push(s.last())[j].start_ms by {
            if j == t.len() && i < t.len() {
                let x = t[i];
                assert(t.to_multiset().count(x) > 0);
                assert(s.drop_last().to_multiset().insert(c).count(x) > 0);
                if x != c {
                    assert(s.drop_last().to_multiset().count(x) > 0);
                    assert(s.drop_last().contains(x));
                    let k = choose|k: int| 0 <= k < s.drop_last().len() && s.drop_last()[k] == x;
                    assert(s[k] == x);
                }
            }
        }
    }
}

pub(crate) proof fn lemma_sort_spec(s: Seq<ChapterView>)
    ensures
        sorted_by_start(sort_by_start_spec(s)),
        sort_by_start_spec(s).len() == s.len(),
        sort_by_start_spec(s).to_multiset() == s.to_multiset(),
    decreases s.len(),
{
    broadcast use vstd::seq_lib::group_to_multiset_ensures;
    if s.len() > 0 {
        lemma_sort_spec(s.drop_last());
        lemma_insert_keeps_sorted(sort_by_start_spec(s.drop_last()), s.last());
        assert(s =~= s.drop_last().push(s.last()));
    }
}

/// The chapters ordered by start time, as a stable sort orders them.
pub fn sort_by_start(chapters: Vec<Chapter>) -> (r: Vec<Chapter>)
    ensures
        chapters_view(r@) == sort_by_start_spec(chapters_view(chapters@)),
        sorted_by_start(chapters_view(r@)),
        chapters_view(r@).to_multiset() == chapters_view(chapters@).to_multiset(),
{
    let ghost input = chapters_view(chapters@);
    let mut rest = chapters;
    let mut out: Vec<Chapter> = Vec::new();
    let ghost mut taken: int = 0;
    while rest.len() > 0
        invariant
            0 <= taken <= input.len(),
            chapters_view(rest@) == input.subrange(taken, input.len() as int),
            chapters_view(out@) == sort_by_start_spec(input.subrange(0, taken)),
        decreases rest@.len(),
    {
        let ghost old_rest = rest@;
        proof {
            assert(chapters_view(old_rest).len() == old_rest.len());
            assert(chapters_view(old_rest)[0] == input[taken]);
        }
        let c = rest.remove(0);
        proof {
            assert(chapter_view(c) == input[taken]);
        }
        let mut p = out.len();
        while p > 0 && out[p - 1].start_ms > c.start_ms
            invariant
                p <= out@.len(),
                forall|k: int| p <= k < out@.len() ==> #[trigger] chapters_view(out@)[k].start_ms > c.start_ms,
            decreases p,
        {
            p = p - 1;
        }
        let ghost before = chapters_view(out@);
        out.insert(p, c);
        proof {
            lemma_insert_at(before, chapter_view(c), p as int);
            assert(chapters_view(out@) =~= before.insert(p as int, chapter_view(c)));
            assert(input.subrange(0, taken + 1).drop_last() =~= input.subrange(0, taken));
            assert(input.subrange(0, taken + 1).last() == input[taken]);
            assert(rest@ =~= old_rest.subrange(1, old_rest.len() as int));
            assert(chapters_view(rest@) =~= chapters_view(old_rest).subrange(1, old_rest.len() as int));
            taken = taken + 1;
            assert(chapters_view(rest@) =~= input.subrange(taken, input.len() as int));
        }
    }
    proof {
        assert(input.subrange(0, taken) =~= input);
        lemma_sort_spec(input);
    }
    out
}

/// Each chapter but the last ends where the next one starts.
pub open spec fn fill_end_times_spec(s: Seq<ChapterView>) -> Seq<ChapterView> {
    Seq::new(
        s.len(),
        |i: int|
            if i + 1 < s.len() {
                ChapterView { end_ms: s[i + 1].start_ms, ..s[i] }
            } else {
                s[i]
            },
    )
}

/// Sets each chapter's end to the next chapter's start; the last chapter
/// keeps its end.
pub fn fill_end_times(chapters: &mut Vec<Chapter>)
    ensures
        chapters_view(final(chapters)@) == fill_end_times_spec(chapters_view(old(chapters)@)),
{
    let ghost orig = chapters_view(chapters@);
    let n = chapters.len();
    let last: usize = if n > 0 { n - 1 } else { 0 };
    let mut i: usize = 0;
    while i < last
        invariant
            last == (if n > 0 { n - 1 } else { 0 }),
            n == chapters@.len(),
            orig.len() == n,
            0 <= i <= n,
            forall|k: int| #![auto] i <= k < n ==> chapters_view(chapters@)[k] == orig[k],
            forall|k: int| #![auto] 0 <= k < i ==> chapters_view(chapters@)[k] == fill_end_times_spec(orig)[k],
        decreases n - i,
    {
        let next_start = chapters[i + 1].start_ms;
        chapters[i].end_ms = next_start;
        i = i + 1;
    }
    assert(chapters_view(chapters@) =~= fill_end_times_spec(orig));
}


/// Where a file's chapters are stored.
#[derive(Debug, Clone, Copy, PartialEq, Eq, Structural)]
pub enum ChapterFormat {
    /// ID3v2 `CHAP` frames (MP3).
    Id3,
    /// Vorbis comments (FLAC, Ogg, Opus).
    Vorbis,
    /// The `chpl` box (MP4, M4A, M4B).
    Mp4,
}

/// The file's extension, lowercased; empty when it has none.
pub open spec fn ext_lower(path: Seq<char>) -> Seq<char> {
    lowercase(
        match path_extension(path) {
            Some(e) => e,
            None => Seq::empty(),
        },
    )
}

pub open spec fn chapter_format_spec(path: Seq<char>) -> Result<ChapterFormat, Seq<char>> {
    let e = ext_lower(path);
    if e == "mp3"@ {
        Ok(ChapterFormat::Id3)
    } else if e == "flac"@ || e == "ogg"@ || e == "opus"@ {
        Ok(ChapterFormat::Vorbis)
    } else if e == "m4a"@ || e == "m4b"@ || e == "mp4"@ {
        Ok(ChapterFormat::Mp4)
    } else {
        Err("Chapters are not supported for ."@ + e + " files"@)
    }
}

/// A file's extension in lower case; empty when it has none.
pub fn extension_of(path: &str) -> (r: String)
    ensures
        r@ == ext_lower(path@),
{
    let raw = match extension(path) {
        Some(e) => e,
        None => String::new(),
    };
    to_lowercase(raw.as_str())
}

/// Which chapter store a file's extension selects, or the refusal for an
/// extension that has none.
pub fn chapter_format(path: &str) -> (r: Result<ChapterFormat, NotataError>)
    ensures
        match r {
            Ok(f) => chapter_format_spec(path@) == Ok::<ChapterFormat, Seq<char>>(f),
            Err(e) => e matches NotataError::Custom(m) && chapter_format_spec(path@) == Err::<ChapterFormat, Seq<char>>(m@),
        },
{
    let l = extension_of(path);
    let e = l.as_str();
    if str_eq(e, "mp3") {
        Ok(ChapterFormat::Id3)
    } else if str_eq(e, "flac") || str_eq(e, "ogg") || str_eq(e, "opus") {
        Ok(ChapterFormat::Vorbis)
    } else if str_eq(e, "m4a") || str_eq(e, "m4b") || str_eq(e, "mp4") {
        Ok(ChapterFormat::Mp4)
    } else {
        let mut v = chars_of("Chapters are not supported for .");
        push_all(&mut v, chars_of(e).as_slice());
        push_all(&mut v, chars_of(" files").as_slice());
        Err(NotataError::Custom(string_from(v.as_slice())))
    }
}

/// What the application read from a file for its chapters: the tag's
/// `CHAP` frames, its Vorbis comment items, or the bytes of an MP4 file.
#[derive(Debug, Clone)]
pub enum ChapterSource {
    Id3(Vec<mp3::Id3ChapterFrame>),
    Vorbis(Vec<vorbis::VorbisItem>),
    Mp4(Vec<u8>),
}

pub open spec fn source_chapters(s: ChapterSource) -> Seq<ChapterView> {
    match s {
        ChapterSource::Id3(frames) => mp3::id3_chapters_spec(frames@),
        ChapterSource::Vorbis(items) => vorbis::vorbis_chapters_spec(items@),
        ChapterSource::Mp4(data) => mp4::read_spec(data@),
    }
}

/// The chapters of a file, from what was read of it; the refusal for a
/// file whose extension stores no chapters.
pub fn read_chapters(path: &str, source: &ChapterSource) -> (r: Result<Vec<Chapter>, NotataError>)
    ensures
        match r {
            Ok(cs) => chapter_format_spec(path@) is Ok && chapters_view(cs@) == source_chapters(*source),
            Err(e) => e matches NotataError::Custom(m) && chapter_format_spec(path@) == Err::<ChapterFormat, Seq<char>>(m@),
        },
{
    match chapter_format(path) {
        Err(e) => Err(e),
        Ok(_) => Ok(
            match source {
                ChapterSource::Id3(frames) => mp3::id3_chapters(frames.as_slice()),
                ChapterSource::Vorbis(items) => vorbis::vorbis_chapters(items.as_slice()),
                ChapterSource::Mp4(data) => mp4::read_chapters_from_bytes(data.as_slice()),
            },
        ),
    }
}

/// What is in a file before its chapters are written: nothing needed for
/// an ID3 tag, the keys of a Vorbis comment block, the bytes of an MP4 file.
#[derive(Debug, Clone)]
pub enum ChapterTarget {
    Id3,
    Vorbis(Vec<String>),
    Mp4(Vec<u8>),
}

/// How a file changes to store a chapter list.
#[derive(Debug, Clone)]
pub enum ChapterUpdate {
    Id3(mp3::Id3ChapterPlan),
    Vorbis(vorbis::VorbisUpdate),
    Mp4(Vec<u8>),
}

/// The change that stores `chapters` in a file; the refusal for a file
/// whose extension stores no chapters, or an MP4 file without a `moov` box.
pub fn write_chapters(path: &str, chapters: &[Chapter], target: &ChapterTarget) -> (r: Result<ChapterUpdate, NotataError>)
    ensures
        match chapter_format_spec(path@) {
            Err(m) => r matches Err(e) && (e matches NotataError::Custom(t) && t@ == m),
            Ok(_) => match *target {
                ChapterTarget::Id3 => r matches Ok(u) && (u matches ChapterUpdate::Id3(p) && mp3::id3_plan_spec(
                    p,
                    chapters_view(chapters@),
                )),
                ChapterTarget::Vorbis(keys) => r matches Ok(u) && (u matches ChapterUpdate::Vorbis(v)
                    && vorbis::vorbis_update_spec(v, keys@, chapters_view(chapters@))),
                ChapterTarget::Mp4(data) => match r {
                    Ok(u) => u matches ChapterUpdate::Mp4(out) && mp4::write_spec(data@, chapters_view(chapters@))
                        == Some(out@),
                    Err(e) => mp4::write_spec(data@, chapters_view(chapters@)) is None && (e matches NotataError::Custom(t)
                        && t@ == "File has no moov atom"@),
                },
            },
        },
{
    match chapter_format(path) {
        Err(e) => Err(e),
        Ok(_) => match target {
            ChapterTarget::Id3 => Ok(ChapterUpdate::Id3(mp3::id3_plan(chapters))),
            ChapterTarget::Vorbis(keys) => Ok(ChapterUpdate::Vorbis(vorbis::vorbis_update(keys.as_slice(), chapters))),
            ChapterTarget::Mp4(data) => match mp4::write_chapters_to_bytes(data.as_slice(), chapters) {
                Ok(out) => Ok(ChapterUpdate::Mp4(out)),
                Err(e) => Err(e),
            },
        },
    }
}

} // verus!
