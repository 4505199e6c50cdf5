//! Chapters in ID3v2 tags (MP3): `CHAP` frames with a `TIT2` title frame,
//! listed by a `CTOC` table of contents.
use vstd::prelude::*;

use crate::chapters::{
    chapter_id_spec, chapter_view, chapters_view, clone_chapters, sort_by_start, sort_by_start_spec,
    Chapter, ChapterView,
};
use crate::error::NotataError;
use crate::text::{chars_of, str_eq};

verus! {

/// A `CHAP` frame as the library reads and writes it: its element id, its
/// start and end in milliseconds, and its sub-frames as id and text (`None`
/// for a frame that holds no text).
#[derive(Debug, Clone)]
pub struct Id3ChapterFrame {
    pub element_id: String,
    pub start_time: u32,
    pub end_time: u32,
    pub frames: Vec<(String, Option<String>)>,
}

/// The title: the text of the first `TIT2` sub-frame, empty when that frame
/// holds none or there is no such frame.
pub open spec fn frame_title(frames: Seq<(String, Option<String>)>) -> Seq<char>
    decreases frames.len(),
{
    if frames.len() == 0 {
        Seq::empty()
    } else if frames[0].0@ == "TIT2"@ {
        match frames[0].1 {
            Some(t) => t@,
            None => Seq::empty(),
        }
    } else {
        frame_title(frames.drop_first())
    }
}

pub open spec fn id3_chapter(f: Id3ChapterFrame) -> ChapterView {
    ChapterView {
        id: f.element_id@,
        title: frame_title(f.frames@),
        start_ms: f.start_time as nat,
        end_ms: f.end_time as nat,
    }
}

/// The chapters of the `CHAP` frames, ordered by start time.
pub open spec fn id3_chapters_spec(frames: Seq<Id3ChapterFrame>) -> Seq<ChapterView> {
    sort_by_start_spec(Seq::new(frames.len(), |i: int| id3_chapter(frames[i])))
}

fn title_of(frames: &Vec<(String, Option<String>)>) -> (r: String)
    ensures
        r@ == frame_title(frames@),
{
    let mut k: usize = 0;
    assert(frames@.subrange(0, frames@.len() as int) =~= frames@);
    while k < frames.len()
        invariant
            0 <= k <= frames@.len(),
            frame_title(frames@) == frame_title(frames@.subrange(k as int, frames@.len() as int)),
        decreases frames@.len() - k,
    {
        assert(frames@.subrange(k as int, frames@.len() as int).drop_first() =~= frames@.subrange(
            k + 1,
            frames@.len() as int,
        ));
        if str_eq(frames[k].0.as_str(), "TIT2") {
            return match &frames[k].1 {
                Some(t) => t.clone(),
                None => String::new(),
            };
        }
        k = k + 1;
    }
    String::new()
}

/// The chapters that a tag's `CHAP` frames describe, ordered by start.
pub fn id3_chapters(frames: &[Id3ChapterFrame]) -> (r: Vec<Chapter>)
    ensures
        chapters_view(r@) == id3_chapters_spec(frames@),
{
    let ghost want = Seq::new(frames@.len(), |i: int| id3_chapter(frames@[i]));
    let mut out: Vec<Chapter> = Vec::new();
    let mut k: usize = 0;
    while k < frames.len()
        invariant
            0 <= k <= frames@.len(),
            want == Seq::new(frames@.len(), |i: int| id3_chapter(frames@[i])),
            chapters_view(out@) == want.subrange(0, k as int),
        decreases frames@.len() - k,
    {
        let f = &frames[k];
        let c = Chapter {
            id: f.element_id.clone(),
            title: title_of(&f.frames),
            start_ms: f.start_time as u64,
            end_ms: f.end_time as u64,
        };
        let ghost before = out@;
        out.push(c);
        assert(chapters_view(out@) =~= chapters_view(before).push(chapter_view(c)));
        assert(want.subrange(0, k + 1) =~= want.subrange(0, k as int).push(want[k as int]));
        k = k + 1;
    }
    assert(want.subrange(0, k as int) =~= want);
    sort_by_start(out)
}

/// A `CHAP` frame by its views.
pub ghost struct Id3FrameView {
    pub element_id: Seq<char>,
    pub start_time: u32,
    pub end_time: u32,
    pub frames: Seq<(Seq<char>, Option<Seq<char>>)>,
}

pub open spec fn sub_frames_view(v: Seq<(String, Option<String>)>) -> Seq<(Seq<char>, Option<Seq<char>>)> {
    Seq::new(v.len(), |i: int| (v[i].0@, match v[i].1 {
        Some(t) => Some(t@),
        None => None,
    }))
}

pub open spec fn id3_frame_view(f: Id3ChapterFrame) -> Id3FrameView {
    Id3FrameView { element_id: f.element_id@, start_time: f.start_time, end_time: f.end_time, frames: sub_frames_view(f.frames@) }
}

pub open spec fn id3_frames_view(v: Seq<Id3ChapterFrame>) -> Seq<Id3FrameView> {
    Seq::new(v.len(), |i: int| id3_frame_view(v[i]))
}

/// What id3 reads from a file's bytes as the `CHAP` frames of its tag, in
/// the tag's order (none when the file holds no tag), or its error: a
/// function of the bytes alone, named rather than restated.
pub uninterp spec fn id3_chap_frames(bytes: Seq<u8>) -> Result<Seq<Id3FrameView>, Seq<char>>;

/// `id3::Tag::read_from2` over the bytes, with `no_tag_ok`, then
/// `Tag::chapters`, each frame by its id and text.
#[verifier::external_body]
fn read_id3_frames(bytes: &[u8]) -> (r: Result<Vec<Id3ChapterFrame>, String>)
    ensures
        match r {
            Ok(v) => id3_chap_frames(bytes@) == Ok::<Seq<Id3FrameView>, Seq<char>>(id3_frames_view(v@)),
            Err(e) => id3_chap_frames(bytes@) == Err::<Seq<Id3FrameView>, Seq<char>>(e@),
        },
{
    let tag = id3::no_tag_ok(id3::Tag::read_from2(std::io::Cursor::new(bytes))).map_err(|e| e.to_string())?;
    Ok(tag.iter().flat_map(|t| t.chapters()).map(|c| Id3ChapterFrame {
        element_id: c.element_id.clone(),
        start_time: c.start_time,
        end_time: c.end_time,
        frames: c.frames.iter().map(|f| (f.id().to_string(), f.content().text().map(|x| x.to_string()))).collect(),
    }).collect())
}

pub open spec fn title_of_view(frames: Seq<(Seq<char>, Option<Seq<char>>)>) -> Seq<char>
    decreases frames.len(),
{
    if frames.len() == 0 {
        Seq::empty()
    } else if frames[0].0 == "TIT2"@ {
        match frames[0].1 {
            Some(t) => t,
            None => Seq::empty(),
        }
    } else {
        title_of_view(frames.drop_first())
    }
}

/// The chapters that `CHAP` frames, by their views, describe, ordered by
/// start.
pub open spec fn id3_view_chapters(fv: Seq<Id3FrameView>) -> Seq<ChapterView> {
    sort_by_start_spec(Seq::new(fv.len(), |i: int| ChapterView {
        id: fv[i].element_id,
        title: title_of_view(fv[i].frames),
        start_ms: fv[i].start_time as nat,
        end_ms: fv[i].end_time as nat,
    }))
}

proof fn lemma_title_by_view(frames: Seq<(String, Option<String>)>)
    ensures
        frame_title(frames) == title_of_view(sub_frames_view(frames)),
    decreases frames.len(),
{
    if frames.len() > 0 {
        assert(sub_frames_view(frames.drop_first()) =~= sub_frames_view(frames).drop_first());
        lemma_title_by_view(frames.drop_first());
    }
}

proof fn lemma_id3_chapters_by_view(frames: Seq<Id3ChapterFrame>)
    ensures
        id3_chapters_spec(frames) == id3_view_chapters(id3_frames_view(frames)),
{
    let fv = id3_frames_view(frames);
    let a = Seq::new(frames.len(), |i: int| id3_chapter(frames[i]));
    let b = Seq::new(fv.len(), |i: int| ChapterView {
        id: fv[i].element_id,
        title: title_of_view(fv[i].frames),
        start_ms: fv[i].start_time as nat,
        end_ms: fv[i].end_time as nat,
    });
    assert forall|i: int| 0 <= i < a.len() implies a[i] == b[i] by {
        lemma_title_by_view(frames[i].frames@);
    }
    assert(a =~= b);
}

/// The chapters of an MP3 file's `CHAP` frames, read from its bytes and
/// ordered by start; the reader's error when its tag does not parse.
pub fn read_id3_chapters(bytes: &[u8]) -> (r: Result<Vec<Chapter>, NotataError>)
    ensures
        match id3_chap_frames(bytes@) {
            Ok(fv) => r matches Ok(cs) && chapters_view(cs@) == id3_view_chapters(fv),
            Err(m) => r matches Err(e) && (e matches NotataError::Custom(t) && t@ == m),
        },
{
    match read_id3_frames(bytes) {
        Ok(frames) => {
            proof {
                lemma_id3_chapters_by_view(frames@);
            }
            Ok(id3_chapters(frames.as_slice()))
        },
        Err(e) => Err(NotataError::Custom(e)),
    }
}

/// The element id a chapter is written under: its id, or `chp` and its
/// position (from 0) when it has none.
pub open spec fn element_id_for(c: ChapterView, i: nat) -> Seq<char> {
    if c.id.len() == 0 { chapter_id_spec(i) } else { c.id }
}

/// What a write puts in the tag: one `CHAP` frame per chapter in start
/// order, with 32-bit times and a `TIT2` title, and a table of contents
/// listing their ids in that order when there are any.
#[derive(Debug, Clone)]
pub struct Id3ChapterPlan {
    pub chapters: Vec<(String, u32, u32, String)>,
    pub toc: Vec<String>,
}

pub open spec fn plan_row(c: ChapterView, i: nat) -> (Seq<char>, nat, nat, Seq<char>) {
    (element_id_for(c, i), c.start_ms % 0x1_0000_0000, c.end_ms % 0x1_0000_0000, c.title)
}

pub open spec fn rows_view(v: Seq<(String, u32, u32, String)>) -> Seq<(Seq<char>, nat, nat, Seq<char>)> {
    Seq::new(v.len(), |i: int| (v[i].0@, v[i].1 as nat, v[i].2 as nat, v[i].3@))
}

/// `p` writes `chapters`: a frame per chapter in start order, and their ids.
pub open spec fn id3_plan_spec(p: Id3ChapterPlan, chapters: Seq<ChapterView>) -> bool {
    let sorted = sort_by_start_spec(chapters);
    &&& rows_view(p.chapters@) == Seq::new(sorted.len(), |i: int| plan_row(sorted[i], i as nat))
    &&& crate::book::archive::strings_view(p.toc@) == Seq::new(sorted.len(), |i: int| element_id_for(sorted[i], i as nat))
}

/// The frames that store `chapters` in an ID3 tag.
pub fn id3_plan(chapters: &[Chapter]) -> (r: Id3ChapterPlan)
    ensures
        id3_plan_spec(r, chapters_view(chapters@)),
{
    let sorted = sort_by_start(clone_chapters(chapters));
    let ghost sv = chapters_view(sorted@);
    let mut rows: Vec<(String, u32, u32, String)> = Vec::new();
    let mut toc: Vec<String> = Vec::new();
    let mut i: usize = 0;
    while i < sorted.len()
        invariant
            0 <= i <= sorted@.len(),
            sv == chapters_view(sorted@),
            rows_view(rows@) == Seq::new(i as nat, |j: int| plan_row(sv[j], j as nat)),
            crate::book::archive::strings_view(toc@) == Seq::new(i as nat, |j: int| element_id_for(sv[j], j as nat)),
        decreases sorted@.len() - i,
    {
        let c = &sorted[i];
        assert(sv[i as int] == chapter_view(*c));
        let id = if c.id.as_str().is_empty() {
            crate::chapters::chapter_id(i as u64)
        } else {
            c.id.clone()
        };
        let ghost rb = rows@;
        let ghost tb = toc@;
        let id2 = id.clone();
        let row = (id2, (c.start_ms % 0x1_0000_0000) as u32, (c.end_ms % 0x1_0000_0000) as u32, c.title.clone());
        rows.push(row);
        toc.push(id);
        assert(rows@ == rb.push(row));
        assert(toc@ == tb.push(id));
        assert(id@ == element_id_for(sv[i as int], i as nat));
        assert(rows_view(rows@) =~= rows_view(rb).push(plan_row(sv[i as int], i as nat)));
        assert(crate::book::archive::strings_view(toc@) =~= crate::book::archive::strings_view(tb).push(
            element_id_for(sv[i as int], i as nat),
        ));
        assert(rows_view(rows@) =~= Seq::new((i + 1) as nat, |j: int| plan_row(sv[j], j as nat)));
        assert(crate::book::archive::strings_view(toc@) =~= Seq::new((i + 1) as nat, |j: int| element_id_for(sv[j], j as nat)));
        i = i + 1;
    }
    Id3ChapterPlan { chapters: rows, toc }
}

} // verus!
