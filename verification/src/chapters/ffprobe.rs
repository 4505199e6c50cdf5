//! Chapters as `ffprobe` lists them, for containers no tag reader handles.
//! Running the probe and reading its decimal seconds are the application's
//! part; it hands over each chapter's times in milliseconds, when they
//! could be read.
use vstd::prelude::*;

use crate::chapters::{
    chapter_id, chapter_id_spec, chapters_view, sort_by_start, sort_by_start_spec, Chapter, ChapterView,
};
use crate::models::book::opt_str;

verus! {

/// A chapter the probe listed: its times, when they were readable, and its
/// title tag.
#[derive(Debug, Clone)]
pub struct ProbedChapter {
    pub start_ms: Option<u64>,
    pub end_ms: Option<u64>,
    pub title: Option<String>,
}

/// The chapters whose times could both be read, numbered by their place in
/// the probe's list (`chp1` for the first listed), an absent title empty.
pub open spec fn probed_views(list: Seq<ProbedChapter>) -> Seq<ChapterView>
    decreases list.len(),
{
    if list.len() == 0 {
        Seq::empty()
    } else {
        let c = list.last();
        probed_views(list.drop_last()) + match (c.start_ms, c.end_ms) {
            (Some(s), Some(e)) => seq![
                ChapterView {
                    id: chapter_id_spec(list.len()),
                    title: match opt_str(c.title) {
                        Some(t) => t,
                        None => Seq::empty(),
                    },
                    start_ms: s as nat,
                    end_ms: e as nat,
                },
            ],
            _ => Seq::empty(),
        }
    }
}

/// The probe's chapters ordered by start time (a stable order), or none
/// when not one of them had readable times.
pub fn probed_chapters(list: &Vec<ProbedChapter>) -> (r: Option<Vec<Chapter>>)
    ensures
        match r {
            Some(v) => probed_views(list@).len() > 0 && chapters_view(v@) == sort_by_start_spec(probed_views(list@)),
            None => probed_views(list@).len() == 0,
        },
{
    let mut out: Vec<Chapter> = Vec::new();
    let mut k: usize = 0;
    while k < list.len()
        invariant
            0 <= k <= list@.len(),
            chapters_view(out@) == probed_views(list@.subrange(0, k as int)),
        decreases list@.len() - k,
    {
        let ghost before = out@;
        assert(list@.subrange(0, k + 1).drop_last() =~= list@.subrange(0, k as int));
        assert(list@.subrange(0, k + 1).last() == list@[k as int]);
        let c = &list[k];
        match (c.start_ms, c.end_ms) {
            (Some(s), Some(e)) => {
                let title = match &c.title {
                    Some(t) => t.clone(),
                    None => String::new(),
                };
                let ch = Chapter { id: chapter_id(k as u64 + 1), title: title, start_ms: s, end_ms: e };
                out.push(ch);
                assert(chapters_view(out@) =~= chapters_view(before).push(crate::chapters::chapter_view(ch)));
            },
            _ => {},
        }
        k = k + 1;
    }
    assert(list@.subrange(0, k as int) =~= list@);
    if out.len() == 0 {
        None
    } else {
        Some(sort_by_start(out))
    }
}

/// A probed chapter both of whose times were read.
pub open spec fn readable(c: ProbedChapter) -> bool {
    c.start_ms is Some && c.end_ms is Some
}

proof fn lemma_probed_members(list: Seq<ProbedChapter>)
    ensures
        forall|i: int| 0 <= i < list.len() && #[trigger] readable(list[i]) ==> probed_views(list).contains(
            ChapterView {
                id: chapter_id_spec((i + 1) as nat),
                title: match opt_str(list[i].title) {
                    Some(t) => t,
                    None => Seq::empty(),
                },
                start_ms: list[i].start_ms->Some_0 as nat,
                end_ms: list[i].end_ms->Some_0 as nat,
            },
        ),
        forall|x: ChapterView| #[trigger] probed_views(list).contains(x) ==> exists|i: int|
            0 <= i < list.len() && #[trigger] readable(list[i]) && x.id == chapter_id_spec((i + 1) as nat)
                && x.start_ms == list[i].start_ms->Some_0 && x.end_ms == list[i].end_ms->Some_0,
    decreases list.len(),
{
    if list.len() > 0 {
        let init = list.drop_last();
        lemma_probed_members(init);
        let a = probed_views(init);
        let c = list.last();
        let n = list.len() - 1;
        let tail: Seq<ChapterView> = match (c.start_ms, c.end_ms) {
            (Some(s), Some(e)) => seq![
                ChapterView {
                    id: chapter_id_spec(list.len()),
                    title: match opt_str(c.title) {
                        Some(t) => t,
                        None => Seq::empty(),
                    },
                    start_ms: s as nat,
                    end_ms: e as nat,
                },
            ],
            _ => Seq::empty(),
        };
        let all = probed_views(list);
        assert(all == a + tail);
        assert forall|i: int| 0 <= i < list.len() && #[trigger] readable(list[i]) implies all.contains(
            ChapterView {
                id: chapter_id_spec((i + 1) as nat),
                title: match opt_str(list[i].title) {
                    Some(t) => t,
                    None => Seq::empty(),
                },
                start_ms: list[i].start_ms->Some_0 as nat,
                end_ms: list[i].end_ms->Some_0 as nat,
            },
        ) by {
            if i < n {
                assert(list[i] == init[i]);
                assert(readable(init[i]));
                let x = ChapterView {
                    id: chapter_id_spec((i + 1) as nat),
                    title: match opt_str(init[i].title) {
                        Some(t) => t,
                        None => Seq::empty(),
                    },
                    start_ms: init[i].start_ms->Some_0 as nat,
                    end_ms: init[i].end_ms->Some_0 as nat,
                };
                assert(a.contains(x));
                let k = choose|k: int| 0 <= k < a.len() && a[k] == x;
                assert(all[k] == x);
            } else {
                assert(all[a.len() as int] == tail[0]);
            }
        }
        assert forall|x: ChapterView| #[trigger] all.contains(x) implies exists|i: int|
            0 <= i < list.len() && #[trigger] readable(list[i]) && x.id == chapter_id_spec((i + 1) as nat)
                && x.start_ms == list[i].start_ms->Some_0 && x.end_ms == list[i].end_ms->Some_0 by {
            let k = choose|k: int| 0 <= k < all.len() && all[k] == x;
            if k < a.len() {
                assert(a[k] == x);
                assert(a.contains(x));
                let i = choose|i: int|
                    0 <= i < init.len() && #[trigger] readable(init[i]) && x.id == chapter_id_spec((i + 1) as nat)
                        && x.start_ms == init[i].start_ms->Some_0 && x.end_ms == init[i].end_ms->Some_0;
                assert(list[i] == init[i]);
            } else {
                assert(x == tail[0]);
                assert(readable(list[n]));
            }
        }
    }
}

/// Every chapter the probe listed with readable times appears, under the
/// id of its place in the list (`chp1` for the first), with exactly the
/// start and end it was listed with; every chapter given comes from such
/// an entry; and the chapters come ordered by start.
pub proof fn law_probed_chapters_keep_their_times(list: Seq<ProbedChapter>)
    ensures
        ({
            let out = sort_by_start_spec(probed_views(list));
            &&& forall|i: int, j: int| 0 <= i <= j < out.len() ==> out[i].start_ms <= out[j].start_ms
            &&& forall|i: int| 0 <= i < list.len() && #[trigger] readable(list[i]) ==> out.contains(
                ChapterView {
                    id: chapter_id_spec((i + 1) as nat),
                    title: match list[i].title {
                        Some(t) => t@,
                        None => Seq::empty(),
                    },
                    start_ms: list[i].start_ms->Some_0 as nat,
                    end_ms: list[i].end_ms->Some_0 as nat,
                },
            )
            &&& forall|x: ChapterView| #[trigger] out.contains(x) ==> exists|i: int|
                0 <= i < list.len() && #[trigger] readable(list[i]) && x.id == chapter_id_spec((i + 1) as nat)
                    && x.start_ms == list[i].start_ms->Some_0 && x.end_ms == list[i].end_ms->Some_0
        }),
{
    broadcast use vstd::seq_lib::group_to_multiset_ensures;
    let pv = probed_views(list);
    let out = sort_by_start_spec(pv);
    lemma_probed_members(list);
    crate::chapters::lemma_sort_spec(pv);
    assert forall|x: ChapterView| #[trigger] out.contains(x) <==> pv.contains(x) by {
        assert(out.to_multiset().count(x) == pv.to_multiset().count(x));
    }
    assert forall|i: int| 0 <= i < list.len() && #[trigger] readable(list[i]) implies out.contains(
        ChapterView {
            id: chapter_id_spec((i + 1) as nat),
            title: match list[i].title {
                Some(t) => t@,
                None => Seq::empty(),
            },
            start_ms: list[i].start_ms->Some_0 as nat,
            end_ms: list[i].end_ms->Some_0 as nat,
        },
    ) by {
        let x = ChapterView {
            id: chapter_id_spec((i + 1) as nat),
            title: match list[i].title {
                Some(t) => t@,
                None => Seq::empty(),
            },
            start_ms: list[i].start_ms->Some_0 as nat,
            end_ms: list[i].end_ms->Some_0 as nat,
        };
        assert(pv.contains(x));
    }
}

} // verus!
