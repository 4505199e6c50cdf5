//! QuickTime chapter tracks: a text track that another track names in its
//! `tref/chap` box, one sample per chapter.
use vstd::prelude::*;

use super::{
    body_of, body_spec, box_view, boxes, boxes_fit, boxes_view, code, find_box, find_spec, first_box,
    iter_boxes, same_code, BoxInfo, BoxSpec,
};
use crate::bytes::{be32, be64, copy_range, from_utf8_lossy, read_be32, read_be64, utf8_lossy};
use crate::chapters::{
    chapter_id, chapter_id_spec, chapter_view, chapters_view, fill_end_times, fill_end_times_spec, sort_by_start,
    sort_by_start_spec, Chapter, ChapterView,
};

verus! {

pub open spec fn opt_be32(s: Seq<u8>, off: int) -> Option<nat> {
    if 0 <= off && off + 4 <= s.len() { Some(be32(s, off)) } else { None }
}

pub open spec fn opt_be64(s: Seq<u8>, off: int) -> Option<nat> {
    if 0 <= off && off + 8 <= s.len() { Some(be64(s, off)) } else { None }
}

fn be_u32(s: &[u8], off: u64) -> (r: Option<u32>)
    ensures
        match r {
            Some(v) => opt_be32(s@, off as int) == Some(v as nat),
            None => opt_be32(s@, off as int) is None,
        },
{
    let n = s.len();
    if off > n as u64 || (n as u64) - off < 4 {
        return None;
    }
    Some(read_be32(s, off as usize))
}

fn be_u64(s: &[u8], off: u64) -> (r: Option<u64>)
    ensures
        match r {
            Some(v) => opt_be64(s@, off as int) == Some(v as nat),
            None => opt_be64(s@, off as int) is None,
        },
{
    let n = s.len();
    if off > n as u64 || (n as u64) - off < 8 {
        return None;
    }
    Some(read_be64(s, off as usize))
}

/// The 32-bit field of a full box that sits at byte 12, or at byte 20 when
/// the box's version byte is 1.
pub open spec fn versioned_u32(b: Seq<u8>) -> Option<nat> {
    if b.len() == 0 { None } else { opt_be32(b, if b[0] == 1 { 20 } else { 12 }) }
}

fn versioned_u32_exec(b: &[u8]) -> (r: Option<u32>)
    ensures
        match r {
            Some(v) => versioned_u32(b@) == Some(v as nat),
            None => versioned_u32(b@) is None,
        },
{
    if b.len() == 0 {
        return None;
    }
    let off: u64 = if b[0] == 1 { 20 } else { 12 };
    be_u32(b, off)
}

/// The body of the first child of `container` with the given code.
pub open spec fn child_body(container: Seq<u8>, cc: Seq<u8>) -> Option<Seq<u8>> {
    match first_box(boxes(container), cc) {
        Some(b) => Some(body_spec(container, b)),
        None => None,
    }
}

pub(crate) fn child_body_exec(container: &[u8], cc: &[u8; 4]) -> (r: Option<Vec<u8>>)
    ensures
        match r {
            Some(v) => child_body(container@, cc@) == Some(v@),
            None => child_body(container@, cc@) is None,
        },
{
    let children = iter_boxes(container);
    match find_box(children.as_slice(), cc) {
        Some(i) => {
            let b = children[i];
            assert(boxes_view(children@)[i as int] == box_view(b));
            Some(body_of(container, b))
        },
        None => None,
    }
}

/// The id a `trak` body's `tkhd` box gives its track.
pub open spec fn track_id_spec(trak_body: Seq<u8>) -> Option<nat> {
    match child_body(trak_body, code(116, 107, 104, 100)) {
        Some(b) => versioned_u32(b),
        None => None,
    }
}

/// The track a `trak` body's `tref/chap` box names as its chapter track.
pub open spec fn chapter_ref_spec(trak_body: Seq<u8>) -> Option<nat> {
    match child_body(trak_body, code(116, 114, 101, 102)) {
        Some(tref) => match child_body(tref, code(99, 104, 97, 112)) {
            Some(chap) => opt_be32(chap, 0),
            None => None,
        },
        None => None,
    }
}

/// The time scale an `mdia` body's `mdhd` box gives.
pub open spec fn timescale_spec(mdia_body: Seq<u8>) -> Option<nat> {
    match child_body(mdia_body, code(109, 100, 104, 100)) {
        Some(b) => versioned_u32(b),
        None => None,
    }
}

fn track_id_of(trak_body: &[u8]) -> (r: Option<u32>)
    ensures
        match r {
            Some(v) => track_id_spec(trak_body@) == Some(v as nat),
            None => track_id_spec(trak_body@) is None,
        },
{
    let cc: [u8; 4] = [116, 107, 104, 100];
    assert(cc@ =~= code(116, 107, 104, 100));
    match child_body_exec(trak_body, &cc) {
        Some(b) => versioned_u32_exec(b.as_slice()),
        None => None,
    }
}

fn chapter_track_ref(trak_body: &[u8]) -> (r: Option<u32>)
    ensures
        match r {
            Some(v) => chapter_ref_spec(trak_body@) == Some(v as nat),
            None => chapter_ref_spec(trak_body@) is None,
        },
{
    let tref: [u8; 4] = [116, 114, 101, 102];
    let chap: [u8; 4] = [99, 104, 97, 112];
    assert(tref@ =~= code(116, 114, 101, 102));
    assert(chap@ =~= code(99, 104, 97, 112));
    match child_body_exec(trak_body, &tref) {
        Some(t) => match child_body_exec(t.as_slice(), &chap) {
            Some(c) => be_u32(c.as_slice(), 0),
            None => None,
        },
        None => None,
    }
}

fn mdia_timescale(mdia_body: &[u8]) -> (r: Option<u32>)
    ensures
        match r {
            Some(v) => timescale_spec(mdia_body@) == Some(v as nat),
            None => timescale_spec(mdia_body@) is None,
        },
{
    let cc: [u8; 4] = [109, 100, 104, 100];
    assert(cc@ =~= code(109, 100, 104, 100));
    match child_body_exec(mdia_body, &cc) {
        Some(b) => versioned_u32_exec(b.as_slice()),
        None => None,
    }
}

pub open spec fn two64() -> int {
    0x1_0000_0000_0000_0000
}

/// `count` sample times from `time`, `delta` apart, in wrapping 64-bit time.
pub open spec fn time_run(time: nat, count: nat, delta: nat) -> Seq<nat> {
    Seq::new(count, |j: int| ((time + j * delta) % two64()) as nat)
}

/// The sample start times of a `stts` table from entry `k` on.
pub open spec fn stts_from(b: Seq<u8>, k: int, n: int, off: int, time: nat) -> Seq<nat>
    decreases n - k,
{
    if k >= n {
        Seq::empty()
    } else {
        match (opt_be32(b, off), opt_be32(b, off + 4)) {
            (Some(c), Some(d)) => time_run(time, c, d) + stts_from(
                b,
                k + 1,
                n,
                off + 8,
                (((time + c * d) as int) % two64()) as nat,
            ),
            _ => Seq::empty(),
        }
    }
}

/// The start time of every sample, from a `stts` (time-to-sample) body.
pub open spec fn stts_starts_spec(b: Seq<u8>) -> Seq<nat> {
    match opt_be32(b, 4) {
        Some(n) => stts_from(b, 0, n as int, 8, 0),
        None => Seq::empty(),
    }
}

proof fn lemma_time_step(time: nat, j: nat, d: nat, t: nat)
    requires
        t == ((time + j * d) as int) % two64(),
        d < two64(),
    ensures
        ((t + d) as int) % two64() == ((time + (j + 1) * d) as int) % two64(),
{
    vstd::arithmetic::div_mod::lemma_add_mod_noop((time + j * d) as int, d as int, two64());
    vstd::arithmetic::div_mod::lemma_small_mod(d, two64() as nat);
    assert((j + 1) * d == j * d + d) by (nonlinear_arith);
}

fn stts_starts(b: &[u8]) -> (r: Vec<u64>)
    ensures
        r@.len() == stts_starts_spec(b@).len(),
        forall|i: int| 0 <= i < r@.len() ==> r@[i] as nat == #[trigger] stts_starts_spec(b@)[i],
{
    let mut starts: Vec<u64> = Vec::new();
    let n = match be_u32(b, 4) {
        Some(n) => n,
        None => {
            return starts;
        },
    };
    let mut off: u64 = 8;
    let mut time: u64 = 0;
    let mut k: u32 = 0;
    let ghost mut done: Seq<nat> = Seq::empty();
    while k < n
        invariant
            k <= n,
            n as nat == opt_be32(b@, 4)->0,
            opt_be32(b@, 4) is Some,
            off == 8 + 8 * (k as int),
            starts@.len() == done.len(),
            forall|i: int| 0 <= i < done.len() ==> starts@[i] as nat == #[trigger] done[i],
            done + stts_from(b@, k as int, n as int, off as int, time as nat) == stts_starts_spec(b@),
        ensures
            starts@.len() == done.len(),
            forall|i: int| 0 <= i < done.len() ==> starts@[i] as nat == #[trigger] done[i],
            done + stts_from(b@, k as int, n as int, off as int, time as nat) == stts_starts_spec(b@),
            stts_from(b@, k as int, n as int, off as int, time as nat) =~= Seq::<nat>::empty(),
        decreases n - k,
    {
        let c = match be_u32(b, off) {
            Some(c) => c,
            None => {
                assert(stts_from(b@, k as int, n as int, off as int, time as nat) =~= Seq::<nat>::empty());
                break;
            },
        };
        let d = match be_u32(b, off + 4) {
            Some(d) => d,
            None => {
                assert(stts_from(b@, k as int, n as int, off as int, time as nat) =~= Seq::<nat>::empty());
                break;
            },
        };
        let ghost t0 = time as nat;
        let ghost before = done;
        let mut j: u32 = 0;
        while j < c
            invariant
                j <= c,
                starts@.len() == done.len(),
                forall|i: int| 0 <= i < done.len() ==> starts@[i] as nat == #[trigger] done[i],
                done == before + time_run(t0, j as nat, d as nat),
                time as int == ((t0 + j * d) as int) % two64(),
            decreases c - j,
        {
            proof {
                lemma_time_step(t0, j as nat, d as nat, time as nat);
            }
            starts.push(time);
            proof {
                assert(time_run(t0, (j + 1) as nat, d as nat) =~= time_run(t0, j as nat, d as nat).push(
                    time as nat,
                ));
                done = done.push(time as nat);
            }
            time = ((time as u128 + d as u128) % 0x1_0000_0000_0000_0000u128) as u64;
            j = j + 1;
        }
        proof {
            assert(time_run(t0, c as nat, d as nat) =~= time_run(t0, j as nat, d as nat));
        }
        off = off + 8;
        k = k + 1;
    }
    proof {
        assert(done + Seq::<nat>::empty() =~= done);
    }
    starts
}


/// Sample sizes listed one by one in a `stsz` body, from entry `i` on.
pub open spec fn sizes_from(b: Seq<u8>, i: int, n: int) -> Seq<nat>
    decreases n - i,
{
    if i >= n {
        Seq::empty()
    } else {
        match opt_be32(b, 12 + 4 * i) {
            Some(v) => seq![v] + sizes_from(b, i + 1, n),
            None => Seq::empty(),
        }
    }
}

/// The size of every sample, from a `stsz` body: one size for all samples,
/// or a list.
pub open spec fn stsz_sizes_spec(b: Seq<u8>) -> Seq<nat> {
    match (opt_be32(b, 4), opt_be32(b, 8)) {
        (Some(size), Some(count)) => if size != 0 {
            Seq::new(count, |_i: int| size)
        } else {
            sizes_from(b, 0, count as int)
        },
        _ => Seq::empty(),
    }
}

pub open spec fn u32s_view(v: Seq<u32>) -> Seq<nat> {
    Seq::new(v.len(), |i: int| v[i] as nat)
}

fn stsz_sizes(b: &[u8]) -> (r: Vec<u32>)
    ensures
        u32s_view(r@) == stsz_sizes_spec(b@),
{
    let mut sizes: Vec<u32> = Vec::new();
    let size = match be_u32(b, 4) {
        Some(v) => v,
        None => {
            assert(u32s_view(sizes@) =~= stsz_sizes_spec(b@));
            return sizes;
        },
    };
    let count = match be_u32(b, 8) {
        Some(v) => v,
        None => {
            assert(u32s_view(sizes@) =~= stsz_sizes_spec(b@));
            return sizes;
        },
    };
    if size != 0 {
        let mut k: u32 = 0;
        while k < count
            invariant
                k <= count,
                sizes@.len() == k,
                u32s_view(sizes@) == Seq::new(k as nat, |_i: int| size as nat),
            decreases count - k,
        {
            let ghost before = sizes@;
            sizes.push(size);
            assert(sizes@ == before.push(size));
            assert forall|i: int| 0 <= i < k + 1 implies #[trigger] u32s_view(sizes@)[i] == size as nat by {
                if i < k {
                    assert(u32s_view(before)[i] == Seq::new(k as nat, |_i: int| size as nat)[i]);
                    assert(sizes@[i] == before[i]);
                } else {
                    assert(sizes@[i] == size);
                }
            }
            assert(u32s_view(sizes@) =~= Seq::new((k + 1) as nat, |_i: int| size as nat));
            k = k + 1;
        }
        return sizes;
    }
    let mut i: u32 = 0;
    assert(u32s_view(sizes@) =~= Seq::<nat>::empty());
    while i < count
        invariant
            i <= count,
            opt_be32(b@, 4) == Some(0nat),
            opt_be32(b@, 8) == Some(count as nat),
            u32s_view(sizes@) + sizes_from(b@, i as int, count as int) == stsz_sizes_spec(b@),
        ensures
            u32s_view(sizes@) == stsz_sizes_spec(b@),
        decreases count - i,
    {
        let ghost before = u32s_view(sizes@);
        match be_u32(b, 12 + (i as u64) * 4) {
            Some(v) => {
                sizes.push(v);
                assert(u32s_view(sizes@) =~= before + seq![v as nat]);
            },
            None => {
                assert(sizes_from(b@, i as int, count as int) =~= Seq::<nat>::empty());
                assert(before + Seq::<nat>::empty() =~= before);
                break;
            },
        }
        i = i + 1;
    }
    sizes
}

/// The `(first chunk, samples per chunk)` runs of a `stsc` body from entry `i` on.
pub open spec fn stsc_from(b: Seq<u8>, i: int, n: int) -> Seq<(nat, nat)>
    decreases n - i,
{
    if i >= n {
        Seq::empty()
    } else {
        match (opt_be32(b, 8 + 12 * i), opt_be32(b, 8 + 12 * i + 4)) {
            (Some(f), Some(s)) => seq![(f, s)] + stsc_from(b, i + 1, n),
            _ => Seq::empty(),
        }
    }
}

pub open spec fn stsc_spec(b: Seq<u8>) -> Seq<(nat, nat)> {
    match opt_be32(b, 4) {
        Some(n) => stsc_from(b, 0, n as int),
        None => Seq::empty(),
    }
}

pub open spec fn pairs_nat(v: Seq<(u32, u32)>) -> Seq<(nat, nat)> {
    Seq::new(v.len(), |i: int| (v[i].0 as nat, v[i].1 as nat))
}

fn stsc_entries(b: &[u8]) -> (r: Vec<(u32, u32)>)
    ensures
        pairs_nat(r@) == stsc_spec(b@),
{
    let mut entries: Vec<(u32, u32)> = Vec::new();
    let n = match be_u32(b, 4) {
        Some(v) => v,
        None => {
            assert(pairs_nat(entries@) =~= stsc_spec(b@));
            return entries;
        },
    };
    let mut i: u32 = 0;
    assert(pairs_nat(entries@) =~= Seq::<(nat, nat)>::empty());
    while i < n
        invariant
            i <= n,
            opt_be32(b@, 4) == Some(n as nat),
            pairs_nat(entries@) + stsc_from(b@, i as int, n as int) == stsc_spec(b@),
        ensures
            pairs_nat(entries@) == stsc_spec(b@),
        decreases n - i,
    {
        let ghost before = pairs_nat(entries@);
        let base: u64 = 8 + (i as u64) * 12;
        match (be_u32(b, base), be_u32(b, base + 4)) {
            (Some(f), Some(s)) => {
                entries.push((f, s));
                assert(pairs_nat(entries@) =~= before + seq![(f as nat, s as nat)]);
            },
            _ => {
                assert(stsc_from(b@, i as int, n as int) =~= Seq::<(nat, nat)>::empty());
                assert(before + Seq::<(nat, nat)>::empty() =~= before);
                break;
            },
        }
        i = i + 1;
    }
    entries
}

/// The chunk offsets of a `stco` (`width` 4) or `co64` (`width` 8) body,
/// skipping entries that lie past its end.
pub open spec fn offsets_from(b: Seq<u8>, i: int, n: int, width: int) -> Seq<nat>
    decreases n - i,
{
    if i >= n {
        Seq::empty()
    } else {
        let v = if width == 4 { opt_be32(b, 8 + 4 * i) } else { opt_be64(b, 8 + 8 * i) };
        (match v {
            Some(x) => seq![x],
            None => Seq::empty(),
        }) + offsets_from(b, i + 1, n, width)
    }
}

pub open spec fn offset_table(b: Seq<u8>, width: int) -> Seq<nat> {
    match opt_be32(b, 4) {
        Some(n) => offsets_from(b, 0, n as int, width),
        None => Seq::empty(),
    }
}

/// Where each chunk starts, from the `stco` box of a `stbl` body, else its
/// `co64` box.
pub open spec fn chunk_offsets_spec(stbl_body: Seq<u8>) -> Seq<nat> {
    match child_body(stbl_body, code(115, 116, 99, 111)) {
        Some(b) => offset_table(b, 4),
        None => match child_body(stbl_body, code(99, 111, 54, 52)) {
            Some(b) => offset_table(b, 8),
            None => Seq::empty(),
        },
    }
}

pub open spec fn u64s_view(v: Seq<u64>) -> Seq<nat> {
    Seq::new(v.len(), |i: int| v[i] as nat)
}

fn offset_table_exec(b: &[u8], width: u64) -> (r: Vec<u64>)
    requires
        width == 4 || width == 8,
    ensures
        u64s_view(r@) == offset_table(b@, width as int),
{
    let mut out: Vec<u64> = Vec::new();
    let n = match be_u32(b, 4) {
        Some(v) => v,
        None => {
            assert(u64s_view(out@) =~= offset_table(b@, width as int));
            return out;
        },
    };
    let mut i: u32 = 0;
    assert(u64s_view(out@) =~= Seq::<nat>::empty());
    while i < n
        invariant
            i <= n,
            width == 4 || width == 8,
            opt_be32(b@, 4) == Some(n as nat),
            u64s_view(out@) + offsets_from(b@, i as int, n as int, width as int) == offset_table(b@, width as int),
        decreases n - i,
    {
        let ghost before = u64s_view(out@);
        let v: Option<u64> = if width == 4 {
            match be_u32(b, 8 + (i as u64) * 4) {
                Some(x) => Some(x as u64),
                None => None,
            }
        } else {
            be_u64(b, 8 + (i as u64) * 8)
        };
        match v {
            Some(x) => {
                out.push(x);
                assert(u64s_view(out@) =~= before + seq![x as nat]);
            },
            None => {
                assert(u64s_view(out@) =~= before + Seq::<nat>::empty());
            },
        }
        assert(offsets_from(b@, i as int, n as int, width as int) =~= (match v {
            Some(x) => seq![x as nat],
            None => Seq::<nat>::empty(),
        }) + offsets_from(b@, i + 1, n as int, width as int));
        i = i + 1;
    }
    assert(offsets_from(b@, i as int, n as int, width as int) =~= Seq::<nat>::empty());
    assert(u64s_view(out@) + Seq::<nat>::empty() =~= u64s_view(out@));
    out
}

fn chunk_offsets(stbl_body: &[u8]) -> (r: Vec<u64>)
    ensures
        u64s_view(r@) == chunk_offsets_spec(stbl_body@),
{
    let stco: [u8; 4] = [115, 116, 99, 111];
    let co64: [u8; 4] = [99, 111, 54, 52];
    assert(stco@ =~= code(115, 116, 99, 111));
    assert(co64@ =~= code(99, 111, 54, 52));
    match child_body_exec(stbl_body, &stco) {
        Some(b) => offset_table_exec(b.as_slice(), 4),
        None => match child_body_exec(stbl_body, &co64) {
            Some(b) => offset_table_exec(b.as_slice(), 8),
            None => {
                let v: Vec<u64> = Vec::new();
                assert(u64s_view(v@) =~= Seq::<nat>::empty());
                v
            },
        },
    }
}


/// Offsets of the samples of one chunk from sample `j` on: each sample
/// starts where the previous one ends. `true` when the sizes ran out, which
/// ends the whole walk.
pub open spec fn so_samples(sizes: Seq<nat>, spc: nat, j: nat, running: nat, acc: Seq<nat>) -> (Seq<nat>, bool)
    decreases spc - j,
{
    if j >= spc {
        (acc, false)
    } else if acc.len() >= sizes.len() {
        (acc, true)
    } else {
        so_samples(sizes, spc, j + 1, ((running + sizes[acc.len() as int]) as int % two64()) as nat, acc.push(running))
    }
}

/// The table position of chunk number `cn` (numbered from 1, in wrapping
/// 32-bit arithmetic).
pub open spec fn chunk_index(cn: nat) -> int {
    (cn + 0xFFFF_FFFF) as int % 0x1_0000_0000
}

/// The chunks `cn` up to `next` of one `stsc` run; `true` when a chunk is
/// missing from the offset table or the sizes ran out.
pub open spec fn so_chunks(chunks: Seq<nat>, sizes: Seq<nat>, cn: nat, next: nat, spc: nat, acc: Seq<nat>) -> (Seq<nat>, bool)
    decreases next - cn,
{
    if cn >= next {
        (acc, false)
    } else {
        let idx = chunk_index(cn);
        if idx >= chunks.len() {
            (acc, true)
        } else {
            let r = so_samples(sizes, spc, 0, chunks[idx], acc);
            if r.1 { r } else { so_chunks(chunks, sizes, cn + 1, next, spc, r.0) }
        }
    }
}

/// Where the run of entry `e` ends: the next run's first chunk, or one past
/// the last chunk (in wrapping 32-bit arithmetic).
pub open spec fn next_first(stsc: Seq<(nat, nat)>, chunks: Seq<nat>, e: int) -> nat {
    if e + 1 < stsc.len() { stsc[e + 1].0 } else { ((chunks.len() as int % 0x1_0000_0000 + 1) % 0x1_0000_0000) as nat }
}

pub open spec fn so_entries(stsc: Seq<(nat, nat)>, chunks: Seq<nat>, sizes: Seq<nat>, e: int, acc: Seq<nat>) -> Seq<nat>
    decreases stsc.len() - e,
{
    if e < 0 || e >= stsc.len() {
        acc
    } else {
        let r = so_chunks(chunks, sizes, stsc[e].0, next_first(stsc, chunks, e), stsc[e].1, acc);
        if r.1 { r.0 } else { so_entries(stsc, chunks, sizes, e + 1, r.0) }
    }
}

/// The file offset of every sample, from the sample-to-chunk runs, the
/// chunk offsets and the sample sizes.
pub open spec fn sample_offsets_spec(stsc: Seq<(nat, nat)>, chunks: Seq<nat>, sizes: Seq<nat>) -> Seq<nat> {
    so_entries(stsc, chunks, sizes, 0, Seq::empty())
}

pub open spec fn after_chunks(stsc: Seq<(nat, nat)>, chunks: Seq<nat>, sizes: Seq<nat>, e: int, r: (Seq<nat>, bool)) -> Seq<nat> {
    if r.1 { r.0 } else { so_entries(stsc, chunks, sizes, e + 1, r.0) }
}

fn sample_offsets(stsc: &[(u32, u32)], chunks: &[u64], sizes: &[u32]) -> (r: Vec<u64>)
    ensures
        u64s_view(r@) == sample_offsets_spec(pairs_nat(stsc@), u64s_view(chunks@), u32s_view(sizes@)),
{
    let ghost st = pairs_nat(stsc@);
    let ghost ch = u64s_view(chunks@);
    let ghost sz = u32s_view(sizes@);
    let mut offsets: Vec<u64> = Vec::new();
    let mut e: usize = 0;
    assert(u64s_view(offsets@) =~= Seq::<nat>::empty());
    while e < stsc.len()
        invariant
            0 <= e <= stsc@.len(),
            st == pairs_nat(stsc@),
            ch == u64s_view(chunks@),
            sz == u32s_view(sizes@),
            offsets@.len() <= sizes@.len(),
            so_entries(st, ch, sz, e as int, u64s_view(offsets@)) == sample_offsets_spec(st, ch, sz),
        decreases stsc@.len() - e,
    {
        let (first, spc) = stsc[e];
        let next: u32 = if e + 1 < stsc.len() {
            stsc[e + 1].0
        } else {
            (((chunks.len() as u64 % 0x1_0000_0000u64) + 1) % 0x1_0000_0000u64) as u32
        };
        assert(next as nat == next_first(st, ch, e as int));
        let mut cn: u32 = first;
        while cn < next
            invariant
                0 <= e < stsc@.len(),
                st == pairs_nat(stsc@),
                ch == u64s_view(chunks@),
                sz == u32s_view(sizes@),
                spc as nat == st[e as int].1,
                next as nat == next_first(st, ch, e as int),
                offsets@.len() <= sizes@.len(),
                after_chunks(st, ch, sz, e as int, so_chunks(ch, sz, cn as nat, next as nat, spc as nat, u64s_view(offsets@)))
                    == sample_offsets_spec(st, ch, sz),
            decreases next - cn,
        {
            let idx: u64 = ((cn as u64) + 0xFFFF_FFFFu64) % 0x1_0000_0000u64;
            assert(idx as int == chunk_index(cn as nat));
            if idx >= chunks.len() as u64 {
                return offsets;
            }
            let mut running: u64 = chunks[idx as usize];
            let ghost acc0 = u64s_view(offsets@);
            let mut j: u32 = 0;
            while j < spc
                invariant
                    0 <= e < stsc@.len(),
                    st == pairs_nat(stsc@),
                    ch == u64s_view(chunks@),
                    sz == u32s_view(sizes@),
                    spc as nat == st[e as int].1,
                    next as nat == next_first(st, ch, e as int),
                    cn < next,
                    idx < chunks@.len(),
                    offsets@.len() <= sizes@.len(),
                    j <= spc,
                    so_samples(sz, spc as nat, 0, ch[idx as int], acc0) == so_samples(
                        sz,
                        spc as nat,
                        j as nat,
                        running as nat,
                        u64s_view(offsets@),
                    ),
                    after_chunks(st, ch, sz, e as int, so_chunks(ch, sz, cn as nat, next as nat, spc as nat, acc0))
                        == sample_offsets_spec(st, ch, sz),
                    idx as int == chunk_index(cn as nat),
                decreases spc - j,
            {
                if offsets.len() >= sizes.len() {
                    return offsets;
                }
                let ghost before = u64s_view(offsets@);
                let k = offsets.len();
                offsets.push(running);
                assert(u64s_view(offsets@) =~= before.push(running as nat));
                running = ((running as u128 + sizes[k] as u128) % 0x1_0000_0000_0000_0000u128) as u64;
                j = j + 1;
            }
            cn = cn + 1;
        }
        e = e + 1;
    }
    offsets
}


/// The text of a chapter sample: a 16-bit length, then that many bytes of
/// text. Empty when the sample lies outside the file or is too short.
pub open spec fn sample_text_spec(data: Seq<u8>, off: nat, size: nat) -> Seq<char> {
    if off + size > data.len() {
        Seq::empty()
    } else {
        let sample = data.subrange(off as int, (off + size) as int);
        if sample.len() < 2 {
            Seq::empty()
        } else {
            let tl = sample[0] as int * 256 + sample[1] as int;
            utf8_lossy(if 2 + tl <= sample.len() { sample.subrange(2, 2 + tl) } else { Seq::empty() })
        }
    }
}

fn read_sample_text(data: &[u8], offset: u64, size: u32) -> (r: String)
    ensures
        r@ == sample_text_spec(data@, offset as nat, size as nat),
{
    let n = data.len();
    if offset > n as u64 || (n as u64) - offset < size as u64 {
        return String::new();
    }
    let start = offset as usize;
    let end = start + size as usize;
    if size < 2 {
        return String::new();
    }
    let tl: usize = data[start] as usize * 256 + data[start + 1] as usize;
    let ghost sample = data@.subrange(start as int, end as int);
    assert(sample[0] == data@[start as int] && sample[1] == data@[start + 1]);
    if 2 + tl <= size as usize {
        let bytes = copy_range(data, start + 2, start + 2 + tl);
        assert(bytes@ =~= sample.subrange(2, 2 + tl));
        from_utf8_lossy(bytes.as_slice())
    } else {
        let empty: Vec<u8> = Vec::new();
        assert(empty@ =~= Seq::<u8>::empty());
        from_utf8_lossy(empty.as_slice())
    }
}

pub open spec fn trak_code() -> Seq<u8> {
    code(116, 114, 97, 107)
}

/// The bodies of the `trak` boxes among `children`, in order.
pub open spec fn trak_bodies(mb: Seq<u8>, children: Seq<BoxSpec>) -> Seq<Seq<u8>>
    decreases children.len(),
{
    if children.len() == 0 {
        Seq::empty()
    } else {
        trak_bodies(mb, children.drop_last()) + if children.last().fourcc == trak_code() {
            seq![body_spec(mb, children.last())]
        } else {
            Seq::empty()
        }
    }
}

/// The chapter track the first track that names one names.
pub open spec fn first_chapter_ref(ts: Seq<Seq<u8>>) -> Option<nat>
    decreases ts.len(),
{
    if ts.len() == 0 {
        None
    } else {
        match first_chapter_ref(ts.drop_last()) {
            Some(id) => Some(id),
            None => chapter_ref_spec(ts.last()),
        }
    }
}

/// The body of the first track with the given id.
pub open spec fn track_with_id(ts: Seq<Seq<u8>>, id: nat) -> Option<Seq<u8>>
    decreases ts.len(),
{
    if ts.len() == 0 {
        None
    } else {
        match track_with_id(ts.drop_last(), id) {
            Some(b) => Some(b),
            None => if track_id_spec(ts.last()) == Some(id) { Some(ts.last()) } else { None },
        }
    }
}

pub open spec fn min3(a: int, b: int, c: int) -> int {
    let m = if a < b { a } else { b };
    if m < c { m } else { c }
}

/// The chapters of a QuickTime chapter track: one per sample, titled by the
/// sample's text, starting at the sample's time in milliseconds; ordered by
/// start, each ending where the next starts. `None` when no track names a
/// chapter track, a box on the way is missing, the time scale is zero, or
/// the track has no samples.
pub open spec fn qt_spec(data: Seq<u8>, mb: Seq<u8>, children: Seq<BoxSpec>) -> Option<Seq<ChapterView>> {
    let ts = trak_bodies(mb, children);
    match first_chapter_ref(ts) {
        None => None,
        Some(id) => match track_with_id(ts, id) {
            None => None,
            Some(trak) => match child_body(trak, code(109, 100, 105, 97)) {
                None => None,
                Some(mdia) => match timescale_spec(mdia) {
                    None => None,
                    Some(scale) => if scale == 0 {
                        None
                    } else {
                        match child_body(mdia, code(109, 105, 110, 102)) {
                            None => None,
                            Some(minf) => match child_body(minf, code(115, 116, 98, 108)) {
                                None => None,
                                Some(stbl) => match (
                                    child_body(stbl, code(115, 116, 116, 115)),
                                    child_body(stbl, code(115, 116, 115, 122)),
                                    child_body(stbl, code(115, 116, 115, 99)),
                                ) {
                                    (Some(stts), Some(stsz), Some(stsc)) => {
                                        let starts = stts_starts_spec(stts);
                                        let sizes = stsz_sizes_spec(stsz);
                                        let offsets = sample_offsets_spec(stsc_spec(stsc), chunk_offsets_spec(stbl), sizes);
                                        let count = min3(starts.len() as int, sizes.len() as int, offsets.len() as int);
                                        if count == 0 {
                                            None
                                        } else {
                                            let cs = Seq::new(
                                                count as nat,
                                                |i: int|
                                                    ChapterView {
                                                        id: chapter_id_spec((i + 1) as nat),
                                                        title: sample_text_spec(data, offsets[i], sizes[i]),
                                                        start_ms: (((starts[i] * 1000) as int % two64()) / (scale as int)) as nat,
                                                        end_ms: 0,
                                                    },
                                            );
                                            Some(fill_end_times_spec(sort_by_start_spec(cs)))
                                        }
                                    },
                                    _ => None,
                                }
                            },
                        }
                    },
                },
            },
        },
    }
}

fn trak_bodies_exec(moov_body: &[u8], children: &[BoxInfo]) -> (r: Vec<Vec<u8>>)
    requires
        boxes_fit(children@, moov_body@.len() as int),
    ensures
        r@.len() == trak_bodies(moov_body@, boxes_view(children@)).len(),
        forall|i: int| 0 <= i < r@.len() ==> #[trigger] r@[i]@ == trak_bodies(moov_body@, boxes_view(children@))[i],
{
    let trak: [u8; 4] = [116, 114, 97, 107];
    assert(trak@ =~= trak_code());
    let ghost cv = boxes_view(children@);
    let mut out: Vec<Vec<u8>> = Vec::new();
    let mut k: usize = 0;
    while k < children.len()
        invariant
            0 <= k <= children@.len(),
            cv == boxes_view(children@),
            trak@ == trak_code(),
            boxes_fit(children@, moov_body@.len() as int),
            out@.len() == trak_bodies(moov_body@, cv.subrange(0, k as int)).len(),
            forall|i: int| 0 <= i < out@.len() ==> #[trigger] out@[i]@ == trak_bodies(moov_body@, cv.subrange(0, k as int))[i],
        decreases children@.len() - k,
    {
        let b = children[k];
        assert(cv.subrange(0, k + 1).drop_last() =~= cv.subrange(0, k as int));
        assert(cv.subrange(0, k + 1).last() == box_view(b));
        assert(children@[k as int].start + children@[k as int].total_len <= moov_body@.len());
        if same_code(&b.fourcc, &trak) {
            let body = body_of(moov_body, b);
            out.push(body);
        }
        k = k + 1;
    }
    assert(cv.subrange(0, k as int) =~= cv);
    out
}


proof fn lemma_first_ref_prefix(ts: Seq<Seq<u8>>, k: int)
    requires
        0 <= k <= ts.len(),
        first_chapter_ref(ts.subrange(0, k)) is Some,
    ensures
        first_chapter_ref(ts) == first_chapter_ref(ts.subrange(0, k)),
    decreases ts.len() - k,
{
    if k < ts.len() {
        assert(ts.drop_last().subrange(0, k) =~= ts.subrange(0, k));
        lemma_first_ref_prefix(ts.drop_last(), k);
    } else {
        assert(ts.subrange(0, k) =~= ts);
    }
}

proof fn lemma_track_prefix(ts: Seq<Seq<u8>>, id: nat, k: int)
    requires
        0 <= k <= ts.len(),
        track_with_id(ts.subrange(0, k), id) is Some,
    ensures
        track_with_id(ts, id) == track_with_id(ts.subrange(0, k), id),
    decreases ts.len() - k,
{
    if k < ts.len() {
        assert(ts.drop_last().subrange(0, k) =~= ts.subrange(0, k));
        lemma_track_prefix(ts.drop_last(), id, k);
    } else {
        assert(ts.subrange(0, k) =~= ts);
    }
}

pub open spec fn bodies_view(v: Seq<Vec<u8>>) -> Seq<Seq<u8>> {
    Seq::new(v.len(), |i: int| v[i]@)
}

fn first_chapter_ref_exec(ts: &Vec<Vec<u8>>) -> (r: Option<u32>)
    ensures
        match r {
            Some(id) => first_chapter_ref(bodies_view(ts@)) == Some(id as nat),
            None => first_chapter_ref(bodies_view(ts@)) is None,
        },
{
    let ghost tv = bodies_view(ts@);
    let mut k: usize = 0;
    while k < ts.len()
        invariant
            0 <= k <= ts@.len(),
            tv == bodies_view(ts@),
            first_chapter_ref(tv.subrange(0, k as int)) is None,
        decreases ts@.len() - k,
    {
        assert(tv.subrange(0, k + 1).drop_last() =~= tv.subrange(0, k as int));
        match chapter_track_ref(ts[k].as_slice()) {
            Some(id) => {
                proof {
                    lemma_first_ref_prefix(tv, k + 1);
                }
                return Some(id);
            },
            None => {},
        }
        k = k + 1;
    }
    assert(tv.subrange(0, k as int) =~= tv);
    None
}

fn track_with_id_exec(ts: &Vec<Vec<u8>>, id: u32) -> (r: Option<usize>)
    ensures
        match r {
            Some(i) => i < ts@.len() && track_with_id(bodies_view(ts@), id as nat) == Some(ts@[i as int]@),
            None => track_with_id(bodies_view(ts@), id as nat) is None,
        },
{
    let ghost tv = bodies_view(ts@);
    let mut k: usize = 0;
    while k < ts.len()
        invariant
            0 <= k <= ts@.len(),
            tv == bodies_view(ts@),
            track_with_id(tv.subrange(0, k as int), id as nat) is None,
        decreases ts@.len() - k,
    {
        assert(tv.subrange(0, k + 1).drop_last() =~= tv.subrange(0, k as int));
        let tid = track_id_of(ts[k].as_slice());
        if tid == Some(id) {
            proof {
                lemma_track_prefix(tv, id as nat, k + 1);
            }
            return Some(k);
        }
        k = k + 1;
    }
    assert(tv.subrange(0, k as int) =~= tv);
    None
}

fn box_body(container: &[u8], c0: u8, c1: u8, c2: u8, c3: u8) -> (r: Option<Vec<u8>>)
    ensures
        match r {
            Some(v) => child_body(container@, code(c0, c1, c2, c3)) == Some(v@),
            None => child_body(container@, code(c0, c1, c2, c3)) is None,
        },
{
    let cc: [u8; 4] = [c0, c1, c2, c3];
    assert(cc@ =~= code(c0, c1, c2, c3));
    child_body_exec(container, &cc)
}

/// The chapters of the QuickTime chapter track of a file, read from its
/// `moov` body and the boxes of that body.
pub fn read_chapters(data: &[u8], moov_body: &[u8], moov_children: &[BoxInfo]) -> (r: Option<Vec<Chapter>>)
    requires
        boxes_fit(moov_children@, moov_body@.len() as int),
    ensures
        match r {
            Some(cs) => qt_spec(data@, moov_body@, boxes_view(moov_children@)) == Some(chapters_view(cs@)),
            None => qt_spec(data@, moov_body@, boxes_view(moov_children@)) is None,
        },
{
    let ghost tsv = trak_bodies(moov_body@, boxes_view(moov_children@));
    let traks = trak_bodies_exec(moov_body, moov_children);
    assert(bodies_view(traks@) =~= tsv);
    let id = match first_chapter_ref_exec(&traks) {
        Some(id) => id,
        None => {
            return None;
        },
    };
    let ti = match track_with_id_exec(&traks, id) {
        Some(i) => i,
        None => {
            return None;
        },
    };
    let trak = traks[ti].as_slice();
    let mdia = match box_body(trak, 109, 100, 105, 97) {
        Some(b) => b,
        None => {
            return None;
        },
    };
    let scale = match mdia_timescale(mdia.as_slice()) {
        Some(s) => s,
        None => {
            return None;
        },
    };
    if scale == 0 {
        return None;
    }
    let minf = match box_body(mdia.as_slice(), 109, 105, 110, 102) {
        Some(b) => b,
        None => {
            return None;
        },
    };
    let stbl = match box_body(minf.as_slice(), 115, 116, 98, 108) {
        Some(b) => b,
        None => {
            return None;
        },
    };
    let stts = box_body(stbl.as_slice(), 115, 116, 116, 115);
    let stsz = box_body(stbl.as_slice(), 115, 116, 115, 122);
    let stsc = box_body(stbl.as_slice(), 115, 116, 115, 99);
    let (stts, stsz, stsc) = match (stts, stsz, stsc) {
        (Some(a), Some(b), Some(c)) => (a, b, c),
        _ => {
            return None;
        },
    };
    let starts = stts_starts(stts.as_slice());
    let sizes = stsz_sizes(stsz.as_slice());
    let entries = stsc_entries(stsc.as_slice());
    let chunks = chunk_offsets(stbl.as_slice());
    let offsets = sample_offsets(entries.as_slice(), chunks.as_slice(), sizes.as_slice());
    let mut count = starts.len();
    if sizes.len() < count {
        count = sizes.len();
    }
    if offsets.len() < count {
        count = offsets.len();
    }
    if count == 0 {
        return None;
    }
    let ghost startsv = stts_starts_spec(stts@);
    let ghost sizesv = stsz_sizes_spec(stsz@);
    let ghost offsv = sample_offsets_spec(stsc_spec(stsc@), chunk_offsets_spec(stbl@), sizesv);
    assert(u64s_view(offsets@) == offsv);
    let ghost want = Seq::new(
        count as nat,
        |i: int|
            ChapterView {
                id: chapter_id_spec((i + 1) as nat),
                title: sample_text_spec(data@, offsv[i], sizesv[i]),
                start_ms: (((startsv[i] * 1000) as int % two64()) / (scale as int)) as nat,
                end_ms: 0,
            },
    );
    let mut chapters: Vec<Chapter> = Vec::new();
    let mut i: usize = 0;
    while i < count
        invariant
            0 <= i <= count,
            count <= starts@.len(),
            count <= sizes@.len(),
            count <= offsets@.len(),
            scale > 0,
            starts@.len() == startsv.len(),
            forall|k: int| 0 <= k < starts@.len() ==> starts@[k] as nat == #[trigger] startsv[k],
            u32s_view(sizes@) == sizesv,
            u64s_view(offsets@) == offsv,
            want.len() == count,
            forall|k: int| 0 <= k < count ==> #[trigger] want[k] == (ChapterView {
                id: chapter_id_spec((k + 1) as nat),
                title: sample_text_spec(data@, offsv[k], sizesv[k]),
                start_ms: (((startsv[k] * 1000) as int % two64()) / (scale as int)) as nat,
                end_ms: 0,
            }),
            chapters_view(chapters@) == want.subrange(0, i as int),
        decreases count - i,
    {
        let title = read_sample_text(data, offsets[i], sizes[i]);
        assert(offsets@[i as int] as nat == offsv[i as int]);
        assert(sizes@[i as int] as nat == sizesv[i as int]);
        let wide: u128 = (starts[i] as u128 * 1000) % 0x1_0000_0000_0000_0000u128;
        let start_ms = (wide as u64) / (scale as u64);
        let c = Chapter { id: chapter_id((i + 1) as u64), title, start_ms, end_ms: 0 };
        let ghost before = chapters@;
        chapters.push(c);
        proof {
            assert(chapter_view(c) == want[i as int]);
            assert(chapters_view(chapters@) =~= chapters_view(before).push(chapter_view(c)));
            assert(want.subrange(0, i + 1) =~= want.subrange(0, i as int).push(want[i as int]));
        }
        i = i + 1;
    }
    assert(want.subrange(0, count as int) =~= want);
    let mut sorted = sort_by_start(chapters);
    fill_end_times(&mut sorted);
    proof {
        assert(stts@ == child_body(stbl@, code(115, 116, 116, 115))->0);
    }
    Some(sorted)
}

} // verus!
