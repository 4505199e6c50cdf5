//! Chapters in MP4/M4A/M4B files: the Nero `chpl` box under `moov/udta`,
//! with QuickTime chapter tracks as the fallback when reading.
pub mod qt;

use vstd::prelude::*;
use vstd::utf8::{decode_utf8, encode_utf8, is_char_boundary, valid_utf8};

use crate::bytes::{
    append_bytes, be32, be32_bytes, be64, be64_bytes, copy_range, from_utf8_lossy, push_be32,
    push_be64, read_be32, read_be64, lossy_text, utf8_lossy,
};
use crate::chapters::{
    chapter_id, chapter_id_spec, chapter_view, chapters_view, clone_chapters, sort_by_start,
    sort_by_start_spec, Chapter, ChapterView,
};
use crate::error::NotataError;

verus! {

/// Start times in `chpl` are stored in 100-nanosecond units.
pub const UNITS_PER_MS: u64 = 10_000;

/// Where one box sits in a byte buffer.
#[derive(Clone, Copy)]
pub struct BoxInfo {
    pub fourcc: [u8; 4],
    pub start: usize,
    pub header_len: usize,
    pub total_len: usize,
}

pub ghost struct BoxSpec {
    pub fourcc: Seq<u8>,
    pub start: int,
    pub header_len: int,
    pub total_len: int,
}

pub open spec fn box_view(b: BoxInfo) -> BoxSpec {
    BoxSpec {
        fourcc: b.fourcc@,
        start: b.start as int,
        header_len: b.header_len as int,
        total_len: b.total_len as int,
    }
}

pub open spec fn boxes_view(bs: Seq<BoxInfo>) -> Seq<BoxSpec> {
    Seq::new(bs.len(), |i: int| box_view(bs[i]))
}

/// The box whose header starts at `off`: a 32-bit size (1 means a 64-bit
/// size follows, 0 means "to the end"), then the four-character code. A
/// header that does not fit, or a size that overruns the buffer or is
/// shorter than the header, gives no box.
pub open spec fn box_header(s: Seq<u8>, off: int) -> Option<BoxSpec> {
    if off < 0 || off + 8 > s.len() {
        None
    } else {
        let size32 = be32(s, off);
        let fourcc = s.subrange(off + 4, off + 8);
        let lens: Option<(int, int)> = if size32 == 1 {
            if off + 16 > s.len() {
                None
            } else {
                Some((16, (be64(s, off + 8) as usize) as int))
            }
        } else if size32 == 0 {
            Some((8, s.len() - off))
        } else {
            Some((8, size32 as int))
        };
        match lens {
            None => None,
            Some((h, t)) => if t < h || off + t > s.len() {
                None
            } else {
                Some(BoxSpec { fourcc, start: off, header_len: h, total_len: t })
            },
        }
    }
}

/// The boxes laid end to end from `off`, up to the first that does not parse.
pub open spec fn boxes_from(s: Seq<u8>, off: int) -> Seq<BoxSpec>
    decreases s.len() - off,
{
    match box_header(s, off) {
        None => Seq::empty(),
        Some(b) => if b.total_len > 0 && off >= 0 {
            seq![b] + boxes_from(s, off + b.total_len)
        } else {
            Seq::empty()
        },
    }
}

pub open spec fn boxes(s: Seq<u8>) -> Seq<BoxSpec> {
    boxes_from(s, 0)
}

/// Index of the first box with the given code.
pub open spec fn find_spec(bs: Seq<BoxSpec>, cc: Seq<u8>) -> Option<int>
    decreases bs.len(),
{
    if bs.len() == 0 {
        None
    } else {
        match find_spec(bs.drop_last(), cc) {
            Some(i) => Some(i),
            None => if bs.last().fourcc == cc {
                Some(bs.len() - 1)
            } else {
                None
            },
        }
    }
}

/// The bytes inside a box, after its header.
pub open spec fn body_spec(s: Seq<u8>, b: BoxSpec) -> Seq<u8> {
    s.subrange(b.start + b.header_len, b.start + b.total_len)
}

/// A whole box: its 32-bit size, its code, its body.
pub open spec fn box_bytes(cc: Seq<u8>, body: Seq<u8>) -> Seq<u8> {
    be32_bytes((body.len() + 8) % 0x1_0000_0000) + cc + body
}

fn read_box_header(data: &[u8], offset: usize) -> (r: Option<BoxInfo>)
    ensures
        match r {
            Some(b) => box_header(data@, offset as int) == Some(box_view(b)),
            None => box_header(data@, offset as int) is None,
        },
{
    if offset > data.len() || data.len() - offset < 8 {
        return None;
    }
    let size32 = read_be32(data, offset) as usize;
    let fourcc: [u8; 4] = [data[offset + 4], data[offset + 5], data[offset + 6], data[offset + 7]];
    assert(fourcc@ =~= data@.subrange(offset + 4, offset + 8));
    let (header_len, total_len): (usize, usize) = if size32 == 1 {
        if data.len() - offset < 16 {
            return None;
        }
        let large = read_be64(data, offset + 8);
        (16, large as usize)
    } else if size32 == 0 {
        (8, data.len() - offset)
    } else {
        (8, size32)
    };
    if total_len < header_len || total_len > data.len() - offset {
        return None;
    }
    Some(BoxInfo { fourcc, start: offset, header_len, total_len })
}

/// Boxes that lie inside a buffer of `n` bytes, each with its header.
pub open spec fn boxes_fit(bs: Seq<BoxInfo>, n: int) -> bool {
    forall|k: int|
        0 <= k < bs.len() ==> #[trigger] bs[k].start + bs[k].total_len <= n && bs[k].header_len
            <= bs[k].total_len
}

fn iter_boxes(data: &[u8]) -> (r: Vec<BoxInfo>)
    ensures
        boxes_view(r@) == boxes(data@),
        boxes_fit(r@, data@.len() as int),
{
    let mut out: Vec<BoxInfo> = Vec::new();
    let mut offset: usize = 0;
    while offset < data.len()
        invariant
            offset <= data@.len(),
            boxes_view(out@) + boxes_from(data@, offset as int) == boxes(data@),
            boxes_fit(out@, data@.len() as int),
        decreases data@.len() - offset,
    {
        match read_box_header(data, offset) {
            Some(b) => {
                let ghost before = out@;
                out.push(b);
                proof {
                    assert(boxes_view(out@) =~= boxes_view(before) + seq![box_view(b)]);
                    assert(boxes_view(out@) + boxes_from(data@, (offset + b.total_len) as int)
                        =~= boxes_view(before) + boxes_from(data@, offset as int));
                }
                offset = b.start + b.total_len;
            },
            None => {
                assert(boxes_view(out@) =~= boxes_view(out@) + boxes_from(data@, offset as int));
                return out;
            },
        }
    }
    assert(boxes_from(data@, offset as int) =~= Seq::<BoxSpec>::empty());
    assert(boxes_view(out@) =~= boxes_view(out@) + boxes_from(data@, offset as int));
    out
}

fn same_code(a: &[u8; 4], b: &[u8; 4]) -> (r: bool)
    ensures
        r == (a@ == b@),
{
    if a[0] == b[0] && a[1] == b[1] && a[2] == b[2] && a[3] == b[3] {
        assert(a@ =~= b@);
        true
    } else {
        false
    }
}

fn find_box(boxes: &[BoxInfo], fourcc: &[u8; 4]) -> (r: Option<usize>)
    ensures
        match r {
            Some(i) => find_spec(boxes_view(boxes@), fourcc@) == Some(i as int) && i < boxes@.len(),
            None => find_spec(boxes_view(boxes@), fourcc@) is None,
        },
{
    let ghost bv = boxes_view(boxes@);
    let mut k: usize = 0;
    while k < boxes.len()
        invariant
            bv == boxes_view(boxes@),
            0 <= k <= boxes@.len(),
            find_spec(bv.subrange(0, k as int), fourcc@) is None,
        decreases boxes@.len() - k,
    {
        assert(bv.subrange(0, k + 1).drop_last() =~= bv.subrange(0, k as int));
        if same_code(&boxes[k].fourcc, fourcc) {
            proof {
                lemma_find_prefix(bv, fourcc@, k + 1);
            }
            return Some(k);
        }
        k = k + 1;
    }
    assert(bv.subrange(0, k as int) =~= bv);
    None
}

proof fn lemma_find_prefix(bs: Seq<BoxSpec>, cc: Seq<u8>, k: int)
    requires
        0 <= k <= bs.len(),
        find_spec(bs.subrange(0, k), cc) is Some,
    ensures
        find_spec(bs, cc) == find_spec(bs.subrange(0, k), cc),
    decreases bs.len() - k,
{
    if k < bs.len() {
        assert(bs.drop_last().subrange(0, k) =~= bs.subrange(0, k));
        lemma_find_prefix(bs.drop_last(), cc, k);
    } else {
        assert(bs.subrange(0, k) =~= bs);
    }
}

fn body_of(data: &[u8], b: BoxInfo) -> (r: Vec<u8>)
    requires
        b.start + b.total_len <= data@.len(),
        b.header_len <= b.total_len,
    ensures
        r@ == body_spec(data@, box_view(b)),
{
    let n = data.len();
    assert(b.start + b.total_len <= n);
    copy_range(data, b.start + b.header_len, b.start + b.total_len)
}

fn build_box(fourcc: &[u8; 4], body: &[u8]) -> (r: Vec<u8>)
    ensures
        r@ == box_bytes(fourcc@, body@),
{
    let mut out: Vec<u8> = Vec::new();
    let wide: u128 = body.len() as u128 + 8;
    let size = (wide % 0x1_0000_0000u128) as u32;
    push_be32(&mut out, size);
    out.push(fourcc[0]);
    out.push(fourcc[1]);
    out.push(fourcc[2]);
    out.push(fourcc[3]);
    append_bytes(&mut out, body);
    assert(out@ =~= box_bytes(fourcc@, body@));
    out
}

/// A box is read back exactly as it was built.
#[verifier::rlimit(40)]
pub proof fn law_built_box_reads_back(cc: Seq<u8>, body: Seq<u8>)
    requires
        cc.len() == 4,
        body.len() + 8 < 0x1_0000_0000,
    ensures
        box_header(box_bytes(cc, body), 0) == Some(
            BoxSpec { fourcc: cc, start: 0, header_len: 8, total_len: body.len() + 8int },
        ),
        body_spec(box_bytes(cc, body), BoxSpec { fourcc: cc, start: 0, header_len: 8, total_len: body.len() + 8int }) == body,
{
    let s = box_bytes(cc, body);
    let n = (body.len() + 8) as nat;
    vstd::arithmetic::div_mod::lemma_small_mod(n, 0x1_0000_0000);
    let h = be32_bytes(n);
    assert(s =~= h + cc + body);
    crate::bytes::law_be32_round_trip(n);
    assert(s[0] == h[0] && s[1] == h[1] && s[2] == h[2] && s[3] == h[3]);
    assert(be32(s, 0) == be32(h, 0));
    assert(be32(s, 0) == n);
    assert(s.subrange(4, 8) =~= cc);
    assert(s.subrange(8, s.len() as int) =~= body);
}

// ------------------------------------------------------------ chpl boxes

/// The chapters a `chpl` body lists from entry `i` on, reading at `off`.
/// Each entry is a 64-bit start time and a length-prefixed title; reading
/// stops at the first entry that does not fit.
pub open spec fn chpl_entries(body: Seq<u8>, i: int, count: int, off: int) -> Seq<ChapterView>
    decreases count - i,
{
    if i >= count || off < 0 || off + 9 > body.len() {
        Seq::empty()
    } else {
        let start_units = be64(body, off);
        let title_len = body[off + 8] as int;
        let t = off + 9;
        if t + title_len > body.len() {
            Seq::empty()
        } else {
            seq![
                ChapterView {
                    id: chapter_id_spec((i + 1) as nat),
                    title: lossy_text(body.subrange(t, t + title_len)),
                    start_ms: start_units / (UNITS_PER_MS as nat),
                    end_ms: 0,
                },
            ] + chpl_entries(body, i + 1, count, t + title_len)
        }
    }
}

/// The chapters a `chpl` body lists, in stored order.
pub open spec fn chpl_spec(body: Seq<u8>) -> Seq<ChapterView> {
    if body.len() < 9 {
        Seq::empty()
    } else {
        chpl_entries(body, 0, body[8] as int, 9)
    }
}

fn parse_chpl(body: &[u8]) -> (r: Vec<Chapter>)
    ensures
        chapters_view(r@) == chpl_spec(body@),
{
    let mut chapters: Vec<Chapter> = Vec::new();
    if body.len() < 9 {
        assert(chapters_view(chapters@) =~= chpl_spec(body@));
        return chapters;
    }
    let count = body[8] as usize;
    let mut offset: usize = 9;
    let mut i: usize = 0;
    while i < count
        invariant
            9 <= offset <= body@.len(),
            i <= count,
            count == body@[8] as int,
            chapters_view(chapters@) + chpl_entries(body@, i as int, count as int, offset as int)
                == chpl_spec(body@),
        ensures
            chpl_entries(body@, i as int, count as int, offset as int) =~= Seq::<ChapterView>::empty(),
            chapters_view(chapters@) + chpl_entries(body@, i as int, count as int, offset as int)
                == chpl_spec(body@),
        decreases count - i,
    {
        if body.len() - offset < 9 {
            assert(chpl_entries(body@, i as int, count as int, offset as int) =~= Seq::<ChapterView>::empty());
            break;
        }
        let start_units = read_be64(body, offset);
        let title_len = body[offset + 8] as usize;
        let t = offset + 9;
        if body.len() - t < title_len {
            assert(chpl_entries(body@, i as int, count as int, offset as int) =~= Seq::<ChapterView>::empty());
            break;
        }
        let title_bytes = copy_range(body, t, t + title_len);
        let title = from_utf8_lossy(title_bytes.as_slice());
        let c = Chapter {
            id: chapter_id((i + 1) as u64),
            title,
            start_ms: start_units / UNITS_PER_MS,
            end_ms: 0,
        };
        let ghost before = chapters@;
        chapters.push(c);
        proof {
            assert(chapters_view(chapters@) =~= chapters_view(before) + seq![chapter_view(c)]);
        }
        offset = t + title_len;
        i = i + 1;
    }
    proof {
        let rest = chpl_entries(body@, i as int, count as int, offset as int);
        assert(rest =~= Seq::<ChapterView>::empty());
        assert(chapters_view(chapters@) + rest =~= chapters_view(chapters@));
    }
    chapters
}

/// The largest character boundary of `b` at or below `k`.
pub open spec fn boundary_at_most(b: Seq<u8>, k: int) -> int
    decreases k,
{
    if k <= 0 {
        0
    } else if is_char_boundary(b, k) {
        k
    } else {
        boundary_at_most(b, k - 1)
    }
}

/// A title's UTF-8 bytes, cut back to a character boundary within 255 bytes.
pub open spec fn title_bytes_spec(title: Seq<char>) -> Seq<u8> {
    let tb = encode_utf8(title);
    if tb.len() > 255 {
        tb.subrange(0, boundary_at_most(tb, 255))
    } else {
        tb
    }
}

/// One `chpl` entry: start in 100-ns units, title length, title bytes.
pub open spec fn chpl_entry_bytes(c: ChapterView) -> Seq<u8> {
    let tb = title_bytes_spec(c.title);
    be64_bytes((c.start_ms * (UNITS_PER_MS as nat)) % 0x1_0000_0000_0000_0000) + seq![tb.len() as u8] + tb
}

pub open spec fn chpl_entries_bytes(cs: Seq<ChapterView>) -> Seq<u8>
    decreases cs.len(),
{
    if cs.len() == 0 {
        Seq::empty()
    } else {
        chpl_entries_bytes(cs.drop_last()) + chpl_entry_bytes(cs.last())
    }
}

/// A `chpl` body: version 1, flags and a reserved word, the entry count
/// (at most 255), and the first 255 entries.
pub open spec fn chpl_body_spec(cs: Seq<ChapterView>) -> Seq<u8> {
    let n = if cs.len() > 255 { 255 } else { cs.len() as int };
    seq![1u8, 0u8, 0u8, 0u8, 0u8, 0u8, 0u8, 0u8, n as u8] + chpl_entries_bytes(cs.subrange(0, n))
}

/// Start times that can be written: in 100-ns units they fit 64 bits.
pub open spec fn starts_fit(cs: Seq<ChapterView>) -> bool {
    forall|i: int| 0 <= i < cs.len() ==> #[trigger] cs[i].start_ms * (UNITS_PER_MS as nat) <= u64::MAX
}

fn title_bytes(title: &String) -> (r: Vec<u8>)
    ensures
        r@ == title_bytes_spec(title@),
{
    let s = title.as_str();
    let all = s.as_bytes();
    if all.len() > 255 {
        let mut cut: usize = 255;
        while cut > 0 && !s.is_char_boundary(cut)
            invariant
                cut <= 255,
                all@ == encode_utf8(title@),
                s@ == title@,
                boundary_at_most(encode_utf8(title@), 255) == boundary_at_most(
                    encode_utf8(title@),
                    cut as int,
                ),
            decreases cut,
        {
            cut = cut - 1;
        }
        copy_range(all, 0, cut)
    } else {
        copy_range(all, 0, all.len())
    }
}

fn build_chpl_body(chapters: &[Chapter]) -> (r: Vec<u8>)
    ensures
        r@ == chpl_body_spec(chapters_view(chapters@)),
{
    let ghost cv = chapters_view(chapters@);
    let mut body: Vec<u8> = Vec::new();
    body.push(1u8);
    body.push(0u8);
    body.push(0u8);
    body.push(0u8);
    body.push(0u8);
    body.push(0u8);
    body.push(0u8);
    body.push(0u8);
    let n: usize = if chapters.len() > 255 { 255 } else { chapters.len() };
    body.push(n as u8);
    let ghost header = body@;
    assert(header =~= seq![1u8, 0u8, 0u8, 0u8, 0u8, 0u8, 0u8, 0u8, n as u8]);
    let mut k: usize = 0;
    while k < n
        invariant
            cv == chapters_view(chapters@),
            n <= chapters@.len(),
            n <= 255,
            0 <= k <= n,
            body@ == header + chpl_entries_bytes(cv.subrange(0, k as int)),
        decreases n - k,
    {
        let c = &chapters[k];
        assert(cv[k as int] == chapter_view(*c));
        let wide: u128 = c.start_ms as u128 * UNITS_PER_MS as u128;
        let start_units = (wide % 0x1_0000_0000_0000_0000u128) as u64;
        push_be64(&mut body, start_units);
        let tb = title_bytes(&c.title);
        body.push(tb.len() as u8);
        append_bytes(&mut body, tb.as_slice());
        proof {
            assert(cv.subrange(0, k + 1).drop_last() =~= cv.subrange(0, k as int));
            assert(body@ =~= header + chpl_entries_bytes(cv.subrange(0, k + 1)));
        }
        k = k + 1;
    }
    body
}

proof fn lemma_chpl_body_len(cs: Seq<ChapterView>)
    ensures
        chpl_entries_bytes(cs).len() <= cs.len() * 264,
    decreases cs.len(),
{
    if cs.len() > 0 {
        lemma_chpl_body_len(cs.drop_last());
        let tb = title_bytes_spec(cs.last().title);
        let all = encode_utf8(cs.last().title);
        if all.len() > 255 {
            lemma_boundary_at_most_range(all, 255);
        }
    }
}

proof fn lemma_boundary_at_most_range(b: Seq<u8>, k: int)
    requires
        0 <= k <= b.len(),
    ensures
        0 <= boundary_at_most(b, k) <= k,
    decreases k,
{
    if k > 0 && !is_char_boundary(b, k) {
        lemma_boundary_at_most_range(b, k - 1);
    }
}

fn build_chpl(chapters: &[Chapter]) -> (r: Vec<u8>)
    ensures
        r@ == box_bytes(seq![99u8, 104u8, 112u8, 108u8], chpl_body_spec(chapters_view(chapters@))),
{
    let body = build_chpl_body(chapters);
    proof {
        let cv = chapters_view(chapters@);
        let n = if cv.len() > 255 { 255 } else { cv.len() as int };
        lemma_chpl_body_len(cv.subrange(0, n));
    }
    let code: [u8; 4] = [99u8, 104u8, 112u8, 108u8];
    assert(code@ =~= seq![99u8, 104u8, 112u8, 108u8]);
    build_box(&code, body.as_slice())
}


// ------------------------------------------------------------ chunk offsets

pub open spec fn two64() -> int {
    0x1_0000_0000_0000_0000
}

pub open spec fn two63() -> int {
    0x8000_0000_0000_0000
}

/// A 64-bit value read as a two's-complement signed number.
pub open spec fn as_signed64(v: nat) -> int {
    if v >= two63() { v - two64() } else { v as int }
}

/// `x` reduced into the signed 64-bit range, as 64-bit arithmetic wraps.
pub open spec fn wrap_i64(x: int) -> int {
    (x + two63()) % two64() - two63()
}

/// A file offset moved by `delta` bytes in wrapping signed 64-bit
/// arithmetic, and clamped at zero.
pub open spec fn shifted_offset(v: nat, delta: int) -> nat {
    let w = wrap_i64(as_signed64(v) + delta);
    if w < 0 { 0 } else { w as nat }
}

/// The new bytes of one table entry of `width` bytes (4 for `stco`, 8 for
/// `co64`); a 32-bit entry keeps the low 32 bits of the moved offset.
pub open spec fn patched_entry(b: Seq<u8>, off: int, width: int, delta: int) -> Seq<u8> {
    if width == 4 {
        be32_bytes(shifted_offset(be32(b, off), delta) % 0x1_0000_0000)
    } else {
        be64_bytes(shifted_offset(be64(b, off), delta))
    }
}

/// The entries of an offset table from `off` on, at most `remaining` of
/// them, each moved by `delta`; bytes past the last whole entry are kept.
pub open spec fn patched_entries(b: Seq<u8>, off: int, remaining: int, width: int, delta: int) -> Seq<u8>
    decreases remaining,
{
    if remaining <= 0 || off < 0 || off + width > b.len() || width <= 0 {
        if 0 <= off <= b.len() { b.subrange(off, b.len() as int) } else { Seq::empty() }
    } else {
        patched_entry(b, off, width, delta) + patched_entries(b, off + width, remaining - 1, width, delta)
    }
}

/// A `stco`/`co64` body: version and flags, entry count, then the entries.
pub open spec fn patched_table(b: Seq<u8>, width: int, delta: int) -> Seq<u8> {
    b.subrange(0, 8) + patched_entries(b, 8, be32(b, 4) as int, width, delta)
}

pub open spec fn code(a: u8, b: u8, c: u8, d: u8) -> Seq<u8> {
    seq![a, b, c, d]
}

/// Boxes whose bodies hold further boxes that may carry chunk offsets.
pub open spec fn is_offset_container(cc: Seq<u8>) -> bool {
    ||| cc == code(116, 114, 97, 107)  // trak
    ||| cc == code(109, 100, 105, 97)  // mdia
    ||| cc == code(109, 105, 110, 102)  // minf
    ||| cc == code(115, 116, 98, 108)  // stbl
    ||| cc == code(100, 105, 110, 102)  // dinf
    ||| cc == code(101, 100, 116, 115)  // edts
    ||| cc == code(117, 100, 116, 97)  // udta
}

/// The boxes from `off` on with every chunk offset in `stco` and `co64`
/// tables, at any depth of the containers, moved by `delta`. Everything
/// else, headers included, is kept byte for byte.
pub open spec fn patched_boxes(s: Seq<u8>, off: int, delta: int) -> Seq<u8>
    decreases s.len() - off,
{
    match box_header(s, off) {
        None => if 0 <= off <= s.len() { s.subrange(off, s.len() as int) } else { Seq::empty() },
        Some(b) => {
            let body = body_spec(s, b);
            let new_body = if b.fourcc == code(115, 116, 99, 111) && body.len() >= 8 {
                patched_table(body, 4, delta)
            } else if b.fourcc == code(99, 111, 54, 52) && body.len() >= 8 {
                patched_table(body, 8, delta)
            } else if is_offset_container(b.fourcc) {
                patched_boxes(body, 0, delta)
            } else {
                body
            };
            s.subrange(off, off + b.header_len) + new_body + patched_boxes(s, off + b.total_len, delta)
        },
    }
}

proof fn lemma_wrap(x: int, w: int, k: int)
    requires
        w == x + k * two64(),
        -two63() <= w < two63(),
    ensures
        w == wrap_i64(x),
{
    assert(two64() > 0);
    vstd::arithmetic::div_mod::lemma_mod_multiples_vanish(k, x + two63(), two64());
    assert(two64() * k + (x + two63()) == w + two63()) by (nonlinear_arith)
        requires
            w == x + k * two64();
    vstd::arithmetic::div_mod::lemma_small_mod((w + two63()) as nat, two64() as nat);
}

fn shift_offset(v: u64, delta: i128) -> (r: u64)
    requires
        -two64() * 2 <= delta <= two64() * 2,
    ensures
        r as nat == shifted_offset(v as nat, delta as int),
        r < 0x8000_0000_0000_0000,
{
    let sv: i128 = if v >= 0x8000_0000_0000_0000u64 {
        v as i128 - 0x1_0000_0000_0000_0000i128
    } else {
        v as i128
    };
    let sum: i128 = sv + delta;
    let mut w: i128 = sum;
    let ghost mut k: int = 0;
    let mut steps: u8 = 0;
    while w >= 0x8000_0000_0000_0000i128 && steps < 4
        invariant
            w == sum + k * two64(),
            -two63() - two64() * 2 <= sum < two63() + two64() * 2,
            -two63() - two64() * 2 <= w < two63() + two64() * 2 - steps * two64(),
            steps <= 4,
        decreases 4 - steps,
    {
        w = w - 0x1_0000_0000_0000_0000i128;
        proof {
            k = k - 1;
        }
        steps = steps + 1;
    }
    steps = 0;
    while w < -0x8000_0000_0000_0000i128 && steps < 4
        invariant
            w == sum + k * two64(),
            -two63() - two64() * 2 + steps * two64() <= w < two63(),
            steps <= 4,
        decreases 4 - steps,
    {
        w = w + 0x1_0000_0000_0000_0000i128;
        proof {
            k = k + 1;
        }
        steps = steps + 1;
    }
    proof {
        lemma_wrap(sum as int, w as int, k);
    }
    if w < 0 { 0 } else { w as u64 }
}

fn patch_table(body: &[u8], width: usize, delta: i128) -> (r: Vec<u8>)
    requires
        body@.len() >= 8,
        width == 4 || width == 8,
        -two64() * 2 <= delta <= two64() * 2,
    ensures
        r@ == patched_table(body@, width as int, delta as int),
{
    let mut out = copy_range(body, 0, 8);
    let count = read_be32(body, 4);
    let n = body.len();
    let mut offset: usize = 8;
    let mut k: u32 = 0;
    while k < count
        invariant
            n == body@.len(),
            8 <= offset <= n,
            k <= count,
            width == 4 || width == 8,
            -two64() * 2 <= delta <= two64() * 2,
            out@ + patched_entries(body@, offset as int, (count - k) as int, width as int, delta as int)
                == patched_table(body@, width as int, delta as int),
            count as nat == be32(body@, 4),
        ensures
            patched_entries(body@, offset as int, (count - k) as int, width as int, delta as int)
                == body@.subrange(offset as int, n as int),
            out@ + patched_entries(body@, offset as int, (count - k) as int, width as int, delta as int)
                == patched_table(body@, width as int, delta as int),
        decreases count - k,
    {
        if n - offset < width {
            break;
        }
        let ghost before = out@;
        if width == 4 {
            let v = read_be32(body, offset);
            let moved = shift_offset(v as u64, delta);
            push_be32(&mut out, (moved % 0x1_0000_0000u64) as u32);
        } else {
            let v = read_be64(body, offset);
            let moved = shift_offset(v, delta);
            push_be64(&mut out, moved);
        }
        proof {
            assert(out@ == before + patched_entry(body@, offset as int, width as int, delta as int));
        }
        offset = offset + width;
        k = k + 1;
    }
    let rest = copy_range(body, offset, n);
    append_bytes(&mut out, rest.as_slice());
    out
}

fn is_offset_container_code(cc: &[u8; 4]) -> (r: bool)
    ensures
        r == is_offset_container(cc@),
{
    let trak: [u8; 4] = [116, 114, 97, 107];
    let mdia: [u8; 4] = [109, 100, 105, 97];
    let minf: [u8; 4] = [109, 105, 110, 102];
    let stbl: [u8; 4] = [115, 116, 98, 108];
    let dinf: [u8; 4] = [100, 105, 110, 102];
    let edts: [u8; 4] = [101, 100, 116, 115];
    let udta: [u8; 4] = [117, 100, 116, 97];
    assert(trak@ =~= code(116, 114, 97, 107));
    assert(mdia@ =~= code(109, 100, 105, 97));
    assert(minf@ =~= code(109, 105, 110, 102));
    assert(stbl@ =~= code(115, 116, 98, 108));
    assert(dinf@ =~= code(100, 105, 110, 102));
    assert(edts@ =~= code(101, 100, 116, 115));
    assert(udta@ =~= code(117, 100, 116, 97));
    same_code(cc, &trak) || same_code(cc, &mdia) || same_code(cc, &minf) || same_code(cc, &stbl)
        || same_code(cc, &dinf) || same_code(cc, &edts) || same_code(cc, &udta)
}

/// The boxes of `data` with every `stco`/`co64` chunk offset inside them,
/// at any depth of `trak`, `mdia`, `minf`, `stbl`, `dinf`, `edts` and
/// `udta`, moved by `delta` bytes.
fn patch_chunk_offsets(data: &[u8], delta: i128) -> (r: Vec<u8>)
    requires
        -two64() * 2 <= delta <= two64() * 2,
    ensures
        r@ == patched_boxes(data@, 0, delta as int),
    decreases data@.len(),
{
    let stco: [u8; 4] = [115, 116, 99, 111];
    let co64: [u8; 4] = [99, 111, 54, 52];
    assert(stco@ =~= code(115, 116, 99, 111));
    assert(co64@ =~= code(99, 111, 54, 52));
    let mut out: Vec<u8> = Vec::new();
    let mut offset: usize = 0;
    let n = data.len();
    loop
        invariant
            n == data@.len(),
            offset <= n,
            -two64() * 2 <= delta <= two64() * 2,
            stco@ == code(115, 116, 99, 111),
            co64@ == code(99, 111, 54, 52),
            out@ + patched_boxes(data@, offset as int, delta as int) == patched_boxes(data@, 0, delta as int),
        decreases n - offset,
    {
        match read_box_header(data, offset) {
            None => {
                let rest = copy_range(data, offset, n);
                append_bytes(&mut out, rest.as_slice());
                return out;
            },
            Some(b) => {
                let ghost before = out@;
                let header = copy_range(data, b.start, b.start + b.header_len);
                append_bytes(&mut out, header.as_slice());
                let body = body_of(data, b);
                let is_stco = same_code(&b.fourcc, &stco);
                let is_co64 = same_code(&b.fourcc, &co64);
                let new_body = if is_stco && body.len() >= 8 {
                    patch_table(body.as_slice(), 4, delta)
                } else if is_co64 && body.len() >= 8 {
                    patch_table(body.as_slice(), 8, delta)
                } else if is_offset_container_code(&b.fourcc) {
                    patch_chunk_offsets(body.as_slice(), delta)
                } else {
                    body
                };
                append_bytes(&mut out, new_body.as_slice());
                proof {
                    assert(out@ + patched_boxes(data@, (offset + b.total_len) as int, delta as int)
                        =~= before + patched_boxes(data@, offset as int, delta as int));
                }
                offset = offset + b.total_len;
            },
        }
    }
}


// ------------------------------------------------------------ whole files

pub open spec fn moov_code() -> Seq<u8> { code(109, 111, 111, 118) }
pub open spec fn udta_code() -> Seq<u8> { code(117, 100, 116, 97) }
pub open spec fn chpl_code() -> Seq<u8> { code(99, 104, 112, 108) }
pub open spec fn mdat_code() -> Seq<u8> { code(109, 100, 97, 116) }

/// The first box of `bs` with the given code.
pub open spec fn first_box(bs: Seq<BoxSpec>, cc: Seq<u8>) -> Option<BoxSpec> {
    match find_spec(bs, cc) {
        Some(i) => Some(bs[i]),
        None => None,
    }
}

/// The bytes of the boxes of `bs`, in order, leaving out those with code `drop`.
pub open spec fn kept_bytes(s: Seq<u8>, bs: Seq<BoxSpec>, drop: Seq<u8>) -> Seq<u8>
    decreases bs.len(),
{
    if bs.len() == 0 {
        Seq::empty()
    } else {
        let b = bs.last();
        kept_bytes(s, bs.drop_last(), drop) + if b.fourcc != drop {
            s.subrange(b.start, b.start + b.total_len)
        } else {
            Seq::empty()
        }
    }
}

/// The new `udta` body: the old one's boxes but `chpl`, then the new `chpl`.
pub open spec fn new_udta_body_spec(moov_body: Seq<u8>, chpl_box: Seq<u8>) -> Seq<u8> {
    match first_box(boxes(moov_body), udta_code()) {
        Some(u) => {
            let ub = body_spec(moov_body, u);
            kept_bytes(ub, boxes(ub), chpl_code()) + chpl_box
        },
        None => chpl_box,
    }
}

/// The new `moov` body: the old one's boxes but `udta`, then the new `udta`.
pub open spec fn new_moov_body_spec(moov_body: Seq<u8>, chpl_box: Seq<u8>) -> Seq<u8> {
    kept_bytes(moov_body, boxes(moov_body), udta_code()) + box_bytes(
        udta_code(),
        new_udta_body_spec(moov_body, chpl_box),
    )
}

/// Whether some top-level `mdat` box starts after the given position.
pub open spec fn mdat_after(bs: Seq<BoxSpec>, pos: int) -> bool {
    exists|i: int| 0 <= i < bs.len() && #[trigger] bs[i].fourcc == mdat_code() && bs[i].start > pos
}

/// The file with its chapters replaced: the `moov` box is rebuilt with a
/// `udta` box that ends with a `chpl` box listing `chapters` by start time.
/// When the `moov` box changes size and media data follows it, every chunk
/// offset inside it moves by the change. `None` when there is no `moov` box.
pub open spec fn write_spec(data: Seq<u8>, chapters: Seq<ChapterView>) -> Option<Seq<u8>> {
    match first_box(boxes(data), moov_code()) {
        None => None,
        Some(m) => {
            let mb = body_spec(data, m);
            let chpl_box = box_bytes(chpl_code(), chpl_body_spec(sort_by_start_spec(chapters)));
            let nb = new_moov_body_spec(mb, chpl_box);
            let delta = nb.len() + 8 - m.total_len;
            let final_body = if delta != 0 && mdat_after(boxes(data), m.start) {
                patched_boxes(nb, 0, delta)
            } else {
                nb
            };
            Some(
                data.subrange(0, m.start) + box_bytes(moov_code(), final_body) + data.subrange(
                    m.start + m.total_len,
                    data.len() as int,
                ),
            )
        },
    }
}

fn kept_boxes(s: &[u8], bs: &[BoxInfo], drop: &[u8; 4], out: &mut Vec<u8>)
    requires
        boxes_fit(bs@, s@.len() as int),
    ensures
        final(out)@ == old(out)@ + kept_bytes(s@, boxes_view(bs@), drop@),
{
    let ghost start = out@;
    let ghost bv = boxes_view(bs@);
    let mut k: usize = 0;
    while k < bs.len()
        invariant
            0 <= k <= bs@.len(),
            bv == boxes_view(bs@),
            boxes_fit(bs@, s@.len() as int),
            out@ == start + kept_bytes(s@, bv.subrange(0, k as int), drop@),
        decreases bs@.len() - k,
    {
        let b = bs[k];
        proof {
            assert(bv.subrange(0, k + 1).drop_last() =~= bv.subrange(0, k as int));
            assert(bv.subrange(0, k + 1).last() == box_view(b));
        }
        if !same_code(&b.fourcc, drop) {
            let n = s.len();
            assert(bs@[k as int].start + bs@[k as int].total_len <= n);
            let bytes = copy_range(s, b.start, b.start + b.total_len);
            append_bytes(out, bytes.as_slice());
        }
        proof {
            assert(out@ =~= start + kept_bytes(s@, bv.subrange(0, k + 1), drop@));
        }
        k = k + 1;
    }
    assert(bv.subrange(0, k as int) =~= bv);
}

fn any_mdat_after(bs: &[BoxInfo], pos: usize) -> (r: bool)
    ensures
        r == mdat_after(boxes_view(bs@), pos as int),
{
    let mdat: [u8; 4] = [109, 100, 97, 116];
    assert(mdat@ =~= mdat_code());
    let ghost bv = boxes_view(bs@);
    let mut k: usize = 0;
    while k < bs.len()
        invariant
            0 <= k <= bs@.len(),
            bv == boxes_view(bs@),
            mdat@ == mdat_code(),
            forall|i: int| 0 <= i < k ==> !(#[trigger] bv[i].fourcc == mdat_code() && bv[i].start > pos),
        decreases bs@.len() - k,
    {
        if same_code(&bs[k].fourcc, &mdat) && bs[k].start > pos {
            assert(bv[k as int].fourcc == mdat_code() && bv[k as int].start > pos);
            return true;
        }
        k = k + 1;
    }
    false
}

fn build_moov_body(moov_body: &[u8], new_chpl: &[u8]) -> (r: Vec<u8>)
    ensures
        r@ == new_moov_body_spec(moov_body@, new_chpl@),
{
    let udta_cc: [u8; 4] = [117, 100, 116, 97];
    let chpl_cc: [u8; 4] = [99, 104, 112, 108];
    assert(udta_cc@ =~= udta_code());
    assert(chpl_cc@ =~= chpl_code());
    let children = iter_boxes(moov_body);
    let mut new_udta_body: Vec<u8> = Vec::new();
    match find_box(children.as_slice(), &udta_cc) {
        Some(i) => {
            let udta = children[i];
            let udta_body = body_of(moov_body, udta);
            let udta_children = iter_boxes(udta_body.as_slice());
            kept_boxes(udta_body.as_slice(), udta_children.as_slice(), &chpl_cc, &mut new_udta_body);
        },
        None => {},
    }
    append_bytes(&mut new_udta_body, new_chpl);
    assert(new_udta_body@ =~= new_udta_body_spec(moov_body@, new_chpl@));
    let mut out: Vec<u8> = Vec::new();
    kept_boxes(moov_body, children.as_slice(), &udta_cc, &mut out);
    let new_udta = build_box(&udta_cc, new_udta_body.as_slice());
    append_bytes(&mut out, new_udta.as_slice());
    out
}

/// The file's bytes with its chapter list replaced, or an error when the
/// file has no `moov` box.
#[verifier::rlimit(40)]
pub fn write_chapters_to_bytes(data: &[u8], chapters: &[Chapter]) -> (r: Result<Vec<u8>, NotataError>)
    ensures
        match r {
            Ok(out) => write_spec(data@, chapters_view(chapters@)) == Some(out@),
            Err(e) => write_spec(data@, chapters_view(chapters@)) is None && (e matches NotataError::Custom(m)
                && m@ == "File has no moov atom"@),
        },
{
    let top = iter_boxes(data);
    let moov_cc: [u8; 4] = [109, 111, 111, 118];
    assert(moov_cc@ =~= moov_code());
    let moov = match find_box(top.as_slice(), &moov_cc) {
        Some(i) => top[i],
        None => {
            let m = String::from_str("File has no moov atom");
            proof {
                reveal_strlit("File has no moov atom");
            }
            return Err(NotataError::Custom(m));
        },
    };
    let moov_body = body_of(data, moov);
    let sorted = sort_by_start(clone_chapters(chapters));
    let new_chpl = build_chpl(sorted.as_slice());
    let new_moov = build_moov_body(moov_body.as_slice(), new_chpl.as_slice());
    let delta: i128 = new_moov.len() as i128 + 8 - moov.total_len as i128;
    let body = if delta != 0 && any_mdat_after(top.as_slice(), moov.start) {
        patch_chunk_offsets(new_moov.as_slice(), delta)
    } else {
        new_moov
    };
    let new_moov_box = build_box(&moov_cc, body.as_slice());
    let mut out = copy_range(data, 0, moov.start);
    append_bytes(&mut out, new_moov_box.as_slice());
    let n = data.len();
    let tail = copy_range(data, moov.start + moov.total_len, n);
    append_bytes(&mut out, tail.as_slice());
    Ok(out)
}


/// The chapters of the `chpl` box under `udta` in a `moov` body, ordered by
/// start, each ending where the next starts; empty without such a box.
pub open spec fn chpl_chapters(moov_body: Seq<u8>) -> Seq<ChapterView> {
    match qt::child_body(moov_body, udta_code()) {
        None => Seq::empty(),
        Some(ub) => match qt::child_body(ub, chpl_code()) {
            None => Seq::empty(),
            Some(cb) => crate::chapters::fill_end_times_spec(sort_by_start_spec(chpl_spec(cb))),
        },
    }
}

/// The chapters of an MP4 file: those of its `chpl` box when it lists any,
/// else those of a QuickTime chapter track, else none.
pub open spec fn read_spec(data: Seq<u8>) -> Seq<ChapterView> {
    match qt::child_body(data, moov_code()) {
        None => Seq::empty(),
        Some(mb) => {
            let cs = chpl_chapters(mb);
            if cs.len() > 0 {
                cs
            } else {
                match qt::qt_spec(data, mb, boxes(mb)) {
                    Some(q) => q,
                    None => Seq::empty(),
                }
            }
        },
    }
}

/// The chapters stored in an MP4/M4A/M4B file's bytes.
pub fn read_chapters_from_bytes(data: &[u8]) -> (r: Vec<Chapter>)
    ensures
        chapters_view(r@) == read_spec(data@),
{
    let moov_cc: [u8; 4] = [109, 111, 111, 118];
    let udta_cc: [u8; 4] = [117, 100, 116, 97];
    let chpl_cc: [u8; 4] = [99, 104, 112, 108];
    assert(moov_cc@ =~= moov_code());
    assert(udta_cc@ =~= udta_code());
    assert(chpl_cc@ =~= chpl_code());
    let moov_body = match qt::child_body_exec(data, &moov_cc) {
        Some(b) => b,
        None => {
            let v: Vec<Chapter> = Vec::new();
            assert(chapters_view(v@) =~= Seq::<ChapterView>::empty());
            return v;
        },
    };
    let mut found: Vec<Chapter> = Vec::new();
    match qt::child_body_exec(moov_body.as_slice(), &udta_cc) {
        Some(ub) => match qt::child_body_exec(ub.as_slice(), &chpl_cc) {
            Some(cb) => {
                let parsed = parse_chpl(cb.as_slice());
                let mut sorted = sort_by_start(parsed);
                crate::chapters::fill_end_times(&mut sorted);
                found = sorted;
            },
            None => {},
        },
        None => {},
    }
    assert(chapters_view(found@) =~= chpl_chapters(moov_body@));
    if found.len() > 0 {
        return found;
    }
    let children = iter_boxes(moov_body.as_slice());
    match qt::read_chapters(data, moov_body.as_slice(), children.as_slice()) {
        Some(q) => q,
        None => {
            let v: Vec<Chapter> = Vec::new();
            assert(chapters_view(v@) =~= Seq::<ChapterView>::empty());
            v
        },
    }
}

/// Chapters that a `chpl` body holds exactly: at most 255 of them, start
/// times that fit in 100-ns units, and titles of at most 255 UTF-8 bytes.
pub open spec fn chpl_writable(cs: Seq<ChapterView>) -> bool {
    &&& cs.len() <= 255
    &&& starts_fit(cs)
    &&& forall|i: int| 0 <= i < cs.len() ==> encode_utf8(#[trigger] cs[i].title).len() <= 255
}

/// What reading gives back of written chapters: the same titles and start
/// times, numbered from 1, with no end time yet.
pub open spec fn chpl_read_back(cs: Seq<ChapterView>) -> Seq<ChapterView> {
    Seq::new(
        cs.len(),
        |i: int| ChapterView { id: chapter_id_spec((i + 1) as nat), title: cs[i].title, start_ms: cs[i].start_ms, end_ms: 0 },
    )
}

proof fn lemma_entries_bytes_concat(a: Seq<ChapterView>, b: Seq<ChapterView>)
    ensures
        chpl_entries_bytes(a + b) == chpl_entries_bytes(a) + chpl_entries_bytes(b),
    decreases b.len(),
{
    if b.len() == 0 {
        assert(a + b =~= a);
        assert(chpl_entries_bytes(a) + Seq::<u8>::empty() =~= chpl_entries_bytes(a));
    } else {
        lemma_entries_bytes_concat(a, b.drop_last());
        assert((a + b).drop_last() =~= a + b.drop_last());
        assert((a + b).last() == b.last());
        assert(chpl_entries_bytes(a) + chpl_entries_bytes(b.drop_last()) + chpl_entry_bytes(b.last()) =~= chpl_entries_bytes(a)
            + chpl_entries_bytes(b));
    }
}

proof fn lemma_be64_at(s: Seq<u8>, off: int, v: nat)
    requires
        0 <= off,
        off + 8 <= s.len(),
        s.subrange(off, off + 8) == be64_bytes(v),
        v < 0x1_0000_0000_0000_0000,
    ensures
        be64(s, off) == v,
{
    crate::bytes::law_be64_round_trip(v);
    let b = be64_bytes(v);
    assert(forall|k: int| 0 <= k < 8 ==> s[off + k] == #[trigger] b[k]) by {
        assert forall|k: int| 0 <= k < 8 implies s[off + k] == #[trigger] b[k] by {
            assert(s.subrange(off, off + 8)[k] == s[off + k]);
        }
    }
    assert(be64(s, off) == be64(b, 0));
}

proof fn lemma_entry_at(body: Seq<u8>, off: int, c: ChapterView)
    requires
        0 <= off,
        encode_utf8(c.title).len() <= 255,
        c.start_ms * (UNITS_PER_MS as nat) <= u64::MAX,
        off + chpl_entry_bytes(c).len() <= body.len(),
        body.subrange(off, off + chpl_entry_bytes(c).len()) == chpl_entry_bytes(c),
    ensures
        chpl_entry_bytes(c).len() == 9 + encode_utf8(c.title).len(),
        be64(body, off) / (UNITS_PER_MS as nat) == c.start_ms,
        body[off + 8] as int == encode_utf8(c.title).len(),
        lossy_text(body.subrange(off + 9, off + 9 + encode_utf8(c.title).len())) == c.title,
{
    let tb = title_bytes_spec(c.title);
    assert(tb == encode_utf8(c.title));
    let units = c.start_ms * (UNITS_PER_MS as nat);
    vstd::arithmetic::div_mod::lemma_small_mod(units, 0x1_0000_0000_0000_0000);
    let e = chpl_entry_bytes(c);
    assert(e =~= be64_bytes(units) + seq![tb.len() as u8] + tb);
    let w = body.subrange(off, off + e.len());
    assert(body.subrange(off, off + 8) =~= w.subrange(0, 8));
    assert(w.subrange(0, 8) =~= be64_bytes(units));
    lemma_be64_at(body, off, units);
    assert(body[off + 8] == w[8]);
    assert(body.subrange(off + 9, off + 9 + tb.len()) =~= w.subrange(9, 9 + tb.len() as int));
    assert(w.subrange(9, 9 + tb.len() as int) =~= tb);
    vstd::utf8::encode_utf8_valid_utf8(c.title);
    vstd::utf8::encode_utf8_decode_utf8(c.title);
    assert((units / (UNITS_PER_MS as nat)) == c.start_ms) by (nonlinear_arith)
        requires
            units == c.start_ms * 10000,
    ;
}

proof fn lemma_entries_split(cs: Seq<ChapterView>, j: int)
    requires
        0 <= j < cs.len(),
    ensures
        chpl_entries_bytes(cs) == chpl_entries_bytes(cs.subrange(0, j)) + chpl_entry_bytes(cs[j])
            + chpl_entries_bytes(cs.subrange(j + 1, cs.len() as int)),
        chpl_entries_bytes(cs.subrange(0, j + 1)) == chpl_entries_bytes(cs.subrange(0, j)) + chpl_entry_bytes(cs[j]),
{
    let n = cs.len() as int;
    let c = cs[j];
    lemma_entries_bytes_concat(cs.subrange(0, j), cs.subrange(j, n));
    assert(cs.subrange(0, j) + cs.subrange(j, n) =~= cs);
    lemma_entries_bytes_concat(seq![c], cs.subrange(j + 1, n));
    assert(seq![c] + cs.subrange(j + 1, n) =~= cs.subrange(j, n));
    assert(seq![c].drop_last() =~= Seq::<ChapterView>::empty());
    assert(chpl_entries_bytes(seq![c]) == chpl_entries_bytes(Seq::<ChapterView>::empty()) + chpl_entry_bytes(c));
    assert(chpl_entries_bytes(seq![c]) =~= chpl_entry_bytes(c));
    lemma_entries_bytes_concat(cs.subrange(0, j), seq![c]);
    assert(cs.subrange(0, j) + seq![c] =~= cs.subrange(0, j + 1));
    assert(chpl_entries_bytes(cs.subrange(0, j)) + (chpl_entry_bytes(c) + chpl_entries_bytes(cs.subrange(j + 1, n)))
        =~= chpl_entries_bytes(cs.subrange(0, j)) + chpl_entry_bytes(c) + chpl_entries_bytes(cs.subrange(j + 1, n)));
}

/// Where entry `j` of written chapters stands in the body.
#[verifier::spinoff_prover]
proof fn lemma_entry_place(cs: Seq<ChapterView>, j: int)
    requires
        cs.len() <= 255,
        0 <= j < cs.len(),
    ensures
        ({
            let off = 9 + chpl_entries_bytes(cs.subrange(0, j)).len() as int;
            let e = chpl_entry_bytes(cs[j]);
            &&& off + e.len() <= chpl_body_spec(cs).len()
            &&& chpl_body_spec(cs).subrange(off, off + e.len()) == e
            &&& 9 + chpl_entries_bytes(cs.subrange(0, j + 1)).len() as int == off + e.len()
            &&& chpl_body_spec(cs)[8] as int == cs.len()
        }),
{
    let n = cs.len() as int;
    let body = chpl_body_spec(cs);
    assert(cs.subrange(0, n) =~= cs);
    let head = seq![1u8, 0u8, 0u8, 0u8, 0u8, 0u8, 0u8, 0u8, n as u8];
    let all = chpl_entries_bytes(cs);
    assert(body == head + all);
    lemma_entries_split(cs, j);
    let pre = chpl_entries_bytes(cs.subrange(0, j));
    let e = chpl_entry_bytes(cs[j]);
    let off = 9 + pre.len() as int;
    assert(all.subrange(pre.len() as int, (pre.len() + e.len()) as int) =~= e);
    assert(body.subrange(off, off + e.len()) =~= all.subrange(pre.len() as int, (pre.len() + e.len()) as int));
}

#[verifier::spinoff_prover]
#[verifier::rlimit(40)]
proof fn lemma_read_entries(cs: Seq<ChapterView>, j: int)
    requires
        chpl_writable(cs),
        0 <= j <= cs.len(),
    ensures
        chpl_entries(
            chpl_body_spec(cs),
            j,
            cs.len() as int,
            9 + chpl_entries_bytes(cs.subrange(0, j)).len() as int,
        ) == chpl_read_back(cs).subrange(j, cs.len() as int),
    decreases cs.len() - j,
{
    let n = cs.len() as int;
    if j < n {
        let body = chpl_body_spec(cs);
        let off = 9 + chpl_entries_bytes(cs.subrange(0, j)).len() as int;
        let c = cs[j];
        assert(encode_utf8(cs[j].title).len() <= 255);
        assert(cs[j].start_ms * (UNITS_PER_MS as nat) <= u64::MAX);
        lemma_entry_place(cs, j);
        lemma_entry_at(body, off, c);
        lemma_read_entries(cs, j + 1);
        let rb = chpl_read_back(cs);
        assert(rb.subrange(j, n) =~= seq![rb[j]] + rb.subrange(j + 1, n));
    } else {
        assert(chpl_read_back(cs).subrange(j, n) =~= Seq::<ChapterView>::empty());
    }
}

/// A `chpl` body reads back the chapters it was written from: their titles
/// and start times, in order, numbered from 1, when there are at most 255,
/// their start times fit in 100-ns units, and no title takes more than 255
/// UTF-8 bytes.
pub proof fn law_chpl_reads_back(cs: Seq<ChapterView>)
    requires
        chpl_writable(cs),
    ensures
        chpl_spec(chpl_body_spec(cs)) == chpl_read_back(cs),
{
    lemma_read_entries(cs, 0);
    assert(cs.subrange(0, 0) =~= Seq::<ChapterView>::empty());
    assert(chpl_entries_bytes(Seq::<ChapterView>::empty()).len() == 0);
    assert(chpl_read_back(cs).subrange(0, cs.len() as int) =~= chpl_read_back(cs));
    let n = cs.len() as int;
    assert(cs.subrange(0, n) =~= cs);
    assert(chpl_body_spec(cs)[8] == n as u8);
    assert((n as u8) as int == n);
}

} // verus!
