//! Chapters in Vorbis comments (FLAC, Ogg, Opus): `CHAPTERnnn` holds a
//! start time, `CHAPTERnnnNAME` the title.
use vstd::prelude::*;

use crate::chapters::{
    chapter_id, chapter_id_spec, chapter_view, chapters_view, fill_end_times, fill_end_times_spec,
    sort_by_start, sort_by_start_spec, Chapter, ChapterView,
};
use crate::text::{
    all_digits, chars_of, decimal, digits_to_u64, digits_value, format_u64, pad_left, pad_left_exec, repeat_char,
    parse_u64, parse_unsigned, push_all, string_from, trim, trimmed,
};

verus! {

pub open spec fn two64() -> int {
    0x1_0000_0000_0000_0000
}

/// `hh:mm:ss.mmm`, each part zero-padded to its width; hours may run longer.
pub open spec fn format_timestamp_spec(ms: nat) -> Seq<char> {
    let hours = ms / 3_600_000;
    let minutes = (ms % 3_600_000) / 60_000;
    let seconds = (ms % 60_000) / 1000;
    let millis = ms % 1000;
    pad_left(decimal(hours), '0', 2) + ":"@ + pad_left(decimal(minutes), '0', 2) + ":"@ + pad_left(
        decimal(seconds),
        '0',
        2,
    ) + "."@ + pad_left(decimal(millis), '0', 3)
}

pub fn format_timestamp(ms: u64) -> (r: String)
    ensures
        r@ == format_timestamp_spec(ms as nat),
{
    let h = pad_left_exec(format_u64(ms / 3_600_000).as_slice(), '0', 2);
    let m = pad_left_exec(format_u64((ms % 3_600_000) / 60_000).as_slice(), '0', 2);
    let s = pad_left_exec(format_u64((ms % 60_000) / 1000).as_slice(), '0', 2);
    let f = pad_left_exec(format_u64(ms % 1000).as_slice(), '0', 3);
    let mut out: Vec<char> = Vec::new();
    push_all(&mut out, h.as_slice());
    push_all(&mut out, chars_of(":").as_slice());
    push_all(&mut out, m.as_slice());
    push_all(&mut out, chars_of(":").as_slice());
    push_all(&mut out, s.as_slice());
    push_all(&mut out, chars_of(".").as_slice());
    push_all(&mut out, f.as_slice());
    string_from(out.as_slice())
}

pub open spec fn u64_of(t: Seq<char>) -> Option<nat> {
    match parse_unsigned(t) {
        Some(v) => if v <= u64::MAX { Some(v) } else { None },
        None => None,
    }
}

/// Index of the first `c` in `s`.
pub open spec fn index_of(s: Seq<char>, c: char, k: int) -> Option<int>
    decreases s.len() - k,
{
    if k < 0 || k >= s.len() {
        None
    } else if s[k] == c {
        Some(k)
    } else {
        index_of(s, c, k + 1)
    }
}

/// The `:`-separated parts of `s`.
pub open spec fn colon_parts(s: Seq<char>) -> Seq<Seq<char>> {
    crate::renamer::template::split_on(s, ':')
}

/// A timestamp written as `[h:]m:s[.millis]`, in wrapping 64-bit
/// milliseconds.
pub open spec fn parse_hms_spec(text: Seq<char>) -> Option<nat> {
    let s = trim(text);
    let (hms, millis) = match index_of(s, '.', 0) {
        Some(p) => (s.subrange(0, p), u64_of(s.subrange(p + 1, s.len() as int))),
        None => (s, Some(0nat)),
    };
    match millis {
        None => None,
        Some(ms) => {
            let parts = colon_parts(hms);
            let hms_values: Option<(nat, nat, nat)> = if parts.len() == 3 {
                match (u64_of(parts[0]), u64_of(parts[1]), u64_of(parts[2])) {
                    (Some(h), Some(m), Some(x)) => Some((h, m, x)),
                    _ => None,
                }
            } else if parts.len() == 2 {
                match (u64_of(parts[0]), u64_of(parts[1])) {
                    (Some(m), Some(x)) => Some((0nat, m, x)),
                    _ => None,
                }
            } else {
                None
            };
            match hms_values {
                Some((h, m, x)) => Some(((h * 3_600_000 + m * 60_000 + x * 1000 + ms) as int % two64()) as nat),
                None => None,
            }
        },
    }
}


pub(crate) fn split_on_exec(s: &[char], sep: char) -> (r: Vec<Vec<char>>)
    ensures
        crate::text::vecs_view(r@) == crate::renamer::template::split_on(s@, sep),
{
    let mut parts: Vec<Vec<char>> = Vec::new();
    parts.push(Vec::new());
    assert(crate::text::vecs_view(parts@) =~= crate::renamer::template::split_on(s@.subrange(0, 0), sep));
    let mut k: usize = 0;
    while k < s.len()
        invariant
            0 <= k <= s@.len(),
            parts@.len() >= 1,
            crate::text::vecs_view(parts@) == crate::renamer::template::split_on(s@.subrange(0, k as int), sep),
        decreases s@.len() - k,
    {
        let ghost before = crate::text::vecs_view(parts@);
        assert(s@.subrange(0, k + 1).drop_last() =~= s@.subrange(0, k as int));
        if s[k] == sep {
            parts.push(Vec::new());
            assert(crate::text::vecs_view(parts@) =~= before.push(Seq::empty()));
        } else {
            let mut last = parts.pop().unwrap();
            last.push(s[k]);
            parts.push(last);
            assert(crate::text::vecs_view(parts@) =~= before.update(before.len() - 1, before.last().push(s@[k as int])));
        }
        k = k + 1;
    }
    assert(s@.subrange(0, k as int) =~= s@);
    parts
}

/// Index of the first `c` at or after `from`.
pub(crate) fn index_of_exec(s: &[char], c: char) -> (r: Option<usize>)
    ensures
        match r {
            Some(p) => index_of(s@, c, 0) == Some(p as int) && p < s@.len(),
            None => index_of(s@, c, 0) is None,
        },
{
    let mut k: usize = 0;
    while k < s.len()
        invariant
            0 <= k <= s@.len(),
            index_of(s@, c, 0) == index_of(s@, c, k as int),
        decreases s@.len() - k,
    {
        if s[k] == c {
            return Some(k);
        }
        k = k + 1;
    }
    None
}

/// A timestamp written as `[h:]m:s[.millis]`, in milliseconds. Times
/// written as a plain number of seconds are read by the caller, which
/// handles the floating-point form.
pub fn parse_hms(text: &str) -> (r: Option<u64>)
    ensures
        match r {
            Some(v) => parse_hms_spec(text@) == Some(v as nat),
            None => parse_hms_spec(text@) is None,
        },
{
    let s = trimmed(chars_of(text).as_slice());
    let n = s.len();
    let (hms, millis): (Vec<char>, Option<u64>) = match index_of_exec(s.as_slice(), '.') {
        Some(p) => (
            crate::text::slice_range(s.as_slice(), 0, p),
            parse_u64(crate::text::slice_range(s.as_slice(), p + 1, n).as_slice()),
        ),
        None => (crate::text::slice_range(s.as_slice(), 0, s.len()), Some(0)),
    };
    assert(s@.subrange(0, s@.len() as int) =~= s@);
    let ms = match millis {
        Some(v) => v,
        None => {
            return None;
        },
    };
    let parts = split_on_exec(hms.as_slice(), ':');
    let (h, m, x): (u64, u64, u64) = if parts.len() == 3 {
        match (parse_u64(parts[0].as_slice()), parse_u64(parts[1].as_slice()), parse_u64(parts[2].as_slice())) {
            (Some(h), Some(m), Some(x)) => (h, m, x),
            _ => {
                return None;
            },
        }
    } else if parts.len() == 2 {
        match (parse_u64(parts[0].as_slice()), parse_u64(parts[1].as_slice())) {
            (Some(m), Some(x)) => (0, m, x),
            _ => {
                return None;
            },
        }
    } else {
        return None;
    };
    let total: u128 = (h as u128 * 3_600_000 + m as u128 * 60_000 + x as u128 * 1000 + ms as u128)
        % 0x1_0000_0000_0000_0000u128;
    Some(total as u64)
}


/// The key of chapter `index`'s start time: `CHAPTER` and three digits.
pub open spec fn chapter_key_spec(index: nat) -> Seq<char> {
    "CHAPTER"@ + pad_left(decimal(index), '0', 3)
}

pub fn chapter_key(index: usize) -> (r: String)
    ensures
        r@ == chapter_key_spec(index as nat),
{
    let mut v = chars_of("CHAPTER");
    let d = pad_left_exec(format_u64(index as u64).as_slice(), '0', 3);
    push_all(&mut v, d.as_slice());
    string_from(v.as_slice())
}

/// The key of chapter `index`'s title.
pub fn chapter_name_key(index: usize) -> (r: String)
    ensures
        r@ == chapter_key_spec(index as nat) + "NAME"@,
{
    let mut v = chars_of(chapter_key(index).as_str());
    push_all(&mut v, chars_of("NAME").as_slice());
    string_from(v.as_slice())
}

pub open spec fn ascii_upper(c: char) -> char {
    if 'a' <= c && c <= 'z' { ((c as u32) - 32) as char } else { c }
}

/// `str::to_ascii_uppercase`.
pub open spec fn ascii_upper_str(s: Seq<char>) -> Seq<char> {
    Seq::new(s.len(), |i: int| ascii_upper(s[i]))
}

/// The index a chapter key names, and whether it is the title key.
pub open spec fn parse_chapter_key_spec(raw: Seq<char>) -> Option<(nat, bool)> {
    let upper = ascii_upper_str(raw);
    if !crate::text::occurs_at(upper, "CHAPTER"@, 0) {
        None
    } else {
        let rest = upper.subrange(7, upper.len() as int);
        let is_name = rest.len() >= 4 && rest.subrange(rest.len() - 4, rest.len() as int) == "NAME"@;
        let digits = if is_name { rest.subrange(0, rest.len() - 4) } else { rest };
        if digits.len() == 0 || !all_digits(digits) || digits_value(digits) > u64::MAX {
            None
        } else {
            Some((digits_value(digits), is_name))
        }
    }
}

fn ascii_upper_exec(c: char) -> (r: char)
    ensures
        r == ascii_upper(c),
{
    if 'a' <= c && c <= 'z' {
        let b = (c as u8) - 32;
        b as char
    } else {
        c
    }
}

pub fn parse_chapter_key(raw_key: &str) -> (r: Option<(u64, bool)>)
    ensures
        match r {
            Some((i, n)) => parse_chapter_key_spec(raw_key@) == Some((i as nat, n)),
            None => parse_chapter_key_spec(raw_key@) is None,
        },
{
    let c = chars_of(raw_key);
    let mut upper: Vec<char> = Vec::new();
    let mut k: usize = 0;
    while k < c.len()
        invariant
            0 <= k <= c@.len(),
            upper@ == ascii_upper_str(c@).subrange(0, k as int),
        decreases c@.len() - k,
    {
        upper.push(ascii_upper_exec(c[k]));
        assert(upper@ =~= ascii_upper_str(c@).subrange(0, k + 1));
        k = k + 1;
    }
    assert(upper@ =~= ascii_upper_str(c@));
    let prefix = chars_of("CHAPTER");
    proof {
        reveal_strlit("CHAPTER");
        reveal_strlit("NAME");
    }
    if !crate::text::occurs_at_exec(upper.as_slice(), prefix.as_slice(), 0) {
        return None;
    }
    let n = upper.len();
    let rest = crate::text::slice_range(upper.as_slice(), 7, n);
    let suffix = chars_of("NAME");
    let rl = rest.len();
    let is_name = rl >= 4 && crate::text::chars_eq(crate::text::slice_range(rest.as_slice(), rl - 4, rl).as_slice(), suffix.as_slice());
    let digits = if is_name { crate::text::slice_range(rest.as_slice(), 0, rl - 4) } else { rest };
    if digits.len() == 0 || !crate::text::all_digits_exec(digits.as_slice(), 0, digits.len()) {
        assert(digits@.subrange(0, digits@.len() as int) =~= digits@);
        return None;
    }
    assert(digits@.subrange(0, digits@.len() as int) =~= digits@);
    match digits_to_u64(digits.as_slice(), 0, digits.len()) {
        Some(v) => Some((v, is_name)),
        None => None,
    }
}

/// `(key, value)` placed into a list kept in key order, replacing an entry
/// with the same key: what inserting into an ordered map does.
pub open spec fn kv_insert<V>(v: Seq<(nat, V)>, k: nat, val: V) -> Seq<(nat, V)>
    decreases v.len(),
{
    if v.len() == 0 {
        seq![(k, val)]
    } else if v.last().0 == k {
        v.drop_last().push((k, val))
    } else if v.last().0 < k {
        v.push((k, val))
    } else {
        kv_insert(v.drop_last(), k, val).push(v.last())
    }
}

/// The value stored under `k`, looking from the back.
pub open spec fn kv_get<V>(v: Seq<(nat, V)>, k: nat) -> Option<V>
    decreases v.len(),
{
    if v.len() == 0 {
        None
    } else if v.last().0 == k {
        Some(v.last().1)
    } else {
        kv_get(v.drop_last(), k)
    }
}

proof fn lemma_kv_insert_at<V>(v: Seq<(nat, V)>, k: nat, val: V, p: int)
    requires
        0 <= p <= v.len(),
        forall|j: int| p <= j < v.len() ==> #[trigger] v[j].0 > k,
        p == 0 || v[p - 1].0 <= k,
    ensures
        kv_insert(v, k, val) == if p > 0 && v[p - 1].0 == k { v.update(p - 1, (k, val)) } else { v.insert(p, (k, val)) },
    decreases v.len(),
{
    if v.len() == 0 {
        assert(v.insert(p, (k, val)) =~= seq![(k, val)]);
    } else if v.last().0 == k {
        assert(p == v.len());
        assert(v.update(p - 1, (k, val)) =~= v.drop_last().push((k, val)));
    } else if v.last().0 < k {
        assert(p == v.len());
        assert(v.insert(p, (k, val)) =~= v.push((k, val)));
    } else {
        lemma_kv_insert_at(v.drop_last(), k, val, p);
        if p > 0 && v[p - 1].0 == k {
            assert(v.drop_last().update(p - 1, (k, val)).push(v.last()) =~= v.update(p - 1, (k, val)));
        } else {
            assert(v.drop_last().insert(p, (k, val)).push(v.last()) =~= v.insert(p, (k, val)));
        }
    }
}

/// One tag item as the library reads it: its key, its text, and what the
/// text reads as when it is a plain number of seconds (read by the caller,
/// in milliseconds).
#[derive(Debug, Clone)]
pub struct VorbisItem {
    pub key: String,
    pub text: Option<String>,
    pub seconds_ms: Option<u64>,
}

/// A start time: a plain number of seconds, else `[h:]m:s[.millis]`.
pub open spec fn timestamp_of(item: VorbisItem) -> Option<nat> {
    match item.seconds_ms {
        Some(v) => Some(v as nat),
        None => match item.text {
            Some(t) => parse_hms_spec(t@),
            None => None,
        },
    }
}

pub ghost struct VorbisScan {
    pub starts: Seq<(nat, nat)>,
    pub names: Seq<(nat, Seq<char>)>,
}

pub open spec fn scan_item(st: VorbisScan, item: VorbisItem) -> VorbisScan {
    match (parse_chapter_key_spec(item.key@), item.text) {
        (Some((index, true)), Some(t)) => VorbisScan { names: kv_insert(st.names, index, t@), ..st },
        (Some((index, false)), Some(_t)) => match timestamp_of(item) {
            Some(ms) => VorbisScan { starts: kv_insert(st.starts, index, ms), ..st },
            None => st,
        },
        _ => st,
    }
}

pub open spec fn scan_items(items: Seq<VorbisItem>) -> VorbisScan
    decreases items.len(),
{
    if items.len() == 0 {
        VorbisScan { starts: Seq::empty(), names: Seq::empty() }
    } else {
        scan_item(scan_items(items.drop_last()), items.last())
    }
}

/// The chapters the tag items describe: one per start time, in index
/// order, titled by the title of the same index; then ordered by start,
/// each ending where the next starts.
pub open spec fn vorbis_chapters_spec(items: Seq<VorbisItem>) -> Seq<ChapterView> {
    let scan = scan_items(items);
    let cs = Seq::new(
        scan.starts.len(),
        |i: int|
            ChapterView {
                id: chapter_id_spec(scan.starts[i].0),
                title: match kv_get(scan.names, scan.starts[i].0) {
                    Some(t) => t,
                    None => Seq::empty(),
                },
                start_ms: scan.starts[i].1,
                end_ms: 0,
            },
    );
    fill_end_times_spec(sort_by_start_spec(cs))
}


pub open spec fn starts_view(v: Seq<(u64, u64)>) -> Seq<(nat, nat)> {
    Seq::new(v.len(), |i: int| (v[i].0 as nat, v[i].1 as nat))
}

pub open spec fn names_view(v: Seq<(u64, String)>) -> Seq<(nat, Seq<char>)> {
    Seq::new(v.len(), |i: int| (v[i].0 as nat, v[i].1@))
}

fn insert_start(v: &mut Vec<(u64, u64)>, k: u64, val: u64)
    ensures
        starts_view(final(v)@) == kv_insert(starts_view(old(v)@), k as nat, val as nat),
{
    let ghost sv = starts_view(v@);
    let mut p = v.len();
    while p > 0 && v[p - 1].0 > k
        invariant
            p <= v@.len(),
            sv == starts_view(v@),
            forall|j: int| p <= j < v@.len() ==> #[trigger] sv[j].0 > k,
        decreases p,
    {
        p = p - 1;
    }
    proof {
        lemma_kv_insert_at(sv, k as nat, val as nat, p as int);
    }
    if p > 0 && v[p - 1].0 == k {
        v.set(p - 1, (k, val));
        assert(starts_view(v@) =~= sv.update(p - 1, (k as nat, val as nat)));
    } else {
        v.insert(p, (k, val));
        assert(starts_view(v@) =~= sv.insert(p as int, (k as nat, val as nat)));
    }
}

fn insert_name(v: &mut Vec<(u64, String)>, k: u64, val: String)
    ensures
        names_view(final(v)@) == kv_insert(names_view(old(v)@), k as nat, val@),
{
    let ghost sv = names_view(v@);
    let ghost vv = val@;
    let mut p = v.len();
    while p > 0 && v[p - 1].0 > k
        invariant
            p <= v@.len(),
            sv == names_view(v@),
            forall|j: int| p <= j < v@.len() ==> #[trigger] sv[j].0 > k,
        decreases p,
    {
        p = p - 1;
    }
    proof {
        lemma_kv_insert_at(sv, k as nat, vv, p as int);
    }
    if p > 0 && v[p - 1].0 == k {
        v.set(p - 1, (k, val));
        assert(names_view(v@) =~= sv.update(p - 1, (k as nat, vv)));
    } else {
        v.insert(p, (k, val));
        assert(names_view(v@) =~= sv.insert(p as int, (k as nat, vv)));
    }
}

fn get_name(v: &Vec<(u64, String)>, k: u64) -> (r: Option<String>)
    ensures
        match r {
            Some(t) => kv_get(names_view(v@), k as nat) == Some(t@),
            None => kv_get(names_view(v@), k as nat) is None,
        },
{
    let ghost nv = names_view(v@);
    let mut p = v.len();
    assert(nv.subrange(0, p as int) =~= nv);
    while p > 0
        invariant
            p <= v@.len(),
            nv == names_view(v@),
            kv_get(nv, k as nat) == kv_get(nv.subrange(0, p as int), k as nat),
        decreases p,
    {
        assert(nv.subrange(0, p as int).drop_last() =~= nv.subrange(0, p - 1));
        if v[p - 1].0 == k {
            return Some(v[p - 1].1.clone());
        }
        p = p - 1;
    }
    None
}

/// The chapters that the tag items of a Vorbis comment block describe.
pub fn vorbis_chapters(items: &[VorbisItem]) -> (r: Vec<Chapter>)
    ensures
        chapters_view(r@) == vorbis_chapters_spec(items@),
{
    let mut starts: Vec<(u64, u64)> = Vec::new();
    let mut names: Vec<(u64, String)> = Vec::new();
    let mut k: usize = 0;
    assert(starts_view(starts@) =~= Seq::<(nat, nat)>::empty());
    assert(names_view(names@) =~= Seq::<(nat, Seq<char>)>::empty());
    while k < items.len()
        invariant
            0 <= k <= items@.len(),
            (VorbisScan { starts: starts_view(starts@), names: names_view(names@) }) == scan_items(
                items@.subrange(0, k as int),
            ),
        decreases items@.len() - k,
    {
        let item = &items[k];
        assert(items@.subrange(0, k + 1).drop_last() =~= items@.subrange(0, k as int));
        match parse_chapter_key(item.key.as_str()) {
            Some((index, is_name)) => match &item.text {
                Some(t) => {
                    if is_name {
                        insert_name(&mut names, index, t.clone());
                    } else {
                        let ts = match item.seconds_ms {
                            Some(v) => Some(v),
                            None => parse_hms(t.as_str()),
                        };
                        match ts {
                            Some(ms) => insert_start(&mut starts, index, ms),
                            None => {},
                        }
                    }
                },
                None => {},
            },
            None => {},
        }
        k = k + 1;
    }
    assert(items@.subrange(0, k as int) =~= items@);
    let ghost scan = scan_items(items@);
    let mut chapters: Vec<Chapter> = Vec::new();
    let mut i: usize = 0;
    while i < starts.len()
        invariant
            0 <= i <= starts@.len(),
            scan.starts == starts_view(starts@),
            scan.names == names_view(names@),
            chapters_view(chapters@) == Seq::new(
                i as nat,
                |j: int|
                    ChapterView {
                        id: chapter_id_spec(scan.starts[j].0),
                        title: match kv_get(scan.names, scan.starts[j].0) {
                            Some(t) => t,
                            None => Seq::empty(),
                        },
                        start_ms: scan.starts[j].1,
                        end_ms: 0,
                    },
            ),
        decreases starts@.len() - i,
    {
        let (index, start) = starts[i];
        let title = match get_name(&names, index) {
            Some(t) => t,
            None => String::new(),
        };
        let ghost before = chapters@;
        let c = Chapter { id: chapter_id(index), title, start_ms: start, end_ms: 0 };
        chapters.push(c);
        assert(chapters@ == before.push(c));
        assert(scan.starts[i as int] == (index as nat, start as nat));
        assert(chapters_view(chapters@) =~= chapters_view(before).push(chapter_view(c)));
        assert(chapters_view(chapters@) =~= Seq::new(
            (i + 1) as nat,
            |j: int|
                ChapterView {
                    id: chapter_id_spec(scan.starts[j].0),
                    title: match kv_get(scan.names, scan.starts[j].0) {
                        Some(t) => t,
                        None => Seq::empty(),
                    },
                    start_ms: scan.starts[j].1,
                    end_ms: 0,
                },
        ));
        i = i + 1;
    }
    let mut sorted = sort_by_start(chapters);
    fill_end_times(&mut sorted);
    sorted
}


/// Whether a tag key is one of the chapter keys that a write replaces.
pub open spec fn is_chapter_key(key: Seq<char>) -> bool {
    crate::text::occurs_at(ascii_upper_str(key), "CHAPTER"@, 0)
}

pub open spec fn stale_keys_spec(keys: Seq<Seq<char>>) -> Seq<Seq<char>>
    decreases keys.len(),
{
    if keys.len() == 0 {
        Seq::empty()
    } else {
        stale_keys_spec(keys.drop_last()) + if is_chapter_key(keys.last()) { seq![keys.last()] } else { Seq::empty() }
    }
}

/// The tag items that store `cs` (already ordered): for the chapter at
/// position `n` (from 1), its start time and its title.
pub open spec fn vorbis_items_spec(cs: Seq<ChapterView>) -> Seq<(Seq<char>, Seq<char>)>
    decreases cs.len(),
{
    if cs.len() == 0 {
        Seq::empty()
    } else {
        let n = cs.len();
        vorbis_items_spec(cs.drop_last()) + seq![
            (chapter_key_spec(n), format_timestamp_spec(cs.last().start_ms)),
            (chapter_key_spec(n) + "NAME"@, cs.last().title),
        ]
    }
}

/// The changes that store a chapter list in a Vorbis comment block: the
/// existing keys to remove, and the items to add.
#[derive(Debug, Clone)]
pub struct VorbisUpdate {
    pub remove: Vec<String>,
    pub add: Vec<(String, String)>,
}

pub open spec fn pairs_view(v: Seq<(String, String)>) -> Seq<(Seq<char>, Seq<char>)> {
    Seq::new(v.len(), |i: int| (v[i].0@, v[i].1@))
}

/// `u` removes the chapter keys among `keys` and adds the items of
/// `chapters` ordered by start time.
pub open spec fn vorbis_update_spec(u: VorbisUpdate, keys: Seq<String>, chapters: Seq<ChapterView>) -> bool {
    &&& crate::book::archive::strings_view(u.remove@) == stale_keys_spec(crate::book::archive::strings_view(keys))
    &&& pairs_view(u.add@) == vorbis_items_spec(sort_by_start_spec(chapters))
}

/// The changes to a Vorbis comment block with the keys `keys` that make it
/// store `chapters`, ordered by start time.
pub fn vorbis_update(keys: &[String], chapters: &[Chapter]) -> (r: VorbisUpdate)
    ensures
        vorbis_update_spec(r, keys@, chapters_view(chapters@)),
{
    let ghost kv = crate::book::archive::strings_view(keys@);
    let mut remove: Vec<String> = Vec::new();
    let mut k: usize = 0;
    while k < keys.len()
        invariant
            0 <= k <= keys@.len(),
            kv == crate::book::archive::strings_view(keys@),
            crate::book::archive::strings_view(remove@) == stale_keys_spec(kv.subrange(0, k as int)),
        decreases keys@.len() - k,
    {
        assert(kv.subrange(0, k + 1).drop_last() =~= kv.subrange(0, k as int));
        let ghost before = remove@;
        let kc = chars_of(keys[k].as_str());
        let mut upper: Vec<char> = Vec::new();
        let mut j: usize = 0;
        while j < kc.len()
            invariant
                0 <= j <= kc@.len(),
                upper@ == ascii_upper_str(kc@).subrange(0, j as int),
            decreases kc@.len() - j,
        {
            upper.push(ascii_upper_exec(kc[j]));
            assert(upper@ =~= ascii_upper_str(kc@).subrange(0, j + 1));
            j = j + 1;
        }
        assert(upper@ =~= ascii_upper_str(kc@));
        if crate::text::occurs_at_exec(upper.as_slice(), chars_of("CHAPTER").as_slice(), 0) {
            let key = keys[k].clone();
            remove.push(key);
            assert(crate::book::archive::strings_view(remove@) =~= crate::book::archive::strings_view(before).push(kv[k as int]));
        } else {
            assert(crate::book::archive::strings_view(remove@) =~= crate::book::archive::strings_view(before) + Seq::<Seq<char>>::empty());
        }
        k = k + 1;
    }
    assert(kv.subrange(0, k as int) =~= kv);
    let sorted = sort_by_start(crate::chapters::clone_chapters(chapters));
    let ghost sv = chapters_view(sorted@);
    let mut add: Vec<(String, String)> = Vec::new();
    let mut i: usize = 0;
    assert(pairs_view(add@) =~= vorbis_items_spec(sv.subrange(0, 0)));
    while i < sorted.len()
        invariant
            0 <= i <= sorted@.len(),
            sv == chapters_view(sorted@),
            pairs_view(add@) == vorbis_items_spec(sv.subrange(0, i as int)),
        decreases sorted@.len() - i,
    {
        let ghost before = add@;
        let c = &sorted[i];
        let key = chapter_key(i + 1);
        let ts = format_timestamp(c.start_ms);
        let name_key = chapter_name_key(i + 1);
        let title = c.title.clone();
        add.push((key, ts));
        add.push((name_key, title));
        assert(sv.subrange(0, i + 1).drop_last() =~= sv.subrange(0, i as int));
        assert(sv.subrange(0, i + 1).last() == chapter_view(*c));
        assert(pairs_view(add@) =~= vorbis_items_spec(sv.subrange(0, i + 1)));
        i = i + 1;
    }
    assert(sv.subrange(0, i as int) =~= sv);
    VorbisUpdate { remove, add }
}

proof fn lemma_zeros_value(k: nat)
    ensures
        all_digits(repeat_char('0', k)),
        digits_value(repeat_char('0', k)) == 0,
    decreases k,
{
    if k > 0 {
        lemma_zeros_value((k - 1) as nat);
        assert(repeat_char('0', k).drop_last() =~= repeat_char('0', (k - 1) as nat));
    } else {
        assert(repeat_char('0', 0) =~= Seq::<char>::empty());
    }
}

proof fn lemma_leading_zeros(z: Seq<char>, s: Seq<char>)
    requires
        all_digits(z),
        digits_value(z) == 0,
        all_digits(s),
    ensures
        all_digits(z + s),
        digits_value(z + s) == digits_value(s),
    decreases s.len(),
{
    if s.len() > 0 {
        lemma_leading_zeros(z, s.drop_last());
        assert((z + s).drop_last() =~= z + s.drop_last());
        assert((z + s).last() == s.last());
    } else {
        assert(z + s =~= z);
    }
    assert forall|i: int| 0 <= i < (z + s).len() implies crate::text::is_digit(#[trigger] (z + s)[i]) by {
        if i < z.len() {
            assert((z + s)[i] == z[i]);
        } else {
            assert((z + s)[i] == s[i - z.len()]);
        }
    }
}

proof fn lemma_padded_decimal(n: nat, w: nat)
    ensures
        all_digits(pad_left(decimal(n), '0', w)),
        digits_value(pad_left(decimal(n), '0', w)) == n,
        pad_left(decimal(n), '0', w).len() > 0,
{
    crate::text::lemma_decimal_reads_back(n);
    let d = decimal(n);
    if d.len() < w {
        let k = (w - d.len()) as nat;
        lemma_zeros_value(k);
        lemma_leading_zeros(repeat_char('0', k), d);
    }
}

proof fn lemma_upper_fixed(s: Seq<char>)
    requires
        forall|i: int| 0 <= i < s.len() ==> !('a' <= #[trigger] s[i] && s[i] <= 'z'),
    ensures
        ascii_upper_str(s) == s,
{
    assert(ascii_upper_str(s) =~= s);
}

/// The keys written for chapter `index` read back as that index: the start
/// key as a start, the title key as a title.
pub proof fn law_chapter_keys_read_back(index: nat)
    requires
        index <= u64::MAX,
    ensures
        parse_chapter_key_spec(chapter_key_spec(index)) == Some((index, false)),
        parse_chapter_key_spec(chapter_key_spec(index) + "NAME"@) == Some((index, true)),
{
    reveal_strlit("CHAPTER");
    reveal_strlit("NAME");
    let digits = pad_left(decimal(index), '0', 3);
    lemma_padded_decimal(index, 3);
    let key = chapter_key_spec(index);
    let name_key = key + "NAME"@;
    assert forall|i: int| 0 <= i < key.len() implies !('a' <= #[trigger] key[i] && key[i] <= 'z') by {
        if i >= 7 {
            assert(key[i] == digits[i - 7]);
            assert(crate::text::is_digit(digits[i - 7]));
        }
    }
    lemma_upper_fixed(key);
    assert forall|i: int| 0 <= i < name_key.len() implies !('a' <= #[trigger] name_key[i] && name_key[i] <= 'z') by {
        if i < key.len() {
            assert(name_key[i] == key[i]);
        }
    }
    lemma_upper_fixed(name_key);
    assert(key.subrange(0, 7) =~= "CHAPTER"@);
    assert(name_key.subrange(0, 7) =~= "CHAPTER"@);
    let rest = key.subrange(7, key.len() as int);
    assert(rest =~= digits);
    if rest.len() >= 4 {
        let tail = rest.subrange(rest.len() - 4, rest.len() as int);
        assert(crate::text::is_digit(rest[rest.len() - 4]));
        assert(tail[0] == rest[rest.len() - 4]);
        assert(tail != "NAME"@);
    }
    let rest2 = name_key.subrange(7, name_key.len() as int);
    assert(rest2 =~= digits + "NAME"@);
    assert(rest2.subrange(rest2.len() - 4, rest2.len() as int) =~= "NAME"@);
    assert(rest2.subrange(0, rest2.len() - 4) =~= digits);
}

proof fn lemma_split_concat(x: Seq<char>, y: Seq<char>, sep: char)
    ensures
        crate::renamer::template::split_on(x + seq![sep] + y, sep) == crate::renamer::template::split_on(x, sep)
            + crate::renamer::template::split_on(y, sep),
    decreases y.len(),
{
    let s = x + seq![sep] + y;
    if y.len() == 0 {
        assert(s.drop_last() =~= x);
        assert(s.last() == sep);
        assert(crate::renamer::template::split_on(x, sep).push(Seq::empty()) =~= crate::renamer::template::split_on(x, sep)
            + seq![Seq::<char>::empty()]);
    } else {
        lemma_split_concat(x, y.drop_last(), sep);
        assert(s.drop_last() =~= x + seq![sep] + y.drop_last());
        assert(s.last() == y.last());
        let a = crate::renamer::template::split_on(x, sep);
        let b = crate::renamer::template::split_on(y.drop_last(), sep);
        lemma_split_nonempty(y.drop_last(), sep);
        if y.last() == sep {
            assert((a + b).push(Seq::empty()) =~= a + b.push(Seq::empty()));
        } else {
            assert((a + b).update((a + b).len() - 1, (a + b).last().push(y.last())) =~= a + b.update(
                b.len() - 1,
                b.last().push(y.last()),
            ));
        }
    }
}

proof fn lemma_split_nonempty(s: Seq<char>, sep: char)
    ensures
        crate::renamer::template::split_on(s, sep).len() > 0,
    decreases s.len(),
{
    if s.len() > 0 {
        lemma_split_nonempty(s.drop_last(), sep);
    }
}

proof fn lemma_split_plain(s: Seq<char>, sep: char)
    requires
        forall|i: int| 0 <= i < s.len() ==> #[trigger] s[i] != sep,
    ensures
        crate::renamer::template::split_on(s, sep) == seq![s],
    decreases s.len(),
{
    if s.len() > 0 {
        lemma_split_plain(s.drop_last(), sep);
        assert(s.drop_last().push(s.last()) =~= s);
    } else {
        assert(s =~= Seq::<char>::empty());
    }
}

proof fn lemma_index_of_first(s: Seq<char>, c: char, k: int, at: int)
    requires
        0 <= k <= at < s.len(),
        s[at] == c,
        forall|i: int| k <= i < at ==> #[trigger] s[i] != c,
    ensures
        index_of(s, c, k) == Some(at),
    decreases at - k,
{
    if k < at {
        lemma_index_of_first(s, c, k + 1, at);
    }
}

proof fn lemma_trim_digit_ends(s: Seq<char>)
    requires
        s.len() > 0,
        crate::text::is_digit(s[0]),
        crate::text::is_digit(s.last()),
    ensures
        trim(s) == s,
{
    assert(!crate::text::is_ws(s[0]));
    assert(crate::text::trim_start(s) == s);
    assert(!crate::text::is_ws(s.last()));
}

/// A timestamp as written reads back as the same number of milliseconds.
pub proof fn law_timestamps_read_back(ms: nat)
    requires
        ms <= u64::MAX,
    ensures
        parse_hms_spec(format_timestamp_spec(ms)) == Some(ms),
{
    reveal_strlit(":");
    reveal_strlit(".");
    let h = ms / 3_600_000;
    let m = (ms % 3_600_000) / 60_000;
    let x = (ms % 60_000) / 1000;
    let f = ms % 1000;
    let ph = pad_left(decimal(h), '0', 2);
    let pm = pad_left(decimal(m), '0', 2);
    let px = pad_left(decimal(x), '0', 2);
    let pf = pad_left(decimal(f), '0', 3);
    lemma_padded_decimal(h, 2);
    lemma_padded_decimal(m, 2);
    lemma_padded_decimal(x, 2);
    lemma_padded_decimal(f, 3);
    let hms = ph + seq![':'] + pm + seq![':'] + px;
    let text = format_timestamp_spec(ms);
    assert(text =~= hms + seq!['.'] + pf);
    assert(crate::text::is_digit(text[0])) by {
        assert(text[0] == ph[0]);
    }
    assert(crate::text::is_digit(text.last())) by {
        assert(text.last() == pf.last());
        assert(pf.last() == pf[pf.len() - 1]);
    }
    lemma_trim_digit_ends(text);
    assert forall|i: int| 0 <= i < hms.len() implies #[trigger] hms[i] != '.' by {
        if i < ph.len() {
            assert(hms[i] == ph[i]);
            assert(crate::text::is_digit(ph[i]));
        } else if i == ph.len() {
        } else if i < ph.len() + 1 + pm.len() {
            assert(hms[i] == pm[i - ph.len() - 1]);
            assert(crate::text::is_digit(pm[i - ph.len() - 1]));
        } else if i == ph.len() + 1 + pm.len() {
        } else {
            assert(hms[i] == px[i - ph.len() - 2 - pm.len()]);
            assert(crate::text::is_digit(px[i - ph.len() - 2 - pm.len()]));
        }
    }
    assert(text[hms.len() as int] == '.');
    assert forall|i: int| 0 <= i < hms.len() implies #[trigger] text[i] != '.' by {
        assert(text[i] == hms[i]);
    }
    lemma_index_of_first(text, '.', 0, hms.len() as int);
    assert(text.subrange(0, hms.len() as int) =~= hms);
    assert(text.subrange(hms.len() as int + 1, text.len() as int) =~= pf);
    assert(pf[0] != '+');
    assert forall|i: int| 0 <= i < ph.len() implies #[trigger] ph[i] != ':' by {
        assert(crate::text::is_digit(ph[i]));
    }
    assert forall|i: int| 0 <= i < pm.len() implies #[trigger] pm[i] != ':' by {
        assert(crate::text::is_digit(pm[i]));
    }
    assert forall|i: int| 0 <= i < px.len() implies #[trigger] px[i] != ':' by {
        assert(crate::text::is_digit(px[i]));
    }
    lemma_split_plain(ph, ':');
    lemma_split_plain(pm, ':');
    lemma_split_plain(px, ':');
    lemma_split_concat(pm, px, ':');
    assert(hms =~= ph + seq![':'] + (pm + seq![':'] + px));
    lemma_split_concat(ph, pm + seq![':'] + px, ':');
    let parts = colon_parts(hms);
    assert(parts =~= seq![ph, pm, px]);
    assert(ph[0] != '+' && pm[0] != '+' && px[0] != '+');
    assert(h * 3_600_000 + m * 60_000 + x * 1000 + f == ms) by (nonlinear_arith)
        requires
            h == ms / 3_600_000,
            m == (ms % 3_600_000) / 60_000,
            x == (ms % 60_000) / 1000,
            f == ms % 1000,
    {
        vstd::arithmetic::div_mod::lemma_fundamental_div_mod(ms as int, 3_600_000);
        vstd::arithmetic::div_mod::lemma_fundamental_div_mod((ms % 3_600_000) as int, 60_000);
        vstd::arithmetic::div_mod::lemma_mod_mod(ms as int, 60_000, 60);
        vstd::arithmetic::div_mod::lemma_fundamental_div_mod((ms % 60_000) as int, 1000);
        vstd::arithmetic::div_mod::lemma_mod_mod(ms as int, 1000, 60);
    }
    vstd::arithmetic::div_mod::lemma_small_mod(ms, two64() as nat);
}

} // verus!
