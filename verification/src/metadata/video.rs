//! Video metadata that a file name gives: season and episode markers, a
//! release year, and a title cleaned of release noise.
use vstd::prelude::*;
use vstd::utf8::{encode_utf8, is_char_boundary};

use crate::bytes::{copy_range, from_utf8_lossy, utf8_lossy};
use crate::metadata::book::{find_year, find_year_spec};
use crate::models::video::{VideoKind, VideoMetadata, VideoMetadataSource, is_blank_video};
use crate::paths::{file_stem, path_file_stem};
use crate::text::{
    all_digits, chars_of, digits_to_u64, digits_value, format_u64, is_digit, is_digit_char,
    is_ws_char, join, join_parts, lowercase, occurs_at, occurs_at_exec, parse_u32, parse_unsigned,
    push_all, split_words, string_from, to_lowercase, trim, trimmed, vecs_view, words,
};

verus! {

/// The end of the run of ASCII digits that starts at `from`.
pub open spec fn digit_run_end(c: Seq<char>, from: int) -> int
    decreases c.len() - from,
{
    if 0 <= from < c.len() && is_digit(c[from]) { digit_run_end(c, from + 1) } else { from }
}

/// The number written at `from`, as `u32` parsing reads it, and where it ends.
pub open spec fn take_number_spec(c: Seq<char>, from: int) -> (Option<nat>, int) {
    let end = digit_run_end(c, from);
    if end == from {
        (None, from)
    } else {
        let v = digits_value(c.subrange(from, end));
        (if v <= u32::MAX { Some(v) } else { None }, end)
    }
}

proof fn lemma_digit_run(c: Seq<char>, from: int)
    requires
        0 <= from <= c.len(),
    ensures
        from <= digit_run_end(c, from) <= c.len(),
        all_digits(c.subrange(from, digit_run_end(c, from))),
        digit_run_end(c, from) < c.len() ==> !is_digit(c[digit_run_end(c, from)]),
    decreases c.len() - from,
{
    if from < c.len() && is_digit(c[from]) {
        lemma_digit_run(c, from + 1);
        let e = digit_run_end(c, from);
        assert forall|k: int| 0 <= k < e - from implies is_digit(#[trigger] c.subrange(from, e)[k]) by {
            if k > 0 {
                assert(c.subrange(from, e)[k] == c.subrange(from + 1, e)[k - 1]);
            }
        }
    }
}

/// The number written at `from` and where its digits end.
pub fn take_number(chars: &[char], from: usize) -> (r: (Option<u32>, usize))
    requires
        from <= chars@.len(),
    ensures
        (match r.0 {
            Some(v) => Some(v as nat),
            None => None,
        }, r.1 as int) == take_number_spec(chars@, from as int),
{
    let mut end = from;
    while end < chars.len() && is_digit_char(chars[end])
        invariant
            from <= end <= chars@.len(),
            digit_run_end(chars@, from as int) == digit_run_end(chars@, end as int),
        decreases chars@.len() - end,
    {
        end = end + 1;
    }
    if end == from {
        return (None, from);
    }
    proof {
        lemma_digit_run(chars@, from as int);
    }
    match digits_to_u64(chars, from, end) {
        Some(v) => if v <= 4294967295 { (Some(v as u32), end) } else { (None, end) },
        None => (None, end),
    }
}

/// An `SxxEyy` marker at or after `i`: the first `s` followed by a number,
/// an `e` and another number.
pub open spec fn sxe_from(c: Seq<char>, i: int) -> Option<(nat, nat)>
    decreases c.len() - i,
{
    if i < 0 || i >= c.len() {
        None
    } else {
        let (season, next) = take_number_spec(c, i + 1);
        let found = if c[i] == 's' && season is Some && next < c.len() && c[next] == 'e' {
            match take_number_spec(c, next + 1).0 {
                Some(e) => Some((season->0, e)),
                None => None,
            }
        } else {
            None
        };
        if found is Some { found } else { sxe_from(c, i + 1) }
    }
}

/// Where the run of digits that ends just before `k` starts.
pub open spec fn digit_run_start(c: Seq<char>, k: int) -> int
    decreases k,
{
    if k > 0 && k <= c.len() && is_digit(c[k - 1]) { digit_run_start(c, k - 1) } else { k }
}

/// An `NxMM` marker at or after `i`: the digits just before an `x` (not at
/// the start) are the season, the digits after it the episode. Never
/// `Err`; the result type keeps room for a reading that fails.
pub open spec fn nxm_from(c: Seq<char>, i: int) -> Result<Option<(nat, nat)>, ()>
    decreases c.len() - i,
{
    if i < 0 || i >= c.len() {
        Ok(None)
    } else if c[i] != 'x' || i == 0 {
        nxm_from(c, i + 1)
    } else {
        let start = digit_run_start(c, i);
        if start == i {
            nxm_from(c, i + 1)
        } else {
            let season = match parse_unsigned(c.subrange(start, i)) {
                Some(v) => if v <= u32::MAX { Some(v) } else { None },
                None => None,
            };
            match (season, take_number_spec(c, i + 1).0) {
                (Some(s), Some(e)) => Ok(Some((s, e))),
                _ => nxm_from(c, i + 1),
            }
        }
    }
}

/// Season and episode from an `S01E02` or `1x02` marker in a lowercased
/// name (always `Ok`, see `lemma_season_episode_ok`).
pub open spec fn season_episode_spec(name: Seq<char>) -> Result<(Option<nat>, Option<nat>), ()> {
    let c = lowercase(name);
    match sxe_from(c, 0) {
        Some((s, e)) => Ok((Some(s), Some(e))),
        None => match nxm_from(c, 0) {
            Err(()) => Err(()),
            Ok(Some((s, e))) => Ok((Some(s), Some(e))),
            Ok(None) => Ok((None, None)),
        },
    }
}

pub open spec fn opt_nat(o: Option<u32>) -> Option<nat> {
    match o {
        Some(v) => Some(v as nat),
        None => None,
    }
}

fn sxe_exec(c: &[char]) -> (r: Option<(u32, u32)>)
    ensures
        match r {
            Some((s, e)) => sxe_from(c@, 0) == Some((s as nat, e as nat)),
            None => sxe_from(c@, 0) is None,
        },
{
    let mut i: usize = 0;
    while i < c.len()
        invariant
            0 <= i <= c@.len(),
            sxe_from(c@, 0) == sxe_from(c@, i as int),
        decreases c@.len() - i,
    {
        if c[i] == 's' {
            let (season, next) = take_number(c, i + 1);
            match season {
                Some(s) => {
                    if next < c.len() && c[next] == 'e' {
                        let (episode, _) = take_number(c, next + 1);
                        match episode {
                            Some(e) => {
                                return Some((s, e));
                            },
                            None => {},
                        }
                    }
                },
                None => {},
            }
        }
        i = i + 1;
    }
    None
}

fn digit_run_start_exec(c: &[char], k: usize) -> (r: usize)
    requires
        k <= c@.len(),
    ensures
        r as int == digit_run_start(c@, k as int),
        r <= k,
{
    let mut j = k;
    while j > 0 && is_digit_char(c[j - 1])
        invariant
            j <= k <= c@.len(),
            digit_run_start(c@, k as int) == digit_run_start(c@, j as int),
        decreases j,
    {
        j = j - 1;
    }
    j
}

pub proof fn lemma_boundary_in_range(b: Seq<u8>, i: int)
    requires
        vstd::utf8::valid_utf8(b),
        is_char_boundary(b, i),
    ensures
        0 <= i <= b.len(),
{
}

fn nxm_exec(c: &[char]) -> (r: Result<Option<(u32, u32)>, ()>)
    ensures
        match r {
            Ok(Some((s, e))) => nxm_from(c@, 0) == Ok::<Option<(nat, nat)>, ()>(Some((s as nat, e as nat))),
            Ok(None) => nxm_from(c@, 0) == Ok::<Option<(nat, nat)>, ()>(None),
            Err(()) => nxm_from(c@, 0) == Err::<Option<(nat, nat)>, ()>(()),
        },
{
    let mut i: usize = 0;
    while i < c.len()
        invariant
            0 <= i <= c@.len(),
            nxm_from(c@, 0) == nxm_from(c@, i as int),
        decreases c@.len() - i,
    {
        if c[i] == 'x' && i != 0 {
            let start = digit_run_start_exec(c, i);
            if start != i {
                let piece = crate::text::slice_range(c, start, i);
                let season = parse_u32(piece.as_slice());
                let (episode, _) = take_number(c, i + 1);
                match (season, episode) {
                    (Some(s), Some(e)) => {
                        return Ok(Some((s, e)));
                    },
                    _ => {},
                }
            }
        }
        i = i + 1;
    }
    Ok(None)
}


proof fn lemma_nxm_ok(c: Seq<char>, i: int)
    ensures
        nxm_from(c, i) is Ok,
    decreases c.len() - i,
{
    if !(i < 0 || i >= c.len()) {
        lemma_nxm_ok(c, i + 1);
    }
}

/// Reading a name's season and episode always succeeds.
pub proof fn lemma_season_episode_ok(name: Seq<char>)
    ensures
        season_episode_spec(name) is Ok,
{
    lemma_nxm_ok(lowercase(name), 0);
}

/// Find an `S01E02` / `1x02` style marker.
pub fn parse_season_episode(name: &str) -> (r: (Option<u32>, Option<u32>))
    ensures
        season_episode_spec(name@) == Ok::<(Option<nat>, Option<nat>), ()>((opt_nat(r.0), opt_nat(r.1))),
{
    proof {
        lemma_season_episode_ok(name@);
    }
    match season_episode(name) {
        Some(r) => r,
        None => (None, None),
    }
}

/// Season and episode from a name; never `None`, as reading a name always
/// succeeds.
pub fn season_episode(name: &str) -> (r: Option<(Option<u32>, Option<u32>)>)
    ensures
        match r {
            Some((s, e)) => season_episode_spec(name@) == Ok::<(Option<nat>, Option<nat>), ()>((opt_nat(s), opt_nat(e))),
            None => season_episode_spec(name@) is Err,
        },
{
    let lower = to_lowercase(name);
    let c = chars_of(lower.as_str());
    match sxe_exec(c.as_slice()) {
        Some((s, e)) => Some((Some(s), Some(e))),
        None => match nxm_exec(c.as_slice()) {
            Err(()) => None,
            Ok(Some((s, e))) => Some((Some(s), Some(e))),
            Ok(None) => Some((None, None)),
        },
    }
}

/// A four-digit year from 1900 to 2100, the last one in the name.
pub fn parse_year(name: &str) -> (r: Option<i32>)
    ensures
        match r {
            Some(y) => find_year_spec(name@) == Some(y as int),
            None => find_year_spec(name@) is None,
        },
{
    find_year(name)
}

/// The first index at or after `p` where `needle` occurs in `s`.
pub open spec fn find_from(s: Seq<char>, needle: Seq<char>, p: int) -> Option<int>
    decreases s.len() + 1 - p,
{
    if p < 0 || p > s.len() {
        None
    } else if occurs_at(s, needle, p) {
        Some(p)
    } else {
        find_from(s, needle, p + 1)
    }
}

fn find_exec(s: &[char], needle: &[char]) -> (r: Option<usize>)
    ensures
        match r {
            Some(p) => find_from(s@, needle@, 0) == Some(p as int) && p <= s@.len(),
            None => find_from(s@, needle@, 0) is None,
        },
{
    let mut p: usize = 0;
    while p < s.len()
        invariant
            p <= s@.len(),
            find_from(s@, needle@, 0) == find_from(s@, needle@, p as int),
        decreases s@.len() - p,
    {
        if occurs_at_exec(s, needle, p) {
            return Some(p);
        }
        p = p + 1;
    }
    if occurs_at_exec(s, needle, p) {
        return Some(p);
    }
    assert(find_from(s@, needle@, p + 1) is None);
    None
}

/// `s` without trailing `-` and `(` characters.
pub open spec fn trim_end_dash_paren(s: Seq<char>) -> Seq<char>
    decreases s.len(),
{
    if s.len() > 0 && (s.last() == '-' || s.last() == '(') { trim_end_dash_paren(s.drop_last()) } else { s }
}

/// The title part before a year marker found at `p`.
pub open spec fn title_before(cleaned: Seq<char>, p: int) -> Seq<char> {
    trim(trim_end_dash_paren(trim(cleaned.subrange(0, p))))
}

/// The title cut at the year marker: `(year)` first, then the bare year.
pub open spec fn cut_at_year(cleaned: Seq<char>, year: nat) -> Seq<char> {
    let m1 = "("@ + crate::text::decimal(year) + ")"@;
    let m2 = crate::text::decimal(year);
    let t1 = match find_from(cleaned, m1, 0) {
        Some(p) => title_before(cleaned, p),
        None => Seq::empty(),
    };
    let t2 = match find_from(cleaned, m2, 0) {
        Some(p) => title_before(cleaned, p),
        None => Seq::empty(),
    };
    if t1.len() > 0 { t1 } else if t2.len() > 0 { t2 } else { cleaned }
}

/// Separators turned into spaces, whitespace collapsed, and whatever
/// follows the release year dropped.
pub open spec fn clean_title_spec(stem: Seq<char>) -> Seq<char> {
    let cleaned = crate::metadata::book::cleaned_words(stem);
    match find_year_spec(cleaned) {
        Some(y) => cut_at_year(cleaned, y as nat),
        None => cleaned,
    }
}

fn title_before_exec(cleaned: &[char], p: usize) -> (r: Vec<char>)
    requires
        p <= cleaned@.len(),
    ensures
        r@ == title_before(cleaned@, p as int),
{
    let head = crate::text::slice_range(cleaned, 0, p);
    let t = trimmed(head.as_slice());
    let mut k = t.len();
    assert(t@.subrange(0, k as int) =~= t@);
    while k > 0 && (t[k - 1] == '-' || t[k - 1] == '(')
        invariant
            k <= t@.len(),
            trim_end_dash_paren(t@) == trim_end_dash_paren(t@.subrange(0, k as int)),
        decreases k,
    {
        assert(t@.subrange(0, k as int).drop_last() =~= t@.subrange(0, k - 1));
        k = k - 1;
    }
    assert(t@.subrange(0, t@.len() as int) =~= t@);
    let cut = crate::text::slice_range(t.as_slice(), 0, k);
    trimmed(cut.as_slice())
}

fn marker_title(cleaned: &[char], marker: &[char]) -> (r: Vec<char>)
    ensures
        r@ == (match find_from(cleaned@, marker@, 0) {
            Some(p) => title_before(cleaned@, p),
            None => Seq::empty(),
        }),
{
    match find_exec(cleaned, marker) {
        Some(p) => title_before_exec(cleaned, p),
        None => Vec::new(),
    }
}

/// Turn separators into spaces and drop the release-group noise after the year.
pub fn clean_title(stem: &str) -> (r: String)
    ensures
        r@ == clean_title_spec(stem@),
{
    let cleaned = crate::metadata::book::cleaned_words_exec(stem);
    match find_year(cleaned.as_str()) {
        Some(y) => {
            let c = chars_of(cleaned.as_str());
            let digits = format_u64(y as u64);
            let mut m1: Vec<char> = Vec::new();
            m1.push('(');
            push_all(&mut m1, digits.as_slice());
            m1.push(')');
            proof {
                reveal_strlit("(");
                reveal_strlit(")");
                assert(m1@ =~= "("@ + crate::text::decimal(y as nat) + ")"@);
            }
            let t1 = marker_title(c.as_slice(), m1.as_slice());
            if t1.len() > 0 {
                return string_from(t1.as_slice());
            }
            let t2 = marker_title(c.as_slice(), digits.as_slice());
            if t2.len() > 0 {
                return string_from(t2.as_slice());
            }
            cleaned
        },
        None => cleaned,
    }
}

pub open spec fn stem_of(path: Seq<char>) -> Seq<char> {
    match path_file_stem(path) {
        Some(s) => s,
        None => Seq::empty(),
    }
}

/// What a video's file name says: an episode when it carries a season
/// marker, a movie otherwise; the cleaned title, the year, season and
/// episode; nothing else.
pub open spec fn video_from_filename_spec<R>(path: Seq<char>, m: VideoMetadata<R>) -> bool {
    let stem = stem_of(path);
    let se = season_episode_spec(stem);
    &&& se is Ok
    &&& (opt_nat(m.season), opt_nat(m.episode)) == se->Ok_0
    &&& m.kind == (if m.season is Some { VideoKind::Episode } else { VideoKind::Movie })
    &&& crate::metadata::book::opt_view(m.title) == Some(clean_title_spec(stem))
    &&& (match m.year {
        Some(y) => find_year_spec(stem) == Some(y as int),
        None => find_year_spec(stem) is None,
    })
    &&& m.source == VideoMetadataSource::Filename
    &&& is_blank_video(VideoMetadata {
        kind: VideoKind::Movie,
        title: None,
        year: None,
        season: None,
        episode: None,
        source: VideoMetadataSource::Unset,
        ..m
    })
}

/// Derive what a file name says of a video: `S01E02` markers, a year, a title.
pub fn from_filename<R>(path: &str) -> (r: VideoMetadata<R>)
    ensures
        video_from_filename_spec(path@, r),
{
    proof {
        lemma_season_episode_ok(stem_of(path@));
    }
    match video_from_filename(path) {
        Some(m) => m,
        None => VideoMetadata::blank(),
    }
}

/// What a file name says of a video; never `None`, as reading a name always
/// succeeds.
pub fn video_from_filename<R>(path: &str) -> (r: Option<VideoMetadata<R>>)
    ensures
        match r {
            Some(m) => video_from_filename_spec(path@, m),
            None => season_episode_spec(stem_of(path@)) is Err,
        },
{
    let stem = match file_stem(path) {
        Some(s) => s,
        None => String::new(),
    };
    let (season, episode) = match season_episode(stem.as_str()) {
        Some(se) => se,
        None => {
            return None;
        },
    };
    let year = parse_year(stem.as_str());
    let mut m: VideoMetadata<R> = VideoMetadata::blank();
    m.kind = if season.is_some() { VideoKind::Episode } else { VideoKind::Movie };
    m.title = Some(clean_title(stem.as_str()));
    m.year = year;
    m.season = season;
    m.episode = episode;
    m.source = VideoMetadataSource::Filename;
    Some(m)
}


pub open spec fn poster_names() -> Seq<Seq<char>> {
    seq!["poster"@, "folder"@, "cover"@, "default"@]
}

pub open spec fn fanart_names() -> Seq<Seq<char>> {
    seq!["fanart"@, "backdrop"@]
}

/// The two places an artwork image may be: `<stem>-<name>.<ext>` beside
/// the video, then `<name>.<ext>` in its folder.
pub open spec fn candidate_pair(dir: Seq<char>, stem: Seq<char>, name: Seq<char>, ext: Seq<char>) -> Seq<Seq<char>> {
    seq![
        crate::paths::path_join(dir, stem + "-"@ + name + "."@ + ext),
        crate::paths::path_join(dir, name + "."@ + ext),
    ]
}

/// The candidates for one artwork name, extension by extension.
pub open spec fn name_candidates(dir: Seq<char>, stem: Seq<char>, name: Seq<char>) -> Seq<Seq<char>> {
    candidate_pair(dir, stem, name, "jpg"@) + candidate_pair(dir, stem, name, "jpeg"@) + candidate_pair(
        dir,
        stem,
        name,
        "png"@,
    ) + candidate_pair(dir, stem, name, "webp"@)
}

/// The candidates for a list of artwork names, in priority order.
pub open spec fn candidates_for(dir: Seq<char>, stem: Seq<char>, names: Seq<Seq<char>>) -> Seq<Seq<char>>
    decreases names.len(),
{
    if names.len() == 0 {
        Seq::empty()
    } else {
        candidates_for(dir, stem, names.drop_last()) + name_candidates(dir, stem, names.last())
    }
}

fn push_pair(out: &mut Vec<String>, dir: &str, stem: &str, name: &str, ext: &str)
    ensures
        crate::book::archive::strings_view(final(out)@) == crate::book::archive::strings_view(old(out)@)
            + candidate_pair(dir@, stem@, name@, ext@),
{
    let mut a = chars_of(stem);
    push_all(&mut a, chars_of("-").as_slice());
    push_all(&mut a, chars_of(name).as_slice());
    push_all(&mut a, chars_of(".").as_slice());
    push_all(&mut a, chars_of(ext).as_slice());
    let mut b = chars_of(name);
    push_all(&mut b, chars_of(".").as_slice());
    push_all(&mut b, chars_of(ext).as_slice());
    let pa = crate::paths::join(dir, string_from(a.as_slice()).as_str());
    let pb = crate::paths::join(dir, string_from(b.as_slice()).as_str());
    let ghost before = out@;
    out.push(pa);
    out.push(pb);
    assert(crate::book::archive::strings_view(out@) =~= crate::book::archive::strings_view(before)
        + candidate_pair(dir@, stem@, name@, ext@));
}

fn push_name_candidates(out: &mut Vec<String>, dir: &str, stem: &str, name: &str)
    ensures
        crate::book::archive::strings_view(final(out)@) == crate::book::archive::strings_view(old(out)@)
            + name_candidates(dir@, stem@, name@),
{
    push_pair(out, dir, stem, name, "jpg");
    push_pair(out, dir, stem, name, "jpeg");
    push_pair(out, dir, stem, name, "png");
    push_pair(out, dir, stem, name, "webp");
    assert(crate::book::archive::strings_view(out@) =~= crate::book::archive::strings_view(old(out)@)
        + name_candidates(dir@, stem@, name@));
}

proof fn lemma_candidates_push(dir: Seq<char>, stem: Seq<char>, names: Seq<Seq<char>>, n: Seq<char>)
    ensures
        candidates_for(dir, stem, names.push(n)) == candidates_for(dir, stem, names) + name_candidates(dir, stem, n),
{
    assert(names.push(n).drop_last() =~= names);
}

/// Where a video's artwork may lie, in the order it is looked for: the
/// poster candidates, then the fanart candidates. `None` for a path
/// without a folder.
pub fn artwork_candidates(path: &str) -> (r: Option<(Vec<String>, Vec<String>)>)
    ensures
        match r {
            None => crate::paths::path_parent(path@) is None,
            Some((posters, fanart)) => crate::paths::path_parent(path@) matches Some(dir) && crate::book::archive::strings_view(
                posters@,
            ) == candidates_for(dir, stem_of(path@), poster_names()) && crate::book::archive::strings_view(fanart@)
                == candidates_for(dir, stem_of(path@), fanart_names()),
        },
{
    let dir = match crate::paths::parent(path) {
        Some(d) => d,
        None => {
            return None;
        },
    };
    let stem = match file_stem(path) {
        Some(s) => s,
        None => String::new(),
    };
    let d = dir.as_str();
    let st = stem.as_str();
    let mut posters: Vec<String> = Vec::new();
    push_name_candidates(&mut posters, d, st, "poster");
    push_name_candidates(&mut posters, d, st, "folder");
    push_name_candidates(&mut posters, d, st, "cover");
    push_name_candidates(&mut posters, d, st, "default");
    let mut fanart: Vec<String> = Vec::new();
    push_name_candidates(&mut fanart, d, st, "fanart");
    push_name_candidates(&mut fanart, d, st, "backdrop");
    proof {
        let e = Seq::<Seq<char>>::empty();
        lemma_candidates_push(dir@, stem@, e, "poster"@);
        lemma_candidates_push(dir@, stem@, e.push("poster"@), "folder"@);
        lemma_candidates_push(dir@, stem@, e.push("poster"@).push("folder"@), "cover"@);
        lemma_candidates_push(dir@, stem@, e.push("poster"@).push("folder"@).push("cover"@), "default"@);
        assert(poster_names() =~= e.push("poster"@).push("folder"@).push("cover"@).push("default"@));
        lemma_candidates_push(dir@, stem@, e, "fanart"@);
        lemma_candidates_push(dir@, stem@, e.push("fanart"@), "backdrop"@);
        assert(fanart_names() =~= e.push("fanart"@).push("backdrop"@));
        assert(candidates_for(dir@, stem@, e) =~= e);
        assert(crate::book::archive::strings_view(posters@) =~= candidates_for(dir@, stem@, poster_names()));
        assert(crate::book::archive::strings_view(fanart@) =~= candidates_for(dir@, stem@, fanart_names()));
    }
    Some((posters, fanart))
}

/// The image type of an artwork file, by its extension as written.
pub open spec fn artwork_mime_spec(path: Seq<char>) -> Seq<char> {
    match crate::paths::path_extension(path) {
        Some(e) => if e == "png"@ {
            "image/png"@
        } else if e == "webp"@ {
            "image/webp"@
        } else {
            "image/jpeg"@
        },
        None => "image/jpeg"@,
    }
}

/// The artwork found at `hit`: its bytes in base64 and its image type.
pub fn artwork_from_file(art_type: &str, hit: &str, bytes: &[u8]) -> (r: crate::models::video::VideoArtwork)
    ensures
        r.art_type@ == art_type@,
        r.path@ == hit@,
        r.data@ == crate::bytes::base64_standard(bytes@),
        r.mime_type@ == artwork_mime_spec(hit@),
{
    let mime = match crate::paths::extension(hit) {
        Some(e) => if crate::text::str_eq(e.as_str(), "png") {
            "image/png"
        } else if crate::text::str_eq(e.as_str(), "webp") {
            "image/webp"
        } else {
            "image/jpeg"
        },
        None => "image/jpeg",
    };
    crate::models::video::VideoArtwork {
        art_type: String::from_str(art_type),
        path: String::from_str(hit),
        data: crate::bytes::encode_base64(bytes),
        mime_type: String::from_str(mime),
    }
}

/// Where a poster fetched from a provider is saved: `<stem>-poster.<ext>`
/// beside the video.
pub open spec fn poster_path_spec(path: Seq<char>, mime: Seq<char>) -> Result<Seq<char>, Seq<char>> {
    match crate::paths::path_parent(path) {
        None => Err("Video file has no parent directory"@),
        Some(dir) => match path_file_stem(path) {
            None => Err("Video file has no name"@),
            Some(stem) => {
                let ext = if mime == "image/png"@ {
                    "png"@
                } else if mime == "image/webp"@ {
                    "webp"@
                } else {
                    "jpg"@
                };
                Ok(crate::paths::path_join(dir, stem + "-poster."@ + ext))
            },
        },
    }
}

pub fn poster_path(path: &str, mime_type: &str) -> (r: Result<String, crate::error::NotataError>)
    ensures
        match r {
            Ok(p) => poster_path_spec(path@, mime_type@) == Ok::<Seq<char>, Seq<char>>(p@),
            Err(e) => e matches crate::error::NotataError::Custom(m) && poster_path_spec(path@, mime_type@)
                == Err::<Seq<char>, Seq<char>>(m@),
        },
{
    let dir = match crate::paths::parent(path) {
        Some(d) => d,
        None => {
            return Err(crate::error::NotataError::Custom(String::from_str("Video file has no parent directory")));
        },
    };
    let stem = match file_stem(path) {
        Some(s) => s,
        None => {
            return Err(crate::error::NotataError::Custom(String::from_str("Video file has no name")));
        },
    };
    let ext = if crate::text::str_eq(mime_type, "image/png") {
        "png"
    } else if crate::text::str_eq(mime_type, "image/webp") {
        "webp"
    } else {
        "jpg"
    };
    let mut name = chars_of(stem.as_str());
    push_all(&mut name, chars_of("-poster.").as_slice());
    push_all(&mut name, chars_of(ext).as_slice());
    Ok(crate::paths::join(dir.as_str(), string_from(name.as_slice()).as_str()))
}

/// Where a video's metadata is written: the NFO it was read from, else a
/// new `<name>.nfo` beside it.
pub fn nfo_target<R>(path: &str, meta: &VideoMetadata<R>) -> (r: String)
    ensures
        r@ == match meta.nfo_path {
            Some(p) => p@,
            None => crate::nfo::sidecar_path(path@),
        },
{
    match &meta.nfo_path {
        Some(p) => p.clone(),
        None => crate::nfo::default_nfo_path(path),
    }
}

/// A video file's properties: its container (the extension in upper case),
/// its size, and its duration when one was read and is not zero. The
/// overall bitrate is not measured.
pub fn video_properties(path: &str, file_size: u64, duration_ms: Option<u64>) -> (r: crate::models::video::VideoProperties)
    ensures
        r.container@ == crate::metadata::book::container_name_spec(path@),
        r.file_size == file_size,
        r.duration_ms == (match duration_ms {
            Some(d) => if d > 0 { Some(d) } else { None },
            None => None,
        }),
        r.overall_bitrate_kbps is None,
{
    let duration = match duration_ms {
        Some(d) => if d > 0 { Some(d) } else { None },
        None => None,
    };
    crate::models::video::VideoProperties {
        duration_ms: duration,
        container: crate::metadata::book::container_name(path),
        file_size: file_size,
        overall_bitrate_kbps: None,
    }
}

} // verus!
