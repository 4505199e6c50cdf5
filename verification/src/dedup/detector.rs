//! Normalising tag values so that copies of one recording compare equal.
use vstd::prelude::*;

use crate::dedup::{file_view, files_view, group_view, groups_view, DuplicateFile, DuplicateGroup, DuplicateMode, DuplicateReport, FileView, GroupView};
use crate::models::book::{opt_str, strs};
use crate::models::media_file::{audio_format_name, MediaFile};
use crate::models::track::TrackMetadata;
use crate::text::{decimal, format_u64, push_all, str_eq, 
    chars_of, is_ws, join, join_parts, lemma_trim_len, lowercase, occurs_at, slice_range,
    split_words, string_from, to_lowercase, trim, trimmed, vecs_view, words,
};

verus! {

/// Whether `char::is_alphanumeric` holds: Unicode `Alphabetic` or `Numeric`,
/// named rather than restated.
pub uninterp spec fn alphanumeric(c: char) -> bool;

/// `char::is_alphanumeric`.
#[verifier::external_body]
fn is_alphanumeric(c: char) -> (r: bool)
    ensures
        r == alphanumeric(c),
{
    c.is_alphanumeric()
}

/// Index of the last `(` or `[` in `s`.
pub open spec fn last_open(s: Seq<char>, n: int) -> Option<int>
    decreases n,
{
    if n <= 0 || n > s.len() {
        None
    } else if s[n - 1] == '(' || s[n - 1] == '[' {
        Some(n - 1)
    } else {
        last_open(s, n - 1)
    }
}

/// Index of the first `)` or `]` at or after `k`.
pub open spec fn first_close(s: Seq<char>, k: int) -> Option<int>
    decreases s.len() - k,
{
    if k < 0 || k >= s.len() {
        None
    } else if s[k] == ')' || s[k] == ']' {
        Some(k)
    } else {
        first_close(s, k + 1)
    }
}

proof fn lemma_last_open(s: Seq<char>, n: int)
    ensures
        last_open(s, n) matches Some(o) ==> 0 <= o < n && o < s.len() && (s[o] == '(' || s[o] == '['),
    decreases n,
{
    if n > 0 && n <= s.len() && !(s[n - 1] == '(' || s[n - 1] == '[') {
        lemma_last_open(s, n - 1);
    }
}

proof fn lemma_first_close(s: Seq<char>, k: int)
    ensures
        first_close(s, k) matches Some(c) ==> k <= c < s.len() && (s[c] == ')' || s[c] == ']'),
    decreases s.len() - k,
{
    if 0 <= k < s.len() && !(s[k] == ')' || s[k] == ']') {
        lemma_first_close(s, k + 1);
    }
}

/// `s` without bracketed suffixes: while the last `(` or `[` opens a group
/// that closes at the very end, the group is cut off and the rest trimmed.
pub open spec fn strip_bracket_suffixes(s: Seq<char>) -> Seq<char>
    decreases s.len(),
{
    match last_open(s, s.len() as int) {
        None => s,
        Some(o) => match first_close(s, o) {
            None => s,
            Some(c) => if c + 1 >= s.len() && 0 <= o < s.len() {
                let t = trim(s.subrange(0, o));
                proof {
                    lemma_trim_len(s.subrange(0, o));
                }
                strip_bracket_suffixes(t)
            } else {
                s
            },
        },
    }
}

/// `s` without any number of leading `"the "`.
pub open spec fn strip_leading_the(s: Seq<char>) -> Seq<char>
    decreases s.len(),
{
    if occurs_at(s, "the "@, 0) && s.len() >= 4 {
        strip_leading_the(s.subrange(4, s.len() as int))
    } else {
        s
    }
}

pub open spec fn punctuation_to_spaces(s: Seq<char>) -> Seq<char> {
    Seq::new(s.len(), |i: int| if alphanumeric(s[i]) { s[i] } else { ' ' })
}

/// The comparison key of a tag value: lowercased, bracketed suffixes such
/// as "(Remastered 2011)" or "[Live]" and a leading "the " dropped, every
/// other character than letters and digits read as a space, and the words
/// joined by single spaces.
pub open spec fn normalize_spec(value: Seq<char>) -> Seq<char> {
    let s = strip_leading_the(strip_bracket_suffixes(lowercase(value)));
    join(words(punctuation_to_spaces(s)), " "@)
}

fn strip_bracket_suffixes_exec(s: Vec<char>) -> (r: Vec<char>)
    ensures
        r@ == strip_bracket_suffixes(s@),
    decreases s@.len(),
{
    let n = s.len();
    let mut k = n;
    while k > 0 && !(s[k - 1] == '(' || s[k - 1] == '[')
        invariant
            k <= n == s@.len(),
            last_open(s@, n as int) == last_open(s@, k as int),
        decreases k,
    {
        k = k - 1;
    }
    if k == 0 {
        return s;
    }
    let o = k - 1;
    let mut c = o;
    while c < n && !(s[c] == ')' || s[c] == ']')
        invariant
            o <= c <= n == s@.len(),
            first_close(s@, o as int) == first_close(s@, c as int),
        decreases n - c,
    {
        c = c + 1;
    }
    if c == n {
        return s;
    }
    if c + 1 >= n {
        let head = slice_range(s.as_slice(), 0, o);
        let t = trimmed(head.as_slice());
        proof {
            lemma_trim_len(head@);
        }
        strip_bracket_suffixes_exec(t)
    } else {
        s
    }
}

/// Strip the noise that stops otherwise-identical recordings from matching:
/// case, punctuation, a leading article, and parenthetical suffixes such as
/// "(Remastered 2011)" or "[Live]".
pub fn normalize(value: &str) -> (r: String)
    ensures
        r@ == normalize_spec(value@),
{
    let lower = to_lowercase(value);
    let s = strip_bracket_suffixes_exec(chars_of(lower.as_str()));
    let mut start: usize = 0;
    let the = chars_of("the ");
    proof {
        reveal_strlit("the ");
        assert(s@.subrange(0, s@.len() as int) =~= s@);
    }
    let n = s.len();
    while crate::text::occurs_at_exec(s.as_slice(), the.as_slice(), start)
        invariant
            n == s@.len(),
            start <= s@.len(),
            the@ == "the "@,
            strip_leading_the(s@) == strip_leading_the(s@.subrange(start as int, s@.len() as int)),
        decreases s@.len() - start,
    {
        proof {
            reveal_strlit("the ");
            assert(the@.len() == 4);
            assert(start + 4 <= s@.len());
            let t = s@.subrange(start as int, s@.len() as int);
            assert(t.subrange(0, 4) =~= s@.subrange(start as int, start + 4));
            assert(t.subrange(4, t.len() as int) =~= s@.subrange(start + 4, s@.len() as int));
        }
        start = start + 4;
    }
    proof {
        reveal_strlit("the ");
        let t = s@.subrange(start as int, s@.len() as int);
        if start + 4 <= s@.len() {
            assert(t.subrange(0, 4) =~= s@.subrange(start as int, start + 4));
        }
    }
    let rest = slice_range(s.as_slice(), start, s.len());
    let mut mapped: Vec<char> = Vec::new();
    let mut i: usize = 0;
    while i < rest.len()
        invariant
            0 <= i <= rest@.len(),
            mapped@ == punctuation_to_spaces(rest@).subrange(0, i as int),
        decreases rest@.len() - i,
    {
        let c = rest[i];
        mapped.push(if is_alphanumeric(c) { c } else { ' ' });
        assert(mapped@ =~= punctuation_to_spaces(rest@).subrange(0, i + 1));
        i = i + 1;
    }
    assert(mapped@ =~= punctuation_to_spaces(rest@));
    let parts = split_words(mapped.as_slice());
    let sep: [char; 1] = [' '];
    assert(sep@ =~= " "@) by {
        reveal_strlit(" ");
    }
    let joined = join_parts(parts.as_slice(), parts.len(), &sep);
    assert(vecs_view(parts@).subrange(0, parts@.len() as int) =~= vecs_view(parts@));
    string_from(joined.as_slice())
}

/// The bitrate a file is ranked by: an unknown bitrate counts as zero.
pub open spec fn rank_bitrate<S>(f: FileView<S>) -> nat {
    match f.bitrate_kbps {
        Some(b) => b as nat,
        None => 0,
    }
}

/// Whether `a` ranks below `b`: a lower bitrate, or the same bitrate and a
/// smaller file.
pub open spec fn ranks_below<S>(a: FileView<S>, b: FileView<S>) -> bool {
    rank_bitrate(a) < rank_bitrate(b) || (rank_bitrate(a) == rank_bitrate(b) && a.file_size < b.file_size)
}

/// The file to keep: the last of those that rank highest.
pub open spec fn best_index<S>(fs: Seq<FileView<S>>) -> int
    decreases fs.len(),
{
    if fs.len() <= 1 {
        0
    } else {
        let b = best_index(fs.drop_last());
        if ranks_below(fs.last(), fs[b]) {
            b
        } else {
            fs.len() - 1
        }
    }
}

/// The files with the one to keep marked.
pub open spec fn mark_best<S>(fs: Seq<FileView<S>>) -> Seq<FileView<S>> {
    if fs.len() == 0 {
        fs
    } else {
        fs.update(best_index(fs), FileView { recommended_keep: true, ..fs[best_index(fs)] })
    }
}

/// The file marked for keeping ranks highest: no file ranks above it, and
/// every later file ranks below it.
pub proof fn lemma_best_ranks_highest<S>(fs: Seq<FileView<S>>)
    requires
        fs.len() > 0,
    ensures
        0 <= best_index(fs) < fs.len(),
        forall|j: int| 0 <= j < fs.len() ==> !ranks_below(fs[best_index(fs)], #[trigger] fs[j]),
        forall|j: int| best_index(fs) < j < fs.len() ==> ranks_below(#[trigger] fs[j], fs[best_index(fs)]),
    decreases fs.len(),
{
    if fs.len() > 1 {
        let d = fs.drop_last();
        lemma_best_ranks_highest(d);
        let b0 = best_index(d);
        let b = best_index(fs);
        assert(d[b0] == fs[b0]);
        assert forall|j: int| 0 <= j < fs.len() implies !ranks_below(fs[b], #[trigger] fs[j]) by {
            if j < fs.len() - 1 {
                assert(d[j] == fs[j]);
                assert(!ranks_below(d[b0], d[j]));
            }
        }
        assert forall|j: int| b < j < fs.len() implies ranks_below(#[trigger] fs[j], fs[b]) by {
            if j < fs.len() - 1 {
                assert(d[j] == fs[j]);
                assert(ranks_below(d[j], d[b0]));
            }
        }
    }
}

/// The duplicate-file record of an indexed file, with its tags when it has
/// them, and the given score.
pub open spec fn dup_view<S>(file: MediaFile, metadata: Option<TrackMetadata>, score: S) -> FileView<S> {
    FileView {
        path: file.path@,
        file_name: file.file_name@,
        file_size: file.file_size,
        duration_ms: file.duration_ms,
        bitrate_kbps: file.bitrate_kbps,
        format: match file.audio_format {
            Some(f) => Some(audio_format_name(f)),
            None => None,
        },
        title: meta_field(metadata, 0),
        artist: meta_field(metadata, 1),
        album: meta_field(metadata, 2),
        score,
        recommended_keep: false,
    }
}

pub fn to_duplicate_file<S>(file: &MediaFile, metadata: Option<&TrackMetadata>, score: S) -> (r: DuplicateFile<S>)
    ensures
        file_view(r) == dup_view(*file, deref_meta(metadata), score),
{
    let format = match &file.audio_format {
        Some(f) => Some(f.as_str().to_string()),
        None => None,
    };
    let (title, artist, album) = match metadata {
        Some(m) => (clone_opt(&m.title), clone_opt(&m.artist), clone_opt(&m.album)),
        None => (None, None, None),
    };
    DuplicateFile {
        path: file.path.clone(),
        file_name: file.file_name.clone(),
        file_size: file.file_size,
        duration_ms: file.duration_ms,
        bitrate_kbps: file.bitrate_kbps,
        format,
        title,
        artist,
        album,
        score,
        recommended_keep: false,
    }
}

/// The title (0), artist (1) or album (2) of a file's tags, when it has tags.
pub open spec fn deref_meta(m: Option<&TrackMetadata>) -> Option<TrackMetadata> {
    match m {
        Some(t) => Some(*t),
        None => None,
    }
}

pub open spec fn meta_field(m: Option<TrackMetadata>, which: int) -> Option<Seq<char>> {
    match m {
        Some(t) => if which == 0 {
            opt_str(t.title)
        } else if which == 1 {
            opt_str(t.artist)
        } else {
            opt_str(t.album)
        },
        None => None,
    }
}

fn clone_opt(o: &Option<String>) -> (r: Option<String>)
    ensures
        opt_str(r) == opt_str(*o),
{
    match o {
        Some(s) => Some(s.clone()),
        None => None,
    }
}

fn rank_of<S>(f: &DuplicateFile<S>) -> (r: (u32, u64))
    ensures
        r.0 == rank_bitrate(file_view(*f)),
        r.1 == f.file_size,
{
    match f.bitrate_kbps {
        Some(b) => (b, f.file_size),
        None => (0, f.file_size),
    }
}

/// Prefer the highest bitrate, breaking ties on file size.
pub fn mark_recommended<S>(files: &mut Vec<DuplicateFile<S>>)
    ensures
        files_view(final(files)@) == mark_best(files_view(old(files)@)),
{
    let n = files.len();
    if n == 0 {
        return;
    }
    let ghost fs = files_view(files@);
    let mut best: usize = 0;
    let mut k: usize = 1;
    while k < n
        invariant
            1 <= k <= n == files@.len(),
            fs == files_view(files@),
            best < k,
            best as int == best_index(fs.subrange(0, k as int)),
        decreases n - k,
    {
        let (kb, ks) = rank_of(&files[k]);
        let (bb, bs) = rank_of(&files[best]);
        proof {
            let p = fs.subrange(0, k + 1);
            assert(p.drop_last() =~= fs.subrange(0, k as int));
            assert(p.last() == fs[k as int]);
            assert(p[best as int] == fs[best as int]);
        }
        if !(kb < bb || (kb == bb && ks < bs)) {
            best = k;
        }
        k = k + 1;
    }
    assert(fs.subrange(0, n as int) =~= fs);
    let mut f = files.remove(best);
    f.recommended_keep = true;
    files.insert(best, f);
    assert(files_view(files@) =~= mark_best(fs));
}

/// The sum of the files' sizes.
pub open spec fn total_size<S>(fs: Seq<FileView<S>>) -> nat
    decreases fs.len(),
{
    if fs.len() == 0 {
        0
    } else {
        total_size(fs.drop_last()) + fs.last().file_size as nat
    }
}

/// The first file marked for keeping.
pub open spec fn first_kept<S>(fs: Seq<FileView<S>>) -> Option<int>
    decreases fs.len(),
{
    if fs.len() == 0 {
        None
    } else {
        match first_kept(fs.drop_last()) {
            Some(i) => Some(i),
            None => if fs.last().recommended_keep {
                Some(fs.len() - 1)
            } else {
                None
            },
        }
    }
}

pub open spec fn kept_size<S>(fs: Seq<FileView<S>>) -> nat {
    match first_kept(fs) {
        Some(i) => fs[i].file_size as nat,
        None => 0,
    }
}

/// A group: the best copy marked, and every byte but those of the kept
/// copy counted as reclaimable.
pub open spec fn finish_view<S>(id: Seq<char>, mode: DuplicateMode, reason: Seq<char>, fs: Seq<FileView<S>>) -> GroupView<S> {
    let m = mark_best(fs);
    GroupView { id, mode, reason, files: m, wasted_bytes: (total_size(m) - kept_size(m)) as u64 }
}

proof fn lemma_total_size_update<S>(fs: Seq<FileView<S>>, i: int, f: FileView<S>)
    requires
        0 <= i < fs.len(),
        f.file_size == fs[i].file_size,
    ensures
        total_size(fs.update(i, f)) == total_size(fs),
    decreases fs.len(),
{
    if i < fs.len() - 1 {
        lemma_total_size_update(fs.drop_last(), i, f);
        assert(fs.update(i, f).drop_last() =~= fs.drop_last().update(i, f));
    } else {
        assert(fs.update(i, f).drop_last() =~= fs.drop_last());
    }
}

proof fn lemma_kept_le_total<S>(fs: Seq<FileView<S>>)
    ensures
        kept_size(fs) <= total_size(fs),
        first_kept(fs) matches Some(i) ==> 0 <= i < fs.len(),
    decreases fs.len(),
{
    if fs.len() > 0 {
        lemma_kept_le_total(fs.drop_last());
        match first_kept(fs.drop_last()) {
            Some(i) => {
                assert(fs.drop_last()[i] == fs[i]);
            },
            None => {},
        }
    }
}

pub fn finish_group<S>(id: String, mode: DuplicateMode, reason: String, files: Vec<DuplicateFile<S>>) -> (r: DuplicateGroup<S>)
    requires
        total_size(files_view(files@)) <= u64::MAX,
    ensures
        group_view(r) == finish_view(id@, mode, reason@, files_view(files@)),
{
    let ghost fs = files_view(files@);
    let mut files = files;
    mark_recommended(&mut files);
    let ghost m = files_view(files@);
    proof {
        if fs.len() > 0 {
            lemma_best_ranks_highest(fs);
            lemma_total_size_update(fs, best_index(fs), FileView { recommended_keep: true, ..fs[best_index(fs)] });
        }
        lemma_kept_le_total(m);
    }
    let mut total: u64 = 0;
    let mut kept: Option<u64> = None;
    let mut k: usize = 0;
    while k < files.len()
        invariant
            0 <= k <= files@.len(),
            m == files_view(files@),
            total_size(m) <= u64::MAX,
            total == total_size(m.subrange(0, k as int)),
            kept == (match first_kept(m.subrange(0, k as int)) {
                Some(i) => Some(m[i].file_size),
                None => None::<u64>,
            }),
        decreases files@.len() - k,
    {
        proof {
            let p = m.subrange(0, k + 1);
            assert(p.drop_last() =~= m.subrange(0, k as int));
            lemma_total_prefix(m, k + 1);
            lemma_kept_le_total(m.subrange(0, k as int));
            match first_kept(m.subrange(0, k as int)) {
                Some(i) => {
                    assert(m.subrange(0, k as int)[i] == m[i]);
                },
                None => {},
            }
        }
        total = total + files[k].file_size;
        if kept.is_none() && files[k].recommended_keep {
            kept = Some(files[k].file_size);
        }
        k = k + 1;
    }
    assert(m.subrange(0, k as int) =~= m);
    let kept_bytes: u64 = match kept {
        Some(v) => v,
        None => 0,
    };
    DuplicateGroup { id, mode, reason, files, wasted_bytes: total - kept_bytes }
}

proof fn lemma_total_prefix<S>(fs: Seq<FileView<S>>, k: int)
    requires
        0 <= k <= fs.len(),
    ensures
        total_size(fs.subrange(0, k)) <= total_size(fs),
    decreases fs.len() - k,
{
    if k < fs.len() {
        lemma_total_prefix(fs.drop_last(), k);
        assert(fs.drop_last().subrange(0, k) =~= fs.subrange(0, k));
    } else {
        assert(fs.subrange(0, k) =~= fs);
    }
}

/// `g` placed into groups ordered by reclaimable bytes, largest first,
/// after every group that reclaims as much: a stable sort's insertion.
pub open spec fn insert_by_waste<S>(gs: Seq<GroupView<S>>, g: GroupView<S>) -> Seq<GroupView<S>>
    decreases gs.len(),
{
    if gs.len() == 0 {
        seq![g]
    } else if gs.last().wasted_bytes >= g.wasted_bytes {
        gs.push(g)
    } else {
        insert_by_waste(gs.drop_last(), g).push(gs.last())
    }
}

/// Groups ordered by reclaimable bytes, largest first; groups that reclaim
/// the same keep their order.
pub open spec fn sort_by_waste<S>(gs: Seq<GroupView<S>>) -> Seq<GroupView<S>>
    decreases gs.len(),
{
    if gs.len() == 0 {
        gs
    } else {
        insert_by_waste(sort_by_waste(gs.drop_last()), gs.last())
    }
}

pub open spec fn waste_sorted<S>(gs: Seq<GroupView<S>>) -> bool {
    forall|i: int, j: int| 0 <= i < j < gs.len() ==> gs[i].wasted_bytes >= gs[j].wasted_bytes
}

proof fn lemma_insert_by_waste_at<S>(gs: Seq<GroupView<S>>, g: GroupView<S>, p: int)
    requires
        0 <= p <= gs.len(),
        forall|j: int| 0 <= j < p ==> #[trigger] gs[j].wasted_bytes >= g.wasted_bytes,
        forall|j: int| p <= j < gs.len() ==> #[trigger] gs[j].wasted_bytes < g.wasted_bytes,
    ensures
        insert_by_waste(gs, g) == gs.insert(p, g),
    decreases gs.len(),
{
    if gs.len() == 0 {
        assert(gs.insert(p, g) =~= seq![g]);
    } else if gs.last().wasted_bytes >= g.wasted_bytes {
        assert(p == gs.len());
        assert(gs.insert(p, g) =~= gs.push(g));
    } else {
        let d = gs.drop_last();
        assert forall|j: int| 0 <= j < p implies #[trigger] d[j].wasted_bytes >= g.wasted_bytes by {
            assert(d[j] == gs[j]);
        }
        assert forall|j: int| p <= j < d.len() implies #[trigger] d[j].wasted_bytes < g.wasted_bytes by {
            assert(d[j] == gs[j]);
        }
        lemma_insert_by_waste_at(d, g, p);
        assert(d.insert(p, g).push(gs.last()) =~= gs.insert(p, g));
    }
}

/// Sorting orders the groups by reclaimable bytes, largest first, and keeps
/// every group: it only reorders them.
#[verifier::spinoff_prover]
#[verifier::rlimit(40)]
pub proof fn lemma_sort_by_waste<S>(gs: Seq<GroupView<S>>)
    ensures
        waste_sorted(sort_by_waste(gs)),
        sort_by_waste(gs).to_multiset() == gs.to_multiset(),
        sort_by_waste(gs).len() == gs.len(),
    decreases gs.len(),
{
    broadcast use vstd::multiset::group_multiset_axioms;
    if gs.len() > 0 {
        let d = gs.drop_last();
        let g = gs.last();
        lemma_sort_by_waste(d);
        let s = sort_by_waste(d);
        let p = first_below(s, g.wasted_bytes, 0);
        lemma_first_below(s, g.wasted_bytes, 0);
        lemma_insert_by_waste_at(s, g, p);
        let r = s.insert(p, g);
        assert forall|i: int, j: int| 0 <= i < j < r.len() implies r[i].wasted_bytes >= r[j].wasted_bytes by {
            if j < p {
            } else if j == p {
            } else if i < p {
                assert(r[j] == s[j - 1]);
            } else if i == p {
                assert(r[j] == s[j - 1]);
            } else {
                assert(r[i] == s[i - 1] && r[j] == s[j - 1]);
            }
        }
        vstd::seq_lib::lemma_seq_union_to_multiset_commutative(s.subrange(0, p), s.subrange(p, s.len() as int));
        assert(s =~= s.subrange(0, p) + s.subrange(p, s.len() as int));
        assert(r =~= s.subrange(0, p) + (seq![g] + s.subrange(p, s.len() as int)));
        vstd::seq_lib::lemma_multiset_commutative(s.subrange(0, p), seq![g] + s.subrange(p, s.len() as int));
        vstd::seq_lib::lemma_multiset_commutative(s.subrange(0, p), s.subrange(p, s.len() as int));
        vstd::seq_lib::lemma_multiset_commutative(seq![g], s.subrange(p, s.len() as int));
        assert(gs =~= d.push(g));
        assert(d.push(g) =~= d + seq![g]);
        vstd::seq_lib::lemma_multiset_commutative(d, seq![g]);
    }
}

/// The first index at or after `from` whose group reclaims less than `w`.
pub open spec fn first_below<S>(gs: Seq<GroupView<S>>, w: u64, from: int) -> int
    decreases gs.len() - from,
{
    if from >= gs.len() || from < 0 {
        gs.len() as int
    } else if gs[from].wasted_bytes < w {
        from
    } else {
        first_below(gs, w, from + 1)
    }
}

proof fn lemma_first_below<S>(gs: Seq<GroupView<S>>, w: u64, from: int)
    requires
        0 <= from <= gs.len(),
        waste_sorted(gs),
        forall|j: int| 0 <= j < from ==> #[trigger] gs[j].wasted_bytes >= w,
    ensures
        from <= first_below(gs, w, from) <= gs.len(),
        forall|j: int| 0 <= j < first_below(gs, w, from) ==> #[trigger] gs[j].wasted_bytes >= w,
        forall|j: int| first_below(gs, w, from) <= j < gs.len() ==> #[trigger] gs[j].wasted_bytes < w,
    decreases gs.len() - from,
{
    if from < gs.len() && gs[from].wasted_bytes >= w {
        lemma_first_below(gs, w, from + 1);
    }
}

/// Duplicate groups ordered by reclaimable bytes, largest first, groups
/// that reclaim the same keeping their order (`sort_by`, which is stable).
pub fn sort_groups<S>(groups: Vec<DuplicateGroup<S>>) -> (r: Vec<DuplicateGroup<S>>)
    ensures
        groups_view(r@) == sort_by_waste(groups_view(groups@)),
{
    let ghost all = groups_view(groups@);
    let mut rest = groups;
    let mut out: Vec<DuplicateGroup<S>> = Vec::new();
    let ghost mut k: int = 0;
    while rest.len() > 0
        invariant
            0 <= k <= all.len(),
            groups_view(rest@) == all.subrange(k, all.len() as int),
            groups_view(out@) == sort_by_waste(all.subrange(0, k)),
        decreases rest@.len(),
    {
        let ghost before = rest@;
        proof {
            assert(groups_view(before).len() == all.len() - k);
            assert(groups_view(before)[0] == all[k]);
        }
        let g = rest.remove(0);
        proof {
            assert(g == before[0]);
            assert(group_view(g) == all[k]);
            assert forall|j: int| 0 <= j < rest@.len() implies #[trigger] groups_view(rest@)[j] == all.subrange(
                k + 1,
                all.len() as int,
            )[j] by {
                assert(rest@[j] == before[j + 1]);
                assert(groups_view(before)[j + 1] == all[k + 1 + j]);
            }
            assert(groups_view(rest@) =~= all.subrange(k + 1, all.len() as int));
            lemma_sort_by_waste(all.subrange(0, k));
            assert(all.subrange(0, k + 1).drop_last() =~= all.subrange(0, k));
        }
        let ghost sv = groups_view(out@);
        let mut p: usize = 0;
        while p < out.len() && out[p].wasted_bytes >= g.wasted_bytes
            invariant
                0 <= p <= out@.len(),
                sv == groups_view(out@),
                forall|j: int| 0 <= j < p ==> #[trigger] sv[j].wasted_bytes >= g.wasted_bytes,
            decreases out@.len() - p,
        {
            p = p + 1;
        }
        proof {
            lemma_first_below(sv, g.wasted_bytes, p as int);
            if p < out@.len() {
                assert(first_below(sv, g.wasted_bytes, p as int) == p);
            }
            lemma_insert_by_waste_at(sv, group_view(g), p as int);
        }
        out.insert(p, g);
        proof {
            assert(groups_view(out@) =~= sv.insert(p as int, all[k]));
            k = k + 1;
        }
    }
    proof {
        assert(groups_view(rest@).len() == 0);
        assert(all.subrange(0, k) =~= all);
    }
    out
}

/// The number of files over all groups.
pub open spec fn total_group_files<S>(gs: Seq<GroupView<S>>) -> nat
    decreases gs.len(),
{
    if gs.len() == 0 {
        0
    } else {
        total_group_files(gs.drop_last()) + gs.last().files.len()
    }
}

/// The bytes reclaimable over all groups.
pub open spec fn total_waste<S>(gs: Seq<GroupView<S>>) -> nat
    decreases gs.len(),
{
    if gs.len() == 0 {
        0
    } else {
        total_waste(gs.drop_last()) + gs.last().wasted_bytes as nat
    }
}

proof fn lemma_totals_prefix<S>(gs: Seq<GroupView<S>>, k: int)
    requires
        0 <= k <= gs.len(),
    ensures
        total_group_files(gs.subrange(0, k)) <= total_group_files(gs),
        total_waste(gs.subrange(0, k)) <= total_waste(gs),
    decreases gs.len() - k,
{
    if k < gs.len() {
        lemma_totals_prefix(gs.drop_last(), k);
        assert(gs.drop_last().subrange(0, k) =~= gs.subrange(0, k));
    } else {
        assert(gs.subrange(0, k) =~= gs);
    }
}

/// The report over a list of groups: how many groups, how many files in
/// them, and how many bytes removing the extra copies would free.
pub fn build_report<S>(groups: Vec<DuplicateGroup<S>>, warnings: Vec<String>) -> (r: DuplicateReport<S>)
    requires
        total_group_files(groups_view(groups@)) <= usize::MAX,
        total_waste(groups_view(groups@)) <= u64::MAX,
    ensures
        groups_view(r.groups@) == groups_view(groups@),
        r.total_groups == groups@.len(),
        r.total_files == total_group_files(groups_view(groups@)),
        r.reclaimable_bytes == total_waste(groups_view(groups@)),
        r.warnings@ == warnings@,
{
    let ghost gv = groups_view(groups@);
    let mut files: usize = 0;
    let mut bytes: u64 = 0;
    let mut k: usize = 0;
    while k < groups.len()
        invariant
            0 <= k <= groups@.len(),
            gv == groups_view(groups@),
            total_group_files(gv) <= usize::MAX,
            total_waste(gv) <= u64::MAX,
            files == total_group_files(gv.subrange(0, k as int)),
            bytes == total_waste(gv.subrange(0, k as int)),
        decreases groups@.len() - k,
    {
        proof {
            assert(gv.subrange(0, k + 1).drop_last() =~= gv.subrange(0, k as int));
            lemma_totals_prefix(gv, k + 1);
        }
        files = files + groups[k].files.len();
        bytes = bytes + groups[k].wasted_bytes;
        k = k + 1;
    }
    assert(gv.subrange(0, k as int) =~= gv);
    let n = groups.len();
    DuplicateReport { groups, total_groups: n, total_files: files, reclaimable_bytes: bytes, warnings }
}

/// The sum of the indexed files' sizes.
pub open spec fn total_media_size(files: Seq<MediaFile>) -> nat
    decreases files.len(),
{
    if files.len() == 0 {
        0
    } else {
        total_media_size(files.drop_last()) + files.last().file_size as nat
    }
}

/// The content hash known for file `i`, if any.
pub open spec fn hash_at(hashes: Seq<Option<String>>, i: int) -> Option<Seq<char>> {
    if 0 <= i < hashes.len() {
        opt_str(hashes[i])
    } else {
        None
    }
}

/// A hash as the digest writes it: at least twelve characters, the first
/// twelve ASCII, so that the first twelve bytes are the first twelve
/// characters.
pub open spec fn hash_ok(h: Seq<char>) -> bool {
    h.len() >= 12 && forall|k: int| 0 <= k < 12 ==> (#[trigger] h[k] as u32) < 128
}

pub open spec fn hashes_ok(hashes: Seq<Option<String>>) -> bool {
    forall|i: int| 0 <= i < hashes.len() ==> (#[trigger] hashes[i] matches Some(h) ==> hash_ok(h@))
}

/// Whether file `j` is a byte-identical copy of file `i`: both non-empty,
/// hashed, of the same size and with the same hash.
pub open spec fn same_copy(files: Seq<MediaFile>, hashes: Seq<Option<String>>, i: int, j: int) -> bool {
    &&& 0 <= i < files.len() && 0 <= j < files.len()
    &&& files[i].file_size > 0 && hash_at(hashes, i) is Some
    &&& files[j].file_size == files[i].file_size
    &&& hash_at(hashes, j) == hash_at(hashes, i)
}

/// The copies of file `i` among the first `n` files, in file order.
pub open spec fn copies_of(files: Seq<MediaFile>, hashes: Seq<Option<String>>, i: int, n: int) -> Seq<int>
    decreases n,
{
    if n <= 0 {
        Seq::empty()
    } else {
        let r = copies_of(files, hashes, i, n - 1);
        if same_copy(files, hashes, i, n - 1) {
            r.push(n - 1)
        } else {
            r
        }
    }
}

/// File `i` leads a group of identical files: it is the first of at least
/// two copies.
pub open spec fn exact_leader(files: Seq<MediaFile>, hashes: Seq<Option<String>>, i: int) -> bool {
    &&& same_copy(files, hashes, i, i)
    &&& copies_of(files, hashes, i, i).len() == 0
    &&& copies_of(files, hashes, i, files.len() as int).len() >= 2
}

/// The leaders among the first `n` files, in file order.
pub open spec fn exact_leaders(files: Seq<MediaFile>, hashes: Seq<Option<String>>, n: int) -> Seq<int>
    decreases n,
{
    if n <= 0 {
        Seq::empty()
    } else {
        let r = exact_leaders(files, hashes, n - 1);
        if exact_leader(files, hashes, n - 1) {
            r.push(n - 1)
        } else {
            r
        }
    }
}

pub open spec fn exact_reason(count: nat, size: nat) -> Seq<char> {
    decimal(count) + " identical files ("@ + decimal(size) + " bytes each)"@
}

/// The group of identical files that file `i` leads.
pub open spec fn exact_group_spec<S>(files: Seq<MediaFile>, hashes: Seq<Option<String>>, one: S, i: int) -> GroupView<S> {
    let members = copies_of(files, hashes, i, files.len() as int);
    let h = hash_at(hashes, i)->0;
    finish_view(
        "exact-"@ + h.subrange(0, 12),
        DuplicateMode::Exact,
        exact_reason(members.len(), files[i].file_size as nat),
        Seq::new(members.len(), |k: int| dup_view(files[members[k]], None, one)),
    )
}

/// Byte-identical files grouped: one group per set of at least two
/// non-empty files with the same size and hash, each file scored `one`,
/// the groups ordered by reclaimable bytes.
pub open spec fn exact_groups_spec<S>(files: Seq<MediaFile>, hashes: Seq<Option<String>>, one: S) -> Seq<GroupView<S>> {
    let leaders = exact_leaders(files, hashes, files.len() as int);
    sort_by_waste(Seq::new(leaders.len(), |k: int| exact_group_spec(files, hashes, one, leaders[k])))
}

proof fn lemma_copies_facts(files: Seq<MediaFile>, hashes: Seq<Option<String>>, i: int, n: int)
    requires
        0 <= n <= files.len(),
    ensures
        forall|k: int| 0 <= k < copies_of(files, hashes, i, n).len() ==> {
            let j = #[trigger] copies_of(files, hashes, i, n)[k];
            0 <= j < n && same_copy(files, hashes, i, j)
        },
        copies_of(files, hashes, i, n).len() <= n,
    decreases n,
{
    if n > 0 {
        lemma_copies_facts(files, hashes, i, n - 1);
    }
}

/// A group's files take no more bytes than all the files together.
proof fn lemma_copies_size<S>(files: Seq<MediaFile>, hashes: Seq<Option<String>>, i: int, n: int, one: S)
    requires
        0 <= n <= files.len(),
    ensures
        total_size(
            Seq::new(
                copies_of(files, hashes, i, n).len(),
                |k: int| dup_view(files[copies_of(files, hashes, i, n)[k]], None, one),
            ),
        ) <= total_media_size(files.subrange(0, n)),
    decreases n,
{
    if n > 0 {
        lemma_copies_size(files, hashes, i, n - 1, one);
        let c = copies_of(files, hashes, i, n);
        let c0 = copies_of(files, hashes, i, n - 1);
        let fs = Seq::new(c.len(), |k: int| dup_view(files[c[k]], None, one));
        let fs0 = Seq::new(c0.len(), |k: int| dup_view(files[c0[k]], None, one));
        assert(files.subrange(0, n).drop_last() =~= files.subrange(0, n - 1));
        if same_copy(files, hashes, i, n - 1) {
            assert(fs.drop_last() =~= fs0);
        } else {
            assert(fs =~= fs0);
        }
    }
}

proof fn lemma_media_prefix(files: Seq<MediaFile>, k: int)
    requires
        0 <= k <= files.len(),
    ensures
        total_media_size(files.subrange(0, k)) <= total_media_size(files),
    decreases files.len() - k,
{
    if k < files.len() {
        lemma_media_prefix(files.drop_last(), k);
        assert(files.drop_last().subrange(0, k) =~= files.subrange(0, k));
    } else {
        assert(files.subrange(0, k) =~= files);
    }
}

fn hash_eq(a: &Option<String>, b: &Option<String>) -> (r: bool)
    ensures
        r == (opt_str(*a) == opt_str(*b)),
{
    match (a, b) {
        (Some(x), Some(y)) => str_eq(x.as_str(), y.as_str()),
        (None, None) => true,
        _ => false,
    }
}

fn hash_of(hashes: &[Option<String>], i: usize) -> (r: Option<String>)
    ensures
        opt_str(r) == hash_at(hashes@, i as int),
{
    if i < hashes.len() {
        match &hashes[i] {
            Some(h) => Some(h.clone()),
            None => None,
        }
    } else {
        None
    }
}

fn same_copy_exec(files: &[MediaFile], hashes: &[Option<String>], i: usize, j: usize) -> (r: bool)
    requires
        i < files@.len(),
        j < files@.len(),
    ensures
        r == same_copy(files@, hashes@, i as int, j as int),
{
    let hi = hash_of(hashes, i);
    let hj = hash_of(hashes, j);
    files[i].file_size > 0 && hi.is_some() && files[j].file_size == files[i].file_size && hash_eq(&hj, &hi)
}

fn exact_reason_exec(count: u64, size: u64) -> (r: String)
    ensures
        r@ == exact_reason(count as nat, size as nat),
{
    let mut v = format_u64(count);
    let a = chars_of(" identical files (");
    push_all(&mut v, a.as_slice());
    let d = format_u64(size);
    push_all(&mut v, d.as_slice());
    let b = chars_of(" bytes each)");
    push_all(&mut v, b.as_slice());
    string_from(v.as_slice())
}

fn exact_group<S: Copy>(files: &[MediaFile], hashes: &[Option<String>], one: S, i: usize, members: &Vec<usize>) -> (r: DuplicateGroup<S>)
    requires
        i < files@.len(),
        exact_leader(files@, hashes@, i as int),
        hashes_ok(hashes@),
        total_media_size(files@) <= u64::MAX,
        members@.len() == copies_of(files@, hashes@, i as int, files@.len() as int).len(),
        forall|k: int| 0 <= k < members@.len() ==> members@[k] as int == #[trigger] copies_of(files@, hashes@, i as int, files@.len() as int)[k],
    ensures
        group_view(r) == exact_group_spec(files@, hashes@, one, i as int),
{
    let ghost c = copies_of(files@, hashes@, i as int, files@.len() as int);
    proof {
        lemma_copies_facts(files@, hashes@, i as int, files@.len() as int);
    }
    let mut dups: Vec<DuplicateFile<S>> = Vec::new();
    let mut k: usize = 0;
    while k < members.len()
        invariant
            0 <= k <= members@.len() == c.len(),
            forall|m: int| 0 <= m < members@.len() ==> members@[m] as int == #[trigger] c[m],
            forall|m: int| 0 <= m < c.len() ==> 0 <= #[trigger] c[m] < files@.len(),
            files_view(dups@) == Seq::new(k as nat, |m: int| dup_view(files@[c[m]], None, one)),
        decreases members@.len() - k,
    {
        assert(members@[k as int] as int == c[k as int]);
        let ghost before = files_view(dups@);
        let d = to_duplicate_file(&files[members[k]], None, one);
        dups.push(d);
        assert(files_view(dups@) =~= before.push(file_view(d)));
        proof {
            assert(files_view(dups@) =~= Seq::new((k + 1) as nat, |m: int| dup_view(files@[c[m]], None, one)));
        }
        k = k + 1;
    }
    let h = hash_of(hashes, i);
    let hs = match h {
        Some(x) => x,
        None => String::new(),
    };
    let hc = chars_of(hs.as_str());
    proof {
        assert(hashes@[i as int] matches Some(x) && hash_ok(x@));
    }
    let head = crate::text::slice_range(hc.as_slice(), 0, 12);
    let mut idv = chars_of("exact-");
    push_all(&mut idv, head.as_slice());
    let id = string_from(idv.as_slice());
    let reason = exact_reason_exec(members.len() as u64, files[i].file_size);
    proof {
        lemma_copies_size(files@, hashes@, i as int, files@.len() as int, one);
        assert(files@.subrange(0, files@.len() as int) =~= files@);
        assert(files_view(dups@) =~= Seq::new(c.len(), |m: int| dup_view(files@[c[m]], None, one)));
    }
    finish_group(id, DuplicateMode::Exact, reason, dups)
}

/// Byte-identical duplicates, given the content hash of each file (`None`
/// where the file could not be hashed).
///
/// Only files of a size shared with another file need a hash: a group
/// holds files of one size.
pub fn find_exact_duplicates<S: Copy>(files: &[MediaFile], hashes: &[Option<String>], one: S) -> (r: Vec<DuplicateGroup<S>>)
    requires
        hashes_ok(hashes@),
        total_media_size(files@) <= u64::MAX,
    ensures
        groups_view(r@) == exact_groups_spec(files@, hashes@, one),
{
    let n = files.len();
    let mut groups: Vec<DuplicateGroup<S>> = Vec::new();
    let mut i: usize = 0;
    while i < n
        invariant
            0 <= i <= n == files@.len(),
            hashes_ok(hashes@),
            total_media_size(files@) <= u64::MAX,
            groups_view(groups@) == Seq::new(
                exact_leaders(files@, hashes@, i as int).len(),
                |k: int| exact_group_spec(files@, hashes@, one, exact_leaders(files@, hashes@, i as int)[k]),
            ),
        decreases n - i,
    {
        let ghost before = groups_view(groups@);
        let ghost mut pushed = false;
        if same_copy_exec(files, hashes, i, i) {
            let mut earlier = false;
            let mut j: usize = 0;
            while j < i
                invariant
                    0 <= j <= i < n == files@.len(),
                    earlier == (copies_of(files@, hashes@, i as int, j as int).len() > 0),
                decreases i - j,
            {
                if same_copy_exec(files, hashes, i, j) {
                    earlier = true;
                }
                j = j + 1;
            }
            if !earlier {
                let mut members: Vec<usize> = Vec::new();
                let mut j: usize = 0;
                while j < n
                    invariant
                        0 <= j <= n == files@.len(),
                        i < n,
                        members@.len() == copies_of(files@, hashes@, i as int, j as int).len(),
                        forall|k: int| 0 <= k < members@.len() ==> members@[k] as int == #[trigger] copies_of(
                            files@,
                            hashes@,
                            i as int,
                            j as int,
                        )[k],
                    decreases n - j,
                {
                    if same_copy_exec(files, hashes, i, j) {
                        members.push(j);
                    }
                    j = j + 1;
                }
                assert(members@.len() == copies_of(files@, hashes@, i as int, n as int).len());
                if members.len() >= 2 {
                    let g = exact_group(files, hashes, one, i, &members);
                    groups.push(g);
                    proof {
                        pushed = true;
                        assert(groups_view(groups@) =~= before.push(group_view(g)));
                    }
                }
            }
        }
        proof {
            let l = exact_leaders(files@, hashes@, i + 1);
            let l0 = exact_leaders(files@, hashes@, i as int);
            assert(pushed == exact_leader(files@, hashes@, i as int));
            if pushed {
                assert(l == l0.push(i as int));
            } else {
                assert(l == l0);
                assert(groups_view(groups@) == before);
            }
            assert(groups_view(groups@) =~= Seq::new(
                l.len(),
                |k: int| exact_group_spec(files@, hashes@, one, l[k]),
            ));
        }
        i = i + 1;
    }
    sort_groups(groups)
}

/// The tags known for file `i`, if any.
pub open spec fn meta_at(metas: Seq<Option<TrackMetadata>>, i: int) -> Option<TrackMetadata> {
    if 0 <= i < metas.len() {
        metas[i]
    } else {
        None
    }
}

/// The key file `i` is bucketed under: its normalized title, for a file
/// whose title is not blank and does not normalize to nothing.
pub open spec fn title_key(metas: Seq<Option<TrackMetadata>>, i: int) -> Option<Seq<char>> {
    match meta_at(metas, i) {
        Some(m) => match m.title {
            Some(t) => if trim(t@).len() > 0 && normalize_spec(t@).len() > 0 {
                Some(normalize_spec(t@))
            } else {
                None
            },
            None => None,
        },
        None => None,
    }
}

/// The files among the first `n` with the same title key as file `i`.
pub open spec fn title_members(metas: Seq<Option<TrackMetadata>>, i: int, n: int) -> Seq<int>
    decreases n,
{
    if n <= 0 {
        Seq::empty()
    } else {
        let r = title_members(metas, i, n - 1);
        if title_key(metas, i) is Some && title_key(metas, n - 1) == title_key(metas, i) {
            r.push(n - 1)
        } else {
            r
        }
    }
}

/// The files among the first `n` that open a bucket: the first file with
/// each title key.
pub open spec fn bucket_leaders(metas: Seq<Option<TrackMetadata>>, n: int) -> Seq<int>
    decreases n,
{
    if n <= 0 {
        Seq::empty()
    } else {
        let r = bucket_leaders(metas, n - 1);
        if title_key(metas, n - 1) is Some && title_members(metas, n - 1, n - 1).len() == 0 {
            r.push(n - 1)
        } else {
            r
        }
    }
}

/// The title buckets of `count` files: each title key with the files that
/// have it, in file order, the buckets in the order their first file comes.
pub open spec fn buckets_spec(metas: Seq<Option<TrackMetadata>>, count: int) -> Seq<(Seq<char>, Seq<int>)> {
    let l = bucket_leaders(metas, count);
    Seq::new(l.len(), |b: int| (title_key(metas, l[b])->0, title_members(metas, l[b], count)))
}

pub open spec fn buckets_view(v: Seq<(String, Vec<usize>)>) -> Seq<(Seq<char>, Seq<int>)> {
    Seq::new(v.len(), |b: int| (v[b].0@, Seq::new(v[b].1@.len(), |k: int| v[b].1@[k] as int)))
}

/// Indices in increasing order, each below `n`.
pub open spec fn increasing_below(v: Seq<int>, n: int) -> bool {
    &&& forall|k: int| 0 <= k < v.len() ==> 0 <= #[trigger] v[k] < n
    &&& forall|a: int, b: int| 0 <= a < b < v.len() ==> v[a] < v[b]
}

proof fn lemma_title_members_facts(metas: Seq<Option<TrackMetadata>>, i: int, n: int)
    requires
        0 <= n,
    ensures
        increasing_below(title_members(metas, i, n), n),
        forall|k: int| 0 <= k < title_members(metas, i, n).len() ==> title_key(metas, #[trigger] title_members(metas, i, n)[k])
            == title_key(metas, i) && title_key(metas, i) is Some,
    decreases n,
{
    if n > 0 {
        lemma_title_members_facts(metas, i, n - 1);
    }
}

fn title_key_exec(metas: &[Option<TrackMetadata>], i: usize) -> (r: Option<String>)
    ensures
        opt_str(r) == title_key(metas@, i as int),
{
    if i >= metas.len() {
        return None;
    }
    match &metas[i] {
        None => None,
        Some(m) => match &m.title {
            None => None,
            Some(t) => {
                let tc = chars_of(t.as_str());
                let tt = trimmed(tc.as_slice());
                if tt.len() == 0 {
                    return None;
                }
                let key = normalize(t.as_str());
                if chars_of(key.as_str()).len() == 0 {
                    None
                } else {
                    Some(key)
                }
            },
        },
    }
}

/// The title buckets of the files: each normalized title with the indices
/// of the files tagged with it, in file order. Files without tags, or whose
/// title is blank or normalizes to nothing, are in no bucket.
pub fn fuzzy_buckets(files: &[MediaFile], metas: &[Option<TrackMetadata>]) -> (r: Vec<(String, Vec<usize>)>)
    ensures
        buckets_view(r@) == buckets_spec(metas@, files@.len() as int),
        forall|b: int| 0 <= b < r@.len() ==> increasing_below(#[trigger] buckets_view(r@)[b].1, files@.len() as int),
{
    let n = files.len();
    let mut keys: Vec<Option<String>> = Vec::new();
    let mut i: usize = 0;
    while i < n
        invariant
            0 <= i <= n == files@.len(),
            keys@.len() == i,
            forall|k: int| 0 <= k < i ==> opt_str(#[trigger] keys@[k]) == title_key(metas@, k),
        decreases n - i,
    {
        keys.push(title_key_exec(metas, i));
        i = i + 1;
    }
    let ghost count = n as int;
    let mut out: Vec<(String, Vec<usize>)> = Vec::new();
    let mut i: usize = 0;
    while i < n
        invariant
            0 <= i <= n == files@.len(),
            count == n,
            keys@.len() == n,
            forall|k: int| 0 <= k < n ==> opt_str(#[trigger] keys@[k]) == title_key(metas@, k),
            buckets_view(out@) == Seq::new(
                bucket_leaders(metas@, i as int).len(),
                |b: int|
                    (
                        title_key(metas@, bucket_leaders(metas@, i as int)[b])->0,
                        title_members(metas@, bucket_leaders(metas@, i as int)[b], count),
                    ),
            ),
        decreases n - i,
    {
        let ghost before = buckets_view(out@);
        let ghost mut pushed = false;
        assert(opt_str(keys@[i as int]) == title_key(metas@, i as int));
        match &keys[i] {
            None => {},
            Some(key) => {
                let mut earlier = false;
                let mut j: usize = 0;
                while j < i
                    invariant
                        0 <= j <= i < n,
                        keys@.len() == n,
                        forall|k: int| 0 <= k < n ==> opt_str(#[trigger] keys@[k]) == title_key(metas@, k),
                        title_key(metas@, i as int) == Some(key@),
                        earlier == (title_members(metas@, i as int, j as int).len() > 0),
                    decreases i - j,
                {
                    assert(opt_str(keys@[j as int]) == title_key(metas@, j as int));
                    match &keys[j] {
                        Some(kj) => {
                            if str_eq(kj.as_str(), key.as_str()) {
                                earlier = true;
                            }
                        },
                        None => {},
                    }
                    j = j + 1;
                }
                if !earlier {
                    let mut members: Vec<usize> = Vec::new();
                    let mut j: usize = 0;
                    while j < n
                        invariant
                            0 <= j <= n,
                            i < n,
                            keys@.len() == n,
                            forall|k: int| 0 <= k < n ==> opt_str(#[trigger] keys@[k]) == title_key(metas@, k),
                            title_key(metas@, i as int) == Some(key@),
                            Seq::new(members@.len(), |k: int| members@[k] as int) == title_members(metas@, i as int, j as int),
                        decreases n - j,
                    {
                        let ghost mv = members@;
                        assert(opt_str(keys@[j as int]) == title_key(metas@, j as int));
                        match &keys[j] {
                            Some(kj) => {
                                if str_eq(kj.as_str(), key.as_str()) {
                                    members.push(j);
                                    assert(Seq::new(members@.len(), |k: int| members@[k] as int) =~= Seq::new(
                                        mv.len(),
                                        |k: int| mv[k] as int,
                                    ).push(j as int));
                                }
                            },
                            None => {},
                        }
                        j = j + 1;
                    }
                    let ghost entry = (key@, Seq::new(members@.len(), |k: int| members@[k] as int));
                    out.push((key.clone(), members));
                    proof {
                        pushed = true;
                        assert(buckets_view(out@) =~= before.push(entry));
                    }
                }
            },
        }
        proof {
            let l = bucket_leaders(metas@, i + 1);
            let l0 = bucket_leaders(metas@, i as int);
            assert(pushed == (title_key(metas@, i as int) is Some && title_members(metas@, i as int, i as int).len() == 0));
            if pushed {
                assert(l == l0.push(i as int));
            } else {
                assert(l == l0);
            }
            assert(buckets_view(out@) =~= Seq::new(
                l.len(),
                |b: int| (title_key(metas@, l[b])->0, title_members(metas@, l[b], count)),
            ));
        }
        i = i + 1;
    }
    proof {
        assert forall|b: int| 0 <= b < out@.len() implies increasing_below(#[trigger] buckets_view(out@)[b].1, n as int) by {
            let l = bucket_leaders(metas@, n as int);
            lemma_title_members_facts(metas@, l[b], n as int);
        }
    }
    out
}

/// Whether candidate `c` joins reference `r`, with its score: what the
/// comparison of their artists gave (`None` where it fell below the
/// threshold, or no comparison was given).
pub open spec fn match_at<S>(m: Seq<Vec<Option<S>>>, r: int, c: int) -> Option<S> {
    if 0 <= r < m.len() && 0 <= c < m[r]@.len() {
        m[r]@[c]
    } else {
        None
    }
}

/// The candidates that join reference `r`, in order, with their scores.
pub open spec fn joiners<S>(m: Seq<Vec<Option<S>>>, r: int, cs: Seq<int>) -> Seq<(int, S)>
    decreases cs.len(),
{
    if cs.len() == 0 {
        Seq::empty()
    } else {
        let j = joiners(m, r, cs.drop_last());
        match match_at(m, r, cs.last()) {
            Some(s) => j.push((cs.last(), s)),
            None => j,
        }
    }
}

/// The candidates that do not join reference `r`, in order.
pub open spec fn leftovers<S>(m: Seq<Vec<Option<S>>>, r: int, cs: Seq<int>) -> Seq<int>
    decreases cs.len(),
{
    if cs.len() == 0 {
        Seq::empty()
    } else {
        let l = leftovers(m, r, cs.drop_last());
        match match_at(m, r, cs.last()) {
            Some(_) => l,
            None => l.push(cs.last()),
        }
    }
}

/// Splitting candidates keeps each of them on exactly one side.
pub proof fn lemma_leftovers_len<S>(m: Seq<Vec<Option<S>>>, r: int, cs: Seq<int>)
    ensures
        leftovers(m, r, cs).len() + joiners(m, r, cs).len() == cs.len(),
    decreases cs.len(),
{
    if cs.len() > 0 {
        lemma_leftovers_len(m, r, cs.drop_last());
    }
}

proof fn lemma_split_candidates<S>(m: Seq<Vec<Option<S>>>, r: int, cs: Seq<int>)
    ensures
        leftovers(m, r, cs).len() + joiners(m, r, cs).len() == cs.len(),
        forall|k: int| 0 <= k < leftovers(m, r, cs).len() ==> cs.contains(#[trigger] leftovers(m, r, cs)[k]),
        forall|k: int| 0 <= k < joiners(m, r, cs).len() ==> cs.contains(#[trigger] joiners(m, r, cs)[k].0),
    decreases cs.len(),
{
    if cs.len() > 0 {
        lemma_split_candidates(m, r, cs.drop_last());
        let d = cs.drop_last();
        assert forall|k: int| 0 <= k < leftovers(m, r, cs).len() implies cs.contains(#[trigger] leftovers(m, r, cs)[k]) by {
            if k < leftovers(m, r, d).len() {
                let x = leftovers(m, r, d)[k];
                assert(d.contains(x));
                let w = choose|w: int| 0 <= w < d.len() && d[w] == x;
                assert(cs[w] == x);
            } else {
                assert(cs[cs.len() - 1] == cs.last());
            }
        }
        assert forall|k: int| 0 <= k < joiners(m, r, cs).len() implies cs.contains(#[trigger] joiners(m, r, cs)[k].0) by {
            if k < joiners(m, r, d).len() {
                let x = joiners(m, r, d)[k].0;
                assert(d.contains(x));
                let w = choose|w: int| 0 <= w < d.len() && d[w] == x;
                assert(cs[w] == x);
            } else {
                assert(cs[cs.len() - 1] == cs.last());
            }
        }
    }
}

/// Strictly increasing positions.
pub open spec fn increasing(v: Seq<int>) -> bool {
    forall|a: int, b: int| 0 <= a < b < v.len() ==> v[a] < v[b]
}

proof fn lemma_split_increasing<S>(m: Seq<Vec<Option<S>>>, r: int, cs: Seq<int>)
    requires
        increasing(cs),
    ensures
        increasing(leftovers(m, r, cs)),
        increasing(Seq::new(joiners(m, r, cs).len(), |k: int| joiners(m, r, cs)[k].0)),
        forall|k: int| 0 <= k < leftovers(m, r, cs).len() ==> cs.contains(#[trigger] leftovers(m, r, cs)[k]),
        forall|k: int| 0 <= k < joiners(m, r, cs).len() ==> cs.contains(#[trigger] joiners(m, r, cs)[k].0),
        leftovers(m, r, cs).len() + joiners(m, r, cs).len() == cs.len(),
    decreases cs.len(),
{
    lemma_split_candidates(m, r, cs);
    if cs.len() > 0 {
        let d = cs.drop_last();
        assert(increasing(d));
        lemma_split_increasing(m, r, d);
        let l = leftovers(m, r, cs);
        let l0 = leftovers(m, r, d);
        let j = joiners(m, r, cs);
        let j0 = joiners(m, r, d);
        assert forall|x: int| 0 <= x < l0.len() implies #[trigger] l0[x] < cs.last() by {
            assert(d.contains(l0[x]));
            let w = choose|w: int| 0 <= w < d.len() && d[w] == l0[x];
            assert(cs[w] == d[w]);
        }
        assert forall|x: int| 0 <= x < j0.len() implies #[trigger] j0[x].0 < cs.last() by {
            assert(d.contains(j0[x].0));
            let w = choose|w: int| 0 <= w < d.len() && d[w] == j0[x].0;
            assert(cs[w] == d[w]);
        }
        assert forall|a: int, b: int| 0 <= a < b < l.len() implies l[a] < l[b] by {
            if b < l0.len() {
            } else {
                assert(l[a] == l0[a]);
            }
        }
        let jp = Seq::new(j.len(), |k: int| j[k].0);
        let jp0 = Seq::new(j0.len(), |k: int| j0[k].0);
        assert forall|a: int, b: int| 0 <= a < b < jp.len() implies jp[a] < jp[b] by {
            if b < j0.len() {
                assert(jp[a] == jp0[a] && jp[b] == jp0[b]);
            } else {
                assert(jp[a] == j0[a].0);
            }
        }
    }
}

/// The clusters a bucket splits into: the first unassigned file is the
/// reference, the candidates that match it join it, and the rest are
/// clustered again; a cluster of one file is dropped. The reference scores
/// `one`.
pub open spec fn clusters_spec<S>(m: Seq<Vec<Option<S>>>, us: Seq<int>, one: S) -> Seq<Seq<(int, S)>>
    decreases us.len(),
{
    if us.len() <= 1 {
        Seq::empty()
    } else {
        let r = us[0];
        let rest = us.drop_first();
        let cl = seq![(r, one)] + joiners(m, r, rest);
        proof {
            lemma_leftovers_len(m, r, rest);
        }
        let tail = clusters_spec(m, leftovers(m, r, rest), one);
        if cl.len() >= 2 {
            seq![cl] + tail
        } else {
            tail
        }
    }
}

pub open spec fn positions<S>(cl: Seq<(int, S)>) -> Seq<int> {
    Seq::new(cl.len(), |k: int| cl[k].0)
}

/// Every cluster's positions increase and stay among the positions given.
proof fn lemma_clusters_increasing<S>(m: Seq<Vec<Option<S>>>, us: Seq<int>, one: S, n: int)
    requires
        increasing(us),
        forall|k: int| 0 <= k < us.len() ==> 0 <= #[trigger] us[k] < n,
    ensures
        forall|c: int| 0 <= c < clusters_spec(m, us, one).len() ==> increasing_below(
            #[trigger] positions(clusters_spec(m, us, one)[c]),
            n,
        ),
    decreases us.len(),
{
    if us.len() > 1 {
        let r = us[0];
        let rest = us.drop_first();
        assert(increasing(rest));
        lemma_split_increasing(m, r, rest);
        let l = leftovers(m, r, rest);
        assert forall|k: int| 0 <= k < l.len() implies 0 <= #[trigger] l[k] < n by {
            assert(rest.contains(l[k]));
        }
        lemma_clusters_increasing(m, l, one, n);
        let cl = seq![(r, one)] + joiners(m, r, rest);
        let j = joiners(m, r, rest);
        let jp = Seq::new(j.len(), |k: int| j[k].0);
        let p = positions(cl);
        assert forall|k: int| 0 <= k < p.len() implies 0 <= #[trigger] p[k] < n by {
            if k > 0 {
                assert(p[k] == j[k - 1].0);
                assert(rest.contains(j[k - 1].0));
            }
        }
        assert forall|a: int, b: int| 0 <= a < b < p.len() implies p[a] < p[b] by {
            assert(p[b] == j[b - 1].0);
            assert(rest.contains(j[b - 1].0));
            let w = choose|w: int| 0 <= w < rest.len() && rest[w] == j[b - 1].0;
            assert(us[w + 1] == rest[w]);
            if a > 0 {
                assert(p[a] == jp[a - 1] && p[b] == jp[b - 1]);
            }
        }
        let cs = clusters_spec(m, us, one);
        let tail = clusters_spec(m, l, one);
        assert forall|c: int| 0 <= c < cs.len() implies increasing_below(#[trigger] positions(cs[c]), n) by {
            if cl.len() >= 2 {
                if c > 0 {
                    assert(cs[c] == tail[c - 1]);
                }
            } else {
                assert(cs[c] == tail[c]);
            }
        }
    }
}

pub open spec fn cluster_view<S>(v: Seq<Vec<(usize, S)>>) -> Seq<Seq<(int, S)>> {
    Seq::new(v.len(), |c: int| Seq::new(v[c]@.len(), |k: int| (v[c]@[k].0 as int, v[c]@[k].1)))
}

pub open spec fn range_seq(n: int) -> Seq<int> {
    Seq::new(n as nat, |k: int| k)
}

fn lookup<S: Copy>(m: &Vec<Vec<Option<S>>>, r: usize, c: usize) -> (res: Option<S>)
    ensures
        res == match_at(m@, r as int, c as int),
{
    if r < m.len() && c < m[r].len() {
        m[r][c]
    } else {
        None
    }
}

/// The clusters that `count` files of a bucket split into, given which
/// candidate matches which reference and with what score.
pub fn cluster_bucket<S: Copy>(count: usize, m: &Vec<Vec<Option<S>>>, one: S) -> (r: Vec<Vec<(usize, S)>>)
    ensures
        cluster_view(r@) == clusters_spec(m@, range_seq(count as int), one),
{
    let mut unassigned: Vec<usize> = Vec::new();
    let mut k: usize = 0;
    while k < count
        invariant
            0 <= k <= count,
            unassigned@.len() == k,
            forall|x: int| 0 <= x < k ==> #[trigger] unassigned@[x] as int == x,
        decreases count - k,
    {
        unassigned.push(k);
        k = k + 1;
    }
    assert(Seq::new(unassigned@.len(), |x: int| unassigned@[x] as int) =~= range_seq(count as int));
    let ghost all = clusters_spec(m@, range_seq(count as int), one);
    let mut out: Vec<Vec<(usize, S)>> = Vec::new();
    while unassigned.len() > 1
        invariant
            cluster_view(out@) + clusters_spec(m@, Seq::new(unassigned@.len(), |x: int| unassigned@[x] as int), one) == all,
        decreases unassigned@.len(),
    {
        let ghost us = Seq::new(unassigned@.len(), |x: int| unassigned@[x] as int);
        let r = unassigned[0];
        let mut cluster: Vec<(usize, S)> = Vec::new();
        cluster.push((r, one));
        let mut leftover: Vec<usize> = Vec::new();
        let mut j: usize = 1;
        let ghost rest = us.drop_first();
        while j < unassigned.len()
            invariant
                1 <= j <= unassigned@.len(),
                us == Seq::new(unassigned@.len(), |x: int| unassigned@[x] as int),
                rest == us.drop_first(),
                r as int == us[0],
                Seq::new(cluster@.len(), |x: int| (cluster@[x].0 as int, cluster@[x].1)) == seq![(r as int, one)]
                    + joiners(m@, r as int, rest.subrange(0, j - 1)),
                Seq::new(leftover@.len(), |x: int| leftover@[x] as int) == leftovers(m@, r as int, rest.subrange(0, j - 1)),
            decreases unassigned@.len() - j,
        {
            let c = unassigned[j];
            let ghost cv = Seq::new(cluster@.len(), |x: int| (cluster@[x].0 as int, cluster@[x].1));
            let ghost lv = Seq::new(leftover@.len(), |x: int| leftover@[x] as int);
            proof {
                let p = rest.subrange(0, j as int);
                assert(p.drop_last() =~= rest.subrange(0, j - 1));
                assert(p.last() == c as int);
            }
            match lookup(m, r, c) {
                Some(sc) => {
                    cluster.push((c, sc));
                    assert(Seq::new(cluster@.len(), |x: int| (cluster@[x].0 as int, cluster@[x].1)) =~= cv.push((c as int, sc)));
                },
                None => {
                    leftover.push(c);
                    assert(Seq::new(leftover@.len(), |x: int| leftover@[x] as int) =~= lv.push(c as int));
                },
            }
            j = j + 1;
        }
        proof {
            assert(rest.subrange(0, j - 1) =~= rest);
            lemma_leftovers_len(m@, r as int, rest);
        }
        let ghost cl = Seq::new(cluster@.len(), |x: int| (cluster@[x].0 as int, cluster@[x].1));
        let ghost before = cluster_view(out@);
        unassigned = leftover;
        if cluster.len() >= 2 {
            out.push(cluster);
            proof {
                assert(cluster_view(out@) =~= before.push(cl));
                assert(before.push(cl) + clusters_spec(m@, Seq::new(unassigned@.len(), |x: int| unassigned@[x] as int), one)
                    =~= before + (seq![cl] + clusters_spec(m@, Seq::new(unassigned@.len(), |x: int| unassigned@[x] as int), one)));
            }
        }
    }
    proof {
        let us = Seq::new(unassigned@.len(), |x: int| unassigned@[x] as int);
        assert(clusters_spec(m@, us, one) =~= Seq::<Seq<(int, S)>>::empty());
        assert(cluster_view(out@) + Seq::<Seq<(int, S)>>::empty() =~= cluster_view(out@));
    }
    out
}

/// The sum of the sizes of the files at the given indices.
pub open spec fn sum_sizes(files: Seq<MediaFile>, idx: Seq<int>) -> nat
    decreases idx.len(),
{
    if idx.len() == 0 {
        0
    } else {
        sum_sizes(files, idx.drop_last()) + files[idx.last()].file_size as nat
    }
}

proof fn lemma_increasing_total(files: Seq<MediaFile>, idx: Seq<int>, n: int)
    requires
        0 <= n <= files.len(),
        increasing_below(idx, n),
    ensures
        sum_sizes(files, idx) <= total_media_size(files.subrange(0, n)),
    decreases n,
{
    if n > 0 {
        assert(files.subrange(0, n).drop_last() =~= files.subrange(0, n - 1));
        if idx.len() > 0 && idx.last() == n - 1 {
            let d = idx.drop_last();
            assert forall|k: int| 0 <= k < d.len() implies 0 <= #[trigger] d[k] < n - 1 by {
                assert(idx[k] < idx[idx.len() - 1]);
            }
            lemma_increasing_total(files, d, n - 1);
            assert(files.subrange(0, n).last() == files[n - 1]);
        } else {
            if idx.len() > 0 {
                assert forall|k: int| 0 <= k < idx.len() implies 0 <= #[trigger] idx[k] < n - 1 by {
                    if k < idx.len() - 1 {
                        assert(idx[k] < idx[idx.len() - 1]);
                    }
                }
            }
            lemma_increasing_total(files, idx, n - 1);
        }
    } else {
        if idx.len() > 0 {
            assert(0 <= idx[0] < n);
        }
    }
}

proof fn lemma_sum_sizes_view<S>(files: Seq<MediaFile>, metas: Seq<Option<TrackMetadata>>, idx: Seq<int>, scores: Seq<S>)
    requires
        scores.len() == idx.len(),
    ensures
        total_size(Seq::new(idx.len(), |k: int| dup_view(files[idx[k]], meta_at(metas, idx[k]), scores[k])))
            == sum_sizes(files, idx),
    decreases idx.len(),
{
    if idx.len() > 0 {
        lemma_sum_sizes_view(files, metas, idx.drop_last(), scores.drop_last());
        assert(Seq::new(idx.len(), |k: int| dup_view(files[idx[k]], meta_at(metas, idx[k]), scores[k])).drop_last()
            =~= Seq::new(
            idx.drop_last().len(),
            |k: int| dup_view(files[idx.drop_last()[k]], meta_at(metas, idx.drop_last()[k]), scores.drop_last()[k]),
        ));
    }
}

/// A title key with its spaces written as dashes, for a group id.
pub open spec fn dashes(s: Seq<char>) -> Seq<char> {
    Seq::new(s.len(), |i: int| if s[i] == ' ' { '-' } else { s[i] })
}

pub open spec fn fuzzy_id(key: Seq<char>, c: nat) -> Seq<char> {
    "fuzzy-"@ + dashes(key) + "-"@ + decimal(c)
}

pub open spec fn fuzzy_reason(count: nat, key: Seq<char>) -> Seq<char> {
    decimal(count) + " files tagged as \""@ + key + "\""@
}

/// The group a cluster of a bucket makes; `c` counts the clusters of the
/// bucket before it, so that ids are unique.
pub open spec fn fuzzy_group_spec<S>(
    files: Seq<MediaFile>,
    metas: Seq<Option<TrackMetadata>>,
    key: Seq<char>,
    members: Seq<int>,
    cl: Seq<(int, S)>,
    c: int,
) -> GroupView<S> {
    finish_view(
        fuzzy_id(key, c as nat),
        DuplicateMode::Fuzzy,
        fuzzy_reason(cl.len(), key),
        Seq::new(cl.len(), |k: int| dup_view(files[members[cl[k].0]], meta_at(metas, members[cl[k].0]), cl[k].1)),
    )
}

pub open spec fn matrix_at<S>(ms: Seq<Vec<Vec<Option<S>>>>, b: int) -> Seq<Vec<Option<S>>> {
    if 0 <= b < ms.len() {
        ms[b]@
    } else {
        Seq::empty()
    }
}

/// The groups of one title bucket, one per cluster.
pub open spec fn bucket_groups<S>(
    files: Seq<MediaFile>,
    metas: Seq<Option<TrackMetadata>>,
    key: Seq<char>,
    members: Seq<int>,
    m: Seq<Vec<Option<S>>>,
    one: S,
) -> Seq<GroupView<S>> {
    let cls = clusters_spec(m, range_seq(members.len() as int), one);
    Seq::new(cls.len(), |c: int| fuzzy_group_spec(files, metas, key, members, cls[c], c))
}

/// The groups of the first `n` buckets, bucket by bucket.
pub open spec fn all_fuzzy<S>(
    files: Seq<MediaFile>,
    metas: Seq<Option<TrackMetadata>>,
    bs: Seq<(Seq<char>, Seq<int>)>,
    ms: Seq<Vec<Vec<Option<S>>>>,
    one: S,
    n: int,
) -> Seq<GroupView<S>>
    decreases n,
{
    if n <= 0 {
        Seq::empty()
    } else {
        all_fuzzy(files, metas, bs, ms, one, n - 1) + bucket_groups(files, metas, bs[n - 1].0, bs[n - 1].1, matrix_at(ms, n - 1), one)
    }
}

/// Recordings matched on tags: each bucket of files with one normalized
/// title splits into clusters of files whose artists match, and each
/// cluster of at least two files is a group; the groups are ordered by
/// reclaimable bytes.
pub open spec fn fuzzy_groups_spec<S>(
    files: Seq<MediaFile>,
    metas: Seq<Option<TrackMetadata>>,
    bs: Seq<(Seq<char>, Seq<int>)>,
    ms: Seq<Vec<Vec<Option<S>>>>,
    one: S,
) -> Seq<GroupView<S>> {
    sort_by_waste(all_fuzzy(files, metas, bs, ms, one, bs.len() as int))
}

fn dashes_exec(key: &String) -> (r: Vec<char>)
    ensures
        r@ == dashes(key@),
{
    let kc = chars_of(key.as_str());
    let mut out: Vec<char> = Vec::new();
    let mut k: usize = 0;
    while k < kc.len()
        invariant
            0 <= k <= kc@.len(),
            kc@ == key@,
            out@ == dashes(kc@).subrange(0, k as int),
        decreases kc@.len() - k,
    {
        out.push(if kc[k] == ' ' { '-' } else { kc[k] });
        assert(out@ =~= dashes(kc@).subrange(0, k + 1));
        k = k + 1;
    }
    assert(dashes(kc@).subrange(0, k as int) =~= dashes(kc@));
    out
}

fn meta_ref(metas: &[Option<TrackMetadata>], i: usize) -> (r: Option<&TrackMetadata>)
    ensures
        deref_meta(r) == meta_at(metas@, i as int),
{
    if i < metas.len() {
        match &metas[i] {
            Some(t) => Some(t),
            None => None,
        }
    } else {
        None
    }
}

fn fuzzy_group<S: Copy>(
    files: &[MediaFile],
    metas: &[Option<TrackMetadata>],
    key: &String,
    members: &Vec<usize>,
    cl: &Vec<(usize, S)>,
    c: usize,
) -> (r: DuplicateGroup<S>)
    requires
        total_media_size(files@) <= u64::MAX,
        increasing_below(Seq::new(members@.len(), |k: int| members@[k] as int), files@.len() as int),
        increasing_below(Seq::new(cl@.len(), |k: int| cl@[k].0 as int), members@.len() as int),
    ensures
        group_view(r) == fuzzy_group_spec(
            files@,
            metas@,
            key@,
            Seq::new(members@.len(), |k: int| members@[k] as int),
            Seq::new(cl@.len(), |k: int| (cl@[k].0 as int, cl@[k].1)),
            c as int,
        ),
{
    let ghost mv = Seq::new(members@.len(), |k: int| members@[k] as int);
    let ghost clv = Seq::new(cl@.len(), |k: int| (cl@[k].0 as int, cl@[k].1));
    let ghost pos = Seq::new(cl@.len(), |k: int| cl@[k].0 as int);
    let ghost target = Seq::new(clv.len(), |k: int| dup_view(files@[mv[clv[k].0]], meta_at(metas@, mv[clv[k].0]), clv[k].1));
    let mut dups: Vec<DuplicateFile<S>> = Vec::new();
    let mut k: usize = 0;
    while k < cl.len()
        invariant
            0 <= k <= cl@.len(),
            mv == Seq::new(members@.len(), |x: int| members@[x] as int),
            clv == Seq::new(cl@.len(), |x: int| (cl@[x].0 as int, cl@[x].1)),
            pos == Seq::new(cl@.len(), |x: int| cl@[x].0 as int),
            target == Seq::new(clv.len(), |x: int| dup_view(files@[mv[clv[x].0]], meta_at(metas@, mv[clv[x].0]), clv[x].1)),
            increasing_below(mv, files@.len() as int),
            increasing_below(pos, members@.len() as int),
            files_view(dups@) == target.subrange(0, k as int),
        decreases cl@.len() - k,
    {
        let (p, sc) = cl[k];
        assert(pos[k as int] == p as int);
        let f = members[p];
        assert(mv[p as int] == f as int);
        let ghost before = files_view(dups@);
        let d = to_duplicate_file(&files[f], meta_ref(metas, f), sc);
        dups.push(d);
        assert(files_view(dups@) =~= before.push(file_view(d)));
        assert(target[k as int] == file_view(d));
        assert(files_view(dups@) =~= target.subrange(0, k + 1));
        k = k + 1;
    }
    proof {
        assert(target.subrange(0, k as int) =~= target);
        let idx = Seq::new(clv.len(), |x: int| mv[clv[x].0]);
        let scores = Seq::new(clv.len(), |x: int| clv[x].1);
        assert forall|x: int| 0 <= x < idx.len() implies 0 <= #[trigger] idx[x] < files@.len() by {
            assert(pos[x] == clv[x].0);
        }
        assert forall|a: int, b: int| 0 <= a < b < idx.len() implies idx[a] < idx[b] by {
            assert(pos[a] == clv[a].0 && pos[b] == clv[b].0);
        }
        lemma_increasing_total(files@, idx, files@.len() as int);
        assert(files@.subrange(0, files@.len() as int) =~= files@);
        lemma_sum_sizes_view(files@, metas@, idx, scores);
        assert(target =~= Seq::new(idx.len(), |x: int| dup_view(files@[idx[x]], meta_at(metas@, idx[x]), scores[x])));
    }
    let mut idv = chars_of("fuzzy-");
    let dk = dashes_exec(key);
    push_all(&mut idv, dk.as_slice());
    let dash = chars_of("-");
    push_all(&mut idv, dash.as_slice());
    let cn = format_u64(c as u64);
    push_all(&mut idv, cn.as_slice());
    let mut rv = format_u64(cl.len() as u64);
    let a = chars_of(" files tagged as \"");
    push_all(&mut rv, a.as_slice());
    let kc = chars_of(key.as_str());
    push_all(&mut rv, kc.as_slice());
    let q = chars_of("\"");
    push_all(&mut rv, q.as_slice());
    finish_group(string_from(idv.as_slice()), DuplicateMode::Fuzzy, string_from(rv.as_slice()), dups)
}

/// Same recording across different encodings, matched on tags.
///
/// `buckets` are the title buckets (what `fuzzy_buckets` gives); for each,
/// `matches` holds which candidate joins which reference when the artists
/// are compared, with the score (`None` below the threshold); a missing
/// entry counts as no match. Each reference scores `one`.
pub fn find_fuzzy_duplicates<S: Copy>(
    files: &[MediaFile],
    metas: &[Option<TrackMetadata>],
    buckets: &[(String, Vec<usize>)],
    matches: &[Vec<Vec<Option<S>>>],
    one: S,
) -> (r: Vec<DuplicateGroup<S>>)
    requires
        total_media_size(files@) <= u64::MAX,
        forall|b: int| 0 <= b < buckets@.len() ==> increasing_below(#[trigger] buckets_view(buckets@)[b].1, files@.len() as int),
    ensures
        groups_view(r@) == fuzzy_groups_spec(files@, metas@, buckets_view(buckets@), matches@, one),
{
    let ghost bs = buckets_view(buckets@);
    let mut groups: Vec<DuplicateGroup<S>> = Vec::new();
    let mut b: usize = 0;
    while b < buckets.len()
        invariant
            0 <= b <= buckets@.len(),
            bs == buckets_view(buckets@),
            total_media_size(files@) <= u64::MAX,
            forall|x: int| 0 <= x < buckets@.len() ==> increasing_below(#[trigger] bs[x].1, files@.len() as int),
            groups_view(groups@) == all_fuzzy(files@, metas@, bs, matches@, one, b as int),
        decreases buckets@.len() - b,
    {
        let key = &buckets[b].0;
        let members = &buckets[b].1;
        let empty: Vec<Vec<Option<S>>> = Vec::new();
        let m = if b < matches.len() { &matches[b] } else { &empty };
        assert(m@ == matrix_at(matches@, b as int));
        let cls = cluster_bucket(members.len(), m, one);
        let ghost mv = Seq::new(members@.len(), |k: int| members@[k] as int);
        assert(bs[b as int].1 == mv);
        assert(bs[b as int].0 == key@);
        let ghost cs = clusters_spec(m@, range_seq(members@.len() as int), one);
        proof {
            assert forall|k: int| 0 <= k < range_seq(members@.len() as int).len() implies 0 <= #[trigger] range_seq(
                members@.len() as int,
            )[k] < members@.len() by {}
            lemma_clusters_increasing(m@, range_seq(members@.len() as int), one, members@.len() as int);
        }
        let ghost base = groups_view(groups@);
        let mut c: usize = 0;
        while c < cls.len()
            invariant
                0 <= c <= cls@.len(),
                cluster_view(cls@) == cs,
                mv == Seq::new(members@.len(), |k: int| members@[k] as int),
                increasing_below(mv, files@.len() as int),
                total_media_size(files@) <= u64::MAX,
                forall|x: int| 0 <= x < cs.len() ==> increasing_below(#[trigger] positions(cs[x]), members@.len() as int),
                groups_view(groups@) == base + Seq::new(
                    c as nat,
                    |x: int| fuzzy_group_spec(files@, metas@, key@, mv, cs[x], x),
                ),
            decreases cls@.len() - c,
        {
            assert(cs[c as int] == Seq::new(cls@[c as int]@.len(), |k: int| (cls@[c as int]@[k].0 as int, cls@[c as int]@[k].1)));
            assert(positions(cs[c as int]) =~= Seq::new(cls@[c as int]@.len(), |k: int| cls@[c as int]@[k].0 as int));
            let g = fuzzy_group(files, metas, key, members, &cls[c], c);
            let ghost before = groups_view(groups@);
            groups.push(g);
            assert(groups_view(groups@) =~= before.push(group_view(g)));
            assert(groups_view(groups@) =~= base + Seq::new(
                (c + 1) as nat,
                |x: int| fuzzy_group_spec(files@, metas@, key@, mv, cs[x], x),
            ));
            c = c + 1;
        }
        assert(groups_view(groups@) =~= all_fuzzy(files@, metas@, bs, matches@, one, b + 1));
        b = b + 1;
    }
    sort_groups(groups)
}

proof fn lemma_first_kept_unique<S>(fs: Seq<FileView<S>>, b: int)
    requires
        0 <= b < fs.len(),
        fs[b].recommended_keep,
        forall|j: int| 0 <= j < fs.len() && j != b ==> !(#[trigger] fs[j]).recommended_keep,
    ensures
        first_kept(fs) == Some(b),
    decreases fs.len(),
{
    if b < fs.len() - 1 {
        let d = fs.drop_last();
        assert forall|j: int| 0 <= j < d.len() && j != b implies !(#[trigger] d[j]).recommended_keep by {
            assert(d[j] == fs[j]);
        }
        lemma_first_kept_unique(d, b);
    } else {
        let d = fs.drop_last();
        assert(first_kept(d) is None) by {
            lemma_no_kept(d);
        }
    }
}

proof fn lemma_no_kept<S>(fs: Seq<FileView<S>>)
    requires
        forall|j: int| 0 <= j < fs.len() ==> !(#[trigger] fs[j]).recommended_keep,
    ensures
        first_kept(fs) is None,
    decreases fs.len(),
{
    if fs.len() > 0 {
        let d = fs.drop_last();
        assert forall|j: int| 0 <= j < d.len() implies !(#[trigger] d[j]).recommended_keep by {
            assert(d[j] == fs[j]);
        }
        lemma_no_kept(d);
        assert(!fs[fs.len() - 1].recommended_keep);
    }
}

/// A finished group keeps exactly one copy, the one that ranks highest
/// (highest bitrate, then largest file, the last of equals), and counts
/// every byte of the other copies as reclaimable.
pub proof fn law_one_copy_kept<S>(id: Seq<char>, mode: DuplicateMode, reason: Seq<char>, fs: Seq<FileView<S>>)
    requires
        fs.len() > 0,
        forall|j: int| 0 <= j < fs.len() ==> !(#[trigger] fs[j]).recommended_keep,
        total_size(fs) <= u64::MAX,
    ensures
        ({
            let g = finish_view(id, mode, reason, fs);
            let b = best_index(fs);
            &&& 0 <= b < fs.len()
            &&& g.files.len() == fs.len()
            &&& forall|j: int| 0 <= j < fs.len() ==> ((#[trigger] g.files[j]).recommended_keep <==> j == b)
            &&& forall|j: int| 0 <= j < fs.len() ==> !ranks_below(fs[b], #[trigger] fs[j])
            &&& g.wasted_bytes == total_size(fs) - fs[b].file_size
        }),
{
    lemma_best_ranks_highest(fs);
    let b = best_index(fs);
    let m = mark_best(fs);
    lemma_total_size_update(fs, b, FileView { recommended_keep: true, ..fs[b] });
    assert forall|j: int| 0 <= j < m.len() && j != b implies !(#[trigger] m[j]).recommended_keep by {}
    lemma_first_kept_unique(m, b);
    lemma_kept_le_total(m);
}

/// Every group of identical files holds at least two files, all of one
/// non-zero size; the groups come ordered by reclaimable bytes.
pub proof fn law_exact_groups_are_copies<S>(files: Seq<MediaFile>, hashes: Seq<Option<String>>, one: S)
    ensures
        waste_sorted(exact_groups_spec(files, hashes, one)),
        forall|k: int| 0 <= k < exact_groups_spec(files, hashes, one).len() ==> {
            let g = #[trigger] exact_groups_spec(files, hashes, one)[k];
            &&& g.mode == DuplicateMode::Exact
            &&& g.files.len() >= 2
            &&& forall|a: int| 0 <= a < g.files.len() ==> (#[trigger] g.files[a]).file_size == g.files[0].file_size
                && g.files[a].file_size > 0
        },
{
    let leaders = exact_leaders(files, hashes, files.len() as int);
    let unsorted = Seq::new(leaders.len(), |k: int| exact_group_spec(files, hashes, one, leaders[k]));
    let sorted = exact_groups_spec(files, hashes, one);
    lemma_sort_by_waste(unsorted);
    lemma_leaders_facts(files, hashes, files.len() as int);
    assert forall|k: int| 0 <= k < sorted.len() implies {
        let g = #[trigger] sorted[k];
        &&& g.mode == DuplicateMode::Exact
        &&& g.files.len() >= 2
        &&& forall|a: int| 0 <= a < g.files.len() ==> (#[trigger] g.files[a]).file_size == g.files[0].file_size
            && g.files[a].file_size > 0
    } by {
        let g = sorted[k];
        sorted.to_multiset_ensures();
        unsorted.to_multiset_ensures();
        assert(sorted.contains(g));
        assert(unsorted.to_multiset().count(g) > 0);
        let w = choose|w: int| 0 <= w < unsorted.len() && unsorted[w] == g;
        let i = leaders[w];
        let members = copies_of(files, hashes, i, files.len() as int);
        lemma_copies_facts(files, hashes, i, files.len() as int);
        let fs = Seq::new(members.len(), |x: int| dup_view(files[members[x]], None, one));
        if fs.len() > 0 {
            lemma_best_ranks_highest(fs);
        }
        assert forall|a: int| 0 <= a < g.files.len() implies (#[trigger] g.files[a]).file_size == g.files[0].file_size
            && g.files[a].file_size > 0 by {
            assert(g.files[a].file_size == fs[a].file_size);
            assert(g.files[0].file_size == fs[0].file_size);
            assert(same_copy(files, hashes, i, members[a]));
            assert(same_copy(files, hashes, i, members[0]));
        }
    }
}

proof fn lemma_leaders_facts(files: Seq<MediaFile>, hashes: Seq<Option<String>>, n: int)
    requires
        0 <= n <= files.len(),
    ensures
        forall|k: int| 0 <= k < exact_leaders(files, hashes, n).len() ==> {
            let i = #[trigger] exact_leaders(files, hashes, n)[k];
            0 <= i < n && exact_leader(files, hashes, i)
        },
    decreases n,
{
    if n > 0 {
        lemma_leaders_facts(files, hashes, n - 1);
        let l = exact_leaders(files, hashes, n);
        let l0 = exact_leaders(files, hashes, n - 1);
        assert forall|k: int| 0 <= k < l.len() implies {
            let i = #[trigger] l[k];
            0 <= i < n && exact_leader(files, hashes, i)
        } by {
            if k < l0.len() {
                assert(l[k] == l0[k]);
            }
        }
    }
}

proof fn lemma_clusters_hold_two<S>(m: Seq<Vec<Option<S>>>, us: Seq<int>, one: S)
    ensures
        forall|c: int| 0 <= c < clusters_spec(m, us, one).len() ==> (#[trigger] clusters_spec(m, us, one)[c]).len() >= 2,
    decreases us.len(),
{
    if us.len() > 1 {
        let r = us[0];
        let rest = us.drop_first();
        lemma_leftovers_len(m, r, rest);
        let l = leftovers(m, r, rest);
        lemma_clusters_hold_two(m, l, one);
        let cl = seq![(r, one)] + joiners(m, r, rest);
        let cs = clusters_spec(m, us, one);
        let tail = clusters_spec(m, l, one);
        assert forall|c: int| 0 <= c < cs.len() implies (#[trigger] cs[c]).len() >= 2 by {
            if cl.len() >= 2 {
                if c > 0 {
                    assert(cs[c] == tail[c - 1]);
                }
            } else {
                assert(cs[c] == tail[c]);
            }
        }
    }
}

proof fn lemma_all_fuzzy_hold_two<S>(
    files: Seq<MediaFile>,
    metas: Seq<Option<TrackMetadata>>,
    bs: Seq<(Seq<char>, Seq<int>)>,
    ms: Seq<Vec<Vec<Option<S>>>>,
    one: S,
    n: int,
)
    ensures
        forall|k: int| 0 <= k < all_fuzzy(files, metas, bs, ms, one, n).len() ==> {
            let g = #[trigger] all_fuzzy(files, metas, bs, ms, one, n)[k];
            g.mode == DuplicateMode::Fuzzy && g.files.len() >= 2
        },
    decreases n,
{
    if n > 0 {
        lemma_all_fuzzy_hold_two(files, metas, bs, ms, one, n - 1);
        let a = all_fuzzy(files, metas, bs, ms, one, n - 1);
        let key = bs[n - 1].0;
        let members = bs[n - 1].1;
        let mm = matrix_at(ms, n - 1);
        let bg = bucket_groups(files, metas, key, members, mm, one);
        let cls = clusters_spec(mm, range_seq(members.len() as int), one);
        lemma_clusters_hold_two(mm, range_seq(members.len() as int), one);
        let all = all_fuzzy(files, metas, bs, ms, one, n);
        assert forall|k: int| 0 <= k < all.len() implies {
            let g = #[trigger] all[k];
            g.mode == DuplicateMode::Fuzzy && g.files.len() >= 2
        } by {
            if k < a.len() {
                assert(all[k] == a[k]);
            } else {
                let c = k - a.len();
                assert(all[k] == bg[c]);
                assert(cls[c].len() >= 2);
                assert(bg[c] == fuzzy_group_spec(files, metas, key, members, cls[c], c));
                let fs = Seq::new(
                    cls[c].len(),
                    |x: int| dup_view(files[members[cls[c][x].0]], meta_at(metas, members[cls[c][x].0]), cls[c][x].1),
                );
                lemma_best_ranks_highest(fs);
                assert(mark_best(fs).len() == fs.len());
            }
        }
    }
}

/// Every group of recordings matched on tags holds at least two files; the
/// groups come ordered by reclaimable bytes.
pub proof fn law_fuzzy_groups_hold_two<S>(
    files: Seq<MediaFile>,
    metas: Seq<Option<TrackMetadata>>,
    bs: Seq<(Seq<char>, Seq<int>)>,
    ms: Seq<Vec<Vec<Option<S>>>>,
    one: S,
)
    ensures
        waste_sorted(fuzzy_groups_spec(files, metas, bs, ms, one)),
        forall|k: int| 0 <= k < fuzzy_groups_spec(files, metas, bs, ms, one).len() ==> {
            let g = #[trigger] fuzzy_groups_spec(files, metas, bs, ms, one)[k];
            g.mode == DuplicateMode::Fuzzy && g.files.len() >= 2
        },
{
    let unsorted = all_fuzzy(files, metas, bs, ms, one, bs.len() as int);
    let sorted = fuzzy_groups_spec(files, metas, bs, ms, one);
    lemma_sort_by_waste(unsorted);
    lemma_all_fuzzy_hold_two(files, metas, bs, ms, one, bs.len() as int);
    assert forall|k: int| 0 <= k < sorted.len() implies {
        let g = #[trigger] sorted[k];
        g.mode == DuplicateMode::Fuzzy && g.files.len() >= 2
    } by {
        let g = sorted[k];
        sorted.to_multiset_ensures();
        unsorted.to_multiset_ensures();
        assert(sorted.contains(g));
        assert(unsorted.to_multiset().count(g) > 0);
        let w = choose|w: int| 0 <= w < unsorted.len() && unsorted[w] == g;
        assert(unsorted[w] == g);
    }
}

/// How far apart, in milliseconds, two files' durations may be and the
/// files still be compared by sound.
pub const DURATION_TOLERANCE_MS: i64 = 5000;

/// A file's indexed duration, zero when unknown.
pub open spec fn duration_of(f: MediaFile) -> int {
    match f.duration_ms {
        Some(d) => d as int,
        None => 0,
    }
}

/// `i` placed among file indices ordered by duration, after every file that
/// is not longer: a stable sort's insertion.
pub open spec fn insert_by_duration(files: Seq<MediaFile>, v: Seq<int>, i: int) -> Seq<int>
    decreases v.len(),
{
    if v.len() == 0 {
        seq![i]
    } else if duration_of(files[v.last()]) <= duration_of(files[i]) {
        v.push(i)
    } else {
        insert_by_duration(files, v.drop_last(), i).push(v.last())
    }
}

/// The files that have a duration, among the first `n`, ordered by
/// duration; files of equal duration keep their order.
pub open spec fn duration_order(files: Seq<MediaFile>, n: int) -> Seq<int>
    decreases n,
{
    if n <= 0 {
        Seq::empty()
    } else if files[n - 1].duration_ms is Some {
        insert_by_duration(files, duration_order(files, n - 1), n - 1)
    } else {
        duration_order(files, n - 1)
    }
}

pub open spec fn order_view(v: Seq<usize>) -> Seq<int> {
    Seq::new(v.len(), |k: int| v[k] as int)
}

pub open spec fn duration_sorted(files: Seq<MediaFile>, v: Seq<int>) -> bool {
    forall|a: int, b: int| 0 <= a < b < v.len() ==> duration_of(files[v[a]]) <= duration_of(files[v[b]])
}

/// The first position at or after `from` holding a longer file than `d`.
pub open spec fn first_longer(files: Seq<MediaFile>, v: Seq<int>, d: int, from: int) -> int
    decreases v.len() - from,
{
    if from >= v.len() || from < 0 {
        v.len() as int
    } else if duration_of(files[v[from]]) > d {
        from
    } else {
        first_longer(files, v, d, from + 1)
    }
}

proof fn lemma_first_longer(files: Seq<MediaFile>, v: Seq<int>, d: int, from: int)
    requires
        0 <= from <= v.len(),
        duration_sorted(files, v),
        forall|j: int| 0 <= j < from ==> duration_of(files[#[trigger] v[j]]) <= d,
    ensures
        from <= first_longer(files, v, d, from) <= v.len(),
        forall|j: int| 0 <= j < first_longer(files, v, d, from) ==> duration_of(files[#[trigger] v[j]]) <= d,
        forall|j: int| first_longer(files, v, d, from) <= j < v.len() ==> duration_of(files[#[trigger] v[j]]) > d,
    decreases v.len() - from,
{
    if from < v.len() && duration_of(files[v[from]]) <= d {
        lemma_first_longer(files, v, d, from + 1);
    }
}

proof fn lemma_insert_by_duration_at(files: Seq<MediaFile>, v: Seq<int>, i: int, p: int)
    requires
        0 <= p <= v.len(),
        forall|j: int| 0 <= j < p ==> duration_of(files[#[trigger] v[j]]) <= duration_of(files[i]),
        forall|j: int| p <= j < v.len() ==> duration_of(files[#[trigger] v[j]]) > duration_of(files[i]),
    ensures
        insert_by_duration(files, v, i) == v.insert(p, i),
    decreases v.len(),
{
    if v.len() == 0 {
        assert(v.insert(p, i) =~= seq![i]);
    } else if duration_of(files[v.last()]) <= duration_of(files[i]) {
        assert(p == v.len());
        assert(v.insert(p, i) =~= v.push(i));
    } else {
        let d = v.drop_last();
        assert forall|j: int| 0 <= j < p implies duration_of(files[#[trigger] d[j]]) <= duration_of(files[i]) by {
            assert(d[j] == v[j]);
        }
        assert forall|j: int| p <= j < d.len() implies duration_of(files[#[trigger] d[j]]) > duration_of(files[i]) by {
            assert(d[j] == v[j]);
        }
        lemma_insert_by_duration_at(files, d, i, p);
        assert(d.insert(p, i).push(v.last()) =~= v.insert(p, i));
    }
}

/// Indices without repeats, each below `n`.
pub open spec fn distinct_below(v: Seq<int>, n: int) -> bool {
    &&& forall|k: int| 0 <= k < v.len() ==> 0 <= #[trigger] v[k] < n
    &&& forall|a: int, b: int| 0 <= a < b < v.len() ==> v[a] != v[b]
}

proof fn lemma_duration_order(files: Seq<MediaFile>, n: int)
    requires
        0 <= n <= files.len(),
    ensures
        duration_sorted(files, duration_order(files, n)),
        distinct_below(duration_order(files, n), n),
        forall|k: int| 0 <= k < duration_order(files, n).len() ==> files[#[trigger] duration_order(files, n)[k]].duration_ms is Some,
    decreases n,
{
    if n > 0 {
        lemma_duration_order(files, n - 1);
        if files[n - 1].duration_ms is Some {
            let v = duration_order(files, n - 1);
            let i = n - 1;
            let p = first_longer(files, v, duration_of(files[i]), 0);
            lemma_first_longer(files, v, duration_of(files[i]), 0);
            lemma_insert_by_duration_at(files, v, i, p);
            let r = v.insert(p, i);
            assert forall|a: int, b: int| 0 <= a < b < r.len() implies duration_of(files[r[a]]) <= duration_of(files[r[b]]) by {
                if b < p {
                } else if b == p {
                } else if a < p {
                    assert(r[b] == v[b - 1]);
                } else if a == p {
                    assert(r[b] == v[b - 1]);
                } else {
                    assert(r[a] == v[a - 1] && r[b] == v[b - 1]);
                }
            }
            assert forall|k: int| 0 <= k < r.len() implies 0 <= #[trigger] r[k] < n by {
                if k > p {
                    assert(r[k] == v[k - 1]);
                }
            }
            assert forall|a: int, b: int| 0 <= a < b < r.len() implies r[a] != r[b] by {
                if a < p && b < p {
                } else if a < p && b == p {
                } else if a < p {
                    assert(r[b] == v[b - 1]);
                } else if a == p {
                    assert(r[b] == v[b - 1]);
                } else {
                    assert(r[a] == v[a - 1] && r[b] == v[b - 1]);
                }
            }
            assert forall|k: int| 0 <= k < r.len() implies files[#[trigger] r[k]].duration_ms is Some by {
                if k > p {
                    assert(r[k] == v[k - 1]);
                } else if k < p {
                }
            }
        }
    }
}

fn duration_u64(f: &MediaFile) -> (r: u64)
    ensures
        r == duration_of(*f),
{
    match f.duration_ms {
        Some(d) => d,
        None => 0,
    }
}

/// The files that can be compared by sound: those with an indexed
/// duration, ordered by duration, files of equal duration in file order.
pub fn acoustic_order(files: &[MediaFile]) -> (r: Vec<usize>)
    ensures
        order_view(r@) == duration_order(files@, files@.len() as int),
        distinct_below(order_view(r@), files@.len() as int),
{
    let mut out: Vec<usize> = Vec::new();
    let mut i: usize = 0;
    while i < files.len()
        invariant
            0 <= i <= files@.len(),
            order_view(out@) == duration_order(files@, i as int),
        decreases files@.len() - i,
    {
        proof {
            lemma_duration_order(files@, i as int);
        }
        if files[i].duration_ms.is_some() {
            let ghost v = order_view(out@);
            let di = duration_u64(&files[i]);
            assert forall|k: int| 0 <= k < out@.len() implies (#[trigger] out@[k] as int) < files@.len() by {
                assert(v[k] == out@[k] as int);
            }
            let mut p: usize = 0;
            while p < out.len() && duration_u64(&files[out[p]]) <= di
                invariant
                    0 <= p <= out@.len(),
                    v == order_view(out@),
                    distinct_below(v, i as int),
                    forall|k: int| 0 <= k < out@.len() ==> (#[trigger] out@[k] as int) < files@.len(),
                    i < files@.len(),
                    di == duration_of(files@[i as int]),
                    forall|j: int| 0 <= j < p ==> duration_of(files@[#[trigger] v[j]]) <= di,
                decreases out@.len() - p,
            {
                assert(v[p as int] == out@[p as int] as int);
                p = p + 1;
            }
            proof {
                lemma_first_longer(files@, v, di as int, p as int);
                if p < out@.len() {
                    assert(v[p as int] == out@[p as int] as int);
                    assert(first_longer(files@, v, di as int, p as int) == p);
                }
                lemma_insert_by_duration_at(files@, v, i as int, p as int);
            }
            out.insert(p, i);
            assert(order_view(out@) =~= v.insert(p as int, i as int));
        }
        i = i + 1;
    }
    proof {
        lemma_duration_order(files@, files@.len() as int);
    }
    out
}

/// Whether the fingerprint of the file at position `p` of the order could
/// be computed.
pub open spec fn fp_at(fp: Seq<bool>, p: int) -> bool {
    0 <= p < fp.len() && fp[p]
}

/// How the file at position `j` compares by sound with the reference at
/// position `i < j`: its similarity when it reaches the threshold, else
/// `None`. `ms[i]` lists the comparisons with the positions after `i`.
pub open spec fn sound_match<S>(ms: Seq<Vec<Option<S>>>, i: int, j: int) -> Option<S> {
    if 0 <= i < ms.len() && 0 <= j - i - 1 < ms[i]@.len() {
        ms[i]@[j - i - 1]
    } else {
        None
    }
}

pub open spec fn dur_at(files: Seq<MediaFile>, order: Seq<int>, p: int) -> int {
    duration_of(files[order[p]])
}

/// The candidates that join reference `i`, from position `j` on: files
/// not yet grouped, within the duration tolerance (the order is by
/// duration, so the first file beyond it ends the search), fingerprinted,
/// and similar enough.
pub open spec fn scan_sound<S>(
    files: Seq<MediaFile>,
    order: Seq<int>,
    fp: Seq<bool>,
    ms: Seq<Vec<Option<S>>>,
    i: int,
    j: int,
    visited: Seq<bool>,
    cl: Seq<(int, S)>,
) -> (Seq<bool>, Seq<(int, S)>)
    decreases order.len() - j,
{
    if j < 0 || j >= order.len() {
        (visited, cl)
    } else if visited[j] {
        scan_sound(files, order, fp, ms, i, j + 1, visited, cl)
    } else if dur_at(files, order, j) - dur_at(files, order, i) > DURATION_TOLERANCE_MS {
        (visited, cl)
    } else if !fp_at(fp, j) {
        scan_sound(files, order, fp, ms, i, j + 1, visited, cl)
    } else {
        match sound_match(ms, i, j) {
            Some(s) => scan_sound(files, order, fp, ms, i, j + 1, visited.update(j, true), cl.push((j, s))),
            None => scan_sound(files, order, fp, ms, i, j + 1, visited, cl),
        }
    }
}

pub open spec fn acoustic_reason(count: nat) -> Seq<char> {
    decimal(count) + " files sound like the same recording"@
}

/// The group of a cluster of positions, the reference first.
pub open spec fn acoustic_group_spec<S>(files: Seq<MediaFile>, order: Seq<int>, cl: Seq<(int, S)>) -> GroupView<S> {
    finish_view(
        "acoustic-"@ + files[order[cl[0].0]].id@ + "-"@ + decimal(cl.len()),
        DuplicateMode::Acoustic,
        acoustic_reason(cl.len()),
        Seq::new(cl.len(), |k: int| dup_view(files[order[cl[k].0]], None, cl[k].1)),
    )
}

/// The groups found from position `i` on: each file not yet grouped and
/// fingerprinted is a reference, and the files that join it form a group
/// when there is at least one.
pub open spec fn sound_run<S>(
    files: Seq<MediaFile>,
    order: Seq<int>,
    fp: Seq<bool>,
    ms: Seq<Vec<Option<S>>>,
    one: S,
    i: int,
    visited: Seq<bool>,
    gs: Seq<GroupView<S>>,
) -> Seq<GroupView<S>>
    decreases order.len() - i,
{
    if i < 0 || i >= order.len() {
        gs
    } else if visited[i] || !fp_at(fp, i) {
        sound_run(files, order, fp, ms, one, i + 1, visited, gs)
    } else {
        let (v2, cl) = scan_sound(files, order, fp, ms, i, i + 1, visited, seq![(i, one)]);
        sound_run(
            files,
            order,
            fp,
            ms,
            one,
            i + 1,
            v2.update(i, true),
            if cl.len() >= 2 { gs.push(acoustic_group_spec(files, order, cl)) } else { gs },
        )
    }
}

/// Recordings matched by sound, the groups ordered by reclaimable bytes.
pub open spec fn acoustic_groups_spec<S>(
    files: Seq<MediaFile>,
    order: Seq<int>,
    fp: Seq<bool>,
    ms: Seq<Vec<Option<S>>>,
    one: S,
) -> Seq<GroupView<S>> {
    sort_by_waste(sound_run(files, order, fp, ms, one, 0, Seq::new(order.len(), |k: int| false), Seq::empty()))
}

proof fn lemma_sum_remove(files: Seq<MediaFile>, idx: Seq<int>, p: int)
    requires
        0 <= p < idx.len(),
    ensures
        sum_sizes(files, idx) == sum_sizes(files, idx.remove(p)) + files[idx[p]].file_size as nat,
    decreases idx.len(),
{
    if p < idx.len() - 1 {
        lemma_sum_remove(files, idx.drop_last(), p);
        assert(idx.remove(p).drop_last() =~= idx.drop_last().remove(p));
        assert(idx.remove(p).last() == idx.last());
    } else {
        assert(idx.remove(p) =~= idx.drop_last());
    }
}

proof fn lemma_distinct_total(files: Seq<MediaFile>, idx: Seq<int>, n: int)
    requires
        0 <= n <= files.len(),
        distinct_below(idx, n),
    ensures
        sum_sizes(files, idx) <= total_media_size(files.subrange(0, n)),
    decreases n,
{
    if n > 0 {
        assert(files.subrange(0, n).drop_last() =~= files.subrange(0, n - 1));
        assert(files.subrange(0, n).last() == files[n - 1]);
        if idx.contains(n - 1) {
            let p = choose|p: int| 0 <= p < idx.len() && idx[p] == n - 1;
            let rest = idx.remove(p);
            lemma_sum_remove(files, idx, p);
            assert forall|k: int| 0 <= k < rest.len() implies 0 <= #[trigger] rest[k] < n - 1 by {
                if k < p {
                    assert(rest[k] == idx[k]);
                } else {
                    assert(rest[k] == idx[k + 1]);
                }
            }
            assert forall|a: int, b: int| 0 <= a < b < rest.len() implies rest[a] != rest[b] by {
                let ia = if a < p { a } else { a + 1 };
                let ib = if b < p { b } else { b + 1 };
                assert(rest[a] == idx[ia] && rest[b] == idx[ib]);
            }
            lemma_distinct_total(files, rest, n - 1);
        } else {
            assert forall|k: int| 0 <= k < idx.len() implies 0 <= #[trigger] idx[k] < n - 1 by {
                if idx[k] == n - 1 {
                    assert(idx.contains(n - 1));
                }
            }
            lemma_distinct_total(files, idx, n - 1);
        }
    } else {
        if idx.len() > 0 {
            assert(0 <= idx[0] < n);
        }
    }
}

fn lookup_sound<S: Copy>(ms: &[Vec<Option<S>>], i: usize, j: usize) -> (r: Option<S>)
    requires
        i < j,
    ensures
        r == sound_match(ms@, i as int, j as int),
{
    if i < ms.len() && j - i - 1 < ms[i].len() {
        ms[i][j - i - 1]
    } else {
        None
    }
}

fn fp_exec(fp: &[bool], p: usize) -> (r: bool)
    ensures
        r == fp_at(fp@, p as int),
{
    p < fp.len() && fp[p]
}

/// The positions of a cluster, first the reference, then increasing.
pub open spec fn cluster_ok<S>(cl: Seq<(int, S)>, i: int, j: int) -> bool {
    &&& cl.len() >= 1
    &&& cl[0].0 == i
    &&& forall|a: int, b: int| 0 <= a < b < cl.len() ==> cl[a].0 < cl[b].0
    &&& forall|k: int| 0 <= k < cl.len() ==> i <= #[trigger] cl[k].0 < j
}

proof fn lemma_scan_keeps_cluster_ok<S>(
    files: Seq<MediaFile>,
    order: Seq<int>,
    fp: Seq<bool>,
    ms: Seq<Vec<Option<S>>>,
    i: int,
    j: int,
    visited: Seq<bool>,
    cl: Seq<(int, S)>,
)
    requires
        0 <= i < j,
        j <= order.len(),
        visited.len() == order.len(),
        cluster_ok(cl, i, j),
    ensures
        cluster_ok(scan_sound(files, order, fp, ms, i, j, visited, cl).1, i, order.len() as int),
        scan_sound(files, order, fp, ms, i, j, visited, cl).0.len() == order.len(),
    decreases order.len() - j,
{
    if j < order.len() {
        if visited[j] {
            lemma_scan_keeps_cluster_ok(files, order, fp, ms, i, j + 1, visited, cl);
        } else if dur_at(files, order, j) - dur_at(files, order, i) > DURATION_TOLERANCE_MS {
        } else if !fp_at(fp, j) {
            lemma_scan_keeps_cluster_ok(files, order, fp, ms, i, j + 1, visited, cl);
        } else {
            match sound_match(ms, i, j) {
                Some(s) => {
                    let c2 = cl.push((j, s));
                    assert forall|a: int, b: int| 0 <= a < b < c2.len() implies c2[a].0 < c2[b].0 by {
                        if b < cl.len() {
                        } else {
                            assert(c2[a] == cl[a]);
                        }
                    }
                    assert forall|k: int| 0 <= k < c2.len() implies i <= #[trigger] c2[k].0 < j + 1 by {
                        if k < cl.len() {
                            assert(c2[k] == cl[k]);
                        }
                    }
                    lemma_scan_keeps_cluster_ok(files, order, fp, ms, i, j + 1, visited.update(j, true), c2);
                },
                None => {
                    lemma_scan_keeps_cluster_ok(files, order, fp, ms, i, j + 1, visited, cl);
                },
            }
        }
    }
}

fn acoustic_group<S: Copy>(files: &[MediaFile], order: &[usize], cl: &Vec<(usize, S)>) -> (r: DuplicateGroup<S>)
    requires
        total_media_size(files@) <= u64::MAX,
        distinct_below(order_view(order@), files@.len() as int),
        cluster_ok(Seq::new(cl@.len(), |k: int| (cl@[k].0 as int, cl@[k].1)), cl@[0].0 as int, order@.len() as int),
    ensures
        group_view(r) == acoustic_group_spec(files@, order_view(order@), Seq::new(cl@.len(), |k: int| (cl@[k].0 as int, cl@[k].1))),
{
    let ghost ov = order_view(order@);
    let ghost clv = Seq::new(cl@.len(), |k: int| (cl@[k].0 as int, cl@[k].1));
    let ghost target = Seq::new(clv.len(), |k: int| dup_view(files@[ov[clv[k].0]], None, clv[k].1));
    let mut dups: Vec<DuplicateFile<S>> = Vec::new();
    let mut k: usize = 0;
    while k < cl.len()
        invariant
            0 <= k <= cl@.len(),
            ov == order_view(order@),
            clv == Seq::new(cl@.len(), |x: int| (cl@[x].0 as int, cl@[x].1)),
            target == Seq::new(clv.len(), |x: int| dup_view(files@[ov[clv[x].0]], None, clv[x].1)),
            distinct_below(ov, files@.len() as int),
            cluster_ok(clv, clv[0].0, order@.len() as int),
            files_view(dups@) == target.subrange(0, k as int),
        decreases cl@.len() - k,
    {
        let (p, sc) = cl[k];
        assert(clv[k as int] == (p as int, sc));
        assert(0 <= clv[k as int].0 < order@.len());
        assert(ov[p as int] == order@[p as int] as int);
        let ghost before = files_view(dups@);
        let d = to_duplicate_file(&files[order[p]], None, sc);
        dups.push(d);
        assert(files_view(dups@) =~= before.push(file_view(d)));
        assert(files_view(dups@) =~= target.subrange(0, k + 1));
        k = k + 1;
    }
    proof {
        assert(target.subrange(0, k as int) =~= target);
        let idx = Seq::new(clv.len(), |x: int| ov[clv[x].0]);
        let scores = Seq::new(clv.len(), |x: int| clv[x].1);
        assert forall|x: int| 0 <= x < idx.len() implies 0 <= #[trigger] idx[x] < files@.len() by {
            assert(0 <= clv[x].0 < order@.len());
        }
        assert forall|a: int, b: int| 0 <= a < b < idx.len() implies idx[a] != idx[b] by {
            assert(clv[a].0 < clv[b].0);
            assert(0 <= clv[a].0 < order@.len() && 0 <= clv[b].0 < order@.len());
        }
        lemma_distinct_total(files@, idx, files@.len() as int);
        assert(files@.subrange(0, files@.len() as int) =~= files@);
        lemma_sum_sizes_view(files@, Seq::<Option<TrackMetadata>>::empty(), idx, scores);
        assert forall|x: int| 0 <= x < idx.len() implies #[trigger] meta_at(Seq::<Option<TrackMetadata>>::empty(), idx[x]) is None by {}
        assert(target =~= Seq::new(
            idx.len(),
            |x: int| dup_view(files@[idx[x]], meta_at(Seq::<Option<TrackMetadata>>::empty(), idx[x]), scores[x]),
        ));
    }
    let r = order[cl[0].0];
    let mut idv = chars_of("acoustic-");
    let fid = chars_of(files[r].id.as_str());
    push_all(&mut idv, fid.as_slice());
    let dash = chars_of("-");
    push_all(&mut idv, dash.as_slice());
    let cn = format_u64(cl.len() as u64);
    push_all(&mut idv, cn.as_slice());
    let mut rv = format_u64(cl.len() as u64);
    let tail = chars_of(" files sound like the same recording");
    push_all(&mut rv, tail.as_slice());
    finish_group(string_from(idv.as_slice()), DuplicateMode::Acoustic, string_from(rv.as_slice()), dups)
}

/// Same recording by audio content, regardless of tags or encoding.
///
/// `order` holds the files that can be compared, by duration (what
/// `acoustic_order` gives); `fingerprinted` tells, position by position,
/// whether a fingerprint could be computed; `matches[i]` tells how each
/// later position compares with position `i` (its similarity when it
/// reaches the threshold, else `None`; a missing entry counts as no match).
/// Each reference scores `one`.
pub fn find_acoustic_duplicates<S: Copy>(
    files: &[MediaFile],
    order: &[usize],
    fingerprinted: &[bool],
    matches: &[Vec<Option<S>>],
    one: S,
) -> (r: Vec<DuplicateGroup<S>>)
    requires
        total_media_size(files@) <= u64::MAX,
        distinct_below(order_view(order@), files@.len() as int),
    ensures
        groups_view(r@) == acoustic_groups_spec(files@, order_view(order@), fingerprinted@, matches@, one),
{
    let ghost ov = order_view(order@);
    let n = order.len();
    let mut visited: Vec<bool> = Vec::new();
    let mut k: usize = 0;
    while k < n
        invariant
            0 <= k <= n,
            visited@ == Seq::new(k as nat, |x: int| false),
        decreases n - k,
    {
        visited.push(false);
        assert(visited@ =~= Seq::new((k + 1) as nat, |x: int| false));
        k = k + 1;
    }
    let ghost total = sound_run(files@, ov, fingerprinted@, matches@, one, 0, visited@, Seq::empty());
    let mut groups: Vec<DuplicateGroup<S>> = Vec::new();
    assert(groups_view(groups@) =~= Seq::<GroupView<S>>::empty());
    let mut i: usize = 0;
    while i < n
        invariant
            0 <= i <= n == order@.len(),
            ov == order_view(order@),
            visited@.len() == n,
            total_media_size(files@) <= u64::MAX,
            distinct_below(ov, files@.len() as int),
            sound_run(files@, ov, fingerprinted@, matches@, one, i as int, visited@, groups_view(groups@)) == total,
        decreases n - i,
    {
        assert(ov[i as int] == order@[i as int] as int);
        if visited[i] || !fp_exec(fingerprinted, i) {
            i = i + 1;
        } else {
            let mut cl: Vec<(usize, S)> = Vec::new();
            cl.push((i, one));
            let di = duration_u64(&files[order[i]]);
            let ghost v0 = visited@;
            let ghost c0 = seq![(i as int, one)];
            assert(Seq::new(cl@.len(), |x: int| (cl@[x].0 as int, cl@[x].1)) =~= c0);
            let ghost result = scan_sound(files@, ov, fingerprinted@, matches@, i as int, i + 1, v0, c0);
            proof {
                lemma_scan_keeps_cluster_ok(files@, ov, fingerprinted@, matches@, i as int, i + 1, v0, c0);
            }
            let mut j = i + 1;
            let mut stop = false;
            while j < n && !stop
                invariant
                    i < j <= n == order@.len(),
                    ov == order_view(order@),
                    visited@.len() == n,
                    distinct_below(ov, files@.len() as int),
                    di == dur_at(files@, ov, i as int),
                    stop ==> result == (visited@, Seq::new(cl@.len(), |x: int| (cl@[x].0 as int, cl@[x].1))),
                    !stop ==> scan_sound(
                        files@,
                        ov,
                        fingerprinted@,
                        matches@,
                        i as int,
                        j as int,
                        visited@,
                        Seq::new(cl@.len(), |x: int| (cl@[x].0 as int, cl@[x].1)),
                    ) == result,
                decreases n - j + (if stop { 0int } else { 1int }),
            {
                let ghost cv = Seq::new(cl@.len(), |x: int| (cl@[x].0 as int, cl@[x].1));
                assert(ov[j as int] == order@[j as int] as int);
                if visited[j] {
                    j = j + 1;
                } else {
                    let dj = duration_u64(&files[order[j]]);
                    if dj > di && dj - di > 5000 {
                        stop = true;
                    } else if !fp_exec(fingerprinted, j) {
                        j = j + 1;
                    } else {
                        match lookup_sound(matches, i, j) {
                            Some(sc) => {
                                cl.push((j, sc));
                                visited.set(j, true);
                                assert(Seq::new(cl@.len(), |x: int| (cl@[x].0 as int, cl@[x].1)) =~= cv.push((j as int, sc)));
                            },
                            None => {},
                        }
                        j = j + 1;
                    }
                }
            }
            proof {
                if !stop {
                    assert(result == (visited@, Seq::new(cl@.len(), |x: int| (cl@[x].0 as int, cl@[x].1))));
                }
            }
            let ghost gv = groups_view(groups@);
            visited.set(i, true);
            if cl.len() >= 2 {
                let g = acoustic_group(files, order, &cl);
                groups.push(g);
                assert(groups_view(groups@) =~= gv.push(group_view(g)));
            }
            i = i + 1;
        }
    }
    sort_groups(groups)
}

pub open spec fn skipped_message(path: Seq<char>) -> Seq<char> {
    "Skipped "@ + path + " \u{2014} no duration indexed, rescan the library to fix this"@
}

/// The warnings for the files that cannot be compared by sound, one per
/// file without an indexed duration, in file order.
pub open spec fn skipped_spec(files: Seq<MediaFile>, n: int) -> Seq<Seq<char>>
    decreases n,
{
    if n <= 0 {
        Seq::empty()
    } else if files[n - 1].duration_ms is None {
        skipped_spec(files, n - 1).push(skipped_message(files[n - 1].path@))
    } else {
        skipped_spec(files, n - 1)
    }
}

pub fn skipped_warnings(files: &[MediaFile]) -> (r: Vec<String>)
    ensures
        strs(r@) == skipped_spec(files@, files@.len() as int),
{
    let mut out: Vec<String> = Vec::new();
    let mut i: usize = 0;
    while i < files.len()
        invariant
            0 <= i <= files@.len(),
            strs(out@) == skipped_spec(files@, i as int),
        decreases files@.len() - i,
    {
        if files[i].duration_ms.is_none() {
            let mut v = chars_of("Skipped ");
            let p = chars_of(files[i].path.as_str());
            push_all(&mut v, p.as_slice());
            let t = chars_of(" \u{2014} no duration indexed, rescan the library to fix this");
            push_all(&mut v, t.as_slice());
            let ghost before = out@;
            let w = string_from(v.as_slice());
            out.push(w);
            assert(strs(out@) =~= strs(before).push(w@));
        }
        i = i + 1;
    }
    out
}

/// Whether the files' sizes add up within 64 bits, as grouping needs.
pub fn sizes_fit(files: &[MediaFile]) -> (r: bool)
    ensures
        r == (total_media_size(files@) <= u64::MAX),
{
    let mut total: u64 = 0;
    let mut i: usize = 0;
    while i < files.len()
        invariant
            0 <= i <= files@.len(),
            total == total_media_size(files@.subrange(0, i as int)),
        decreases files@.len() - i,
    {
        assert(files@.subrange(0, i + 1).drop_last() =~= files@.subrange(0, i as int));
        if files[i].file_size > u64::MAX - total {
            proof {
                lemma_media_prefix(files@, i + 1);
            }
            return false;
        }
        total = total + files[i].file_size;
        i = i + 1;
    }
    assert(files@.subrange(0, i as int) =~= files@);
    true
}

/// Whether a report over these groups can be counted: the files within
/// the machine's word, the reclaimable bytes within 64 bits.
pub fn report_fits<S>(groups: &[DuplicateGroup<S>]) -> (r: bool)
    ensures
        r == (total_group_files(groups_view(groups@)) <= usize::MAX && total_waste(groups_view(groups@)) <= u64::MAX),
{
    let ghost gv = groups_view(groups@);
    let mut files: usize = 0;
    let mut bytes: u64 = 0;
    let mut k: usize = 0;
    while k < groups.len()
        invariant
            0 <= k <= groups@.len(),
            gv == groups_view(groups@),
            files == total_group_files(gv.subrange(0, k as int)),
            bytes == total_waste(gv.subrange(0, k as int)),
        decreases groups@.len() - k,
    {
        assert(gv.subrange(0, k + 1).drop_last() =~= gv.subrange(0, k as int));
        let n = groups[k].files.len();
        let w = groups[k].wasted_bytes;
        if n > usize::MAX - files || w > u64::MAX - bytes {
            proof {
                lemma_totals_prefix(gv, k + 1);
            }
            return false;
        }
        files = files + n;
        bytes = bytes + w;
        k = k + 1;
    }
    assert(gv.subrange(0, k as int) =~= gv);
    true
}

/// A character of a normalised word: a letter or digit, not a space.
pub open spec fn word_char(c: char) -> bool {
    !is_ws(c) && alphanumeric(c)
}

pub open spec fn good_word(w: Seq<char>) -> bool {
    w.len() > 0 && forall|j: int| 0 <= j < w.len() ==> word_char(#[trigger] w[j])
}

/// Words of letters and digits joined by single spaces.
pub open spec fn spaced_words(r: Seq<char>) -> bool {
    &&& forall|i: int| 0 <= i < r.len() ==> (r[i] == ' ' || word_char(#[trigger] r[i]))
    &&& r.len() > 0 ==> word_char(r[0]) && word_char(r.last())
    &&& forall|i: int| 0 <= i < r.len() - 1 && #[trigger] r[i] == ' ' ==> word_char(r[i + 1])
}

proof fn lemma_words_from_good(s: Seq<char>, cur: Seq<char>)
    requires
        forall|i: int| 0 <= i < s.len() ==> is_ws(#[trigger] s[i]) || alphanumeric(s[i]),
        forall|j: int| 0 <= j < cur.len() ==> word_char(#[trigger] cur[j]),
    ensures
        forall|k: int| 0 <= k < crate::text::words_from(s, cur).len() ==> good_word(#[trigger] crate::text::words_from(s, cur)[k]),
    decreases s.len(),
{
    if s.len() > 0 {
        let t = s.drop_first();
        assert forall|i: int| 0 <= i < t.len() implies is_ws(#[trigger] t[i]) || alphanumeric(t[i]) by {
            assert(t[i] == s[i + 1]);
        }
        if is_ws(s[0]) {
            lemma_words_from_good(t, Seq::empty());
            let pre: Seq<Seq<char>> = if cur.len() > 0 { seq![cur] } else { Seq::empty() };
            let rest = crate::text::words_from(t, Seq::empty());
            let all = crate::text::words_from(s, cur);
            assert(all == pre + rest);
            assert forall|k: int| 0 <= k < all.len() implies good_word(#[trigger] all[k]) by {
                if k < pre.len() {
                    assert(all[k] == cur);
                } else {
                    assert(all[k] == rest[k - pre.len()]);
                    assert(good_word(rest[k - pre.len()]));
                }
            }
            assert(forall|k: int| 0 <= k < all.len() ==> good_word(#[trigger] all[k]));
        } else {
            let c2 = cur.push(s[0]);
            assert(is_ws(s[0]) || alphanumeric(s[0]));
            assert forall|j: int| 0 <= j < c2.len() implies word_char(#[trigger] c2[j]) by {
                if j < cur.len() {
                    assert(c2[j] == cur[j]);
                }
            }
            lemma_words_from_good(t, c2);
            assert(crate::text::words_from(s, cur) == crate::text::words_from(t, c2));
        }
    } else if cur.len() > 0 {
        assert(crate::text::words_from(s, cur) == seq![cur]);
        assert(good_word(cur));
    }
}

proof fn lemma_join_spaced(parts: Seq<Seq<char>>)
    requires
        forall|k: int| 0 <= k < parts.len() ==> good_word(#[trigger] parts[k]),
    ensures
        spaced_words(join(parts, " "@)),
        parts.len() > 0 ==> join(parts, " "@).len() > 0,
    decreases parts.len(),
{
    if parts.len() == 1 {
        assert(good_word(parts[0]));
    } else if parts.len() > 1 {
        let init = parts.drop_last();
        assert forall|k: int| 0 <= k < init.len() implies good_word(#[trigger] init[k]) by {
            assert(init[k] == parts[k]);
        }
        lemma_join_spaced(init);
        let a = join(init, " "@);
        let w = parts.last();
        assert(good_word(parts[parts.len() - 1]));
        let r = join(parts, " "@);
        assert(r == a + " "@ + w);
        assert(" "@.len() == 1 && " "@[0] == ' ') by {
            reveal_strlit(" ");
        }
        assert(!word_char(' '));
        assert forall|i: int| 0 <= i < r.len() implies (r[i] == ' ' || word_char(#[trigger] r[i])) by {
            if i < a.len() {
                assert(r[i] == a[i]);
            } else if i > a.len() {
                assert(r[i] == w[i - a.len() - 1]);
            }
        }
        assert(r[0] == a[0]);
        assert(r.last() == w[w.len() - 1]);
        assert forall|i: int| 0 <= i < r.len() - 1 && #[trigger] r[i] == ' ' implies word_char(r[i + 1]) by {
            if i < a.len() - 1 {
                assert(r[i] == a[i] && r[i + 1] == a[i + 1]);
            } else if i == a.len() - 1 {
                assert(r[i] == a.last());
            } else if i == a.len() {
                assert(r[i + 1] == w[0]);
            } else {
                assert(r[i] == w[i - a.len() - 1]);
            }
        }
    }
}

/// A normalised key is words of letters and digits joined by single
/// spaces: no punctuation, no space at either end and none doubled.
pub proof fn law_normalized_keys_are_spaced_words(value: Seq<char>)
    ensures
        spaced_words(normalize_spec(value)),
{
    let s = strip_leading_the(strip_bracket_suffixes(lowercase(value)));
    let p = punctuation_to_spaces(s);
    assert(" "@.len() == 1 && " "@[0] == ' ') by {
        reveal_strlit(" ");
    }
    assert forall|i: int| 0 <= i < p.len() implies is_ws(#[trigger] p[i]) || alphanumeric(p[i]) by {}
    lemma_words_from_good(p, Seq::empty());
    lemma_join_spaced(words(p));
}

} // verus!
