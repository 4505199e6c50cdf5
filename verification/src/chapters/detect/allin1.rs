//! The `allin1` structure analyser: which program to run.
use vstd::prelude::*;

use crate::chapters::vorbis::split_on_exec;
use crate::chapters::{Chapter, ChapterView};
use crate::renamer::template::split_on;
use crate::text::{
    chars_of, decimal, format_u64, join, join_parts, push_all, string_from, to_uppercase, trim, trimmed,
    uppercase, vecs_view,
};

verus! {

/// Whether the analyser can be run, as a check of it reported.
#[derive(Debug, Clone)]
pub struct Allin1Status {
    pub available: bool,
    pub found: bool,
    pub path: String,
    pub error: Option<String>,
}

/// The program to run: the stored path, trimmed, when one is set and not
/// blank; else `allin1` from the search path.
pub open spec fn allin1_path_spec(stored: Option<Seq<char>>) -> Seq<char> {
    match stored {
        Some(s) => if trim(s).len() > 0 { trim(s) } else { "allin1"@ },
        None => "allin1"@,
    }
}

pub fn resolve_allin1_path(stored: Option<String>) -> (r: String)
    ensures
        r@ == allin1_path_spec(match stored {
            Some(s) => Some(s@),
            None => None,
        }),
{
    match stored {
        Some(s) => {
            let t = trimmed(chars_of(s.as_str()).as_slice());
            if t.len() > 0 {
                string_from(t.as_slice())
            } else {
                String::from_str("allin1")
            }
        },
        None => String::from_str("allin1"),
    }
}

/// A label with its first character in upper case.
pub open spec fn capitalize_spec(s: Seq<char>) -> Seq<char> {
    if s.len() == 0 {
        Seq::empty()
    } else {
        uppercase(seq![s[0]]) + s.drop_first()
    }
}

pub fn capitalize(s: &str) -> (r: String)
    ensures
        r@ == capitalize_spec(s@),
{
    let c = chars_of(s);
    if c.len() == 0 {
        return String::new();
    }
    let mut first: Vec<char> = Vec::new();
    first.push(c[0]);
    let up = to_uppercase(string_from(first.as_slice()).as_str());
    let mut out = chars_of(up.as_str());
    let rest = crate::text::slice_range(c.as_slice(), 1, c.len());
    push_all(&mut out, rest.as_slice());
    assert(first@ =~= seq![c@[0]]);
    assert(c@.subrange(1, c@.len() as int) =~= c@.drop_first());
    string_from(out.as_slice())
}

/// A section the analyser found, with its times in milliseconds.
#[derive(Debug, Clone)]
pub struct Segment {
    pub start_ms: u64,
    pub end_ms: u64,
    pub label: String,
}

/// The sections as chapters, numbered from `chp1`, titled by their
/// capitalised labels.
pub fn segment_chapters(segments: &Vec<Segment>) -> (r: Vec<Chapter>)
    ensures
        r@.len() == segments@.len(),
        forall|i: int|
            0 <= i < segments@.len() ==> {
                &&& (#[trigger] r@[i]).id@ == "chp"@ + decimal((i + 1) as nat)
                &&& r@[i].title@ == capitalize_spec(segments@[i].label@)
                &&& r@[i].start_ms == segments@[i].start_ms
                &&& r@[i].end_ms == segments@[i].end_ms
            },
{
    let mut out: Vec<Chapter> = Vec::new();
    let mut k: usize = 0;
    while k < segments.len()
        invariant
            0 <= k <= segments@.len(),
            out@.len() == k,
            forall|i: int|
                0 <= i < k ==> {
                    &&& (#[trigger] out@[i]).id@ == "chp"@ + decimal((i + 1) as nat)
                    &&& out@[i].title@ == capitalize_spec(segments@[i].label@)
                    &&& out@[i].start_ms == segments@[i].start_ms
                    &&& out@[i].end_ms == segments@[i].end_ms
                },
        decreases segments@.len() - k,
    {
        let seg = &segments[k];
        let mut id = chars_of("chp");
        let n = format_u64(k as u64 + 1);
        push_all(&mut id, n.as_slice());
        out.push(Chapter {
            id: string_from(id.as_slice()),
            title: capitalize(seg.label.as_str()),
            start_ms: seg.start_ms,
            end_ms: seg.end_ms,
        });
        k = k + 1;
    }
    out
}

/// A line without the carriage return of a `\r\n` ending.
pub open spec fn strip_cr(l: Seq<char>) -> Seq<char> {
    if l.len() > 0 && l.last() == '\r' {
        l.drop_last()
    } else {
        l
    }
}

/// The lines of a text as `str::lines` gives them: split at `\n`, each
/// `\r\n` ending removed, the final line ending optional.
pub open spec fn text_lines(s: Seq<char>) -> Seq<Seq<char>> {
    let parts = split_on(s, '\n');
    let body = Seq::new((parts.len() - 1) as nat, |i: int| strip_cr(parts[i]));
    if parts.last().len() == 0 {
        body
    } else {
        body.push(parts.last())
    }
}

/// The last five lines of a tool's error output, joined by `\n`.
pub open spec fn output_tail(s: Seq<char>) -> Seq<char> {
    let lines = text_lines(s);
    let last = if lines.len() <= 5 {
        lines
    } else {
        lines.subrange(lines.len() - 5, lines.len() as int)
    };
    join(last, "\n"@)
}

proof fn lemma_split_on_nonempty(s: Seq<char>, sep: char)
    ensures
        split_on(s, sep).len() >= 1,
    decreases s.len(),
{
    if s.len() > 0 {
        lemma_split_on_nonempty(s.drop_last(), sep);
    }
}

fn strip_cr_exec(l: &Vec<char>) -> (r: Vec<char>)
    ensures
        r@ == strip_cr(l@),
{
    if l.len() > 0 && l[l.len() - 1] == '\r' {
        crate::text::slice_range(l.as_slice(), 0, l.len() - 1)
    } else {
        crate::text::slice_range(l.as_slice(), 0, l.len())
    }
}

pub fn tail_lines(s: &str) -> (r: String)
    ensures
        r@ == output_tail(s@),
{
    let c = chars_of(s);
    let parts = split_on_exec(c.as_slice(), '\n');
    proof {
        lemma_split_on_nonempty(c@, '\n');
    }
    let ghost pv = vecs_view(parts@);
    let n = parts.len();
    let mut lines: Vec<Vec<char>> = Vec::new();
    let mut k: usize = 0;
    while k + 1 < n
        invariant
            n == parts@.len(),
            n >= 1,
            pv == vecs_view(parts@),
            pv == split_on(c@, '\n'),
            0 <= k < n,
            vecs_view(lines@) == Seq::new(k as nat, |i: int| strip_cr(pv[i])),
        decreases n - k,
    {
        let ghost before = lines@;
        let l = strip_cr_exec(&parts[k]);
        assert(pv[k as int] == parts@[k as int]@);
        lines.push(l);
        assert(lines@ == before.push(l));
        assert(vecs_view(lines@) =~= vecs_view(before).push(l@));
        assert(vecs_view(lines@) =~= Seq::new((k + 1) as nat, |i: int| strip_cr(pv[i])));
        k = k + 1;
    }
    assert(k + 1 == n);
    assert(pv[n - 1] == parts@[n - 1]@);
    assert(pv.last() == pv[n - 1]);
    if parts[n - 1].len() > 0 {
        let ghost before = lines@;
        let last = crate::text::slice_range(parts[n - 1].as_slice(), 0, parts[n - 1].len());
        assert(parts@[n - 1]@.subrange(0, parts@[n - 1]@.len() as int) =~= parts@[n - 1]@);
        lines.push(last);
        assert(lines@ == before.push(last));
        assert(vecs_view(lines@) =~= vecs_view(before).push(last@));
    }
    assert(vecs_view(lines@) =~= text_lines(c@));
    let total = lines.len();
    let from: usize = if total <= 5 { 0 } else { total - 5 };
    let mut kept: Vec<Vec<char>> = Vec::new();
    let mut j: usize = from;
    while j < total
        invariant
            from <= j <= total,
            total == lines@.len(),
            vecs_view(kept@) == vecs_view(lines@).subrange(from as int, j as int),
        decreases total - j,
    {
        let ghost before = kept@;
        let x = crate::text::slice_range(lines[j].as_slice(), 0, lines[j].len());
        assert(lines@[j as int]@.subrange(0, lines@[j as int]@.len() as int) =~= lines@[j as int]@);
        kept.push(x);
        assert(kept@ == before.push(x));
        assert(vecs_view(kept@) =~= vecs_view(before).push(x@));
        assert(vecs_view(kept@) =~= vecs_view(lines@).subrange(from as int, j + 1));
        j = j + 1;
    }
    assert(vecs_view(lines@) =~= text_lines(c@));
    assert(vecs_view(kept@) =~= (if text_lines(c@).len() <= 5 {
        text_lines(c@)
    } else {
        text_lines(c@).subrange(text_lines(c@).len() - 5, text_lines(c@).len() as int)
    }));
    let sep = chars_of("\n");
    let joined = join_parts(kept.as_slice(), kept.len(), sep.as_slice());
    assert(vecs_view(kept@).subrange(0, kept@.len() as int) =~= vecs_view(kept@));
    string_from(joined.as_slice())
}

/// How running the analyser with `--help` went.
#[derive(Debug, Clone)]
pub enum Allin1Run {
    /// The program could not be started.
    NotStarted(String),
    /// The program ran: whether it succeeded, its error output, and its
    /// exit status as the system describes it.
    Exited { success: bool, stderr: String, status: String },
}

/// What a check of the analyser reports: available when it ran and
/// succeeded; when it ran and failed, the end of its error output (or its
/// exit status when that is blank); when it could not start, why.
pub open spec fn allin1_status_spec(path: Seq<char>, run: Allin1Run, r: Allin1Status) -> bool {
    &&& r.path@ == path
    &&& match run {
        Allin1Run::NotStarted(e) => !r.available && !r.found && r.error == Some(e),
        Allin1Run::Exited { success, stderr, status } => r.found && r.available == success && if success {
            r.error is None
        } else {
            r.error matches Some(m) && m@ == (if trim(output_tail(stderr@)).len() == 0 {
                "exited with status "@ + status@
            } else {
                output_tail(stderr@)
            })
        },
    }
}

pub fn allin1_status(path: &str, run: Allin1Run) -> (r: Allin1Status)
    ensures
        allin1_status_spec(path@, run, r),
{
    let ghost g = run;
    match run {
        Allin1Run::NotStarted(e) => Allin1Status {
            available: false,
            found: false,
            path: String::from_str(path),
            error: Some(e),
        },
        Allin1Run::Exited { success, stderr, status } => {
            if success {
                Allin1Status { available: true, found: true, path: String::from_str(path), error: None }
            } else {
                let tail = tail_lines(stderr.as_str());
                let t = trimmed(chars_of(tail.as_str()).as_slice());
                let error = if t.len() == 0 {
                    let mut m = chars_of("exited with status ");
                    push_all(&mut m, chars_of(status.as_str()).as_slice());
                    string_from(m.as_slice())
                } else {
                    tail
                };
                Allin1Status { available: false, found: true, path: String::from_str(path), error: Some(error) }
            }
        },
    }
}

} // verus!
