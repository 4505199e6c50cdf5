//! Batch edits: one operation applied to one tag field across many files.
use vstd::prelude::*;

use crate::book::comicinfo::{split_items, split_items_spec};
use crate::models::book::strs;
use crate::models::track::TrackMetadata;
use crate::text::{
    chars_of, decimal, format_i64, format_u64, join, occurs_at, occurs_at_exec, parse_i32,
    parse_signed, parse_u32, parse_unsigned, push_all, signed_decimal, str_eq, string_from,
    to_lowercase, trim, trimmed,
};

verus! {

/// What to do to one field across the selected files.
#[derive(Debug, Clone)]
pub enum FieldOp {
    /// Overwrite with a fixed value.
    Overwrite { value: String },
    /// Clear the field.
    Clear,
    /// Substring replace within the existing value.
    Replace { find: String, replace: String },
    /// Number the files in the order they were supplied, starting at `start`.
    Enumerate { start: u32 },
}

#[derive(Debug, Clone)]
pub struct BatchEdit {
    /// Field name, matching the lowercase `TrackMetadata` keys.
    pub field: String,
    pub op: FieldOp,
}

#[derive(Debug, Clone)]
pub struct BatchPreviewEntry {
    pub path: String,
    pub field: String,
    pub before: String,
    pub after: String,
    pub changed: bool,
}

#[derive(Debug, Clone)]
pub struct BatchResult {
    pub path: String,
    pub success: bool,
    pub error: Option<String>,
}

pub open spec fn opt_text(o: Option<String>) -> Seq<char> {
    match o {
        Some(s) => s@,
        None => Seq::empty(),
    }
}

pub open spec fn opt_num(o: Option<u32>) -> Seq<char> {
    match o {
        Some(n) => decimal(n as nat),
        None => Seq::empty(),
    }
}

pub open spec fn opt_list(o: Option<Vec<String>>) -> Seq<char> {
    match o {
        Some(v) => join(strs(v@), "; "@),
        None => Seq::empty(),
    }
}

/// A field's value as text; list fields joined with `"; "`, unknown fields
/// and unset values empty.
pub open spec fn read_field_spec(m: TrackMetadata, field: Seq<char>) -> Seq<char> {
    if field == "title"@ {
        opt_text(m.title)
    } else if field == "artist"@ {
        opt_text(m.artist)
    } else if field == "albumartist"@ {
        opt_text(m.album_artist)
    } else if field == "album"@ {
        opt_text(m.album)
    } else if field == "tracknumber"@ {
        opt_num(m.track_number)
    } else if field == "totaltracks"@ {
        opt_num(m.total_tracks)
    } else if field == "discnumber"@ {
        opt_num(m.disc_number)
    } else if field == "totaldiscs"@ {
        opt_num(m.total_discs)
    } else if field == "year"@ {
        match m.year {
            Some(y) => signed_decimal(y as int),
            None => Seq::empty(),
        }
    } else if field == "date"@ {
        opt_text(m.date)
    } else if field == "comment"@ {
        opt_text(m.comment)
    } else if field == "isrc"@ {
        opt_text(m.isrc)
    } else if field == "genre"@ {
        opt_list(m.genre)
    } else if field == "composer"@ {
        opt_list(m.composer)
    } else {
        Seq::empty()
    }
}

fn text_of(o: &Option<String>) -> (r: String)
    ensures
        r@ == opt_text(*o),
{
    match o {
        Some(s) => s.clone(),
        None => String::new(),
    }
}

fn num_of(o: Option<u32>) -> (r: String)
    ensures
        r@ == opt_num(o),
{
    match o {
        Some(n) => string_from(format_u64(n as u64).as_slice()),
        None => String::new(),
    }
}

fn list_of(o: &Option<Vec<String>>) -> (r: String)
    ensures
        r@ == opt_list(*o),
{
    match o {
        Some(v) => {
            let mut parts: Vec<Vec<char>> = Vec::new();
            let mut k: usize = 0;
            while k < v.len()
                invariant
                    0 <= k <= v@.len(),
                    crate::text::vecs_view(parts@) == strs(v@).subrange(0, k as int),
                decreases v@.len() - k,
            {
                let ghost before = parts@;
                let c = chars_of(v[k].as_str());
                parts.push(c);
                assert(parts@ == before.push(c));
                assert(crate::text::vecs_view(parts@) =~= crate::text::vecs_view(before).push(v@[k as int]@));
                assert(crate::text::vecs_view(parts@) =~= strs(v@).subrange(0, k + 1));
                k = k + 1;
            }
            assert(crate::text::vecs_view(parts@) =~= strs(v@));
            let sep = chars_of("; ");
            let j = crate::text::join_parts(parts.as_slice(), parts.len(), sep.as_slice());
            assert(crate::text::vecs_view(parts@).subrange(0, parts@.len() as int) =~= crate::text::vecs_view(parts@));
            string_from(j.as_slice())
        },
        None => String::new(),
    }
}

/// A field's current value as text.
pub fn read_field(metadata: &TrackMetadata, field: &str) -> (r: String)
    ensures
        r@ == read_field_spec(*metadata, field@),
{
    if str_eq(field, "title") {
        text_of(&metadata.title)
    } else if str_eq(field, "artist") {
        text_of(&metadata.artist)
    } else if str_eq(field, "albumartist") {
        text_of(&metadata.album_artist)
    } else if str_eq(field, "album") {
        text_of(&metadata.album)
    } else if str_eq(field, "tracknumber") {
        num_of(metadata.track_number)
    } else if str_eq(field, "totaltracks") {
        num_of(metadata.total_tracks)
    } else if str_eq(field, "discnumber") {
        num_of(metadata.disc_number)
    } else if str_eq(field, "totaldiscs") {
        num_of(metadata.total_discs)
    } else if str_eq(field, "year") {
        match metadata.year {
            Some(y) => string_from(format_i64(y as i64).as_slice()),
            None => String::new(),
        }
    } else if str_eq(field, "date") {
        text_of(&metadata.date)
    } else if str_eq(field, "comment") {
        text_of(&metadata.comment)
    } else if str_eq(field, "isrc") {
        text_of(&metadata.isrc)
    } else if str_eq(field, "genre") {
        list_of(&metadata.genre)
    } else if str_eq(field, "composer") {
        list_of(&metadata.composer)
    } else {
        String::new()
    }
}

/// `s` with every occurrence of `find`, scanning left to right without
/// overlap, replaced by `rep`.
pub open spec fn replace_spec(s: Seq<char>, find: Seq<char>, rep: Seq<char>) -> Seq<char>
    decreases s.len(),
{
    if s.len() == 0 || find.len() == 0 {
        s
    } else if occurs_at(s, find, 0) {
        rep + replace_spec(s.subrange(find.len() as int, s.len() as int), find, rep)
    } else {
        seq![s[0]] + replace_spec(s.drop_first(), find, rep)
    }
}

pub(crate) fn replace_exec(s: &[char], find: &[char], rep: &[char]) -> (r: Vec<char>)
    requires
        find@.len() > 0,
    ensures
        r@ == replace_spec(s@, find@, rep@),
{
    let n = s.len();
    let mut out: Vec<char> = Vec::new();
    let mut i: usize = 0;
    assert(s@.subrange(0, n as int) =~= s@);
    while i < n
        invariant
            n == s@.len(),
            i <= n,
            find@.len() > 0,
            out@ + replace_spec(s@.subrange(i as int, n as int), find@, rep@) == replace_spec(s@, find@, rep@),
        decreases n - i,
    {
        let ghost t = s@.subrange(i as int, n as int);
        let ghost before = out@;
        if occurs_at_exec(s, find, i) {
            assert(t.subrange(0, find@.len() as int) =~= s@.subrange(i as int, i + find@.len()));
            assert(t.subrange(find@.len() as int, t.len() as int) =~= s@.subrange(i + find@.len(), n as int));
            push_all(&mut out, rep);
            i = i + find.len();
        } else {
            assert(!occurs_at(t, find@, 0)) by {
                if find@.len() <= t.len() {
                    assert(t.subrange(0, find@.len() as int) =~= s@.subrange(i as int, i + find@.len()));
                }
            }
            assert(t.drop_first() =~= s@.subrange(i + 1, n as int));
            out.push(s[i]);
            assert(out@ =~= before + seq![t[0]]);
            i = i + 1;
        }
    }
    out
}

/// The value an operation produces for the file at position `index`.
pub open spec fn apply_op_spec(current: Seq<char>, op: FieldOp, index: nat) -> Seq<char> {
    match op {
        FieldOp::Overwrite { value } => value@,
        FieldOp::Clear => Seq::empty(),
        FieldOp::Replace { find, replace } => if find@.len() == 0 {
            current
        } else {
            replace_spec(current, find@, replace@)
        },
        FieldOp::Enumerate { start } => decimal(start as nat + index),
    }
}

pub open spec fn op_fits(op: FieldOp, index: nat) -> bool {
    match op {
        FieldOp::Enumerate { start } => start as nat + index <= usize::MAX,
        _ => true,
    }
}

/// The new value of a field, from its current value, the operation and the
/// file's position in the selection.
pub fn apply_op(current: &str, op: &FieldOp, index: usize) -> (r: String)
    requires
        op_fits(*op, index as nat),
    ensures
        r@ == apply_op_spec(current@, *op, index as nat),
{
    match op {
        FieldOp::Overwrite { value } => value.clone(),
        FieldOp::Clear => String::new(),
        FieldOp::Replace { find, replace } => {
            let f = chars_of(find.as_str());
            if f.len() == 0 {
                return string_from(chars_of(current).as_slice());
            }
            let c = chars_of(current);
            let rp = chars_of(replace.as_str());
            string_from(replace_exec(c.as_slice(), f.as_slice(), rp.as_slice()).as_slice())
        },
        FieldOp::Enumerate { start } => {
            let n = *start as usize + index;
            string_from(format_u64(n as u64).as_slice())
        },
    }
}


pub open spec fn text_field(value: Seq<char>) -> Option<Seq<char>> {
    if trim(value).len() == 0 { None } else { Some(trim(value)) }
}

pub open spec fn opt_seq(o: Option<String>) -> Option<Seq<char>> {
    match o {
        Some(s) => Some(s@),
        None => None,
    }
}

pub open spec fn number_field(value: Seq<char>) -> Option<u32> {
    match text_field(value) {
        Some(t) => crate::book::comicinfo::u32_field(trim(t)),
        None => None,
    }
}

pub open spec fn list_field(value: Seq<char>) -> Option<Seq<Seq<char>>> {
    match text_field(value) {
        Some(t) => Some(split_items_spec(t, ';')),
        None => None,
    }
}

pub open spec fn opt_strs(o: Option<Vec<String>>) -> Option<Seq<Seq<char>>> {
    match o {
        Some(v) => Some(strs(v@)),
        None => None,
    }
}

pub open spec fn known_field(f: Seq<char>) -> bool {
    f == "title"@ || f == "artist"@ || f == "albumartist"@ || f == "album"@ || f == "date"@ || f
        == "comment"@ || f == "isrc"@ || f == "tracknumber"@ || f == "totaltracks"@ || f
        == "discnumber"@ || f == "totaldiscs"@ || f == "year"@ || f == "genre"@ || f == "composer"@
}

/// `new` is `old` with `field` set from `value`: text fields take the
/// trimmed value (none when blank), numeric fields its number (none when it
/// does not parse), list fields its `;`-separated items; nothing else changes.
pub open spec fn field_written(old: TrackMetadata, new: TrackMetadata, f: Seq<char>, value: Seq<char>) -> bool {
    if f == "title"@ {
        opt_seq(new.title) == text_field(value) && new == TrackMetadata { title: new.title, ..old }
    } else if f == "artist"@ {
        opt_seq(new.artist) == text_field(value) && new == TrackMetadata { artist: new.artist, ..old }
    } else if f == "albumartist"@ {
        opt_seq(new.album_artist) == text_field(value) && new == TrackMetadata {
            album_artist: new.album_artist,
            ..old
        }
    } else if f == "album"@ {
        opt_seq(new.album) == text_field(value) && new == TrackMetadata { album: new.album, ..old }
    } else if f == "date"@ {
        opt_seq(new.date) == text_field(value) && new == TrackMetadata { date: new.date, ..old }
    } else if f == "comment"@ {
        opt_seq(new.comment) == text_field(value) && new == TrackMetadata { comment: new.comment, ..old }
    } else if f == "isrc"@ {
        opt_seq(new.isrc) == text_field(value) && new == TrackMetadata { isrc: new.isrc, ..old }
    } else if f == "tracknumber"@ {
        new == TrackMetadata { track_number: number_field(value), ..old }
    } else if f == "totaltracks"@ {
        new == TrackMetadata { total_tracks: number_field(value), ..old }
    } else if f == "discnumber"@ {
        new == TrackMetadata { disc_number: number_field(value), ..old }
    } else if f == "totaldiscs"@ {
        new == TrackMetadata { total_discs: number_field(value), ..old }
    } else if f == "year"@ {
        new == TrackMetadata {
            year: match text_field(value) {
                Some(t) => crate::book::comicinfo::i32_field(trim(t)),
                None => None,
            },
            ..old
        }
    } else if f == "genre"@ {
        opt_strs(new.genre) == list_field(value) && new == TrackMetadata { genre: new.genre, ..old }
    } else if f == "composer"@ {
        opt_strs(new.composer) == list_field(value) && new == TrackMetadata { composer: new.composer, ..old }
    } else {
        new == old
    }
}

pub open spec fn unknown_field_message(f: Seq<char>) -> Seq<char> {
    "Unknown field '"@ + f + "'"@
}

/// Set one field from text. Unknown field names are refused.
pub fn write_field(metadata: &mut TrackMetadata, field: &str, value: &str) -> (r: Result<(), String>)
    ensures
        field_written(*old(metadata), *final(metadata), field@, value@),
        r is Ok <==> known_field(field@),
        r matches Err(m) ==> m@ == unknown_field_message(field@),
{
    let tc = trimmed(chars_of(value).as_slice());
    let text: Option<String> = if tc.len() == 0 { None } else { Some(string_from(tc.as_slice())) };
    let number: Option<u32> = if tc.len() == 0 { None } else { parse_u32(trimmed(tc.as_slice()).as_slice()) };
    if str_eq(field, "title") {
        metadata.title = text;
    } else if str_eq(field, "artist") {
        metadata.artist = text;
    } else if str_eq(field, "albumartist") {
        metadata.album_artist = text;
    } else if str_eq(field, "album") {
        metadata.album = text;
    } else if str_eq(field, "date") {
        metadata.date = text;
    } else if str_eq(field, "comment") {
        metadata.comment = text;
    } else if str_eq(field, "isrc") {
        metadata.isrc = text;
    } else if str_eq(field, "tracknumber") {
        metadata.track_number = number;
    } else if str_eq(field, "totaltracks") {
        metadata.total_tracks = number;
    } else if str_eq(field, "discnumber") {
        metadata.disc_number = number;
    } else if str_eq(field, "totaldiscs") {
        metadata.total_discs = number;
    } else if str_eq(field, "year") {
        metadata.year = if tc.len() == 0 { None } else { parse_i32(trimmed(tc.as_slice()).as_slice()) };
    } else if str_eq(field, "genre") {
        metadata.genre = match text {
            Some(t) => Some(split_items(t.as_str(), ';')),
            None => None,
        };
    } else if str_eq(field, "composer") {
        metadata.composer = match text {
            Some(t) => Some(split_items(t.as_str(), ';')),
            None => None,
        };
    } else {
        let mut m = chars_of("Unknown field '");
        push_all(&mut m, chars_of(field).as_slice());
        push_all(&mut m, chars_of("'").as_slice());
        return Err(string_from(m.as_slice()));
    }
    Ok(())
}

pub open spec fn op_fits_all(edits: Seq<BatchEdit>, index: nat) -> bool {
    forall|k: int| 0 <= k < edits.len() ==> op_fits(#[trigger] edits[k].op, index)
}

/// One preview row: the field, its value before and after the edit.
pub open spec fn preview_row(path: Seq<char>, m: TrackMetadata, e: BatchEdit, index: nat, row: BatchPreviewEntry) -> bool {
    let f = crate::text::lowercase(e.field@);
    let before = read_field_spec(m, f);
    let after = apply_op_spec(before, e.op, index);
    &&& row.path@ == path
    &&& row.field@ == f
    &&& row.before@ == before
    &&& row.after@ == after
    &&& row.changed == (before != after)
}

/// What a batch edit would change in one file, edit by edit, without
/// writing anything.
pub fn preview_entries(path: &str, metadata: &TrackMetadata, edits: &[BatchEdit], index: usize) -> (r: Vec<BatchPreviewEntry>)
    requires
        op_fits_all(edits@, index as nat),
    ensures
        r@.len() == edits@.len(),
        forall|k: int| 0 <= k < edits@.len() ==> preview_row(path@, *metadata, #[trigger] edits@[k], index as nat, r@[k]),
{
    let mut out: Vec<BatchPreviewEntry> = Vec::new();
    let mut k: usize = 0;
    while k < edits.len()
        invariant
            0 <= k <= edits@.len(),
            op_fits_all(edits@, index as nat),
            out@.len() == k,
            forall|j: int| 0 <= j < k ==> preview_row(path@, *metadata, #[trigger] edits@[j], index as nat, out@[j]),
        decreases edits@.len() - k,
    {
        let e = &edits[k];
        let field = to_lowercase(e.field.as_str());
        let before = read_field(metadata, field.as_str());
        assert(op_fits(edits@[k as int].op, index as nat));
        let after = apply_op(before.as_str(), &e.op, index);
        let changed = !crate::text::str_eq(before.as_str(), after.as_str());
        out.push(BatchPreviewEntry { path: String::from_str(path), field, before, after, changed });
        k = k + 1;
    }
    out
}

/// One edit taking a file's metadata from `before` to `after`: the field it
/// names (in any case) rewritten with the operation applied to the field's
/// current text.
pub open spec fn edit_step(before: TrackMetadata, after: TrackMetadata, e: BatchEdit, index: nat) -> bool {
    let f = crate::text::lowercase(e.field@);
    field_written(before, after, f, apply_op_spec(read_field_spec(before, f), e.op, index))
}

/// The states a file's metadata passes through as the edits are applied in
/// turn.
pub open spec fn edit_steps(states: Seq<TrackMetadata>, edits: Seq<BatchEdit>, index: nat) -> bool {
    &&& states.len() == edits.len() + 1
    &&& forall|k: int|
        #![trigger edits[k]]
        0 <= k < edits.len() ==> edit_step(states[k], states[k + 1], edits[k], index)
}

pub open spec fn edit_known(e: BatchEdit) -> bool {
    known_field(crate::text::lowercase(e.field@))
}

/// The edits applied up to `stop`, through the given states, and what that
/// returns: success when every edit was applied, else the error of the
/// edit at `stop`, whose field is unknown.
pub open spec fn edits_outcome(
    old: TrackMetadata,
    new: TrackMetadata,
    edits: Seq<BatchEdit>,
    index: nat,
    r: Result<(), String>,
    states: Seq<TrackMetadata>,
    stop: int,
) -> bool {
    &&& 0 <= stop <= edits.len()
    &&& edit_steps(states, edits.subrange(0, stop), index)
    &&& states[0] == old
    &&& states.last() == new
    &&& forall|j: int| 0 <= j < stop ==> #[trigger] edit_known(edits[j])
    &&& stop == edits.len() ==> r is Ok
    &&& stop < edits.len() ==> !edit_known(edits[stop]) && (r matches Err(m) && m@ == unknown_field_message(
        crate::text::lowercase(edits[stop].field@),
    ))
}

/// Apply the edits to one file's metadata in turn, stopping at the first
/// edit that names an unknown field, whose error is returned; the edits
/// before it have been applied.
pub fn apply_edits(metadata: &mut TrackMetadata, edits: &[BatchEdit], index: usize) -> (r: Result<(), String>)
    requires
        op_fits_all(edits@, index as nat),
    ensures
        exists|states: Seq<TrackMetadata>, stop: int|
            #[trigger] edits_outcome(*old(metadata), *final(metadata), edits@, index as nat, r, states, stop),
{
    let ghost start = *metadata;
    let ghost mut states: Seq<TrackMetadata> = seq![start];
    let mut k: usize = 0;
    while k < edits.len()
        invariant
            0 <= k <= edits@.len(),
            op_fits_all(edits@, index as nat),
            edit_steps(states, edits@.subrange(0, k as int), index as nat),
            start == *old(metadata),
            states[0] == start,
            states.last() == *metadata,
            forall|j: int| 0 <= j < k ==> #[trigger] edit_known(edits@[j]),
        decreases edits@.len() - k,
    {
        let e = &edits[k];
        let field = to_lowercase(e.field.as_str());
        let before = read_field(metadata, field.as_str());
        assert(op_fits(edits@[k as int].op, index as nat));
        let after = apply_op(before.as_str(), &e.op, index);
        let ghost prior = *metadata;
        let ghost prev = states;
        match write_field(metadata, field.as_str(), after.as_str()) {
            Ok(()) => {},
            Err(m) => {
                proof {
                    assert(!known_field(field@));
                    assert(*metadata == prior);
                    assert(!edit_known(edits@[k as int]));
                    assert(edit_steps(states, edits@.subrange(0, k as int), index as nat));
                    assert(states.last() == *metadata);
                    assert(edits_outcome(start, *metadata, edits@, index as nat, Err::<(), String>(m), states, k as int));
                }
                return Err(m);
            },
        }
        proof {
            states = prev.push(*metadata);
            assert(edit_step(prior, *metadata, edits@[k as int], index as nat));
            let sub = edits@.subrange(0, k + 1);
            assert forall|j: int| #![trigger sub[j]] 0 <= j < sub.len() implies edit_step(states[j], states[j + 1], sub[j], index as nat) by {
                if j < k {
                    assert(sub[j] == edits@.subrange(0, k as int)[j]);
                }
            }
        }
        k = k + 1;
    }
    assert(edits@.subrange(0, k as int) =~= edits@);
    assert(edits_outcome(start, *metadata, edits@, index as nat, Ok::<(), String>(()), states, k as int));
    Ok(())
}

/// The fields that hold text as it was written.
pub open spec fn text_field_name(f: Seq<char>) -> bool {
    f == "title"@ || f == "artist"@ || f == "albumartist"@ || f == "album"@ || f == "date"@ || f
        == "comment"@ || f == "isrc"@
}

proof fn lemma_field_names_distinct()
    ensures
        "title"@ != "artist"@,
        "title"@ != "albumartist"@,
        "title"@ != "album"@,
        "title"@ != "tracknumber"@,
        "title"@ != "totaltracks"@,
        "title"@ != "discnumber"@,
        "title"@ != "totaldiscs"@,
        "title"@ != "year"@,
        "title"@ != "date"@,
        "title"@ != "comment"@,
        "title"@ != "isrc"@,
        "title"@ != "genre"@,
        "title"@ != "composer"@,
        "artist"@ != "albumartist"@,
        "artist"@ != "album"@,
        "artist"@ != "tracknumber"@,
        "artist"@ != "totaltracks"@,
        "artist"@ != "discnumber"@,
        "artist"@ != "totaldiscs"@,
        "artist"@ != "year"@,
        "artist"@ != "date"@,
        "artist"@ != "comment"@,
        "artist"@ != "isrc"@,
        "artist"@ != "genre"@,
        "artist"@ != "composer"@,
        "albumartist"@ != "album"@,
        "albumartist"@ != "tracknumber"@,
        "albumartist"@ != "totaltracks"@,
        "albumartist"@ != "discnumber"@,
        "albumartist"@ != "totaldiscs"@,
        "albumartist"@ != "year"@,
        "albumartist"@ != "date"@,
        "albumartist"@ != "comment"@,
        "albumartist"@ != "isrc"@,
        "albumartist"@ != "genre"@,
        "albumartist"@ != "composer"@,
        "album"@ != "tracknumber"@,
        "album"@ != "totaltracks"@,
        "album"@ != "discnumber"@,
        "album"@ != "totaldiscs"@,
        "album"@ != "year"@,
        "album"@ != "date"@,
        "album"@ != "comment"@,
        "album"@ != "isrc"@,
        "album"@ != "genre"@,
        "album"@ != "composer"@,
        "tracknumber"@ != "totaltracks"@,
        "tracknumber"@ != "discnumber"@,
        "tracknumber"@ != "totaldiscs"@,
        "tracknumber"@ != "year"@,
        "tracknumber"@ != "date"@,
        "tracknumber"@ != "comment"@,
        "tracknumber"@ != "isrc"@,
        "tracknumber"@ != "genre"@,
        "tracknumber"@ != "composer"@,
        "totaltracks"@ != "discnumber"@,
        "totaltracks"@ != "totaldiscs"@,
        "totaltracks"@ != "year"@,
        "totaltracks"@ != "date"@,
        "totaltracks"@ != "comment"@,
        "totaltracks"@ != "isrc"@,
        "totaltracks"@ != "genre"@,
        "totaltracks"@ != "composer"@,
        "discnumber"@ != "totaldiscs"@,
        "discnumber"@ != "year"@,
        "discnumber"@ != "date"@,
        "discnumber"@ != "comment"@,
        "discnumber"@ != "isrc"@,
        "discnumber"@ != "genre"@,
        "discnumber"@ != "composer"@,
        "totaldiscs"@ != "year"@,
        "totaldiscs"@ != "date"@,
        "totaldiscs"@ != "comment"@,
        "totaldiscs"@ != "isrc"@,
        "totaldiscs"@ != "genre"@,
        "totaldiscs"@ != "composer"@,
        "year"@ != "date"@,
        "year"@ != "comment"@,
        "year"@ != "isrc"@,
        "year"@ != "genre"@,
        "year"@ != "composer"@,
        "date"@ != "comment"@,
        "date"@ != "isrc"@,
        "date"@ != "genre"@,
        "date"@ != "composer"@,
        "comment"@ != "isrc"@,
        "comment"@ != "genre"@,
        "comment"@ != "composer"@,
        "isrc"@ != "genre"@,
        "isrc"@ != "composer"@,
        "genre"@ != "composer"@,
{
    reveal_strlit("title");
    reveal_strlit("artist");
    reveal_strlit("albumartist");
    reveal_strlit("album");
    reveal_strlit("tracknumber");
    reveal_strlit("totaltracks");
    reveal_strlit("discnumber");
    reveal_strlit("totaldiscs");
    reveal_strlit("year");
    reveal_strlit("date");
    reveal_strlit("comment");
    reveal_strlit("isrc");
    reveal_strlit("genre");
    reveal_strlit("composer");
    assert("title"@.len() != "artist"@.len());
    assert("title"@.len() != "albumartist"@.len());
    assert("title"@[0] != "album"@[0]);
    assert("title"@.len() != "tracknumber"@.len());
    assert("title"@.len() != "totaltracks"@.len());
    assert("title"@.len() != "discnumber"@.len());
    assert("title"@.len() != "totaldiscs"@.len());
    assert("title"@.len() != "year"@.len());
    assert("title"@.len() != "date"@.len());
    assert("title"@.len() != "comment"@.len());
    assert("title"@.len() != "isrc"@.len());
    assert("title"@[0] != "genre"@[0]);
    assert("title"@.len() != "composer"@.len());
    assert("artist"@.len() != "albumartist"@.len());
    assert("artist"@.len() != "album"@.len());
    assert("artist"@.len() != "tracknumber"@.len());
    assert("artist"@.len() != "totaltracks"@.len());
    assert("artist"@.len() != "discnumber"@.len());
    assert("artist"@.len() != "totaldiscs"@.len());
    assert("artist"@.len() != "year"@.len());
    assert("artist"@.len() != "date"@.len());
    assert("artist"@.len() != "comment"@.len());
    assert("artist"@.len() != "isrc"@.len());
    assert("artist"@.len() != "genre"@.len());
    assert("artist"@.len() != "composer"@.len());
    assert("albumartist"@.len() != "album"@.len());
    assert("albumartist"@[0] != "tracknumber"@[0]);
    assert("albumartist"@[0] != "totaltracks"@[0]);
    assert("albumartist"@.len() != "discnumber"@.len());
    assert("albumartist"@.len() != "totaldiscs"@.len());
    assert("albumartist"@.len() != "year"@.len());
    assert("albumartist"@.len() != "date"@.len());
    assert("albumartist"@.len() != "comment"@.len());
    assert("albumartist"@.len() != "isrc"@.len());
    assert("albumartist"@.len() != "genre"@.len());
    assert("albumartist"@.len() != "composer"@.len());
    assert("album"@.len() != "tracknumber"@.len());
    assert("album"@.len() != "totaltracks"@.len());
    assert("album"@.len() != "discnumber"@.len());
    assert("album"@.len() != "totaldiscs"@.len());
    assert("album"@.len() != "year"@.len());
    assert("album"@.len() != "date"@.len());
    assert("album"@.len() != "comment"@.len());
    assert("album"@.len() != "isrc"@.len());
    assert("album"@[0] != "genre"@[0]);
    assert("album"@.len() != "composer"@.len());
    assert("tracknumber"@[1] != "totaltracks"@[1]);
    assert("tracknumber"@.len() != "discnumber"@.len());
    assert("tracknumber"@.len() != "totaldiscs"@.len());
    assert("tracknumber"@.len() != "year"@.len());
    assert("tracknumber"@.len() != "date"@.len());
    assert("tracknumber"@.len() != "comment"@.len());
    assert("tracknumber"@.len() != "isrc"@.len());
    assert("tracknumber"@.len() != "genre"@.len());
    assert("tracknumber"@.len() != "composer"@.len());
    assert("totaltracks"@.len() != "discnumber"@.len());
    assert("totaltracks"@.len() != "totaldiscs"@.len());
    assert("totaltracks"@.len() != "year"@.len());
    assert("totaltracks"@.len() != "date"@.len());
    assert("totaltracks"@.len() != "comment"@.len());
    assert("totaltracks"@.len() != "isrc"@.len());
    assert("totaltracks"@.len() != "genre"@.len());
    assert("totaltracks"@.len() != "composer"@.len());
    assert("discnumber"@[0] != "totaldiscs"@[0]);
    assert("discnumber"@.len() != "year"@.len());
    assert("discnumber"@.len() != "date"@.len());
    assert("discnumber"@.len() != "comment"@.len());
    assert("discnumber"@.len() != "isrc"@.len());
    assert("discnumber"@.len() != "genre"@.len());
    assert("discnumber"@.len() != "composer"@.len());
    assert("totaldiscs"@.len() != "year"@.len());
    assert("totaldiscs"@.len() != "date"@.len());
    assert("totaldiscs"@.len() != "comment"@.len());
    assert("totaldiscs"@.len() != "isrc"@.len());
    assert("totaldiscs"@.len() != "genre"@.len());
    assert("totaldiscs"@.len() != "composer"@.len());
    assert("year"@[0] != "date"@[0]);
    assert("year"@.len() != "comment"@.len());
    assert("year"@[0] != "isrc"@[0]);
    assert("year"@.len() != "genre"@.len());
    assert("year"@.len() != "composer"@.len());
    assert("date"@.len() != "comment"@.len());
    assert("date"@[0] != "isrc"@[0]);
    assert("date"@.len() != "genre"@.len());
    assert("date"@.len() != "composer"@.len());
    assert("comment"@.len() != "isrc"@.len());
    assert("comment"@.len() != "genre"@.len());
    assert("comment"@.len() != "composer"@.len());
    assert("isrc"@.len() != "genre"@.len());
    assert("isrc"@.len() != "composer"@.len());
    assert("genre"@.len() != "composer"@.len());
}

/// Reading a field gives back what writing it stored: a text field reads
/// as the written value, trimmed (empty when it was blank), and writing one
/// field changes what no other field reads.
pub proof fn law_written_fields_read_back(old: TrackMetadata, new: TrackMetadata, f: Seq<char>, value: Seq<char>)
    requires
        field_written(old, new, f, value),
    ensures
        text_field_name(f) ==> read_field_spec(new, f) == trim(value),
        forall|g: Seq<char>| g != f ==> #[trigger] read_field_spec(new, g) == read_field_spec(old, g),
{
    lemma_field_names_distinct();
    assert forall|g: Seq<char>| g != f implies #[trigger] read_field_spec(new, g) == read_field_spec(old, g) by {}
}

/// Reading a text field gives that field's own text, empty when it is
/// unset: the album artist reads as the album artist, never the artist.
pub proof fn law_text_fields_read_their_own_value(m: TrackMetadata)
    ensures
        read_field_spec(m, "title"@) == (match m.title { Some(x) => x@, None => Seq::<char>::empty() }),
        read_field_spec(m, "artist"@) == (match m.artist { Some(x) => x@, None => Seq::<char>::empty() }),
        read_field_spec(m, "albumartist"@) == (match m.album_artist { Some(x) => x@, None => Seq::<char>::empty() }),
        read_field_spec(m, "album"@) == (match m.album { Some(x) => x@, None => Seq::<char>::empty() }),
        read_field_spec(m, "date"@) == (match m.date { Some(x) => x@, None => Seq::<char>::empty() }),
        read_field_spec(m, "comment"@) == (match m.comment { Some(x) => x@, None => Seq::<char>::empty() }),
        read_field_spec(m, "isrc"@) == (match m.isrc { Some(x) => x@, None => Seq::<char>::empty() }),
{
    lemma_field_names_distinct();
}

} // verus!
