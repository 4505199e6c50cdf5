//! Rename planning: render each file's template into a target path and flag
//! every entry that cannot be applied safely, before anything is moved.
pub mod apply;
pub mod fields;
pub mod presets;
pub mod template;

use vstd::prelude::*;
use vstd::hash_map::StringHashMap;
use vstd::hash_set::StringHashSet;

use crate::error::NotataError;
use crate::paths::{path_exists, extension, join, parent, path_extension, path_join, path_parent};
use crate::text::{chars_of, lowercase, push_all, string_from, to_lowercase};
use fields::{fields_for_path, fields_for_path_spec, FileMetadata};
use template::{
    field_count, parse, parse_spec, render_detailed, render_seq, shape_path, tokens_view,
    FieldValues, Token, TokenView,
};

verus! {

#[derive(Debug, Clone)]
pub struct RenamePlanEntry {
    pub source_path: String,
    pub target_path: String,
    /// Path relative to the base directory, as produced by the template.
    pub relative_target: String,
    /// False when the name is already correct — nothing to do.
    pub changed: bool,
    /// Set when this entry cannot be applied safely.
    pub conflict: Option<String>,
}

#[derive(Debug, Clone)]
pub struct RenamePlan {
    pub entries: Vec<RenamePlanEntry>,
    pub total: usize,
    pub changed: usize,
    pub conflicts: usize,
}

#[derive(Debug, Clone)]
pub struct RenameOutcome {
    pub source_path: String,
    pub target_path: String,
    pub success: bool,
    pub error: Option<String>,
}

/// The content of a plan entry.
pub ghost struct EntryView {
    pub source: Seq<char>,
    pub target: Seq<char>,
    pub relative: Seq<char>,
    pub changed: bool,
    pub conflict: Option<Seq<char>>,
}

pub open spec fn opt_view(o: Option<String>) -> Option<Seq<char>> {
    match o {
        Some(s) => Some(s@),
        None => None,
    }
}

pub open spec fn entry_view(e: RenamePlanEntry) -> EntryView {
    EntryView {
        source: e.source_path@,
        target: e.target_path@,
        relative: e.relative_target@,
        changed: e.changed,
        conflict: opt_view(e.conflict),
    }
}

pub open spec fn entries_view(es: Seq<RenamePlanEntry>) -> Seq<EntryView> {
    Seq::new(es.len(), |i: int| entry_view(es[i]))
}

pub open spec fn msg_empty_name() -> Seq<char> {
    "Template produced an empty name — this file has no metadata to rename from"@
}

pub open spec fn msg_unresolved(rendered: Seq<char>) -> Seq<char> {
    "No metadata found for this file — the template resolved to \""@ + rendered + "\""@
}

pub open spec fn msg_collides(other_source: Seq<char>) -> Seq<char> {
    "Target collides with "@ + other_source
}

pub open spec fn msg_exists() -> Seq<char> {
    "A file already exists at the target path"@
}

/// The plan entry for one file, before collisions are considered.
pub open spec fn plan_entry_spec(
    tokens: Seq<TokenView>,
    source: Seq<char>,
    fields: Map<Seq<char>, Seq<char>>,
    base: Seq<char>,
) -> EntryView {
    let out = render_seq(tokens, fields);
    let rendered = shape_path(out.text);
    let relative = match path_extension(source) {
        Some(e) => rendered + "."@ + lowercase(e),
        None => rendered,
    };
    let target = path_join(base, relative);
    let conflict = if rendered.len() == 0 {
        Some(msg_empty_name())
    } else if out.seen > 0 && out.resolved == 0 {
        Some(msg_unresolved(rendered))
    } else {
        None
    };
    EntryView { source, target, relative, changed: target != source, conflict }
}

/// Compute the new path for one file without touching disk.
fn plan_entry(
    tokens: &[Token],
    source_path: &str,
    fields: &FieldValues,
    base_dir: &str,
) -> (r: RenamePlanEntry)
    requires
        field_count(tokens_view(tokens@)) <= usize::MAX,
    ensures
        entry_view(r) == plan_entry_spec(tokens_view(tokens@), source_path@, fields@, base_dir@),
{
    let ext = match extension(source_path) {
        Some(e) => Some(to_lowercase(e.as_str())),
        None => None,
    };
    let outcome = render_detailed(tokens, fields);
    let rendered = chars_of(outcome.text.as_str());
    let relative_target = match &ext {
        Some(e) => {
            let mut v = chars_of(outcome.text.as_str());
            v.push('.');
            let ec = chars_of(e.as_str());
            push_all(&mut v, ec.as_slice());
            proof {
                assert(v@ =~= rendered@ + "."@ + ec@) by {
                    reveal_strlit(".");
                }
            }
            string_from(v.as_slice())
        },
        None => string_from(rendered.as_slice()),
    };
    let target_path = join(base_dir, relative_target.as_str());
    let conflict = if rendered.len() == 0 {
        let m = chars_of(
            "Template produced an empty name — this file has no metadata to rename from",
        );
        Some(string_from(m.as_slice()))
    } else if outcome.is_unresolved() {
        let mut m = chars_of("No metadata found for this file — the template resolved to \"");
        push_all(&mut m, rendered.as_slice());
        let q = chars_of("\"");
        push_all(&mut m, q.as_slice());
        Some(string_from(m.as_slice()))
    } else {
        None
    };
    let src = chars_of(source_path);
    let tgt = chars_of(target_path.as_str());
    let changed = !crate::text::chars_eq(tgt.as_slice(), src.as_slice());
    RenamePlanEntry {
        changed,
        source_path: string_from(src.as_slice()),
        target_path,
        relative_target,
        conflict,
    }
}

// ---------------------------------------------------------- collision flags

/// Targets registered among the first `n` entries, each with the index of
/// the entry that claimed it first. An entry registers its target when it
/// has no conflict yet, would change, and nobody claimed the target before.
pub open spec fn claimed(es: Seq<EntryView>, n: int) -> Map<Seq<char>, int>
    decreases n,
{
    if n <= 0 {
        Map::empty()
    } else {
        let m = claimed(es, n - 1);
        let e = es[n - 1];
        if e.conflict is None && e.changed && !m.contains_key(e.target) {
            m.insert(e.target, n - 1)
        } else {
            m
        }
    }
}

/// Whether entry `j`'s file is moved away: it changes, had no conflict,
/// and no entry before it claimed its target.
pub open spec fn leaves_source(es: Seq<EntryView>, j: int) -> bool {
    es[j].changed && es[j].conflict is None && !claimed(es, j).contains_key(es[j].target)
}

/// The paths that the plan moves files away from.
pub open spec fn moving_sources(es: Seq<EntryView>) -> Set<Seq<char>> {
    Set::new(|s: Seq<char>| exists|j: int| 0 <= j < es.len() && #[trigger] leaves_source(es, j) && es[j].source == s)
}

/// The conflict entry `i` ends up with. `on_disk[i]` says whether a file
/// already existed at its target when that was checked.
pub open spec fn final_conflict(es: Seq<EntryView>, on_disk: Seq<bool>, i: int) -> Option<Seq<char>> {
    let e = es[i];
    let m = claimed(es, i);
    if e.conflict is Some || !e.changed {
        e.conflict
    } else if m.contains_key(e.target) {
        Some(msg_collides(es[m[e.target]].source))
    } else if on_disk[i] && !moving_sources(es).contains(e.target) {
        Some(msg_exists())
    } else {
        None
    }
}

pub open spec fn flag_spec(es: Seq<EntryView>, on_disk: Seq<bool>) -> Seq<EntryView> {
    Seq::new(
        es.len(),
        |i: int| EntryView { conflict: final_conflict(es, on_disk, i), ..es[i] },
    )
}

proof fn lemma_claimed_indices(es: Seq<EntryView>, n: int)
    requires
        0 <= n <= es.len(),
    ensures
        forall|t: Seq<char>| #[trigger] claimed(es, n).contains_key(t) ==> {
            let j = claimed(es, n)[t];
            &&& 0 <= j < n
            &&& es[j].target == t
        },
    decreases n,
{
    if n > 0 {
        lemma_claimed_indices(es, n - 1);
    }
}

proof fn lemma_claimed_grows(es: Seq<EntryView>, a: int, b: int)
    requires
        0 <= a <= b <= es.len(),
    ensures
        forall|t: Seq<char>| #[trigger] claimed(es, a).contains_key(t) ==> claimed(es, b).contains_key(t),
    decreases b - a,
{
    if a < b {
        lemma_claimed_grows(es, a, b - 1);
    }
}

fn with_conflict(e: &RenamePlanEntry, msg: String) -> (r: RenamePlanEntry)
    ensures
        entry_view(r) == (EntryView { conflict: Some(msg@), ..entry_view(*e) }),
{
    RenamePlanEntry {
        source_path: e.source_path.clone(),
        target_path: e.target_path.clone(),
        relative_target: e.relative_target.clone(),
        changed: e.changed,
        conflict: Some(msg),
    }
}

/// Mark entries whose targets collide with each other, or with an
/// unrelated file already at the target (`on_disk[i]` for entry `i`).
/// A target that already exists is only safe if it belongs to another file
/// in the same plan which will itself be moved out of the way: one that
/// changes, had no conflict, and whose own target nobody claimed before it.
pub fn flag_conflicts_with(entries: &mut Vec<RenamePlanEntry>, on_disk: &Vec<bool>)
    requires
        on_disk@.len() == old(entries)@.len(),
    ensures
        entries_view(final(entries)@) == flag_spec(entries_view(old(entries)@), on_disk@),
{
    let ghost es = entries_view(entries@);
    let mut seen: StringHashMap<usize> = StringHashMap::new();
    let mut sources = StringHashSet::new();
    let mut k: usize = 0;
    assert(seen@ =~= Map::<Seq<char>, usize>::empty());
    while k < entries.len()
        invariant
            es == entries_view(old(entries)@),
            entries@.len() == es.len(),
            0 <= k <= entries@.len(),
            forall|t: Seq<char>| #[trigger] seen@.contains_key(t) <==> claimed(es, k as int).contains_key(t),
            forall|s: Seq<char>| #[trigger] sources@.contains(s) <==> exists|j: int|
                0 <= j < k && #[trigger] leaves_source(es, j) && es[j].source == s,
            entries_view(entries@) == es,
        decreases entries@.len() - k,
    {
        proof {
            assert(entries_view(entries@)[k as int] == entry_view(entries@[k as int]));
        }
        let ghost m = claimed(es, k as int);
        if entries[k].conflict.is_none() && entries[k].changed && !seen.contains_key(entries[k].target_path.as_str()) {
            let t = entries[k].target_path.clone();
            seen.insert(t, k);
            let s = entries[k].source_path.clone();
            sources.insert(s);
            proof {
                assert(leaves_source(es, k as int));
                assert(claimed(es, k + 1) == m.insert(es[k as int].target, k as int));
                assert forall|t: Seq<char>| #[trigger] seen@.contains_key(t) <==> claimed(es, k + 1).contains_key(t) by {}
                assert forall|s: Seq<char>| #[trigger] sources@.contains(s) <==> exists|j: int|
                    0 <= j < k + 1 && #[trigger] leaves_source(es, j) && es[j].source == s by {
                    if sources@.contains(s) && s != es[k as int].source {
                        let j = choose|j: int| 0 <= j < k && #[trigger] leaves_source(es, j) && es[j].source == s;
                    }
                    if exists|j: int| 0 <= j < k + 1 && #[trigger] leaves_source(es, j) && es[j].source == s {
                        let j = choose|j: int| 0 <= j < k + 1 && #[trigger] leaves_source(es, j) && es[j].source == s;
                        if j < k {
                            assert(exists|j2: int| 0 <= j2 < k && #[trigger] leaves_source(es, j2) && es[j2].source == s);
                        }
                    }
                }
            }
        } else {
            proof {
                assert(!leaves_source(es, k as int));
                assert(claimed(es, k + 1) == m);
                assert forall|s: Seq<char>| #[trigger] sources@.contains(s) <==> exists|j: int|
                    0 <= j < k + 1 && #[trigger] leaves_source(es, j) && es[j].source == s by {
                    if exists|j: int| 0 <= j < k + 1 && #[trigger] leaves_source(es, j) && es[j].source == s {
                        let j = choose|j: int| 0 <= j < k + 1 && #[trigger] leaves_source(es, j) && es[j].source == s;
                        assert(j < k);
                    }
                }
            }
        }
        k = k + 1;
    }
    proof {
        assert forall|s: Seq<char>| #[trigger] sources@.contains(s) <==> moving_sources(es).contains(s) by {}
    }
    let mut seen: StringHashMap<usize> = StringHashMap::new();
    let mut i: usize = 0;
    assert(seen@ =~= Map::<Seq<char>, usize>::empty());
    while i < entries.len()
        invariant
            es == entries_view(old(entries)@),
            on_disk@.len() == es.len(),
            entries@.len() == es.len(),
            0 <= i <= es.len(),
            forall|s: Seq<char>| #[trigger] sources@.contains(s) <==> moving_sources(es).contains(s),
            forall|t: Seq<char>| #[trigger] seen@.contains_key(t) <==> claimed(es, i as int).contains_key(t),
            forall|t: Seq<char>| seen@.contains_key(t) ==> seen@[t] as int == #[trigger] claimed(es, i as int)[t],
            forall|j: int| 0 <= j < i ==> #[trigger] entries_view(entries@)[j] == flag_spec(es, on_disk@)[j],
            forall|j: int| i <= j < es.len() ==> #[trigger] entries_view(entries@)[j] == es[j],
        decreases es.len() - i,
    {
        proof {
            lemma_claimed_indices(es, i as int);
            assert(entries_view(entries@)[i as int] == entry_view(entries@[i as int]));
        }
        let ghost e = es[i as int];
        let ghost m = claimed(es, i as int);
        if entries[i].conflict.is_some() || !entries[i].changed {
            assert(claimed(es, i + 1) == m);
            i = i + 1;
            continue;
        }
        let target = entries[i].target_path.clone();
        match seen.get(target.as_str()) {
            Some(first) => {
                let first = *first;
                let mut msg = chars_of("Target collides with ");
                let src = chars_of(entries[first].source_path.as_str());
                proof {
                    assert(entries_view(entries@)[first as int] == entry_view(entries@[first as int]));
                }
                push_all(&mut msg, src.as_slice());
                let updated = with_conflict(&entries[i], string_from(msg.as_slice()));
                let ghost before = entries@;
                entries.set(i, updated);
                proof {
                    assert(claimed(es, i + 1) == m);
                    assert forall|j: int| 0 <= j < es.len() && j != i implies #[trigger] entries_view(entries@)[j] == entries_view(before)[j] by {}
                    assert(entries_view(entries@)[i as int] == flag_spec(es, on_disk@)[i as int]);
                }
                i = i + 1;
                continue;
            },
            None => {},
        }
        seen.insert(target, i);
        let t2 = entries[i].target_path.clone();
        let here = exists_flag(on_disk, i);
        if here && !sources.contains(t2.as_str()) {
            let msg = chars_of("A file already exists at the target path");
            let updated = with_conflict(&entries[i], string_from(msg.as_slice()));
            let ghost before = entries@;
            entries.set(i, updated);
            proof {
                assert forall|j: int| 0 <= j < es.len() && j != i implies #[trigger] entries_view(entries@)[j] == entries_view(before)[j] by {}
            }
        }
        proof {
            let m2 = claimed(es, i + 1);
            assert(m2 == m.insert(e.target, i as int));
            assert forall|t: Seq<char>| #[trigger] seen@.contains_key(t) <==> m2.contains_key(t) by {}
            assert(entries_view(entries@)[i as int] == flag_spec(es, on_disk@)[i as int]);
        }
        i = i + 1;
    }
    assert(entries_view(entries@) =~= flag_spec(es, on_disk@));
}

fn exists_flag(on_disk: &Vec<bool>, i: usize) -> (r: bool)
    requires
        i < on_disk@.len(),
    ensures
        r == on_disk@[i as int],
{
    on_disk[i]
}

/// Mark entries whose targets collide with each other or with unrelated files
/// already on disk.
fn flag_conflicts(entries: &mut Vec<RenamePlanEntry>)
    ensures
        exists|on_disk: Seq<bool>|
            on_disk.len() == old(entries)@.len() && entries_view(final(entries)@) == flag_spec(
                entries_view(old(entries)@),
                on_disk,
            ),
{
    let mut on_disk: Vec<bool> = Vec::new();
    let mut k: usize = 0;
    while k < entries.len()
        invariant
            0 <= k <= entries@.len(),
            on_disk@.len() == k,
        decreases entries@.len() - k,
    {
        on_disk.push(path_exists(entries[k].target_path.as_str()));
        k = k + 1;
    }
    flag_conflicts_with(entries, &on_disk);
}

// ------------------------------------------------------------------ plans

pub open spec fn count_changed(es: Seq<EntryView>) -> nat
    decreases es.len(),
{
    if es.len() == 0 {
        0
    } else {
        count_changed(es.drop_last()) + if es.last().changed { 1nat } else { 0nat }
    }
}

pub open spec fn count_conflicts(es: Seq<EntryView>) -> nat
    decreases es.len(),
{
    if es.len() == 0 {
        0
    } else {
        count_conflicts(es.drop_last()) + if es.last().conflict is Some { 1nat } else { 0nat }
    }
}

/// The directory a file's rendered path hangs off.
pub open spec fn base_for(source: Seq<char>, base_dir: Option<Seq<char>>) -> Seq<char> {
    match base_dir {
        Some(b) => b,
        None => match path_parent(source) {
            Some(p) => p,
            None => Seq::empty(),
        },
    }
}

pub open spec fn opt_str_view(o: Option<&str>) -> Option<Seq<char>> {
    match o {
        Some(s) => Some(s@),
        None => None,
    }
}

/// Each file's entry before collisions are flagged.
pub open spec fn planned_entries(
    tokens: Seq<TokenView>,
    files: Seq<(String, FieldValues)>,
    base_dir: Option<Seq<char>>,
) -> Seq<EntryView> {
    Seq::new(
        files.len(),
        |i: int|
            plan_entry_spec(tokens, files[i].0@, files[i].1@, base_for(files[i].0@, base_dir)),
    )
}

/// A plan is consistent with its entries: the totals count them.
pub open spec fn plan_counts_ok(plan: RenamePlan) -> bool {
    let es = entries_view(plan.entries@);
    &&& plan.total == es.len()
    &&& plan.changed == count_changed(es)
    &&& plan.conflicts == count_conflicts(es)
}

proof fn lemma_counts_bounded(es: Seq<EntryView>)
    ensures
        count_changed(es) <= es.len(),
        count_conflicts(es) <= es.len(),
    decreases es.len(),
{
    if es.len() > 0 {
        lemma_counts_bounded(es.drop_last());
    }
}

fn count_plan(entries: &Vec<RenamePlanEntry>) -> (r: (usize, usize))
    ensures
        r.0 == count_changed(entries_view(entries@)),
        r.1 == count_conflicts(entries_view(entries@)),
{
    let ghost es = entries_view(entries@);
    let mut changed: usize = 0;
    let mut conflicts: usize = 0;
    let mut k: usize = 0;
    while k < entries.len()
        invariant
            es == entries_view(entries@),
            0 <= k <= entries@.len(),
            changed == count_changed(es.subrange(0, k as int)),
            conflicts == count_conflicts(es.subrange(0, k as int)),
        decreases entries@.len() - k,
    {
        proof {
            assert(es.subrange(0, k + 1).drop_last() =~= es.subrange(0, k as int));
            assert(es[k as int] == entry_view(entries@[k as int]));
            lemma_counts_bounded(es.subrange(0, k as int));
        }
        if entries[k].changed {
            changed = changed + 1;
        }
        if entries[k].conflict.is_some() {
            conflicts = conflicts + 1;
        }
        k = k + 1;
    }
    assert(es.subrange(0, es.len() as int) =~= es);
    (changed, conflicts)
}

/// Build a full rename plan, flagging collisions before anything is moved.
///
/// `base_dir` is the directory the rendered relative paths hang off. When
/// `None`, each file's own parent directory is used. Which targets already
/// exist on disk is read while planning; the plan is as `flag_spec`
/// describes for what was found there.
pub fn build_plan(
    template_str: &str,
    files: &[(String, FieldValues)],
    base_dir: Option<&str>,
) -> (r: Result<RenamePlan, NotataError>)
    ensures
        parse_spec(template_str@) is Err <==> r is Err,
        r matches Err(e) ==> e matches NotataError::Custom(m) && parse_spec(template_str@)
            == Err::<Seq<TokenView>, Seq<char>>(m@),
        r matches Ok(plan) ==> plan_counts_ok(plan),
        r matches Ok(plan) ==> exists|on_disk: Seq<bool>|
            on_disk.len() == files@.len() && entries_view(plan.entries@) == flag_spec(
                planned_entries(parse_spec(template_str@)->Ok_0, files@, opt_str_view(base_dir)),
                on_disk,
            ),
{
    let tokens = match parse(template_str) {
        Ok(t) => t,
        Err(e) => {
            return Err(NotataError::Custom(e));
        },
    };
    let ghost tv = tokens_view(tokens@);
    let mut entries: Vec<RenamePlanEntry> = Vec::new();
    let mut k: usize = 0;
    while k < files.len()
        invariant
            0 <= k <= files@.len(),
            tv == tokens_view(tokens@),
            field_count(tv) <= usize::MAX,
            entries@.len() == k,
            forall|j: int| 0 <= j < k ==> #[trigger] entries_view(entries@)[j] == planned_entries(
                tv,
                files@,
                opt_str_view(base_dir),
            )[j],
        decreases files@.len() - k,
    {
        let (path, field_values) = &files[k];
        let base: String = match base_dir {
            Some(b) => string_from(chars_of(b).as_slice()),
            None => match parent(path.as_str()) {
                Some(p) => p,
                None => String::new(),
            },
        };
        let entry = plan_entry(tokens.as_slice(), path.as_str(), field_values, base.as_str());
        let ghost before = entries@;
        entries.push(entry);
        proof {
            assert forall|j: int| 0 <= j < k + 1 implies #[trigger] entries_view(entries@)[j] == planned_entries(
                tv,
                files@,
                opt_str_view(base_dir),
            )[j] by {
                if j < k {
                    assert(entries@[j] == before[j]);
                    assert(entries_view(before)[j] == entry_view(before[j]));
                }
            }
        }
        k = k + 1;
    }
    assert(entries_view(entries@) =~= planned_entries(tv, files@, opt_str_view(base_dir)));
    flag_conflicts(&mut entries);
    let (changed, conflicts) = count_plan(&entries);
    let total = entries.len();
    let plan = RenamePlan { total, changed, conflicts, entries };
    proof {
        let planned = planned_entries(tv, files@, opt_str_view(base_dir));
        let d = choose|on_disk: Seq<bool>|
            on_disk.len() == planned.len() && entries_view(plan.entries@) == flag_spec(planned, on_disk);
        assert(d.len() == files@.len());
        assert(entries_view(plan.entries@) == flag_spec(planned, d));
        assert(parse_spec(template_str@) == Ok::<Seq<TokenView>, Seq<char>>(tv));
        assert(parse_spec(template_str@)->Ok_0 == tv);
    }
    Ok(plan)
}

/// Each file's entry before collisions are flagged, with the file's values
/// taken from its metadata.
pub open spec fn planned_entries_for<R>(
    tokens: Seq<TokenView>,
    files: Seq<(String, FileMetadata<R>)>,
    base_dir: Option<Seq<char>>,
) -> Seq<EntryView> {
    Seq::new(
        files.len(),
        |i: int|
            plan_entry_spec(
                tokens,
                files[i].0@,
                fields_for_path_spec(files[i].0@, files[i].1),
                base_for(files[i].0@, base_dir),
            ),
    )
}

/// Build a plan straight from files and the metadata read for each with
/// the reader that matches its type.
pub fn build_plan_for_paths<R>(
    template_str: &str,
    files: &[(String, FileMetadata<R>)],
    base_dir: Option<&str>,
) -> (r: Result<RenamePlan, NotataError>)
    ensures
        parse_spec(template_str@) is Err <==> r is Err,
        r matches Err(e) ==> e matches NotataError::Custom(m) && parse_spec(template_str@)
            == Err::<Seq<TokenView>, Seq<char>>(m@),
        r matches Ok(plan) ==> plan_counts_ok(plan),
        r matches Ok(plan) ==> exists|on_disk: Seq<bool>|
            on_disk.len() == files@.len() && entries_view(plan.entries@) == flag_spec(
                planned_entries_for(
                    parse_spec(template_str@)->Ok_0,
                    files@,
                    opt_str_view(base_dir),
                ),
                on_disk,
            ),
{
    let mut with_fields: Vec<(String, FieldValues)> = Vec::new();
    let mut k: usize = 0;
    while k < files.len()
        invariant
            0 <= k <= files@.len(),
            with_fields@.len() == k,
            forall|j: int| 0 <= j < k ==> (#[trigger] with_fields@[j]).0@ == files@[j].0@
                && with_fields@[j].1@ == fields_for_path_spec(files@[j].0@, files@[j].1),
        decreases files@.len() - k,
    {
        let (path, metadata) = &files[k];
        let values = fields_for_path(path.as_str(), metadata);
        with_fields.push((path.clone(), values));
        k = k + 1;
    }
    let r = build_plan(template_str, with_fields.as_slice(), base_dir);
    proof {
        if let Ok(tokens) = parse_spec(template_str@) {
            assert(planned_entries(tokens, with_fields@, opt_str_view(base_dir)) =~= planned_entries_for(
                tokens,
                files@,
                opt_str_view(base_dir),
            ));
        }
    }
    r
}

// ------------------------------------------------------------------- laws

/// Two entries that are both still to be applied (changed, no conflict)
/// never target the same path, whatever was found on disk.
pub proof fn law_no_two_applied_entries_share_a_target(
    es: Seq<EntryView>,
    on_disk: Seq<bool>,
    i: int,
    j: int,
)
    requires
        on_disk.len() == es.len(),
        0 <= i < j < es.len(),
        flag_spec(es, on_disk)[i].changed && flag_spec(es, on_disk)[i].conflict is None,
        flag_spec(es, on_disk)[j].changed && flag_spec(es, on_disk)[j].conflict is None,
    ensures
        flag_spec(es, on_disk)[i].target != flag_spec(es, on_disk)[j].target,
{
    let ei = es[i];
    let ej = es[j];
    assert(!claimed(es, i).contains_key(ei.target));
    assert(claimed(es, i + 1).contains_key(ei.target));
    lemma_claimed_grows(es, i + 1, j);
    assert(!claimed(es, j).contains_key(ej.target));
}

/// Flagging only ever adds conflicts: an entry that had one keeps it, and
/// an entry that would not change is never flagged.
pub proof fn law_flagging_keeps_unchanged_entries_and_existing_conflicts(
    es: Seq<EntryView>,
    on_disk: Seq<bool>,
    i: int,
)
    requires
        on_disk.len() == es.len(),
        0 <= i < es.len(),
        es[i].conflict is Some || !es[i].changed,
    ensures
        flag_spec(es, on_disk)[i] == es[i],
{
}

/// Every planned entry keeps the path of its file as its source, and is
/// marked changed exactly when its target differs from that source,
/// whatever was found on disk.
pub proof fn law_planned_entries_keep_their_source(
    tokens: Seq<TokenView>,
    files: Seq<(String, FieldValues)>,
    base_dir: Option<Seq<char>>,
    on_disk: Seq<bool>,
    i: int,
)
    requires
        on_disk.len() == files.len(),
        0 <= i < files.len(),
    ensures
        flag_spec(planned_entries(tokens, files, base_dir), on_disk).len() == files.len(),
        flag_spec(planned_entries(tokens, files, base_dir), on_disk)[i].source == files[i].0@,
        flag_spec(planned_entries(tokens, files, base_dir), on_disk)[i].changed
            == (flag_spec(planned_entries(tokens, files, base_dir), on_disk)[i].target != files[i].0@),
{
}

} // verus!
