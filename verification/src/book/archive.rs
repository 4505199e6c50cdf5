//! Which archives can be opened, and how entries are found in them.
use vstd::prelude::*;

use crate::paths::{extension, path_extension, path_with_extension, with_extension};
use crate::text::{chars_of, chars_eq, lowercase, push_all, str_eq, string_from, to_lowercase};

verus! {

/// Whether an extension, lowercased, names a zip-based container.
pub open spec fn supported_extension(e: Seq<char>) -> bool {
    let l = lowercase(e);
    l == "cbz"@ || l == "cbt"@ || l == "epub"@ || l == "zip"@
}

pub open spec fn is_supported_archive_spec(path: Seq<char>) -> bool {
    match path_extension(path) {
        Some(e) => supported_extension(e),
        None => false,
    }
}

/// True for archive formats this build can open: `.cbz`, `.cbt`, `.epub`
/// and `.zip`, in any case. RAR-based comics (`.cbr`) are not among them.
pub fn is_supported_archive(path: &str) -> (r: bool)
    ensures
        r == is_supported_archive_spec(path@),
{
    match extension(path) {
        Some(e) => {
            let l = to_lowercase(e.as_str());
            str_eq(l.as_str(), "cbz") || str_eq(l.as_str(), "cbt") || str_eq(l.as_str(), "epub")
                || str_eq(l.as_str(), "zip")
        },
        None => false,
    }
}

/// The part of an entry name after its last `/`.
pub open spec fn base_name(s: Seq<char>) -> Seq<char>
    decreases s.len(),
{
    if s.len() == 0 {
        s
    } else if s.last() == '/' {
        Seq::empty()
    } else {
        base_name(s.drop_last()).push(s.last())
    }
}

fn base_name_exec(s: &[char]) -> (r: Vec<char>)
    ensures
        r@ == base_name(s@),
{
    let mut k: usize = s.len();
    assert(s@.subrange(0, k as int) =~= s@);
    assert(s@.subrange(k as int, s@.len() as int) =~= Seq::<char>::empty());
    while k > 0 && s[k - 1] != '/'
        invariant
            k <= s@.len(),
            base_name(s@) == base_name(s@.subrange(0, k as int)) + s@.subrange(k as int, s@.len() as int),
        decreases k,
    {
        proof {
            let t = s@.subrange(0, k as int);
            assert(t.drop_last() =~= s@.subrange(0, k - 1));
            assert(s@.subrange(k - 1, s@.len() as int) =~= seq![t.last()] + s@.subrange(k as int, s@.len() as int));
        }
        k = k - 1;
    }
    proof {
        let t = s@.subrange(0, k as int);
        assert(base_name(t) =~= Seq::<char>::empty());
    }
    let mut out: Vec<char> = Vec::new();
    let mut j = k;
    while j < s.len()
        invariant
            k <= j <= s@.len(),
            out@ == s@.subrange(k as int, j as int),
        decreases s@.len() - j,
    {
        out.push(s[j]);
        assert(out@ =~= s@.subrange(k as int, j + 1));
        j = j + 1;
    }
    assert(base_name(s@.subrange(0, k as int)) + s@.subrange(k as int, s@.len() as int) =~= out@);
    out
}

pub open spec fn strings_view(v: Seq<String>) -> Seq<Seq<char>> {
    Seq::new(v.len(), |i: int| v[i]@)
}

/// Index of the first name that, lowercased, equals `target`.
pub open spec fn first_exact(names: Seq<Seq<char>>, target: Seq<char>) -> Option<int>
    decreases names.len(),
{
    if names.len() == 0 {
        None
    } else {
        match first_exact(names.drop_last(), target) {
            Some(i) => Some(i),
            None => if lowercase(names.last()) == target { Some(names.len() - 1) } else { None },
        }
    }
}

/// Index of the first name whose base name, lowercased, equals `target`.
pub open spec fn first_by_base(names: Seq<Seq<char>>, target: Seq<char>) -> Option<int>
    decreases names.len(),
{
    if names.len() == 0 {
        None
    } else {
        match first_by_base(names.drop_last(), target) {
            Some(i) => Some(i),
            None => if lowercase(base_name(names.last())) == target {
                Some(names.len() - 1)
            } else {
                None
            },
        }
    }
}

/// The entry an archive lookup for `wanted` settles on: the first whose
/// whole name matches ignoring case, else the first whose base name does.
pub open spec fn find_entry_spec(names: Seq<Seq<char>>, wanted: Seq<char>) -> Option<Seq<char>> {
    let target = lowercase(wanted);
    match first_exact(names, target) {
        Some(i) => Some(names[i]),
        None => match first_by_base(names, target) {
            Some(i) => Some(names[i]),
            None => None,
        },
    }
}

proof fn lemma_first_exact_prefix(names: Seq<Seq<char>>, target: Seq<char>, k: int)
    requires
        0 <= k <= names.len(),
        first_exact(names.subrange(0, k), target) is Some,
    ensures
        first_exact(names, target) == first_exact(names.subrange(0, k), target),
    decreases names.len() - k,
{
    if k < names.len() {
        assert(names.drop_last().subrange(0, k) =~= names.subrange(0, k));
        lemma_first_exact_prefix(names.drop_last(), target, k);
    } else {
        assert(names.subrange(0, k) =~= names);
    }
}

proof fn lemma_first_by_base_prefix(names: Seq<Seq<char>>, target: Seq<char>, k: int)
    requires
        0 <= k <= names.len(),
        first_by_base(names.subrange(0, k), target) is Some,
    ensures
        first_by_base(names, target) == first_by_base(names.subrange(0, k), target),
    decreases names.len() - k,
{
    if k < names.len() {
        assert(names.drop_last().subrange(0, k) =~= names.subrange(0, k));
        lemma_first_by_base_prefix(names.drop_last(), target, k);
    } else {
        assert(names.subrange(0, k) =~= names);
    }
}

/// Locate an entry by exact name or by base name, ignoring case.
pub fn find_entry_name(names: &[String], wanted: &str) -> (r: Option<String>)
    ensures
        match r {
            Some(n) => find_entry_spec(strings_view(names@), wanted@) == Some(n@),
            None => find_entry_spec(strings_view(names@), wanted@) is None,
        },
{
    let ghost nv = strings_view(names@);
    let target = to_lowercase(wanted);
    let tc = chars_of(target.as_str());
    let mut k: usize = 0;
    while k < names.len()
        invariant
            0 <= k <= names@.len(),
            nv == strings_view(names@),
            tc@ == lowercase(wanted@),
            first_exact(nv.subrange(0, k as int), tc@) is None,
        decreases names@.len() - k,
    {
        let l = to_lowercase(names[k].as_str());
        let lc = chars_of(l.as_str());
        assert(nv.subrange(0, k + 1).drop_last() =~= nv.subrange(0, k as int));
        if chars_eq(lc.as_slice(), tc.as_slice()) {
            proof {
                lemma_first_exact_prefix(nv, tc@, k + 1);
            }
            return Some(names[k].clone());
        }
        k = k + 1;
    }
    assert(nv.subrange(0, k as int) =~= nv);
    let mut k: usize = 0;
    while k < names.len()
        invariant
            0 <= k <= names@.len(),
            nv == strings_view(names@),
            tc@ == lowercase(wanted@),
            first_exact(nv, tc@) is None,
            first_by_base(nv.subrange(0, k as int), tc@) is None,
        decreases names@.len() - k,
    {
        let nc = chars_of(names[k].as_str());
        let base = base_name_exec(nc.as_slice());
        let bs = crate::text::string_from(base.as_slice());
        let l = to_lowercase(bs.as_str());
        let lc = chars_of(l.as_str());
        assert(nv.subrange(0, k + 1).drop_last() =~= nv.subrange(0, k as int));
        if chars_eq(lc.as_slice(), tc.as_slice()) {
            proof {
                lemma_first_by_base_prefix(nv, tc@, k + 1);
            }
            return Some(names[k].clone());
        }
        k = k + 1;
    }
    assert(nv.subrange(0, k as int) =~= nv);
    None
}

/// The file a rewritten archive is built in before it replaces the
/// original: beside it, with `.notata-tmp` after its extension (`zip` when
/// it has none).
pub open spec fn temp_archive_path_spec(path: Seq<char>) -> Seq<char> {
    let ext = match path_extension(path) {
        Some(e) => e,
        None => "zip"@,
    };
    path_with_extension(path, ext + ".notata-tmp"@)
}

pub fn temp_archive_path(path: &str) -> (r: String)
    ensures
        r@ == temp_archive_path_spec(path@),
{
    let mut ext = match extension(path) {
        Some(e) => chars_of(e.as_str()),
        None => chars_of("zip"),
    };
    let tail = chars_of(".notata-tmp");
    push_all(&mut ext, tail.as_slice());
    let e = string_from(ext.as_slice());
    with_extension(path, e.as_str())
}

/// The name a replaced entry is written under: the existing entry it
/// replaces, found by exact name or base name ignoring case, else the name
/// asked for.
pub open spec fn replacement_name_spec(names: Seq<Seq<char>>, entry_name: Seq<char>) -> Seq<char> {
    match find_entry_spec(names, entry_name) {
        Some(n) => n,
        None => entry_name,
    }
}

pub fn replacement_name(names: &[String], entry_name: &str) -> (r: String)
    ensures
        r@ == replacement_name_spec(strings_view(names@), entry_name@),
{
    match find_entry_name(names, entry_name) {
        Some(n) => n,
        None => String::from_str(entry_name),
    }
}

/// The positions of the entries a rewrite copies: every entry but the one
/// being replaced, in archive order.
pub open spec fn copied_positions(names: Seq<Seq<char>>, target: Seq<char>) -> Seq<int>
    decreases names.len(),
{
    if names.len() == 0 {
        Seq::empty()
    } else {
        copied_positions(names.drop_last(), target) + if names.last() != target {
            seq![names.len() - 1]
        } else {
            Seq::empty()
        }
    }
}

pub open spec fn positions_view(v: Seq<usize>) -> Seq<int> {
    Seq::new(v.len(), |i: int| v[i] as int)
}

/// The entries copied unchanged when `target` is rewritten.
pub fn entries_to_copy(names: &[String], target: &str) -> (r: Vec<usize>)
    ensures
        positions_view(r@) == copied_positions(strings_view(names@), target@),
{
    let ghost nv = strings_view(names@);
    let mut out: Vec<usize> = Vec::new();
    let mut k: usize = 0;
    while k < names.len()
        invariant
            0 <= k <= names@.len(),
            nv == strings_view(names@),
            positions_view(out@) == copied_positions(nv.subrange(0, k as int), target@),
        decreases names@.len() - k,
    {
        let ghost before = out@;
        assert(nv.subrange(0, k + 1).drop_last() =~= nv.subrange(0, k as int));
        assert(nv.subrange(0, k + 1).last() == nv[k as int]);
        if !str_eq(names[k].as_str(), target) {
            out.push(k);
            assert(positions_view(out@) =~= positions_view(before).push(k as int));
        } else {
            assert(copied_positions(nv.subrange(0, k + 1), target@) =~= copied_positions(nv.subrange(0, k as int), target@));
        }
        k = k + 1;
    }
    assert(nv.subrange(0, k as int) =~= nv);
    out
}

/// Replacing an entry keeps every other entry: each entry whose name is
/// not the one rewritten is copied, exactly once and in archive order, and
/// nothing else is.
pub proof fn law_replacing_keeps_every_other_entry(names: Seq<Seq<char>>, target: Seq<char>)
    ensures
        forall|i: int| 0 <= i < names.len() && names[i] != target ==> #[trigger] copied_positions(names, target).contains(i),
        forall|j: int| 0 <= j < copied_positions(names, target).len() ==> {
            let p = #[trigger] copied_positions(names, target)[j];
            0 <= p < names.len() && names[p] != target
        },
        forall|a: int, b: int|
            0 <= a < b < copied_positions(names, target).len() ==> #[trigger] copied_positions(names, target)[a]
                < #[trigger] copied_positions(names, target)[b],
    decreases names.len(),
{
    if names.len() > 0 {
        let prev = names.drop_last();
        law_replacing_keeps_every_other_entry(prev, target);
        let cp = copied_positions(prev, target);
        let all = copied_positions(names, target);
        assert forall|i: int| 0 <= i < names.len() && names[i] != target implies #[trigger] all.contains(i) by {
            if i < names.len() - 1 {
                assert(prev[i] == names[i]);
                assert(cp.contains(i));
                let w = choose|w: int| 0 <= w < cp.len() && cp[w] == i;
                assert(all[w] == i);
            } else {
                assert(all[cp.len() as int] == i);
            }
        }
        assert forall|j: int| 0 <= j < all.len() implies {
            let p = #[trigger] all[j];
            0 <= p < names.len() && names[p] != target
        } by {
            if j < cp.len() {
                assert(all[j] == cp[j]);
                assert(prev[cp[j]] == names[cp[j]]);
            }
        }
        assert forall|a: int, b: int| 0 <= a < b < all.len() implies #[trigger] all[a] < #[trigger] all[b] by {
            if b < cp.len() {
                assert(all[a] == cp[a] && all[b] == cp[b]);
            } else {
                assert(all[a] == cp[a]);
            }
        }
    }
}

/// What zip reads as an archive's entry names, in the archive's order
/// (`None` for a name that does not decode), or its error opening the
/// archive: a function of the bytes alone, named rather than restated.
pub uninterp spec fn zip_names(archive: Seq<u8>) -> Result<Seq<Option<Seq<char>>>, Seq<char>>;

/// What zip reads as the contents of the entry `name`, or its error.
pub uninterp spec fn zip_entry(archive: Seq<u8>, name: Seq<char>) -> Result<Seq<u8>, Seq<char>>;

pub open spec fn opt_names_view(v: Seq<Option<String>>) -> Seq<Option<Seq<char>>> {
    Seq::new(v.len(), |i: int| match v[i] {
        Some(n) => Some(n@),
        None => None,
    })
}

/// `ZipArchive::new` over the bytes, then `ZipArchive::file_names`.
#[verifier::external_body]
fn archive_names(archive: &[u8]) -> (r: Result<Vec<Option<String>>, String>)
    ensures
        match r {
            Ok(v) => zip_names(archive@) == Ok::<Seq<Option<Seq<char>>>, Seq<char>>(opt_names_view(v@)),
            Err(e) => zip_names(archive@) == Err::<Seq<Option<Seq<char>>>, Seq<char>>(e@),
        },
{
    match zip::ZipArchive::new(std::io::Cursor::new(archive)) {
        Ok(a) => Ok(a.file_names().map(|n| n.ok().map(|n| n.to_string())).collect()),
        Err(e) => Err(e.to_string()),
    }
}

/// `ZipArchive::new` over the bytes, `ZipArchive::by_name`, then the
/// entry read to its end.
#[verifier::external_body]
fn archive_entry(archive: &[u8], name: &str) -> (r: Result<Vec<u8>, String>)
    ensures
        match r {
            Ok(v) => zip_entry(archive@, name@) == Ok::<Seq<u8>, Seq<char>>(v@),
            Err(e) => zip_entry(archive@, name@) == Err::<Seq<u8>, Seq<char>>(e@),
        },
{
    let mut a = zip::ZipArchive::new(std::io::Cursor::new(archive)).map_err(|e| e.to_string())?;
    let mut entry = a.by_name(name).map_err(|e| e.to_string())?;
    let mut buf = Vec::new();
    std::io::Read::read_to_end(&mut entry, &mut buf).map_err(|e| e.to_string())?;
    Ok(buf)
}

/// The names that decode, in order.
pub open spec fn decoded_names(ns: Seq<Option<Seq<char>>>) -> Seq<Seq<char>>
    decreases ns.len(),
{
    if ns.len() == 0 {
        Seq::empty()
    } else {
        let r = decoded_names(ns.drop_last());
        match ns.last() {
            Some(n) => r.push(n),
            None => r,
        }
    }
}

pub open spec fn not_readable(e: Seq<char>) -> Seq<char> {
    "Not a readable archive: "@ + e
}

/// One entry of an archive, found as `find_entry_spec` finds it among the
/// names that decode; `None` when there is no such entry.
pub open spec fn read_entry_spec(archive: Seq<u8>, wanted: Seq<char>) -> Result<Option<Seq<u8>>, Seq<char>> {
    match zip_names(archive) {
        Err(e) => Err(not_readable(e)),
        Ok(ns) => match find_entry_spec(decoded_names(ns), wanted) {
            None => Ok(None),
            Some(n) => match zip_entry(archive, n) {
                Ok(b) => Ok(Some(b)),
                Err(e) => Err(e),
            },
        },
    }
}

pub open spec fn entry_result_view(r: Result<Option<Vec<u8>>, String>) -> Result<Option<Seq<u8>>, Seq<char>> {
    match r {
        Ok(Some(b)) => Ok(Some(b@)),
        Ok(None) => Ok(None),
        Err(e) => Err(e@),
    }
}

/// One entry's bytes from an archive's bytes, found by exact name or base
/// name, ignoring case.
pub fn read_entry(archive: &[u8], wanted: &str) -> (r: Result<Option<Vec<u8>>, String>)
    ensures
        entry_result_view(r) == read_entry_spec(archive@, wanted@),
{
    let listed = match archive_names(archive) {
        Ok(v) => v,
        Err(e) => {
            let mut m = chars_of("Not a readable archive: ");
            let ec = chars_of(e.as_str());
            push_all(&mut m, ec.as_slice());
            return Err(string_from(m.as_slice()));
        },
    };
    let mut names: Vec<String> = Vec::new();
    let mut k: usize = 0;
    while k < listed.len()
        invariant
            0 <= k <= listed@.len(),
            strings_view(names@) == decoded_names(opt_names_view(listed@).subrange(0, k as int)),
        decreases listed@.len() - k,
    {
        let ghost before = names@;
        assert(opt_names_view(listed@).subrange(0, k + 1).drop_last() =~= opt_names_view(listed@).subrange(0, k as int));
        match &listed[k] {
            Some(n) => {
                names.push(n.clone());
                assert(strings_view(names@) =~= strings_view(before).push(n@));
            },
            None => {},
        }
        k = k + 1;
    }
    assert(opt_names_view(listed@).subrange(0, k as int) =~= opt_names_view(listed@));
    match find_entry_name(names.as_slice(), wanted) {
        None => Ok(None),
        Some(n) => match archive_entry(archive, n.as_str()) {
            Ok(b) => Ok(Some(b)),
            Err(e) => Err(e),
        },
    }
}

} // verus!
