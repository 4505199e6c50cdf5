//! EPUB package documents: the Dublin Core block of the OPF file.
use vstd::prelude::*;
use vstd::utf8::{decode_utf8, encode_utf8, is_char_boundary};

use crate::book::comicinfo::i32_field;
use crate::book::xml::{
    document_elements, element_view, elements_view, escape, escape_spec, read_all, ElementView, XmlElement,
};
use crate::bytes::{copy_range, from_utf8_lossy, lossy_text, utf8_lossy};
use crate::error::NotataError;
use crate::models::book::{
    blank_book_view, book_view, opt_str, strs, BookKind, BookMetadata, BookMetadataSource, BookView,
};
use crate::text::{
    chars_of, contains, contains_exec, format_i64, lowercase, occurs_at, occurs_at_exec, push_all,
    signed_decimal, str_eq, string_from, to_lowercase, trim, trimmed,
};

verus! {

/// The value of the first attribute named exactly `key`.
pub open spec fn attr_spec(attrs: Seq<(Seq<char>, Seq<char>)>, key: Seq<char>) -> Option<Seq<char>>
    decreases attrs.len(),
{
    if attrs.len() == 0 {
        None
    } else {
        match attr_spec(attrs.drop_last(), key) {
            Some(v) => Some(v),
            None => if attrs.last().0 == key { Some(attrs.last().1) } else { None },
        }
    }
}

/// `s` without any number of leading copies of `p`.
pub open spec fn strip_prefix_all(s: Seq<char>, p: Seq<char>) -> Seq<char>
    decreases s.len(),
{
    if p.len() > 0 && occurs_at(s, p, 0) { strip_prefix_all(s.subrange(p.len() as int, s.len() as int), p) } else { s }
}

/// The year of a `dc:date`: its first four bytes read as a number, when
/// they end on a character boundary.
pub open spec fn date_year(t: Seq<char>) -> Option<i32> {
    let b = encode_utf8(t);
    if b.len() >= 4 && is_char_boundary(b, 4) { i32_field(utf8_lossy(b.subrange(0, 4))) } else { None }
}

/// One OPF element applied to the metadata read so far.
pub open spec fn opf_apply(v: BookView, e: ElementView) -> BookView {
    let t = trim(e.text);
    let n = lowercase(e.name);
    let role = attr_spec(e.attributes, "role"@);
    if n == "title"@ && t.len() > 0 && v.title is None {
        BookView { title: Some(t), ..v }
    } else if n == "creator"@ && t.len() > 0 {
        if role == Some("trl"@) {
            BookView { translators: v.translators.push(t), ..v }
        } else if role == Some("edt"@) {
            BookView { editors: v.editors.push(t), ..v }
        } else if role == Some("ill"@) {
            BookView { pencillers: v.pencillers.push(t), ..v }
        } else {
            BookView { authors: v.authors.push(t), ..v }
        }
    } else if n == "contributor"@ && t.len() > 0 {
        if role == Some("trl"@) {
            BookView { translators: v.translators.push(t), ..v }
        } else if role == Some("edt"@) {
            BookView { editors: v.editors.push(t), ..v }
        } else {
            v
        }
    } else if n == "publisher"@ && t.len() > 0 {
        BookView { publisher: Some(t), ..v }
    } else if n == "language"@ && t.len() > 0 {
        BookView { language: Some(t), ..v }
    } else if n == "description"@ && t.len() > 0 {
        BookView { summary: Some(t), ..v }
    } else if n == "subject"@ && t.len() > 0 {
        BookView { genres: v.genres.push(t), ..v }
    } else if n == "rights"@ && t.len() > 0 {
        BookView { rights: Some(t), ..v }
    } else if n == "date"@ && t.len() > 0 {
        if v.year is None { BookView { year: date_year(t), ..v } } else { v }
    } else if n == "identifier"@ && t.len() > 0 {
        let scheme = lowercase(
            match attr_spec(e.attributes, "scheme"@) {
                Some(s) => s,
                None => Seq::empty(),
            },
        );
        let is_isbn = contains(scheme, "isbn"@) || occurs_at(lowercase(t), "urn:isbn:"@, 0);
        if is_isbn && v.isbn is None {
            BookView { isbn: Some(strip_prefix_all(strip_prefix_all(t, "urn:isbn:"@), "URN:ISBN:"@)), ..v }
        } else {
            v
        }
    } else if n == "meta"@ {
        let prop = attr_spec(e.attributes, "property"@);
        if prop == Some("belongs-to-collection"@) && t.len() > 0 {
            BookView { series: Some(t), ..v }
        } else if prop == Some("group-position"@) && t.len() > 0 {
            BookView { number: Some(t), ..v }
        } else {
            match (attr_spec(e.attributes, "name"@), attr_spec(e.attributes, "content"@)) {
                (Some(nm), Some(content)) => if nm == "calibre:series"@ {
                    BookView { series: Some(content), ..v }
                } else if nm == "calibre:series_index"@ {
                    BookView { number: Some(content), ..v }
                } else {
                    v
                },
                _ => v,
            }
        }
    } else {
        v
    }
}

pub open spec fn opf_fold(es: Seq<ElementView>) -> BookView
    decreases es.len(),
{
    if es.len() == 0 {
        blank_book_view(BookKind::Ebook, BookMetadataSource::Opf)
    } else {
        opf_apply(opf_fold(es.drop_last()), es.last())
    }
}

fn attr_value(attrs: &Vec<(String, String)>, key: &str) -> (r: Option<String>)
    ensures
        opt_str(r) == attr_spec(crate::book::xml::pairs_view(attrs@), key@),
{
    let ghost pv = crate::book::xml::pairs_view(attrs@);
    let mut k: usize = 0;
    while k < attrs.len()
        invariant
            0 <= k <= attrs@.len(),
            pv == crate::book::xml::pairs_view(attrs@),
            attr_spec(pv.subrange(0, k as int), key@) is None,
        decreases attrs@.len() - k,
    {
        assert(pv.subrange(0, k + 1).drop_last() =~= pv.subrange(0, k as int));
        if str_eq(attrs[k].0.as_str(), key) {
            proof {
                lemma_attr_prefix(pv, key@, k + 1);
            }
            return Some(attrs[k].1.clone());
        }
        k = k + 1;
    }
    assert(pv.subrange(0, k as int) =~= pv);
    None
}

proof fn lemma_attr_prefix(attrs: Seq<(Seq<char>, Seq<char>)>, key: Seq<char>, k: int)
    requires
        0 <= k <= attrs.len(),
        attr_spec(attrs.subrange(0, k), key) is Some,
    ensures
        attr_spec(attrs, key) == attr_spec(attrs.subrange(0, k), key),
    decreases attrs.len() - k,
{
    if k < attrs.len() {
        assert(attrs.drop_last().subrange(0, k) =~= attrs.subrange(0, k));
        lemma_attr_prefix(attrs.drop_last(), key, k);
    } else {
        assert(attrs.subrange(0, k) =~= attrs);
    }
}

fn strip_prefix_all_exec(s: &[char], p: &[char]) -> (r: Vec<char>)
    ensures
        r@ == strip_prefix_all(s@, p@),
{
    let mut start: usize = 0;
    let n = s.len();
    assert(s@.subrange(0, n as int) =~= s@);
    while p.len() > 0 && occurs_at_exec(s, p, start)
        invariant
            n == s@.len(),
            start <= n,
            strip_prefix_all(s@, p@) == strip_prefix_all(s@.subrange(start as int, n as int), p@),
        decreases n - start,
    {
        proof {
            let t = s@.subrange(start as int, n as int);
            assert(t.subrange(0, p@.len() as int) =~= s@.subrange(start as int, start + p@.len()));
            assert(t.subrange(p@.len() as int, t.len() as int) =~= s@.subrange(start + p@.len(), n as int));
        }
        start = start + p.len();
    }
    proof {
        let t = s@.subrange(start as int, n as int);
        if p@.len() > 0 && start + p@.len() <= n {
            assert(t.subrange(0, p@.len() as int) =~= s@.subrange(start as int, start + p@.len()));
        }
    }
    crate::text::slice_range(s, start, n)
}

fn date_year_exec(t: &String) -> (r: Option<i32>)
    ensures
        r == date_year(t@),
{
    let s = t.as_str();
    let b = s.as_bytes();
    if b.len() >= 4 && s.is_char_boundary(4) {
        let head = copy_range(b, 0, 4);
        let text = from_utf8_lossy(head.as_slice());
        let c = chars_of(text.as_str());
        crate::text::parse_i32(c.as_slice())
    } else {
        None
    }
}

fn apply_opf_element(meta: &mut BookMetadata, e: &XmlElement)
    ensures
        book_view(*final(meta)) == opf_apply(book_view(*old(meta)), element_view(*e)),
{
    let tc = trimmed(chars_of(e.text.as_str()).as_slice());
    let t = string_from(tc.as_slice());
    let nonempty = tc.len() > 0;
    let lower = to_lowercase(e.name.as_str());
    let n = lower.as_str();
    let role = attr_value(&e.attributes, "role");
    let is_trl = match &role { Some(r) => str_eq(r.as_str(), "trl"), None => false };
    let is_edt = match &role { Some(r) => str_eq(r.as_str(), "edt"), None => false };
    let is_ill = match &role { Some(r) => str_eq(r.as_str(), "ill"), None => false };
    if str_eq(n, "title") && nonempty && meta.title.is_none() {
        meta.title = Some(t);
    } else if str_eq(n, "creator") && nonempty {
        if is_trl {
            meta.translators.push(t);
        } else if is_edt {
            meta.editors.push(t);
        } else if is_ill {
            meta.pencillers.push(t);
        } else {
            meta.authors.push(t);
        }
    } else if str_eq(n, "contributor") && nonempty {
        if is_trl {
            meta.translators.push(t);
        } else if is_edt {
            meta.editors.push(t);
        }
    } else if str_eq(n, "publisher") && nonempty {
        meta.publisher = Some(t);
    } else if str_eq(n, "language") && nonempty {
        meta.language = Some(t);
    } else if str_eq(n, "description") && nonempty {
        meta.summary = Some(t);
    } else if str_eq(n, "subject") && nonempty {
        meta.genres.push(t);
    } else if str_eq(n, "rights") && nonempty {
        meta.rights = Some(t);
    } else if str_eq(n, "date") && nonempty {
        if meta.year.is_none() {
            meta.year = date_year_exec(&t);
        }
    } else if str_eq(n, "identifier") && nonempty {
        let scheme_raw = match attr_value(&e.attributes, "scheme") {
            Some(s) => s,
            None => String::new(),
        };
        let scheme = to_lowercase(scheme_raw.as_str());
        let isbn_word = chars_of("isbn");
        let urn = chars_of("urn:isbn:");
        let lt = to_lowercase(t.as_str());
        let is_isbn = contains_exec(chars_of(scheme.as_str()).as_slice(), isbn_word.as_slice())
            || occurs_at_exec(chars_of(lt.as_str()).as_slice(), urn.as_slice(), 0);
        if is_isbn && meta.isbn.is_none() {
            let upper = chars_of("URN:ISBN:");
            let a = strip_prefix_all_exec(tc.as_slice(), urn.as_slice());
            let b = strip_prefix_all_exec(a.as_slice(), upper.as_slice());
            meta.isbn = Some(string_from(b.as_slice()));
        }
    } else if str_eq(n, "meta") {
        let prop = attr_value(&e.attributes, "property");
        let is_coll = match &prop { Some(p) => str_eq(p.as_str(), "belongs-to-collection"), None => false };
        let is_pos = match &prop { Some(p) => str_eq(p.as_str(), "group-position"), None => false };
        if is_coll && nonempty {
            meta.series = Some(t);
        } else if is_pos && nonempty {
            meta.number = Some(t);
        } else {
            match (attr_value(&e.attributes, "name"), attr_value(&e.attributes, "content")) {
                (Some(nm), Some(content)) => {
                    if str_eq(nm.as_str(), "calibre:series") {
                        meta.series = Some(content);
                    } else if str_eq(nm.as_str(), "calibre:series_index") {
                        meta.number = Some(content);
                    }
                },
                _ => {},
            }
        }
    }
    assert(book_view(*meta) =~= opf_apply(book_view(*old(meta)), element_view(*e)));
}

/// The metadata a list of OPF elements describes.
pub fn opf_from_elements(elements: &[XmlElement]) -> (r: BookMetadata)
    ensures
        book_view(r) == opf_fold(elements_view(elements@)),
{
    let mut meta = BookMetadata::default();
    meta.kind = BookKind::Ebook;
    meta.source = BookMetadataSource::Opf;
    let ghost ev = elements_view(elements@);
    assert(book_view(meta) =~= opf_fold(ev.subrange(0, 0)));
    let mut k: usize = 0;
    while k < elements.len()
        invariant
            0 <= k <= elements@.len(),
            ev == elements_view(elements@),
            book_view(meta) == opf_fold(ev.subrange(0, k as int)),
        decreases elements@.len() - k,
    {
        apply_opf_element(&mut meta, &elements[k]);
        assert(ev.subrange(0, k + 1).drop_last() =~= ev.subrange(0, k as int));
        k = k + 1;
    }
    assert(ev.subrange(0, k as int) =~= ev);
    meta
}

/// Parse the Dublin Core block of an EPUB OPF package document: the
/// metadata its elements describe, or the reader's error.
pub fn parse_opf(xml: &str) -> (r: Result<BookMetadata, NotataError>)
    ensures
        match document_elements(xml@) {
            Ok(es) => r matches Ok(m) && book_view(m) == opf_fold(es),
            Err(msg) => r matches Err(e) && (e matches NotataError::Custom(t) && t@ == msg),
        },
{
    match read_all(xml) {
        Err(e) => Err(e),
        Ok(elements) => Ok(opf_from_elements(elements.as_slice())),
    }
}


/// A byte with ASCII `A`-`Z` turned into `a`-`z`.
pub open spec fn lower_byte(b: u8) -> u8 {
    if 65 <= b <= 90 {
        (b + 32) as u8
    } else {
        b
    }
}

/// Whether `needle` (lower case) occurs in `h` at `p`, ignoring ASCII case.
pub open spec fn occurs_ci(h: Seq<u8>, needle: Seq<u8>, p: int) -> bool {
    &&& 0 <= p
    &&& p + needle.len() <= h.len()
    &&& forall|j: int| 0 <= j < needle.len() ==> #[trigger] lower_byte(h[p + j]) == needle[j]
}

/// The first position at or after `p` where `needle` (lower case) occurs
/// in `h`, ignoring ASCII case.
pub open spec fn find_bytes(h: Seq<u8>, needle: Seq<u8>, p: int) -> Option<int>
    decreases h.len() + 1 - p,
{
    if p < 0 || p > h.len() {
        None
    } else if occurs_ci(h, needle, p) {
        Some(p)
    } else {
        find_bytes(h, needle, p + 1)
    }
}

fn find_bytes_exec(h: &[u8], needle: &[u8], from: usize) -> (r: Option<usize>)
    requires
        from <= h@.len(),
    ensures
        match r {
            Some(p) => find_bytes(h@, needle@, from as int) == Some(p as int) && p <= h@.len(),
            None => find_bytes(h@, needle@, from as int) is None,
        },
{
    let n = h.len();
    let m = needle.len();
    let mut p = from;
    loop
        invariant
            from <= p <= n,
            n == h@.len(),
            m == needle@.len(),
            find_bytes(h@, needle@, from as int) == find_bytes(h@, needle@, p as int),
        decreases n - p,
    {
        if m <= n - p {
            let mut k: usize = 0;
            let mut same = true;
            while k < m
                invariant
                    0 <= k <= m,
                    p + m <= n,
                    m == needle@.len(),
                    n == h@.len(),
                    same == (forall|j: int| 0 <= j < k ==> #[trigger] lower_byte(h@[p + j]) == needle@[j]),
                decreases m - k,
            {
                let b = h[p + k];
                let lb: u8 = if 65 <= b && b <= 90 { b + 32 } else { b };
                if lb != needle[k] {
                    same = false;
                }
                proof {
                    assert(lb == lower_byte(h@[p + k]));
                }
                k = k + 1;
            }
            if same {
                assert(occurs_ci(h@, needle@, p as int));
                return Some(p);
            } else {
                assert(!occurs_ci(h@, needle@, p as int));
            }
        }
        if p == n {
            assert(find_bytes(h@, needle@, p + 1) is None);
            return None;
        }
        p = p + 1;
    }
}

pub open spec fn metadata_open_bytes() -> Seq<u8> {
    seq![60u8, 109, 101, 116, 97, 100, 97, 116, 97]
}

pub open spec fn metadata_close_bytes() -> Seq<u8> {
    seq![60u8, 47, 109, 101, 116, 97, 100, 97, 116, 97, 62]
}

/// Byte range of the content between `<metadata ...>` and `</metadata>`
/// in the bytes `lb`, the tags matched ignoring ASCII case.
pub open spec fn block_range(lb: Seq<u8>) -> Option<(int, int)> {
    match find_bytes(lb, metadata_open_bytes(), 0) {
        None => None,
        Some(o) => match find_bytes(lb, seq![62u8], o) {
            None => None,
            Some(g) => match find_bytes(lb, metadata_close_bytes(), 0) {
                None => None,
                Some(c) => if c < g + 1 { None } else { Some((g + 1, c)) },
            },
        },
    }
}

pub open spec fn metadata_block_spec(xml: Seq<char>) -> Option<(int, int)> {
    block_range(encode_utf8(xml))
}

/// Byte range of the content between `<metadata ...>` and `</metadata>` in
/// the document, the tags matched ignoring ASCII case.
pub fn find_metadata_block(xml: &str) -> (r: Option<(usize, usize)>)
    ensures
        match r {
            Some((a, b)) => metadata_block_spec(xml@) == Some((a as int, b as int)),
            None => metadata_block_spec(xml@) is None,
        },
{
    let lb = xml.as_bytes();
    let open: [u8; 9] = [60, 109, 101, 116, 97, 100, 97, 116, 97];
    let close: [u8; 11] = [60, 47, 109, 101, 116, 97, 100, 97, 116, 97, 62];
    let gt: [u8; 1] = [62];
    assert(open@ =~= metadata_open_bytes());
    assert(close@ =~= metadata_close_bytes());
    assert(gt@ =~= seq![62u8]);
    let o = match find_bytes_exec(lb, &open, 0) {
        Some(o) => o,
        None => {
            return None;
        },
    };
    let g = match find_bytes_exec(lb, &gt, o) {
        Some(g) => g,
        None => {
            return None;
        },
    };
    let c = match find_bytes_exec(lb, &close, 0) {
        Some(c) => c,
        None => {
            return None;
        },
    };
    if g >= lb.len() {
        return None;
    }
    if c < g + 1 {
        None
    } else {
        Some((g + 1, c))
    }
}

/// Whether the byte range found for the block can be cut out of the
/// document: it lies on character boundaries (the tags are ASCII, so a
/// well-formed document always meets this).
pub open spec fn block_cuts_ok(xml: Seq<char>) -> bool {
    match metadata_block_spec(xml) {
        Some((a, b)) => b <= encode_utf8(xml).len() && is_char_boundary(encode_utf8(xml), a)
            && is_char_boundary(encode_utf8(xml), b),
        None => true,
    }
}

/// The lines of `s` from here on, given the line read so far.
pub open spec fn lines_from(s: Seq<char>, cur: Seq<char>) -> Seq<Seq<char>>
    decreases s.len(),
{
    if s.len() == 0 {
        if cur.len() > 0 { seq![cur] } else { Seq::empty() }
    } else if s[0] == '\n' {
        seq![cur] + lines_from(s.drop_first(), Seq::empty())
    } else {
        lines_from(s.drop_first(), cur.push(s[0]))
    }
}

/// Elements of the old block that the editor does not model and that are
/// kept: identifiers, and `<meta>` entries other than series information.
pub open spec fn keep_line(l: Seq<char>) -> bool {
    let t = lowercase(trim(l));
    occurs_at(t, "<dc:identifier"@, 0) || occurs_at(t, "<identifier"@, 0) || (occurs_at(t, "<meta"@, 0)
        && !contains(t, "belongs-to-collection"@) && !contains(t, "calibre:series"@))
}

pub open spec fn preserved_lines(ls: Seq<Seq<char>>) -> Seq<char>
    decreases ls.len(),
{
    if ls.len() == 0 {
        Seq::empty()
    } else {
        preserved_lines(ls.drop_last()) + if keep_line(ls.last()) {
            "    "@ + trim(ls.last()) + "\n"@
        } else {
            Seq::empty()
        }
    }
}

pub open spec fn dc_line(tag: Seq<char>, v: Seq<char>) -> Seq<char> {
    if trim(v).len() > 0 {
        "    <dc:"@ + tag + ">"@ + escape_spec(v) + "</dc:"@ + tag + ">\n"@
    } else {
        Seq::empty()
    }
}

pub open spec fn dc_opt(tag: Seq<char>, v: Option<Seq<char>>) -> Seq<char> {
    match v {
        Some(x) => dc_line(tag, x),
        None => Seq::empty(),
    }
}

/// Each value escaped between `open` and `close`, one line each.
pub open spec fn wrapped_each(open: Seq<char>, close: Seq<char>, vs: Seq<Seq<char>>) -> Seq<char>
    decreases vs.len(),
{
    if vs.len() == 0 {
        Seq::empty()
    } else {
        wrapped_each(open, close, vs.drop_last()) + open + escape_spec(vs.last()) + close
    }
}

pub open spec fn dc_each(tag: Seq<char>, vs: Seq<Seq<char>>) -> Seq<char>
    decreases vs.len(),
{
    if vs.len() == 0 { Seq::empty() } else { dc_each(tag, vs.drop_last()) + dc_line(tag, vs.last()) }
}

pub open spec fn wrapped_opt(open: Seq<char>, close: Seq<char>, v: Option<Seq<char>>) -> Seq<char> {
    match v {
        Some(x) => open + escape_spec(x) + close,
        None => Seq::empty(),
    }
}

/// The new `<metadata>` content: the edited values, then the kept lines.
pub open spec fn opf_block(v: BookView, preserved: Seq<char>) -> Seq<char> {
    "\n"@ + dc_opt("title"@, v.title) + wrapped_each(
        "    <dc:creator opf:role=\"aut\">"@,
        "</dc:creator>\n"@,
        v.authors,
    ) + wrapped_each("    <dc:contributor opf:role=\"trl\">"@, "</dc:contributor>\n"@, v.translators)
        + dc_opt("publisher"@, v.publisher) + dc_opt("language"@, v.language) + dc_opt(
        "description"@,
        v.summary,
    ) + dc_each("subject"@, v.genres) + dc_opt("rights"@, v.rights) + match v.year {
        Some(y) => dc_line("date"@, signed_decimal(y as int)),
        None => Seq::empty(),
    } + wrapped_opt("    <dc:identifier opf:scheme=\"ISBN\">"@, "</dc:identifier>\n"@, v.isbn)
        + wrapped_opt("    <meta name=\"calibre:series\" content=\""@, "\"/>\n"@, v.series) + wrapped_opt(
        "    <meta name=\"calibre:series_index\" content=\""@,
        "\"/>\n"@,
        v.number,
    ) + preserved + "  "@
}

/// The document with its `<metadata>` content rewritten; the rest of the
/// package is kept byte for byte.
pub open spec fn update_opf_spec(original: Seq<char>, v: BookView) -> Result<Seq<char>, Seq<char>> {
    match metadata_block_spec(original) {
        None => Err("OPF has no <metadata> block to update"@),
        Some((a, b)) => {
            let ob = encode_utf8(original);
            let existing = lossy_text(ob.subrange(a, b));
            Ok(
                lossy_text(ob.subrange(0, a)) + opf_block(v, preserved_lines(lines_from(existing, Seq::empty())))
                    + lossy_text(ob.subrange(b, ob.len() as int)),
            )
        },
    }
}


fn push_str(out: &mut Vec<char>, s: &str)
    ensures
        final(out)@ == old(out)@ + s@,
{
    let c = chars_of(s);
    push_all(out, c.as_slice());
}

fn push_dc(out: &mut Vec<char>, tag: &str, v: &str)
    ensures
        final(out)@ == old(out)@ + dc_line(tag@, v@),
{
    let t = trimmed(chars_of(v).as_slice());
    if t.len() == 0 {
        assert(old(out)@ + dc_line(tag@, v@) =~= old(out)@);
        return;
    }
    push_str(out, "    <dc:");
    push_str(out, tag);
    push_str(out, ">");
    let e = escape(v);
    push_str(out, e.as_str());
    push_str(out, "</dc:");
    push_str(out, tag);
    push_str(out, ">\n");
}

fn push_dc_opt(out: &mut Vec<char>, tag: &str, v: &Option<String>)
    ensures
        final(out)@ == old(out)@ + dc_opt(tag@, opt_str(*v)),
{
    match v {
        Some(x) => push_dc(out, tag, x.as_str()),
        None => {
            assert(old(out)@ + Seq::<char>::empty() =~= old(out)@);
        },
    }
}

fn push_wrapped_opt(out: &mut Vec<char>, open: &str, close: &str, v: &Option<String>)
    ensures
        final(out)@ == old(out)@ + wrapped_opt(open@, close@, opt_str(*v)),
{
    match v {
        Some(x) => {
            push_str(out, open);
            let e = escape(x.as_str());
            push_str(out, e.as_str());
            push_str(out, close);
        },
        None => {
            assert(old(out)@ + Seq::<char>::empty() =~= old(out)@);
        },
    }
}

fn push_wrapped_each(out: &mut Vec<char>, open: &str, close: &str, vs: &Vec<String>)
    ensures
        final(out)@ == old(out)@ + wrapped_each(open@, close@, strs(vs@)),
{
    let ghost start = out@;
    let ghost sv = strs(vs@);
    let mut k: usize = 0;
    while k < vs.len()
        invariant
            0 <= k <= vs@.len(),
            sv == strs(vs@),
            out@ == start + wrapped_each(open@, close@, sv.subrange(0, k as int)),
        decreases vs@.len() - k,
    {
        push_str(out, open);
        let e = escape(vs[k].as_str());
        push_str(out, e.as_str());
        push_str(out, close);
        assert(sv.subrange(0, k + 1).drop_last() =~= sv.subrange(0, k as int));
        assert(out@ =~= start + wrapped_each(open@, close@, sv.subrange(0, k + 1)));
        k = k + 1;
    }
    assert(sv.subrange(0, k as int) =~= sv);
}

fn push_dc_each(out: &mut Vec<char>, tag: &str, vs: &Vec<String>)
    ensures
        final(out)@ == old(out)@ + dc_each(tag@, strs(vs@)),
{
    let ghost start = out@;
    let ghost sv = strs(vs@);
    let mut k: usize = 0;
    while k < vs.len()
        invariant
            0 <= k <= vs@.len(),
            sv == strs(vs@),
            out@ == start + dc_each(tag@, sv.subrange(0, k as int)),
        decreases vs@.len() - k,
    {
        push_dc(out, tag, vs[k].as_str());
        assert(sv.subrange(0, k + 1).drop_last() =~= sv.subrange(0, k as int));
        assert(out@ =~= start + dc_each(tag@, sv.subrange(0, k + 1)));
        k = k + 1;
    }
    assert(sv.subrange(0, k as int) =~= sv);
}

fn keep_line_exec(line: &[char]) -> (r: bool)
    ensures
        r == keep_line(line@),
{
    let t = trimmed(line);
    let ts = string_from(t.as_slice());
    let l = to_lowercase(ts.as_str());
    let lc = chars_of(l.as_str());
    let a = chars_of("<dc:identifier");
    let b = chars_of("<identifier");
    let c = chars_of("<meta");
    let d = chars_of("belongs-to-collection");
    let e = chars_of("calibre:series");
    occurs_at_exec(lc.as_slice(), a.as_slice(), 0) || occurs_at_exec(lc.as_slice(), b.as_slice(), 0) || (
    occurs_at_exec(lc.as_slice(), c.as_slice(), 0) && !contains_exec(lc.as_slice(), d.as_slice())
        && !contains_exec(lc.as_slice(), e.as_slice()))
}

fn push_kept(out: &mut Vec<char>, line: &[char])
    ensures
        final(out)@ == old(out)@ + if keep_line(line@) {
            "    "@ + trim(line@) + "\n"@
        } else {
            Seq::empty()
        },
{
    if keep_line_exec(line) {
        push_str(out, "    ");
        let t = trimmed(line);
        push_all(out, t.as_slice());
        push_str(out, "\n");
    } else {
        assert(old(out)@ + Seq::<char>::empty() =~= old(out)@);
    }
}

proof fn lemma_preserved_push(ls: Seq<Seq<char>>, l: Seq<char>)
    ensures
        preserved_lines(ls.push(l)) == preserved_lines(ls) + if keep_line(l) {
            "    "@ + trim(l) + "\n"@
        } else {
            Seq::empty()
        },
{
    assert(ls.push(l).drop_last() =~= ls);
}

/// The kept lines of `existing`, each indented and on a line of its own.
fn preserved_of(existing: &[char]) -> (r: Vec<char>)
    ensures
        r@ == preserved_lines(lines_from(existing@, Seq::empty())),
{
    let mut out: Vec<char> = Vec::new();
    let mut cur: Vec<char> = Vec::new();
    let mut i: usize = 0;
    let ghost mut done: Seq<Seq<char>> = Seq::empty();
    assert(existing@.subrange(0, existing@.len() as int) =~= existing@);
    assert(cur@ =~= Seq::<char>::empty());
    while i < existing.len()
        invariant
            0 <= i <= existing@.len(),
            out@ == preserved_lines(done),
            done + lines_from(existing@.subrange(i as int, existing@.len() as int), cur@) == lines_from(
                existing@,
                Seq::empty(),
            ),
        decreases existing@.len() - i,
    {
        let ghost rest = existing@.subrange(i as int, existing@.len() as int);
        assert(rest.drop_first() =~= existing@.subrange(i + 1, existing@.len() as int));
        if existing[i] == '\n' {
            push_kept(&mut out, cur.as_slice());
            proof {
                lemma_preserved_push(done, cur@);
                assert(done.push(cur@) + lines_from(rest.drop_first(), Seq::empty()) =~= done + lines_from(rest, cur@));
                done = done.push(cur@);
            }
            cur = Vec::new();
            assert(cur@ =~= Seq::<char>::empty());
        } else {
            cur.push(existing[i]);
        }
        i = i + 1;
    }
    if cur.len() > 0 {
        push_kept(&mut out, cur.as_slice());
        proof {
            lemma_preserved_push(done, cur@);
            assert(done + lines_from(existing@.subrange(i as int, existing@.len() as int), cur@) =~= done.push(cur@));
        }
    } else {
        assert(done + lines_from(existing@.subrange(i as int, existing@.len() as int), cur@) =~= done);
    }
    out
}

fn opf_block_exec(meta: &BookMetadata, preserved: &[char]) -> (r: Vec<char>)
    ensures
        r@ == opf_block(book_view(*meta), preserved@),
{
    let mut out = chars_of("\n");
    push_dc_opt(&mut out, "title", &meta.title);
    push_wrapped_each(&mut out, "    <dc:creator opf:role=\"aut\">", "</dc:creator>\n", &meta.authors);
    push_wrapped_each(&mut out, "    <dc:contributor opf:role=\"trl\">", "</dc:contributor>\n", &meta.translators);
    push_dc_opt(&mut out, "publisher", &meta.publisher);
    push_dc_opt(&mut out, "language", &meta.language);
    push_dc_opt(&mut out, "description", &meta.summary);
    push_dc_each(&mut out, "subject", &meta.genres);
    push_dc_opt(&mut out, "rights", &meta.rights);
    let ghost before_year = out@;
    match meta.year {
        Some(y) => {
            let c = format_i64(y as i64);
            let ys = string_from(c.as_slice());
            push_dc(&mut out, "date", ys.as_str());
        },
        None => {},
    }
    push_wrapped_opt(&mut out, "    <dc:identifier opf:scheme=\"ISBN\">", "</dc:identifier>\n", &meta.isbn);
    push_wrapped_opt(&mut out, "    <meta name=\"calibre:series\" content=\"", "\"/>\n", &meta.series);
    push_wrapped_opt(&mut out, "    <meta name=\"calibre:series_index\" content=\"", "\"/>\n", &meta.number);
    push_all(&mut out, preserved);
    push_str(&mut out, "  ");
    assert(out@ =~= opf_block(book_view(*meta), preserved@));
    out
}

/// Rewrite an OPF document's `<metadata>` block, or `None` for a document
/// whose block cannot be cut out of it on character boundaries.
pub fn try_update_opf_metadata(original: &str, meta: &BookMetadata) -> (r: Option<Result<String, NotataError>>)
    ensures
        match r {
            None => !block_cuts_ok(original@),
            Some(Ok(s)) => block_cuts_ok(original@) && update_opf_spec(original@, book_view(*meta))
                == Ok::<Seq<char>, Seq<char>>(s@),
            Some(Err(e)) => block_cuts_ok(original@) && (e matches NotataError::Custom(m)
                && update_opf_spec(original@, book_view(*meta)) == Err::<Seq<char>, Seq<char>>(m@)),
        },
{
    let (a, b) = match find_metadata_block(original) {
        Some(range) => range,
        None => {
            return Some(Err(NotataError::Custom(String::from_str("OPF has no <metadata> block to update"))));
        },
    };
    let ob = original.as_bytes();
    if b > ob.len() || !original.is_char_boundary(a) || !original.is_char_boundary(b) {
        return None;
    }
    proof {
        vstd::utf8::encode_utf8_valid_utf8(original@);
        crate::metadata::video::lemma_boundary_in_range(ob@, a as int);
    }
    let head = copy_range(ob, 0, a);
    let mid = copy_range(ob, a, b);
    let tail = copy_range(ob, b, ob.len());
    let existing = from_utf8_lossy(mid.as_slice());
    let preserved = preserved_of(chars_of(existing.as_str()).as_slice());
    let block = opf_block_exec(meta, preserved.as_slice());
    let hs = from_utf8_lossy(head.as_slice());
    let ts = from_utf8_lossy(tail.as_slice());
    let mut out = chars_of(hs.as_str());
    push_all(&mut out, block.as_slice());
    push_str(&mut out, ts.as_str());
    Some(Ok(string_from(out.as_slice())))
}

/// Rewrite an OPF document's `<metadata>` block with updated values.
///
/// The rest of the package (manifest, spine, guide) is copied verbatim,
/// because rebuilding it would break the book's reading order. Identifiers
/// and custom `<meta>` entries of the old block are kept.
pub fn update_opf_metadata(original: &str, meta: &BookMetadata) -> (r: Result<String, NotataError>)
    requires
        block_cuts_ok(original@),
    ensures
        match r {
            Ok(s) => update_opf_spec(original@, book_view(*meta)) == Ok::<Seq<char>, Seq<char>>(s@),
            Err(e) => e matches NotataError::Custom(m) && update_opf_spec(original@, book_view(*meta))
                == Err::<Seq<char>, Seq<char>>(m@),
        },
{
    match try_update_opf_metadata(original, meta) {
        Some(r) => r,
        None => Err(NotataError::Custom(String::new())),
    }
}

/// Updating keeps every character outside the `<metadata>` block: the
/// original is a head, the old block and a tail, and the update is the same
/// head, the new block and the same tail.
pub proof fn law_update_keeps_the_rest_of_the_package(original: Seq<char>, v: BookView)
    requires
        block_cuts_ok(original),
        metadata_block_spec(original) is Some,
    ensures
        update_opf_spec(original, v) matches Ok(updated) && exists|head: Seq<char>, old_block: Seq<char>, tail: Seq<char>|
            original == head + old_block + tail && updated == head + opf_block(
                v,
                preserved_lines(lines_from(old_block, Seq::empty())),
            ) + tail,
{
    let (a, b) = metadata_block_spec(original)->0;
    let ob = encode_utf8(original);
    vstd::utf8::encode_utf8_valid_utf8(original);
    vstd::utf8::encode_utf8_decode_utf8(original);
    crate::metadata::video::lemma_boundary_in_range(ob, a);
    let head_b = ob.subrange(0, a);
    let rest_b = ob.subrange(a, ob.len() as int);
    vstd::utf8::valid_utf8_split(ob, a);
    vstd::utf8::decode_utf8_split(ob, a);
    assert(rest_b.subrange(b - a, rest_b.len() as int) =~= ob.subrange(b, ob.len() as int));
    assert(rest_b.subrange(0, b - a) =~= ob.subrange(a, b));
    assert(vstd::utf8::is_char_boundary(rest_b, b - a)) by {
        crate::metadata::video::lemma_boundary_in_range(ob, b);
        if b < ob.len() {
            vstd::utf8::is_char_boundary_iff_not_is_continuation_byte(ob, b);
            vstd::utf8::is_char_boundary_iff_not_is_continuation_byte(rest_b, b - a);
            assert(rest_b[b - a] == ob[b]);
        } else {
            vstd::utf8::is_char_boundary_start_end_of_seq(rest_b);
        }
    }
    vstd::utf8::valid_utf8_split(rest_b, b - a);
    vstd::utf8::decode_utf8_split(rest_b, b - a);
    let head = decode_utf8(head_b);
    let old_block = decode_utf8(ob.subrange(a, b));
    let tail = decode_utf8(ob.subrange(b, ob.len() as int));
    assert(original == head + old_block + tail);
}

} // verus!
