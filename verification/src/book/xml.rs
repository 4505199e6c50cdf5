//! A flat reading of an XML document: every element with its text and
//! attributes, built from the events that quick-xml reports.
use vstd::prelude::*;

use quick_xml::events::Event;

use vstd::utf8::encode_utf8;

use crate::error::NotataError;
use crate::text::{
    chars_of, decimal, format_u64, parse_u32, parse_unsigned, push_all, string_from, trim, trimmed,
};

verus! {

#[verifier::external_type_specification]
#[verifier::external_body]
#[verifier::reject_recursive_types(R)]
pub struct ExXmlReader<R>(quick_xml::Reader<R>);

#[verifier::external_type_specification]
#[verifier::external_body]
pub struct ExBytesStart<'a>(quick_xml::events::BytesStart<'a>);

#[verifier::external_type_specification]
#[verifier::external_body]
pub struct ExBytesEnd<'a>(quick_xml::events::BytesEnd<'a>);

/// One element's tag name, attributes, and text content.
#[derive(Debug, Clone)]
pub struct XmlElement {
    pub name: String,
    pub text: String,
    pub attributes: Vec<(String, String)>,
}

/// What the reader reports, with names, attribute keys and values, and text
/// as strings. An attribute that does not parse is `None`.
#[derive(Debug)]
pub enum XmlEvent {
    Start(String, Vec<Option<(String, String)>>),
    Empty(String, Vec<Option<(String, String)>>),
    End(String),
    Text(String),
    GeneralRef(String),
    Eof,
    Failed(u64, String),
    Other,
}

/// The raw name of a start or empty tag (`BytesStart::name`).
#[verifier::external_body]
fn tag_name(e: &quick_xml::events::BytesStart) -> String {
    e.name().0.to_string()
}

/// The raw name of an end tag (`BytesEnd::name`).
#[verifier::external_body]
fn end_name(e: &quick_xml::events::BytesEnd) -> String {
    e.name().0.to_string()
}

/// The attributes of a tag (`BytesStart::attributes`), key and value as
/// written; `None` for one that does not parse.
#[verifier::external_body]
fn tag_attributes(e: &quick_xml::events::BytesStart) -> Vec<Option<(String, String)>> {
    e.attributes().map(|a| a.ok().map(|a| (a.key.0.to_string(), a.value.to_string()))).collect()
}

/// `Reader::read_event`. What comes back depends on how far the reader has
/// got, so nothing is promised about it.
#[verifier::external_body]
fn next_event(reader: &mut quick_xml::Reader<&[u8]>) -> XmlEvent {
    match reader.read_event() {
        Ok(Event::Start(e)) => XmlEvent::Start(tag_name(&e), tag_attributes(&e)),
        Ok(Event::Empty(e)) => XmlEvent::Empty(tag_name(&e), tag_attributes(&e)),
        Ok(Event::End(e)) => XmlEvent::End(end_name(&e)),
        Ok(Event::Text(e)) => XmlEvent::Text(e.xml_content(quick_xml::XmlVersion::Implicit1_0).into_owned()),
        Ok(Event::GeneralRef(e)) => XmlEvent::GeneralRef(e.to_string()),
        Ok(Event::Eof) => XmlEvent::Eof,
        Err(e) => XmlEvent::Failed(reader.buffer_position(), e.to_string()),
        Ok(_) => XmlEvent::Other,
    }
}

/// An attribute as the reader reports it, by its views.
pub open spec fn attr_view(a: Option<(String, String)>) -> Option<(Seq<char>, Seq<char>)> {
    match a {
        Some((k, v)) => Some((k@, v@)),
        None => None,
    }
}

pub open spec fn attrs_view(a: Seq<Option<(String, String)>>) -> Seq<Option<(Seq<char>, Seq<char>)>> {
    Seq::new(a.len(), |i: int| attr_view(a[i]))
}

/// A reader event as the contracts speak of it.
pub ghost enum EventView {
    Start(Seq<char>, Seq<Option<(Seq<char>, Seq<char>)>>),
    Empty(Seq<char>, Seq<Option<(Seq<char>, Seq<char>)>>),
    End(Seq<char>),
    Text(Seq<char>),
    GeneralRef(Seq<char>),
    Eof,
    Failed(nat, Seq<char>),
    Other,
}

pub open spec fn event_view(e: XmlEvent) -> EventView {
    match e {
        XmlEvent::Start(n, a) => EventView::Start(n@, attrs_view(a@)),
        XmlEvent::Empty(n, a) => EventView::Empty(n@, attrs_view(a@)),
        XmlEvent::End(n) => EventView::End(n@),
        XmlEvent::Text(t) => EventView::Text(t@),
        XmlEvent::GeneralRef(g) => EventView::GeneralRef(g@),
        XmlEvent::Eof => EventView::Eof,
        XmlEvent::Failed(p, m) => EventView::Failed(p as nat, m@),
        XmlEvent::Other => EventView::Other,
    }
}

pub open spec fn events_view(v: Seq<XmlEvent>) -> Seq<EventView> {
    Seq::new(v.len(), |i: int| event_view(v[i]))
}

/// The events quick-xml reads from a document, from the start up to and
/// including the end of the document or its first error: a function of
/// the text alone, named rather than restated.
pub uninterp spec fn xml_events(xml: Seq<char>) -> Seq<EventView>;

/// Reads `xml` with a fresh `quick_xml::Reader::from_str` until it reports
/// the end of the document or an error. The events are named by
/// `xml_events`; as the loop here returns only after such an event, there is
/// at least one, the last is the end or an error, and no earlier one is.
#[verifier::external_body]
fn read_events(xml: &str) -> (r: Vec<XmlEvent>)
    ensures
        events_view(r@) == xml_events(xml@),
        r@.len() >= 1,
        is_terminal(r@.last()),
        forall|i: int| 0 <= i < r@.len() - 1 ==> !is_terminal(#[trigger] r@[i]),
{
    let mut reader = quick_xml::Reader::from_str(xml);
    let mut events = Vec::new();
    loop {
        let ev = next_event(&mut reader);
        let end = matches!(ev, XmlEvent::Eof | XmlEvent::Failed(_, _));
        events.push(ev);
        if end {
            return events;
        }
    }
}

/// The events a document is read as: quick-xml's events, at most one more
/// than the document has bytes.
pub open spec fn reader_events(xml: Seq<char>) -> Seq<EventView> {
    let evs = xml_events(xml);
    let n = encode_utf8(xml).len();
    if evs.len() <= n + 1 {
        evs
    } else {
        evs.subrange(0, n + 1 as int)
    }
}

/// Events whose views are those quick-xml reads from `xml`.
pub open spec fn events_of(xml: Seq<char>) -> Seq<XmlEvent> {
    choose|evs: Seq<XmlEvent>| events_view(evs) == reader_events(xml)
}

/// The elements a document describes, as quick-xml reads it.
pub open spec fn document_elements(xml: Seq<char>) -> Result<Seq<ElementView>, Seq<char>> {
    elements_spec(events_of(xml))
}

/// A name without its namespace prefix: what follows the last `:`.
pub open spec fn local_name_spec(s: Seq<char>) -> Seq<char>
    decreases s.len(),
{
    if s.len() == 0 {
        s
    } else if s.last() == ':' {
        Seq::empty()
    } else {
        local_name_spec(s.drop_last()).push(s.last())
    }
}

#[verifier::spinoff_prover]
pub fn local_name(s: &str) -> (r: String)
    ensures
        r@ == local_name_spec(s@),
{
    let c = chars_of(s);
    let mut k: usize = c.len();
    assert(c@.subrange(0, k as int) =~= c@);
    assert(c@.subrange(k as int, c@.len() as int) =~= Seq::<char>::empty());
    while k > 0 && c[k - 1] != ':'
        invariant
            k <= c@.len(),
            local_name_spec(c@) == local_name_spec(c@.subrange(0, k as int)) + c@.subrange(k as int, c@.len() as int),
        decreases k,
    {
        proof {
            let t = c@.subrange(0, k as int);
            assert(t.drop_last() =~= c@.subrange(0, k - 1));
            assert(c@.subrange(k - 1, c@.len() as int) =~= seq![t.last()] + c@.subrange(k as int, c@.len() as int));
        }
        k = k - 1;
    }
    proof {
        let t = c@.subrange(0, k as int);
        assert(local_name_spec(t) =~= Seq::<char>::empty());
        assert(local_name_spec(c@) =~= c@.subrange(k as int, c@.len() as int));
    }
    let tail = crate::text::slice_range(c.as_slice(), k, c.len());
    string_from(tail.as_slice())
}

pub open spec fn is_hex_digit(c: char) -> bool {
    ('0' <= c && c <= '9') || ('a' <= c && c <= 'f') || ('A' <= c && c <= 'F')
}

pub open spec fn hex_digit_value(c: char) -> nat {
    if '0' <= c && c <= '9' {
        (c as nat - '0' as nat) as nat
    } else if 'a' <= c && c <= 'f' {
        (c as nat - 'a' as nat + 10) as nat
    } else {
        (c as nat - 'A' as nat + 10) as nat
    }
}

pub open spec fn all_hex(s: Seq<char>) -> bool {
    forall|i: int| 0 <= i < s.len() ==> is_hex_digit(#[trigger] s[i])
}

pub open spec fn hex_value(s: Seq<char>) -> nat
    decreases s.len(),
{
    if s.len() == 0 { 0 } else { hex_value(s.drop_last()) * 16 + hex_digit_value(s.last()) }
}

/// What `u32::from_str_radix(s, 16)` reads: an optional `+`, then at least
/// one hexadecimal digit, the value fitting 32 bits.
pub open spec fn parse_hex_spec(s: Seq<char>) -> Option<nat> {
    let body = if s.len() > 0 && s[0] == '+' { s.drop_first() } else { s };
    if body.len() > 0 && all_hex(body) && hex_value(body) <= u32::MAX {
        Some(hex_value(body))
    } else {
        None
    }
}

proof fn lemma_hex_prefix_le(s: Seq<char>, k: int)
    requires
        0 <= k <= s.len(),
    ensures
        hex_value(s.subrange(0, k)) <= hex_value(s),
    decreases s.len() - k,
{
    if k < s.len() {
        lemma_hex_prefix_le(s.drop_last(), k);
        assert(s.drop_last().subrange(0, k) =~= s.subrange(0, k));
    } else {
        assert(s.subrange(0, k) =~= s);
    }
}

fn parse_hex(s: &[char]) -> (r: Option<u32>)
    ensures
        match r {
            Some(v) => parse_hex_spec(s@) == Some(v as nat),
            None => parse_hex_spec(s@) is None,
        },
{
    let start: usize = if s.len() > 0 && s[0] == '+' { 1 } else { 0 };
    let ghost body = if s@.len() > 0 && s@[0] == '+' { s@.drop_first() } else { s@ };
    assert(body =~= s@.subrange(start as int, s@.len() as int));
    if start == s.len() {
        return None;
    }
    let mut acc: u64 = 0;
    let mut k = start;
    while k < s.len()
        invariant
            start <= k <= s@.len(),
            body == s@.subrange(start as int, s@.len() as int),
            body == (if s@.len() > 0 && s@[0] == '+' { s@.drop_first() } else { s@ }),
            forall|i: int| 0 <= i < k - start ==> is_hex_digit(#[trigger] body[i]),
            acc == hex_value(body.subrange(0, k - start)),
            acc <= u32::MAX,
        decreases s@.len() - k,
    {
        let c = s[k];
        assert(body[k - start] == c);
        let d: u64 = if '0' <= c && c <= '9' {
            (c as u32 - '0' as u32) as u64
        } else if 'a' <= c && c <= 'f' {
            (c as u32 - 'a' as u32 + 10) as u64
        } else if 'A' <= c && c <= 'F' {
            (c as u32 - 'A' as u32 + 10) as u64
        } else {
            assert(!is_hex_digit(body[k - start]));
            assert(!all_hex(body));
            return None;
        };
        assert(body.subrange(0, k - start + 1).drop_last() =~= body.subrange(0, k - start));
        assert(body.subrange(0, k - start + 1).last() == c);
        acc = acc * 16 + d;
        if acc > 4294967295 {
            proof {
                lemma_hex_prefix_le(body, k - start + 1);
                assert(hex_value(body) > u32::MAX);
                assert(!(hex_value(body) <= u32::MAX));
            }
            return None;
        }
        k = k + 1;
    }
    assert(body.subrange(0, s@.len() - start) =~= body);
    Some(acc as u32)
}

/// A `u32` that is a Unicode scalar value.
pub open spec fn is_scalar(code: nat) -> bool {
    code <= 0x10FFFF && !(0xD800 <= code <= 0xDFFF)
}

/// `char::from_u32`: the character with that code point, for a scalar value.
#[verifier::external_body]
fn char_from_u32(code: u32) -> (r: Option<char>)
    ensures
        match r {
            Some(c) => is_scalar(code as nat) && c as u32 == code,
            None => !is_scalar(code as nat),
        },
{
    char::from_u32(code)
}

/// The character an entity or character reference stands for.
pub open spec fn resolve_entity_spec(name: Seq<char>) -> Option<u32> {
    if name == "amp"@ {
        Some('&' as u32)
    } else if name == "lt"@ {
        Some('<' as u32)
    } else if name == "gt"@ {
        Some('>' as u32)
    } else if name == "quot"@ {
        Some('"' as u32)
    } else if name == "apos"@ {
        Some('\'' as u32)
    } else if name.len() > 0 && name[0] == '#' {
        let digits = name.drop_first();
        let code = if digits.len() > 0 && (digits[0] == 'x' || digits[0] == 'X') {
            parse_hex_spec(digits.drop_first())
        } else {
            match parse_unsigned(digits) {
                Some(v) => if v <= u32::MAX { Some(v) } else { None },
                None => None,
            }
        };
        match code {
            Some(c) => if is_scalar(c) { Some(c as u32) } else { None },
            None => None,
        }
    } else {
        None
    }
}

pub(crate) fn resolve_entity(name: &str) -> (r: Option<char>)
    ensures
        match r {
            Some(c) => resolve_entity_spec(name@) == Some(c as u32),
            None => resolve_entity_spec(name@) is None,
        },
{
    if crate::text::str_eq(name, "amp") {
        return Some('&');
    } else if crate::text::str_eq(name, "lt") {
        return Some('<');
    } else if crate::text::str_eq(name, "gt") {
        return Some('>');
    } else if crate::text::str_eq(name, "quot") {
        return Some('"');
    } else if crate::text::str_eq(name, "apos") {
        return Some('\'');
    }
    let c = chars_of(name);
    if c.len() == 0 || c[0] != '#' {
        return None;
    }
    let digits = crate::text::slice_range(c.as_slice(), 1, c.len());
    assert(digits@ =~= name@.drop_first());
    let code = if digits.len() > 0 && (digits[0] == 'x' || digits[0] == 'X') {
        let hex = crate::text::slice_range(digits.as_slice(), 1, digits.len());
        assert(hex@ =~= digits@.drop_first());
        parse_hex(hex.as_slice())
    } else {
        parse_u32(digits.as_slice())
    };
    match code {
        Some(v) => char_from_u32(v),
        None => None,
    }
}


pub ghost struct ElementView {
    pub name: Seq<char>,
    pub text: Seq<char>,
    pub attributes: Seq<(Seq<char>, Seq<char>)>,
}

pub open spec fn pairs_view(v: Seq<(String, String)>) -> Seq<(Seq<char>, Seq<char>)> {
    Seq::new(v.len(), |i: int| (v[i].0@, v[i].1@))
}

pub open spec fn element_view(e: XmlElement) -> ElementView {
    ElementView { name: e.name@, text: e.text@, attributes: pairs_view(e.attributes@) }
}

pub open spec fn elements_view(v: Seq<XmlElement>) -> Seq<ElementView> {
    Seq::new(v.len(), |i: int| element_view(v[i]))
}

/// The attributes that parsed, with their keys stripped of namespace prefixes.
pub open spec fn clean_attrs(a: Seq<Option<(String, String)>>) -> Seq<(Seq<char>, Seq<char>)>
    decreases a.len(),
{
    if a.len() == 0 {
        Seq::empty()
    } else {
        clean_attrs(a.drop_last()) + match a.last() {
            Some((k, v)) => seq![(local_name_spec(k@), v@)],
            None => Seq::empty(),
        }
    }
}

/// Open elements, the text read since the last tag, and the elements done.
#[verifier::ext_equal]
pub ghost struct XmlState {
    pub stack: Seq<(Seq<char>, Seq<(Seq<char>, Seq<char>)>)>,
    pub text: Seq<char>,
    pub out: Seq<ElementView>,
}

/// One event applied to the reading state. An element is recorded when it
/// closes, with its text trimmed; text is gathered per element, entity
/// references included, and starts afresh at every tag.
pub open spec fn step(st: XmlState, ev: XmlEvent) -> XmlState {
    match ev {
        XmlEvent::Start(n, a) => XmlState {
            stack: st.stack.push((local_name_spec(n@), clean_attrs(a@))),
            text: Seq::empty(),
            ..st
        },
        XmlEvent::Empty(n, a) => XmlState {
            out: st.out.push(ElementView { name: local_name_spec(n@), text: Seq::empty(), attributes: clean_attrs(a@) }),
            ..st
        },
        XmlEvent::End(_) => if st.stack.len() > 0 {
            XmlState {
                stack: st.stack.drop_last(),
                text: Seq::empty(),
                out: st.out.push(ElementView { name: st.stack.last().0, text: trim(st.text), attributes: st.stack.last().1 }),
            }
        } else {
            XmlState { text: Seq::empty(), ..st }
        },
        XmlEvent::Text(t) => XmlState { text: st.text + t@, ..st },
        XmlEvent::GeneralRef(g) => match resolve_entity_spec(g@) {
            Some(c) => XmlState { text: st.text.push(c as char), ..st },
            None => st,
        },
        _ => st,
    }
}

pub open spec fn malformed_message(pos: nat, msg: Seq<char>) -> Seq<char> {
    "Malformed XML at position "@ + decimal(pos) + ": "@ + msg
}

/// The elements a run of events describes, up to the end of the document;
/// a reader error ends the run with the error.
pub open spec fn run_events(evs: Seq<XmlEvent>, i: int, st: XmlState) -> Result<Seq<ElementView>, Seq<char>>
    decreases evs.len() - i,
{
    if i < 0 || i >= evs.len() {
        Ok(st.out)
    } else {
        match evs[i] {
            XmlEvent::Eof => Ok(st.out),
            XmlEvent::Failed(p, m) => Err(malformed_message(p as nat, m@)),
            _ => run_events(evs, i + 1, step(st, evs[i])),
        }
    }
}

pub open spec fn elements_spec(evs: Seq<XmlEvent>) -> Result<Seq<ElementView>, Seq<char>> {
    run_events(evs, 0, XmlState { stack: Seq::empty(), text: Seq::empty(), out: Seq::empty() })
}

pub open spec fn stack_view(v: Seq<(String, Vec<(String, String)>)>) -> Seq<(Seq<char>, Seq<(Seq<char>, Seq<char>)>)> {
    Seq::new(v.len(), |i: int| (v[i].0@, pairs_view(v[i].1@)))
}

/// Whether a result of reading agrees with what the events describe.
pub open spec fn read_matches(r: Result<Vec<XmlElement>, NotataError>, e: Result<Seq<ElementView>, Seq<char>>) -> bool {
    match r {
        Ok(v) => e == Ok::<Seq<ElementView>, Seq<char>>(elements_view(v@)),
        Err(err) => err matches NotataError::Custom(m) && e == Err::<Seq<ElementView>, Seq<char>>(m@),
    }
}

fn attributes_of(a: &Vec<Option<(String, String)>>) -> (r: Vec<(String, String)>)
    ensures
        pairs_view(r@) == clean_attrs(a@),
{
    let mut out: Vec<(String, String)> = Vec::new();
    let mut k: usize = 0;
    while k < a.len()
        invariant
            0 <= k <= a@.len(),
            pairs_view(out@) == clean_attrs(a@.subrange(0, k as int)),
        decreases a@.len() - k,
    {
        let ghost before = pairs_view(out@);
        assert(a@.subrange(0, k + 1).drop_last() =~= a@.subrange(0, k as int));
        match &a[k] {
            Some((key, value)) => {
                out.push((local_name(key.as_str()), value.clone()));
                assert(pairs_view(out@) =~= before + seq![(local_name_spec(key@), value@)]);
            },
            None => {
                assert(pairs_view(out@) =~= before + Seq::<(Seq<char>, Seq<char>)>::empty());
            },
        }
        k = k + 1;
    }
    assert(a@.subrange(0, k as int) =~= a@);
    out
}

fn malformed(pos: u64, msg: &String) -> (r: NotataError)
    ensures
        r matches NotataError::Custom(m) && m@ == malformed_message(pos as nat, msg@),
{
    let mut v = chars_of("Malformed XML at position ");
    let d = format_u64(pos);
    push_all(&mut v, d.as_slice());
    let mid = chars_of(": ");
    push_all(&mut v, mid.as_slice());
    let m = chars_of(msg.as_str());
    push_all(&mut v, m.as_slice());
    NotataError::Custom(string_from(v.as_slice()))
}

/// The elements that a run of reader events describes: each element with
/// its trimmed text and its attributes, in the order the elements close.
pub fn elements_from_events(events: &[XmlEvent]) -> (r: Result<Vec<XmlElement>, NotataError>)
    ensures
        read_matches(r, elements_spec(events@)),
{
    let mut stack: Vec<(String, Vec<(String, String)>)> = Vec::new();
    let mut text: Vec<char> = Vec::new();
    let mut out: Vec<XmlElement> = Vec::new();
    let mut i: usize = 0;
    assert(XmlState { stack: stack_view(stack@), text: text@, out: elements_view(out@) } =~= XmlState {
        stack: Seq::empty(),
        text: Seq::empty(),
        out: Seq::empty(),
    });
    while i < events.len()
        invariant
            0 <= i <= events@.len(),
            run_events(events@, i as int, XmlState { stack: stack_view(stack@), text: text@, out: elements_view(out@) })
                == elements_spec(events@),
        decreases events@.len() - i,
    {
        let ghost st = XmlState { stack: stack_view(stack@), text: text@, out: elements_view(out@) };
        match &events[i] {
            XmlEvent::Eof => {
                return Ok(out);
            },
            XmlEvent::Failed(p, m) => {
                return Err(malformed(*p, m));
            },
            XmlEvent::Start(n, a) => {
                let attrs = attributes_of(a);
                stack.push((local_name(n.as_str()), attrs));
                text = Vec::new();
                assert(stack_view(stack@) =~= st.stack.push((local_name_spec(n@), clean_attrs(a@))));
            },
            XmlEvent::Empty(n, a) => {
                let attrs = attributes_of(a);
                out.push(XmlElement { name: local_name(n.as_str()), text: String::new(), attributes: attrs });
                assert(elements_view(out@) =~= st.out.push(
                    ElementView { name: local_name_spec(n@), text: Seq::empty(), attributes: clean_attrs(a@) },
                ));
            },
            XmlEvent::End(_) => {
                match stack.pop() {
                    Some((name, attrs)) => {
                        let t = trimmed(text.as_slice());
                        out.push(XmlElement { name, text: string_from(t.as_slice()), attributes: attrs });
                        assert(stack_view(stack@) =~= st.stack.drop_last());
                        assert(elements_view(out@) =~= st.out.push(
                            ElementView { name: st.stack.last().0, text: trim(st.text), attributes: st.stack.last().1 },
                        ));
                    },
                    None => {},
                }
                text = Vec::new();
                assert(text@ =~= Seq::<char>::empty());
            },
            XmlEvent::Text(t) => {
                let tc = chars_of(t.as_str());
                push_all(&mut text, tc.as_slice());
            },
            XmlEvent::GeneralRef(g) => {
                match resolve_entity(g.as_str()) {
                    Some(c) => {
                        text.push(c);
                        proof {
                            vstd::utf8::char_u32_cast(c, c as u32);
                        }
                    },
                    None => {},
                }
            },
            XmlEvent::Other => {},
        }
        assert(XmlState { stack: stack_view(stack@), text: text@, out: elements_view(out@) } =~= step(
            st,
            events@[i as int],
        ));
        i = i + 1;
    }
    Ok(out)
}

/// Read a flat list of every element with its text and attributes.
///
/// Text is gathered per element rather than per event: entity references
/// arrive as events of their own, so reading only text events would cut
/// any value holding `&`, `<` or `>`. The events are what quick-xml reads
/// from `xml`; the result is what those events describe.
pub fn read_all(xml: &str) -> (r: Result<Vec<XmlElement>, NotataError>)
    ensures
        read_matches(r, document_elements(xml@)),
{
    let events = collect_events(xml);
    proof {
        let w = events_of(xml@);
        assert(events_view(events@) == reader_events(xml@));
        assert(events_view(w) == reader_events(xml@));
        lemma_elements_by_view(events@, w);
    }
    elements_from_events(events.as_slice())
}

/// Whether an event ends the reading: the end of the document or an error.
pub open spec fn is_terminal(ev: XmlEvent) -> bool {
    ev is Eof || ev is Failed
}

/// How the events were collected from a document of `n` bytes: at least
/// one and at most one per byte and one more; none but the last ends the
/// reading, and the last does unless the reading was cut off after `n + 1`
/// events.
pub open spec fn collected(evs: Seq<XmlEvent>, n: nat) -> bool {
    &&& 1 <= evs.len() <= n + 1
    &&& forall|i: int| 0 <= i < evs.len() - 1 ==> !is_terminal(#[trigger] evs[i])
    &&& is_terminal(evs.last()) || evs.len() == n + 1
}

/// The events quick-xml reads from `xml`, up to and including the end of
/// the document or the first error. Every event but the last consumes at
/// least one byte of input, so reading stops after one event more than the
/// document has bytes.
pub(crate) fn collect_events(xml: &str) -> (r: Vec<XmlEvent>)
    ensures
        collected(r@, encode_utf8(xml@).len()),
        events_view(r@) == reader_events(xml@),
{
    let mut events = read_events(xml);
    let n = xml.as_bytes().len();
    let ghost all = events@;
    assert(n == encode_utf8(xml@).len());
    assert(events_view(all) == xml_events(xml@));
    if events.len() - 1 > n {
        events.truncate(n + 1);
        assert(events@ =~= all.subrange(0, n + 1));
        assert(events_view(events@) =~= events_view(all).subrange(0, n + 1));
        assert forall|i: int| 0 <= i < events@.len() - 1 implies !is_terminal(#[trigger] events@[i]) by {
            assert(events@[i] == all[i]);
        }
    }
    events
}


pub open spec fn name_text_view(v: Seq<(String, String)>) -> Seq<(Seq<char>, Seq<char>)> {
    Seq::new(v.len(), |i: int| (v[i].0@, v[i].1@))
}

/// Each element's name paired with its text.
pub open spec fn name_text_pairs(es: Seq<ElementView>) -> Seq<(Seq<char>, Seq<char>)> {
    Seq::new(es.len(), |i: int| (es[i].name, es[i].text))
}

/// Convenience for flat schemas: element name paired with its text.
pub fn read_elements(xml: &str) -> (r: Result<Vec<(String, String)>, NotataError>)
    ensures
        match document_elements(xml@) {
            Ok(es) => r matches Ok(v) && name_text_view(v@) == name_text_pairs(es),
            Err(m) => r matches Err(e) && (e matches NotataError::Custom(t) && t@ == m),
        },
{
    let all = read_all(xml);
    match all {
        Err(e) => Err(e),
        Ok(elements) => {
            let mut out: Vec<(String, String)> = Vec::new();
            let mut k: usize = 0;
            while k < elements.len()
                invariant
                    0 <= k <= elements@.len(),
                    name_text_view(out@) == name_text_pairs(elements_view(elements@)).subrange(0, k as int),
                decreases elements@.len() - k,
            {
                let nm = elements[k].name.clone();
                let tx = elements[k].text.clone();
                assert(nm@ == elements@[k as int].name@ && tx@ == elements@[k as int].text@);
                let ghost before = out@;
                out.push((nm, tx));
                assert(out@ == before.push((nm, tx)));
                assert(elements_view(elements@)[k as int] == element_view(elements@[k as int]));
                assert(name_text_pairs(elements_view(elements@))[k as int] == (nm@, tx@));
                assert(name_text_view(out@) =~= name_text_view(before).push((nm@, tx@)));
                assert(name_text_view(out@) =~= name_text_pairs(elements_view(elements@)).subrange(0, k + 1));
                k = k + 1;
            }
            assert(name_text_view(out@) =~= name_text_pairs(elements_view(elements@)));
            Ok(out)
        },
    }
}

/// A character as it stands in escaped XML text.
pub open spec fn escape_char(c: char) -> Seq<char> {
    if c == '&' {
        "&amp;"@
    } else if c == '<' {
        "&lt;"@
    } else if c == '>' {
        "&gt;"@
    } else if c == '"' {
        "&quot;"@
    } else {
        seq![c]
    }
}

/// `&`, `<`, `>` and `"` written as entity references.
pub open spec fn escape_spec(s: Seq<char>) -> Seq<char>
    decreases s.len(),
{
    if s.len() == 0 { Seq::empty() } else { escape_spec(s.drop_last()) + escape_char(s.last()) }
}

pub fn escape(value: &str) -> (r: String)
    ensures
        r@ == escape_spec(value@),
{
    let c = chars_of(value);
    let amp = chars_of("&amp;");
    let lt = chars_of("&lt;");
    let gt = chars_of("&gt;");
    let quot = chars_of("&quot;");
    let mut out: Vec<char> = Vec::new();
    let mut k: usize = 0;
    while k < c.len()
        invariant
            0 <= k <= c@.len(),
            c@ == value@,
            amp@ == "&amp;"@,
            lt@ == "&lt;"@,
            gt@ == "&gt;"@,
            quot@ == "&quot;"@,
            out@ == escape_spec(c@.subrange(0, k as int)),
        decreases c@.len() - k,
    {
        let x = c[k];
        if x == '&' {
            push_all(&mut out, amp.as_slice());
        } else if x == '<' {
            push_all(&mut out, lt.as_slice());
        } else if x == '>' {
            push_all(&mut out, gt.as_slice());
        } else if x == '"' {
            push_all(&mut out, quot.as_slice());
        } else {
            out.push(x);
        }
        assert(c@.subrange(0, k + 1).drop_last() =~= c@.subrange(0, k as int));
        assert(out@ =~= escape_spec(c@.subrange(0, k + 1)));
        k = k + 1;
    }
    assert(c@.subrange(0, k as int) =~= c@);
    string_from(out.as_slice())
}

proof fn lemma_clean_attrs_view(a: Seq<Option<(String, String)>>, b: Seq<Option<(String, String)>>)
    requires
        attrs_view(a) == attrs_view(b),
    ensures
        clean_attrs(a) == clean_attrs(b),
    decreases a.len(),
{
    assert(a.len() == attrs_view(a).len());
    assert(b.len() == attrs_view(b).len());
    if a.len() > 0 {
        assert(attrs_view(a.drop_last()) =~= attrs_view(b.drop_last())) by {
            assert forall|i: int| 0 <= i < a.len() - 1 implies attrs_view(a.drop_last())[i] == attrs_view(b.drop_last())[i] by {
                assert(attrs_view(a)[i] == attrs_view(b)[i]);
            }
        }
        lemma_clean_attrs_view(a.drop_last(), b.drop_last());
        assert(attrs_view(a)[a.len() - 1] == attrs_view(b)[b.len() - 1]);
        assert(attr_view(a.last()) == attr_view(b.last()));
    }
}

/// Reading goes by what the events say, not by how they are held.
pub proof fn lemma_step_by_view(st: XmlState, x: XmlEvent, y: XmlEvent)
    requires
        event_view(x) == event_view(y),
    ensures
        step(st, x) == step(st, y),
{
    match (x, y) {
        (XmlEvent::Start(n, a), XmlEvent::Start(n2, a2)) => {
            lemma_clean_attrs_view(a@, a2@);
        },
        (XmlEvent::Empty(n, a), XmlEvent::Empty(n2, a2)) => {
            lemma_clean_attrs_view(a@, a2@);
        },
        _ => {},
    }
}

proof fn lemma_run_events_by_view(a: Seq<XmlEvent>, b: Seq<XmlEvent>, i: int, st: XmlState)
    requires
        events_view(a) == events_view(b),
    ensures
        run_events(a, i, st) == run_events(b, i, st),
    decreases a.len() - i,
{
    assert(a.len() == events_view(a).len() && b.len() == events_view(b).len());
    if 0 <= i < a.len() {
        assert(events_view(a)[i] == event_view(a[i]));
        assert(events_view(b)[i] == event_view(b[i]));
        lemma_step_by_view(st, a[i], b[i]);
        lemma_run_events_by_view(a, b, i + 1, step(st, a[i]));
    }
}

/// What a reading gives is determined by the events' views: two event
/// lists that say the same are read the same.
pub proof fn lemma_elements_by_view(a: Seq<XmlEvent>, b: Seq<XmlEvent>)
    requires
        events_view(a) == events_view(b),
    ensures
        elements_spec(a) == elements_spec(b),
{
    lemma_run_events_by_view(a, b, 0, XmlState { stack: Seq::empty(), text: Seq::empty(), out: Seq::empty() });
}

} // verus!
