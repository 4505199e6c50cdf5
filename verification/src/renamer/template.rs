//! Rename templates: parsing `{field}` / `[optional]` / `%` escapes into
//! tokens, and rendering tokens against a file's field values into a
//! relative path.
use vstd::prelude::*;
use vstd::hash_map::StringHashMap;

use crate::text::{
    chars_of, decimal, format_i64, format_u64, is_control, is_control_char, lowercase, pad_left,
    pad_left_exec, parse_i64, parse_signed, parse_unsigned, parse_usize, push_all,
    signed_decimal, slice_range, string_from, to_lowercase, trim, trimmed, lemma_trim_chars, is_ws,
    trim_start, trim_end,
};

verus! {

/// One parsed piece of a rename template.
#[derive(Debug)]
pub enum Token {
    Literal(String),
    /// `{name}` or `{name:03}` — the spec zero-pads numeric values.
    Field { name: String, pad: Option<usize> },
    /// `[...]` — dropped entirely if any field inside resolves to empty.
    Optional(Vec<Token>),
}

/// The mathematical content of a [`Token`].
pub enum TokenView {
    Literal(Seq<char>),
    Field { name: Seq<char>, pad: Option<usize> },
    Optional(Seq<TokenView>),
}

pub open spec fn token_view(t: Token) -> TokenView
    decreases t,
{
    match t {
        Token::Literal(s) => TokenView::Literal(s@),
        Token::Field { name, pad } => TokenView::Field { name: name@, pad },
        Token::Optional(v) => {
            proof {
                assert(decreases_to!(v => v@));
            }
            TokenView::Optional(tokens_view(v@))
        },
    }
}

pub open spec fn tokens_view(ts: Seq<Token>) -> Seq<TokenView>
    decreases ts,
{
    if ts.len() == 0 {
        Seq::empty()
    } else {
        proof {
            assert(decreases_to!(ts => ts[ts.len() - 1]));
            assert(decreases_to!(ts => ts.subrange(0, ts.len() - 1)));
        }
        tokens_view(ts.drop_last()).push(token_view(ts.last()))
    }
}

/// Field values for one file: template field name to value.
pub struct FieldValues {
    map: StringHashMap<String>,
}

impl View for FieldValues {
    type V = Map<Seq<char>, Seq<char>>;

    closed spec fn view(&self) -> Map<Seq<char>, Seq<char>> {
        self.map@.map_values(|v: String| v@)
    }
}

impl FieldValues {
    pub fn new() -> (r: Self)
        ensures
            r@ == Map::<Seq<char>, Seq<char>>::empty(),
    {
        let r = FieldValues { map: StringHashMap::new() };
        assert(r@ =~= Map::<Seq<char>, Seq<char>>::empty());
        r
    }

    /// Set `key` to `value`, replacing any earlier value.
    pub fn insert(&mut self, key: String, value: String)
        ensures
            final(self)@ == old(self)@.insert(key@, value@),
    {
        let ghost k = key@;
        let ghost v = value@;
        self.map.insert(key, value);
        assert(self@ =~= old(self)@.insert(k, v));
    }

    /// The value stored for `key`, if any.
    pub fn get(&self, key: &str) -> (r: Option<&String>)
        ensures
            match r {
                Some(v) => self@.contains_key(key@) && v@ == self@[key@],
                None => !self@.contains_key(key@),
            },
    {
        self.map.get(key)
    }
}

/// The value a template sees for `name`: missing fields read as empty.
pub open spec fn lookup(values: Map<Seq<char>, Seq<char>>, name: Seq<char>) -> Seq<char> {
    if values.contains_key(name) {
        values[name]
    } else {
        Seq::empty()
    }
}

// ---------------------------------------------------------------- parsing

pub type ParseStep = Result<(Seq<TokenView>, int), Seq<char>>;

/// First index `>= from` holding `c`.
pub open spec fn find_from(s: Seq<char>, from: int, c: char) -> Option<int>
    decreases s.len() - from,
{
    if from < 0 || from >= s.len() {
        None
    } else if s[from] == c {
        Some(from)
    } else {
        find_from(s, from + 1, c)
    }
}

/// The pending literal text closed off as a token, if there is any.
pub open spec fn flush(toks: Seq<TokenView>, lit: Seq<char>) -> Seq<TokenView> {
    if lit.len() > 0 {
        toks.push(TokenView::Literal(lit))
    } else {
        toks
    }
}

pub open spec fn msg_unclosed_brace(pos: int) -> Seq<char> {
    "Unclosed '{' at position "@ + decimal(pos as nat)
}

pub open spec fn msg_unclosed_group_at(pos: int) -> Seq<char> {
    "Unclosed '[' at position "@ + decimal(pos as nat)
}

pub open spec fn msg_unmatched(pos: int) -> Seq<char> {
    "Unmatched ']' at position "@ + decimal(pos as nat)
}

pub open spec fn msg_unexpected(pos: int) -> Seq<char> {
    "Unexpected ']' at position "@ + decimal(pos as nat)
}

pub open spec fn msg_unclosed_group() -> Seq<char> {
    "Unclosed '['"@
}

pub open spec fn msg_empty_field() -> Seq<char> {
    "Empty field name in '{}'"@
}

pub open spec fn msg_invalid_pad(spec: Seq<char>, name: Seq<char>) -> Seq<char> {
    "Invalid pad width '"@ + spec + "' for field '"@ + name + "'"@
}

/// The token a `{...}` body denotes: `name` or `name:width`.
pub open spec fn field_spec(inner: Seq<char>) -> Result<TokenView, Seq<char>> {
    if trim(inner).len() == 0 {
        Err(msg_empty_field())
    } else {
        match find_from(inner, 0, ':') {
            Some(k) => {
                let name = inner.subrange(0, k);
                let width = inner.subrange(k + 1, inner.len() as int);
                match parse_unsigned(trim(width)) {
                    Some(w) => if w <= usize::MAX {
                        Ok(TokenView::Field { name: lowercase(trim(name)), pad: Some(w as usize) })
                    } else {
                        Err(msg_invalid_pad(width, name))
                    },
                    None => Err(msg_invalid_pad(width, name)),
                }
            },
            None => Ok(TokenView::Field { name: lowercase(trim(inner)), pad: None }),
        }
    }
}

/// Template grammar, read left to right from position `i` with the literal
/// text `lit` pending and `toks` already produced. Inside a group
/// (`in_group`) a `]` ends the run; the result is the tokens and the
/// position where reading stopped.
pub open spec fn parse_from(
    chars: Seq<char>,
    i: int,
    lit: Seq<char>,
    toks: Seq<TokenView>,
    in_group: bool,
) -> ParseStep
    decreases chars.len() - i,
{
    if i < 0 {
        Err(Seq::empty())
    } else if i >= chars.len() {
        if in_group {
            Err(msg_unclosed_group())
        } else {
            Ok((flush(toks, lit), i))
        }
    } else {
        let c = chars[i];
        if in_group && c == ']' {
            Ok((flush(toks, lit), i))
        } else if c == '%' {
            if i + 1 < chars.len() {
                parse_from(chars, i + 2, lit.push(chars[i + 1]), toks, in_group)
            } else {
                parse_from(chars, i + 1, lit.push('%'), toks, in_group)
            }
        } else if c == '{' {
            match find_from(chars, i + 1, '}') {
                None => Err(msg_unclosed_brace(i)),
                Some(close) => if close < i + 1 || close >= chars.len() {
                    Err(Seq::empty())
                } else {
                    match field_spec(chars.subrange(i + 1, close)) {
                        Err(e) => Err(e),
                        Ok(t) => parse_from(
                            chars,
                            close + 1,
                            Seq::empty(),
                            flush(toks, lit).push(t),
                            in_group,
                        ),
                    }
                },
            }
        } else if c == '[' {
            match parse_from(chars, i + 1, Seq::empty(), Seq::empty(), true) {
                Err(e) => Err(e),
                Ok((inner, end)) => if end >= chars.len() {
                    Err(msg_unclosed_group_at(i))
                } else if end < i + 1 {
                    Err(Seq::empty())
                } else {
                    parse_from(
                        chars,
                        end + 1,
                        Seq::empty(),
                        flush(toks, lit).push(TokenView::Optional(inner)),
                        in_group,
                    )
                },
            }
        } else if c == ']' {
            Err(msg_unmatched(i))
        } else {
            parse_from(chars, i + 1, lit.push(c), toks, in_group)
        }
    }
}

/// What `parse` produces for a whole template.
pub open spec fn parse_spec(template: Seq<char>) -> Result<Seq<TokenView>, Seq<char>> {
    match parse_from(template, 0, Seq::empty(), Seq::empty(), false) {
        Err(e) => Err(e),
        Ok((toks, consumed)) => if consumed != template.len() {
            Err(msg_unexpected(consumed))
        } else {
            Ok(toks)
        },
    }
}

/// A message made of a literal followed by a position.
fn message_at(prefix: &str, pos: usize) -> (r: String)
    ensures
        r@ == prefix@ + decimal(pos as nat),
{
    let mut v = chars_of(prefix);
    let digits = format_u64(pos as u64);
    push_all(&mut v, digits.as_slice());
    string_from(v.as_slice())
}

fn message_of(text: &str) -> (r: String)
    ensures
        r@ == text@,
{
    let v = chars_of(text);
    string_from(v.as_slice())
}

/// Index of the first `target` at or after `from`.
fn find_char(chars: &[char], from: usize, target: char) -> (r: Option<usize>)
    ensures
        match r {
            Some(k) => find_from(chars@, from as int, target) == Some(k as int),
            None => find_from(chars@, from as int, target) is None,
        },
{
    let mut k = from;
    while k < chars.len()
        invariant
            from <= k,
            find_from(chars@, from as int, target) == find_from(chars@, k as int, target),
        decreases chars.len() - k,
    {
        if chars[k] == target {
            return Some(k);
        }
        k = k + 1;
    }
    None
}

proof fn lemma_find_from_range(s: Seq<char>, from: int, c: char)
    ensures
        find_from(s, from, c) matches Some(k) ==> from <= k < s.len() && s[k] == c,
    decreases s.len() - from,
{
    if 0 <= from < s.len() && s[from] != c {
        lemma_find_from_range(s, from + 1, c);
    }
}

/// Parse the body of a `{...}` field.
fn parse_field(inner: &[char]) -> (r: Result<Token, String>)
    ensures
        match r {
            Ok(t) => field_spec(inner@) == Ok::<TokenView, Seq<char>>(token_view(t)),
            Err(e) => field_spec(inner@) == Err::<TokenView, Seq<char>>(e@),
        },
{
    let t = trimmed(inner);
    if t.len() == 0 {
        return Err(message_of("Empty field name in '{}'"));
    }
    match find_char(inner, 0, ':') {
        Some(k) => {
            proof {
                lemma_find_from_range(inner@, 0, ':');
            }
            assert(k < inner.len());
            let name = slice_range(inner, 0, k);
            let width = slice_range(inner, k + 1, inner.len());
            let width_t = trimmed(width.as_slice());
            match parse_usize(width_t.as_slice()) {
                Some(w) => {
                    let name_t = trimmed(name.as_slice());
                    let name_s = string_from(name_t.as_slice());
                    let lower = to_lowercase(name_s.as_str());
                    Ok(Token::Field { name: lower, pad: Some(w) })
                },
                None => {
                    let mut m = chars_of("Invalid pad width '");
                    push_all(&mut m, width.as_slice());
                    let mid = chars_of("' for field '");
                    push_all(&mut m, mid.as_slice());
                    push_all(&mut m, name.as_slice());
                    let end = chars_of("'");
                    push_all(&mut m, end.as_slice());
                    Err(string_from(m.as_slice()))
                },
            }
        },
        None => {
            let name_s = string_from(t.as_slice());
            let lower = to_lowercase(name_s.as_str());
            Ok(Token::Field { name: lower, pad: None })
        },
    }
}

/// Close off the pending literal into `toks`.
fn flush_literal(toks: &mut Vec<Token>, lit: &mut Vec<char>)
    ensures
        tokens_view(final(toks)@) == flush(tokens_view(old(toks)@), old(lit)@),
        final(lit)@ == Seq::<char>::empty(),
{
    let ghost t0 = toks@;
    if lit.len() > 0 {
        let s = string_from(lit.as_slice());
        let t = Token::Literal(s);
        assert(token_view(t) == TokenView::Literal(old(lit)@));
        toks.push(t);
        assert(toks@.drop_last() =~= t0);
        assert(toks@.last() == t);
        assert(tokens_view(toks@) == tokens_view(t0).push(token_view(t)));
    }
    *lit = Vec::new();
}

fn push_token(toks: &mut Vec<Token>, t: Token)
    ensures
        tokens_view(final(toks)@) == tokens_view(old(toks)@).push(token_view(t)),
{
    let ghost t0 = toks@;
    toks.push(t);
    assert(toks@.drop_last() =~= t0);
}

/// Read tokens from `start` until the end (or, inside a group, a `]`).
fn parse_until(chars: &[char], start: usize, in_group: bool) -> (r: Result<(Vec<Token>, usize), String>)
    requires
        start <= chars@.len(),
    ensures
        match r {
            Ok((ts, end)) => parse_from(chars@, start as int, Seq::empty(), Seq::empty(), in_group)
                == Ok::<(Seq<TokenView>, int), Seq<char>>((tokens_view(ts@), end as int)),
            Err(e) => parse_from(chars@, start as int, Seq::empty(), Seq::empty(), in_group)
                == Err::<(Seq<TokenView>, int), Seq<char>>(e@),
        },
    decreases chars@.len() - start,
{
    let mut tokens: Vec<Token> = Vec::new();
    let mut literal: Vec<char> = Vec::new();
    let mut i = start;
    assert(tokens_view(tokens@) =~= Seq::<TokenView>::empty());
    while i < chars.len()
        invariant
            start <= i <= chars@.len(),
            parse_from(chars@, start as int, Seq::empty(), Seq::empty(), in_group) == parse_from(
                chars@,
                i as int,
                literal@,
                tokens_view(tokens@),
                in_group,
            ),
        decreases chars@.len() - i,
    {
        let c = chars[i];
        if in_group && c == ']' {
            flush_literal(&mut tokens, &mut literal);
            return Ok((tokens, i));
        }
        if c == '%' {
            if i + 1 < chars.len() {
                literal.push(chars[i + 1]);
                i = i + 2;
            } else {
                literal.push('%');
                i = i + 1;
            }
        } else if c == '{' {
            let ghost lit0 = literal@;
            let ghost toks0 = tokens_view(tokens@);
            flush_literal(&mut tokens, &mut literal);
            let close = match find_char(chars, i + 1, '}') {
                Some(k) => k,
                None => {
                    return Err(message_at("Unclosed '{' at position ", i));
                },
            };
            proof {
                lemma_find_from_range(chars@, i + 1, '}');
            }
            let inner = slice_range(chars, i + 1, close);
            let t = match parse_field(inner.as_slice()) {
                Ok(t) => t,
                Err(e) => {
                    return Err(e);
                },
            };
            push_token(&mut tokens, t);
            assert(tokens_view(tokens@) == flush(toks0, lit0).push(token_view(t)));
            i = close + 1;
        } else if c == '[' {
            let ghost lit0 = literal@;
            let ghost toks0 = tokens_view(tokens@);
            flush_literal(&mut tokens, &mut literal);
            let (inner, end) = match parse_until(chars, i + 1, true) {
                Ok(r) => r,
                Err(e) => {
                    return Err(e);
                },
            };
            if end >= chars.len() {
                return Err(message_at("Unclosed '[' at position ", i));
            }
            proof {
                lemma_parse_from_end(chars@, i + 1, Seq::empty(), Seq::empty(), true);
            }
            let t = Token::Optional(inner);
            assert(token_view(t) == TokenView::Optional(tokens_view(inner@)));
            push_token(&mut tokens, t);
            i = end + 1;
        } else if c == ']' {
            return Err(message_at("Unmatched ']' at position ", i));
        } else {
            literal.push(c);
            i = i + 1;
        }
    }
    if in_group {
        return Err(message_of("Unclosed '['"));
    }
    flush_literal(&mut tokens, &mut literal);
    Ok((tokens, i))
}

/// Where a successful read stops is never before where it started.
proof fn lemma_parse_from_end(
    chars: Seq<char>,
    i: int,
    lit: Seq<char>,
    toks: Seq<TokenView>,
    in_group: bool,
)
    requires
        0 <= i <= chars.len(),
    ensures
        parse_from(chars, i, lit, toks, in_group) matches Ok((_, end)) ==> i <= end <= chars.len(),
    decreases chars.len() - i,
{
    if 0 <= i < chars.len() {
        let c = chars[i];
        if in_group && c == ']' {
        } else if c == '%' {
            if i + 1 < chars.len() {
                lemma_parse_from_end(chars, i + 2, lit.push(chars[i + 1]), toks, in_group);
            } else {
                lemma_parse_from_end(chars, i + 1, lit.push('%'), toks, in_group);
            }
        } else if c == '{' {
            match find_from(chars, i + 1, '}') {
                None => {},
                Some(close) => if close < i + 1 || close >= chars.len() {
                } else {
                    match field_spec(chars.subrange(i + 1, close)) {
                        Err(e) => {},
                        Ok(t) => lemma_parse_from_end(
                            chars,
                            close + 1,
                            Seq::empty(),
                            flush(toks, lit).push(t),
                            in_group,
                        ),
                    }
                },
            }
        } else if c == '[' {
            match parse_from(chars, i + 1, Seq::empty(), Seq::empty(), true) {
                Err(e) => {},
                Ok((inner, end)) => if end >= chars.len() {
                } else if end < i + 1 {
                } else {
                    lemma_parse_from_end(
                        chars,
                        end + 1,
                        Seq::empty(),
                        flush(toks, lit).push(TokenView::Optional(inner)),
                        in_group,
                    );
                },
            }
        } else if c == ']' {
        } else {
            lemma_parse_from_end(chars, i + 1, lit.push(c), toks, in_group);
        }
    }
}

/// Parse a template string into tokens.
///
/// Syntax:
/// - `{field}` substitutes a value, `{field:03}` zero-pads it to 3 digits
/// - `[ ... ]` is an optional group, omitted when a field inside is empty
/// - `/` separates path components
/// - `%` escapes the next character, so `%{` yields a literal brace
pub fn parse(template: &str) -> (r: Result<Vec<Token>, String>)
    ensures
        match r {
            Ok(ts) => {
                &&& parse_spec(template@) == Ok::<Seq<TokenView>, Seq<char>>(tokens_view(ts@))
                &&& field_count(tokens_view(ts@)) <= template@.len() <= usize::MAX
            },
            Err(e) => parse_spec(template@) == Err::<Seq<TokenView>, Seq<char>>(e@),
        },
{
    let chars = chars_of(template);
    proof {
        lemma_parse_fields(chars@, 0, Seq::empty(), Seq::empty(), false);
        assert(field_count(Seq::<TokenView>::empty()) == 0);
    }
    let (tokens, consumed) = match parse_until(chars.as_slice(), 0, false) {
        Ok(r) => r,
        Err(e) => {
            return Err(e);
        },
    };
    if consumed != chars.len() {
        return Err(message_at("Unexpected ']' at position ", consumed));
    }
    Ok(tokens)
}

/// How many `{field}` tokens a token list holds, optional groups included.
pub open spec fn field_count(ts: Seq<TokenView>) -> nat
    decreases ts,
{
    if ts.len() == 0 {
        0
    } else {
        proof {
            assert(decreases_to!(ts => ts[ts.len() - 1]));
            assert(decreases_to!(ts => ts.subrange(0, ts.len() - 1)));
        }
        field_count(ts.drop_last()) + token_fields(ts.last())
    }
}

pub open spec fn token_fields(t: TokenView) -> nat
    decreases t,
{
    match t {
        TokenView::Literal(_) => 0,
        TokenView::Field { .. } => 1,
        TokenView::Optional(inner) => field_count(inner),
    }
}

proof fn lemma_field_count_push(ts: Seq<TokenView>, t: TokenView)
    ensures
        field_count(ts.push(t)) == field_count(ts) + token_fields(t),
{
    assert(ts.push(t).drop_last() =~= ts);
}

proof fn lemma_flush_fields(ts: Seq<TokenView>, lit: Seq<char>)
    ensures
        field_count(flush(ts, lit)) == field_count(ts),
{
    if lit.len() > 0 {
        lemma_field_count_push(ts, TokenView::Literal(lit));
    }
}

/// A template of `n` characters has at most `n` fields.
proof fn lemma_parse_fields(
    chars: Seq<char>,
    i: int,
    lit: Seq<char>,
    toks: Seq<TokenView>,
    in_group: bool,
)
    requires
        0 <= i <= chars.len(),
    ensures
        parse_from(chars, i, lit, toks, in_group) matches Ok((res, end)) ==> field_count(res)
            <= field_count(toks) + (end - i) && i <= end <= chars.len(),
    decreases chars.len() - i,
{
    lemma_parse_from_end(chars, i, lit, toks, in_group);
    lemma_flush_fields(toks, lit);
    if 0 <= i < chars.len() {
        let c = chars[i];
        if in_group && c == ']' {
        } else if c == '%' {
            if i + 1 < chars.len() {
                lemma_parse_fields(chars, i + 2, lit.push(chars[i + 1]), toks, in_group);
            } else {
                lemma_parse_fields(chars, i + 1, lit.push('%'), toks, in_group);
            }
        } else if c == '{' {
            match find_from(chars, i + 1, '}') {
                None => {},
                Some(close) => if close < i + 1 || close >= chars.len() {
                } else {
                    match field_spec(chars.subrange(i + 1, close)) {
                        Err(e) => {},
                        Ok(t) => {
                            lemma_field_count_push(flush(toks, lit), t);
                            assert(token_fields(t) <= 1) by {
                                match field_spec(chars.subrange(i + 1, close)) {
                                    Ok(tt) => {},
                                    Err(_) => {},
                                }
                            }
                            lemma_parse_fields(
                                chars,
                                close + 1,
                                Seq::empty(),
                                flush(toks, lit).push(t),
                                in_group,
                            );
                        },
                    }
                },
            }
        } else if c == '[' {
            lemma_parse_fields(chars, i + 1, Seq::empty(), Seq::empty(), true);
            match parse_from(chars, i + 1, Seq::empty(), Seq::empty(), true) {
                Err(e) => {},
                Ok((inner, end)) => if end >= chars.len() {
                } else if end < i + 1 {
                } else {
                    assert(field_count(Seq::<TokenView>::empty()) == 0);
                    lemma_field_count_push(flush(toks, lit), TokenView::Optional(inner));
                    lemma_parse_fields(
                        chars,
                        end + 1,
                        Seq::empty(),
                        flush(toks, lit).push(TokenView::Optional(inner)),
                        in_group,
                    );
                },
            }
        } else if c == ']' {
        } else {
            lemma_parse_fields(chars, i + 1, lit.push(c), toks, in_group);
        }
    }
}

// -------------------------------------------------------------- rendering

/// Characters that are illegal in a path component on at least one
/// supported platform. Replaced rather than stripped so words stay separated.
pub open spec fn is_illegal(c: char) -> bool {
    c == '/' || c == '\\' || c == ':' || c == '*' || c == '?' || c == '"' || c == '<' || c
        == '>' || c == '|'
}

pub open spec fn sanitize_char(c: char) -> char {
    if is_illegal(c) {
        '_'
    } else if is_control(c) {
        ' '
    } else {
        c
    }
}

/// A value made safe to sit inside one path component.
pub open spec fn sanitize_value_spec(v: Seq<char>) -> Seq<char> {
    trim(v.map_values(|c: char| sanitize_char(c)))
}

/// A value as substituted for `{name}` or `{name:width}`: with a width, a
/// value that reads as an `i64` is written back zero-filled to that width;
/// anything else is left alone.
pub open spec fn format_value_spec(raw: Seq<char>, pad: Option<usize>) -> Seq<char> {
    match pad {
        Some(w) => match parse_signed(raw) {
            Some(n) => if i64::MIN <= n <= i64::MAX {
                pad_left(signed_decimal(n), '0', w as nat)
            } else {
                raw
            },
            None => raw,
        },
        None => raw,
    }
}

/// The text produced so far, whether every field at this level had a value,
/// and the counts of fields seen and resolved.
pub ghost struct RenderView {
    pub text: Seq<char>,
    pub all_present: bool,
    pub seen: nat,
    pub resolved: nat,
}

pub open spec fn render_seq(ts: Seq<TokenView>, values: Map<Seq<char>, Seq<char>>) -> RenderView
    decreases ts,
{
    if ts.len() == 0 {
        RenderView { text: Seq::empty(), all_present: true, seen: 0, resolved: 0 }
    } else {
        proof {
            assert(decreases_to!(ts => ts[ts.len() - 1]));
            assert(decreases_to!(ts => ts.subrange(0, ts.len() - 1)));
        }
        render_step(render_seq(ts.drop_last(), values), ts.last(), values)
    }
}

/// One token's effect on a render in progress.
pub open spec fn render_step(
    prev: RenderView,
    t: TokenView,
    values: Map<Seq<char>, Seq<char>>,
) -> RenderView
    decreases t,
{
    match t {
        TokenView::Literal(s) => RenderView { text: prev.text + s, ..prev },
        TokenView::Field { name, pad } => {
            let raw = lookup(values, name);
            if trim(raw).len() == 0 {
                RenderView { all_present: false, seen: prev.seen + 1, ..prev }
            } else {
                RenderView {
                    text: prev.text + format_value_spec(sanitize_value_spec(raw), pad),
                    seen: prev.seen + 1,
                    resolved: prev.resolved + 1,
                    ..prev
                }
            }
        },
        TokenView::Optional(inner) => {
            let group = render_seq(inner, values);
            if group.all_present {
                RenderView {
                    text: prev.text + group.text,
                    seen: prev.seen + group.seen,
                    resolved: prev.resolved + group.resolved,
                    ..prev
                }
            } else {
                RenderView { seen: prev.seen + group.seen, ..prev }
            }
        },
    }
}

proof fn lemma_render_counts(ts: Seq<TokenView>, values: Map<Seq<char>, Seq<char>>)
    ensures
        render_seq(ts, values).seen == field_count(ts),
        render_seq(ts, values).resolved <= render_seq(ts, values).seen,
    decreases ts,
{
    if ts.len() > 0 {
        assert(decreases_to!(ts => ts[ts.len() - 1]));
        assert(decreases_to!(ts => ts.subrange(0, ts.len() - 1)));
        lemma_render_counts(ts.drop_last(), values);
        lemma_step_counts(render_seq(ts.drop_last(), values), ts.last(), values);
    }
}

proof fn lemma_step_counts(prev: RenderView, t: TokenView, values: Map<Seq<char>, Seq<char>>)
    requires
        prev.resolved <= prev.seen,
    ensures
        render_step(prev, t, values).seen == prev.seen + token_fields(t),
        render_step(prev, t, values).resolved <= render_step(prev, t, values).seen,
    decreases t,
{
    match t {
        TokenView::Optional(inner) => {
            lemma_render_counts(inner, values);
        },
        _ => {},
    }
}

proof fn lemma_fc_prefix(s: Seq<Token>, k: int)
    requires
        0 <= k <= s.len(),
    ensures
        field_count(tokens_view(s.subrange(0, k))) <= field_count(tokens_view(s)),
    decreases s.len() - k,
{
    if k < s.len() {
        lemma_fc_prefix(s.drop_last(), k);
        assert(s.drop_last().subrange(0, k) =~= s.subrange(0, k));
        lemma_field_count_push(tokens_view(s.drop_last()), token_view(s.last()));
    } else {
        assert(s.subrange(0, k) =~= s);
    }
}

fn is_illegal_char(c: char) -> (r: bool)
    ensures
        r == is_illegal(c),
{
    c == '/' || c == '\\' || c == ':' || c == '*' || c == '?' || c == '"' || c == '<' || c
        == '>' || c == '|'
}

fn sanitize_chars(value: &[char]) -> (r: Vec<char>)
    ensures
        r@ == sanitize_value_spec(value@),
{
    let mut v: Vec<char> = Vec::new();
    let mut k: usize = 0;
    while k < value.len()
        invariant
            0 <= k <= value.len(),
            v@ == value@.subrange(0, k as int).map_values(|c: char| sanitize_char(c)),
        decreases value.len() - k,
    {
        let c = value[k];
        let d = if is_illegal_char(c) {
            '_'
        } else if is_control_char(c) {
            ' '
        } else {
            c
        };
        v.push(d);
        assert(v@ =~= value@.subrange(0, k + 1).map_values(|c: char| sanitize_char(c)));
        k = k + 1;
    }
    assert(value@.subrange(0, value@.len() as int) =~= value@);
    trimmed(v.as_slice())
}

/// Make a substituted value safe to sit inside a single path component.
///
/// Applied at substitution time so a value containing `/` cannot silently
/// introduce a directory level the template did not ask for.
pub fn sanitize_value(value: &str) -> (r: String)
    ensures
        r@ == sanitize_value_spec(value@),
{
    let chars = chars_of(value);
    let v = sanitize_chars(chars.as_slice());
    string_from(v.as_slice())
}

fn format_value(raw: &[char], pad: Option<usize>) -> (r: Vec<char>)
    ensures
        r@ == format_value_spec(raw@, pad),
{
    match pad {
        Some(width) => match parse_i64(raw) {
            Some(n) => {
                let digits = format_i64(n);
                pad_left_exec(digits.as_slice(), '0', width)
            },
            None => slice_range(raw, 0, raw.len()),
        },
        None => slice_range(raw, 0, raw.len()),
    }
}

/// Render a token list; returns the text, whether every field at this level
/// had a value, and the fields seen and resolved.
fn render_tokens(tokens: &[Token], values: &FieldValues) -> (r: (Vec<char>, bool, usize, usize))
    requires
        field_count(tokens_view(tokens@)) <= usize::MAX,
    ensures
        ({
            let v = render_seq(tokens_view(tokens@), values@);
            &&& r.0@ == v.text
            &&& r.1 == v.all_present
            &&& r.2 == v.seen
            &&& r.3 == v.resolved
        }),
    decreases tokens@,
{
    let mut out: Vec<char> = Vec::new();
    let mut all_present = true;
    let mut seen: usize = 0;
    let mut resolved: usize = 0;
    let mut k: usize = 0;
    assert(tokens_view(tokens@.subrange(0, 0)) =~= Seq::<TokenView>::empty());
    while k < tokens.len()
        invariant
            0 <= k <= tokens@.len(),
            field_count(tokens_view(tokens@)) <= usize::MAX,
            ({
                let v = render_seq(tokens_view(tokens@.subrange(0, k as int)), values@);
                &&& out@ == v.text
                &&& all_present == v.all_present
                &&& seen == v.seen
                &&& resolved == v.resolved
            }),
        decreases tokens@.len() - k,
    {
        let ghost prefix = tokens_view(tokens@.subrange(0, k as int));
        let ghost prev = render_seq(prefix, values@);
        let ghost tv = token_view(tokens@[k as int]);
        proof {
            assert(tokens@.subrange(0, k + 1).drop_last() =~= tokens@.subrange(0, k as int));
            assert(tokens@.subrange(0, k + 1).last() == tokens@[k as int]);
            assert(tokens_view(tokens@.subrange(0, k + 1)) == prefix.push(tv));
            assert(prefix.push(tv).drop_last() =~= prefix);
            assert(render_seq(prefix.push(tv), values@) == render_step(prev, tv, values@));
            lemma_fc_prefix(tokens@, k + 1);
            lemma_field_count_push(prefix, tv);
            lemma_render_counts(prefix, values@);
            lemma_step_counts(prev, tv, values@);
        }
        match &tokens[k] {
            Token::Literal(text) => {
                let t = chars_of(text.as_str());
                push_all(&mut out, t.as_slice());
            },
            Token::Field { name, pad } => {
                seen = seen + 1;
                let raw: Vec<char> = match values.get(name.as_str()) {
                    Some(v) => chars_of(v.as_str()),
                    None => Vec::new(),
                };
                assert(raw@ == lookup(values@, name@));
                let t = trimmed(raw.as_slice());
                if t.len() == 0 {
                    all_present = false;
                } else {
                    resolved = resolved + 1;
                    let clean = sanitize_chars(raw.as_slice());
                    let formatted = format_value(clean.as_slice(), *pad);
                    push_all(&mut out, formatted.as_slice());
                }
            },
            Token::Optional(inner) => {
                proof {
                    assert(decreases_to!(tokens@ => tokens@[k as int]));
                    assert(decreases_to!(tokens@[k as int] => *inner));
                    assert(decreases_to!(*inner => inner@));
                }
                let (buf, ok, s2, r2) = render_tokens(inner.as_slice(), values);
                if ok {
                    push_all(&mut out, buf.as_slice());
                    seen = seen + s2;
                    resolved = resolved + r2;
                } else {
                    seen = seen + s2;
                }
            },
        }
        k = k + 1;
    }
    assert(tokens@.subrange(0, tokens@.len() as int) =~= tokens@);
    (out, all_present, seen, resolved)
}

// ------------------------------------------------------------ path shaping

/// Split `s` at every `sep`, as `str::split` does (an empty string gives one
/// empty piece).
pub open spec fn split_on(s: Seq<char>, sep: char) -> Seq<Seq<char>>
    decreases s.len(),
{
    if s.len() == 0 {
        seq![Seq::<char>::empty()]
    } else {
        let parts = split_on(s.drop_last(), sep);
        if s.last() == sep {
            parts.push(Seq::empty())
        } else {
            parts.update(parts.len() - 1, parts.last().push(s.last()))
        }
    }
}

/// `s` without trailing whitespace and dots.
pub open spec fn trim_end_dots(s: Seq<char>) -> Seq<char>
    decreases s.len(),
{
    if s.len() > 0 && (is_ws(s.last()) || s.last() == '.') {
        trim_end_dots(s.drop_last())
    } else {
        s
    }
}

/// Trailing dots and spaces are not addressable on Windows: a component
/// loses its trailing dots and whitespace, then its leading whitespace.
pub open spec fn sanitize_component_spec(c: Seq<char>) -> Seq<char> {
    trim(trim_end_dots(c))
}

/// The sanitized components that are not empty, in order.
pub open spec fn kept_components(parts: Seq<Seq<char>>) -> Seq<Seq<char>>
    decreases parts.len(),
{
    if parts.len() == 0 {
        Seq::empty()
    } else {
        let rest = kept_components(parts.drop_last());
        let c = sanitize_component_spec(parts.last());
        if c.len() > 0 {
            rest.push(c)
        } else {
            rest
        }
    }
}

/// Components joined with `/`.
pub open spec fn join_slash(parts: Seq<Seq<char>>) -> Seq<char>
    decreases parts.len(),
{
    if parts.len() == 0 {
        Seq::empty()
    } else if parts.len() == 1 {
        parts[0]
    } else {
        join_slash(parts.drop_last()) + seq!['/'] + parts.last()
    }
}

/// Rendered text shaped into a relative path: each `/`-separated component
/// sanitized, empty components dropped.
pub open spec fn shape_path(raw: Seq<char>) -> Seq<char> {
    join_slash(kept_components(split_on(raw, '/')))
}

fn trim_end_dots_exec(s: &[char]) -> (r: Vec<char>)
    ensures
        r@ == trim_end_dots(s@),
{
    let mut j = s.len();
    assert(s@.subrange(0, j as int) =~= s@);
    while j > 0 && (crate::text::is_ws_char(s[j - 1]) || s[j - 1] == '.')
        invariant
            j <= s.len(),
            trim_end_dots(s@) == trim_end_dots(s@.subrange(0, j as int)),
        decreases j,
    {
        assert(s@.subrange(0, j as int).drop_last() =~= s@.subrange(0, j - 1));
        j = j - 1;
    }
    assert(s@.subrange(0, 0) =~= Seq::<char>::empty());
    if j > 0 {
        assert(s@.subrange(0, j as int).last() == s@[j - 1]);
    }
    slice_range(s, 0, j)
}

fn sanitize_component(component: &[char]) -> (r: Vec<char>)
    ensures
        r@ == sanitize_component_spec(component@),
{
    let t = trim_end_dots_exec(component);
    trimmed(t.as_slice())
}

proof fn lemma_join_push(parts: Seq<Seq<char>>, c: Seq<char>)
    ensures
        join_slash(parts.push(c)) == if parts.len() == 0 {
            c
        } else {
            join_slash(parts) + seq!['/'] + c
        },
{
    assert(parts.push(c).drop_last() =~= parts);
}

/// Shape rendered text into a relative path.
fn shape_path_exec(raw: &[char]) -> (r: Vec<char>)
    ensures
        r@ == shape_path(raw@),
{
    let mut done: Vec<char> = Vec::new();
    let mut any = false;
    let mut cur: Vec<char> = Vec::new();
    let mut k: usize = 0;
    proof {
        assert(raw@.subrange(0, 0) =~= Seq::<char>::empty());
        assert(split_on(Seq::<char>::empty(), '/').drop_last() =~= Seq::<Seq<char>>::empty());
    }
    while k < raw.len()
        invariant
            0 <= k <= raw@.len(),
            split_on(raw@.subrange(0, k as int), '/').len() >= 1,
            cur@ == split_on(raw@.subrange(0, k as int), '/').last(),
            done@ == join_slash(
                kept_components(split_on(raw@.subrange(0, k as int), '/').drop_last()),
            ),
            any == (kept_components(split_on(raw@.subrange(0, k as int), '/').drop_last()).len()
                > 0),
        decreases raw@.len() - k,
    {
        let ghost parts = split_on(raw@.subrange(0, k as int), '/');
        let c = raw[k];
        proof {
            assert(raw@.subrange(0, k + 1).drop_last() =~= raw@.subrange(0, k as int));
            assert(raw@.subrange(0, k + 1).last() == c);
        }
        if c == '/' {
            let comp = sanitize_component(cur.as_slice());
            proof {
                assert(parts.push(Seq::empty()).drop_last() =~= parts);
                assert(parts =~= parts.drop_last().push(parts.last()));
                lemma_join_push(kept_components(parts.drop_last()), comp@);
            }
            if comp.len() > 0 {
                if any {
                    done.push('/');
                }
                push_all(&mut done, comp.as_slice());
                any = true;
                assert(done@ =~= join_slash(kept_components(parts)));
            }
            cur = Vec::new();
        } else {
            cur.push(c);
            proof {
                let np = parts.update(parts.len() - 1, parts.last().push(c));
                assert(np.drop_last() =~= parts.drop_last());
            }
        }
        k = k + 1;
    }
    let ghost parts = split_on(raw@.subrange(0, k as int), '/');
    let comp = sanitize_component(cur.as_slice());
    proof {
        assert(parts =~= parts.drop_last().push(parts.last()));
        lemma_join_push(kept_components(parts.drop_last()), comp@);
    }
    if comp.len() > 0 {
        if any {
            done.push('/');
        }
        push_all(&mut done, comp.as_slice());
    }
    assert(raw@.subrange(0, raw@.len() as int) =~= raw@);
    assert(done@ =~= shape_path(raw@));
    done
}

/// How a render went, beyond the text it produced.
#[derive(Debug, Clone, PartialEq)]
pub struct RenderOutcome {
    pub text: String,
    /// How many `{field}` tokens the template referenced.
    pub fields_seen: usize,
    /// How many of those actually had a value.
    pub fields_resolved: usize,
}

impl RenderOutcome {
    /// True when the template asked for fields but none of them existed.
    ///
    /// Distinguishes a genuinely empty result from one where only the
    /// template's literal punctuation survived — the case that produces
    /// names like `() ()`.
    pub fn is_unresolved(&self) -> (r: bool)
        ensures
            r == (self.fields_seen > 0 && self.fields_resolved == 0),
    {
        self.fields_seen > 0 && self.fields_resolved == 0
    }
}

/// Render a parsed template into a relative path.
///
/// Path components are sanitized individually and empty components are
/// dropped, so an optional group that collapses cannot leave `//` behind.
pub fn render_detailed(tokens: &[Token], values: &FieldValues) -> (r: RenderOutcome)
    requires
        field_count(tokens_view(tokens@)) <= usize::MAX,
    ensures
        ({
            let v = render_seq(tokens_view(tokens@), values@);
            &&& r.text@ == shape_path(v.text)
            &&& r.fields_seen == v.seen
            &&& r.fields_resolved == v.resolved
        }),
        r.fields_seen == field_count(tokens_view(tokens@)),
        r.fields_resolved <= r.fields_seen,
{
    let (raw, _all, seen, resolved) = render_tokens(tokens, values);
    proof {
        lemma_render_counts(tokens_view(tokens@), values@);
    }
    let text = shape_path_exec(raw.as_slice());
    RenderOutcome { text: string_from(text.as_slice()), fields_seen: seen, fields_resolved: resolved }
}

pub fn render(tokens: &[Token], values: &FieldValues) -> (r: String)
    requires
        field_count(tokens_view(tokens@)) <= usize::MAX,
    ensures
        r@ == shape_path(render_seq(tokens_view(tokens@), values@).text),
{
    render_detailed(tokens, values).text
}

/// What a template renders to: the parse error, or the shaped path.
pub open spec fn render_template_spec(template: Seq<char>, values: Map<Seq<char>, Seq<char>>) -> Result<
    Seq<char>,
    Seq<char>,
> {
    match parse_spec(template) {
        Err(e) => Err(e),
        Ok(ts) => Ok(shape_path(render_seq(ts, values).text)),
    }
}

/// Convenience: parse and render in one step.
pub fn render_template(template: &str, values: &FieldValues) -> (r: Result<String, String>)
    ensures
        match r {
            Ok(s) => render_template_spec(template@, values@) == Ok::<Seq<char>, Seq<char>>(s@),
            Err(e) => render_template_spec(template@, values@) == Err::<Seq<char>, Seq<char>>(e@),
        },
{
    let tokens = match parse(template) {
        Ok(t) => t,
        Err(e) => {
            return Err(e);
        },
    };
    Ok(render(tokens.as_slice(), values))
}

// ------------------------------------------------------------------- laws

/// A path with no empty segments: every `/` has a character on each side,
/// and never another `/` right after it.
pub open spec fn no_empty_segments(p: Seq<char>) -> bool {
    forall|i: int| #![trigger p[i]]
        0 <= i < p.len() && p[i] == '/' ==> 0 < i < p.len() - 1 && p[i + 1] != '/'
}

pub open spec fn free_of(s: Seq<char>, c: char) -> bool {
    forall|i: int| 0 <= i < s.len() ==> #[trigger] s[i] != c
}

proof fn lemma_trim_end_dots_is_prefix(s: Seq<char>)
    ensures
        exists|b: int| 0 <= b <= s.len() && trim_end_dots(s) == s.subrange(0, b),
    decreases s.len(),
{
    if s.len() > 0 && (is_ws(s.last()) || s.last() == '.') {
        lemma_trim_end_dots_is_prefix(s.drop_last());
        let b = choose|b: int|
            0 <= b <= s.drop_last().len() && trim_end_dots(s.drop_last()) == s.drop_last().subrange(0, b);
        assert(s.drop_last().subrange(0, b) =~= s.subrange(0, b));
    } else {
        assert(s.subrange(0, s.len() as int) =~= s);
    }
}

proof fn lemma_sanitize_component_free(c: Seq<char>, sep: char)
    requires
        free_of(c, sep),
    ensures
        free_of(sanitize_component_spec(c), sep),
{
    lemma_trim_end_dots_is_prefix(c);
    let t = trim_end_dots(c);
    lemma_trim_chars(t);
    assert forall|i: int| 0 <= i < sanitize_component_spec(c).len() implies #[trigger] sanitize_component_spec(c)[i] != sep by {
        let j = choose|j: int| 0 <= j < t.len() && t[j] == trim(t)[i];
    }
}

proof fn lemma_split_parts_free(s: Seq<char>, sep: char)
    ensures
        forall|j: int| 0 <= j < split_on(s, sep).len() ==> free_of(#[trigger] split_on(s, sep)[j], sep),
        split_on(s, sep).len() >= 1,
    decreases s.len(),
{
    if s.len() > 0 {
        lemma_split_parts_free(s.drop_last(), sep);
    }
}

proof fn lemma_kept_nonempty_free(parts: Seq<Seq<char>>, sep: char)
    requires
        forall|j: int| 0 <= j < parts.len() ==> free_of(#[trigger] parts[j], sep),
    ensures
        forall|j: int| 0 <= j < kept_components(parts).len() ==> free_of(#[trigger] kept_components(parts)[j], sep)
            && kept_components(parts)[j].len() > 0,
    decreases parts.len(),
{
    if parts.len() > 0 {
        assert forall|j: int| 0 <= j < parts.drop_last().len() implies free_of(#[trigger] parts.drop_last()[j], sep) by {
            assert(parts.drop_last()[j] == parts[j]);
        }
        assert(free_of(parts[parts.len() - 1], sep));
        lemma_kept_nonempty_free(parts.drop_last(), sep);
        lemma_sanitize_component_free(parts.last(), sep);
        let rest = kept_components(parts.drop_last());
        let c = sanitize_component_spec(parts.last());
        let k = kept_components(parts);
        assert forall|j: int| 0 <= j < k.len() implies free_of(#[trigger] k[j], sep) && k[j].len() > 0 by {
            if j < rest.len() {
                assert(k[j] == rest[j]);
            } else {
                assert(k[j] == c);
            }
        }
    }
}

proof fn lemma_join_clean(parts: Seq<Seq<char>>)
    requires
        forall|j: int| 0 <= j < parts.len() ==> free_of(#[trigger] parts[j], '/') && parts[j].len() > 0,
    ensures
        no_empty_segments(join_slash(parts)),
        parts.len() > 0 ==> join_slash(parts).len() > 0,
    decreases parts.len(),
{
    if parts.len() == 1 {
        assert(free_of(parts[0], '/'));
    } else if parts.len() > 1 {
        let init = parts.drop_last();
        lemma_join_clean(init);
        let a = join_slash(init);
        let c = parts.last();
        assert(free_of(c, '/'));
        let p = a + seq!['/'] + c;
        assert forall|i: int| #![trigger p[i]] 0 <= i < p.len() && p[i] == '/' implies 0 < i < p.len() - 1 && p[i + 1] != '/' by {
            if i < a.len() {
                assert(p[i] == a[i]);
                if i + 1 < a.len() {
                    assert(p[i + 1] == a[i + 1]);
                }
            } else if i == a.len() {
                assert(p[i + 1] == c[0]);
            } else {
                assert(p[i] == c[i - a.len() - 1]);
            }
        }
    }
}

/// A rendered path never holds an empty segment: no leading or trailing
/// `/` and no `//`, whatever the template and values were. Collapsed
/// optional groups therefore cannot leave `//` behind.
pub proof fn law_rendered_paths_have_no_empty_segments(raw: Seq<char>)
    ensures
        no_empty_segments(shape_path(raw)),
{
    lemma_split_parts_free(raw, '/');
    lemma_kept_nonempty_free(split_on(raw, '/'), '/');
    lemma_join_clean(kept_components(split_on(raw, '/')));
}

/// A substituted value holds no character that is illegal in a path
/// component and no control character, so a value such as `AC/DC` cannot
/// introduce a directory level.
pub proof fn law_sanitized_values_are_path_safe(value: Seq<char>)
    ensures
        forall|i: int| 0 <= i < sanitize_value_spec(value).len() ==> {
            &&& !is_illegal(#[trigger] sanitize_value_spec(value)[i])
            &&& !is_control(sanitize_value_spec(value)[i])
        },
{
    let mapped = value.map_values(|c: char| sanitize_char(c));
    lemma_trim_chars(mapped);
    assert forall|i: int| 0 <= i < sanitize_value_spec(value).len() implies {
        &&& !is_illegal(#[trigger] sanitize_value_spec(value)[i])
        &&& !is_control(sanitize_value_spec(value)[i])
    } by {
        let j = choose|j: int| 0 <= j < mapped.len() && mapped[j] == trim(mapped)[i];
        assert(mapped[j] == sanitize_char(value[j]));
    }
}

/// `%` followed by any character yields that character as literal text.
pub proof fn law_percent_escapes_the_next_character(c: char)
    ensures
        parse_spec(seq!['%', c]) == Ok::<Seq<TokenView>, Seq<char>>(
            seq![TokenView::Literal(seq![c])],
        ),
{
    let t = seq!['%', c];
    assert(seq![c] =~= Seq::<char>::empty().push(t[1]));
    assert(parse_from(t, 2, seq![c], Seq::empty(), false) == Ok::<(Seq<TokenView>, int), Seq<char>>(
        (flush(Seq::empty(), seq![c]), 2),
    ));
    assert(flush(Seq::empty(), seq![c]) =~= seq![TokenView::Literal(seq![c])]);
}

pub open spec fn is_special(c: char) -> bool {
    c == '%' || c == '{' || c == '[' || c == ']'
}

proof fn lemma_plain_text(t: Seq<char>, i: int)
    requires
        0 <= i <= t.len(),
        forall|k: int| 0 <= k < t.len() ==> !is_special(#[trigger] t[k]),
    ensures
        parse_from(t, i, t.subrange(0, i), Seq::empty(), false) == Ok::<(Seq<TokenView>, int), Seq<char>>(
            (flush(Seq::empty(), t), t.len() as int),
        ),
    decreases t.len() - i,
{
    if i < t.len() {
        assert(t.subrange(0, i).push(t[i]) =~= t.subrange(0, i + 1));
        lemma_plain_text(t, i + 1);
    } else {
        assert(t.subrange(0, i) =~= t);
    }
}

/// A template with no `%`, `{`, `[` or `]` is taken literally: it parses to
/// one literal token holding all of it (none when it is empty).
pub proof fn law_plain_text_is_literal(t: Seq<char>)
    requires
        forall|k: int| 0 <= k < t.len() ==> !is_special(#[trigger] t[k]),
    ensures
        parse_spec(t) == Ok::<Seq<TokenView>, Seq<char>>(
            if t.len() > 0 { seq![TokenView::Literal(t)] } else { Seq::empty() },
        ),
{
    lemma_plain_text(t, 0);
    assert(t.subrange(0, 0) =~= Seq::<char>::empty());
    assert(flush(Seq::empty(), t) =~= (if t.len() > 0 { seq![TokenView::Literal(t)] } else { Seq::<TokenView>::empty() }));
}

proof fn lemma_trim_end_dots_last(s: Seq<char>)
    ensures
        trim_end_dots(s).len() > 0 ==> !is_ws(trim_end_dots(s).last()) && trim_end_dots(s).last() != '.',
    decreases s.len(),
{
    if s.len() > 0 && (is_ws(s.last()) || s.last() == '.') {
        lemma_trim_end_dots_last(s.drop_last());
    }
}

proof fn lemma_trim_start_settled(s: Seq<char>)
    ensures
        trim_start(trim_start(s)) == trim_start(s),
        trim_start(s).len() > 0 ==> !is_ws(trim_start(s)[0]),
    decreases s.len(),
{
    if s.len() > 0 && is_ws(s[0]) {
        lemma_trim_start_settled(s.drop_first());
    }
}

/// A sanitized component is already trimmed, and neither ends in a dot nor
/// in whitespace; sanitizing it again changes nothing.
pub proof fn law_sanitized_component_is_clean(c: Seq<char>)
    ensures
        sanitize_component_spec(sanitize_component_spec(c)) == sanitize_component_spec(c),
        trim(sanitize_component_spec(c)) == sanitize_component_spec(c),
        sanitize_component_spec(c).len() > 0 ==> sanitize_component_spec(c).last() != '.' && !is_ws(
            sanitize_component_spec(c).last(),
        ),
{
    let t = trim_end_dots(c);
    lemma_trim_end_dots_last(c);
    crate::text::lemma_trim_start_is_suffix(t);
    lemma_trim_start_settled(t);
    let ts = trim_start(t);
    let a = choose|a: int| 0 <= a <= t.len() && ts == t.subrange(a, t.len() as int);
    if ts.len() > 0 {
        assert(ts.last() == t.last());
        assert(trim_end(ts) == ts);
    } else {
        assert(trim_end(ts) == ts);
    }
    assert(sanitize_component_spec(c) == ts);
    let r = ts;
    lemma_trim_start_settled(r);
    if r.len() > 0 {
        assert(trim_end(trim_start(r)) == trim_end(r));
        assert(trim_end(r) == r);
        assert(trim_end_dots(r) == r);
    } else {
        assert(trim_end_dots(r) == r);
    }
}

} // verus!
