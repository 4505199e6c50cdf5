//! Character-level text helpers shared by the parsers and formatters.
//!
//! Strings are processed as sequences of `char`; the spec functions here say
//! what trimming, number parsing and decimal formatting mean on `Seq<char>`.
use vstd::prelude::*;

verus! {

/// Unicode `White_Space`, the property `char::is_whitespace` documents.
pub open spec fn is_ws(c: char) -> bool {
    ||| ('\u{9}' <= c && c <= '\u{d}')
    ||| c == ' '
    ||| c == '\u{85}'
    ||| c == '\u{a0}'
    ||| c == '\u{1680}'
    ||| ('\u{2000}' <= c && c <= '\u{200a}')
    ||| c == '\u{2028}'
    ||| c == '\u{2029}'
    ||| c == '\u{202f}'
    ||| c == '\u{205f}'
    ||| c == '\u{3000}'
}

/// Unicode general category `Cc`, what `char::is_control` documents.
pub open spec fn is_control(c: char) -> bool {
    c <= '\u{1f}' || ('\u{7f}' <= c && c <= '\u{9f}')
}

pub open spec fn is_digit(c: char) -> bool {
    '0' <= c && c <= '9'
}

pub open spec fn digit_value(c: char) -> nat {
    (c as nat - '0' as nat) as nat
}

/// `s` with leading whitespace removed.
pub open spec fn trim_start(s: Seq<char>) -> Seq<char>
    decreases s.len(),
{
    if s.len() > 0 && is_ws(s[0]) {
        trim_start(s.drop_first())
    } else {
        s
    }
}

/// `s` with trailing whitespace removed.
pub open spec fn trim_end(s: Seq<char>) -> Seq<char>
    decreases s.len(),
{
    if s.len() > 0 && is_ws(s.last()) {
        trim_end(s.drop_last())
    } else {
        s
    }
}

pub open spec fn trim(s: Seq<char>) -> Seq<char> {
    trim_end(trim_start(s))
}

pub open spec fn all_digits(s: Seq<char>) -> bool {
    forall|i: int| 0 <= i < s.len() ==> is_digit(#[trigger] s[i])
}

/// The number a run of decimal digits denotes.
pub open spec fn digits_value(s: Seq<char>) -> nat
    decreases s.len(),
{
    if s.len() == 0 {
        0
    } else {
        digits_value(s.drop_last()) * 10 + digit_value(s.last())
    }
}

/// What `str::parse` of an unsigned integer reads, before the range check:
/// an optional `+` followed by at least one ASCII digit.
pub open spec fn parse_unsigned(s: Seq<char>) -> Option<nat> {
    let body = if s.len() > 0 && s[0] == '+' {
        s.drop_first()
    } else {
        s
    };
    if body.len() > 0 && all_digits(body) {
        Some(digits_value(body))
    } else {
        None
    }
}

/// What `str::parse` of a signed integer reads, before the range check:
/// an optional sign followed by at least one ASCII digit.
pub open spec fn parse_signed(s: Seq<char>) -> Option<int> {
    if s.len() > 0 && s[0] == '-' {
        let body = s.drop_first();
        if body.len() > 0 && all_digits(body) {
            Some(-(digits_value(body) as int))
        } else {
            None
        }
    } else {
        match parse_unsigned(s) {
            Some(v) => Some(v as int),
            None => None,
        }
    }
}

pub open spec fn digit_char(d: nat) -> char {
    if d == 0 { '0' }
    else if d == 1 { '1' }
    else if d == 2 { '2' }
    else if d == 3 { '3' }
    else if d == 4 { '4' }
    else if d == 5 { '5' }
    else if d == 6 { '6' }
    else if d == 7 { '7' }
    else if d == 8 { '8' }
    else { '9' }
}

/// The decimal digits of `n`, without leading zeros.
pub open spec fn decimal(n: nat) -> Seq<char>
    decreases n,
{
    if n < 10 {
        seq![digit_char(n)]
    } else {
        decimal(n / 10).push(digit_char(n % 10))
    }
}

/// What `to_string` gives for a signed integer.
pub open spec fn signed_decimal(n: int) -> Seq<char> {
    if n < 0 {
        seq!['-'] + decimal((-n) as nat)
    } else {
        decimal(n as nat)
    }
}

/// `n` copies of `c`.
pub open spec fn repeat_char(c: char, n: nat) -> Seq<char> {
    Seq::new(n, |_i: int| c)
}

/// `s` right-aligned in a field of `width` characters, filled with `fill`.
pub open spec fn pad_left(s: Seq<char>, fill: char, width: nat) -> Seq<char> {
    if s.len() >= width {
        s
    } else {
        repeat_char(fill, (width - s.len()) as nat) + s
    }
}

/// Whether `needle` occurs in `s` starting at index `at`.
pub open spec fn occurs_at(s: Seq<char>, needle: Seq<char>, at: int) -> bool {
    0 <= at && at + needle.len() <= s.len() && s.subrange(at, at + needle.len()) == needle
}

pub open spec fn contains(s: Seq<char>, needle: Seq<char>) -> bool {
    exists|at: int| occurs_at(s, needle, at)
}

pub open spec fn starts_with(s: Seq<char>, prefix: Seq<char>) -> bool {
    occurs_at(s, prefix, 0)
}

/// Whether every character is ASCII.
pub open spec fn all_ascii(s: Seq<char>) -> bool {
    forall|i: int| 0 <= i < s.len() ==> (#[trigger] s[i] as u32) < 128
}

/// An ASCII character in lower case: `A`-`Z` become `a`-`z`.
pub open spec fn ascii_lower(c: char) -> char {
    if 'A' <= c && c <= 'Z' {
        ((c as u32) + 32) as char
    } else {
        c
    }
}

/// The Unicode lowercase mapping that `str::to_lowercase` applies to text
/// that is not all ASCII; named rather than restated.
pub uninterp spec fn unicode_lowercase(s: Seq<char>) -> Seq<char>;

/// The lowercase form that `str::to_lowercase` produces: ASCII text with
/// `A`-`Z` turned into `a`-`z`, other text by the Unicode mapping.
pub open spec fn lowercase(s: Seq<char>) -> Seq<char> {
    if all_ascii(s) {
        Seq::new(s.len(), |i: int| ascii_lower(s[i]))
    } else {
        unicode_lowercase(s)
    }
}

/// Convert to lowercase with `str::to_lowercase`: for ASCII text the
/// letters `A`-`Z` become `a`-`z` and nothing else changes (the Unicode
/// lowercase mapping of ASCII); other text is taken by its name.
#[verifier::external_body]
pub(crate) fn to_lowercase(s: &str) -> (r: String)
    ensures
        r@ == (if all_ascii(s@) {
            Seq::new(s@.len(), |i: int| ascii_lower(s@[i]))
        } else {
            unicode_lowercase(s@)
        }),
{
    s.to_lowercase()
}

/// The uppercase form that `str::to_uppercase` produces; Unicode case
/// mapping, named rather than restated.
pub uninterp spec fn uppercase(s: Seq<char>) -> Seq<char>;

/// Convert to uppercase with `str::to_uppercase`.
#[verifier::external_body]
pub(crate) fn to_uppercase(s: &str) -> (r: String)
    ensures
        r@ == uppercase(s@),
{
    s.to_uppercase()
}

/// The characters of a string slice, collected with `str::chars`.
#[verifier::external_body]
pub(crate) fn chars_of(s: &str) -> (r: Vec<char>)
    ensures
        r@ == s@,
{
    s.chars().collect()
}

/// A `String` holding exactly the given characters (`FromIterator<char>`).
#[verifier::external_body]
pub(crate) fn string_from(chars: &[char]) -> (r: String)
    ensures
        r@ == chars@,
{
    chars.iter().collect()
}

pub fn is_ws_char(c: char) -> (r: bool)
    ensures
        r == is_ws(c),
{
    ('\u{9}' <= c && c <= '\u{d}') || c == ' ' || c == '\u{85}' || c == '\u{a0}' || c
        == '\u{1680}' || ('\u{2000}' <= c && c <= '\u{200a}') || c == '\u{2028}' || c
        == '\u{2029}' || c == '\u{202f}' || c == '\u{205f}' || c == '\u{3000}'
}

pub fn is_control_char(c: char) -> (r: bool)
    ensures
        r == is_control(c),
{
    c <= '\u{1f}' || ('\u{7f}' <= c && c <= '\u{9f}')
}

pub fn is_digit_char(c: char) -> (r: bool)
    ensures
        r == is_digit(c),
{
    '0' <= c && c <= '9'
}

proof fn lemma_trim_start_suffix(s: Seq<char>, i: int)
    requires
        0 <= i <= s.len(),
        forall|k: int| 0 <= k < i ==> is_ws(#[trigger] s[k]),
    ensures
        trim_start(s) == trim_start(s.subrange(i, s.len() as int)),
    decreases i,
{
    if i > 0 {
        assert(s.drop_first().subrange(i - 1, s.drop_first().len() as int) =~= s.subrange(
            i,
            s.len() as int,
        ));
        lemma_trim_start_suffix(s.drop_first(), i - 1);
    } else {
        assert(s.subrange(0, s.len() as int) =~= s);
    }
}

proof fn lemma_trim_end_prefix(s: Seq<char>, j: int)
    requires
        0 <= j <= s.len(),
        forall|k: int| j <= k < s.len() ==> is_ws(#[trigger] s[k]),
    ensures
        trim_end(s) == trim_end(s.subrange(0, j)),
    decreases s.len() - j,
{
    if j < s.len() {
        assert(s.drop_last().subrange(0, j) =~= s.subrange(0, j));
        lemma_trim_end_prefix(s.drop_last(), j);
    } else {
        assert(s.subrange(0, j) =~= s);
    }
}

/// Bounds of the trimmed part of `s`: `trim(s) == s[start..end]`.
pub fn trim_bounds(s: &[char]) -> (r: (usize, usize))
    ensures
        r.0 <= r.1 <= s@.len(),
        trim(s@) == s@.subrange(r.0 as int, r.1 as int),
        trim_start(s@) == s@.subrange(r.0 as int, s@.len() as int),
{
    let mut i: usize = 0;
    while i < s.len() && is_ws_char(s[i])
        invariant
            0 <= i <= s.len(),
            forall|k: int| 0 <= k < i ==> is_ws(#[trigger] s@[k]),
        decreases s.len() - i,
    {
        i = i + 1;
    }
    proof {
        lemma_trim_start_suffix(s@, i as int);
        let rest = s@.subrange(i as int, s@.len() as int);
        if rest.len() > 0 {
            assert(rest[0] == s@[i as int]);
        }
        assert(trim_start(rest) == rest);
    }
    let mut j: usize = s.len();
    while j > i && is_ws_char(s[j - 1])
        invariant
            i <= j <= s.len(),
            forall|k: int| j <= k < s.len() ==> is_ws(#[trigger] s@[k]),
        decreases j,
    {
        j = j - 1;
    }
    proof {
        let rest = s@.subrange(i as int, s@.len() as int);
        assert forall|k: int| (j - i) <= k < rest.len() implies is_ws(#[trigger] rest[k]) by {
            assert(rest[k] == s@[k + i]);
        }
        lemma_trim_end_prefix(rest, j - i);
        let mid = rest.subrange(0, j - i);
        assert(mid =~= s@.subrange(i as int, j as int));
        if mid.len() > 0 {
            assert(mid.last() == s@[j - 1]);
        }
        assert(trim_end(mid) == mid);
    }
    (i, j)
}

/// The trimmed characters of `s`.
pub fn trimmed(s: &[char]) -> (r: Vec<char>)
    ensures
        r@ == trim(s@),
{
    let (a, b) = trim_bounds(s);
    slice_range(s, a, b)
}

/// A copy of `s[from..to]`.
pub fn slice_range(s: &[char], from: usize, to: usize) -> (r: Vec<char>)
    requires
        from <= to <= s@.len(),
    ensures
        r@ == s@.subrange(from as int, to as int),
{
    let mut r: Vec<char> = Vec::new();
    let mut k = from;
    while k < to
        invariant
            from <= k <= to <= s@.len(),
            r@ == s@.subrange(from as int, k as int),
        decreases to - k,
    {
        r.push(s[k]);
        assert(r@ =~= s@.subrange(from as int, k + 1));
        k = k + 1;
    }
    r
}

/// Append all of `src` to `dst`.
pub fn push_all(dst: &mut Vec<char>, src: &[char])
    ensures
        final(dst)@ == old(dst)@ + src@,
{
    let mut k: usize = 0;
    while k < src.len()
        invariant
            0 <= k <= src.len(),
            dst@ == old(dst)@ + src@.subrange(0, k as int),
        decreases src.len() - k,
    {
        dst.push(src[k]);
        assert(dst@ =~= old(dst)@ + src@.subrange(0, k + 1));
        k = k + 1;
    }
    assert(src@.subrange(0, src@.len() as int) =~= src@);
}

/// Whether two character sequences are equal.
pub fn chars_eq(a: &[char], b: &[char]) -> (r: bool)
    ensures
        r == (a@ == b@),
{
    if a.len() != b.len() {
        return false;
    }
    let mut k: usize = 0;
    while k < a.len()
        invariant
            a.len() == b.len(),
            0 <= k <= a.len(),
            forall|m: int| 0 <= m < k ==> a@[m] == b@[m],
        decreases a.len() - k,
    {
        if a[k] != b[k] {
            return false;
        }
        k = k + 1;
    }
    assert(a@ =~= b@);
    true
}

/// Whether two strings hold the same characters.
pub fn str_eq(a: &str, b: &str) -> (r: bool)
    ensures
        r == (a@ == b@),
{
    let x = chars_of(a);
    let y = chars_of(b);
    chars_eq(x.as_slice(), y.as_slice())
}

/// Whether `needle` occurs in `s` at index `at`.
pub fn occurs_at_exec(s: &[char], needle: &[char], at: usize) -> (r: bool)
    ensures
        r == occurs_at(s@, needle@, at as int),
{
    if at > s.len() || needle.len() > s.len() - at {
        return false;
    }
    let mut k: usize = 0;
    while k < needle.len()
        invariant
            at + needle.len() <= s.len(),
            0 <= k <= needle.len(),
            forall|m: int| 0 <= m < k ==> s@[at + m] == needle@[m],
        decreases needle.len() - k,
    {
        if s[at + k] != needle[k] {
            assert(s@.subrange(at as int, at + needle@.len())[k as int] != needle@[k as int]);
            return false;
        }
        k = k + 1;
    }
    assert(s@.subrange(at as int, at + needle@.len()) =~= needle@);
    true
}

/// Whether `needle` occurs anywhere in `s`.
pub fn contains_exec(s: &[char], needle: &[char]) -> (r: bool)
    ensures
        r == contains(s@, needle@),
{
    let mut at: usize = 0;
    while at < s.len()
        invariant
            0 <= at <= s.len(),
            forall|p: int| 0 <= p < at ==> !occurs_at(s@, needle@, p),
        decreases s.len() - at,
    {
        if occurs_at_exec(s, needle, at) {
            return true;
        }
        at = at + 1;
    }
    if occurs_at_exec(s, needle, at) {
        return true;
    }
    assert forall|p: int| !occurs_at(s@, needle@, p) by {
        if 0 <= p <= at {
        }
    }
    false
}

proof fn lemma_digits_value_prefix_le(s: Seq<char>, k: int)
    requires
        0 <= k <= s.len(),
    ensures
        digits_value(s.subrange(0, k)) <= digits_value(s),
    decreases s.len() - k,
{
    if k < s.len() {
        lemma_digits_value_prefix_le(s.drop_last(), k);
        assert(s.drop_last().subrange(0, k) =~= s.subrange(0, k));
    } else {
        assert(s.subrange(0, k) =~= s);
    }
}

/// Read a run of ASCII digits `s[from..to]` as a `u64`, `None` on overflow.
pub fn digits_to_u64(s: &[char], from: usize, to: usize) -> (r: Option<u64>)
    requires
        from <= to <= s@.len(),
        all_digits(s@.subrange(from as int, to as int)),
    ensures
        match r {
            Some(v) => v == digits_value(s@.subrange(from as int, to as int)),
            None => digits_value(s@.subrange(from as int, to as int)) > u64::MAX,
        },
{
    let ghost body = s@.subrange(from as int, to as int);
    let mut acc: u64 = 0;
    let mut k = from;
    while k < to
        invariant
            from <= k <= to <= s@.len(),
            body == s@.subrange(from as int, to as int),
            all_digits(body),
            acc == digits_value(body.subrange(0, k - from)),
        decreases to - k,
    {
        let c = s[k];
        assert(body[k - from] == c);
        let d = (c as u32 - '0' as u32) as u64;
        assert(body.subrange(0, k - from + 1).drop_last() =~= body.subrange(0, k - from));
        proof {
            lemma_digits_value_prefix_le(body, k - from + 1);
        }
        if acc > (u64::MAX - d) / 10 {
            assert(digits_value(body.subrange(0, k - from + 1)) == acc * 10 + d) by {
                assert(body.subrange(0, k - from + 1).last() == c);
            }
            assert(acc * 10 + d > u64::MAX) by (nonlinear_arith)
                requires
                    acc > (u64::MAX - d) / 10,
                    d <= 9,
            ;
            return None;
        }
        assert(acc * 10 + d <= u64::MAX) by (nonlinear_arith)
            requires
                acc <= (u64::MAX - d) / 10,
                d <= 9,
        ;
        acc = acc * 10 + d;
        assert(body.subrange(0, k - from + 1).last() == c);
        k = k + 1;
    }
    assert(body.subrange(0, to - from) =~= body);
    Some(acc)
}

/// Whether `s[from..to]` is all ASCII digits.
pub fn all_digits_exec(s: &[char], from: usize, to: usize) -> (r: bool)
    requires
        from <= to <= s@.len(),
    ensures
        r == all_digits(s@.subrange(from as int, to as int)),
{
    let mut k = from;
    while k < to
        invariant
            from <= k <= to <= s@.len(),
            forall|m: int| from <= m < k ==> is_digit(#[trigger] s@[m]),
        decreases to - k,
    {
        if !is_digit_char(s[k]) {
            assert(!is_digit(s@.subrange(from as int, to as int)[k - from]));
            return false;
        }
        k = k + 1;
    }
    assert forall|m: int| 0 <= m < to - from implies is_digit(
        #[trigger] s@.subrange(from as int, to as int)[m],
    ) by {
        assert(s@.subrange(from as int, to as int)[m] == s@[m + from]);
    }
    true
}

/// `str::parse::<u64>`.
pub fn parse_u64(s: &[char]) -> (r: Option<u64>)
    ensures
        r == (match parse_unsigned(s@) {
            Some(v) => if v <= u64::MAX { Some(v as u64) } else { None },
            None => None,
        }),
{
    let start: usize = if s.len() > 0 && s[0] == '+' { 1 } else { 0 };
    proof {
        if start == 1 {
            assert(s@.drop_first() =~= s@.subrange(1, s@.len() as int));
        } else {
            assert(s@ =~= s@.subrange(0, s@.len() as int));
        }
    }
    if start == s.len() || !all_digits_exec(s, start, s.len()) {
        return None;
    }
    digits_to_u64(s, start, s.len())
}

/// `str::parse::<u32>`.
pub fn parse_u32(s: &[char]) -> (r: Option<u32>)
    ensures
        r == (match parse_unsigned(s@) {
            Some(v) => if v <= u32::MAX { Some(v as u32) } else { None },
            None => None,
        }),
{
    match parse_u64(s) {
        Some(v) => if v <= u32::MAX as u64 { Some(v as u32) } else { None },
        None => {
            None
        },
    }
}

/// `str::parse::<usize>`.
pub fn parse_usize(s: &[char]) -> (r: Option<usize>)
    ensures
        r == (match parse_unsigned(s@) {
            Some(v) => if v <= usize::MAX { Some(v as usize) } else { None },
            None => None,
        }),
{
    match parse_u64(s) {
        Some(v) => if v <= usize::MAX as u64 { Some(v as usize) } else { None },
        None => None,
    }
}

/// `str::parse::<i64>`.
pub fn parse_i64(s: &[char]) -> (r: Option<i64>)
    ensures
        r == (match parse_signed(s@) {
            Some(v) => if i64::MIN <= v <= i64::MAX { Some(v as i64) } else { None },
            None => None,
        }),
{
    if s.len() > 0 && s[0] == '-' {
        proof {
            assert(s@.drop_first() =~= s@.subrange(1, s@.len() as int));
        }
        if s.len() == 1 || !all_digits_exec(s, 1, s.len()) {
            return None;
        }
        match digits_to_u64(s, 1, s.len()) {
            Some(v) => {
                if v <= 9223372036854775808u64 {
                    if v == 9223372036854775808u64 {
                        Some(i64::MIN)
                    } else {
                        Some(-(v as i64))
                    }
                } else {
                    None
                }
            },
            None => None,
        }
    } else {
        match parse_u64(s) {
            Some(v) => if v <= i64::MAX as u64 { Some(v as i64) } else { None },
            None => None,
        }
    }
}

/// `str::parse::<i32>`.
pub fn parse_i32(s: &[char]) -> (r: Option<i32>)
    ensures
        r == (match parse_signed(s@) {
            Some(v) => if i32::MIN <= v <= i32::MAX { Some(v as i32) } else { None },
            None => None,
        }),
{
    match parse_i64(s) {
        Some(v) => if i32::MIN as i64 <= v && v <= i32::MAX as i64 { Some(v as i32) } else { None },
        None => {
            proof {
                if let Some(v) = parse_signed(s@) {
                    assert(!(i64::MIN <= v <= i64::MAX));
                }
            }
            None
        },
    }
}

pub fn digit_to_char(d: u64) -> (c: char)
    requires
        d < 10,
    ensures
        c == digit_char(d as nat),
{
    if d == 0 { '0' }
    else if d == 1 { '1' }
    else if d == 2 { '2' }
    else if d == 3 { '3' }
    else if d == 4 { '4' }
    else if d == 5 { '5' }
    else if d == 6 { '6' }
    else if d == 7 { '7' }
    else if d == 8 { '8' }
    else { '9' }
}

/// Decimal digits of `n`, as `to_string` writes them.
pub fn format_u64(n: u64) -> (r: Vec<char>)
    ensures
        r@ == decimal(n as nat),
    decreases n,
{
    if n < 10 {
        let mut v: Vec<char> = Vec::new();
        v.push(digit_to_char(n));
        assert(v@ =~= seq![digit_char(n as nat)]);
        v
    } else {
        let mut v = format_u64(n / 10);
        v.push(digit_to_char(n % 10));
        v
    }
}

/// Decimal form of a signed integer, as `to_string` writes it.
pub fn format_i64(n: i64) -> (r: Vec<char>)
    ensures
        r@ == signed_decimal(n as int),
{
    if n < 0 {
        let mag: u64 = if n == i64::MIN { 9223372036854775808u64 } else { (-n) as u64 };
        let digits = format_u64(mag);
        let mut v: Vec<char> = Vec::new();
        v.push('-');
        push_all(&mut v, digits.as_slice());
        assert(v@ =~= seq!['-'] + decimal((-n) as nat));
        v
    } else {
        format_u64(n as u64)
    }
}

/// `s` right-aligned in `width` characters, filled on the left with `fill`.
pub fn pad_left_exec(s: &[char], fill: char, width: usize) -> (r: Vec<char>)
    ensures
        r@ == pad_left(s@, fill, width as nat),
{
    let mut v: Vec<char> = Vec::new();
    if s.len() < width {
        let n = width - s.len();
        let mut k: usize = 0;
        while k < n
            invariant
                0 <= k <= n,
                v@ == repeat_char(fill, k as nat),
            decreases n - k,
        {
            v.push(fill);
            assert(v@ =~= repeat_char(fill, (k + 1) as nat));
            k = k + 1;
        }
    } else {
        assert(v@ =~= Seq::<char>::empty());
    }
    push_all(&mut v, s);
    assert(v@ =~= pad_left(s@, fill, width as nat));
    v
}

pub proof fn lemma_trim_start_is_suffix(s: Seq<char>)
    ensures
        exists|a: int| 0 <= a <= s.len() && trim_start(s) == s.subrange(a, s.len() as int),
    decreases s.len(),
{
    if s.len() > 0 && is_ws(s[0]) {
        lemma_trim_start_is_suffix(s.drop_first());
        let a = choose|a: int|
            0 <= a <= s.drop_first().len() && trim_start(s.drop_first()) == s.drop_first().subrange(
                a,
                s.drop_first().len() as int,
            );
        assert(s.drop_first().subrange(a, s.drop_first().len() as int) =~= s.subrange(
            a + 1,
            s.len() as int,
        ));
    } else {
        assert(s.subrange(0, s.len() as int) =~= s);
    }
}

pub proof fn lemma_trim_end_is_prefix(s: Seq<char>)
    ensures
        exists|b: int| 0 <= b <= s.len() && trim_end(s) == s.subrange(0, b),
    decreases s.len(),
{
    if s.len() > 0 && is_ws(s.last()) {
        lemma_trim_end_is_prefix(s.drop_last());
        let b = choose|b: int|
            0 <= b <= s.drop_last().len() && trim_end(s.drop_last())
                == s.drop_last().subrange(0, b);
        assert(s.drop_last().subrange(0, b) =~= s.subrange(0, b));
    } else {
        assert(s.subrange(0, s.len() as int) =~= s);
    }
}

/// Every character of `trim(s)` is a character of `s`.
pub proof fn lemma_trim_len(s: Seq<char>)
    ensures
        trim(s).len() <= s.len(),
{
    lemma_trim_start_is_suffix(s);
    lemma_trim_end_is_prefix(trim_start(s));
}

pub proof fn lemma_trim_chars(s: Seq<char>)
    ensures
        forall|i: int| 0 <= i < trim(s).len() ==> exists|j: int| 0 <= j < s.len() && s[j] == #[trigger] trim(s)[i],
{
    lemma_trim_start_is_suffix(s);
    let a = choose|a: int| 0 <= a <= s.len() && trim_start(s) == s.subrange(a, s.len() as int);
    let ts = trim_start(s);
    lemma_trim_end_is_prefix(ts);
    let b = choose|b: int| 0 <= b <= ts.len() && trim_end(ts) == ts.subrange(0, b);
    assert forall|i: int| 0 <= i < trim(s).len() implies exists|j: int| 0 <= j < s.len() && s[j] == #[trigger] trim(s)[i] by {
        assert(s[a + i] == trim(s)[i]);
    }
}


/// The words of `s` (maximal runs of non-whitespace), given the word being
/// read so far.
pub open spec fn words_from(s: Seq<char>, cur: Seq<char>) -> Seq<Seq<char>>
    decreases s.len(),
{
    if s.len() == 0 {
        if cur.len() > 0 { seq![cur] } else { Seq::empty() }
    } else if is_ws(s[0]) {
        (if cur.len() > 0 { seq![cur] } else { Seq::empty() }) + words_from(s.drop_first(), Seq::empty())
    } else {
        words_from(s.drop_first(), cur.push(s[0]))
    }
}

/// What `str::split_whitespace` yields.
pub open spec fn words(s: Seq<char>) -> Seq<Seq<char>> {
    words_from(s, Seq::empty())
}

/// The parts joined with `sep` between them, as `join` does.
pub open spec fn join(parts: Seq<Seq<char>>, sep: Seq<char>) -> Seq<char>
    decreases parts.len(),
{
    if parts.len() == 0 {
        Seq::empty()
    } else if parts.len() == 1 {
        parts[0]
    } else {
        join(parts.drop_last(), sep) + sep + parts.last()
    }
}

pub open spec fn vecs_view(v: Seq<Vec<char>>) -> Seq<Seq<char>> {
    Seq::new(v.len(), |i: int| v[i]@)
}

/// The whitespace-separated words of `s`.
pub fn split_words(s: &[char]) -> (r: Vec<Vec<char>>)
    ensures
        vecs_view(r@) == words(s@),
{
    let mut out: Vec<Vec<char>> = Vec::new();
    let mut cur: Vec<char> = Vec::new();
    let mut i: usize = 0;
    assert(s@.subrange(0, s@.len() as int) =~= s@);
    assert(vecs_view(out@) =~= Seq::<Seq<char>>::empty());
    assert(cur@ =~= Seq::<char>::empty());
    while i < s.len()
        invariant
            0 <= i <= s@.len(),
            vecs_view(out@) + words_from(s@.subrange(i as int, s@.len() as int), cur@) == words(s@),
        decreases s@.len() - i,
    {
        let ghost rest = s@.subrange(i as int, s@.len() as int);
        let ghost before = vecs_view(out@);
        let ghost cur0 = cur@;
        assert(rest.drop_first() =~= s@.subrange(i + 1, s@.len() as int));
        if is_ws_char(s[i]) {
            if cur.len() > 0 {
                out.push(cur);
                assert(vecs_view(out@) =~= before + seq![cur0]);
            } else {
                assert(vecs_view(out@) =~= before + Seq::<Seq<char>>::empty());
            }
            cur = Vec::new();
            assert(vecs_view(out@) + words_from(rest.drop_first(), cur@) =~= before + words_from(rest, cur0));
        } else {
            cur.push(s[i]);
        }
        i = i + 1;
    }
    let ghost before = vecs_view(out@);
    let ghost cur0 = cur@;
    if cur.len() > 0 {
        out.push(cur);
        assert(vecs_view(out@) =~= before + seq![cur0]);
    } else {
        assert(vecs_view(out@) =~= before + Seq::<Seq<char>>::empty());
    }
    out
}

/// The first `count` parts joined with `sep` between them.
pub fn join_parts(parts: &[Vec<char>], count: usize, sep: &[char]) -> (r: Vec<char>)
    requires
        count <= parts@.len(),
    ensures
        r@ == join(vecs_view(parts@).subrange(0, count as int), sep@),
{
    let ghost pv = vecs_view(parts@).subrange(0, count as int);
    let mut out: Vec<char> = Vec::new();
    if count == 0 {
        return out;
    }
    push_all(&mut out, parts[0].as_slice());
    assert(pv.subrange(0, 1) =~= seq![pv[0]]);
    let mut k: usize = 1;
    while k < count
        invariant
            1 <= k <= count <= parts@.len(),
            pv == vecs_view(parts@).subrange(0, count as int),
            out@ == join(pv.subrange(0, k as int), sep@),
        decreases count - k,
    {
        push_all(&mut out, sep);
        push_all(&mut out, parts[k].as_slice());
        assert(pv.subrange(0, k + 1).drop_last() =~= pv.subrange(0, k as int));
        k = k + 1;
    }
    assert(pv.subrange(0, k as int) =~= pv);
    out
}

/// Decimal digits read back as the number they were written from.
pub proof fn lemma_decimal_reads_back(n: nat)
    ensures
        decimal(n).len() > 0,
        all_digits(decimal(n)),
        digits_value(decimal(n)) == n,
        parse_unsigned(decimal(n)) == Some(n),
    decreases n,
{
    if n >= 10 {
        lemma_decimal_reads_back(n / 10);
        let d = decimal(n);
        assert(d.drop_last() == decimal(n / 10));
        assert(d.last() == digit_char(n % 10));
        assert forall|i: int| 0 <= i < d.len() implies is_digit(#[trigger] d[i]) by {
            if i < d.len() - 1 {
                assert(d[i] == decimal(n / 10)[i]);
            }
        }
        assert(digit_value(digit_char(n % 10)) == n % 10);
        assert(n == (n / 10) * 10 + n % 10) by (nonlinear_arith);
        assert(digits_value(d) == digits_value(d.drop_last()) * 10 + digit_value(d.last()));
    } else {
        let d = decimal(n);
        assert(digit_value(digit_char(n)) == n);
        assert(d.drop_last() =~= Seq::<char>::empty());
        assert(digits_value(d) == digits_value(d.drop_last()) * 10 + digit_value(d.last()));
    }
    let d = decimal(n);
    assert(d[0] != '+') by {
        if n >= 10 {
            assert(d[0] == decimal(n / 10)[0]);
            assert(is_digit(d[0]));
        }
    }
}

} // verus!
