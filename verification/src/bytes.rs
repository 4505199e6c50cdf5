//! Big-endian integers in byte buffers, and byte-range copies.
use vstd::prelude::*;
use vstd::utf8::{decode_utf8, valid_utf8};

verus! {

/// The big-endian 32-bit value stored at `o`.
pub open spec fn be32(s: Seq<u8>, o: int) -> nat {
    ((s[o] as nat) * 0x1000000 + (s[o + 1] as nat) * 0x10000 + (s[o + 2] as nat) * 0x100 + (s[o
        + 3] as nat)) as nat
}

/// The big-endian 64-bit value stored at `o`.
pub open spec fn be64(s: Seq<u8>, o: int) -> nat {
    be32(s, o) * 0x1_0000_0000 + be32(s, o + 4)
}

/// The four big-endian bytes of `v`.
pub open spec fn be32_bytes(v: nat) -> Seq<u8> {
    seq![
        ((v / 0x1000000) % 0x100) as u8,
        ((v / 0x10000) % 0x100) as u8,
        ((v / 0x100) % 0x100) as u8,
        (v % 0x100) as u8,
    ]
}

/// The eight big-endian bytes of `v`.
pub open spec fn be64_bytes(v: nat) -> Seq<u8> {
    be32_bytes((v / 0x1_0000_0000) % 0x1_0000_0000) + be32_bytes(v % 0x1_0000_0000)
}

/// The standard base64 text (RFC 4648 alphabet, with padding) of some
/// bytes, as the base64 crate's `STANDARD` engine writes it.
pub uninterp spec fn base64_standard(b: Seq<u8>) -> Seq<char>;

/// `base64::Engine::encode` with the `STANDARD` engine.
#[verifier::external_body]
pub(crate) fn encode_base64(b: &[u8]) -> (r: String)
    ensures
        r@ == base64_standard(b@),
{
    base64::Engine::encode(&base64::engine::general_purpose::STANDARD, b)
}

/// The text `String::from_utf8_lossy` makes of some bytes.
pub uninterp spec fn utf8_lossy(b: Seq<u8>) -> Seq<char>;

/// What `from_utf8_lossy` gives: for valid UTF-8 the text it encodes,
/// else what the name stands for.
pub open spec fn lossy_text(b: Seq<u8>) -> Seq<char> {
    if valid_utf8(b) {
        decode_utf8(b)
    } else {
        utf8_lossy(b)
    }
}

/// `String::from_utf8_lossy`: valid UTF-8 comes back as the text it
/// encodes, as std documents; invalid sequences are replaced.
#[verifier::external_body]
pub(crate) fn from_utf8_lossy(b: &[u8]) -> (r: String)
    ensures
        r@ == utf8_lossy(b@),
        valid_utf8(b@) ==> r@ == decode_utf8(b@),
{
    String::from_utf8_lossy(b).into_owned()
}

pub fn read_be32(s: &[u8], o: usize) -> (r: u32)
    requires
        o + 4 <= s.len(),
    ensures
        r as nat == be32(s@, o as int),
{
    let a = s[o] as u32;
    let b = s[o + 1] as u32;
    let c = s[o + 2] as u32;
    let d = s[o + 3] as u32;
    assert(a * 0x1000000 + b * 0x10000 + c * 0x100 + d <= 0xffff_ffff) by (nonlinear_arith)
        requires
            a < 256,
            b < 256,
            c < 256,
            d < 256,
    ;
    a * 0x1000000 + b * 0x10000 + c * 0x100 + d
}

pub fn read_be64(s: &[u8], o: usize) -> (r: u64)
    requires
        o + 8 <= s.len(),
    ensures
        r as nat == be64(s@, o as int),
{
    let hi = read_be32(s, o) as u64;
    let lo = read_be32(s, o + 4) as u64;
    assert(hi * 0x1_0000_0000 + lo <= 0xffff_ffff_ffff_ffff) by (nonlinear_arith)
        requires
            hi <= 0xffff_ffff,
            lo <= 0xffff_ffff,
    ;
    hi * 0x1_0000_0000 + lo
}

/// Append the big-endian bytes of `v`.
pub fn push_be32(out: &mut Vec<u8>, v: u32)
    ensures
        final(out)@ == old(out)@ + be32_bytes(v as nat),
{
    out.push(((v / 0x1000000) % 0x100) as u8);
    out.push(((v / 0x10000) % 0x100) as u8);
    out.push(((v / 0x100) % 0x100) as u8);
    out.push((v % 0x100) as u8);
    assert(out@ =~= old(out)@ + be32_bytes(v as nat));
}

/// Append the big-endian bytes of `v`.
pub fn push_be64(out: &mut Vec<u8>, v: u64)
    ensures
        final(out)@ == old(out)@ + be64_bytes(v as nat),
{
    push_be32(out, ((v / 0x1_0000_0000) % 0x1_0000_0000) as u32);
    push_be32(out, (v % 0x1_0000_0000) as u32);
    assert(out@ =~= old(out)@ + be64_bytes(v as nat));
}

/// A copy of `s[from..to]`.
pub fn copy_range(s: &[u8], from: usize, to: usize) -> (r: Vec<u8>)
    requires
        from <= to <= s@.len(),
    ensures
        r@ == s@.subrange(from as int, to as int),
{
    let mut r: Vec<u8> = Vec::new();
    let mut k = from;
    while k < to
        invariant
            from <= k <= to <= s@.len(),
            r@ == s@.subrange(from as int, k as int),
        decreases to - k,
    {
        r.push(s[k]);
        assert(r@ =~= s@.subrange(from as int, k + 1));
        k = k + 1;
    }
    r
}

/// Append all of `src` to `dst`.
pub fn append_bytes(dst: &mut Vec<u8>, src: &[u8])
    ensures
        final(dst)@ == old(dst)@ + src@,
{
    let mut k: usize = 0;
    while k < src.len()
        invariant
            0 <= k <= src.len(),
            dst@ == old(dst)@ + src@.subrange(0, k as int),
        decreases src.len() - k,
    {
        dst.push(src[k]);
        assert(dst@ =~= old(dst)@ + src@.subrange(0, k + 1));
        k = k + 1;
    }
    assert(src@.subrange(0, src@.len() as int) =~= src@);
}

/// Reading back the bytes written for a 32-bit value gives the value.
pub proof fn law_be32_round_trip(v: nat)
    requires
        v < 0x1_0000_0000,
    ensures
        be32(be32_bytes(v), 0) == v,
{
    let b = be32_bytes(v);
    assert(b[0] as nat == (v / 0x1000000) % 0x100);
    assert(b[1] as nat == (v / 0x10000) % 0x100);
    assert(b[2] as nat == (v / 0x100) % 0x100);
    assert(b[3] as nat == v % 0x100);
    assert((v / 0x1000000) % 0x100 * 0x1000000 + (v / 0x10000) % 0x100 * 0x10000 + (v / 0x100)
        % 0x100 * 0x100 + v % 0x100 == v) by (nonlinear_arith)
        requires
            v < 0x1_0000_0000,
    ;
}

/// Reading back the bytes written for a 64-bit value gives the value.
pub proof fn law_be64_round_trip(v: nat)
    requires
        v < 0x1_0000_0000_0000_0000,
    ensures
        be64(be64_bytes(v), 0) == v,
{
    let hi = (v / 0x1_0000_0000) % 0x1_0000_0000;
    let lo = v % 0x1_0000_0000;
    law_be32_round_trip(hi);
    law_be32_round_trip(lo);
    let b = be64_bytes(v);
    assert(b.subrange(0, 4) =~= be32_bytes(hi));
    assert(b.subrange(4, 8) =~= be32_bytes(lo));
    assert(be32(b, 0) == be32(be32_bytes(hi), 0));
    assert(be32(b, 4) == be32(be32_bytes(lo), 0));
    assert(hi * 0x1_0000_0000 + lo == v) by (nonlinear_arith)
        requires
            v < 0x1_0000_0000_0000_0000,
            hi == (v / 0x1_0000_0000) % 0x1_0000_0000,
            lo == v % 0x1_0000_0000,
    ;
}

} // verus!
