//! Big-endian integers and byte-sequence helpers shared by the codecs.

use vstd::prelude::*;

verus! {

/// The two octets of `v`, most significant first.
pub open spec fn spec_u16_be(v: u16) -> Seq<u8> {
    seq![(v / 256) as u8, (v % 256) as u8]
}

/// The value whose big-endian form starts at `s[0]`.
pub open spec fn spec_u16_from_be(s: Seq<u8>) -> u16
    recommends
        s.len() >= 2,
{
    (s[0] * 256 + s[1]) as u16
}

/// The eight octets of `v`, most significant first.
pub open spec fn spec_u64_be(v: u64) -> Seq<u8> {
    seq![
        (v >> 56) as u8,
        ((v >> 48) & 0xff) as u8,
        ((v >> 40) & 0xff) as u8,
        ((v >> 32) & 0xff) as u8,
        ((v >> 24) & 0xff) as u8,
        ((v >> 16) & 0xff) as u8,
        ((v >> 8) & 0xff) as u8,
        (v & 0xff) as u8,
    ]
}

/// Eight octets, most significant first, as one 64-bit value.
pub open spec fn spec_u64_of_octets(
    b0: u8,
    b1: u8,
    b2: u8,
    b3: u8,
    b4: u8,
    b5: u8,
    b6: u8,
    b7: u8,
) -> u64 {
    ((b0 as u64) << 56) | ((b1 as u64) << 48) | ((b2 as u64) << 40) | ((b3 as u64) << 32) | ((
    b4 as u64) << 24) | ((b5 as u64) << 16) | ((b6 as u64) << 8) | (b7 as u64)
}

/// The value whose big-endian form is the first eight octets of `s`.
pub open spec fn spec_u64_from_be(s: Seq<u8>) -> u64
    recommends
        s.len() >= 8,
{
    spec_u64_of_octets(s[0], s[1], s[2], s[3], s[4], s[5], s[6], s[7])
}

/// Decoding the big-endian form of a 16-bit value gives the value back.
pub proof fn lemma_u16_be_roundtrip(v: u16)
    ensures
        spec_u16_from_be(spec_u16_be(v)) == v,
        spec_u16_be(v).len() == 2,
{
}

/// Decoding the big-endian form of a 64-bit value gives the value back.
pub proof fn lemma_u64_be_roundtrip(v: u64)
    ensures
        spec_u64_from_be(spec_u64_be(v)) == v,
        spec_u64_be(v).len() == 8,
{
    assert((((v >> 56) as u8 as u64) << 56) | ((((v >> 48) & 0xff) as u8 as u64) << 48) | ((((v
        >> 40) & 0xff) as u8 as u64) << 40) | ((((v >> 32) & 0xff) as u8 as u64) << 32) | ((((v
        >> 24) & 0xff) as u8 as u64) << 24) | ((((v >> 16) & 0xff) as u8 as u64) << 16) | ((((v
        >> 8) & 0xff) as u8 as u64) << 8) | ((v & 0xff) as u8 as u64) == v) by (bit_vector);
}

/// Encoding a decoded 16-bit value gives the two octets back.
pub proof fn lemma_u16_from_be_roundtrip(s: Seq<u8>)
    requires
        s.len() == 2,
    ensures
        spec_u16_be(spec_u16_from_be(s)) == s,
{
    assert(spec_u16_be(spec_u16_from_be(s)) =~= s);
}

/// Encoding a decoded 64-bit value gives the eight octets back.
pub proof fn lemma_u64_from_be_roundtrip(s: Seq<u8>)
    requires
        s.len() == 8,
    ensures
        spec_u64_be(spec_u64_from_be(s)) == s,
{
    lemma_u64_of_octets(s[0], s[1], s[2], s[3], s[4], s[5], s[6], s[7]);
    assert(spec_u64_be(spec_u64_from_be(s)) =~= s);
}

/// Each octet can be read back from the value that eight octets make.
pub proof fn lemma_u64_of_octets(b0: u8, b1: u8, b2: u8, b3: u8, b4: u8, b5: u8, b6: u8, b7: u8)
    ensures
        spec_u64_be(spec_u64_of_octets(b0, b1, b2, b3, b4, b5, b6, b7)) == seq![
            b0,
            b1,
            b2,
            b3,
            b4,
            b5,
            b6,
            b7,
        ],
{
    let v = spec_u64_of_octets(b0, b1, b2, b3, b4, b5, b6, b7);
    assert(v == ((b0 as u64) << 56) | ((b1 as u64) << 48) | ((b2 as u64) << 40) | ((b3 as u64)
        << 32) | ((b4 as u64) << 24) | ((b5 as u64) << 16) | ((b6 as u64) << 8) | (b7 as u64));
    assert(v == ((b0 as u64) << 56) | ((b1 as u64) << 48) | ((b2 as u64) << 40) | ((b3 as u64)
        << 32) | ((b4 as u64) << 24) | ((b5 as u64) << 16) | ((b6 as u64) << 8) | (b7 as u64)
        ==> (v >> 56) as u8 == b0 && ((v >> 48) & 0xff) as u8 == b1 && ((v >> 40) & 0xff) as u8
        == b2 && ((v >> 32) & 0xff) as u8 == b3 && ((v >> 24) & 0xff) as u8 == b4 && ((v >> 16)
        & 0xff) as u8 == b5 && ((v >> 8) & 0xff) as u8 == b6 && (v & 0xff) as u8 == b7)
        by (bit_vector);
    assert(spec_u64_be(v) =~= seq![b0, b1, b2, b3, b4, b5, b6, b7]);
}

/// Appends `src` to `buf`.
pub fn extend_bytes(buf: &mut Vec<u8>, src: &[u8])
    ensures
        final(buf)@ == old(buf)@ + src@,
{
    buf.extend_from_slice(src);
    assert(buf@ =~= old(buf)@ + src@);
}

/// Copies `src[from..to]` into a new vector.
pub fn copy_range(src: &[u8], from: usize, to: usize) -> (out: Vec<u8>)
    requires
        from <= to <= src@.len(),
    ensures
        out@ == src@.subrange(from as int, to as int),
{
    let mut out: Vec<u8> = Vec::new();
    let mut i: usize = from;
    while i < to
        invariant
            from <= i <= to <= src@.len(),
            out@ == src@.subrange(from as int, i as int),
        decreases to - i,
    {
        out.push(src[i]);
        i = i + 1;
        assert(out@ =~= src@.subrange(from as int, i as int));
    }
    out
}

/// Copies a byte string into a new vector.
pub fn clone_bytes(src: &[u8]) -> (out: Vec<u8>)
    ensures
        out@ == src@,
{
    let out = copy_range(src, 0, src.len());
    assert(src@.subrange(0, src@.len() as int) =~= src@);
    out
}

/// Whether two byte strings hold the same octets.
pub fn bytes_equal(a: &[u8], b: &[u8]) -> (same: bool)
    ensures
        same == (a@ == b@),
{
    if a.len() != b.len() {
        return false;
    }
    let mut i: usize = 0;
    while i < a.len()
        invariant
            a@.len() == b@.len(),
            i <= a@.len(),
            forall|k: int| 0 <= k < i ==> a@[k] == b@[k],
        decreases a@.len() - i,
    {
        if a[i] != b[i] {
            return false;
        }
        i = i + 1;
    }
    assert(a@ =~= b@);
    true
}

/// Appends the big-endian form of `v` to `buf`.
pub fn push_u16_be(buf: &mut Vec<u8>, v: u16)
    ensures
        final(buf)@ == old(buf)@ + spec_u16_be(v),
{
    let hi: u8 = (v >> 8) as u8;
    let lo: u8 = (v & 0xff) as u8;
    assert((v >> 8) == v / 256 && (v & 0xff) == v % 256) by (bit_vector);
    buf.push(hi);
    buf.push(lo);
    assert(buf@ =~= old(buf)@ + spec_u16_be(v));
}

/// Reads the big-endian 16-bit value at `data[at..at + 2]`.
pub fn read_u16_be(data: &[u8], at: usize) -> (v: u16)
    requires
        at + 2 <= data@.len(),
    ensures
        v == spec_u16_from_be(data@.subrange(at as int, at + 2)),
{
    let hi: u16 = data[at] as u16;
    let lo: u16 = data[at + 1] as u16;
    assert(hi * 256 + lo <= u16::MAX);
    hi * 256 + lo
}

/// Appends the big-endian form of `v` to `buf`.
pub fn push_u64_be(buf: &mut Vec<u8>, v: u64)
    ensures
        final(buf)@ == old(buf)@ + spec_u64_be(v),
{
    buf.push((v >> 56) as u8);
    buf.push(((v >> 48) & 0xff) as u8);
    buf.push(((v >> 40) & 0xff) as u8);
    buf.push(((v >> 32) & 0xff) as u8);
    buf.push(((v >> 24) & 0xff) as u8);
    buf.push(((v >> 16) & 0xff) as u8);
    buf.push(((v >> 8) & 0xff) as u8);
    buf.push((v & 0xff) as u8);
    assert(buf@ =~= old(buf)@ + spec_u64_be(v));
}

/// Reads the big-endian 64-bit value at `data[at..at + 8]`.
pub fn read_u64_be(data: &[u8], at: usize) -> (v: u64)
    requires
        at + 8 <= data@.len(),
    ensures
        v == spec_u64_from_be(data@.subrange(at as int, at + 8)),
{
    let b0: u64 = data[at] as u64;
    let b1: u64 = data[at + 1] as u64;
    let b2: u64 = data[at + 2] as u64;
    let b3: u64 = data[at + 3] as u64;
    let b4: u64 = data[at + 4] as u64;
    let b5: u64 = data[at + 5] as u64;
    let b6: u64 = data[at + 6] as u64;
    let b7: u64 = data[at + 7] as u64;
    (b0 << 56) | (b1 << 48) | (b2 << 40) | (b3 << 32) | (b4 << 24) | (b5 << 16) | (b6 << 8) | b7
}

/// Calls `String::from_utf8` on a copy of the octets. The contract claims
/// what the documentation of std says: the string is given exactly where
/// the octets are valid UTF-8, and holds the characters that they encode.
#[verifier::external_body]
pub(crate) fn utf8_string(bytes: &[u8]) -> (text: Option<String>)
    ensures
        match text {
            Some(t) => vstd::utf8::valid_utf8(bytes@) && t@ == vstd::utf8::decode_utf8(bytes@),
            None => !vstd::utf8::valid_utf8(bytes@),
        },
{
    String::from_utf8(bytes.to_vec()).ok()
}

} // verus!
