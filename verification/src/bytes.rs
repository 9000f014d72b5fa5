//! Fixed-width integers as they lie in table and memo files, and the small
//! byte-sequence vocabulary (padding, trimming, runs of digits) that the slot
//! codecs are written in.

use vstd::prelude::*;

verus! {

/// The byte that fills the room of a slot.
pub const SPACE: u8 = 0x20;

/// The number that the first two bytes spell, least significant byte first.
pub open spec fn le_u16(s: Seq<u8>) -> int
    recommends
        s.len() >= 2,
{
    s[0] as int + 256 * (s[1] as int)
}

/// The number that the first four bytes spell, least significant byte first.
pub open spec fn le_u32(s: Seq<u8>) -> int
    recommends
        s.len() >= 4,
{
    s[0] as int + 256 * (s[1] as int) + 65536 * (s[2] as int) + 16777216 * (s[3] as int)
}

/// The number that the first eight bytes spell, least significant byte first.
pub open spec fn le_u64(s: Seq<u8>) -> int
    recommends
        s.len() >= 8,
{
    le_u32(s) + 4294967296 * le_u32(s.skip(4))
}

/// The number that the first two bytes spell, most significant byte first.
pub open spec fn be_u16(s: Seq<u8>) -> int
    recommends
        s.len() >= 2,
{
    256 * (s[0] as int) + s[1] as int
}

/// The number that the first four bytes spell, most significant byte first.
pub open spec fn be_u32(s: Seq<u8>) -> int
    recommends
        s.len() >= 4,
{
    16777216 * (s[0] as int) + 65536 * (s[1] as int) + 256 * (s[2] as int) + s[3] as int
}

/// The two bytes of a number, least significant first.
pub open spec fn le_bytes_u16(n: u16) -> Seq<u8> {
    seq![(n % 256) as u8, (n / 256) as u8]
}

/// The four bytes of a number, least significant first.
pub open spec fn le_bytes_u32(n: u32) -> Seq<u8> {
    seq![
        (n % 256) as u8,
        ((n / 256) % 256) as u8,
        ((n / 65536) % 256) as u8,
        (n / 16777216) as u8,
    ]
}

/// The eight bytes of a number, least significant first.
pub open spec fn le_bytes_u64(n: u64) -> Seq<u8> {
    le_bytes_u32((n % 4294967296) as u32) + le_bytes_u32((n / 4294967296) as u32)
}

/// The two bytes of a number, most significant first.
pub open spec fn be_bytes_u16(n: u16) -> Seq<u8> {
    seq![(n / 256) as u8, (n % 256) as u8]
}

/// The four bytes of a number, most significant first.
pub open spec fn be_bytes_u32(n: u32) -> Seq<u8> {
    seq![
        (n / 16777216) as u8,
        ((n / 65536) % 256) as u8,
        ((n / 256) % 256) as u8,
        (n % 256) as u8,
    ]
}

/// The signed number that a 32-bit pattern stands for in two's complement.
pub open spec fn signed32(bits: int) -> int {
    if bits >= 0x8000_0000 {
        bits - 0x1_0000_0000
    } else {
        bits
    }
}

/// The 32-bit pattern of a signed number in two's complement.
pub open spec fn unsigned32(v: int) -> int {
    if v < 0 {
        v + 0x1_0000_0000
    } else {
        v
    }
}

/// The signed number that a 64-bit pattern stands for in two's complement.
pub open spec fn signed64(bits: int) -> int {
    if bits >= 0x8000_0000_0000_0000 {
        bits - 0x1_0000_0000_0000_0000
    } else {
        bits
    }
}

/// The 64-bit pattern of a signed number in two's complement.
pub open spec fn unsigned64(v: int) -> int {
    if v < 0 {
        v + 0x1_0000_0000_0000_0000
    } else {
        v
    }
}

/// Writing a 16-bit number and reading it back gives the number.
pub proof fn lemma_le_u16_round_trip(n: u16)
    ensures
        le_bytes_u16(n).len() == 2,
        le_u16(le_bytes_u16(n)) == n,
{
}

/// Writing a 32-bit number and reading it back gives the number.
pub proof fn lemma_le_u32_round_trip(n: u32)
    ensures
        le_bytes_u32(n).len() == 4,
        le_u32(le_bytes_u32(n)) == n,
{
    lemma_split_u32(n as int);
}

/// A number below two to the thirty-second is the sum of its four bytes,
/// each at its place.
pub proof fn lemma_split_u32(n: int)
    requires
        0 <= n < 4294967296,
    ensures
        n == n % 256 + 256 * ((n / 256) % 256) + 65536 * ((n / 65536) % 256) + 16777216 * (n
            / 16777216),
        n / 16777216 < 256,
{
    let a = n / 256;
    let b = a / 256;
    let c = b / 256;
    assert(n == 256 * a + n % 256);
    assert(a == 256 * b + a % 256);
    assert(b == 256 * c + b % 256);
    assert(b == n / 65536) by {
        assert(n == 65536 * b + (256 * (a % 256) + n % 256));
    }
    assert(c == n / 16777216) by {
        assert(n == 16777216 * c + (65536 * (b % 256) + 256 * (a % 256) + n % 256));
    }
}

/// Only the first four bytes count for a 32-bit number.
pub proof fn lemma_le_u32_prefix(s: Seq<u8>, t: Seq<u8>)
    requires
        s.len() >= 4,
        t.len() >= 4,
        s.take(4) == t.take(4),
    ensures
        le_u32(s) == le_u32(t),
{
    let p = s.take(4);
    let q = t.take(4);
    assert(s[0] == p[0] && s[1] == p[1] && s[2] == p[2] && s[3] == p[3]);
    assert(t[0] == q[0] && t[1] == q[1] && t[2] == q[2] && t[3] == q[3]);
}

/// Writing a 64-bit number and reading it back gives the number.
pub proof fn lemma_le_u64_round_trip(n: u64)
    ensures
        le_bytes_u64(n).len() == 8,
        le_u64(le_bytes_u64(n)) == n,
{
    let lo = (n % 4294967296) as u32;
    let hi = (n / 4294967296) as u32;
    let s = le_bytes_u64(n);
    lemma_le_u32_round_trip(lo);
    lemma_le_u32_round_trip(hi);
    assert(s.skip(4) =~= le_bytes_u32(hi));
    assert(s.take(4) =~= le_bytes_u32(lo).take(4));
    lemma_le_u32_prefix(s, le_bytes_u32(lo));
}

/// Writing a 16-bit number most significant byte first and reading it back
/// gives the number.
pub proof fn lemma_be_u16_round_trip(n: u16)
    ensures
        be_bytes_u16(n).len() == 2,
        be_u16(be_bytes_u16(n)) == n,
{
}

/// Writing a 32-bit number most significant byte first and reading it back
/// gives the number.
pub proof fn lemma_be_u32_round_trip(n: u32)
    ensures
        be_bytes_u32(n).len() == 4,
        be_u32(be_bytes_u32(n)) == n,
{
    lemma_split_u32(n as int);
}

/// Calls `byteorder::LittleEndian::read_u16`, which decodes the first two
/// bytes of the slice and panics on a shorter one.
#[verifier::external_body]
pub(crate) fn read_u16_le(buf: &[u8]) -> (n: u16)
    requires
        buf@.len() >= 2,
    ensures
        n as int == le_u16(buf@),
{
    <byteorder::LittleEndian as byteorder::ByteOrder>::read_u16(buf)
}

/// Calls `byteorder::LittleEndian::read_u32`, which decodes the first four
/// bytes of the slice and panics on a shorter one.
#[verifier::external_body]
pub(crate) fn read_u32_le(buf: &[u8]) -> (n: u32)
    requires
        buf@.len() >= 4,
    ensures
        n as int == le_u32(buf@),
{
    <byteorder::LittleEndian as byteorder::ByteOrder>::read_u32(buf)
}

/// Calls `byteorder::LittleEndian::read_u64`, which decodes the first eight
/// bytes of the slice and panics on a shorter one.
#[verifier::external_body]
pub(crate) fn read_u64_le(buf: &[u8]) -> (n: u64)
    requires
        buf@.len() >= 8,
    ensures
        n as int == le_u64(buf@),
{
    <byteorder::LittleEndian as byteorder::ByteOrder>::read_u64(buf)
}

/// Calls `byteorder::BigEndian::read_u16`, which decodes the first two bytes
/// of the slice and panics on a shorter one.
#[verifier::external_body]
pub(crate) fn read_u16_be(buf: &[u8]) -> (n: u16)
    requires
        buf@.len() >= 2,
    ensures
        n as int == be_u16(buf@),
{
    <byteorder::BigEndian as byteorder::ByteOrder>::read_u16(buf)
}

/// Calls `byteorder::BigEndian::read_u32`, which decodes the first four bytes
/// of the slice and panics on a shorter one.
#[verifier::external_body]
pub(crate) fn read_u32_be(buf: &[u8]) -> (n: u32)
    requires
        buf@.len() >= 4,
    ensures
        n as int == be_u32(buf@),
{
    <byteorder::BigEndian as byteorder::ByteOrder>::read_u32(buf)
}

/// Calls `byteorder::LittleEndian::write_u16` on a buffer of two bytes, which
/// it fills with the number's bytes, least significant first.
#[verifier::external_body]
pub(crate) fn u16_le(n: u16) -> (buf: [u8; 2])
    ensures
        buf@ == le_bytes_u16(n),
{
    let mut buf = [0u8; 2];
    <byteorder::LittleEndian as byteorder::ByteOrder>::write_u16(&mut buf, n);
    buf
}

/// Calls `byteorder::LittleEndian::write_u32` on a buffer of four bytes,
/// which it fills with the number's bytes, least significant first.
#[verifier::external_body]
pub(crate) fn u32_le(n: u32) -> (buf: [u8; 4])
    ensures
        buf@ == le_bytes_u32(n),
{
    let mut buf = [0u8; 4];
    <byteorder::LittleEndian as byteorder::ByteOrder>::write_u32(&mut buf, n);
    buf
}

/// Calls `byteorder::LittleEndian::write_u64` on a buffer of eight bytes,
/// which it fills with the number's bytes, least significant first.
#[verifier::external_body]
pub(crate) fn u64_le(n: u64) -> (buf: [u8; 8])
    ensures
        buf@ == le_bytes_u64(n),
{
    let mut buf = [0u8; 8];
    <byteorder::LittleEndian as byteorder::ByteOrder>::write_u64(&mut buf, n);
    buf
}

/// Calls `byteorder::BigEndian::write_u16` on a buffer of two bytes, which it
/// fills with the number's bytes, most significant first.
#[verifier::external_body]
pub(crate) fn u16_be(n: u16) -> (buf: [u8; 2])
    ensures
        buf@ == be_bytes_u16(n),
{
    let mut buf = [0u8; 2];
    <byteorder::BigEndian as byteorder::ByteOrder>::write_u16(&mut buf, n);
    buf
}

/// Calls `byteorder::BigEndian::write_u32` on a buffer of four bytes, which
/// it fills with the number's bytes, most significant first.
#[verifier::external_body]
pub(crate) fn u32_be(n: u32) -> (buf: [u8; 4])
    ensures
        buf@ == be_bytes_u32(n),
{
    let mut buf = [0u8; 4];
    <byteorder::BigEndian as byteorder::ByteOrder>::write_u32(&mut buf, n);
    buf
}

/// The signed reading of a 32-bit pattern.
pub fn i32_from_bits(bits: u32) -> (v: i32)
    ensures
        v as int == signed32(bits as int),
{
    if bits < 0x8000_0000 {
        bits as i32
    } else {
        ((bits - 0x8000_0000) as i32) + i32::MIN
    }
}

/// The 32-bit pattern of a signed number.
pub fn i32_to_bits(v: i32) -> (bits: u32)
    ensures
        bits as int == unsigned32(v as int),
        signed32(bits as int) == v,
{
    if v >= 0 {
        v as u32
    } else {
        ((v - i32::MIN) as u32) + 0x8000_0000
    }
}

/// The signed reading of a 64-bit pattern.
pub fn i64_from_bits(bits: u64) -> (v: i64)
    ensures
        v as int == signed64(bits as int),
{
    if bits < 0x8000_0000_0000_0000 {
        bits as i64
    } else {
        ((bits - 0x8000_0000_0000_0000) as i64) + i64::MIN
    }
}

/// The 64-bit pattern of a signed number.
pub fn i64_to_bits(v: i64) -> (bits: u64)
    ensures
        bits as int == unsigned64(v as int),
        signed64(bits as int) == v,
{
    if v >= 0 {
        v as u64
    } else {
        ((v - i64::MIN) as u64) + 0x8000_0000_0000_0000
    }
}

/// Appends a copy of `src` to `dest`.
pub fn push_all(dest: &mut Vec<u8>, src: &[u8])
    ensures
        final(dest)@ == old(dest)@ + src@,
{
    let mut i: usize = 0;
    while i < src.len()
        invariant
            i <= src@.len(),
            dest@ == old(dest)@ + src@.take(i as int),
        decreases src@.len() - i,
    {
        dest.push(src[i]);
        i = i + 1;
        assert(src@.take(i as int) =~= src@.take(i - 1).push(src@[i - 1]));
    }
    assert(src@.take(src@.len() as int) =~= src@);
}

/// Appends `count` copies of `byte` to `dest`.
pub fn push_fill(dest: &mut Vec<u8>, byte: u8, count: usize)
    ensures
        final(dest)@ == old(dest)@ + filled(byte, count as nat),
{
    let mut i: usize = 0;
    while i < count
        invariant
            i <= count,
            dest@ == old(dest)@ + filled(byte, i as nat),
        decreases count - i,
    {
        dest.push(byte);
        i = i + 1;
        assert(filled(byte, i as nat) =~= filled(byte, (i - 1) as nat).push(byte));
    }
}

/// Puts `word` in the place of the bytes of `dest` from `at` on.
pub fn overwrite(dest: &mut Vec<u8>, at: usize, word: &[u8])
    requires
        at + word@.len() <= old(dest)@.len(),
    ensures
        final(dest)@ == old(dest)@.take(at as int) + word@ + old(dest)@.skip(at + word@.len()),
{
    let ghost before = dest@;
    let total = dest.len();
    let mut i: usize = 0;
    while i < word.len()
        invariant
            i <= word@.len(),
            total == before.len(),
            at + word@.len() <= before.len(),
            dest@.len() == before.len(),
            forall|j: int|
                0 <= j < before.len() ==> dest@[j] == if at <= j < at + i {
                    word@[j - at]
                } else {
                    before[j]
                },
        decreases word@.len() - i,
    {
        dest.set(at + i, word[i]);
        i = i + 1;
    }
    assert(dest@ =~= before.take(at as int) + word@ + before.skip(at + word@.len()));
}

/// A copy of the bytes of `src` from `from` up to `to`.
pub fn copy_range(src: &[u8], from: usize, to: usize) -> (out: Vec<u8>)
    requires
        from <= to <= src@.len(),
    ensures
        out@ == src@.subrange(from as int, to as int),
{
    let mut out: Vec<u8> = Vec::new();
    push_all(&mut out, vstd::slice::slice_subrange(src, from, to));
    out
}

/// `count` copies of `byte`.
pub open spec fn filled(byte: u8, count: nat) -> Seq<u8> {
    Seq::new(count, |i: int| byte)
}

/// `count` spaces.
pub open spec fn spaces(count: nat) -> Seq<u8> {
    filled(SPACE, count)
}

/// Whether a byte counts as empty room in a slot: a space or a NUL.
pub open spec fn is_blank(b: u8) -> bool {
    b == SPACE || b == 0
}

/// Whether `s` holds blank bytes and nothing else.
pub open spec fn all_blank(s: Seq<u8>) -> bool {
    forall|i: int| 0 <= i < s.len() ==> is_blank(#[trigger] s[i])
}

/// `s` without the bytes `pad` at its end.
pub open spec fn trim_end(s: Seq<u8>, pad: u8) -> Seq<u8>
    decreases s.len(),
{
    if s.len() > 0 && s.last() == pad {
        trim_end(s.drop_last(), pad)
    } else {
        s
    }
}

/// `s` without the blank bytes at its end.
pub open spec fn trim_end_blank(s: Seq<u8>) -> Seq<u8>
    decreases s.len(),
{
    if s.len() > 0 && is_blank(s.last()) {
        trim_end_blank(s.drop_last())
    } else {
        s
    }
}

/// `s` without the blank bytes at its start.
pub open spec fn trim_start_blank(s: Seq<u8>) -> Seq<u8>
    decreases s.len(),
{
    if s.len() > 0 && is_blank(s[0]) {
        trim_start_blank(s.drop_first())
    } else {
        s
    }
}

/// `s` without the blank bytes at either end.
pub open spec fn trim_blank(s: Seq<u8>) -> Seq<u8> {
    trim_end_blank(trim_start_blank(s))
}

/// What is left of `s` and padding behind it once the padding is trimmed,
/// when `s` itself does not end in the padding byte.
pub proof fn lemma_trim_end_padded(s: Seq<u8>, pad: u8, count: nat)
    requires
        s.len() == 0 || s.last() != pad,
    ensures
        trim_end(s + filled(pad, count), pad) == s,
    decreases count,
{
    let t = s + filled(pad, count);
    if count == 0 {
        assert(t =~= s);
    } else {
        assert(t.last() == pad);
        assert(t.drop_last() =~= s + filled(pad, (count - 1) as nat));
        lemma_trim_end_padded(s, pad, (count - 1) as nat);
    }
}

/// Padding behind `s` changes nothing in what trimming leaves of it.
pub proof fn lemma_trim_end_ignores_padding(s: Seq<u8>, pad: u8, count: nat)
    ensures
        trim_end(s + filled(pad, count), pad) == trim_end(s, pad),
    decreases count,
{
    let t = s + filled(pad, count);
    if count == 0 {
        assert(t =~= s);
    } else {
        assert(t.last() == pad);
        assert(t.drop_last() =~= s + filled(pad, (count - 1) as nat));
        lemma_trim_end_ignores_padding(s, pad, (count - 1) as nat);
    }
}

/// Trimming the end takes a suffix of padding away and nothing else.
pub proof fn lemma_trim_end_shape(s: Seq<u8>, pad: u8)
    ensures
        trim_end(s, pad).len() <= s.len(),
        trim_end(s, pad) == s.take(trim_end(s, pad).len() as int),
        trim_end(s, pad).len() == 0 || trim_end(s, pad).last() != pad,
        forall|i: int| trim_end(s, pad).len() <= i < s.len() ==> s[i] == pad,
        s == trim_end(s, pad) + filled(pad, (s.len() - trim_end(s, pad).len()) as nat),
    decreases s.len(),
{
    let t = trim_end(s, pad);
    if s.len() > 0 && s.last() == pad {
        lemma_trim_end_shape(s.drop_last(), pad);
        assert(s.drop_last().take(t.len() as int) =~= s.take(t.len() as int));
        assert forall|i: int| t.len() <= i < s.len() implies s[i] == pad by {
            if i < s.len() - 1 {
                assert(s[i] == s.drop_last()[i]);
            }
        }
    } else {
        assert(s.take(s.len() as int) =~= s);
    }
    assert(s =~= t + filled(pad, (s.len() - t.len()) as nat));
}

/// Trimming the end takes a suffix of blank bytes away and nothing else.
pub proof fn lemma_trim_end_blank_shape(s: Seq<u8>)
    ensures
        trim_end_blank(s).len() <= s.len(),
        trim_end_blank(s) == s.take(trim_end_blank(s).len() as int),
        trim_end_blank(s).len() == 0 || !is_blank(trim_end_blank(s).last()),
        forall|i: int| trim_end_blank(s).len() <= i < s.len() ==> is_blank(#[trigger] s[i]),
    decreases s.len(),
{
    if s.len() > 0 && is_blank(s.last()) {
        lemma_trim_end_blank_shape(s.drop_last());
        let t = trim_end_blank(s);
        assert(s.drop_last().take(t.len() as int) =~= s.take(t.len() as int));
        assert forall|i: int| t.len() <= i < s.len() implies is_blank(#[trigger] s[i]) by {
            if i < s.len() - 1 {
                assert(s[i] == s.drop_last()[i]);
            }
        }
    } else {
        assert(s.take(s.len() as int) =~= s);
    }
}

/// Trimming the start takes a prefix of blank bytes away and nothing else.
pub proof fn lemma_trim_start_blank_shape(s: Seq<u8>)
    ensures
        trim_start_blank(s).len() <= s.len(),
        trim_start_blank(s) == s.skip(s.len() - trim_start_blank(s).len()),
        trim_start_blank(s).len() == 0 || !is_blank(trim_start_blank(s)[0]),
        forall|i: int| 0 <= i < s.len() - trim_start_blank(s).len() ==> is_blank(#[trigger] s[i]),
    decreases s.len(),
{
    if s.len() > 0 && is_blank(s[0]) {
        lemma_trim_start_blank_shape(s.drop_first());
        let t = trim_start_blank(s);
        assert(s.drop_first().skip(s.len() - 1 - t.len()) =~= s.skip(s.len() - t.len()));
        assert forall|i: int| 0 <= i < s.len() - t.len() implies is_blank(#[trigger] s[i]) by {
            if i > 0 {
                assert(s[i] == s.drop_first()[i - 1]);
            }
        }
    } else {
        assert(s.skip(0) =~= s);
    }
}

/// A text that neither starts nor ends with a blank byte comes back out of
/// any padding of blank-free room around it.
pub proof fn lemma_trim_blank_padded(left: nat, s: Seq<u8>, right: nat)
    requires
        s.len() > 0,
        !is_blank(s[0]),
        !is_blank(s.last()),
    ensures
        trim_blank(spaces(left) + s + spaces(right)) == s,
{
    lemma_trim_start_padded(left, s + spaces(right));
    assert(spaces(left) + (s + spaces(right)) =~= spaces(left) + s + spaces(right));
    lemma_trim_end_blank_padded(s, right);
}

/// Spaces in front of a text that starts with something else are all that
/// trimming the start takes away.
pub proof fn lemma_trim_start_padded(left: nat, s: Seq<u8>)
    requires
        s.len() == 0 || !is_blank(s[0]),
    ensures
        trim_start_blank(spaces(left) + s) == s,
    decreases left,
{
    let t = spaces(left) + s;
    if left == 0 {
        assert(t =~= s);
    } else {
        assert(t[0] == SPACE);
        assert(t.drop_first() =~= spaces((left - 1) as nat) + s);
        lemma_trim_start_padded((left - 1) as nat, s);
    }
}

/// Spaces behind a text that ends with something else are all that trimming
/// the end takes away.
pub proof fn lemma_trim_end_blank_padded(s: Seq<u8>, right: nat)
    requires
        s.len() == 0 || !is_blank(s.last()),
    ensures
        trim_end_blank(s + spaces(right)) == s,
    decreases right,
{
    let t = s + spaces(right);
    if right == 0 {
        assert(t =~= s);
    } else {
        assert(t.last() == SPACE);
        assert(t.drop_last() =~= s + spaces((right - 1) as nat));
        lemma_trim_end_blank_padded(s, (right - 1) as nat);
    }
}

/// A slot of blank bytes only trims to nothing, and only such a slot does.
pub proof fn lemma_trim_blank_empty(s: Seq<u8>)
    ensures
        (trim_blank(s).len() == 0) == all_blank(s),
{
    lemma_trim_start_blank_shape(s);
    let t = trim_start_blank(s);
    lemma_trim_end_blank_shape(t);
    let k = s.len() - t.len();
    if trim_blank(s).len() == 0 {
        assert forall|i: int| 0 <= i < s.len() implies is_blank(#[trigger] s[i]) by {
            if i >= k {
                assert(s[i] == t[i - k]);
            }
        }
    } else {
        if t.len() > 0 {
            assert(t[0] == s[k]);
        }
    }
}

/// The length of `s` once the bytes `pad` at its end are gone.
pub fn trimmed_end_len(s: &[u8], pad: u8) -> (n: usize)
    ensures
        n <= s@.len(),
        trim_end(s@, pad) == s@.take(n as int),
        n == trim_end(s@, pad).len(),
{
    let mut n: usize = s.len();
    assert(s@.take(n as int) =~= s@);
    while n > 0 && s[n - 1] == pad
        invariant
            n <= s@.len(),
            trim_end(s@, pad) == trim_end(s@.take(n as int), pad),
        decreases n,
    {
        assert(s@.take(n as int).drop_last() =~= s@.take(n - 1));
        n = n - 1;
    }
    n
}

/// The bounds of `s` once the blank bytes at both ends are gone.
pub fn trimmed_blank_bounds(s: &[u8]) -> (r: (usize, usize))
    ensures
        r.0 <= r.1 <= s@.len(),
        trim_blank(s@) == s@.subrange(r.0 as int, r.1 as int),
{
    let mut from: usize = 0;
    assert(s@.skip(0) =~= s@);
    while from < s.len() && (s[from] == SPACE || s[from] == 0)
        invariant
            from <= s@.len(),
            trim_start_blank(s@) == trim_start_blank(s@.skip(from as int)),
        decreases s@.len() - from,
    {
        assert(s@.skip(from as int).drop_first() =~= s@.skip(from + 1));
        from = from + 1;
    }
    let mut to: usize = s.len();
    assert(s@.skip(from as int) =~= s@.subrange(from as int, to as int));
    while to > from && (s[to - 1] == SPACE || s[to - 1] == 0)
        invariant
            from <= to <= s@.len(),
            trim_blank(s@) == trim_end_blank(s@.subrange(from as int, to as int)),
        decreases to,
    {
        assert(s@.subrange(from as int, to as int).drop_last() =~= s@.subrange(
            from as int,
            to - 1,
        ));
        to = to - 1;
    }
    (from, to)
}

} // verus!
