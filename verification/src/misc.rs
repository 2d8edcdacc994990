//! Little-endian field codecs and small text helpers shared by the frame
//! codec, the payload codecs and the controller.

use vstd::prelude::*;

verus! {

/// The u16 stored little-endian at `off` in `b`.
pub open spec fn u16_le_at(b: Seq<u8>, off: int) -> u16
    recommends
        0 <= off,
        off + 2 <= b.len(),
{
    ((b[off] as u16) + (b[off + 1] as u16) * 0x100) as u16
}

/// The u32 stored little-endian at `off` in `b`.
pub open spec fn u32_le_at(b: Seq<u8>, off: int) -> u32
    recommends
        0 <= off,
        off + 4 <= b.len(),
{
    ((b[off] as u32) + (b[off + 1] as u32) * 0x100 + (b[off + 2] as u32) * 0x1_0000 + (b[off
        + 3] as u32) * 0x100_0000) as u32
}

/// The two little-endian bytes of `x`.
pub open spec fn u16_le_bytes(x: u16) -> Seq<u8> {
    seq![(x % 0x100) as u8, (x / 0x100) as u8]
}

/// The four little-endian bytes of `x`.
pub open spec fn u32_le_bytes(x: u32) -> Seq<u8> {
    seq![
        (x % 0x100) as u8,
        ((x / 0x100) % 0x100) as u8,
        ((x / 0x1_0000) % 0x100) as u8,
        (x / 0x100_0000) as u8,
    ]
}

/// Reading back the four serialized bytes gives the original value.
pub proof fn lemma_u32_le_roundtrip(x: u32)
    ensures
        u32_le_at(u32_le_bytes(x), 0) == x,
{
    assert((x % 0x100) + ((x / 0x100) % 0x100) * 0x100 + ((x / 0x1_0000) % 0x100) * 0x1_0000 + (x
        / 0x100_0000) * 0x100_0000 == x) by (bit_vector);
}

/// Reads the u16 stored little-endian at `offset`.
pub fn deserialize_u16_le(buf: &[u8], offset: usize) -> (r: u16)
    requires
        offset + 2 <= buf@.len(),
    ensures
        r == u16_le_at(buf@, offset as int),
{
    (buf[offset] as u16) + (buf[offset + 1] as u16) * 0x100
}

/// Reads the u32 stored little-endian at `offset`.
pub fn deserialize_u32_le(buf: &[u8], offset: usize) -> (r: u32)
    requires
        offset + 4 <= buf@.len(),
    ensures
        r == u32_le_at(buf@, offset as int),
{
    (buf[offset] as u32) + (buf[offset + 1] as u32) * 0x100 + (buf[offset + 2] as u32) * 0x1_0000
        + (buf[offset + 3] as u32) * 0x100_0000
}

/// Copies the `n` bytes starting at `offset` out of `buf`.
pub fn deserialize_bytes(buf: &[u8], offset: usize, n: usize) -> (r: Vec<u8>)
    requires
        offset + n <= buf@.len(),
    ensures
        r@ == buf@.subrange(offset as int, offset as int + n as int),
{
    let blen: usize = buf.len();
    let mut r: Vec<u8> = Vec::new();
    let mut i: usize = 0;
    while i < n
        invariant
            i <= n,
            offset + n <= blen,
            blen == buf@.len(),
            r@ == buf@.subrange(offset as int, offset as int + i as int),
        decreases n - i,
    {
        r.push(buf[offset + i]);
        proof {
            assert(r@ =~= buf@.subrange(offset as int, offset as int + i as int + 1));
        }
        i = i + 1;
    }
    r
}

/// Writes the four little-endian bytes of `x`.
pub fn serialize_u32_le(x: u32) -> (r: Vec<u8>)
    ensures
        r@ == u32_le_bytes(x),
{
    let mut r: Vec<u8> = Vec::new();
    r.push((x % 0x100) as u8);
    r.push(((x / 0x100) % 0x100) as u8);
    r.push(((x / 0x1_0000) % 0x100) as u8);
    r.push((x / 0x100_0000) as u8);
    proof {
        assert(r@ =~= u32_le_bytes(x));
    }
    r
}

/// The bytes of `b` read as (ASCII) characters.
pub open spec fn chars_of(b: Seq<u8>) -> Seq<char> {
    Seq::new(b.len(), |i: int| b[i] as char)
}

/// Relies on String::from_utf8: a vector of ASCII bytes is valid UTF-8 and
/// decodes to exactly those characters, one per byte.
#[verifier::external_body]
pub(crate) fn ascii_to_string(bytes: Vec<u8>) -> (r: String)
    requires
        forall|i: int| 0 <= i < bytes@.len() ==> bytes@[i] < 0x80,
    ensures
        r@ == chars_of(bytes@),
{
    match String::from_utf8(bytes) {
        Ok(s) => s,
        Err(_) => String::new(),
    }
}

/// The lower-case hex digit for a nibble.
pub open spec fn hex_lower(d: u8) -> u8
    recommends
        d < 16,
{
    if d < 10 {
        (0x30 + d) as u8
    } else {
        (0x57 + d) as u8
    }
}

/// How one byte is displayed: printable ASCII as itself, anything else as a
/// `<hh>` lower-case hex escape.
pub open spec fn display_byte(c: u8) -> Seq<u8> {
    if c < 32 || c > 127 {
        seq![0x3Cu8, hex_lower(c / 16), hex_lower(c % 16), 0x3Eu8]
    } else {
        seq![c]
    }
}

/// The display form of a whole byte string.
pub open spec fn display_bytes(b: Seq<u8>) -> Seq<u8>
    decreases b.len(),
{
    if b.len() == 0 {
        Seq::empty()
    } else {
        display_byte(b[0]) + display_bytes(b.skip(1))
    }
}

proof fn lemma_display_bytes_push(b: Seq<u8>, c: u8)
    ensures
        display_bytes(b.push(c)) == display_bytes(b) + display_byte(c),
    decreases b.len(),
{
    if b.len() == 0 {
        assert(b.push(c)[0] == c);
        assert(b.push(c).skip(1) =~= Seq::<u8>::empty());
        assert(display_bytes(Seq::<u8>::empty()) =~= Seq::<u8>::empty());
        assert(display_bytes(b.push(c)) =~= display_byte(c) + Seq::<u8>::empty());
        assert(display_byte(c) + Seq::<u8>::empty() =~= display_byte(c));
        assert(display_bytes(b) + display_byte(c) =~= display_byte(c));
    } else {
        assert(b.push(c)[0] == b[0]);
        assert(b.push(c).skip(1) =~= b.skip(1).push(c));
        lemma_display_bytes_push(b.skip(1), c);
        assert(display_bytes(b.push(c)) =~= display_bytes(b) + display_byte(c));
    }
}

proof fn lemma_display_byte_ascii(c: u8)
    ensures
        forall|i: int| 0 <= i < display_byte(c).len() ==> display_byte(c)[i] < 0x80,
{
    if c < 32 || c > 127 {
        assert(display_byte(c)[0] == 0x3C);
        assert(display_byte(c)[1] == hex_lower(c / 16));
        assert(display_byte(c)[2] == hex_lower(c % 16));
        assert(display_byte(c)[3] == 0x3E);
    } else {
        assert(display_byte(c)[0] == c);
    }
}

proof fn lemma_display_bytes_ascii(b: Seq<u8>)
    ensures
        forall|i: int| 0 <= i < display_bytes(b).len() ==> display_bytes(b)[i] < 0x80,
    decreases b.len(),
{
    if b.len() != 0 {
        lemma_display_byte_ascii(b[0]);
        lemma_display_bytes_ascii(b.skip(1));
        let d = display_byte(b[0]);
        let rest = display_bytes(b.skip(1));
        assert forall|i: int| 0 <= i < display_bytes(b).len() implies display_bytes(b)[i]
            < 0x80 by {
            if i < d.len() {
                assert(display_bytes(b)[i] == d[i]);
            } else {
                assert(display_bytes(b)[i] == rest[i - d.len()]);
            }
        }
    }
}

fn push_display_byte(out: &mut Vec<u8>, c: u8)
    ensures
        final(out)@ == old(out)@ + display_byte(c),
{
    if c < 32 || c > 127 {
        out.push(0x3C);
        let hi: u8 = c / 16;
        let lo: u8 = c % 16;
        out.push(if hi < 10 { 0x30 + hi } else { 0x57 + hi });
        out.push(if lo < 10 { 0x30 + lo } else { 0x57 + lo });
        out.push(0x3E);
        proof {
            assert(out@ =~= old(out)@ + display_byte(c));
        }
    } else {
        out.push(c);
        proof {
            assert(out@ =~= old(out)@ + display_byte(c));
        }
    }
}

/// Renders a byte string as text: printable ASCII stands for itself, every
/// other byte becomes a `<hh>` hex escape.
pub fn tostr(vec: &[u8]) -> (r: String)
    ensures
        r@ == chars_of(display_bytes(vec@)),
{
    let mut out: Vec<u8> = Vec::new();
    let len: usize = vec.len();
    let mut i: usize = 0;
    proof {
        assert(vec@.take(0) =~= Seq::<u8>::empty());
    }
    while i < len
        invariant
            i <= len,
            len == vec@.len(),
            out@ == display_bytes(vec@.take(i as int)),
        decreases len - i,
    {
        let c: u8 = vec[i];
        proof {
            assert(vec@.take(i as int + 1) =~= vec@.take(i as int).push(vec@[i as int]));
            lemma_display_bytes_push(vec@.take(i as int), vec@[i as int]);
        }
        push_display_byte(&mut out, c);
        i = i + 1;
    }
    proof {
        assert(vec@.take(len as int) =~= vec@);
        lemma_display_bytes_ascii(vec@);
    }
    ascii_to_string(out)
}

/// Returns `input` with one trailing `"\r\n"` or `"\n"` removed, if present.
pub fn strip_trailing_newline(input: &str) -> (r: &str)
    ensures
        r@ == if input@.len() >= 2 && input@[input@.len() - 2] == '\r' && input@[input@.len() - 1]
            == '\n' {
            input@.take(input@.len() - 2)
        } else if input@.len() >= 1 && input@[input@.len() - 1] == '\n' {
            input@.take(input@.len() - 1)
        } else {
            input@
        },
{
    let n: usize = input.unicode_len();
    if n >= 2 && input.get_char(n - 2) == '\r' && input.get_char(n - 1) == '\n' {
        let r = input.substring_char(0, n - 2);
        proof {
            assert(r@ =~= input@.take(input@.len() - 2));
        }
        r
    } else if n >= 1 && input.get_char(n - 1) == '\n' {
        let r = input.substring_char(0, n - 1);
        proof {
            assert(r@ =~= input@.take(input@.len() - 1));
        }
        r
    } else {
        input
    }
}

} // verus!
