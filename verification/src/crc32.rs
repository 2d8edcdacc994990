//! The two CRC32 engines used by the uploader.
//!
//! The SFU variant (MSB-first, polynomial 0x04C11DB7, initial 0xFFFFFFFF, no
//! final XOR) is the one spoken on the wire and over the firmware image.  Its
//! quirk: input is consumed as 32-bit words, the bytes of each word fed in
//! reversed order; trailing bytes beyond the last whole word are ignored.
//!
//! The IEEE 802.3 variant (LSB-first, polynomial 0xEDB88320) works on
//! arbitrary byte lengths and applies the usual complement at entry and exit.

use vstd::prelude::*;

verus! {

// ---------------------------------------------------------------------------
// SFU variant
// ---------------------------------------------------------------------------

/// Register after `k` rounds of the MSB-first table-generation step.
pub open spec fn sfu_entry_round(c: u32, k: nat) -> u32
    decreases k,
{
    if k == 0 {
        c
    } else {
        let c2 = if c & 0x8000_0000u32 != 0 {
            (c << 1) ^ 0x04C1_1DB7u32
        } else {
            c << 1
        };
        sfu_entry_round(c2, (k - 1) as nat)
    }
}

/// Entry `i` of the SFU lookup table.
pub open spec fn sfu_table_entry(i: int) -> u32 {
    sfu_entry_round((i as u32) << 24, 8)
}

/// One byte-wise MSB-first update of the SFU register.
pub open spec fn sfu_update(crc: u32, b: u8) -> u32 {
    (crc << 8) ^ sfu_table_entry((((crc >> 24) as u8) ^ b) as int)
}

/// Register after extending `crc` with `data`, whole words only: each 4-byte
/// chunk is fed byte-reversed, and a trailing partial word is ignored.
pub open spec fn sfu_process(crc: u32, data: Seq<u8>) -> u32
    decreases data.len(),
{
    if data.len() < 4 {
        crc
    } else {
        let c = sfu_update(sfu_update(sfu_update(sfu_update(crc, data[3]), data[2]), data[1]), data[0]);
        sfu_process(c, data.skip(4))
    }
}

/// The SFU CRC32 of `data` (initial register 0xFFFFFFFF, no final XOR).
pub open spec fn spec_crc32_sfu(data: Seq<u8>) -> u32 {
    sfu_process(0xFFFF_FFFFu32, data)
}

proof fn lemma_shr24_fits(c: u32)
    by (bit_vector)
    ensures
        c >> 24 < 256,
{
}

fn make_table_sfu() -> (t: Vec<u32>)
    ensures
        t@.len() == 256,
        forall|i: int| 0 <= i < 256 ==> t@[i] == sfu_table_entry(i),
{
    let mut t: Vec<u32> = Vec::new();
    let mut i: usize = 0;
    while i < 256
        invariant
            i <= 256,
            t@.len() == i,
            forall|j: int| 0 <= j < i ==> t@[j] == sfu_table_entry(j),
        decreases 256 - i,
    {
        let c0: u32 = (i as u32) << 24;
        let mut c: u32 = c0;
        let mut k: usize = 0;
        while k < 8
            invariant
                k <= 8,
                sfu_entry_round(c, (8 - k) as nat) == sfu_entry_round(c0, 8),
            decreases 8 - k,
        {
            if c & 0x8000_0000u32 != 0 {
                c = (c << 1) ^ 0x04C1_1DB7u32;
            } else {
                c = c << 1;
            }
            k = k + 1;
        }
        t.push(c);
        i = i + 1;
    }
    t
}

/// One table-driven update step, equal to the spec-level `sfu_update`.
fn sfu_step(table: &Vec<u32>, crc: u32, b: u8) -> (r: u32)
    requires
        table@.len() == 256,
        forall|i: int| 0 <= i < 256 ==> table@[i] == sfu_table_entry(i),
    ensures
        r == sfu_update(crc, b),
{
    proof {
        lemma_shr24_fits(crc);
    }
    let idx: u8 = ((crc >> 24) as u8) ^ b;
    (crc << 8) ^ table[idx as usize]
}

fn crc32_sfu_impl(initial: u32, data: &[u8]) -> (r: u32)
    ensures
        r == sfu_process(initial, data@),
{
    let table = make_table_sfu();
    let len: usize = data.len();
    let mut crc: u32 = initial;
    let mut i: usize = 0;
    proof {
        assert(data@.skip(0) =~= data@);
    }
    while len >= 4 && i < len - 3
        invariant
            i <= len,
            len == data@.len(),
            table@.len() == 256,
            forall|j: int| 0 <= j < 256 ==> table@[j] == sfu_table_entry(j),
            sfu_process(crc, data@.skip(i as int)) == sfu_process(initial, data@),
        decreases len - i,
    {
        let b0: u8 = data[i];
        let b1: u8 = data[i + 1];
        let b2: u8 = data[i + 2];
        let b3: u8 = data[i + 3];
        let c = sfu_step(&table, sfu_step(&table, sfu_step(&table, sfu_step(&table, crc, b3), b2), b1), b0);
        proof {
            let s = data@.skip(i as int);
            assert(s.len() >= 4);
            assert(s[0] == data@[i as int]);
            assert(s[1] == data@[i as int + 1]);
            assert(s[2] == data@[i as int + 2]);
            assert(s[3] == data@[i as int + 3]);
            assert(s.skip(4) =~= data@.skip(i as int + 4));
        }
        crc = c;
        i = i + 4;
    }
    proof {
        assert(data@.skip(i as int).len() < 4);
    }
    crc
}

/// Extends an existing SFU register value with `data`; no final XOR.
/// Bytes beyond the last whole 4-byte word are ignored, so callers should
/// pass lengths that are multiples of 4.
pub fn crc32_sfu_raw(previous_crc: u32, data: &[u8]) -> (r: u32)
    ensures
        r == sfu_process(previous_crc, data@),
{
    crc32_sfu_impl(previous_crc, data)
}

/// The SFU CRC32 of `data`: initial value 0xFFFFFFFF, no final XOR.
pub fn crc32_sfu(data: &[u8]) -> (r: u32)
    ensures
        r == spec_crc32_sfu(data@),
{
    crc32_sfu_raw(0xFFFF_FFFF, data)
}

/// Checks the SFU engine against its two known vectors
/// ("12345678" -> 0xFEFC54F9, "TESTABCD" -> 0xB9CF5238).
pub fn crc32_sfu_selftest() -> (ok: bool)
    ensures
        ok == (spec_crc32_sfu(seq![0x31u8, 0x32u8, 0x33u8, 0x34u8, 0x35u8, 0x36u8, 0x37u8, 0x38u8])
            == 0xFEFC_54F9u32 && spec_crc32_sfu(
            seq![0x54u8, 0x45u8, 0x53u8, 0x54u8, 0x41u8, 0x42u8, 0x43u8, 0x44u8],
        ) == 0xB9CF_5238u32),
{
    let mut v1: Vec<u8> = Vec::new();
    v1.push(0x31);
    v1.push(0x32);
    v1.push(0x33);
    v1.push(0x34);
    v1.push(0x35);
    v1.push(0x36);
    v1.push(0x37);
    v1.push(0x38);
    let mut v2: Vec<u8> = Vec::new();
    v2.push(0x54);
    v2.push(0x45);
    v2.push(0x53);
    v2.push(0x54);
    v2.push(0x41);
    v2.push(0x42);
    v2.push(0x43);
    v2.push(0x44);
    let a = crc32_sfu(v1.as_slice());
    let b = crc32_sfu(v2.as_slice());
    proof {
        assert(v1@ =~= seq![0x31u8, 0x32u8, 0x33u8, 0x34u8, 0x35u8, 0x36u8, 0x37u8, 0x38u8]);
        assert(v2@ =~= seq![0x54u8, 0x45u8, 0x53u8, 0x54u8, 0x41u8, 0x42u8, 0x43u8, 0x44u8]);
    }
    a == 0xFEFC_54F9 && b == 0xB9CF_5238
}

/// Composing `sfu_process` over a concatenation splits at any whole-word
/// boundary of the head.
pub proof fn lemma_sfu_process_concat(crc: u32, a: Seq<u8>, b: Seq<u8>)
    requires
        a.len() % 4 == 0,
    ensures
        sfu_process(crc, a + b) == sfu_process(sfu_process(crc, a), b),
    decreases a.len(),
{
    if a.len() == 0 {
        assert(a + b =~= b);
    } else {
        assert(a.len() >= 4);
        let ab = a + b;
        assert(ab[0] == a[0]);
        assert(ab[1] == a[1]);
        assert(ab[2] == a[2]);
        assert(ab[3] == a[3]);
        assert(ab.skip(4) =~= a.skip(4) + b);
        let c = sfu_update(sfu_update(sfu_update(sfu_update(crc, a[3]), a[2]), a[1]), a[0]);
        assert(a.skip(4).len() % 4 == 0);
        lemma_sfu_process_concat(c, a.skip(4), b);
    }
}

/// SFU CRC incrementality: when the head and tail are each whole words,
/// the one-shot CRC of the concatenation equals extending the head's CRC
/// with the tail.
pub proof fn lemma_crc32_sfu_incremental(h: Seq<u8>, t: Seq<u8>)
    requires
        h.len() % 4 == 0,
        t.len() % 4 == 0,
    ensures
        spec_crc32_sfu(h + t) == sfu_process(spec_crc32_sfu(h), t),
{
    lemma_sfu_process_concat(0xFFFF_FFFFu32, h, t);
}

// ---------------------------------------------------------------------------
// IEEE 802.3 variant
// ---------------------------------------------------------------------------

/// Register after `k` rounds of the LSB-first table-generation step.
pub open spec fn ieee_entry_round(c: u32, k: nat) -> u32
    decreases k,
{
    if k == 0 {
        c
    } else {
        let c2 = if c & 1u32 != 0 {
            0xEDB8_8320u32 ^ (c >> 1)
        } else {
            c >> 1
        };
        ieee_entry_round(c2, (k - 1) as nat)
    }
}

/// Entry `i` of the IEEE lookup table.
pub open spec fn ieee_table_entry(i: int) -> u32 {
    ieee_entry_round(i as u32, 8)
}

/// One byte-wise LSB-first update of the IEEE register.
pub open spec fn ieee_update(crc: u32, b: u8) -> u32 {
    ieee_table_entry(((crc ^ (b as u32)) & 0xFF) as int) ^ (crc >> 8)
}

/// Register after folding every byte of `data` into `crc`.
pub open spec fn ieee_fold(crc: u32, data: Seq<u8>) -> u32
    decreases data.len(),
{
    if data.len() == 0 {
        crc
    } else {
        ieee_fold(ieee_update(crc, data[0]), data.skip(1))
    }
}

/// The finalized IEEE CRC of `data` extending the finalized value `previous`:
/// complement at entry, fold, complement at exit.
pub open spec fn spec_crc32_ieee(previous: u32, data: Seq<u8>) -> u32 {
    !ieee_fold(!previous, data)
}

proof fn lemma_and_ff_fits(c: u32)
    by (bit_vector)
    ensures
        c & 0xFF < 256,
{
}

proof fn lemma_double_not(c: u32)
    by (bit_vector)
    ensures
        !!c == c,
{
}

fn make_table_ieee() -> (t: Vec<u32>)
    ensures
        t@.len() == 256,
        forall|i: int| 0 <= i < 256 ==> t@[i] == ieee_table_entry(i),
{
    let mut t: Vec<u32> = Vec::new();
    let mut i: usize = 0;
    while i < 256
        invariant
            i <= 256,
            t@.len() == i,
            forall|j: int| 0 <= j < i ==> t@[j] == ieee_table_entry(j),
        decreases 256 - i,
    {
        let c0: u32 = i as u32;
        let mut c: u32 = c0;
        let mut k: usize = 0;
        while k < 8
            invariant
                k <= 8,
                ieee_entry_round(c, (8 - k) as nat) == ieee_entry_round(c0, 8),
            decreases 8 - k,
        {
            if c & 1u32 != 0 {
                c = 0xEDB8_8320u32 ^ (c >> 1);
            } else {
                c = c >> 1;
            }
            k = k + 1;
        }
        t.push(c);
        i = i + 1;
    }
    t
}

fn crc32_ieee_impl(initial: u32, data: &[u8]) -> (r: u32)
    ensures
        r == spec_crc32_ieee(initial, data@),
{
    let table = make_table_ieee();
    let len: usize = data.len();
    let mut crc: u32 = !initial;
    let mut i: usize = 0;
    proof {
        assert(data@.skip(0) =~= data@);
    }
    while i < len
        invariant
            i <= len,
            len == data@.len(),
            table@.len() == 256,
            forall|j: int| 0 <= j < 256 ==> table@[j] == ieee_table_entry(j),
            ieee_fold(crc, data@.skip(i as int)) == ieee_fold(!initial, data@),
        decreases len - i,
    {
        let b: u8 = data[i];
        proof {
            lemma_and_ff_fits(crc ^ (b as u32));
            let s = data@.skip(i as int);
            assert(s[0] == data@[i as int]);
            assert(s.skip(1) =~= data@.skip(i as int + 1));
        }
        let idx: usize = ((crc ^ (b as u32)) & 0xFF) as usize;
        crc = table[idx] ^ (crc >> 8);
        i = i + 1;
    }
    proof {
        assert(data@.skip(len as int) =~= Seq::<u8>::empty());
    }
    !crc
}

/// Extends the finalized IEEE CRC `previous_crc` with `data`; works on any
/// byte length.
pub fn crc32_ieee8023_raw(previous_crc: u32, data: &[u8]) -> (r: u32)
    ensures
        r == spec_crc32_ieee(previous_crc, data@),
{
    crc32_ieee_impl(previous_crc, data)
}

/// The finalized IEEE 802.3 CRC32 of `data` (initial 0, final complement).
pub fn crc32_ieee8023(data: &[u8]) -> (r: u32)
    ensures
        r == spec_crc32_ieee(0, data@),
{
    crc32_ieee_impl(0, data)
}

/// Checks the IEEE engine against its two known vectors
/// ("12345678" -> 0x9AE0DAAF, "TESTABCD" -> 0x1FA79460).
pub fn crc32_ieee_selftest() -> (ok: bool)
    ensures
        ok == (spec_crc32_ieee(0, seq![0x31u8, 0x32u8, 0x33u8, 0x34u8, 0x35u8, 0x36u8, 0x37u8, 0x38u8])
            == 0x9AE0_DAAFu32 && spec_crc32_ieee(
            0,
            seq![0x54u8, 0x45u8, 0x53u8, 0x54u8, 0x41u8, 0x42u8, 0x43u8, 0x44u8],
        ) == 0x1FA7_9460u32),
{
    let mut v1: Vec<u8> = Vec::new();
    v1.push(0x31);
    v1.push(0x32);
    v1.push(0x33);
    v1.push(0x34);
    v1.push(0x35);
    v1.push(0x36);
    v1.push(0x37);
    v1.push(0x38);
    let mut v2: Vec<u8> = Vec::new();
    v2.push(0x54);
    v2.push(0x45);
    v2.push(0x53);
    v2.push(0x54);
    v2.push(0x41);
    v2.push(0x42);
    v2.push(0x43);
    v2.push(0x44);
    let a = crc32_ieee8023(v1.as_slice());
    let b = crc32_ieee8023(v2.as_slice());
    proof {
        assert(v1@ =~= seq![0x31u8, 0x32u8, 0x33u8, 0x34u8, 0x35u8, 0x36u8, 0x37u8, 0x38u8]);
        assert(v2@ =~= seq![0x54u8, 0x45u8, 0x53u8, 0x54u8, 0x41u8, 0x42u8, 0x43u8, 0x44u8]);
    }
    a == 0x9AE0_DAAF && b == 0x1FA7_9460
}

/// Folding over a concatenation splits at any boundary.
pub proof fn lemma_ieee_fold_concat(crc: u32, a: Seq<u8>, b: Seq<u8>)
    ensures
        ieee_fold(crc, a + b) == ieee_fold(ieee_fold(crc, a), b),
    decreases a.len(),
{
    if a.len() == 0 {
        assert(a + b =~= b);
    } else {
        let ab = a + b;
        assert(ab[0] == a[0]);
        assert(ab.skip(1) =~= a.skip(1) + b);
        lemma_ieee_fold_concat(ieee_update(crc, a[0]), a.skip(1), b);
    }
}

/// IEEE CRC incrementality: for any split of a byte string, the one-shot CRC
/// equals extending the head's finalized CRC with the tail.
pub proof fn lemma_crc32_ieee_incremental(previous: u32, h: Seq<u8>, t: Seq<u8>)
    ensures
        spec_crc32_ieee(previous, h + t) == spec_crc32_ieee(spec_crc32_ieee(previous, h), t),
{
    lemma_ieee_fold_concat(!previous, h, t);
    lemma_double_not(ieee_fold(!previous, h));
}

} // verus!
