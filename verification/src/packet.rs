//! The framed wire codec and the byte-at-a-time stream parser.
//!
//! A frame is `[4-byte signature][code][code^0xFF][len lo][len hi][body][4-byte
//! CRC, little-endian]`; the CRC is the SFU CRC32 over everything from `code`
//! to the end of the body.  The parser consumes a stream in which such frames
//! (device-to-host signature) are interleaved with free-form log text, feeds
//! complete valid bodies into a per-code FIFO inbox, turns everything else
//! into log lines, and counts what it saw.

use std::collections::VecDeque;

use vstd::prelude::*;
use crate::crc32::spec_crc32_sfu;
use crate::crc32::crc32_sfu;
use crate::misc::{u16_le_bytes, u32_le_bytes, u32_le_at, lemma_u32_le_roundtrip, chars_of, ascii_to_string};

verus! {

/// Host-to-device frame signature, transmitted big-endian.
pub const PACKET_SIGN_TX: u32 = 0x817E_A345;

/// Device-to-host frame signature, transmitted big-endian.
pub const PACKET_SIGN_RX: u32 = 0x45A3_7E81;

/// Largest whole frame the protocol allows, header and CRC included.
pub const MAX_PACKET_SIZE: usize = 4096;

/// The four signature bytes that open a host-to-device frame.
pub open spec fn sig_tx_bytes() -> Seq<u8> {
    seq![0x81u8, 0x7Eu8, 0xA3u8, 0x45u8]
}

/// The four signature bytes that open a device-to-host frame.
pub open spec fn sig_rx_bytes() -> Seq<u8> {
    seq![0x45u8, 0xA3u8, 0x7Eu8, 0x81u8]
}

/// The region a frame's CRC covers: code, inverted code, the little-endian
/// body length, and the body itself.
pub open spec fn frame_crc_region(code: u8, body: Seq<u8>) -> Seq<u8> {
    seq![code, code ^ 0xFF] + u16_le_bytes(body.len() as u16) + body
}

/// A whole frame under the given signature.
pub open spec fn frame_bytes_with_sig(sig: Seq<u8>, code: u8, body: Seq<u8>) -> Seq<u8> {
    sig + frame_crc_region(code, body) + u32_le_bytes(spec_crc32_sfu(frame_crc_region(code, body)))
}

/// A host-to-device frame.
pub open spec fn tx_frame_bytes(code: u8, body: Seq<u8>) -> Seq<u8> {
    frame_bytes_with_sig(sig_tx_bytes(), code, body)
}

/// A device-to-host frame.
pub open spec fn rx_frame_bytes(code: u8, body: Seq<u8>) -> Seq<u8> {
    frame_bytes_with_sig(sig_rx_bytes(), code, body)
}

fn build_frame_with_sig(s0: u8, s1: u8, s2: u8, s3: u8, code: u8, body: &[u8]) -> (r: Vec<u8>)
    requires
        body@.len() + 12 <= MAX_PACKET_SIZE,
    ensures
        r@ == frame_bytes_with_sig(seq![s0, s1, s2, s3], code, body@),
{
    let size: usize = body.len();
    let mut region: Vec<u8> = Vec::new();
    region.push(code);
    region.push(code ^ 0xFF);
    region.push((size % 0x100) as u8);
    region.push(((size / 0x100) % 0x100) as u8);
    let mut i: usize = 0;
    proof {
        assert(region@ =~= seq![code, code ^ 0xFF] + u16_le_bytes(size as u16) + body@.take(0));
    }
    while i < size
        invariant
            i <= size,
            size == body@.len(),
            region@ == seq![code, code ^ 0xFF] + u16_le_bytes(size as u16) + body@.take(i as int),
        decreases size - i,
    {
        region.push(body[i]);
        proof {
            assert(region@ =~= seq![code, code ^ 0xFF] + u16_le_bytes(size as u16) + body@.take(
                i as int + 1,
            ));
        }
        i = i + 1;
    }
    proof {
        assert(body@.take(size as int) =~= body@);
        assert(region@ == frame_crc_region(code, body@));
    }
    let crc: u32 = crc32_sfu(region.as_slice());
    let mut buf: Vec<u8> = Vec::new();
    buf.push(s0);
    buf.push(s1);
    buf.push(s2);
    buf.push(s3);
    let mut j: usize = 0;
    let rlen: usize = region.len();
    while j < rlen
        invariant
            j <= rlen,
            rlen == region@.len(),
            buf@ == seq![s0, s1, s2, s3] + region@.take(j as int),
        decreases rlen - j,
    {
        buf.push(region[j]);
        proof {
            assert(buf@ =~= seq![s0, s1, s2, s3] + region@.take(j as int + 1));
        }
        j = j + 1;
    }
    buf.push((crc % 0x100) as u8);
    buf.push(((crc / 0x100) % 0x100) as u8);
    buf.push(((crc / 0x1_0000) % 0x100) as u8);
    buf.push((crc / 0x100_0000) as u8);
    proof {
        assert(region@.take(rlen as int) =~= region@);
        assert(buf@ =~= seq![s0, s1, s2, s3] + region@ + u32_le_bytes(crc));
        assert(buf@ =~= frame_bytes_with_sig(seq![s0, s1, s2, s3], code, body@));
    }
    buf
}

/// Builds a host-to-device frame around `body`.  The caller keeps the whole
/// frame within the size cap; the wire additionally expects the total length
/// to be a multiple of 4, which every command this crate emits satisfies.
pub fn packet_build(code: u8, body: &[u8]) -> (r: Vec<u8>)
    requires
        body@.len() + 12 <= MAX_PACKET_SIZE,
    ensures
        r@ == tx_frame_bytes(code, body@),
{
    build_frame_with_sig(0x81, 0x7E, 0xA3, 0x45, code, body)
}

/// Builds a device-to-host frame around `body`: what a device would put on
/// the wire, and what `PacketParser` consumes.
pub fn packet_build_rx(code: u8, body: &[u8]) -> (r: Vec<u8>)
    requires
        body@.len() + 12 <= MAX_PACKET_SIZE,
    ensures
        r@ == rx_frame_bytes(code, body@),
{
    build_frame_with_sig(0x45, 0xA3, 0x7E, 0x81, code, body)
}

/// Saturating 64-bit addition, used for counters and absolute deadlines.
pub open spec fn sat_add64(a: u64, b: u64) -> u64 {
    if a + b > u64::MAX {
        u64::MAX
    } else {
        (a + b) as u64
    }
}

/// Where the parser stands inside the byte stream.
#[derive(Clone, Copy)]
pub enum ParseState {
    /// Not inside a frame: bytes are either the first signature byte or log
    /// text.
    Idle,
    /// `matched` signature bytes seen so far (1..=3).
    WaitSignature { matched: u8 },
    /// Expecting the command code.
    HeaderCode,
    /// Expecting the inverted command code.
    HeaderCodeInv,
    /// Expecting the low byte of the body length.
    HeaderLenLo,
    /// Expecting the high byte of the body length.
    HeaderLenHi,
    /// Collecting body bytes.
    Body,
    /// Collecting the four CRC bytes.
    Crc,
    /// Discarding the remains of a broken frame.
    Skip { remaining: usize },
}

/// Mathematical image of the parser.
#[verifier::ext_equal]
pub struct ParserModel {
    /// Completed log lines, oldest first.
    pub logs: Seq<Seq<char>>,
    /// Per-code FIFOs of received frame bodies, indexed by command code.
    pub inbox: Seq<Seq<Seq<u8>>>,
    pub valid: u64,
    pub crc_err: u64,
    pub size_err: u64,
    pub other_err: u64,
    pub incomplete: u64,
    pub log_bytes: u64,
    pub log_lines: u64,
    /// The in-progress log line.
    pub line: Seq<char>,
    pub state: ParseState,
    pub code: u8,
    pub expected: usize,
    pub body: Seq<u8>,
    pub crc_buf: Seq<u8>,
    pub remaining: usize,
    /// Absolute deadline after which a non-empty line is flushed by `tick`.
    pub deadline: u64,
}

/// The upper-case hex digit for a nibble.
pub open spec fn hex_upper(d: u8) -> u8
    recommends
        d < 16,
{
    if d < 10 {
        (0x30 + d) as u8
    } else {
        (0x37 + d) as u8
    }
}

/// The `<HH>` escape a non-printable log byte turns into.
pub open spec fn escape_byte(c: u8) -> Seq<u8> {
    seq![0x3Cu8, hex_upper(c / 16), hex_upper(c % 16), 0x3Eu8]
}

/// How many spaces a tab appends: at least one, up to the next position
/// whose length is 7 modulo 8.
pub open spec fn tab_fill(len: nat) -> nat {
    (((6 - len % 8) % 8) + 1) as nat
}

/// One byte classified as log text.
pub open spec fn spec_log_byte(m: ParserModel, b: u8, now: u64) -> ParserModel {
    let m1 = ParserModel {
        log_bytes: sat_add64(m.log_bytes, 1),
        deadline: sat_add64(now, 250),
        ..m
    };
    if b == 0x0A {
        ParserModel {
            logs: m1.logs.push(m1.line),
            log_lines: sat_add64(m1.log_lines, 1),
            line: Seq::empty(),
            ..m1
        }
    } else if 32 <= b && b <= 126 {
        let line2 = m1.line.push(b as char);
        if line2.len() >= 256 {
            ParserModel {
                logs: m1.logs.push(line2),
                log_lines: sat_add64(m1.log_lines, 1),
                line: Seq::empty(),
                ..m1
            }
        } else {
            ParserModel { line: line2, ..m1 }
        }
    } else if b == 0x0D {
        m1
    } else if b == 0x09 {
        ParserModel { line: m1.line + Seq::new(tab_fill(m1.line.len()), |i: int| ' '), ..m1 }
    } else {
        ParserModel { line: m1.line + chars_of(escape_byte(b)), ..m1 }
    }
}

/// A run of bytes classified as log text, in order.
pub open spec fn spec_log_seq(m: ParserModel, s: Seq<u8>, now: u64) -> ParserModel
    decreases s.len(),
{
    if s.len() == 0 {
        m
    } else {
        spec_log_seq(spec_log_byte(m, s[0], now), s.skip(1), now)
    }
}

/// The parser fields reset when a frame ends or is abandoned.
pub open spec fn spec_abort(m: ParserModel) -> ParserModel {
    ParserModel {
        state: ParseState::Idle,
        expected: 0,
        body: Seq::empty(),
        crc_buf: Seq::empty(),
        remaining: 0,
        incomplete: 0,
        ..m
    }
}

/// Frame completion: recompute the CRC over what was collected and either
/// file the body in the inbox or count the error; idle again either way.
pub open spec fn spec_finish(m: ParserModel) -> ParserModel {
    if m.body.len() != m.expected {
        spec_abort(ParserModel { other_err: sat_add64(m.other_err, 1), ..m })
    } else {
        let region = seq![
            m.code,
            m.code ^ 0xFF,
            (m.expected % 0x100) as u8,
            ((m.expected / 0x100) % 0x100) as u8,
        ] + m.body;
        let crc_calc = spec_crc32_sfu(region);
        let crc_recv = u32_le_at(m.crc_buf, 0);
        if crc_calc == crc_recv {
            let m1 = if (m.code as int) < m.inbox.len() {
                ParserModel {
                    inbox: m.inbox.update(m.code as int, m.inbox[m.code as int].push(m.body)),
                    ..m
                }
            } else {
                ParserModel { other_err: sat_add64(m.other_err, 1), ..m }
            };
            spec_abort(ParserModel { valid: sat_add64(m1.valid, 1), ..m1 })
        } else {
            spec_abort(ParserModel { crc_err: sat_add64(m.crc_err, 1), ..m })
        }
    }
}

/// One byte of stream input.
pub open spec fn spec_step(m: ParserModel, x: u8, now: u64) -> ParserModel {
    match m.state {
        ParseState::Idle => {
            if x == sig_rx_bytes()[0] {
                ParserModel { state: ParseState::WaitSignature { matched: 1 }, ..m }
            } else {
                spec_log_byte(m, x, now)
            }
        },
        ParseState::WaitSignature { matched } => {
            if matched < 4 && x == sig_rx_bytes()[matched as int] {
                if matched + 1 == 4 {
                    ParserModel {
                        state: ParseState::HeaderCode,
                        code: 0,
                        expected: 0,
                        body: Seq::empty(),
                        crc_buf: Seq::empty(),
                        remaining: 0,
                        incomplete: 0,
                        ..m
                    }
                } else {
                    ParserModel {
                        state: ParseState::WaitSignature { matched: (matched + 1) as u8 },
                        ..m
                    }
                }
            } else {
                let m1 = spec_log_seq(m, sig_rx_bytes().take(matched as int), now);
                if x == sig_rx_bytes()[0] {
                    ParserModel { state: ParseState::WaitSignature { matched: 1 }, ..m1 }
                } else {
                    spec_log_byte(ParserModel { state: ParseState::Idle, ..m1 }, x, now)
                }
            }
        },
        ParseState::HeaderCode => {
            ParserModel { code: x, state: ParseState::HeaderCodeInv, ..m }
        },
        ParseState::HeaderCodeInv => {
            if x != m.code ^ 0xFF {
                ParserModel {
                    size_err: sat_add64(m.size_err, 1),
                    expected: 0,
                    body: Seq::empty(),
                    crc_buf: Seq::empty(),
                    state: ParseState::Skip { remaining: 2 },
                    ..m
                }
            } else {
                ParserModel { state: ParseState::HeaderLenLo, ..m }
            }
        },
        ParseState::HeaderLenLo => {
            ParserModel { expected: x as usize, state: ParseState::HeaderLenHi, ..m }
        },
        ParseState::HeaderLenHi => {
            let size = m.expected | ((x as usize) << 8);
            let total = 12 + size;
            if total > MAX_PACKET_SIZE || total % 4 != 0 {
                ParserModel {
                    expected: size,
                    size_err: sat_add64(m.size_err, 1),
                    state: ParseState::Skip { remaining: (size + 4) as usize },
                    incomplete: 0,
                    remaining: 0,
                    ..m
                }
            } else {
                ParserModel {
                    expected: size,
                    body: Seq::empty(),
                    crc_buf: Seq::empty(),
                    remaining: (size + 4) as usize,
                    incomplete: (size + 4) as u64,
                    state: if size > 0 {
                        ParseState::Body
                    } else {
                        ParseState::Crc
                    },
                    ..m
                }
            }
        },
        ParseState::Body => {
            let m1 = if m.body.len() < m.expected {
                let rem2 = if m.remaining > 0 {
                    (m.remaining - 1) as usize
                } else {
                    0usize
                };
                ParserModel {
                    body: m.body.push(x),
                    remaining: rem2,
                    incomplete: if m.remaining > 0 {
                        rem2 as u64
                    } else {
                        m.incomplete
                    },
                    ..m
                }
            } else {
                m
            };
            if m1.body.len() == m1.expected {
                ParserModel { crc_buf: Seq::empty(), state: ParseState::Crc, ..m1 }
            } else {
                m1
            }
        },
        ParseState::Crc => {
            let m1 = if m.crc_buf.len() < 4 {
                let rem2 = if m.remaining > 0 {
                    (m.remaining - 1) as usize
                } else {
                    0usize
                };
                ParserModel {
                    crc_buf: m.crc_buf.push(x),
                    remaining: rem2,
                    incomplete: if m.remaining > 0 {
                        rem2 as u64
                    } else {
                        m.incomplete
                    },
                    ..m
                }
            } else {
                m
            };
            if m1.crc_buf.len() == 4 {
                spec_finish(m1)
            } else {
                m1
            }
        },
        ParseState::Skip { remaining } => {
            if remaining > 1 {
                ParserModel { state: ParseState::Skip { remaining: (remaining - 1) as usize }, ..m }
            } else {
                ParserModel { state: ParseState::Idle, ..m }
            }
        },
    }
}

/// A run of stream bytes, in order.
pub open spec fn spec_steps(m: ParserModel, s: Seq<u8>, now: u64) -> ParserModel
    decreases s.len(),
{
    if s.len() == 0 {
        m
    } else {
        spec_steps(spec_step(m, s[0], now), s.skip(1), now)
    }
}

/// The inactivity check: a non-empty line past its deadline is flushed.
pub open spec fn spec_tick(m: ParserModel, now: u64) -> ParserModel {
    if m.line.len() > 0 && now > m.deadline {
        ParserModel {
            logs: m.logs.push(m.line),
            log_lines: sat_add64(m.log_lines, 1),
            line: Seq::empty(),
            ..m
        }
    } else {
        m
    }
}

/// The parser as constructed: everything empty and zero, deadline half a
/// second after `now`.
pub open spec fn spec_parser_init(now: u64) -> ParserModel {
    ParserModel {
        logs: Seq::empty(),
        inbox: Seq::new(256, |i: int| Seq::empty()),
        valid: 0,
        crc_err: 0,
        size_err: 0,
        other_err: 0,
        incomplete: 0,
        log_bytes: 0,
        log_lines: 0,
        line: Seq::empty(),
        state: ParseState::Idle,
        code: 0,
        expected: 0,
        body: Seq::empty(),
        crc_buf: Seq::empty(),
        remaining: 0,
        deadline: sat_add64(now, 500),
    }
}

/// Parsed frame storage, statistics, and the log-line side channel.
///
/// Fed one byte at a time (`receive_data`); never fails, only counts.
pub struct PacketParser {
    /// Completed log lines from the device, oldest first.
    pub logs: VecDeque<String>,
    /// Per-code FIFOs of received frame bodies, indexed by command code
    /// (always 256 entries).
    pub packets: Vec<VecDeque<Vec<u8>>>,
    /// Frames whose size checks and CRC passed.
    pub stat_valid_packets: u64,
    /// Frames whose CRC check failed.
    pub stat_crc_error_packets: u64,
    /// Frames rejected on the size or inverted-code checks.
    pub stat_size_or_code_error_packets: u64,
    /// Any other parser error (normally stays 0).
    pub stat_other_error_packets: u64,
    /// Bytes still missing for the frame in progress (0 when none).
    pub stat_incomplete_bytes: u64,
    /// Bytes classified as log text.
    pub stat_log_bytes: u64,
    /// Completed log lines.
    pub stat_log_lines: u64,
    /// The in-progress log line (ASCII bytes).
    pub current_log_line: Vec<u8>,
    state: ParseState,
    current_code: u8,
    expected_size: usize,
    body_buf: Vec<u8>,
    crc_buf: Vec<u8>,
    remaining_in_packet: usize,
    timeout_log: u64,
}

impl View for PacketParser {
    type V = ParserModel;

    closed spec fn view(&self) -> ParserModel {
        ParserModel {
            logs: self.logs.deep_view(),
            inbox: self.packets.deep_view(),
            valid: self.stat_valid_packets,
            crc_err: self.stat_crc_error_packets,
            size_err: self.stat_size_or_code_error_packets,
            other_err: self.stat_other_error_packets,
            incomplete: self.stat_incomplete_bytes,
            log_bytes: self.stat_log_bytes,
            log_lines: self.stat_log_lines,
            line: chars_of(self.current_log_line@),
            state: self.state,
            code: self.current_code,
            expected: self.expected_size,
            body: self.body_buf@,
            crc_buf: self.crc_buf@,
            remaining: self.remaining_in_packet,
            deadline: self.timeout_log,
        }
    }
}

impl PacketParser {
    /// Internal well-formedness: the in-progress log line holds only ASCII
    /// bytes, and the state machine's small counters stay in range.
    /// Established by `new` and preserved by every method.
    pub closed spec fn wf(&self) -> bool {
        &&& forall|i: int|
            0 <= i < self.current_log_line@.len() ==> self.current_log_line@[i] < 0x80
        &&& match self.state {
            ParseState::WaitSignature { matched } => 1 <= matched <= 3,
            ParseState::HeaderLenHi => self.expected_size <= 0xFF,
            _ => true,
        }
        &&& self.expected_size <= 0xFFFF
    }

    /// A fresh parser: empty inbox and logs, zeroed statistics, idle.
    pub fn new(now: u64) -> (r: PacketParser)
        ensures
            r@ == spec_parser_init(now),
            r.wf(),
    {
        let mut packets: Vec<VecDeque<Vec<u8>>> = Vec::new();
        let mut i: usize = 0;
        while i < 256
            invariant
                i <= 256,
                packets@.len() == i,
                forall|j: int| 0 <= j < i ==> packets@[j]@.len() == 0,
            decreases 256 - i,
        {
            packets.push(VecDeque::new());
            i = i + 1;
        }
        let r = PacketParser {
            logs: VecDeque::new(),
            packets,
            stat_valid_packets: 0,
            stat_crc_error_packets: 0,
            stat_size_or_code_error_packets: 0,
            stat_other_error_packets: 0,
            stat_incomplete_bytes: 0,
            stat_log_bytes: 0,
            stat_log_lines: 0,
            current_log_line: Vec::new(),
            state: ParseState::Idle,
            current_code: 0,
            expected_size: 0,
            body_buf: Vec::new(),
            crc_buf: Vec::new(),
            remaining_in_packet: 0,
            timeout_log: now.saturating_add(500),
        };
        proof {
            assert(r@.inbox =~~= spec_parser_init(now).inbox);
            assert(r@.logs =~~= spec_parser_init(now).logs);
            assert(r@.line =~= spec_parser_init(now).line);
            assert(r@ =~~= spec_parser_init(now));
        }
        r
    }
}

/// Consuming a concatenation is consuming the parts in order.
pub proof fn lemma_spec_steps_concat(m: ParserModel, a: Seq<u8>, b: Seq<u8>, now: u64)
    ensures
        spec_steps(m, a + b, now) == spec_steps(spec_steps(m, a, now), b, now),
    decreases a.len(),
{
    if a.len() == 0 {
        assert(a + b =~= b);
    } else {
        assert((a + b)[0] == a[0]);
        assert((a + b).skip(1) =~= a.skip(1) + b);
        lemma_spec_steps_concat(spec_step(m, a[0], now), a.skip(1), b, now);
    }
}

proof fn lemma_spec_steps_push(m: ParserModel, s: Seq<u8>, b: u8, now: u64)
    ensures
        spec_steps(m, s.push(b), now) == spec_step(spec_steps(m, s, now), b, now),
{
    assert(s.push(b) =~= s + seq![b]);
    lemma_spec_steps_concat(m, s, seq![b], now);
    let m1 = spec_steps(m, s, now);
    let m2 = spec_step(m1, b, now);
    assert(seq![b][0] == b);
    assert(seq![b].skip(1) =~= Seq::<u8>::empty());
    assert(spec_steps(m2, Seq::<u8>::empty(), now) == m2);
    assert(spec_steps(m1, seq![b], now) == spec_steps(m2, seq![b].skip(1), now));
}

proof fn lemma_spec_log_seq_push(m: ParserModel, s: Seq<u8>, b: u8, now: u64)
    ensures
        spec_log_seq(m, s.push(b), now) == spec_log_byte(spec_log_seq(m, s, now), b, now),
    decreases s.len(),
{
    if s.len() == 0 {
        let mb = spec_log_byte(m, b, now);
        assert(s.push(b)[0] == b);
        assert(s.push(b).skip(1) =~= Seq::<u8>::empty());
        assert(spec_log_seq(mb, Seq::<u8>::empty(), now) == mb);
        assert(spec_log_seq(m, s.push(b), now) == spec_log_seq(mb, s.push(b).skip(1), now));
        assert(spec_log_seq(m, s, now) == m);
    } else {
        assert(s.push(b)[0] == s[0]);
        assert(s.push(b).skip(1) =~= s.skip(1).push(b));
        lemma_spec_log_seq_push(spec_log_byte(m, s[0], now), s.skip(1), b, now);
    }
}

proof fn lemma_or_shl8(a: usize, b: u8)
    requires
        a <= 0xFF,
    ensures
        (a | ((b as usize) << 8)) == a + (b as usize) * 0x100,
        (a | ((b as usize) << 8)) <= 0xFFFF,
{
    assert((a | ((b as usize) << 8)) == a + (b as usize) * 0x100 && (a | ((b as usize) << 8))
        <= 0xFFFF) by (bit_vector)
        requires
            a <= 0xFF,
    ;
}

fn sig_rx_byte(i: usize) -> (r: u8)
    requires
        i < 4,
    ensures
        r == sig_rx_bytes()[i as int],
{
    if i == 0 {
        0x45
    } else if i == 1 {
        0xA3
    } else if i == 2 {
        0x7E
    } else {
        0x81
    }
}

impl PacketParser {
    /// Flushes the in-progress line into `logs` as a completed line.
    fn flush_line(&mut self)
        requires
            old(self).wf(),
        ensures
            final(self).wf(),
            final(self)@ == (ParserModel {
                logs: old(self)@.logs.push(old(self)@.line),
                log_lines: sat_add64(old(self)@.log_lines, 1),
                line: Seq::empty(),
                ..old(self)@
            }),
    {
        let line_len: usize = self.current_log_line.len();
        let bytes = crate::misc::deserialize_bytes(self.current_log_line.as_slice(), 0, line_len);
        proof {
            assert(bytes@ =~= self.current_log_line@);
        }
        self.current_log_line.clear();
        let s = ascii_to_string(bytes);
        self.logs.push_back(s);
        self.stat_log_lines = self.stat_log_lines.saturating_add(1);
        proof {
            assert(self.logs.deep_view() =~~= old(self)@.logs.push(old(self)@.line));
            assert(self@.line =~= Seq::<char>::empty());
            assert(self@ =~~= (ParserModel {
                logs: old(self)@.logs.push(old(self)@.line),
                log_lines: sat_add64(old(self)@.log_lines, 1),
                line: Seq::empty(),
                ..old(self)@
            }));
        }
    }

    /// Routes one byte to the log side: newline ends the line, printable
    /// ASCII is appended (flushing at 256), carriage returns vanish, tabs
    /// become spaces, anything else becomes a `<HH>` escape.
    fn handle_log_byte(&mut self, b: u8, now: u64)
        requires
            old(self).wf(),
        ensures
            final(self).wf(),
            final(self)@ == spec_log_byte(old(self)@, b, now),
    {
        self.stat_log_bytes = self.stat_log_bytes.saturating_add(1);
        self.timeout_log = now.saturating_add(250);
        let ghost m1 = ParserModel {
            log_bytes: sat_add64(old(self)@.log_bytes, 1),
            deadline: sat_add64(now, 250),
            ..old(self)@
        };
        proof {
            assert(self@ =~~= m1);
        }
        if b == 0x0A {
            self.flush_line();
            proof {
                assert(self@ =~~= spec_log_byte(old(self)@, b, now));
            }
        } else if 32 <= b && b <= 126 {
            self.current_log_line.push(b);
            proof {
                assert(chars_of(self.current_log_line@) =~= m1.line.push(b as char));
            }
            if self.current_log_line.len() >= 256 {
                self.flush_line();
            }
            proof {
                assert(self@ =~~= spec_log_byte(old(self)@, b, now));
            }
        } else if b == 0x0D {
            proof {
                assert(self@ =~~= spec_log_byte(old(self)@, b, now));
            }
        } else if b == 0x09 {
            let r0: usize = self.current_log_line.len() % 8;
            let k: usize = if r0 == 7 {
                8
            } else {
                7 - r0
            };
            proof {
                assert(k as nat == tab_fill(m1.line.len()));
            }
            let ghost line0 = self.current_log_line@;
            let mut c: usize = 0;
            while c < k
                invariant
                    c <= k,
                    self.current_log_line@ == line0 + Seq::new(c as nat, |i: int| 0x20u8),
                    forall|i: int| 0 <= i < line0.len() ==> line0[i] < 0x80,
                    self@ == (ParserModel { line: chars_of(self.current_log_line@), ..m1 }),
                decreases k - c,
            {
                self.current_log_line.push(0x20);
                proof {
                    assert(self.current_log_line@ =~= line0 + Seq::new(
                        c as nat + 1,
                        |i: int| 0x20u8,
                    ));
                }
                c = c + 1;
            }
            proof {
                assert(chars_of(self.current_log_line@) =~= m1.line + Seq::new(
                    tab_fill(m1.line.len()),
                    |i: int| ' ',
                ));
                assert(self@ =~~= spec_log_byte(old(self)@, b, now));
            }
        } else {
            let hi: u8 = b / 16;
            let lo: u8 = b % 16;
            self.current_log_line.push(0x3C);
            self.current_log_line.push(
                if hi < 10 {
                    0x30 + hi
                } else {
                    0x37 + hi
                },
            );
            self.current_log_line.push(
                if lo < 10 {
                    0x30 + lo
                } else {
                    0x37 + lo
                },
            );
            self.current_log_line.push(0x3E);
            proof {
                assert(self.current_log_line@ =~= old(self).current_log_line@ + escape_byte(b));
                assert(chars_of(self.current_log_line@) =~= m1.line + chars_of(escape_byte(b)));
                assert(self@ =~~= spec_log_byte(old(self)@, b, now));
            }
        }
    }

    /// A full signature was just matched: get ready for the header.
    fn start_packet_after_signature(&mut self)
        requires
            old(self).wf(),
        ensures
            final(self).wf(),
            final(self)@ == (ParserModel {
                state: ParseState::HeaderCode,
                code: 0,
                expected: 0,
                body: Seq::empty(),
                crc_buf: Seq::empty(),
                remaining: 0,
                incomplete: 0,
                ..old(self)@
            }),
    {
        self.state = ParseState::HeaderCode;
        self.current_code = 0;
        self.expected_size = 0;
        self.body_buf.clear();
        self.crc_buf.clear();
        self.remaining_in_packet = 0;
        self.stat_incomplete_bytes = 0;
        proof {
            assert(self@ =~~= (ParserModel {
                state: ParseState::HeaderCode,
                code: 0,
                expected: 0,
                body: Seq::empty(),
                crc_buf: Seq::empty(),
                remaining: 0,
                incomplete: 0,
                ..old(self)@
            }));
        }
    }

    /// Forgets the frame in progress and returns to idle.
    fn abort_current_packet(&mut self)
        requires
            old(self).wf(),
        ensures
            final(self).wf(),
            final(self)@ == spec_abort(old(self)@),
    {
        self.state = ParseState::Idle;
        self.expected_size = 0;
        self.body_buf.clear();
        self.crc_buf.clear();
        self.remaining_in_packet = 0;
        self.stat_incomplete_bytes = 0;
        proof {
            assert(self@ =~~= spec_abort(old(self)@));
        }
    }

    /// Validates the collected frame: recomputes the CRC and either files
    /// the body under its code or counts the error; idle afterwards.
    fn finish_packet(&mut self)
        requires
            old(self).wf(),
            old(self)@.crc_buf.len() == 4,
        ensures
            final(self).wf(),
            final(self)@ == spec_finish(old(self)@),
    {
        if self.body_buf.len() != self.expected_size {
            self.stat_other_error_packets = self.stat_other_error_packets.saturating_add(1);
            self.abort_current_packet();
            proof {
                assert(self@ =~~= spec_finish(old(self)@));
            }
            return;
        }
        let len_lo: u8 = (self.expected_size % 0x100) as u8;
        let len_hi: u8 = ((self.expected_size / 0x100) % 0x100) as u8;
        let mut crc_input: Vec<u8> = Vec::new();
        crc_input.push(self.current_code);
        crc_input.push(self.current_code ^ 0xFF);
        crc_input.push(len_lo);
        crc_input.push(len_hi);
        let blen: usize = self.body_buf.len();
        let mut i: usize = 0;
        while i < blen
            invariant
                i <= blen,
                blen == self.body_buf@.len(),
                crc_input@ == seq![
                    self.current_code,
                    self.current_code ^ 0xFF,
                    (self.expected_size % 0x100) as u8,
                    ((self.expected_size / 0x100) % 0x100) as u8,
                ] + self.body_buf@.take(i as int),
            decreases blen - i,
        {
            let byte: u8 = self.body_buf[i];
            crc_input.push(byte);
            proof {
                assert(crc_input@ =~= seq![
                    self.current_code,
                    self.current_code ^ 0xFF,
                    (self.expected_size % 0x100) as u8,
                    ((self.expected_size / 0x100) % 0x100) as u8,
                ] + self.body_buf@.take(i as int + 1));
            }
            i = i + 1;
        }
        proof {
            assert(self.body_buf@.take(blen as int) =~= self.body_buf@);
        }
        let crc_calc: u32 = crc32_sfu(crc_input.as_slice());
        let crc_recv: u32 = crate::misc::deserialize_u32_le(self.crc_buf.as_slice(), 0);
        if crc_calc == crc_recv {
            let idx: usize = self.current_code as usize;
            if idx < self.packets.len() {
                let body = crate::misc::deserialize_bytes(self.body_buf.as_slice(), 0, blen);
                proof {
                    assert(body@ =~= self.body_buf@);
                }
                let ghost inbox0 = self.packets.deep_view();
                self.packets[idx].push_back(body);
                proof {
                    assert(self.packets.deep_view() =~~= inbox0.update(
                        idx as int,
                        inbox0[idx as int].push(old(self)@.body),
                    ));
                }
            } else {
                self.stat_other_error_packets = self.stat_other_error_packets.saturating_add(1);
            }
            self.stat_valid_packets = self.stat_valid_packets.saturating_add(1);
        } else {
            self.stat_crc_error_packets = self.stat_crc_error_packets.saturating_add(1);
        }
        self.abort_current_packet();
        proof {
            assert(self@ =~~= spec_finish(old(self)@));
        }
    }

    /// Consumes one byte of the stream.
    pub fn receive_byte(&mut self, x: u8, now: u64)
        requires
            old(self).wf(),
        ensures
            final(self).wf(),
            final(self)@ == spec_step(old(self)@, x, now),
    {
        let st = self.state;
        match st {
            ParseState::Idle => {
                if x == 0x45 {
                    self.state = ParseState::WaitSignature { matched: 1 };
                    proof {
                        assert(self@ =~~= spec_step(old(self)@, x, now));
                    }
                } else {
                    self.handle_log_byte(x, now);
                    proof {
                        assert(self@ =~~= spec_step(old(self)@, x, now));
                    }
                }
            },
            ParseState::WaitSignature { matched } => {
                if matched < 4 && x == sig_rx_byte(matched as usize) {
                    if matched + 1 == 4 {
                        self.start_packet_after_signature();
                    } else {
                        self.state = ParseState::WaitSignature { matched: matched + 1 };
                    }
                    proof {
                        assert(self@ =~~= spec_step(old(self)@, x, now));
                    }
                } else {
                    let mut i: u8 = 0;
                    proof {
                        assert(sig_rx_bytes().take(0) =~= Seq::<u8>::empty());
                    }
                    while i < matched
                        invariant
                            i <= matched,
                            matched <= 3,
                            self.wf(),
                            self@ == spec_log_seq(
                                old(self)@,
                                sig_rx_bytes().take(i as int),
                                now,
                            ),
                        decreases matched - i,
                    {
                        let sb: u8 = sig_rx_byte(i as usize);
                        proof {
                            lemma_spec_log_seq_push(
                                old(self)@,
                                sig_rx_bytes().take(i as int),
                                sig_rx_bytes()[i as int],
                                now,
                            );
                            assert(sig_rx_bytes().take(i as int + 1) =~= sig_rx_bytes().take(
                                i as int,
                            ).push(sig_rx_bytes()[i as int]));
                        }
                        self.handle_log_byte(sb, now);
                        i = i + 1;
                    }
                    if x == 0x45 {
                        self.state = ParseState::WaitSignature { matched: 1 };
                        proof {
                            assert(self@ =~~= spec_step(old(self)@, x, now));
                        }
                    } else {
                        self.state = ParseState::Idle;
                        proof {
                            assert(self@ =~~= (ParserModel {
                                state: ParseState::Idle,
                                ..spec_log_seq(
                                    old(self)@,
                                    sig_rx_bytes().take(matched as int),
                                    now,
                                )
                            }));
                        }
                        self.handle_log_byte(x, now);
                        proof {
                            assert(self@ =~~= spec_step(old(self)@, x, now));
                        }
                    }
                }
            },
            ParseState::HeaderCode => {
                self.current_code = x;
                self.state = ParseState::HeaderCodeInv;
                proof {
                    assert(self@ =~~= spec_step(old(self)@, x, now));
                }
            },
            ParseState::HeaderCodeInv => {
                if x != self.current_code ^ 0xFF {
                    self.stat_size_or_code_error_packets =
                        self.stat_size_or_code_error_packets.saturating_add(1);
                    self.expected_size = 0;
                    self.body_buf.clear();
                    self.crc_buf.clear();
                    self.state = ParseState::Skip { remaining: 2 };
                } else {
                    self.state = ParseState::HeaderLenLo;
                }
                proof {
                    assert(self@ =~~= spec_step(old(self)@, x, now));
                }
            },
            ParseState::HeaderLenLo => {
                self.expected_size = x as usize;
                self.state = ParseState::HeaderLenHi;
                proof {
                    assert(self@ =~~= spec_step(old(self)@, x, now));
                }
            },
            ParseState::HeaderLenHi => {
                proof {
                    lemma_or_shl8(self.expected_size, x);
                }
                let size: usize = self.expected_size | ((x as usize) << 8);
                self.expected_size = size;
                let total: usize = 12 + size;
                if total > MAX_PACKET_SIZE || total % 4 != 0 {
                    self.stat_size_or_code_error_packets =
                        self.stat_size_or_code_error_packets.saturating_add(1);
                    self.state = ParseState::Skip { remaining: size + 4 };
                    self.stat_incomplete_bytes = 0;
                    self.remaining_in_packet = 0;
                } else {
                    self.body_buf.clear();
                    self.crc_buf.clear();
                    self.remaining_in_packet = size + 4;
                    self.stat_incomplete_bytes = (size + 4) as u64;
                    self.state = if size > 0 {
                        ParseState::Body
                    } else {
                        ParseState::Crc
                    };
                }
                proof {
                    assert(self@ =~~= spec_step(old(self)@, x, now));
                }
            },
            ParseState::Body => {
                if self.body_buf.len() < self.expected_size {
                    self.body_buf.push(x);
                    if self.remaining_in_packet > 0 {
                        self.remaining_in_packet = self.remaining_in_packet - 1;
                        self.stat_incomplete_bytes = self.remaining_in_packet as u64;
                    }
                }
                if self.body_buf.len() == self.expected_size {
                    self.crc_buf.clear();
                    self.state = ParseState::Crc;
                }
                proof {
                    assert(self@ =~~= spec_step(old(self)@, x, now));
                }
            },
            ParseState::Crc => {
                if self.crc_buf.len() < 4 {
                    self.crc_buf.push(x);
                    if self.remaining_in_packet > 0 {
                        self.remaining_in_packet = self.remaining_in_packet - 1;
                        self.stat_incomplete_bytes = self.remaining_in_packet as u64;
                    }
                }
                if self.crc_buf.len() == 4 {
                    self.finish_packet();
                    proof {
                        assert(self@ =~~= spec_step(old(self)@, x, now));
                    }
                } else {
                    proof {
                        assert(self@ =~~= spec_step(old(self)@, x, now));
                    }
                }
            },
            ParseState::Skip { remaining } => {
                if remaining > 1 {
                    self.state = ParseState::Skip { remaining: remaining - 1 };
                } else {
                    self.state = ParseState::Idle;
                }
                proof {
                    assert(self@ =~~= spec_step(old(self)@, x, now));
                }
            },
        }
    }

    /// Consumes a block of stream bytes in order, then runs the inactivity
    /// check once.
    pub fn receive_data(&mut self, data: &[u8], now: u64)
        requires
            old(self).wf(),
        ensures
            final(self).wf(),
            final(self)@ == spec_tick(spec_steps(old(self)@, data@, now), now),
    {
        let len: usize = data.len();
        let mut i: usize = 0;
        proof {
            assert(data@.take(0) =~= Seq::<u8>::empty());
        }
        while i < len
            invariant
                i <= len,
                len == data@.len(),
                self.wf(),
                self@ == spec_steps(old(self)@, data@.take(i as int), now),
            decreases len - i,
        {
            let b: u8 = data[i];
            proof {
                lemma_spec_steps_push(old(self)@, data@.take(i as int), data@[i as int], now);
                assert(data@.take(i as int + 1) =~= data@.take(i as int).push(data@[i as int]));
            }
            self.receive_byte(b, now);
            i = i + 1;
        }
        proof {
            assert(data@.take(len as int) =~= data@);
        }
        self.tick(now);
    }

    /// Flushes a non-empty in-progress line once its inactivity deadline has
    /// passed.
    pub fn tick(&mut self, now: u64)
        requires
            old(self).wf(),
        ensures
            final(self).wf(),
            final(self)@ == spec_tick(old(self)@, now),
    {
        if self.current_log_line.len() > 0 && now > self.timeout_log {
            self.flush_line();
        }
        proof {
            assert(self@ =~~= spec_tick(old(self)@, now));
        }
    }

    /// Removes and returns the oldest body waiting under `code`, if any.
    pub fn pop_packet(&mut self, code: u8) -> (r: Option<Vec<u8>>)
        requires
            old(self).wf(),
        ensures
            final(self).wf(),
            ({
                let inbox = old(self)@.inbox;
                if (code as int) < inbox.len() && inbox[code as int].len() > 0 {
                    (r matches Some(b) && b@ == inbox[code as int][0] && final(self)@
                        == (ParserModel {
                        inbox: inbox.update(code as int, inbox[code as int].skip(1)),
                        ..old(self)@
                    }))
                } else {
                    (r is None && final(self)@ == old(self)@)
                }
            }),
    {
        let idx: usize = code as usize;
        if idx < self.packets.len() {
            let ghost inbox0 = self.packets.deep_view();
            let r = self.packets[idx].pop_front();
            proof {
                if inbox0[idx as int].len() > 0 {
                    assert(self.packets.deep_view() =~~= inbox0.update(
                        idx as int,
                        inbox0[idx as int].skip(1),
                    ));
                    assert(self@ =~~= (ParserModel {
                        inbox: inbox0.update(idx as int, inbox0[idx as int].skip(1)),
                        ..old(self)@
                    }));
                } else {
                    assert(self.packets.deep_view() =~~= inbox0);
                    assert(self@ =~~= old(self)@);
                }
            }
            r
        } else {
            None
        }
    }

    /// Zeroes every statistic and empties logs, inbox and frame state; the
    /// log inactivity deadline is left as it stands.
    pub fn reset(&mut self, now: u64)
        requires
            old(self).wf(),
        ensures
            final(self).wf(),
            final(self)@ == (ParserModel { deadline: old(self)@.deadline, ..spec_parser_init(now) }),
    {
        self.logs.clear();
        let mut packets: Vec<VecDeque<Vec<u8>>> = Vec::new();
        let mut i: usize = 0;
        while i < 256
            invariant
                i <= 256,
                packets@.len() == i,
                forall|j: int| 0 <= j < i ==> packets@[j]@.len() == 0,
            decreases 256 - i,
        {
            packets.push(VecDeque::new());
            i = i + 1;
        }
        self.packets = packets;
        self.stat_valid_packets = 0;
        self.stat_crc_error_packets = 0;
        self.stat_size_or_code_error_packets = 0;
        self.stat_other_error_packets = 0;
        self.stat_incomplete_bytes = 0;
        self.stat_log_bytes = 0;
        self.stat_log_lines = 0;
        self.state = ParseState::Idle;
        self.current_log_line.clear();
        self.current_code = 0;
        self.expected_size = 0;
        self.body_buf.clear();
        self.crc_buf.clear();
        self.remaining_in_packet = 0;
        proof {
            assert(self@ =~~= (ParserModel {
                deadline: old(self)@.deadline,
                ..spec_parser_init(now)
            }));
        }
    }

    /// Zeroes only the error counters; successes, logs and the inbox stay.
    pub fn reset_error_stats(&mut self)
        requires
            old(self).wf(),
        ensures
            final(self).wf(),
            final(self)@ == (ParserModel {
                crc_err: 0,
                size_err: 0,
                other_err: 0,
                incomplete: 0,
                ..old(self)@
            }),
    {
        self.stat_crc_error_packets = 0;
        self.stat_size_or_code_error_packets = 0;
        self.stat_other_error_packets = 0;
        self.stat_incomplete_bytes = 0;
        proof {
            assert(self@ =~~= (ParserModel {
                crc_err: 0,
                size_err: 0,
                other_err: 0,
                incomplete: 0,
                ..old(self)@
            }));
        }
    }

    /// Removes and returns the oldest completed log line, if any.
    pub fn pop_log(&mut self) -> (r: Option<String>)
        requires
            old(self).wf(),
        ensures
            final(self).wf(),
            old(self)@.logs.len() == 0 ==> (r is None && final(self)@ == old(self)@),
            old(self)@.logs.len() > 0 ==> (r matches Some(s) && s@ == old(self)@.logs[0]
                && final(self)@ == (ParserModel { logs: old(self)@.logs.skip(1), ..old(self)@ })),
    {
        let ghost logs0 = self.logs.deep_view();
        let r = self.logs.pop_front();
        proof {
            if logs0.len() > 0 {
                assert(self.logs.deep_view() =~~= logs0.skip(1));
                assert(self@ =~~= (ParserModel { logs: logs0.skip(1), ..old(self)@ }));
            } else {
                assert(self@ =~~= old(self)@);
            }
        }
        r
    }
}

// ---------------------------------------------------------------------------
// Laws of the parser, stated over the byte-level machine `spec_step`.
// ---------------------------------------------------------------------------

proof fn lemma_steps_sig(m: ParserModel, now: u64)
    requires
        m.state is Idle,
    ensures
        spec_steps(m, sig_rx_bytes(), now) == (ParserModel {
            state: ParseState::HeaderCode,
            code: 0,
            expected: 0,
            body: Seq::empty(),
            crc_buf: Seq::empty(),
            remaining: 0,
            incomplete: 0,
            ..m
        }),
{
    let s = sig_rx_bytes();
    let m1 = spec_step(m, s[0], now);
    let m2 = spec_step(m1, s[1], now);
    let m3 = spec_step(m2, s[2], now);
    let m4 = spec_step(m3, s[3], now);
    assert(m1 =~~= (ParserModel { state: ParseState::WaitSignature { matched: 1 }, ..m }));
    assert(m2 =~~= (ParserModel { state: ParseState::WaitSignature { matched: 2 }, ..m }));
    assert(m3 =~~= (ParserModel { state: ParseState::WaitSignature { matched: 3 }, ..m }));
    assert(m4 =~~= (ParserModel {
        state: ParseState::HeaderCode,
        code: 0,
        expected: 0,
        body: Seq::empty(),
        crc_buf: Seq::empty(),
        remaining: 0,
        incomplete: 0,
        ..m
    }));
    let s1 = s.skip(1);
    let s2 = s1.skip(1);
    let s3 = s2.skip(1);
    assert(s1[0] == s[1] && s2[0] == s[2] && s3[0] == s[3]);
    assert(s3.skip(1) =~= Seq::<u8>::empty());
    assert(spec_steps(m, s, now) == spec_steps(m1, s1, now));
    assert(spec_steps(m1, s1, now) == spec_steps(m2, s2, now));
    assert(spec_steps(m2, s2, now) == spec_steps(m3, s3, now));
    assert(spec_steps(m3, s3, now) == spec_steps(m4, s3.skip(1), now));
    assert(spec_steps(m4, s3.skip(1), now) == m4);
}

proof fn lemma_steps_header_ok(m: ParserModel, code: u8, lo: u8, hi: u8, now: u64)
    requires
        m.state is HeaderCode,
        12 + ((lo as usize) | ((hi as usize) << 8)) <= 4096,
        (12 + ((lo as usize) | ((hi as usize) << 8))) % 4 == 0,
    ensures
        ({
            let size = (lo as usize) | ((hi as usize) << 8);
            spec_steps(m, seq![code, code ^ 0xFF, lo, hi], now) == (ParserModel {
                state: if size > 0 {
                    ParseState::Body
                } else {
                    ParseState::Crc
                },
                code: code,
                expected: size,
                body: Seq::empty(),
                crc_buf: Seq::empty(),
                remaining: (size + 4) as usize,
                incomplete: (size + 4) as u64,
                ..m
            })
        }),
{
    let size = (lo as usize) | ((hi as usize) << 8);
    lemma_or_shl8(lo as usize, hi);
    let s = seq![code, code ^ 0xFF, lo, hi];
    let m1 = spec_step(m, s[0], now);
    assert(m1 =~~= (ParserModel { code: code, state: ParseState::HeaderCodeInv, ..m }));
    let m2 = spec_step(m1, s[1], now);
    assert(m2 =~~= (ParserModel { code: code, state: ParseState::HeaderLenLo, ..m }));
    let m3 = spec_step(m2, s[2], now);
    assert(m3 =~~= (ParserModel {
        code: code,
        expected: lo as usize,
        state: ParseState::HeaderLenHi,
        ..m
    }));
    let m4 = spec_step(m3, s[3], now);
    assert(m4 =~~= (ParserModel {
        state: if size > 0 {
            ParseState::Body
        } else {
            ParseState::Crc
        },
        code: code,
        expected: size,
        body: Seq::empty(),
        crc_buf: Seq::empty(),
        remaining: (size + 4) as usize,
        incomplete: (size + 4) as u64,
        ..m
    }));
    let s1 = s.skip(1);
    let s2 = s1.skip(1);
    let s3 = s2.skip(1);
    assert(s1[0] == s[1] && s2[0] == s[2] && s3[0] == s[3]);
    assert(s3.skip(1) =~= Seq::<u8>::empty());
    assert(spec_steps(m, s, now) == spec_steps(m1, s1, now));
    assert(spec_steps(m1, s1, now) == spec_steps(m2, s2, now));
    assert(spec_steps(m2, s2, now) == spec_steps(m3, s3, now));
    assert(spec_steps(m3, s3, now) == spec_steps(m4, s3.skip(1), now));
    assert(spec_steps(m4, s3.skip(1), now) == m4);
}

proof fn lemma_steps_body(m: ParserModel, s: Seq<u8>, now: u64)
    requires
        m.state is Body,
        s.len() > 0,
        m.body.len() + s.len() == m.expected,
        m.remaining == m.expected - m.body.len() + 4,
    ensures
        spec_steps(m, s, now) == (ParserModel {
            state: ParseState::Crc,
            body: m.body + s,
            crc_buf: Seq::empty(),
            remaining: 4,
            incomplete: 4,
            ..m
        }),
    decreases s.len(),
{
    let m1 = spec_step(m, s[0], now);
    if s.len() == 1 {
        assert(m1 =~~= (ParserModel {
            state: ParseState::Crc,
            body: m.body.push(s[0]),
            crc_buf: Seq::empty(),
            remaining: 4,
            incomplete: 4,
            ..m
        }));
        assert(m.body + s =~= m.body.push(s[0]));
        assert(s.skip(1) =~= Seq::<u8>::empty());
        assert(spec_steps(m, s, now) == spec_steps(m1, s.skip(1), now));
        assert(spec_steps(m1, s.skip(1), now) == m1);
    } else {
        assert(m1 =~~= (ParserModel {
            body: m.body.push(s[0]),
            remaining: (m.remaining - 1) as usize,
            incomplete: (m.remaining - 1) as u64,
            ..m
        }));
        lemma_steps_body(m1, s.skip(1), now);
        assert(m1.body + s.skip(1) =~= m.body + s);
        assert(spec_steps(m, s, now) == spec_steps(m1, s.skip(1), now));
    }
}

proof fn lemma_steps_crc(m: ParserModel, s: Seq<u8>, now: u64)
    requires
        m.state is Crc,
        m.crc_buf.len() == 0,
        m.remaining == 4,
        s.len() == 4,
    ensures
        spec_steps(m, s, now) == spec_finish(
            ParserModel { crc_buf: s, remaining: 0, incomplete: 0, ..m },
        ),
{
    let m1 = spec_step(m, s[0], now);
    assert(m1 =~~= (ParserModel { crc_buf: seq![s[0]], remaining: 3, incomplete: 3, ..m }));
    let m2 = spec_step(m1, s[1], now);
    assert(m2 =~~= (ParserModel {
        crc_buf: seq![s[0], s[1]],
        remaining: 2,
        incomplete: 2,
        ..m
    }));
    let m3 = spec_step(m2, s[2], now);
    assert(m3 =~~= (ParserModel {
        crc_buf: seq![s[0], s[1], s[2]],
        remaining: 1,
        incomplete: 1,
        ..m
    }));
    let mc = ParserModel { crc_buf: s, remaining: 0, incomplete: 0, ..m };
    let m4 = spec_step(m3, s[3], now);
    assert(seq![s[0], s[1], s[2]].push(s[3]) =~= s);
    assert((ParserModel { crc_buf: seq![s[0], s[1], s[2]].push(s[3]), remaining: 0, incomplete: 0, ..m }) =~~= mc);
    assert(m4 == spec_finish(mc));
    let s1 = s.skip(1);
    let s2 = s1.skip(1);
    let s3 = s2.skip(1);
    assert(s1[0] == s[1] && s2[0] == s[2] && s3[0] == s[3]);
    assert(s3.skip(1) =~= Seq::<u8>::empty());
    assert(spec_steps(m, s, now) == spec_steps(m1, s1, now));
    assert(spec_steps(m1, s1, now) == spec_steps(m2, s2, now));
    assert(spec_steps(m2, s2, now) == spec_steps(m3, s3, now));
    assert(spec_steps(m3, s3, now) == spec_steps(m4, s3.skip(1), now));
    assert(spec_steps(m4, s3.skip(1), now) == m4);
}

/// Frame round-trip: from an idle parser, consuming a well-sized built frame
/// files exactly its body in that code's inbox, counts one more valid frame,
/// and returns to idle with every other part of the parser untouched.
proof fn lemma_finish_valid(m: ParserModel)
    requires
        m.body.len() == m.expected,
        m.expected <= 0xFFFF,
        m.inbox.len() == 256,
        m.valid < u64::MAX,
        u32_le_at(m.crc_buf, 0) == spec_crc32_sfu(frame_crc_region(m.code, m.body)),
    ensures
        spec_finish(m) == (ParserModel {
            inbox: m.inbox.update(m.code as int, m.inbox[m.code as int].push(m.body)),
            valid: (m.valid + 1) as u64,
            state: ParseState::Idle,
            expected: 0,
            body: Seq::empty(),
            crc_buf: Seq::empty(),
            remaining: 0,
            incomplete: 0,
            ..m
        }),
{
    let region2 = seq![
        m.code,
        m.code ^ 0xFF,
        (m.expected % 0x100) as u8,
        ((m.expected / 0x100) % 0x100) as u8,
    ] + m.body;
    assert(region2 =~= frame_crc_region(m.code, m.body));
    assert((m.code as int) < m.inbox.len());
    assert(spec_finish(m) =~~= (ParserModel {
        inbox: m.inbox.update(m.code as int, m.inbox[m.code as int].push(m.body)),
        valid: (m.valid + 1) as u64,
        state: ParseState::Idle,
        expected: 0,
        body: Seq::empty(),
        crc_buf: Seq::empty(),
        remaining: 0,
        incomplete: 0,
        ..m
    }));
}

/// Frame round-trip: from an idle parser, consuming a well-sized built frame
/// files exactly its body in that code's inbox, counts one more valid frame,
/// and returns to idle with every other part of the parser untouched.
#[verifier::rlimit(100)]
pub proof fn lemma_frame_roundtrip(m: ParserModel, code: u8, body: Seq<u8>, now: u64)
    requires
        m.state is Idle,
        m.inbox.len() == 256,
        body.len() + 12 <= 4096,
        (body.len() + 12) % 4 == 0,
        m.valid < u64::MAX,
    ensures
        spec_steps(m, rx_frame_bytes(code, body), now) == (ParserModel {
            inbox: m.inbox.update(code as int, m.inbox[code as int].push(body)),
            valid: (m.valid + 1) as u64,
            state: ParseState::Idle,
            code: code,
            expected: 0,
            body: Seq::empty(),
            crc_buf: Seq::empty(),
            remaining: 0,
            incomplete: 0,
            ..m
        }),
{
    let region = frame_crc_region(code, body);
    let crc = spec_crc32_sfu(region);
    let f = rx_frame_bytes(code, body);
    let lw = body.len() as u16;
    let lo = (lw % 0x100) as u8;
    let hi = (lw / 0x100) as u8;
    let hdr = seq![code, code ^ 0xFF, lo, hi];
    let crcb = u32_le_bytes(crc);
    assert(f =~= sig_rx_bytes() + (hdr + (body + crcb)));
    lemma_spec_steps_concat(m, sig_rx_bytes(), hdr + (body + crcb), now);
    lemma_steps_sig(m, now);
    let mA = spec_steps(m, sig_rx_bytes(), now);
    lemma_spec_steps_concat(mA, hdr, body + crcb, now);
    lemma_or_shl8(lo as usize, hi);
    assert((lo as usize) + (hi as usize) * 0x100 == body.len());
    lemma_steps_header_ok(mA, code, lo, hi, now);
    let mB = spec_steps(mA, hdr, now);
    assert(mB.expected == body.len());
    lemma_spec_steps_concat(mB, body, crcb, now);
    let mC = spec_steps(mB, body, now);
    if body.len() > 0 {
        lemma_steps_body(mB, body, now);
        assert(mC.body =~= body);
    } else {
        assert(body =~= Seq::<u8>::empty());
        assert(mC == mB);
        assert(mC.body =~= body);
    }
    assert(mC.state is Crc && mC.crc_buf.len() == 0 && mC.remaining == 4);
    lemma_steps_crc(mC, crcb, now);
    let mD = ParserModel { crc_buf: crcb, remaining: 0, incomplete: 0, ..mC };
    assert(spec_steps(m, f, now) == spec_finish(mD));
    assert(mD.body.len() == mD.expected);
    lemma_u32_le_roundtrip(crc);
    assert(u32_le_at(mD.crc_buf, 0) == crc);
    assert(frame_crc_region(mD.code, mD.body) == region);
    lemma_finish_valid(mD);
    assert(spec_finish(mD) =~~= (ParserModel {
        inbox: m.inbox.update(code as int, m.inbox[code as int].push(body)),
        valid: (m.valid + 1) as u64,
        state: ParseState::Idle,
        code: code,
        expected: 0,
        body: Seq::empty(),
        crc_buf: Seq::empty(),
        remaining: 0,
        incomplete: 0,
        ..m
    }));
}


/// Per-code FIFO: two valid frames under the same code, consumed back to
/// back, land in that code's inbox in arrival order.
pub proof fn lemma_per_code_fifo(m: ParserModel, code: u8, b1: Seq<u8>, b2: Seq<u8>, now: u64)
    requires
        m.state is Idle,
        m.inbox.len() == 256,
        b1.len() + 12 <= 4096,
        (b1.len() + 12) % 4 == 0,
        b2.len() + 12 <= 4096,
        (b2.len() + 12) % 4 == 0,
        m.valid + 2 <= u64::MAX,
    ensures
        spec_steps(m, rx_frame_bytes(code, b1) + rx_frame_bytes(code, b2), now).inbox[code as int]
            == m.inbox[code as int].push(b1).push(b2),
{
    lemma_spec_steps_concat(m, rx_frame_bytes(code, b1), rx_frame_bytes(code, b2), now);
    lemma_frame_roundtrip(m, code, b1, now);
    let m1 = spec_steps(m, rx_frame_bytes(code, b1), now);
    assert(m1.inbox.len() == 256);
    lemma_frame_roundtrip(m1, code, b2, now);
    assert(m1.inbox[code as int] == m.inbox[code as int].push(b1));
}

proof fn lemma_log_byte_keeps_state(m: ParserModel, b: u8, now: u64)
    ensures
        spec_log_byte(m, b, now).state == m.state,
{
}

proof fn lemma_log_seq_keeps_state(m: ParserModel, s: Seq<u8>, now: u64)
    ensures
        spec_log_seq(m, s, now).state == m.state,
    decreases s.len(),
{
    if s.len() > 0 {
        lemma_log_byte_keeps_state(m, s[0], now);
        lemma_log_seq_keeps_state(spec_log_byte(m, s[0], now), s.skip(1), now);
    }
}

proof fn lemma_log_byte_state_commute(m: ParserModel, st: ParseState, b: u8, now: u64)
    ensures
        spec_log_byte(ParserModel { state: st, ..m }, b, now) == (ParserModel {
            state: st,
            ..spec_log_byte(m, b, now)
        }),
{
    assert(spec_log_byte(ParserModel { state: st, ..m }, b, now) =~~= (ParserModel {
        state: st,
        ..spec_log_byte(m, b, now)
    }));
}

proof fn lemma_log_seq_state_commute(m: ParserModel, st: ParseState, s: Seq<u8>, now: u64)
    ensures
        spec_log_seq(ParserModel { state: st, ..m }, s, now) == (ParserModel {
            state: st,
            ..spec_log_seq(m, s, now)
        }),
    decreases s.len(),
{
    if s.len() == 0 {
    } else {
        lemma_log_byte_state_commute(m, st, s[0], now);
        lemma_log_seq_state_commute(spec_log_byte(m, s[0], now), st, s.skip(1), now);
    }
}

/// Log reclassification: bytes that match a proper prefix of the signature
/// and then fail are handed to the log classifier as ordinary bytes, in
/// their original order, with nothing lost; the failing byte either joins
/// them or opens a fresh signature match.
pub proof fn lemma_signature_reclassified_as_logs(m: ParserModel, k: int, x: u8, now: u64)
    requires
        m.state is Idle,
        1 <= k <= 3,
        x != sig_rx_bytes()[k],
    ensures
        x != sig_rx_bytes()[0] ==> spec_steps(m, sig_rx_bytes().take(k).push(x), now)
            == spec_log_seq(m, sig_rx_bytes().take(k).push(x), now),
        x == sig_rx_bytes()[0] ==> spec_steps(m, sig_rx_bytes().take(k).push(x), now)
            == (ParserModel {
            state: ParseState::WaitSignature { matched: 1 },
            ..spec_log_seq(m, sig_rx_bytes().take(k), now)
        }),
{
    let s = sig_rx_bytes();
    let pre = s.take(k);
    let m1 = spec_step(m, s[0], now);
    assert(m1 =~~= (ParserModel { state: ParseState::WaitSignature { matched: 1 }, ..m }));
    let mk = ParserModel { state: ParseState::WaitSignature { matched: k as u8 }, ..m };
    if k == 1 {
        assert(pre =~= seq![s[0]]);
        assert(pre.skip(1) =~= Seq::<u8>::empty());
        assert(spec_steps(m, pre, now) == spec_steps(m1, pre.skip(1), now));
        assert(spec_steps(m, pre, now) =~~= mk);
    } else if k == 2 {
        let m2 = spec_step(m1, s[1], now);
        assert(m2 =~~= (ParserModel { state: ParseState::WaitSignature { matched: 2 }, ..m }));
        assert(pre =~= seq![s[0], s[1]]);
        let p1 = pre.skip(1);
        assert(p1[0] == s[1]);
        assert(p1.skip(1) =~= Seq::<u8>::empty());
        assert(spec_steps(m, pre, now) == spec_steps(m1, p1, now));
        assert(spec_steps(m1, p1, now) == spec_steps(m2, p1.skip(1), now));
        assert(spec_steps(m, pre, now) =~~= mk);
    } else {
        let m2 = spec_step(m1, s[1], now);
        assert(m2 =~~= (ParserModel { state: ParseState::WaitSignature { matched: 2 }, ..m }));
        let m3 = spec_step(m2, s[2], now);
        assert(m3 =~~= (ParserModel { state: ParseState::WaitSignature { matched: 3 }, ..m }));
        assert(pre =~= seq![s[0], s[1], s[2]]);
        let p1 = pre.skip(1);
        let p2 = p1.skip(1);
        assert(p1[0] == s[1] && p2[0] == s[2]);
        assert(p2.skip(1) =~= Seq::<u8>::empty());
        assert(spec_steps(m, pre, now) == spec_steps(m1, p1, now));
        assert(spec_steps(m1, p1, now) == spec_steps(m2, p2, now));
        assert(spec_steps(m2, p2, now) == spec_steps(m3, p2.skip(1), now));
        assert(spec_steps(m, pre, now) =~~= mk);
    }
    lemma_spec_steps_push(m, pre, x, now);
    let mlogged = spec_log_seq(mk, s.take(k), now);
    lemma_log_seq_state_commute(m, ParseState::WaitSignature { matched: k as u8 }, s.take(k), now);
    assert(mlogged == (ParserModel {
        state: ParseState::WaitSignature { matched: k as u8 },
        ..spec_log_seq(m, s.take(k), now)
    }));
    if x == s[0] {
        assert(spec_step(mk, x, now) =~~= (ParserModel {
            state: ParseState::WaitSignature { matched: 1 },
            ..spec_log_seq(m, s.take(k), now)
        }));
    } else {
        let mi = ParserModel { state: ParseState::Idle, ..mlogged };
        assert(spec_step(mk, x, now) == spec_log_byte(mi, x, now));
        assert(mi =~~= (ParserModel {
            state: ParseState::Idle,
            ..spec_log_seq(m, s.take(k), now)
        }));
        lemma_log_byte_state_commute(
            spec_log_seq(m, s.take(k), now),
            ParseState::Idle,
            x,
            now,
        );
        assert(spec_log_byte(mi, x, now) =~~= (ParserModel {
            state: ParseState::Idle,
            ..spec_log_byte(spec_log_seq(m, s.take(k), now), x, now)
        }));
        lemma_spec_log_seq_push(m, s.take(k), x, now);
        lemma_log_seq_keeps_state(m, s.take(k), now);
        lemma_log_byte_keeps_state(spec_log_seq(m, s.take(k), now), x, now);
        assert(spec_log_byte(spec_log_seq(m, s.take(k), now), x, now).state is Idle);
        assert(spec_step(mk, x, now) =~~= spec_log_seq(m, s.take(k).push(x), now));
    }
}

proof fn lemma_steps_skip(m: ParserModel, s: Seq<u8>, now: u64)
    requires
        (m.state matches ParseState::Skip { remaining } && remaining == s.len()),
        s.len() >= 1,
    ensures
        spec_steps(m, s, now) == (ParserModel { state: ParseState::Idle, ..m }),
    decreases s.len(),
{
    let m1 = spec_step(m, s[0], now);
    if s.len() == 1 {
        assert(m1 =~~= (ParserModel { state: ParseState::Idle, ..m }));
        assert(s.skip(1) =~= Seq::<u8>::empty());
        assert(spec_steps(m, s, now) == spec_steps(m1, s.skip(1), now));
    } else {
        assert(m1 =~~= (ParserModel {
            state: ParseState::Skip { remaining: (s.len() - 1) as usize },
            ..m
        }));
        lemma_steps_skip(m1, s.skip(1), now);
        assert(spec_steps(m, s, now) == spec_steps(m1, s.skip(1), now));
        assert((ParserModel { state: ParseState::Idle, ..m1 }) =~~= (ParserModel {
            state: ParseState::Idle,
            ..m
        }));
    }
}

/// Skip accounting: a frame whose declared length fails the size checks
/// makes the parser consume exactly the declared body length plus the four
/// CRC bytes and return to idle, counting one size error; the skipped bytes
/// are not logged and the inbox is untouched.
#[verifier::rlimit(100)]
pub proof fn lemma_malformed_length_skip(
    m: ParserModel,
    code: u8,
    lo: u8,
    hi: u8,
    junk: Seq<u8>,
    now: u64,
)
    requires
        m.state is Idle,
        ({
            let size = (lo as usize) | ((hi as usize) << 8);
            12 + size > 4096 || (12 + size) % 4 != 0
        }),
        junk.len() == ((lo as usize) | ((hi as usize) << 8)) + 4,
        m.size_err < u64::MAX,
    ensures
        spec_steps(m, sig_rx_bytes() + seq![code, code ^ 0xFF, lo, hi] + junk, now)
            == (ParserModel {
            state: ParseState::Idle,
            code: code,
            expected: (lo as usize) | ((hi as usize) << 8),
            size_err: (m.size_err + 1) as u64,
            body: Seq::empty(),
            crc_buf: Seq::empty(),
            remaining: 0,
            incomplete: 0,
            ..m
        }),
{
    let size = (lo as usize) | ((hi as usize) << 8);
    lemma_or_shl8(lo as usize, hi);
    let hdr = seq![code, code ^ 0xFF, lo, hi];
    let f = sig_rx_bytes() + hdr + junk;
    assert(f =~= sig_rx_bytes() + (hdr + junk));
    lemma_spec_steps_concat(m, sig_rx_bytes(), hdr + junk, now);
    lemma_steps_sig(m, now);
    let mA = spec_steps(m, sig_rx_bytes(), now);
    lemma_spec_steps_concat(mA, hdr, junk, now);
    let m1 = spec_step(mA, hdr[0], now);
    assert(m1 =~~= (ParserModel { code: code, state: ParseState::HeaderCodeInv, ..mA }));
    let m2 = spec_step(m1, hdr[1], now);
    assert(m2 =~~= (ParserModel { code: code, state: ParseState::HeaderLenLo, ..mA }));
    let m3 = spec_step(m2, hdr[2], now);
    assert(m3 =~~= (ParserModel {
        code: code,
        expected: lo as usize,
        state: ParseState::HeaderLenHi,
        ..mA
    }));
    let m4 = spec_step(m3, hdr[3], now);
    assert(m4 =~~= (ParserModel {
        code: code,
        expected: size,
        size_err: sat_add64(m.size_err, 1),
        state: ParseState::Skip { remaining: (size + 4) as usize },
        remaining: 0,
        incomplete: 0,
        body: Seq::empty(),
        crc_buf: Seq::empty(),
        ..mA
    }));
    let h1 = hdr.skip(1);
    let h2 = h1.skip(1);
    let h3 = h2.skip(1);
    assert(h1[0] == hdr[1] && h2[0] == hdr[2] && h3[0] == hdr[3]);
    assert(h3.skip(1) =~= Seq::<u8>::empty());
    assert(spec_steps(mA, hdr, now) == spec_steps(m1, h1, now));
    assert(spec_steps(m1, h1, now) == spec_steps(m2, h2, now));
    assert(spec_steps(m2, h2, now) == spec_steps(m3, h3, now));
    assert(spec_steps(m3, h3, now) == spec_steps(m4, h3.skip(1), now));
    assert(spec_steps(m4, h3.skip(1), now) == m4);
    lemma_steps_skip(m4, junk, now);
    assert(spec_steps(m, f, now) =~~= (ParserModel {
        state: ParseState::Idle,
        code: code,
        expected: size,
        size_err: (m.size_err + 1) as u64,
        body: Seq::empty(),
        crc_buf: Seq::empty(),
        remaining: 0,
        incomplete: 0,
        ..m
    }));
}

proof fn lemma_log_byte_keeps_inbox(m: ParserModel, b: u8, now: u64)
    ensures
        spec_log_byte(m, b, now).inbox == m.inbox,
{
}

proof fn lemma_log_seq_keeps_inbox(m: ParserModel, s: Seq<u8>, now: u64)
    ensures
        spec_log_seq(m, s, now).inbox == m.inbox,
    decreases s.len(),
{
    if s.len() > 0 {
        lemma_log_byte_keeps_inbox(m, s[0], now);
        lemma_log_seq_keeps_inbox(spec_log_byte(m, s[0], now), s.skip(1), now);
    }
}

/// No single input byte changes how many queues the inbox has.
pub proof fn lemma_step_keeps_inbox_len(m: ParserModel, x: u8, now: u64)
    ensures
        spec_step(m, x, now).inbox.len() == m.inbox.len(),
{
    match m.state {
        ParseState::Idle => {
            lemma_log_byte_keeps_inbox(m, x, now);
        },
        ParseState::WaitSignature { matched } => {
            let m1 = spec_log_seq(m, sig_rx_bytes().take(matched as int), now);
            lemma_log_seq_keeps_inbox(m, sig_rx_bytes().take(matched as int), now);
            lemma_log_byte_keeps_inbox(ParserModel { state: ParseState::Idle, ..m1 }, x, now);
        },
        _ => {},
    }
}

/// No run of input bytes changes how many queues the inbox has.
pub proof fn lemma_steps_keep_inbox_len(m: ParserModel, s: Seq<u8>, now: u64)
    ensures
        spec_steps(m, s, now).inbox.len() == m.inbox.len(),
    decreases s.len(),
{
    if s.len() > 0 {
        lemma_step_keeps_inbox_len(m, s[0], now);
        lemma_steps_keep_inbox_len(spec_step(m, s[0], now), s.skip(1), now);
    }
}

/// The inactivity check never touches the inbox.
pub proof fn lemma_tick_keeps_inbox(m: ParserModel, now: u64)
    ensures
        spec_tick(m, now).inbox == m.inbox,
{
}

} // verus!
