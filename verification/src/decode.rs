//! The event-stream byte format and its decoder.
//!
//! A stream is a 12-byte header — a 4-byte magic followed by the announced
//! record count as a little-endian u64 — and then fixed-size records. Each
//! record is 13 bytes: a kind byte, the absolute event time in nanoseconds
//! as a little-endian u64, and the raw message as a little-endian u32.
//!
//! A record whose kind byte is unknown, or whose time runs backward, is a
//! recoverable decode error: it is skipped and counted, and decoding goes
//! on. Bytes running out before the announced record count is met is an
//! unrecoverable error: the stream is truncated and the session is over.
//! Both timeline variants are proved against the one specification-level
//! decoding written here, which is what makes them interchangeable.

use vstd::prelude::*;

use crate::events::MidiEvent;

verus! {

/// Header length in bytes: the magic and the announced record count.
pub const HEADER_LEN: usize = 12;

/// Record length in bytes: kind, time, message.
pub const RECORD_LEN: usize = 13;

/// The kind byte of a well-formed event record.
pub const EVENT_RECORD_KIND: u8 = 1;

/// First magic byte.
pub const MAGIC_0: u8 = 77;

/// Second magic byte.
pub const MAGIC_1: u8 = 84;

/// Third magic byte.
pub const MAGIC_2: u8 = 76;

/// Fourth magic byte.
pub const MAGIC_3: u8 = 78;

/// What goes wrong with a stream: a header this crate does not recognize
/// (fatal at load, no engine is created), or a stream that ends before its
/// announced record count (fatal for the session).
#[derive(Clone, Copy, Debug, PartialEq, Eq, Structural)]
pub enum MidiError {
    MalformedHeader,
    TruncatedStream,
}

/// The little-endian u32 at offset `i`.
pub open spec fn spec_le_u32(b: Seq<u8>, i: int) -> int {
    b[i] + 0x100 * b[i + 1] + 0x1_0000 * b[i + 2] + 0x100_0000 * b[i + 3]
}

/// The little-endian u64 at offset `i`.
pub open spec fn spec_le_u64(b: Seq<u8>, i: int) -> int {
    b[i] + 0x100 * b[i + 1] + 0x1_0000 * b[i + 2] + 0x100_0000 * b[i + 3] + 0x1_0000_0000 * b[i + 4]
        + 0x100_0000_0000 * b[i + 5] + 0x1_0000_0000_0000 * b[i + 6] + 0x100_0000_0000_0000 * b[i
        + 7]
}

/// One attempt at the record at byte offset `pos`.
#[derive(Clone, Copy, Debug, PartialEq, Eq, Structural)]
pub enum DecodeStep {
    /// A well-formed record carrying this event.
    Event(MidiEvent),
    /// A malformed record: skipped and counted, decoding goes on behind it.
    Malformed,
    /// The bytes end inside the record: the stream is truncated.
    Truncated,
}

/// Decoding one record at `pos`, where `last` is the time of the latest
/// well-formed event so far: truncated if fewer than a record's worth of
/// bytes remain; malformed on an unknown kind byte or a time running
/// backward; otherwise the event.
pub open spec fn spec_step(b: Seq<u8>, pos: int, last: u64) -> DecodeStep {
    if pos + RECORD_LEN > b.len() {
        DecodeStep::Truncated
    } else if b[pos] != EVENT_RECORD_KIND {
        DecodeStep::Malformed
    } else if spec_le_u64(b, pos + 1) < last {
        DecodeStep::Malformed
    } else {
        DecodeStep::Event(
            MidiEvent {
                time: spec_le_u64(b, pos + 1) as u64,
                message: spec_le_u32(b, pos + 9) as u32,
            },
        )
    }
}

/// The events of the `cnt` records from `pos` on, with malformed records
/// skipped and decoding cut short at a truncation.
pub open spec fn spec_decode_events(b: Seq<u8>, pos: int, cnt: nat, last: u64) -> Seq<MidiEvent>
    decreases cnt,
{
    if cnt == 0 {
        Seq::empty()
    } else {
        match spec_step(b, pos, last) {
            DecodeStep::Truncated => Seq::empty(),
            DecodeStep::Malformed => spec_decode_events(
                b,
                pos + RECORD_LEN,
                (cnt - 1) as nat,
                last,
            ),
            DecodeStep::Event(e) => seq![e] + spec_decode_events(
                b,
                pos + RECORD_LEN,
                (cnt - 1) as nat,
                e.time,
            ),
        }
    }
}

/// Whether all `cnt` records from `pos` on fit in the bytes: false exactly
/// when decoding runs into a truncation.
pub open spec fn spec_decode_ok(b: Seq<u8>, pos: int, cnt: nat, last: u64) -> bool
    decreases cnt,
{
    if cnt == 0 {
        true
    } else {
        match spec_step(b, pos, last) {
            DecodeStep::Truncated => false,
            DecodeStep::Malformed => spec_decode_ok(b, pos + RECORD_LEN, (cnt - 1) as nat, last),
            DecodeStep::Event(e) => spec_decode_ok(b, pos + RECORD_LEN, (cnt - 1) as nat, e.time),
        }
    }
}

/// How many of the `cnt` records from `pos` on are malformed and skipped.
pub open spec fn spec_decode_skips(b: Seq<u8>, pos: int, cnt: nat, last: u64) -> nat
    decreases cnt,
{
    if cnt == 0 {
        0
    } else {
        match spec_step(b, pos, last) {
            DecodeStep::Truncated => 0,
            DecodeStep::Malformed => 1 + spec_decode_skips(
                b,
                pos + RECORD_LEN,
                (cnt - 1) as nat,
                last,
            ),
            DecodeStep::Event(e) => spec_decode_skips(
                b,
                pos + RECORD_LEN,
                (cnt - 1) as nat,
                e.time,
            ),
        }
    }
}

/// Whether the stream opens with a well-formed header.
pub open spec fn spec_header_ok(b: Seq<u8>) -> bool {
    &&& b.len() >= HEADER_LEN
    &&& b[0] == MAGIC_0
    &&& b[1] == MAGIC_1
    &&& b[2] == MAGIC_2
    &&& b[3] == MAGIC_3
}

/// The record count the header announces.
pub open spec fn spec_announced(b: Seq<u8>) -> nat {
    spec_le_u64(b, 4) as nat
}

/// The full event sequence of a stream: every well-formed record behind a
/// well-formed header, in order.
pub open spec fn spec_file_events(b: Seq<u8>) -> Seq<MidiEvent> {
    spec_decode_events(b, HEADER_LEN as int, spec_announced(b), 0)
}

/// A stream that decodes to the end: well-formed header and no truncation.
pub open spec fn spec_file_ok(b: Seq<u8>) -> bool {
    spec_header_ok(b) && spec_decode_ok(b, HEADER_LEN as int, spec_announced(b), 0)
}

/// Event times never decrease along the decoded sequence.
pub open spec fn sorted_by_time(s: Seq<MidiEvent>) -> bool {
    forall|i: int, j: int| 0 <= i <= j < s.len() ==> s[i].time <= s[j].time
}

/// What decoding yields is sorted by time, and all of it at or after
/// `last`.
pub proof fn lemma_decode_sorted(b: Seq<u8>, pos: int, cnt: nat, last: u64)
    ensures
        sorted_by_time(spec_decode_events(b, pos, cnt, last)),
        forall|i: int|
            0 <= i < spec_decode_events(b, pos, cnt, last).len() ==> spec_decode_events(
                b,
                pos,
                cnt,
                last,
            )[i].time >= last,
    decreases cnt,
{
    if cnt > 0 {
        match spec_step(b, pos, last) {
            DecodeStep::Truncated => {},
            DecodeStep::Malformed => {
                lemma_decode_sorted(b, pos + RECORD_LEN, (cnt - 1) as nat, last);
            },
            DecodeStep::Event(e) => {
                lemma_decode_sorted(b, pos + RECORD_LEN, (cnt - 1) as nat, e.time);
            },
        }
    }
}

/// Decoding consumes a record's worth of bytes per event, so the decoded
/// length is bounded by both the record count and the bytes available.
pub proof fn lemma_decode_len(b: Seq<u8>, pos: int, cnt: nat, last: u64)
    requires
        0 <= pos <= b.len(),
    ensures
        spec_decode_events(b, pos, cnt, last).len() <= cnt,
        spec_decode_events(b, pos, cnt, last).len() * RECORD_LEN <= b.len() - pos,
    decreases cnt,
{
    if cnt > 0 {
        match spec_step(b, pos, last) {
            DecodeStep::Truncated => {},
            DecodeStep::Malformed => {
                lemma_decode_len(b, pos + RECORD_LEN, (cnt - 1) as nat, last);
            },
            DecodeStep::Event(e) => {
                lemma_decode_len(b, pos + RECORD_LEN, (cnt - 1) as nat, e.time);
                assert((spec_decode_events(b, pos, cnt, last).len()) * RECORD_LEN
                    == spec_decode_events(b, pos + RECORD_LEN, (cnt - 1) as nat, e.time).len()
                    * RECORD_LEN + RECORD_LEN) by (nonlinear_arith)
                    requires
                        spec_decode_events(b, pos, cnt, last).len() == 1 + spec_decode_events(
                            b,
                            pos + RECORD_LEN,
                            (cnt - 1) as nat,
                            e.time,
                        ).len(),
                ;
            },
        }
    }
}

/// Reads the little-endian u32 at offset `i`.
pub fn read_le_u32(bytes: &Vec<u8>, i: usize) -> (r: u32)
    requires
        i + 4 <= bytes@.len(),
    ensures
        r == spec_le_u32(bytes@, i as int),
{
    let n = bytes.len();
    (bytes[i] as u32) + 0x100 * (bytes[i + 1] as u32) + 0x1_0000 * (bytes[i + 2] as u32)
        + 0x100_0000 * (bytes[i + 3] as u32)
}

/// Reads the little-endian u64 at offset `i`.
pub fn read_le_u64(bytes: &Vec<u8>, i: usize) -> (r: u64)
    requires
        i + 8 <= bytes@.len(),
    ensures
        r == spec_le_u64(bytes@, i as int),
{
    let n = bytes.len();
    (bytes[i] as u64) + 0x100 * (bytes[i + 1] as u64) + 0x1_0000 * (bytes[i + 2] as u64)
        + 0x100_0000 * (bytes[i + 3] as u64) + 0x1_0000_0000 * (bytes[i + 4] as u64)
        + 0x100_0000_0000 * (bytes[i + 5] as u64) + 0x1_0000_0000_0000 * (bytes[i + 6] as u64)
        + 0x100_0000_0000_0000 * (bytes[i + 7] as u64)
}

/// Decodes the record at `pos`, exactly as the specification-level
/// decoding reads it.
pub fn decode_step(bytes: &Vec<u8>, pos: usize, last: u64) -> (r: DecodeStep)
    requires
        pos <= bytes@.len(),
    ensures
        r == spec_step(bytes@, pos as int, last),
{
    if bytes.len() - pos < RECORD_LEN {
        DecodeStep::Truncated
    } else if bytes[pos] != EVENT_RECORD_KIND {
        DecodeStep::Malformed
    } else {
        let time = read_le_u64(bytes, pos + 1);
        if time < last {
            DecodeStep::Malformed
        } else {
            let message = read_le_u32(bytes, pos + 9);
            DecodeStep::Event(MidiEvent { time, message })
        }
    }
}

/// Checks the header: the magic must match and the announced count must be
/// present.
pub fn check_header(bytes: &Vec<u8>) -> (r: Result<u64, MidiError>)
    ensures
        match r {
            Ok(cnt) => spec_header_ok(bytes@) && cnt == spec_announced(bytes@),
            Err(e) => e == MidiError::MalformedHeader && !spec_header_ok(bytes@),
        },
{
    if bytes.len() < HEADER_LEN {
        Err(MidiError::MalformedHeader)
    } else if bytes[0] != MAGIC_0 || bytes[1] != MAGIC_1 || bytes[2] != MAGIC_2 || bytes[3]
        != MAGIC_3 {
        Err(MidiError::MalformedHeader)
    } else {
        Ok(read_le_u64(bytes, 4))
    }
}

/// The little-endian u64 of any eight in-range bytes fits a u64.
pub proof fn lemma_le_u64_bounds(b: Seq<u8>, i: int)
    requires
        0 <= i,
        i + 8 <= b.len(),
    ensures
        0 <= spec_le_u64(b, i) < 0x1_0000_0000_0000_0000,
{
}

/// A step that yields an event sits wholly inside the bytes and never
/// turns time backward.
pub proof fn lemma_step_event_time(b: Seq<u8>, pos: int, last: u64, e: MidiEvent)
    requires
        0 <= pos,
        spec_step(b, pos, last) == DecodeStep::Event(e),
    ensures
        e.time >= last,
        pos + RECORD_LEN <= b.len(),
{
    lemma_le_u64_bounds(b, pos + 1);
}

} // verus!
