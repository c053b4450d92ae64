//! The event model: time-tagged raw MIDI messages and the accessors that
//! read their packed fields.
//!
//! A raw message is packed into a `u32` exactly as the audio backends take
//! it: byte 0 is the status byte (high nibble: kind, low nibble: channel),
//! byte 1 the key, byte 2 the velocity.

use vstd::prelude::*;

verus! {

/// One time-tagged MIDI event. `time` is the absolute event time in
/// nanoseconds from the start of the stream; `message` is the raw MIDI
/// message the audio backend receives.
#[derive(Clone, Copy, Debug, PartialEq, Eq, Structural)]
pub struct MidiEvent {
    pub time: u64,
    pub message: u32,
}

/// An RGB color attached to a sounding key, consumed by keyboard rendering.
#[derive(Clone, Copy, Debug, PartialEq, Eq, Structural)]
pub struct NoteColor {
    pub red: u8,
    pub green: u8,
    pub blue: u8,
}

/// The status byte of a packed message.
pub open spec fn spec_status(msg: u32) -> u32 {
    msg % 256
}

/// The kind nibble of a packed message: 8 is note-off, 9 is note-on.
pub open spec fn spec_kind(msg: u32) -> u32 {
    (msg % 256) / 16
}

/// The channel nibble of a packed message, always below 16.
pub open spec fn spec_channel(msg: u32) -> u32 {
    msg % 16
}

/// The key byte of a packed message.
pub open spec fn spec_key(msg: u32) -> u32 {
    (msg / 256) % 256
}

/// The velocity byte of a packed message.
pub open spec fn spec_velocity(msg: u32) -> u32 {
    (msg / 65536) % 256
}

/// A note-on: kind nibble 9 with nonzero velocity. A kind-9 message with
/// velocity zero means note-off, as MIDI defines it.
pub open spec fn spec_is_note_on(msg: u32) -> bool {
    spec_kind(msg) == 9 && spec_velocity(msg) != 0
}

/// A note-off: kind nibble 8, or kind nibble 9 with velocity zero.
pub open spec fn spec_is_note_off(msg: u32) -> bool {
    spec_kind(msg) == 8 || (spec_kind(msg) == 9 && spec_velocity(msg) == 0)
}

/// The channel nibble, executable.
pub fn channel_of(msg: u32) -> (r: u32)
    ensures
        r == spec_channel(msg),
        r < 16,
{
    msg % 16
}

/// The key byte, executable.
pub fn key_of(msg: u32) -> (r: u32)
    ensures
        r == spec_key(msg),
        r < 256,
{
    (msg / 256) % 256
}

/// The velocity byte, executable.
pub fn velocity_of(msg: u32) -> (r: u32)
    ensures
        r == spec_velocity(msg),
        r < 256,
{
    (msg / 65536) % 256
}

/// Whether the message is a note-on, executable.
pub fn is_note_on(msg: u32) -> (r: bool)
    ensures
        r == spec_is_note_on(msg),
{
    (msg % 256) / 16 == 9 && (msg / 65536) % 256 != 0
}

/// Whether the message is a note-off, executable.
pub fn is_note_off(msg: u32) -> (r: bool)
    ensures
        r == spec_is_note_off(msg),
{
    let kind = (msg % 256) / 16;
    kind == 8 || (kind == 9 && (msg / 65536) % 256 == 0)
}

/// Packs kind, channel, key and velocity into a raw message, the inverse of
/// the accessors above.
pub fn make_message(kind: u8, channel: u8, key: u8, velocity: u8) -> (r: u32)
    requires
        kind < 16,
    ensures
        spec_kind(r) == kind,
        spec_channel(r) == channel % 16,
        spec_key(r) == key,
        spec_velocity(r) == velocity,
{
    let status: u32 = (kind as u32) * 16 + (channel as u32) % 16;
    let r: u32 = status + (key as u32) * 256 + (velocity as u32) * 65536;
    proof {
        assert(spec_kind(r) == kind && spec_channel(r) == channel % 16 && spec_key(r) == key
            && spec_velocity(r) == velocity) by (nonlinear_arith)
            requires
                status == kind * 16 + channel % 16,
                r == status + key * 256 + velocity * 65536,
                kind < 16,
                channel < 256,
                key < 256,
                velocity < 256,
        {
        }
    }
    r
}

/// Whether a message counts toward the note statistics: a note-on whose
/// velocity survives the inclusive ignore range `lo..=hi`.
pub open spec fn spec_counted(msg: u32, lo: u8, hi: u8) -> bool {
    spec_is_note_on(msg) && !(lo <= spec_velocity(msg) <= hi)
}

/// How many counted note-ons a sequence of events holds.
pub open spec fn spec_on_count(s: Seq<MidiEvent>, lo: u8, hi: u8) -> nat
    decreases s.len(),
{
    if s.len() == 0 {
        0
    } else {
        spec_on_count(s.drop_last(), lo, hi) + if spec_counted(s.last().message, lo, hi) {
            1nat
        } else {
            0nat
        }
    }
}

/// The per-key active-note count after dispatching a sequence of events
/// in order: each counted note-on for the key raises it, each note-off
/// for the key lowers it, never below zero.
pub open spec fn spec_active(s: Seq<MidiEvent>, lo: u8, hi: u8, k: int) -> nat
    decreases s.len(),
{
    if s.len() == 0 {
        0
    } else {
        let prev = spec_active(s.drop_last(), lo, hi, k);
        let m = s.last().message;
        if spec_counted(m, lo, hi) && spec_key(m) == k {
            prev + 1
        } else if spec_is_note_off(m) && spec_key(m) == k {
            if prev > 0 {
                (prev - 1) as nat
            } else {
                0
            }
        } else {
            prev
        }
    }
}

/// The note count never exceeds the number of events.
pub proof fn lemma_on_count_le_len(s: Seq<MidiEvent>, lo: u8, hi: u8)
    ensures
        spec_on_count(s, lo, hi) <= s.len(),
    decreases s.len(),
{
    if s.len() > 0 {
        lemma_on_count_le_len(s.drop_last(), lo, hi);
    }
}

/// The active count never exceeds the number of events.
pub proof fn lemma_active_le_len(s: Seq<MidiEvent>, lo: u8, hi: u8, k: int)
    ensures
        spec_active(s, lo, hi, k) <= s.len(),
    decreases s.len(),
{
    if s.len() > 0 {
        lemma_active_le_len(s.drop_last(), lo, hi, k);
    }
}

/// Counting one more event on the right adds its contribution.
pub proof fn lemma_on_count_push(s: Seq<MidiEvent>, e: MidiEvent, lo: u8, hi: u8)
    ensures
        spec_on_count(s.push(e), lo, hi) == spec_on_count(s, lo, hi) + if spec_counted(
            e.message,
            lo,
            hi,
        ) {
            1nat
        } else {
            0nat
        },
{
    assert(s.push(e).drop_last() =~= s);
    assert(s.push(e).last() == e);
}

/// Counting one more event on the left adds its contribution.
pub proof fn lemma_on_count_prepend(e: MidiEvent, s: Seq<MidiEvent>, lo: u8, hi: u8)
    ensures
        spec_on_count(seq![e] + s, lo, hi) == spec_on_count(s, lo, hi) + if spec_counted(
            e.message,
            lo,
            hi,
        ) {
            1nat
        } else {
            0nat
        },
    decreases s.len(),
{
    if s.len() == 0 {
        assert((seq![e] + s).drop_last() =~= Seq::<MidiEvent>::empty());
        assert((seq![e] + s).last() == e);
        assert(spec_on_count(Seq::<MidiEvent>::empty(), lo, hi) == 0);
        assert(spec_on_count(s, lo, hi) == 0);
    } else {
        lemma_on_count_prepend(e, s.drop_last(), lo, hi);
        assert((seq![e] + s).drop_last() =~= seq![e] + s.drop_last());
        assert((seq![e] + s).last() == s.last());
    }
}

} // verus!
