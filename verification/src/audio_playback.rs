//! The audio dispatch facade: routes raw MIDI messages to one of two
//! interchangeable synthesizer backends through a non-blocking, bounded
//! handoff.
//!
//! The backend kind is chosen once at construction and fixed for the
//! session. Accepted messages are queued in a bounded buffer that the
//! audio side drains; when the buffer is full the message is dropped and
//! counted, never blocking the caller. Note-ons whose velocity falls in
//! the configured ignore range are suppressed before dispatch. Operations
//! a backend does not support (layer limits, soundfont swaps, polyphony
//! telemetry) are explicit no-ops for that backend, not errors.

use vstd::prelude::*;

use crate::events::{spec_is_note_on, spec_velocity};

verus! {

/// Which synthesizer backend drives the audio. The XSynth variant carries
/// the soundfont path it was started with; KDMAPI needs no configuration.
pub enum AudioPlayerType {
    XSynth(String),
    Kdmapi,
}

/// How many events the handoff buffer holds by default.
pub const DEFAULT_EVENT_CAPACITY: usize = 4096;

/// Bumps a diagnostic counter, sticking at the maximum instead of wrapping.
pub open spec fn spec_bump(c: u64) -> u64 {
    if c == u64::MAX {
        c
    } else {
        (c + 1) as u64
    }
}

/// The abstract state of the dispatch facade: everything its contracts
/// speak of, free of representation detail.
pub struct DispatchView {
    /// Whether the XSynth backend is active (otherwise KDMAPI).
    pub xsynth: bool,
    /// The messages pending in the bounded handoff, oldest first.
    pub pending: Seq<u32>,
    /// The handoff capacity.
    pub capacity: nat,
    /// Lower bound of the inclusive velocity-ignore range.
    pub vel_lo: u8,
    /// Upper bound of the inclusive velocity-ignore range.
    pub vel_hi: u8,
    /// Messages dropped because the handoff was full.
    pub dropped: u64,
    /// Note-ons suppressed by the velocity-ignore range.
    pub suppressed: u64,
    /// Note-ons accepted into the handoff since the last reset.
    pub ons_accepted: u64,
    /// Note-ons dropped at the handoff since the last reset.
    pub ons_dropped: u64,
    /// The voice count last reported by the backend's telemetry.
    pub voices: u64,
    /// The layer limit last applied; `None` means unlimited.
    pub layers: Option<usize>,
    /// The soundfont path last applied.
    pub soundfont: Seq<char>,
    /// How often the backend was reset.
    pub resets: u64,
    /// Every message ever accepted into the handoff, across drains and
    /// resets.
    pub log: Seq<u32>,
}

impl DispatchView {
    /// Whether a message is suppressed before dispatch: a note-on whose
    /// velocity lies in the inclusive ignore range.
    pub open spec fn suppresses(self, msg: u32) -> bool {
        spec_is_note_on(msg) && self.vel_lo <= spec_velocity(msg) <= self.vel_hi
    }

    /// A note-on that survives the velocity filter: what `total_notes`
    /// counts and what the rendered/dropped accounting tracks.
    pub open spec fn counts_as_note(self, msg: u32) -> bool {
        spec_is_note_on(msg) && !self.suppresses(msg)
    }

    /// The whole one-message dispatch transition: suppression, bounded
    /// accept, or counted drop.
    pub open spec fn push1(self, msg: u32) -> DispatchView {
        if self.suppresses(msg) {
            DispatchView { suppressed: spec_bump(self.suppressed), ..self }
        } else if self.pending.len() < self.capacity {
            DispatchView {
                pending: self.pending.push(msg),
                ons_accepted: if spec_is_note_on(msg) {
                    spec_bump(self.ons_accepted)
                } else {
                    self.ons_accepted
                },
                log: self.log.push(msg),
                ..self
            }
        } else {
            DispatchView {
                dropped: spec_bump(self.dropped),
                ons_dropped: if spec_is_note_on(msg) {
                    spec_bump(self.ons_dropped)
                } else {
                    self.ons_dropped
                },
                ..self
            }
        }
    }

    /// The state after pushing a whole sequence of messages in order.
    pub open spec fn push_seq(self, msgs: Seq<u32>) -> DispatchView
        decreases msgs.len(),
    {
        if msgs.len() == 0 {
            self
        } else {
            self.push_seq(msgs.drop_last()).push1(msgs.last())
        }
    }

    /// Pushing a sequence and then one more message equals pushing the
    /// extended sequence.
    pub proof fn lemma_push_seq_snoc(self, msgs: Seq<u32>, msg: u32)
        ensures
            self.push_seq(msgs.push(msg)) == self.push_seq(msgs).push1(msg),
    {
        assert(msgs.push(msg).drop_last() =~= msgs);
        assert(msgs.push(msg).last() == msg);
    }

    /// The state after a reset: handoff emptied, per-pass counters and
    /// telemetry zeroed, reset count bumped; session counters and the
    /// accepted log stay.
    pub open spec fn after_reset(self) -> DispatchView {
        DispatchView {
            pending: Seq::empty(),
            ons_accepted: 0,
            ons_dropped: 0,
            voices: 0,
            resets: spec_bump(self.resets),
            ..self
        }
    }

    /// The state every constructor establishes: empty handoff, zeroed
    /// counters, no layer limit, empty soundfont path.
    pub open spec fn initial(xsynth: bool, capacity: nat, vel_lo: u8, vel_hi: u8) -> DispatchView {
        DispatchView {
            xsynth,
            pending: Seq::empty(),
            capacity,
            vel_lo,
            vel_hi,
            dropped: 0,
            suppressed: 0,
            ons_accepted: 0,
            ons_dropped: 0,
            voices: 0,
            layers: None,
            soundfont: Seq::empty(),
            resets: 0,
            log: Seq::empty(),
        }
    }
}

/// The facade over the active synthesizer backend.
///
/// Holds the bounded handoff queue, the velocity-ignore range fixed at
/// construction, and the live statistics counters the engine and the
/// stats display read.
pub struct SimpleTemporaryPlayer {
    player_type: AudioPlayerType,
    queue: Vec<u32>,
    capacity: usize,
    vel_ignore_lo: u8,
    vel_ignore_hi: u8,
    dropped: u64,
    suppressed: u64,
    ons_accepted: u64,
    ons_dropped: u64,
    voices: u64,
    layers: Option<usize>,
    soundfont: String,
    reset_count: u64,
    history: Ghost<Seq<u32>>,
}

impl SimpleTemporaryPlayer {
    /// The abstract state the contracts speak of.
    pub closed spec fn view(&self) -> DispatchView {
        DispatchView {
            xsynth: self.player_type is XSynth,
            pending: self.queue@,
            capacity: self.capacity as nat,
            vel_lo: self.vel_ignore_lo,
            vel_hi: self.vel_ignore_hi,
            dropped: self.dropped,
            suppressed: self.suppressed,
            ons_accepted: self.ons_accepted,
            ons_dropped: self.ons_dropped,
            voices: self.voices,
            layers: self.layers,
            soundfont: self.soundfont@,
            resets: self.reset_count,
            log: self.history@,
        }
    }

    /// A new facade for the given backend, with the default handoff
    /// capacity and an empty velocity-ignore range (which ignores
    /// nothing).
    pub fn new(player_type: AudioPlayerType) -> (r: SimpleTemporaryPlayer)
        ensures
            r.view() == DispatchView::initial(
                player_type is XSynth,
                DEFAULT_EVENT_CAPACITY as nat,
                1u8,
                0u8,
            ),
    {
        SimpleTemporaryPlayer::with_config(player_type, DEFAULT_EVENT_CAPACITY, 1, 0)
    }

    /// A new facade with an explicit handoff capacity and velocity-ignore
    /// range (inclusive; an empty range, `lo > hi`, ignores nothing).
    pub fn with_config(player_type: AudioPlayerType, capacity: usize, vel_lo: u8, vel_hi: u8) -> (r:
        SimpleTemporaryPlayer)
        ensures
            r.view() == DispatchView::initial(
                player_type is XSynth,
                capacity as nat,
                vel_lo,
                vel_hi,
            ),
    {
        SimpleTemporaryPlayer {
            player_type,
            queue: Vec::new(),
            capacity,
            vel_ignore_lo: vel_lo,
            vel_ignore_hi: vel_hi,
            dropped: 0,
            suppressed: 0,
            ons_accepted: 0,
            ons_dropped: 0,
            voices: 0,
            layers: None,
            soundfont: String::new(),
            reset_count: 0,
            history: Ghost(Seq::empty()),
        }
    }

    /// The live voice count. Reads the last telemetry the XSynth backend
    /// reported; backends without polyphony telemetry (KDMAPI) yield 0
    /// rather than failing.
    pub fn get_voice_count(&self) -> (r: u64)
        ensures
            r == if self.view().xsynth {
                self.view().voices
            } else {
                0u64
            },
    {
        match self.player_type {
            AudioPlayerType::XSynth(..) => self.voices,
            AudioPlayerType::Kdmapi => 0,
        }
    }

    /// Stores the polyphony telemetry the audio side read from the
    /// backend. A no-op for backends without telemetry.
    pub fn report_voice_count(&mut self, voices: u64)
        ensures
            final(self).view() == if old(self).view().xsynth {
                DispatchView { voices, ..old(self).view() }
            } else {
                old(self).view()
            },
    {
        if let AudioPlayerType::XSynth(..) = self.player_type {
            self.voices = voices;
        }
    }

    /// Forwards one raw MIDI message to the active backend: suppressed by
    /// the velocity filter, accepted into the bounded handoff, or dropped
    /// and counted when the handoff is full. Never blocks the caller.
    pub fn push_event(&mut self, data: u32)
        ensures
            final(self).view() == old(self).view().push1(data),
    {
        let vel = crate::events::velocity_of(data);
        if crate::events::is_note_on(data) && self.vel_ignore_lo as u32 <= vel && vel
            <= self.vel_ignore_hi as u32 {
            self.suppressed = bump(self.suppressed);
        } else if self.queue.len() < self.capacity {
            self.queue.push(data);
            if crate::events::is_note_on(data) {
                self.ons_accepted = bump(self.ons_accepted);
            }
            proof {
                self.history@ = self.history@.push(data);
            }
        } else {
            self.dropped = bump(self.dropped);
            if crate::events::is_note_on(data) {
                self.ons_dropped = bump(self.ons_dropped);
            }
        }
    }

    /// Forwards a batch of raw messages in order, each as `push_event`
    /// does.
    pub fn push_events(&mut self, data: &Vec<u32>)
        ensures
            final(self).view() == old(self).view().push_seq(data@),
    {
        let ghost start = self.view();
        let mut i: usize = 0;
        while i < data.len()
            invariant
                i <= data@.len(),
                self.view() == start.push_seq(data@.take(i as int)),
            decreases data@.len() - i,
        {
            proof {
                assert(data@.take(i as int).push(data@[i as int]) =~= data@.take(i + 1));
                start.lemma_push_seq_snoc(data@.take(i as int), data@[i as int]);
            }
            self.push_event(data[i]);
            i += 1;
        }
        proof {
            assert(data@.take(data@.len() as int) =~= data@);
        }
    }

    /// Forces all active voices off immediately: empties the handoff,
    /// zeroes the voice telemetry and the per-pass note-on counters, and
    /// records that a reset reached the backend. Safe to call at any time.
    pub fn reset(&mut self)
        ensures
            final(self).view() == old(self).view().after_reset(),
    {
        self.queue.clear();
        self.ons_accepted = 0;
        self.ons_dropped = 0;
        self.voices = 0;
        self.reset_count = bump(self.reset_count);
    }

    /// Applies a layer limit. XSynth stores and uses it; KDMAPI does not
    /// support runtime reconfiguration, so the call is a no-op rather than
    /// an error.
    pub fn set_layer_count(&mut self, layers: Option<usize>)
        ensures
            final(self).view() == if old(self).view().xsynth {
                DispatchView { layers, ..old(self).view() }
            } else {
                old(self).view()
            },
    {
        if let AudioPlayerType::XSynth(..) = self.player_type {
            self.layers = layers;
        }
    }

    /// Swaps the soundfont. XSynth stores the new path and reloads from
    /// it; KDMAPI does not support soundfonts, so the call is a no-op
    /// rather than an error.
    pub fn set_soundfont(&mut self, path: &str)
        ensures
            final(self).view() == if old(self).view().xsynth {
                DispatchView { soundfont: path@, ..old(self).view() }
            } else {
                old(self).view()
            },
    {
        if let AudioPlayerType::XSynth(..) = self.player_type {
            self.soundfont = path.to_owned();
        }
    }

    /// Hands the audio side everything pending in the handoff, in order,
    /// emptying it.
    pub fn drain(&mut self) -> (r: Vec<u32>)
        ensures
            r@ == old(self).view().pending,
            final(self).view() == (DispatchView { pending: Seq::empty(), ..old(self).view() }),
    {
        let mut out: Vec<u32> = Vec::new();
        core::mem::swap(&mut out, &mut self.queue);
        out
    }

    /// Messages dropped so far because the handoff was full.
    pub fn events_dropped(&self) -> (r: u64)
        ensures
            r == self.view().dropped,
    {
        self.dropped
    }

    /// Note-ons suppressed so far by the velocity-ignore range.
    pub fn events_suppressed(&self) -> (r: u64)
        ensures
            r == self.view().suppressed,
    {
        self.suppressed
    }

    /// Note-ons accepted since the last reset.
    pub fn notes_accepted(&self) -> (r: u64)
        ensures
            r == self.view().ons_accepted,
    {
        self.ons_accepted
    }

    /// Note-ons dropped since the last reset.
    pub fn notes_dropped(&self) -> (r: u64)
        ensures
            r == self.view().ons_dropped,
    {
        self.ons_dropped
    }

    /// The layer limit last applied; `None` means unlimited.
    pub fn layer_count(&self) -> (r: Option<usize>)
        ensures
            r == self.view().layers,
    {
        self.layers
    }

    /// The soundfont path last applied.
    pub fn soundfont_path(&self) -> (r: &str)
        ensures
            r@ == self.view().soundfont,
    {
        self.soundfont.as_str()
    }

    /// How often the backend has been reset.
    pub fn resets(&self) -> (r: u64)
        ensures
            r == self.view().resets,
    {
        self.reset_count
    }

    /// Lower bound of the velocity-ignore range.
    pub fn vel_ignore_lo(&self) -> (r: u8)
        ensures
            r == self.view().vel_lo,
    {
        self.vel_ignore_lo
    }

    /// Upper bound of the velocity-ignore range.
    pub fn vel_ignore_hi(&self) -> (r: u8)
        ensures
            r == self.view().vel_hi,
    {
        self.vel_ignore_hi
    }

    /// Whether the message would be suppressed by the velocity filter.
    pub fn is_suppressed(&self, msg: u32) -> (r: bool)
        ensures
            r == self.view().suppresses(msg),
    {
        let vel = crate::events::velocity_of(msg);
        crate::events::is_note_on(msg) && self.vel_ignore_lo as u32 <= vel && vel
            <= self.vel_ignore_hi as u32
    }
}

/// Bumps a diagnostic counter, sticking at the maximum instead of wrapping.
pub fn bump(c: u64) -> (r: u64)
    ensures
        r == spec_bump(c),
{
    if c == u64::MAX {
        c
    } else {
        c + 1
    }
}

} // verus!
