//! The playback engine: composes the clock, one timeline variant, the
//! audio dispatch facade and the note color state, tick by tick.
//!
//! The renderer drives `tick` once per displayed frame. Each tick reads
//! the clock; when time moved forward, every event that came due is
//! pulled from the timeline, dispatched to the audio facade and folded
//! into the note color state and the statistics. When time moved
//! backward (a seek), the backend is reset, the color state cleared and
//! the timeline re-synchronized, so nothing already heard is dispatched
//! again. A truncated stream halts the session; the statistics counters
//! account for every note that passed through.

use vstd::prelude::*;

use crate::audio_playback::{DispatchView, SimpleTemporaryPlayer};
use crate::clock::PlaybackClock;
use crate::colors::{NoteColorState, KEY_COUNT};
use crate::decode::{sorted_by_time, spec_file_events, spec_file_ok, spec_header_ok, MidiError};
use crate::events::{
    lemma_active_le_len, lemma_on_count_le_len, spec_active, spec_counted, spec_is_note_off,
    spec_is_note_on, spec_key, spec_on_count, MidiEvent, NoteColor,
};
use crate::settings::MidiLoading;
use crate::timeline::{
    lemma_advance_props, spec_advance, spec_sync_pos, BufferedTimeline, StreamedTimeline, Timeline,
};

verus! {

/// The statistics snapshot the renderer shows each frame.
#[derive(Clone, Copy, Debug, PartialEq, Eq, Structural)]
pub struct PlaybackStats {
    /// Counted note-ons in the whole stream, fixed at load.
    pub total_notes: u64,
    /// Counted note-ons accepted by the backend in the current forward
    /// pass.
    pub notes_rendered: u64,
    /// Live voice count of the backend; 0 without telemetry.
    pub voice_count: u64,
}

/// How many palette entries the engine selects colors from: one per MIDI
/// channel.
pub const PALETTE_LEN: usize = 16;

/// The playback engine. Owns the clock, the timeline, the audio dispatch
/// facade and the note color state from open to close.
pub struct PlaybackEngine {
    clock: PlaybackClock,
    timeline: Timeline,
    player: SimpleTemporaryPlayer,
    colors: NoteColorState,
    palette: Vec<NoteColor>,
    last_time: u64,
    last_now: u64,
    total_notes: u64,
    length: Option<u64>,
    halted: bool,
    base: Ghost<int>,
}

impl PlaybackEngine {
    /// The full event sequence of the loaded stream.
    pub closed spec fn events(&self) -> Seq<MidiEvent> {
        self.timeline.full_events()
    }

    /// The index of the next undispatched event.
    pub closed spec fn position(&self) -> int {
        self.timeline.dispatched()
    }

    /// The index at which the current forward pass began: 0 at load, the
    /// re-synchronized cursor after each backward seek.
    pub closed spec fn pass_base(&self) -> int {
        self.base@
    }

    /// The media time the last tick reached.
    pub closed spec fn last_media(&self) -> u64 {
        self.last_time
    }

    /// The largest wall reading seen so far; callers pass non-decreasing
    /// readings of one monotonic clock.
    pub closed spec fn wall_floor(&self) -> u64 {
        self.last_now
    }

    /// Whether an unrecoverable decode failure ended the session.
    pub closed spec fn is_halted(&self) -> bool {
        self.halted
    }

    /// Counted note-ons in the whole stream, fixed at load.
    pub closed spec fn total(&self) -> u64 {
        self.total_notes
    }

    /// The abstract state of the audio dispatch facade.
    pub closed spec fn player_view(&self) -> DispatchView {
        self.player.view()
    }

    /// The playable length: the last event's time for the buffered
    /// variant, unknown for the streamed one.
    pub closed spec fn media_len(&self) -> Option<u64> {
        self.length
    }

    /// The logical position the clock reports at wall reading `now`.
    pub closed spec fn clock_time(&self, now: u64) -> u64 {
        self.clock.spec_time(now)
    }

    /// Whether the clock is advancing.
    pub closed spec fn clock_running(&self) -> bool {
        self.clock.running()
    }

    /// The active-note count a key shows.
    pub closed spec fn key_count(&self, k: int) -> u64 {
        self.colors.count(k)
    }

    /// The color a key shows; `None` means silent.
    pub closed spec fn key_color(&self, k: int) -> Option<NoteColor> {
        self.colors.color(k)
    }

    /// Lower bound of the velocity-ignore range.
    pub open spec fn vel_lo(&self) -> u8 {
        self.player_view().vel_lo
    }

    /// Upper bound of the velocity-ignore range.
    pub open spec fn vel_hi(&self) -> u8 {
        self.player_view().vel_hi
    }

    /// The events of the current forward pass: dispatched since the pass
    /// began.
    pub open spec fn pass_events(&self) -> Seq<MidiEvent> {
        self.events().subrange(self.pass_base(), self.position())
    }

    /// Nothing due at the reached media time is still pending: pulling
    /// again at the same time would move nothing.
    pub open spec fn settled(&self) -> bool {
        self.position() == spec_advance(self.events(), self.position(), self.last_media())
    }

    /// The engine invariant. Besides well-formedness of the parts it ties
    /// the statistics and the color state exactly to the events of the
    /// current forward pass: every counted note-on since the pass began
    /// was either accepted or dropped, and each key's active count is the
    /// fold of the pass's note-ons and note-offs for it.
    pub closed spec fn wf(&self) -> bool {
        &&& self.timeline.wf()
        &&& self.clock.anchor() <= self.last_now
        &&& self.colors.wf()
        &&& self.total() as nat == spec_on_count(self.events(), self.vel_lo(), self.vel_hi())
        &&& !self.is_halted() ==> {
            &&& 0 <= self.pass_base() <= self.position() <= self.events().len()
            &&& self.player_view().ons_accepted + self.player_view().ons_dropped == spec_on_count(
                self.pass_events(),
                self.vel_lo(),
                self.vel_hi(),
            )
            &&& forall|k: int|
                0 <= k < KEY_COUNT ==> self.key_count(k) as nat == spec_active(
                    self.pass_events(),
                    self.vel_lo(),
                    self.vel_hi(),
                    k,
                )
        }
        &&& self.is_halted() == self.timeline.has_failed()
        &&& self.palette@.len() == PALETTE_LEN
    }

    /// Opens a stream for playback: counts the notes, builds the chosen
    /// timeline variant, resets the backend it takes over (so voices of a
    /// previous file are flushed) and starts paused at position zero.
    /// Load errors create no engine: a malformed header in either
    /// variant; a truncated stream at load in the buffered variant, while
    /// the streamed one would only find truncation mid-playback.
    pub fn open(
        bytes: Vec<u8>,
        loading: MidiLoading,
        player: SimpleTemporaryPlayer,
        palette: Vec<NoteColor>,
    ) -> (r: Result<PlaybackEngine, MidiError>)
        requires
            palette@.len() == PALETTE_LEN,
        ensures
            match r {
                Ok(eng) => {
                    &&& eng.wf()
                    &&& !eng.is_halted()
                    &&& eng.events() == spec_file_events(bytes@)
                    &&& eng.total() as nat == spec_on_count(
                        spec_file_events(bytes@),
                        player.view().vel_lo,
                        player.view().vel_hi,
                    )
                    &&& eng.position() == 0
                    &&& eng.pass_base() == 0
                    &&& eng.last_media() == 0
                    &&& eng.wall_floor() == 0
                    &&& !eng.clock_running()
                    &&& eng.player_view() == player.view().after_reset()
                    &&& eng.media_len() == (match loading {
                        MidiLoading::Ram => Some(
                            if spec_file_events(bytes@).len() == 0 {
                                0u64
                            } else {
                                spec_file_events(bytes@).last().time
                            },
                        ),
                        MidiLoading::Live => None::<u64>,
                    })
                },
                Err(e) => match loading {
                    MidiLoading::Ram => (e == MidiError::MalformedHeader && !spec_header_ok(
                        bytes@,
                    )) || (e == MidiError::TruncatedStream && spec_header_ok(bytes@)
                        && !spec_file_ok(bytes@)),
                    MidiLoading::Live => e == MidiError::MalformedHeader && !spec_header_ok(
                        bytes@,
                    ),
                },
            },
    {
        let mut player = player;
        let total = match crate::timeline::count_stream_notes(
            &bytes,
            player.vel_ignore_lo(),
            player.vel_ignore_hi(),
        ) {
            Ok(c) => c,
            Err(e) => { return Err(e) },
        };
        let (timeline, length) = match loading {
            MidiLoading::Ram => {
                let t = match BufferedTimeline::load(&bytes) {
                    Ok(t) => t,
                    Err(e) => { return Err(e) },
                };
                let end = t.end_time();
                (Timeline::Buffered(t), Some(end))
            },
            MidiLoading::Live => {
                let t = match StreamedTimeline::open(bytes) {
                    Ok(t) => t,
                    Err(e) => { return Err(e) },
                };
                (Timeline::Streamed(t), None)
            },
        };
        player.reset();
        let colors = NoteColorState::new();
        let eng = PlaybackEngine {
            clock: PlaybackClock::new(),
            timeline,
            player,
            colors,
            palette,
            last_time: 0,
            last_now: 0,
            total_notes: total,
            length,
            halted: false,
            base: Ghost(0int),
        };
        proof {
            assert(eng.pass_events() =~= Seq::<MidiEvent>::empty());
            assert(spec_on_count(Seq::<MidiEvent>::empty(), eng.vel_lo(), eng.vel_hi()) == 0);
            assert forall|k: int|
                0 <= k < KEY_COUNT implies eng.key_count(k) as nat == spec_active(
                eng.pass_events(),
                eng.vel_lo(),
                eng.vel_hi(),
                k,
            ) by {
                assert(spec_active(Seq::<MidiEvent>::empty(), eng.vel_lo(), eng.vel_hi(), k) == 0);
            }
        }
        Ok(eng)
    }

    /// Resumes playback from the current position; idempotent while
    /// already playing.
    pub fn play(&mut self, now: u64)
        requires
            old(self).wf(),
            now >= old(self).wall_floor(),
        ensures
            final(self).wf(),
            final(self).clock_running(),
            final(self).clock_time(now) == old(self).clock_time(now),
            final(self).wall_floor() == now,
            final(self).frame_unchanged(*old(self)),
    {
        self.clock.play(now);
        self.last_now = now;
        proof {
            if !self.halted {
                assert forall|k: int|
                    0 <= k < KEY_COUNT implies self.key_count(k) as nat == spec_active(
                    self.pass_events(),
                    self.vel_lo(),
                    self.vel_hi(),
                    k,
                ) by {
                    assert(self.key_count(k) == old(self).key_count(k));
                    assert(old(self).key_count(k) as nat == spec_active(
                        old(self).pass_events(),
                        old(self).vel_lo(),
                        old(self).vel_hi(),
                        k,
                    ));
                }
            }
        }
    }

    /// Freezes playback at the current position; idempotent.
    pub fn pause(&mut self, now: u64)
        requires
            old(self).wf(),
            now >= old(self).wall_floor(),
        ensures
            final(self).wf(),
            !final(self).clock_running(),
            final(self).clock_time(now) == old(self).clock_time(now),
            final(self).wall_floor() == now,
            final(self).frame_unchanged(*old(self)),
    {
        self.clock.pause(now);
        self.last_now = now;
        proof {
            if !self.halted {
                assert forall|k: int|
                    0 <= k < KEY_COUNT implies self.key_count(k) as nat == spec_active(
                    self.pass_events(),
                    self.vel_lo(),
                    self.vel_hi(),
                    k,
                ) by {
                    assert(self.key_count(k) == old(self).key_count(k));
                    assert(old(self).key_count(k) as nat == spec_active(
                        old(self).pass_events(),
                        old(self).vel_lo(),
                        old(self).vel_hi(),
                        k,
                    ));
                }
            }
        }
    }

    /// Flips between playing and paused without moving the position.
    pub fn toggle_pause(&mut self, now: u64)
        requires
            old(self).wf(),
            now >= old(self).wall_floor(),
        ensures
            final(self).wf(),
            final(self).clock_running() == !old(self).clock_running(),
            final(self).clock_time(now) == old(self).clock_time(now),
            final(self).wall_floor() == now,
            final(self).frame_unchanged(*old(self)),
    {
        self.clock.toggle_pause(now);
        self.last_now = now;
        proof {
            if !self.halted {
                assert forall|k: int|
                    0 <= k < KEY_COUNT implies self.key_count(k) as nat == spec_active(
                    self.pass_events(),
                    self.vel_lo(),
                    self.vel_hi(),
                    k,
                ) by {
                    assert(self.key_count(k) == old(self).key_count(k));
                    assert(old(self).key_count(k) as nat == spec_active(
                        old(self).pass_events(),
                        old(self).vel_lo(),
                        old(self).vel_hi(),
                        k,
                    ));
                }
            }
        }
    }

    /// Moves the clock to `target` immediately, whatever the run state.
    /// The timeline cursor is not touched here: the next tick
    /// re-synchronizes it, and on a backward move also resets the backend
    /// and the color state.
    pub fn seek(&mut self, target: u64, now: u64)
        requires
            old(self).wf(),
            now >= old(self).wall_floor(),
        ensures
            final(self).wf(),
            final(self).clock_running() == old(self).clock_running(),
            final(self).clock_time(now) == target,
            final(self).wall_floor() == now,
            final(self).frame_unchanged(*old(self)),
    {
        self.clock.seek(target, now);
        self.last_now = now;
        proof {
            if !self.halted {
                assert forall|k: int|
                    0 <= k < KEY_COUNT implies self.key_count(k) as nat == spec_active(
                    self.pass_events(),
                    self.vel_lo(),
                    self.vel_hi(),
                    k,
                ) by {
                    assert(self.key_count(k) == old(self).key_count(k));
                    assert(old(self).key_count(k) as nat == spec_active(
                        old(self).pass_events(),
                        old(self).vel_lo(),
                        old(self).vel_hi(),
                        k,
                    ));
                }
            }
        }
    }

    /// What the clock operations leave untouched: everything but the
    /// clock and the wall floor.
    pub open spec fn frame_unchanged(&self, pre: PlaybackEngine) -> bool {
        &&& self.events() == pre.events()
        &&& self.position() == pre.position()
        &&& self.pass_base() == pre.pass_base()
        &&& self.last_media() == pre.last_media()
        &&& self.total() == pre.total()
        &&& self.player_view() == pre.player_view()
        &&& self.media_len() == pre.media_len()
        &&& self.is_halted() == pre.is_halted()
        &&& forall|k: int|
            0 <= k < KEY_COUNT ==> self.key_count(k) == pre.key_count(k) && self.key_color(k)
                == pre.key_color(k)
    }

    /// The current logical position of playback.
    pub fn get_time(&self, now: u64) -> (r: u64)
        requires
            self.wf(),
            now >= self.wall_floor(),
        ensures
            r == self.clock_time(now),
    {
        self.clock.get_time(now)
    }

    /// The playable length in nanoseconds: known for the buffered
    /// variant, unknown for the streamed one.
    pub fn midi_length(&self) -> (r: Option<u64>)
        ensures
            r == self.media_len(),
    {
        self.length
    }
}

impl PlaybackEngine {
    /// One per-frame tick. Reads the clock; when time moved forward (or
    /// stood still), dispatches every event that came due, in order; when
    /// time moved backward (a seek), first resets the backend, clears the
    /// note color state and re-synchronizes the timeline, so nothing
    /// already heard is dispatched again, then dispatches what is due at
    /// the new position. Never blocks: the backend drops, and counts,
    /// what it cannot accept. A truncated stream halts the session.
    ///
    /// The last `Ok` clause is the re-seek law: seeking to the reached
    /// time again and ticking dispatches nothing anew.
    #[verifier::loop_isolation(false)]
    #[verifier::rlimit(100)]
    pub fn tick(&mut self, now: u64) -> (r: Result<(), MidiError>)
        requires
            old(self).wf(),
            now >= old(self).wall_floor(),
        ensures
            final(self).wf(),
            final(self).events() == old(self).events(),
            final(self).total() == old(self).total(),
            final(self).media_len() == old(self).media_len(),
            final(self).clock_running() == old(self).clock_running(),
            forall|m: u64| final(self).clock_time(m) == old(self).clock_time(m),
            match r {
                Ok(()) => {
                    &&& !old(self).is_halted() && !final(self).is_halted()
                    &&& final(self).last_media() == old(self).clock_time(now)
                    &&& final(self).wall_floor() == now
                    &&& final(self).settled()
                    &&& (if old(self).clock_time(now) >= old(self).last_media() {
                        &&& final(self).pass_base() == old(self).pass_base()
                        &&& final(self).position() == spec_advance(
                            old(self).events(),
                            old(self).position(),
                            old(self).clock_time(now),
                        )
                        &&& final(self).player_view() == old(self).player_view().push_seq(
                            old(self).events().subrange(
                                old(self).position(),
                                final(self).position(),
                            ).map_values(|e: MidiEvent| e.message),
                        )
                    } else {
                        &&& final(self).pass_base() == spec_sync_pos(
                            old(self).events(),
                            old(self).clock_time(now),
                        )
                        &&& final(self).position() == spec_advance(
                            old(self).events(),
                            final(self).pass_base(),
                            old(self).clock_time(now),
                        )
                        &&& final(self).player_view()
                            == old(self).player_view().after_reset().push_seq(
                            old(self).events().subrange(
                                final(self).pass_base(),
                                final(self).position(),
                            ).map_values(|e: MidiEvent| e.message),
                        )
                    })
                    &&& (old(self).settled() && old(self).clock_time(now) == old(self).last_media()
                        ==> final(self).position() == old(self).position()
                            && final(self).player_view() == old(self).player_view())
                },
                Err(e) => e == MidiError::TruncatedStream && final(self).is_halted(),
            },
    {
        if self.halted {
            return Err(MidiError::TruncatedStream);
        }
        let t = self.clock.get_time(now);
        self.last_now = now;
        let ghost full = self.events();
        let ghost lo = self.vel_lo();
        let ghost hi = self.vel_hi();
        if t < self.last_time {
            self.player.reset();
            self.colors.clear();
            match self.timeline.resync(t) {
                Ok(()) => {},
                Err(e) => {
                    self.halted = true;
                    return Err(e);
                },
            }
            self.base = Ghost(self.timeline.dispatched());
            proof {
                assert(self.pass_events() =~= Seq::<MidiEvent>::empty());
                assert(spec_on_count(Seq::<MidiEvent>::empty(), lo, hi) == 0);
                assert forall|k: int|
                    0 <= k < KEY_COUNT implies self.key_count(k) as nat == spec_active(
                    self.pass_events(),
                    lo,
                    hi,
                    k,
                ) by {
                    assert(spec_active(Seq::<MidiEvent>::empty(), lo, hi, k) == 0);
                }
            }
        }
        let ghost dpre = self.timeline.dispatched();
        let ghost basei = self.base@;
        let ghost pv1 = self.player.view();
        proof {
            if t >= self.last_time {
                assert(full.subrange(basei, dpre) == old(self).pass_events());
                assert forall|k: int|
                    0 <= k < KEY_COUNT implies self.colors.count(k) as nat == spec_active(
                    full.subrange(basei, dpre),
                    lo,
                    hi,
                    k,
                ) by {
                    assert(old(self).key_count(k) as nat == spec_active(
                        old(self).pass_events(),
                        old(self).vel_lo(),
                        old(self).vel_hi(),
                        k,
                    ));
                    assert(self.colors.count(k) == old(self).key_count(k));
                }
            } else {
                assert(full.subrange(basei, dpre) == self.pass_events());
            }
        }
        let evs = match self.timeline.pull_due(t) {
            Ok(v) => v,
            Err(e) => {
                self.halted = true;
                return Err(e);
            },
        };
        let ghost d1 = self.timeline.dispatched();
        let ghost msgs = evs@.map_values(|e: MidiEvent| e.message);
        proof {
            lemma_advance_props(full, dpre, t);
            assert(dpre <= d1 <= full.len());
            assert(evs@.len() == d1 - dpre);
            assert(evs@ == full.subrange(dpre, dpre + evs@.len()));
        }
        dispatch_batch(
            &mut self.player,
            &mut self.colors,
            &self.palette,
            &evs,
            Ghost(full),
            Ghost(basei),
            Ghost(dpre),
        );
        self.last_time = t;
        proof {
            assert(full.subrange(basei, dpre + evs@.len() as int) =~= full.subrange(basei, d1));
            if d1 < full.len() {
                assert(full[d1].time > t);
            }
            assert(spec_advance(full, d1, t) == d1);
            if old(self).settled() && t == old(self).last_media() {
                assert(dpre == old(self).position());
                assert(d1 == dpre);
                assert(full.subrange(dpre, d1).len() == 0);
                assert(msgs =~= Seq::<u32>::empty());
                assert(pv1.push_seq(msgs) == pv1);
            }
        }
        Ok(())
    }
}

/// Dispatches one pulled batch of due events, in order: each message
/// goes to the audio facade, and each note-on and note-off folds into
/// the note color state. The statistics counters and the per-key counts
/// track the dispatched prefix exactly.
#[verifier::loop_isolation(false)]
#[verifier::rlimit(100)]
fn dispatch_batch(
    player: &mut SimpleTemporaryPlayer,
    colors: &mut NoteColorState,
    palette: &Vec<NoteColor>,
    evs: &Vec<MidiEvent>,
    Ghost(full): Ghost<Seq<MidiEvent>>,
    Ghost(basei): Ghost<int>,
    Ghost(dpre): Ghost<int>,
)
    requires
        old(colors).wf(),
        palette@.len() == PALETTE_LEN,
        0 <= basei <= dpre,
        dpre + evs@.len() <= full.len(),
        full.len() <= usize::MAX,
        evs@ == full.subrange(dpre, dpre + evs@.len()),
        old(player).view().ons_accepted + old(player).view().ons_dropped == spec_on_count(
            full.subrange(basei, dpre),
            old(player).view().vel_lo,
            old(player).view().vel_hi,
        ),
        forall|k: int|
            0 <= k < KEY_COUNT ==> old(colors).count(k) as nat == spec_active(
                full.subrange(basei, dpre),
                old(player).view().vel_lo,
                old(player).view().vel_hi,
                k,
            ),
    ensures
        final(colors).wf(),
        final(player).view().vel_lo == old(player).view().vel_lo,
        final(player).view().vel_hi == old(player).view().vel_hi,
        final(player).view() == old(player).view().push_seq(
            evs@.map_values(|e: MidiEvent| e.message),
        ),
        final(player).view().ons_accepted + final(player).view().ons_dropped == spec_on_count(
            full.subrange(basei, dpre + evs@.len()),
            old(player).view().vel_lo,
            old(player).view().vel_hi,
        ),
        forall|k: int|
            0 <= k < KEY_COUNT ==> final(colors).count(k) as nat == spec_active(
                full.subrange(basei, dpre + evs@.len()),
                old(player).view().vel_lo,
                old(player).view().vel_hi,
                k,
            ),
{
    let ghost lo = player.view().vel_lo;
    let ghost hi = player.view().vel_hi;
    let ghost pv1 = player.view();
    let ghost msgs = evs@.map_values(|e: MidiEvent| e.message);
    proof {
        assert(msgs.take(0) =~= Seq::<u32>::empty());
        assert(pv1.push_seq(msgs.take(0)) == pv1);
    }
    let mut i: usize = 0;
    while i < evs.len()
        invariant
            i <= evs@.len(),
            player.view() == pv1.push_seq(msgs.take(i as int)),
            player.view().vel_lo == lo,
            player.view().vel_hi == hi,
            player.view().ons_accepted + player.view().ons_dropped == spec_on_count(
                full.subrange(basei, dpre + i),
                lo,
                hi,
            ),
            colors.wf(),
            forall|k: int|
                0 <= k < KEY_COUNT ==> colors.count(k) as nat == spec_active(
                    full.subrange(basei, dpre + i),
                    lo,
                    hi,
                    k,
                ),
        decreases evs@.len() - i,
    {
        let e = evs[i];
        let ghost seen = full.subrange(basei, dpre + i);
        proof {
            assert(e == full.subrange(dpre, dpre + evs@.len())[i as int]);
            assert(e == full[dpre + i]);
            assert(seen.push(e) =~= full.subrange(basei, dpre + i + 1));
            crate::events::lemma_on_count_push(seen, e, lo, hi);
            lemma_on_count_le_len(seen, lo, hi);
            assert(msgs[i as int] == e.message);
            assert(msgs.take(i as int).push(e.message) =~= msgs.take(i + 1));
            pv1.lemma_push_seq_snoc(msgs.take(i as int), e.message);
        }
        player.push_event(e.message);
        let key = crate::events::key_of(e.message);
        let suppressed = player.is_suppressed(e.message);
        if crate::events::is_note_on(e.message) && !suppressed {
            if key < 128 {
                proof {
                    lemma_active_le_len(seen, lo, hi, key as int);
                }
                let color = palette[crate::events::channel_of(e.message) as usize];
                colors.note_on(key as usize, color);
            }
        } else if crate::events::is_note_off(e.message) {
            if key < 128 {
                colors.note_off(key as usize);
            }
        }
        proof {
            let ext = full.subrange(basei, dpre + i + 1);
            assert(ext.drop_last() =~= seen);
            assert(ext.last() == e);
            assert forall|k: int|
                0 <= k < KEY_COUNT implies colors.count(k) as nat == spec_active(
                ext,
                lo,
                hi,
                k,
            ) by {
                assert(spec_active(ext, lo, hi, k) == {
                    let prev = spec_active(seen, lo, hi, k);
                    let m = e.message;
                    if spec_counted(m, lo, hi) && spec_key(m) == k {
                        prev + 1
                    } else if spec_is_note_off(m) && spec_key(m) == k {
                        if prev > 0 {
                            (prev - 1) as nat
                        } else {
                            0
                        }
                    } else {
                        prev
                    }
                });
            }
        }
        i += 1;
    }
    proof {
        assert(msgs.take(evs@.len() as int) =~= msgs);
    }
}

impl PlaybackEngine {
    /// The statistics snapshot for the stats display: fixed total, live
    /// rendered count, live voice count (0 for backends without
    /// telemetry).
    pub fn stats(&self) -> (r: PlaybackStats)
        ensures
            r.total_notes == self.total(),
            r.notes_rendered == self.player_view().ons_accepted,
            r.voice_count == if self.player_view().xsynth {
                self.player_view().voices
            } else {
                0u64
            },
    {
        PlaybackStats {
            total_notes: self.total_notes,
            notes_rendered: self.player.notes_accepted(),
            voice_count: self.player.get_voice_count(),
        }
    }

    /// The color the keyboard shows for a key; `None` means silent.
    pub fn color_of_key(&self, key: usize) -> (r: Option<NoteColor>)
        requires
            self.wf(),
            key < KEY_COUNT,
        ensures
            r == self.key_color(key as int),
    {
        self.colors.get(key)
    }

    /// The active-note count of a key.
    pub fn active_notes_of_key(&self, key: usize) -> (r: u64)
        requires
            self.wf(),
            key < KEY_COUNT,
        ensures
            r == self.key_count(key as int),
    {
        self.colors.active_count(key)
    }

    /// Events dropped so far at the backend handoff.
    pub fn events_dropped(&self) -> (r: u64)
        ensures
            r == self.player_view().dropped,
    {
        self.player.events_dropped()
    }

    /// Counted note-ons dropped since the pass began.
    pub fn notes_dropped(&self) -> (r: u64)
        ensures
            r == self.player_view().ons_dropped,
    {
        self.player.notes_dropped()
    }

    /// How often the backend has been reset.
    pub fn backend_resets(&self) -> (r: u64)
        ensures
            r == self.player_view().resets,
    {
        self.player.resets()
    }

    /// Hands the audio side everything pending in the handoff, in order.
    pub fn drain_audio(&mut self) -> (r: Vec<u32>)
        requires
            old(self).wf(),
        ensures
            final(self).wf(),
            r@ == old(self).player_view().pending,
            final(self).player_view() == (DispatchView {
                pending: Seq::empty(),
                ..old(self).player_view()
            }),
            final(self).frame_except_player(*old(self)),
    {
        let r = self.player.drain();
        proof {
            self.lemma_refresh(*old(self));
        }
        r
    }

    /// Stores the polyphony telemetry the audio side read from the
    /// backend; a no-op for backends without telemetry.
    pub fn report_voice_count(&mut self, voices: u64)
        requires
            old(self).wf(),
        ensures
            final(self).wf(),
            final(self).player_view() == if old(self).player_view().xsynth {
                (DispatchView { voices, ..old(self).player_view() })
            } else {
                old(self).player_view()
            },
            final(self).frame_except_player(*old(self)),
    {
        self.player.report_voice_count(voices);
        proof {
            self.lemma_refresh(*old(self));
        }
    }

    /// Applies a layer limit; a no-op for backends without runtime
    /// reconfiguration.
    pub fn set_layer_count(&mut self, layers: Option<usize>)
        requires
            old(self).wf(),
        ensures
            final(self).wf(),
            final(self).player_view() == if old(self).player_view().xsynth {
                (DispatchView { layers, ..old(self).player_view() })
            } else {
                old(self).player_view()
            },
            final(self).frame_except_player(*old(self)),
    {
        self.player.set_layer_count(layers);
        proof {
            self.lemma_refresh(*old(self));
        }
    }

    /// Swaps the soundfont; a no-op for backends without soundfonts.
    pub fn set_soundfont(&mut self, path: &str)
        requires
            old(self).wf(),
        ensures
            final(self).wf(),
            final(self).player_view() == if old(self).player_view().xsynth {
                (DispatchView { soundfont: path@, ..old(self).player_view() })
            } else {
                old(self).player_view()
            },
            final(self).frame_except_player(*old(self)),
    {
        self.player.set_soundfont(path);
        proof {
            self.lemma_refresh(*old(self));
        }
    }

    /// What the player-only operations leave untouched.
    pub open spec fn frame_except_player(&self, pre: PlaybackEngine) -> bool {
        &&& self.events() == pre.events()
        &&& self.position() == pre.position()
        &&& self.pass_base() == pre.pass_base()
        &&& self.last_media() == pre.last_media()
        &&& self.wall_floor() == pre.wall_floor()
        &&& self.total() == pre.total()
        &&& self.media_len() == pre.media_len()
        &&& self.is_halted() == pre.is_halted()
        &&& self.clock_running() == pre.clock_running()
        &&& forall|m: u64| self.clock_time(m) == pre.clock_time(m)
        &&& forall|k: int|
            0 <= k < KEY_COUNT ==> self.key_count(k) == pre.key_count(k) && self.key_color(k)
                == pre.key_color(k)
    }

    /// Re-establishes the color-state invariant after an operation that
    /// left the timeline, the colors and the counters alone.
    proof fn lemma_refresh(&self, pre: PlaybackEngine)
        requires
            pre.wf(),
            self.colors == pre.colors,
            self.timeline == pre.timeline,
            self.base == pre.base,
            self.halted == pre.halted,
            self.player_view().vel_lo == pre.player_view().vel_lo,
            self.player_view().vel_hi == pre.player_view().vel_hi,
        ensures
            !self.is_halted() ==> forall|k: int|
                0 <= k < KEY_COUNT ==> self.key_count(k) as nat == spec_active(
                    self.pass_events(),
                    self.vel_lo(),
                    self.vel_hi(),
                    k,
                ),
    {
        if !self.is_halted() {
            assert forall|k: int|
                0 <= k < KEY_COUNT implies self.key_count(k) as nat == spec_active(
                self.pass_events(),
                self.vel_lo(),
                self.vel_hi(),
                k,
            ) by {
                assert(pre.key_count(k) as nat == spec_active(
                    pre.pass_events(),
                    pre.vel_lo(),
                    pre.vel_hi(),
                    k,
                ));
                assert(self.key_count(k) == pre.key_count(k));
            }
        }
    }

    /// Tears the session down: the backend receives a reset before the
    /// timeline goes away, and survives for the next file.
    pub fn close(self) -> (p: SimpleTemporaryPlayer)
        ensures
            p.view() == self.player_view().after_reset(),
    {
        let mut p = self.player;
        p.reset();
        p
    }

    /// Law: no note vanishes unaccounted. Once a forward pass from the
    /// top has dispatched the whole stream, every counted note-on was
    /// either accepted by the backend or dropped at the handoff and
    /// counted there: `total_notes - notes_rendered` is exactly the
    /// dropped-note count, so it never exceeds what the drop counter
    /// recorded.
    pub proof fn lemma_no_note_vanishes(&self)
        requires
            self.wf(),
            !self.is_halted(),
            self.pass_base() == 0,
            self.position() == self.events().len(),
        ensures
            self.total() == self.player_view().ons_accepted + self.player_view().ons_dropped,
            self.total() - self.player_view().ons_accepted == self.player_view().ons_dropped,
    {
        assert(self.pass_events() =~= self.events());
    }

    /// Law: playing the whole stream forward without drops makes the
    /// rendered count converge to the total reported at load.
    pub proof fn lemma_rendered_converges(&self)
        requires
            self.wf(),
            !self.is_halted(),
            self.pass_base() == 0,
            self.position() == self.events().len(),
            self.player_view().ons_dropped == 0,
        ensures
            self.player_view().ons_accepted == self.total(),
    {
        self.lemma_no_note_vanishes();
    }

    /// Law: a key is never shown silent while an unmatched note-on for it
    /// has been dispatched in the current pass and no matching note-off
    /// has arrived: a nonzero per-key active count always shows a color.
    pub proof fn lemma_active_key_shown(&self, k: int)
        requires
            self.wf(),
            !self.is_halted(),
            0 <= k < KEY_COUNT,
            spec_active(self.pass_events(), self.vel_lo(), self.vel_hi(), k) > 0,
        ensures
            self.key_color(k) is Some,
    {
        assert(self.key_count(k) > 0);
        self.colors.lemma_active_key_shown(k);
    }

    /// Law, the converse direction: a key with no unmatched note-on in
    /// the current pass is shown silent. A backward seek starts the pass
    /// empty, so right after one every key reads `None` until a new
    /// note-on arrives.
    pub proof fn lemma_inactive_key_silent(&self, k: int)
        requires
            self.wf(),
            !self.is_halted(),
            0 <= k < KEY_COUNT,
            spec_active(self.pass_events(), self.vel_lo(), self.vel_hi(), k) == 0,
        ensures
            self.key_color(k) is None,
    {
        assert(self.key_count(k) == 0);
        self.colors.lemma_inactive_key_clear(k);
    }

    /// The loaded stream is sorted by time, so the batch a tick
    /// dispatches is exactly the events of the traversed time interval.
    pub proof fn lemma_events_sorted(&self)
        requires
            self.wf(),
        ensures
            sorted_by_time(self.events()),
    {
    }

    /// Law: within a single forward-playing interval the reported time
    /// is monotone and never negative. Ticks preserve the clock, so this
    /// chains across frames until the next pause or seek.
    pub proof fn lemma_get_time_monotonic(&self, n1: u64, n2: u64)
        requires
            self.wf(),
            self.clock_running(),
            self.wall_floor() <= n1 <= n2,
        ensures
            self.clock_time(n1) <= self.clock_time(n2),
            self.clock_time(n1) >= 0,
    {
        self.clock.lemma_time_monotonic(n1, n2);
    }
}

} // verus!
