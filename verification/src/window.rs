//! The window-side state that is not drawing: ownership of the loaded
//! playback engine, the keyboard widget's identity, and the sliding
//! frame-rate window. Pixel layout and widget trees are the embedding
//! application's business; this module owns the data they read.

use vstd::prelude::*;

use crate::audio_playback::SimpleTemporaryPlayer;
use crate::engine::PlaybackEngine;

verus! {

/// How far back the frame-rate window reaches, in nanoseconds.
pub const FPS_WINDOW_NANOS: u64 = 500_000_000;

/// The on-screen keyboard widget. Geometry and drawing live with the
/// embedding application; the keys' colors come from the engine's note
/// color state.
pub struct GuiKeyboard {}

impl GuiKeyboard {
    /// A new keyboard widget.
    pub fn new() -> GuiKeyboard {
        GuiKeyboard {  }
    }
}

/// Trims every sample older than the window from the front.
pub open spec fn spec_trim(s: Seq<u64>, now: u64) -> Seq<u64>
    decreases s.len(),
{
    if s.len() > 0 && now - s[0] > FPS_WINDOW_NANOS {
        spec_trim(s.skip(1), now)
    } else {
        s
    }
}

/// A sliding window of frame timestamps, for the frames-per-second
/// display: one sample per rendered frame, samples older than the window
/// dropped.
pub struct Fps {
    samples: Vec<u64>,
    head: usize,
}

impl Fps {
    /// The retained samples, oldest first.
    pub closed spec fn samples(&self) -> Seq<u64> {
        self.samples@.skip(self.head as int)
    }

    /// Well-formed: the cursor is in range and samples never decrease.
    pub closed spec fn wf(&self) -> bool {
        &&& self.head <= self.samples@.len()
        &&& forall|i: int, j: int|
            0 <= i <= j < self.samples().len() ==> self.samples()[i] <= self.samples()[j]
    }

    /// The newest sample, or 0 before the first frame.
    pub open spec fn newest(&self) -> u64 {
        if self.samples().len() == 0 {
            0
        } else {
            self.samples().last()
        }
    }

    /// An empty window.
    pub fn new() -> (r: Fps)
        ensures
            r.wf(),
            r.samples().len() == 0,
    {
        Fps { samples: Vec::new(), head: 0 }
    }

    /// Records a frame at wall reading `now` and drops every sample older
    /// than the window. Callers pass non-decreasing readings of one
    /// monotonic clock.
    #[verifier::loop_isolation(false)]
    pub fn update(&mut self, now: u64)
        requires
            old(self).wf(),
            now >= old(self).newest(),
        ensures
            final(self).wf(),
            final(self).samples() == spec_trim(old(self).samples().push(now), now),
            final(self).newest() == now,
            final(self).samples().len() > 0,
            forall|i: int, j: int|
                0 <= i <= j < final(self).samples().len()
                    ==> final(self).samples()[i] <= final(self).samples()[j],
            forall|i: int|
                0 <= i < final(self).samples().len() ==> now - final(self).samples()[i]
                    <= FPS_WINDOW_NANOS,
    {
        let ghost start = self.samples().push(now);
        self.samples.push(now);
        proof {
            assert(self.samples@.skip(self.head as int) =~= start);
        }
        let n = self.samples.len();
        proof {
            assert(self.samples@[n - 1] == now);
        }
        while self.head < n && now - self.samples[self.head] > FPS_WINDOW_NANOS
            invariant
                self.samples@.len() == n,
                self.head < n,
                self.samples@ == old(self).samples@.push(now),
                forall|i: int, j: int|
                    0 <= i <= j < self.samples().len() ==> self.samples()[i] <= self.samples()[j],
                self.samples().last() == now,
                spec_trim(start, now) == spec_trim(self.samples(), now),
            decreases n - self.head,
        {
            proof {
                assert(self.samples()[0] == self.samples@[self.head as int]);
                assert(self.samples().skip(1) =~= self.samples@.skip(self.head + 1));
                assert(self.samples@[n - 1] == now);
            }
            self.head += 1;
        }
        proof {
            assert(self.samples()[0] == self.samples@[self.head as int]);
        }
        proof {
            assert(spec_trim(self.samples(), now) == self.samples());
            assert(self.samples().len() > 0);
            assert(self.samples().last() == now);
            assert forall|i: int|
                0 <= i < self.samples().len() implies now - self.samples()[i]
                <= FPS_WINDOW_NANOS by {
                assert(self.samples()[0] <= self.samples()[i]);
            }
        }
    }

    /// How many frames the window holds.
    pub fn sample_count(&self) -> (r: usize)
        requires
            self.wf(),
        ensures
            r == self.samples().len(),
    {
        self.samples.len() - self.head
    }

    /// The oldest retained frame time, if any: the frame-rate display
    /// divides the sample count by the span from here to now.
    pub fn oldest(&self) -> (r: Option<u64>)
        requires
            self.wf(),
        ensures
            r == if self.samples().len() == 0 {
                Option::<u64>::None
            } else {
                Some(self.samples()[0])
            },
    {
        if self.head < self.samples.len() {
            Some(self.samples[self.head])
        } else {
            None
        }
    }
}

/// The window's model state: the keyboard widget, the frame-rate window,
/// and ownership of the loaded file's engine. The engine is created on
/// open, handed out on close, and never shared: the embedding
/// application's render loop drives it through these fields.
pub struct GuiWasabiWindow {
    /// The keyboard widget.
    pub keyboard: GuiKeyboard,
    /// The loaded file's playback engine, if one is open.
    pub midi_file: Option<PlaybackEngine>,
    /// The frame-rate window.
    pub fps: Fps,
}

impl GuiWasabiWindow {
    /// A fresh window with no file loaded.
    pub fn new() -> (r: GuiWasabiWindow)
        ensures
            r.midi_file is None,
            r.fps.wf(),
            r.fps.samples().len() == 0,
    {
        GuiWasabiWindow { keyboard: GuiKeyboard::new(), midi_file: None, fps: Fps::new() }
    }

    /// Takes ownership of a freshly opened engine, dropping any previous
    /// one after its backend got the closing reset.
    pub fn set_midi_file(&mut self, engine: PlaybackEngine) -> (r: Option<SimpleTemporaryPlayer>)
        ensures
            final(self).midi_file == Some(engine),
            final(self).fps == old(self).fps,
            match r {
                Some(p) => old(self).midi_file is Some && p.view() == old(
                    self,
                ).midi_file->Some_0.player_view().after_reset(),
                None => old(self).midi_file is None,
            },
    {
        let prev = self.midi_file.take();
        self.midi_file = Some(engine);
        match prev {
            Some(e) => Some(e.close()),
            None => None,
        }
    }

    /// Closes the loaded file, if any: the backend receives a reset
    /// before the engine's timeline is torn down, and survives for the
    /// next file.
    pub fn close_midi_file(&mut self) -> (r: Option<SimpleTemporaryPlayer>)
        ensures
            final(self).midi_file is None,
            final(self).fps == old(self).fps,
            match r {
                Some(p) => old(self).midi_file is Some && p.view() == old(
                    self,
                ).midi_file->Some_0.player_view().after_reset(),
                None => old(self).midi_file is None,
            },
    {
        match self.midi_file.take() {
            Some(e) => Some(e.close()),
            None => None,
        }
    }
}

} // verus!
