//! Per-key "currently sounding" state, consumed by keyboard rendering.
//!
//! Overlapping notes on one key are handled with a per-key active count,
//! not a boolean: a key goes silent only when as many note-offs as
//! note-ons have arrived for it. A note-on always shows the color of the
//! most recent note; a note-off clears the color only when it closes the
//! last active note on that key.

use vstd::prelude::*;

use crate::events::NoteColor;

verus! {

/// The number of MIDI keys tracked.
pub const KEY_COUNT: usize = 128;

/// Maps each MIDI key to its active-note count and, while that count is
/// nonzero, the color to paint the key with.
pub struct NoteColorState {
    counts: Vec<u64>,
    colors: Vec<Option<NoteColor>>,
}

impl NoteColorState {
    /// The active-note count of a key.
    pub closed spec fn count(&self, key: int) -> u64 {
        self.counts@[key]
    }

    /// The color shown for a key; `None` means silent/default.
    pub closed spec fn color(&self, key: int) -> Option<NoteColor> {
        self.colors@[key]
    }

    /// Well-formed: one slot per key, and a key shows a color exactly while
    /// its active count is nonzero.
    pub closed spec fn wf(&self) -> bool {
        &&& self.counts@.len() == KEY_COUNT
        &&& self.colors@.len() == KEY_COUNT
        &&& forall|k: int|
            0 <= k < KEY_COUNT ==> ((self.count(k) == 0) <==> self.color(k) is None)
    }

    /// All keys silent.
    pub open spec fn all_clear(&self) -> bool {
        forall|k: int| 0 <= k < KEY_COUNT ==> self.count(k) == 0 && self.color(k) is None
    }

    /// A fresh state with every key silent.
    pub fn new() -> (r: NoteColorState)
        ensures
            r.wf(),
            r.all_clear(),
    {
        let mut counts: Vec<u64> = Vec::new();
        let mut colors: Vec<Option<NoteColor>> = Vec::new();
        let mut i: usize = 0;
        while i < KEY_COUNT
            invariant
                i <= KEY_COUNT,
                counts@.len() == i,
                colors@.len() == i,
                forall|k: int| 0 <= k < i ==> counts@[k] == 0 && colors@[k] is None,
            decreases KEY_COUNT - i,
        {
            counts.push(0);
            colors.push(None);
            i += 1;
        }
        NoteColorState { counts, colors }
    }

    /// Records a dispatched note-on: the key's active count rises by one
    /// and the key shows the new note's color.
    pub fn note_on(&mut self, key: usize, color: NoteColor)
        requires
            old(self).wf(),
            key < KEY_COUNT,
            old(self).count(key as int) < u64::MAX,
        ensures
            final(self).wf(),
            final(self).count(key as int) == old(self).count(key as int) + 1,
            final(self).color(key as int) == Some(color),
            forall|k: int|
                0 <= k < KEY_COUNT && k != key ==> final(self).count(k) == old(self).count(k)
                    && final(self).color(k) == old(self).color(k),
    {
        let c = self.counts[key];
        self.counts.set(key, c + 1);
        self.colors.set(key, Some(color));
        proof {
            assert forall|k: int|
                0 <= k < KEY_COUNT implies ((self.count(k) == 0) <==> self.color(k) is None) by {
                if k != key {
                    assert(self.count(k) == old(self).count(k));
                    assert(self.color(k) == old(self).color(k));
                }
            }
        }
    }

    /// Records a dispatched note-off: the key's active count falls by one
    /// (never below zero), and the color clears only when the count reaches
    /// zero. A note-off with no matching note-on changes nothing.
    pub fn note_off(&mut self, key: usize)
        requires
            old(self).wf(),
            key < KEY_COUNT,
        ensures
            final(self).wf(),
            final(self).count(key as int) == if old(self).count(key as int) > 0 {
                (old(self).count(key as int) - 1) as u64
            } else {
                0u64
            },
            final(self).color(key as int) == if old(self).count(key as int) > 1 {
                old(self).color(key as int)
            } else {
                Option::<NoteColor>::None
            },
            forall|k: int|
                0 <= k < KEY_COUNT && k != key ==> final(self).count(k) == old(self).count(k)
                    && final(self).color(k) == old(self).color(k),
    {
        let c = self.counts[key];
        if c > 0 {
            self.counts.set(key, c - 1);
            if c == 1 {
                self.colors.set(key, None);
            }
        }
        proof {
            assert forall|k: int|
                0 <= k < KEY_COUNT implies ((self.count(k) == 0) <==> self.color(k) is None) by {
                if k != key {
                    assert(self.count(k) == old(self).count(k));
                    assert(self.color(k) == old(self).color(k));
                }
            }
        }
    }

    /// Silences every key, as after a backward seek or a backend reset.
    pub fn clear(&mut self)
        requires
            old(self).wf(),
        ensures
            final(self).wf(),
            final(self).all_clear(),
    {
        let mut i: usize = 0;
        while i < KEY_COUNT
            invariant
                i <= KEY_COUNT,
                self.counts@.len() == KEY_COUNT,
                self.colors@.len() == KEY_COUNT,
                forall|k: int| 0 <= k < i ==> self.counts@[k] == 0 && self.colors@[k] is None,
            decreases KEY_COUNT - i,
        {
            self.counts.set(i, 0);
            self.colors.set(i, None);
            i += 1;
        }
    }

    /// The color a key currently shows; `None` means silent.
    pub fn get(&self, key: usize) -> (r: Option<NoteColor>)
        requires
            self.wf(),
            key < KEY_COUNT,
        ensures
            r == self.color(key as int),
    {
        self.colors[key]
    }

    /// The key's active-note count.
    pub fn active_count(&self, key: usize) -> (r: u64)
        requires
            self.wf(),
            key < KEY_COUNT,
        ensures
            r == self.count(key as int),
    {
        self.counts[key]
    }

    /// A key is never shown silent while an unmatched note-on for it has
    /// been dispatched and no matching note-off has occurred: whenever the
    /// active count is nonzero, a color is shown.
    pub proof fn lemma_active_key_shown(&self, key: int)
        requires
            self.wf(),
            0 <= key < KEY_COUNT,
            self.count(key) > 0,
        ensures
            self.color(key) is Some,
    {
    }

    /// The converse: a key whose active count has reached zero is shown
    /// silent.
    pub proof fn lemma_inactive_key_clear(&self, key: int)
        requires
            self.wf(),
            0 <= key < KEY_COUNT,
            self.count(key) == 0,
        ensures
            self.color(key) is None,
    {
    }
}

} // verus!
