//! A MIDI timeline and synchronized playback engine.
//!
//! The crate drives playback of a stream of time-tagged MIDI events while
//! keeping three independently paced actors in lockstep: wall-clock time, a
//! possibly very large on-disk event stream, and a frame-rate-bound renderer.
//! Its pieces are
//!
//! * a pausable, seekable logical clock ([`clock::PlaybackClock`]),
//! * a time-ordered event source in two interchangeable variants, fully
//!   buffered and streamed from storage ([`timeline`]),
//! * an audio dispatch facade over pluggable synthesizer backends
//!   ([`audio_playback::SimpleTemporaryPlayer`]),
//! * per-key "currently sounding" state for keyboard rendering
//!   ([`colors::NoteColorState`]), and
//! * the engine that composes them tick by tick ([`engine::PlaybackEngine`]).
//!
//! All times are u64 nanosecond counts; callers convert to and from their
//! own clock representation at the boundary.

pub mod audio_playback;
pub mod clock;
pub mod colors;
pub mod decode;
pub mod engine;
pub mod events;
pub mod settings;
pub mod timeline;
pub mod window;
