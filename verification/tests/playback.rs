use wasabi::audio_playback::{AudioPlayerType, SimpleTemporaryPlayer};
use wasabi::engine::PlaybackEngine;
use wasabi::events::{make_message, NoteColor};
use wasabi::settings::MidiLoading;

fn push_u64(out: &mut Vec<u8>, v: u64) {
    for i in 0..8 {
        out.push(((v >> (8 * i)) & 0xff) as u8);
    }
}

fn push_u32(out: &mut Vec<u8>, v: u32) {
    for i in 0..4 {
        out.push(((v >> (8 * i)) & 0xff) as u8);
    }
}

fn stream(events: &[(u64, u32)]) -> Vec<u8> {
    let mut out = vec![77u8, 84, 76, 78];
    push_u64(&mut out, events.len() as u64);
    for &(time, msg) in events {
        out.push(1u8);
        push_u64(&mut out, time);
        push_u32(&mut out, msg);
    }
    out
}

fn palette() -> Vec<NoteColor> {
    let mut p = Vec::new();
    for i in 0..16 {
        p.push(NoteColor { red: i as u8, green: 0, blue: 255 - i as u8 });
    }
    p
}

fn kdmapi_player() -> SimpleTemporaryPlayer {
    SimpleTemporaryPlayer::new(AudioPlayerType::Kdmapi)
}

const SEC: u64 = 1_000_000_000;

fn one_note_stream() -> Vec<u8> {
    let on = make_message(9, 0, 60, 100);
    let off = make_message(8, 0, 60, 0);
    stream(&[(SEC, on), (2 * SEC, off)])
}

#[test]
fn single_note_seek_shows_and_reset_clears_key() {
    let mut eng = PlaybackEngine::open(one_note_stream(), MidiLoading::Ram, kdmapi_player(), palette())
        .expect("open");
    assert_eq!(eng.stats().total_notes, 1);
    // Seek to 1.5 s and tick: the note-on at 1 s is due, key 60 shows.
    eng.seek(3 * SEC / 2, 0);
    eng.tick(0).expect("tick");
    assert!(eng.color_of_key(60).is_some());
    assert_eq!(eng.active_notes_of_key(60), 1);
    // Seek back to 0.5 s: the backend gets a reset and key 60 goes silent.
    let resets_before = eng.backend_resets();
    eng.seek(SEC / 2, 1);
    eng.tick(1).expect("tick");
    assert_eq!(eng.backend_resets(), resets_before + 1);
    assert!(eng.color_of_key(60).is_none());
    assert_eq!(eng.active_notes_of_key(60), 0);
}

#[test]
fn note_off_clears_after_overlap_only() {
    let on = make_message(9, 3, 64, 80);
    let off = make_message(8, 3, 64, 0);
    // Two overlapping notes on one key: on, on, off, off.
    let bytes = stream(&[(1, on), (2, on), (3, off), (4, off)]);
    let mut eng =
        PlaybackEngine::open(bytes, MidiLoading::Ram, kdmapi_player(), palette()).expect("open");
    eng.seek(2, 0);
    eng.tick(0).expect("tick");
    assert_eq!(eng.active_notes_of_key(64), 2);
    eng.seek(3, 1);
    eng.tick(1).expect("tick");
    // One note-off: the key is still sounding and still colored.
    assert_eq!(eng.active_notes_of_key(64), 1);
    assert!(eng.color_of_key(64).is_some());
    eng.seek(4, 2);
    eng.tick(2).expect("tick");
    assert_eq!(eng.active_notes_of_key(64), 0);
    assert!(eng.color_of_key(64).is_none());
}

#[test]
fn rendered_converges_to_total() {
    let mut evs = Vec::new();
    for k in 0..20u8 {
        evs.push((k as u64 * SEC / 10, make_message(9, (k % 16) as u8, 40 + k, 90)));
        evs.push((k as u64 * SEC / 10 + SEC / 20, make_message(8, (k % 16) as u8, 40 + k, 0)));
    }
    let bytes = stream(&evs);
    let mut eng =
        PlaybackEngine::open(bytes, MidiLoading::Ram, kdmapi_player(), palette()).expect("open");
    assert_eq!(eng.stats().total_notes, 20);
    // Play the whole stream forward in one burst.
    eng.seek(10 * SEC, 0);
    eng.tick(0).expect("tick");
    assert_eq!(eng.stats().notes_rendered, 20);
    assert_eq!(eng.notes_dropped(), 0);
}

#[test]
fn velocity_ignore_filters_total_and_dispatch() {
    let loud = make_message(9, 0, 60, 100);
    let soft = make_message(9, 0, 61, 10);
    let bytes = stream(&[(1, loud), (2, soft)]);
    // Ignore velocities 1..=20: the soft note is suppressed before dispatch.
    let player = SimpleTemporaryPlayer::with_config(AudioPlayerType::Kdmapi, 4096, 1, 20);
    let mut eng = PlaybackEngine::open(bytes, MidiLoading::Ram, player, palette()).expect("open");
    assert_eq!(eng.stats().total_notes, 1);
    eng.seek(10, 0);
    eng.tick(0).expect("tick");
    assert_eq!(eng.stats().notes_rendered, 1);
    // The suppressed note never reaches the key colors either.
    assert!(eng.color_of_key(61).is_none());
    assert!(eng.color_of_key(60).is_some());
}

#[test]
fn overflow_drops_are_counted_and_no_note_vanishes() {
    let mut evs = Vec::new();
    for k in 0..5u8 {
        evs.push((k as u64 + 1, make_message(9, 0, 50 + k, 90)));
    }
    let bytes = stream(&evs);
    // A handoff of capacity 2: a burst of 5 note-ons drops 3.
    let player = SimpleTemporaryPlayer::with_config(AudioPlayerType::Kdmapi, 2, 1, 0);
    let mut eng = PlaybackEngine::open(bytes, MidiLoading::Ram, player, palette()).expect("open");
    assert_eq!(eng.stats().total_notes, 5);
    eng.seek(100, 0);
    eng.tick(0).expect("tick");
    let stats = eng.stats();
    assert_eq!(stats.notes_rendered, 2);
    assert_eq!(eng.notes_dropped(), 3);
    // No note vanishes unaccounted: total - rendered is exactly the drops.
    assert_eq!(stats.total_notes - stats.notes_rendered, eng.notes_dropped());
    assert!(stats.total_notes - stats.notes_rendered <= eng.events_dropped());
}

#[test]
fn reseek_to_same_time_dispatches_nothing() {
    let bytes = one_note_stream();
    let mut eng =
        PlaybackEngine::open(bytes, MidiLoading::Ram, kdmapi_player(), palette()).expect("open");
    eng.seek(3 * SEC / 2, 0);
    eng.tick(0).expect("tick");
    let first = eng.drain_audio();
    assert_eq!(first.len(), 1);
    // Seek to the very same position again: nothing is dispatched twice.
    eng.seek(3 * SEC / 2, 1);
    eng.tick(1).expect("tick");
    let second = eng.drain_audio();
    assert!(second.is_empty());
    assert_eq!(eng.stats().notes_rendered, 1);
}

#[test]
fn kdmapi_without_telemetry_reports_zero_voices() {
    let bytes = one_note_stream();
    let mut eng =
        PlaybackEngine::open(bytes, MidiLoading::Ram, kdmapi_player(), palette()).expect("open");
    assert_eq!(eng.stats().voice_count, 0);
    // Telemetry reports are a no-op for a backend without polyphony data.
    eng.report_voice_count(42);
    assert_eq!(eng.stats().voice_count, 0);
}

#[test]
fn xsynth_telemetry_and_reconfiguration_are_stored() {
    let bytes = one_note_stream();
    let player = SimpleTemporaryPlayer::new(AudioPlayerType::XSynth("font.sfz".to_string()));
    let mut eng = PlaybackEngine::open(bytes, MidiLoading::Ram, player, palette()).expect("open");
    eng.report_voice_count(42);
    assert_eq!(eng.stats().voice_count, 42);
    eng.set_layer_count(Some(4));
    eng.set_soundfont("other.sfz");
    let player = eng.close();
    assert_eq!(player.layer_count(), Some(4));
    assert_eq!(player.soundfont_path(), "other.sfz");
}

#[test]
fn clock_is_monotonic_while_playing() {
    let bytes = one_note_stream();
    let mut eng =
        PlaybackEngine::open(bytes, MidiLoading::Ram, kdmapi_player(), palette()).expect("open");
    assert_eq!(eng.get_time(0), 0);
    eng.play(10);
    let mut prev = 0u64;
    for now in [10u64, 11, 100, 5000, 5000, 123456] {
        let t = eng.get_time(now);
        assert!(t >= prev);
        prev = t;
    }
    // Pausing freezes the position.
    eng.pause(200000);
    let frozen = eng.get_time(200000);
    assert_eq!(eng.get_time(300000), frozen);
    // Toggling resumes from the frozen position.
    eng.toggle_pause(400000);
    assert_eq!(eng.get_time(400000), frozen);
}

#[test]
fn midi_length_is_last_event_time_in_ram_mode() {
    let bytes = one_note_stream();
    let eng =
        PlaybackEngine::open(bytes.clone(), MidiLoading::Ram, kdmapi_player(), palette())
            .expect("open");
    assert_eq!(eng.midi_length(), Some(2 * SEC));
    let live = PlaybackEngine::open(bytes, MidiLoading::Live, kdmapi_player(), palette())
        .expect("open");
    assert_eq!(live.midi_length(), None);
}

#[test]
fn close_resets_backend_before_teardown() {
    let bytes = one_note_stream();
    let mut eng =
        PlaybackEngine::open(bytes, MidiLoading::Ram, kdmapi_player(), palette()).expect("open");
    eng.seek(3 * SEC / 2, 0);
    eng.tick(0).expect("tick");
    let resets = eng.backend_resets();
    let player = eng.close();
    assert_eq!(player.resets(), resets + 1);
}
