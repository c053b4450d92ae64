use wasabi::audio_playback::{AudioPlayerType, SimpleTemporaryPlayer};
use wasabi::engine::PlaybackEngine;
use wasabi::events::{
    channel_of, is_note_off, is_note_on, key_of, make_message, velocity_of, NoteColor,
};
use wasabi::settings::{color_parser, range_parser, MidiLoading, Synth};
use wasabi::window::{Fps, GuiKeyboard, GuiWasabiWindow};

#[test]
fn message_fields_round_trip() {
    let msg = make_message(9, 5, 64, 100);
    assert!(is_note_on(msg));
    assert!(!is_note_off(msg));
    assert_eq!(channel_of(msg), 5);
    assert_eq!(key_of(msg), 64);
    assert_eq!(velocity_of(msg), 100);
    // A kind-9 message with velocity zero means note-off.
    let off = make_message(9, 5, 64, 0);
    assert!(!is_note_on(off));
    assert!(is_note_off(off));
    assert!(is_note_off(make_message(8, 2, 30, 40)));
}

#[test]
fn dispatch_suppresses_accepts_and_drops() {
    let mut p = SimpleTemporaryPlayer::with_config(AudioPlayerType::Kdmapi, 2, 10, 20);
    // A note-on with velocity inside the ignore range is suppressed.
    p.push_event(make_message(9, 0, 60, 15));
    assert_eq!(p.events_suppressed(), 1);
    assert_eq!(p.notes_accepted(), 0);
    // Two loud note-ons fill the handoff; the third is dropped.
    p.push_event(make_message(9, 0, 61, 99));
    p.push_event(make_message(9, 0, 62, 99));
    p.push_event(make_message(9, 0, 63, 99));
    assert_eq!(p.notes_accepted(), 2);
    assert_eq!(p.notes_dropped(), 1);
    assert_eq!(p.events_dropped(), 1);
    let drained = p.drain();
    assert_eq!(drained.len(), 2);
    assert_eq!(key_of(drained[0]), 61);
    assert_eq!(key_of(drained[1]), 62);
}

#[test]
fn dispatch_batch_and_reset() {
    let mut p = SimpleTemporaryPlayer::new(AudioPlayerType::Kdmapi);
    let batch = vec![
        make_message(9, 0, 60, 90),
        make_message(8, 0, 60, 0),
        make_message(9, 1, 61, 90),
    ];
    p.push_events(&batch);
    assert_eq!(p.notes_accepted(), 2);
    assert_eq!(p.resets(), 0);
    p.reset();
    assert_eq!(p.resets(), 1);
    assert_eq!(p.notes_accepted(), 0);
    assert!(p.drain().is_empty());
}

#[test]
fn backend_capabilities_are_per_variant() {
    let mut ks = SimpleTemporaryPlayer::new(AudioPlayerType::Kdmapi);
    // KDMAPI has no telemetry and no runtime reconfiguration: all no-ops.
    ks.report_voice_count(17);
    assert_eq!(ks.get_voice_count(), 0);
    ks.set_layer_count(Some(8));
    ks.set_soundfont("font.sfz");
    assert_eq!(ks.layer_count(), None);
    assert_eq!(ks.soundfont_path(), "");
    let mut xs2 = SimpleTemporaryPlayer::new(AudioPlayerType::XSynth("a.sfz".to_string()));
    xs2.set_layer_count(Some(8));
    xs2.set_soundfont("font.sfz");
    assert_eq!(xs2.layer_count(), Some(8));
    assert_eq!(xs2.soundfont_path(), "font.sfz");
    let mut xs = SimpleTemporaryPlayer::new(AudioPlayerType::XSynth("a.sfz".to_string()));
    xs.report_voice_count(17);
    assert_eq!(xs.get_voice_count(), 17);
    xs.reset();
    assert_eq!(xs.get_voice_count(), 0);
}

#[test]
fn range_parser_reads_two_numbers() {
    let r = range_parser("0,127").expect("parse");
    assert_eq!(*r.start(), 0);
    assert_eq!(*r.end(), 127);
    let r = range_parser("20,10").expect("parse");
    assert_eq!(*r.start(), 20);
    assert_eq!(*r.end(), 10);
    // The standard u8 parser accepts one optional leading plus sign.
    let r = range_parser("+1,2").expect("parse");
    assert_eq!(*r.start(), 1);
    assert_eq!(*r.end(), 2);
    let r = range_parser("007,+0").expect("parse");
    assert_eq!(*r.start(), 7);
    assert_eq!(*r.end(), 0);
    assert!(range_parser("1,,2").is_err());
    assert!(range_parser("++1,2").is_err());
    assert!(range_parser("+,2").is_err());
    assert_eq!(
        range_parser("12").err().unwrap(),
        "This argument requires 2 numbers, comma seperated"
    );
    // Rejections carry the standard parser's message for the failing side.
    assert_eq!(range_parser("a,2").err().unwrap(), "invalid digit found in string");
    assert_eq!(range_parser("1,300").err().unwrap(), "number too large to fit in target type");
    assert_eq!(range_parser("999a,2").err().unwrap(), "number too large to fit in target type");
    assert_eq!(range_parser(",2").err().unwrap(), "cannot parse integer from empty string");
    assert_eq!(range_parser("1,").err().unwrap(), "cannot parse integer from empty string");
}

#[test]
fn color_parser_reads_hex_forms() {
    assert_eq!(
        color_parser("#ff0080").expect("parse"),
        NoteColor { red: 255, green: 0, blue: 128 }
    );
    assert_eq!(
        color_parser("102030").expect("parse"),
        NoteColor { red: 16, green: 32, blue: 48 }
    );
    assert_eq!(color_parser("#abc").expect("parse"), NoteColor {
        red: 0xaa,
        green: 0xbb,
        blue: 0xcc,
    });
    assert!(color_parser("#ff00").is_err());
    assert!(color_parser("zzzzzz").is_err());
    assert!(color_parser("").is_err());
}

#[test]
fn loading_and_synth_choices_parse() {
    assert_eq!(MidiLoading::from_str("ram").unwrap(), MidiLoading::Ram);
    assert_eq!(MidiLoading::from_str("RAM").unwrap(), MidiLoading::Ram);
    assert_eq!(MidiLoading::from_str("Live").unwrap(), MidiLoading::Live);
    // A rejection names the offending input.
    assert_eq!(
        MidiLoading::from_str("disk").err().unwrap(),
        "disk was not expected. Expected one of `ram`, or `live`"
    );
    assert_eq!(Synth::from_str("xsynth").unwrap(), Synth::XSynth);
    assert_eq!(Synth::from_str("kdmapi").unwrap(), Synth::Kdmapi);
    assert_eq!(
        Synth::from_str("fluid").err().unwrap(),
        "fluid was not expected. Expected one of `xsynth`, or `kdmapi`"
    );
}

#[test]
fn fps_window_drops_old_samples() {
    let mut fps = Fps::new();
    fps.update(0);
    fps.update(100_000_000);
    fps.update(200_000_000);
    assert_eq!(fps.sample_count(), 3);
    assert_eq!(fps.oldest(), Some(0));
    // Half a second later, the first samples are too old.
    fps.update(600_000_001);
    assert_eq!(fps.sample_count(), 2);
    assert_eq!(fps.oldest(), Some(200_000_000));
}

#[test]
fn window_owns_engine_across_open_and_close() {
    let mut w = GuiWasabiWindow::new();
    assert!(w.close_midi_file().is_none());
    let mut bytes = vec![77u8, 84, 76, 78];
    for _ in 0..8 {
        bytes.push(0);
    }
    let player = SimpleTemporaryPlayer::new(AudioPlayerType::Kdmapi);
    let mut palette = Vec::new();
    for _ in 0..16 {
        palette.push(NoteColor { red: 1, green: 2, blue: 3 });
    }
    let eng = PlaybackEngine::open(bytes, MidiLoading::Ram, player, palette).expect("open");
    assert!(w.set_midi_file(eng).is_none());
    // Closing hands the backend back, freshly reset.
    let player = w.close_midi_file().expect("player");
    assert_eq!(player.resets(), 2);
    let _ = GuiKeyboard::new();
}

#[test]
fn empty_stream_plays_to_nothing() {
    let mut bytes = vec![77u8, 84, 76, 78];
    for _ in 0..8 {
        bytes.push(0);
    }
    let player = SimpleTemporaryPlayer::new(AudioPlayerType::Kdmapi);
    let mut palette = Vec::new();
    for _ in 0..16 {
        palette.push(NoteColor { red: 0, green: 0, blue: 0 });
    }
    let mut eng = PlaybackEngine::open(bytes, MidiLoading::Ram, player, palette).expect("open");
    assert_eq!(eng.stats().total_notes, 0);
    assert_eq!(eng.midi_length(), Some(0));
    eng.play(0);
    eng.tick(5).expect("tick");
    assert_eq!(eng.stats().notes_rendered, 0);
}
