use wasabi::decode::MidiError;
use wasabi::engine::PlaybackEngine;
use wasabi::events::{make_message, NoteColor};
use wasabi::settings::MidiLoading;
use wasabi::timeline::{BufferedTimeline, StreamedTimeline};

fn push_u64(out: &mut Vec<u8>, v: u64) {
    for i in 0..8 {
        out.push(((v >> (8 * i)) & 0xff) as u8);
    }
}

fn push_u32(out: &mut Vec<u8>, v: u32) {
    for i in 0..4 {
        out.push(((v >> (8 * i)) & 0xff) as u8);
    }
}

fn header(count: u64) -> Vec<u8> {
    let mut out = vec![77u8, 84, 76, 78];
    push_u64(&mut out, count);
    out
}

fn record(out: &mut Vec<u8>, kind: u8, time: u64, msg: u32) {
    out.push(kind);
    push_u64(out, time);
    push_u32(out, msg);
}

fn stream(events: &[(u64, u32)]) -> Vec<u8> {
    let mut out = header(events.len() as u64);
    for &(time, msg) in events {
        record(&mut out, 1, time, msg);
    }
    out
}

fn many_events() -> Vec<(u64, u32)> {
    let mut evs = Vec::new();
    for k in 0..200u32 {
        let on = make_message(9, (k % 16) as u8, (k % 100) as u8, 64);
        let off = make_message(8, (k % 16) as u8, (k % 100) as u8, 0);
        evs.push((k as u64 * 1000, on));
        evs.push((k as u64 * 1000 + 500, off));
    }
    evs
}

#[test]
fn buffered_and_streamed_yield_identical_sequences() {
    let bytes = stream(&many_events());
    let mut buffered = BufferedTimeline::load(&bytes).expect("load");
    let mut streamed = StreamedTimeline::open(bytes).expect("open");
    // The same range queries, in the same order, yield bit-identical
    // event sequences from both variants.
    for now in [0u64, 999, 5000, 5000, 70_000, 69_000, 70_000, 400_000] {
        let a = buffered.pull_due(now);
        let b = streamed.pull_due(now).expect("pull");
        assert_eq!(a, b);
    }
}

#[test]
fn variants_agree_after_seeks() {
    let bytes = stream(&many_events());
    let mut buffered = BufferedTimeline::load(&bytes).expect("load");
    let mut streamed = StreamedTimeline::open(bytes).expect("open");
    let a1 = buffered.pull_due(150_000);
    let b1 = streamed.pull_due(150_000).expect("pull");
    assert_eq!(a1, b1);
    // A backward seek re-synchronizes both to the same boundary; the
    // streamed variant restarts from a checkpoint, not from the top.
    buffered.resync(42_000);
    streamed.resync(42_000).expect("resync");
    let a2 = buffered.pull_due(50_000);
    let b2 = streamed.pull_due(50_000).expect("pull");
    assert_eq!(a2, b2);
    assert!(!a2.is_empty());
    assert_eq!(a2[0].time, 42_000);
}

#[test]
fn resync_twice_is_idempotent() {
    let bytes = stream(&many_events());
    let mut t = BufferedTimeline::load(&bytes).expect("load");
    t.resync(42_000);
    let once = t.pull_due(50_000);
    t.resync(60_000);
    t.resync(60_000);
    let twice = t.pull_due(80_000);
    // Seeking to the same target twice moves the cursor once: no event
    // is yielded twice and none is skipped.
    assert_eq!(once.first().map(|e| e.time), Some(42_000));
    assert_eq!(twice.first().map(|e| e.time), Some(60_000));
}

#[test]
fn malformed_header_is_rejected() {
    let bytes = vec![1u8, 2, 3];
    assert_eq!(BufferedTimeline::load(&bytes).err(), Some(MidiError::MalformedHeader));
    assert_eq!(StreamedTimeline::open(bytes).err(), Some(MidiError::MalformedHeader));
    let mut bad_magic = stream(&[(1, 0x90_u32)]);
    bad_magic[0] = 99;
    assert_eq!(BufferedTimeline::load(&bad_magic).err(), Some(MidiError::MalformedHeader));
}

#[test]
fn truncated_stream_fails_at_load_when_buffered() {
    // The header announces three records but only one follows.
    let mut bytes = header(3);
    record(&mut bytes, 1, 10, 0x90);
    assert_eq!(BufferedTimeline::load(&bytes).err(), Some(MidiError::TruncatedStream));
}

#[test]
fn truncated_stream_fails_mid_playback_when_streamed() {
    let mut bytes = header(3);
    record(&mut bytes, 1, 10, 0x90);
    // Opening only checks the header; the truncation surfaces when
    // decoding reaches the end.
    let mut t = StreamedTimeline::open(bytes).expect("open");
    assert_eq!(t.pull_due(1_000_000).err(), Some(MidiError::TruncatedStream));
    // The failure sticks for the session.
    assert_eq!(t.pull_due(2_000_000).err(), Some(MidiError::TruncatedStream));
}

#[test]
fn truncated_stream_halts_engine_session() {
    let mut bytes = header(2);
    record(&mut bytes, 1, 10, make_message(9, 0, 60, 90));
    let mut p = Vec::new();
    for i in 0..16 {
        p.push(NoteColor { red: i as u8, green: i as u8, blue: i as u8 });
    }
    let player = wasabi::audio_playback::SimpleTemporaryPlayer::new(
        wasabi::audio_playback::AudioPlayerType::Kdmapi,
    );
    let mut eng = PlaybackEngine::open(bytes, MidiLoading::Live, player, p).expect("open");
    eng.seek(1_000_000, 0);
    assert_eq!(eng.tick(0), Err(MidiError::TruncatedStream));
    assert_eq!(eng.tick(1), Err(MidiError::TruncatedStream));
}

#[test]
fn malformed_record_is_skipped_and_decoding_goes_on() {
    let on1 = make_message(9, 0, 60, 90);
    let on2 = make_message(9, 0, 62, 90);
    let mut bytes = header(3);
    record(&mut bytes, 1, 10, on1);
    record(&mut bytes, 7, 20, 0xdead);
    record(&mut bytes, 1, 30, on2);
    let mut t = BufferedTimeline::load(&bytes).expect("load");
    let evs = t.pull_due(100);
    assert_eq!(evs.len(), 2);
    assert_eq!(evs[0].time, 10);
    assert_eq!(evs[1].time, 30);
}

#[test]
fn record_with_backward_time_is_skipped() {
    let on1 = make_message(9, 0, 60, 90);
    let on2 = make_message(9, 0, 62, 90);
    let mut bytes = header(3);
    record(&mut bytes, 1, 100, on1);
    record(&mut bytes, 1, 50, on2);
    record(&mut bytes, 1, 200, on2);
    let mut t = BufferedTimeline::load(&bytes).expect("load");
    let evs = t.pull_due(1000);
    assert_eq!(evs.len(), 2);
    assert_eq!(evs[0].time, 100);
    assert_eq!(evs[1].time, 200);
}

#[test]
fn streamed_seek_before_first_checkpoint_restarts_from_top() {
    // Too few events for any checkpoint: a backward seek must restart
    // decoding from the top of the stream.
    let on = make_message(9, 0, 60, 90);
    let bytes = stream(&[(10, on), (20, on), (30, on)]);
    let mut t = StreamedTimeline::open(bytes).expect("open");
    let first = t.pull_due(100).expect("pull");
    assert_eq!(first.len(), 3);
    t.resync(15).expect("resync");
    let again = t.pull_due(100).expect("pull");
    assert_eq!(again.len(), 2);
    assert_eq!(again[0].time, 20);
}

#[test]
fn streamed_forward_seek_skips_without_dispatch() {
    let bytes = stream(&many_events());
    let mut t = StreamedTimeline::open(bytes).expect("open");
    let early = t.pull_due(1000).expect("pull");
    assert!(!early.is_empty());
    // A forward seek far beyond the lookahead: events in between count
    // as heard and are not yielded.
    t.resync(150_000).expect("resync");
    let after = t.pull_due(151_000).expect("pull");
    assert!(after.iter().all(|e| e.time >= 150_000));
    assert!(!after.is_empty());
}

#[test]
fn total_notes_counts_decodable_prefix_of_truncated_stream() {
    let mut bytes = header(3);
    record(&mut bytes, 1, 10, make_message(9, 0, 60, 90));
    record(&mut bytes, 1, 20, make_message(9, 0, 61, 90));
    // The third announced record is missing; the count covers the
    // decodable prefix.
    let total = wasabi::timeline::count_stream_notes(&bytes, 1, 0).expect("count");
    assert_eq!(total, 2);
}
