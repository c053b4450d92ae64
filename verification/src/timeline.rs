//! The event timeline: the ordered source of time-tagged MIDI events,
//! queryable by time range, in two interchangeable variants.
//!
//! The buffered variant decodes the whole stream at load time and walks an
//! in-memory vector; the streamed variant decodes incrementally from the
//! stored bytes as time advances, with a bounded lookahead and periodic
//! checkpoints so a backward seek never has to restart from the top unless
//! the target precedes the earliest retained checkpoint. Both variants are
//! proved against the same specification-level decoding and the same
//! cursor functions, which is exactly what makes them interchangeable:
//! given the same stream and the same position, the same range query
//! yields the same events from either.

use vstd::prelude::*;

use crate::decode::{
    check_header, decode_step, lemma_decode_len, lemma_decode_sorted, lemma_step_event_time,
    sorted_by_time,
    spec_announced, spec_decode_events, spec_decode_ok,
    spec_decode_skips, spec_file_events, spec_file_ok, spec_header_ok, spec_step, DecodeStep,
    MidiError, HEADER_LEN, RECORD_LEN,
};
use crate::events::{lemma_on_count_le_len, lemma_on_count_prepend, spec_on_count, MidiEvent};

verus! {

/// The cursor after pulling everything due at `now`, starting from `d`:
/// the first index at or after `d` whose event lies strictly after `now`.
pub open spec fn spec_advance(s: Seq<MidiEvent>, d: int, now: u64) -> int
    decreases s.len() - d when 0 <= d <= s.len()
{
    if d >= s.len() {
        s.len() as int
    } else if s[d].time > now {
        d
    } else {
        spec_advance(s, d + 1, now)
    }
}

/// The cursor after re-synchronizing to `t`, scanning from `d`: the first
/// index at or after `d` whose event lies at or after `t`.
pub open spec fn spec_sync_from(s: Seq<MidiEvent>, d: int, t: u64) -> int
    decreases s.len() - d when 0 <= d <= s.len()
{
    if d >= s.len() {
        s.len() as int
    } else if s[d].time >= t {
        d
    } else {
        spec_sync_from(s, d + 1, t)
    }
}

/// The cursor after re-synchronizing to `t` from the start: the first
/// index whose event lies at or after `t`.
pub open spec fn spec_sync_pos(s: Seq<MidiEvent>, t: u64) -> int {
    spec_sync_from(s, 0, t)
}

/// What bounds the advanced cursor: everything it passed is due at `now`,
/// and what it stops at is not.
pub proof fn lemma_advance_props(s: Seq<MidiEvent>, d: int, now: u64)
    requires
        0 <= d <= s.len(),
    ensures
        d <= spec_advance(s, d, now) <= s.len(),
        forall|i: int| d <= i < spec_advance(s, d, now) ==> s[i].time <= now,
        spec_advance(s, d, now) < s.len() ==> s[spec_advance(s, d, now)].time > now,
    decreases s.len() - d,
{
    if d < s.len() && s[d].time <= now {
        lemma_advance_props(s, d + 1, now);
    }
}

/// What bounds the re-synchronized cursor: everything it passed lies
/// before `t`, and what it stops at does not.
pub proof fn lemma_sync_from_props(s: Seq<MidiEvent>, d: int, t: u64)
    requires
        0 <= d <= s.len(),
    ensures
        d <= spec_sync_from(s, d, t) <= s.len(),
        forall|i: int| d <= i < spec_sync_from(s, d, t) ==> s[i].time < t,
        spec_sync_from(s, d, t) < s.len() ==> s[spec_sync_from(s, d, t)].time >= t,
    decreases s.len() - d,
{
    if d < s.len() && s[d].time < t {
        lemma_sync_from_props(s, d + 1, t);
    }
}

/// On a sorted sequence the re-synchronized cursor is the unique boundary:
/// any position with everything before it ahead of `t` excluded and
/// nothing due skipped equals it.
pub proof fn lemma_sync_pos_unique(s: Seq<MidiEvent>, t: u64, p: int)
    requires
        sorted_by_time(s),
        0 <= p <= s.len(),
        forall|i: int| 0 <= i < p ==> s[i].time < t,
        p < s.len() ==> s[p].time >= t,
    ensures
        p == spec_sync_pos(s, t),
{
    lemma_sync_from_props(s, 0, t);
    let q = spec_sync_pos(s, t);
    if p < q {
        assert(s[p].time < t);
        assert(s[p].time >= t);
    } else if q < p {
        assert(s[q].time < t);
        assert(s[q].time >= t);
    }
}

/// The advanced cursor is the unique position that dispatches everything
/// due and nothing more; no sortedness is needed.
pub proof fn lemma_advance_unique(s: Seq<MidiEvent>, d: int, now: u64, p: int)
    requires
        0 <= d <= p <= s.len(),
        forall|i: int| d <= i < p ==> s[i].time <= now,
        p < s.len() ==> s[p].time > now,
    ensures
        p == spec_advance(s, d, now),
    decreases p - d,
{
    if d < p {
        lemma_advance_unique(s, d + 1, now, p);
    }
}

/// The buffered timeline: the whole decoded event sequence resident in
/// memory, with a cursor marking the next undispatched event.
pub struct BufferedTimeline {
    events: Vec<MidiEvent>,
    cursor: usize,
    skipped: u64,
}

impl BufferedTimeline {
    /// The full decoded event sequence, in stream order.
    pub closed spec fn full_events(&self) -> Seq<MidiEvent> {
        self.events@
    }

    /// How many events have been yielded or skipped over: the index of the
    /// next undispatched event.
    pub closed spec fn dispatched(&self) -> int {
        self.cursor as int
    }

    /// How many malformed records the load pass skipped.
    pub closed spec fn skips(&self) -> u64 {
        self.skipped
    }

    /// Well-formed: events sorted by time, cursor within bounds.
    pub open spec fn wf(&self) -> bool {
        &&& sorted_by_time(self.full_events())
        &&& 0 <= self.dispatched() <= self.full_events().len()
        &&& self.full_events().len() <= usize::MAX
    }

    /// Builds the timeline by fully decoding the stream. Fails with
    /// `MalformedHeader` exactly when the header is bad, and with
    /// `TruncatedStream` exactly when the bytes end before the announced
    /// record count; malformed records in between are skipped and counted,
    /// not fatal.
    pub fn load(bytes: &Vec<u8>) -> (r: Result<BufferedTimeline, MidiError>)
        ensures
            match r {
                Ok(t) => {
                    &&& spec_file_ok(bytes@)
                    &&& t.wf()
                    &&& t.full_events() == spec_file_events(bytes@)
                    &&& t.dispatched() == 0
                    &&& t.skips() == spec_decode_skips(
                        bytes@,
                        HEADER_LEN as int,
                        spec_announced(bytes@),
                        0,
                    )
                },
                Err(MidiError::MalformedHeader) => !spec_header_ok(bytes@),
                Err(MidiError::TruncatedStream) => spec_header_ok(bytes@) && !spec_file_ok(bytes@),
            },
    {
        let cnt = match check_header(bytes) {
            Ok(c) => c,
            Err(e) => { return Err(e) },
        };
        let ghost all = spec_decode_events(bytes@, HEADER_LEN as int, cnt as nat, 0);
        let n = bytes.len();
        let mut events: Vec<MidiEvent> = Vec::new();
        let mut pos: usize = HEADER_LEN;
        let mut remaining: u64 = cnt;
        let mut last: u64 = 0;
        let mut skipped: u64 = 0;
        while remaining > 0
            invariant
                spec_header_ok(bytes@),
                cnt == spec_announced(bytes@),
                all == spec_decode_events(bytes@, HEADER_LEN as int, cnt as nat, 0),
                HEADER_LEN <= pos <= n == bytes@.len(),
                remaining <= cnt,
                skipped <= cnt - remaining,
                all == events@ + spec_decode_events(bytes@, pos as int, remaining as nat, last),
                spec_decode_ok(bytes@, HEADER_LEN as int, cnt as nat, 0) == spec_decode_ok(
                    bytes@,
                    pos as int,
                    remaining as nat,
                    last,
                ),
                spec_decode_skips(bytes@, HEADER_LEN as int, cnt as nat, 0) == skipped
                    + spec_decode_skips(bytes@, pos as int, remaining as nat, last),
                sorted_by_time(events@),
                forall|i: int| 0 <= i < events@.len() ==> events@[i].time <= last,
            decreases remaining,
        {
            let ghost rest = spec_decode_events(bytes@, pos as int, remaining as nat, last);
            match decode_step(bytes, pos, last) {
                DecodeStep::Truncated => {
                    proof {
                        assert(!spec_decode_ok(bytes@, pos as int, remaining as nat, last));
                    }
                    return Err(MidiError::TruncatedStream);
                },
                DecodeStep::Malformed => {
                    proof {
                        assert(pos + RECORD_LEN <= bytes@.len());
                        assert(rest == spec_decode_events(
                            bytes@,
                            pos + RECORD_LEN,
                            (remaining - 1) as nat,
                            last,
                        ));
                    }
                    pos += RECORD_LEN;
                    remaining -= 1;
                    skipped += 1;
                },
                DecodeStep::Event(e) => {
                    proof {
                        assert(rest == seq![e] + spec_decode_events(
                            bytes@,
                            pos + RECORD_LEN,
                            (remaining - 1) as nat,
                            e.time,
                        ));
                        assert(events@.push(e) + spec_decode_events(
                            bytes@,
                            pos + RECORD_LEN,
                            (remaining - 1) as nat,
                            e.time,
                        ) =~= events@ + rest);
                    }
                    proof {
                        assert(pos + RECORD_LEN <= bytes@.len());
                    }
                    events.push(e);
                    pos += RECORD_LEN;
                    remaining -= 1;
                    last = e.time;
                },
            }
        }
        proof {
            assert(events@ + spec_decode_events(bytes@, pos as int, 0, last) =~= events@);
        }
        let el = events.len();
        proof {
            assert(events@.len() == el);
        }
        Ok(BufferedTimeline { events, cursor: 0, skipped })
    }

    /// The time of the last event of the stream: the playable length.
    pub fn end_time(&self) -> (r: u64)
        requires
            self.wf(),
        ensures
            r == if self.full_events().len() == 0 {
                0u64
            } else {
                self.full_events().last().time
            },
    {
        if self.events.len() == 0 {
            0
        } else {
            self.events[self.events.len() - 1].time
        }
    }

    /// Yields, in order, exactly the undispatched events due at or before
    /// `now`, and moves the cursor past them.
    pub fn pull_due(&mut self, now: u64) -> (r: Vec<MidiEvent>)
        requires
            old(self).wf(),
        ensures
            final(self).wf(),
            final(self).full_events() == old(self).full_events(),
            final(self).skips() == old(self).skips(),
            final(self).dispatched() == spec_advance(
                old(self).full_events(),
                old(self).dispatched(),
                now,
            ),
            r@ == old(self).full_events().subrange(
                old(self).dispatched(),
                final(self).dispatched(),
            ),
    {
        let ghost s = self.events@;
        let ghost d0 = self.cursor as int;
        let mut out: Vec<MidiEvent> = Vec::new();
        while self.cursor < self.events.len() && self.events[self.cursor].time <= now
            invariant
                self.events@ == s,
                sorted_by_time(s),
                0 <= d0 <= self.cursor as int <= s.len(),
                spec_advance(s, d0, now) == spec_advance(s, self.cursor as int, now),
                out@ == s.subrange(d0, self.cursor as int),
                self.skipped == old(self).skipped,
            decreases s.len() - self.cursor,
        {
            let e = self.events[self.cursor];
            proof {
                let c = self.cursor as int;
                assert(e == s[c]);
                assert forall|i: int| 0 <= i < c + 1 - d0 implies s.subrange(d0, c).push(e)[i]
                    == s.subrange(d0, c + 1)[i] by {
                    if i < c - d0 {
                        assert(s.subrange(d0, c)[i] == s[d0 + i]);
                    }
                }
                assert(s.subrange(d0, c).push(e) =~= s.subrange(d0, c + 1));
            }
            out.push(e);
            self.cursor += 1;
        }
        out
    }

    /// Re-synchronizes the cursor to `target` by binary search: afterwards
    /// everything before the cursor lies strictly before `target` and
    /// nothing at or after `target` has been passed over.
    pub fn resync(&mut self, target: u64)
        requires
            old(self).wf(),
        ensures
            final(self).wf(),
            final(self).full_events() == old(self).full_events(),
            final(self).skips() == old(self).skips(),
            final(self).dispatched() == spec_sync_pos(old(self).full_events(), target),
    {
        let ghost s = self.events@;
        let mut lo: usize = 0;
        let mut hi: usize = self.events.len();
        while lo < hi
            invariant
                self.events@ == s,
                sorted_by_time(s),
                lo <= hi <= s.len(),
                forall|i: int| 0 <= i < lo ==> s[i].time < target,
                forall|i: int| hi <= i < s.len() ==> s[i].time >= target,
            decreases hi - lo,
        {
            let mid = lo + (hi - lo) / 2;
            if self.events[mid].time < target {
                lo = mid + 1;
            } else {
                hi = mid;
            }
        }
        proof {
            lemma_sync_pos_unique(s, target, lo as int);
        }
        self.cursor = lo;
    }
}

/// How far past the queried time the streamed variant decodes ahead: the
/// lookahead covers the next frame plus this safety margin, in
/// nanoseconds.
pub const LOOKAHEAD_MARGIN_NANOS: u64 = 100_000_000;

/// A checkpoint is recorded every this many decoded events.
pub const CHECKPOINT_STRIDE: usize = 64;

/// A resumable decode position recorded during a forward pass: decoding
/// may restart here instead of from the top of the stream.
#[derive(Clone, Copy)]
pub struct Checkpoint {
    /// Byte offset to resume decoding at.
    pub pos: usize,
    /// Records still to decode from here per the announced count.
    pub remaining: u64,
    /// Time of the latest well-formed event before this point.
    pub last: u64,
    /// How many events of the stream precede this point.
    pub index: usize,
}

impl Checkpoint {
    /// A checkpoint is valid when resuming at it decodes exactly the
    /// events from its index on, agrees on whether the stream is
    /// truncated, and everything before it lies at or before its time.
    pub open spec fn valid(self, b: Seq<u8>, full: Seq<MidiEvent>) -> bool {
        &&& HEADER_LEN <= self.pos <= b.len()
        &&& 0 <= self.index <= full.len()
        &&& spec_decode_events(b, self.pos as int, self.remaining as nat, self.last) == full.skip(
            self.index as int,
        )
        &&& spec_decode_ok(b, HEADER_LEN as int, spec_announced(b), 0) == spec_decode_ok(
            b,
            self.pos as int,
            self.remaining as nat,
            self.last,
        )
        &&& forall|i: int| 0 <= i < self.index ==> full[i].time <= self.last
    }
}

/// The streamed timeline: events are decoded incrementally from the
/// stored stream as time advances, through a bounded lookahead, with
/// checkpoints recorded at a fixed stride so seeking backward rarely
/// restarts from the top.
pub struct StreamedTimeline {
    bytes: Vec<u8>,
    count: u64,
    pos: usize,
    remaining: u64,
    last: u64,
    frontier: usize,
    lookahead: Vec<MidiEvent>,
    la_head: usize,
    skipped: u64,
    failed: bool,
    checkpoints: Vec<Checkpoint>,
}

impl StreamedTimeline {
    /// The full decoded event sequence of the stream, whether or not it
    /// has been reached yet.
    pub closed spec fn full_events(&self) -> Seq<MidiEvent> {
        spec_file_events(self.bytes@)
    }

    /// The stored stream.
    pub closed spec fn stream(&self) -> Seq<u8> {
        self.bytes@
    }

    /// The index of the next undispatched event.
    pub closed spec fn dispatched(&self) -> int {
        self.frontier - (self.lookahead@.len() - self.la_head)
    }

    /// Whether an unrecoverable decode failure has ended the session.
    pub closed spec fn has_failed(&self) -> bool {
        self.failed
    }

    /// How many malformed records decoding has skipped, over all passes.
    pub closed spec fn skips(&self) -> u64 {
        self.skipped
    }

    /// Well-formed: the header was checked, the decode state coheres with
    /// the full event sequence at the frontier, the lookahead holds
    /// exactly the decoded-but-undispatched events, and every retained
    /// checkpoint is a valid resume point.
    pub open spec fn wf(&self) -> bool {
        let b = self.stream();
        let full = self.full_events();
        &&& spec_header_ok(b)
        &&& self.count() == spec_announced(b)
        &&& sorted_by_time(full)
        &&& HEADER_LEN <= self.frontier_pos() <= b.len()
        &&& self.frontier() <= full.len()
        &&& spec_decode_events(b, self.frontier_pos() as int, self.frontier_remaining() as nat, self.frontier_last())
            == full.skip(self.frontier() as int)
        &&& 0 <= self.dispatched() <= self.frontier()
        &&& self.lookahead_events() == full.subrange(self.dispatched(), self.frontier() as int)
        &&& forall|i: int| 0 <= i < self.frontier() ==> full[i].time <= self.frontier_last()
        &&& !self.has_failed() ==> spec_decode_ok(b, HEADER_LEN as int, spec_announced(b), 0)
            == spec_decode_ok(
            b,
            self.frontier_pos() as int,
            self.frontier_remaining() as nat,
            self.frontier_last(),
        )
        &&& self.has_failed() ==> !spec_file_ok(b)
        &&& full.len() <= usize::MAX
        &&& self.checkpoints_valid()
    }

    /// Every retained checkpoint is a valid resume point.
    pub closed spec fn checkpoints_valid(&self) -> bool {
        forall|k: int|
            0 <= k < self.checkpoints@.len() ==> (#[trigger] self.checkpoints@[k]).valid(
                self.bytes@,
                spec_file_events(self.bytes@),
            )
    }

    /// The announced record count.
    pub closed spec fn count(&self) -> u64 {
        self.count
    }

    /// Byte offset of the decode frontier.
    pub closed spec fn frontier_pos(&self) -> usize {
        self.pos
    }

    /// Records left to decode at the frontier.
    pub closed spec fn frontier_remaining(&self) -> u64 {
        self.remaining
    }

    /// Time of the latest event decoded before the frontier.
    pub closed spec fn frontier_last(&self) -> u64 {
        self.last
    }

    /// How many events have been decoded so far.
    pub closed spec fn frontier(&self) -> usize {
        self.frontier
    }

    /// The decoded-but-undispatched events, oldest first.
    pub closed spec fn lookahead_events(&self) -> Seq<MidiEvent> {
        self.lookahead@.skip(self.la_head as int)
    }

    /// The retained checkpoints.
    pub closed spec fn checkpoint_seq(&self) -> Seq<Checkpoint> {
        self.checkpoints@
    }

    /// Opens a stream for incremental decoding. Only the header is read
    /// here; `MalformedHeader` exactly when it is bad. Truncation, if any,
    /// surfaces later, mid-playback.
    pub fn open(bytes: Vec<u8>) -> (r: Result<StreamedTimeline, MidiError>)
        ensures
            match r {
                Ok(t) => {
                    &&& t.wf()
                    &&& t.stream() == bytes@
                    &&& t.full_events() == spec_file_events(bytes@)
                    &&& t.dispatched() == 0
                    &&& !t.has_failed()
                    &&& t.skips() == 0
                },
                Err(e) => e == MidiError::MalformedHeader && !spec_header_ok(bytes@),
            },
    {
        let cnt = match check_header(&bytes) {
            Ok(c) => c,
            Err(e) => { return Err(e) },
        };
        let n = bytes.len();
        proof {
            lemma_decode_sorted(bytes@, HEADER_LEN as int, cnt as nat, 0);
            lemma_decode_len(bytes@, HEADER_LEN as int, cnt as nat, 0);
            assert(spec_file_events(bytes@).skip(0) =~= spec_file_events(bytes@));
            assert(Seq::<MidiEvent>::empty().skip(0) =~= spec_file_events(bytes@).subrange(0, 0));
            assert(spec_file_events(bytes@).len() <= usize::MAX) by (nonlinear_arith)
                requires
                    spec_file_events(bytes@).len() * RECORD_LEN <= bytes@.len() - HEADER_LEN,
                    bytes@.len() == n <= usize::MAX,
                    RECORD_LEN == 13,
                    HEADER_LEN == 12,
            ;
        }
        Ok(
            StreamedTimeline {
                bytes,
                count: cnt,
                pos: HEADER_LEN,
                remaining: cnt,
                last: 0,
                frontier: 0,
                lookahead: Vec::new(),
                la_head: 0,
                skipped: 0,
                failed: false,
                checkpoints: Vec::new(),
            },
        )
    }
}
/// After decoding one well-formed record, the rest of the stream decodes
/// to exactly the events after it.
proof fn lemma_step_event_chain(
    b: Seq<u8>,
    pos: int,
    cnt: nat,
    last: u64,
    full: Seq<MidiEvent>,
    f: int,
    e: MidiEvent,
)
    requires
        cnt > 0,
        spec_step(b, pos, last) == DecodeStep::Event(e),
        0 <= f <= full.len(),
        spec_decode_events(b, pos, cnt, last) == full.skip(f),
    ensures
        f < full.len(),
        full[f] == e,
        spec_decode_events(b, pos + RECORD_LEN, (cnt - 1) as nat, e.time) == full.skip(f + 1),
        spec_decode_ok(b, pos, cnt, last) == spec_decode_ok(
            b,
            pos + RECORD_LEN,
            (cnt - 1) as nat,
            e.time,
        ),
{
    let x = spec_decode_events(b, pos + RECORD_LEN, (cnt - 1) as nat, e.time);
    assert(spec_decode_events(b, pos, cnt, last) == seq![e] + x);
    assert((seq![e] + x)[0] == e);
    assert(full.skip(f).len() == 1 + x.len());
    assert(full[f] == full.skip(f)[0]);
    assert forall|i: int| 0 <= i < x.len() implies x[i] == full.skip(f + 1)[i] by {
        assert((seq![e] + x)[i + 1] == x[i]);
        assert(full.skip(f)[i + 1] == full[f + 1 + i]);
        assert(full.skip(f + 1)[i] == full[f + 1 + i]);
    }
    assert(x =~= full.skip(f + 1));
}

/// Appending one event to the decoded-but-undispatched window extends it
/// on the right.
proof fn lemma_window_push(
    la: Seq<MidiEvent>,
    h: int,
    full: Seq<MidiEvent>,
    d: int,
    f: int,
    e: MidiEvent,
)
    requires
        0 <= h <= la.len(),
        0 <= d <= f < full.len(),
        la.skip(h) == full.subrange(d, f),
        full[f] == e,
    ensures
        la.push(e).skip(h) == full.subrange(d, f + 1),
{
    assert(la.skip(h).len() == la.len() - h);
    assert(full.subrange(d, f).len() == f - d);
    assert forall|i: int|
        0 <= i < la.len() - h + 1 implies #[trigger] (la.push(e).skip(h)[i]) == full.subrange(
        d,
        f + 1,
    )[i] by {
        assert(la.push(e).skip(h)[i] == la.push(e)[h + i]);
        if i < la.len() - h {
            assert(la.push(e)[h + i] == la[h + i]);
            assert(la.skip(h)[i] == la[h + i]);
            assert(full.subrange(d, f)[i] == full[d + i]);
        } else {
            assert(la.push(e)[h + i] == e);
        }
        assert(full.subrange(d, f + 1)[i] == full[d + i]);
    }
    assert(la.push(e).skip(h) =~= full.subrange(d, f + 1));
}

/// Consuming the front of the decoded-but-undispatched window narrows it
/// on the left.
proof fn lemma_window_pop(la: Seq<MidiEvent>, h: int, full: Seq<MidiEvent>, d: int, f: int)
    requires
        0 <= h < la.len(),
        0 <= d <= f <= full.len(),
        la.skip(h) == full.subrange(d, f),
    ensures
        d < f,
        la[h] == full[d],
        la.skip(h + 1) == full.subrange(d + 1, f),
{
    assert(la.skip(h).len() == la.len() - h);
    assert(full.subrange(d, f).len() == f - d);
    assert(la.skip(h)[0] == la[h]);
    assert(full.subrange(d, f)[0] == full[d]);
    assert forall|i: int|
        0 <= i < la.len() - h - 1 implies #[trigger] (la.skip(h + 1)[i]) == full.subrange(
        d + 1,
        f,
    )[i] by {
        assert(la.skip(h + 1)[i] == la[h + 1 + i]);
        assert(la.skip(h)[i + 1] == la[h + 1 + i]);
        assert(full.subrange(d, f)[i + 1] == full[d + 1 + i]);
        assert(full.subrange(d + 1, f)[i] == full[d + 1 + i]);
    }
    assert(la.skip(h + 1) =~= full.subrange(d + 1, f));
}

impl StreamedTimeline {
    /// Decodes forward until the whole stream is decoded or the latest
    /// decoded event lies past `horizon`, filling the lookahead and
    /// recording a checkpoint at every stride. False exactly when the
    /// stream turns out to be truncated; the failure sticks.
    #[verifier::loop_isolation(false)]
    fn decode_to(&mut self, horizon: u64) -> (ok: bool)
        requires
            old(self).wf(),
            !old(self).has_failed(),
        ensures
            final(self).wf(),
            final(self).stream() == old(self).stream(),
            final(self).full_events() == old(self).full_events(),
            final(self).dispatched() == old(self).dispatched(),
            if ok {
                &&& !final(self).has_failed()
                &&& (final(self).frontier_remaining() == 0 || final(self).frontier_last()
                    > horizon)
            } else {
                &&& final(self).has_failed()
                &&& !spec_file_ok(final(self).stream())
            },
    {
        let ghost b = self.bytes@;
        let ghost full = self.full_events();
        let ghost d0 = self.dispatched();
        let n = self.bytes.len();
        proof {
            lemma_decode_len(b, HEADER_LEN as int, spec_announced(b), 0);
        }
        while self.remaining > 0 && self.last <= horizon
            invariant
                self.wf(),
                !self.has_failed(),
                self.bytes@ == b,
                self.full_events() == full,
                self.dispatched() == d0,
            decreases self.remaining,
        {
            let ghost p0 = self.pos as int;
            let ghost r0 = self.remaining as nat;
            let ghost l0 = self.last;
            let step = decode_step(&self.bytes, self.pos, self.last);
            match step {
                DecodeStep::Truncated => {
                    proof {
                        assert(!spec_decode_ok(b, p0, r0, l0));
                    }
                    self.failed = true;
                    return false;
                },
                DecodeStep::Malformed => {
                    proof {
                        assert(p0 + RECORD_LEN <= b.len());
                        assert(spec_decode_events(b, p0, r0, l0) == spec_decode_events(
                            b,
                            p0 + RECORD_LEN,
                            (r0 - 1) as nat,
                            l0,
                        ));
                        assert(spec_decode_ok(b, p0, r0, l0) == spec_decode_ok(
                            b,
                            p0 + RECORD_LEN,
                            (r0 - 1) as nat,
                            l0,
                        ));
                    }
                    self.pos += RECORD_LEN;
                    self.remaining -= 1;
                    self.skipped = crate::audio_playback::bump(self.skipped);
                },
                DecodeStep::Event(e) => {
                    let ghost f = self.frontier as int;
                    proof {
                        lemma_step_event_time(b, p0, l0, e);
                        lemma_step_event_chain(b, p0, r0, l0, full, f, e);
                        assert forall|i: int| 0 <= i < f + 1 implies full[i].time <= e.time by {
                            if i < f {
                                assert(full[i].time <= l0);
                            }
                        }
                        lemma_window_push(self.lookahead@, self.la_head as int, full, d0, f, e);
                        assert(full.len() < usize::MAX) by (nonlinear_arith)
                            requires
                                full.len() * RECORD_LEN <= b.len() - HEADER_LEN,
                                b.len() <= usize::MAX,
                                RECORD_LEN == 13,
                                HEADER_LEN == 12,
                        ;
                    }
                    self.pos += RECORD_LEN;
                    self.remaining -= 1;
                    self.last = e.time;
                    self.lookahead.push(e);
                    self.frontier += 1;
                    if self.frontier % CHECKPOINT_STRIDE == 0 {
                        let ghost cks = self.checkpoints@;
                        let c = Checkpoint {
                            pos: self.pos,
                            remaining: self.remaining,
                            last: self.last,
                            index: self.frontier,
                        };
                        proof {
                            assert(c.valid(b, full));
                        }
                        self.checkpoints.push(c);
                        proof {
                            assert forall|k: int|
                                0 <= k < self.checkpoints@.len() implies (
                            #[trigger] self.checkpoints@[k]).valid(self.bytes@, spec_file_events(self.bytes@)) by {
                                if k < cks.len() {
                                    assert(self.checkpoints@[k] == cks[k]);
                                    assert(cks[k].valid(b, full));
                                } else {
                                    assert(self.checkpoints@[k] == c);
                                }
                            }
                        }
                    }
                },
            }
        }
        true
    }

    /// Yields, in order, exactly the undispatched events due at or before
    /// `now`, decoding just far enough ahead to know that nothing else is
    /// due: decoding stops once it has seen past `now` plus the lookahead
    /// margin. Fails exactly when the stream turns out to be truncated;
    /// the failure is fatal for the session and sticks.
    #[verifier::loop_isolation(false)]
    pub fn pull_due(&mut self, now: u64) -> (r: Result<Vec<MidiEvent>, MidiError>)
        requires
            old(self).wf(),
        ensures
            final(self).wf(),
            final(self).stream() == old(self).stream(),
            final(self).full_events() == old(self).full_events(),
            match r {
                Ok(v) => {
                    &&& !old(self).has_failed()
                    &&& !final(self).has_failed()
                    &&& final(self).dispatched() == spec_advance(
                        old(self).full_events(),
                        old(self).dispatched(),
                        now,
                    )
                    &&& v@ == old(self).full_events().subrange(
                        old(self).dispatched(),
                        final(self).dispatched(),
                    )
                },
                Err(e) => {
                    &&& e == MidiError::TruncatedStream
                    &&& final(self).has_failed()
                    &&& !spec_file_ok(final(self).stream())
                    &&& final(self).dispatched() == old(self).dispatched()
                },
            },
    {
        if self.failed {
            return Err(MidiError::TruncatedStream);
        }
        let ghost b = self.bytes@;
        let ghost full = self.full_events();
        let ghost d0 = self.dispatched();
        let horizon = now.saturating_add(LOOKAHEAD_MARGIN_NANOS);
        if !self.decode_to(horizon) {
            return Err(MidiError::TruncatedStream);
        }
        proof {
            lemma_decode_sorted(b, self.pos as int, self.remaining as nat, self.last);
            assert forall|i: int|
                self.frontier() <= i < full.len() implies full[i].time > now by {
                assert(full.skip(self.frontier() as int)[i - self.frontier()] == full[i]);
            }
            assert(full.subrange(d0, d0) =~= Seq::<MidiEvent>::empty());
        }
        let mut out: Vec<MidiEvent> = Vec::new();
        while self.la_head < self.lookahead.len() && self.lookahead[self.la_head].time <= now
            invariant
                self.wf(),
                !self.has_failed(),
                self.bytes@ == b,
                self.full_events() == full,
                forall|i: int| self.frontier() <= i < full.len() ==> full[i].time > now,
                0 <= d0 <= self.dispatched(),
                out@ == full.subrange(d0, self.dispatched()),
                forall|i: int| d0 <= i < self.dispatched() ==> full[i].time <= now,
            decreases self.lookahead@.len() - self.la_head,
        {
            let e = self.lookahead[self.la_head];
            proof {
                let d = self.dispatched();
                lemma_window_pop(self.lookahead@, self.la_head as int, full, d, self.frontier() as int);
                assert(full.subrange(d0, d).push(e) =~= full.subrange(d0, d + 1));
            }
            out.push(e);
            self.la_head += 1;
        }
        proof {
            let d = self.dispatched();
            if self.la_head < self.lookahead@.len() {
                lemma_window_pop(self.lookahead@, self.la_head as int, full, d, self.frontier() as int);
            }
            lemma_advance_unique(full, d0, now, d);
        }
        if self.la_head == self.lookahead.len() {
            self.lookahead.clear();
            self.la_head = 0;
            proof {
                assert(self.lookahead_events() =~= full.subrange(
                    self.dispatched(),
                    self.frontier() as int,
                ));
            }
        }
        Ok(out)
    }
}

impl StreamedTimeline {
    /// Re-synchronizes to `target` without yielding events: afterwards
    /// everything strictly before `target` counts as already heard and
    /// everything at or after it is still to come. A target past the
    /// decoded frontier just decodes on from it; otherwise decoding
    /// restarts from a retained checkpoint before the target, or from the
    /// top of the stream when none is retained. Fails exactly when the
    /// stream turns out to be truncated on the way.
    #[verifier::loop_isolation(false)]
    pub fn resync(&mut self, target: u64) -> (r: Result<(), MidiError>)
        requires
            old(self).wf(),
        ensures
            final(self).wf(),
            final(self).stream() == old(self).stream(),
            final(self).full_events() == old(self).full_events(),
            match r {
                Ok(()) => {
                    &&& !old(self).has_failed()
                    &&& !final(self).has_failed()
                    &&& final(self).dispatched() == spec_sync_pos(old(self).full_events(), target)
                },
                Err(e) => {
                    &&& e == MidiError::TruncatedStream
                    &&& final(self).has_failed()
                    &&& !spec_file_ok(final(self).stream())
                },
            },
    {
        if self.failed {
            return Err(MidiError::TruncatedStream);
        }
        let ghost b = self.bytes@;
        let ghost full = self.full_events();
        let n = self.bytes.len();
        proof {
            lemma_decode_len(b, HEADER_LEN as int, spec_announced(b), 0);
        }
        if target > self.last {
            // Everything decoded so far lies before the target: keep the
            // frontier and drop the stale lookahead.
            self.lookahead.clear();
            self.la_head = 0;
            proof {
                assert(self.lookahead_events() =~= full.subrange(
                    self.frontier() as int,
                    self.frontier() as int,
                ));
                assert forall|i: int| 0 <= i < self.frontier() implies full[i].time < target by {
                    assert(full[i].time <= self.frontier_last());
                }
            }
        } else {
            // Restore the newest checkpoint strictly before the target,
            // or the top of the stream.
            let mut found: bool = false;
            let mut idx: usize = self.checkpoints.len();
            while idx > 0 && !found
                invariant
                    idx <= self.checkpoints@.len(),
                    found ==> idx < self.checkpoints@.len() && self.checkpoints@[idx as int].last
                        < target,
                decreases idx + (if found { 0int } else { 1int }),
            {
                if self.checkpoints[idx - 1].last < target {
                    found = true;
                }
                idx -= 1;
            }
            if found {
                let c = self.checkpoints[idx];
                proof {
                    assert(c.valid(b, full));
                }
                self.pos = c.pos;
                self.remaining = c.remaining;
                self.last = c.last;
                self.frontier = c.index;
            } else {
                self.pos = HEADER_LEN;
                self.remaining = self.count;
                self.last = 0;
                self.frontier = 0;
                proof {
                    assert(full.skip(0) =~= full);
                }
            }
            self.lookahead.clear();
            self.la_head = 0;
            proof {
                assert(self.lookahead_events() =~= full.subrange(
                    self.frontier() as int,
                    self.frontier() as int,
                ));
                assert forall|i: int| 0 <= i < self.frontier() implies full[i].time < target by {
                    assert(full[i].time <= self.frontier_last());
                }
            }
        }
        // Decode forward, discarding events before the target, until the
        // first event at or after it comes into view.
        while self.remaining > 0
            invariant
                self.wf(),
                !self.has_failed(),
                self.bytes@ == b,
                self.full_events() == full,
                self.dispatched() == self.frontier() as int,
                self.lookahead@.len() == self.la_head,
                forall|i: int| 0 <= i < self.frontier() ==> full[i].time < target,
            decreases self.remaining,
        {
            let ghost p0 = self.pos as int;
            let ghost r0 = self.remaining as nat;
            let ghost l0 = self.last;
            let step = decode_step(&self.bytes, self.pos, self.last);
            match step {
                DecodeStep::Truncated => {
                    proof {
                        assert(!spec_decode_ok(b, p0, r0, l0));
                    }
                    self.failed = true;
                    return Err(MidiError::TruncatedStream);
                },
                DecodeStep::Malformed => {
                    proof {
                        assert(p0 + RECORD_LEN <= b.len());
                        assert(spec_decode_events(b, p0, r0, l0) == spec_decode_events(
                            b,
                            p0 + RECORD_LEN,
                            (r0 - 1) as nat,
                            l0,
                        ));
                        assert(spec_decode_ok(b, p0, r0, l0) == spec_decode_ok(
                            b,
                            p0 + RECORD_LEN,
                            (r0 - 1) as nat,
                            l0,
                        ));
                    }
                    self.pos += RECORD_LEN;
                    self.remaining -= 1;
                    self.skipped = crate::audio_playback::bump(self.skipped);
                },
                DecodeStep::Event(e) => {
                    let ghost f = self.frontier as int;
                    proof {
                        lemma_step_event_time(b, p0, l0, e);
                        lemma_step_event_chain(b, p0, r0, l0, full, f, e);
                        assert forall|i: int| 0 <= i < f + 1 implies full[i].time <= e.time by {
                            if i < f {
                                assert(full[i].time <= l0);
                            }
                        }
                        assert(full.len() < usize::MAX) by (nonlinear_arith)
                            requires
                                full.len() * RECORD_LEN <= b.len() - HEADER_LEN,
                                b.len() <= usize::MAX,
                                RECORD_LEN == 13,
                                HEADER_LEN == 12,
                        ;
                    }
                    self.pos += RECORD_LEN;
                    self.remaining -= 1;
                    self.last = e.time;
                    self.frontier += 1;
                    let keep = e.time >= target;
                    if keep {
                        self.lookahead.push(e);
                        proof {
                            assert forall|i: int|
                                0 <= i < 1 implies self.lookahead@.skip(self.la_head as int)[i]
                                == full.subrange(f, f + 1)[i] by {
                                assert(self.lookahead@.skip(self.la_head as int)[i]
                                    == self.lookahead@[self.la_head + i]);
                            }
                            assert(self.lookahead@.skip(self.la_head as int) =~= full.subrange(
                                f,
                                f + 1,
                            ));
                        }
                    } else {
                        proof {
                            assert(self.lookahead@.skip(self.la_head as int) =~= full.subrange(
                                f + 1,
                                f + 1,
                            ));
                        }
                    }
                    if self.frontier % CHECKPOINT_STRIDE == 0 {
                        let ghost cks = self.checkpoints@;
                        let c = Checkpoint {
                            pos: self.pos,
                            remaining: self.remaining,
                            last: self.last,
                            index: self.frontier,
                        };
                        proof {
                            assert(c.valid(b, full));
                        }
                        self.checkpoints.push(c);
                        proof {
                            assert forall|k: int|
                                0 <= k < self.checkpoints@.len() implies (
                            #[trigger] self.checkpoints@[k]).valid(self.bytes@, spec_file_events(self.bytes@)) by {
                                if k < cks.len() {
                                    assert(self.checkpoints@[k] == cks[k]);
                                    assert(cks[k].valid(b, full));
                                } else {
                                    assert(self.checkpoints@[k] == c);
                                }
                            }
                        }
                    }
                    if keep {
                        proof {
                            lemma_sync_pos_unique(full, target, f);
                        }
                        return Ok(());
                    }
                },
            }
        }
        proof {
            assert(full.skip(self.frontier() as int).len() == 0);
            lemma_sync_pos_unique(full, target, self.frontier() as int);
        }
        Ok(())
    }
}

/// Law: the two timeline variants are interchangeable. Given the same
/// stream and the same dispatch position, the cursor a range query
/// reaches and the ordered event sequence it yields are identical for
/// the buffered and the streamed variant; `pull_due` of each is proved
/// to return exactly this subrange, and `resync` of each to reach
/// exactly `spec_sync_pos`.
pub proof fn lemma_variants_agree(bt: &BufferedTimeline, st: &StreamedTimeline, now: u64)
    requires
        bt.wf(),
        st.wf(),
        bt.full_events() == st.full_events(),
        bt.dispatched() == st.dispatched(),
    ensures
        spec_advance(bt.full_events(), bt.dispatched(), now) == spec_advance(
            st.full_events(),
            st.dispatched(),
            now,
        ),
        bt.full_events().subrange(
            bt.dispatched(),
            spec_advance(bt.full_events(), bt.dispatched(), now),
        ) == st.full_events().subrange(
            st.dispatched(),
            spec_advance(st.full_events(), st.dispatched(), now),
        ),
        spec_sync_pos(bt.full_events(), now) == spec_sync_pos(st.full_events(), now),
{
}

/// Law: pulling due events is idempotent in time. Once the cursor has
/// advanced past everything due at `t`, pulling at `t` again moves
/// nothing and yields an empty batch — so seeking to `t` twice in a row
/// cannot dispatch an event twice.
pub proof fn lemma_pull_idempotent(s: Seq<MidiEvent>, d: int, t: u64)
    requires
        0 <= d <= s.len(),
    ensures
        spec_advance(s, spec_advance(s, d, t), t) == spec_advance(s, d, t),
        s.subrange(spec_advance(s, d, t), spec_advance(s, spec_advance(s, d, t), t)).len() == 0,
{
    lemma_advance_props(s, d, t);
}

/// One timeline behind one contract: the buffered and the streamed
/// variant, interchangeable to the playback engine.
pub enum Timeline {
    Buffered(BufferedTimeline),
    Streamed(StreamedTimeline),
}

impl Timeline {
    /// The full decoded event sequence of the stream.
    pub open spec fn full_events(&self) -> Seq<MidiEvent> {
        match self {
            Timeline::Buffered(t) => t.full_events(),
            Timeline::Streamed(t) => t.full_events(),
        }
    }

    /// The index of the next undispatched event.
    pub open spec fn dispatched(&self) -> int {
        match self {
            Timeline::Buffered(t) => t.dispatched(),
            Timeline::Streamed(t) => t.dispatched(),
        }
    }

    /// Whether an unrecoverable decode failure has ended the session.
    /// The buffered variant fails only at load, never afterwards.
    pub open spec fn has_failed(&self) -> bool {
        match self {
            Timeline::Buffered(t) => false,
            Timeline::Streamed(t) => t.has_failed(),
        }
    }

    /// Well-formed, whichever variant.
    pub open spec fn wf(&self) -> bool {
        match self {
            Timeline::Buffered(t) => t.wf(),
            Timeline::Streamed(t) => t.wf(),
        }
    }

    /// Yields, in order, exactly the undispatched events due at or
    /// before `now`. Fails exactly when the streamed variant finds the
    /// stream truncated.
    pub fn pull_due(&mut self, now: u64) -> (r: Result<Vec<MidiEvent>, MidiError>)
        requires
            old(self).wf(),
        ensures
            final(self).wf(),
            final(self).full_events() == old(self).full_events(),
            match r {
                Ok(v) => {
                    &&& !old(self).has_failed()
                    &&& !final(self).has_failed()
                    &&& final(self).dispatched() == spec_advance(
                        old(self).full_events(),
                        old(self).dispatched(),
                        now,
                    )
                    &&& v@ == old(self).full_events().subrange(
                        old(self).dispatched(),
                        final(self).dispatched(),
                    )
                },
                Err(e) => {
                    &&& e == MidiError::TruncatedStream
                    &&& final(self).has_failed()
                    &&& final(self).dispatched() == old(self).dispatched()
                },
            },
    {
        match self {
            Timeline::Buffered(t) => Ok(t.pull_due(now)),
            Timeline::Streamed(t) => t.pull_due(now),
        }
    }

    /// Re-synchronizes the cursor to `target` without yielding events:
    /// afterwards everything strictly before `target` counts as already
    /// heard. Fails exactly when the streamed variant finds the stream
    /// truncated on the way.
    pub fn resync(&mut self, target: u64) -> (r: Result<(), MidiError>)
        requires
            old(self).wf(),
        ensures
            final(self).wf(),
            final(self).full_events() == old(self).full_events(),
            match r {
                Ok(()) => {
                    &&& !old(self).has_failed()
                    &&& !final(self).has_failed()
                    &&& final(self).dispatched() == spec_sync_pos(
                        old(self).full_events(),
                        target,
                    )
                },
                Err(e) => {
                    &&& e == MidiError::TruncatedStream
                    &&& final(self).has_failed()
                },
            },
    {
        match self {
            Timeline::Buffered(t) => {
                t.resync(target);
                Ok(())
            },
            Timeline::Streamed(t) => t.resync(target),
        }
    }
}

/// Counts, in one decoding pass and without storing events, the note-ons
/// of a stream that survive the velocity-ignore filter `lo..=hi`: what
/// `total_notes` reports at load. A truncated stream yields the count of
/// its decodable prefix; only a malformed header is an error.
#[verifier::loop_isolation(false)]
pub fn count_stream_notes(bytes: &Vec<u8>, lo: u8, hi: u8) -> (r: Result<u64, MidiError>)
    ensures
        match r {
            Ok(c) => spec_header_ok(bytes@) && c as nat == spec_on_count(
                spec_file_events(bytes@),
                lo,
                hi,
            ),
            Err(e) => e == MidiError::MalformedHeader && !spec_header_ok(bytes@),
        },
{
    let cnt = match check_header(bytes) {
        Ok(c) => c,
        Err(e) => { return Err(e) },
    };
    let ghost all = spec_file_events(bytes@);
    let n = bytes.len();
    proof {
        lemma_decode_len(bytes@, HEADER_LEN as int, cnt as nat, 0);
        lemma_on_count_le_len(all, lo, hi);
        assert(all.len() < usize::MAX) by (nonlinear_arith)
            requires
                all.len() * RECORD_LEN <= bytes@.len() - HEADER_LEN,
                bytes@.len() == n <= usize::MAX,
                RECORD_LEN == 13,
                HEADER_LEN == 12,
        ;
    }
    let mut acc: u64 = 0;
    let mut pos: usize = HEADER_LEN;
    let mut remaining: u64 = cnt;
    let mut last: u64 = 0;
    while remaining > 0
        invariant
            HEADER_LEN <= pos <= n,
            acc + spec_on_count(
                spec_decode_events(bytes@, pos as int, remaining as nat, last),
                lo,
                hi,
            ) == spec_on_count(all, lo, hi),
        decreases remaining,
    {
        let ghost rest = spec_decode_events(bytes@, pos as int, remaining as nat, last);
        match decode_step(bytes, pos, last) {
            DecodeStep::Truncated => {
                proof {
                    assert(spec_on_count(rest, lo, hi) == 0);
                }
                return Ok(acc);
            },
            DecodeStep::Malformed => {
                proof {
                    assert(pos + RECORD_LEN <= bytes@.len());
                    assert(rest == spec_decode_events(
                        bytes@,
                        pos + RECORD_LEN,
                        (remaining - 1) as nat,
                        last,
                    ));
                }
                pos += RECORD_LEN;
                remaining -= 1;
            },
            DecodeStep::Event(e) => {
                proof {
                    assert(pos + RECORD_LEN <= bytes@.len());
                    assert(rest == seq![e] + spec_decode_events(
                        bytes@,
                        pos + RECORD_LEN,
                        (remaining - 1) as nat,
                        e.time,
                    ));
                    lemma_on_count_prepend(
                        e,
                        spec_decode_events(bytes@, pos + RECORD_LEN, (remaining - 1) as nat, e.time),
                        lo,
                        hi,
                    );
                }
                let vel = crate::events::velocity_of(e.message);
                if crate::events::is_note_on(e.message) && !(lo as u32 <= vel && vel <= hi as u32) {
                    acc += 1;
                }
                pos += RECORD_LEN;
                remaining -= 1;
                last = e.time;
            },
        }
    }
    proof {
        assert(spec_on_count(spec_decode_events(bytes@, pos as int, 0, last), lo, hi) == 0);
    }
    Ok(acc)
}

} // verus!
