//! Playing regions against a clock: which event is due, seeking, and the
//! song's length; and handing messages to a synthesizer.
use vstd::prelude::*;

use crate::midi::{last_time, MidiEvent, MidiRegion, Message};

verus! {

/// A call made on a sink: a message handed to it, or a reset.
pub enum SinkCall {
    Midi(Message),
    Reset,
}

/// The calls of a message each.
pub open spec fn midi_calls(msgs: Seq<Message>) -> Seq<SinkCall> {
    msgs.map_values(|m: Message| SinkCall::Midi(m))
}

/// Something that plays MIDI messages. `calls` is the log of the calls
/// made on it, oldest first.
pub trait MidiSink {
    spec fn calls(&self) -> Seq<SinkCall>;

    fn receive_midi(&mut self, msg: &Message)
        ensures
            final(self).calls() == old(self).calls().push(SinkCall::Midi(*msg)),
    ;

    fn reset(&mut self)
        ensures
            final(self).calls() == old(self).calls().push(SinkCall::Reset),
    ;
}

/// A sink that keeps the calls made on it, in order: the log of `MidiSink`
/// held as values.
pub struct LogSink {
    log: Vec<SinkCall>,
}

impl LogSink {
    /// A sink on which no call was made yet.
    pub fn new() -> (r: Self)
        ensures
            r.calls() == Seq::<SinkCall>::empty(),
    {
        LogSink { log: Vec::new() }
    }

    /// The calls made on the sink, oldest first.
    pub fn log(&self) -> (r: &[SinkCall])
        ensures
            r@ == self.calls(),
    {
        self.log.as_slice()
    }
}

impl MidiSink for LogSink {
    closed spec fn calls(&self) -> Seq<SinkCall> {
        self.log@
    }

    fn receive_midi(&mut self, msg: &Message) {
        self.log.push(SinkCall::Midi(msg.duplicate()));
    }

    fn reset(&mut self) {
        self.log.push(SinkCall::Reset);
    }
}

/// What a sequencer holds: for each track its position (the next event to
/// hand out) and events, the song's length and the clock, in nanoseconds.
pub struct SequencerModel {
    pub positions: Seq<usize>,
    pub tracks: Seq<Seq<MidiEvent>>,
    pub song_duration: u64,
    pub song_position: u64,
}

/// The sequencer after a seek to `pos`: the clock at `pos`; going back,
/// every track restarts from its first event.
pub open spec fn seeked(m: SequencerModel, pos: u64) -> SequencerModel {
    if pos < m.song_position {
        SequencerModel {
            positions: Seq::new(m.positions.len(), |i: int| 0usize),
            song_position: pos,
            ..m
        }
    } else {
        SequencerModel { song_position: pos, ..m }
    }
}

/// Seeking back to any earlier time, not only to the start, restarts every
/// track from its first event, with the clock at that time.
pub proof fn lemma_seek_back_restarts(m: SequencerModel, pos: u64)
    requires
        pos < m.song_position,
    ensures
        seeked(m, pos).positions.len() == m.positions.len(),
        forall|i: int| 0 <= i < m.positions.len() ==> seeked(m, pos).positions[i] == 0,
        seeked(m, pos).song_position == pos,
        seeked(m, pos).tracks == m.tracks,
{
}

/// Seeking forward moves no track.
pub proof fn lemma_seek_forward_keeps_tracks(m: SequencerModel, pos: u64)
    requires
        pos >= m.song_position,
    ensures
        seeked(m, pos).positions == m.positions,
        seeked(m, pos).song_position == pos,
{
}

/// Seeking twice to one position is seeking once: after the first seek the
/// second leaves the sequencer as it is, and as it does not go back it
/// makes no call on any sink.
pub proof fn lemma_seek_twice(m: SequencerModel, pos: u64)
    ensures
        seeked(seeked(m, pos), pos) == seeked(m, pos),
        !(pos < seeked(m, pos).song_position),
{
}

/// Plays regions against a clock.
pub struct MidiSequencer {
    positions: Vec<usize>,
    regions: Vec<MidiRegion>,
    song_duration: u64,
    song_position: u64,
}

/// The largest of the regions' last times, or zero.
pub open spec fn max_duration(tracks: Seq<Seq<MidiEvent>>) -> u64
    decreases tracks.len(),
{
    if tracks.len() == 0 {
        0
    } else {
        let rest = max_duration(tracks.drop_last());
        let d = last_time(tracks.last());
        if d > rest {
            d
        } else {
            rest
        }
    }
}

/// Track `i`'s next event is due at the clock `position`.
pub open spec fn is_due(m: SequencerModel, i: int) -> bool {
    &&& m.positions[i] < m.tracks[i].len()
    &&& m.tracks[i][m.positions[i] as int].time <= m.song_position
}

/// The number of events of the first `n` tracks not yet handed out.
pub open spec fn remaining(m: SequencerModel, n: int) -> int
    decreases n,
{
    if n <= 0 {
        0
    } else {
        remaining(m, n - 1) + (m.tracks[n - 1].len() - m.positions[n - 1])
    }
}

/// The messages of the events that the first `n` tracks moved past from
/// `before` to `after`, track by track in order.
pub open spec fn passed_messages(before: SequencerModel, after: SequencerModel, n: int) -> Seq<Message>
    decreases n,
{
    if n <= 0 {
        Seq::empty()
    } else {
        passed_messages(before, after, n - 1) + after.tracks[n - 1].subrange(
            before.positions[n - 1] as int,
            after.positions[n - 1] as int,
        ).map_values(|e: MidiEvent| e.msg)
    }
}

proof fn lemma_passed_same(before: SequencerModel, a: SequencerModel, b: SequencerModel, n: int)
    requires
        0 <= n,
        a.tracks == b.tracks,
        forall|q: int| 0 <= q < n ==> a.positions[q] == b.positions[q],
    ensures
        passed_messages(before, a, n) == passed_messages(before, b, n),
    decreases n,
{
    if n > 0 {
        lemma_passed_same(before, a, b, n - 1);
    }
}

proof fn lemma_passed_step(before: SequencerModel, a: SequencerModel, b: SequencerModel, i: int, n: int)
    requires
        0 <= i < n <= a.tracks.len(),
        a.tracks == b.tracks,
        a.tracks == before.tracks,
        a.positions.len() == a.tracks.len(),
        before.positions.len() == a.tracks.len(),
        before.positions[i] <= a.positions[i] < a.tracks[i].len(),
        a.positions[i] < usize::MAX,
        b.positions == a.positions.update(i, (a.positions[i] + 1) as usize),
        forall|q: int| i < q < a.tracks.len() ==> a.positions[q] == before.positions[q],
        forall|q: int| 0 <= q < a.tracks.len() ==> before.positions[q] <= #[trigger] a.tracks[q].len(),
    ensures
        passed_messages(before, b, n) == passed_messages(before, a, n).push(a.tracks[i][a.positions[i] as int].msg),
    decreases n,
{
    if n - 1 > i {
        lemma_passed_step(before, a, b, i, n - 1);
        assert(a.tracks[n - 1].subrange(before.positions[n - 1] as int, a.positions[n - 1] as int) =~= Seq::empty());
        assert(b.tracks[n - 1].subrange(before.positions[n - 1] as int, b.positions[n - 1] as int) =~= Seq::empty());
    } else {
        lemma_passed_same(before, a, b, i);
        let t = a.tracks[i];
        let s = before.positions[i] as int;
        let p = a.positions[i] as int;
        assert(b.positions[i] as int == p + 1);
        assert(t.subrange(s, p + 1) =~= t.subrange(s, p).push(t[p]));
        assert(t.subrange(s, p + 1).map_values(|e: MidiEvent| e.msg) =~= t.subrange(s, p).map_values(
            |e: MidiEvent| e.msg,
        ).push(t[p].msg));
    }
}

proof fn lemma_passed_none(before: SequencerModel, n: int)
    requires
        0 <= n <= before.tracks.len(),
        before.positions.len() == before.tracks.len(),
        forall|q: int| 0 <= q < before.tracks.len() ==> before.positions[q] <= #[trigger] before.tracks[q].len(),
    ensures
        passed_messages(before, before, n) == Seq::<Message>::empty(),
    decreases n,
{
    if n > 0 {
        lemma_passed_none(before, n - 1);
        assert(before.tracks[n - 1].subrange(before.positions[n - 1] as int, before.positions[n - 1] as int)
            =~= Seq::empty());
    }
}

proof fn lemma_remaining_step(m: SequencerModel, i: int, n: int)
    requires
        0 <= i < n <= m.tracks.len(),
        m.positions.len() == m.tracks.len(),
        m.positions[i] < m.tracks[i].len(),
        m.positions[i] < usize::MAX,
    ensures
        remaining(SequencerModel { positions: m.positions.update(i, (m.positions[i] + 1) as usize), ..m }, n)
            == remaining(m, n) - 1,
    decreases n,
{
    if n - 1 > i {
        lemma_remaining_step(m, i, n - 1);
    } else {
        let m2 = SequencerModel { positions: m.positions.update(i, (m.positions[i] + 1) as usize), ..m };
        lemma_remaining_same(m, m2, n - 1);
    }
}

proof fn lemma_remaining_same(m: SequencerModel, m2: SequencerModel, n: int)
    requires
        0 <= n <= m.tracks.len(),
        m.tracks == m2.tracks,
        forall|q: int| 0 <= q < n ==> m.positions[q] == m2.positions[q],
    ensures
        remaining(m, n) == remaining(m2, n),
    decreases n,
{
    if n > 0 {
        lemma_remaining_same(m, m2, n - 1);
    }
}

proof fn lemma_remaining_nonneg(m: SequencerModel, n: int)
    requires
        0 <= n <= m.tracks.len(),
        m.positions.len() == m.tracks.len(),
        forall|q: int| 0 <= q < n ==> m.positions[q] <= m.tracks[q].len(),
    ensures
        remaining(m, n) >= 0,
    decreases n,
{
    if n > 0 {
        lemma_remaining_nonneg(m, n - 1);
    }
}

impl View for MidiSequencer {
    type V = SequencerModel;

    closed spec fn view(&self) -> SequencerModel {
        SequencerModel {
            positions: self.positions@,
            tracks: self.regions@.map_values(|r: MidiRegion| r@),
            song_duration: self.song_duration,
            song_position: self.song_position,
        }
    }
}

impl MidiSequencer {
    /// The song model of a sequencer: a position for each track, none past
    /// the track's end.
    pub open spec fn well_formed(m: SequencerModel) -> bool {
        &&& m.positions.len() == m.tracks.len()
        &&& forall|i: int| 0 <= i < m.positions.len() ==> #[trigger] m.positions[i] <= m.tracks[i].len()
    }

    /// A sequencer at the start of the regions; the song lasts until the
    /// last event of the longest region.
    pub fn new(midi: &[MidiRegion]) -> (r: Self)
        ensures
            Self::well_formed(r@),
            r@.positions.len() == midi@.len(),
            forall|i: int| 0 <= i < midi@.len() ==> r@.positions[i] == 0,
            r@.tracks == midi@.map_values(|x: MidiRegion| x@),
            r@.song_duration == max_duration(midi@.map_values(|x: MidiRegion| x@)),
            r@.song_position == 0,
    {
        let ghost tracks = midi@.map_values(|x: MidiRegion| x@);
        let mut positions: Vec<usize> = Vec::new();
        let mut regions: Vec<MidiRegion> = Vec::new();
        let mut song_duration: u64 = 0;
        let mut i: usize = 0;
        while i < midi.len()
            invariant
                i <= midi@.len(),
                positions.len() == i,
                regions.len() == i,
                forall|q: int| 0 <= q < i ==> positions@[q] == 0,
                forall|q: int| 0 <= q < i ==> (#[trigger] regions@[q])@ == midi@[q]@,
                song_duration == max_duration(tracks.take(i as int)),
                tracks == midi@.map_values(|x: MidiRegion| x@),
            decreases midi@.len() - i,
        {
            let region = midi[i].duplicate();
            let d = region.duration();
            assert(tracks.take(i + 1).drop_last() =~= tracks.take(i as int));
            assert(tracks.take(i + 1).last() == midi@[i as int]@);
            if d > song_duration {
                song_duration = d;
            }
            positions.push(0);
            regions.push(region);
            i += 1;
        }
        assert(tracks.take(i as int) =~= tracks);
        let r = Self { positions, regions, song_duration, song_position: 0 };
        assert(r@.tracks =~= tracks);
        r
    }

    /// The clock has passed the end of the song.
    pub fn end_of_sequence(&self) -> (r: bool)
        ensures
            r == (self@.song_position > self@.song_duration),
    {
        self.song_position > self.song_duration
    }

    /// Moves the clock forward by `delta_t` nanoseconds.
    pub fn advance_time(&mut self, delta_t: u64)
        requires
            old(self)@.song_position + delta_t <= u64::MAX,
        ensures
            final(self)@ == (SequencerModel {
                song_position: (old(self)@.song_position + delta_t) as u64,
                ..old(self)@
            }),
    {
        self.song_position = self.song_position + delta_t;
    }

    /// Hands out the next due event of the first track that has one, and
    /// moves that track on.
    pub fn take_event(&mut self) -> (r: Option<(usize, &Message)>)
        requires
            Self::well_formed(old(self)@),
        ensures
            match r {
                Some((i, msg)) => {
                    &&& i < old(self)@.tracks.len()
                    &&& is_due(old(self)@, i as int)
                    &&& old(self)@.positions[i as int] < usize::MAX
                    &&& forall|q: int| 0 <= q < i ==> !is_due(old(self)@, q)
                    &&& *msg == old(self)@.tracks[i as int][old(self)@.positions[i as int] as int].msg
                    &&& final(self)@ == (SequencerModel {
                        positions: old(self)@.positions.update(
                            i as int,
                            (old(self)@.positions[i as int] + 1) as usize,
                        ),
                        ..old(self)@
                    })
                },
                None => {
                    &&& forall|q: int| 0 <= q < old(self)@.tracks.len() ==> !is_due(old(self)@, q)
                    &&& final(self)@ == old(self)@
                },
            },
    {
        let ghost m = self@;
        let n = self.regions.len();
        let mut i: usize = 0;
        while i < n
            invariant
                n == self.regions.len(),
                self.positions.len() == n,
                self@ == m,
                m == old(self)@,
                i <= n,
                forall|q: int| 0 <= q < i ==> !is_due(m, q),
            decreases n - i,
        {
            let p = self.positions[i];
            let events = self.regions[i].events();
            assert(m.tracks[i as int] == self.regions@[i as int]@);
            if p < events.len() {
                if events[p].time <= self.song_position {
                    self.positions.set(i, p + 1);
                    let msg = &self.regions[i].events()[p].msg;
                    return Some((i, msg));
                }
            }
            i += 1;
        }
        None
    }

    /// The time of the end of the song, in nanoseconds.
    pub fn song_duration(&self) -> (r: u64)
        ensures
            r == self@.song_duration,
    {
        self.song_duration
    }

    /// The clock, in nanoseconds.
    pub fn song_position(&self) -> (r: u64)
        ensures
            r == self@.song_position,
    {
        self.song_position
    }

    /// Moves the clock to `pos`. Going back restarts every track from its
    /// first event and resets every sink.
    pub fn seek_to<R: MidiSink>(&mut self, event_sinks: &mut [R], pos: u64)
        requires
            Self::well_formed(old(self)@),
        ensures
            Self::well_formed(final(self)@),
            final(self)@.song_position == pos,
            final(self)@.tracks == old(self)@.tracks,
            final(self)@.song_duration == old(self)@.song_duration,
            final(self)@ == seeked(old(self)@, pos),
            pos < old(self)@.song_position ==> final(self)@.positions.len() == old(self)@.positions.len()
                && forall|i: int| 0 <= i < old(self)@.positions.len() ==> final(self)@.positions[i] == 0,
            pos >= old(self)@.song_position ==> final(self)@.positions == old(self)@.positions,
            final(event_sinks)@.len() == old(event_sinks)@.len(),
            pos < old(self)@.song_position ==> forall|k: int|
                0 <= k < old(event_sinks)@.len() ==> (#[trigger] final(event_sinks)@[k]).calls()
                    == old(event_sinks)@[k].calls().push(SinkCall::Reset),
            pos >= old(self)@.song_position ==> final(event_sinks)@ == old(event_sinks)@,
    {
        let ghost sinks0 = event_sinks@;
        let ghost old_regions = self.regions@;
        let ghost old_duration = self.song_duration;
        if pos < self.song_position {
            self.song_position = 0;
            let n = self.positions.len();
            let mut i: usize = 0;
            while i < n
                invariant
                    self.regions@ == old_regions,
                    self.song_duration == old_duration,
                    self.song_position == 0,
                    n == self.positions.len(),
                    n == self.regions.len(),
                    i <= n,
                    forall|q: int| 0 <= q < i ==> self.positions@[q] == 0,
                decreases n - i,
            {
                self.positions.set(i, 0);
                i += 1;
            }
            let mut k: usize = 0;
            while k < event_sinks.len()
                invariant
                    self.regions@ == old_regions,
                    self.song_duration == old_duration,
                    self.song_position == 0,
                    n == self.positions.len(),
                    forall|q: int| 0 <= q < n ==> self.positions@[q] == 0,
                    k <= event_sinks@.len(),
                    event_sinks@.len() == sinks0.len(),
                    forall|q: int| 0 <= q < k ==> (#[trigger] event_sinks@[q]).calls()
                        == sinks0[q].calls().push(SinkCall::Reset),
                    forall|q: int| k <= q < sinks0.len() ==> #[trigger] event_sinks@[q] == sinks0[q],
                decreases event_sinks.len() - k,
            {
                event_sinks[k].reset();
                k += 1;
            }
        }
        let delta_t = if pos > self.song_position {
            pos - self.song_position
        } else {
            0
        };
        if delta_t > 0 {
            self.advance_time(delta_t);
        }
        proof {
            if pos < old(self)@.song_position {
                assert(self@.positions =~= Seq::new(old(self)@.positions.len(), |i: int| 0usize));
            }
        }
    }

    /// Moves the clock forward by `delta_t` nanoseconds and plays every
    /// event that is then due into the sink, track by track in order.
    pub fn update_events<R: MidiSink>(&mut self, event_sink: &mut R, delta_t: u64)
        requires
            Self::well_formed(old(self)@),
            old(self)@.song_position + delta_t <= u64::MAX,
        ensures
            Self::well_formed(final(self)@),
            final(self)@.song_position == old(self)@.song_position + delta_t,
            final(self)@.tracks == old(self)@.tracks,
            final(self)@.song_duration == old(self)@.song_duration,
            forall|i: int|
                0 <= i < final(self)@.tracks.len() ==> old(self)@.positions[i] <= #[trigger] final(self)@.positions[i]
                    <= final(self)@.tracks[i].len(),
            forall|i: int| 0 <= i < final(self)@.tracks.len() ==> !is_due(final(self)@, i),
            forall|i: int, p: int|
                0 <= i < final(self)@.tracks.len() && old(self)@.positions[i] <= p < final(self)@.positions[i]
                    ==> (#[trigger] final(self)@.tracks[i][p]).time <= final(self)@.song_position,
            final(event_sink).calls() == old(event_sink).calls() + midi_calls(
                passed_messages(old(self)@, final(self)@, old(self)@.tracks.len() as int),
            ),
    {
        let ghost start = self@;
        let ghost start_calls = event_sink.calls();
        let ghost n = start.tracks.len() as int;
        let ghost mut k: int = 0;
        self.advance_time(delta_t);
        proof {
            lemma_passed_none(start, n);
            lemma_passed_same(start, start, self@, n);
            assert(start_calls + midi_calls(Seq::empty()) =~= start_calls);
        }
        loop
            invariant
                0 <= k <= n,
                n == start.tracks.len(),
                Self::well_formed(start),
                forall|q: int| 0 <= q < k ==> !is_due(self@, q),
                forall|q: int| k < q < n ==> self@.positions[q] == start.positions[q],
                event_sink.calls() == start_calls + midi_calls(passed_messages(start, self@, n)),
                Self::well_formed(self@),
                self@.song_position == start.song_position + delta_t,
                self@.tracks == start.tracks,
                self@.song_duration == start.song_duration,
                start.positions.len() == start.tracks.len(),
                forall|i: int|
                    0 <= i < self@.tracks.len() ==> start.positions[i] <= #[trigger] self@.positions[i]
                        <= self@.tracks[i].len(),
                forall|i: int, p: int|
                    0 <= i < self@.tracks.len() && start.positions[i] <= p < self@.positions[i]
                        ==> (#[trigger] self@.tracks[i][p]).time <= self@.song_position,
            ensures
                event_sink.calls() == start_calls + midi_calls(passed_messages(start, self@, n)),
                Self::well_formed(self@),
                self@.song_position == start.song_position + delta_t,
                self@.tracks == start.tracks,
                self@.song_duration == start.song_duration,
                forall|i: int|
                    0 <= i < self@.tracks.len() ==> start.positions[i] <= #[trigger] self@.positions[i]
                        <= self@.tracks[i].len(),
                forall|i: int| 0 <= i < self@.tracks.len() ==> !is_due(self@, i),
                forall|i: int, p: int|
                    0 <= i < self@.tracks.len() && start.positions[i] <= p < self@.positions[i]
                        ==> (#[trigger] self@.tracks[i][p]).time <= self@.song_position,
            decreases remaining(self@, self@.tracks.len() as int),
        {
            let ghost before = self@;
            match self.take_event() {
                Some((i, msg)) => {
                    event_sink.receive_midi(msg);
                    proof {
                        lemma_remaining_step(before, i as int, before.tracks.len() as int);
                        lemma_remaining_nonneg(self@, self@.tracks.len() as int);
                        lemma_passed_step(start, before, self@, i as int, n);
                        let p = passed_messages(start, before, n);
                        let m = before.tracks[i as int][before.positions[i as int] as int].msg;
                        assert(midi_calls(p.push(m)) =~= midi_calls(p).push(SinkCall::Midi(m)));
                        assert((start_calls + midi_calls(p)).push(SinkCall::Midi(m)) =~= start_calls + midi_calls(
                            p,
                        ).push(SinkCall::Midi(m)));
                        assert(self@.tracks == before.tracks);
                        assert(self@.song_position == before.song_position);
                        assert forall|q: int| 0 <= q < i implies !is_due(self@, q) by {
                            assert(!is_due(before, q));
                            assert(self@.positions[q] == before.positions[q]);
                        }
                        k = i as int;
                    }
                },
                None => {
                    break;
                },
            }
        }
    }
}

} // verus!
