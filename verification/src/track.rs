//! A track of a session: its original events, the flipped copy kept in step
//! with the track's settings, and the drawable notes of both.
use vstd::prelude::*;

use crate::flip::{events_fit, events_flip_fit, flip_events, flip_region_events, FlipSettings};
use crate::midi::{first_track_name, last_tick, last_time, MidiEvent, MidiRegion};
use crate::paint::{paint_notes, paint_region, PaintableNote};

verus! {

/// A region together with its drawable notes.
pub struct TrackMidiData {
    midi_region: MidiRegion,
    paint_cache: Vec<PaintableNote>,
}

impl View for TrackMidiData {
    type V = Seq<MidiEvent>;

    closed spec fn view(&self) -> Seq<MidiEvent> {
        self.midi_region@
    }
}

impl TrackMidiData {
    #[verifier::type_invariant]
    spec fn paint_cache_current(self) -> bool {
        self.paint_cache@ == paint_notes(self.midi_region@)
    }

    pub fn new(midi_region: MidiRegion) -> (r: Self)
        ensures
            r@ == midi_region@,
    {
        let paint_cache = paint_region(&midi_region);
        Self { midi_region, paint_cache }
    }

    pub fn duplicate(&self) -> (r: Self)
        ensures
            r@ == self@,
    {
        proof {
            use_type_invariant(self);
        }
        Self { midi_region: self.midi_region.duplicate(), paint_cache: self.paint_cache.clone() }
    }

    /// This data with its events flipped.
    pub fn flipped(self, settings: &FlipSettings) -> (r: Self)
        requires
            events_flip_fit(self@, *settings),
        ensures
            r@ == flip_events(self@, *settings),
    {
        let mut this = self;
        this.flip(settings);
        this
    }

    /// Flips the events in place and redraws them.
    pub fn flip(&mut self, settings: &FlipSettings)
        requires
            events_flip_fit(old(self)@, *settings),
        ensures
            final(self)@ == flip_events(old(self)@, *settings),
    {
        let events = flip_region_events(&self.midi_region, settings);
        let region = MidiRegion::new(events);
        let paint_cache = paint_region(&region);
        *self = TrackMidiData { midi_region: region, paint_cache };
    }

    /// The time of the last event (zero when there is none).
    pub fn duration(&self) -> (r: u64)
        ensures
            r == last_time(self@),
    {
        self.midi_region.duration()
    }

    /// The tick of the last event (zero when there is none).
    pub fn length_in_ticks(&self) -> (r: u32)
        ensures
            r == last_tick(self@),
    {
        self.midi_region.length_in_ticks()
    }

    pub fn midi_region(&self) -> (r: &MidiRegion)
        ensures
            r@ == self@,
    {
        &self.midi_region
    }

    /// The drawable notes of the events.
    pub fn paint_cache(&self) -> (r: &[PaintableNote])
        ensures
            r@ == paint_notes(self@),
    {
        proof {
            use_type_invariant(self);
        }
        self.paint_cache.as_slice()
    }

    /// The first track name among the events.
    pub fn find_name(&self) -> (r: Option<String>)
        ensures
            r == first_track_name(self@),
    {
        self.midi_region.find_name()
    }
}


/// What a session track holds, as plain values: its name, the length of
/// its original events in nanoseconds, whether it is a MIDI track, whether
/// it changed since the last look, its original events and its settings.
pub struct SessionTrackModel {
    pub name: Option<String>,
    pub length: u64,
    pub is_midi: bool,
    pub changed: bool,
    pub original: Seq<MidiEvent>,
    pub settings: FlipSettings,
}

struct FlipState {
    settings: FlipSettings,
    flipped: TrackMidiData,
}

/// One track of a session, with the flipped copy of its events.
pub struct SessionTrack {
    name: Option<String>,
    length: u64,
    is_midi: bool,
    changed: bool,
    track_original: TrackMidiData,
    flip: FlipState,
}

/// The settings of a new track (see `FlipSettings::new`).
pub open spec fn new_track_settings(global_transpose: i32, global_flip_bend: bool) -> FlipSettings {
    FlipSettings { enabled: true, global_transpose, global_flip_bend, transpose: 0, ignore_ch10: true }
}

/// `t` limited to `-127..=127`.
pub open spec fn clamp_transposition(t: i32) -> i32 {
    if t < -127 {
        -127i32
    } else if t > 127 {
        127i32
    } else {
        t
    }
}

impl View for SessionTrack {
    type V = SessionTrackModel;

    closed spec fn view(&self) -> SessionTrackModel {
        SessionTrackModel {
            name: self.name,
            length: self.length,
            is_midi: self.is_midi,
            changed: self.changed,
            original: self.track_original@,
            settings: self.flip.settings,
        }
    }
}

impl SessionTrack {
    #[verifier::type_invariant]
    spec fn flipped_current(self) -> bool {
        &&& events_flip_fit(self.track_original@, self.flip.settings)
        &&& self.flip.flipped@ == flip_events(self.track_original@, self.flip.settings)
    }

    /// A track made from a region; `is_midi` tells whether the file chunk
    /// it came from was a MIDI track.
    pub fn from_track(
        midi_track: MidiRegion,
        is_midi: bool,
        global_transpose: i32,
        global_flip_bend: bool,
    ) -> (r: Self)
        requires
            events_flip_fit(midi_track@, new_track_settings(global_transpose, global_flip_bend)),
        ensures
            r@ == (SessionTrackModel {
                name: first_track_name(midi_track@),
                length: last_time(midi_track@),
                is_midi,
                changed: false,
                original: midi_track@,
                settings: new_track_settings(global_transpose, global_flip_bend),
            }),
    {
        let settings = FlipSettings::new(global_transpose, global_flip_bend);
        let track_original = TrackMidiData::new(midi_track);
        let name = track_original.find_name();
        let length = track_original.duration();
        let flipped = track_original.duplicate().flipped(&settings);
        Self {
            name,
            length,
            is_midi,
            changed: false,
            track_original,
            flip: FlipState { settings, flipped },
        }
    }

    pub fn name(&self) -> (r: Option<&str>)
        ensures
            match self@.name {
                Some(n) => r is Some && r.unwrap()@ == n@,
                None => r is None,
            },
    {
        match &self.name {
            Some(n) => Some(n.as_str()),
            None => None,
        }
    }

    /// The time of the last original event, in nanoseconds.
    pub fn length(&self) -> (r: u64)
        ensures
            r == self@.length,
    {
        self.length
    }

    pub fn track_original(&self) -> (r: &TrackMidiData)
        ensures
            r@ == self@.original,
    {
        &self.track_original
    }

    /// The flipped events, always those of the original events under the
    /// current settings.
    pub fn track_flipped(&self) -> (r: &TrackMidiData)
        ensures
            r@ == flip_events(self@.original, self@.settings),
    {
        proof {
            use_type_invariant(self);
        }
        &self.flip.flipped
    }

    pub fn settings(&self) -> (r: FlipSettings)
        ensures
            r == self@.settings,
    {
        self.flip.settings
    }

    fn reflip(&mut self, settings: FlipSettings)
        requires
            events_flip_fit(old(self)@.original, settings),
        ensures
            final(self)@ == (SessionTrackModel { settings, changed: true, ..old(self)@ }),
    {
        let flipped = self.track_original.duplicate().flipped(&settings);
        self.flip = FlipState { settings, flipped };
        self.changed = true;
    }

    pub fn flip_enabled(&self) -> (r: bool)
        ensures
            r == self@.settings.enabled,
    {
        self.flip.settings.enabled
    }

    pub fn set_flip_enabled(&mut self, flip_enabled: bool)
        ensures
            final(self)@ == (SessionTrackModel {
                settings: FlipSettings { enabled: flip_enabled, ..old(self)@.settings },
                changed: true,
                ..old(self)@
            }),
    {
        proof {
            use_type_invariant(&*self);
        }
        let mut settings = self.flip.settings;
        settings.enabled = flip_enabled;
        self.reflip(settings);
    }

    pub fn set_global_transpose(&mut self, global_transpose: i32)
        requires
            events_flip_fit(
                old(self)@.original,
                FlipSettings { global_transpose, ..old(self)@.settings },
            ),
        ensures
            final(self)@ == (SessionTrackModel {
                settings: FlipSettings { global_transpose, ..old(self)@.settings },
                changed: true,
                ..old(self)@
            }),
    {
        let mut settings = self.flip.settings;
        settings.global_transpose = global_transpose;
        self.reflip(settings);
    }

    pub fn set_flip_bend(&mut self, flip_bend: bool)
        ensures
            final(self)@ == (SessionTrackModel {
                settings: FlipSettings { global_flip_bend: flip_bend, ..old(self)@.settings },
                changed: true,
                ..old(self)@
            }),
    {
        proof {
            use_type_invariant(&*self);
        }
        let mut settings = self.flip.settings;
        settings.global_flip_bend = flip_bend;
        self.reflip(settings);
    }

    pub fn transposition(&self) -> (r: i32)
        ensures
            r == self@.settings.transpose,
    {
        self.flip.settings.transpose
    }

    /// Sets the track's own transposition, limited to `-127..=127`.
    pub fn set_transposition(&mut self, transposition: i32)
        requires
            events_flip_fit(
                old(self)@.original,
                FlipSettings { transpose: clamp_transposition(transposition), ..old(self)@.settings },
            ),
        ensures
            final(self)@ == (SessionTrackModel {
                settings: FlipSettings {
                    transpose: clamp_transposition(transposition),
                    ..old(self)@.settings
                },
                changed: true,
                ..old(self)@
            }),
    {
        let t = if transposition < -127 {
            -127
        } else if transposition > 127 {
            127
        } else {
            transposition
        };
        let mut settings = self.flip.settings;
        settings.transpose = t;
        self.reflip(settings);
    }

    pub fn ignore_ch10(&self) -> (r: bool)
        ensures
            r == self@.settings.ignore_ch10,
    {
        self.flip.settings.ignore_ch10
    }

    pub fn set_ignore_ch10(&mut self, ignore_ch10: bool)
        requires
            events_flip_fit(
                old(self)@.original,
                FlipSettings { ignore_ch10, ..old(self)@.settings },
            ),
        ensures
            final(self)@ == (SessionTrackModel {
                settings: FlipSettings { ignore_ch10, ..old(self)@.settings },
                changed: true,
                ..old(self)@
            }),
    {
        let mut settings = self.flip.settings;
        settings.ignore_ch10 = ignore_ch10;
        self.reflip(settings);
    }

    pub fn is_midi(&self) -> (r: bool)
        ensures
            r == self@.is_midi,
    {
        self.is_midi
    }

    /// Whether the original events can be flipped with `settings` within
    /// `i32` arithmetic.
    pub fn settings_fit(&self, settings: FlipSettings) -> (r: bool)
        ensures
            r == events_flip_fit(self@.original, settings),
    {
        events_fit(self.track_original.midi_region().events(), &settings)
    }

    /// Whether a setting changed since the last call; clears the mark.
    pub fn clear_changed(&mut self) -> (r: bool)
        ensures
            r == old(self)@.changed,
            final(self)@ == (SessionTrackModel { changed: false, ..old(self)@ }),
    {
        proof {
            use_type_invariant(&*self);
        }
        let r = self.changed;
        self.changed = false;
        r
    }
}

} // verus!
