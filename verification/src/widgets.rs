//! What the interface's widgets decide: the texts they show and what a
//! click changes.
use vstd::prelude::*;

use crate::midi::MetaInfo;
use crate::track::SessionTrack;

verus! {

/// A full-page notice: a title and a line under it.
pub struct StatusPage<'a> {
    title: &'a str,
    subtitle: &'a str,
}

impl<'a> View for StatusPage<'a> {
    type V = (Seq<char>, Seq<char>);

    closed spec fn view(&self) -> (Seq<char>, Seq<char>) {
        (self.title@, self.subtitle@)
    }
}

impl<'a> StatusPage<'a> {
    pub fn new(title: &'a str, subtitle: &'a str) -> (r: Self)
        ensures
            r@ == (title@, subtitle@),
    {
        Self { title, subtitle }
    }

    /// The notice shown when no file is open.
    pub fn status_nothing_open() -> (r: Self)
        ensures
            r@ == ("Nothing Open"@, "Open a midi file from the file menu."@),
    {
        Self::new("Nothing Open", "Open a midi file from the file menu.")
    }

    pub fn title(&self) -> (r: &'a str)
        ensures
            r@ == self@.0,
    {
        self.title
    }

    pub fn subtitle(&self) -> (r: &'a str)
        ensures
            r@ == self@.1,
    {
        self.subtitle
    }
}

/// The control of a transposition: a slider over `-127..=127` and buttons
/// that move it by a semitone or an octave.
pub struct TranspositionControl<'a> {
    pub transposition: &'a mut i32,
}

impl<'a> TranspositionControl<'a> {
    pub fn new(transposition: &'a mut i32) -> (r: Self)
        ensures
            *r.transposition == *old(transposition),
            *final(transposition) == *final(r.transposition),
    {
        Self { transposition }
    }

    /// A button's click: moves the transposition by `semitones` (one or
    /// twelve, up or down), without limiting it.
    pub fn nudge(self, semitones: i32)
        requires
            i32::MIN <= *self.transposition + semitones <= i32::MAX,
        ensures
            *final(self.transposition) == *old(self.transposition) + semitones,
    {
        *self.transposition = *self.transposition + semitones;
    }
}

/// The character of decimal digit `d`.
pub open spec fn digit_char(d: int) -> char {
    if d == 0 {
        '0'
    } else if d == 1 {
        '1'
    } else if d == 2 {
        '2'
    } else if d == 3 {
        '3'
    } else if d == 4 {
        '4'
    } else if d == 5 {
        '5'
    } else if d == 6 {
        '6'
    } else if d == 7 {
        '7'
    } else if d == 8 {
        '8'
    } else {
        '9'
    }
}

/// `n` written in decimal.
pub open spec fn decimal(n: nat) -> Seq<char>
    decreases n,
{
    if n < 10 {
        seq![digit_char(n as int)]
    } else {
        decimal(n / 10) + seq![digit_char((n % 10) as int)]
    }
}

/// How a transposition is labelled: its sign (none for zero), the whole
/// octaves followed by a colon when there are any, and the semitones left.
pub open spec fn transposition_label(t: int) -> Seq<char> {
    let a: nat = if t < 0 {
        (-t) as nat
    } else {
        t as nat
    };
    let sign = if t > 0 {
        seq!['+']
    } else if t < 0 {
        seq!['-']
    } else {
        Seq::empty()
    };
    let octaves = if a / 12 != 0 {
        decimal(a / 12) + seq![':']
    } else {
        Seq::empty()
    };
    sign + octaves + decimal(a % 12)
}

fn digit_str(d: u32) -> (r: &'static str)
    requires
        d < 10,
    ensures
        r@ == seq![digit_char(d as int)],
{
    proof {
        reveal_strlit("0");
        reveal_strlit("1");
        reveal_strlit("2");
        reveal_strlit("3");
        reveal_strlit("4");
        reveal_strlit("5");
        reveal_strlit("6");
        reveal_strlit("7");
        reveal_strlit("8");
        reveal_strlit("9");
    }
    if d == 0 {
        "0"
    } else if d == 1 {
        "1"
    } else if d == 2 {
        "2"
    } else if d == 3 {
        "3"
    } else if d == 4 {
        "4"
    } else if d == 5 {
        "5"
    } else if d == 6 {
        "6"
    } else if d == 7 {
        "7"
    } else if d == 8 {
        "8"
    } else {
        "9"
    }
}

/// `n` written in decimal.
pub fn decimal_string(n: u32) -> (r: String)
    ensures
        r@ == decimal(n as nat),
    decreases n,
{
    if n < 10 {
        digit_str(n).to_owned()
    } else {
        let mut s = decimal_string(n / 10);
        s.append(digit_str(n % 10));
        s
    }
}

/// The label of a transposition (see `transposition_label`), such as
/// `+1:3` for fifteen semitones up.
pub fn format_transposition(transposition: i32) -> (r: String)
    requires
        transposition != i32::MIN,
    ensures
        r@ == transposition_label(transposition as int),
{
    proof {
        reveal_strlit("+");
        reveal_strlit("-");
        reveal_strlit(":");
        reveal_strlit("");
    }
    let a: u32 = if transposition < 0 {
        (-transposition) as u32
    } else {
        transposition as u32
    };
    let mut s: String = if transposition > 0 {
        "+".to_owned()
    } else if transposition < 0 {
        "-".to_owned()
    } else {
        "".to_owned()
    };
    let octaves = a / 12;
    if octaves != 0 {
        let o = decimal_string(octaves);
        s.append(o.as_str());
        s.append(":");
    }
    let semis = decimal_string(a % 12);
    s.append(semis.as_str());
    s
}

/// What a track is called in its row.
pub enum TrackLabel {
    /// The chunk is not a MIDI track.
    UnknownType,
    /// The track is named with an empty name.
    EmptyName,
    /// The track has no name.
    Unnamed,
    Named(String),
}

/// The label of a track: its kind if it is not a MIDI track, else its name
/// or the lack of one.
pub fn track_label(track: &SessionTrack) -> (r: TrackLabel)
    ensures
        !track@.is_midi ==> r is UnknownType,
        track@.is_midi ==> match track@.name {
            None => r is Unnamed,
            Some(n) => if n@.len() == 0 {
                r is EmptyName
            } else {
                r matches TrackLabel::Named(s) && s@ == n@
            },
        },
{
    if !track.is_midi() {
        TrackLabel::UnknownType
    } else {
        match track.name() {
            Some(n) => {
                if n.unicode_len() == 0 {
                    TrackLabel::EmptyName
                } else {
                    TrackLabel::Named(n.to_owned())
                }
            },
            None => TrackLabel::Unnamed,
        }
    }
}

/// The tabs of the main window.
#[derive(Debug, Clone, Copy, PartialEq, Eq, Default)]
pub enum AppTab {
    #[default]
    Tracks,
    Log,
}

impl AppTab {
    /// The tab's title.
    pub fn label(&self) -> (r: &'static str)
        ensures
            r@ == match *self {
                AppTab::Tracks => "Tracks"@,
                AppTab::Log => "Log"@,
            },
    {
        match self {
            AppTab::Tracks => "Tracks",
            AppTab::Log => "Log",
        }
    }
}

/// What a dropped file is opened as.
#[derive(Debug, Clone, Copy, PartialEq, Eq)]
pub enum DroppedKind {
    Midi,
    SoundFont,
}

/// The code of `c` with an ASCII capital letter made small.
pub open spec fn lower_code(c: char) -> u32 {
    if 'A' <= c <= 'Z' {
        ((c as u32) + 32) as u32
    } else {
        c as u32
    }
}

/// `s` equals `word` (written in small letters) up to ASCII case.
pub open spec fn same_word(s: Seq<char>, word: Seq<char>) -> bool {
    s.len() == word.len() && forall|i: int| 0 <= i < s.len() ==> lower_code(#[trigger] s[i]) == word[i] as u32
}

fn matches_word(s: &str, word: &str) -> (r: bool)
    ensures
        r == same_word(s@, word@),
{
    let n = s.unicode_len();
    if n != word.unicode_len() {
        return false;
    }
    let mut i: usize = 0;
    while i < n
        invariant
            n == s@.len(),
            n == word@.len(),
            i <= n,
            forall|k: int| 0 <= k < i ==> lower_code(#[trigger] s@[k]) == word@[k] as u32,
        decreases n - i,
    {
        let c = s.get_char(i);
        let code: u32 = if 'A' <= c && c <= 'Z' {
            c as u32 + 32
        } else {
            c as u32
        };
        if code != word.get_char(i) as u32 {
            return false;
        }
        i += 1;
    }
    true
}

/// How a file dropped on the window is opened, by its extension: `mid`
/// and `midi` as a MIDI file, `sf2` as a soundfont, in any case; any other
/// is not opened.
pub fn dropped_kind(extension: &str) -> (r: Option<DroppedKind>)
    ensures
        r == if same_word(extension@, "mid"@) || same_word(extension@, "midi"@) {
            Some(DroppedKind::Midi)
        } else if same_word(extension@, "sf2"@) {
            Some(DroppedKind::SoundFont)
        } else {
            None
        },
{
    if matches_word(extension, "mid") || matches_word(extension, "midi") {
        Some(DroppedKind::Midi)
    } else if matches_word(extension, "sf2") {
        Some(DroppedKind::SoundFont)
    } else {
        None
    }
}

/// The colour of track `index`'s notes, as red, green and blue: a palette
/// of sixteen that repeats.
pub open spec fn palette(k: int) -> (u8, u8, u8) {
    if k == 0 {
        (0xBC, 0x3B, 0x2B)
    } else if k == 1 {
        (0x97, 0x96, 0x34)
    } else if k == 2 {
        (0xCE, 0x9B, 0x3B)
    } else if k == 3 {
        (0x54, 0x82, 0x86)
    } else if k == 4 {
        (0xA6, 0x66, 0x84)
    } else if k == 5 {
        (0x72, 0x9A, 0x6D)
    } else if k == 6 {
        (0xA4, 0x98, 0x85)
    } else if k == 7 {
        (0xC8, 0x65, 0x29)
    } else if k == 8 {
        (0xEA, 0x5A, 0x40)
    } else if k == 9 {
        (0xB8, 0xBA, 0x41)
    } else if k == 10 {
        (0xF2, 0xBE, 0x4A)
    } else if k == 11 {
        (0x88, 0xA2, 0x97)
    } else if k == 12 {
        (0xC8, 0x89, 0x99)
    } else if k == 13 {
        (0x96, 0xBD, 0x80)
    } else if k == 14 {
        (0xE8, 0xDB, 0xB4)
    } else {
        (0xF0, 0x87, 0x36)
    }
}

/// The colour of track `index`'s notes (see `palette`).
pub fn track_color(index: usize) -> (r: (u8, u8, u8))
    ensures
        r == palette((index % 16) as int),
{
    let k = index % 16;
    if k == 0 {
        (0xBC, 0x3B, 0x2B)
    } else if k == 1 {
        (0x97, 0x96, 0x34)
    } else if k == 2 {
        (0xCE, 0x9B, 0x3B)
    } else if k == 3 {
        (0x54, 0x82, 0x86)
    } else if k == 4 {
        (0xA6, 0x66, 0x84)
    } else if k == 5 {
        (0x72, 0x9A, 0x6D)
    } else if k == 6 {
        (0xA4, 0x98, 0x85)
    } else if k == 7 {
        (0xC8, 0x65, 0x29)
    } else if k == 8 {
        (0xEA, 0x5A, 0x40)
    } else if k == 9 {
        (0xB8, 0xBA, 0x41)
    } else if k == 10 {
        (0xF2, 0xBE, 0x4A)
    } else if k == 11 {
        (0x88, 0xA2, 0x97)
    } else if k == 12 {
        (0xC8, 0x89, 0x99)
    } else if k == 13 {
        (0x96, 0xBD, 0x80)
    } else if k == 14 {
        (0xE8, 0xDB, 0xB4)
    } else {
        (0xF0, 0x87, 0x36)
    }
}

/// How a track's notes are drawn: the original notes always, the flipped
/// ones only when flipping is on; the set being played is drawn in the
/// track's colour, the other greyed.
#[derive(Debug, Clone, Copy, PartialEq, Eq)]
pub struct PreviewPlan {
    pub draw_flipped: bool,
    pub original_in_colour: bool,
    pub flipped_in_colour: bool,
}

/// How a track's notes are drawn, given whether its flipping is on and
/// whether the original is being played.
pub fn preview_plan(flip_enabled: bool, playing_original: bool) -> (r: PreviewPlan)
    ensures
        r.draw_flipped == flip_enabled,
        r.original_in_colour == (!flip_enabled || playing_original),
        r.flipped_in_colour == (flip_enabled && !playing_original),
{
    if flip_enabled {
        PreviewPlan {
            draw_flipped: true,
            original_in_colour: playing_original,
            flipped_in_colour: !playing_original,
        }
    } else {
        PreviewPlan { draw_flipped: false, original_in_colour: true, flipped_in_colour: false }
    }
}

/// A label of the time line's meter: a tempo (on the lower row) or a time
/// signature (on the upper row).
pub enum MeterLabel {
    Tempo(String),
    Signature(String),
}

/// Beats per minute at `tempo` microseconds per quarter note, rounded down.
pub open spec fn bpm(tempo: u32) -> nat {
    (60_000_000int / (tempo as int)) as nat
}

/// The meter's label for a time-line event: `"<bpm>bpm"` for a tempo
/// change, `"<numerator>/<denominator>"` for a time signature, none for the
/// other events.
pub fn meter_label(meta: &MetaInfo) -> (r: Option<MeterLabel>)
    requires
        meta matches MetaInfo::SetTempo(t) ==> t > 0,
    ensures
        match *meta {
            MetaInfo::SetTempo(t) => r matches Some(MeterLabel::Tempo(s)) && s@ == decimal(bpm(t)) + "bpm"@,
            MetaInfo::TimeSignature(ts) => r matches Some(MeterLabel::Signature(s)) && s@ == decimal(
                ts.numerator as nat,
            ) + "/"@ + decimal(ts.denominator as nat),
            _ => r is None,
        },
{
    match meta {
        MetaInfo::SetTempo(t) => {
            let mut s = decimal_string(60_000_000u32 / *t);
            s.append("bpm");
            Some(MeterLabel::Tempo(s))
        },
        MetaInfo::TimeSignature(ts) => {
            let mut s = decimal_string(ts.numerator as u32);
            s.append("/");
            let d = decimal_string(ts.denominator as u32);
            s.append(d.as_str());
            Some(MeterLabel::Signature(s))
        },
        _ => None,
    }
}

/// `n` written in decimal with at least two digits.
pub open spec fn two_digits(n: nat) -> Seq<char> {
    if n < 10 {
        seq!['0'] + decimal(n)
    } else {
        decimal(n)
    }
}

/// A time of `ns` nanoseconds as whole minutes and seconds, `MM:SS`.
pub open spec fn duration_label(ns: u64) -> Seq<char> {
    let secs: nat = (ns / 1_000_000_000) as nat;
    two_digits(secs / 60) + seq![':'] + two_digits(secs % 60)
}

fn two_digit_string(n: u64) -> (r: String)
    requires
        n <= u32::MAX,
    ensures
        r@ == two_digits(n as nat),
{
    proof {
        reveal_strlit("0");
    }
    let d = decimal_string(n as u32);
    if n < 10 {
        let mut s = "0".to_owned();
        s.append(d.as_str());
        s
    } else {
        d
    }
}

/// A time in nanoseconds as `MM:SS` (see `duration_label`).
pub fn format_duration(ns: u64) -> (r: String)
    ensures
        r@ == duration_label(ns),
{
    proof {
        reveal_strlit(":");
    }
    let secs = ns / 1_000_000_000;
    let mut s = two_digit_string(secs / 60);
    s.append(":");
    let rest = two_digit_string(secs % 60);
    s.append(rest.as_str());
    s
}

} // verus!
