//! The playback decisions: what the session asks of the audio player when
//! the user plays, pauses or stops, given what the player is doing.
use vstd::prelude::*;

verus! {

/// What the audio player reports: whether it is paused, and whether it has
/// run out of sound (the song ended or was stopped).
#[derive(Debug, Clone, Copy, PartialEq, Eq)]
pub struct PlayerStatus {
    pub paused: bool,
    pub empty: bool,
}

/// There is a player, not paused, with sound left.
pub open spec fn playing(p: Option<PlayerStatus>) -> bool {
    p matches Some(s) && !s.paused && !s.empty
}

/// There is a player with sound left, paused or not.
pub open spec fn in_progress(p: Option<PlayerStatus>) -> bool {
    p matches Some(s) && !s.empty
}

/// Whether the song is being heard now.
pub fn is_playing(p: Option<PlayerStatus>) -> (r: bool)
    ensures
        r == playing(p),
{
    match p {
        Some(s) => !s.paused && !s.empty,
        None => false,
    }
}

/// Whether a song is under way, paused or not.
pub fn is_playback_in_progress(p: Option<PlayerStatus>) -> (r: bool)
    ensures
        r == in_progress(p),
{
    match p {
        Some(s) => !s.empty,
        None => false,
    }
}

/// How the player is set playing.
#[derive(Debug, Clone, Copy, PartialEq, Eq)]
pub enum PlayStep {
    /// Stop what is there and start the song from its beginning.
    StartNew,
    /// Let the player under way go on.
    Resume,
}

/// How the file is handed to the synthesizer after the tracks changed.
#[derive(Debug, Clone, Copy, PartialEq, Eq)]
pub enum RefreshMode {
    /// Swap the song under the player, keeping its position and pause.
    Swap,
    /// Stop and set the new song.
    Replace,
}

/// What playing asks: give the synthesizer the file first if it has none,
/// then start or resume, then move to the cursor if the song was not under
/// way.
#[derive(Debug, Clone, Copy, PartialEq, Eq)]
pub struct PlayPlan {
    pub refresh_first: bool,
    pub step: PlayStep,
    pub seek_to_cursor: bool,
}

/// What the transport shortcuts ask.
#[derive(Debug, Clone, Copy, PartialEq, Eq)]
pub enum TransportCommand {
    Play,
    Pause,
    Stop,
    Nothing,
}

/// A song under way is resumed; otherwise a new one is started.
pub fn play_step(p: Option<PlayerStatus>) -> (r: PlayStep)
    ensures
        r == if in_progress(p) {
            PlayStep::Resume
        } else {
            PlayStep::StartNew
        },
{
    if is_playback_in_progress(p) {
        PlayStep::Resume
    } else {
        PlayStep::StartNew
    }
}

/// A song under way is swapped in place; otherwise it is replaced.
pub fn refresh_mode(p: Option<PlayerStatus>) -> (r: RefreshMode)
    ensures
        r == if in_progress(p) {
            RefreshMode::Swap
        } else {
            RefreshMode::Replace
        },
{
    if is_playback_in_progress(p) {
        RefreshMode::Swap
    } else {
        RefreshMode::Replace
    }
}

/// What playing the session asks, given whether the synthesizer has a file
/// and what the player is doing.
pub fn plan_play(has_midi_file: bool, p: Option<PlayerStatus>) -> (r: PlayPlan)
    ensures
        r.refresh_first == !has_midi_file,
        r.step == (if in_progress(p) {
            PlayStep::Resume
        } else {
            PlayStep::StartNew
        }),
        r.seek_to_cursor == !in_progress(p),
{
    let under_way = is_playback_in_progress(p);
    PlayPlan { refresh_first: !has_midi_file, step: play_step(p), seek_to_cursor: !under_way }
}

/// The play/stop shortcut: play when nothing is heard, else stop.
pub fn play_stop_shortcut(p: Option<PlayerStatus>) -> (r: TransportCommand)
    ensures
        r == if playing(p) {
            TransportCommand::Stop
        } else {
            TransportCommand::Play
        },
{
    if is_playing(p) {
        TransportCommand::Stop
    } else {
        TransportCommand::Play
    }
}

/// The pause shortcut: while a song is under way, pause it when it is
/// heard, else go on playing; nothing otherwise.
pub fn pause_shortcut(p: Option<PlayerStatus>) -> (r: TransportCommand)
    ensures
        r == if !in_progress(p) {
            TransportCommand::Nothing
        } else if playing(p) {
            TransportCommand::Pause
        } else {
            TransportCommand::Play
        },
{
    if !is_playback_in_progress(p) {
        TransportCommand::Nothing
    } else if is_playing(p) {
        TransportCommand::Pause
    } else {
        TransportCommand::Play
    }
}

/// The picture on the play button.
#[derive(Debug, Clone, Copy, PartialEq, Eq)]
pub enum PlayIcon {
    Pause,
    Resume,
    Play,
}

/// The play button: it shows pause while the song is heard (and pauses
/// it), resume while a song is paused, play otherwise (and plays).
pub fn play_button(p: Option<PlayerStatus>) -> (r: (PlayIcon, TransportCommand))
    ensures
        r.0 == if playing(p) {
            PlayIcon::Pause
        } else if in_progress(p) {
            PlayIcon::Resume
        } else {
            PlayIcon::Play
        },
        r.1 == if playing(p) {
            TransportCommand::Pause
        } else {
            TransportCommand::Play
        },
{
    if is_playing(p) {
        (PlayIcon::Pause, TransportCommand::Pause)
    } else if is_playback_in_progress(p) {
        (PlayIcon::Resume, TransportCommand::Play)
    } else {
        (PlayIcon::Play, TransportCommand::Play)
    }
}

/// Which entries of the playback menu can be chosen, and whether the stop
/// entry shows the play/stop shortcut.
#[derive(Debug, Clone, Copy, PartialEq, Eq)]
pub struct PlaybackMenu {
    pub play: bool,
    pub pause: bool,
    pub stop: bool,
    pub stop_shows_shortcut: bool,
}

/// The playback menu: with a file open, play while nothing is heard, pause
/// while the song is heard, stop while a song is under way; the play/stop
/// shortcut stops only a song that is heard or starts one that is not
/// under way.
pub fn playback_menu(has_session: bool, p: Option<PlayerStatus>) -> (r: PlaybackMenu)
    ensures
        r.play == (has_session && !playing(p)),
        r.pause == (has_session && playing(p)),
        r.stop == (has_session && in_progress(p)),
        r.stop_shows_shortcut == (!in_progress(p) || playing(p)),
{
    let heard = is_playing(p);
    let under_way = is_playback_in_progress(p);
    PlaybackMenu {
        play: has_session && !heard,
        pause: has_session && heard,
        stop: has_session && under_way,
        stop_shows_shortcut: !under_way || heard,
    }
}

/// A song that is heard is under way.
pub proof fn lemma_playing_in_progress(p: Option<PlayerStatus>)
    ensures
        playing(p) ==> in_progress(p),
{
}

} // verus!
