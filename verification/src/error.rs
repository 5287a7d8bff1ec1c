//! What can go wrong when a file is opened.
use vstd::prelude::*;

verus! {

/// Why a file could not be opened. The first three carry the text of the
/// underlying error.
pub enum MidiFlipperError {
    /// The file could not be read.
    Io(String),
    /// The bytes are not a standard MIDI file.
    MidiParse(String),
    /// The bytes are not a soundfont.
    FontParse(String),
    /// The file parsed, but its re-encoding did not.
    MidiValidationFailed,
}

/// The message shown to the user for an error.
pub open spec fn error_message(e: MidiFlipperError) -> Seq<char> {
    match e {
        MidiFlipperError::Io(_) => "IO Error"@,
        MidiFlipperError::MidiParse(_) => "Couldn't parse MIDI file"@,
        MidiFlipperError::FontParse(_) => "Couldn't parse soundfont"@,
        MidiFlipperError::MidiValidationFailed => "MIDI file failed validation"@,
    }
}

/// The text written to the log for an error: that of the underlying error
/// where there is one, else the message.
pub open spec fn error_detail(e: MidiFlipperError) -> Seq<char> {
    match e {
        MidiFlipperError::Io(s) => s@,
        MidiFlipperError::MidiParse(s) => s@,
        MidiFlipperError::FontParse(s) => s@,
        MidiFlipperError::MidiValidationFailed => error_message(e),
    }
}

impl MidiFlipperError {
    /// The message shown to the user.
    pub fn message(&self) -> (r: String)
        ensures
            r@ == error_message(*self),
    {
        match self {
            MidiFlipperError::Io(_) => "IO Error".to_owned(),
            MidiFlipperError::MidiParse(_) => "Couldn't parse MIDI file".to_owned(),
            MidiFlipperError::FontParse(_) => "Couldn't parse soundfont".to_owned(),
            MidiFlipperError::MidiValidationFailed => "MIDI file failed validation".to_owned(),
        }
    }

    /// The text written to the log.
    pub fn detail(&self) -> (r: String)
        ensures
            r@ == error_detail(*self),
    {
        match self {
            MidiFlipperError::Io(s) => s.clone(),
            MidiFlipperError::MidiParse(s) => s.clone(),
            MidiFlipperError::FontParse(s) => s.clone(),
            MidiFlipperError::MidiValidationFailed => self.message(),
        }
    }
}

} // verus!
