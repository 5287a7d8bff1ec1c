//! The settings kept between runs.
use vstd::prelude::*;

use std::path::PathBuf;

verus! {

/// A file-system path, as std has it; the library only carries it.
#[verifier::external_type_specification]
#[verifier::external_body]
pub struct ExPathBuf(PathBuf);

/// The settings kept between runs: the folder files were last opened from,
/// the soundfont chosen, and whether the window is drawn with a border.
pub struct AppSettings {
    pub workdir: Option<PathBuf>,
    pub custom_soundfont_path: Option<PathBuf>,
    pub border: bool,
}

impl Default for AppSettings {
    /// No folder, the built-in soundfont, no border.
    fn default() -> (r: Self)
        ensures
            r.workdir is None,
            r.custom_soundfont_path is None,
            !r.border,
    {
        Self { workdir: None, custom_soundfont_path: None, border: false }
    }
}

} // verus!
