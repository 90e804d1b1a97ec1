//! The detection methods of the offset tool, and how the tool describes
//! them.

use vstd::prelude::*;

verus! {

/// How onsets are found in the audio.
#[derive(Clone, Copy, Debug, PartialEq, Eq, Structural)]
pub enum AudioMethod {
    /// Recommended. Lowest measured timing bias on game hit sounds.
    Superflux,
    /// Diagnostic only. Plain spectral flux tends to report late peaks.
    Spectral,
    /// Diagnostic only. Simple RMS-energy onset, less robust for music.
    Energy,
}

/// How notes are turned into a signal.
#[derive(Clone, Copy, Debug, PartialEq, Eq, Structural)]
pub enum NoteMethod {
    /// Recommended. Uses note kinds, caps dense chords, and downweights drag
    /// runs.
    PreprocessedGaussian,
    /// Diagnostic only. Ignores note kinds and uses every note equally.
    Gaussian,
}

/// The line the tool prints for an audio method.
pub fn audio_method_description(method: AudioMethod) -> (s: &'static str)
    ensures
        method == AudioMethod::Superflux ==> s@
            == "superflux (recommended; lowest measured hit-sound timing bias)"@,
        method == AudioMethod::Spectral ==> s@
            == "spectral flux (diagnostic; tends to report late peaks)"@,
        method == AudioMethod::Energy ==> s@
            == "energy diff (diagnostic; simple and less robust for music)"@,
{
    match method {
        AudioMethod::Superflux => "superflux (recommended; lowest measured hit-sound timing bias)",
        AudioMethod::Spectral => "spectral flux (diagnostic; tends to report late peaks)",
        AudioMethod::Energy => "energy diff (diagnostic; simple and less robust for music)",
    }
}

/// The line the tool prints for a note method.
pub fn note_method_description(method: NoteMethod) -> (s: &'static str)
    ensures
        method == NoteMethod::PreprocessedGaussian ==> s@
            == "preprocessed gaussian (recommended; uses note kinds)"@,
        method == NoteMethod::Gaussian ==> s@ == "gaussian (diagnostic; ignores note kinds)"@,
{
    match method {
        NoteMethod::PreprocessedGaussian => "preprocessed gaussian (recommended; uses note kinds)",
        NoteMethod::Gaussian => "gaussian (diagnostic; ignores note kinds)",
    }
}

} // verus!
