use vstd::prelude::*;
use crate::music::note::Note;

verus! {

/// What recognition made of one block of audio.
#[derive(Clone, Copy, Debug)]
pub struct AnalysisResult {
    pub note: Option<Note>,
}

} // verus!
