use vstd::prelude::*;
use crate::music::fretboard::FretLoc;
use crate::music::note::Note;

verus! {

/// Snapshot of the game: the target and how often it was heard so far.
#[derive(Clone, Copy, Debug)]
pub struct GameState {
    pub target_note: Note,
    pub target_loc: FretLoc,
    pub needed_detection_count: usize,
    pub curr_detection_count: usize,
}

} // verus!
