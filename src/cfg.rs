use vstd::prelude::*;

verus! {

/// Settings of the practice game.
#[derive(Clone, Copy, Debug)]
pub struct GameCfg {
    /// First fret and the fret after the last one.
    pub fret_range: (usize, usize),
    /// First string (from 1) and the string after the last one.
    pub string_range: (usize, usize),
    /// Detections of the target needed to accept it.
    pub note_count_for_acceptance: usize,
    /// The state is sent again after every this many detections.
    pub state_update_period: usize,
}

/// Settings of the text rendering of the fretboard.
#[derive(Clone, Debug)]
pub struct ConsoleCfg {
    pub fret_size: usize,
    pub string_char: String,
    pub fret_char: String,
    pub empty_char: String,
    pub sep_str: String,
    pub open_sep_str: String,
    pub frets_to_number: Vec<usize>,
    pub n_space_between_strings: usize,
}

} // verus!
