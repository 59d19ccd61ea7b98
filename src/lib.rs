//! Pitch recognition and fretboard practice logic for a guitar trainer.
//!
//! The library holds the musical catalogue (notes, registry, tuning), the
//! integer spectral pipeline that turns a magnitude spectrum into a note, and
//! the practice state machine that consumes recognised notes.
pub mod audio_analysis;
pub mod cfg;
pub mod game;
pub mod music;
pub mod sorting;

pub use audio_analysis::algorithm::{find_note, find_peaks, moving_avg, most_common, Peak};
pub use audio_analysis::{AnalysisResult, TargetNotes};
pub use cfg::{ConsoleCfg, GameCfg};
pub use game::active_notes::{active_locations, locs2notes};
pub use game::{ActiveNotes, GameError, GameErrorKind, GameLogic, GameState, GameStep};
pub use music::{
    DuplicateNoteError, FretLoc, FretRange, InvalidTuningError, Note, NoteName, NoteRegistry,
    StringRange, Tuning, TuningFault, TuningSpecification,
};
