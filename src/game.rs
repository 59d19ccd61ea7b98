//! The practice game: notes on the fretboard and the state machine that
//! checks the notes heard against the target.
pub mod active_notes;

pub use active_notes::ActiveNotes;
pub mod game_state;
pub mod game_logic;

pub use game_logic::{GameError, GameErrorKind, GameLogic, GameStep};
pub use game_state::GameState;
