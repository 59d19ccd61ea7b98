//! The musical catalogue: pitch classes, notes, the registry of known notes,
//! tunings and fretboard coordinates.
pub mod note_name;
pub mod note;

pub use note::Note;
pub use note_name::NoteName;
pub mod note_order;
pub mod note_registry;

pub use note_registry::{DuplicateNoteError, NoteRegistry};
pub mod tuning;
pub mod fretboard;

pub use fretboard::{FretLoc, FretRange, StringRange};
pub use tuning::{InvalidTuningError, Tuning, TuningFault, TuningSpecification};
