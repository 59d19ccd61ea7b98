//! Recognition of the played note from a magnitude spectrum.
pub mod target_notes;

pub use target_notes::TargetNotes;
pub mod algorithm;
pub mod analysis_result;

pub use analysis_result::AnalysisResult;
