//! Text shown to the user: colours, report formats and completions.
pub mod colors;
pub mod analysis;
pub mod completer;
pub mod policies;
pub mod options;
