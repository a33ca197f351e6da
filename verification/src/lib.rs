//! Tarjama: offline Turkish speech to Arabic subtitles.
//!
//! The library holds the parts of the application that compute: subtitle
//! writers, glossary, WAV container parsing, the engine's pipeline decisions,
//! the translator's model bookkeeping, the GUI's state and its engine
//! supervision, and the small parsers both processes share.

pub mod text;
pub mod model;
pub mod srt;
pub mod glossary;
pub mod wav;
pub mod pipeline;
pub mod engine;
pub mod translate;
pub mod supervisor;
pub mod ui;
