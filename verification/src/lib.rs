//! The output-normalization layer of a one-line shell prompt: it takes the
//! engine's raw pipeline result, fully materialized at the process boundary,
//! and deterministically turns it into a small, renderer-agnostic display
//! model. A uniform list of keyed records becomes a rectangular table whose
//! header keeps first-seen column order; everything else stays a value, a
//! list, raw bytes, or the absence of a result.

/// The shell session's failure taxonomy and its displayable messages.
pub mod error;
/// The classifier from raw pipeline results to the display model.
pub mod output;
/// The synthesizer from keyed records to rectangular tables.
pub mod table;
/// Renderer-agnostic display styles.
pub mod theme;
/// The structured value model the classifier reads.
pub mod value;
