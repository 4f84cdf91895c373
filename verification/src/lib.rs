//! A multi-language source-code metrics library.
//!
//! Files are classified by language through an ordered registry of
//! language descriptors, structural occurrences (functions, variables,
//! loops, and language-specific categories) are counted by running
//! opaque patterns against the parsed file, and per-language statistics
//! are aggregated with a commutative, associative merge so that results
//! do not depend on how work was split across workers.

pub mod analyze;
pub mod ignore;
pub mod language_utils;
pub mod languages;
pub mod lines;
pub mod matcher;
pub mod partition;
pub mod stats;
