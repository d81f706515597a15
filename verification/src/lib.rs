//! Addressing and validation engine for a two-rack warehouse location picker.
//!
//! An operator supplies a raw string naming a storage sequence (1 through
//! 160). The engine maps it to a rack/cell coordinate or a typed validation
//! error, and owns the single highlighted cell; a separate tracker keeps the
//! set of currently displayed error messages, de-duplicated by error kind.
//! The dispatch module ties the two together so that every input modality
//! drives the same pipeline.

pub mod dispatch;
pub mod engine;
pub mod errors;
pub mod sequence;
