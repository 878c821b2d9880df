//! Version polling for a set of tracked software packages: upstream
//! classification, per-channel probe defaulting, a probabilistic sampling
//! throttle, normalization of raw probe output, merge-and-fallback of
//! per-package results, and the persisted result formats.

pub mod args;
pub mod bulk;
pub mod codec;
pub mod package;
pub mod probe;
pub mod shortform;
pub mod strutil;
pub mod upstream;
pub mod version;
