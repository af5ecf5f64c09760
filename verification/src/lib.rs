//! Streaming injection of a script payload into an HTML byte stream.
//!
//! The crate receives a document as a sequence of byte chunks of arbitrary,
//! caller-chosen size, finds the first case-insensitive `<head ...>` (or
//! self-closing `<head/>`) opening tag across chunk boundaries, and emits the
//! document with a payload inserted exactly once, immediately after the
//! closing `>` of that tag, or appended at the end of the stream when no such
//! tag appears.  Output is produced as references into the current chunk, the
//! owned payload, or the small bounded carry buffer; document bytes are never
//! copied except for the bounded carry across chunk boundaries.
//!
//! A second, independent component builds the payload itself: a script
//! snippet formatted from a typed configuration, with every non-ASCII
//! character escaped so the result is safe whatever the host page's encoding.

pub mod config;
pub mod injector;
pub mod laws;
pub mod scan;
pub mod snippet;

pub use config::{Configuration, Error, JsonFragment, PrivacyLevel, RumConfiguration};
pub use injector::{Injector, InjectorResult, InjectorState, OutputSlice, UsageError};
pub use scan::Locator;
pub use snippet::{format_cdn_url, generate_snippet};
