//! Subtitle tracks from dive telemetry.
//!
//! A dive computer logs timestamped depth samples and, at the end of a dive,
//! a few statistics.  This crate turns such records into numbered subtitle
//! entries with begin and end timecodes, so that the depth can be shown over
//! a video of the dive, and merges the statistics of several logs into one
//! closing card.
//!
//! Every function here is verified: besides being free of overflow and
//! panics, each one is proved to return what its contract states.

pub mod cli;
pub mod error;
pub mod gui;
pub mod record;
pub mod srt_iter;
pub mod summary;
pub mod text;
pub mod time_delta;
pub mod window;

pub use error::Fit2SrtError;
pub use record::{Field, Record, RecordKind, Timestamp, Value};
pub use srt_iter::{SrtGenerator, SrtIter};
pub use summary::Summary;
pub use time_delta::{delta_srt_format, TimeDelta};
