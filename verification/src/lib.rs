//! Snapdown's core: what it takes to turn a data export into a list of
//! downloads, without the network and the disk.
//!
//! - `scan` finds a tag in one chunk of a stream.
//! - `parser` reads an exported table chunk by chunk and collects its rows.
//! - `record` says what is known of a row.
//! - `source` tells the two kinds of input apart.
//! - `resolver` names the file that a row is downloaded to.
//! - `fetch` decides the steps of a download and how it ends.
//! - `progress` counts how the downloads ended.
//! - `args` reads the command line.
//! - `session` holds what a window shows of a run.
//! - `text` has the helpers on strings that the others share.

pub mod args;
pub mod fetch;
pub mod parser;
pub mod progress;
pub mod record;
pub mod resolver;
pub mod scan;
pub mod session;
pub mod source;
pub mod text;
