//! Where records come from: the two kinds of input, told apart by the name
//! of the file.

use vstd::prelude::*;
use crate::text::{ends_with, has_suffix};

verus! {

/// The kinds of input that records are read from.
#[derive(Debug, Clone, Copy, PartialEq, Eq, Structural)]
pub enum InputFormat {
    /// The exported table, `memories_history.html`.
    MemoriesHtml,
    /// The delimited file, `snap_export.csv`.
    SnapExportCsv,
}

/// Why no records could be read from an input.
#[derive(Debug, Clone, Copy, PartialEq, Eq, Structural)]
pub enum SourceError {
    /// The file could not be opened or read.
    UnreadableFile,
    /// The file's name is that of neither kind of input.
    UnsupportedFormat,
}

/// The kind of input that a file of this name holds, if it is one of the
/// two. The name of the table export is looked for first.
pub open spec fn format_of(path: Seq<char>) -> Option<InputFormat> {
    if has_suffix(path, "memories_history.html"@) {
        Some(InputFormat::MemoriesHtml)
    } else if has_suffix(path, "snap_export.csv"@) {
        Some(InputFormat::SnapExportCsv)
    } else {
        None
    }
}

/// Tells from the name of a file which kind of input it holds. A name that
/// ends in neither `memories_history.html` nor `snap_export.csv` is
/// refused as `UnsupportedFormat`, before anything is read.
pub fn detect_format(path: &str) -> (format: Result<InputFormat, SourceError>)
    ensures
        format == match format_of(path@) {
            Some(kind) => Ok::<InputFormat, SourceError>(kind),
            None => Err(SourceError::UnsupportedFormat),
        },
{
    if ends_with(path, "memories_history.html") {
        Ok(InputFormat::MemoriesHtml)
    } else if ends_with(path, "snap_export.csv") {
        Ok(InputFormat::SnapExportCsv)
    } else {
        Err(SourceError::UnsupportedFormat)
    }
}

} // verus!
