//! The kinds of failure of a conversion run.

use vstd::prelude::*;

verus! {

/// What can go wrong, by the step that failed.
#[derive(Clone, Copy, Debug, PartialEq, Eq, Structural)]
pub enum ConversionError {
    /// The root of the scan could not be read.
    ScanError,
    /// A directory could not be created under the output root.
    MirrorError,
    /// One of the first three lines of a source file is missing or is not
    /// a number.
    MalformedHeader,
    /// The table of a spectrum could not be written.
    ExportError,
}

impl ConversionError {
    /// Whether the failure ends the whole run. A failed scan or mirror
    /// does; a failure on one file leaves the other files untouched.
    pub open spec fn fatal(self) -> bool {
        self is ScanError || self is MirrorError
    }

    /// Tests whether the failure ends the whole run.
    pub fn is_fatal(&self) -> (r: bool)
        ensures
            r == self.fatal(),
    {
        match self {
            ConversionError::ScanError => true,
            ConversionError::MirrorError => true,
            ConversionError::MalformedHeader => false,
            ConversionError::ExportError => false,
        }
    }
}

} // verus!
