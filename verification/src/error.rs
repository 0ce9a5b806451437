//! What can go wrong while skyboxes are merged, and how far each failure
//! reaches.

use vstd::prelude::*;

verus! {

/// A failure of the run, of one group, or of one clean-up step.
#[derive(Clone, Copy, Debug, PartialEq, Eq, Structural)]
pub enum SkyboxError {
    /// Fewer than six tiles were found in all.
    TooFewTiles,
    /// A group does not hold exactly one tile for each of the six faces.
    IncompleteGroup,
    /// A tile's size differs from that of the group's first tile.
    DimensionMismatch,
    /// The first tile of a group, which sets the size of the canvas, could
    /// not be decoded.
    ReferenceDecode,
    /// A tile other than the first of its group could not be decoded.
    TileDecode,
    /// The composed canvas could not be written.
    Encode,
    /// A source file could not be removed after its group was merged.
    Delete,
}

/// How far a failure reaches.
#[derive(Clone, Copy, Debug, PartialEq, Eq, Structural)]
pub enum Severity {
    /// The whole run ends, before or instead of any further merging.
    Run,
    /// The group is given up: nothing is written for it, none of its files
    /// is removed; the other groups go on.
    Group,
    /// The group stays merged; the failure is only reported.
    Warning,
}

impl SkyboxError {
    /// How far this failure reaches.
    pub open spec fn spec_severity(self) -> Severity {
        match self {
            SkyboxError::TooFewTiles => Severity::Run,
            SkyboxError::ReferenceDecode => Severity::Run,
            SkyboxError::IncompleteGroup => Severity::Group,
            SkyboxError::DimensionMismatch => Severity::Group,
            SkyboxError::TileDecode => Severity::Group,
            SkyboxError::Encode => Severity::Group,
            SkyboxError::Delete => Severity::Warning,
        }
    }

    /// How far this failure reaches.
    pub fn severity(self) -> (severity: Severity)
        ensures
            severity == self.spec_severity(),
    {
        match self {
            SkyboxError::TooFewTiles => Severity::Run,
            SkyboxError::ReferenceDecode => Severity::Run,
            SkyboxError::IncompleteGroup => Severity::Group,
            SkyboxError::DimensionMismatch => Severity::Group,
            SkyboxError::TileDecode => Severity::Group,
            SkyboxError::Encode => Severity::Group,
            SkyboxError::Delete => Severity::Warning,
        }
    }
}

} // verus!
