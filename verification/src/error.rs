//! Why a generation run is abandoned.

use vstd::prelude::*;

verus! {

/// The two ways in which a run can fail. A run that places nothing has not
/// failed: it returns an empty list.
#[derive(Clone, Copy, Debug, PartialEq, Eq, Structural)]
pub enum ProcgenError {
    /// A sampling range whose upper end is not above its lower end, or
    /// settings that leave the distances that placement works with.
    InvalidRange,
    /// A line that is no line, or a distance along a line that is not on it.
    MalformedGeometry,
}

impl ProcgenError {
    /// A short description for a message to the user.
    pub fn describe(&self) -> (text: &'static str)
        ensures
            *self == ProcgenError::InvalidRange ==> text@ == "invalid sampling range"@,
            *self == ProcgenError::MalformedGeometry ==> text@ == "malformed geometry"@,
    {
        match self {
            ProcgenError::InvalidRange => "invalid sampling range",
            ProcgenError::MalformedGeometry => "malformed geometry",
        }
    }
}

} // verus!
