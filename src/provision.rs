//! The decision that keeps the shader compiler's build directory configured.
use vstd::prelude::*;

verus! {

/// What to do with the compiler's build directory before building it.
#[derive(Debug, Clone, Copy, PartialEq, Eq, Structural)]
pub enum SetupAction {
    /// The directory is not configured: configure it.
    Configure,
    /// It is configured for another source directory: configure it again.
    Reconfigure,
    /// It is configured for this source directory: build as it is.
    Keep,
}

/// The setup step for a build directory, from whether it is configured and
/// whether the source directory it was configured for is this one.
pub fn setup_action(configured: bool, source_dir_matches: bool) -> (r: SetupAction)
    ensures
        !configured ==> r == SetupAction::Configure,
        configured && !source_dir_matches ==> r == SetupAction::Reconfigure,
        configured && source_dir_matches ==> r == SetupAction::Keep,
{
    if !configured {
        SetupAction::Configure
    } else if !source_dir_matches {
        SetupAction::Reconfigure
    } else {
        SetupAction::Keep
    }
}

} // verus!
