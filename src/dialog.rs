use vstd::prelude::*;

use crate::loader::LoadError;

verus! {

/// What one round of picking and loading a file came to.
#[derive(Debug, Clone, Copy, PartialEq, Eq, Structural)]
pub enum PickOutcome {
    /// The file picker was closed without a file.
    Cancelled,
    /// The picked file loaded.
    Loaded,
    /// The picked file failed to load.
    Failed(LoadError),
}

/// What to do after a round of picking and loading.
#[derive(Debug, Clone, Copy, PartialEq, Eq, Structural)]
pub enum LoadStep {
    /// Show the points just loaded.
    ShowLoaded,
    /// Show the default points.
    ShowDefault,
    /// Open the file picker again.
    PickAgain,
    /// Stop, keeping what is shown.
    Stop,
}

/// The decision after one round: loaded points are shown; a file with no
/// record gives way to the default points; any other failure asks for another
/// file; a cancelled picker ends the loading.
pub fn next_step(outcome: PickOutcome) -> (r: LoadStep)
    ensures
        outcome == PickOutcome::Cancelled ==> r == LoadStep::Stop,
        outcome == PickOutcome::Loaded ==> r == LoadStep::ShowLoaded,
        outcome == PickOutcome::Failed(LoadError::EmptyResultError) ==> r == LoadStep::ShowDefault,
        (outcome matches PickOutcome::Failed(e) && e != LoadError::EmptyResultError) ==> r
            == LoadStep::PickAgain,
{
    match outcome {
        PickOutcome::Cancelled => LoadStep::Stop,
        PickOutcome::Loaded => LoadStep::ShowLoaded,
        PickOutcome::Failed(LoadError::EmptyResultError) => LoadStep::ShowDefault,
        PickOutcome::Failed(_) => LoadStep::PickAgain,
    }
}

/// Whether the last load counts as a success after this round: a load sets
/// it, a cancelled picker clears it, and a failure leaves it as it was.
pub fn succeeded_after(succeeded: bool, outcome: PickOutcome) -> (r: bool)
    ensures
        outcome == PickOutcome::Cancelled ==> !r,
        outcome == PickOutcome::Loaded ==> r,
        outcome is Failed ==> r == succeeded,
{
    match outcome {
        PickOutcome::Cancelled => false,
        PickOutcome::Loaded => true,
        PickOutcome::Failed(_) => succeeded,
    }
}

} // verus!
