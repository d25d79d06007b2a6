//! What the kernel decides when the sidecar has strategies stopped and started.

use vstd::prelude::*;

use crate::user_pnl::inputs::StopOutcome;

verus! {

/// The state of a component of the node.
#[derive(Clone, Copy, Debug, PartialEq, Eq, Structural)]
pub enum ComponentState {
    /// Made, but not set up.
    PreInitialized,
    /// Set up.
    Ready,
    /// On the way to running.
    Starting,
    /// Running.
    Running,
    /// On the way to being stopped.
    Stopping,
    /// Stopped.
    Stopped,
    /// On the way from stopped to running.
    Resuming,
    /// On the way back to ready.
    Resetting,
    /// On the way to being disposed of.
    Disposing,
    /// Disposed of.
    Disposed,
    /// On the way to being degraded.
    Degrading,
    /// Running with restrictions.
    Degraded,
    /// On the way to being faulted.
    Faulting,
    /// Shut down by a fault.
    Faulted,
}

/// What came of asking a strategy to stop. The trader may take the request and still put the stop
/// off, so the strategy counts as stopped only where its component is.
pub fn stop_outcome(accepted: bool, state_after: Option<ComponentState>) -> (outcome: StopOutcome)
    ensures
        outcome == if !accepted {
            StopOutcome::Failed
        } else if state_after == Some(ComponentState::Stopped) {
            StopOutcome::Stopped
        } else {
            StopOutcome::Deferred
        },
{
    if !accepted {
        return StopOutcome::Failed;
    }
    match state_after {
        Some(ComponentState::Stopped) => StopOutcome::Stopped,
        _ => StopOutcome::Deferred,
    }
}

/// Why a strategy cannot be started.
#[derive(Clone, Copy, Debug, PartialEq, Eq, Structural)]
pub enum StartError {
    /// The strategy is not registered on the trader.
    NotRegistered,
}

/// Whether the trader is to be asked to start a strategy. It is, and its answer stands, unless the
/// strategy's component runs: then a registered strategy is left alone, and one that is not
/// registered is an error.
pub fn needs_start(registered: bool, state: Option<ComponentState>) -> (result: Result<
    bool,
    StartError,
>)
    ensures
        result == if state != Some(ComponentState::Running) {
            Ok(true)
        } else if registered {
            Ok(false)
        } else {
            Err(StartError::NotRegistered)
        },
{
    match state {
        Some(ComponentState::Running) => if registered {
            Ok(false)
        } else {
            Err(StartError::NotRegistered)
        },
        _ => Ok(true),
    }
}

} // verus!
