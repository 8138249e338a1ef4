//! The session state machine: typed states, events, and the transition table.

use vstd::prelude::*;

verus! {

/// The states a session can be in. Exactly one holds at any time.
#[derive(Clone, Copy, Debug, PartialEq, Eq, Structural)]
pub enum AppState {
    /// Waiting for the user to type a query.
    Input,
    /// An LLM request is in flight.
    Thinking,
    /// A proposed tool call awaits the user's confirmation.
    ReviewAction,
    /// A confirmed action is running in the background.
    Executing,
    /// The action's result was fed back; an analysis request is in flight.
    Finalizing,
}

impl Default for AppState {
    /// A fresh session starts at the input prompt.
    fn default() -> (r: Self)
        ensures
            r == AppState::Input,
    {
        AppState::Input
    }
}

/// The events the state machine reacts to.
#[derive(Clone, Copy, Debug, PartialEq, Eq, Structural)]
pub enum StateEvent {
    SubmitInput { is_empty: bool },
    ToolCallReceived,
    TextResponseReceived,
    ApiError,
    ExecuteConfirmed,
    ExecuteCancelled,
    CommandComplete,
    AnalysisComplete,
}

/// The outcome of feeding one event to the machine.
#[derive(Debug)]
pub enum TransitionResult {
    /// The event was legal; the machine moved to this state.
    Success(AppState),
    /// The event is not meaningful in the current state; nothing changes.
    Ignored,
    /// The event is an error the user should see; nothing changes.
    Error(String),
}

/// The transition table. `None` means the event is ignored in that state.
pub open spec fn spec_transition(state: AppState, event: StateEvent) -> Option<AppState> {
    match (state, event) {
        (AppState::Input, StateEvent::SubmitInput { is_empty }) => if is_empty {
            None
        } else {
            Some(AppState::Thinking)
        },
        (AppState::Thinking, StateEvent::ToolCallReceived) => Some(AppState::ReviewAction),
        (AppState::Thinking, StateEvent::TextResponseReceived) => Some(AppState::Input),
        (AppState::Thinking, StateEvent::ApiError) => Some(AppState::Input),
        (AppState::ReviewAction, StateEvent::ExecuteConfirmed) => Some(AppState::Executing),
        (AppState::ReviewAction, StateEvent::ExecuteCancelled) => Some(AppState::Input),
        (AppState::Executing, StateEvent::CommandComplete) => Some(AppState::Finalizing),
        (AppState::Finalizing, StateEvent::ApiError) => Some(AppState::Input),
        (AppState::Finalizing, StateEvent::AnalysisComplete) => Some(AppState::Input),
        (AppState::Finalizing, StateEvent::TextResponseReceived) => Some(AppState::Input),
        (AppState::Finalizing, StateEvent::ToolCallReceived) => Some(AppState::ReviewAction),
        _ => None,
    }
}

/// Feed one event to the machine. Legal transitions succeed; every other
/// combination is ignored, never an error and never a silent wrong move.
pub fn transition(state: AppState, event: StateEvent) -> (r: TransitionResult)
    ensures
        match spec_transition(state, event) {
            Some(next) => r == TransitionResult::Success(next),
            None => r is Ignored,
        },
{
    match (state, event) {
        (AppState::Input, StateEvent::SubmitInput { is_empty }) => if is_empty {
            TransitionResult::Ignored
        } else {
            TransitionResult::Success(AppState::Thinking)
        },
        (AppState::Thinking, StateEvent::ToolCallReceived) => TransitionResult::Success(
            AppState::ReviewAction,
        ),
        (AppState::Thinking, StateEvent::TextResponseReceived) => TransitionResult::Success(
            AppState::Input,
        ),
        (AppState::Thinking, StateEvent::ApiError) => TransitionResult::Success(AppState::Input),
        (AppState::ReviewAction, StateEvent::ExecuteConfirmed) => TransitionResult::Success(
            AppState::Executing,
        ),
        (AppState::ReviewAction, StateEvent::ExecuteCancelled) => TransitionResult::Success(
            AppState::Input,
        ),
        (AppState::Executing, StateEvent::CommandComplete) => TransitionResult::Success(
            AppState::Finalizing,
        ),
        (AppState::Finalizing, StateEvent::ApiError) => TransitionResult::Success(AppState::Input),
        (AppState::Finalizing, StateEvent::AnalysisComplete) => TransitionResult::Success(
            AppState::Input,
        ),
        (AppState::Finalizing, StateEvent::TextResponseReceived) => TransitionResult::Success(
            AppState::Input,
        ),
        (AppState::Finalizing, StateEvent::ToolCallReceived) => TransitionResult::Success(
            AppState::ReviewAction,
        ),
        _ => TransitionResult::Ignored,
    }
}

} // verus!
