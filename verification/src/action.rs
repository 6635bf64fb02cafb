//! The container actions the monitor offers: safe lifecycle operations only.
use vstd::prelude::*;

use crate::model::ContainerRow;
use crate::text::chars_eq_str;

verus! {

#[derive(Clone, Copy, Debug, Eq, PartialEq, Structural)]
pub enum ContainerAction {
    Start,
    Stop,
    Restart,
    Pause,
    Unpause,
}

/// The container states in which `action` can be applied.
pub open spec fn available_in(action: ContainerAction, state: Seq<char>) -> bool {
    match action {
        ContainerAction::Start => state == "exited"@ || state == "created"@,
        ContainerAction::Stop | ContainerAction::Restart => state == "running"@,
        ContainerAction::Pause => state == "running"@,
        ContainerAction::Unpause => state == "paused"@,
    }
}

pub open spec fn action_label(action: ContainerAction) -> Seq<char> {
    match action {
        ContainerAction::Start => "start"@,
        ContainerAction::Stop => "stop"@,
        ContainerAction::Restart => "restart"@,
        ContainerAction::Pause => "pause"@,
        ContainerAction::Unpause => "unpause"@,
    }
}

impl ContainerAction {
    pub fn label(self) -> (r: &'static str)
        ensures
            r@ == action_label(self),
    {
        match self {
            ContainerAction::Start => "start",
            ContainerAction::Stop => "stop",
            ContainerAction::Restart => "restart",
            ContainerAction::Pause => "pause",
            ContainerAction::Unpause => "unpause",
        }
    }

    /// Disruptive actions (stop, restart, pause) ask for confirmation.
    pub fn requires_confirmation(self) -> (r: bool)
        ensures
            r == (self is Stop || self is Restart || self is Pause),
    {
        match self {
            ContainerAction::Stop | ContainerAction::Restart | ContainerAction::Pause => true,
            _ => false,
        }
    }

    /// Whether the action applies to the container in its current state.
    pub fn available_for(self, container: &ContainerRow) -> (r: bool)
        ensures
            r == available_in(self, container.state@),
    {
        let state = crate::text::chars_of(container.state.as_str());
        match self {
            ContainerAction::Start => chars_eq_str(&state, "exited") || chars_eq_str(
                &state,
                "created",
            ),
            ContainerAction::Stop | ContainerAction::Restart => chars_eq_str(&state, "running"),
            ContainerAction::Pause => chars_eq_str(&state, "running"),
            ContainerAction::Unpause => chars_eq_str(&state, "paused"),
        }
    }
}

} // verus!
