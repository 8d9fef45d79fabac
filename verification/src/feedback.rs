//! The feedback of a copy button: idle, hovered, or just used.
//!
//! The button says "Copied!" from the click until the pointer leaves it or
//! the host's display time runs out, and "Copy" at every other time.

use vstd::prelude::*;

verus! {

/// What a copy button shows.
#[derive(Clone, Copy, Debug, PartialEq, Eq, Structural)]
pub enum CopyState {
    Idle,
    Hovering,
    Copied,
}

/// What the host reports to a copy button.
#[derive(Clone, Copy, Debug, PartialEq, Eq, Structural)]
pub enum CopyEvent {
    /// The pointer came over the button.
    HoverEntered,
    /// The pointer left the button.
    HoverLeft,
    /// The button was clicked.
    Clicked,
    /// The time for which "Copied!" is displayed has run out.
    TimedOut,
}

impl CopyState {
    /// The state after an event.
    ///
    /// The pointer enters an idle button and hovers; a click on a hovered
    /// button copies; the pointer's leaving, and the end of the display time
    /// after a copy, lead back to idle. Nothing else changes the state.
    pub open spec fn next(self, event: CopyEvent) -> CopyState {
        match (self, event) {
            (_, CopyEvent::HoverLeft) => CopyState::Idle,
            (CopyState::Idle, CopyEvent::HoverEntered) => CopyState::Hovering,
            (CopyState::Hovering, CopyEvent::Clicked) => CopyState::Copied,
            (CopyState::Copied, CopyEvent::TimedOut) => CopyState::Idle,
            (state, _) => state,
        }
    }

    /// The text of the tooltip in this state.
    pub open spec fn label(self) -> Seq<char> {
        if self is Copied {
            "Copied!"@
        } else {
            "Copy"@
        }
    }

    /// The state after an event.
    pub fn on(self, event: CopyEvent) -> (res: CopyState)
        ensures
            res == self.next(event),
    {
        match (self, event) {
            (_, CopyEvent::HoverLeft) => CopyState::Idle,
            (CopyState::Idle, CopyEvent::HoverEntered) => CopyState::Hovering,
            (CopyState::Hovering, CopyEvent::Clicked) => CopyState::Copied,
            (CopyState::Copied, CopyEvent::TimedOut) => CopyState::Idle,
            (state, _) => state,
        }
    }

    /// Whether this event puts the text on the clipboard: a click on a
    /// button that is hovered or was just used.
    pub fn copies(self, event: CopyEvent) -> (res: bool)
        ensures
            res == (event is Clicked && !(self is Idle)),
    {
        match (self, event) {
            (CopyState::Hovering, CopyEvent::Clicked) => true,
            (CopyState::Copied, CopyEvent::Clicked) => true,
            _ => false,
        }
    }

    /// The text of the tooltip in this state.
    pub fn tooltip(self) -> (res: &'static str)
        ensures
            res@ == self.label(),
    {
        match self {
            CopyState::Copied => "Copied!",
            _ => "Copy",
        }
    }
}

/// "Copied!" is shown only between a click on the hovered button and the
/// next leaving or timing out: whatever the state before, no event but a
/// click leads to `Copied` from another state.
pub proof fn lemma_copied_only_by_click(state: CopyState, event: CopyEvent)
    ensures
        state.next(event) is Copied ==> state is Copied || (state is Hovering && event is Clicked),
        event is HoverLeft ==> state.next(event) is Idle,
{
}

} // verus!
