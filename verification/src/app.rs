//! The loop of the application: draw, handle the events of the window,
//! let the game update itself, until the window is closed.
//!
//! The loop itself runs where the window and the renderer are. What it
//! does next is decided here: the loop reports what it has done, and is
//! told what to do.

use vstd::prelude::*;
use crate::input::OozeEvent;

verus! {

/// This should be implemented by the user's main Game or GameState
/// struct.
pub trait GameState {
    /// Update this object's state, called by the application loop once
    /// per frame. Does nothing unless the game says otherwise.
    fn update(&mut self) {
    }
}

/// What the loop does next.
#[derive(Clone, Copy, Debug, PartialEq, Eq, Structural)]
pub enum Action {
    /// Clear the window, draw the terminal and show the frame.
    Draw,
    /// Poll the events of the window and report them.
    HandleEvents,
    /// Let the game update itself.
    UpdateGame,
    /// Leave the loop.
    Finish,
}

/// What the loop has done.
pub enum Done {
    Drawn,
    Handled(Vec<OozeEvent>),
    Updated,
}

/// Where the loop stands: whether the window was closed, and what is to
/// be done next.
#[derive(Clone, Copy, Debug, PartialEq, Eq, Structural)]
pub struct RunLoop {
    pub closed: bool,
    pub next: Action,
}

/// Whether one of the events closes the window.
pub open spec fn closes(events: Seq<OozeEvent>) -> bool {
    exists|i: int| 0 <= i < events.len() && events[i] == OozeEvent::WindowClose
}

impl RunLoop {
    /// The loop before its first frame: the window is open, and the first
    /// thing to do is to draw.
    pub fn new() -> (state: RunLoop)
        ensures
            state == (RunLoop { closed: false, next: Action::Draw }),
    {
        RunLoop { closed: false, next: Action::Draw }
    }

    /// Where the loop stands after it has done what it reports. A frame
    /// is drawn, then the events are handled, then the game updates
    /// itself; after that the loop draws again, or leaves if the window
    /// was closed. A report of something that was not to be done changes
    /// nothing.
    pub open spec fn spec_advance(self, events: Option<Seq<OozeEvent>>, done: Action) -> RunLoop {
        if done != self.next {
            self
        } else {
            match self.next {
                Action::Draw => RunLoop { next: Action::HandleEvents, ..self },
                Action::HandleEvents => RunLoop {
                    closed: self.closed || (events is Some && closes(events->0)),
                    next: Action::UpdateGame,
                },
                Action::UpdateGame => RunLoop {
                    next: if self.closed {
                        Action::Finish
                    } else {
                        Action::Draw
                    },
                    ..self
                },
                Action::Finish => self,
            }
        }
    }

    /// Tells the loop what to do after what it has done.
    pub fn advance(self, done: &Done) -> (state: RunLoop)
        ensures
            state == self.spec_advance(
                match *done {
                    Done::Handled(events) => Some(events@),
                    _ => None,
                },
                match *done {
                    Done::Drawn => Action::Draw,
                    Done::Handled(_) => Action::HandleEvents,
                    Done::Updated => Action::UpdateGame,
                },
            ),
    {
        match done {
            Done::Drawn => {
                match self.next {
                    Action::Draw => RunLoop { closed: self.closed, next: Action::HandleEvents },
                    _ => self,
                }
            },
            Done::Handled(events) => {
                match self.next {
                    Action::HandleEvents => {
                        let closed = self.closed || any_closes(events);
                        RunLoop { closed, next: Action::UpdateGame }
                    },
                    _ => self,
                }
            },
            Done::Updated => {
                match self.next {
                    Action::UpdateGame => {
                        if self.closed {
                            RunLoop { closed: self.closed, next: Action::Finish }
                        } else {
                            RunLoop { closed: self.closed, next: Action::Draw }
                        }
                    },
                    _ => self,
                }
            },
        }
    }
}

/// Whether one of the events closes the window.
pub fn any_closes(events: &Vec<OozeEvent>) -> (found: bool)
    ensures
        found == closes(events@),
{
    let mut i: usize = 0;
    while i < events.len()
        invariant
            i <= events@.len(),
            forall|j: int| 0 <= j < i ==> events@[j] != OozeEvent::WindowClose,
        decreases events@.len() - i,
    {
        match events[i] {
            OozeEvent::WindowClose => {
                return true;
            },
            _ => {},
        }
        i = i + 1;
    }
    false
}

/// A window that was closed stays closed, and the loop that has seen it
/// closed leaves after the update of that frame: it draws no frame more.
pub proof fn lemma_closed_loop_leaves(state: RunLoop, events: Option<Seq<OozeEvent>>, done: Action)
    ensures
        state.closed ==> state.spec_advance(events, done).closed,
        state.closed ==> state.spec_advance(events, done).next != Action::Draw || state.next
            == Action::Draw,
        state.next == Action::HandleEvents && done == Action::HandleEvents && events is Some && closes(
            events->0,
        ) ==> state.spec_advance(events, done).closed,
        state.next == Action::Finish ==> state.spec_advance(events, done) == state,
{
}

} // verus!
